use git_why::command::{limit_git_output, read_git_output};
use git_why::evidence::extract_references;
use git_why::git::{parse_blame_commit, parse_hash_lines, parse_target, select_hashes, validate_target};
use git_why::remote::{parse_github_remote, safe_github_name};

#[test]
fn target_uses_the_last_colon() {
    assert_eq!(
        parse_target("C:\\work\\auth.rs:42").unwrap(),
        ("C:\\work\\auth.rs", 42)
    );
    assert!(parse_target("src/auth.rs").is_err());
    assert!(parse_target("src/auth.rs:0").is_err());
}

#[test]
fn parses_supported_github_remotes() {
    assert_eq!(
        parse_github_remote("git@github.com:acme/widgets.git").as_deref(),
        Some("acme/widgets")
    );
    assert_eq!(
        parse_github_remote("https://github.com/acme/widgets").as_deref(),
        Some("acme/widgets")
    );
    assert_eq!(
        parse_github_remote("https://github.com/acme/widgets/").as_deref(),
        Some("acme/widgets")
    );
    assert!(parse_github_remote("https://example.com/acme/widgets").is_none());
}

#[test]
fn rejects_oversized_git_output() {
    assert!(read_git_output(std::io::repeat(0)).is_err());
}

#[test]
fn extracts_unique_references() {
    let references = extract_references("Fixes #12 and duplicates #12; see #7", Some("acme/app"));
    assert_eq!(references.len(), 2);
    assert_eq!(references[0].number, 12);
    assert_eq!(
        references[1].url.as_deref(),
        Some("https://github.com/acme/app/issues/7")
    );
}

#[test]
fn target_error_messages_name_the_problem() {
    assert_eq!(
        parse_target("src/auth.rs").unwrap_err().0,
        "target must end with a line number, for example src/auth.rs:42"
    );
    assert_eq!(parse_target(":3").unwrap_err().0, "target path cannot be empty");
    assert_eq!(parse_target("short.txt:not-a-line").unwrap_err().0, "invalid line number \"not-a-line\"");
    assert_eq!(parse_target("src/auth.rs:0").unwrap_err().0, "line numbers start at 1");
    assert_eq!(parse_target("src/auth.rs:").unwrap_err().0, "invalid line number \"\"");
    assert_eq!(parse_target("clock:zone.rs:1").unwrap(), ("clock:zone.rs", 1));
    assert_eq!(parse_target("a.rs:+7").unwrap(), ("a.rs", 7));
    assert_eq!(parse_target("a.rs:007").unwrap(), ("a.rs", 7));
    assert!(parse_target("a.rs:-1").is_err());
    assert!(parse_target("a.rs:99999999999999999999999").is_err());
}

#[test]
fn validate_target_keeps_the_argument() {
    assert_eq!(validate_target("src/auth.rs:42"), Ok("src/auth.rs:42".to_string()));
    assert_eq!(
        validate_target("src/auth.rs:x"),
        Err("invalid line number \"x\"".to_string())
    );
}

#[test]
fn blame_output_names_the_commit() {
    let output = b"0123456789abcdef0123456789abcdef01234567 1) let x = 1;\n";
    assert_eq!(
        parse_blame_commit(output).unwrap(),
        "0123456789abcdef0123456789abcdef01234567"
    );
    assert_eq!(
        parse_blame_commit(b"xyz 1) code\n").unwrap_err().0,
        "Git returned invalid blame output"
    );
    assert_eq!(
        parse_blame_commit(b"abc12 short\n").unwrap_err().0,
        "Git returned invalid blame output"
    );
    assert_eq!(
        parse_blame_commit(&[0xff, 0xfe]).unwrap_err().0,
        "Git blame output is not valid UTF-8"
    );
    assert!(parse_blame_commit(b"").is_err());
}

#[test]
fn hash_lines_skip_other_lines() {
    let output = b"0123456789abcdef\n  fedcba9876543210  \r\nnot a hash\nabc\n\n";
    assert_eq!(
        parse_hash_lines(output),
        vec!["0123456789abcdef".to_string(), "fedcba9876543210".to_string()]
    );
    assert!(parse_hash_lines(b"").is_empty());
}

#[test]
fn evidence_hashes_start_with_the_blamed_commit_and_hold_no_duplicates() {
    let history: Vec<String> = ["b", "a", "c", "b", "d", "e", "f", "g"]
        .iter()
        .map(|s| s.to_string())
        .collect();
    let chosen = select_hashes(&"a".to_string(), &history);
    assert_eq!(chosen, vec!["a", "b", "c", "d", "e"]);
    let long: Vec<String> = ["b", "c", "d", "e", "f", "g", "h"]
        .iter()
        .map(|s| s.to_string())
        .collect();
    assert_eq!(select_hashes(&"a".to_string(), &long), vec!["a", "b", "c", "d", "e", "f"]);
    assert_eq!(select_hashes(&"a".to_string(), &Vec::new()), vec!["a"]);
}

#[test]
fn references_without_a_repository_have_no_links() {
    let references = extract_references("see #0, #x, ## #3#4 and #18446744073709551616", None);
    let numbers: Vec<u64> = references.iter().map(|r| r.number).collect();
    assert_eq!(numbers, vec![3, 4]);
    assert!(references.iter().all(|r| r.url.is_none()));
    assert!(extract_references("", None).is_empty());
}

#[test]
fn github_remotes_in_all_supported_forms() {
    assert_eq!(
        parse_github_remote("http://github.com/a-b/c_d.e").as_deref(),
        Some("a-b/c_d.e")
    );
    assert_eq!(
        parse_github_remote("ssh://git@github.com/acme/widgets.git/").as_deref(),
        Some("acme/widgets")
    );
    assert!(parse_github_remote("https://github.com/acme").is_none());
    assert!(parse_github_remote("https://github.com/acme/widgets/extra").is_none());
    assert!(parse_github_remote("https://github.com//widgets").is_none());
    assert!(parse_github_remote("https://github.com/ac me/widgets").is_none());
    assert!(safe_github_name('a') && safe_github_name('.') && !safe_github_name('/'));
}

#[test]
fn small_git_output_is_read_whole() {
    let data: &[u8] = b"abc\n";
    assert_eq!(read_git_output(data).unwrap(), b"abc\n".to_vec());
}

#[test]
fn git_output_is_held_to_the_limit() {
    assert_eq!(limit_git_output(Ok(b"abc".to_vec())).unwrap(), b"abc".to_vec());
    assert!(limit_git_output(Ok(vec![0u8; 5 * 1024 * 1024])).is_ok());
    assert!(limit_git_output(Ok(vec![0u8; 5 * 1024 * 1024 + 1])).is_err());
    assert!(limit_git_output(Err(std::io::Error::other("broken"))).is_err());
}

#[test]
fn oversized_git_output_says_why() {
    let error = read_git_output(std::io::repeat(0)).unwrap_err();
    assert_eq!(error.kind(), std::io::ErrorKind::Other);
    assert_eq!(error.to_string(), "output exceeded the 5 MiB safety limit");
    let error = limit_git_output(Ok(vec![1u8; 5 * 1024 * 1024 + 1])).unwrap_err();
    assert_eq!(error.to_string(), "output exceeded the 5 MiB safety limit");
}
