use git_why::analysis::{check_blob_size, check_commit_size, source_line, Analysis, Request, Stage};
use git_why::command::{git_text, github_remote, run_git, run_git_checked, GitOutput};
use git_why::evidence::{commit_metadata, recorded_reason, substantive_subject};
use git_why::model::{EvidenceRelation, ReasonStatus};
use git_why::AppError;

const HASH_A: &str = "aaaaaaaaaaaaaaaaaaaaaaaaaaaaaaaaaaaaaaaa";
const HASH_B: &str = "bbbbbbbbbbbbbbbbbbbbbbbbbbbbbbbbbbbbbbbb";

fn ok(stdout: &[u8]) -> Result<GitOutput, AppError> {
    Ok(GitOutput { success: true, stdout: stdout.to_vec(), stderr: Vec::new() })
}

fn failed(stderr: &[u8]) -> Result<GitOutput, AppError> {
    Ok(GitOutput { success: false, stdout: Vec::new(), stderr: stderr.to_vec() })
}

fn arguments(analysis: &Analysis) -> (bool, Vec<String>) {
    match analysis.request() {
        Request::Git { in_root, arguments } => (in_root, arguments),
        _ => panic!("expected a Git command"),
    }
}

fn metadata(hash: &str, subject: &str, body: &str) -> Vec<u8> {
    format!("{hash}\0 2026-01-02T03:04:05Z \0Ada\0{subject}\0{body}\0").into_bytes()
}

/// Runs an analysis of `a.rs:1` up to its history stage.
fn up_to_history() -> Analysis {
    let mut analysis = Analysis::start("a.rs:1").unwrap();
    assert_eq!(arguments(&analysis), (false, vec!["rev-parse".to_string(), "--show-toplevel".to_string()]));
    analysis.on_git(ok(b"/repo\n"));
    assert_eq!(analysis.root, "/repo");
    assert!(matches!(analysis.request(), Request::ResolvePath));
    analysis.on_path(Ok("a.rs".to_string()));
    assert_eq!(arguments(&analysis).1, vec!["rev-parse", "--verify", "HEAD^{commit}"]);
    analysis.on_git(ok(format!("{HASH_A}\n").as_bytes()));
    let object = format!("{HASH_A}:a.rs");
    assert_eq!(arguments(&analysis), (true, vec!["cat-file".to_string(), "-e".to_string(), object.clone()]));
    analysis.on_git(ok(b""));
    assert_eq!(arguments(&analysis).1, vec!["cat-file".to_string(), "-s".to_string(), object.clone()]);
    analysis.on_git(ok(b"12\n"));
    assert_eq!(arguments(&analysis).1, vec!["cat-file".to_string(), "blob".to_string(), object]);
    analysis.on_git(ok(b"let x = 1;\r\n"));
    assert_eq!(analysis.text, "let x = 1;");
    assert_eq!(arguments(&analysis).1, vec!["status", "--porcelain=v1", "--", "a.rs"]);
    analysis.on_git(ok(b" M a.rs\n"));
    assert!(analysis.dirty);
    assert_eq!(arguments(&analysis).1, vec!["rev-parse", "--is-shallow-repository"]);
    analysis.on_git(ok(b"false\n"));
    assert!(!analysis.shallow);
    let blame = arguments(&analysis).1;
    assert_eq!(
        blame,
        vec!["blame", "-w", "-M", "-C", "--root", "-l", "-s", "-L", "1,1", HASH_A, "--", "a.rs"]
    );
    analysis.on_git(ok(format!("{HASH_A} 1) let x = 1;\n").as_bytes()));
    assert_eq!(analysis.blamed, HASH_A);
    let history = arguments(&analysis).1;
    assert_eq!(
        history,
        vec![
            "log", "--no-color", "--no-ext-diff", "--no-textconv", "--no-patch", "--format=%H",
            "--max-count", "7", "-L", "1,1:a.rs", HASH_A
        ]
    );
    analysis
}

#[test]
fn analysis_runs_every_step_and_reports_the_recorded_reason() {
    let mut analysis = up_to_history();
    analysis.on_git(ok(format!("{HASH_A}\n{HASH_B}\n").as_bytes()));
    assert_eq!(analysis.hashes, vec![HASH_A, HASH_B]);
    assert_eq!(arguments(&analysis).1, vec!["config", "--get", "remote.origin.url"]);
    analysis.on_git(ok(b"git@github.com:acme/widgets.git\n"));
    assert_eq!(analysis.github_repo.as_deref(), Some("acme/widgets"));
    assert_eq!(arguments(&analysis).1, vec!["cat-file", "-s", HASH_A]);
    analysis.on_git(ok(b"300\n"));
    assert_eq!(
        arguments(&analysis).1,
        vec!["show", "-s", "--no-color", "--no-notes", "--format=format:%H%x00%aI%x00%an%x00%s%x00%b%x00", HASH_A]
    );
    analysis.on_git(ok(&metadata(HASH_A, "Retry widget failures (#42)", "\n  Avoid failing once.  \nMore.\n")));
    analysis.on_git(ok(b"300\n"));
    analysis.on_git(ok(&metadata(HASH_B, "update", "")));
    assert!(matches!(analysis.stage, Stage::Complete));
    assert!(matches!(analysis.request(), Request::Done));
    let report = analysis.finish().unwrap();
    assert_eq!(report.schema_version, 1);
    assert_eq!(report.target.path, "a.rs");
    assert_eq!(report.target.revision, HASH_A);
    assert_eq!(report.target.line, 1);
    assert_eq!(report.target.text, "let x = 1;");
    assert!(report.target.dirty);
    assert_eq!(report.reason.status, ReasonStatus::Recorded);
    assert_eq!(report.reason.text.as_deref(), Some("Avoid failing once."));
    assert_eq!(report.reason.source_commit.as_deref(), Some(HASH_A));
    assert_eq!(report.evidence.len(), 2);
    assert_eq!(report.evidence[0].relation, EvidenceRelation::LastChanged);
    assert_eq!(report.evidence[1].relation, EvidenceRelation::LineHistory);
    assert_eq!(report.evidence[0].authored_at, "2026-01-02T03:04:05Z");
    assert_eq!(report.evidence[0].references[0].number, 42);
    assert_eq!(
        report.evidence[0].references[0].url.as_deref(),
        Some("https://github.com/acme/widgets/issues/42")
    );
    assert!(report.history_complete);
    assert_eq!(report.warnings, vec!["working-tree changes were ignored; evidence is for HEAD"]);
}

#[test]
fn analysis_falls_back_to_file_history_and_limits_it() {
    let mut analysis = up_to_history();
    analysis.on_git(failed(b"fatal: no such path"));
    assert_eq!(
        arguments(&analysis).1,
        vec![
            "log", "--follow", "--no-color", "--no-ext-diff", "--no-textconv", "--no-patch",
            "--format=%H", "--max-count", "7", HASH_A, "--", "a.rs"
        ]
    );
    let history: String = (1..=7).map(|i| format!("{:040}\n", i)).collect();
    analysis.on_git(ok(history.as_bytes()));
    assert_eq!(analysis.hashes.len(), 6);
    analysis.on_git(Err(AppError("could not run Git: missing".to_string())));
    assert_eq!(analysis.github_repo, None);
    for index in 0..6 {
        analysis.on_git(ok(b"10"));
        let hash = analysis.hashes[index].clone();
        analysis.on_git(ok(&metadata(&hash, "update", "")));
    }
    let report = analysis.finish().unwrap();
    assert_eq!(report.evidence.len(), 6);
    assert_eq!(report.evidence[0].relation, EvidenceRelation::LastChanged);
    assert!(report.evidence[1..].iter().all(|e| e.relation == EvidenceRelation::FileHistory));
    assert_eq!(report.reason.status, ReasonStatus::Unknown);
    assert!(report.reason.text.is_none());
    assert!(!report.history_complete);
    assert_eq!(
        report.warnings,
        vec![
            "working-tree changes were ignored; evidence is for HEAD",
            "exact line history was unavailable; showing file history",
            "history output was limited to 6 commits",
        ]
    );
}

#[test]
fn analysis_failures_carry_their_messages() {
    let mut analysis = Analysis::start("a.rs:1").unwrap();
    analysis.on_git(failed(b"  fatal: not a git repository  \n"));
    match analysis.finish() {
        Err(e) => assert_eq!(e.0, "fatal: not a git repository"),
        Ok(_) => panic!("expected a failure"),
    }
    let mut analysis = Analysis::start("a.rs:1").unwrap();
    analysis.on_git(failed(b""));
    assert_eq!(analysis.finish().unwrap_err().0, "Git command failed");
    let mut analysis = Analysis::start("a.rs:3").unwrap();
    analysis.on_git(ok(b"/repo"));
    analysis.on_path(Ok("a.rs".to_string()));
    analysis.on_git(ok(HASH_A.as_bytes()));
    analysis.on_git(ok(b""));
    analysis.on_git(ok(b"5"));
    analysis.on_git(ok(b"one\n"));
    assert_eq!(analysis.finish().unwrap_err().0, "line 3 is outside \"a.rs\" (1-1)");
    let mut analysis = Analysis::start("a.rs:1").unwrap();
    analysis.on_git(ok(b"/repo"));
    analysis.on_path(Err(AppError("file \"a.rs\" does not exist".to_string())));
    assert_eq!(analysis.finish().unwrap_err().0, "file \"a.rs\" does not exist");
    assert_eq!(Analysis::start("a.rs").err().unwrap().0, "target must end with a line number, for example src/auth.rs:42");
}

#[test]
fn source_lines_and_size_limits() {
    assert_eq!(source_line(b"first\r\nsecond\r\n", 2, "crlf.txt").unwrap(), "second");
    assert_eq!(source_line(b"only line", 1, "single.txt").unwrap(), "only line");
    assert_eq!(source_line(b"a\r\r\n", 1, "x").unwrap(), "a");
    assert_eq!(source_line(b"", 1, "empty.txt").unwrap_err().0, "line 1 is outside \"empty.txt\" (1-0)");
    assert_eq!(
        source_line(b"text\0more text\n", 1, "binary.dat").unwrap_err().0,
        "\"binary.dat\" is binary; only UTF-8 text files are supported"
    );
    assert_eq!(source_line(&[0xc3, 0x28], 1, "bad").unwrap_err().0, "\"bad\" is not valid UTF-8 text");
    assert_eq!(check_blob_size("5242880", "a").unwrap(), 5242880);
    assert_eq!(check_blob_size("5242881", "a").unwrap_err().0, "\"a\" is larger than the 5 MiB safety limit");
    assert_eq!(check_blob_size("big", "a").unwrap_err().0, "Git returned an invalid file size");
    assert_eq!(check_commit_size("1048577", "abc").unwrap_err().0, "commit abc exceeds the 1 MiB metadata safety limit");
    assert_eq!(check_commit_size("", "abc").unwrap_err().0, "Git returned an invalid size for commit abc");
}

#[test]
fn command_outcomes() {
    let out = GitOutput { success: true, stdout: b"x\r\n\n".to_vec(), stderr: Vec::new() };
    assert_eq!(git_text(out.clone(), "m".to_string()).unwrap(), "x");
    assert_eq!(git_text(failed(b"").unwrap(), "m".to_string()).unwrap_err().0, "m");
    assert_eq!(run_git_checked(failed(b"e").unwrap(), "m".to_string()).unwrap_err().0, "m");
    assert!(run_git(out).is_ok());
    assert_eq!(github_remote(ok(b"https://github.com/acme/app.git\n")).as_deref(), Some("acme/app"));
    assert_eq!(github_remote(failed(b"")), None);
    assert_eq!(github_remote(ok(&[0xff])), None);
}

#[test]
fn commit_metadata_fields_and_errors() {
    let item = commit_metadata(&metadata(HASH_A, " Subject #5 ", " Body #5 #6 "), HASH_A, None).unwrap();
    assert_eq!(item.commit, HASH_A);
    assert_eq!(item.subject, "Subject #5");
    assert_eq!(item.body, "Body #5 #6");
    assert_eq!(item.relation, EvidenceRelation::LineHistory);
    let numbers: Vec<u64> = item.references.iter().map(|r| r.number).collect();
    assert_eq!(numbers, vec![5, 6]);
    assert_eq!(
        commit_metadata(b"a\0b\0c", "h", None).unwrap_err().0,
        "Git returned invalid metadata for commit h"
    );
    assert_eq!(
        commit_metadata(b"a\0b\0c\0d\0e\0f", "h", None).unwrap_err().0,
        "Git returned invalid metadata for commit h"
    );
    assert_eq!(
        commit_metadata(b"a\0b\0\xff\0d\0e\0", "h", None).unwrap_err().0,
        "commit h has non-UTF-8 author"
    );
}

#[test]
fn reasons_come_from_the_body_or_a_substantive_subject() {
    let mut item = commit_metadata(&metadata(HASH_A, "Fix token clock skew", ""), HASH_A, None).unwrap();
    let reason = recorded_reason(Some(&item));
    assert_eq!(reason.status, ReasonStatus::Recorded);
    assert_eq!(reason.text.as_deref(), Some("Fix token clock skew"));
    item.subject = "Update!".to_string();
    let reason = recorded_reason(Some(&item));
    assert_eq!(reason.status, ReasonStatus::Unknown);
    assert_eq!(reason.text, None);
    assert_eq!(reason.source_commit.as_deref(), Some(HASH_A));
    let none = recorded_reason(None);
    assert_eq!(none.status, ReasonStatus::Unknown);
    assert!(none.source_commit.is_none());
    assert!(!substantive_subject("  -- Initial Commit! "));
    assert!(!substantive_subject("short"));
    assert!(substantive_subject("Handle clock drift"));
    assert!(substantive_subject("ééééé"));
    assert!(!substantive_subject("ééé "));
}
