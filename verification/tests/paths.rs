use git_why::paths::{
    missing_error, normalize_path, not_file_error, outside_error, relative_target, strip_base,
    symlink_error, tracked_path, PathPart,
};
use git_why::text::{decimal_string, trim_str};

fn normal(name: &str) -> PathPart {
    PathPart::Normal(name.as_bytes().to_vec())
}

fn bytes(names: &[&str]) -> Vec<Vec<u8>> {
    names.iter().map(|name| name.as_bytes().to_vec()).collect()
}

fn absolute(names: &[&str]) -> Vec<PathPart> {
    let mut parts = vec![PathPart::Root];
    parts.extend(names.iter().map(|name| normal(name)));
    parts
}

#[test]
fn normalization_drops_current_and_resolves_parent_directories() {
    let parts = vec![PathPart::Root, normal("a"), PathPart::Current, normal("b"), PathPart::Parent, normal("c")];
    let normalized = normalize_path(&parts);
    assert!(normalized.absolute);
    assert_eq!(normalized.names, bytes(&["a", "c"]));
    let above_root = normalize_path(&vec![PathPart::Root, PathPart::Parent, normal("x")]);
    assert!(above_root.absolute);
    assert_eq!(above_root.names, bytes(&["x"]));
    let relative = normalize_path(&vec![PathPart::Parent, normal("y")]);
    assert!(!relative.absolute);
    assert_eq!(relative.names, bytes(&["y"]));
}

#[test]
fn targets_are_read_relative_to_the_current_directory() {
    let root = absolute(&["repo"]);
    let nested = absolute(&["repo", "src"]);
    let names = relative_target(&root, &nested, &vec![normal("auth.rs")], "auth.rs").unwrap();
    assert_eq!(tracked_path(&names).unwrap(), "src/auth.rs");
    let names = relative_target(&root, &root, &vec![normal("src"), normal("auth.rs")], "src/auth.rs").unwrap();
    assert_eq!(tracked_path(&names).unwrap(), "src/auth.rs");
    let names = relative_target(&root, &nested, &absolute(&["repo", "x.rs"]), "/repo/x.rs").unwrap();
    assert_eq!(tracked_path(&names).unwrap(), "x.rs");
    let outside = relative_target(&root, &nested, &vec![PathPart::Parent, PathPart::Parent, normal("etc")], "../../etc");
    assert_eq!(outside.unwrap_err().0, "file \"../../etc\" is outside the current Git repository");
    let sibling = relative_target(&root, &root, &absolute(&["repository", "x"]), "/repository/x");
    assert!(sibling.is_err());
    let odd_root = vec![PathPart::Root, PathPart::Normal(vec![0xff]), normal("repo")];
    let mut odd_cwd = odd_root.clone();
    odd_cwd.push(normal("src"));
    let names = relative_target(&odd_root, &odd_cwd, &vec![normal("a.rs")], "a.rs").unwrap();
    assert_eq!(tracked_path(&names).unwrap(), "src/a.rs");
}

#[test]
fn stripping_a_base_keeps_the_rest() {
    let base = normalize_path(&absolute(&["repo"]));
    let inside = normalize_path(&absolute(&["repo", "a", "b"]));
    assert_eq!(strip_base(&inside, &base).unwrap(), bytes(&["a", "b"]));
    assert!(strip_base(&base, &inside).is_none());
    assert!(tracked_path(&Vec::new()).unwrap().is_empty());
    assert_eq!(tracked_path(&bytes(&["caf\u{e9}", "x.rs"])).unwrap(), "caf\u{e9}/x.rs");
    assert_eq!(
        tracked_path(&vec![b"a".to_vec(), vec![0xff, 0x41]]).unwrap_err().0,
        "non-UTF-8 file paths are not supported"
    );
}

#[test]
fn path_errors_quote_the_target() {
    assert_eq!(outside_error("a b").0, "file \"a b\" is outside the current Git repository");
    assert_eq!(
        symlink_error("alias.rs").0,
        "file \"alias.rs\" passes through a symbolic link; use its tracked path instead"
    );
    assert_eq!(missing_error("gone.rs").0, "file \"gone.rs\" does not exist");
    assert_eq!(not_file_error("dir").0, "\"dir\" is not a file");
    assert_eq!(missing_error("say \"hi\"").0, "file \"say \\\"hi\\\"\" does not exist");
}

#[test]
fn text_primitives() {
    assert_eq!(decimal_string(0), "0");
    assert_eq!(decimal_string(18446744073709551615), "18446744073709551615");
    assert_eq!(trim_str(" \u{3000}\tx y\u{85}\n"), "x y");
    assert_eq!(trim_str("   "), "");
}
