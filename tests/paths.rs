use jj_subtree::repo_path::join_paths;
use jj_subtree::repo_path::RepoPathBuf;

fn path(s: &str) -> RepoPathBuf {
    RepoPathBuf::from_internal_string(s).unwrap()
}

#[test]
fn test_join_paths_both_non_root() {
    let prefix = path("vendor/lib");
    let suffix = path("src/main.rs");
    let joined = join_paths(&prefix, &suffix);
    assert_eq!(joined.as_internal_file_string(), "vendor/lib/src/main.rs");
}

#[test]
fn test_join_paths_prefix_root() {
    let prefix = RepoPathBuf::root();
    let suffix = path("src/main.rs");
    let joined = join_paths(&prefix, &suffix);
    assert_eq!(joined.as_internal_file_string(), "src/main.rs");
}

#[test]
fn test_join_paths_suffix_root() {
    let prefix = path("vendor/lib");
    let suffix = RepoPathBuf::root();
    let joined = join_paths(&prefix, &suffix);
    assert_eq!(joined.as_internal_file_string(), "vendor/lib");
}

#[test]
fn internal_strings_are_checked() {
    assert!(RepoPathBuf::from_internal_string("").unwrap().is_root());
    assert!(RepoPathBuf::from_internal_string("a/b/c").is_ok());
    assert!(RepoPathBuf::from_internal_string("/a").is_err());
    assert!(RepoPathBuf::from_internal_string("a/").is_err());
    assert!(RepoPathBuf::from_internal_string("a//b").is_err());
    assert_eq!(RepoPathBuf::from_internal_string("a//b").unwrap_err().value, "a//b");
}

#[test]
fn starts_with_respects_components() {
    assert!(path("vendor/lib/x").starts_with(&path("vendor/lib")));
    assert!(path("vendor/lib").starts_with(&path("vendor/lib")));
    assert!(!path("vendor/library").starts_with(&path("vendor/lib")));
    assert!(path("vendor").starts_with(&RepoPathBuf::root()));
    assert!(!path("vendor").starts_with(&path("vendor/lib")));
}

#[test]
fn strip_prefix_takes_off_the_prefix() {
    let stripped = path("vendor/lib/src/a.rs").strip_prefix(&path("vendor/lib")).unwrap();
    assert_eq!(stripped.as_internal_file_string(), "src/a.rs");
    assert!(path("vendor/lib").strip_prefix(&path("vendor/lib")).unwrap().is_root());
    assert!(path("other/a.rs").strip_prefix(&path("vendor/lib")).is_none());
}
