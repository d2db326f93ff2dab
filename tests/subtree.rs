use jj_subtree::backend::create_subtree_backend;
use jj_subtree::backend::LocalSubtreeBackend;
use jj_subtree::backend::SubtreeBackend;
use jj_subtree::backend::SubtreeBackendError;
use jj_subtree::prefix::extract_subtree;
use jj_subtree::prefix::filter_commits_by_prefix;
use jj_subtree::prefix::has_subtree_at_prefix;
use jj_subtree::prefix::move_tree_to_prefix;
use jj_subtree::prefix::prefix_conflicts_with_file;
use jj_subtree::prefix::SubtreeError;
use jj_subtree::repo_path::RepoPathBuf;
use jj_subtree::store::Commit;
use jj_subtree::store::CommitId;
use jj_subtree::store::Store;
use jj_subtree::tree::Tree;
use jj_subtree::tree::TreeBuilder;
use jj_subtree::tree::TreeValue;

fn repo_path(s: &str) -> RepoPathBuf {
    RepoPathBuf::from_internal_string(s).unwrap()
}

fn file(content: &str) -> TreeValue {
    TreeValue::file(content.as_bytes().to_vec())
}

fn create_tree(entries: &[(&str, &str)]) -> Tree {
    let mut builder = TreeBuilder::new(Tree::empty());
    for (path, content) in entries {
        builder.set_or_remove(repo_path(path), Some(file(content)));
    }
    builder.write_tree()
}

fn commit(n: u8, parents: Vec<CommitId>, tree: Tree, description: &str) -> Commit {
    Commit::new(CommitId::new(vec![n; 20]), parents, tree, description.to_string())
}

#[test]
fn test_move_tree_to_prefix_single_file() {
    let tree = create_tree(&[("file.txt", "content")]);
    let prefix = repo_path("vendor/lib");
    let result = move_tree_to_prefix(&tree, &prefix).unwrap();
    assert!(has_subtree_at_prefix(&result, &repo_path("vendor/lib/file.txt")).unwrap());
    assert!(!has_subtree_at_prefix(&result, &repo_path("file.txt")).unwrap());
}

#[test]
fn test_move_tree_to_prefix_nested_directory() {
    let tree = create_tree(&[
        ("src/main.rs", "fn main() {}"),
        ("src/lib/util.rs", "pub fn util() {}"),
        ("README.md", "# Project"),
    ]);
    let prefix = repo_path("external");
    let result = move_tree_to_prefix(&tree, &prefix).unwrap();
    assert!(has_subtree_at_prefix(&result, &repo_path("external/src/main.rs")).unwrap());
    assert!(has_subtree_at_prefix(&result, &repo_path("external/src/lib/util.rs")).unwrap());
    assert!(has_subtree_at_prefix(&result, &repo_path("external/README.md")).unwrap());
    assert!(!has_subtree_at_prefix(&result, &repo_path("src/main.rs")).unwrap());
}

#[test]
fn test_move_tree_to_prefix_root_prefix_error() {
    let tree = create_tree(&[("file.txt", "content")]);
    let result = move_tree_to_prefix(&tree, &RepoPathBuf::root());
    assert!(matches!(result, Err(SubtreeError::InvalidPrefix { .. })));
}

#[test]
fn test_move_tree_to_prefix_empty_tree() {
    let empty_tree = Tree::empty();
    let prefix = repo_path("vendor/lib");
    let result = move_tree_to_prefix(&empty_tree, &prefix).unwrap();
    assert!(!has_subtree_at_prefix(&result, &prefix).unwrap());
}

#[test]
fn test_move_tree_to_prefix_preserves_file_contents() {
    let content = "fn main() { println!(\"Hello\"); }";
    let tree = create_tree(&[("main.rs", content)]);
    let prefix = repo_path("vendor/lib");
    let result = move_tree_to_prefix(&tree, &prefix).unwrap();
    let value = result.get(&repo_path("vendor/lib/main.rs"));
    assert!(value.is_some());
    assert_eq!(value.unwrap().id, content.as_bytes().to_vec());
}

#[test]
fn test_extract_subtree_single_level() {
    let tree = create_tree(&[("vendor/lib/file.rs", "content"), ("src/main.rs", "fn main() {}")]);
    let prefix = repo_path("vendor/lib");
    let result = extract_subtree(&tree, &prefix).unwrap();
    assert!(has_subtree_at_prefix(&result, &repo_path("file.rs")).unwrap());
    assert!(!has_subtree_at_prefix(&result, &repo_path("src/main.rs")).unwrap());
}

#[test]
fn test_extract_subtree_nested() {
    let tree = create_tree(&[
        ("vendor/lib/src/lib.rs", "lib content"),
        ("vendor/lib/README.md", "readme"),
        ("other/file.txt", "other content"),
    ]);
    let prefix = repo_path("vendor/lib");
    let result = extract_subtree(&tree, &prefix).unwrap();
    assert!(has_subtree_at_prefix(&result, &repo_path("src/lib.rs")).unwrap());
    assert!(has_subtree_at_prefix(&result, &repo_path("README.md")).unwrap());
    assert!(!has_subtree_at_prefix(&result, &repo_path("other/file.txt")).unwrap());
}

#[test]
fn test_extract_subtree_no_content_at_prefix() {
    let tree = create_tree(&[("src/main.rs", "content")]);
    let prefix = repo_path("vendor/lib");
    let result = extract_subtree(&tree, &prefix).unwrap();
    assert!(!has_subtree_at_prefix(&result, &repo_path("src/main.rs")).unwrap());
    assert_eq!(result.len(), 0);
}

#[test]
fn test_extract_subtree_root_prefix_error() {
    let tree = create_tree(&[("file.txt", "content")]);
    let result = extract_subtree(&tree, &RepoPathBuf::root());
    assert!(matches!(result, Err(SubtreeError::InvalidPrefix { .. })));
}

#[test]
fn test_extract_subtree_preserves_file_contents() {
    let content = "pub fn lib_function() {}";
    let tree = create_tree(&[("vendor/lib/lib.rs", content)]);
    let prefix = repo_path("vendor/lib");
    let result = extract_subtree(&tree, &prefix).unwrap();
    let value = result.get(&repo_path("lib.rs"));
    assert!(value.is_some());
    assert_eq!(value.unwrap().id, content.as_bytes().to_vec());
}

#[test]
fn test_filter_commits_modifying_prefix() {
    let mut store = Store::new(None);
    let root = store.root_commit_id();
    let tree_a = create_tree(&[("vendor/lib/file.rs", "v1")]);
    let commit_a = commit(1, vec![root], tree_a, "Add vendor/lib/file.rs");
    let tree_b = create_tree(&[("vendor/lib/file.rs", "v1"), ("src/main.rs", "fn main() {}")]);
    let commit_b = commit(2, vec![commit_a.id().clone()], tree_b, "Add src/main.rs");
    let tree_c = create_tree(&[("vendor/lib/file.rs", "v2"), ("src/main.rs", "fn main() {}")]);
    let commit_c = commit(3, vec![commit_b.id().clone()], tree_c, "Update vendor/lib/file.rs");
    store.add_commit(commit_a.clone());
    store.add_commit(commit_b.clone());
    store.add_commit(commit_c.clone());

    let prefix = repo_path("vendor/lib");
    let commits = vec![commit_a, commit_b, commit_c];
    let results = filter_commits_by_prefix(&store, commits, &prefix).unwrap();
    assert!(results[0].1, "Commit A should modify prefix");
    assert!(!results[1].1, "Commit B should not modify prefix");
    assert!(results[2].1, "Commit C should modify prefix");
    assert_eq!(results[0].0.description, "Add vendor/lib/file.rs");
    assert_eq!(results[2].0.description, "Update vendor/lib/file.rs");
}

#[test]
fn test_filter_commits_empty_prefix_content() {
    let mut store = Store::new(None);
    let root = store.root_commit_id();
    let commit_a = commit(1, vec![root], create_tree(&[("src/main.rs", "v1")]), "");
    let commit_b = commit(2, vec![commit_a.id().clone()], create_tree(&[("src/main.rs", "v2")]), "");
    store.add_commit(commit_a.clone());
    store.add_commit(commit_b.clone());

    let prefix = repo_path("vendor/lib");
    let results = filter_commits_by_prefix(&store, vec![commit_a, commit_b], &prefix).unwrap();
    assert!(!results[0].1);
    assert!(!results[1].1);
}

#[test]
fn test_filter_commits_root_commit() {
    let mut store = Store::new(None);
    let root = store.root_commit_id();
    let c = commit(1, vec![root], create_tree(&[("vendor/lib/file.rs", "content")]), "");
    store.add_commit(c.clone());
    let prefix = repo_path("vendor/lib");
    let results = filter_commits_by_prefix(&store, vec![c], &prefix).unwrap();
    assert!(results[0].1);
}

#[test]
fn filter_compares_a_parentless_commit_with_the_empty_tree() {
    let store = Store::new(None);
    let lone = commit(7, vec![], create_tree(&[("vendor/lib/a", "x")]), "");
    let elsewhere = commit(8, vec![], create_tree(&[("src/a", "x")]), "");
    let results = filter_commits_by_prefix(&store, vec![lone, elsewhere], &repo_path("vendor/lib")).unwrap();
    assert!(results[0].1);
    assert!(!results[1].1);
}

#[test]
fn filter_notices_a_removed_file() {
    let mut store = Store::new(None);
    let parent = commit(1, vec![], create_tree(&[("vendor/lib/a", "x"), ("b", "y")]), "");
    store.add_commit(parent.clone());
    let child = commit(2, vec![parent.id().clone()], create_tree(&[("b", "y")]), "");
    let results = filter_commits_by_prefix(&store, vec![child], &repo_path("vendor/lib")).unwrap();
    assert!(results[0].1);
}

#[test]
fn filter_fails_on_a_missing_parent() {
    let store = Store::new(None);
    let orphan = commit(9, vec![CommitId::new(vec![42; 20])], Tree::empty(), "");
    let result = filter_commits_by_prefix(&store, vec![orphan], &repo_path("vendor/lib"));
    assert!(matches!(result, Err(SubtreeError::Backend(_))));
}

#[test]
fn test_has_subtree_exists() {
    let tree = create_tree(&[("vendor/lib/file.rs", "content")]);
    assert!(has_subtree_at_prefix(&tree, &repo_path("vendor/lib")).unwrap());
    assert!(has_subtree_at_prefix(&tree, &repo_path("vendor")).unwrap());
}

#[test]
fn test_has_subtree_not_exists() {
    let tree = create_tree(&[("src/main.rs", "content")]);
    assert!(!has_subtree_at_prefix(&tree, &repo_path("vendor/lib")).unwrap());
}

#[test]
fn test_prefix_conflicts_file_at_prefix() {
    let tree = create_tree(&[("vendor/lib", "this is a file")]);
    let result = prefix_conflicts_with_file(&tree, &repo_path("vendor/lib")).unwrap();
    assert!(result.is_some());
    assert_eq!(result.unwrap().as_internal_file_string(), "vendor/lib");
}

#[test]
fn test_prefix_conflicts_file_on_ancestor_path() {
    let tree = create_tree(&[("vendor", "this is a file")]);
    let result = prefix_conflicts_with_file(&tree, &repo_path("vendor/lib/subdir")).unwrap();
    assert!(result.is_some());
    assert_eq!(result.unwrap().as_internal_file_string(), "vendor");
}

#[test]
fn test_prefix_no_conflict() {
    let tree = create_tree(&[("vendor/lib/file.rs", "content")]);
    let result = prefix_conflicts_with_file(&tree, &repo_path("vendor/lib")).unwrap();
    assert!(result.is_none());
}

#[test]
fn test_prefix_no_conflict_empty_path() {
    let tree = create_tree(&[("src/main.rs", "content")]);
    let result = prefix_conflicts_with_file(&tree, &repo_path("vendor/lib")).unwrap();
    assert!(result.is_none());
}

#[test]
fn test_roundtrip_move_and_extract() {
    let original_tree = create_tree(&[("src/lib.rs", "lib content"), ("README.md", "readme")]);
    let prefix = repo_path("vendor/lib");
    let prefixed_tree = move_tree_to_prefix(&original_tree, &prefix).unwrap();
    let extracted_tree = extract_subtree(&prefixed_tree, &prefix).unwrap();
    assert!(has_subtree_at_prefix(&extracted_tree, &repo_path("src/lib.rs")).unwrap());
    assert!(has_subtree_at_prefix(&extracted_tree, &repo_path("README.md")).unwrap());
    assert_eq!(extracted_tree.len(), 2);
    assert_eq!(extracted_tree.get(&repo_path("README.md")).unwrap().id, b"readme".to_vec());
}

#[test]
fn relocation_yields_exactly_the_prefixed_file() {
    let tree = create_tree(&[("file.txt", "content")]);
    let moved = move_tree_to_prefix(&tree, &repo_path("vendor/lib")).unwrap();
    assert_eq!(moved.len(), 1);
    let (path, value) = moved.entry(0);
    assert_eq!(path.as_internal_file_string(), "vendor/lib/file.txt");
    assert_eq!(value.id, b"content".to_vec());
    assert!(moved.get(&repo_path("file.txt")).is_none());
}

#[test]
fn extract_skips_a_file_at_the_prefix_itself() {
    let tree = create_tree(&[("vendor/lib", "a file")]);
    let result = extract_subtree(&tree, &repo_path("vendor/lib")).unwrap();
    assert_eq!(result.len(), 0);
}

#[test]
fn builder_replaces_files_and_directories() {
    let mut builder = TreeBuilder::new(create_tree(&[("a/b", "1"), ("a/c", "2"), ("d", "3")]));
    builder.set_or_remove(repo_path("a"), Some(file("4")));
    builder.set_or_remove(repo_path("d/e"), Some(file("5")));
    let tree = builder.write_tree();
    assert_eq!(tree.len(), 2);
    assert_eq!(tree.get(&repo_path("a")).unwrap().id, b"4".to_vec());
    assert_eq!(tree.get(&repo_path("d/e")).unwrap().id, b"5".to_vec());
    let mut builder = TreeBuilder::new(tree);
    builder.set_or_remove(repo_path("d"), None);
    assert_eq!(builder.write_tree().len(), 1);
}

#[test]
fn test_create_backend_for_git_repo() {
    let store = Store::new(Some("/work/repo/.git".to_string()));
    let backend = create_subtree_backend(&store);
    assert!(backend.supports_remote_operations());
}

#[test]
fn test_create_backend_for_non_git_repo() {
    let store = Store::new(None);
    let backend = create_subtree_backend(&store);
    assert!(!backend.supports_remote_operations());
    assert!(matches!(
        backend.fetch_remote("https://example.com/repo.git", "main"),
        Err(SubtreeBackendError::RemoteNotSupported)
    ));
    assert!(matches!(
        backend.push_remote("https://example.com/repo.git", &store.root_commit_id(), "main", true),
        Err(SubtreeBackendError::RemoteNotSupported)
    ));
}

#[test]
fn test_local_backend_does_not_support_remote() {
    let store = Store::new(None);
    let backend = LocalSubtreeBackend::new(&store);
    assert!(!backend.supports_remote_operations());
}

#[test]
fn test_local_backend_fetch_returns_not_supported() {
    let store = Store::new(None);
    let backend = LocalSubtreeBackend::new(&store);
    let result = backend.fetch_remote("https://example.com/repo.git", "main");
    match result {
        Err(SubtreeBackendError::RemoteNotSupported) => {}
        other => panic!("Expected RemoteNotSupported, got {:?}", other),
    }
}

#[test]
fn test_local_backend_push_returns_not_supported() {
    let mut store = Store::new(None);
    let root = store.root_commit_id();
    let c = commit(1, vec![root], create_tree(&[("file.txt", "content")]), "test");
    store.add_commit(c.clone());
    let backend = LocalSubtreeBackend::new(&store);
    let result = backend.push_remote("https://example.com/repo.git", c.id(), "main", false);
    match result {
        Err(SubtreeBackendError::RemoteNotSupported) => {}
        other => panic!("Expected RemoteNotSupported, got {:?}", other),
    }
}
