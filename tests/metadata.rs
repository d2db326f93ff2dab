use jj_subtree::metadata::SubtreeMetadata;
use jj_subtree::repo_path::RepoPathBuf;
use jj_subtree::store::CommitId;
use jj_subtree::trailer::parse_description_trailers;

fn path(s: &str) -> RepoPathBuf {
    RepoPathBuf::from_internal_string(s).unwrap()
}

#[test]
fn test_parse_jj_format() {
    let desc = "Message\n\ngit-subtree-dir: vendor/lib\n";
    let meta = SubtreeMetadata::parse(desc);
    assert_eq!(meta.subtree_dir, Some(path("vendor/lib")));
    assert!(meta.mainline_commit.is_none());
    assert!(meta.split_commit.is_none());
}

#[test]
fn test_parse_git_format() {
    let desc = "Message\n\ngit-subtree-dir: vendor/lib\n";
    let meta = SubtreeMetadata::parse(desc);
    assert_eq!(meta.subtree_dir, Some(path("vendor/lib")));
}

#[test]
fn test_parse_all_fields() {
    let desc = "Message\n\ngit-subtree-dir: vendor/lib\ngit-subtree-mainline: \
                abc123abc123abc123abc123abc123abc123abc123ab\ngit-subtree-split: \
                def456def456def456def456def456def456def456de\n";
    let meta = SubtreeMetadata::parse(desc);
    assert_eq!(meta.subtree_dir, Some(path("vendor/lib")));
    assert!(meta.mainline_commit.is_some());
    assert!(meta.split_commit.is_some());
}

#[test]
fn test_parse_no_metadata() {
    let desc = "Just a regular commit message\n\nWith some body text.";
    let meta = SubtreeMetadata::parse(desc);
    assert!(meta.is_empty());
}

#[test]
fn test_format_trailers() {
    let meta = SubtreeMetadata {
        subtree_dir: Some(path("vendor/lib")),
        mainline_commit: None,
        split_commit: None,
    };
    let trailers = meta.format_trailers();
    assert_eq!(trailers, "git-subtree-dir: vendor/lib\n");
}

#[test]
fn test_format_trailers_empty() {
    let meta = SubtreeMetadata::default();
    let trailers = meta.format_trailers();
    assert!(trailers.is_empty());
}

#[test]
fn test_add_to_description() {
    let meta = SubtreeMetadata {
        subtree_dir: Some(path("vendor/lib")),
        mainline_commit: None,
        split_commit: None,
    };
    let desc = meta.add_to_description("Original message");
    assert!(desc.starts_with("Original message"));
    assert!(desc.contains("\n\ngit-subtree-dir: vendor/lib"));
}

#[test]
fn test_add_to_description_already_has_newlines() {
    let meta = SubtreeMetadata {
        subtree_dir: Some(path("vendor/lib")),
        mainline_commit: None,
        split_commit: None,
    };
    let desc = meta.add_to_description("Original message\n\n");
    assert!(desc.contains("message\n\ngit-subtree-dir:"));
}

#[test]
fn test_has_metadata_true() {
    let desc = "Message\n\ngit-subtree-dir: foo\n";
    assert!(SubtreeMetadata::has_metadata(desc));
}

#[test]
fn test_has_metadata_git_format() {
    let desc = "Message\n\ngit-subtree-dir: foo\n";
    assert!(SubtreeMetadata::has_metadata(desc));
}

#[test]
fn test_has_metadata_false() {
    let desc = "Just a regular commit message";
    assert!(!SubtreeMetadata::has_metadata(desc));
}

#[test]
fn test_has_metadata_other_trailers() {
    let desc = "Message\n\nSigned-off-by: Author <author@example.com>\n";
    assert!(!SubtreeMetadata::has_metadata(desc));
}

#[test]
fn test_is_empty() {
    assert!(SubtreeMetadata::default().is_empty());
    assert!(!SubtreeMetadata::with_dir(path("foo")).is_empty());
}

#[test]
fn metadata_round_trip_through_description() {
    let meta = SubtreeMetadata::with_dir(path("vendor/lib"));
    let desc = meta.add_to_description("Original message");
    assert_eq!(desc, "Original message\n\ngit-subtree-dir: vendor/lib\n");
    let parsed = SubtreeMetadata::parse(&desc);
    assert_eq!(parsed.subtree_dir, Some(path("vendor/lib")));
    assert!(parsed.mainline_commit.is_none());
    assert!(parsed.split_commit.is_none());
    assert!(!SubtreeMetadata::has_metadata("Message\n\nSigned-off-by: A <a@example.com>\n"));
}

#[test]
fn all_fields_round_trip() {
    let meta = SubtreeMetadata {
        subtree_dir: Some(path("third_party/zlib")),
        mainline_commit: Some(CommitId::new(vec![0xab; 20])),
        split_commit: Some(CommitId::new(vec![0x01, 0x23, 0x45, 0x67])),
    };
    let trailers = meta.format_trailers();
    assert_eq!(
        trailers,
        "git-subtree-dir: third_party/zlib\n\
         git-subtree-mainline: abababababababababababababababababababab\n\
         git-subtree-split: 01234567\n"
    );
    let desc = meta.add_to_description("Split it out  \n\n\n");
    assert!(desc.starts_with("Split it out\n\ngit-subtree-dir: "));
    assert_eq!(SubtreeMetadata::parse(&desc), meta);
}

#[test]
fn empty_metadata_leaves_description_unchanged() {
    let meta = SubtreeMetadata::new();
    assert_eq!(meta.add_to_description("Keep me \n"), "Keep me \n");
}

#[test]
fn empty_description_gets_trailers_alone() {
    let meta = SubtreeMetadata::with_dir(path("a"));
    assert_eq!(meta.add_to_description("  \n"), "git-subtree-dir: a\n");
}

#[test]
fn malformed_values_are_left_unset() {
    let desc = "Msg\n\ngit-subtree-dir: bad//path\ngit-subtree-mainline: xyz\ngit-subtree-split: abc\n";
    let meta = SubtreeMetadata::parse(desc);
    assert!(meta.is_empty());
    assert!(SubtreeMetadata::has_metadata(desc));
}

#[test]
fn uppercase_hex_is_read() {
    let meta = SubtreeMetadata::parse("Msg\n\ngit-subtree-split: ABCDEF\n");
    assert_eq!(meta.split_commit.unwrap().hex(), "abcdef");
}

#[test]
fn later_trailer_wins_and_unknown_keys_are_ignored() {
    let desc = "Msg\n\ngit-subtree-dir: one\nReviewed-by: someone\ngit-subtree-dir: two\n";
    let meta = SubtreeMetadata::parse(desc);
    assert_eq!(meta.subtree_dir, Some(path("two")));
}

#[test]
fn trailers_need_a_blank_line_and_a_clean_block() {
    assert!(parse_description_trailers("git-subtree-dir: a").is_empty());
    assert!(parse_description_trailers("Msg\n\ngit-subtree-dir: a\nnot a trailer\n").is_empty());
    let ts = parse_description_trailers("Msg\n\nKey:   spaced value  \r\nOther-Key:x\n\n  ");
    assert_eq!(ts.len(), 2);
    assert_eq!(ts[0].key, "Key");
    assert_eq!(ts[0].value, "spaced value");
    assert_eq!(ts[1].key, "Other-Key");
    assert_eq!(ts[1].value, "x");
}
