use gitstate::diff_tree::parse_diff_tree_output;

#[test]
fn test_parse_diff_tree_basic() {
    let output = "M\tsrc/main.rs\nA\tnew_file.txt\nD\told_file.txt\n";
    let files = parse_diff_tree_output(output);
    assert_eq!(files.len(), 3);

    assert_eq!(files[0].status, "M");
    assert_eq!(files[0].path, "src/main.rs");
    assert!(files[0].original_path.is_none());

    assert_eq!(files[1].status, "A");
    assert_eq!(files[1].path, "new_file.txt");

    assert_eq!(files[2].status, "D");
    assert_eq!(files[2].path, "old_file.txt");
}

#[test]
fn test_parse_diff_tree_rename() {
    let output = "R100\told_name.rs\tnew_name.rs\n";
    let files = parse_diff_tree_output(output);
    assert_eq!(files.len(), 1);
    assert_eq!(files[0].status, "R");
    assert_eq!(files[0].path, "new_name.rs");
    assert_eq!(files[0].original_path.as_deref(), Some("old_name.rs"));
}

#[test]
fn test_parse_diff_tree_copy() {
    let output = "C095\tsrc/a.rs\tsrc/b.rs\n";
    let files = parse_diff_tree_output(output);
    assert_eq!(files.len(), 1);
    assert_eq!(files[0].status, "C");
    assert_eq!(files[0].path, "src/b.rs");
    assert_eq!(files[0].original_path.as_deref(), Some("src/a.rs"));
}

#[test]
fn test_parse_diff_tree_empty() {
    let files = parse_diff_tree_output("");
    assert!(files.is_empty());
}

#[test]
fn test_parse_diff_tree_mixed() {
    let output = "M\tsrc/lib.rs\nA\tsrc/new.rs\nR100\told.rs\trenamed.rs\nD\tremoved.rs\n";
    let files = parse_diff_tree_output(output);
    assert_eq!(files.len(), 4);
    assert_eq!(files[0].status, "M");
    assert_eq!(files[1].status, "A");
    assert_eq!(files[2].status, "R");
    assert_eq!(files[2].path, "renamed.rs");
    assert_eq!(files[2].original_path.as_deref(), Some("old.rs"));
    assert_eq!(files[3].status, "D");
}

#[test]
fn test_parse_diff_tree_skips_short_lines() {
    let files = parse_diff_tree_output("M\n\nA\tkept.rs\n");
    assert_eq!(files.len(), 1);
    assert_eq!(files[0].path, "kept.rs");
}
