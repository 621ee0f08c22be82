use gitstate::status::parse_porcelain_line;
use gitstate::status::parse_porcelain_status;

#[test]
fn test_parse_porcelain_modified_staged() {
    let (staged, unstaged, untracked) = parse_porcelain_status("M  src/main.rs\n");
    assert_eq!(staged.len(), 1);
    assert_eq!(staged[0].path, "src/main.rs");
    assert_eq!(staged[0].index_status, "M");
    assert!(unstaged.is_empty());
    assert!(untracked.is_empty());
}

#[test]
fn test_parse_porcelain_modified_unstaged() {
    let (staged, unstaged, untracked) = parse_porcelain_status(" M src/main.rs\n");
    assert!(staged.is_empty());
    assert_eq!(unstaged.len(), 1);
    assert_eq!(unstaged[0].path, "src/main.rs");
    assert_eq!(unstaged[0].worktree_status, "M");
    assert!(untracked.is_empty());
}

#[test]
fn test_parse_porcelain_added() {
    let (staged, _, _) = parse_porcelain_status("A  new_file.txt\n");
    assert_eq!(staged.len(), 1);
    assert_eq!(staged[0].index_status, "A");
    assert_eq!(staged[0].path, "new_file.txt");
}

#[test]
fn test_parse_porcelain_deleted() {
    let (staged, _, _) = parse_porcelain_status("D  old_file.txt\n");
    assert_eq!(staged.len(), 1);
    assert_eq!(staged[0].index_status, "D");
    assert_eq!(staged[0].path, "old_file.txt");
}

#[test]
fn test_parse_porcelain_renamed() {
    let (staged, _, _) = parse_porcelain_status("R  old_name.txt -> new_name.txt\n");
    assert_eq!(staged.len(), 1);
    assert_eq!(staged[0].index_status, "R");
    assert_eq!(staged[0].path, "new_name.txt");
    assert_eq!(staged[0].original_path.as_deref(), Some("old_name.txt"));
}

#[test]
fn test_parse_porcelain_untracked() {
    let (staged, unstaged, untracked) = parse_porcelain_status("?? new_file.txt\n");
    assert!(staged.is_empty());
    assert!(unstaged.is_empty());
    assert_eq!(untracked.len(), 1);
    assert_eq!(untracked[0].path, "new_file.txt");
}

#[test]
fn test_parse_porcelain_both_staged_and_unstaged() {
    let (staged, unstaged, _) = parse_porcelain_status("MM src/lib.rs\n");
    assert_eq!(staged.len(), 1);
    assert_eq!(staged[0].index_status, "M");
    assert_eq!(unstaged.len(), 1);
    assert_eq!(unstaged[0].worktree_status, "M");
}

#[test]
fn test_parse_porcelain_empty() {
    let (staged, unstaged, untracked) = parse_porcelain_status("");
    assert!(staged.is_empty());
    assert!(unstaged.is_empty());
    assert!(untracked.is_empty());
}

#[test]
fn test_parse_porcelain_mixed() {
    let input = "M  staged.rs\n M unstaged.rs\n?? untracked.txt\nA  added.rs\nD  deleted.rs\n";
    let (staged, unstaged, untracked) = parse_porcelain_status(input);
    assert_eq!(staged.len(), 3);
    assert_eq!(unstaged.len(), 1);
    assert_eq!(untracked.len(), 1);
}

#[test]
fn test_parse_porcelain_line_too_short() {
    assert!(parse_porcelain_line("M").is_none());
    assert!(parse_porcelain_line("MM").is_none());
    assert!(parse_porcelain_line("MM ").is_none());
}

#[test]
fn test_parse_porcelain_both_same_path() {
    let (staged, unstaged, _) = parse_porcelain_status("MM src/lib.rs\n");
    assert_eq!(staged[0].path, "src/lib.rs");
    assert_eq!(unstaged[0].path, "src/lib.rs");
    assert_eq!(staged[0].worktree_status, " ");
    assert_eq!(unstaged[0].index_status, " ");
    assert!(unstaged[0].original_path.is_none());
}
