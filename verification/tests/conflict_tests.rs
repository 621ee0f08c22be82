use gitstate::conflict::parse_conflict_markers;

#[test]
fn test_no_conflicts() {
    let content = "line 1\nline 2\nline 3\n";
    let result = parse_conflict_markers(content);
    assert!(!result.has_conflicts);
    assert_eq!(result.total_conflicts, 0);
    assert!(result.conflicts.is_empty());
}

#[test]
fn test_single_standard_conflict() {
    let content = "\
line before
<<<<<<< HEAD
local change
=======
remote change
>>>>>>> feature-branch
line after";
    let result = parse_conflict_markers(content);
    assert!(result.has_conflicts);
    assert_eq!(result.total_conflicts, 1);

    let c = &result.conflicts[0];
    assert_eq!(c.id, 0);
    assert_eq!(c.start_line, 1);
    assert_eq!(c.local_start_line, 2);
    assert_eq!(c.local_end_line, 3);
    assert!(c.base_start_line.is_none());
    assert!(c.base_end_line.is_none());
    assert_eq!(c.remote_start_line, 4);
    assert_eq!(c.remote_end_line, 5);
    assert_eq!(c.end_line, 5);
    assert_eq!(c.local_content, "local change");
    assert!(c.base_content.is_none());
    assert_eq!(c.remote_content, "remote change");
    assert!(!c.resolved);
}

#[test]
fn test_single_diff3_conflict() {
    let content = "\
before
<<<<<<< HEAD
local line
||||||| merged common ancestors
base line
=======
remote line
>>>>>>> feature
after";
    let result = parse_conflict_markers(content);
    assert!(result.has_conflicts);
    assert_eq!(result.total_conflicts, 1);

    let c = &result.conflicts[0];
    assert_eq!(c.id, 0);
    assert_eq!(c.start_line, 1);
    assert_eq!(c.local_start_line, 2);
    assert_eq!(c.local_end_line, 3);
    assert_eq!(c.base_start_line, Some(4));
    assert_eq!(c.base_end_line, Some(5));
    assert_eq!(c.remote_start_line, 6);
    assert_eq!(c.remote_end_line, 7);
    assert_eq!(c.end_line, 7);
    assert_eq!(c.local_content, "local line");
    assert_eq!(c.base_content, Some("base line".to_string()));
    assert_eq!(c.remote_content, "remote line");
}

#[test]
fn test_multiple_conflicts() {
    let content = "\
<<<<<<< HEAD
local 1
=======
remote 1
>>>>>>> branch
middle
<<<<<<< HEAD
local 2
=======
remote 2
>>>>>>> branch";
    let result = parse_conflict_markers(content);
    assert_eq!(result.total_conflicts, 2);

    assert_eq!(result.conflicts[0].id, 0);
    assert_eq!(result.conflicts[0].local_content, "local 1");
    assert_eq!(result.conflicts[0].remote_content, "remote 1");

    assert_eq!(result.conflicts[1].id, 1);
    assert_eq!(result.conflicts[1].local_content, "local 2");
    assert_eq!(result.conflicts[1].remote_content, "remote 2");
}

#[test]
fn test_multiline_content() {
    let content = "\
<<<<<<< HEAD
local line 1
local line 2
local line 3
=======
remote line 1
remote line 2
>>>>>>> branch";
    let result = parse_conflict_markers(content);
    assert_eq!(result.total_conflicts, 1);

    let c = &result.conflicts[0];
    assert_eq!(c.local_content, "local line 1\nlocal line 2\nlocal line 3");
    assert_eq!(c.remote_content, "remote line 1\nremote line 2");
}

#[test]
fn test_empty_local_content() {
    let content = "\
<<<<<<< HEAD
=======
remote content
>>>>>>> branch";
    let result = parse_conflict_markers(content);
    assert_eq!(result.total_conflicts, 1);

    let c = &result.conflicts[0];
    assert_eq!(c.local_content, "");
    assert_eq!(c.remote_content, "remote content");
}

#[test]
fn test_empty_remote_content() {
    let content = "\
<<<<<<< HEAD
local content
=======
>>>>>>> branch";
    let result = parse_conflict_markers(content);
    assert_eq!(result.total_conflicts, 1);

    let c = &result.conflicts[0];
    assert_eq!(c.local_content, "local content");
    assert_eq!(c.remote_content, "");
}

#[test]
fn test_incomplete_marker_ignored() {
    let content = "\
<<<<<<< HEAD
local content
some text without closing marker";
    let result = parse_conflict_markers(content);
    assert!(!result.has_conflicts);
    assert_eq!(result.total_conflicts, 0);
}

#[test]
fn test_diff3_with_empty_base() {
    let content = "\
<<<<<<< HEAD
local
||||||| base
=======
remote
>>>>>>> branch";
    let result = parse_conflict_markers(content);
    assert_eq!(result.total_conflicts, 1);

    let c = &result.conflicts[0];
    assert_eq!(c.local_content, "local");
    assert_eq!(c.base_content, Some("".to_string()));
    assert_eq!(c.remote_content, "remote");
}

#[test]
fn test_scenario_single_region_lines() {
    let result = parse_conflict_markers("a\n<<<<<<< HEAD\nx\n=======\ny\n>>>>>>> br\nb");
    assert_eq!(result.total_conflicts, 1);
    let c = &result.conflicts[0];
    assert_eq!(c.local_content, "x");
    assert_eq!(c.remote_content, "y");
    assert_eq!(c.start_line, 1);
    assert_eq!(c.end_line, 5);
}

#[test]
fn test_unterminated_diff3_region() {
    let result = parse_conflict_markers("<<<<<<< HEAD\nl\n||||||| base\nb\n=======\nr\nno close");
    assert_eq!(result.total_conflicts, 0);
    assert!(!result.has_conflicts);
}
