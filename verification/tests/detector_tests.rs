use gitstate::detector::detect_file_type;
use gitstate::detector::GitFileType;
use gitstate::error::AppError;
use gitstate::escape::escape_applescript;
use gitstate::escape::shell_escape;

#[test]
fn test_detect_rebase_todo() {
    let path = "/path/to/.git/rebase-merge/git-rebase-todo";
    assert_eq!(detect_file_type(path), GitFileType::RebaseTodo);
}

#[test]
fn test_detect_commit_msg() {
    let path = "/path/to/.git/COMMIT_EDITMSG";
    assert_eq!(detect_file_type(path), GitFileType::CommitMsg);
}

#[test]
fn test_detect_merge_msg() {
    let path = "/path/to/.git/MERGE_MSG";
    assert_eq!(detect_file_type(path), GitFileType::MergeMsg);
}

#[test]
fn test_detect_squash_msg() {
    let path = "/path/to/.git/SQUASH_MSG";
    assert_eq!(detect_file_type(path), GitFileType::SquashMsg);
}

#[test]
fn test_detect_tag_msg() {
    let path = "/path/to/.git/TAG_EDITMSG";
    assert_eq!(detect_file_type(path), GitFileType::TagMsg);
}

#[test]
fn test_detect_unknown() {
    let path = "/path/to/some/random/file.txt";
    assert_eq!(detect_file_type(path), GitFileType::Unknown);
}

#[test]
fn test_shell_escape_basic() {
    assert_eq!(shell_escape("hello world"), "hello world");
}

#[test]
fn test_shell_escape_special_chars() {
    assert_eq!(shell_escape("he\"llo"), "he\\\"llo");
    assert_eq!(shell_escape("$HOME"), "\\$HOME");
    assert_eq!(shell_escape("back\\slash"), "back\\\\slash");
}

#[test]
fn test_escape_applescript_quotes() {
    assert_eq!(escape_applescript("say \"hi\""), "say \\\"hi\\\"");
}

#[test]
fn test_escape_applescript_backslash() {
    assert_eq!(escape_applescript("path\\to"), "path\\\\to");
}

#[test]
fn test_merge_msg_label_patterns() {
    assert_eq!(
        gitstate::merge::merge_msg_label("Merge branch 'feature-branch' into main").as_deref(),
        Some("feature-branch")
    );
    assert_eq!(
        gitstate::merge::merge_msg_label("Merge remote-tracking branch 'origin/topic'").as_deref(),
        Some("origin/topic")
    );
    assert!(gitstate::merge::merge_msg_label("Revert \"something\"").is_none());
}

#[test]
fn test_head_branch_name_strips_prefix() {
    assert_eq!(
        gitstate::merge::head_branch_name("refs/heads/feature-branch\n"),
        "feature-branch"
    );
    assert_eq!(gitstate::merge::head_branch_name("detached"), "detached");
}

#[test]
fn test_strip_tilde_suffix() {
    assert_eq!(
        gitstate::merge::strip_tilde_suffix("feature-branch~2"),
        "feature-branch"
    );
    assert_eq!(gitstate::merge::strip_tilde_suffix("main"), "main");
}

#[test]
fn test_error_messages() {
    let e = AppError::ParseError {
        line: 3,
        message: "Unknown command: zap".to_string(),
    };
    assert_eq!(e.message(), "Parse error at line 3: Unknown command: zap");
    let f = AppError::FileNotFound {
        path: "/tmp/x".to_string(),
    };
    assert_eq!(f.message(), "File not found: /tmp/x");
}
