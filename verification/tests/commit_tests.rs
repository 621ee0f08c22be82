use gitstate::commit::parse_commit_msg;
use gitstate::commit::serialize_commit_msg;
use gitstate::commit::validate_commit_msg;
use gitstate::commit::CommitMessage;
use gitstate::commit::Trailer;

#[test]
fn test_parse_simple_commit() {
    let content = "Add new feature\n\nThis is the body of the commit message.";
    let result = parse_commit_msg(content).unwrap();

    assert_eq!(result.subject, "Add new feature");
    assert_eq!(result.body, "This is the body of the commit message.");
    assert!(result.trailers.is_empty());
    assert!(result.comments.is_empty());
}

#[test]
fn test_parse_commit_with_trailers() {
    let content = "Fix bug in parser\n\nFixed the parsing issue.\n\nSigned-off-by: John Doe <john@example.com>\nReviewed-by: Jane Doe <jane@example.com>";
    let result = parse_commit_msg(content).unwrap();

    assert_eq!(result.subject, "Fix bug in parser");
    assert_eq!(result.body, "Fixed the parsing issue.");
    assert_eq!(result.trailers.len(), 2);
    assert_eq!(result.trailers[0].key, "Signed-off-by");
    assert_eq!(result.trailers[0].value, "John Doe <john@example.com>");
}

#[test]
fn test_parse_commit_with_comments() {
    let content = "Update README\n\n# Please enter the commit message\n# Lines starting with '#' will be ignored";
    let result = parse_commit_msg(content).unwrap();

    assert_eq!(result.subject, "Update README");
    assert_eq!(result.comments.len(), 2);
    assert!(result.comments[0].starts_with("# Please"));
}

#[test]
fn test_parse_commit_with_scissors() {
    let content = "Commit message\n\n# ------------------------ >8 ------------------------\ndiff --git a/file.txt b/file.txt\n+new line";
    let result = parse_commit_msg(content).unwrap();

    assert_eq!(result.subject, "Commit message");
    assert!(result.diff_content.is_some());
    assert!(result.diff_content.unwrap().contains("diff --git"));
}

#[test]
fn test_parse_empty_commit() {
    let content = "";
    let result = parse_commit_msg(content).unwrap();

    assert_eq!(result.subject, "");
    assert_eq!(result.body, "");
}

#[test]
fn test_parse_subject_only() {
    let content = "Just a subject line";
    let result = parse_commit_msg(content).unwrap();

    assert_eq!(result.subject, "Just a subject line");
    assert_eq!(result.body, "");
}

#[test]
fn test_serialize_simple_commit() {
    let message = CommitMessage {
        subject: "Add feature".to_string(),
        body: "This is the body.".to_string(),
        trailers: vec![],
        comments: vec![],
        diff_content: None,
    };

    let result = serialize_commit_msg(&message);
    assert!(result.contains("Add feature"));
    assert!(result.contains("This is the body."));
}

#[test]
fn test_serialize_with_trailers() {
    let message = CommitMessage {
        subject: "Fix bug".to_string(),
        body: "Description".to_string(),
        trailers: vec![Trailer {
            key: "Signed-off-by".to_string(),
            value: "Test User <test@example.com>".to_string(),
        }],
        comments: vec![],
        diff_content: None,
    };

    let result = serialize_commit_msg(&message);
    assert!(result.contains("Signed-off-by: Test User"));
}

#[test]
fn test_subject_length_check() {
    let message = CommitMessage {
        subject: "A".repeat(60),
        body: String::new(),
        trailers: vec![],
        comments: vec![],
        diff_content: None,
    };

    assert!(message.is_subject_too_long());
    assert_eq!(message.subject_length(), 60);
}

#[test]
fn test_long_body_lines() {
    let message = CommitMessage {
        subject: "Test".to_string(),
        body: format!("Short line\n{}\nAnother short line", "x".repeat(80)),
        trailers: vec![],
        comments: vec![],
        diff_content: None,
    };

    assert!(message.has_long_body_lines());
    let long_lines = message.get_long_body_lines();
    assert_eq!(long_lines.len(), 1);
    assert_eq!(long_lines[0], (2, 80));
}

#[test]
fn test_roundtrip() {
    let original = CommitMessage {
        subject: "Test commit".to_string(),
        body: "This is the body.\n\nWith multiple paragraphs.".to_string(),
        trailers: vec![Trailer {
            key: "Signed-off-by".to_string(),
            value: "User <user@example.com>".to_string(),
        }],
        comments: vec!["# This is a comment".to_string()],
        diff_content: None,
    };

    let serialized = serialize_commit_msg(&original);
    let parsed = parse_commit_msg(&serialized).unwrap();

    assert_eq!(parsed.subject, original.subject);
    assert_eq!(parsed.trailers.len(), original.trailers.len());
}

#[test]
fn test_roundtrip_subject_body_trailers_exact() {
    let original = CommitMessage {
        subject: "Teach the parser new tricks".to_string(),
        body: "One line of body text.".to_string(),
        trailers: vec![
            Trailer {
                key: "Signed-off-by".to_string(),
                value: "User <user@example.com>".to_string(),
            },
            Trailer {
                key: "Fixes".to_string(),
                value: "1234".to_string(),
            },
        ],
        comments: vec![],
        diff_content: None,
    };
    let parsed = parse_commit_msg(&serialize_commit_msg(&original)).unwrap();
    assert_eq!(parsed.subject, original.subject);
    assert_eq!(parsed.body, original.body.trim());
    assert_eq!(parsed.trailers, original.trailers);
}

#[test]
fn test_validate_commit_msg_limits() {
    let good = CommitMessage {
        subject: "Short subject".to_string(),
        body: "Short body".to_string(),
        trailers: vec![],
        comments: vec![],
        diff_content: None,
    };
    let v = validate_commit_msg(good);
    assert!(v.is_valid);
    assert!(!v.subject_too_long);
    assert_eq!(v.subject_length, 13);
    assert!(v.long_body_lines.is_empty());

    let bad = CommitMessage {
        subject: "B".repeat(51),
        body: "y".repeat(73),
        trailers: vec![],
        comments: vec![],
        diff_content: None,
    };
    let v2 = validate_commit_msg(bad);
    assert!(!v2.is_valid);
    assert!(v2.subject_too_long);
    assert_eq!(v2.long_body_lines, vec![(1, 73)]);
}

#[test]
fn test_trailer_key_validation() {
    assert!(gitstate::commit::is_valid_trailer_key("Signed-off-by"));
    assert!(gitstate::commit::is_valid_trailer_key("sIgNeD-oFf-By"));
    assert!(gitstate::commit::is_valid_trailer_key("My-Custom-Key2"));
    assert!(!gitstate::commit::is_valid_trailer_key("2bad"));
    assert!(!gitstate::commit::is_valid_trailer_key(""));
    assert!(!gitstate::commit::is_valid_trailer_key("has space"));
}

#[test]
fn test_parse_trailer_line_forms() {
    let t = gitstate::commit::parse_trailer_line("Reviewed-by: Jane <jane@example.com>").unwrap();
    assert_eq!(t.key, "Reviewed-by");
    assert_eq!(t.value, "Jane <jane@example.com>");
    assert!(gitstate::commit::parse_trailer_line("no colon here").is_none());
    assert!(gitstate::commit::parse_trailer_line("Key:").is_none());
}

#[test]
fn test_extract_trailers_keeps_prefix() {
    let (rest, trailers) =
        gitstate::commit::extract_trailers("prose line\nSigned-off-by: A <a@b.c>\nFixes: 7");
    assert_eq!(rest, "prose line");
    assert_eq!(trailers.len(), 2);
    assert_eq!(trailers[0].key, "Signed-off-by");
    assert_eq!(trailers[1].key, "Fixes");
}
