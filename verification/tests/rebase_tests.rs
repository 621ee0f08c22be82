use gitstate::rebase::parse_rebase_todo;
use gitstate::rebase::serialize_rebase_todo;
use gitstate::rebase::RebaseCommand;
use gitstate::rebase::RebaseEntry;
use gitstate::rebase::RebaseTodoFile;

#[test]
fn test_parse_simple_todo() {
    let content = "pick abc1234 First commit\nreword def5678 Second commit\nsquash ghi9012 Third commit\n";

    let result = parse_rebase_todo(content).unwrap();
    assert_eq!(result.entries.len(), 3);
    assert_eq!(result.entries[0].command, RebaseCommand::Pick);
    assert_eq!(result.entries[0].commit_hash, "abc1234");
    assert_eq!(result.entries[0].message, "First commit");
    assert_eq!(result.entries[1].command, RebaseCommand::Reword);
    assert_eq!(result.entries[2].command, RebaseCommand::Squash);
}

#[test]
fn test_parse_short_form() {
    let content = "p abc1234 First commit\nr def5678 Second commit\n";
    let result = parse_rebase_todo(content).unwrap();
    assert_eq!(result.entries.len(), 2);
    assert_eq!(result.entries[0].command, RebaseCommand::Pick);
    assert_eq!(result.entries[1].command, RebaseCommand::Reword);
}

#[test]
fn test_parse_with_comments() {
    let content = "pick abc1234 First commit\n\n# This is a comment\n# Another comment\n";

    let result = parse_rebase_todo(content).unwrap();
    assert_eq!(result.entries.len(), 1);
    assert_eq!(result.comments.len(), 2);
}

#[test]
fn test_parse_exec_command() {
    let content = "x npm run test\n";
    let result = parse_rebase_todo(content).unwrap();
    assert_eq!(result.entries.len(), 1);
    assert_eq!(
        result.entries[0].command,
        RebaseCommand::Exec("npm run test".to_string())
    );
}

#[test]
fn test_serialize_todo() {
    let file = RebaseTodoFile {
        entries: vec![
            RebaseEntry {
                id: "1".to_string(),
                command: RebaseCommand::Pick,
                commit_hash: "abc1234".to_string(),
                message: "First commit".to_string(),
            },
            RebaseEntry {
                id: "2".to_string(),
                command: RebaseCommand::Squash,
                commit_hash: "def5678".to_string(),
                message: "Second commit".to_string(),
            },
        ],
        comments: vec!["# Comment".to_string()],
    };

    let output = serialize_rebase_todo(&file);
    assert!(output.contains("p abc1234 First commit"));
    assert!(output.contains("s def5678 Second commit"));
    assert!(output.contains("# Comment"));
}

#[test]
fn test_round_trip_every_command() {
    let text = "p abc1234 First commit\nr bcd2345 Second\ne cde3456 Third\ns def4567 Fourth\nf efa5678 Fifth\nd fab6789 Sixth\nx cargo test --all\nb\nl onto\nt onto\nm -C aaa1111 topic # Merge topic";
    let parsed = parse_rebase_todo(text).unwrap();
    let out = serialize_rebase_todo(&parsed);
    assert_eq!(out.trim(), text.trim());
}

#[test]
fn test_round_trip_merge_without_message() {
    let text = "m -C aaa1111 topic\nm topic";
    let parsed = parse_rebase_todo(text).unwrap();
    assert_eq!(serialize_rebase_todo(&parsed).trim(), text.trim());
}

#[test]
fn test_unknown_command_error() {
    let err = parse_rebase_todo("pick abc1234 ok\nfrobnicate xyz").unwrap_err();
    let text = err.message();
    assert!(text.contains("Parse error at line 2"));
    assert!(text.contains("Unknown command: frobnicate"));
}

#[test]
fn test_from_str_and_to_short() {
    assert_eq!(RebaseCommand::from_str("PICK"), Some(RebaseCommand::Pick));
    assert_eq!(RebaseCommand::from_str("b"), Some(RebaseCommand::Break));
    assert_eq!(RebaseCommand::from_str("nope"), None);
    assert_eq!(RebaseCommand::Drop.to_short(), "d");
    assert_eq!(
        RebaseCommand::Merge {
            commit: None,
            label: "x".to_string(),
            message: None
        }
        .to_short(),
        "m"
    );
}

#[test]
fn test_parse_merge_args_forms() {
    let (commit, label, message) = gitstate::rebase::parse_merge_args("-C abc123 topic # Merge it");
    assert_eq!(commit.as_deref(), Some("abc123"));
    assert_eq!(label, "topic");
    assert_eq!(message.as_deref(), Some("Merge it"));

    let (commit2, label2, message2) = gitstate::rebase::parse_merge_args("topic");
    assert!(commit2.is_none());
    assert_eq!(label2, "topic");
    assert!(message2.is_none());
}
