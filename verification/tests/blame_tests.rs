use gitstate::blame::parse_line_porcelain;
use gitstate::date::format_unix_timestamp;
use gitstate::merge::detect_language;

#[test]
fn test_detect_language_rust() {
    assert_eq!(detect_language("src/main.rs"), "rust");
}

#[test]
fn test_detect_language_typescript() {
    assert_eq!(detect_language("app/page.tsx"), "typescript");
    assert_eq!(detect_language("utils.ts"), "typescript");
}

#[test]
fn test_detect_language_javascript() {
    assert_eq!(detect_language("index.js"), "javascript");
    assert_eq!(detect_language("config.mjs"), "javascript");
}

#[test]
fn test_detect_language_unknown() {
    assert_eq!(detect_language("file.xyz"), "plaintext");
    assert_eq!(detect_language("noext"), "plaintext");
}

#[test]
fn test_detect_language_case_insensitive() {
    assert_eq!(detect_language("File.RS"), "rust");
    assert_eq!(detect_language("App.TSX"), "typescript");
}

#[test]
fn test_parse_line_porcelain_basic() {
    let output = "\
abc1234def5678901234567890123456789012345 1 1 1
author Alice
author-mail <alice@example.com>
author-time 1700000000
author-tz +0900
committer Alice
committer-mail <alice@example.com>
committer-time 1700000000
committer-tz +0900
summary Initial commit
filename src/main.rs
\tuse std::io;
def5678abc1234901234567890123456789012345 2 2 1
author Bob
author-mail <bob@example.com>
author-time 1700086400
author-tz +0000
committer Bob
committer-mail <bob@example.com>
committer-time 1700086400
committer-tz +0000
summary Add feature X
filename src/main.rs
\tfn main() {}
";
    let result = parse_line_porcelain(output);
    assert_eq!(result.len(), 2);

    assert_eq!(result[0].line_number, 1);
    assert_eq!(result[0].hash, "abc1234");
    assert_eq!(result[0].author, "Alice");
    assert_eq!(result[0].summary, "Initial commit");

    assert_eq!(result[1].line_number, 2);
    assert_eq!(result[1].hash, "def5678");
    assert_eq!(result[1].author, "Bob");
    assert_eq!(result[1].summary, "Add feature X");
}

#[test]
fn test_parse_line_porcelain_empty() {
    let result = parse_line_porcelain("");
    assert!(result.is_empty());
}

#[test]
fn test_format_unix_timestamp() {
    assert_eq!(format_unix_timestamp(0), "unknown");
    assert_eq!(format_unix_timestamp(1700000000), "2023-11-14");
    assert_eq!(format_unix_timestamp(1000000000), "2001-09-09");
}

#[test]
fn test_format_unix_timestamp_leap_day() {
    assert_eq!(format_unix_timestamp(951782400), "2000-02-29");
    assert_eq!(format_unix_timestamp(86400), "1970-01-02");
}

#[test]
fn test_blame_metadata_persists_between_blocks() {
    let output = "\
abc1234def5678901234567890123456789012345 1 1 2
author Alice
author-time 1700000000
summary First
\tline one
abc1234def5678901234567890123456789012345 2 2
\tline two
";
    let result = parse_line_porcelain(output);
    assert_eq!(result.len(), 2);
    assert_eq!(result[1].author, "Alice");
    assert_eq!(result[1].summary, "First");
    assert_eq!(result[1].line_number, 2);
    assert_eq!(result[1].date, "2023-11-14");
}

#[test]
fn test_blame_rejects_non_hex_headers() {
    let output = "notahash! 1 1\nauthor Zoe\n\tcontent line\n";
    let result = parse_line_porcelain(output);
    assert_eq!(result.len(), 1);
    assert_eq!(result[0].hash, "");
    assert_eq!(result[0].author, "Zoe");
    assert_eq!(result[0].line_number, 0);
}
