use claude_idr::context::extract;
use claude_idr::context::extract_changed_files;
use claude_idr::context::extract_user_request;
use claude_idr::jsonl::iter_values;

fn lines(xs: &[&str]) -> Vec<String> {
    xs.iter().map(|s| s.to_string()).collect()
}

#[test]
fn extract_returns_none_for_empty_file() {
    assert!(extract(&Vec::new()).is_none());
}

#[test]
fn extract_returns_none_when_no_relevant_data() {
    let jsonl = lines(&[r#"{"message":{"content":[{"name":"Read","input":{}}]}}"#]);
    assert!(extract(&jsonl).is_none());
}

#[test]
fn extract_collects_changed_files() {
    let jsonl = lines(&[
        r#"{"message":{"content":[{"name":"Write","input":{"file_path":"src/main.rs"}}]}}"#,
        r#"{"message":{"content":[{"name":"Edit","input":{"file_path":"src/lib.rs"}}]}}"#,
    ]);

    let result = extract(&jsonl).unwrap();
    assert!(result.contains("# Changed files:"));
    assert!(result.contains("- src/lib.rs"));
    assert!(result.contains("- src/main.rs"));
}

#[test]
fn extract_deduplicates_changed_files() {
    let jsonl = lines(&[
        r#"{"message":{"content":[{"name":"Write","input":{"file_path":"src/main.rs"}}]}}"#,
        r#"{"message":{"content":[{"name":"Edit","input":{"file_path":"src/main.rs"}}]}}"#,
    ]);

    let result = extract(&jsonl).unwrap();
    // Count occurrences of "- src/main.rs"
    let count = result.matches("- src/main.rs").count();
    assert_eq!(count, 1, "Duplicate file paths should be deduplicated");
}

#[test]
fn extract_collects_user_requests() {
    let jsonl = lines(&[
        r#"{"type":"user","message":{"content":"fix the bug in auth module"}}"#,
        r#"{"message":{"content":[{"name":"Write","input":{"file_path":"src/auth.rs"}}]}}"#,
        r#"{"type":"user","message":{"content":"looks good, thanks"}}"#,
    ]);

    let result = extract(&jsonl).unwrap();
    assert!(result.contains("# User requests in this session:"));
    assert!(result.contains("- fix the bug in auth module"));
    assert!(result.contains("- looks good, thanks"));
}

#[test]
fn extract_truncates_long_user_messages() {
    let long_msg = "a".repeat(300);
    let line = format!(r#"{{"type":"user","message":{{"content":"{long_msg}"}}}}"#);
    let jsonl = lines(&[&line]);

    let result = extract(&jsonl).unwrap();
    // The truncated message should be 150 chars
    let expected_truncated = "a".repeat(150);
    assert!(result.contains(&expected_truncated));
    // Should NOT contain 151+ 'a's in a single line
    let too_long = "a".repeat(151);
    assert!(!result.contains(&too_long));
}

#[test]
fn extract_truncates_multibyte_messages_whole() {
    // 200 three-byte characters: kept at 150 characters, none split
    let long_msg = "あ".repeat(200);
    let line = format!(r#"{{"type":"user","message":{{"content":"{long_msg}"}}}}"#);
    let jsonl = lines(&[&line]);

    let result = extract(&jsonl).unwrap();
    let expected = format!("- {}\n", "あ".repeat(150));
    assert!(result.contains(&expected));
    assert!(!result.contains(&"あ".repeat(151)));
}

#[test]
fn extract_keeps_exact_boundary_length_message() {
    let msg = "b".repeat(150);
    let line = format!(r#"{{"type":"user","message":{{"content":"{msg}"}}}}"#);
    let jsonl = lines(&[&line]);

    let result = extract(&jsonl).unwrap();
    assert!(result.contains(&format!("- {msg}\n")));
}

#[test]
fn extract_skips_non_string_user_content() {
    // When user message content is an array (not string), skip it
    let jsonl = lines(&[
        r#"{"type":"user","message":{"content":[{"type":"image","data":"..."}]}}"#,
        r#"{"message":{"content":[{"name":"Write","input":{"file_path":"x.rs"}}]}}"#,
    ]);

    let result = extract(&jsonl).unwrap();
    assert!(result.contains("# Changed files:"));
    assert!(result.contains("- x.rs"));
    // No user requests since content was an array
    assert!(!result.contains("image"));
}

#[test]
fn extract_handles_mixed_valid_and_invalid_json() {
    let jsonl = lines(&[
        "not valid json at all",
        r#"{"message":{"content":[{"name":"Edit","input":{"file_path":"a.rs"}}]}}"#,
        "{broken",
        r#"{"type":"user","message":{"content":"hello"}}"#,
    ]);

    let result = extract(&jsonl).unwrap();
    assert!(result.contains("- a.rs"));
    assert!(result.contains("- hello"));
}

#[test]
fn extract_output_format_matches_spec() {
    let jsonl = lines(&[
        r#"{"type":"user","message":{"content":"add feature X"}}"#,
        r#"{"message":{"content":[{"name":"Write","input":{"file_path":"src/foo.ts"}}]}}"#,
        r#"{"message":{"content":[{"name":"Edit","input":{"file_path":"src/bar.ts"}}]}}"#,
    ]);

    let result = extract(&jsonl).unwrap();
    let expected = "\
# Changed files:
- src/bar.ts
- src/foo.ts

# User requests in this session:
- add feature X
";
    assert_eq!(result, expected);
}

#[test]
fn extract_same_path_written_and_edited_listed_once() {
    // one Write and one Edit of the same path, plus one user request:
    // the path is listed exactly once and the request exactly once
    let jsonl = lines(&[
        r#"{"message":{"content":[{"name":"Write","input":{"file_path":"src/a.rs"}}]}}"#,
        r#"{"message":{"content":[{"name":"Edit","input":{"file_path":"src/a.rs"}}]}}"#,
        r#"{"type":"user","message":{"content":"fix bug"}}"#,
    ]);

    let result = extract(&jsonl).unwrap();
    assert_eq!(result.matches("- src/a.rs").count(), 1);
    assert_eq!(result.matches("- fix bug").count(), 1);
}

#[test]
fn extract_caps_requests_at_twenty_and_keeps_first() {
    let mut raw: Vec<String> = Vec::new();
    for k in 0..25 {
        raw.push(format!(
            r#"{{"type":"user","message":{{"content":"request number {k:02}"}}}}"#
        ));
    }
    let result = extract(&raw).unwrap();
    let bullet_count = result.lines().filter(|l| l.starts_with("- ")).count();
    assert_eq!(bullet_count, 20);
    assert!(result.contains("- request number 00"));
    assert!(result.contains("- request number 19"));
    assert!(!result.contains("- request number 20"));
}

#[test]
fn extract_sorts_changed_files_ascending() {
    let jsonl = lines(&[
        r#"{"message":{"content":[{"name":"Write","input":{"file_path":"z.rs"}}]}}"#,
        r#"{"message":{"content":[{"name":"Write","input":{"file_path":"a.rs"}}]}}"#,
        r#"{"message":{"content":[{"name":"Write","input":{"file_path":"m.rs"}}]}}"#,
    ]);
    let result = extract(&jsonl).unwrap();
    let a = result.find("- a.rs").unwrap();
    let m = result.find("- m.rs").unwrap();
    let z = result.find("- z.rs").unwrap();
    assert!(a < m && m < z);
}

// -- extract_changed_files tests --

#[test]
fn extract_changed_files_ignores_non_write_edit_tools() {
    let recs = iter_values(&lines(&[
        r#"{"message":{"content":[{"name":"Bash","input":{"command":"ls"}}]}}"#,
    ]));
    assert_eq!(recs.len(), 1);
    let mut files: Vec<String> = Vec::new();
    extract_changed_files(&recs[0], &mut files);
    assert!(files.is_empty());
}

#[test]
fn extract_changed_files_handles_missing_file_path() {
    let recs = iter_values(&lines(&[
        r#"{"message":{"content":[{"name":"Write","input":{}}]}}"#,
    ]));
    assert_eq!(recs.len(), 1);
    let mut files: Vec<String> = Vec::new();
    extract_changed_files(&recs[0], &mut files);
    assert!(files.is_empty());
}

// -- extract_user_request tests --

#[test]
fn extract_user_request_ignores_non_user_type() {
    let recs = iter_values(&lines(&[
        r#"{"type":"assistant","message":{"content":"sure, I'll help"}}"#,
    ]));
    assert_eq!(recs.len(), 1);
    let mut requests: Vec<String> = Vec::new();
    extract_user_request(&recs[0], &mut requests);
    assert!(requests.is_empty());
}

#[test]
fn extract_user_request_ignores_missing_type() {
    let recs = iter_values(&lines(&[r#"{"message":{"content":"orphan message"}}"#]));
    assert_eq!(recs.len(), 1);
    let mut requests: Vec<String> = Vec::new();
    extract_user_request(&recs[0], &mut requests);
    assert!(requests.is_empty());
}
