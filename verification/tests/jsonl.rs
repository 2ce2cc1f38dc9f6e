use claude_idr::jsonl::iter_values;

#[test]
fn iter_values_parses_valid_jsonl() {
    let lines = vec![
        r#"{"key":"val1"}"#.to_string(),
        r#"{"key":"val2"}"#.to_string(),
    ];
    let values = iter_values(&lines);
    assert_eq!(values.len(), 2);
}

#[test]
fn iter_values_skips_invalid_lines() {
    let lines = vec![
        "not json".to_string(),
        r#"{"key":"val"}"#.to_string(),
        "{broken".to_string(),
    ];
    let values = iter_values(&lines);
    assert_eq!(values.len(), 1);
}

#[test]
fn iter_values_skips_empty_lines() {
    let lines = vec![
        r#"{"a":1}"#.to_string(),
        "".to_string(),
        r#"{"b":2}"#.to_string(),
    ];
    let values = iter_values(&lines);
    assert_eq!(values.len(), 2);
}

#[test]
fn iter_values_returns_empty_for_no_lines() {
    let values = iter_values(&Vec::new());
    assert!(values.is_empty());
}
