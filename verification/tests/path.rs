use claude_idr::path::epoch_to_civil_utc;
use claude_idr::path::next_number;
use claude_idr::path::parse_idr_number;
use claude_idr::path::resolve;
use claude_idr::path::validate_sow_path;
use claude_idr::path::write_idr;

fn names(xs: &[&str]) -> Vec<String> {
    xs.iter().map(|s| s.to_string()).collect()
}

#[test]
fn resolve_uses_fixed_output_dir_when_set() {
    let result = resolve(
        &Some("my-idrs".to_string()),
        &None,
        false,
        &Some("/workspace".to_string()),
        "/workspace",
        "2026-02-07",
    );

    assert_eq!(result, "my-idrs");
}

#[test]
fn resolve_fixed_output_dir_takes_priority_over_sow() {
    // the pointer names a valid file inside the workspace, but the fixed
    // directory still wins
    let result = resolve(
        &Some("fixed".to_string()),
        &Some("/workspace/sow-project/sow.md".to_string()),
        true,
        &Some("/workspace".to_string()),
        "/workspace",
        "2026-02-07",
    );

    assert_eq!(result, "fixed");
}

#[test]
fn resolve_uses_date_based_path_when_no_current_sow() {
    let result = resolve(
        &None,
        &None,
        false,
        &Some("/workspace".to_string()),
        "/workspace",
        "2026-02-07",
    );

    assert_eq!(result, "/workspace/planning/2026-02-07");
}

#[test]
fn resolve_uses_sow_directory_when_valid_current_sow() {
    let result = resolve(
        &None,
        &Some("/workspace/sow/project-x/sow.md".to_string()),
        true,
        &Some("/workspace".to_string()),
        "/workspace",
        "2026-02-07",
    );

    assert_eq!(result, "/workspace/sow/project-x");
}

#[test]
fn resolve_falls_back_to_date_when_sow_points_outside_workspace() {
    // after symlink resolution the target lies outside the workspace,
    // even though the pointer's text looked contained
    let result = resolve(
        &None,
        &Some("/elsewhere/sow.md".to_string()),
        true,
        &Some("/workspace".to_string()),
        "/workspace",
        "2026-02-07",
    );

    assert_eq!(result, "/workspace/planning/2026-02-07");
}

#[test]
fn resolve_falls_back_to_date_when_sow_file_does_not_exist() {
    // a pointer target that could not be resolved arrives as nothing
    let result = resolve(
        &None,
        &None,
        false,
        &Some("/workspace".to_string()),
        "/workspace",
        "2026-02-07",
    );

    assert_eq!(result, "/workspace/planning/2026-02-07");
}

#[test]
fn resolve_falls_back_when_target_is_not_a_regular_file() {
    let result = resolve(
        &None,
        &Some("/workspace/sow".to_string()),
        false,
        &Some("/workspace".to_string()),
        "/workspace",
        "2026-02-07",
    );

    assert_eq!(result, "/workspace/planning/2026-02-07");
}

#[test]
fn resolve_rejects_sibling_with_common_name_prefix() {
    // "/workspace-evil" shares a textual prefix with "/workspace" but is
    // not inside it
    let result = resolve(
        &None,
        &Some("/workspace-evil/sow.md".to_string()),
        true,
        &Some("/workspace".to_string()),
        "/workspace",
        "2026-02-07",
    );

    assert_eq!(result, "/workspace/planning/2026-02-07");
}

#[test]
fn validate_sow_path_rejects_symlink_outside_workspace() {
    // the caller resolved the link: its real location is outside
    let result = validate_sow_path("/outside/sow.md", "/workspace", true);
    assert!(result.is_none());
}

#[test]
fn validate_sow_path_accepts_file_under_workspace() {
    let result = validate_sow_path("/workspace/a/sow.md", "/workspace", true);
    assert_eq!(result.unwrap(), "/workspace/a");
}

#[test]
fn next_number_returns_1_for_empty_directory() {
    assert_eq!(next_number(&Vec::new()), 1);
}

#[test]
fn next_number_returns_max_plus_1() {
    assert_eq!(next_number(&names(&["idr-01.md", "idr-03.md"])), 4);
}

#[test]
fn next_number_ignores_non_idr_files() {
    let entries = names(&["idr-02.md", "notes.md", "readme.txt", "idr-summary.md"]);
    assert_eq!(next_number(&entries), 3);
}

#[test]
fn next_number_returns_1_for_nonexistent_directory() {
    // a missing directory is handed over as holding no entries
    assert_eq!(next_number(&Vec::new()), 1);
}

#[test]
fn next_number_handles_large_numbers() {
    assert_eq!(next_number(&names(&["idr-99.md"])), 100);
}

#[test]
fn next_number_saturates_at_the_type_limit() {
    assert_eq!(next_number(&names(&["idr-4294967295.md"])), u32::MAX);
}

#[test]
fn parse_idr_number_extracts_number() {
    assert_eq!(parse_idr_number("idr-01.md"), Some(1));
    assert_eq!(parse_idr_number("idr-42.md"), Some(42));
    assert_eq!(parse_idr_number("idr-100.md"), Some(100));
}

#[test]
fn parse_idr_number_rejects_invalid_names() {
    assert_eq!(parse_idr_number("notes.md"), None);
    assert_eq!(parse_idr_number("idr-.md"), None);
    assert_eq!(parse_idr_number("idr-abc.md"), None);
    assert_eq!(parse_idr_number("idr-01.txt"), None);
}

#[test]
fn parse_idr_number_rejects_overflowing_number() {
    assert_eq!(parse_idr_number("idr-99999999999.md"), None);
}

#[test]
fn write_idr_creates_file_with_correct_format() {
    let purpose = Some("テスト目的".to_string());
    let content = "## 変更概要\n\nテスト内容";
    let stat = " src/main.rs | 10 +++++++---";

    let result = write_idr(&purpose, content, stat, "2026-02-07 14:30");

    assert!(result.starts_with("# IDR: テスト目的\n\n> 2026-02-07 14:30"));
    assert!(result.contains(content));
    assert!(result.contains("---\n\n### git diff --stat\n```\n"));
    assert!(result.contains(stat));
    assert!(result.ends_with("```\n"));
}

#[test]
fn epoch_to_civil_utc_epoch_zero_is_epoch_date() {
    assert_eq!(epoch_to_civil_utc(0), (1970, 1, 1));
}

#[test]
fn epoch_to_civil_utc_known_dates() {
    // 2026-02-07 00:00:00 UTC
    assert_eq!(epoch_to_civil_utc(1770422400), (2026, 2, 7));
    // the leap day of a year divisible by 400
    assert_eq!(epoch_to_civil_utc(951782400), (2000, 2, 29));
    // the last second of a year
    assert_eq!(epoch_to_civil_utc(1767225599), (2025, 12, 31));
}

#[test]
fn write_idr_uses_fallback_purpose_when_none() {
    let result = write_idr(&None, "content", "stat", "2026-01-01 00:00");

    assert!(result.starts_with("# IDR: (目的抽出失敗)\n\n> 2026-01-01 00:00"));
}
