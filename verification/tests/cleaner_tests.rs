use neat::cleaner::{find_old_files, format_age, parse_duration};
use neat::error::NeatError;
use neat::scanner::FileInfo;

fn make_file_info(name: &str, modified: u64) -> FileInfo {
    FileInfo {
        path: format!("/tmp/{}", name),
        name: name.to_string(),
        extension: name.rsplit_once('.').map(|(_, e)| e.to_string()),
        size: 100,
        modified,
        created: None,
    }
}

#[test]
fn cleaner_test_parse_duration_days() {
    let d = parse_duration("30d").unwrap();
    assert_eq!(d, 30 * 86400);
}

#[test]
fn cleaner_test_parse_duration_weeks() {
    let d = parse_duration("1w").unwrap();
    assert_eq!(d, 7 * 86400);
}

#[test]
fn cleaner_test_parse_duration_hours() {
    let d = parse_duration("24h").unwrap();
    assert_eq!(d, 24 * 3600);
}

#[test]
fn test_parse_duration_no_unit_defaults_to_days() {
    let d = parse_duration("5").unwrap();
    assert_eq!(d, 5 * 86400);
}

#[test]
fn test_parse_duration_with_whitespace() {
    let d = parse_duration("  7d  ").unwrap();
    assert_eq!(d, 7 * 86400);
}

#[test]
fn test_parse_duration_empty_fails() {
    assert!(parse_duration("").is_err());
    assert!(parse_duration("   ").is_err());
}

#[test]
fn test_parse_duration_invalid_fails() {
    assert!(parse_duration("abc").is_err());
    assert!(parse_duration("d").is_err());
}

#[test]
fn test_parse_duration_zero() {
    let d = parse_duration("0d").unwrap();
    assert_eq!(d, 0);
}

#[test]
fn test_parse_duration_uppercase() {
    let d = parse_duration("7D").unwrap();
    assert_eq!(d, 7 * 86400);
}

#[test]
fn test_parse_duration_large_value() {
    let d = parse_duration("365d").unwrap();
    assert_eq!(d, 365 * 86400);
}

#[test]
fn test_parse_duration_negative_fails() {
    assert!(parse_duration("-7d").is_err());
}

#[test]
fn test_parse_duration_error_kind() {
    match parse_duration("") {
        Err(NeatError::InvalidDuration(_)) => {},
        other => panic!("expected an invalid-duration error, got {:?}", other),
    }
}

#[test]
fn test_find_old_files_empty() {
    let files: Vec<FileInfo> = vec![];
    let old = find_old_files(&files, 86400, 1_700_000_000);
    assert!(old.is_empty());
}

#[test]
fn test_find_old_files_filters_correctly() {
    let now: u64 = 1_700_000_000;
    let old_time = now - 86400 * 10;
    let new_time = now - 3600;
    let files = vec![make_file_info("old.txt", old_time), make_file_info("new.txt", new_time)];
    let old_files = find_old_files(&files, 86400 * 5, now);
    assert_eq!(old_files.len(), 1);
    assert_eq!(old_files[0].name, "old.txt");
}

#[test]
fn test_format_age_minutes() {
    assert_eq!(format_age(1800), "30m ago");
}

#[test]
fn test_format_age_hours() {
    assert_eq!(format_age(7200), "2h ago");
}

#[test]
fn test_format_age_days() {
    assert_eq!(format_age(172800), "2d ago");
}

#[test]
fn test_format_age_weeks() {
    assert_eq!(format_age(1209600), "2w ago");
}

#[test]
fn test_format_age_zero() {
    assert_eq!(format_age(0), "0m ago");
}

#[test]
fn test_format_age_one_second() {
    assert_eq!(format_age(1), "0m ago");
}

#[test]
fn test_format_age_boundary_hour() {
    assert_eq!(format_age(3599), "59m ago");
    assert_eq!(format_age(3600), "1h ago");
}

#[test]
fn test_format_age_boundary_day() {
    assert_eq!(format_age(86399), "23h ago");
    assert_eq!(format_age(86400), "1d ago");
}

#[test]
fn test_find_empty_dirs_empty_directory() {
    let dirs = vec!["/t/empty".to_string(), "/t/other".to_string()];
    let files = vec!["/t/other/file.txt".to_string()];
    let result = neat::cleaner::find_empty_dirs(&dirs, &files);
    assert!(result.contains(&"/t/empty".to_string()));
}

#[test]
fn test_find_empty_dirs_non_empty() {
    let dirs = vec!["/t/has_file".to_string()];
    let files = vec!["/t/has_file/file.txt".to_string()];
    let result = neat::cleaner::find_empty_dirs(&dirs, &files);
    assert!(!result.contains(&"/t/has_file".to_string()));
}

#[test]
fn test_find_empty_dirs_nested() {
    let dirs = vec!["/t/parent".to_string(), "/t/parent/child".to_string()];
    let files: Vec<String> = vec![];
    let result = neat::cleaner::find_empty_dirs(&dirs, &files);
    assert!(result.contains(&"/t/parent/child".to_string()));
    assert!(result.contains(&"/t/parent".to_string()));
    // children come before their parents
    let child_at = result.iter().position(|d| d == "/t/parent/child").unwrap();
    let parent_at = result.iter().position(|d| d == "/t/parent").unwrap();
    assert!(child_at < parent_at);
}
