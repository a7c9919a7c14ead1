use neat::scanner::{format_size, parse_date, parse_size, total_size, FileInfo};

fn make_file_info(path: &str, size: u64) -> FileInfo {
    let name = path.rsplit('/').next().unwrap_or(path).to_string();
    let extension = name.rsplit_once('.').map(|(_, e)| e.to_lowercase());
    FileInfo {
        path: path.to_string(),
        name,
        extension,
        size,
        modified: 1_700_000_000,
        created: None,
    }
}

#[test]
fn scanner_test_format_size_bytes() {
    assert_eq!(format_size(0), "0 B");
    assert_eq!(format_size(500), "500 B");
    assert_eq!(format_size(1023), "1023 B");
}

#[test]
fn scanner_test_format_size_kb() {
    assert_eq!(format_size(1024), "1.00 KB");
    assert_eq!(format_size(1536), "1.50 KB");
    assert_eq!(format_size(10240), "10.00 KB");
}

#[test]
fn scanner_test_format_size_mb() {
    assert_eq!(format_size(1024 * 1024), "1.00 MB");
    assert_eq!(format_size(1024 * 1024 * 5), "5.00 MB");
}

#[test]
fn scanner_test_format_size_gb() {
    assert_eq!(format_size(1024 * 1024 * 1024), "1.00 GB");
    assert_eq!(format_size(1024 * 1024 * 1024 * 2), "2.00 GB");
}

#[test]
fn scanner_test_total_size() {
    let files = vec![make_file_info("/test/a.txt", 100), make_file_info("/test/b.txt", 200)];
    assert_eq!(total_size(&files), 300);
}

#[test]
fn scanner_test_total_size_empty() {
    let files: Vec<FileInfo> = vec![];
    assert_eq!(total_size(&files), 0);
}

#[test]
fn test_parse_size_valid_units() {
    assert_eq!(parse_size("10MB").unwrap(), 10 * 1024 * 1024);
    assert_eq!(parse_size("1.5GB").unwrap(), (1024u64 * 1024 * 1024) * 3 / 2);
    assert_eq!(parse_size("500KB").unwrap(), 500 * 1024);
    assert_eq!(parse_size("100B").unwrap(), 100);
    assert_eq!(parse_size("1TB").unwrap(), 1024_u64 * 1024 * 1024 * 1024);
}

#[test]
fn test_parse_size_short_units() {
    assert_eq!(parse_size("10M").unwrap(), 10 * 1024 * 1024);
    assert_eq!(parse_size("1G").unwrap(), 1024 * 1024 * 1024);
    assert_eq!(parse_size("500K").unwrap(), 500 * 1024);
    assert_eq!(parse_size("1T").unwrap(), 1024_u64 * 1024 * 1024 * 1024);
}

#[test]
fn test_parse_size_edge_cases() {
    assert!(parse_size("").is_err());
    assert!(parse_size("invalid").is_err());
    assert!(parse_size("-10MB").is_err());
    assert_eq!(parse_size("  10MB  ").unwrap(), 10 * 1024 * 1024);
    assert_eq!(parse_size("1024").unwrap(), 1024);
    assert_eq!(parse_size("0").unwrap(), 0);
    assert_eq!(parse_size("0MB").unwrap(), 0);
    assert_eq!(parse_size("10mb").unwrap(), 10 * 1024 * 1024);
}

#[test]
fn test_parse_size_float_values() {
    assert_eq!(parse_size("0.5GB").unwrap(), (1024u64 * 1024 * 1024) / 2);
    assert_eq!(parse_size("2.5MB").unwrap(), (1024u64 * 1024) * 5 / 2);
}

#[test]
fn test_parse_date_dash_format() {
    let result = parse_date("2024-12-25");
    assert!(result.is_ok());
}

#[test]
fn test_parse_date_slash_format() {
    let result = parse_date("2024/12/25");
    assert!(result.is_ok());
}

#[test]
fn test_parse_date_invalid_format() {
    assert!(parse_date("2024.12.25").is_err());
    assert!(parse_date("25-12-2024").is_err());
    assert!(parse_date("12/25/2024").is_err());
}

#[test]
fn test_parse_date_invalid_dates() {
    assert!(parse_date("").is_err());
    assert!(parse_date("not-a-date").is_err());
    assert!(parse_date("2024-13-01").is_err());
    assert!(parse_date("2024-02-30").is_err());
    assert!(parse_date("2024-04-31").is_err());
}

#[test]
fn test_parse_date_leap_year() {
    assert!(parse_date("2024-02-29").is_ok());
    assert!(parse_date("2023-02-29").is_err());
}

#[test]
fn test_parse_date_whitespace() {
    assert!(parse_date("  2024-12-25  ").is_ok());
}

#[test]
fn test_parse_date_exact_epoch() {
    assert_eq!(parse_date("1970-01-01").unwrap(), 0);
    assert_eq!(parse_date("1970-01-02").unwrap(), 86400);
}
