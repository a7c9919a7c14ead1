use neat::filters::{get_mime_type, matches_mime, matches_regex, NameFilter};
use neat::scanner::{record_passes, FileInfo, ScanOptions};

#[test]
fn test_name_filter_startswith() {
    let filter = NameFilter { startswith: Some("IMG_".to_string()), ..Default::default() };
    assert!(filter.matches("IMG_0001.jpg"));
    assert!(!filter.matches("photo.jpg"));
}

#[test]
fn test_name_filter_endswith() {
    let filter = NameFilter { endswith: Some("_backup".to_string()), ..Default::default() };
    assert!(filter.matches("file_backup.txt"));
    assert!(!filter.matches("file.txt"));
}

#[test]
fn test_name_filter_contains() {
    let filter = NameFilter { contains: Some("2024".to_string()), ..Default::default() };
    assert!(filter.matches("report_2024_01.pdf"));
    assert!(!filter.matches("report_2023.pdf"));
}

#[test]
fn test_name_filter_case_insensitive() {
    let filter = NameFilter {
        startswith: Some("img_".to_string()),
        case_insensitive: true,
        ..Default::default()
    };
    assert!(filter.matches("IMG_0001.jpg"));
    assert!(filter.matches("img_0001.jpg"));
}

#[test]
fn test_name_filter_combined() {
    let filter = NameFilter {
        startswith: Some("IMG_".to_string()),
        contains: Some("2024".to_string()),
        ..Default::default()
    };
    assert!(filter.matches("IMG_2024_0001.jpg"));
    assert!(!filter.matches("IMG_2023_0001.jpg"));
    assert!(!filter.matches("photo_2024.jpg"));
}

#[test]
fn test_name_filter_is_empty() {
    assert!(NameFilter::new().is_empty());
    let filter = NameFilter { contains: Some("x".to_string()), ..Default::default() };
    assert!(!filter.is_empty());
}

#[test]
fn test_regex_matches() {
    assert!(matches_regex("IMG_0001.jpg", r"^IMG_\d{4}").unwrap());
    assert!(!matches_regex("photo.jpg", r"^IMG_\d{4}").unwrap());
}

#[test]
fn test_regex_invalid_pattern() {
    assert!(matches_regex("anything", "(unclosed").is_err());
}

#[test]
fn test_mime_type_detection() {
    assert_eq!(get_mime_type("test.jpg"), Some("image/jpeg".to_string()));
    assert_eq!(get_mime_type("test.pdf"), Some("application/pdf".to_string()));
}

#[test]
fn test_mime_filter_exact() {
    assert!(matches_mime("test.pdf", "application/pdf"));
    assert!(!matches_mime("test.pdf", "image/jpeg"));
}

#[test]
fn test_mime_filter_wildcard() {
    assert!(matches_mime("test.jpg", "image/*"));
    assert!(!matches_mime("test.jpg", "application/*"));
    assert!(matches_mime("test.png", "image/*"));
}

fn record(name: &str, size: u64, modified: u64) -> FileInfo {
    FileInfo {
        path: format!("/scan/{}", name),
        name: name.to_string(),
        extension: name.rsplit_once('.').map(|(_, e)| e.to_lowercase()),
        size,
        modified,
        created: None,
    }
}

#[test]
fn test_record_passes_hidden_rule() {
    let visible = record("visible.txt", 10, 100);
    let hidden = record(".hidden", 10, 100);
    let default_options = ScanOptions::default();
    assert!(record_passes(&visible, &default_options));
    assert!(!record_passes(&hidden, &default_options));
    let with_hidden = ScanOptions { include_hidden: true, ..Default::default() };
    assert!(record_passes(&hidden, &with_hidden));
}

#[test]
fn test_record_passes_size_and_date_bounds() {
    let f = record("a.txt", 500, 1_000_000);
    let ok = ScanOptions {
        min_size: Some(100),
        max_size: Some(1000),
        after_date: Some(999_999),
        before_date: Some(1_000_001),
        ..Default::default()
    };
    assert!(record_passes(&f, &ok));
    let too_small = ScanOptions { min_size: Some(501), ..Default::default() };
    assert!(!record_passes(&f, &too_small));
    let too_old = ScanOptions { after_date: Some(1_000_001), ..Default::default() };
    assert!(!record_passes(&f, &too_old));
}

#[test]
fn test_record_passes_ignore_patterns() {
    let f = record("draft.tmp", 10, 100);
    let opts = ScanOptions { ignore_patterns: vec!["*.tmp".to_string()], ..Default::default() };
    assert!(!record_passes(&f, &opts));
    let other = record("draft.txt", 10, 100);
    assert!(record_passes(&other, &opts));
}

#[test]
fn test_record_passes_regex_and_mime() {
    let f = record("IMG_0001.jpg", 10, 100);
    let opts = ScanOptions {
        regex_pattern: Some(r"^IMG_\d{4}".to_string()),
        mime_filter: Some("image/*".to_string()),
        ..Default::default()
    };
    assert!(record_passes(&f, &opts));
    let doc = record("report.pdf", 10, 100);
    assert!(!record_passes(&doc, &opts));
}
