use neat::classifier::Category;
use neat::error::NeatError;
use neat::scanner::{filter_ignore_lines, FileInfo};
use neat::stats::compute_stats;
use neat::ui::SelectedMode;

fn make_file_info(name: &str, ext: Option<&str>, size: u64) -> FileInfo {
    FileInfo {
        path: format!("/test/{}", name),
        name: name.to_string(),
        extension: ext.map(|s| s.to_string()),
        size,
        modified: 0,
        created: None,
    }
}

#[test]
fn test_compute_stats_counts_by_category() {
    let files = vec![
        make_file_info("a.jpg", Some("jpg"), 10),
        make_file_info("b.png", Some("png"), 20),
        make_file_info("c.pdf", Some("pdf"), 5),
    ];
    let stats = compute_stats(&files);
    assert_eq!(stats.total_files, 3);
    assert_eq!(stats.total_size, 35);
    assert_eq!(stats.categories.len(), 2);
    let images = stats.categories.iter().find(|c| c.name == "Images").unwrap();
    assert_eq!(images.count, 2);
    assert_eq!(images.size, 30);
    let documents = stats.categories.iter().find(|c| c.name == "Documents").unwrap();
    assert_eq!(documents.count, 1);
    assert_eq!(documents.size, 5);
}

#[test]
fn test_filter_ignore_lines() {
    let lines = vec![
        "  *.tmp  ".to_string(),
        "".to_string(),
        "# a comment".to_string(),
        "build/".to_string(),
    ];
    let kept = filter_ignore_lines(&lines);
    assert_eq!(kept, vec!["*.tmp".to_string(), "build/".to_string()]);
}

#[test]
fn test_selected_mode_cycle_and_names() {
    let m = SelectedMode::ByType;
    assert_eq!(m.name(), "By Type");
    let m = m.next();
    assert_eq!(m, SelectedMode::ByDate);
    assert_eq!(m.name(), "By Date");
    let m = m.next();
    assert_eq!(m, SelectedMode::ByExtension);
    assert_eq!(m.name(), "By Extension");
    assert_eq!(m.next(), SelectedMode::ByType);
}

#[test]
fn test_error_messages() {
    let e = NeatError::PathNotFound("/nope".to_string());
    assert_eq!(e.message(), "Path does not exist: /nope");
    let e = NeatError::InvalidDuration("xx".to_string());
    assert_eq!(e.message(), "Invalid duration format: xx. Use formats like 30d, 7d, 1w");
    let e = NeatError::NoHistory;
    assert_eq!(e.message(), "No history found. Nothing to undo.");
}

#[test]
fn test_category_icons_distinct() {
    let icons: Vec<&str> = Category::all().iter().map(neat::ui::category_icon).collect();
    let mut unique = icons.clone();
    unique.sort();
    unique.dedup();
    assert_eq!(icons.len(), unique.len());
}
