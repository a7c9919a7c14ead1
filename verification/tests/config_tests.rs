use neat::config::{default_organize_mode, Config, Rule, Settings};

fn rule(name: &str, pattern: &str, destination: &str, priority: i32) -> Rule {
    Rule {
        name: name.to_string(),
        pattern: pattern.to_string(),
        destination: destination.to_string(),
        priority,
        post_action: None,
    }
}

#[test]
fn test_rule_matches() {
    let r = rule("Test", "*.pdf", "Documents", 0);
    assert!(r.matches("document.pdf"));
    assert!(r.matches("invoice.pdf"));
    assert!(!r.matches("image.png"));
}

#[test]
fn test_rule_matches_complex() {
    let r = rule("Invoices", "*invoice*.pdf", "Documents/Invoices", 0);
    assert!(r.matches("invoice_2024.pdf"));
    assert!(r.matches("my_invoice.pdf"));
    assert!(!r.matches("invoice.txt"));
}

#[test]
fn test_rule_get_destination_simple() {
    let r = rule("Test", "*.pdf", "Documents", 0);
    let result = r.get_destination("/home/user", "file.pdf", Some("pdf"));
    assert_eq!(result, "/home/user/Documents/file.pdf".to_string());
}

#[test]
fn test_rule_get_destination_with_ext_template() {
    let r = rule("Test", "*", "Files/{ext}", 0);
    let result = r.get_destination("/base", "doc.pdf", Some("pdf"));
    assert_eq!(result, "/base/Files/pdf/doc.pdf".to_string());
}

#[test]
fn test_rule_get_destination_no_extension() {
    let r = rule("Test", "*", "Files/{ext}", 0);
    let result = r.get_destination("/base", "Makefile", None);
    assert_eq!(result, "/base/Files/unknown/Makefile".to_string());
}

#[test]
fn test_rule_destination_for_dates() {
    let r = rule("Archive", "*", "Archive/{year}/{month}", 0);
    let result = r.destination_for("/base", "x.txt", Some("txt"), 2024, 6, 15);
    assert_eq!(result, "/base/Archive/2024/06/x.txt".to_string());
}

#[test]
fn test_get_sorted_rules_by_priority() {
    let config = Config {
        rules: vec![
            rule("Low", "*", "low", 0),
            rule("High", "*", "high", 10),
            rule("Medium", "*", "medium", 5),
        ],
        settings: Settings::default(),
    };
    let sorted = config.get_sorted_rules();
    assert_eq!(sorted[0].name, "High");
    assert_eq!(sorted[1].name, "Medium");
    assert_eq!(sorted[2].name, "Low");
}

#[test]
fn test_find_matching_rule() {
    let config = Config {
        rules: vec![rule("PDFs", "*.pdf", "Documents", 5), rule("Everything", "*", "Other", 0)],
        settings: Settings::default(),
    };
    let pdf_rule = config.find_matching_rule("report.pdf");
    assert!(pdf_rule.is_some());
    assert_eq!(pdf_rule.unwrap().name, "PDFs");
    let other_rule = config.find_matching_rule("image.png");
    assert!(other_rule.is_some());
    assert_eq!(other_rule.unwrap().name, "Everything");
}

#[test]
fn test_find_matching_rule_none() {
    let config = Config {
        rules: vec![rule("PDFs only", "*.pdf", "Documents", 0)],
        settings: Settings::default(),
    };
    let result = config.find_matching_rule("image.png");
    assert!(result.is_none());
}

#[test]
fn test_settings_default() {
    let settings = Settings::default();
    assert!(!settings.include_hidden);
    assert!(!settings.follow_symlinks);
    assert_eq!(settings.default_organize_mode, "by-type");
}

#[test]
fn test_default_organize_mode() {
    assert_eq!(default_organize_mode(), "by-type");
}

#[test]
fn test_get_sorted_rules_stable_on_ties() {
    let config = Config {
        rules: vec![
            rule("First", "*.a", "a", 5),
            rule("Second", "*.b", "b", 5),
            rule("Third", "*.c", "c", 9),
            rule("Fourth", "*.d", "d", 5),
        ],
        settings: Settings::default(),
    };
    let sorted = config.get_sorted_rules();
    assert_eq!(sorted[0].name, "Third");
    assert_eq!(sorted[1].name, "First");
    assert_eq!(sorted[2].name, "Second");
    assert_eq!(sorted[3].name, "Fourth");
}
