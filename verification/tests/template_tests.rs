use neat::classifier::Classifier;
use neat::metadata::AudioMetadata;
use neat::organizer::FileMeta;
use neat::scanner::FileInfo;
use neat::template::{get_preset_template, substitute_vars, TemplateEngine};

fn engine(pairs: &[(&str, &str)]) -> TemplateEngine {
    TemplateEngine::new(
        pairs.iter().map(|(k, v)| (k.to_string(), v.to_string())).collect(),
    )
}

#[test]
fn test_render_basic() {
    let e = engine(&[("year", "2024"), ("month", "12"), ("filename", "photo")]);
    assert_eq!(e.render("{year}/{month}/{filename}"), "2024/12/photo");
}

#[test]
fn test_render_missing_variable() {
    let e = engine(&[]);
    assert_eq!(e.render("{missing}/test"), "Unknown/test");
}

#[test]
fn test_render_cleans_path() {
    let e = engine(&[("a", ""), ("b", "folder")]);
    let result = e.render("/{a}/{b}/");
    assert!(result.contains("folder"));
}

#[test]
fn test_engine_get_and_set() {
    let mut e = engine(&[("year", "2024")]);
    assert_eq!(e.get("year"), Some("2024".to_string()));
    assert_eq!(e.get("month"), None);
    e.set("month".to_string(), "12".to_string());
    assert_eq!(e.get("month"), Some("12".to_string()));
    e.set("year".to_string(), "2025".to_string());
    assert_eq!(e.get("year"), Some("2025".to_string()));
    assert_eq!(e.list_variables().len(), 2);
}

#[test]
fn test_preset_templates() {
    assert_eq!(get_preset_template("by-type"), Some("{category}/{filename}"));
    assert_eq!(get_preset_template("by-date"), Some("{year}/{month}/{filename}"));
    assert_eq!(get_preset_template("unknown"), None);
}

#[test]
fn test_substitute_vars_basic() {
    let cmd = "echo {file} -> {dest}";
    let result = substitute_vars(cmd, "/home/user/document.pdf", "/home/user/Documents/document.pdf");
    assert!(result.contains("/home/user/document.pdf"));
    assert!(result.contains("/home/user/Documents/document.pdf"));
}

#[test]
fn test_substitute_vars_name_ext() {
    let result = substitute_vars("process {name}.{ext}", "/tmp/report.pdf", "/docs/report.pdf");
    assert_eq!(result, "process report.pdf");
}

#[test]
fn test_substitute_vars_dir() {
    let result = substitute_vars("notify {dir}", "/tmp/file.txt", "/archive/2024/file.txt");
    assert!(result.contains("/archive/2024"));
}

#[test]
fn test_substitute_vars_no_extension() {
    let result = substitute_vars("moved {name}", "/tmp/Makefile", "/docs/Makefile");
    assert_eq!(result, "moved Makefile");
}

#[test]
fn test_from_file_variables() {
    let file = FileInfo {
        path: "/music/song.mp3".to_string(),
        name: "song.mp3".to_string(),
        extension: Some("mp3".to_string()),
        size: 2048,
        modified: 86_400,
        created: None,
    };
    let meta = FileMeta {
        image: None,
        audio: Some(AudioMetadata {
            artist: Some("Some Artist".to_string()),
            album: Some("Some Album".to_string()),
            ..Default::default()
        }),
    };
    let engine = neat::template::TemplateEngine::from_file(&file, &Classifier::new(), &meta);
    assert_eq!(engine.get("filename"), Some("song".to_string()));
    assert_eq!(engine.get("name"), Some("song.mp3".to_string()));
    assert_eq!(engine.get("extension"), Some("mp3".to_string()));
    assert_eq!(engine.get("size"), Some("2048".to_string()));
    assert_eq!(engine.get("size_kb"), Some("2".to_string()));
    assert_eq!(engine.get("year"), Some("1970".to_string()));
    assert_eq!(engine.get("month"), Some("01".to_string()));
    assert_eq!(engine.get("date"), Some("1970-01-02".to_string()));
    assert_eq!(engine.get("category"), Some("Audio".to_string()));
    assert_eq!(engine.get("artist"), Some("Some Artist".to_string()));
    assert_eq!(engine.get("album"), Some("Some Album".to_string()));
    assert_eq!(engine.render("{artist}/{album}/{name}"), "Some Artist/Some Album/song.mp3");
}
