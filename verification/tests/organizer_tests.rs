use std::collections::HashMap;

use neat::history::{plan_undo, History, Logger, OperationBatch, OperationType};
use neat::organizer::{conflict_action, plan_moves, resolve_conflict, ConflictAction,
    ConflictStrategy, FileMeta, OrganizeMode, OrganizeResult};
use neat::scanner::FileInfo;

fn make_file_info(name: &str, ext: Option<&str>, size: u64) -> FileInfo {
    FileInfo {
        path: format!("/test/{}", name),
        name: name.to_string(),
        extension: ext.map(|s| s.to_string()),
        size,
        modified: 1_700_000_000,
        created: None,
    }
}

fn metas(n: usize) -> Vec<FileMeta> {
    (0..n).map(|_| FileMeta::default()).collect()
}

#[test]
fn test_plan_moves_by_type() {
    let files = vec![
        make_file_info("photo.jpg", Some("jpg"), 1000),
        make_file_info("doc.pdf", Some("pdf"), 2000),
        make_file_info("song.mp3", Some("mp3"), 3000),
    ];
    let moves = plan_moves(&files, &metas(3), "/base", OrganizeMode::ByType);
    assert_eq!(moves.len(), 3);
    assert!(moves[0].to.contains("Images"));
    assert!(moves[1].to.contains("Documents"));
    assert!(moves[2].to.contains("Audio"));
}

#[test]
fn test_plan_moves_by_extension() {
    let files = vec![
        make_file_info("a.txt", Some("txt"), 100),
        make_file_info("b.txt", Some("txt"), 200),
        make_file_info("c.py", Some("py"), 300),
    ];
    let moves = plan_moves(&files, &metas(3), "/base", OrganizeMode::ByExtension);
    assert_eq!(moves.len(), 3);
    assert!(moves[0].to.contains("TXT"));
    assert!(moves[1].to.contains("TXT"));
    assert!(moves[2].to.contains("PY"));
}

#[test]
fn test_plan_moves_no_extension() {
    let files = vec![make_file_info("Makefile", None, 100)];
    let moves = plan_moves(&files, &metas(1), "/base", OrganizeMode::ByExtension);
    assert_eq!(moves.len(), 1);
    assert!(moves[0].to.contains("NO_EXTENSION"));
}

#[test]
fn test_plan_moves_empty_files() {
    let files: Vec<FileInfo> = vec![];
    let moves = plan_moves(&files, &metas(0), "/base", OrganizeMode::ByType);
    assert!(moves.is_empty());
}

#[test]
fn test_plan_moves_skip_already_organized() {
    let files = vec![FileInfo {
        path: "/base/Images/photo.jpg".to_string(),
        name: "photo.jpg".to_string(),
        extension: Some("jpg".to_string()),
        size: 1000,
        modified: 1_700_000_000,
        created: None,
    }];
    let moves = plan_moves(&files, &metas(1), "/base", OrganizeMode::ByType);
    assert!(moves.is_empty());
}

#[test]
fn test_plan_moves_by_extension_scenario() {
    let files = vec![make_file_info("report.pdf", Some("pdf"), 2000)];
    let moves = plan_moves(&files, &metas(1), "/base", OrganizeMode::ByExtension);
    assert_eq!(moves.len(), 1);
    assert_eq!(moves[0].from, "/test/report.pdf");
    assert_eq!(moves[0].to, "/base/PDF/report.pdf");
}

#[test]
fn test_plan_moves_by_date_epoch() {
    let mut f = make_file_info("a.txt", Some("txt"), 1);
    f.modified = 86_400;
    let moves = plan_moves(&vec![f], &metas(1), "/base", OrganizeMode::ByDate);
    assert_eq!(moves.len(), 1);
    assert_eq!(moves[0].to, "/base/1970/01/a.txt");
}

#[test]
fn test_plan_moves_never_maps_source_to_itself() {
    let files = vec![
        make_file_info("x.txt", Some("txt"), 5),
        make_file_info("y.jpg", Some("jpg"), 6),
    ];
    let moves = plan_moves(&files, &metas(2), "/base", OrganizeMode::ByType);
    for m in &moves {
        assert_ne!(m.from, m.to);
    }
}

#[test]
fn test_organize_result_default() {
    let result = OrganizeResult::default();
    assert_eq!(result.moved, 0);
    assert_eq!(result.skipped, 0);
    assert!(result.errors.is_empty());
    assert_eq!(result.total_size, 0);
}

#[test]
fn test_resolve_conflict_no_conflict() {
    let existing: Vec<String> = vec![];
    let result = resolve_conflict("/nonexistent/file.txt", &existing);
    assert_eq!(result, "/nonexistent/file.txt");
}

#[test]
fn test_resolve_conflict_appends_counter() {
    let existing = vec!["/d/file.txt".to_string()];
    let result = resolve_conflict("/d/file.txt", &existing);
    assert_eq!(result, "/d/file_1.txt");
}

#[test]
fn test_resolve_conflict_never_picks_existing() {
    let existing = vec![
        "/d/file.txt".to_string(),
        "/d/file_1.txt".to_string(),
        "/d/file_2.txt".to_string(),
    ];
    let result = resolve_conflict("/d/file.txt", &existing);
    assert_eq!(result, "/d/file_3.txt");
    assert!(!existing.contains(&result));
}

#[test]
fn test_history_caps_at_fifty_batches() {
    let mut history = History::new();
    for i in 0..51u32 {
        let mut logger = Logger::new(&format!("batch {}", i));
        logger.log_move(format!("/src/{}", i), format!("/dst/{}", i));
        logger.save(&mut history);
    }
    assert_eq!(history.batches.len(), 50);
    assert_eq!(history.batches[0].command, "batch 1");
    assert_eq!(history.batches[49].command, "batch 50");
}

#[test]
fn test_history_pop_last_is_lifo() {
    let mut history = History::new();
    let mut logger = Logger::new("first");
    logger.log_move("/a".to_string(), "/b".to_string());
    logger.save(&mut history);
    let mut logger = Logger::new("second");
    logger.log_delete("/c".to_string());
    logger.save(&mut history);
    let last = history.pop_last().unwrap();
    assert_eq!(last.command, "second");
    assert_eq!(last.operations[0].operation_type, OperationType::Delete);
    assert!(!history.is_empty());
}

#[test]
fn test_logger_empty_saves_nothing() {
    let mut history = History::new();
    let logger = Logger::new("noop");
    assert_eq!(logger.count(), 0);
    logger.save(&mut history);
    assert!(history.is_empty());
}

#[test]
fn test_undo_plan_reverses_moves_in_reverse_order() {
    let mut logger = Logger::new("organize");
    logger.log_move("/a/1.txt".to_string(), "/b/1.txt".to_string());
    logger.log_move("/a/2.txt".to_string(), "/b/2.txt".to_string());
    let mut history = History::new();
    logger.save(&mut history);
    let batch: OperationBatch = history.pop_last().unwrap();
    let undo = plan_undo(&batch);
    assert_eq!(undo.len(), 2);
    assert_eq!(undo[0].from, "/b/2.txt");
    assert_eq!(undo[0].to, "/a/2.txt");
    assert_eq!(undo[1].from, "/b/1.txt");
    assert_eq!(undo[1].to, "/a/1.txt");
}

#[test]
fn test_execute_then_undo_restores_three_moves() {
    // an in-memory stand-in for the filesystem: path -> contents
    let mut fs: HashMap<String, String> = HashMap::new();
    fs.insert("/src/a.txt".to_string(), "alpha".to_string());
    fs.insert("/src/b.txt".to_string(), "beta".to_string());
    fs.insert("/src/c.txt".to_string(), "gamma".to_string());
    let original = fs.clone();

    let moves = vec![
        ("/src/a.txt", "/dst/a.txt"),
        ("/src/b.txt", "/dst/b.txt"),
        ("/src/c.txt", "/dst/c.txt"),
    ];
    let mut logger = Logger::new("organize");
    for (from, to) in &moves {
        let v = fs.remove(*from).unwrap();
        fs.insert(to.to_string(), v);
        logger.log_move(from.to_string(), to.to_string());
    }
    let mut history = History::new();
    logger.save(&mut history);

    let batch = history.pop_last().unwrap();
    for op in plan_undo(&batch) {
        assert_eq!(op.operation_type, OperationType::Move);
        let v = fs.remove(&op.from).unwrap();
        fs.insert(op.to.clone(), v);
    }
    assert_eq!(fs, original);
}

#[test]
fn test_conflict_action_table() {
    assert_eq!(
        conflict_action(ConflictStrategy::Skip, false, false),
        ConflictAction::UseDestination
    );
    assert_eq!(conflict_action(ConflictStrategy::Rename, true, false), ConflictAction::UseRenamed);
    assert_eq!(conflict_action(ConflictStrategy::Skip, true, false), ConflictAction::SkipFile);
    assert_eq!(
        conflict_action(ConflictStrategy::Overwrite, true, false),
        ConflictAction::UseDestination
    );
    assert_eq!(
        conflict_action(ConflictStrategy::Ask, true, true),
        ConflictAction::UseDestination
    );
    assert_eq!(conflict_action(ConflictStrategy::Ask, true, false), ConflictAction::SkipFile);
}
