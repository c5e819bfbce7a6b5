use otamoryx::file_scanner::{
    content_hash, duplicate_title_pattern, extract_title_from_path, is_supported_format, scan_entry_action,
    ScanConfig, ScanEntryAction, ScanResult,
};
use otamoryx::processing_pipeline::{
    archive_tasks, AIError, MetadataError, ProcessingTask, TaskQueue, TaskStatus, TaskType,
    ThumbnailError,
};

fn task(id: &str, priority: i32) -> ProcessingTask {
    ProcessingTask {
        id: id.to_string(),
        archive_id: "archive".to_string(),
        task_type: TaskType::MetadataExtraction,
        priority,
        status: TaskStatus::Pending,
        created_at_ms: 0,
        retry_count: 0,
    }
}

#[test]
fn tasks_are_taken_by_priority_then_arrival() {
    let mut queue = TaskQueue::new();
    queue.enqueue(task("low", 0));
    queue.enqueue(task("high-1", 1));
    queue.enqueue(task("high-2", 1));
    let order: Vec<String> = std::iter::from_fn(|| queue.dequeue().map(|t| t.id)).collect();
    assert_eq!(order, vec!["high-1", "high-2", "low"]);
    assert!(queue.dequeue().is_none());
}

#[test]
fn taken_tasks_are_processing_until_completed() {
    let mut queue = TaskQueue::new();
    queue.enqueue(task("a", 0));
    let taken = queue.dequeue().unwrap();
    assert_eq!(taken.status, TaskStatus::Processing);
    assert_eq!(queue.processing_tasks().len(), 1);
    queue.mark_completed("a");
    assert!(queue.processing_tasks().is_empty());
    assert_eq!(queue.completed_tasks().len(), 1);
    assert_eq!(queue.completed_tasks()[0].status, TaskStatus::Completed);
    // Unknown ids change nothing.
    queue.mark_completed("a");
    queue.mark_failed("a");
    assert_eq!(queue.completed_tasks().len(), 1);
    assert!(queue.failed_tasks().is_empty());
}

#[test]
fn failed_tasks_are_retried_twice_then_fail_for_good() {
    let mut queue = TaskQueue::new();
    queue.enqueue(task("flaky", 0));
    for attempt in 1..=2u32 {
        let taken = queue.dequeue().unwrap();
        assert_eq!(taken.retry_count, attempt - 1);
        queue.mark_failed("flaky");
        assert_eq!(queue.pending_tasks().len(), 1);
        assert_eq!(queue.pending_tasks()[0].retry_count, attempt);
        assert_eq!(queue.pending_tasks()[0].status, TaskStatus::Pending);
    }
    queue.dequeue().unwrap();
    queue.mark_failed("flaky");
    assert!(queue.pending_tasks().is_empty());
    assert_eq!(queue.failed_tasks().len(), 1);
    assert_eq!(queue.failed_tasks()[0].retry_count, 3);
    assert_eq!(queue.failed_tasks()[0].status, TaskStatus::Failed);
}

#[test]
fn a_new_archive_gets_three_tasks() {
    let tasks = archive_tasks("arc", "m".to_string(), "t".to_string(), "a".to_string(), 42);
    let summary: Vec<(String, TaskType, i32)> = tasks
        .iter()
        .map(|t| (t.id.clone(), t.task_type, t.priority))
        .collect();
    assert_eq!(
        summary,
        vec![
            ("m".to_string(), TaskType::MetadataExtraction, 1),
            ("t".to_string(), TaskType::ThumbnailGeneration, 1),
            ("a".to_string(), TaskType::AIAnalysis, 0),
        ]
    );
    assert!(tasks
        .iter()
        .all(|t| t.archive_id == "arc" && t.status == TaskStatus::Pending && t.created_at_ms == 42));
}

#[test]
fn processor_errors_have_their_messages() {
    assert_eq!(MetadataError::ExtractionFailed("x".to_string()).message(), "提取失败: x");
    assert_eq!(
        MetadataError::UnsupportedFormat { format: "rar".to_string() }.message(),
        "不支持的格式: rar"
    );
    assert_eq!(ThumbnailError::GenerationFailed("y".to_string()).message(), "生成失败: y");
    assert_eq!(AIError::ModelUnavailable.message(), "模型不可用");
    assert_eq!(AIError::Network("z".to_string()).message(), "网络错误: z");
    assert_eq!(AIError::AnalysisFailed("w".to_string()).message(), "分析失败: w");
}

#[test]
fn scanner_recognises_archives_by_lowercased_extension() {
    let config = ScanConfig {
        recursive: true,
        ignore_hidden: true,
        file_extensions: vec!["zip".to_string(), "cbz".to_string()],
    };
    assert!(is_supported_format(&config, "/comics/One.Piece.CBZ"));
    assert!(!is_supported_format(&config, "/comics/readme.txt"));
    assert!(!is_supported_format(&config, "/comics/.zip"));
    assert!(!is_supported_format(&config, "/comics/zip"));
    assert_eq!(extract_title_from_path("/comics/One.Piece.cbz"), "One.Piece");
    assert_eq!(extract_title_from_path("/comics/.hidden"), ".hidden");
    assert_eq!(extract_title_from_path("/comics/plain"), "plain");
    assert_eq!(extract_title_from_path("/"), "Unknown");
    assert_eq!(scan_entry_action(&config, "/comics/.cache", true, false), ScanEntryAction::Skip);
    assert_eq!(scan_entry_action(&config, "/comics/series", true, false), ScanEntryAction::Descend);
    assert_eq!(scan_entry_action(&config, "/comics/a.zip", false, true), ScanEntryAction::Include);
    assert_eq!(scan_entry_action(&config, "/comics/a.txt", false, true), ScanEntryAction::Skip);
    let flat = ScanConfig { recursive: false, ignore_hidden: false, file_extensions: vec!["zip".to_string()] };
    assert_eq!(scan_entry_action(&flat, "/comics/series", true, false), ScanEntryAction::Skip);
    assert_eq!(scan_entry_action(&flat, "/comics/a.zip", false, true), ScanEntryAction::Include);
}

#[test]
fn scanned_files_carry_their_content_hash() {
    assert_eq!(content_hash(b"abc"), "ba7816bf8f01cfea414140de5dae2223b00361a396177a9cb410ff61f20015ad");
    assert_eq!(duplicate_title_pattern("Moon"), "%Moon%");
    let dup = ScanResult::new("/a.zip", "a".to_string(), 10, "h".to_string(), true);
    assert_eq!(dup.duplicate_reason.as_deref(), Some("Content hash match"));
    let fresh = ScanResult::new("/b.zip", "b".to_string(), 10, "h".to_string(), false);
    assert!(fresh.duplicate_reason.is_none());
    assert_eq!(fresh.path, "/b.zip");
}
