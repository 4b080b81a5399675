use subforge::config::AppConfig;
use subforge::runner::{claim_next_task, fail_task, succeed_task, FailOutcome};
use subforge::task::{default_task_store, TaskStoreFile};
use subforge::task_ops::{
    clear_tasks, continue_all_tasks, delete_task, import_videos, list_tasks, pause_task, start_task, start_tasks,
    ImportCandidate, ACTIVE_TASKS_PRESENT, NOT_PAUSABLE, NOT_STARTABLE, TASK_NOT_FOUND,
};

fn candidate(path: &str, name: &str, size: u64) -> ImportCandidate {
    ImportCandidate { extension_ok: true, canonical: Some((path.to_string(), name.to_string(), size)) }
}

fn store_with(paths: &[&str], cfg: &AppConfig) -> TaskStoreFile {
    let mut store = default_task_store();
    let cands: Vec<ImportCandidate> = paths.iter().map(|p| candidate(p, p, 10)).collect();
    import_videos(&mut store, cfg, &cands, 1_000);
    store
}

#[test]
fn import_skips_invalid_and_duplicate_videos() {
    let cfg = AppConfig::default();
    let mut store = default_task_store();
    let cands = vec![
        candidate("C:/v/a.mp4", "a.mp4", 10),
        ImportCandidate { extension_ok: false, canonical: Some(("C:/v/b.txt".into(), "b.txt".into(), 1)) },
        ImportCandidate { extension_ok: true, canonical: None },
        candidate("C:/v/a.mp4", "a.mp4", 10),
    ];
    let r = import_videos(&mut store, &cfg, &cands, 1_000);
    assert_eq!(r.added, 1);
    assert_eq!(r.skipped_invalid, 2);
    assert_eq!(r.skipped_duplicates, 1);
    assert_eq!(store.tasks.len(), 1);
    let t = &store.tasks[0];
    assert_eq!(t.id.len(), 36);
    assert_eq!(t.status, "pending");
    assert_eq!(t.original_stage, "waiting");
    assert_eq!(t.translation_stage, "not_required");
    assert_eq!(t.video_path, "C:/v/a.mp4");
    assert_eq!(t.created_at_ms, 1_000);

    let again = import_videos(&mut store, &cfg, &vec![candidate("C:/v/a.mp4", "a.mp4", 10)], 2_000);
    assert_eq!(again.added, 0);
    assert_eq!(again.skipped_duplicates, 1);
}

#[test]
fn start_pause_continue_cycle() {
    let cfg = AppConfig::default();
    let mut store = store_with(&["C:/v/a.mp4"], &cfg);
    let id = store.tasks[0].id.clone();

    assert!(start_task(&mut store, &id, &cfg, "[]", 2_000).is_ok());
    let t = &store.tasks[0];
    assert_eq!(t.status, "queued");
    assert_eq!(t.progress, 0);
    assert!(!t.will_translate);
    assert_eq!(t.snapshot_whisper_model, "base");
    assert_eq!(t.snapshot_translate_glossary_json, "[]");
    assert_eq!(t.snapshot_id.len(), 36);
    assert_eq!(
        t.snapshot_summary,
        "mode=bilingual_single translator=none whisper=base gpu=on src=auto tgt=zh output=视频同目录"
    );
    assert_eq!(start_task(&mut store, &id, &cfg, "[]", 2_500), Err(NOT_STARTABLE.to_string()));

    assert!(pause_task(&mut store, &id, 3_000).is_ok());
    assert_eq!(store.tasks[0].status, "paused");
    assert_eq!(store.tasks[0].updated_at_ms, 3_000);
    assert_eq!(pause_task(&mut store, &id, 3_100), Err(NOT_PAUSABLE.to_string()));

    continue_all_tasks(&mut store, 4_000);
    assert_eq!(store.tasks[0].status, "queued");
    assert_eq!(store.tasks[0].phase, "");
    assert_eq!(store.tasks[0].updated_at_ms, 4_000);

    assert_eq!(pause_task(&mut store, "missing", 5_000), Err(TASK_NOT_FOUND.to_string()));
}

#[test]
fn start_all_counts_startable_tasks() {
    let cfg = AppConfig::default();
    let mut store = store_with(&["C:/v/a.mp4", "C:/v/b.mp4", "C:/v/c.mp4"], &cfg);
    let first = store.tasks[0].id.clone();
    start_task(&mut store, &first, &cfg, "[]", 2_000).unwrap();
    assert_eq!(start_tasks(&mut store, &cfg, "[]", 3_000), 2);
    assert!(store.tasks.iter().all(|t| t.status == "queued"));
    assert_eq!(store.tasks[0].updated_at_ms, 2_000);
    assert_eq!(store.tasks[2].updated_at_ms, 3_000);
}

#[test]
fn runner_claims_first_queued_task_up_to_cap() {
    let cfg = AppConfig::default();
    let mut store = store_with(&["C:/v/a.mp4", "C:/v/b.mp4"], &cfg);
    start_tasks(&mut store, &cfg, "[]", 2_000);
    let a = store.tasks[0].id.clone();
    let b = store.tasks[1].id.clone();

    assert_eq!(claim_next_task(&mut store, 1, 3_000), Some(a.clone()));
    let t = &store.tasks[0];
    assert_eq!(t.status, "running");
    assert_eq!(t.original_stage, "extracting_audio");
    assert_eq!(t.progress, 5);
    assert_eq!(t.phase, "extract_audio");
    assert_eq!(claim_next_task(&mut store, 1, 3_100), None);
    assert_eq!(store.tasks[1].status, "queued");
    assert_eq!(claim_next_task(&mut store, 2, 3_200), Some(b));
}

#[test]
fn failure_without_retries_marks_task_failed() {
    let cfg = AppConfig::default();
    let mut store = store_with(&["C:/v/a.mp4"], &cfg);
    start_tasks(&mut store, &cfg, "[]", 2_000);
    let id = claim_next_task(&mut store, 2, 3_000).unwrap();
    assert_eq!(fail_task(&mut store, &id, "connection reset", 4_000), FailOutcome::Failed(5));
    let t = &store.tasks[0];
    assert_eq!(t.status, "failed");
    assert_eq!(t.original_stage, "failed");
    assert_eq!(t.error_message.as_deref(), Some("connection reset"));
    assert_eq!(t.phase, "");
    assert_eq!(fail_task(&mut store, "missing", "x", 4_100), FailOutcome::Missing);
}

#[test]
fn retryable_failure_is_queued_again() {
    let mut cfg = AppConfig::default();
    cfg.runtime.task_auto_retry_max = 2;
    let mut store = store_with(&["C:/v/a.mp4"], &cfg);
    start_tasks(&mut store, &cfg, "[]", 2_000);
    let id = claim_next_task(&mut store, 2, 3_000).unwrap();
    assert_eq!(fail_task(&mut store, &id, "HTTP 503 from server", 4_000), FailOutcome::Retried);
    let t = &store.tasks[0];
    assert_eq!(t.status, "queued");
    assert_eq!(t.retry_attempts, 1);
    assert_eq!(t.phase, "retry_1");
    assert_eq!(t.translate_note.as_deref(), Some("自动重试 1/2"));
    assert_eq!(t.progress, 0);

    let id = claim_next_task(&mut store, 2, 5_000).unwrap();
    assert_eq!(fail_task(&mut store, &id, "invalid model file", 6_000), FailOutcome::Failed(5));
    assert_eq!(store.tasks[0].status, "failed");
}

#[test]
fn success_completes_both_stages() {
    let cfg = AppConfig::default();
    let mut store = store_with(&["C:/v/a.mp4"], &cfg);
    start_tasks(&mut store, &cfg, "[]", 2_000);
    let id = claim_next_task(&mut store, 2, 3_000).unwrap();
    assert!(succeed_task(&mut store, &id, Some("done".to_string()), 4_000));
    let t = &store.tasks[0];
    assert_eq!(t.status, "completed");
    assert_eq!(t.original_stage, "completed");
    assert_eq!(t.translation_stage, "not_required");
    assert_eq!(t.progress, 100);
    assert_eq!(t.translate_note.as_deref(), Some("done"));
    assert!(!succeed_task(&mut store, "missing", None, 4_100));
}

#[test]
fn delete_and_clear_respect_working_tasks() {
    let cfg = AppConfig::default();
    let mut store = store_with(&["C:/v/a.mp4", "C:/v/b.mp4"], &cfg);
    let a = store.tasks[0].id.clone();
    store.tasks[1].status = "transcribing".to_string();

    assert_eq!(clear_tasks(&mut store, false, 2_000), Err(ACTIVE_TASKS_PRESENT.to_string()));
    assert_eq!(store.tasks.len(), 2);

    let b = store.tasks[1].id.clone();
    assert!(delete_task(&mut store, &b, 2_500).is_ok());
    assert_eq!(store.tasks.len(), 2);
    assert!(store.tasks[1].cancel_requested);

    assert!(clear_tasks(&mut store, true, 3_000).is_ok());
    assert_eq!(store.tasks.len(), 1);
    assert_eq!(store.tasks[0].id, b);
    assert_eq!(store.tasks[0].updated_at_ms, 3_000);

    assert_eq!(delete_task(&mut store, &a, 3_500), Err(TASK_NOT_FOUND.to_string()));
    store.tasks[0].status = "failed".to_string();
    assert!(delete_task(&mut store, &b, 4_000).is_ok());
    assert!(store.tasks.is_empty());
    assert!(clear_tasks(&mut store, false, 4_500).is_ok());
}

#[test]
fn listing_reports_rows_and_labels() {
    let cfg = AppConfig::default();
    let store = store_with(&["C:/v/a.mp4"], &cfg);
    let panel = list_tasks(&store);
    assert_eq!(panel.tasks.len(), 1);
    assert_eq!(panel.output_dir_mode, "video_dir");
    assert!(!panel.has_active_pipeline);
    assert!(!panel.needs_progress_refresh);
    assert_eq!(panel.tasks[0].original_status_display, "待开始");
    assert_eq!(panel.tasks[0].file_name, "C:/v/a.mp4");
}
