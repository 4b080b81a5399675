//! What the task panel's commands do to the task list: importing videos,
//! starting, pausing, resuming, deleting and listing tasks, and the run
//! snapshot a task takes of the settings when it starts.
use vstd::prelude::*;

use crate::config::AppConfig;
use crate::task::{
    active_status, original_label, translate_label, TaskRecord, TaskStoreFile, STATUS_EXTRACTING, STATUS_FAILED,
    STATUS_PAUSED, STATUS_PAUSE_REQUESTED, STATUS_PENDING, STATUS_QUEUED, STATUS_TRANSCRIBING, STATUS_TRANSLATING,
    ORIGINAL_STAGE_WAITING, TRANSLATION_STAGE_NOT_REQUIRED, TRANSLATION_STAGE_WAITING_ORIGINAL,
};
use crate::text::{is_blank, push_str, str_eq, trim, trim_string};

verus! {

// ---------------------------------------------------------------------------
// One task
// ---------------------------------------------------------------------------

/// The statuses from which a task can be started.
pub open spec fn startable(s: Seq<char>) -> bool {
    s == STATUS_PENDING@ || s == STATUS_PAUSED@ || s == STATUS_FAILED@
}

pub fn eligible_for_start(status: &str) -> (r: bool)
    ensures
        r == startable(status@),
{
    str_eq(status, STATUS_PENDING) || str_eq(status, STATUS_PAUSED) || str_eq(status, STATUS_FAILED)
}

/// The one-line summary of the settings a run was started with.
pub open spec fn snapshot_summary(cfg: AppConfig, output_dir_mode: Seq<char>) -> Seq<char> {
    "mode="@ + cfg.subtitle.mode@ + " translator="@ + cfg.translator.engine@ + " whisper="@ + cfg.whisper.model@
        + " gpu="@ + (if cfg.whisper.use_gpu {
        "on"@
    } else {
        "off"@
    }) + " src="@ + cfg.translate.source_lang@ + " tgt="@ + cfg.translate.target_lang@ + " output="@ + (
    if output_dir_mode == "custom"@ {
        "统一输出目录"@
    } else {
        "视频同目录"@
    })
}

pub fn build_snapshot_summary(cfg: &AppConfig, output_dir_mode: &str) -> (r: String)
    ensures
        r@ == snapshot_summary(*cfg, output_dir_mode@),
{
    let mut s = "mode=".to_string();
    push_str(&mut s, cfg.subtitle.mode.as_str());
    push_str(&mut s, " translator=");
    push_str(&mut s, cfg.translator.engine.as_str());
    push_str(&mut s, " whisper=");
    push_str(&mut s, cfg.whisper.model.as_str());
    push_str(&mut s, " gpu=");
    push_str(
        &mut s,
        if cfg.whisper.use_gpu {
            "on"
        } else {
            "off"
        },
    );
    push_str(&mut s, " src=");
    push_str(&mut s, cfg.translate.source_lang.as_str());
    push_str(&mut s, " tgt=");
    push_str(&mut s, cfg.translate.target_lang.as_str());
    push_str(&mut s, " output=");
    push_str(
        &mut s,
        if str_eq(output_dir_mode, "custom") {
            "统一输出目录"
        } else {
            "视频同目录"
        },
    );
    s
}

/// The translation settings a pending task shows, taken from the current
/// settings; nothing else changes.
pub open spec fn pending_defaults(o: TaskRecord, n: TaskRecord, cfg: AppConfig) -> bool {
    &&& n == (TaskRecord {
        will_translate: cfg.runs_translation(),
        translator_engine_snapshot: n.translator_engine_snapshot,
        subtitle_mode_snapshot: n.subtitle_mode_snapshot,
        translate_source_lang_snapshot: n.translate_source_lang_snapshot,
        translate_target_lang_snapshot: n.translate_target_lang_snapshot,
        ..o
    })
    &&& n.translator_engine_snapshot@ == cfg.translator.engine@
    &&& n.subtitle_mode_snapshot@ == cfg.subtitle.mode@
    &&& n.translate_source_lang_snapshot@ == cfg.translate.source_lang@
    &&& n.translate_target_lang_snapshot@ == cfg.translate.target_lang@
}

pub fn apply_pending_config_defaults(task: &mut TaskRecord, cfg: &AppConfig)
    ensures
        pending_defaults(*old(task), *final(task), *cfg),
{
    task.will_translate = cfg.will_run_translation();
    task.translator_engine_snapshot = cfg.translator.engine.clone();
    task.subtitle_mode_snapshot = cfg.subtitle.mode.clone();
    task.translate_source_lang_snapshot = cfg.translate.source_lang.clone();
    task.translate_target_lang_snapshot = cfg.translate.target_lang.clone();
}

/// The results of the last run forgotten: notes, error, previews, output
/// paths and a pending deletion.
pub open spec fn artifacts_cleared(o: TaskRecord, n: TaskRecord) -> bool {
    n == (TaskRecord {
        translate_note: None,
        error_message: None,
        cancel_requested: false,
        original_preview: None,
        translated_preview: None,
        original_output_path: None,
        translated_output_path: None,
        bilingual_output_path: None,
        ..o
    })
}

pub fn clear_run_artifacts(task: &mut TaskRecord)
    ensures
        artifacts_cleared(*old(task), *final(task)),
{
    task.translate_note = None;
    task.error_message = None;
    task.cancel_requested = false;
    task.original_preview = None;
    task.translated_preview = None;
    task.original_output_path = None;
    task.translated_output_path = None;
    task.bilingual_output_path = None;
}

pub open spec fn snapshot_present(t: TaskRecord) -> bool {
    trim(t.snapshot_id@).len() > 0
}

pub fn has_snapshot(task: &TaskRecord) -> (r: bool)
    ensures
        r == snapshot_present(*task),
{
    !is_blank(task.snapshot_id.as_str())
}

/// A task put back in the queue: status `queued`, no progress or phase,
/// the last run's results forgotten, stamped with `now`.
pub open spec fn requeued(o: TaskRecord, n: TaskRecord, now: i64) -> bool {
    &&& n == (TaskRecord {
        status: n.status,
        progress: 0,
        phase: n.phase,
        updated_at_ms: now,
        translate_note: None,
        error_message: None,
        cancel_requested: false,
        original_preview: None,
        translated_preview: None,
        original_output_path: None,
        translated_output_path: None,
        bilingual_output_path: None,
        ..o
    })
    &&& n.status@ == STATUS_QUEUED@
    &&& n.phase@.len() == 0
}

pub fn prepare_for_queue(task: &mut TaskRecord, now: i64)
    ensures
        requeued(*old(task), *final(task), now),
{
    clear_run_artifacts(task);
    task.status = STATUS_QUEUED.to_string();
    task.progress = 0;
    task.phase = String::new();
    task.updated_at_ms = now;
}

pub fn resume_with_existing_snapshot(task: &mut TaskRecord, now: i64)
    ensures
        requeued(*old(task), *final(task), now),
{
    clear_run_artifacts(task);
    task.status = STATUS_QUEUED.to_string();
    task.progress = 0;
    task.phase = String::new();
    task.updated_at_ms = now;
}

/// The settings a run keeps for itself, as the task holds them after the
/// snapshot was taken.
pub open spec fn snapshot_fields(
    n: TaskRecord,
    cfg: AppConfig,
    output_dir_mode: Seq<char>,
    custom_output_dir: Seq<char>,
    glossary_json: Seq<char>,
) -> bool {
    &&& n.will_translate == cfg.runs_translation()
    &&& n.translator_engine_snapshot@ == cfg.translator.engine@
    &&& n.subtitle_mode_snapshot@ == cfg.subtitle.mode@
    &&& n.translate_source_lang_snapshot@ == cfg.translate.source_lang@
    &&& n.translate_target_lang_snapshot@ == cfg.translate.target_lang@
    &&& n.snapshot_summary@ == snapshot_summary(cfg, output_dir_mode)
    &&& n.snapshot_whisper_model@ == cfg.whisper.model@
    &&& n.snapshot_recognition_lang@ == cfg.whisper.recognition_lang@
    &&& n.snapshot_whisper_use_gpu == cfg.whisper.use_gpu
    &&& n.snapshot_subtitle_overwrite == cfg.subtitle.overwrite
    &&& n.snapshot_output_dir_mode@ == output_dir_mode
    &&& n.snapshot_custom_output_dir@ == custom_output_dir
    &&& n.snapshot_ffmpeg_path@ == cfg.whisper.ffmpeg_path@
    &&& n.snapshot_whisper_cli_path@ == cfg.whisper.whisper_cli_path@
    &&& n.snapshot_cpu_thread_limit == cfg.runtime.cpu_thread_limit
    &&& n.snapshot_translate_style@ == cfg.translate.style@
    &&& n.snapshot_translate_max_segment_chars == cfg.translate.max_segment_chars
    &&& n.snapshot_llm_base_url@ == cfg.llm.base_url@
    &&& n.snapshot_llm_model@ == cfg.llm.model@
    &&& n.snapshot_llm_timeout_sec == cfg.llm.timeout_sec
    &&& n.snapshot_llm_max_retries == cfg.llm.max_retries
    &&& n.snapshot_keep_proper_nouns == cfg.translate.keep_proper_nouns_in_source
    &&& n.snapshot_glossary_case_sensitive == cfg.translate.glossary_case_sensitive
    &&& n.snapshot_translate_glossary_json@ == glossary_json
    &&& n.snapshot_translator_min_interval_ms == cfg.translator.min_request_interval_ms
    &&& n.snapshot_llm_translate_concurrency == cfg.llm.translate_concurrency
    &&& n.snapshot_task_auto_retry_max == cfg.runtime.task_auto_retry_max
    &&& n.retry_attempts == 0
}

/// The task with a new run snapshot (id `snapshot_id`) and the last run's
/// results forgotten; nothing else changes.
pub open spec fn snapshot_taken(
    o: TaskRecord,
    n: TaskRecord,
    cfg: AppConfig,
    output_dir_mode: Seq<char>,
    custom_output_dir: Seq<char>,
    snapshot_id: Seq<char>,
    glossary_json: Seq<char>,
) -> bool {
    &&& n == (TaskRecord {
        will_translate: n.will_translate,
        translator_engine_snapshot: n.translator_engine_snapshot,
        subtitle_mode_snapshot: n.subtitle_mode_snapshot,
        translate_source_lang_snapshot: n.translate_source_lang_snapshot,
        translate_target_lang_snapshot: n.translate_target_lang_snapshot,
        snapshot_id: n.snapshot_id,
        snapshot_summary: n.snapshot_summary,
        snapshot_whisper_model: n.snapshot_whisper_model,
        snapshot_recognition_lang: n.snapshot_recognition_lang,
        snapshot_whisper_use_gpu: n.snapshot_whisper_use_gpu,
        snapshot_subtitle_overwrite: n.snapshot_subtitle_overwrite,
        snapshot_output_dir_mode: n.snapshot_output_dir_mode,
        snapshot_custom_output_dir: n.snapshot_custom_output_dir,
        snapshot_ffmpeg_path: n.snapshot_ffmpeg_path,
        snapshot_whisper_cli_path: n.snapshot_whisper_cli_path,
        snapshot_cpu_thread_limit: n.snapshot_cpu_thread_limit,
        snapshot_translate_style: n.snapshot_translate_style,
        snapshot_translate_max_segment_chars: n.snapshot_translate_max_segment_chars,
        snapshot_llm_base_url: n.snapshot_llm_base_url,
        snapshot_llm_model: n.snapshot_llm_model,
        snapshot_llm_timeout_sec: n.snapshot_llm_timeout_sec,
        snapshot_llm_max_retries: n.snapshot_llm_max_retries,
        snapshot_keep_proper_nouns: n.snapshot_keep_proper_nouns,
        snapshot_glossary_case_sensitive: n.snapshot_glossary_case_sensitive,
        snapshot_translate_glossary_json: n.snapshot_translate_glossary_json,
        snapshot_translator_min_interval_ms: n.snapshot_translator_min_interval_ms,
        snapshot_llm_translate_concurrency: n.snapshot_llm_translate_concurrency,
        snapshot_task_auto_retry_max: n.snapshot_task_auto_retry_max,
        retry_attempts: n.retry_attempts,
        translate_note: None,
        error_message: None,
        cancel_requested: false,
        original_preview: None,
        translated_preview: None,
        original_output_path: None,
        translated_output_path: None,
        bilingual_output_path: None,
        ..o
    })
    &&& snapshot_fields(n, cfg, output_dir_mode, custom_output_dir, glossary_json)
    &&& n.snapshot_id@ == snapshot_id
}

/// Takes the run snapshot. `glossary_json` is the glossary of the settings
/// written as JSON; `snapshot_id` is a fresh identifier.
pub fn apply_run_snapshot(
    task: &mut TaskRecord,
    cfg: &AppConfig,
    output_dir_mode: &str,
    custom_output_dir: &str,
    snapshot_id: String,
    glossary_json: &str,
)
    ensures
        snapshot_taken(
            *old(task),
            *final(task),
            *cfg,
            output_dir_mode@,
            custom_output_dir@,
            snapshot_id@,
            glossary_json@,
        ),
{
    apply_pending_config_defaults(task, cfg);
    task.snapshot_id = snapshot_id;
    task.snapshot_summary = build_snapshot_summary(cfg, output_dir_mode);
    task.snapshot_whisper_model = cfg.whisper.model.clone();
    task.snapshot_recognition_lang = cfg.whisper.recognition_lang.clone();
    task.snapshot_whisper_use_gpu = cfg.whisper.use_gpu;
    task.snapshot_subtitle_overwrite = cfg.subtitle.overwrite;
    task.snapshot_output_dir_mode = output_dir_mode.to_string();
    task.snapshot_custom_output_dir = custom_output_dir.to_string();
    task.snapshot_ffmpeg_path = cfg.whisper.ffmpeg_path.clone();
    task.snapshot_whisper_cli_path = cfg.whisper.whisper_cli_path.clone();
    task.snapshot_cpu_thread_limit = cfg.runtime.cpu_thread_limit;
    task.snapshot_translate_style = cfg.translate.style.clone();
    task.snapshot_translate_max_segment_chars = cfg.translate.max_segment_chars;
    task.snapshot_llm_base_url = cfg.llm.base_url.clone();
    task.snapshot_llm_model = cfg.llm.model.clone();
    task.snapshot_llm_timeout_sec = cfg.llm.timeout_sec;
    task.snapshot_llm_max_retries = cfg.llm.max_retries;
    task.snapshot_keep_proper_nouns = cfg.translate.keep_proper_nouns_in_source;
    task.snapshot_glossary_case_sensitive = cfg.translate.glossary_case_sensitive;
    task.snapshot_translate_glossary_json = glossary_json.to_string();
    task.snapshot_translator_min_interval_ms = cfg.translator.min_request_interval_ms;
    task.snapshot_llm_translate_concurrency = cfg.llm.translate_concurrency;
    task.snapshot_task_auto_retry_max = cfg.runtime.task_auto_retry_max;
    task.retry_attempts = 0;
    clear_run_artifacts(task);
}

/// A fresh identifier from `uuid::Uuid::new_v4`, written in the hyphenated
/// form of 36 characters. It is random, so nothing more is stated.
#[verifier::external_body]
pub(crate) fn new_uuid() -> (r: String)
    ensures
        r@.len() == 36,
{
    uuid::Uuid::new_v4().to_string()
}

/// A task started afresh: a new snapshot (some 36-character id) and back in
/// the queue.
pub open spec fn fresh_start(
    o: TaskRecord,
    n: TaskRecord,
    cfg: AppConfig,
    output_dir_mode: Seq<char>,
    custom_output_dir: Seq<char>,
    glossary_json: Seq<char>,
    now: i64,
) -> bool {
    exists|mid: TaskRecord|
        snapshot_taken(o, mid, cfg, output_dir_mode, custom_output_dir, mid.snapshot_id@, glossary_json)
            && mid.snapshot_id@.len() == 36 && #[trigger] requeued(mid, n, now)
}

/// What starting does to a startable task: a pending task, or one without a
/// snapshot, starts afresh; a paused or failed one with a snapshot resumes
/// with it.
pub open spec fn started(
    o: TaskRecord,
    n: TaskRecord,
    cfg: AppConfig,
    output_dir_mode: Seq<char>,
    custom_output_dir: Seq<char>,
    glossary_json: Seq<char>,
    now: i64,
) -> bool {
    if o.status@ == STATUS_PENDING@ || !snapshot_present(o) {
        fresh_start(o, n, cfg, output_dir_mode, custom_output_dir, glossary_json, now)
    } else {
        requeued(o, n, now)
    }
}

/// Starts one startable task.
fn start_one(
    task: &mut TaskRecord,
    cfg: &AppConfig,
    output_dir_mode: &str,
    custom_output_dir: &str,
    glossary_json: &str,
    now: i64,
)
    requires
        startable(old(task).status@),
    ensures
        started(*old(task), *final(task), *cfg, output_dir_mode@, custom_output_dir@, glossary_json@, now),
{
    let pending = str_eq(task.status.as_str(), STATUS_PENDING);
    if !pending && has_snapshot(task) {
        resume_with_existing_snapshot(task, now);
    } else {
        let id = new_uuid();
        let ghost before = *task;
        apply_run_snapshot(task, cfg, output_dir_mode, custom_output_dir, id, glossary_json);
        let ghost mid = *task;
        prepare_for_queue(task, now);
        assert(requeued(mid, *task, now));
    }
}

// ---------------------------------------------------------------------------
// The task list
// ---------------------------------------------------------------------------

/// The first task with this id.
pub open spec fn find_task(tasks: Seq<TaskRecord>, id: Seq<char>) -> Option<int> {
    if exists|i: int| 0 <= i < tasks.len() && (#[trigger] tasks[i]).id@ == id {
        Some(
            choose|i: int|
                0 <= i < tasks.len() && (#[trigger] tasks[i]).id@ == id && forall|j: int|
                    0 <= j < i ==> (#[trigger] tasks[j]).id@ != id,
        )
    } else {
        None
    }
}

pub(crate) fn position_of(tasks: &Vec<TaskRecord>, id: &str) -> (r: Option<usize>)
    ensures
        match r {
            Some(i) => find_task(tasks@, id@) == Some(i as int) && i < tasks@.len(),
            None => find_task(tasks@, id@) is None,
        },
{
    let mut i: usize = 0;
    while i < tasks.len()
        invariant
            i <= tasks@.len(),
            forall|j: int| 0 <= j < i ==> (#[trigger] tasks@[j]).id@ != id@,
        decreases tasks.len() - i,
    {
        if str_eq(tasks[i].id.as_str(), id) {
            let ghost k = i as int;
            assert(tasks@[k].id@ == id@);
            let ghost c = choose|c: int|
                0 <= c < tasks@.len() && (#[trigger] tasks@[c]).id@ == id@ && forall|j: int|
                    0 <= j < c ==> (#[trigger] tasks@[j]).id@ != id@;
            assert(c == k) by {
                if c < k {
                    assert(tasks@[c].id@ != id@);
                } else if c > k {
                    assert(tasks@[k].id@ != id@);
                }
            }
            return Some(i);
        }
        i += 1;
    }
    None
}

/// The store with task `i` replaced; everything else as it was.
pub open spec fn replaced_at(o: TaskStoreFile, n: TaskStoreFile, i: int, t: TaskRecord) -> bool {
    &&& n.version == o.version
    &&& n.output_dir_mode == o.output_dir_mode
    &&& n.custom_output_dir == o.custom_output_dir
    &&& n.tasks@ == o.tasks@.update(i, t)
}

pub open spec fn unchanged(o: TaskStoreFile, n: TaskStoreFile) -> bool {
    &&& n.version == o.version
    &&& n.output_dir_mode == o.output_dir_mode
    &&& n.custom_output_dir == o.custom_output_dir
    &&& n.tasks@ == o.tasks@
}

pub const TASK_NOT_FOUND: &'static str = "找不到任务";

pub const NOT_STARTABLE: &'static str = "当前状态不可开始";

pub const NOT_PAUSABLE: &'static str = "当前状态不可暂停";

/// Starts the task with this id; `glossary_json` is the settings' glossary
/// written as JSON. The run takes the store's output directory choice.
pub fn start_task(
    store: &mut TaskStoreFile,
    id: &str,
    cfg: &AppConfig,
    glossary_json: &str,
    now: i64,
) -> (r: Result<(), String>)
    ensures
        match find_task(old(store).tasks@, id@) {
            None => r matches Err(e) && e@ == TASK_NOT_FOUND@ && unchanged(*old(store), *final(store)),
            Some(i) => if !startable(old(store).tasks@[i].status@) {
                r matches Err(e) && e@ == NOT_STARTABLE@ && unchanged(*old(store), *final(store))
            } else {
                r is Ok && replaced_at(*old(store), *final(store), i, final(store).tasks@[i]) && started(
                    old(store).tasks@[i],
                    final(store).tasks@[i],
                    *cfg,
                    old(store).output_dir_mode@,
                    old(store).custom_output_dir@,
                    glossary_json@,
                    now,
                )
            },
        },
{
    let i = match position_of(&store.tasks, id) {
        Some(i) => i,
        None => return Err(TASK_NOT_FOUND.to_string()),
    };
    if !eligible_for_start(store.tasks[i].status.as_str()) {
        return Err(NOT_STARTABLE.to_string());
    }
    let mode = store.output_dir_mode.clone();
    let custom = store.custom_output_dir.clone();
    let ghost old_tasks = store.tasks@;
    let mut t = store.tasks.remove(i);
    start_one(&mut t, cfg, mode.as_str(), custom.as_str(), glossary_json, now);
    store.tasks.insert(i, t);
    assert(store.tasks@ =~= old_tasks.update(i as int, store.tasks@[i as int]));
    Ok(())
}

/// What starting all tasks does to one: a startable task is started, any
/// other stays.
pub open spec fn start_all_step(
    o: TaskRecord,
    n: TaskRecord,
    cfg: AppConfig,
    output_dir_mode: Seq<char>,
    custom_output_dir: Seq<char>,
    glossary_json: Seq<char>,
    now: i64,
) -> bool {
    if startable(o.status@) {
        started(o, n, cfg, output_dir_mode, custom_output_dir, glossary_json, now)
    } else {
        n == o
    }
}

pub open spec fn count_startable(tasks: Seq<TaskRecord>) -> nat
    decreases tasks.len(),
{
    if tasks.len() == 0 {
        0
    } else {
        count_startable(tasks.drop_last()) + if startable(tasks.last().status@) {
            1nat
        } else {
            0nat
        }
    }
}

/// Starts every startable task; answers how many were started.
pub fn start_tasks(store: &mut TaskStoreFile, cfg: &AppConfig, glossary_json: &str, now: i64) -> (r: u32)
    requires
        old(store).tasks@.len() <= u32::MAX,
    ensures
        final(store).version == old(store).version,
        final(store).output_dir_mode == old(store).output_dir_mode,
        final(store).custom_output_dir == old(store).custom_output_dir,
        final(store).tasks@.len() == old(store).tasks@.len(),
        forall|i: int|
            0 <= i < old(store).tasks@.len() ==> start_all_step(
                #[trigger] old(store).tasks@[i],
                final(store).tasks@[i],
                *cfg,
                old(store).output_dir_mode@,
                old(store).custom_output_dir@,
                glossary_json@,
                now,
            ),
        r == count_startable(old(store).tasks@),
{
    let mode = store.output_dir_mode.clone();
    let custom = store.custom_output_dir.clone();
    let ghost old_tasks = store.tasks@;
    let mut n: u32 = 0;
    let mut i: usize = 0;
    while i < store.tasks.len()
        invariant
            i <= store.tasks@.len(),
            store.tasks@.len() == old_tasks.len(),
            old_tasks.len() <= u32::MAX,
            store.version == old(store).version,
            store.output_dir_mode == old(store).output_dir_mode,
            store.custom_output_dir == old(store).custom_output_dir,
            mode@ == old(store).output_dir_mode@,
            custom@ == old(store).custom_output_dir@,
            old_tasks == old(store).tasks@,
            forall|j: int| i <= j < old_tasks.len() ==> store.tasks@[j] == old_tasks[j],
            forall|j: int|
                0 <= j < i ==> start_all_step(
                    #[trigger] old_tasks[j],
                    store.tasks@[j],
                    *cfg,
                    mode@,
                    custom@,
                    glossary_json@,
                    now,
                ),
            n == count_startable(old_tasks.subrange(0, i as int)),
            n <= i,
        decreases old_tasks.len() - i,
    {
        assert(old_tasks.subrange(0, i + 1).drop_last() =~= old_tasks.subrange(0, i as int));
        if eligible_for_start(store.tasks[i].status.as_str()) {
            let ghost before = store.tasks@;
            let mut t = store.tasks.remove(i);
            start_one(&mut t, cfg, mode.as_str(), custom.as_str(), glossary_json, now);
            store.tasks.insert(i, t);
            assert(store.tasks@ =~= before.update(i as int, store.tasks@[i as int]));
            n = n + 1;
        }
        i += 1;
    }
    assert(old_tasks.subrange(0, old_tasks.len() as int) =~= old_tasks);
    n
}

/// What pausing does to a task: a queued task is paused; a working one is
/// asked to pause; others cannot be paused.
pub open spec fn pause_step(o: TaskRecord, n: TaskRecord, now: i64) -> bool {
    let s = o.status@;
    if s == STATUS_QUEUED@ {
        n == (TaskRecord { status: n.status, updated_at_ms: now, ..o }) && n.status@ == STATUS_PAUSED@
    } else if s == STATUS_EXTRACTING@ || s == STATUS_TRANSCRIBING@ || s == STATUS_TRANSLATING@ {
        n == (TaskRecord { status: n.status, updated_at_ms: now, ..o }) && n.status@ == STATUS_PAUSE_REQUESTED@
    } else {
        n == o
    }
}

pub open spec fn pausable(s: Seq<char>) -> bool {
    s == STATUS_QUEUED@ || s == STATUS_EXTRACTING@ || s == STATUS_TRANSCRIBING@ || s == STATUS_TRANSLATING@
}

fn pause_one(task: &mut TaskRecord, now: i64) -> (r: bool)
    ensures
        pause_step(*old(task), *final(task), now),
        r == pausable(old(task).status@),
{
    let s = task.status.as_str();
    if str_eq(s, STATUS_QUEUED) {
        task.status = STATUS_PAUSED.to_string();
        task.updated_at_ms = now;
        true
    } else if str_eq(s, STATUS_EXTRACTING) || str_eq(s, STATUS_TRANSCRIBING) || str_eq(s, STATUS_TRANSLATING) {
        task.status = STATUS_PAUSE_REQUESTED.to_string();
        task.updated_at_ms = now;
        true
    } else {
        false
    }
}

pub fn pause_task(store: &mut TaskStoreFile, id: &str, now: i64) -> (r: Result<(), String>)
    ensures
        match find_task(old(store).tasks@, id@) {
            None => r matches Err(e) && e@ == TASK_NOT_FOUND@ && unchanged(*old(store), *final(store)),
            Some(i) => if !pausable(old(store).tasks@[i].status@) {
                r matches Err(e) && e@ == NOT_PAUSABLE@ && unchanged(*old(store), *final(store))
            } else {
                r is Ok && replaced_at(*old(store), *final(store), i, final(store).tasks@[i]) && pause_step(
                    old(store).tasks@[i],
                    final(store).tasks@[i],
                    now,
                )
            },
        },
{
    let i = match position_of(&store.tasks, id) {
        Some(i) => i,
        None => return Err(TASK_NOT_FOUND.to_string()),
    };
    let ghost old_tasks = store.tasks@;
    let mut t = store.tasks.remove(i);
    let ok = pause_one(&mut t, now);
    store.tasks.insert(i, t);
    assert(store.tasks@ =~= old_tasks.update(i as int, store.tasks@[i as int]));
    if !ok {
        assert(store.tasks@ =~= old_tasks);
        return Err(NOT_PAUSABLE.to_string());
    }
    Ok(())
}

pub fn pause_all_tasks(store: &mut TaskStoreFile, now: i64)
    ensures
        final(store).version == old(store).version,
        final(store).output_dir_mode == old(store).output_dir_mode,
        final(store).custom_output_dir == old(store).custom_output_dir,
        final(store).tasks@.len() == old(store).tasks@.len(),
        forall|i: int|
            0 <= i < old(store).tasks@.len() ==> pause_step(#[trigger] old(store).tasks@[i], final(store).tasks@[i], now),
{
    let ghost old_tasks = store.tasks@;
    let mut i: usize = 0;
    while i < store.tasks.len()
        invariant
            i <= store.tasks@.len(),
            store.tasks@.len() == old_tasks.len(),
            store.version == old(store).version,
            store.output_dir_mode == old(store).output_dir_mode,
            store.custom_output_dir == old(store).custom_output_dir,
            old_tasks == old(store).tasks@,
            forall|j: int| i <= j < old_tasks.len() ==> store.tasks@[j] == old_tasks[j],
            forall|j: int| 0 <= j < i ==> pause_step(#[trigger] old_tasks[j], store.tasks@[j], now),
        decreases old_tasks.len() - i,
    {
        let ghost before = store.tasks@;
        let mut t = store.tasks.remove(i);
        let _ = pause_one(&mut t, now);
        store.tasks.insert(i, t);
        assert(store.tasks@ =~= before.update(i as int, store.tasks@[i as int]));
        i += 1;
    }
}

/// What continuing does to a task: a paused one is queued again with its
/// snapshot; others stay.
pub open spec fn continue_step(o: TaskRecord, n: TaskRecord, now: i64) -> bool {
    if o.status@ == STATUS_PAUSED@ {
        requeued(o, n, now)
    } else {
        n == o
    }
}

pub fn continue_all_tasks(store: &mut TaskStoreFile, now: i64)
    ensures
        final(store).version == old(store).version,
        final(store).output_dir_mode == old(store).output_dir_mode,
        final(store).custom_output_dir == old(store).custom_output_dir,
        final(store).tasks@.len() == old(store).tasks@.len(),
        forall|i: int|
            0 <= i < old(store).tasks@.len() ==> continue_step(
                #[trigger] old(store).tasks@[i],
                final(store).tasks@[i],
                now,
            ),
{
    let ghost old_tasks = store.tasks@;
    let mut i: usize = 0;
    while i < store.tasks.len()
        invariant
            i <= store.tasks@.len(),
            store.tasks@.len() == old_tasks.len(),
            store.version == old(store).version,
            store.output_dir_mode == old(store).output_dir_mode,
            store.custom_output_dir == old(store).custom_output_dir,
            old_tasks == old(store).tasks@,
            forall|j: int| i <= j < old_tasks.len() ==> store.tasks@[j] == old_tasks[j],
            forall|j: int| 0 <= j < i ==> continue_step(#[trigger] old_tasks[j], store.tasks@[j], now),
        decreases old_tasks.len() - i,
    {
        if str_eq(store.tasks[i].status.as_str(), STATUS_PAUSED) {
            let ghost before = store.tasks@;
            let mut t = store.tasks.remove(i);
            resume_with_existing_snapshot(&mut t, now);
            store.tasks.insert(i, t);
            assert(store.tasks@ =~= before.update(i as int, store.tasks@[i as int]));
        }
        i += 1;
    }
}

/// What deleting does: a task the pipeline works on is only marked for
/// deletion (the runner removes it); any other is removed at once.
pub fn delete_task(store: &mut TaskStoreFile, id: &str, now: i64) -> (r: Result<(), String>)
    ensures
        match find_task(old(store).tasks@, id@) {
            None => r matches Err(e) && e@ == TASK_NOT_FOUND@ && unchanged(*old(store), *final(store)),
            Some(i) => r is Ok && if active_status(old(store).tasks@[i].status@) {
                replaced_at(*old(store), *final(store), i, final(store).tasks@[i]) && final(store).tasks@[i]
                    == (TaskRecord { cancel_requested: true, updated_at_ms: now, ..old(store).tasks@[i] })
            } else {
                &&& final(store).version == old(store).version
                &&& final(store).output_dir_mode == old(store).output_dir_mode
                &&& final(store).custom_output_dir == old(store).custom_output_dir
                &&& final(store).tasks@ == old(store).tasks@.remove(i)
            },
        },
{
    let i = match position_of(&store.tasks, id) {
        Some(i) => i,
        None => return Err(TASK_NOT_FOUND.to_string()),
    };
    let ghost old_tasks = store.tasks@;
    let mut t = store.tasks.remove(i);
    if t.is_active_pipeline() {
        t.cancel_requested = true;
        t.updated_at_ms = now;
        store.tasks.insert(i, t);
        assert(store.tasks@ =~= old_tasks.update(i as int, store.tasks@[i as int]));
    }
    Ok(())
}

pub const ACTIVE_TASKS_PRESENT: &'static str = "存在执行中的任务，请确认后强制清除或先暂停";

pub open spec fn any_active(tasks: Seq<TaskRecord>) -> bool {
    exists|i: int| 0 <= i < tasks.len() && active_status((#[trigger] tasks[i]).status@)
}

/// The tasks the pipeline works on, each marked for deletion.
pub open spec fn kept_for_cancel(o: Seq<TaskRecord>, n: Seq<TaskRecord>, now: i64) -> bool {
    let kept = o.filter(|t: TaskRecord| active_status(t.status@));
    &&& n.len() == kept.len()
    &&& forall|i: int|
        0 <= i < n.len() ==> #[trigger] n[i] == (TaskRecord { cancel_requested: true, updated_at_ms: now, ..kept[i] })
}

/// Clears the list. Without `force`, a list with a working task is left as
/// it is; with `force`, working tasks are kept and marked for deletion and
/// all others removed.
pub fn clear_tasks(store: &mut TaskStoreFile, force: bool, now: i64) -> (r: Result<(), String>)
    ensures
        final(store).version == old(store).version,
        final(store).output_dir_mode == old(store).output_dir_mode,
        final(store).custom_output_dir == old(store).custom_output_dir,
        !force && any_active(old(store).tasks@) ==> (r matches Err(e) && e@ == ACTIVE_TASKS_PRESENT@
            && final(store).tasks@ == old(store).tasks@),
        !force && !any_active(old(store).tasks@) ==> r is Ok && final(store).tasks@.len() == 0,
        force ==> r is Ok && kept_for_cancel(old(store).tasks@, final(store).tasks@, now),
{
    let mut i: usize = 0;
    let mut active = false;
    while i < store.tasks.len()
        invariant
            i <= store.tasks@.len(),
            active == exists|j: int| 0 <= j < i && active_status((#[trigger] store.tasks@[j]).status@),
        decreases store.tasks.len() - i,
    {
        if store.tasks[i].is_active_pipeline() {
            active = true;
        }
        i += 1;
    }
    if !force {
        if active {
            return Err(ACTIVE_TASKS_PRESENT.to_string());
        }
        store.tasks.clear();
        return Ok(());
    }
    let mut old_tasks: Vec<TaskRecord> = Vec::new();
    std::mem::swap(&mut old_tasks, &mut store.tasks);
    let ghost o = old_tasks@;
    let ghost pred = |t: TaskRecord| active_status(t.status@);
    let mut kept: Vec<TaskRecord> = Vec::new();
    let mut k: usize = 0;
    while old_tasks.len() > 0
        invariant
            k + old_tasks@.len() == o.len(),
            o.len() <= usize::MAX,
            old_tasks@ == o.subrange(k as int, o.len() as int),
            kept@.len() == o.subrange(0, k as int).filter(|t: TaskRecord| active_status(t.status@)).len(),
            forall|j: int|
                0 <= j < kept@.len() ==> #[trigger] kept@[j] == (TaskRecord {
                    cancel_requested: true,
                    updated_at_ms: now,
                    ..o.subrange(0, k as int).filter(|t: TaskRecord| active_status(t.status@))[j]
                }),
        decreases old_tasks.len(),
    {
        let mut t = old_tasks.remove(0);
        proof {
            o.subrange(0, k as int).lemma_filter_push(t, |t: TaskRecord| active_status(t.status@));
            assert(o.subrange(0, k + 1) =~= o.subrange(0, k as int).push(t));
        }
        if t.is_active_pipeline() {
            t.cancel_requested = true;
            t.updated_at_ms = now;
            kept.push(t);
        }
        assert(old_tasks@ =~= o.subrange(k + 1, o.len() as int));
        k += 1;
    }
    assert(o.subrange(0, o.len() as int) =~= o);
    store.tasks = kept;
    Ok(())
}

/// Where the "open output directory" command opens: the custom directory
/// (trimmed, which must be set and exist), or the directory of the first
/// video (which must exist). `dir_exists` tells whether a directory exists.
pub fn resolve_open_path<F: Fn(&String) -> bool>(store: &TaskStoreFile, dir_exists: &F) -> (r: Result<String, String>)
    requires
        forall|p: &String| dir_exists.requires((p,)),
    ensures
        store.output_dir_mode@ == "custom"@ ==> match r {
            Ok(p) => p@ == trim(store.custom_output_dir@) && p@.len() > 0 && dir_exists.ensures((&p,), true),
            Err(e) => e@ == "未设置统一输出目录"@ && trim(store.custom_output_dir@).len() == 0 || e@
                == "输出目录不存在"@,
        },
        store.output_dir_mode@ != "custom"@ ==> match r {
            Ok(p) => store.tasks@.len() > 0 && crate::paths::parent_of(store.tasks@[0].video_path@) == Some(p@)
                && dir_exists.ensures((&p,), true),
            Err(e) => (store.tasks@.len() == 0 && e@ == "任务列表为空"@) || (store.tasks@.len() > 0 && e@
                == "无法解析视频所在目录"@),
        },
{
    if str_eq(store.output_dir_mode.as_str(), "custom") {
        let p = trim_string(store.custom_output_dir.as_str());
        if crate::text::is_empty_text(p.as_str()) {
            return Err("未设置统一输出目录".to_string());
        }
        if !dir_exists(&p) {
            return Err("输出目录不存在".to_string());
        }
        return Ok(p);
    }
    if store.tasks.len() == 0 {
        return Err("任务列表为空".to_string());
    }
    match crate::paths::path_parent(store.tasks[0].video_path.as_str()) {
        Some(p) => if dir_exists(&p) {
            Ok(p)
        } else {
            Err("无法解析视频所在目录".to_string())
        },
        None => Err("无法解析视频所在目录".to_string()),
    }
}

// ---------------------------------------------------------------------------
// The panel
// ---------------------------------------------------------------------------

/// One row of the task table. `duration_sec_bits` is the `f64` duration.
#[derive(Debug)]
pub struct TaskRowDto {
    pub id: String,
    pub video_path: String,
    pub file_name: String,
    pub file_size: u64,
    pub duration_sec_bits: Option<u64>,
    pub status: String,
    pub progress: u8,
    pub phase: String,
    pub will_translate: bool,
    pub retry_attempts: u32,
    pub cancel_requested: bool,
    pub snapshot_summary: String,
    pub original_status_display: String,
    pub translate_status_display: String,
    pub original_preview: Option<String>,
    pub translated_preview: Option<String>,
    pub error_message: Option<String>,
}

/// The task table with the panel's settings.
#[derive(Debug)]
pub struct TaskListPanel {
    pub output_dir_mode: String,
    pub custom_output_dir: String,
    pub show_translate_column: bool,
    pub has_active_pipeline: bool,
    pub needs_progress_refresh: bool,
    pub tasks: Vec<TaskRowDto>,
}

pub open spec fn row_of(t: TaskRecord, r: TaskRowDto) -> bool {
    &&& r.id@ == t.id@
    &&& r.video_path@ == t.video_path@
    &&& r.file_name@ == t.file_name@
    &&& r.file_size == t.file_size
    &&& r.duration_sec_bits == t.duration_sec_bits
    &&& r.status@ == t.status@
    &&& r.progress == t.progress
    &&& r.phase@ == t.phase@
    &&& r.will_translate == t.will_translate
    &&& r.retry_attempts == t.retry_attempts
    &&& r.cancel_requested == t.cancel_requested
    &&& r.snapshot_summary@ == t.snapshot_summary@
    &&& r.original_status_display@ == original_label(t)
    &&& r.translate_status_display@ == translate_label(t)
    &&& r.original_preview == t.original_preview
    &&& r.translated_preview == t.translated_preview
    &&& r.error_message == t.error_message
}

/// The statuses for which the panel keeps polling.
pub open spec fn refreshing(s: Seq<char>) -> bool {
    s == STATUS_QUEUED@ || s == STATUS_EXTRACTING@ || s == STATUS_TRANSCRIBING@ || s == STATUS_TRANSLATING@ || s
        == STATUS_PAUSE_REQUESTED@
}

fn clone_opt(o: &Option<String>) -> (r: Option<String>)
    ensures
        r == *o,
{
    match o {
        Some(s) => Some(s.clone()),
        None => None,
    }
}

pub fn task_row(t: &TaskRecord) -> (r: TaskRowDto)
    ensures
        row_of(*t, r),
{
    TaskRowDto {
        id: t.id.clone(),
        video_path: t.video_path.clone(),
        file_name: t.file_name.clone(),
        file_size: t.file_size,
        duration_sec_bits: t.duration_sec_bits,
        status: t.status.clone(),
        progress: t.progress,
        phase: t.phase.clone(),
        will_translate: t.will_translate,
        retry_attempts: t.retry_attempts,
        cancel_requested: t.cancel_requested,
        snapshot_summary: t.snapshot_summary.clone(),
        original_status_display: t.original_status_label(),
        translate_status_display: t.translate_status_label(),
        original_preview: clone_opt(&t.original_preview),
        translated_preview: clone_opt(&t.translated_preview),
        error_message: clone_opt(&t.error_message),
    }
}

fn is_refreshing(s: &str) -> (r: bool)
    ensures
        r == refreshing(s@),
{
    str_eq(s, STATUS_QUEUED) || str_eq(s, STATUS_EXTRACTING) || str_eq(s, STATUS_TRANSCRIBING) || str_eq(
        s,
        STATUS_TRANSLATING,
    ) || str_eq(s, STATUS_PAUSE_REQUESTED)
}

pub fn list_tasks(store: &TaskStoreFile) -> (r: TaskListPanel)
    ensures
        r.output_dir_mode@ == store.output_dir_mode@,
        r.custom_output_dir@ == store.custom_output_dir@,
        r.show_translate_column == exists|i: int|
            0 <= i < store.tasks@.len() && (#[trigger] store.tasks@[i]).will_translate,
        r.has_active_pipeline == any_active(store.tasks@),
        r.needs_progress_refresh == exists|i: int|
            0 <= i < store.tasks@.len() && refreshing((#[trigger] store.tasks@[i]).status@),
        r.tasks@.len() == store.tasks@.len(),
        forall|i: int| 0 <= i < store.tasks@.len() ==> row_of(store.tasks@[i], #[trigger] r.tasks@[i]),
{
    let mut rows: Vec<TaskRowDto> = Vec::new();
    let mut show = false;
    let mut active = false;
    let mut refresh = false;
    let mut i: usize = 0;
    while i < store.tasks.len()
        invariant
            i <= store.tasks@.len(),
            rows@.len() == i,
            forall|j: int| 0 <= j < i ==> row_of(store.tasks@[j], #[trigger] rows@[j]),
            show == exists|j: int| 0 <= j < i && (#[trigger] store.tasks@[j]).will_translate,
            active == exists|j: int| 0 <= j < i && active_status((#[trigger] store.tasks@[j]).status@),
            refresh == exists|j: int| 0 <= j < i && refreshing((#[trigger] store.tasks@[j]).status@),
        decreases store.tasks.len() - i,
    {
        let t = &store.tasks[i];
        if t.will_translate {
            show = true;
        }
        if t.is_active_pipeline() {
            active = true;
        }
        if is_refreshing(t.status.as_str()) {
            refresh = true;
        }
        rows.push(task_row(t));
        i += 1;
    }
    TaskListPanel {
        output_dir_mode: store.output_dir_mode.clone(),
        custom_output_dir: store.custom_output_dir.clone(),
        show_translate_column: show,
        has_active_pipeline: active,
        needs_progress_refresh: refresh,
        tasks: rows,
    }
}

/// The output directory choice sent by the panel.
#[derive(Debug)]
pub struct SetPanelOutputRequest {
    pub output_dir_mode: String,
    pub custom_output_dir: String,
}

pub fn set_panel_output(store: &mut TaskStoreFile, req: SetPanelOutputRequest) -> (r: Result<(), String>)
    ensures
        req.output_dir_mode@ != "video_dir"@ && req.output_dir_mode@ != "custom"@ ==> (r matches Err(e) && e@
            == "输出目录模式无效"@ && unchanged(*old(store), *final(store))),
        req.output_dir_mode@ == "custom"@ && trim(req.custom_output_dir@).len() == 0 ==> (r matches Err(e) && e@
            == "自定义输出目录不能为空"@ && unchanged(*old(store), *final(store))),
        (req.output_dir_mode@ == "video_dir"@ || (req.output_dir_mode@ == "custom"@ && trim(
            req.custom_output_dir@,
        ).len() > 0)) ==> (r is Ok && final(store).output_dir_mode@ == req.output_dir_mode@
            && final(store).custom_output_dir@ == trim(req.custom_output_dir@) && final(store).tasks@
            == old(store).tasks@ && final(store).version == old(store).version),
{
    proof {
        reveal_strlit("video_dir");
        reveal_strlit("custom");
        assert("custom"@ != "video_dir"@) by {
            assert("custom"@.len() != "video_dir"@.len());
        }
    }
    let video = str_eq(req.output_dir_mode.as_str(), "video_dir");
    let custom = str_eq(req.output_dir_mode.as_str(), "custom");
    if !video && !custom {
        return Err("输出目录模式无效".to_string());
    }
    if custom && is_blank(req.custom_output_dir.as_str()) {
        return Err("自定义输出目录不能为空".to_string());
    }
    store.custom_output_dir = trim_string(req.custom_output_dir.as_str());
    store.output_dir_mode = req.output_dir_mode;
    Ok(())
}

// ---------------------------------------------------------------------------
// Importing
// ---------------------------------------------------------------------------

/// What was found for one path offered for import: whether its extension is
/// a video's, and where the file exists, its canonical path, name and size.
pub struct ImportCandidate {
    pub extension_ok: bool,
    pub canonical: Option<(String, String, u64)>,
}

#[derive(Debug)]
pub struct ImportVideosResult {
    pub added: u32,
    pub skipped_duplicates: u32,
    pub skipped_invalid: u32,
}

/// A task as imported: pending, with the translation settings of `cfg`,
/// stamped with `now`, and every other field empty.
pub open spec fn imported_task(t: TaskRecord, path: Seq<char>, name: Seq<char>, size: u64, cfg: AppConfig, now: i64) -> bool {
    &&& t.id@.len() == 36
    &&& t.video_path@ == path
    &&& t.file_name@ == name
    &&& t.file_size == size
    &&& t.duration_sec_bits is None
    &&& t.status@ == STATUS_PENDING@
    &&& t.original_stage@ == ORIGINAL_STAGE_WAITING@
    &&& t.translation_stage@ == if cfg.runs_translation() {
        TRANSLATION_STAGE_WAITING_ORIGINAL@
    } else {
        TRANSLATION_STAGE_NOT_REQUIRED@
    }
    &&& t.progress == 0
    &&& t.phase@.len() == 0
    &&& t.will_translate == cfg.runs_translation()
    &&& t.translator_engine_snapshot@ == cfg.translator.engine@
    &&& t.subtitle_mode_snapshot@ == cfg.subtitle.mode@
    &&& t.translate_source_lang_snapshot@ == cfg.translate.source_lang@
    &&& t.translate_target_lang_snapshot@ == cfg.translate.target_lang@
    &&& t.snapshot_id@.len() == 0
    &&& t.retry_attempts == 0
    &&& t.cancel_requested == false
    &&& t.error_message is None
    &&& t.translate_note is None
    &&& t.created_at_ms == now
    &&& t.updated_at_ms == now
}

/// The task imported for a candidate, where it is one to import.
pub open spec fn candidate_gives(c: ImportCandidate, t: TaskRecord, cfg: AppConfig, now: i64) -> bool {
    c.extension_ok && match c.canonical {
        Some((p, name, size)) => imported_task(t, p@, name@, size, cfg, now),
        None => false,
    }
}

/// A task that one of the candidates gives.
pub open spec fn imported_from(candidates: Seq<ImportCandidate>, t: TaskRecord, cfg: AppConfig, now: i64) -> bool {
    exists|c: int| 0 <= c < candidates.len() && candidate_gives(#[trigger] candidates[c], t, cfg, now)
}

fn empty_task(id: String, path: String, name: String, size: u64, cfg: &AppConfig, now: i64) -> (r: TaskRecord)
    ensures
        imported_task(r, path@, name@, size, *cfg, now) || id@.len() != 36,
        r.id@ == id@,
{
    let translate = cfg.will_run_translation();
    let mut rec = TaskRecord {
        id,
        video_path: path,
        file_name: name,
        file_size: size,
        duration_sec_bits: None,
        status: STATUS_PENDING.to_string(),
        original_stage: ORIGINAL_STAGE_WAITING.to_string(),
        translation_stage: if translate {
            TRANSLATION_STAGE_WAITING_ORIGINAL.to_string()
        } else {
            TRANSLATION_STAGE_NOT_REQUIRED.to_string()
        },
        progress: 0,
        phase: String::new(),
        will_translate: false,
        translator_engine_snapshot: String::new(),
        subtitle_mode_snapshot: String::new(),
        translate_source_lang_snapshot: String::new(),
        translate_target_lang_snapshot: String::new(),
        segmentation_strategy_snapshot: String::new(),
        segmentation_timing_mode_snapshot: String::new(),
        snapshot_id: String::new(),
        snapshot_summary: String::new(),
        snapshot_whisper_model: String::new(),
        snapshot_recognition_lang: String::new(),
        snapshot_whisper_use_gpu: false,
        snapshot_enable_vad: false,
        snapshot_vad_threshold_bits: 0,
        snapshot_vad_min_speech_ms: 0,
        snapshot_vad_min_silence_ms: 0,
        snapshot_vad_max_segment_ms: 0,
        snapshot_subtitle_overwrite: false,
        snapshot_output_dir_mode: String::new(),
        snapshot_custom_output_dir: String::new(),
        snapshot_ffmpeg_path: String::new(),
        snapshot_whisper_cli_path: String::new(),
        snapshot_cpu_thread_limit: 0,
        snapshot_translate_style: String::new(),
        snapshot_translate_max_segment_chars: 0,
        snapshot_segmentation_max_chars: 0,
        snapshot_segmentation_max_duration_ms: 0,
        snapshot_llm_base_url: String::new(),
        snapshot_llm_model: String::new(),
        snapshot_llm_timeout_sec: 0,
        snapshot_llm_max_retries: 0,
        snapshot_keep_proper_nouns: false,
        snapshot_glossary_case_sensitive: false,
        snapshot_translate_glossary_json: String::new(),
        snapshot_translator_min_interval_ms: 0,
        snapshot_llm_translate_concurrency: 0,
        snapshot_translator_provider_url: String::new(),
        snapshot_translator_use_proxy: false,
        snapshot_task_auto_retry_max: 0,
        retry_attempts: 0,
        original_preview: None,
        translated_preview: None,
        segmentation_note: None,
        original_output_path: None,
        translated_output_path: None,
        bilingual_output_path: None,
        translate_note: None,
        cancel_requested: false,
        error_message: None,
        created_at_ms: now,
        updated_at_ms: now,
    };
    apply_pending_config_defaults(&mut rec, cfg);
    rec
}

/// The canonical path a candidate carries, where it has one.
pub open spec fn canonical_path(c: ImportCandidate) -> Seq<char> {
    match c.canonical {
        Some((p, _, _)) => p@,
        None => seq![],
    }
}

/// The canonical path of a candidate that names an existing video.
pub open spec fn candidate_path(c: ImportCandidate) -> Option<Seq<char>> {
    if c.extension_ok && c.canonical is Some {
        Some(canonical_path(c))
    } else {
        None
    }
}

/// The paths of the candidates at the positions `idx`.
pub open spec fn planned_paths(cands: Seq<ImportCandidate>, idx: Seq<int>) -> Seq<Seq<char>> {
    idx.map_values(|k: int| canonical_path(cands[k]))
}

/// What an import does with the candidates, in order, given the video
/// paths `known` already listed: the positions of the candidates added,
/// then the numbers skipped as duplicates and as invalid. A candidate with
/// a wrong extension or no canonical path is invalid; one whose path is
/// known or was added by an earlier candidate is a duplicate; any other is
/// added.
pub open spec fn import_plan(known: Seq<Seq<char>>, cands: Seq<ImportCandidate>) -> (Seq<int>, nat, nat)
    decreases cands.len(),
{
    if cands.len() == 0 {
        (seq![], 0, 0)
    } else {
        let (added, dups, invalid) = import_plan(known, cands.drop_last());
        match candidate_path(cands.last()) {
            None => (added, dups, invalid + 1),
            Some(p) => if known.contains(p) || planned_paths(cands.drop_last(), added).contains(p) {
                (added, dups + 1, invalid)
            } else {
                (added.push(cands.len() - 1), dups, invalid)
            },
        }
    }
}

/// The video paths of tasks.
pub open spec fn task_paths(tasks: Seq<TaskRecord>) -> Seq<Seq<char>> {
    tasks.map_values(|t: TaskRecord| t.video_path@)
}

fn contains_path(tasks: &Vec<TaskRecord>, path: &str) -> (r: bool)
    ensures
        r == exists|i: int| 0 <= i < tasks@.len() && (#[trigger] tasks@[i]).video_path@ == path@,
{
    let mut i: usize = 0;
    while i < tasks.len()
        invariant
            i <= tasks@.len(),
            forall|j: int| 0 <= j < i ==> (#[trigger] tasks@[j]).video_path@ != path@,
        decreases tasks.len() - i,
    {
        if str_eq(tasks[i].video_path.as_str(), path) {
            return true;
        }
        i += 1;
    }
    false
}

/// Adds a pending task for each offered video that is new: a path with a
/// wrong extension or none on disk is skipped as invalid, one whose
/// canonical path is already listed (or was added just before) is skipped
/// as a duplicate. The store keeps each video path once where it did
/// before.
pub fn import_videos(
    store: &mut TaskStoreFile,
    cfg: &AppConfig,
    candidates: &Vec<ImportCandidate>,
    now: i64,
) -> (r: ImportVideosResult)
    requires
        candidates@.len() <= u32::MAX,
    ensures
        final(store).version == old(store).version,
        final(store).output_dir_mode == old(store).output_dir_mode,
        final(store).custom_output_dir == old(store).custom_output_dir,
        final(store).tasks@.len() == old(store).tasks@.len() + r.added,
        final(store).tasks@.subrange(0, old(store).tasks@.len() as int) == old(store).tasks@,
        r.added + r.skipped_duplicates + r.skipped_invalid == candidates@.len(),
        ({
            let plan = import_plan(task_paths(old(store).tasks@), candidates@);
            &&& r.added == plan.0.len()
            &&& r.skipped_duplicates == plan.1
            &&& r.skipped_invalid == plan.2
            &&& forall|j: int|
                0 <= j < plan.0.len() ==> candidate_gives(
                    candidates@[#[trigger] plan.0[j]],
                    final(store).tasks@[old(store).tasks@.len() + j],
                    *cfg,
                    now,
                )
        }),
        forall|j: int|
            #![trigger final(store).tasks@[j]]
            old(store).tasks@.len() <= j < final(store).tasks@.len() ==> imported_from(candidates@, final(store).tasks@[j], *cfg, now),
        forall|j: int, k: int|
            old(store).tasks@.len() <= k < final(store).tasks@.len() && 0 <= j < k ==> (
            #[trigger] final(store).tasks@[j]).video_path@ != (#[trigger] final(store).tasks@[k]).video_path@,
{
    let mut added: u32 = 0;
    let mut dup: u32 = 0;
    let mut invalid: u32 = 0;
    let ghost start = store.tasks@;
    let mut i: usize = 0;
    while i < candidates.len()
        invariant
            i <= candidates@.len(),
            candidates@.len() <= u32::MAX,
            added + dup + invalid == i,
            store.version == old(store).version,
            store.output_dir_mode == old(store).output_dir_mode,
            store.custom_output_dir == old(store).custom_output_dir,
            start == old(store).tasks@,
            store.tasks@.len() == start.len() + added,
            store.tasks@.subrange(0, start.len() as int) == start,
            forall|j: int|
                #![trigger store.tasks@[j]]
                start.len() <= j < store.tasks@.len() ==> imported_from(candidates@, store.tasks@[j], *cfg, now),
            forall|j: int, k: int|
                start.len() <= k < store.tasks@.len() && 0 <= j < k ==> (#[trigger] store.tasks@[j]).video_path@
                    != (#[trigger] store.tasks@[k]).video_path@,
            import_plan(task_paths(start), candidates@.take(i as int)).0.len() == added,
            import_plan(task_paths(start), candidates@.take(i as int)).1 == dup,
            import_plan(task_paths(start), candidates@.take(i as int)).2 == invalid,
            forall|j: int|
                0 <= j < added ==> 0 <= #[trigger] import_plan(task_paths(start), candidates@.take(i as int)).0[j] < i,
            forall|j: int|
                0 <= j < added ==> candidate_gives(
                    candidates@[#[trigger] import_plan(task_paths(start), candidates@.take(i as int)).0[j]],
                    store.tasks@[start.len() + j],
                    *cfg,
                    now,
                ),
        decreases candidates.len() - i,
    {
        let ghost known = task_paths(start);
        let ghost pre = candidates@.take(i as int);
        let ghost plan = import_plan(known, pre);
        assert(candidates@.take(i + 1).drop_last() =~= pre);
        assert(candidates@.take(i + 1).last() == candidates@[i as int]);
        let c = &candidates[i];
        if !c.extension_ok {
            invalid = invalid + 1;
        } else {
            match &c.canonical {
                None => {
                    invalid = invalid + 1;
                },
                Some((path, name, size)) => {
                    let found = contains_path(&store.tasks, path.as_str());
                    proof {
                        let pp = planned_paths(pre, plan.0);
                        if found {
                            let w = choose|w: int| 0 <= w < store.tasks@.len() && (#[trigger] store.tasks@[w]).video_path@ == path@;
                            if w < start.len() {
                                assert(store.tasks@[w] == start[w]);
                                assert(known[w] == path@);
                                assert(known.contains(path@));
                            } else {
                                let j = w - start.len();
                                assert(candidate_gives(candidates@[plan.0[j]], store.tasks@[start.len() + j], *cfg, now));
                                assert(pre[plan.0[j]] == candidates@[plan.0[j]]);
                                assert(pp[j] == path@);
                                assert(pp.contains(path@));
                            }
                        } else {
                            assert forall|w: int| 0 <= w < known.len() implies known[w] != path@ by {
                                assert(store.tasks@[w] == start[w]);
                                assert(store.tasks@[w].video_path@ != path@);
                            }
                            assert forall|j: int| 0 <= j < pp.len() implies pp[j] != path@ by {
                                assert(candidate_gives(candidates@[plan.0[j]], store.tasks@[start.len() + j], *cfg, now));
                                assert(pre[plan.0[j]] == candidates@[plan.0[j]]);
                                assert(store.tasks@[start.len() + j].video_path@ != path@);
                            }
                        }
                    }
                    if found {
                        dup = dup + 1;
                    } else {
                        let id = new_uuid();
                        let rec = empty_task(id, path.clone(), name.clone(), *size, cfg, now);
                        let ghost before = store.tasks@;
                        store.tasks.push(rec);
                        assert(store.tasks@.subrange(0, start.len() as int) =~= before.subrange(
                            0,
                            start.len() as int,
                        ));
                        assert(imported_task(store.tasks@[store.tasks@.len() - 1], path@, name@, *size, *cfg, now));
                        assert(candidate_gives(candidates@[i as int], store.tasks@[store.tasks@.len() - 1], *cfg, now));
                        added = added + 1;
                    }
                },
            }
        }
        i += 1;
    }
    assert(candidates@.take(candidates@.len() as int) =~= candidates@);
    ImportVideosResult { added, skipped_duplicates: dup, skipped_invalid: invalid }
}

/// Saving the settings refreshes what pending tasks show: their
/// translation settings and segmentation choices, stamped with `now`.
pub open spec fn pending_refreshed(o: TaskRecord, n: TaskRecord, cfg: AppConfig, now: i64) -> bool {
    &&& n == (TaskRecord {
        will_translate: cfg.runs_translation(),
        translator_engine_snapshot: n.translator_engine_snapshot,
        subtitle_mode_snapshot: n.subtitle_mode_snapshot,
        translate_source_lang_snapshot: n.translate_source_lang_snapshot,
        translate_target_lang_snapshot: n.translate_target_lang_snapshot,
        segmentation_strategy_snapshot: n.segmentation_strategy_snapshot,
        segmentation_timing_mode_snapshot: n.segmentation_timing_mode_snapshot,
        updated_at_ms: now,
        ..o
    })
    &&& n.translator_engine_snapshot@ == cfg.translator.engine@
    &&& n.subtitle_mode_snapshot@ == cfg.subtitle.mode@
    &&& n.translate_source_lang_snapshot@ == cfg.translate.source_lang@
    &&& n.translate_target_lang_snapshot@ == cfg.translate.target_lang@
    &&& n.segmentation_strategy_snapshot@ == cfg.segmentation.strategy@
    &&& n.segmentation_timing_mode_snapshot@ == cfg.segmentation.timing_mode@
}

/// What saving the settings does to each task: it is brought to the
/// current form, and where it is then pending, refreshed from the settings.
pub open spec fn saved_step(o: TaskRecord, n: TaskRecord, cfg: AppConfig, now: i64) -> bool {
    exists|m: TaskRecord|
        #[trigger] crate::task::normalized(o, m) && if m.status@ == STATUS_PENDING@ {
            pending_refreshed(m, n, cfg, now)
        } else {
            n == m
        }
}

pub fn refresh_pending_tasks(store: &mut TaskStoreFile, cfg: &AppConfig, now: i64)
    ensures
        final(store).version == old(store).version,
        final(store).output_dir_mode == old(store).output_dir_mode,
        final(store).custom_output_dir == old(store).custom_output_dir,
        final(store).tasks@.len() == old(store).tasks@.len(),
        forall|i: int|
            0 <= i < old(store).tasks@.len() ==> saved_step(#[trigger] old(store).tasks@[i], final(store).tasks@[i], *cfg, now),
{
    let ghost old_tasks = store.tasks@;
    let mut i: usize = 0;
    while i < store.tasks.len()
        invariant
            i <= store.tasks@.len(),
            store.tasks@.len() == old_tasks.len(),
            store.version == old(store).version,
            store.output_dir_mode == old(store).output_dir_mode,
            store.custom_output_dir == old(store).custom_output_dir,
            old_tasks == old(store).tasks@,
            forall|j: int| i <= j < old_tasks.len() ==> store.tasks@[j] == old_tasks[j],
            forall|j: int| 0 <= j < i ==> saved_step(#[trigger] old_tasks[j], store.tasks@[j], *cfg, now),
        decreases old_tasks.len() - i,
    {
        let ghost before = store.tasks@;
        let mut t = store.tasks.remove(i);
        t.normalize_state();
        let ghost m = t;
        if str_eq(t.status.as_str(), STATUS_PENDING) {
            apply_pending_config_defaults(&mut t, cfg);
            t.segmentation_strategy_snapshot = cfg.segmentation.strategy.clone();
            t.segmentation_timing_mode_snapshot = cfg.segmentation.timing_mode.clone();
            t.updated_at_ms = now;
        }
        assert(saved_step(old_tasks[i as int], t, *cfg, now));
        store.tasks.insert(i, t);
        assert(store.tasks@ =~= before.update(i as int, store.tasks@[i as int]));
        i += 1;
    }
}

} // verus!
