//! Tasks: the record kept for each imported video, its status and stages,
//! and the labels shown for them. Floating-point fields are held as their
//! IEEE-754 bit patterns.
use vstd::prelude::*;

use crate::text::str_eq;

verus! {

pub const STATUS_PENDING: &'static str = "pending";

pub const STATUS_QUEUED: &'static str = "queued";

pub const STATUS_RUNNING: &'static str = "running";

pub const STATUS_PAUSE_REQUESTED: &'static str = "pause_requested";

pub const STATUS_EXTRACTING: &'static str = "extracting_audio";

pub const STATUS_TRANSCRIBING: &'static str = "transcribing";

pub const STATUS_SEGMENTING: &'static str = "segmenting";

pub const STATUS_TRANSLATING: &'static str = "translating";

pub const STATUS_PAUSED: &'static str = "paused";

pub const STATUS_COMPLETED: &'static str = "completed";

pub const STATUS_FAILED: &'static str = "failed";

pub const ORIGINAL_STAGE_WAITING: &'static str = "waiting";

pub const ORIGINAL_STAGE_EXTRACTING_AUDIO: &'static str = "extracting_audio";

pub const ORIGINAL_STAGE_TRANSCRIBING: &'static str = "transcribing";

pub const ORIGINAL_STAGE_SEGMENTING: &'static str = "segmenting";

pub const ORIGINAL_STAGE_EXPORTING: &'static str = "exporting";

pub const ORIGINAL_STAGE_COMPLETED: &'static str = "completed";

pub const ORIGINAL_STAGE_FAILED: &'static str = "failed";

pub const TRANSLATION_STAGE_NOT_REQUIRED: &'static str = "not_required";

pub const TRANSLATION_STAGE_WAITING_ORIGINAL: &'static str = "waiting_original";

pub const TRANSLATION_STAGE_QUEUED: &'static str = "queued";

pub const TRANSLATION_STAGE_TRANSLATING: &'static str = "translating";

pub const TRANSLATION_STAGE_EXPORTING: &'static str = "exporting";

pub const TRANSLATION_STAGE_COMPLETED: &'static str = "completed";

pub const TRANSLATION_STAGE_FAILED: &'static str = "failed";

/// One imported video and the state of its subtitle pipeline.
/// `duration_sec_bits` is the `f64` duration, `snapshot_vad_threshold_bits`
/// the `f32` threshold.
#[derive(Clone)]
pub struct TaskRecord {
    pub id: String,
    pub video_path: String,
    pub file_name: String,
    pub file_size: u64,
    pub duration_sec_bits: Option<u64>,
    pub status: String,
    pub original_stage: String,
    pub translation_stage: String,
    pub progress: u8,
    pub phase: String,
    pub will_translate: bool,
    pub translator_engine_snapshot: String,
    pub subtitle_mode_snapshot: String,
    pub translate_source_lang_snapshot: String,
    pub translate_target_lang_snapshot: String,
    pub segmentation_strategy_snapshot: String,
    pub segmentation_timing_mode_snapshot: String,
    pub snapshot_id: String,
    pub snapshot_summary: String,
    pub snapshot_whisper_model: String,
    pub snapshot_recognition_lang: String,
    pub snapshot_whisper_use_gpu: bool,
    pub snapshot_enable_vad: bool,
    pub snapshot_vad_threshold_bits: u32,
    pub snapshot_vad_min_speech_ms: u32,
    pub snapshot_vad_min_silence_ms: u32,
    pub snapshot_vad_max_segment_ms: u32,
    pub snapshot_subtitle_overwrite: bool,
    pub snapshot_output_dir_mode: String,
    pub snapshot_custom_output_dir: String,
    pub snapshot_ffmpeg_path: String,
    pub snapshot_whisper_cli_path: String,
    pub snapshot_cpu_thread_limit: u32,
    pub snapshot_translate_style: String,
    pub snapshot_translate_max_segment_chars: u32,
    pub snapshot_segmentation_max_chars: u32,
    pub snapshot_segmentation_max_duration_ms: u32,
    pub snapshot_llm_base_url: String,
    pub snapshot_llm_model: String,
    pub snapshot_llm_timeout_sec: u32,
    pub snapshot_llm_max_retries: u32,
    pub snapshot_keep_proper_nouns: bool,
    pub snapshot_glossary_case_sensitive: bool,
    pub snapshot_translate_glossary_json: String,
    pub snapshot_translator_min_interval_ms: u32,
    pub snapshot_llm_translate_concurrency: u32,
    pub snapshot_translator_provider_url: String,
    pub snapshot_translator_use_proxy: bool,
    pub snapshot_task_auto_retry_max: u32,
    pub retry_attempts: u32,
    pub original_preview: Option<String>,
    pub translated_preview: Option<String>,
    pub segmentation_note: Option<String>,
    pub original_output_path: Option<String>,
    pub translated_output_path: Option<String>,
    pub bilingual_output_path: Option<String>,
    pub translate_note: Option<String>,
    pub cancel_requested: bool,
    pub error_message: Option<String>,
    pub created_at_ms: i64,
    pub updated_at_ms: i64,
}

/// The task list as stored, with the output directory chosen in the panel.
#[derive(Clone)]
pub struct TaskStoreFile {
    pub version: u32,
    pub output_dir_mode: String,
    pub custom_output_dir: String,
    pub tasks: Vec<TaskRecord>,
}

/// The list kept before any task was imported.
pub fn default_task_store() -> (r: TaskStoreFile)
    ensures
        r.version == 1,
        r.output_dir_mode@ == "video_dir"@,
        r.custom_output_dir@.len() == 0,
        r.tasks@.len() == 0,
{
    TaskStoreFile {
        version: 1,
        output_dir_mode: "video_dir".to_string(),
        custom_output_dir: String::new(),
        tasks: Vec::new(),
    }
}

/// A loaded list without an output directory choice takes the video's
/// directory.
pub fn fill_store_defaults(store: &mut TaskStoreFile)
    ensures
        final(store).output_dir_mode@ == if old(store).output_dir_mode@.len() == 0 {
            "video_dir"@
        } else {
            old(store).output_dir_mode@
        },
        final(store).version == old(store).version,
        final(store).custom_output_dir == old(store).custom_output_dir,
        final(store).tasks == old(store).tasks,
{
    if crate::text::is_empty_text(store.output_dir_mode.as_str()) {
        store.output_dir_mode = "video_dir".to_string();
    }
}

pub fn task_store_version() -> (r: u32)
    ensures
        r == 1,
{
    1
}

/// The statuses in which the pipeline is working on a task.
pub open spec fn active_status(s: Seq<char>) -> bool {
    s == STATUS_EXTRACTING@ || s == STATUS_TRANSCRIBING@ || s == STATUS_SEGMENTING@ || s == STATUS_TRANSLATING@ || s
        == STATUS_PAUSE_REQUESTED@
}

pub fn is_active_status(s: &str) -> (r: bool)
    ensures
        r == active_status(s@),
{
    str_eq(s, STATUS_EXTRACTING) || str_eq(s, STATUS_TRANSCRIBING) || str_eq(s, STATUS_SEGMENTING) || str_eq(
        s,
        STATUS_TRANSLATING,
    ) || str_eq(s, STATUS_PAUSE_REQUESTED)
}

pub open spec fn original_label(t: TaskRecord) -> Seq<char> {
    if t.cancel_requested && active_status(t.status@) {
        "删除请求中"@
    } else {
        let s = t.status@;
        if s == STATUS_PENDING@ {
            "待开始"@
        } else if s == STATUS_QUEUED@ {
            "排队中"@
        } else if s == STATUS_PAUSE_REQUESTED@ {
            "暂停请求中"@
        } else if s == STATUS_EXTRACTING@ {
            "提取音频中"@
        } else if s == STATUS_TRANSCRIBING@ {
            "识别中"@
        } else if s == STATUS_SEGMENTING@ {
            "原字幕分段中"@
        } else if s == STATUS_TRANSLATING@ {
            "翻译中"@
        } else if s == STATUS_PAUSED@ {
            "已暂停"@
        } else if s == STATUS_COMPLETED@ {
            "已完成"@
        } else if s == STATUS_FAILED@ {
            "失败"@
        } else {
            s
        }
    }
}

pub open spec fn translate_label(t: TaskRecord) -> Seq<char> {
    if !t.will_translate {
        "-"@
    } else if t.cancel_requested && active_status(t.status@) {
        "删除请求中"@
    } else {
        let s = t.status@;
        if s == STATUS_PENDING@ || s == STATUS_QUEUED@ {
            "待开始"@
        } else if s == STATUS_EXTRACTING@ || s == STATUS_TRANSCRIBING@ || s == STATUS_SEGMENTING@ {
            "-"@
        } else if s == STATUS_TRANSLATING@ {
            "翻译中"@
        } else if s == STATUS_PAUSE_REQUESTED@ {
            "暂停请求中"@
        } else if s == STATUS_PAUSED@ {
            "已暂停"@
        } else if s == STATUS_COMPLETED@ {
            match t.translate_note {
                Some(n) => "已完成（"@ + n@ + "）"@,
                None => "已完成"@,
            }
        } else if s == STATUS_FAILED@ {
            "—"@
        } else {
            "-"@
        }
    }
}


/// The stage of producing the original subtitle that a legacy status stood
/// for, if it stood for one.
pub open spec fn legacy_original_stage(s: Seq<char>) -> Option<Seq<char>> {
    if s == STATUS_EXTRACTING@ {
        Some(ORIGINAL_STAGE_EXTRACTING_AUDIO@)
    } else if s == STATUS_TRANSCRIBING@ {
        Some(ORIGINAL_STAGE_TRANSCRIBING@)
    } else if s == STATUS_SEGMENTING@ {
        Some(ORIGINAL_STAGE_SEGMENTING@)
    } else if s == STATUS_TRANSLATING@ {
        Some(ORIGINAL_STAGE_COMPLETED@)
    } else {
        None
    }
}

/// The original stage that a status implies where none is recorded.
pub open spec fn default_original_stage(s: Seq<char>) -> Seq<char> {
    if s == STATUS_COMPLETED@ {
        ORIGINAL_STAGE_COMPLETED@
    } else if s == STATUS_FAILED@ {
        ORIGINAL_STAGE_FAILED@
    } else if s == STATUS_RUNNING@ || s == STATUS_PAUSE_REQUESTED@ {
        ORIGINAL_STAGE_EXTRACTING_AUDIO@
    } else {
        ORIGINAL_STAGE_WAITING@
    }
}

/// The translation stage that a task implies where none is recorded.
pub open spec fn default_translation_stage(will_translate: bool, s: Seq<char>) -> Seq<char> {
    if !will_translate {
        TRANSLATION_STAGE_NOT_REQUIRED@
    } else if s == STATUS_COMPLETED@ {
        TRANSLATION_STAGE_COMPLETED@
    } else {
        TRANSLATION_STAGE_WAITING_ORIGINAL@
    }
}

/// A task record in the current form: the legacy working statuses become
/// `running` with the stage they stood for (`translating` also marks the
/// translation as running), and empty stages are filled from the status.
/// Everything else stays.
pub open spec fn normalized(o: TaskRecord, n: TaskRecord) -> bool {
    let legacy = legacy_original_stage(o.status@);
    let status = if legacy is Some {
        STATUS_RUNNING@
    } else {
        o.status@
    };
    let original = match legacy {
        Some(st) => st,
        None => if o.original_stage@.len() == 0 {
            default_original_stage(o.status@)
        } else {
            o.original_stage@
        },
    };
    let translation = if o.status@ == STATUS_TRANSLATING@ {
        TRANSLATION_STAGE_TRANSLATING@
    } else if o.translation_stage@.len() == 0 {
        default_translation_stage(o.will_translate, o.status@)
    } else {
        o.translation_stage@
    };
    &&& n == TaskRecord {
        status: n.status,
        original_stage: n.original_stage,
        translation_stage: n.translation_stage,
        ..o
    }
    &&& n.status@ == status
    &&& n.original_stage@ == original
    &&& n.translation_stage@ == translation
}

/// A task marked as failed: the status, and the stage that was under way
/// (the translation where the original was already done).
pub open spec fn failed_state(o: TaskRecord, n: TaskRecord) -> bool {
    let original_done = o.original_stage@ == ORIGINAL_STAGE_COMPLETED@;
    &&& n == TaskRecord {
        status: n.status,
        original_stage: n.original_stage,
        translation_stage: n.translation_stage,
        ..o
    }
    &&& n.status@ == STATUS_FAILED@
    &&& n.original_stage@ == if original_done {
        o.original_stage@
    } else {
        ORIGINAL_STAGE_FAILED@
    }
    &&& n.translation_stage@ == if original_done && o.will_translate {
        TRANSLATION_STAGE_FAILED@
    } else {
        o.translation_stage@
    }
}

fn set_text(s: &mut String, v: &str)
    ensures
        final(s)@ == v@,
{
    *s = v.to_string();
}

impl TaskRecord {
    pub fn normalize_state(&mut self)
        ensures
            normalized(*old(self), *final(self)),
    {
        let s = self.status.as_str();
        if str_eq(s, STATUS_TRANSLATING) {
            proof {
                reveal_strlit("translating");
                reveal_strlit("extracting_audio");
                reveal_strlit("transcribing");
                reveal_strlit("segmenting");
            }
            set_text(&mut self.status, STATUS_RUNNING);
            set_text(&mut self.original_stage, ORIGINAL_STAGE_COMPLETED);
            set_text(&mut self.translation_stage, TRANSLATION_STAGE_TRANSLATING);
            assert(legacy_original_stage(old(self).status@) == Some(ORIGINAL_STAGE_COMPLETED@));
            assert(old(self).status@ == STATUS_TRANSLATING@);
            assert(*self == TaskRecord {
                status: self.status,
                original_stage: self.original_stage,
                translation_stage: self.translation_stage,
                ..*old(self)
            });
            return;
        }
        let legacy: Option<&'static str> = if str_eq(s, STATUS_EXTRACTING) {
            Some(ORIGINAL_STAGE_EXTRACTING_AUDIO)
        } else if str_eq(s, STATUS_TRANSCRIBING) {
            Some(ORIGINAL_STAGE_TRANSCRIBING)
        } else if str_eq(s, STATUS_SEGMENTING) {
            Some(ORIGINAL_STAGE_SEGMENTING)
        } else {
            None
        };
        let was_completed = str_eq(s, STATUS_COMPLETED);
        match legacy {
            Some(stage) => {
                set_text(&mut self.status, STATUS_RUNNING);
                set_text(&mut self.original_stage, stage);
            },
            None => {
                if crate::text::is_empty_text(self.original_stage.as_str()) {
                    let d: &'static str = if str_eq(s, STATUS_COMPLETED) {
                        ORIGINAL_STAGE_COMPLETED
                    } else if str_eq(s, STATUS_FAILED) {
                        ORIGINAL_STAGE_FAILED
                    } else if str_eq(s, STATUS_RUNNING) || str_eq(s, STATUS_PAUSE_REQUESTED) {
                        ORIGINAL_STAGE_EXTRACTING_AUDIO
                    } else {
                        ORIGINAL_STAGE_WAITING
                    };
                    set_text(&mut self.original_stage, d);
                }
            },
        }
        if crate::text::is_empty_text(self.translation_stage.as_str()) {
            let d: &'static str = if !self.will_translate {
                TRANSLATION_STAGE_NOT_REQUIRED
            } else if was_completed {
                TRANSLATION_STAGE_COMPLETED
            } else {
                TRANSLATION_STAGE_WAITING_ORIGINAL
            };
            set_text(&mut self.translation_stage, d);
        }
    }

    pub fn mark_failed(&mut self)
        ensures
            failed_state(*old(self), *final(self)),
    {
        let done = str_eq(self.original_stage.as_str(), ORIGINAL_STAGE_COMPLETED);
        set_text(&mut self.status, STATUS_FAILED);
        if !done {
            set_text(&mut self.original_stage, ORIGINAL_STAGE_FAILED);
        } else if self.will_translate {
            set_text(&mut self.translation_stage, TRANSLATION_STAGE_FAILED);
        }
    }

    pub fn is_active_pipeline(&self) -> (r: bool)
        ensures
            r == active_status(self.status@),
    {
        is_active_status(self.status.as_str())
    }

    pub fn original_status_label(&self) -> (r: String)
        ensures
            r@ == original_label(*self),
    {
        if self.cancel_requested && self.is_active_pipeline() {
            return "删除请求中".to_string();
        }
        let s = self.status.as_str();
        if str_eq(s, STATUS_PENDING) {
            "待开始".to_string()
        } else if str_eq(s, STATUS_QUEUED) {
            "排队中".to_string()
        } else if str_eq(s, STATUS_PAUSE_REQUESTED) {
            "暂停请求中".to_string()
        } else if str_eq(s, STATUS_EXTRACTING) {
            "提取音频中".to_string()
        } else if str_eq(s, STATUS_TRANSCRIBING) {
            "识别中".to_string()
        } else if str_eq(s, STATUS_SEGMENTING) {
            "原字幕分段中".to_string()
        } else if str_eq(s, STATUS_TRANSLATING) {
            "翻译中".to_string()
        } else if str_eq(s, STATUS_PAUSED) {
            "已暂停".to_string()
        } else if str_eq(s, STATUS_COMPLETED) {
            "已完成".to_string()
        } else if str_eq(s, STATUS_FAILED) {
            "失败".to_string()
        } else {
            self.status.clone()
        }
    }

    pub fn translate_status_label(&self) -> (r: String)
        ensures
            r@ == translate_label(*self),
    {
        if !self.will_translate {
            return "-".to_string();
        }
        if self.cancel_requested && self.is_active_pipeline() {
            return "删除请求中".to_string();
        }
        let s = self.status.as_str();
        if str_eq(s, STATUS_PENDING) || str_eq(s, STATUS_QUEUED) {
            "待开始".to_string()
        } else if str_eq(s, STATUS_EXTRACTING) || str_eq(s, STATUS_TRANSCRIBING) || str_eq(s, STATUS_SEGMENTING) {
            "-".to_string()
        } else if str_eq(s, STATUS_TRANSLATING) {
            "翻译中".to_string()
        } else if str_eq(s, STATUS_PAUSE_REQUESTED) {
            "暂停请求中".to_string()
        } else if str_eq(s, STATUS_PAUSED) {
            "已暂停".to_string()
        } else if str_eq(s, STATUS_COMPLETED) {
            match &self.translate_note {
                Some(n) => {
                    let mut out = "已完成（".to_string();
                    crate::text::push_str(&mut out, n.as_str());
                    crate::text::push_str(&mut out, "）");
                    out
                },
                None => "已完成".to_string(),
            }
        } else if str_eq(s, STATUS_FAILED) {
            "—".to_string()
        } else {
            "-".to_string()
        }
    }
}

} // verus!
