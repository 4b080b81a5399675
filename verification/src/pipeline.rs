//! One task's run as a state machine: each step takes what the last outside
//! action came back with and answers the next action (check a file, run
//! ffmpeg or whisper.cpp, update the record, write a subtitle file, ...).
//! The runner performs the actions and hands the outcomes back.
use vstd::prelude::*;

use crate::job::{
    exists_no_overwrite_message, fallback_note, fixed_lang, fixed_recognition_lang, needs_key, needs_llm_key, opt_seq, plan_translation_outputs,
    recognition_peak, recognition_phase, segmenting_progress, source_file_lang, transcribe_start_progress,
    transcribed_progress, translation_phase, translation_plan, JobSnapshot, OutputPlan, RunOutputs, RuntimeUpdate,
};
use crate::llm_translate::PAUSE_MARKER;
use crate::models::{catalog_view, model_file_path};
use crate::openai_compat::HttpReply;
use crate::paths::{joined, original_srt_path, path_join, resolve_original_srt_path};
use crate::runner::{preview_of, preview_text, MidRun};
use crate::segmentation::{
    llm_available, option_view, segment_cues_checked, segment_defined, segmentation, units_view, JobView,
    SegmentationJob, TimeUnit,
};
use crate::srt::{
    bilingual_optimized, build_bilingual_cues_optimized, build_translated_cues, clone_cues, count_mismatch, cues_view,
    optimize_source, optimize_source_cues, optimize_translated, optimize_translated_cues, parse_srt, parse_srt_spec,
    strings_view, translated_cues, CueView, SubCue,
};
use crate::task::{
    ORIGINAL_STAGE_COMPLETED, ORIGINAL_STAGE_EXPORTING, ORIGINAL_STAGE_SEGMENTING, ORIGINAL_STAGE_TRANSCRIBING,
    STATUS_COMPLETED, STATUS_RUNNING, TRANSLATION_STAGE_COMPLETED, TRANSLATION_STAGE_EXPORTING,
    TRANSLATION_STAGE_NOT_REQUIRED, TRANSLATION_STAGE_QUEUED, TRANSLATION_STAGE_TRANSLATING,
    TRANSLATION_STAGE_WAITING_ORIGINAL,
};
use crate::text::{is_blank, push_str, str_eq, trim, trim_string};
use crate::whisper::{
    build_whisper_args, detected_language, expected_whisper_sidecar_paths, language_from_whisper_json, vad_view,
    whisper_args, VadArgs,
};

verus! {

/// Where a run stands: the outcome of which action it waits for.
#[derive(Debug, Clone, Copy, PartialEq, Eq, Structural)]
pub enum Stage {
    Begin,
    CheckVideo,
    MakeTemp,
    PollAfterTemp,
    FindFfmpeg,
    Extract,
    PollAfterExtract,
    CheckModel,
    InstallRuntime,
    FindWhisper,
    PrepareVad,
    EnterRecognition,
    PollBeforeRecognition,
    Recognize,
    CheckSrt,
    ReadLanguage,
    ReadSrt,
    LoadKey,
    EnterSegmenting,
    Segment,
    SaveNote,
    PollAfterSegment,
    SourceReady,
    CheckOriginal,
    EnterOriginalExport,
    WriteOriginal,
    CheckTargets,
    EnterDualOriginal,
    WriteDualOriginal,
    PollBeforeTranslation,
    EnterQueued,
    EnterTranslating,
    Translate,
    EnterTranslationExport,
    WriteTranslation,
    Done,
}

/// What the runner does next.
pub enum RunAction {
    /// Tell whether this file exists (`Exists`).
    CheckFile(String),
    /// Empty and create the temporary directory (`Done` or `Failed`).
    MakeTempDir(String),
    /// Look at the task (`Polled`).
    Poll,
    /// Find ffmpeg for the configured path (`Found` or `Failed`).
    FindFfmpeg(String),
    /// Report the progress, then extract 16 kHz mono audio (`Done` or `Failed`).
    ExtractAudio { ffmpeg: String, video: String, wav: String, progress: u8 },
    /// Install the managed whisper.cpp runtime (`Done` or `Failed`).
    InstallRuntime,
    /// Find whisper.cpp for the configured path (`Found` or `Failed`).
    FindWhisper(String),
    /// Prepare the voice activity model (`Found` or `Failed`).
    PrepareVad,
    /// Write the update to the record, and report the progress and phase
    /// where given (`Done`).
    Update { update: RuntimeUpdate, report: Option<(u8, String)> },
    /// Set the progress and report it with this phase (`Done`).
    SetProgress { progress: u8, phase: String },
    /// Run whisper.cpp in `work_dir` with the two argument lists, keeping the
    /// progress heartbeat up to `peak` under `phase` (`Done` or `Failed`).
    Recognize { cli: String, work_dir: String, srt_args: Vec<String>, json_args: Vec<String>, phase: String, peak: u8 },
    /// Read a text file (`Read`).
    ReadFile(String),
    /// Read the stored LLM key (`Found` or `Failed`).
    LoadKey,
    /// Read the word timings from this file where one is given, and send
    /// the segmentation requests of `segmentation_job` (`SegmentInputs`, or
    /// `Failed` where no HTTP client could be made).
    FetchSegmentation { json_path: Option<String> },
    /// Keep the segmentation note on the record (`Done`).
    SaveNote(Option<String>),
    /// Write cues as an SRT file, creating its directory (`Done` or `WriteFailed`).
    WriteSrt { path: String, cues: Vec<SubCue> },
    /// Translate the cues with the job's engine (`Translated`).
    Translate,
    /// Keep the outputs, write the update where given, remove the
    /// temporary directory and mark the task completed with the note.
    Finish { outputs: RunOutputs, update: Option<RuntimeUpdate>, note: Option<String> },
    /// Mark the task failed with the message; remove the temporary
    /// directory where `cleanup` is set.
    Fail { message: String, cleanup: bool },
    /// Remove the temporary directory and pause the task.
    Pause,
    /// Remove the temporary directory and drop the task.
    Cancel,
    /// Remove the temporary directory, look at the task again, and pause it
    /// or drop it.
    PauseOrCancel,
    /// Stop: the step cannot go on with what came back.
    Unrecoverable(String),
}

/// What the last action came back with.
pub enum RunEvent {
    Begin,
    Done,
    Failed(String),
    Found(String),
    Exists(bool),
    Polled(MidRun),
    Read(Result<String, String>),
    SegmentInputs { units: Vec<TimeUnit>, replies: Vec<Option<Result<HttpReply, String>>> },
    WriteFailed { creating_dir: bool, error: String },
    Translated(Result<(Vec<String>, bool), String>),
}

/// A run in progress: the job, the paths it works with, and what it has
/// found so far. `vad_threshold` is the threshold as written on the
/// command line.
pub struct RunState {
    pub stage: Stage,
    pub job: JobSnapshot,
    pub app_dir: String,
    pub tmp_root: String,
    pub wav_path: String,
    pub w_prefix: String,
    pub threads: u32,
    pub vad_threshold: String,
    pub ffmpeg: String,
    pub model_path: String,
    pub whisper_cli: String,
    pub vad_model: Option<String>,
    pub lang_for_name: String,
    pub cues: Vec<SubCue>,
    pub llm_key: String,
    pub final_path: String,
    pub plan: OutputPlan,
    pub pending: Vec<String>,
    pub translated: Vec<String>,
    pub any_fallback: bool,
}

/// The event kinds each stage waits for.
pub open spec fn answers(stage: Stage, e: RunEvent) -> bool {
    match stage {
        Stage::Begin => e is Begin,
        Stage::CheckVideo | Stage::CheckModel | Stage::CheckSrt | Stage::CheckOriginal | Stage::CheckTargets => e is Exists,
        Stage::MakeTemp | Stage::Extract | Stage::InstallRuntime | Stage::Recognize => e is Done || e is Failed,
        Stage::EnterRecognition | Stage::EnterSegmenting | Stage::SaveNote | Stage::SourceReady
        | Stage::EnterOriginalExport | Stage::EnterDualOriginal | Stage::EnterQueued | Stage::EnterTranslating
        | Stage::EnterTranslationExport => e is Done,
        Stage::PollAfterTemp | Stage::PollAfterExtract | Stage::PollBeforeRecognition | Stage::PollAfterSegment
        | Stage::PollBeforeTranslation => e is Polled,
        Stage::FindFfmpeg | Stage::FindWhisper | Stage::PrepareVad | Stage::LoadKey => e is Found || e is Failed,
        Stage::ReadLanguage | Stage::ReadSrt => e is Read,
        Stage::Segment => e is SegmentInputs || e is Failed,
        Stage::WriteOriginal | Stage::WriteDualOriginal | Stage::WriteTranslation => e is Done || e is WriteFailed,
        Stage::Translate => e is Translated,
        Stage::Done => false,
    }
}

pub fn answers_exec(s: &RunState, e: &RunEvent) -> (r: bool)
    ensures
        r == answers(s.stage, *e),
{
    match s.stage {
        Stage::Begin => matches!(e, RunEvent::Begin),
        Stage::CheckVideo | Stage::CheckModel | Stage::CheckSrt | Stage::CheckOriginal | Stage::CheckTargets => matches!(
            e,
            RunEvent::Exists(_)
        ),
        Stage::MakeTemp | Stage::Extract | Stage::InstallRuntime | Stage::Recognize => matches!(e, RunEvent::Done)
            || matches!(e, RunEvent::Failed(_)),
        Stage::EnterRecognition | Stage::EnterSegmenting | Stage::SaveNote | Stage::SourceReady
        | Stage::EnterOriginalExport | Stage::EnterDualOriginal | Stage::EnterQueued | Stage::EnterTranslating
        | Stage::EnterTranslationExport => matches!(e, RunEvent::Done),
        Stage::PollAfterTemp | Stage::PollAfterExtract | Stage::PollBeforeRecognition | Stage::PollAfterSegment
        | Stage::PollBeforeTranslation => matches!(e, RunEvent::Polled(_)),
        Stage::FindFfmpeg | Stage::FindWhisper | Stage::PrepareVad | Stage::LoadKey => matches!(e, RunEvent::Found(_))
            || matches!(e, RunEvent::Failed(_)),
        Stage::ReadLanguage | Stage::ReadSrt => matches!(e, RunEvent::Read(_)),
        Stage::Segment => matches!(e, RunEvent::SegmentInputs { .. }) || matches!(e, RunEvent::Failed(_)),
        Stage::WriteOriginal | Stage::WriteDualOriginal | Stage::WriteTranslation => matches!(e, RunEvent::Done)
            || matches!(e, RunEvent::WriteFailed { .. }),
        Stage::Translate => matches!(e, RunEvent::Translated(_)),
        Stage::Done => false,
    }
}

/// The run has ended with this failure.
pub open spec fn failed_with(n: RunState, a: RunAction, s: RunState, msg: Seq<char>, cleanup: bool) -> bool {
    &&& n == (RunState { stage: Stage::Done, ..s })
    &&& a matches RunAction::Fail { message, cleanup: c } && message@ == msg && c == cleanup
}

/// The answer to a poll: go on as `cont` says, or pause, or drop the task.
pub open spec fn after_poll(m: MidRun, n: RunState, a: RunAction, s: RunState, cont: bool) -> bool {
    match m {
        MidRun::Continue => cont,
        MidRun::Pause => n == (RunState { stage: Stage::Done, ..s }) && a is Pause,
        MidRun::Cancel => n == (RunState { stage: Stage::Done, ..s }) && a is Cancel,
    }
}

fn cat(a: &str, b: &str) -> (r: String)
    ensures
        r@ == a@ + b@,
{
    let mut s = a.to_string();
    push_str(&mut s, b);
    s
}

fn fail(s: RunState, message: String, cleanup: bool) -> (r: (RunState, RunAction))
    ensures
        failed_with(r.0, r.1, s, message@, cleanup),
{
    (RunState { stage: Stage::Done, ..s }, RunAction::Fail { message, cleanup })
}

fn polled(s: RunState, m: MidRun) -> (r: Result<RunState, (RunState, RunAction)>)
    ensures
        match r {
            Ok(n) => m == MidRun::Continue && n == s,
            Err((n, a)) => m != MidRun::Continue && after_poll(m, n, a, s, false),
        },
{
    match m {
        MidRun::Continue => Ok(s),
        MidRun::Pause => Err((RunState { stage: Stage::Done, ..s }, RunAction::Pause)),
        MidRun::Cancel => Err((RunState { stage: Stage::Done, ..s }, RunAction::Cancel)),
    }
}

/// The record update of a step: each part given replaces the field.
pub open spec fn update_is(
    u: RuntimeUpdate,
    status: Option<Seq<char>>,
    original_stage: Option<Seq<char>>,
    translation_stage: Option<Seq<char>>,
    progress: Option<u8>,
    phase: Option<Seq<char>>,
) -> bool {
    &&& opt_seq(u.status) == status
    &&& opt_seq(u.original_stage) == original_stage
    &&& opt_seq(u.translation_stage) == translation_stage
    &&& u.progress == progress
    &&& opt_seq(u.phase) == phase
}

impl RunState {
    /// A run about to start in `tmp_root`, with the audio at `audio.wav`
    /// and the recognizer's outputs under the prefix `w` there.
    pub fn new(job: JobSnapshot, app_dir: String, tmp_root: String, threads: u32, vad_threshold: String) -> (r: RunState)
        ensures
            r.stage == Stage::Begin,
            r.job == job,
            r.app_dir == app_dir,
            r.tmp_root == tmp_root,
            r.wav_path@ == crate::paths::joined(tmp_root@, "audio.wav"@),
            r.w_prefix@ == crate::paths::joined(tmp_root@, "w"@),
            r.threads == threads,
            r.vad_threshold == vad_threshold,
            r.vad_model is None,
            r.cues@.len() == 0,
            r.pending@.len() == 0,
            r.translated@.len() == 0,
            !r.any_fallback,
    {
        let wav_path = path_join(tmp_root.as_str(), "audio.wav");
        let w_prefix = path_join(tmp_root.as_str(), "w");
        RunState {
            stage: Stage::Begin,
            job,
            app_dir,
            tmp_root,
            wav_path,
            w_prefix,
            threads,
            vad_threshold,
            ffmpeg: String::new(),
            model_path: String::new(),
            whisper_cli: String::new(),
            vad_model: None,
            lang_for_name: String::new(),
            cues: Vec::new(),
            llm_key: String::new(),
            final_path: String::new(),
            plan: OutputPlan { dual_original: None, dual_translated: None, bilingual: None },
            pending: Vec::new(),
            translated: Vec::new(),
            any_fallback: false,
        }
    }
}

/// The segmentation settings of the run.
pub fn segmentation_job(s: &RunState) -> (r: SegmentationJob<'_>)
    ensures
        r.strategy@ == s.job.segmentation_strategy@,
        r.timing_mode@ == s.job.segmentation_timing_mode@,
        r.max_chars_per_segment == s.job.segmentation_max_chars,
        r.max_duration_ms == s.job.segmentation_max_duration_ms,
        r.llm_base_url@ == s.job.llm_base_url@,
        r.llm_model@ == s.job.llm_model@,
        r.llm_api_key@ == s.llm_key@,
        r.llm_timeout_sec == s.job.llm_timeout_sec,
{
    SegmentationJob {
        strategy: s.job.segmentation_strategy.as_str(),
        timing_mode: s.job.segmentation_timing_mode.as_str(),
        max_chars_per_segment: s.job.segmentation_max_chars,
        max_duration_ms: s.job.segmentation_max_duration_ms,
        llm_base_url: s.job.llm_base_url.as_str(),
        llm_model: s.job.llm_model.as_str(),
        llm_api_key: s.llm_key.as_str(),
        llm_timeout_sec: s.job.llm_timeout_sec,
    }
}


// ---------------------------------------------------------------------------
// What each stage does with the outcome it waited for
// ---------------------------------------------------------------------------

/// The state with only its stage changed.
pub open spec fn moved(s: RunState, stage: Stage) -> RunState {
    RunState { stage, ..s }
}

/// The path of the recognizer's SRT output.
pub open spec fn srt_out(s: RunState) -> Seq<char> {
    s.w_prefix@ + ".srt"@
}

/// The path of the recognizer's JSON output.
pub open spec fn json_out(s: RunState) -> Seq<char> {
    s.w_prefix@ + ".json"@
}

/// The model id the job names, trimmed.
pub open spec fn model_id(s: RunState) -> Seq<char> {
    trim(s.job.whisper_model@)
}

/// `p` is the weights file of the catalog model `id` under `app_dir`.
pub open spec fn model_found(app_dir: Seq<char>, id: Seq<char>, p: Seq<char>) -> bool {
    exists|i: int|
        0 <= i < catalog_view().len() && (#[trigger] catalog_view()[i]).0 == id && p == joined(
            joined(joined(app_dir, "models"@), "whisper"@),
            catalog_view()[i].1,
        )
}

/// No catalog model has the id `id`.
pub open spec fn model_unknown(id: Seq<char>) -> bool {
    forall|i: int| 0 <= i < catalog_view().len() ==> (#[trigger] catalog_view()[i]).0 != id
}

/// The voice activity settings handed to whisper.cpp, where a model was prepared.
pub open spec fn vad_of(s: RunState) -> Option<VadArgs> {
    match s.vad_model {
        Some(m) => Some(
            VadArgs {
                model_path: m,
                threshold: s.vad_threshold,
                min_speech_ms: s.job.vad_min_speech_ms,
                min_silence_ms: s.job.vad_min_silence_ms,
                max_segment_ms: s.job.vad_max_segment_ms,
            },
        ),
        None => None,
    }
}

/// The recognizer's arguments for the SRT (`json` false) or JSON pass.
pub open spec fn recognizer_args(s: RunState, json: bool) -> Seq<Seq<char>> {
    whisper_args(
        s.model_path@,
        s.wav_path@,
        s.job.recognition_lang@,
        s.threads,
        !s.job.whisper_use_gpu,
        vad_view(vad_of(s)),
        false,
        None,
        json,
        "w"@,
    )
}

/// The segmentation settings as the segmentation rules see them.
pub open spec fn seg_view(s: RunState) -> JobView {
    JobView {
        strategy: s.job.segmentation_strategy@,
        timing_mode: s.job.segmentation_timing_mode@,
        max_chars: s.job.segmentation_max_chars,
        max_duration: s.job.segmentation_max_duration_ms,
        llm_ok: llm_available(s.job.llm_base_url@, s.job.llm_model@, s.llm_key@),
    }
}

/// The first two of a list of lines.
pub open spec fn lead(lines: Seq<String>) -> Seq<String> {
    if lines.len() <= 2 {
        lines
    } else {
        lines.take(2)
    }
}

/// The texts of the first two cues.
pub open spec fn lead_texts(cues: Seq<SubCue>) -> Seq<String> {
    lead(cues.map_values(|c: SubCue| c.text))
}

/// The planned output files, in the order original, translated, bilingual.
pub open spec fn planned(o: Option<Seq<char>>, t: Option<Seq<char>>, b: Option<Seq<char>>) -> Seq<Seq<char>> {
    (if o is Some { seq![o->0] } else { seq![] }) + (if t is Some { seq![t->0] } else { seq![] }) + (if b is Some {
        seq![b->0]
    } else {
        seq![]
    })
}

/// The action writes the update and reports `report`.
pub open spec fn updates(
    a: RunAction,
    status: Option<Seq<char>>,
    original_stage: Option<Seq<char>>,
    translation_stage: Option<Seq<char>>,
    progress: Option<u8>,
    phase: Option<Seq<char>>,
    report: Option<(u8, Seq<char>)>,
) -> bool {
    &&& a matches RunAction::Update { update, report: r }
    &&& update_is(update, status, original_stage, translation_stage, progress, phase)
    &&& match (r, report) {
        (Some((p, ph)), Some((q, qh))) => p == q && ph@ == qh,
        (None, None) => true,
        _ => false,
    }
}

/// The run waits for a poll.
pub open spec fn polls(n: RunState, a: RunAction, s: RunState, stage: Stage) -> bool {
    n == moved(s, stage) && a is Poll
}

/// The run checks whether `path` exists.
pub open spec fn checks(a: RunAction, path: Seq<char>) -> bool {
    a matches RunAction::CheckFile(p) && p@ == path
}

/// Recognition begins: the record shows the transcribing stage.
pub open spec fn recognition_entered(t: RunState, n: RunState, a: RunAction) -> bool {
    let start: u8 = if t.job.will_translate { 12 } else { 15 };
    let phase = if t.job.whisper_enable_vad { "vad_detect"@ } else { "transcribe"@ };
    &&& n == moved(t, Stage::EnterRecognition)
    &&& updates(a, Some(STATUS_RUNNING@), Some(ORIGINAL_STAGE_TRANSCRIBING@), None, Some(start), Some(phase), Some((start, phase)))
}

/// whisper.cpp runs twice in the temporary directory, for the SRT and the
/// JSON output, with a heartbeat up to the recognition peak.
pub open spec fn recognizing(s: RunState, n: RunState, a: RunAction) -> bool {
    let peak: u8 = if s.job.will_translate {
        44
    } else if s.job.segmentation_strategy@ != "disabled"@ {
        69
    } else {
        89
    };
    let phase = if s.job.whisper_enable_vad { "vad_detect"@ } else { "transcribe"@ };
    &&& n == moved(s, Stage::Recognize)
    &&& a matches RunAction::Recognize { cli, work_dir, srt_args, json_args, phase: ph, peak: pk }
    &&& cli == s.whisper_cli && work_dir == s.tmp_root
    &&& strings_view(srt_args@) == recognizer_args(s, false)
    &&& strings_view(json_args@) == recognizer_args(s, true)
    &&& ph@ == phase && pk == peak
}

/// The source cues are final: merged, and the progress set.
pub open spec fn source_ready(t: RunState, n: RunState, a: RunAction) -> bool {
    &&& n == RunState { stage: Stage::SourceReady, cues: n.cues, ..t }
    &&& cues_view(n.cues@) == optimize_source(cues_view(t.cues@))
    &&& a matches RunAction::SetProgress { progress, phase }
    &&& progress == (if t.job.will_translate { 60u8 } else { 90u8 }) && phase@ == "transcribe"@
}

/// With the key settled, segmentation starts where it is on, else the
/// source cues are final.
pub open spec fn after_key(t: RunState, n: RunState, a: RunAction) -> bool {
    if t.job.segmentation_strategy@ != "disabled"@ {
        let p: u8 = if t.job.will_translate { 45 } else { 70 };
        &&& n == moved(t, Stage::EnterSegmenting)
        &&& updates(
            a,
            Some(STATUS_RUNNING@),
            Some(ORIGINAL_STAGE_SEGMENTING@),
            None,
            Some(p),
            Some("segment_subtitles"@),
            Some((p, "segment_subtitles"@)),
        )
    } else {
        source_ready(t, n, a)
    }
}

/// The key is read where translation or segmentation may use the LLM.
pub open spec fn key_step(t: RunState, n: RunState, a: RunAction) -> bool {
    if needs_key(t.job.translator_engine@, t.job.segmentation_strategy@, t.job.llm_base_url@, t.job.llm_model@) {
        n == moved(t, Stage::LoadKey) && a is LoadKey
    } else {
        n.llm_key@.len() == 0 && after_key(RunState { llm_key: n.llm_key, ..t }, n, a)
    }
}

/// The original-only export begins.
pub open spec fn original_export(t: RunState, n: RunState, a: RunAction) -> bool {
    &&& n == moved(t, Stage::EnterOriginalExport)
    &&& updates(
        a,
        Some(STATUS_RUNNING@),
        Some(ORIGINAL_STAGE_EXPORTING@),
        None,
        Some(95),
        Some("export_srt"@),
        Some((95, "export_srt"@)),
    )
}

/// With the planned files checked: in dual-file mode the original file is
/// written first, else the run polls before translating.
pub open spec fn after_targets(t: RunState, n: RunState, a: RunAction) -> bool {
    if t.job.subtitle_mode@ == "dual_files"@ {
        match t.plan.dual_original {
            None => failed_with(n, a, t, "Internal error: missing original subtitle output path for dual_files mode"@, true),
            Some(po) => {
                &&& n == RunState { stage: Stage::EnterDualOriginal, final_path: po, ..t }
                &&& updates(
                    a,
                    Some(STATUS_RUNNING@),
                    Some(ORIGINAL_STAGE_EXPORTING@),
                    Some(TRANSLATION_STAGE_WAITING_ORIGINAL@),
                    None,
                    Some("export_srt"@),
                    None,
                )
            },
        }
    } else {
        polls(n, a, t, Stage::PollBeforeTranslation)
    }
}

/// The next planned file still to check is looked at; with none left the
/// run goes on.
pub open spec fn targets_step(t: RunState, n: RunState, a: RunAction) -> bool {
    if t.pending@.len() > 0 {
        n == moved(t, Stage::CheckTargets) && checks(a, t.pending@[0]@)
    } else {
        after_targets(t, n, a)
    }
}

/// The run ends well: the outputs and previews are kept, the task completed.
pub open spec fn finished(s: RunState, n: RunState, a: RunAction) -> bool {
    &&& n == moved(s, Stage::Done)
    &&& a matches RunAction::Finish { outputs, update, note }
    &&& update is None
    &&& opt_seq(note) == (if s.any_fallback { Some("部分片段翻译失败，已回退原文"@) } else { None })
    &&& opt_seq(outputs.original_preview) == preview_of(lead_texts(s.cues@))
    &&& opt_seq(outputs.translated_preview) == preview_of(lead(s.translated@))
    &&& outputs.original_output_path == s.plan.dual_original
    &&& outputs.translated_output_path == s.plan.dual_translated
    &&& outputs.bilingual_output_path == s.plan.bilingual
}

/// The run writes `cues` to `path`.
pub open spec fn writes(a: RunAction, path: String, cues: Seq<CueView>) -> bool {
    a matches RunAction::WriteSrt { path: p, cues: c } && p == path && cues_view(c@) == cues
}


/// The model named by the job is looked up in the catalog: its file is
/// checked for, or the run fails for an unknown id.
pub open spec fn model_step(s: RunState, n: RunState, a: RunAction) -> bool {
    ||| (model_unknown(model_id(s)) && failed_with(n, a, s, "未知模型: "@ + model_id(s), true))
    ||| {
        &&& model_found(s.app_dir@, model_id(s), n.model_path@)
        &&& n == RunState { stage: Stage::CheckModel, model_path: n.model_path, ..s }
        &&& checks(a, n.model_path@)
    }
}

/// What a step does, stage by stage, with the outcome `e` of the action the
/// run waited for.
pub open spec fn stepped(s: RunState, e: RunEvent, n: RunState, a: RunAction) -> bool {
    match s.stage {
        Stage::Begin => n == moved(s, Stage::CheckVideo) && checks(a, s.job.video_path@),
        Stage::CheckVideo => match e {
            RunEvent::Exists(true) => n == moved(s, Stage::MakeTemp) && (a matches RunAction::MakeTempDir(p) && p == s.tmp_root),
            _ => failed_with(n, a, s, "视频文件不存在: "@ + s.job.video_path@, false),
        },
        Stage::MakeTemp => match e {
            RunEvent::Failed(m) => failed_with(n, a, s, "创建临时目录失败: "@ + m@, false),
            _ => polls(n, a, s, Stage::PollAfterTemp),
        },
        Stage::PollAfterTemp => e matches RunEvent::Polled(m) && after_poll(
            m,
            n,
            a,
            s,
            n == moved(s, Stage::FindFfmpeg) && (a matches RunAction::FindFfmpeg(p) && p == s.job.ffmpeg_path),
        ),
        Stage::FindFfmpeg => match e {
            RunEvent::Found(p) => {
                &&& n == RunState { stage: Stage::Extract, ffmpeg: p, ..s }
                &&& a matches RunAction::ExtractAudio { ffmpeg, video, wav, progress }
                &&& ffmpeg == p && video == s.job.video_path && wav == s.wav_path && progress == 10
            },
            RunEvent::Failed(m) => failed_with(n, a, s, m@, false),
            _ => false,
        },
        Stage::Extract => match e {
            RunEvent::Failed(m) => failed_with(n, a, s, m@, true),
            _ => polls(n, a, s, Stage::PollAfterExtract),
        },
        Stage::PollAfterExtract => e matches RunEvent::Polled(m) && after_poll(
            m,
            n,
            a,
            s,
            model_step(s, n, a),
        ),
        Stage::CheckModel => match e {
            RunEvent::Exists(true) => if trim(s.job.whisper_cli_path@).len() == 0 {
                n == moved(s, Stage::InstallRuntime) && a is InstallRuntime
            } else {
                n == moved(s, Stage::FindWhisper) && (a matches RunAction::FindWhisper(p) && p == s.job.whisper_cli_path)
            },
            _ => failed_with(
                n,
                a,
                s,
                "Whisper 模型未下载: "@ + model_id(s) + "（"@ + s.model_path@ + "）"@,
                true,
            ),
        },
        Stage::InstallRuntime => match e {
            RunEvent::Failed(m) => failed_with(n, a, s, "自动安装 Whisper CLI 失败: "@ + m@, true),
            _ => n == moved(s, Stage::FindWhisper) && (a matches RunAction::FindWhisper(p) && p == s.job.whisper_cli_path),
        },
        Stage::FindWhisper => match e {
            RunEvent::Found(p) => {
                let t = RunState { whisper_cli: p, ..s };
                if s.job.whisper_enable_vad {
                    n == moved(t, Stage::PrepareVad) && a is PrepareVad
                } else {
                    recognition_entered(t, n, a)
                }
            },
            RunEvent::Failed(m) => failed_with(n, a, s, m@, true),
            _ => false,
        },
        Stage::PrepareVad => match e {
            RunEvent::Found(p) => recognition_entered(RunState { vad_model: Some(p), ..s }, n, a),
            RunEvent::Failed(m) => failed_with(n, a, s, "准备 Whisper VAD 模型失败: "@ + m@, true),
            _ => false,
        },
        Stage::EnterRecognition => polls(n, a, s, Stage::PollBeforeRecognition),
        Stage::PollBeforeRecognition => e matches RunEvent::Polled(m) && after_poll(m, n, a, s, recognizing(s, n, a)),
        Stage::Recognize => match e {
            RunEvent::Failed(m) => failed_with(n, a, s, m@, true),
            _ => n == moved(s, Stage::CheckSrt) && checks(a, srt_out(s)),
        },
        Stage::CheckSrt => match e {
            RunEvent::Exists(true) => match fixed_lang(s.job.recognition_lang@) {
                Some(l) => {
                    &&& n == RunState { stage: Stage::ReadSrt, lang_for_name: n.lang_for_name, ..s }
                    &&& n.lang_for_name@ == l
                    &&& a matches RunAction::ReadFile(p) && p@ == srt_out(s)
                },
                None => n == moved(s, Stage::ReadLanguage) && (a matches RunAction::ReadFile(p) && p@ == json_out(s)),
            },
            _ => failed_with(n, a, s, "Whisper 未生成 SRT 文件（请确认 whisper.cpp 版本支持 -osrt）"@, true),
        },
        Stage::ReadLanguage => e matches RunEvent::Read(r) && {
            &&& n == RunState { stage: Stage::ReadSrt, lang_for_name: n.lang_for_name, ..s }
            &&& n.lang_for_name@ == detected_language(
                match r {
                    Ok(t) => Some(t@),
                    Err(_) => None,
                },
                "und"@,
            )
            &&& a matches RunAction::ReadFile(p) && p@ == srt_out(s)
        },
        Stage::ReadSrt => match e {
            RunEvent::Read(Ok(text)) => match parse_srt_spec(text@) {
                Ok(cs) => exists|c: Vec<SubCue>|
                    #![trigger key_step(RunState { cues: c, ..s }, n, a)]
                    cues_view(c@) == cs && key_step(RunState { cues: c, ..s }, n, a),
                Err(m) => failed_with(n, a, s, m, true),
            },
            RunEvent::Read(Err(m)) => failed_with(n, a, s, "读取临时 SRT 失败: "@ + m@, true),
            _ => false,
        },
        Stage::LoadKey => match e {
            RunEvent::Found(k) => n.llm_key@ == trim(k@) && after_key(RunState { llm_key: n.llm_key, ..s }, n, a),
            RunEvent::Failed(m) => failed_with(n, a, s, m@, true),
            _ => false,
        },
        Stage::EnterSegmenting => {
            &&& n == moved(s, Stage::Segment)
            &&& a matches RunAction::FetchSegmentation { json_path }
            &&& if s.job.segmentation_timing_mode@ == "word_timestamps_first"@ {
                json_path matches Some(p) && p@ == json_out(s)
            } else {
                json_path is None
            }
        },
        Stage::Segment => match e {
            RunEvent::SegmentInputs { units, replies } => {
                let jv = seg_view(s);
                let cv = cues_view(s.cues@);
                let uv = units_view(units@);
                if !segment_defined(jv, cv, uv, replies@) {
                    n == moved(s, Stage::Done) && a is Unrecoverable
                } else {
                    match segmentation(jv, cv, uv, replies@) {
                        Ok((c, note)) => {
                            &&& n == RunState { stage: Stage::SaveNote, cues: n.cues, ..s }
                            &&& cues_view(n.cues@) == c
                            &&& a matches RunAction::SaveNote(x) && option_view(x) == note
                        },
                        Err(m) => failed_with(n, a, s, m, true),
                    }
                }
            },
            RunEvent::Failed(m) => failed_with(n, a, s, "HTTP 客户端初始化失败: "@ + m@, true),
            _ => false,
        },
        Stage::SaveNote => polls(n, a, s, Stage::PollAfterSegment),
        Stage::PollAfterSegment => e matches RunEvent::Polled(m) && after_poll(m, n, a, s, source_ready(s, n, a)),
        Stage::SourceReady => if !s.job.will_translate {
            match original_srt_path(
                s.job.video_path@,
                s.job.video_path@,
                s.job.output_dir_mode@,
                s.job.custom_output_dir@,
                s.lang_for_name@,
            ) {
                Ok(p) => {
                    let t = RunState { final_path: n.final_path, ..s };
                    &&& n.final_path@ == p
                    &&& if s.job.subtitle_overwrite {
                        original_export(t, n, a)
                    } else {
                        n == moved(t, Stage::CheckOriginal) && checks(a, p)
                    }
                },
                Err(m) => failed_with(n, a, s, m, true),
            }
        } else {
            let src = match fixed_lang(s.job.translate_source_lang@) {
                Some(l) => l,
                None => s.lang_for_name@,
            };
            match translation_plan(s.job, src) {
                Ok((o, t, b)) => {
                    &&& opt_seq(n.plan.dual_original) == o
                    &&& opt_seq(n.plan.dual_translated) == t
                    &&& opt_seq(n.plan.bilingual) == b
                    &&& strings_view(n.pending@) == (if s.job.subtitle_overwrite { seq![] } else { planned(o, t, b) })
                    &&& targets_step(RunState { plan: n.plan, pending: n.pending, ..s }, n, a)
                },
                Err(m) => failed_with(n, a, s, m, true),
            }
        },
        Stage::CheckOriginal => match e {
            RunEvent::Exists(false) => original_export(s, n, a),
            _ => failed_with(n, a, s, "目标字幕已存在且配置为不覆盖: "@ + s.final_path@, true),
        },
        Stage::EnterOriginalExport => n == moved(s, Stage::WriteOriginal) && writes(a, s.final_path, cues_view(s.cues@)),
        Stage::WriteOriginal => match e {
            RunEvent::WriteFailed { creating_dir: true, error } => failed_with(
                n,
                a,
                s,
                "创建输出目录失败: "@ + error@,
                true,
            ),
            RunEvent::WriteFailed { creating_dir: false, error } => failed_with(
                n,
                a,
                s,
                "写入字幕失败: "@ + error@ + "（"@ + s.final_path@ + "）"@,
                true,
            ),
            _ => {
                &&& n == moved(s, Stage::Done)
                &&& a matches RunAction::Finish { outputs, update, note }
                &&& note is None
                &&& update matches Some(u) && update_is(
                    u,
                    Some(STATUS_COMPLETED@),
                    Some(ORIGINAL_STAGE_COMPLETED@),
                    Some(TRANSLATION_STAGE_NOT_REQUIRED@),
                    Some(100),
                    Some(""@),
                )
                &&& opt_seq(outputs.original_preview) == preview_of(lead_texts(s.cues@))
                &&& outputs.translated_preview is None
                &&& outputs.original_output_path == Some(s.final_path)
                &&& outputs.translated_output_path is None
                &&& outputs.bilingual_output_path is None
            },
        },
        Stage::CheckTargets => if s.pending@.len() == 0 {
            after_targets(s, n, a)
        } else {
            match e {
                RunEvent::Exists(false) => n.pending@ == s.pending@.subrange(1, s.pending@.len() as int)
                    && targets_step(RunState { pending: n.pending, ..s }, n, a),
                _ => failed_with(n, a, s, "目标字幕已存在且配置为不覆盖: "@ + s.pending@[0]@, true),
            }
        },
        Stage::EnterDualOriginal => n == moved(s, Stage::WriteDualOriginal) && writes(
            a,
            s.final_path,
            cues_view(s.cues@),
        ),
        Stage::WriteDualOriginal => match e {
            RunEvent::WriteFailed { creating_dir: true, error } => failed_with(
                n,
                a,
                s,
                "创建输出目录失败: "@ + error@,
                true,
            ),
            RunEvent::WriteFailed { creating_dir: false, error } => failed_with(
                n,
                a,
                s,
                "写入原文字幕失败: "@ + error@,
                true,
            ),
            _ => polls(n, a, s, Stage::PollBeforeTranslation),
        },
        Stage::PollBeforeTranslation => e matches RunEvent::Polled(m) && after_poll(
            m,
            n,
            a,
            s,
            n == moved(s, Stage::EnterQueued) && updates(
                a,
                Some(STATUS_RUNNING@),
                Some(ORIGINAL_STAGE_COMPLETED@),
                Some(TRANSLATION_STAGE_QUEUED@),
                Some(60),
                Some(""@),
                None,
            ),
        ),
        Stage::EnterQueued => if s.job.translator_engine@ == "llm"@ && trim(s.llm_key@).len() == 0 {
            failed_with(n, a, s, "未配置 LLM API Key：请在配置页保存密钥"@, true)
        } else {
            let phase = if s.job.translator_engine@ == "google_web"@ { "translate_google"@ } else { "translate_llm"@ };
            n == moved(s, Stage::EnterTranslating) && updates(
                a,
                Some(STATUS_RUNNING@),
                Some(ORIGINAL_STAGE_COMPLETED@),
                Some(TRANSLATION_STAGE_TRANSLATING@),
                Some(62),
                Some(phase),
                Some((62, phase)),
            )
        },
        Stage::EnterTranslating => n == moved(s, Stage::Translate) && a is Translate,
        Stage::Translate => match e {
            RunEvent::Translated(Ok((t, fb))) => {
                &&& n == RunState { stage: Stage::EnterTranslationExport, translated: t, any_fallback: fb, ..s }
                &&& updates(
                    a,
                    Some(STATUS_RUNNING@),
                    None,
                    Some(TRANSLATION_STAGE_EXPORTING@),
                    Some(90),
                    Some("export_srt"@),
                    Some((90, "export_srt"@)),
                )
            },
            RunEvent::Translated(Err(m)) => if m@ == PAUSE_MARKER@ {
                n == moved(s, Stage::Done) && a is PauseOrCancel
            } else {
                failed_with(n, a, s, m@, true)
            },
            _ => false,
        },
        Stage::EnterTranslationExport => if s.job.subtitle_mode@ == "dual_files"@ {
            match s.plan.dual_translated {
                None => failed_with(
                    n,
                    a,
                    s,
                    "Internal error: missing translated subtitle output path for dual_files mode"@,
                    true,
                ),
                Some(pb) => if s.cues@.len() != s.translated@.len() {
                    failed_with(
                        n,
                        a,
                        s,
                        count_mismatch(
                            "Source/translation cue count mismatch: "@,
                            s.cues@.len(),
                            s.translated@.len(),
                        ),
                        true,
                    )
                } else {
                    &&& n == RunState { stage: Stage::WriteTranslation, final_path: pb, ..s }
                    &&& writes(
                        a,
                        pb,
                        optimize_translated(translated_cues(cues_view(s.cues@), strings_view(s.translated@))),
                    )
                },
            }
        } else if s.job.subtitle_mode@ == "bilingual_single"@ {
            match s.plan.bilingual {
                None => failed_with(
                    n,
                    a,
                    s,
                    "Internal error: missing bilingual subtitle output path for bilingual_single mode"@,
                    true,
                ),
                Some(pb) => if s.cues@.len() != s.translated@.len() {
                    failed_with(
                        n,
                        a,
                        s,
                        count_mismatch("Bilingual cue count mismatch: "@, s.cues@.len(), s.translated@.len()),
                        true,
                    )
                } else {
                    &&& n == RunState { stage: Stage::WriteTranslation, final_path: pb, ..s }
                    &&& writes(a, pb, bilingual_optimized(cues_view(s.cues@), strings_view(s.translated@)))
                },
            }
        } else {
            finished(s, n, a)
        },
        Stage::WriteTranslation => match e {
            RunEvent::WriteFailed { creating_dir: true, error } => failed_with(
                n,
                a,
                s,
                "创建输出目录失败: "@ + error@,
                true,
            ),
            RunEvent::WriteFailed { creating_dir: false, error } => failed_with(
                n,
                a,
                s,
                (if s.job.subtitle_mode@ == "dual_files"@ { "写入译文字幕失败: "@ } else { "写入双语字幕失败: "@ })
                    + error@,
                true,
            ),
            _ => finished(s, n, a),
        },
        Stage::Done => false,
    }
}

// ---------------------------------------------------------------------------
// The steps
// ---------------------------------------------------------------------------

pub open spec fn text_view(o: Option<&str>) -> Option<Seq<char>> {
    match o {
        Some(t) => Some(t@),
        None => None,
    }
}

fn owned(o: Option<&str>) -> (r: Option<String>)
    ensures
        opt_seq(r) == text_view(o),
{
    match o {
        Some(t) => Some(t.to_string()),
        None => None,
    }
}

fn runtime_update(
    status: Option<&str>,
    original_stage: Option<&str>,
    translation_stage: Option<&str>,
    progress: Option<u8>,
    phase: Option<&str>,
) -> (r: RuntimeUpdate)
    ensures
        update_is(r, text_view(status), text_view(original_stage), text_view(translation_stage), progress, text_view(phase)),
{
    RuntimeUpdate {
        status: owned(status),
        original_stage: owned(original_stage),
        translation_stage: owned(translation_stage),
        progress,
        phase: owned(phase),
    }
}

fn update_action(
    status: Option<&str>,
    original_stage: Option<&str>,
    translation_stage: Option<&str>,
    progress: Option<u8>,
    phase: Option<&str>,
    report: Option<(u8, &str)>,
) -> (r: RunAction)
    ensures
        updates(
            r,
            text_view(status),
            text_view(original_stage),
            text_view(translation_stage),
            progress,
            text_view(phase),
            match report {
                Some((p, ph)) => Some((p, ph@)),
                None => None,
            },
        ),
{
    let update = runtime_update(status, original_stage, translation_stage, progress, phase);
    let report = match report {
        Some((p, ph)) => Some((p, ph.to_string())),
        None => None,
    };
    RunAction::Update { update, report }
}

fn enter_recognition(t: RunState) -> (r: (RunState, RunAction))
    ensures
        recognition_entered(t, r.0, r.1),
{
    let start = transcribe_start_progress(t.job.will_translate);
    let phase = recognition_phase(t.job.whisper_enable_vad);
    let a = update_action(
        Some(STATUS_RUNNING),
        Some(ORIGINAL_STAGE_TRANSCRIBING),
        None,
        Some(start),
        Some(phase),
        Some((start, phase)),
    );
    (RunState { stage: Stage::EnterRecognition, ..t }, a)
}

fn recognize(s: RunState) -> (r: (RunState, RunAction))
    ensures
        recognizing(s, r.0, r.1),
{
    let vad = match &s.vad_model {
        Some(m) => Some(
            VadArgs {
                model_path: m.clone(),
                threshold: s.vad_threshold.clone(),
                min_speech_ms: s.job.vad_min_speech_ms,
                min_silence_ms: s.job.vad_min_silence_ms,
                max_segment_ms: s.job.vad_max_segment_ms,
            },
        ),
        None => None,
    };
    assert(vad == vad_of(s));
    let force_cpu = !s.job.whisper_use_gpu;
    let srt_args = build_whisper_args(
        s.model_path.as_str(),
        s.wav_path.as_str(),
        s.job.recognition_lang.as_str(),
        s.threads,
        force_cpu,
        &vad,
        false,
        &None,
        false,
        "w",
    );
    let json_args = build_whisper_args(
        s.model_path.as_str(),
        s.wav_path.as_str(),
        s.job.recognition_lang.as_str(),
        s.threads,
        force_cpu,
        &vad,
        false,
        &None,
        true,
        "w",
    );
    let phase = recognition_phase(s.job.whisper_enable_vad).to_string();
    let peak = recognition_peak(s.job.will_translate, s.job.segmentation_strategy.as_str());
    let cli = s.whisper_cli.clone();
    let work_dir = s.tmp_root.clone();
    (RunState { stage: Stage::Recognize, ..s }, RunAction::Recognize { cli, work_dir, srt_args, json_args, phase, peak })
}

fn source_ready_step(t: RunState) -> (r: (RunState, RunAction))
    ensures
        source_ready(t, r.0, r.1),
{
    let cues = optimize_source_cues(&t.cues);
    let progress = transcribed_progress(t.job.will_translate);
    (
        RunState { stage: Stage::SourceReady, cues, ..t },
        RunAction::SetProgress { progress, phase: "transcribe".to_string() },
    )
}

fn after_key_step(t: RunState) -> (r: (RunState, RunAction))
    ensures
        after_key(t, r.0, r.1),
{
    if !str_eq(t.job.segmentation_strategy.as_str(), "disabled") {
        let p = segmenting_progress(t.job.will_translate);
        let a = update_action(
            Some(STATUS_RUNNING),
            Some(ORIGINAL_STAGE_SEGMENTING),
            None,
            Some(p),
            Some("segment_subtitles"),
            Some((p, "segment_subtitles")),
        );
        (RunState { stage: Stage::EnterSegmenting, ..t }, a)
    } else {
        source_ready_step(t)
    }
}

fn key_step_exec(t: RunState) -> (r: (RunState, RunAction))
    ensures
        key_step(t, r.0, r.1),
{
    if needs_llm_key(&t.job) {
        (RunState { stage: Stage::LoadKey, ..t }, RunAction::LoadKey)
    } else {
        after_key_step(RunState { llm_key: String::new(), ..t })
    }
}

fn original_export_step(t: RunState) -> (r: (RunState, RunAction))
    ensures
        original_export(t, r.0, r.1),
{
    let a = update_action(
        Some(STATUS_RUNNING),
        Some(ORIGINAL_STAGE_EXPORTING),
        None,
        Some(95),
        Some("export_srt"),
        Some((95, "export_srt")),
    );
    (RunState { stage: Stage::EnterOriginalExport, ..t }, a)
}

fn after_targets_step(t: RunState) -> (r: (RunState, RunAction))
    ensures
        after_targets(t, r.0, r.1),
{
    if str_eq(t.job.subtitle_mode.as_str(), "dual_files") {
        match &t.plan.dual_original {
            None => fail(t, "Internal error: missing original subtitle output path for dual_files mode".to_string(), true),
            Some(po) => {
                let final_path = po.clone();
                let a = update_action(
                    Some(STATUS_RUNNING),
                    Some(ORIGINAL_STAGE_EXPORTING),
                    Some(TRANSLATION_STAGE_WAITING_ORIGINAL),
                    None,
                    Some("export_srt"),
                    None,
                );
                (RunState { stage: Stage::EnterDualOriginal, final_path, ..t }, a)
            },
        }
    } else {
        (RunState { stage: Stage::PollBeforeTranslation, ..t }, RunAction::Poll)
    }
}

fn targets_step_exec(t: RunState) -> (r: (RunState, RunAction))
    ensures
        targets_step(t, r.0, r.1),
{
    if t.pending.len() > 0 {
        let p = t.pending[0].clone();
        (RunState { stage: Stage::CheckTargets, ..t }, RunAction::CheckFile(p))
    } else {
        after_targets_step(t)
    }
}

fn first_two(lines: &Vec<String>) -> (r: Vec<String>)
    ensures
        r@ == lead(lines@),
{
    let mut out: Vec<String> = Vec::new();
    let mut i: usize = 0;
    while i < lines.len() && i < 2
        invariant
            i <= lines.len(),
            i <= 2,
            out@ == lines@.take(i as int),
        decreases lines.len() - i,
    {
        out.push(lines[i].clone());
        assert(lines@.take(i + 1) =~= lines@.take(i as int).push(lines@[i as int]));
        i += 1;
    }
    assert(lines@.len() <= 2 ==> lines@.take(lines@.len() as int) =~= lines@);
    out
}

fn cue_texts(cues: &Vec<SubCue>) -> (r: Vec<String>)
    ensures
        r@ == cues@.map_values(|c: SubCue| c.text),
{
    let mut out: Vec<String> = Vec::new();
    let mut i: usize = 0;
    while i < cues.len()
        invariant
            i <= cues.len(),
            out@ == cues@.take(i as int).map_values(|c: SubCue| c.text),
        decreases cues.len() - i,
    {
        out.push(cues[i].text.clone());
        assert(cues@.take(i + 1).map_values(|c: SubCue| c.text) =~= cues@.take(i as int).map_values(
            |c: SubCue| c.text,
        ).push(cues@[i as int].text));
        i += 1;
    }
    assert(cues@.take(cues@.len() as int) =~= cues@);
    out
}

fn finish_step(s: RunState) -> (r: (RunState, RunAction))
    ensures
        finished(s, r.0, r.1),
{
    let original_preview = preview_text(&first_two(&cue_texts(&s.cues)));
    let translated_preview = preview_text(&first_two(&s.translated));
    let outputs = RunOutputs {
        original_preview,
        translated_preview,
        original_output_path: s.plan.dual_original.clone(),
        translated_output_path: s.plan.dual_translated.clone(),
        bilingual_output_path: s.plan.bilingual.clone(),
    };
    let note = fallback_note(s.any_fallback);
    (RunState { stage: Stage::Done, ..s }, RunAction::Finish { outputs, update: None, note })
}

fn cat3(a: &str, b: &str, c: &str) -> (r: String)
    ensures
        r@ == a@ + b@ + c@,
{
    let mut t = cat(a, b);
    push_str(&mut t, c);
    t
}

fn preparing(s: RunState, e: RunEvent) -> (r: (RunState, RunAction))
    requires
        answers(s.stage, e),
        s.stage == Stage::Begin || s.stage == Stage::CheckVideo || s.stage == Stage::MakeTemp || s.stage
            == Stage::PollAfterTemp || s.stage == Stage::FindFfmpeg || s.stage == Stage::Extract,
    ensures
        stepped(s, e, r.0, r.1),
{
    match s.stage {
        Stage::Begin => {
            let p = s.job.video_path.clone();
            (RunState { stage: Stage::CheckVideo, ..s }, RunAction::CheckFile(p))
        },
        Stage::CheckVideo => match e {
            RunEvent::Exists(true) => {
                let p = s.tmp_root.clone();
                (RunState { stage: Stage::MakeTemp, ..s }, RunAction::MakeTempDir(p))
            },
            _ => {
                let m = cat("视频文件不存在: ", s.job.video_path.as_str());
                fail(s, m, false)
            },
        },
        Stage::MakeTemp => match e {
            RunEvent::Failed(m) => fail(s, cat("创建临时目录失败: ", m.as_str()), false),
            _ => (RunState { stage: Stage::PollAfterTemp, ..s }, RunAction::Poll),
        },
        Stage::PollAfterTemp => match e {
            RunEvent::Polled(m) => match polled(s, m) {
                Ok(s) => {
                    let p = s.job.ffmpeg_path.clone();
                    (RunState { stage: Stage::FindFfmpeg, ..s }, RunAction::FindFfmpeg(p))
                },
                Err(r) => r,
            },
            _ => {
                proof {
                    assert(false);
                }
                fail(s, String::new(), false)
            },
        },
        Stage::FindFfmpeg => match e {
            RunEvent::Found(p) => {
                let a = RunAction::ExtractAudio {
                    ffmpeg: p.clone(),
                    video: s.job.video_path.clone(),
                    wav: s.wav_path.clone(),
                    progress: 10,
                };
                (RunState { stage: Stage::Extract, ffmpeg: p, ..s }, a)
            },
            RunEvent::Failed(m) => fail(s, m, false),
            _ => {
                proof {
                    assert(false);
                }
                fail(s, String::new(), false)
            },
        },
        _ => match e {
            RunEvent::Failed(m) => fail(s, m, true),
            _ => (RunState { stage: Stage::PollAfterExtract, ..s }, RunAction::Poll),
        },
    }
}

fn recognizing_steps(s: RunState, e: RunEvent) -> (r: (RunState, RunAction))
    requires
        answers(s.stage, e),
        s.stage == Stage::PollAfterExtract || s.stage == Stage::CheckModel || s.stage == Stage::InstallRuntime
            || s.stage == Stage::FindWhisper || s.stage == Stage::PrepareVad || s.stage == Stage::EnterRecognition
            || s.stage == Stage::PollBeforeRecognition || s.stage == Stage::Recognize,
    ensures
        stepped(s, e, r.0, r.1),
{
    match s.stage {
        Stage::PollAfterExtract => match e {
            RunEvent::Polled(m) => match polled(s, m) {
                Ok(s) => {
                    let id = trim_string(s.job.whisper_model.as_str());
                    match model_file_path(s.app_dir.as_str(), id.as_str()) {
                        Ok(p) => {
                            let q = p.clone();
                            (RunState { stage: Stage::CheckModel, model_path: p, ..s }, RunAction::CheckFile(q))
                        },
                        Err(m) => fail(s, m, true),
                    }
                },
                Err(r) => r,
            },
            _ => {
                proof {
                    assert(false);
                }
                fail(s, String::new(), false)
            },
        },
        Stage::CheckModel => match e {
            RunEvent::Exists(true) => if is_blank(s.job.whisper_cli_path.as_str()) {
                (RunState { stage: Stage::InstallRuntime, ..s }, RunAction::InstallRuntime)
            } else {
                let p = s.job.whisper_cli_path.clone();
                (RunState { stage: Stage::FindWhisper, ..s }, RunAction::FindWhisper(p))
            },
            _ => {
                let id = trim_string(s.job.whisper_model.as_str());
                let m = cat3(&cat("Whisper 模型未下载: ", id.as_str()), "（", s.model_path.as_str());
                let m = cat(m.as_str(), "）");
                fail(s, m, true)
            },
        },
        Stage::InstallRuntime => match e {
            RunEvent::Failed(m) => fail(s, cat("自动安装 Whisper CLI 失败: ", m.as_str()), true),
            _ => {
                let p = s.job.whisper_cli_path.clone();
                (RunState { stage: Stage::FindWhisper, ..s }, RunAction::FindWhisper(p))
            },
        },
        Stage::FindWhisper => match e {
            RunEvent::Found(p) => {
                let t = RunState { whisper_cli: p, ..s };
                if t.job.whisper_enable_vad {
                    (RunState { stage: Stage::PrepareVad, ..t }, RunAction::PrepareVad)
                } else {
                    enter_recognition(t)
                }
            },
            RunEvent::Failed(m) => fail(s, m, true),
            _ => {
                proof {
                    assert(false);
                }
                fail(s, String::new(), false)
            },
        },
        Stage::PrepareVad => match e {
            RunEvent::Found(p) => enter_recognition(RunState { vad_model: Some(p), ..s }),
            RunEvent::Failed(m) => fail(s, cat("准备 Whisper VAD 模型失败: ", m.as_str()), true),
            _ => {
                proof {
                    assert(false);
                }
                fail(s, String::new(), false)
            },
        },
        Stage::EnterRecognition => (RunState { stage: Stage::PollBeforeRecognition, ..s }, RunAction::Poll),
        Stage::PollBeforeRecognition => match e {
            RunEvent::Polled(m) => match polled(s, m) {
                Ok(s) => recognize(s),
                Err(r) => r,
            },
            _ => {
                proof {
                    assert(false);
                }
                fail(s, String::new(), false)
            },
        },
        _ => match e {
            RunEvent::Failed(m) => fail(s, m, true),
            _ => {
                let (srt, _json) = expected_whisper_sidecar_paths(s.w_prefix.as_str());
                (RunState { stage: Stage::CheckSrt, ..s }, RunAction::CheckFile(srt))
            },
        },
    }
}

fn reading_steps(s: RunState, e: RunEvent) -> (r: (RunState, RunAction))
    requires
        answers(s.stage, e),
        s.stage == Stage::CheckSrt || s.stage == Stage::ReadLanguage || s.stage == Stage::ReadSrt || s.stage
            == Stage::LoadKey,
    ensures
        stepped(s, e, r.0, r.1),
{
    let (srt, json) = expected_whisper_sidecar_paths(s.w_prefix.as_str());
    match s.stage {
        Stage::CheckSrt => match e {
            RunEvent::Exists(true) => match fixed_recognition_lang(s.job.recognition_lang.as_str()) {
                Some(l) => (RunState { stage: Stage::ReadSrt, lang_for_name: l, ..s }, RunAction::ReadFile(srt)),
                None => (RunState { stage: Stage::ReadLanguage, ..s }, RunAction::ReadFile(json)),
            },
            _ => fail(s, "Whisper 未生成 SRT 文件（请确认 whisper.cpp 版本支持 -osrt）".to_string(), true),
        },
        Stage::ReadLanguage => match e {
            RunEvent::Read(r) => {
                let raw = match &r {
                    Ok(t) => Some(t.as_str()),
                    Err(_) => None,
                };
                let l = language_from_whisper_json(raw, "und");
                (RunState { stage: Stage::ReadSrt, lang_for_name: l, ..s }, RunAction::ReadFile(srt))
            },
            _ => {
                proof {
                    assert(false);
                }
                fail(s, String::new(), false)
            },
        },
        Stage::ReadSrt => match e {
            RunEvent::Read(Ok(text)) => match parse_srt(text.as_str()) {
                Ok(cues) => {
                    let ghost c = cues;
                    let ghost s0 = s;
                    let r = key_step_exec(RunState { cues, ..s });
                    assert(key_step(RunState { cues: c, ..s0 }, r.0, r.1));
                    r
                },
                Err(m) => fail(s, m, true),
            },
            RunEvent::Read(Err(m)) => fail(s, cat("读取临时 SRT 失败: ", m.as_str()), true),
            _ => {
                proof {
                    assert(false);
                }
                fail(s, String::new(), false)
            },
        },
        _ => match e {
            RunEvent::Found(k) => {
                let key = trim_string(k.as_str());
                after_key_step(RunState { llm_key: key, ..s })
            },
            RunEvent::Failed(m) => fail(s, m, true),
            _ => {
                proof {
                    assert(false);
                }
                fail(s, String::new(), false)
            },
        },
    }
}

fn planned_paths(plan: &OutputPlan) -> (r: Vec<String>)
    ensures
        strings_view(r@) == planned(opt_seq(plan.dual_original), opt_seq(plan.dual_translated), opt_seq(plan.bilingual)),
{
    let mut out: Vec<String> = Vec::new();
    match &plan.dual_original {
        Some(p) => out.push(p.clone()),
        None => {},
    }
    assert(strings_view(out@) =~= (if plan.dual_original is Some { seq![plan.dual_original->0@] } else { seq![] }));
    let ghost o1 = out@;
    match &plan.dual_translated {
        Some(p) => out.push(p.clone()),
        None => {},
    }
    assert(strings_view(out@) =~= strings_view(o1) + (if plan.dual_translated is Some {
        seq![plan.dual_translated->0@]
    } else {
        seq![]
    }));
    let ghost o2 = out@;
    match &plan.bilingual {
        Some(p) => out.push(p.clone()),
        None => {},
    }
    assert(strings_view(out@) =~= strings_view(o2) + (if plan.bilingual is Some {
        seq![plan.bilingual->0@]
    } else {
        seq![]
    }));
    out
}

fn segmenting_steps(s: RunState, e: RunEvent) -> (r: (RunState, RunAction))
    requires
        answers(s.stage, e),
        s.stage == Stage::EnterSegmenting || s.stage == Stage::Segment || s.stage == Stage::SaveNote || s.stage
            == Stage::PollAfterSegment,
    ensures
        stepped(s, e, r.0, r.1),
{
    match s.stage {
        Stage::EnterSegmenting => {
            let (_srt, json) = expected_whisper_sidecar_paths(s.w_prefix.as_str());
            let json_path = if str_eq(s.job.segmentation_timing_mode.as_str(), "word_timestamps_first") {
                Some(json)
            } else {
                None
            };
            (RunState { stage: Stage::Segment, ..s }, RunAction::FetchSegmentation { json_path })
        },
        Stage::Segment => match e {
            RunEvent::SegmentInputs { units, replies } => {
                let out = {
                    let job = segmentation_job(&s);
                    segment_cues_checked(&job, s.cues.as_slice(), units.as_slice(), replies.as_slice())
                };
                match out {
                    None => (
                        RunState { stage: Stage::Done, ..s },
                        RunAction::Unrecoverable(
                            "subtitle segmentation: a reply or a timing cannot be applied to its cue".to_string(),
                        ),
                    ),
                    Some(Err(m)) => fail(s, m, true),
                    Some(Ok(res)) => (
                        RunState { stage: Stage::SaveNote, cues: res.cues, ..s },
                        RunAction::SaveNote(res.note),
                    ),
                }
            },
            RunEvent::Failed(m) => fail(s, cat("HTTP 客户端初始化失败: ", m.as_str()), true),
            _ => {
                proof {
                    assert(false);
                }
                fail(s, String::new(), false)
            },
        },
        Stage::SaveNote => (RunState { stage: Stage::PollAfterSegment, ..s }, RunAction::Poll),
        _ => match e {
            RunEvent::Polled(m) => match polled(s, m) {
                Ok(s) => source_ready_step(s),
                Err(r) => r,
            },
            _ => {
                proof {
                    assert(false);
                }
                fail(s, String::new(), false)
            },
        },
    }
}

fn original_steps(s: RunState, e: RunEvent) -> (r: (RunState, RunAction))
    requires
        answers(s.stage, e),
        s.stage == Stage::SourceReady || s.stage == Stage::CheckOriginal || s.stage == Stage::EnterOriginalExport
            || s.stage == Stage::WriteOriginal,
    ensures
        stepped(s, e, r.0, r.1),
{
    match s.stage {
        Stage::SourceReady => if !s.job.will_translate {
            let resolved = resolve_original_srt_path(
                s.job.video_path.as_str(),
                s.job.video_path.as_str(),
                s.job.output_dir_mode.as_str(),
                s.job.custom_output_dir.as_str(),
                s.lang_for_name.as_str(),
            );
            match resolved {
                Ok(p) => {
                    let t = RunState { final_path: p, ..s };
                    if t.job.subtitle_overwrite {
                        original_export_step(t)
                    } else {
                        let q = t.final_path.clone();
                        (RunState { stage: Stage::CheckOriginal, ..t }, RunAction::CheckFile(q))
                    }
                },
                Err(m) => fail(s, m, true),
            }
        } else {
            let src = source_file_lang(s.job.translate_source_lang.as_str(), s.lang_for_name.as_str());
            match plan_translation_outputs(&s.job, src.as_str()) {
                Ok(plan) => {
                    let pending = if s.job.subtitle_overwrite {
                        Vec::new()
                    } else {
                        planned_paths(&plan)
                    };
                    assert(s.job.subtitle_overwrite ==> strings_view(pending@) =~= seq![]);
                    targets_step_exec(RunState { plan, pending, ..s })
                },
                Err(m) => fail(s, m, true),
            }
        },
        Stage::CheckOriginal => match e {
            RunEvent::Exists(false) => original_export_step(s),
            _ => {
                let m = exists_no_overwrite_message(s.final_path.as_str());
                fail(s, m, true)
            },
        },
        Stage::EnterOriginalExport => {
            let path = s.final_path.clone();
            let cues = clone_cues(&s.cues);
            (RunState { stage: Stage::WriteOriginal, ..s }, RunAction::WriteSrt { path, cues })
        },
        _ => match e {
            RunEvent::WriteFailed { creating_dir: true, error } => fail(s, cat("创建输出目录失败: ", error.as_str()), true),
            RunEvent::WriteFailed { creating_dir: false, error } => {
                let m = cat3(&cat("写入字幕失败: ", error.as_str()), "（", s.final_path.as_str());
                fail(s, cat(m.as_str(), "）"), true)
            },
            _ => {
                let outputs = RunOutputs {
                    original_preview: preview_text(&first_two(&cue_texts(&s.cues))),
                    translated_preview: None,
                    original_output_path: Some(s.final_path.clone()),
                    translated_output_path: None,
                    bilingual_output_path: None,
                };
                let update = runtime_update(
                    Some(STATUS_COMPLETED),
                    Some(ORIGINAL_STAGE_COMPLETED),
                    Some(TRANSLATION_STAGE_NOT_REQUIRED),
                    Some(100),
                    Some(""),
                );
                (
                    RunState { stage: Stage::Done, ..s },
                    RunAction::Finish { outputs, update: Some(update), note: None },
                )
            },
        },
    }
}

fn translating_steps(s: RunState, e: RunEvent) -> (r: (RunState, RunAction))
    requires
        answers(s.stage, e),
        s.stage == Stage::CheckTargets || s.stage == Stage::EnterDualOriginal || s.stage == Stage::WriteDualOriginal
            || s.stage == Stage::PollBeforeTranslation || s.stage == Stage::EnterQueued || s.stage
            == Stage::EnterTranslating || s.stage == Stage::Translate,
    ensures
        stepped(s, e, r.0, r.1),
{
    match s.stage {
        Stage::CheckTargets => if s.pending.len() == 0 {
            after_targets_step(s)
        } else {
            match e {
                RunEvent::Exists(false) => {
                    let mut s = s;
                    let _checked = s.pending.remove(0);
                    targets_step_exec(s)
                },
                _ => {
                    let m = exists_no_overwrite_message(s.pending[0].as_str());
                    fail(s, m, true)
                },
            }
        },
        Stage::EnterDualOriginal => {
            let path = s.final_path.clone();
            let cues = clone_cues(&s.cues);
            (RunState { stage: Stage::WriteDualOriginal, ..s }, RunAction::WriteSrt { path, cues })
        },
        Stage::WriteDualOriginal => match e {
            RunEvent::WriteFailed { creating_dir: true, error } => fail(s, cat("创建输出目录失败: ", error.as_str()), true),
            RunEvent::WriteFailed { creating_dir: false, error } => fail(s, cat("写入原文字幕失败: ", error.as_str()), true),
            _ => (RunState { stage: Stage::PollBeforeTranslation, ..s }, RunAction::Poll),
        },
        Stage::PollBeforeTranslation => match e {
            RunEvent::Polled(m) => match polled(s, m) {
                Ok(s) => {
                    let a = update_action(
                        Some(STATUS_RUNNING),
                        Some(ORIGINAL_STAGE_COMPLETED),
                        Some(TRANSLATION_STAGE_QUEUED),
                        Some(60),
                        Some(""),
                        None,
                    );
                    (RunState { stage: Stage::EnterQueued, ..s }, a)
                },
                Err(r) => r,
            },
            _ => {
                proof {
                    assert(false);
                }
                fail(s, String::new(), false)
            },
        },
        Stage::EnterQueued => if str_eq(s.job.translator_engine.as_str(), "llm") && is_blank(s.llm_key.as_str()) {
            fail(s, "未配置 LLM API Key：请在配置页保存密钥".to_string(), true)
        } else {
            let phase = translation_phase(s.job.translator_engine.as_str());
            let a = update_action(
                Some(STATUS_RUNNING),
                Some(ORIGINAL_STAGE_COMPLETED),
                Some(TRANSLATION_STAGE_TRANSLATING),
                Some(62),
                Some(phase),
                Some((62, phase)),
            );
            (RunState { stage: Stage::EnterTranslating, ..s }, a)
        },
        Stage::EnterTranslating => (RunState { stage: Stage::Translate, ..s }, RunAction::Translate),
        _ => match e {
            RunEvent::Translated(Ok((translated, any_fallback))) => {
                let a = update_action(
                    Some(STATUS_RUNNING),
                    None,
                    Some(TRANSLATION_STAGE_EXPORTING),
                    Some(90),
                    Some("export_srt"),
                    Some((90, "export_srt")),
                );
                (RunState { stage: Stage::EnterTranslationExport, translated, any_fallback, ..s }, a)
            },
            RunEvent::Translated(Err(m)) => if str_eq(m.as_str(), PAUSE_MARKER) {
                (RunState { stage: Stage::Done, ..s }, RunAction::PauseOrCancel)
            } else {
                fail(s, m, true)
            },
            _ => {
                proof {
                    assert(false);
                }
                fail(s, String::new(), false)
            },
        },
    }
}

fn exporting_steps(s: RunState, e: RunEvent) -> (r: (RunState, RunAction))
    requires
        answers(s.stage, e),
        s.stage == Stage::EnterTranslationExport || s.stage == Stage::WriteTranslation,
    ensures
        stepped(s, e, r.0, r.1),
{
    let dual = str_eq(s.job.subtitle_mode.as_str(), "dual_files");
    match s.stage {
        Stage::EnterTranslationExport => if dual {
            match &s.plan.dual_translated {
                None => fail(
                    s,
                    "Internal error: missing translated subtitle output path for dual_files mode".to_string(),
                    true,
                ),
                Some(pb) => {
                    let path = pb.clone();
                    match build_translated_cues(&s.cues, &s.translated) {
                        Err(m) => fail(s, m, true),
                        Ok(tc) => {
                            let cues = optimize_translated_cues(&tc);
                            (
                                RunState { stage: Stage::WriteTranslation, final_path: path.clone(), ..s },
                                RunAction::WriteSrt { path, cues },
                            )
                        },
                    }
                },
            }
        } else if str_eq(s.job.subtitle_mode.as_str(), "bilingual_single") {
            match &s.plan.bilingual {
                None => fail(
                    s,
                    "Internal error: missing bilingual subtitle output path for bilingual_single mode".to_string(),
                    true,
                ),
                Some(pb) => {
                    let path = pb.clone();
                    match build_bilingual_cues_optimized(&s.cues, &s.translated) {
                        Err(m) => fail(s, m, true),
                        Ok(cues) => (
                            RunState { stage: Stage::WriteTranslation, final_path: path.clone(), ..s },
                            RunAction::WriteSrt { path, cues },
                        ),
                    }
                },
            }
        } else {
            finish_step(s)
        },
        _ => match e {
            RunEvent::WriteFailed { creating_dir: true, error } => fail(s, cat("创建输出目录失败: ", error.as_str()), true),
            RunEvent::WriteFailed { creating_dir: false, error } => {
                let head = if dual {
                    "写入译文字幕失败: "
                } else {
                    "写入双语字幕失败: "
                };
                fail(s, cat(head, error.as_str()), true)
            },
            _ => finish_step(s),
        },
    }
}

/// The action closes the run: it completes, fails, pauses or drops the task,
/// or stops.
pub open spec fn ends_run(a: RunAction) -> bool {
    ||| a is Finish
    ||| a is Fail
    ||| a is Pause
    ||| a is Cancel
    ||| a is PauseOrCancel
    ||| a is Unrecoverable
}

/// One step of a run: what the stage does with the outcome of the action
/// it waited for, and the next action.
pub fn step(s: RunState, e: RunEvent) -> (r: (RunState, RunAction))
    requires
        answers(s.stage, e),
    ensures
        stepped(s, e, r.0, r.1),
        r.0.stage == Stage::Done <==> ends_run(r.1),
{
    match s.stage {
        Stage::Begin | Stage::CheckVideo | Stage::MakeTemp | Stage::PollAfterTemp | Stage::FindFfmpeg
        | Stage::Extract => preparing(s, e),
        Stage::PollAfterExtract | Stage::CheckModel | Stage::InstallRuntime | Stage::FindWhisper | Stage::PrepareVad
        | Stage::EnterRecognition | Stage::PollBeforeRecognition | Stage::Recognize => recognizing_steps(s, e),
        Stage::CheckSrt | Stage::ReadLanguage | Stage::ReadSrt | Stage::LoadKey => reading_steps(s, e),
        Stage::EnterSegmenting | Stage::Segment | Stage::SaveNote | Stage::PollAfterSegment => segmenting_steps(s, e),
        Stage::SourceReady | Stage::CheckOriginal | Stage::EnterOriginalExport | Stage::WriteOriginal => original_steps(
            s,
            e,
        ),
        Stage::CheckTargets | Stage::EnterDualOriginal | Stage::WriteDualOriginal | Stage::PollBeforeTranslation
        | Stage::EnterQueued | Stage::EnterTranslating | Stage::Translate => translating_steps(s, e),
        Stage::EnterTranslationExport | Stage::WriteTranslation => exporting_steps(s, e),
        Stage::Done => {
            proof {
                assert(false);
            }
            fail(s, String::new(), false)
        },
    }
}

} // verus!
