//! What one run of a task works with and how its record follows it: the
//! settings taken from the task's snapshot or the current configuration,
//! the progress shown at each step, the output files planned, and the
//! updates written to the record as the run goes.
use vstd::prelude::*;

use crate::config::{AppConfig, GlossaryEntry};
use crate::paths::{bilingual_srt_path, original_srt_path, resolve_bilingual_srt_path, resolve_original_srt_path};
use crate::task::{normalized, TaskRecord, TaskStoreFile};
use crate::task_ops::{find_task, position_of, replaced_at, unchanged};
use crate::text::{chars_of, is_blank, is_empty_text, lower_seq, lower_vec, push_str, str_eq, trim, trim_string};

verus! {

// ---------------------------------------------------------------------------
// The job
// ---------------------------------------------------------------------------

/// The settings one run works with. `vad_threshold_bits` is the `f32`
/// threshold.
pub struct JobSnapshot {
    pub video_path: String,
    pub whisper_model: String,
    pub recognition_lang: String,
    pub whisper_use_gpu: bool,
    pub whisper_enable_vad: bool,
    pub vad_threshold_bits: u32,
    pub vad_min_speech_ms: u32,
    pub vad_min_silence_ms: u32,
    pub vad_max_segment_ms: u32,
    pub subtitle_overwrite: bool,
    pub output_dir_mode: String,
    pub custom_output_dir: String,
    pub ffmpeg_path: String,
    pub whisper_cli_path: String,
    pub cpu_thread_limit: u32,
    pub will_translate: bool,
    pub translator_engine: String,
    pub subtitle_mode: String,
    pub translate_source_lang: String,
    pub translate_target_lang: String,
    pub segmentation_strategy: String,
    pub segmentation_timing_mode: String,
    pub segmentation_max_chars: u32,
    pub segmentation_max_duration_ms: u32,
    pub translator_provider_url: String,
    pub translator_use_proxy: bool,
    pub llm_base_url: String,
    pub llm_model: String,
    pub llm_timeout_sec: u64,
    pub llm_max_retries: u32,
    pub translator_min_interval_ms: u64,
    pub translate_style: String,
    pub translate_max_segment_chars: u32,
    pub keep_proper_nouns: bool,
    pub glossary_case_sensitive: bool,
    pub glossary: Vec<GlossaryEntry>,
    pub translate_concurrency: u32,
}

/// The snapshot's text where there is a snapshot and the text is not blank,
/// else the setting's.
pub open spec fn pick_nonblank(snap: bool, s: Seq<char>, c: Seq<char>) -> Seq<char> {
    if snap && trim(s).len() > 0 {
        s
    } else {
        c
    }
}

/// The snapshot's text where there is a snapshot and the text is not
/// empty, else the setting's.
pub open spec fn pick_nonempty(snap: bool, s: Seq<char>, c: Seq<char>) -> Seq<char> {
    if snap && s.len() > 0 {
        s
    } else {
        c
    }
}

/// The snapshot's number where there is a snapshot and it is positive, else
/// the setting's.
pub open spec fn pick_positive(snap: bool, s: u32, c: u32) -> u32 {
    if snap && s > 0 {
        s
    } else {
        c
    }
}

/// An `f32` bit pattern greater than zero: positive and not NaN (positive
/// infinity included).
pub open spec fn f32_positive(bits: u32) -> bool {
    0 < bits <= 0x7F80_0000
}

pub open spec fn glossary_view(g: Seq<GlossaryEntry>) -> Seq<(Seq<char>, Seq<char>, Seq<char>)> {
    g.map_values(|e: GlossaryEntry| (e.source@, e.target@, e.note@))
}

/// The job a run takes from task `t` of the store: where the task holds a
/// snapshot (its Whisper model is set), the snapshot's values where they
/// are set, else the current settings. `cfg_max_duration_ms` is the
/// configured segment length limit in whole milliseconds, and
/// `snapshot_glossary` the glossary read from the snapshot's JSON.
pub open spec fn job_of(
    j: JobSnapshot,
    t: TaskRecord,
    store: TaskStoreFile,
    cfg: AppConfig,
    cfg_max_duration_ms: u32,
    snapshot_glossary: Seq<GlossaryEntry>,
) -> bool {
    let snap = trim(t.snapshot_whisper_model@).len() > 0;
    let own_dir = snap && t.snapshot_output_dir_mode@.len() > 0;
    &&& j.video_path@ == t.video_path@
    &&& j.whisper_model@ == if snap {
        t.snapshot_whisper_model@
    } else {
        cfg.whisper.model@
    }
    &&& j.recognition_lang@ == if snap {
        t.snapshot_recognition_lang@
    } else {
        cfg.whisper.recognition_lang@
    }
    &&& j.whisper_use_gpu == if snap {
        t.snapshot_whisper_use_gpu
    } else {
        cfg.whisper.use_gpu
    }
    &&& j.whisper_enable_vad == if snap {
        t.snapshot_enable_vad
    } else {
        cfg.whisper.enable_vad
    }
    &&& j.vad_threshold_bits == if snap && f32_positive(t.snapshot_vad_threshold_bits) {
        t.snapshot_vad_threshold_bits
    } else {
        cfg.whisper.vad_threshold_bits
    }
    &&& j.vad_min_speech_ms == pick_positive(snap, t.snapshot_vad_min_speech_ms, cfg.whisper.vad_min_speech_ms)
    &&& j.vad_min_silence_ms == pick_positive(snap, t.snapshot_vad_min_silence_ms, cfg.whisper.vad_min_silence_ms)
    &&& j.vad_max_segment_ms == pick_positive(snap, t.snapshot_vad_max_segment_ms, cfg.whisper.vad_max_segment_ms)
    &&& j.subtitle_overwrite == if snap {
        t.snapshot_subtitle_overwrite
    } else {
        cfg.subtitle.overwrite
    }
    &&& j.output_dir_mode@ == if own_dir {
        t.snapshot_output_dir_mode@
    } else {
        store.output_dir_mode@
    }
    &&& j.custom_output_dir@ == if own_dir {
        t.snapshot_custom_output_dir@
    } else {
        store.custom_output_dir@
    }
    &&& j.ffmpeg_path@ == pick_nonblank(snap, t.snapshot_ffmpeg_path@, cfg.whisper.ffmpeg_path@)
    &&& j.whisper_cli_path@ == pick_nonblank(snap, t.snapshot_whisper_cli_path@, cfg.whisper.whisper_cli_path@)
    &&& j.cpu_thread_limit == pick_positive(snap, t.snapshot_cpu_thread_limit, cfg.runtime.cpu_thread_limit)
    &&& j.will_translate == t.will_translate
    &&& j.translator_engine@ == t.translator_engine_snapshot@
    &&& j.subtitle_mode@ == t.subtitle_mode_snapshot@
    &&& j.translate_source_lang@ == t.translate_source_lang_snapshot@
    &&& j.translate_target_lang@ == t.translate_target_lang_snapshot@
    &&& j.segmentation_strategy@ == pick_nonempty(snap, t.segmentation_strategy_snapshot@, cfg.segmentation.strategy@)
    &&& j.segmentation_timing_mode@ == pick_nonempty(
        snap,
        t.segmentation_timing_mode_snapshot@,
        cfg.segmentation.timing_mode@,
    )
    &&& j.segmentation_max_chars == pick_positive(
        snap,
        t.snapshot_segmentation_max_chars,
        cfg.segmentation.max_chars_per_segment,
    )
    &&& j.segmentation_max_duration_ms == pick_positive(
        snap,
        t.snapshot_segmentation_max_duration_ms,
        cfg_max_duration_ms,
    )
    &&& j.translator_provider_url@ == pick_nonblank(
        snap,
        t.snapshot_translator_provider_url@,
        cfg.translator.provider_url@,
    )
    &&& j.translator_use_proxy == if snap {
        t.snapshot_translator_use_proxy
    } else {
        cfg.translator.use_proxy
    }
    &&& j.llm_base_url@ == pick_nonblank(snap, t.snapshot_llm_base_url@, cfg.llm.base_url@)
    &&& j.llm_model@ == pick_nonblank(snap, t.snapshot_llm_model@, cfg.llm.model@)
    &&& j.llm_timeout_sec == pick_positive(snap, t.snapshot_llm_timeout_sec, cfg.llm.timeout_sec)
    &&& j.llm_max_retries == pick_positive(snap, t.snapshot_llm_max_retries, cfg.llm.max_retries)
    &&& j.translator_min_interval_ms == pick_positive(
        snap,
        t.snapshot_translator_min_interval_ms,
        cfg.translator.min_request_interval_ms,
    )
    &&& j.translate_style@ == pick_nonempty(snap, t.snapshot_translate_style@, cfg.translate.style@)
    &&& j.translate_max_segment_chars == pick_positive(
        snap,
        t.snapshot_translate_max_segment_chars,
        cfg.translate.max_segment_chars,
    )
    &&& j.keep_proper_nouns == if snap {
        t.snapshot_keep_proper_nouns
    } else {
        cfg.translate.keep_proper_nouns_in_source
    }
    &&& j.glossary_case_sensitive == if snap {
        t.snapshot_glossary_case_sensitive
    } else {
        cfg.translate.glossary_case_sensitive
    }
    &&& glossary_view(j.glossary@) == if snap && trim(t.snapshot_translate_glossary_json@).len() > 0 {
        glossary_view(snapshot_glossary)
    } else {
        glossary_view(cfg.translate.glossary@)
    }
    &&& j.translate_concurrency == pick_positive(
        snap,
        t.snapshot_llm_translate_concurrency,
        cfg.llm.translate_concurrency,
    )
}

fn pick_text(snap: bool, s: &String, c: &String, nonblank: bool) -> (r: String)
    ensures
        r@ == if nonblank {
            pick_nonblank(snap, s@, c@)
        } else {
            pick_nonempty(snap, s@, c@)
        },
{
    let take = snap && if nonblank {
        !is_blank(s.as_str())
    } else {
        !is_empty_text(s.as_str())
    };
    if take {
        s.clone()
    } else {
        c.clone()
    }
}

fn pick_u32(snap: bool, s: u32, c: u32) -> (r: u32)
    ensures
        r == pick_positive(snap, s, c),
{
    if snap && s > 0 {
        s
    } else {
        c
    }
}

fn clone_glossary(g: &Vec<GlossaryEntry>) -> (r: Vec<GlossaryEntry>)
    ensures
        glossary_view(r@) == glossary_view(g@),
{
    let mut out: Vec<GlossaryEntry> = Vec::new();
    let mut i: usize = 0;
    while i < g.len()
        invariant
            i <= g@.len(),
            glossary_view(out@) == glossary_view(g@.subrange(0, i as int)),
        decreases g.len() - i,
    {
        let e = &g[i];
        let ghost before = out@;
        out.push(GlossaryEntry { source: e.source.clone(), target: e.target.clone(), note: e.note.clone() });
        assert(glossary_view(out@) =~= glossary_view(before).push((e.source@, e.target@, e.note@)));
        assert(g@.subrange(0, i + 1) =~= g@.subrange(0, i as int).push(g@[i as int]));
        assert(glossary_view(out@) =~= glossary_view(g@.subrange(0, i + 1)));
        i += 1;
    }
    assert(g@.subrange(0, g@.len() as int) =~= g@);
    out
}

fn job_from_task(
    t: &TaskRecord,
    store_mode: &String,
    store_custom: &String,
    cfg: &AppConfig,
    cfg_max_duration_ms: u32,
    snapshot_glossary: &Vec<GlossaryEntry>,
) -> (r: JobSnapshot)
    ensures
        forall|s: TaskStoreFile|
            s.output_dir_mode@ == store_mode@ && s.custom_output_dir@ == store_custom@ ==> job_of(
                r,
                *t,
                s,
                *cfg,
                cfg_max_duration_ms,
                snapshot_glossary@,
            ),
{
    let snap = !is_blank(t.snapshot_whisper_model.as_str());
    let own_dir = snap && !is_empty_text(t.snapshot_output_dir_mode.as_str());
    let (mode, custom) = if own_dir {
        (t.snapshot_output_dir_mode.clone(), t.snapshot_custom_output_dir.clone())
    } else {
        (store_mode.clone(), store_custom.clone())
    };
    let glossary = if snap && !is_blank(t.snapshot_translate_glossary_json.as_str()) {
        clone_glossary(snapshot_glossary)
    } else {
        clone_glossary(&cfg.translate.glossary)
    };
    let th = t.snapshot_vad_threshold_bits;
    JobSnapshot {
        video_path: t.video_path.clone(),
        whisper_model: if snap {
            t.snapshot_whisper_model.clone()
        } else {
            cfg.whisper.model.clone()
        },
        recognition_lang: if snap {
            t.snapshot_recognition_lang.clone()
        } else {
            cfg.whisper.recognition_lang.clone()
        },
        whisper_use_gpu: if snap {
            t.snapshot_whisper_use_gpu
        } else {
            cfg.whisper.use_gpu
        },
        whisper_enable_vad: if snap {
            t.snapshot_enable_vad
        } else {
            cfg.whisper.enable_vad
        },
        vad_threshold_bits: if snap && 0 < th && th <= 0x7F80_0000 {
            th
        } else {
            cfg.whisper.vad_threshold_bits
        },
        vad_min_speech_ms: pick_u32(snap, t.snapshot_vad_min_speech_ms, cfg.whisper.vad_min_speech_ms),
        vad_min_silence_ms: pick_u32(snap, t.snapshot_vad_min_silence_ms, cfg.whisper.vad_min_silence_ms),
        vad_max_segment_ms: pick_u32(snap, t.snapshot_vad_max_segment_ms, cfg.whisper.vad_max_segment_ms),
        subtitle_overwrite: if snap {
            t.snapshot_subtitle_overwrite
        } else {
            cfg.subtitle.overwrite
        },
        output_dir_mode: mode,
        custom_output_dir: custom,
        ffmpeg_path: pick_text(snap, &t.snapshot_ffmpeg_path, &cfg.whisper.ffmpeg_path, true),
        whisper_cli_path: pick_text(snap, &t.snapshot_whisper_cli_path, &cfg.whisper.whisper_cli_path, true),
        cpu_thread_limit: pick_u32(snap, t.snapshot_cpu_thread_limit, cfg.runtime.cpu_thread_limit),
        will_translate: t.will_translate,
        translator_engine: t.translator_engine_snapshot.clone(),
        subtitle_mode: t.subtitle_mode_snapshot.clone(),
        translate_source_lang: t.translate_source_lang_snapshot.clone(),
        translate_target_lang: t.translate_target_lang_snapshot.clone(),
        segmentation_strategy: pick_text(snap, &t.segmentation_strategy_snapshot, &cfg.segmentation.strategy, false),
        segmentation_timing_mode: pick_text(
            snap,
            &t.segmentation_timing_mode_snapshot,
            &cfg.segmentation.timing_mode,
            false,
        ),
        segmentation_max_chars: pick_u32(
            snap,
            t.snapshot_segmentation_max_chars,
            cfg.segmentation.max_chars_per_segment,
        ),
        segmentation_max_duration_ms: pick_u32(snap, t.snapshot_segmentation_max_duration_ms, cfg_max_duration_ms),
        translator_provider_url: pick_text(
            snap,
            &t.snapshot_translator_provider_url,
            &cfg.translator.provider_url,
            true,
        ),
        translator_use_proxy: if snap {
            t.snapshot_translator_use_proxy
        } else {
            cfg.translator.use_proxy
        },
        llm_base_url: pick_text(snap, &t.snapshot_llm_base_url, &cfg.llm.base_url, true),
        llm_model: pick_text(snap, &t.snapshot_llm_model, &cfg.llm.model, true),
        llm_timeout_sec: pick_u32(snap, t.snapshot_llm_timeout_sec, cfg.llm.timeout_sec) as u64,
        llm_max_retries: pick_u32(snap, t.snapshot_llm_max_retries, cfg.llm.max_retries),
        translator_min_interval_ms: pick_u32(
            snap,
            t.snapshot_translator_min_interval_ms,
            cfg.translator.min_request_interval_ms,
        ) as u64,
        translate_style: pick_text(snap, &t.snapshot_translate_style, &cfg.translate.style, false),
        translate_max_segment_chars: pick_u32(
            snap,
            t.snapshot_translate_max_segment_chars,
            cfg.translate.max_segment_chars,
        ),
        keep_proper_nouns: if snap {
            t.snapshot_keep_proper_nouns
        } else {
            cfg.translate.keep_proper_nouns_in_source
        },
        glossary_case_sensitive: if snap {
            t.snapshot_glossary_case_sensitive
        } else {
            cfg.translate.glossary_case_sensitive
        },
        glossary,
        translate_concurrency: pick_u32(
            snap,
            t.snapshot_llm_translate_concurrency,
            cfg.llm.translate_concurrency,
        ),
    }
}

/// The job for the task with this id, or nothing where it is no longer
/// listed.
pub fn load_job(
    store: &TaskStoreFile,
    task_id: &str,
    cfg: &AppConfig,
    cfg_max_duration_ms: u32,
    snapshot_glossary: &Vec<GlossaryEntry>,
) -> (r: Option<JobSnapshot>)
    ensures
        match find_task(store.tasks@, task_id@) {
            None => r is None,
            Some(i) => r matches Some(j) && job_of(
                j,
                store.tasks@[i],
                *store,
                *cfg,
                cfg_max_duration_ms,
                snapshot_glossary@,
            ),
        },
{
    match position_of(&store.tasks, task_id) {
        None => None,
        Some(i) => Some(
            job_from_task(
                &store.tasks[i],
                &store.output_dir_mode,
                &store.custom_output_dir,
                cfg,
                cfg_max_duration_ms,
                snapshot_glossary,
            ),
        ),
    }
}

// ---------------------------------------------------------------------------
// Threads and progress
// ---------------------------------------------------------------------------

/// Recognition threads: the snapshot's limit or else the configured one (at
/// least 1), no more than the available cores (8 where unknown).
pub open spec fn threads_for(snap_lim: u32, cfg_lim: u32, cores: Option<u32>) -> int {
    let lim = if snap_lim > 0 {
        snap_lim as int
    } else if cfg_lim > 0 {
        cfg_lim as int
    } else {
        1
    };
    let sys = match cores {
        Some(n) => if n == 0 {
            1
        } else {
            n as int
        },
        None => 8,
    };
    if lim < sys {
        lim
    } else {
        sys
    }
}

pub fn effective_threads(snap_lim: u32, cfg_lim: u32, available_cores: Option<u32>) -> (r: u32)
    ensures
        r == threads_for(snap_lim, cfg_lim, available_cores),
        r >= 1,
{
    let l = if snap_lim > 0 {
        snap_lim
    } else {
        cfg_lim
    };
    let lim = if l < 1 {
        1
    } else {
        l
    };
    let sys = match available_cores {
        Some(n) => if n == 0 {
            1
        } else {
            n
        },
        None => 8,
    };
    if lim < sys {
        lim
    } else {
        sys
    }
}

/// The progress at which recognition starts.
pub fn transcribe_start_progress(will_translate: bool) -> (r: u8)
    ensures
        r == if will_translate {
            12u8
        } else {
            15u8
        },
{
    if will_translate {
        12
    } else {
        15
    }
}

/// The progress recognition may reach while it runs: leaving room for
/// translation, then for segmentation.
pub fn recognition_peak(will_translate: bool, segmentation_strategy: &str) -> (r: u8)
    ensures
        r == if will_translate {
            44u8
        } else if segmentation_strategy@ != "disabled"@ {
            69u8
        } else {
            89u8
        },
{
    if will_translate {
        44
    } else if !str_eq(segmentation_strategy, "disabled") {
        69
    } else {
        89
    }
}

/// The progress shown while subtitles are segmented.
pub fn segmenting_progress(will_translate: bool) -> (r: u8)
    ensures
        r == if will_translate {
            45u8
        } else {
            70u8
        },
{
    if will_translate {
        45
    } else {
        70
    }
}

/// The progress once the original subtitles are ready.
pub fn transcribed_progress(will_translate: bool) -> (r: u8)
    ensures
        r == if will_translate {
            60u8
        } else {
            90u8
        },
{
    if will_translate {
        60
    } else {
        90
    }
}

/// The progress during translation: 62 plus up to 26 as the batches are
/// done.
pub open spec fn translating_progress(done: u32, total: u32) -> int {
    if total == 0 {
        62
    } else {
        let d = if done as int * 26 > u32::MAX {
            u32::MAX as int
        } else {
            done as int * 26
        };
        let p = d / total as int;
        62 + if p > 26 {
            26
        } else {
            p
        }
    }
}

pub fn translation_progress(done: u32, total: u32) -> (r: u8)
    ensures
        r == translating_progress(done, total),
        62 <= r <= 88,
{
    if total == 0 {
        return 62;
    }
    let wide: u64 = done as u64 * 26;
    let d: u32 = if wide > u32::MAX as u64 {
        u32::MAX
    } else {
        wide as u32
    };
    let p = d / total;
    let c: u32 = if p > 26 {
        26
    } else {
        p
    };
    (62 + c) as u8
}

/// The phase name of recognition.
pub fn recognition_phase(enable_vad: bool) -> (r: &'static str)
    ensures
        r@ == if enable_vad {
            "vad_detect"@
        } else {
            "transcribe"@
        },
{
    if enable_vad {
        "vad_detect"
    } else {
        "transcribe"
    }
}

/// The phase name of translation.
pub fn translation_phase(engine: &str) -> (r: &'static str)
    ensures
        r@ == if engine@ == "google_web"@ {
            "translate_google"@
        } else {
            "translate_llm"@
        },
{
    if str_eq(engine, "google_web") {
        "translate_google"
    } else {
        "translate_llm"
    }
}

// ---------------------------------------------------------------------------
// Languages, keys and outputs
// ---------------------------------------------------------------------------

/// Whether the run needs the stored LLM key: for LLM translation, or for
/// LLM-assisted segmentation with an endpoint set.
pub open spec fn needs_key(engine: Seq<char>, strategy: Seq<char>, base_url: Seq<char>, model: Seq<char>) -> bool {
    engine == "llm"@ || ((strategy == "auto"@ || strategy == "llm_preferred"@) && trim(base_url).len() > 0 && trim(
        model,
    ).len() > 0)
}

pub fn needs_llm_key(job: &JobSnapshot) -> (r: bool)
    ensures
        r == needs_key(
            job.translator_engine@,
            job.segmentation_strategy@,
            job.llm_base_url@,
            job.llm_model@,
        ),
{
    let s = job.segmentation_strategy.as_str();
    str_eq(job.translator_engine.as_str(), "llm") || ((str_eq(s, "auto") || str_eq(s, "llm_preferred")) && !is_blank(
        job.llm_base_url.as_str(),
    ) && !is_blank(job.llm_model.as_str()))
}

/// The recognition language when it is fixed: trimmed, unless blank or
/// `auto` (ASCII case ignored), in which case the detected one is used.
pub open spec fn fixed_lang(rec_lang: Seq<char>) -> Option<Seq<char>> {
    let t = trim(rec_lang);
    if t.len() == 0 || lower_seq(t) == "auto"@ {
        None
    } else {
        Some(t)
    }
}

pub fn fixed_recognition_lang(rec_lang: &str) -> (r: Option<String>)
    ensures
        match r {
            Some(s) => fixed_lang(rec_lang@) == Some(s@),
            None => fixed_lang(rec_lang@) is None,
        },
{
    let t = trim_string(rec_lang);
    let low = lower_vec(&chars_of(t.as_str()));
    if is_empty_text(t.as_str()) || crate::text::eq_chars(&low, &chars_of("auto")) {
        None
    } else {
        Some(t)
    }
}

/// The language named in the source subtitle's file name: the configured
/// source language, or the one the file was named with where that is blank
/// or `auto`.
pub fn source_file_lang(translate_source_lang: &str, lang_for_name: &str) -> (r: String)
    ensures
        r@ == match fixed_lang(translate_source_lang@) {
            Some(s) => s,
            None => lang_for_name@,
        },
{
    match fixed_recognition_lang(translate_source_lang) {
        Some(s) => s,
        None => lang_for_name.to_string(),
    }
}

/// The files a translating run writes: two subtitle files, or one
/// bilingual file.
#[derive(Debug)]
pub struct OutputPlan {
    pub dual_original: Option<String>,
    pub dual_translated: Option<String>,
    pub bilingual: Option<String>,
}

pub open spec fn opt_seq(o: Option<String>) -> Option<Seq<char>> {
    match o {
        Some(s) => Some(s@),
        None => None,
    }
}

/// The output plan of a translating run, or why the run cannot translate:
/// an unsupported engine, an original-only mode, no target language, an
/// unknown mode, or an output directory that cannot be resolved.
pub open spec fn translation_plan(
    job: JobSnapshot,
    src_lang: Seq<char>,
) -> Result<(Option<Seq<char>>, Option<Seq<char>>, Option<Seq<char>>), Seq<char>> {
    let v = job.video_path@;
    let mode = job.output_dir_mode@;
    let custom = job.custom_output_dir@;
    let tgt = trim(job.translate_target_lang@);
    if job.translator_engine@ != "google_web"@ && job.translator_engine@ != "llm"@ {
        Err("不支持的翻译引擎: "@ + job.translator_engine@)
    } else if job.subtitle_mode@ == "original_only"@ {
        Err("内部错误：仅原文字幕任务不应进入翻译"@)
    } else if tgt.len() == 0 {
        Err("翻译目标语言为空，请在配置中设置"@)
    } else if job.subtitle_mode@ == "dual_files"@ {
        match original_srt_path(v, v, mode, custom, src_lang) {
            Err(e) => Err(e),
            Ok(a) => match original_srt_path(v, v, mode, custom, tgt) {
                Err(e) => Err(e),
                Ok(b) => Ok((Some(a), Some(b), None)),
            },
        }
    } else if job.subtitle_mode@ == "bilingual_single"@ {
        match bilingual_srt_path(v, v, mode, custom) {
            Err(e) => Err(e),
            Ok(p) => Ok((None, None, Some(p))),
        }
    } else {
        Err("未知字幕模式: "@ + job.subtitle_mode@)
    }
}

fn text_with(prefix: &str, s: &str) -> (r: String)
    ensures
        r@ == prefix@ + s@,
{
    let mut out = prefix.to_string();
    push_str(&mut out, s);
    out
}

/// `src_lang` is the language named in the source subtitle's file name.
pub fn plan_translation_outputs(job: &JobSnapshot, src_lang: &str) -> (r: Result<OutputPlan, String>)
    ensures
        match r {
            Ok(p) => translation_plan(*job, src_lang@) == Ok::<
                (Option<Seq<char>>, Option<Seq<char>>, Option<Seq<char>>),
                Seq<char>,
            >((opt_seq(p.dual_original), opt_seq(p.dual_translated), opt_seq(p.bilingual))),
            Err(e) => translation_plan(*job, src_lang@) == Err::<
                (Option<Seq<char>>, Option<Seq<char>>, Option<Seq<char>>),
                Seq<char>,
            >(e@),
        },
{
    let engine = job.translator_engine.as_str();
    if !str_eq(engine, "google_web") && !str_eq(engine, "llm") {
        return Err(text_with("不支持的翻译引擎: ", engine));
    }
    let mode = job.subtitle_mode.as_str();
    if str_eq(mode, "original_only") {
        return Err("内部错误：仅原文字幕任务不应进入翻译".to_string());
    }
    let tgt = trim_string(job.translate_target_lang.as_str());
    if is_empty_text(tgt.as_str()) {
        return Err("翻译目标语言为空，请在配置中设置".to_string());
    }
    let v = job.video_path.as_str();
    let od = job.output_dir_mode.as_str();
    let cd = job.custom_output_dir.as_str();
    if str_eq(mode, "dual_files") {
        let a = match resolve_original_srt_path(v, v, od, cd, src_lang) {
            Ok(p) => p,
            Err(e) => return Err(e),
        };
        let b = match resolve_original_srt_path(v, v, od, cd, tgt.as_str()) {
            Ok(p) => p,
            Err(e) => return Err(e),
        };
        Ok(OutputPlan { dual_original: Some(a), dual_translated: Some(b), bilingual: None })
    } else if str_eq(mode, "bilingual_single") {
        match resolve_bilingual_srt_path(v, v, od, cd) {
            Ok(p) => Ok(OutputPlan { dual_original: None, dual_translated: None, bilingual: Some(p) }),
            Err(e) => Err(e),
        }
    } else {
        Err(text_with("未知字幕模式: ", mode))
    }
}

/// The message for an output file that exists and may not be replaced.
pub fn exists_no_overwrite_message(path: &str) -> (r: String)
    ensures
        r@ == "目标字幕已存在且配置为不覆盖: "@ + path@,
{
    text_with("目标字幕已存在且配置为不覆盖: ", path)
}

/// The note left on a translated task: where some pieces fell back to the
/// original text.
pub fn fallback_note(any_fallback: bool) -> (r: Option<String>)
    ensures
        match r {
            Some(n) => any_fallback && n@ == "部分片段翻译失败，已回退原文"@,
            None => !any_fallback,
        },
{
    if any_fallback {
        Some("部分片段翻译失败，已回退原文".to_string())
    } else {
        None
    }
}

// ---------------------------------------------------------------------------
// The record as the run goes
// ---------------------------------------------------------------------------

/// What a step writes to the record; each part that is set replaces the
/// field.
pub struct RuntimeUpdate {
    pub status: Option<String>,
    pub original_stage: Option<String>,
    pub translation_stage: Option<String>,
    pub progress: Option<u8>,
    pub phase: Option<String>,
}

pub open spec fn set_or(o: Option<String>, v: String) -> String {
    match o {
        Some(x) => x,
        None => v,
    }
}

/// The record brought to the current form, the update written, stamped
/// with `now`.
pub open spec fn updated_from(o: TaskRecord, n: TaskRecord, u: RuntimeUpdate, now: i64) -> bool {
    exists|m: TaskRecord|
        #[trigger] normalized(o, m) && n == (TaskRecord {
            status: set_or(u.status, m.status),
            original_stage: set_or(u.original_stage, m.original_stage),
            translation_stage: set_or(u.translation_stage, m.translation_stage),
            progress: match u.progress {
                Some(p) => p,
                None => m.progress,
            },
            phase: set_or(u.phase, m.phase),
            updated_at_ms: now,
            ..m
        })
}

fn apply_update(t: &mut TaskRecord, u: RuntimeUpdate, now: i64)
    ensures
        updated_from(*old(t), *final(t), u, now),
{
    let ghost uv = u;
    t.normalize_state();
    let ghost m = *t;
    match u.status {
        Some(s) => {
            t.status = s;
        },
        None => {},
    }
    match u.original_stage {
        Some(s) => {
            t.original_stage = s;
        },
        None => {},
    }
    match u.translation_stage {
        Some(s) => {
            t.translation_stage = s;
        },
        None => {},
    }
    match u.progress {
        Some(p) => {
            t.progress = p;
        },
        None => {},
    }
    match u.phase {
        Some(s) => {
            t.phase = s;
        },
        None => {},
    }
    t.updated_at_ms = now;
    assert(normalized(*old(t), m));
}

/// Writes a step's update to the task with this id, where it is listed.
pub fn update_task_runtime_state(store: &mut TaskStoreFile, id: &str, update: RuntimeUpdate, now: i64) -> (r: bool)
    ensures
        find_task(old(store).tasks@, id@) is None ==> !r && unchanged(*old(store), *final(store)),
        find_task(old(store).tasks@, id@) is Some ==> r && replaced_at(
            *old(store),
            *final(store),
            find_task(old(store).tasks@, id@)->0,
            final(store).tasks@[find_task(old(store).tasks@, id@)->0],
        ) && updated_from(
            old(store).tasks@[find_task(old(store).tasks@, id@)->0],
            final(store).tasks@[find_task(old(store).tasks@, id@)->0],
            update,
            now,
        ),
{
    let i = match position_of(&store.tasks, id) {
        Some(i) => i,
        None => return false,
    };
    let ghost before = store.tasks@;
    let mut t = store.tasks.remove(i);
    apply_update(&mut t, update, now);
    store.tasks.insert(i, t);
    assert(store.tasks@ =~= before.update(i as int, store.tasks@[i as int]));
    true
}

/// Sets the progress of the task with this id, where it is listed.
pub fn set_task_progress(store: &mut TaskStoreFile, id: &str, progress: u8, now: i64) -> (r: bool)
    ensures
        find_task(old(store).tasks@, id@) is None ==> !r && unchanged(*old(store), *final(store)),
        find_task(old(store).tasks@, id@) is Some ==> r && replaced_at(
            *old(store),
            *final(store),
            find_task(old(store).tasks@, id@)->0,
            (TaskRecord { progress, updated_at_ms: now, ..old(store).tasks@[find_task(old(store).tasks@, id@)->0] }),
        ),
{
    let i = match position_of(&store.tasks, id) {
        Some(i) => i,
        None => return false,
    };
    let ghost before = store.tasks@;
    let mut t = store.tasks.remove(i);
    t.progress = progress;
    t.updated_at_ms = now;
    store.tasks.insert(i, t);
    assert(store.tasks@ =~= before.update(i as int, store.tasks@[i as int]));
    true
}

/// What a finished run leaves on the record: the previews and the files
/// written.
pub struct RunOutputs {
    pub original_preview: Option<String>,
    pub translated_preview: Option<String>,
    pub original_output_path: Option<String>,
    pub translated_output_path: Option<String>,
    pub bilingual_output_path: Option<String>,
}

pub fn cache_task_outputs(store: &mut TaskStoreFile, id: &str, out: RunOutputs, now: i64) -> (r: bool)
    ensures
        find_task(old(store).tasks@, id@) is None ==> !r && unchanged(*old(store), *final(store)),
        find_task(old(store).tasks@, id@) is Some ==> r && replaced_at(
            *old(store),
            *final(store),
            find_task(old(store).tasks@, id@)->0,
            (TaskRecord {
                original_preview: out.original_preview,
                translated_preview: out.translated_preview,
                original_output_path: out.original_output_path,
                translated_output_path: out.translated_output_path,
                bilingual_output_path: out.bilingual_output_path,
                updated_at_ms: now,
                ..old(store).tasks@[find_task(old(store).tasks@, id@)->0]
            }),
        ),
{
    let i = match position_of(&store.tasks, id) {
        Some(i) => i,
        None => return false,
    };
    let ghost before = store.tasks@;
    let mut t = store.tasks.remove(i);
    t.original_preview = out.original_preview;
    t.translated_preview = out.translated_preview;
    t.original_output_path = out.original_output_path;
    t.translated_output_path = out.translated_output_path;
    t.bilingual_output_path = out.bilingual_output_path;
    t.updated_at_ms = now;
    store.tasks.insert(i, t);
    assert(store.tasks@ =~= before.update(i as int, store.tasks@[i as int]));
    true
}

pub fn cache_segmentation_note(store: &mut TaskStoreFile, id: &str, note: Option<String>, now: i64) -> (r: bool)
    ensures
        find_task(old(store).tasks@, id@) is None ==> !r && unchanged(*old(store), *final(store)),
        find_task(old(store).tasks@, id@) is Some ==> r && replaced_at(
            *old(store),
            *final(store),
            find_task(old(store).tasks@, id@)->0,
            (TaskRecord {
                segmentation_note: note,
                updated_at_ms: now,
                ..old(store).tasks@[find_task(old(store).tasks@, id@)->0]
            }),
        ),
{
    let i = match position_of(&store.tasks, id) {
        Some(i) => i,
        None => return false,
    };
    let ghost before = store.tasks@;
    let mut t = store.tasks.remove(i);
    t.segmentation_note = note;
    t.updated_at_ms = now;
    store.tasks.insert(i, t);
    assert(store.tasks@ =~= before.update(i as int, store.tasks@[i as int]));
    true
}

/// One beat of the progress heartbeat kept while recognition runs.
#[derive(Debug, Clone, Copy, PartialEq, Eq, Structural)]
pub enum Heartbeat {
    /// The task is gone: the heartbeat stops.
    Stop,
    /// The task is at the peak already.
    Unchanged,
    /// The progress went up by one.
    Advanced,
}

/// A beat: below `max_progress` the progress goes up by one (the phase is
/// filled in where empty); at or above it nothing changes.
pub open spec fn beat(o: TaskRecord, n: TaskRecord, phase: Seq<char>, max_progress: u8, now: i64) -> bool {
    if o.progress >= max_progress {
        n == o
    } else {
        &&& n == (TaskRecord { progress: (o.progress + 1) as u8, phase: n.phase, updated_at_ms: now, ..o })
        &&& n.phase@ == if o.phase@.len() == 0 {
            phase
        } else {
            o.phase@
        }
    }
}

pub fn heartbeat_tick(store: &mut TaskStoreFile, id: &str, phase: &str, max_progress: u8, now: i64) -> (r: Heartbeat)
    ensures
        find_task(old(store).tasks@, id@) is None ==> r == Heartbeat::Stop && unchanged(*old(store), *final(store)),
        find_task(old(store).tasks@, id@) is Some ==> replaced_at(
            *old(store),
            *final(store),
            find_task(old(store).tasks@, id@)->0,
            final(store).tasks@[find_task(old(store).tasks@, id@)->0],
        ) && beat(
            old(store).tasks@[find_task(old(store).tasks@, id@)->0],
            final(store).tasks@[find_task(old(store).tasks@, id@)->0],
            phase@,
            max_progress,
            now,
        ) && r == if old(store).tasks@[find_task(old(store).tasks@, id@)->0].progress >= max_progress {
            Heartbeat::Unchanged
        } else {
            Heartbeat::Advanced
        },
{
    let i = match position_of(&store.tasks, id) {
        Some(i) => i,
        None => return Heartbeat::Stop,
    };
    if store.tasks[i].progress >= max_progress {
        assert(store.tasks@ =~= store.tasks@.update(i as int, store.tasks@[i as int]));
        return Heartbeat::Unchanged;
    }
    let ghost before = store.tasks@;
    let mut t = store.tasks.remove(i);
    if is_empty_text(t.phase.as_str()) {
        t.phase = phase.to_string();
    }
    t.progress = t.progress + 1;
    t.updated_at_ms = now;
    store.tasks.insert(i, t);
    assert(store.tasks@ =~= before.update(i as int, store.tasks@[i as int]));
    Heartbeat::Advanced
}

} // verus!
