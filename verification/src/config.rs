//! Application settings: their defaults, the defaults filled into a loaded
//! file, and validation. Floating-point settings are held as their IEEE-754
//! bit patterns, which order positive values as the numbers do.
use vstd::prelude::*;

use crate::text::{is_blank, str_eq, trim};

verus! {

#[derive(Clone)]
pub struct LlmPublicConfig {
    pub base_url: String,
    pub model: String,
    pub timeout_sec: u32,
    pub max_retries: u32,
    pub translate_concurrency: u32,
}

#[derive(Clone)]
pub struct TranslatorConfig {
    pub engine: String,
    pub provider_url: String,
    pub use_proxy: bool,
    pub min_request_interval_ms: u32,
    pub experimental_acknowledged: bool,
}

/// Recognizer settings; `vad_threshold_bits` is the `f32` VAD threshold.
#[derive(Clone)]
pub struct WhisperConfig {
    pub model: String,
    pub use_gpu: bool,
    pub recognition_lang: String,
    pub enable_vad: bool,
    pub vad_threshold_bits: u32,
    pub vad_min_speech_ms: u32,
    pub vad_min_silence_ms: u32,
    pub vad_max_segment_ms: u32,
    pub ffmpeg_path: String,
    pub whisper_cli_path: String,
    pub download_url: String,
    pub mirror_url: String,
    pub prefer_mirror: bool,
}

#[derive(Clone)]
pub struct GlossaryEntry {
    pub source: String,
    pub target: String,
    pub note: String,
}

#[derive(Clone)]
pub struct TranslateConfig {
    pub source_lang: String,
    pub target_lang: String,
    pub style: String,
    pub max_segment_chars: u32,
    pub keep_proper_nouns_in_source: bool,
    pub glossary_case_sensitive: bool,
    pub glossary: Vec<GlossaryEntry>,
}

/// Segmentation settings; `max_duration_seconds_bits` is the `f64` limit.
#[derive(Clone)]
pub struct SegmentationConfig {
    pub strategy: String,
    pub max_chars_per_segment: u32,
    pub max_duration_seconds_bits: u64,
    pub timing_mode: String,
}

#[derive(Clone)]
pub struct SubtitleConfig {
    pub mode: String,
    pub format: String,
    pub output_dir_mode: String,
    pub custom_output_dir: String,
    pub overwrite: bool,
}

#[derive(Clone)]
pub struct RuntimeConfig {
    pub auto_detect_hardware: bool,
    pub max_parallel_tasks: u32,
    pub cpu_thread_limit: u32,
    pub task_auto_retry_max: u32,
}

#[derive(Clone)]
pub struct AppConfig {
    pub llm: LlmPublicConfig,
    pub translator: TranslatorConfig,
    pub whisper: WhisperConfig,
    pub translate: TranslateConfig,
    pub segmentation: SegmentationConfig,
    pub subtitle: SubtitleConfig,
    pub runtime: RuntimeConfig,
}

/// `0.5f32`.
pub const DEFAULT_VAD_THRESHOLD_BITS: u32 = 0x3F00_0000;

/// `6.0f64`.
pub const DEFAULT_MAX_DURATION_SECONDS_BITS: u64 = 0x4018_0000_0000_0000;

pub fn default_true() -> (r: bool)
    ensures
        r,
{
    true
}

pub fn default_srt() -> (r: String)
    ensures
        r@ == "srt"@,
{
    "srt".to_string()
}

pub fn default_vad_min_speech_ms() -> (r: u32)
    ensures
        r == 500,
{
    500
}

pub fn default_vad_min_silence_ms() -> (r: u32)
    ensures
        r == 300,
{
    300
}

pub fn default_vad_max_segment_ms() -> (r: u32)
    ensures
        r == 30000,
{
    30_000
}

impl SegmentationConfig {
    pub open spec fn is_default(&self) -> bool {
        &&& self.strategy@ == "auto"@
        &&& self.max_chars_per_segment == 42
        &&& self.max_duration_seconds_bits == DEFAULT_MAX_DURATION_SECONDS_BITS
        &&& self.timing_mode@ == "word_timestamps_first"@
    }
}

impl Default for SegmentationConfig {
    fn default() -> (r: Self)
        ensures
            r.is_default(),
    {
        SegmentationConfig {
            strategy: "auto".to_string(),
            max_chars_per_segment: 42,
            max_duration_seconds_bits: DEFAULT_MAX_DURATION_SECONDS_BITS,
            timing_mode: "word_timestamps_first".to_string(),
        }
    }
}

impl AppConfig {
    /// The settings of a fresh installation.
    pub open spec fn is_default(&self) -> bool {
        &&& self.llm.base_url@ == Seq::<char>::empty() && self.llm.model@ == Seq::<char>::empty()
        &&& self.llm.timeout_sec == 60 && self.llm.max_retries == 3 && self.llm.translate_concurrency == 2
        &&& self.translator.engine@ == "none"@ && self.translator.provider_url@ == Seq::<char>::empty()
        &&& !self.translator.use_proxy && self.translator.min_request_interval_ms == 1000
        &&& !self.translator.experimental_acknowledged
        &&& self.whisper.model@ == "base"@ && self.whisper.use_gpu && self.whisper.recognition_lang@ == "auto"@
        &&& self.whisper.enable_vad && self.whisper.vad_threshold_bits == DEFAULT_VAD_THRESHOLD_BITS
        &&& self.whisper.vad_min_speech_ms == 500 && self.whisper.vad_min_silence_ms == 300
        &&& self.whisper.vad_max_segment_ms == 30000
        &&& self.whisper.ffmpeg_path@ == Seq::<char>::empty() && self.whisper.whisper_cli_path@ == Seq::<char>::empty()
        &&& self.whisper.download_url@ == Seq::<char>::empty() && self.whisper.mirror_url@ == Seq::<char>::empty()
        &&& self.whisper.prefer_mirror
        &&& self.translate.source_lang@ == "auto"@ && self.translate.target_lang@ == "zh"@
        &&& self.translate.style@ == "term_first"@ && self.translate.max_segment_chars == 800
        &&& self.translate.keep_proper_nouns_in_source && !self.translate.glossary_case_sensitive
        &&& self.translate.glossary@.len() == 0
        &&& self.segmentation.is_default()
        &&& self.subtitle.mode@ == "bilingual_single"@ && self.subtitle.format@ == "srt"@
        &&& self.subtitle.output_dir_mode@ == "video_dir"@ && self.subtitle.custom_output_dir@ == Seq::<char>::empty()
        &&& self.subtitle.overwrite
        &&& self.runtime.auto_detect_hardware && self.runtime.max_parallel_tasks == 2
        &&& self.runtime.cpu_thread_limit == 8 && self.runtime.task_auto_retry_max == 0
    }
}

impl Default for AppConfig {
    fn default() -> (r: Self)
        ensures
            r.is_default(),
    {
        AppConfig {
            llm: LlmPublicConfig {
                base_url: String::new(),
                model: String::new(),
                timeout_sec: 60,
                max_retries: 3,
                translate_concurrency: 2,
            },
            translator: TranslatorConfig {
                engine: "none".to_string(),
                provider_url: String::new(),
                use_proxy: false,
                min_request_interval_ms: 1000,
                experimental_acknowledged: false,
            },
            whisper: WhisperConfig {
                model: "base".to_string(),
                use_gpu: true,
                recognition_lang: "auto".to_string(),
                enable_vad: true,
                vad_threshold_bits: DEFAULT_VAD_THRESHOLD_BITS,
                vad_min_speech_ms: default_vad_min_speech_ms(),
                vad_min_silence_ms: default_vad_min_silence_ms(),
                vad_max_segment_ms: default_vad_max_segment_ms(),
                ffmpeg_path: String::new(),
                whisper_cli_path: String::new(),
                download_url: String::new(),
                mirror_url: String::new(),
                prefer_mirror: true,
            },
            translate: TranslateConfig {
                source_lang: "auto".to_string(),
                target_lang: "zh".to_string(),
                style: "term_first".to_string(),
                max_segment_chars: 800,
                keep_proper_nouns_in_source: true,
                glossary_case_sensitive: false,
                glossary: Vec::new(),
            },
            segmentation: SegmentationConfig::default(),
            subtitle: SubtitleConfig {
                mode: "bilingual_single".to_string(),
                format: default_srt(),
                output_dir_mode: "video_dir".to_string(),
                custom_output_dir: String::new(),
                overwrite: true,
            },
            runtime: RuntimeConfig {
                auto_detect_hardware: true,
                max_parallel_tasks: 2,
                cpu_thread_limit: 8,
                task_auto_retry_max: 0,
            },
        }
    }
}

/// `0.1 <= x && x <= 0.9` for the `f32` with these bits (false for NaN and
/// for negative values, whose sign bit puts their bits above the range).
pub open spec fn vad_threshold_in_range(bits: u32) -> bool {
    0x3DCC_CCCD <= bits <= 0x3F66_6666
}

/// `x <= 0.5` for the `f64` with these bits: a positive value up to 0.5, or
/// any negative value that is not NaN.
pub open spec fn f64_at_most_half(bits: u64) -> bool {
    bits <= 0x3FE0_0000_0000_0000 || (0x8000_0000_0000_0000 <= bits <= 0xFFF0_0000_0000_0000)
}

/// `x > 60.0` for the `f64` with these bits: a positive value above 60, up
/// to infinity.
pub open spec fn f64_above_sixty(bits: u64) -> bool {
    0x404E_0000_0000_0000 < bits <= 0x7FF0_0000_0000_0000
}

/// `x <= 0.0` for the `f64` with these bits: zero of either sign or a
/// negative value that is not NaN.
pub open spec fn f64_not_positive(bits: u64) -> bool {
    bits == 0 || (0x8000_0000_0000_0000 <= bits <= 0xFFF0_0000_0000_0000)
}

/// The first problem with a configuration, in the order they are checked.
pub open spec fn config_error(c: AppConfig) -> Option<Seq<char>> {
    if c.llm.timeout_sec == 0 {
        Some("LLM 超时时间必须大于 0"@)
    } else if c.llm.max_retries > 20 {
        Some("最大重试次数过大"@)
    } else if c.llm.translate_concurrency == 0 || c.llm.translate_concurrency > 64 {
        Some("翻译并发数需在 1–64 之间"@)
    } else if c.translate.max_segment_chars < 64 || c.translate.max_segment_chars > 32000 {
        Some("每段最大字符数需在合理范围内"@)
    } else if !vad_threshold_in_range(c.whisper.vad_threshold_bits) {
        Some("VAD 阈值需在 0.1–0.9 之间"@)
    } else if c.whisper.vad_min_speech_ms < 100 || c.whisper.vad_min_speech_ms > 5000 {
        Some("VAD 最小语音时长需在 100–5000 毫秒之间"@)
    } else if c.whisper.vad_min_silence_ms < 50 || c.whisper.vad_min_silence_ms > 3000 {
        Some("VAD 最小静音时长需在 50–3000 毫秒之间"@)
    } else if c.whisper.vad_max_segment_ms < 3000 || c.whisper.vad_max_segment_ms > 30000 {
        Some("VAD 单段最大语音时长需在 3000–30000 毫秒之间"@)
    } else if c.whisper.vad_max_segment_ms <= c.whisper.vad_min_speech_ms {
        Some("VAD 单段最大语音时长需大于最小语音时长"@)
    } else if c.segmentation.max_chars_per_segment < 8 || c.segmentation.max_chars_per_segment > 500 {
        Some("原字幕单条最大字符数需在 8–500 之间"@)
    } else if f64_at_most_half(c.segmentation.max_duration_seconds_bits) || f64_above_sixty(
        c.segmentation.max_duration_seconds_bits,
    ) {
        Some("原字幕单条最大持续时长需在 0.5–60 秒之间"@)
    } else if c.runtime.max_parallel_tasks == 0 || c.runtime.max_parallel_tasks > 16 {
        Some("最大并发任务数需在 1–16 之间"@)
    } else if c.runtime.cpu_thread_limit == 0 || c.runtime.cpu_thread_limit > 256 {
        Some("CPU 线程上限无效"@)
    } else if c.runtime.task_auto_retry_max > 10 {
        Some("任务自动重试次数过大"@)
    } else if !(c.translator.engine@ == "none"@ || c.translator.engine@ == "llm"@ || c.translator.engine@
        == "google_web"@) {
        Some("翻译引擎类型无效"@)
    } else if !(c.segmentation.strategy@ == "disabled"@ || c.segmentation.strategy@ == "auto"@
        || c.segmentation.strategy@ == "rules_only"@ || c.segmentation.strategy@ == "llm_preferred"@) {
        Some("原字幕分段策略无效"@)
    } else if !(c.segmentation.timing_mode@ == "word_timestamps_first"@ || c.segmentation.timing_mode@
        == "approximate_reflow"@) {
        Some("分段时间策略无效"@)
    } else if !(c.subtitle.mode@ == "original_only"@ || c.subtitle.mode@ == "dual_files"@ || c.subtitle.mode@
        == "bilingual_single"@) {
        Some("字幕生成模式无效"@)
    } else if c.subtitle.output_dir_mode@ != "video_dir"@ && c.subtitle.output_dir_mode@ != "custom"@ {
        Some("输出目录模式无效"@)
    } else if c.subtitle.output_dir_mode@ == "custom"@ && trim(c.subtitle.custom_output_dir@).len() == 0 {
        Some("自定义输出目录不能为空"@)
    } else {
        None
    }
}

impl AppConfig {
    pub fn validate(&self) -> (r: Result<(), String>)
        ensures
            match r {
                Ok(()) => config_error(*self) is None,
                Err(e) => config_error(*self) == Some(e@),
            },
    {
        if self.llm.timeout_sec == 0 {
            return Err("LLM 超时时间必须大于 0".to_string());
        }
        if self.llm.max_retries > 20 {
            return Err("最大重试次数过大".to_string());
        }
        if self.llm.translate_concurrency == 0 || self.llm.translate_concurrency > 64 {
            return Err("翻译并发数需在 1–64 之间".to_string());
        }
        if self.translate.max_segment_chars < 64 || self.translate.max_segment_chars > 32000 {
            return Err("每段最大字符数需在合理范围内".to_string());
        }
        let vt = self.whisper.vad_threshold_bits;
        if !(0x3DCC_CCCD <= vt && vt <= 0x3F66_6666) {
            return Err("VAD 阈值需在 0.1–0.9 之间".to_string());
        }
        if self.whisper.vad_min_speech_ms < 100 || self.whisper.vad_min_speech_ms > 5000 {
            return Err("VAD 最小语音时长需在 100–5000 毫秒之间".to_string());
        }
        if self.whisper.vad_min_silence_ms < 50 || self.whisper.vad_min_silence_ms > 3000 {
            return Err("VAD 最小静音时长需在 50–3000 毫秒之间".to_string());
        }
        if self.whisper.vad_max_segment_ms < 3000 || self.whisper.vad_max_segment_ms > 30000 {
            return Err("VAD 单段最大语音时长需在 3000–30000 毫秒之间".to_string());
        }
        if self.whisper.vad_max_segment_ms <= self.whisper.vad_min_speech_ms {
            return Err("VAD 单段最大语音时长需大于最小语音时长".to_string());
        }
        if self.segmentation.max_chars_per_segment < 8 || self.segmentation.max_chars_per_segment > 500 {
            return Err("原字幕单条最大字符数需在 8–500 之间".to_string());
        }
        let md = self.segmentation.max_duration_seconds_bits;
        let at_most_half = md <= 0x3FE0_0000_0000_0000 || (0x8000_0000_0000_0000 <= md && md <= 0xFFF0_0000_0000_0000);
        let above_sixty = 0x404E_0000_0000_0000 < md && md <= 0x7FF0_0000_0000_0000;
        if at_most_half || above_sixty {
            return Err("原字幕单条最大持续时长需在 0.5–60 秒之间".to_string());
        }
        if self.runtime.max_parallel_tasks == 0 || self.runtime.max_parallel_tasks > 16 {
            return Err("最大并发任务数需在 1–16 之间".to_string());
        }
        if self.runtime.cpu_thread_limit == 0 || self.runtime.cpu_thread_limit > 256 {
            return Err("CPU 线程上限无效".to_string());
        }
        if self.runtime.task_auto_retry_max > 10 {
            return Err("任务自动重试次数过大".to_string());
        }
        let engine = self.translator.engine.as_str();
        if !(str_eq(engine, "none") || str_eq(engine, "llm") || str_eq(engine, "google_web")) {
            return Err("翻译引擎类型无效".to_string());
        }
        let seg = self.segmentation.strategy.as_str();
        if !(str_eq(seg, "disabled") || str_eq(seg, "auto") || str_eq(seg, "rules_only") || str_eq(seg, "llm_preferred")) {
            return Err("原字幕分段策略无效".to_string());
        }
        let timing = self.segmentation.timing_mode.as_str();
        if !(str_eq(timing, "word_timestamps_first") || str_eq(timing, "approximate_reflow")) {
            return Err("分段时间策略无效".to_string());
        }
        let mode = self.subtitle.mode.as_str();
        if !(str_eq(mode, "original_only") || str_eq(mode, "dual_files") || str_eq(mode, "bilingual_single")) {
            return Err("字幕生成模式无效".to_string());
        }
        let odm = self.subtitle.output_dir_mode.as_str();
        if !str_eq(odm, "video_dir") && !str_eq(odm, "custom") {
            return Err("输出目录模式无效".to_string());
        }
        if str_eq(odm, "custom") && is_blank(self.subtitle.custom_output_dir.as_str()) {
            return Err("自定义输出目录不能为空".to_string());
        }
        Ok(())
    }

    /// Whether translation runs: the subtitle mode is not original-only and
    /// a translator is chosen.
    pub open spec fn runs_translation(&self) -> bool {
        self.subtitle.mode@ != "original_only"@ && self.translator.engine@ != "none"@
    }

    pub fn will_run_translation(&self) -> (r: bool)
        ensures
            r == self.runs_translation(),
    {
        !str_eq(self.subtitle.mode.as_str(), "original_only") && !str_eq(self.translator.engine.as_str(), "none")
    }

    pub open spec fn has_endpoint(&self) -> bool {
        trim(self.llm.base_url@).len() > 0 && trim(self.llm.model@).len() > 0
    }

    pub fn has_llm_endpoint_config(&self) -> (r: bool)
        ensures
            r == self.has_endpoint(),
    {
        !is_blank(self.llm.base_url.as_str()) && !is_blank(self.llm.model.as_str())
    }
}


/// A text setting after defaults are filled in: the default where it was
/// empty.
pub open spec fn filled_text(old: Seq<char>, new: Seq<char>, default: Seq<char>) -> bool {
    new == if old.len() == 0 {
        default
    } else {
        old
    }
}

/// A number setting after defaults are filled in: the default where it was
/// zero.
pub open spec fn filled_num(old: u32, new: u32, default: u32) -> bool {
    new == if old == 0 {
        default
    } else {
        old
    }
}

/// What filling in defaults does to a loaded configuration: missing
/// (empty or zero) settings take their defaults, the retry count only where
/// no endpoint is set either, and every other setting stays.
pub open spec fn defaults_filled(o: AppConfig, n: AppConfig) -> bool {
    &&& filled_num(o.llm.timeout_sec, n.llm.timeout_sec, 60)
    &&& n.llm.max_retries == if o.llm.max_retries == 0 && o.llm.base_url@.len() == 0 {
        3
    } else {
        o.llm.max_retries
    }
    &&& filled_num(o.llm.translate_concurrency, n.llm.translate_concurrency, 2)
    &&& filled_text(o.translator.engine@, n.translator.engine@, "none"@)
    &&& filled_text(o.whisper.model@, n.whisper.model@, "base"@)
    &&& filled_text(o.whisper.recognition_lang@, n.whisper.recognition_lang@, "auto"@)
    &&& filled_text(o.translate.source_lang@, n.translate.source_lang@, "auto"@)
    &&& filled_text(o.translate.target_lang@, n.translate.target_lang@, "zh"@)
    &&& filled_text(o.translate.style@, n.translate.style@, "term_first"@)
    &&& filled_num(o.translate.max_segment_chars, n.translate.max_segment_chars, 800)
    &&& filled_text(o.segmentation.strategy@, n.segmentation.strategy@, "auto"@)
    &&& filled_num(o.segmentation.max_chars_per_segment, n.segmentation.max_chars_per_segment, 42)
    &&& n.segmentation.max_duration_seconds_bits == if f64_not_positive(o.segmentation.max_duration_seconds_bits) {
        DEFAULT_MAX_DURATION_SECONDS_BITS
    } else {
        o.segmentation.max_duration_seconds_bits
    }
    &&& filled_text(o.segmentation.timing_mode@, n.segmentation.timing_mode@, "word_timestamps_first"@)
    &&& filled_text(o.subtitle.mode@, n.subtitle.mode@, "bilingual_single"@)
    &&& filled_text(o.subtitle.format@, n.subtitle.format@, "srt"@)
    &&& filled_text(o.subtitle.output_dir_mode@, n.subtitle.output_dir_mode@, "video_dir"@)
    &&& filled_num(o.runtime.max_parallel_tasks, n.runtime.max_parallel_tasks, 2)
    &&& filled_num(o.runtime.cpu_thread_limit, n.runtime.cpu_thread_limit, 8)
    &&& n.llm.base_url == o.llm.base_url && n.llm.model == o.llm.model
    &&& n.translator.provider_url == o.translator.provider_url && n.translator.use_proxy == o.translator.use_proxy
    &&& n.translator.min_request_interval_ms == o.translator.min_request_interval_ms
    &&& n.translator.experimental_acknowledged == o.translator.experimental_acknowledged
    &&& n.whisper.use_gpu == o.whisper.use_gpu && n.whisper.enable_vad == o.whisper.enable_vad
    &&& n.whisper.vad_threshold_bits == o.whisper.vad_threshold_bits
    &&& n.whisper.vad_min_speech_ms == o.whisper.vad_min_speech_ms
    &&& n.whisper.vad_min_silence_ms == o.whisper.vad_min_silence_ms
    &&& n.whisper.vad_max_segment_ms == o.whisper.vad_max_segment_ms
    &&& n.whisper.ffmpeg_path == o.whisper.ffmpeg_path && n.whisper.whisper_cli_path == o.whisper.whisper_cli_path
    &&& n.whisper.download_url == o.whisper.download_url && n.whisper.mirror_url == o.whisper.mirror_url
    &&& n.whisper.prefer_mirror == o.whisper.prefer_mirror
    &&& n.translate.keep_proper_nouns_in_source == o.translate.keep_proper_nouns_in_source
    &&& n.translate.glossary_case_sensitive == o.translate.glossary_case_sensitive
    &&& n.translate.glossary == o.translate.glossary
    &&& n.subtitle.custom_output_dir == o.subtitle.custom_output_dir && n.subtitle.overwrite == o.subtitle.overwrite
    &&& n.runtime.auto_detect_hardware == o.runtime.auto_detect_hardware
    &&& n.runtime.task_auto_retry_max == o.runtime.task_auto_retry_max
}

fn fill_text(s: &mut String, default: &str)
    ensures
        filled_text(old(s)@, final(s)@, default@),
{
    if crate::text::is_empty_text(s.as_str()) {
        *s = default.to_string();
    }
}

fn fill_llm(c: &mut LlmPublicConfig)
    ensures
        filled_num(old(c).timeout_sec, final(c).timeout_sec, 60),
        final(c).max_retries == if old(c).max_retries == 0 && old(c).base_url@.len() == 0 {
            3
        } else {
            old(c).max_retries
        },
        filled_num(old(c).translate_concurrency, final(c).translate_concurrency, 2),
        final(c).base_url == old(c).base_url,
        final(c).model == old(c).model,
{
    if c.timeout_sec == 0 {
        c.timeout_sec = 60;
    }
    if c.max_retries == 0 && crate::text::is_empty_text(c.base_url.as_str()) {
        c.max_retries = 3;
    }
    if c.translate_concurrency == 0 {
        c.translate_concurrency = 2;
    }
}

fn fill_whisper(c: &mut WhisperConfig)
    ensures
        filled_text(old(c).model@, final(c).model@, "base"@),
        filled_text(old(c).recognition_lang@, final(c).recognition_lang@, "auto"@),
        final(c).use_gpu == old(c).use_gpu && final(c).enable_vad == old(c).enable_vad,
        final(c).vad_threshold_bits == old(c).vad_threshold_bits,
        final(c).vad_min_speech_ms == old(c).vad_min_speech_ms,
        final(c).vad_min_silence_ms == old(c).vad_min_silence_ms,
        final(c).vad_max_segment_ms == old(c).vad_max_segment_ms,
        final(c).ffmpeg_path == old(c).ffmpeg_path && final(c).whisper_cli_path == old(c).whisper_cli_path,
        final(c).download_url == old(c).download_url && final(c).mirror_url == old(c).mirror_url,
        final(c).prefer_mirror == old(c).prefer_mirror,
{
    fill_text(&mut c.model, "base");
    fill_text(&mut c.recognition_lang, "auto");
}

fn fill_translate(c: &mut TranslateConfig)
    ensures
        filled_text(old(c).source_lang@, final(c).source_lang@, "auto"@),
        filled_text(old(c).target_lang@, final(c).target_lang@, "zh"@),
        filled_text(old(c).style@, final(c).style@, "term_first"@),
        filled_num(old(c).max_segment_chars, final(c).max_segment_chars, 800),
        final(c).keep_proper_nouns_in_source == old(c).keep_proper_nouns_in_source,
        final(c).glossary_case_sensitive == old(c).glossary_case_sensitive,
        final(c).glossary == old(c).glossary,
{
    fill_text(&mut c.source_lang, "auto");
    fill_text(&mut c.target_lang, "zh");
    fill_text(&mut c.style, "term_first");
    if c.max_segment_chars == 0 {
        c.max_segment_chars = 800;
    }
}

fn fill_segmentation(c: &mut SegmentationConfig)
    ensures
        filled_text(old(c).strategy@, final(c).strategy@, "auto"@),
        filled_num(old(c).max_chars_per_segment, final(c).max_chars_per_segment, 42),
        final(c).max_duration_seconds_bits == if f64_not_positive(old(c).max_duration_seconds_bits) {
            DEFAULT_MAX_DURATION_SECONDS_BITS
        } else {
            old(c).max_duration_seconds_bits
        },
        filled_text(old(c).timing_mode@, final(c).timing_mode@, "word_timestamps_first"@),
{
    fill_text(&mut c.strategy, "auto");
    if c.max_chars_per_segment == 0 {
        c.max_chars_per_segment = 42;
    }
    let md = c.max_duration_seconds_bits;
    if md == 0 || (0x8000_0000_0000_0000 <= md && md <= 0xFFF0_0000_0000_0000) {
        c.max_duration_seconds_bits = DEFAULT_MAX_DURATION_SECONDS_BITS;
    }
    fill_text(&mut c.timing_mode, "word_timestamps_first");
}

fn fill_subtitle(c: &mut SubtitleConfig)
    ensures
        filled_text(old(c).mode@, final(c).mode@, "bilingual_single"@),
        filled_text(old(c).format@, final(c).format@, "srt"@),
        filled_text(old(c).output_dir_mode@, final(c).output_dir_mode@, "video_dir"@),
        final(c).custom_output_dir == old(c).custom_output_dir && final(c).overwrite == old(c).overwrite,
{
    fill_text(&mut c.mode, "bilingual_single");
    fill_text(&mut c.format, "srt");
    fill_text(&mut c.output_dir_mode, "video_dir");
}

fn fill_runtime(c: &mut RuntimeConfig)
    ensures
        filled_num(old(c).max_parallel_tasks, final(c).max_parallel_tasks, 2),
        filled_num(old(c).cpu_thread_limit, final(c).cpu_thread_limit, 8),
        final(c).auto_detect_hardware == old(c).auto_detect_hardware,
        final(c).task_auto_retry_max == old(c).task_auto_retry_max,
{
    if c.max_parallel_tasks == 0 {
        c.max_parallel_tasks = 2;
    }
    if c.cpu_thread_limit == 0 {
        c.cpu_thread_limit = 8;
    }
}

/// Fills in the defaults of settings that a loaded file left empty or zero.
pub fn merge_config_defaults(cfg: &mut AppConfig)
    ensures
        defaults_filled(*old(cfg), *final(cfg)),
{
    fill_llm(&mut cfg.llm);
    fill_text(&mut cfg.translator.engine, "none");
    fill_whisper(&mut cfg.whisper);
    fill_translate(&mut cfg.translate);
    fill_segmentation(&mut cfg.segmentation);
    fill_subtitle(&mut cfg.subtitle);
    fill_runtime(&mut cfg.runtime);
}

} // verus!
