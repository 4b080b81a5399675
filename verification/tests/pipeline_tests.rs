use std::path::Path;

use subforge::job::{JobSnapshot, OutputPlan};
use subforge::pipeline::{step, RunAction, RunEvent, RunState, Stage};
use subforge::runner::MidRun;
use subforge::srt::SubCue;

fn base_job() -> JobSnapshot {
    JobSnapshot {
        video_path: "/videos/demo.mp4".to_string(),
        whisper_model: " base ".to_string(),
        recognition_lang: "en".to_string(),
        whisper_use_gpu: true,
        whisper_enable_vad: false,
        vad_threshold_bits: 0.5f32.to_bits(),
        vad_min_speech_ms: 250,
        vad_min_silence_ms: 100,
        vad_max_segment_ms: 30000,
        subtitle_overwrite: true,
        output_dir_mode: "video_dir".to_string(),
        custom_output_dir: String::new(),
        ffmpeg_path: "/opt/ffmpeg".to_string(),
        whisper_cli_path: "/opt/whisper-cli".to_string(),
        cpu_thread_limit: 0,
        will_translate: false,
        translator_engine: "google_web".to_string(),
        subtitle_mode: "original_only".to_string(),
        translate_source_lang: "auto".to_string(),
        translate_target_lang: "zh".to_string(),
        segmentation_strategy: "disabled".to_string(),
        segmentation_timing_mode: "proportional".to_string(),
        segmentation_max_chars: 42,
        segmentation_max_duration_ms: 6000,
        translator_provider_url: String::new(),
        translator_use_proxy: false,
        llm_base_url: String::new(),
        llm_model: String::new(),
        llm_timeout_sec: 60,
        llm_max_retries: 2,
        translator_min_interval_ms: 0,
        translate_style: String::new(),
        translate_max_segment_chars: 500,
        keep_proper_nouns: true,
        glossary_case_sensitive: false,
        glossary: Vec::new(),
        translate_concurrency: 2,
    }
}

fn new_run(job: JobSnapshot) -> RunState {
    RunState::new(job, "/app".to_string(), "/app/temp/tasks/t1".to_string(), 4, "0.50".to_string())
}

const SRT: &str = "1\n00:00:00,000 --> 00:00:02,000\nHello there.\n\n2\n00:00:02,000 --> 00:00:04,000\nGeneral Kenobi.\n";

fn cue(index: u32, start_ms: i64, end_ms: i64, text: &str) -> SubCue {
    SubCue { index, start_ms, end_ms, text: text.to_string() }
}

fn update_parts(a: &RunAction) -> (Option<String>, Option<String>, Option<String>, Option<u8>, Option<String>, Option<(u8, String)>) {
    match a {
        RunAction::Update { update, report } => (
            update.status.clone(),
            update.original_stage.clone(),
            update.translation_stage.clone(),
            update.progress,
            update.phase.clone(),
            report.clone(),
        ),
        _ => panic!("expected an update"),
    }
}

fn some(s: &str) -> Option<String> {
    Some(s.to_string())
}

#[test]
fn original_only_run_goes_from_video_to_finished_file() {
    let s = new_run(base_job());
    let (s, a) = step(s, RunEvent::Begin);
    assert!(matches!(&a, RunAction::CheckFile(p) if p == "/videos/demo.mp4"));
    let (s, a) = step(s, RunEvent::Exists(true));
    assert!(matches!(&a, RunAction::MakeTempDir(p) if p == "/app/temp/tasks/t1"));
    let (s, a) = step(s, RunEvent::Done);
    assert!(matches!(a, RunAction::Poll));
    let (s, a) = step(s, RunEvent::Polled(MidRun::Continue));
    assert!(matches!(&a, RunAction::FindFfmpeg(p) if p == "/opt/ffmpeg"));
    let (s, a) = step(s, RunEvent::Found("/usr/bin/ffmpeg".to_string()));
    match &a {
        RunAction::ExtractAudio { ffmpeg, video, wav, progress } => {
            assert_eq!(ffmpeg, "/usr/bin/ffmpeg");
            assert_eq!(video, "/videos/demo.mp4");
            assert_eq!(Path::new(wav), Path::new("/app/temp/tasks/t1/audio.wav"));
            assert_eq!(*progress, 10);
        },
        _ => panic!("expected the audio extraction"),
    }
    let (s, a) = step(s, RunEvent::Done);
    assert!(matches!(a, RunAction::Poll));
    let (s, a) = step(s, RunEvent::Polled(MidRun::Continue));
    match &a {
        RunAction::CheckFile(p) => assert_eq!(Path::new(p), Path::new("/app/models/whisper/ggml-base.bin")),
        _ => panic!("expected the model check"),
    }
    let (s, a) = step(s, RunEvent::Exists(true));
    assert!(matches!(&a, RunAction::FindWhisper(p) if p == "/opt/whisper-cli"));
    let (s, a) = step(s, RunEvent::Found("/opt/whisper-cli".to_string()));
    assert_eq!(
        update_parts(&a),
        (some("running"), some("transcribing"), None, Some(15), some("transcribe"), Some((15, "transcribe".to_string())))
    );
    assert_eq!(s.stage, Stage::EnterRecognition);
    let (s, a) = step(s, RunEvent::Done);
    assert!(matches!(a, RunAction::Poll));
    let (s, a) = step(s, RunEvent::Polled(MidRun::Continue));
    match &a {
        RunAction::Recognize { cli, work_dir, srt_args, json_args, phase, peak } => {
            assert_eq!(cli, "/opt/whisper-cli");
            assert_eq!(work_dir, "/app/temp/tasks/t1");
            assert_eq!(&srt_args[0..2], &["-m".to_string(), s.model_path.clone()]);
            assert!(srt_args.contains(&"-osrt".to_string()));
            assert!(json_args.contains(&"-ojf".to_string()) || json_args.contains(&"-oj".to_string()));
            assert_eq!(phase, "transcribe");
            assert_eq!(*peak, 89);
        },
        _ => panic!("expected the recognizer run"),
    }
    let (s, a) = step(s, RunEvent::Done);
    assert!(matches!(&a, RunAction::CheckFile(p) if p.ends_with("w.srt")));
    let (s, a) = step(s, RunEvent::Exists(true));
    assert!(matches!(&a, RunAction::ReadFile(p) if p.ends_with("w.srt")));
    assert_eq!(s.lang_for_name, "en");
    let (s, a) = step(s, RunEvent::Read(Ok(SRT.to_string())));
    match &a {
        RunAction::SetProgress { progress, phase } => {
            assert_eq!(*progress, 90);
            assert_eq!(phase, "transcribe");
        },
        _ => panic!("expected the progress"),
    }
    assert_eq!(s.cues.len(), 2);
    let (s, a) = step(s, RunEvent::Done);
    assert_eq!(
        update_parts(&a),
        (some("running"), some("exporting"), None, Some(95), some("export_srt"), Some((95, "export_srt".to_string())))
    );
    let (s, a) = step(s, RunEvent::Done);
    match &a {
        RunAction::WriteSrt { path, cues } => {
            assert_eq!(Path::new(path), Path::new("/videos/demo_en.srt"));
            assert_eq!(cues.len(), 2);
        },
        _ => panic!("expected the subtitle write"),
    }
    let (s, a) = step(s, RunEvent::Done);
    assert_eq!(s.stage, Stage::Done);
    match a {
        RunAction::Finish { outputs, update, note } => {
            assert_eq!(outputs.original_preview, some("Hello there. / General Kenobi."));
            assert_eq!(outputs.original_output_path, Some(s.final_path.clone()));
            assert_eq!(outputs.translated_output_path, None);
            let u = update.unwrap();
            assert_eq!(u.status, some("completed"));
            assert_eq!(u.translation_stage, some("not_required"));
            assert_eq!(u.progress, Some(100));
            assert_eq!(note, None);
        },
        _ => panic!("expected the end of the run"),
    }
}

#[test]
fn missing_video_fails_without_cleanup() {
    let (s, _) = step(new_run(base_job()), RunEvent::Begin);
    let (s, a) = step(s, RunEvent::Exists(false));
    assert_eq!(s.stage, Stage::Done);
    assert!(matches!(a, RunAction::Fail { message, cleanup: false } if message == "视频文件不存在: /videos/demo.mp4"));
}

#[test]
fn pause_and_delete_requests_end_the_run_at_a_poll() {
    let (s, _) = step(new_run(base_job()), RunEvent::Begin);
    let (s, _) = step(s, RunEvent::Exists(true));
    let (s, _) = step(s, RunEvent::Done);
    let (done, a) = step(s, RunEvent::Polled(MidRun::Pause));
    assert_eq!(done.stage, Stage::Done);
    assert!(matches!(a, RunAction::Pause));

    let (s, _) = step(new_run(base_job()), RunEvent::Begin);
    let (s, _) = step(s, RunEvent::Exists(true));
    let (s, _) = step(s, RunEvent::Done);
    let (_, a) = step(s, RunEvent::Polled(MidRun::Cancel));
    assert!(matches!(a, RunAction::Cancel));
}

#[test]
fn unknown_model_and_missing_model_fail_with_cleanup() {
    let mut job = base_job();
    job.whisper_model = "huge-v9".to_string();
    let mut s = new_run(job);
    s.stage = Stage::PollAfterExtract;
    let (_, a) = step(s, RunEvent::Polled(MidRun::Continue));
    assert!(matches!(a, RunAction::Fail { message, cleanup: true } if message == "未知模型: huge-v9"));

    let mut s = new_run(base_job());
    s.stage = Stage::CheckModel;
    s.model_path = "/app/models/whisper/ggml-base.bin".to_string();
    let (_, a) = step(s, RunEvent::Exists(false));
    assert!(matches!(a, RunAction::Fail { message, cleanup: true }
        if message == "Whisper 模型未下载: base（/app/models/whisper/ggml-base.bin）"));
}

#[test]
fn blank_cli_path_installs_the_runtime_first() {
    let mut job = base_job();
    job.whisper_cli_path = "  ".to_string();
    let mut s = new_run(job);
    s.stage = Stage::CheckModel;
    let (s, a) = step(s, RunEvent::Exists(true));
    assert!(matches!(a, RunAction::InstallRuntime));
    let (_, a) = step(s, RunEvent::Failed("offline".to_string()));
    assert!(matches!(a, RunAction::Fail { message, cleanup: true } if message == "自动安装 Whisper CLI 失败: offline"));
}

#[test]
fn voice_activity_model_is_prepared_and_passed_to_the_recognizer() {
    let mut job = base_job();
    job.whisper_enable_vad = true;
    let mut s = new_run(job);
    s.stage = Stage::FindWhisper;
    s.model_path = "/m.bin".to_string();
    let (s, a) = step(s, RunEvent::Found("/opt/whisper-cli".to_string()));
    assert!(matches!(a, RunAction::PrepareVad));
    let (s, a) = step(s, RunEvent::Found("/app/models/whisper/vad.bin".to_string()));
    assert_eq!(update_parts(&a).4, some("vad_detect"));
    let (s, _) = step(s, RunEvent::Done);
    let (_, a) = step(s, RunEvent::Polled(MidRun::Continue));
    match a {
        RunAction::Recognize { srt_args, phase, .. } => {
            assert_eq!(phase, "vad_detect");
            assert!(srt_args.contains(&"--vad".to_string()));
            assert!(srt_args.contains(&"/app/models/whisper/vad.bin".to_string()));
            assert!(srt_args.contains(&"0.50".to_string()));
        },
        _ => panic!("expected the recognizer run"),
    }
}

#[test]
fn automatic_language_is_read_from_the_json_output() {
    let mut job = base_job();
    job.recognition_lang = "auto".to_string();
    let mut s = new_run(job);
    s.stage = Stage::CheckSrt;
    let (s, a) = step(s, RunEvent::Exists(true));
    assert!(matches!(&a, RunAction::ReadFile(p) if p.ends_with("w.json")));
    let (s, a) = step(s, RunEvent::Read(Ok("{\"result\":{\"language\":\"ja\"}}".to_string())));
    assert!(matches!(&a, RunAction::ReadFile(p) if p.ends_with("w.srt")));
    assert_eq!(s.lang_for_name, "ja");

    let mut job = base_job();
    job.recognition_lang = "auto".to_string();
    let mut s = new_run(job);
    s.stage = Stage::ReadLanguage;
    let (s, _) = step(s, RunEvent::Read(Err("not found".to_string())));
    assert_eq!(s.lang_for_name, "und");
}

#[test]
fn unreadable_or_broken_srt_fails() {
    let mut s = new_run(base_job());
    s.stage = Stage::ReadSrt;
    let (_, a) = step(s, RunEvent::Read(Err("denied".to_string())));
    assert!(matches!(a, RunAction::Fail { message, cleanup: true } if message == "读取临时 SRT 失败: denied"));
}

#[test]
fn segmentation_is_entered_and_fetched_with_word_timings() {
    let mut job = base_job();
    job.segmentation_strategy = "rules_only".to_string();
    job.segmentation_timing_mode = "word_timestamps_first".to_string();
    let mut s = new_run(job);
    s.stage = Stage::ReadSrt;
    let (s, a) = step(s, RunEvent::Read(Ok(SRT.to_string())));
    assert_eq!(
        update_parts(&a),
        (
            some("running"),
            some("segmenting"),
            None,
            Some(70),
            some("segment_subtitles"),
            Some((70, "segment_subtitles".to_string()))
        )
    );
    let (s, a) = step(s, RunEvent::Done);
    assert!(matches!(&a, RunAction::FetchSegmentation { json_path: Some(p) } if p.ends_with("w.json")));
    let (_, a) = step(s, RunEvent::Failed("no tls".to_string()));
    assert!(matches!(a, RunAction::Fail { message, cleanup: true } if message == "HTTP 客户端初始化失败: no tls"));
}

#[test]
fn segmentation_keeps_the_note_then_polls() {
    let mut job = base_job();
    job.segmentation_strategy = "rules_only".to_string();
    let mut s = new_run(job);
    s.stage = Stage::Segment;
    s.cues = vec![cue(1, 0, 2000, "Hello there."), cue(2, 2000, 4000, "General Kenobi.")];
    let replies = vec![None, None];
    let (s, a) = step(s, RunEvent::SegmentInputs { units: Vec::new(), replies });
    assert!(matches!(a, RunAction::SaveNote(_)));
    assert_eq!(s.stage, Stage::SaveNote);
    let (s, a) = step(s, RunEvent::Done);
    assert!(matches!(a, RunAction::Poll));
    let (s, a) = step(s, RunEvent::Polled(MidRun::Continue));
    assert!(matches!(a, RunAction::SetProgress { progress: 90, .. }));
    assert_eq!(s.stage, Stage::SourceReady);
}

#[test]
fn existing_original_file_is_not_overwritten() {
    let mut job = base_job();
    job.subtitle_overwrite = false;
    let mut s = new_run(job);
    s.stage = Stage::SourceReady;
    s.lang_for_name = "en".to_string();
    let (s, a) = step(s, RunEvent::Done);
    assert!(matches!(&a, RunAction::CheckFile(p) if Path::new(p) == Path::new("/videos/demo_en.srt")));
    let path = s.final_path.clone();
    let (_, a) = step(s, RunEvent::Exists(true));
    match a {
        RunAction::Fail { message, cleanup } => {
            assert!(cleanup);
            assert_eq!(message, format!("目标字幕已存在且配置为不覆盖: {path}"));
        },
        _ => panic!("expected the failure"),
    }
}

#[test]
fn write_failures_name_what_failed() {
    let mut s = new_run(base_job());
    s.stage = Stage::WriteOriginal;
    s.final_path = "/out/demo_en.srt".to_string();
    let (_, a) = step(s, RunEvent::WriteFailed { creating_dir: false, error: "disk full".to_string() });
    assert!(matches!(a, RunAction::Fail { message, cleanup: true } if message == "写入字幕失败: disk full（/out/demo_en.srt）"));

    let mut s = new_run(base_job());
    s.stage = Stage::WriteOriginal;
    let (_, a) = step(s, RunEvent::WriteFailed { creating_dir: true, error: "denied".to_string() });
    assert!(matches!(a, RunAction::Fail { message, cleanup: true } if message == "创建输出目录失败: denied"));
}

fn translating_job() -> JobSnapshot {
    let mut job = base_job();
    job.will_translate = true;
    job.translator_engine = "llm".to_string();
    job.subtitle_mode = "dual_files".to_string();
    job.subtitle_overwrite = false;
    job
}

fn source_ready_run(job: JobSnapshot, key: &str) -> RunState {
    let mut s = new_run(job);
    s.stage = Stage::SourceReady;
    s.lang_for_name = "en".to_string();
    s.llm_key = key.to_string();
    s.cues = vec![cue(1, 0, 2000, "Hello there."), cue(2, 2000, 4000, "General Kenobi.")];
    s
}

#[test]
fn dual_file_translation_checks_targets_writes_original_and_translation() {
    let s = source_ready_run(translating_job(), "sk-test");
    let (s, a) = step(s, RunEvent::Done);
    assert!(matches!(&a, RunAction::CheckFile(p) if Path::new(p) == Path::new("/videos/demo_en.srt")));
    let (s, a) = step(s, RunEvent::Exists(false));
    assert!(matches!(&a, RunAction::CheckFile(p) if Path::new(p) == Path::new("/videos/demo_zh.srt")));
    let (s, a) = step(s, RunEvent::Exists(false));
    assert_eq!(
        update_parts(&a),
        (some("running"), some("exporting"), some("waiting_original"), None, some("export_srt"), None)
    );
    let (s, a) = step(s, RunEvent::Done);
    assert!(matches!(&a, RunAction::WriteSrt { path, .. } if Path::new(path) == Path::new("/videos/demo_en.srt")));
    let (s, a) = step(s, RunEvent::Done);
    assert!(matches!(a, RunAction::Poll));
    let (s, a) = step(s, RunEvent::Polled(MidRun::Continue));
    assert_eq!(update_parts(&a), (some("running"), some("completed"), some("queued"), Some(60), some(""), None));
    let (s, a) = step(s, RunEvent::Done);
    assert_eq!(
        update_parts(&a),
        (some("running"), some("completed"), some("translating"), Some(62), some("translate_llm"), Some((62, "translate_llm".to_string())))
    );
    let (s, a) = step(s, RunEvent::Done);
    assert!(matches!(a, RunAction::Translate));
    let (s, a) = step(s, RunEvent::Translated(Ok((vec!["你好。".to_string(), "格里弗斯将军。".to_string()], true))));
    assert_eq!(
        update_parts(&a),
        (some("running"), None, some("exporting"), Some(90), some("export_srt"), Some((90, "export_srt".to_string())))
    );
    let (s, a) = step(s, RunEvent::Done);
    match &a {
        RunAction::WriteSrt { path, cues } => {
            assert_eq!(Path::new(path), Path::new("/videos/demo_zh.srt"));
            assert!(!cues.is_empty());
            assert!(cues.iter().any(|c| c.text.contains("你好")));
        },
        _ => panic!("expected the translation write"),
    }
    let (s, a) = step(s, RunEvent::Done);
    assert_eq!(s.stage, Stage::Done);
    match a {
        RunAction::Finish { outputs, update, note } => {
            assert!(update.is_none());
            assert_eq!(note, some("部分片段翻译失败，已回退原文"));
            assert_eq!(outputs.original_preview, some("Hello there. / General Kenobi."));
            assert_eq!(outputs.translated_preview, some("你好。 / 格里弗斯将军。"));
            assert!(outputs.original_output_path.is_some());
            assert!(outputs.translated_output_path.is_some());
            assert!(outputs.bilingual_output_path.is_none());
        },
        _ => panic!("expected the end of the run"),
    }
}

#[test]
fn existing_target_stops_the_translation_run() {
    let s = source_ready_run(translating_job(), "sk-test");
    let (s, _) = step(s, RunEvent::Done);
    let (s, _) = step(s, RunEvent::Exists(false));
    let (_, a) = step(s, RunEvent::Exists(true));
    assert!(matches!(a, RunAction::Fail { message, cleanup: true }
        if message.starts_with("目标字幕已存在且配置为不覆盖: ") && message.ends_with("demo_zh.srt")));
}

#[test]
fn llm_translation_without_key_fails() {
    let mut s = source_ready_run(translating_job(), "   ");
    s.stage = Stage::EnterQueued;
    let (_, a) = step(s, RunEvent::Done);
    assert!(matches!(a, RunAction::Fail { message, cleanup: true } if message == "未配置 LLM API Key：请在配置页保存密钥"));
}

#[test]
fn paused_translation_and_translation_errors() {
    let mut s = source_ready_run(translating_job(), "sk");
    s.stage = Stage::Translate;
    let (done, a) = step(s, RunEvent::Translated(Err("__pause__".to_string())));
    assert_eq!(done.stage, Stage::Done);
    assert!(matches!(a, RunAction::PauseOrCancel));

    let mut s = source_ready_run(translating_job(), "sk");
    s.stage = Stage::Translate;
    let (_, a) = step(s, RunEvent::Translated(Err("LLM 请求失败".to_string())));
    assert!(matches!(a, RunAction::Fail { message, cleanup: true } if message == "LLM 请求失败"));
}

#[test]
fn bilingual_export_and_count_mismatch() {
    let mut job = translating_job();
    job.subtitle_mode = "bilingual_single".to_string();
    let mut s = source_ready_run(job, "sk");
    s.stage = Stage::EnterTranslationExport;
    s.plan = OutputPlan { dual_original: None, dual_translated: None, bilingual: Some("/videos/demo.srt".to_string()) };
    s.translated = vec!["你好。".to_string()];
    let (_, a) = step(s, RunEvent::Done);
    assert!(matches!(a, RunAction::Fail { message, cleanup: true } if message == "Bilingual cue count mismatch: 2 / 1"));

    let mut job = translating_job();
    job.subtitle_mode = "bilingual_single".to_string();
    let mut s = source_ready_run(job, "sk");
    s.stage = Stage::WriteTranslation;
    let (_, a) = step(s, RunEvent::WriteFailed { creating_dir: false, error: "full".to_string() });
    assert!(matches!(a, RunAction::Fail { message, cleanup: true } if message == "写入双语字幕失败: full"));
}

#[test]
fn dual_original_write_failures() {
    let mut s = source_ready_run(translating_job(), "sk");
    s.stage = Stage::WriteDualOriginal;
    let (_, a) = step(s, RunEvent::WriteFailed { creating_dir: true, error: "denied".to_string() });
    assert!(matches!(a, RunAction::Fail { message, cleanup: true } if message == "创建输出目录失败: denied"));

    let mut s = source_ready_run(translating_job(), "sk");
    s.stage = Stage::WriteDualOriginal;
    let (_, a) = step(s, RunEvent::WriteFailed { creating_dir: false, error: "full".to_string() });
    assert!(matches!(a, RunAction::Fail { message, cleanup: true } if message == "写入原文字幕失败: full"));
}
