use subforge::commands::{
    cache_stats, clear_threshold_secs, llm_test_from_error, llm_test_from_reply, prepare_llm_test, record_cleared,
    should_clear_entry, CacheClearResultDto, TestLlmRequest,
};
use subforge::config::AppConfig;
use subforge::download::{
    check_final_size, check_response, compute_progress, new_download, on_chunk, on_headers, on_stream_end,
    resolve_total_bytes, DownloadFailure, StreamEnd,
};
use subforge::hardware::{assemble_hardware_info, primary_vram_mb, recommend_whisper_models, GpuInfoDto, HardwareFacts};
use subforge::job::{effective_threads, translation_progress};
use subforge::limits::{effective_max_parallel_tasks, LlmRequestSlots};
use subforge::segmentation::TimeUnit;
use subforge::timing::sort_dedup_time_units;
use subforge::models::{build_file_url, entry_for_id, list_catalog, model_file_path, resolve_download_base};
use subforge::whisper::{
    build_whisper_args, language_from_whisper_json, map_progress, parse_progress_line, release_asset_url_from_text,
    release_entry_path, seconds_with_millis, whisper_failure_message, VadArgs,
};

#[test]
fn llm_slots_never_exceed_the_cap() {
    let mut slots = LlmRequestSlots::new();
    let p = slots.acquire(1).expect("first slot");
    assert!(slots.acquire(1).is_none());
    slots.release(p);
    let q = slots.acquire(1).expect("slot after release");
    slots.release(q);
    let a = slots.acquire(0).expect("a cap of 0 still allows one");
    assert!(slots.acquire(0).is_none());
    slots.release(a);
}

#[test]
fn parallel_task_cap_follows_settings_and_cores() {
    let mut cfg = AppConfig::default();
    assert_eq!(effective_max_parallel_tasks(&cfg, Some(16)), 2);
    cfg.runtime.max_parallel_tasks = 10;
    assert_eq!(effective_max_parallel_tasks(&cfg, Some(6)), 3);
    assert_eq!(effective_max_parallel_tasks(&cfg, None), 2);
    assert_eq!(effective_max_parallel_tasks(&cfg, Some(0)), 1);
    cfg.runtime.auto_detect_hardware = false;
    cfg.runtime.max_parallel_tasks = 40;
    assert_eq!(effective_max_parallel_tasks(&cfg, Some(2)), 16);
    cfg.runtime.max_parallel_tasks = 0;
    assert_eq!(effective_max_parallel_tasks(&cfg, Some(2)), 1);
}

#[test]
fn thread_count_takes_snapshot_then_settings_then_cores() {
    assert_eq!(effective_threads(4, 8, Some(16)), 4);
    assert_eq!(effective_threads(0, 8, Some(6)), 6);
    assert_eq!(effective_threads(0, 0, None), 1);
    assert_eq!(effective_threads(0, 12, None), 8);
}

#[test]
fn translation_progress_spans_62_to_88() {
    assert_eq!(translation_progress(0, 0), 62);
    assert_eq!(translation_progress(0, 4), 62);
    assert_eq!(translation_progress(2, 4), 75);
    assert_eq!(translation_progress(4, 4), 88);
    assert_eq!(translation_progress(9, 4), 88);
}

#[test]
fn download_progress_and_totals() {
    assert_eq!(compute_progress(0, None), 14);
    assert_eq!(compute_progress(50, Some(100)), 56);
    assert_eq!(compute_progress(100, Some(100)), 99);
    assert_eq!(compute_progress(500, Some(100)), 99);
    assert_eq!(resolve_total_bytes(0, Some("bytes 0-99/2048"), Some(100)), Some(2048));
    assert_eq!(resolve_total_bytes(100, Some("bytes 100-199/*"), Some(100)), Some(200));
    assert_eq!(resolve_total_bytes(10, None, None), None);
    assert!(check_response(0, 200, "200 OK").is_ok());
    assert_eq!(check_response(0, 404, "404 Not Found"), Err("HTTP 404 Not Found：请检查镜像地址或网络".to_string()));
    assert!(check_response(10, 206, "206").is_ok());
    assert_eq!(
        check_response(10, 200, "200 OK"),
        Err("下载源未返回断点续传响应（HTTP 200 OK），无法继续下载".to_string())
    );
    assert!(check_final_size(1024 * 1024).is_ok());
    assert_eq!(check_final_size(10), Err("下载文件过小，可能是错误页面".to_string()));
}

#[test]
fn download_state_resumes_then_gives_up() {
    let mut st = new_download(1000);
    assert_eq!(on_headers(&mut st, None, Some(100)), Some(14));
    assert_eq!(st.total_exact, Some(100));
    assert_eq!(on_headers(&mut st, None, Some(5)), None);
    assert_eq!(on_chunk(&mut st, 50), Some(56));
    assert_eq!(on_chunk(&mut st, 1), None);
    assert!(matches!(on_stream_end(&mut st, None), StreamEnd::Retry));
    assert_eq!(st.retry_count, 1);
    st.retry_count = 3;
    match on_stream_end(&mut st, None) {
        StreamEnd::GiveUp(DownloadFailure::Short { received, expected }) => {
            assert_eq!((received, expected), (51, 100));
        },
        other => panic!("unexpected {:?}", other),
    }
    assert!(matches!(on_stream_end(&mut st, Some("reset".into())), StreamEnd::GiveUp(DownloadFailure::Stream(_))));
    assert_eq!(on_chunk(&mut st, 49), Some(99));
    assert!(matches!(on_stream_end(&mut st, None), StreamEnd::Finished));

    let mut open = new_download(10);
    on_headers(&mut open, None, None);
    assert_eq!(open.progress_total, Some(10));
    assert!(matches!(on_stream_end(&mut open, None), StreamEnd::Finished));
}

#[test]
fn model_catalog_lookups() {
    let base = entry_for_id("base").unwrap();
    assert_eq!(base.file_name, "ggml-base.bin");
    assert_eq!(base.size_bytes_estimate, 148 * 1024 * 1024);
    assert!(entry_for_id("huge").is_none());
    assert_eq!(model_file_path("/app", "tiny"), Ok("/app/models/whisper/ggml-tiny.bin".to_string()));
    assert_eq!(model_file_path("/app", "huge"), Err("未知模型: huge".to_string()));
    assert_eq!(resolve_download_base(" https://m.example/x/ ", true, "https://d.example"), "https://m.example/x");
    assert_eq!(resolve_download_base("https://m.example", false, " https://d.example// "), "https://d.example");
    assert_eq!(
        resolve_download_base("", true, ""),
        "https://huggingface.co/ggerganov/whisper.cpp/resolve/main"
    );
    assert_eq!(build_file_url("https://d.example//", "ggml-base.bin"), "https://d.example/ggml-base.bin");
}

#[test]
fn model_listing_marks_downloaded_files() {
    let found = vec![None, Some(Some(123)), Some(None)];
    let list = list_catalog("/app", "", true, "", &found);
    assert_eq!(list.models.len(), 5);
    assert_eq!(list.models_dir, "/app/models/whisper");
    assert!(!list.models[0].downloaded);
    assert!(list.models[1].downloaded);
    assert_eq!(list.models[1].local_size_bytes, Some(123));
    assert!(list.models[2].downloaded);
    assert_eq!(list.models[2].local_size_bytes, None);
    assert!(!list.models[4].downloaded);
    assert_eq!(list.models[4].id, "large-v3");
}

#[test]
fn hardware_recommendations_by_vram() {
    let (m, note) = recommend_whisper_models(false, Some(16000));
    assert_eq!(m, vec!["tiny", "base", "small"]);
    assert_eq!(note, "未启用 GPU 或按 CPU 推理：推荐 tiny～base，视机器可适当使用 small");
    let (m, note) = recommend_whisper_models(true, Some(2048));
    assert_eq!(m, vec!["base", "small"]);
    assert_eq!(note, "显存约 2048MB（小于 4GB）：推荐 base 或 small");
    let (m, _) = recommend_whisper_models(true, Some(8192));
    assert_eq!(m, vec!["small", "medium"]);
    let (m, _) = recommend_whisper_models(true, Some(12000));
    assert_eq!(m, vec!["medium", "large-v3"]);
    let gpus = vec![
        GpuInfoDto { name: "A".into(), memory_total_mb: None },
        GpuInfoDto { name: "B".into(), memory_total_mb: Some(6144) },
    ];
    assert_eq!(primary_vram_mb(&gpus), Some(6144));
}

#[test]
fn hardware_info_falls_back_to_named_adapters() {
    let facts = HardwareFacts {
        first_cpu_brand: None,
        cpu_logical_cores: 8,
        cpu_physical_cores: None,
        memory_total_bytes: 16 * 1024 * 1024 * 1024,
        memory_available_bytes: 1024 * 1024 * 1024,
        nvml_gpus: vec![],
        nvml_available: false,
        os_gpu_names: vec!["Microsoft Basic Render Driver".into(), "Intel UHD".into()],
    };
    let info = assemble_hardware_info(true, &facts);
    assert_eq!(info.memory_total_mb, 16384);
    assert_eq!(info.memory_available_mb, 1024);
    assert_eq!(info.cpu_logical_cores, 8);
    assert_eq!(info.cpu_physical_cores, 8);
    assert_eq!(info.cpu_brand, "Unknown CPU");
    assert_eq!(info.gpus.len(), 1);
    assert_eq!(info.gpus[0].name, "Intel UHD");
    assert!(!info.nvidia_nvml_available);
    assert_eq!(info.whisper_recommended_models, vec!["tiny", "base", "small"]);
}

#[test]
fn whisper_arguments_and_progress() {
    let vad = Some(VadArgs {
        model_path: "/m/vad.bin".into(),
        threshold: "0.50".into(),
        min_speech_ms: 500,
        min_silence_ms: 300,
        max_segment_ms: 30000,
    });
    let args = build_whisper_args("/m/b.bin", "/c/a.wav", " en ", 4, true, &vad, true, &None, false, "/c/w");
    let expected: Vec<&str> = vec![
        "-m", "/m/b.bin", "-f", "/c/a.wav", "-l", "en", "-t", "4", "-ngl", "0", "--vad", "-vm", "/m/vad.bin", "-vt",
        "0.50", "-vspd", "500", "-vsd", "300", "-vmsd", "30.000", "--print-progress", "-osrt", "-of", "/c/w",
    ];
    assert_eq!(args, expected);
    let json_args = build_whisper_args("m", "w", "", 1, false, &None, false, &Some(" hi ".into()), true, "p");
    assert_eq!(json_args, vec!["-m", "m", "-f", "w", "-l", "auto", "-t", "1", "--prompt", "hi", "-ml", "1", "-sow", "-ojf", "-of", "p"]);
    assert_eq!(seconds_with_millis(1500), "1.500");
    assert_eq!(seconds_with_millis(7), "0.007");
    assert_eq!(parse_progress_line("whisper_print_progress_callback: progress =  42%"), Some(42));
    assert_eq!(parse_progress_line("progress = 250%"), Some(100));
    assert_eq!(parse_progress_line("no numbers here"), None);
    assert_eq!(map_progress(50, 15, 54), 42);
    assert_eq!(map_progress(100, 200, 100), 255);
    assert_eq!(whisper_failure_message("  ", "out"), "Whisper 识别失败: out");
    assert_eq!(whisper_failure_message("bad", "out"), "Whisper 识别失败: bad");
}

#[test]
fn whisper_language_and_release_lookup() {
    assert_eq!(language_from_whisper_json(Some("{\"result\":{\"language\":\"EN\"}}"), "auto"), "en");
    assert_eq!(language_from_whisper_json(Some("not json"), "ja"), "ja");
    assert_eq!(language_from_whisper_json(None, "zh"), "zh");
    let release = "{\"assets\":[{\"name\":\"whisper-bin-Win32.zip\",\"browser_download_url\":\"u32\"},\
                   {\"name\":\"whisper-bin-x64.zip\",\"browser_download_url\":\"u64\"}]}";
    assert_eq!(release_asset_url_from_text(release, "whisper-bin-x64.zip"), Ok("u64".to_string()));
    assert_eq!(
        release_asset_url_from_text(release, "other.zip"),
        Err("未找到适用于当前系统的 whisper.cpp 包: other.zip".to_string())
    );
    assert!(release_asset_url_from_text("{", "x").unwrap_err().starts_with("解析 whisper.cpp 发布信息失败: "));
    let entry = release_entry_path(&vec!["Release".to_string(), "whisper-cli.exe".to_string()]);
    assert_eq!(entry, Some(vec!["whisper-cli.exe".to_string()]));
    assert_eq!(release_entry_path(&vec!["Release".to_string()]), None);
    assert_eq!(release_entry_path(&vec!["Other".to_string(), "x.dll".to_string()]), None);
}

#[test]
fn cache_statistics_and_clearing() {
    let s = cache_stats(&vec![10, 20, u64::MAX]);
    assert_eq!(s.entry_count, 3);
    assert_eq!(s.total_bytes, u64::MAX);
    assert_eq!(clear_threshold_secs(0), None);
    assert_eq!(clear_threshold_secs(2), Some(172_800));
    assert!(should_clear_entry(None, None));
    assert!(should_clear_entry(Some(10), Some(10)));
    assert!(!should_clear_entry(Some(10), Some(9)));
    assert!(!should_clear_entry(Some(10), None));
    let mut r = CacheClearResultDto { deleted_count: 0, freed_bytes: 5 };
    record_cleared(&mut r, 7);
    assert_eq!((r.deleted_count, r.freed_bytes), (1, 12));
}

#[test]
fn llm_connection_test_outcomes() {
    let req = |base: &str, model: &str, key: Option<&str>| TestLlmRequest {
        base_url: base.to_string(),
        model: model.to_string(),
        api_key: key.map(|k| k.to_string()),
        timeout_sec: 0,
    };
    assert_eq!(prepare_llm_test(&req(" ", "m", None), "k").unwrap_err().code, "invalid_input");
    assert_eq!(prepare_llm_test(&req("u", " ", None), "k").unwrap_err().message, "模型名称不能为空");
    assert_eq!(prepare_llm_test(&req("u", "m", Some(" ")), " ").unwrap_err().code, "no_api_key");
    let probe = prepare_llm_test(&req(" https://api.example/v1 ", " gpt ", Some(" ")), " sk-9 ").unwrap();
    assert_eq!(probe.url, "https://api.example/v1/chat/completions");
    assert_eq!(probe.authorization, "Bearer sk-9");
    assert_eq!(probe.timeout_secs, 1);
    assert_eq!(
        probe.body,
        "{\"max_tokens\":1,\"messages\":[{\"content\":\"ping\",\"role\":\"user\"}],\"model\":\"gpt\"}"
    );
    let ok = llm_test_from_reply(204, "");
    assert!(ok.ok && ok.code == "ok");
    let auth = llm_test_from_reply(401, "nope");
    assert_eq!(auth.code, "auth");
    assert_eq!(auth.detail.as_deref(), Some("nope"));
    assert_eq!(llm_test_from_reply(418, "x").message, "HTTP 418");
    assert_eq!(llm_test_from_reply(429, "x").code, "rate_limit");
    assert_eq!(llm_test_from_error(true, true, "e".into()).code, "timeout");
    assert_eq!(llm_test_from_error(false, true, "e".into()).detail.as_deref(), Some("e"));
    assert_eq!(llm_test_from_error(false, false, "e".into()).code, "request_failed");
}

#[test]
fn time_units_are_sorted_stably_without_repeats() {
    let u = |s: i64, e: i64, t: &str| TimeUnit { start_ms: s, end_ms: e, text: t.to_string() };
    let out = sort_dedup_time_units(vec![
        u(500, 900, "b"),
        u(0, 400, "a"),
        u(500, 900, "c"),
        u(500, 900, "b"),
        u(0, 400, "a"),
        u(500, 700, "x"),
    ]);
    let got: Vec<(i64, i64, String)> = out.into_iter().map(|t| (t.start_ms, t.end_ms, t.text)).collect();
    let want: Vec<(i64, i64, String)> = vec![
        (0, 400, "a".into()),
        (500, 700, "x".into()),
        (500, 900, "b".into()),
        (500, 900, "c".into()),
        (500, 900, "b".into()),
    ];
    assert_eq!(got, want);
    assert!(sort_dedup_time_units(Vec::new()).is_empty());
}

#[test]
fn video_extensions_and_language_codes() {
    assert!(subforge::paths::video_extension_ok("/v/clip.MP4"));
    assert!(subforge::paths::video_extension_ok("/v/clip.webm"));
    assert!(!subforge::paths::video_extension_ok("/v/clip.txt"));
    assert!(!subforge::paths::video_extension_ok("/v/clip"));
    assert_eq!(subforge::paths::sanitize_lang_code(" EN-us!? "), "en-us");
    assert_eq!(subforge::paths::sanitize_lang_code("Auto"), "und");
    assert_eq!(subforge::paths::sanitize_lang_code("   "), "und");
    assert_eq!(subforge::paths::sanitize_lang_code("abcdefghijklmnopqrstuvwxyz"), "abcdefghijklmnop");
}
