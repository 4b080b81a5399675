use subforge::config::AppConfig;

#[test]
fn translation_is_disabled_for_original_only_mode() {
    let mut cfg = AppConfig::default();
    cfg.translator.engine = "llm".into();
    cfg.subtitle.mode = "original_only".into();
    assert!(!cfg.will_run_translation());
}

#[test]
fn translation_is_disabled_when_engine_is_none() {
    let mut cfg = AppConfig::default();
    cfg.translator.engine = "none".into();
    cfg.subtitle.mode = "dual_files".into();
    assert!(!cfg.will_run_translation());
}

#[test]
fn translation_runs_when_mode_and_engine_are_enabled() {
    let mut cfg = AppConfig::default();
    cfg.translator.engine = "llm".into();
    cfg.subtitle.mode = "bilingual_single".into();
    assert!(cfg.will_run_translation());
}

#[test]
fn validate_rejects_invalid_parallel_limit() {
    let mut cfg = AppConfig::default();
    cfg.runtime.max_parallel_tasks = 0;
    assert!(cfg.validate().is_err());
}

#[test]
fn validate_rejects_custom_output_without_path() {
    let mut cfg = AppConfig::default();
    cfg.subtitle.output_dir_mode = "custom".into();
    cfg.subtitle.custom_output_dir.clear();
    assert!(cfg.validate().is_err());
}

#[test]
fn validate_rejects_invalid_vad_threshold() {
    let mut cfg = AppConfig::default();
    cfg.whisper.vad_threshold_bits = 0.95f32.to_bits();
    assert!(cfg.validate().is_err());
}
