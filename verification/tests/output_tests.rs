use std::path::Path;

use subforge::paths::{resolve_bilingual_srt_path, resolve_original_srt_path, stable_path_hash};

#[test]
fn stable_hash_is_deterministic() {
    assert_eq!(stable_path_hash("C:/videos/demo.mp4"), stable_path_hash("C:/videos/demo.mp4"));
}

#[test]
fn original_path_uses_video_dir_without_hash() {
    let output = resolve_original_srt_path("C:/videos/demo.mp4", "C:/videos/demo.mp4", "video_dir", "", "en").unwrap();
    assert_eq!(Path::new(&output), Path::new("C:/videos/demo_en.srt"));
}

#[test]
fn original_path_uses_hash_in_custom_dir() {
    let output = resolve_original_srt_path("C:/videos/demo.mp4", "C:/videos/demo.mp4", "custom", "D:/subs", "zh").unwrap();
    let output = Path::new(&output);
    let file_name = output.file_name().unwrap().to_string_lossy();
    assert!(output.starts_with("D:/subs"));
    assert!(file_name.starts_with("demo_"));
    assert!(file_name.ends_with("_zh.srt"));
}

#[test]
fn bilingual_path_uses_plain_name_in_video_dir() {
    let output = resolve_bilingual_srt_path("C:/videos/demo.mp4", "C:/videos/demo.mp4", "video_dir", "").unwrap();
    assert_eq!(Path::new(&output), Path::new("C:/videos/demo.srt"));
}
