use subforge::segmentation::{apply_word_timing, normalize_part_text, TimeUnit};
use subforge::split_rules::{snap_llm_cuts_to_boundaries, split_by_rules, split_by_safe_positions};
use subforge::srt::SubCue;

#[test]
fn rules_split_does_not_break_words() {
    let text = "of what we actually did accomplished with the Node Editor tutorial series";
    let parts = split_by_rules(text, 3);
    assert!(parts.iter().all(|p| !p.contains("accompl") || p.contains("accomplished")));
    assert_eq!(parts.join(" "), normalize_part_text(text));
}

#[test]
fn llm_cuts_snap_to_safe_word_boundaries() {
    let text = "the series and if you haven't seen that";
    let cuts = snap_llm_cuts_to_boundaries(text, &[24]);
    let parts = split_by_safe_positions(text, &cuts);
    assert_eq!(parts, vec!["the series and if you".to_string(), "haven't seen that".to_string()]);
}

#[test]
fn word_timing_assigns_monotonic_nonzero_ranges() {
    let cue = SubCue { index: 1, start_ms: 1000, end_ms: 5000, text: "hello world this is subtitle".into() };
    let parts = vec!["hello world".to_string(), "this is subtitle".to_string()];
    let units = vec![
        TimeUnit { start_ms: 1000, end_ms: 1500, text: "hello".into() },
        TimeUnit { start_ms: 1500, end_ms: 2100, text: "world".into() },
        TimeUnit { start_ms: 2100, end_ms: 2800, text: "this".into() },
        TimeUnit { start_ms: 2800, end_ms: 3400, text: "is".into() },
        TimeUnit { start_ms: 3400, end_ms: 5000, text: "subtitle".into() },
    ];
    let out = apply_word_timing(&cue, &parts, &units).unwrap();
    assert_eq!(out.len(), 2);
    assert!(out[0].start_ms < out[0].end_ms);
    assert!(out[1].start_ms < out[1].end_ms);
    assert!(out[0].end_ms <= out[1].start_ms);
}
