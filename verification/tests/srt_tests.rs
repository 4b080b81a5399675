use subforge::srt::{
    build_bilingual_cues_optimized, normalize_cues_for_srt, optimize_source_cues, optimize_translated_cues, SubCue,
};

#[test]
fn normalize_removes_adjacent_overlaps() {
    let cues = vec![
        SubCue { index: 1, start_ms: 1000, end_ms: 2000, text: "Hello guys,".into() },
        SubCue { index: 2, start_ms: 1800, end_ms: 2600, text: "my name is Pavel".into() },
        SubCue { index: 3, start_ms: 2400, end_ms: 3200, text: "Krupalov from blenderfreak.com".into() },
    ];
    let out = normalize_cues_for_srt(&cues);
    assert_eq!(out.len(), 3);
    assert!(out[0].end_ms <= out[1].start_ms);
    assert!(out[1].end_ms <= out[2].start_ms);
    assert_eq!(out[0].index, 1);
    assert_eq!(out[2].index, 3);
}

#[test]
fn normalize_repairs_non_positive_durations() {
    let cues = vec![
        SubCue { index: 9, start_ms: 500, end_ms: 500, text: "a".into() },
        SubCue { index: 3, start_ms: 500, end_ms: 700, text: "b".into() },
    ];
    let out = normalize_cues_for_srt(&cues);
    assert!(out[0].end_ms > out[0].start_ms);
    assert!(out[1].end_ms > out[1].start_ms);
    assert!(out[0].end_ms <= out[1].start_ms);
    assert_eq!(out[0].index, 1);
    assert_eq!(out[1].index, 2);
}

#[test]
fn optimize_source_cues_merges_short_english_fragments() {
    let cues = vec![
        SubCue {
            index: 1,
            start_ms: 0,
            end_ms: 4200,
            text: "as you can see here the previous version we had just directly".into(),
        },
        SubCue { index: 2, start_ms: 4200, end_ms: 5000, text: "instancing".into() },
    ];
    let out = optimize_source_cues(&cues);
    assert_eq!(out.len(), 1);
    assert!(out[0].text.contains("instancing"));
}

#[test]
fn optimize_translated_cues_merges_short_chinese_fragments() {
    let cues = vec![
        SubCue { index: 1, start_ms: 0, end_ms: 4200, text: "覆盖你的 Node Editor 小部件，你可以".into() },
        SubCue { index: 2, start_ms: 4200, end_ms: 5000, text: "通过".into() },
    ];
    let out = optimize_translated_cues(&cues);
    assert_eq!(out.len(), 1);
    assert!(out[0].text.contains("通过"));
}

#[test]
fn bilingual_optimization_merges_joint_fragments() {
    let sources = vec![
        SubCue {
            index: 1,
            start_ms: 0,
            end_ms: 4200,
            text: "your Node Editor widget with your own graphic view you can".into(),
        },
        SubCue { index: 2, start_ms: 4200, end_ms: 5000, text: "do that by".into() },
    ];
    let translated: Vec<String> = vec!["覆盖你的 Node Editor 小部件，你可以".into(), "通过".into()];
    let out = build_bilingual_cues_optimized(&sources, &translated).unwrap();
    assert_eq!(out.len(), 1);
    assert!(out[0].text.contains("通过"));
    assert!(out[0].text.contains("do that by"));
}
