use subforge::llm_translate::{build_batches, parse_batch_json, parse_batch_partial, BatchParse};
use subforge::srt::SubCue;

#[test]
fn parse_batch_json_accepts_expected_payload() {
    let parsed = parse_batch_json(r#"[{"id":1,"text":"你好"},{"id":2,"text":"世界"}]"#, &[1, 2]).unwrap();
    assert_eq!(parsed, vec!["你好".to_string(), "世界".to_string()]);
}

#[test]
fn parse_batch_json_rejects_wrong_count() {
    let err = parse_batch_json(r#"[{"id":1,"text":"你好"}]"#, &[1, 2]).unwrap_err();
    assert!(err.contains("expected"));
}

#[test]
fn parse_batch_json_rejects_duplicate_id() {
    let err = parse_batch_json(r#"[{"id":1,"text":"你好"},{"id":1,"text":"世界"}]"#, &[1, 2]).unwrap_err();
    assert!(err.contains("Duplicate"));
}

#[test]
fn parse_batch_partial_accepts_missing_items() {
    let parsed = parse_batch_partial(r#"[{"id":1,"text":"你好"}]"#, &[1, 2]).unwrap();
    match parsed {
        BatchParse::Partial { found, missing } => {
            assert_eq!(found, vec![(1, "你好".to_string())]);
            assert_eq!(missing, vec![2]);
        }
        BatchParse::Complete(_) => panic!("expected partial"),
    }
}

#[test]
fn build_batches_splits_large_segments() {
    let cues = vec![
        SubCue { index: 1, start_ms: 0, end_ms: 1000, text: "a".repeat(80) },
        SubCue { index: 2, start_ms: 1000, end_ms: 2000, text: "b".repeat(80) },
        SubCue { index: 3, start_ms: 2000, end_ms: 3000, text: "c".repeat(20) },
    ];
    let batches = build_batches(&cues, 100);
    assert_eq!(batches, vec![vec![0], vec![1, 2]]);
}
