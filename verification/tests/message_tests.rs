use subforge::llm_translate::parse_batch_json;
use subforge::openai_compat::chat_request_body;

#[test]
fn partial_batch_answer_names_the_missing_ids() {
    let e = parse_batch_json(r#"[{"id":1,"text":"你好"}]"#, &[1, 2, 3]).unwrap_err();
    assert_eq!(e, "Returned 1 items, expected 3; missing ids=[2, 3]");
}

#[test]
fn duplicate_batch_answer_is_named() {
    let e = parse_batch_json(r#"[{"id":1,"text":"你好"},{"id":1,"text":"世界"}]"#, &[1, 2]).unwrap_err();
    assert_eq!(e, "Duplicate id in JSON response");
}

#[test]
fn request_body_escapes_quotes_and_controls() {
    let body = chat_request_body("m\"1", "say \\ hi", "a\nb\u{1}", "0.1", 5);
    assert_eq!(
        body,
        "{\"max_tokens\":5,\"messages\":[{\"content\":\"say \\\\ hi\",\"role\":\"system\"},{\"content\":\"a\\nb\\u0001\",\"role\":\"user\"}],\"model\":\"m\\\"1\",\"temperature\":0.1}"
    );
}
