use std::cell::Cell;

use subforge::google::{translate_all_cues_google, GoogleWebTranslateJob};
use subforge::llm_translate::{translate_all_cues, TranslateJob, PAUSE_MARKER};
use subforge::openai_compat::{ChatRequest, HttpReply};
use subforge::srt::SubCue;

fn cue(index: u32, text: &str) -> SubCue {
    SubCue { index, start_ms: index as i64 * 1000, end_ms: index as i64 * 1000 + 900, text: text.to_string() }
}

fn job<'a>(glossary: &'a [subforge::config::GlossaryEntry]) -> TranslateJob<'a> {
    TranslateJob {
        base_url: "https://api.example/v1",
        model: "m",
        api_key: "sk-1",
        timeout_sec: 30,
        max_retries_per_batch: 1,
        min_interval_ms: 0,
        source_lang: "en",
        target_lang: "zh",
        style: "term_first",
        keep_proper_nouns: true,
        glossary,
        glossary_case_sensitive: false,
    }
}

fn chat_reply(content: &str) -> HttpReply {
    let body = format!(
        "{{\"choices\":[{{\"message\":{{\"content\":{}}}}}]}}",
        serde_json::to_string(content).unwrap()
    );
    HttpReply { status: 200, body }
}

#[test]
fn llm_batch_answer_is_taken_in_order() {
    let cues = vec![cue(1, "hello"), cue(2, "world")];
    let calls = Cell::new(0u32);
    let call = |q: ChatRequest, _delay: u64| -> Result<HttpReply, String> {
        calls.set(calls.get() + 1);
        assert_eq!(q.url, "https://api.example/v1/chat/completions");
        assert_eq!(q.authorization, "Bearer sk-1");
        Ok(chat_reply("[{\"id\":1,\"text\":\"你好\"},{\"id\":2,\"text\":\"世界\"}]"))
    };
    let progress = Cell::new((0usize, 0usize));
    let (texts, fallback) =
        translate_all_cues(&call, &job(&[]), &cues, 800, &|| false, &|d, t| progress.set((d, t))).unwrap();
    assert_eq!(texts, vec!["你好", "世界"]);
    assert!(!fallback);
    assert_eq!(calls.get(), 1);
    assert_eq!(progress.get(), (2, 2));
}

#[test]
fn llm_partial_answer_is_repaired_item_by_item() {
    let cues = vec![cue(1, "hello"), cue(2, "world")];
    let call = |q: ChatRequest, _delay: u64| -> Result<HttpReply, String> {
        if q.body.contains("world") && !q.body.contains("hello") {
            Ok(chat_reply("[{\"id\":2,\"text\":\"世界\"}]"))
        } else {
            Ok(chat_reply("[{\"id\":1,\"text\":\"你好\"}]"))
        }
    };
    let (texts, fallback) = translate_all_cues(&call, &job(&[]), &cues, 800, &|| false, &|_, _| {}).unwrap();
    assert_eq!(texts, vec!["你好", "世界"]);
    assert!(!fallback);
}

#[test]
fn llm_failures_keep_the_source_text() {
    let cues = vec![cue(1, "hello"), cue(2, "world"), cue(3, "again")];
    let call = |_q: ChatRequest, _delay: u64| -> Result<HttpReply, String> { Err("offline".to_string()) };
    let (texts, fallback) = translate_all_cues(&call, &job(&[]), &cues, 800, &|| false, &|_, _| {}).unwrap();
    assert_eq!(texts, vec!["hello", "world", "again"]);
    assert!(fallback);
}

#[test]
fn llm_translation_stops_for_a_pause_and_checks_settings() {
    let cues = vec![cue(1, "hello")];
    let call = |_q: ChatRequest, _delay: u64| -> Result<HttpReply, String> { Err("offline".to_string()) };
    assert_eq!(
        translate_all_cues(&call, &job(&[]), &cues, 800, &|| true, &|_, _| {}),
        Err(PAUSE_MARKER.to_string())
    );
    let mut j = job(&[]);
    j.api_key = "  ";
    assert_eq!(
        translate_all_cues(&call, &j, &cues, 800, &|| false, &|_, _| {}),
        Err("LLM API Key is not configured".to_string())
    );
    let (texts, fb) = translate_all_cues(&call, &job(&[]), &[], 800, &|| false, &|_, _| {}).unwrap();
    assert!(texts.is_empty() && !fb);
}

fn google_job() -> GoogleWebTranslateJob<'static> {
    GoogleWebTranslateJob { provider_url: "", use_proxy: false, min_interval_ms: 0, source_lang: "EN", target_lang: " zh " }
}

#[test]
fn google_translates_cue_by_cue_and_retries_server_errors() {
    let cues = vec![cue(1, "hello"), cue(2, "a b")];
    let attempts = Cell::new(0u32);
    let send = |url: String| -> Result<HttpReply, String> {
        assert!(url.starts_with("https://translate.googleapis.com/translate_a/single?client=gtx&sl=en&tl=zh&dt=t&q="));
        attempts.set(attempts.get() + 1);
        if url.ends_with("q=a%20b") && attempts.get() == 2 {
            return Ok(HttpReply { status: 503, body: "busy".into() });
        }
        let text = if url.ends_with("q=hello") { "你好" } else { "甲 乙" };
        Ok(HttpReply { status: 200, body: format!("[[[\"{text}\",\"x\",null,null,10]],null,\"en\"]") })
    };
    let items = std::cell::RefCell::new(Vec::new());
    let out = translate_all_cues_google(
        &send,
        &google_job(),
        &cues,
        &|| false,
        &|_ms| false,
        &|_, _| {},
        &|i, t| items.borrow_mut().push((i, t)),
    )
    .unwrap();
    assert_eq!(out, vec!["你好", "甲 乙"]);
    assert_eq!(attempts.get(), 3);
    assert_eq!(items.borrow().len(), 2);
}

#[test]
fn google_stops_on_client_errors_and_blank_target() {
    let cues = vec![cue(1, "hello")];
    let send = |_url: String| -> Result<HttpReply, String> { Ok(HttpReply { status: 403, body: "denied".into() }) };
    let err = translate_all_cues_google(&send, &google_job(), &cues, &|| false, &|_| false, &|_, _| {}, &|_, _| {})
        .unwrap_err();
    assert_eq!(err, "Google 翻译 HTTP 403: denied");
    let mut j = google_job();
    j.target_lang = " ";
    let err = translate_all_cues_google(&send, &j, &cues, &|| false, &|_| false, &|_, _| {}, &|_, _| {}).unwrap_err();
    assert_eq!(err, "Google 翻译目标语言不能为空");
    let offline = |_url: String| -> Result<HttpReply, String> { Err("timeout".into()) };
    let err = translate_all_cues_google(&offline, &google_job(), &cues, &|| false, &|_| false, &|_, _| {}, &|_, _| {})
        .unwrap_err();
    assert_eq!(err, "Google 翻译重试 3 次仍失败：timeout");
}
