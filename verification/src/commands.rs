//! What the settings and cache commands answer: the connection tests for
//! the LLM endpoint and Google Web translation, and the cache statistics.
//! The requests and the directory walks are the caller's part.
use vstd::prelude::*;

use crate::google::{effective_google_url, google_body, google_lang, google_request, google_request_url, google_url, normalize_lang, parse_google_body, GoogleBody};
use crate::json::{json_string_literal, quote_json_string};
use crate::openai_compat::{bearer, bearer_header, chat_completions_url, chat_url, on_char_boundary, status_success, truncate_detail, truncated, utf8_len};
use crate::text::{is_blank, push_str, str_eq, trim, trim_string};

verus! {

/// The application directory, as the commands receive it.
#[derive(Debug, Clone)]
pub struct AppRoot(pub String);

#[derive(Debug)]
pub struct AppInfo {
    pub app_dir: String,
    pub version: String,
}

#[derive(Debug)]
pub struct CacheStatsDto {
    pub entry_count: u32,
    pub total_bytes: u64,
}

#[derive(Debug)]
pub struct CacheClearResultDto {
    pub deleted_count: u32,
    pub freed_bytes: u64,
}

pub open spec fn sat_add_u32(a: u32, b: u32) -> u32 {
    if a as int + b as int > u32::MAX {
        u32::MAX
    } else {
        (a + b) as u32
    }
}

pub open spec fn sat_add_u64(a: u64, b: u64) -> u64 {
    if a as int + b as int > u64::MAX {
        u64::MAX
    } else {
        (a + b) as u64
    }
}

/// The statistics of the cache directories of these sizes: their number
/// and total size, each kept within its integer type.
pub open spec fn stats_of(sizes: Seq<u64>) -> (u32, u64)
    decreases sizes.len(),
{
    if sizes.len() == 0 {
        (0, 0)
    } else {
        let (c, t) = stats_of(sizes.drop_last());
        (sat_add_u32(c, 1), sat_add_u64(t, sizes.last()))
    }
}

/// `sizes` holds the size of each cache directory.
pub fn cache_stats(sizes: &Vec<u64>) -> (r: CacheStatsDto)
    ensures
        (r.entry_count, r.total_bytes) == stats_of(sizes@),
{
    let mut count: u32 = 0;
    let mut total: u64 = 0;
    let mut i: usize = 0;
    while i < sizes.len()
        invariant
            i <= sizes@.len(),
            (count, total) == stats_of(sizes@.subrange(0, i as int)),
        decreases sizes.len() - i,
    {
        assert(sizes@.subrange(0, i + 1).drop_last() =~= sizes@.subrange(0, i as int));
        count = count.saturating_add(1);
        total = total.saturating_add(sizes[i]);
        i += 1;
    }
    assert(sizes@.subrange(0, sizes@.len() as int) =~= sizes@);
    CacheStatsDto { entry_count: count, total_bytes: total }
}

/// The minimum age in seconds of a directory to clear: none for 0 days
/// (everything goes).
pub fn clear_threshold_secs(older_than_days: u32) -> (r: Option<u64>)
    ensures
        older_than_days == 0 ==> r is None,
        older_than_days > 0 ==> r == Some((older_than_days as int * 86400) as u64),
{
    if older_than_days == 0 {
        None
    } else {
        Some(older_than_days as u64 * 86400)
    }
}

/// A directory is cleared where there is no threshold, or its age is known
/// and reaches it.
pub fn should_clear_entry(threshold_secs: Option<u64>, age_secs: Option<u64>) -> (r: bool)
    ensures
        r == match threshold_secs {
            None => true,
            Some(t) => match age_secs {
                Some(a) => a >= t,
                None => false,
            },
        },
{
    match threshold_secs {
        None => true,
        Some(t) => match age_secs {
            Some(a) => a >= t,
            None => false,
        },
    }
}

/// Counts a cleared directory of this size.
pub fn record_cleared(result: &mut CacheClearResultDto, size: u64)
    ensures
        final(result).deleted_count == sat_add_u32(old(result).deleted_count, 1),
        final(result).freed_bytes == sat_add_u64(old(result).freed_bytes, size),
{
    result.deleted_count = result.deleted_count.saturating_add(1);
    result.freed_bytes = result.freed_bytes.saturating_add(size);
}

// ---------------------------------------------------------------------------
// Connection tests
// ---------------------------------------------------------------------------

/// The outcome of a connection test.
#[derive(Debug)]
pub struct LlmTestResult {
    pub ok: bool,
    pub code: String,
    pub message: String,
    pub detail: Option<String>,
}

pub open spec fn result_is(r: LlmTestResult, ok: bool, code: Seq<char>, message: Seq<char>) -> bool {
    r.ok == ok && r.code@ == code && r.message@ == message
}

fn result(ok: bool, code: &str, message: &str, detail: Option<String>) -> (r: LlmTestResult)
    ensures
        result_is(r, ok, code@, message@),
        r.detail == detail,
{
    LlmTestResult { ok, code: code.to_string(), message: message.to_string(), detail }
}

/// The LLM endpoint test as asked for.
#[derive(Debug)]
pub struct TestLlmRequest {
    pub base_url: String,
    pub model: String,
    pub api_key: Option<String>,
    pub timeout_sec: u32,
}

/// The request the LLM test sends.
#[derive(Debug)]
pub struct LlmProbe {
    pub url: String,
    pub body: String,
    pub authorization: String,
    pub timeout_secs: u64,
}

/// The key the test uses: the one typed where it is not blank, else the
/// stored one.
pub open spec fn test_key(typed: Option<String>, stored: Seq<char>) -> Seq<char> {
    match typed {
        Some(k) => if trim(k@).len() > 0 {
            k@
        } else {
            stored
        },
        None => stored,
    }
}

/// The one-token chat request the test sends, its keys in the order
/// `serde_json` writes them.
pub open spec fn probe_body(model: Seq<char>) -> Seq<char> {
    "{\"max_tokens\":1,\"messages\":[{\"content\":\"ping\",\"role\":\"user\"}],\"model\":"@ + json_string_literal(
        trim(model),
    ) + "}"@
}

/// Prepares the LLM test, or answers it at once: a blank base URL or model
/// is refused, and so is a missing key (`stored_key` is the one in the
/// vault).
pub fn prepare_llm_test(req: &TestLlmRequest, stored_key: &str) -> (r: Result<LlmProbe, LlmTestResult>)
    ensures
        trim(req.base_url@).len() == 0 ==> (r matches Err(x) && result_is(x, false, "invalid_input"@, "Base URL 不能为空"@)
            && x.detail is None),
        trim(req.base_url@).len() > 0 && trim(req.model@).len() == 0 ==> (r matches Err(x) && result_is(
            x,
            false,
            "invalid_input"@,
            "模型名称不能为空"@,
        ) && x.detail is None),
        trim(req.base_url@).len() > 0 && trim(req.model@).len() > 0 && trim(test_key(req.api_key, stored_key@)).len()
            == 0 ==> (r matches Err(x) && result_is(
            x,
            false,
            "no_api_key"@,
            "未配置 API Key：请在输入框填写或先保存配置"@,
        ) && x.detail is None),
        trim(req.base_url@).len() > 0 && trim(req.model@).len() > 0 && trim(test_key(req.api_key, stored_key@)).len()
            > 0 ==> (r matches Ok(p) && p.url@ == chat_url(trim(req.base_url@)) && p.body@ == probe_body(req.model@)
            && p.authorization@ == bearer(trim(test_key(req.api_key, stored_key@))) && p.timeout_secs == (if req.timeout_sec
            < 1 {
            1
        } else {
            req.timeout_sec
        })),
{
    if is_blank(req.base_url.as_str()) {
        return Err(result(false, "invalid_input", "Base URL 不能为空", None));
    }
    if is_blank(req.model.as_str()) {
        return Err(result(false, "invalid_input", "模型名称不能为空", None));
    }
    let key: String = match &req.api_key {
        Some(k) => if !is_blank(k.as_str()) {
            k.clone()
        } else {
            stored_key.to_string()
        },
        None => stored_key.to_string(),
    };
    if is_blank(key.as_str()) {
        return Err(result(false, "no_api_key", "未配置 API Key：请在输入框填写或先保存配置", None));
    }
    let base = trim_string(req.base_url.as_str());
    let url = chat_completions_url(base.as_str());
    let model = trim_string(req.model.as_str());
    let mut body = "{\"max_tokens\":1,\"messages\":[{\"content\":\"ping\",\"role\":\"user\"}],\"model\":".to_string();
    push_str(&mut body, quote_json_string(model.as_str()).as_str());
    push_str(&mut body, "}");
    let tk = trim_string(key.as_str());
    let authorization = bearer_header(tk.as_str());
    let timeout_secs: u64 = if req.timeout_sec < 1 {
        1
    } else {
        req.timeout_sec as u64
    };
    Ok(LlmProbe { url, body, authorization, timeout_secs })
}

/// Whether the detail of a reply can be cut at 800 bytes: the cut must
/// fall between characters where the trimmed text is longer.
pub open spec fn detail_cuttable(text: Seq<char>) -> bool {
    utf8_len(trim(text)) > 800 ==> on_char_boundary(trim(text), 800)
}

/// The LLM test's answer to a reply: success for 2xx; otherwise the
/// failure named by status (401/403 authentication, 404 not found, 429
/// rate limit, else the status), with the reply cut to 800 bytes.
pub fn llm_test_from_reply(status: u16, text: &str) -> (r: LlmTestResult)
    requires
        !status_success(status) ==> detail_cuttable(text@),
    ensures
        status_success(status) ==> result_is(r, true, "ok"@, "连接成功"@) && r.detail is None,
        !status_success(status) ==> !r.ok && (r.detail matches Some(d) && d@ == truncated(text@, 800)),
        !status_success(status) && (status == 401 || status == 403) ==> r.code@ == "auth"@ && r.message@
            == "鉴权失败：请检查 API Key 是否有效"@,
        !status_success(status) && status == 404 ==> r.code@ == "not_found"@ && r.message@
            == "请求地址或模型不存在：请检查 Base URL 与模型名"@,
        !status_success(status) && status == 429 ==> r.code@ == "rate_limit"@ && r.message@ == "请求被限流"@,
        !status_success(status) && status != 401 && status != 403 && status != 404 && status != 429 ==> r.code@
            == "http_error"@ && r.message@ == "HTTP "@ + crate::text::dec(status as nat),
{
    if 200 <= status && status <= 299 {
        return result(true, "ok", "连接成功", None);
    }
    let detail = Some(truncate_detail(text, 800));
    if status == 401 || status == 403 {
        result(false, "auth", "鉴权失败：请检查 API Key 是否有效", detail)
    } else if status == 404 {
        result(false, "not_found", "请求地址或模型不存在：请检查 Base URL 与模型名", detail)
    } else if status == 429 {
        result(false, "rate_limit", "请求被限流", detail)
    } else {
        let mut m = "HTTP ".to_string();
        push_str(&mut m, crate::text::string_of(&crate::text::dec_u64(status as u64)).as_str());
        LlmTestResult { ok: false, code: "http_error".to_string(), message: m, detail }
    }
}

/// The LLM test's answer when the request failed: a time-out, an
/// unreachable server, or another failure with the error's text.
pub fn llm_test_from_error(is_timeout: bool, is_connect: bool, error_text: String) -> (r: LlmTestResult)
    ensures
        is_timeout ==> result_is(r, false, "timeout"@, "连接超时：请检查网络或增大超时时间"@) && r.detail is None,
        !is_timeout && is_connect ==> result_is(r, false, "network"@, "网络不可达：无法连接到服务器"@) && r.detail
            == Some(error_text),
        !is_timeout && !is_connect ==> result_is(r, false, "request_failed"@, "请求失败"@) && r.detail == Some(
            error_text,
        ),
{
    if is_timeout {
        result(false, "timeout", "连接超时：请检查网络或增大超时时间", None)
    } else if is_connect {
        result(false, "network", "网络不可达：无法连接到服务器", Some(error_text))
    } else {
        result(false, "request_failed", "请求失败", Some(error_text))
    }
}

/// The Google Web test as asked for.
#[derive(Debug)]
pub struct TestGoogleWebRequest {
    pub provider_url: String,
    pub use_proxy: bool,
    pub source_lang: String,
    pub target_lang: String,
    pub timeout_sec: u32,
}

/// The request the Google test sends: the endpoint and the full URL that
/// translates "hello".
#[derive(Debug)]
pub struct GoogleProbe {
    pub url: String,
    pub request_url: String,
    pub timeout_secs: u64,
}

/// Prepares the Google test, or refuses a blank target language.
pub fn prepare_google_test(req: &TestGoogleWebRequest) -> (r: Result<GoogleProbe, LlmTestResult>)
    ensures
        google_lang(req.target_lang@) == "auto"@ ==> (r matches Err(x) && result_is(
            x,
            false,
            "invalid_input"@,
            "Google Web 测试失败：目标语言不能为空"@,
        ) && x.detail is None),
        google_lang(req.target_lang@) != "auto"@ ==> (r matches Ok(p) && p.url@ == google_url(req.provider_url@)
            && p.request_url@ == google_request(
            google_url(req.provider_url@),
            google_lang(req.source_lang@),
            google_lang(req.target_lang@),
            "hello"@,
        ) && p.timeout_secs == (if req.timeout_sec < 1 {
            1
        } else {
            req.timeout_sec
        })),
{
    let url = effective_google_url(req.provider_url.as_str());
    let sl = normalize_lang(req.source_lang.as_str());
    let tl = normalize_lang(req.target_lang.as_str());
    if str_eq(tl.as_str(), "auto") {
        return Err(result(false, "invalid_input", "Google Web 测试失败：目标语言不能为空", None));
    }
    let request_url = google_request_url(url.as_str(), sl.as_str(), tl.as_str(), "hello");
    let timeout_secs: u64 = if req.timeout_sec < 1 {
        1
    } else {
        req.timeout_sec as u64
    };
    Ok(GoogleProbe { url, request_url, timeout_secs })
}

/// The test's answer where the proxy settings could not be applied.
pub fn google_test_proxy_error(message: String) -> (r: LlmTestResult)
    ensures
        r.ok == false && r.code@ == "proxy_config"@ && r.message@ == message@ && r.detail is None,
{
    LlmTestResult { ok: false, code: "proxy_config".to_string(), message, detail: None }
}

/// The test's answer where the HTTP client could not be built.
pub fn google_test_client_error(error_text: &str) -> (r: LlmTestResult)
    ensures
        r.ok == false && r.code@ == "client_init_failed"@ && r.message@ == "Google Web 测试客户端初始化失败: "@
            + error_text@ && r.detail is None,
{
    let mut m = "Google Web 测试客户端初始化失败: ".to_string();
    push_str(&mut m, error_text);
    LlmTestResult { ok: false, code: "client_init_failed".to_string(), message: m, detail: None }
}

/// How the test reached Google: through the named system proxy, or
/// directly.
pub open spec fn network_path(proxy_display: Option<String>) -> Seq<char> {
    match proxy_display {
        Some(p) => "通过系统代理访问: "@ + p@,
        None => "直连访问（未使用代理）"@,
    }
}

fn network_path_text(proxy_display: &Option<String>) -> (r: String)
    ensures
        r@ == network_path(*proxy_display),
{
    match proxy_display {
        Some(p) => {
            let mut s = "通过系统代理访问: ".to_string();
            push_str(&mut s, p.as_str());
            s
        },
        None => "直连访问（未使用代理）".to_string(),
    }
}

/// The Google test's answer to a reply: a failure for a non-2xx status
/// (with the reply cut to 800 bytes); a success naming the translation,
/// the endpoint and the network path where the body reads as a
/// translation; otherwise a parse failure with the reason and the reply.
pub fn google_test_from_reply(status: u16, text: &str, url: &str, proxy_display: &Option<String>) -> (r: LlmTestResult)
    requires
        detail_cuttable(text@),
    ensures
        !status_success(status) ==> result_is(r, false, "http_error"@, "Google Web 测试失败：HTTP "@ + crate::text::dec(
            status as nat,
        )) && (r.detail matches Some(d) && d@ == truncated(text@, 800)),
        status_success(status) ==> match google_body(text@) {
            GoogleBody::Text(t) => result_is(r, true, "ok"@, "Google Web 连接成功"@) && (r.detail matches Some(d) && d@
                == "测试结果: hello -> "@ + t + "\n请求地址: "@ + url@ + "\n网络路径: "@ + network_path(*proxy_display)),
            _ => result_is(r, false, "parse_error"@, "Google Web 返回了响应，但格式无法解析"@) && (r.detail matches Some(
                d,
            ) && crate::text::ends_with(d@, "\n\n原始响应: "@ + truncated(text@, 800))),
        },
{
    if !(200 <= status && status <= 299) {
        let mut m = "Google Web 测试失败：HTTP ".to_string();
        push_str(&mut m, crate::text::string_of(&crate::text::dec_u64(status as u64)).as_str());
        return LlmTestResult {
            ok: false,
            code: "http_error".to_string(),
            message: m,
            detail: Some(truncate_detail(text, 800)),
        };
    }
    match parse_google_body(text) {
        Ok(translated) => {
            let mut d = "测试结果: hello -> ".to_string();
            push_str(&mut d, translated.as_str());
            push_str(&mut d, "\n请求地址: ");
            push_str(&mut d, url);
            push_str(&mut d, "\n网络路径: ");
            push_str(&mut d, network_path_text(proxy_display).as_str());
            result(true, "ok", "Google Web 连接成功", Some(d))
        },
        Err(e) => {
            let mut d = e;
            let ghost head = d@;
            let tail = {
                let mut t = "\n\n原始响应: ".to_string();
                push_str(&mut t, truncate_detail(text, 800).as_str());
                t
            };
            push_str(&mut d, tail.as_str());
            assert(d@.subrange(d@.len() - tail@.len(), d@.len() as int) =~= tail@);
            result(false, "parse_error", "Google Web 返回了响应，但格式无法解析", Some(d))
        },
    }
}

/// The Google test's answer where the request failed: the failure kind,
/// the explained message, and the network path as detail.
pub fn google_test_from_error(is_timeout: bool, is_connect: bool, message: String, proxy_display: &Option<String>) -> (r: LlmTestResult)
    ensures
        !r.ok,
        r.code@ == if is_timeout {
            "timeout"@
        } else if is_connect {
            "network"@
        } else {
            "request_failed"@
        },
        r.message@ == message@,
        r.detail matches Some(d) && d@ == network_path(*proxy_display),
{
    let code = if is_timeout {
        "timeout"
    } else if is_connect {
        "network"
    } else {
        "request_failed"
    };
    LlmTestResult {
        ok: false,
        code: code.to_string(),
        message,
        detail: Some(network_path_text(proxy_display)),
    }
}

} // verus!
