//! Translation through the Google web endpoint: the request URL, reading
//! the nested-array answer, which failures are retried, and the per-item
//! loop with back-off and pause checks.
use vstd::prelude::*;

use crate::json::{get_index, json_of_text, parse_json, json_error_text, Json};
use crate::openai_compat::{status_success, HttpReply};
use crate::srt::SubCue;
use crate::text::{chars_of, is_blank, lower_seq, push_str, str_eq, string_of, trim, trim_string};

verus! {

pub const DEFAULT_GOOGLE_WEB_URL: &'static str = "https://translate.googleapis.com/translate_a/single";

pub const GOOGLE_WEB_USER_AGENT: &'static str =
    "Mozilla/5.0 (Windows NT 10.0; Win64; x64) AppleWebKit/537.36 (KHTML, like Gecko) Chrome/120.0.0.0 Safari/537.36";

pub const GOOGLE_TRANSLATE_MAX_RETRIES: u32 = 3;

pub const GOOGLE_TRANSLATE_BACKOFF_BASE_MS: u64 = 500;

pub struct GoogleWebTranslateJob<'a> {
    pub provider_url: &'a str,
    pub use_proxy: bool,
    pub min_interval_ms: u64,
    pub source_lang: &'a str,
    pub target_lang: &'a str,
}

pub open spec fn google_url(provider_url: Seq<char>) -> Seq<char> {
    let t = trim(provider_url);
    if t.len() == 0 {
        DEFAULT_GOOGLE_WEB_URL@
    } else {
        t
    }
}

pub fn effective_google_url(provider_url: &str) -> (r: String)
    ensures
        r@ == google_url(provider_url@),
{
    if is_blank(provider_url) {
        DEFAULT_GOOGLE_WEB_URL.to_string()
    } else {
        trim_string(provider_url)
    }
}

/// A language code trimmed and lowercased; `auto` where blank.
pub open spec fn google_lang(lang: Seq<char>) -> Seq<char> {
    let t = lower_seq(trim(lang));
    if t.len() == 0 {
        "auto"@
    } else {
        t
    }
}

pub fn normalize_lang(lang: &str) -> (r: String)
    ensures
        r@ == google_lang(lang@),
{
    let t = trim_string(lang);
    let v = chars_of(t.as_str());
    let l = crate::text::lower_vec(&v);
    if l.len() == 0 {
        "auto".to_string()
    } else {
        string_of(&l)
    }
}

/// A byte kept as it is by percent-encoding.
pub open spec fn url_safe(b: u8) -> bool {
    (0x30 <= b <= 0x39) || (0x41 <= b <= 0x5a) || (0x61 <= b <= 0x7a) || b == 0x2d || b == 0x2e || b == 0x5f || b
        == 0x7e
}

pub open spec fn upper_hex(d: int) -> char {
    if d < 10 {
        (('0' as int) + d) as char
    } else {
        (('A' as int) + d - 10) as char
    }
}

/// Percent-encoding of bytes: every byte but ASCII letters, digits and
/// `-._~` becomes `%` and two uppercase hex digits.
pub open spec fn url_encoded(bytes: Seq<u8>) -> Seq<char>
    decreases bytes.len(),
{
    if bytes.len() == 0 {
        seq![]
    } else {
        let b = bytes.last();
        url_encoded(bytes.drop_last()) + if url_safe(b) {
            seq![b as char]
        } else {
            seq!['%', upper_hex(b as int / 16), upper_hex(b as int % 16)]
        }
    }
}

/// Percent-encodes a text with `urlencoding::encode`: its UTF-8 bytes, each
/// kept where it is an ASCII letter, digit or one of `-._~`, else written as
/// `%XX` in uppercase hex.
#[verifier::external_body]
fn url_encode(text: &str) -> (r: String)
    ensures
        r@ == url_encoded(vstd::utf8::encode_utf8(text@)),
{
    urlencoding::encode(text).into_owned()
}

/// The request URL for one text.
pub open spec fn google_request(url: Seq<char>, sl: Seq<char>, tl: Seq<char>, text: Seq<char>) -> Seq<char> {
    url + "?client=gtx&sl="@ + url_encoded(vstd::utf8::encode_utf8(sl)) + "&tl="@ + url_encoded(
        vstd::utf8::encode_utf8(tl),
    ) + "&dt=t&q="@ + url_encoded(vstd::utf8::encode_utf8(text))
}

pub fn google_request_url(url: &str, source_lang: &str, target_lang: &str, text: &str) -> (r: String)
    ensures
        r@ == google_request(url@, source_lang@, target_lang@, text@),
{
    let mut s = url.to_string();
    push_str(&mut s, "?client=gtx&sl=");
    push_str(&mut s, url_encode(source_lang).as_str());
    push_str(&mut s, "&tl=");
    push_str(&mut s, url_encode(target_lang).as_str());
    push_str(&mut s, "&dt=t&q=");
    push_str(&mut s, url_encode(text).as_str());
    s
}

/// The text pieces of the answer: the first string of each item of the
/// first array.
pub open spec fn google_pieces(items: Seq<Json>, n: int) -> Seq<char>
    decreases n,
{
    if n <= 0 || n > items.len() {
        seq![]
    } else {
        google_pieces(items, n - 1) + match get_index(items[n - 1], 0) {
            Some(Json::Str(s)) => s@,
            _ => seq![],
        }
    }
}

/// Reading more items only adds text at the end: the text of the first `i`
/// items is the beginning of the text of the first `j`.
pub proof fn lemma_google_pieces_grow(items: Seq<Json>, i: int, j: int)
    requires
        0 <= i <= j <= items.len(),
    ensures
        google_pieces(items, i).is_prefix_of(google_pieces(items, j)),
    decreases j - i,
{
    if i < j {
        lemma_google_pieces_grow(items, i, j - 1);
        let a = google_pieces(items, i);
        let b = google_pieces(items, j - 1);
        let c = google_pieces(items, j);
        assert(c.subrange(0, b.len() as int) =~= b);
        assert(c.subrange(0, a.len() as int) =~= b.subrange(0, a.len() as int));
    }
}

/// Every segment of the answer appears in the text read from it, in order:
/// the first string of item `i` follows the text of the items before it.
pub proof fn lemma_google_pieces_keep_segments(items: Seq<Json>, i: int)
    requires
        0 <= i < items.len(),
    ensures
        get_index(items[i], 0) matches Some(Json::Str(seg)) ==> {
            let before = google_pieces(items, i);
            let all = google_pieces(items, items.len() as int);
            &&& before.len() + seg@.len() <= all.len()
            &&& all.subrange(before.len() as int, (before.len() + seg@.len()) as int) == seg@
        },
{
    if let Some(Json::Str(seg)) = get_index(items[i], 0) {
        lemma_google_pieces_grow(items, i + 1, items.len() as int);
        let before = google_pieces(items, i);
        let next = google_pieces(items, i + 1);
        let all = google_pieces(items, items.len() as int);
        assert(next =~= before + seg@);
        assert(all.subrange(0, next.len() as int) =~= next);
        assert(all.subrange(before.len() as int, (before.len() + seg@.len()) as int) =~= next.subrange(
            before.len() as int,
            next.len() as int,
        ));
    }
}

/// What reading an answer body gives: the joined pieces, or which error.
pub enum GoogleBody {
    NotJson,
    BadShape,
    Empty,
    Text(Seq<char>),
}

pub open spec fn google_body(body: Seq<char>) -> GoogleBody {
    match json_of_text(body) {
        None => GoogleBody::NotJson,
        Some(v) => match get_index(v, 0) {
            Some(Json::Array(items)) => {
                let t = google_pieces(items@, items@.len() as int);
                if trim(t).len() == 0 {
                    GoogleBody::Empty
                } else {
                    GoogleBody::Text(t)
                }
            },
            _ => GoogleBody::BadShape,
        },
    }
}

pub fn parse_google_body(body: &str) -> (r: Result<String, String>)
    ensures
        match r {
            Ok(t) => google_body(body@) == GoogleBody::Text(t@),
            Err(e) => match google_body(body@) {
                GoogleBody::NotJson => crate::text::starts_with(e@, "Google 翻译响应非 JSON: "@),
                GoogleBody::BadShape => e@ == "Google 翻译响应格式异常"@,
                GoogleBody::Empty => e@ == "Google 翻译响应为空"@,
                GoogleBody::Text(_) => false,
            },
        },
{
    let v = match parse_json(body) {
        Ok(v) => v,
        Err(e) => {
            let mut m = "Google 翻译响应非 JSON: ".to_string();
            let ghost head = m@;
            push_str(&mut m, json_error_text(&e).as_str());
            assert(m@.take(head.len() as int) =~= head);
            return Err(m);
        },
    };
    let items = match crate::json::get_index_exec(&v, 0) {
        Some(Json::Array(items)) => items,
        _ => return Err("Google 翻译响应格式异常".to_string()),
    };
    let mut out = String::new();
    let mut i: usize = 0;
    while i < items.len()
        invariant
            i <= items.len(),
            out@ == google_pieces(items@, i as int),
        decreases items.len() - i,
    {
        match crate::json::get_index_exec(&items[i], 0) {
            Some(Json::Str(s)) => push_str(&mut out, s.as_str()),
            _ => {},
        }
        i += 1;
    }
    if is_blank(out.as_str()) {
        return Err("Google 翻译响应为空".to_string());
    }
    Ok(out)
}

/// How one request ended: a translation, a failure worth retrying, or one
/// that stops the run.
pub enum GoogleSendError {
    Retriable(String),
    Fatal(String),
}

/// The message for a reply that is not a success: the status and the
/// first 300 characters of the body.
pub open spec fn http_failure_text(reply: HttpReply) -> Seq<char> {
    "Google 翻译 HTTP "@ + crate::text::dec(reply.status as nat) + ": "@ + reply.body@.take(
        if reply.body@.len() < 300 { reply.body@.len() as int } else { 300 },
    )
}

/// The message for a successful reply whose body gives no text.
pub open spec fn body_failure(body: Seq<char>, m: Seq<char>) -> bool {
    match google_body(body) {
        GoogleBody::NotJson => crate::text::starts_with(m, "Google 翻译响应非 JSON: "@),
        GoogleBody::BadShape => m == "Google 翻译响应格式异常"@,
        GoogleBody::Empty => m == "Google 翻译响应为空"@,
        GoogleBody::Text(_) => false,
    }
}

/// Some reply that `send` can give for this URL is a failure that is not
/// retried, with this message.
pub open spec fn google_failed<F: Fn(String) -> Result<HttpReply, String>>(send: &F, url: Seq<char>, m: Seq<char>) -> bool {
    exists|u: String, rep: HttpReply|
        #[trigger] send.ensures((u,), Ok::<HttpReply, String>(rep)) && u@ == url && if status_success(rep.status) {
            body_failure(rep.body@, m)
        } else {
            !(rep.status == 429 || (500 <= rep.status <= 599)) && m == http_failure_text(rep)
        }
}

/// A reply to a request: its text where it is a success; an HTTP 429 or
/// 5xx is retried, any other failure is not.
pub fn read_google_reply(reply: &HttpReply) -> (r: Result<String, GoogleSendError>)
    ensures
        status_success(reply.status) ==> match r {
            Ok(t) => google_body(reply.body@) == GoogleBody::Text(t@),
            Err(GoogleSendError::Fatal(_)) => !(google_body(reply.body@) is Text),
            Err(GoogleSendError::Retriable(_)) => false,
        },
        !status_success(reply.status) ==> match r {
            Ok(_) => false,
            Err(GoogleSendError::Retriable(_)) => reply.status == 429 || (500 <= reply.status <= 599),
            Err(GoogleSendError::Fatal(_)) => !(reply.status == 429 || (500 <= reply.status <= 599)),
        },
        status_success(reply.status) ==> (r matches Err(GoogleSendError::Fatal(m)) ==> body_failure(reply.body@, m@)),
        !status_success(reply.status) ==> match r {
            Err(GoogleSendError::Retriable(m)) => m@ == http_failure_text(*reply),
            Err(GoogleSendError::Fatal(m)) => m@ == http_failure_text(*reply),
            Ok(_) => true,
        },
{
    if 200 <= reply.status && reply.status <= 299 {
        return match parse_google_body(reply.body.as_str()) {
            Ok(t) => Ok(t),
            Err(e) => Err(GoogleSendError::Fatal(e)),
        };
    }
    let mut msg = "Google 翻译 HTTP ".to_string();
    push_str(&mut msg, string_of(&crate::text::dec_u64(reply.status as u64)).as_str());
    push_str(&mut msg, ": ");
    push_str(&mut msg, first_chars(reply.body.as_str(), 300).as_str());
    if reply.status == 429 || (500 <= reply.status && reply.status <= 599) {
        Err(GoogleSendError::Retriable(msg))
    } else {
        Err(GoogleSendError::Fatal(msg))
    }
}

/// The first `n` characters of a text.
pub fn first_chars(s: &str, n: usize) -> (r: String)
    ensures
        r@ == s@.take(if s@.len() < n { s@.len() as int } else { n as int }),
{
    let v = chars_of(s);
    let k = if v.len() < n {
        v.len()
    } else {
        n
    };
    crate::text::string_of_range(&v, 0, k)
}

/// The wait before retry `attempt` (from 1): 500 ms doubled per earlier
/// retry, at most five doublings.
pub open spec fn backoff_ms(attempt: int) -> int {
    let k = if attempt - 1 < 5 {
        attempt - 1
    } else {
        5
    };
    500 * (vstd::arithmetic::power2::pow2(k as nat) as int)
}

pub fn google_backoff_ms(attempt: u32) -> (r: u64)
    requires
        attempt >= 1,
    ensures
        r == backoff_ms(attempt as int),
{
    let k: u32 = if attempt - 1 < 5 {
        attempt - 1
    } else {
        5
    };
    let mut w: u64 = 500;
    let mut i: u32 = 0;
    proof {
        vstd::arithmetic::power2::lemma2_to64();
    }
    while i < k
        invariant
            i <= k <= 5,
            w == 500 * (vstd::arithmetic::power2::pow2(i as nat) as int),
        decreases k - i,
    {
        proof {
            vstd::arithmetic::power2::lemma_pow2_unfold((i + 1) as nat);
            vstd::arithmetic::power2::lemma_pow2_strictly_increases(i as nat, 5);
            vstd::arithmetic::power2::lemma2_to64();
        }
        w = w * 2;
        i += 1;
    }
    w
}

/// The message for a request that could not be sent: a timeout, an
/// unreachable network (a connect failure or an error naming DNS, ASCII
/// case ignored), or another failure, worded by whether a proxy was in use.
pub open spec fn request_error_text(
    is_timeout: bool,
    is_connect: bool,
    detail: Seq<char>,
    url: Seq<char>,
    use_proxy: bool,
) -> Seq<char> {
    if is_timeout {
        if use_proxy {
            "Google 翻译请求超时：已开启代理，但访问 "@ + url + " 超时。请检查代理服务或当前网络。原始错误："@ + detail
        } else {
            "Google 翻译请求超时：当前未开启代理，访问 "@ + url
                + " 超时。若当前网络访问 Google 需要代理，请在设置中开启“使用代理”。原始错误："@ + detail
        }
    } else if is_connect || crate::text::find_from(crate::text::lower_seq(detail), "dns"@, 0) >= 0 {
        if use_proxy {
            "Google 翻译网络不可达：已开启代理，但仍无法连接 "@ + url + "。请检查代理配置、代理软件或中转服务是否可用。原始错误："@
                + detail
        } else {
            "Google 翻译网络不可达：当前未开启代理，无法直连 "@ + url
                + "。如果当前网络访问 Google 需要代理，请在设置中开启“使用代理”。原始错误："@ + detail
        }
    } else {
        "Google 翻译请求失败："@ + url + "。原始错误："@ + detail
    }
}

pub fn google_request_error_message(is_timeout: bool, is_connect: bool, detail: &str, url: &str, use_proxy: bool) -> (r: String)
    ensures
        r@ == request_error_text(is_timeout, is_connect, detail@, url@, use_proxy),
{
    let dv = chars_of(detail);
    let lower = crate::text::lower_vec(&dv);
    let dns = chars_of("dns");
    let has_dns = match crate::text::find_from_exec(&lower, &dns, 0) {
        Some(_) => true,
        None => false,
    };
    let mut m = String::new();
    if is_timeout {
        if use_proxy {
            push_str(&mut m, "Google 翻译请求超时：已开启代理，但访问 ");
            push_str(&mut m, url);
            push_str(&mut m, " 超时。请检查代理服务或当前网络。原始错误：");
        } else {
            push_str(&mut m, "Google 翻译请求超时：当前未开启代理，访问 ");
            push_str(&mut m, url);
            push_str(&mut m, " 超时。若当前网络访问 Google 需要代理，请在设置中开启“使用代理”。原始错误：");
        }
        push_str(&mut m, detail);
        return m;
    }
    if is_connect || has_dns {
        if use_proxy {
            push_str(&mut m, "Google 翻译网络不可达：已开启代理，但仍无法连接 ");
            push_str(&mut m, url);
            push_str(&mut m, "。请检查代理配置、代理软件或中转服务是否可用。原始错误：");
        } else {
            push_str(&mut m, "Google 翻译网络不可达：当前未开启代理，无法直连 ");
            push_str(&mut m, url);
            push_str(&mut m, "。如果当前网络访问 Google 需要代理，请在设置中开启“使用代理”。原始错误：");
        }
        push_str(&mut m, detail);
        return m;
    }
    push_str(&mut m, "Google 翻译请求失败：");
    push_str(&mut m, url);
    push_str(&mut m, "。原始错误：");
    push_str(&mut m, detail);
    m
}

/// The chain of `m[..n]` (`n >= 1`): each message once in a row, joined by
/// ` | 原因: `, with the position of the last one kept.
pub open spec fn chain_upto(m: Seq<Seq<char>>, n: int) -> (Seq<char>, int)
    decreases n,
{
    if n <= 1 {
        (m[0], 0)
    } else {
        let (t, last) = chain_upto(m, n - 1);
        if m[n - 1] != m[last] {
            (t + " | 原因: "@ + m[n - 1], n - 1)
        } else {
            (t, last)
        }
    }
}

pub proof fn lemma_chain_last(m: Seq<Seq<char>>, n: int)
    requires
        1 <= n,
    ensures
        0 <= chain_upto(m, n).1 < n,
    decreases n,
{
    if n > 1 {
        lemma_chain_last(m, n - 1);
    }
}

/// Error messages from an error and its sources, each once in a row,
/// joined by ` | 原因: `.
pub fn join_error_chain(messages: &Vec<String>) -> (r: String)
    ensures
        messages@.len() == 0 ==> r@.len() == 0,
        messages@.len() > 0 ==> r@ == chain_upto(crate::srt::strings_view(messages@), messages@.len() as int).0,
{
    if messages.len() == 0 {
        return String::new();
    }
    let ghost mv = crate::srt::strings_view(messages@);
    let mut out = messages[0].clone();
    let mut last: usize = 0;
    let mut i: usize = 1;
    while i < messages.len()
        invariant
            1 <= i <= messages.len(),
            mv == crate::srt::strings_view(messages@),
            (out@, last as int) == chain_upto(mv, i as int),
        decreases messages.len() - i,
    {
        proof {
            lemma_chain_last(mv, i as int);
        }
        if !str_eq(messages[i].as_str(), messages[last].as_str()) {
            push_str(&mut out, " | 原因: ");
            push_str(&mut out, messages[i].as_str());
            last = i;
        }
        i += 1;
    }
    out
}

pub const GOOGLE_TARGET_EMPTY: &'static str = "Google 翻译目标语言不能为空";

/// The request URL for translating one text under a job's settings.
pub open spec fn cue_request(job: GoogleWebTranslateJob, text: Seq<char>) -> Seq<char> {
    google_request(google_url(job.provider_url@), google_lang(job.source_lang@), google_lang(job.target_lang@), text)
}

/// Some reply that `send` can give for this URL is a success whose body
/// reads as this text.
pub open spec fn google_gave<F: Fn(String) -> Result<HttpReply, String>>(send: &F, url: Seq<char>, text: Seq<char>) -> bool {
    exists|u: String, rep: HttpReply|
        #[trigger] send.ensures((u,), Ok::<HttpReply, String>(rep)) && u@ == url && status_success(rep.status)
            && google_body(rep.body@) == GoogleBody::Text(text)
}

/// Translates cue by cue. `send` makes one request for a URL (its error is
/// retried), `sleep` waits the given milliseconds unless a pause comes
/// first (then it answers yes), `pause_requested` is asked before each cue.
/// Each cue is tried up to four times with growing waits between. Returns
/// one non-blank text per cue, `"__pause__"` when paused, or the error that
/// stopped the run.
pub fn translate_all_cues_google<
    F: Fn(String) -> Result<HttpReply, String>,
    P: Fn() -> bool,
    S: Fn(u64) -> bool,
    G: Fn(usize, usize),
    D: Fn(usize, String),
>(
    send: &F,
    job: &GoogleWebTranslateJob,
    cues: &[SubCue],
    pause_requested: &P,
    sleep: &S,
    on_progress: &G,
    on_item_done: &D,
) -> (r: Result<Vec<String>, String>)
    requires
        forall|u: String| #[trigger] send.requires((u,)),
        pause_requested.requires(()),
        forall|ms: u64| #[trigger] sleep.requires((ms,)),
        forall|a: usize, b: usize| #[trigger] on_progress.requires((a, b)),
        forall|a: usize, t: String| #[trigger] on_item_done.requires((a, t)),
    ensures
        cues.len() == 0 ==> (r matches Ok(v) && v.len() == 0),
        cues.len() > 0 && google_lang(job.target_lang@) == "auto"@ ==> (r matches Err(e) && e@ == GOOGLE_TARGET_EMPTY@),
        r matches Ok(v) ==> v.len() == cues.len() && forall|i: int| 0 <= i < v.len() ==> trim(#[trigger] v@[i]@).len()
            > 0,
        r matches Ok(v) ==> forall|i: int|
            0 <= i < v.len() ==> google_gave(send, cue_request(*job, cues@[i].text@), #[trigger] v@[i]@),
        r matches Err(e) ==> {
            ||| e@ == GOOGLE_TARGET_EMPTY@
            ||| e@ == crate::llm_translate::PAUSE_MARKER@ && (pause_requested.ensures((), true) || exists|ms: u64|
                #[trigger] sleep.ensures((ms,), true))
            ||| crate::text::starts_with(e@, "Google 翻译重试 3 次仍失败："@)
            ||| e@ == "Google 翻译失败"@
            ||| exists|i: int| 0 <= i < cues.len() && google_failed(send, cue_request(*job, cues@[i].text@), e@)
        },
{
    if cues.len() == 0 {
        return Ok(Vec::new());
    }
    let url = effective_google_url(job.provider_url);
    let sl = normalize_lang(job.source_lang);
    let tl = normalize_lang(job.target_lang);
    if str_eq(tl.as_str(), "auto") {
        return Err(GOOGLE_TARGET_EMPTY.to_string());
    }
    let mut out: Vec<String> = Vec::new();
    let mut idx: usize = 0;
    while idx < cues.len()
        invariant
            idx <= cues.len(),
            cues.len() > 0,
            google_lang(job.target_lang@) != "auto"@,
            out.len() == idx,
            forall|i: int| 0 <= i < out.len() ==> trim(#[trigger] out@[i]@).len() > 0,
            forall|i: int|
                0 <= i < out.len() ==> google_gave(send, cue_request(*job, cues@[i].text@), #[trigger] out@[i]@),
            url@ == google_url(job.provider_url@),
            sl@ == google_lang(job.source_lang@),
            tl@ == google_lang(job.target_lang@),
            forall|u: String| #[trigger] send.requires((u,)),
            pause_requested.requires(()),
            forall|ms: u64| #[trigger] sleep.requires((ms,)),
            forall|a: usize, b: usize| #[trigger] on_progress.requires((a, b)),
            forall|a: usize, t: String| #[trigger] on_item_done.requires((a, t)),
        decreases cues.len() - idx,
    {
        if pause_requested() {
            return Err(crate::llm_translate::PAUSE_MARKER.to_string());
        }
        if idx > 0 && job.min_interval_ms > 0 {
            if sleep(job.min_interval_ms) {
                return Err(crate::llm_translate::PAUSE_MARKER.to_string());
            }
        }
        let request = google_request_url(url.as_str(), sl.as_str(), tl.as_str(), cues[idx].text.as_str());
        assert(request@ == cue_request(*job, cues@[idx as int].text@));
        let mut last_err: Option<String> = None;
        let mut translated: Option<String> = None;
        let mut attempt: u32 = 0;
        while attempt <= GOOGLE_TRANSLATE_MAX_RETRIES
            invariant
                attempt <= GOOGLE_TRANSLATE_MAX_RETRIES + 1,
                translated matches Some(t) ==> trim(t@).len() > 0,
                translated matches Some(t) ==> google_gave(send, request@, t@),
                idx < cues.len(),
                request@ == cue_request(*job, cues@[idx as int].text@),
                cues.len() > 0,
                google_lang(job.target_lang@) != "auto"@,
                forall|u: String| #[trigger] send.requires((u,)),
                forall|ms: u64| #[trigger] sleep.requires((ms,)),
            decreases GOOGLE_TRANSLATE_MAX_RETRIES + 1 - attempt,
        {
            if attempt > 0 {
                let wait = google_backoff_ms(attempt);
                if sleep(wait) {
                    return Err(crate::llm_translate::PAUSE_MARKER.to_string());
                }
            }
            let req = request.clone();
            let ghost u = req;
            let sent = send(req);
            let ghost sr = sent;
            let result = match sent {
                Err(m) => Err(GoogleSendError::Retriable(m)),
                Ok(reply) => read_google_reply(&reply),
            };
            match result {
                Ok(t) => {
                    proof {
                        assert(trim(t@).len() > 0);
                        let rep = sr->Ok_0;
                        assert(send.ensures((u,), Ok::<HttpReply, String>(rep)));
                        assert(u@ == request@);
                        assert(status_success(rep.status) && google_body(rep.body@) == GoogleBody::Text(t@));
                    }
                    translated = Some(t);
                    break;
                },
                Err(GoogleSendError::Retriable(m)) => {
                    last_err = Some(m);
                },
                Err(GoogleSendError::Fatal(m)) => {
                    proof {
                        let rep = sr->Ok_0;
                        assert(send.ensures((u,), Ok::<HttpReply, String>(rep)));
                        assert(u@ == request@);
                        assert(request@ == cue_request(*job, cues@[idx as int].text@));
                        assert(google_failed(send, cue_request(*job, cues@[idx as int].text@), m@));
                    }
                    return Err(m);
                },
            }
            attempt += 1;
        }
        let t = match translated {
            Some(t) => t,
            None => {
                return match last_err {
                    Some(m) => {
                        let mut msg = "Google 翻译重试 3 次仍失败：".to_string();
                        let ghost head = msg@;
                        push_str(&mut msg, m.as_str());
                        proof {
                            assert(msg@.take(head.len() as int) =~= head);
                        }
                        Err(msg)
                    },
                    None => Err("Google 翻译失败".to_string()),
                };
            },
        };
        on_item_done(idx, t.clone());
        let ghost before = out@;
        out.push(t);
        proof {
            assert(request@ == cue_request(*job, cues@[idx as int].text@));
            assert forall|i: int| 0 <= i < out.len() implies google_gave(
                send,
                cue_request(*job, cues@[i].text@),
                #[trigger] out@[i]@,
            ) by {
                if i < before.len() {
                    assert(out@[i] == before[i]);
                }
            }
        }
        on_progress(idx + 1, cues.len());
        idx += 1;
    }
    Ok(out)
}

} // verus!
