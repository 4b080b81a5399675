//! The parts of an OpenAI-compatible chat completion exchange that the
//! library decides: the endpoint URL, the request body, and what is taken
//! out of a reply.
use vstd::prelude::*;

use crate::json::{as_str, get_key, json_error_text, json_string_literal, member, parse_json, quote_json_string, Json};
use crate::text::{
    chars_of, dec, dec_u64, ends_with, ends_with_exec, push_str, scan_back_exec, string_of, string_of_range, trim,
    trim_bounds, trim_class_end, CharClass,
};

verus! {

/// The status and body text of an HTTP reply.
pub struct HttpReply {
    pub status: u16,
    pub body: String,
}

/// `StatusCode::is_success`: a 2xx status.
pub open spec fn status_success(status: u16) -> bool {
    200 <= status <= 299
}

/// The chat completions endpoint for a base URL: trailing slashes dropped,
/// and `/v1/chat/completions` or `/chat/completions` added where missing.
pub open spec fn chat_url(base: Seq<char>) -> Seq<char> {
    let t = trim_class_end(base, CharClass::Slash);
    if ends_with(t, "/chat/completions"@) {
        t
    } else if ends_with(t, "/v1"@) {
        t + "/chat/completions"@
    } else {
        t + "/v1/chat/completions"@
    }
}

pub fn chat_completions_url(base: &str) -> (r: String)
    ensures
        r@ == chat_url(base@),
{
    let v = chars_of(base);
    let b = scan_back_exec(&v, CharClass::Slash, 0, v.len());
    let t = string_of_range(&v, 0, b);
    let tv = chars_of(&t);
    let full = chars_of("/chat/completions");
    let v1 = chars_of("/v1");
    if ends_with_exec(&tv, &full) {
        t
    } else if ends_with_exec(&tv, &v1) {
        let mut out = t;
        push_str(&mut out, "/chat/completions");
        out
    } else {
        let mut out = t;
        push_str(&mut out, "/v1/chat/completions");
        out
    }
}

// ---------------------------------------------------------------------------
// UTF-8 lengths and truncation
// ---------------------------------------------------------------------------

/// Bytes of a character in UTF-8.
pub open spec fn utf8_width(c: char) -> nat {
    if (c as u32) < 0x80 {
        1
    } else if (c as u32) < 0x800 {
        2
    } else if (c as u32) < 0x10000 {
        3
    } else {
        4
    }
}

/// Bytes of a text in UTF-8 (`str::len`).
pub open spec fn utf8_len(s: Seq<char>) -> nat
    decreases s.len(),
{
    if s.len() == 0 {
        0
    } else {
        utf8_len(s.drop_last()) + utf8_width(s.last())
    }
}

/// The most characters from position `k` on whose UTF-8 bytes, with those
/// of `s[..k]`, stay within `max`.
pub open spec fn chars_within(s: Seq<char>, max: nat, k: int) -> int
    decreases s.len() - k,
{
    if 0 <= k < s.len() && utf8_len(s.take(k + 1)) <= max {
        chars_within(s, max, k + 1)
    } else {
        k
    }
}

/// Whether byte offset `max` of `s` falls between two characters.
pub open spec fn on_char_boundary(s: Seq<char>, max: nat) -> bool {
    utf8_len(s.take(chars_within(s, max, 0))) == max
}

/// The trimmed text, cut to `max` bytes with an ellipsis where it is longer.
pub open spec fn truncated(s: Seq<char>, max: nat) -> Seq<char> {
    let t = trim(s);
    if utf8_len(t) > max {
        t.take(chars_within(t, max, 0)) + seq!['…']
    } else {
        t
    }
}

fn width_exec(c: char) -> (r: u128)
    ensures
        r == utf8_width(c),
{
    let u = c as u32;
    if u < 0x80 {
        1
    } else if u < 0x800 {
        2
    } else if u < 0x10000 {
        3
    } else {
        4
    }
}

proof fn lemma_utf8_take(s: Seq<char>, k: int)
    requires
        0 <= k < s.len(),
    ensures
        utf8_len(s.take(k + 1)) == utf8_len(s.take(k)) + utf8_width(s[k]),
{
    assert(s.take(k + 1).drop_last() =~= s.take(k));
}

/// Cuts a message for display: trimmed, and cut to `max` bytes with an
/// ellipsis where it is longer. The cut must fall between characters.
pub fn truncate_detail(s: &str, max: usize) -> (r: String)
    requires
        utf8_len(trim(s@)) > max ==> on_char_boundary(trim(s@), max as nat),
    ensures
        r@ == truncated(s@, max as nat),
{
    let v = chars_of(s);
    let (a, b) = trim_bounds(&v, CharClass::Whitespace);
    let t = crate::text::sub_vec(&v, a, b);
    assert(t@ == trim(s@));
    let mut total: u128 = 0;
    let mut i: usize = 0;
    while i < t.len()
        invariant
            i <= t.len(),
            total == utf8_len(t@.take(i as int)),
            total <= 4 * i,
        decreases t.len() - i,
    {
        proof {
            lemma_utf8_take(t@, i as int);
        }
        total = total + width_exec(t[i]);
        i += 1;
    }
    assert(t@.take(t.len() as int) =~= t@);
    if total <= max as u128 {
        return string_of(&t);
    }
    let mut acc: u128 = 0;
    let mut k: usize = 0;
    while k < t.len() && acc + width_exec(t[k]) <= max as u128
        invariant
            k <= t.len(),
            acc == utf8_len(t@.take(k as int)),
            acc <= max,
            chars_within(t@, max as nat, k as int) == chars_within(t@, max as nat, 0),
        decreases t.len() - k,
    {
        proof {
            lemma_utf8_take(t@, k as int);
        }
        acc = acc + width_exec(t[k]);
        k += 1;
    }
    proof {
        if k < t.len() {
            lemma_utf8_take(t@, k as int);
        }
    }
    let mut out = string_of_range(&t, 0, k);
    crate::text::push_char(&mut out, '…');
    assert(out@ =~= t@.take(k as int) + seq!['…']);
    out
}

/// Whether `truncate_detail(s, max)` can cut: the trimmed text fits in
/// `max` bytes, or byte `max` falls between two characters.
pub fn detail_fits(s: &str, max: usize) -> (r: bool)
    ensures
        r == (utf8_len(trim(s@)) > max ==> on_char_boundary(trim(s@), max as nat)),
{
    let v = chars_of(s);
    let (a, b) = trim_bounds(&v, CharClass::Whitespace);
    let t = crate::text::sub_vec(&v, a, b);
    assert(t@ == trim(s@));
    let mut total: u128 = 0;
    let mut i: usize = 0;
    while i < t.len()
        invariant
            i <= t.len(),
            total == utf8_len(t@.take(i as int)),
            total <= 4 * i,
        decreases t.len() - i,
    {
        proof {
            lemma_utf8_take(t@, i as int);
        }
        total = total + width_exec(t[i]);
        i += 1;
    }
    assert(t@.take(t.len() as int) =~= t@);
    if total <= max as u128 {
        return true;
    }
    let mut acc: u128 = 0;
    let mut k: usize = 0;
    while k < t.len() && acc + width_exec(t[k]) <= max as u128
        invariant
            k <= t.len(),
            acc == utf8_len(t@.take(k as int)),
            acc <= max,
            chars_within(t@, max as nat, k as int) == chars_within(t@, max as nat, 0),
        decreases t.len() - k,
    {
        proof {
            lemma_utf8_take(t@, k as int);
        }
        acc = acc + width_exec(t[k]);
        k += 1;
    }
    proof {
        if k < t.len() {
            lemma_utf8_take(t@, k as int);
        }
    }
    acc == max as u128
}

// ---------------------------------------------------------------------------
// Requests and replies
// ---------------------------------------------------------------------------

/// The chat request body that `serde_json` writes for a system and a user
/// message (object keys in sorted order).
pub open spec fn chat_body(model: Seq<char>, system: Seq<char>, user: Seq<char>, temperature: Seq<char>, max_tokens: nat) -> Seq<
    char,
> {
    "{\"max_tokens\":"@ + dec(max_tokens) + ",\"messages\":[{\"content\":"@ + json_string_literal(system)
        + ",\"role\":\"system\"},{\"content\":"@ + json_string_literal(user) + ",\"role\":\"user\"}],\"model\":"@
        + json_string_literal(model) + ",\"temperature\":"@ + temperature + "}"@
}

pub fn chat_request_body(model: &str, system: &str, user: &str, temperature: &str, max_tokens: u64) -> (r: String)
    ensures
        r@ == chat_body(model@, system@, user@, temperature@, max_tokens as nat),
{
    let mut out = String::new();
    push_str(&mut out, "{\"max_tokens\":");
    let d = dec_u64(max_tokens);
    let ds = string_of(&d);
    push_str(&mut out, &ds);
    push_str(&mut out, ",\"messages\":[{\"content\":");
    let qs = quote_json_string(system);
    push_str(&mut out, &qs);
    push_str(&mut out, ",\"role\":\"system\"},{\"content\":");
    let qu = quote_json_string(user);
    push_str(&mut out, &qu);
    push_str(&mut out, ",\"role\":\"user\"}],\"model\":");
    let qm = quote_json_string(model);
    push_str(&mut out, &qm);
    push_str(&mut out, ",\"temperature\":");
    push_str(&mut out, temperature);
    push_str(&mut out, "}");
    assert(out@ =~= chat_body(model@, system@, user@, temperature@, max_tokens as nat));
    out
}

/// JSON pointer step `/0`: member `"0"` of an object or the first item of
/// an array.
pub open spec fn pointer_zero(v: Json) -> Option<Json> {
    match v {
        Json::Object(m) => member(m@, "0"@),
        Json::Array(a) => if a@.len() > 0 {
            Some(a@[0])
        } else {
            None
        },
        _ => None,
    }
}

/// The string at `/choices/0/message/content` of a reply.
pub open spec fn reply_content(v: Json) -> Option<Seq<char>> {
    match get_key(v, "choices"@) {
        None => None,
        Some(ch) => match pointer_zero(ch) {
            None => None,
            Some(c0) => match get_key(c0, "message"@) {
                None => None,
                Some(m) => match get_key(m, "content"@) {
                    None => None,
                    Some(x) => as_str(x),
                },
            },
        },
    }
}

fn pointer_zero_exec(v: &Json) -> (r: Option<&Json>)
    ensures
        match r {
            Some(x) => pointer_zero(*v) == Some(*x),
            None => pointer_zero(*v) is None,
        },
{
    match v {
        Json::Object(_) => crate::json::get_key_exec(v, "0"),
        Json::Array(a) => {
            if a.len() > 0 {
                Some(&a[0])
            } else {
                None
            }
        },
        _ => None,
    }
}

pub fn reply_content_exec(v: &Json) -> (r: Option<String>)
    ensures
        match r {
            Some(s) => reply_content(*v) == Some(s@),
            None => reply_content(*v) is None,
        },
{
    let ch = match crate::json::get_key_exec(v, "choices") {
        Some(x) => x,
        None => return None,
    };
    let c0 = match pointer_zero_exec(ch) {
        Some(x) => x,
        None => return None,
    };
    let m = match crate::json::get_key_exec(c0, "message") {
        Some(x) => x,
        None => return None,
    };
    let x = match crate::json::get_key_exec(m, "content") {
        Some(x) => x,
        None => return None,
    };
    match crate::json::as_str_exec(x) {
        Some(s) => Some(s.clone()),
        None => None,
    }
}

/// How reading the content of a reply body failed.
pub enum ReplyError {
    NotJson(String),
    MissingContent,
}

/// The content of a reply body: `NotJson` with `serde_json`'s message where
/// the body does not parse, `MissingContent` where the content string is
/// absent.
pub fn reply_body_content(body: &str) -> (r: Result<String, ReplyError>)
    ensures
        match r {
            Ok(s) => crate::json::json_of_text(body@) matches Some(v) && reply_content(v) == Some(s@),
            Err(ReplyError::NotJson(_)) => crate::json::json_of_text(body@) is None,
            Err(ReplyError::MissingContent) => crate::json::json_of_text(body@) matches Some(v) && reply_content(v) is None,
        },
{
    match parse_json(body) {
        Err(e) => Err(ReplyError::NotJson(json_error_text(&e))),
        Ok(v) => match reply_content_exec(&v) {
            Some(s) => Ok(s),
            None => Err(ReplyError::MissingContent),
        },
    }
}


// ---------------------------------------------------------------------------
// Bracketed JSON inside model output
// ---------------------------------------------------------------------------

/// The first `[` and the last `]` of a text, where both occur.
pub open spec fn bracket_span(t: Seq<char>) -> Option<(int, int)> {
    let i = crate::text::find_char_from(t, '[', 0);
    let j = crate::text::rfind_char_below(t, ']', t.len() as int);
    if i < t.len() && j >= 0 {
        Some((i, j))
    } else {
        None
    }
}

/// Whether `t[i..=j]` can be taken for the bracket span: the last `]` is
/// not before the first `[` by more than one place.
pub open spec fn bracket_slice_ok(t: Seq<char>) -> bool {
    match bracket_span(t) {
        Some((i, j)) => i <= j + 1,
        None => true,
    }
}

/// The text from the first `[` to the last `]`, where both occur.
pub fn bracket_slice(t: &Vec<char>) -> (r: Option<Vec<char>>)
    requires
        bracket_slice_ok(t@),
    ensures
        match bracket_span(t@) {
            Some((i, j)) => r matches Some(x) && x@ == t@.subrange(i, j + 1),
            None => r is None,
        },
{
    proof {
        crate::text::lemma_find_char_from(t@, '[', 0);
        crate::text::lemma_rfind_char_below(t@, ']', t.len() as int);
    }
    let i = crate::text::find_char_from_exec(t, '[', 0);
    if i >= t.len() {
        return None;
    }
    match crate::text::rfind_char_exec(t, ']') {
        None => None,
        Some(j) => Some(crate::text::sub_vec(t, i, j + 1)),
    }
}

/// `s.trim_start_matches(p)`: every leading copy of `p` removed.
pub open spec fn strip_prefixes(s: Seq<char>, p: Seq<char>) -> Seq<char>
    decreases s.len(),
{
    if p.len() > 0 && crate::text::starts_with(s, p) {
        strip_prefixes(s.skip(p.len() as int), p)
    } else {
        s
    }
}

/// `s.trim_end_matches(p)`: every trailing copy of `p` removed.
pub open spec fn strip_suffixes(s: Seq<char>, p: Seq<char>) -> Seq<char>
    decreases s.len(),
{
    if p.len() > 0 && ends_with(s, p) {
        strip_suffixes(s.take(s.len() - p.len()), p)
    } else {
        s
    }
}

pub fn strip_prefixes_exec(v: &Vec<char>, p: &Vec<char>) -> (r: Vec<char>)
    ensures
        r@ == strip_prefixes(v@, p@),
{
    let mut cur: Vec<char> = crate::text::sub_vec(v, 0, v.len());
    assert(v@.subrange(0, v.len() as int) =~= v@);
    while p.len() > 0 && crate::text::starts_with_exec(&cur, p)
        invariant
            strip_prefixes(cur@, p@) == strip_prefixes(v@, p@),
        decreases cur.len(),
    {
        cur = crate::text::sub_vec(&cur, p.len(), cur.len());
    }
    cur
}

pub fn strip_suffixes_exec(v: &Vec<char>, p: &Vec<char>) -> (r: Vec<char>)
    ensures
        r@ == strip_suffixes(v@, p@),
{
    let mut cur: Vec<char> = crate::text::sub_vec(v, 0, v.len());
    assert(v@.subrange(0, v.len() as int) =~= v@);
    while p.len() > 0 && ends_with_exec(&cur, p)
        invariant
            strip_suffixes(cur@, p@) == strip_suffixes(v@, p@),
        decreases cur.len(),
    {
        cur = crate::text::sub_vec(&cur, 0, cur.len() - p.len());
    }
    cur
}

/// A prepared chat request: where it goes, what it sends, the bearer
/// credential and the timeout in seconds.
pub struct ChatRequest {
    pub url: String,
    pub body: String,
    pub authorization: String,
    pub timeout_secs: u64,
}

/// `Bearer <trimmed key>`.
pub open spec fn bearer(api_key: Seq<char>) -> Seq<char> {
    "Bearer "@ + trim(api_key)
}

pub fn bearer_header(api_key: &str) -> (r: String)
    ensures
        r@ == bearer(api_key@),
{
    let mut out = String::new();
    push_str(&mut out, "Bearer ");
    let k = crate::text::trim_string(api_key);
    push_str(&mut out, &k);
    out
}

/// The content of a successful reply, where it is JSON with a content string.
pub open spec fn reply_text(reply: Option<Result<HttpReply, String>>) -> Option<Seq<char>> {
    match reply {
        Some(Ok(r)) => if status_success(r.status) {
            match crate::json::json_of_text(r.body@) {
                Some(v) => reply_content(v),
                None => None,
            }
        } else {
            None
        },
        _ => None,
    }
}

pub fn reply_text_exec(reply: &Option<Result<HttpReply, String>>) -> (r: Option<String>)
    ensures
        match r {
            Some(s) => reply_text(*reply) == Some(s@),
            None => reply_text(*reply) is None,
        },
{
    match reply {
        Some(Ok(resp)) => {
            if !(200 <= resp.status && resp.status <= 299) {
                return None;
            }
            match reply_body_content(&resp.body) {
                Ok(s) => Some(s),
                Err(_) => None,
            }
        },
        _ => None,
    }
}

} // verus!
