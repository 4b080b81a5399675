//! Batch translation through an OpenAI-compatible chat model: batching,
//! prompts, reading the model's JSON answer against the expected ids, and
//! the retry, repair and split strategy that falls back to the source text
//! item by item.
use vstd::prelude::*;

use crate::config::GlossaryEntry;
use crate::json::{json_error_text, json_of_text, json_string_literal, member, parse_json, quote_json_string, Json, JsonNumber};
use crate::openai_compat::{
    bearer, bearer_header, bracket_slice, bracket_slice_ok, bracket_span, chat_body, chat_completions_url,
    chat_request_body, chat_url, reply_text, reply_text_exec, strip_prefixes, strip_prefixes_exec, ChatRequest,
    HttpReply,
};
use crate::srt::{strings_view, CueView, SubCue};
use crate::text::{chars_of, is_blank, push_str, str_eq, string_of, string_of_range, trim, trim_class_end, trim_vec, CharClass};

verus! {

/// One translated item as the model returns it.
pub struct LlmSeg {
    pub id: u64,
    pub text: String,
}

impl View for LlmSeg {
    type V = (u64, Seq<char>);

    open spec fn view(&self) -> (u64, Seq<char>) {
        (self.id, self.text@)
    }
}

pub open spec fn segs_view(v: Seq<LlmSeg>) -> Seq<(u64, Seq<char>)> {
    v.map_values(|s: LlmSeg| s@)
}

/// A batch answer: every expected item, or those found and the ids missing.
pub enum BatchParse {
    Complete(Vec<String>),
    Partial { found: Vec<(u32, String)>, missing: Vec<u32> },
}

pub struct TranslateJob<'a> {
    pub base_url: &'a str,
    pub model: &'a str,
    pub api_key: &'a str,
    pub timeout_sec: u64,
    pub max_retries_per_batch: u32,
    pub min_interval_ms: u64,
    pub source_lang: &'a str,
    pub target_lang: &'a str,
    pub style: &'a str,
    pub keep_proper_nouns: bool,
    pub glossary: &'a [GlossaryEntry],
    pub glossary_case_sensitive: bool,
}

// ---------------------------------------------------------------------------
// Prompt pieces
// ---------------------------------------------------------------------------

pub const STYLE_LITERAL: &'static str =
    "Use a literal translation style. Preserve wording, syntax, and sentence structure when possible.";

pub const STYLE_NATURAL: &'static str =
    "Use a natural spoken style in the target language, but do not omit important meaning.";

pub const STYLE_TECHNICAL: &'static str =
    "Use a technical tutorial translation style. Prioritize terminology consistency, information completeness, and instructional clarity over brevity.";

pub const FIDELITY_NATURAL: &'static str =
    "Keep the translation fluent, but do not summarize, soften, or skip technical details.";

pub const FIDELITY_LITERAL: &'static str =
    "Do not rewrite into a summary. Keep the full meaning of every subtitle item.";

pub const FIDELITY_TECHNICAL: &'static str =
    "Do not simplify into a summary. Preserve technical details, qualifiers, relationships, and step-by-step explanations. If the source mentions classes, methods, variables, file names, UI labels, or code terms, keep them accurate and stable across items.";

pub const IDENTIFIER_NATURAL: &'static str =
    "For code identifiers and product names, prefer preserving the original spelling when translation would reduce precision.";

pub const IDENTIFIER_TECHNICAL: &'static str =
    "Preserve code identifiers, API names, class names, method names, variable names, and file names exactly when appropriate. Do not replace precise technical terms with vague Chinese paraphrases.";

pub open spec fn style_text(style: Seq<char>) -> Seq<char> {
    if style == "literal"@ {
        STYLE_LITERAL@
    } else if style == "natural"@ {
        STYLE_NATURAL@
    } else {
        STYLE_TECHNICAL@
    }
}

pub fn style_instruction(style: &str) -> (r: &'static str)
    ensures
        r@ == style_text(style@),
{
    if str_eq(style, "literal") {
        STYLE_LITERAL
    } else if str_eq(style, "natural") {
        STYLE_NATURAL
    } else {
        STYLE_TECHNICAL
    }
}

pub open spec fn fidelity_text(style: Seq<char>) -> Seq<char> {
    if style == "natural"@ {
        FIDELITY_NATURAL@
    } else if style == "literal"@ {
        FIDELITY_LITERAL@
    } else {
        FIDELITY_TECHNICAL@
    }
}

pub fn fidelity_instruction(style: &str) -> (r: &'static str)
    ensures
        r@ == fidelity_text(style@),
{
    if str_eq(style, "natural") {
        FIDELITY_NATURAL
    } else if str_eq(style, "literal") {
        FIDELITY_LITERAL
    } else {
        FIDELITY_TECHNICAL
    }
}

pub open spec fn identifier_text(style: Seq<char>) -> Seq<char> {
    if style == "natural"@ {
        IDENTIFIER_NATURAL@
    } else {
        IDENTIFIER_TECHNICAL@
    }
}

pub fn identifier_instruction(style: &str) -> (r: &'static str)
    ensures
        r@ == identifier_text(style@),
{
    if str_eq(style, "natural") {
        IDENTIFIER_NATURAL
    } else {
        IDENTIFIER_TECHNICAL
    }
}

/// The glossary lines of `entries[..n]`: `- "source" -> "target"` for each
/// entry with a source, both trimmed.
pub open spec fn glossary_lines(entries: Seq<GlossaryEntry>, n: int) -> Seq<char>
    decreases n,
{
    if n <= 0 || n > entries.len() {
        seq![]
    } else {
        let e = entries[n - 1];
        glossary_lines(entries, n - 1) + if trim(e.source@).len() == 0 {
            seq![]
        } else {
            "- \""@ + trim(e.source@) + "\" -> \""@ + trim(e.target@) + "\"\n"@
        }
    }
}

/// The glossary section of the system prompt; empty without entries.
pub open spec fn glossary_text(entries: Seq<GlossaryEntry>, case_sensitive: bool) -> Seq<char> {
    if entries.len() == 0 {
        seq![]
    } else {
        (if case_sensitive {
            "Glossary rules: match whole words, case-sensitive.\n"@
        } else {
            "Glossary rules: match whole words, case-insensitive.\n"@
        }) + glossary_lines(entries, entries.len() as int)
    }
}

pub fn glossary_block(entries: &[GlossaryEntry], case_sensitive: bool) -> (r: String)
    ensures
        r@ == glossary_text(entries@, case_sensitive),
{
    if entries.len() == 0 {
        return String::new();
    }
    let mut s = if case_sensitive {
        "Glossary rules: match whole words, case-sensitive.\n".to_string()
    } else {
        "Glossary rules: match whole words, case-insensitive.\n".to_string()
    };
    let ghost head = s@;
    let mut i: usize = 0;
    while i < entries.len()
        invariant
            i <= entries.len(),
            s@ == head + glossary_lines(entries@, i as int),
        decreases entries.len() - i,
    {
        let e = &entries[i];
        if !is_blank(e.source.as_str()) {
            let src = crate::text::trim_string(e.source.as_str());
            let tgt = crate::text::trim_string(e.target.as_str());
            push_str(&mut s, "- \"");
            push_str(&mut s, &src);
            push_str(&mut s, "\" -> \"");
            push_str(&mut s, &tgt);
            push_str(&mut s, "\"\n");
        }
        i += 1;
    }
    s
}

// ---------------------------------------------------------------------------
// Reading the model's answer
// ---------------------------------------------------------------------------

/// The model output with fences removed: the bracketed span where there is
/// one, else the text after a leading fence, without trailing backticks.
pub open spec fn batch_fence(s: Seq<char>) -> Seq<char> {
    let t = trim(s);
    match bracket_span(t) {
        Some((i, j)) => t.subrange(i, j + 1),
        None => if crate::text::starts_with(t, "```json"@) {
            trim(strip_prefixes(trim(trim_class_end(trim(t.skip(7)), CharClass::Backtick)), "json"@))
        } else if crate::text::starts_with(t, "```"@) {
            trim(trim_class_end(trim(t.skip(3)), CharClass::Backtick))
        } else {
            t
        },
    }
}

pub fn strip_json_fence(s: &str) -> (r: String)
    requires
        bracket_slice_ok(trim(s@)),
    ensures
        r@ == batch_fence(s@),
{
    proof {
        reveal_strlit("```json");
        reveal_strlit("```");
    }
    let v = chars_of(s);
    let (a, b) = crate::text::trim_bounds(&v, CharClass::Whitespace);
    let t = crate::text::sub_vec(&v, a, b);
    assert(t@ == trim(s@));
    match bracket_slice(&t) {
        Some(x) => string_of(&x),
        None => {
            let fence_json = chars_of("```json");
            let fence = chars_of("```");
            if crate::text::starts_with_exec(&t, &fence_json) {
                let rest = crate::text::sub_vec(&t, 7, t.len());
                assert(rest@ == t@.skip(7));
                let r1 = trim_vec(&rest, CharClass::Whitespace);
                let r2 = crate::text::trim_end_vec(&r1, CharClass::Backtick);
                let r3 = trim_vec(&r2, CharClass::Whitespace);
                let json_word = chars_of("json");
                let r4 = strip_prefixes_exec(&r3, &json_word);
                let r5 = trim_vec(&r4, CharClass::Whitespace);
                string_of(&r5)
            } else if crate::text::starts_with_exec(&t, &fence) {
                let rest = crate::text::sub_vec(&t, 3, t.len());
                assert(rest@ == t@.skip(3));
                let r1 = trim_vec(&rest, CharClass::Whitespace);
                let r2 = crate::text::trim_end_vec(&r1, CharClass::Backtick);
                let r3 = trim_vec(&r2, CharClass::Whitespace);
                string_of(&r3)
            } else {
                string_of(&t)
            }
        },
    }
}

/// One answer item: an object with a non-negative integer `id` and a string
/// `text` (other members ignored), or a two-item array of them.
pub open spec fn seg_of(v: Json) -> Option<(u64, Seq<char>)> {
    match v {
        Json::Object(m) => match member(m@, "id"@) {
            Some(Json::Number(JsonNumber::PosInt(id))) => match member(m@, "text"@) {
                Some(Json::Str(t)) => Some((id, t@)),
                _ => None,
            },
            _ => None,
        },
        Json::Array(a) => if a@.len() == 2 {
            match a@[0] {
                Json::Number(JsonNumber::PosInt(id)) => match a@[1] {
                    Json::Str(t) => Some((id, t@)),
                    _ => None,
                },
                _ => None,
            }
        } else {
            None
        },
        _ => None,
    }
}

/// The answer items of a JSON array, where every item is one.
pub open spec fn segs_of(v: Json) -> Option<Seq<(u64, Seq<char>)>> {
    match v {
        Json::Array(a) => if forall|i: int| 0 <= i < a@.len() ==> (#[trigger] seg_of(a@[i])) is Some {
            Some(Seq::new(a@.len(), |i: int| seg_of(a@[i])->Some_0))
        } else {
            None
        },
        _ => None,
    }
}

/// The answer items in model output, where it is such an array.
pub open spec fn answer_items(content: Seq<char>) -> Option<Seq<(u64, Seq<char>)>> {
    match json_of_text(batch_fence(content)) {
        Some(v) => segs_of(v),
        None => None,
    }
}

fn seg_of_exec(v: &Json) -> (r: Option<LlmSeg>)
    ensures
        match r {
            Some(s) => seg_of(*v) == Some(s@),
            None => seg_of(*v) is None,
        },
{
    match v {
        Json::Object(_) => {
            let id = match crate::json::get_key_exec(v, "id") {
                Some(Json::Number(JsonNumber::PosInt(id))) => *id,
                _ => return None,
            };
            match crate::json::get_key_exec(v, "text") {
                Some(Json::Str(t)) => Some(LlmSeg { id, text: t.clone() }),
                _ => None,
            }
        },
        Json::Array(a) => {
            if a.len() != 2 {
                return None;
            }
            let id = match &a[0] {
                Json::Number(JsonNumber::PosInt(id)) => *id,
                _ => return None,
            };
            match &a[1] {
                Json::Str(t) => Some(LlmSeg { id, text: t.clone() }),
                _ => None,
            }
        },
        _ => None,
    }
}

fn segs_of_exec(v: &Json) -> (r: Option<Vec<LlmSeg>>)
    ensures
        match r {
            Some(s) => segs_of(*v) == Some(segs_view(s@)),
            None => segs_of(*v) is None,
        },
{
    match v {
        Json::Array(a) => {
            let mut out: Vec<LlmSeg> = Vec::new();
            let mut i: usize = 0;
            while i < a.len()
                invariant
                    i <= a.len(),
                    *v == Json::Array(*a),
                    out.len() == i,
                    forall|j: int| 0 <= j < i ==> seg_of(#[trigger] a@[j]) == Some(out@[j]@),
                decreases a.len() - i,
            {
                match seg_of_exec(&a[i]) {
                    Some(s) => out.push(s),
                    None => return None,
                }
                i += 1;
            }
            assert(segs_view(out@) =~= Seq::new(a@.len(), |i: int| seg_of(a@[i])->Some_0));
            Some(out)
        },
        _ => None,
    }
}

fn snippet(s: &String) -> (r: String)
    ensures
        r@ == s@.take(if s@.len() < 200 { s@.len() as int } else { 200 }),
{
    let v = chars_of(s.as_str());
    let n = if v.len() < 200 {
        v.len()
    } else {
        200
    };
    string_of_range(&v, 0, n)
}

/// Reads the answer items from model output; an error names what failed
/// and quotes the start of the cleaned output.
pub fn parse_segments(content: &str) -> (r: Result<Vec<LlmSeg>, String>)
    requires
        bracket_slice_ok(trim(content@)),
    ensures
        match r {
            Ok(s) => answer_items(content@) == Some(segs_view(s@)),
            Err(_) => answer_items(content@) is None,
        },
{
    let cleaned = strip_json_fence(content);
    match parse_json(cleaned.as_str()) {
        Err(e) => {
            let mut m = "JSON parse failed: ".to_string();
            push_str(&mut m, &json_error_text(&e));
            push_str(&mut m, "; snippet: ");
            push_str(&mut m, &snippet(&cleaned));
            Err(m)
        },
        Ok(v) => match segs_of_exec(&v) {
            Some(s) => Ok(s),
            None => {
                let mut m = "JSON parse failed: expected an array of {\"id\", \"text\"} items".to_string();
                push_str(&mut m, "; snippet: ");
                push_str(&mut m, &snippet(&cleaned));
                Err(m)
            },
        },
    }
}


/// The id of an answer item as the `u32` it is compared as.
pub open spec fn item_id(it: (u64, Seq<char>)) -> u32 {
    it.0 as u32
}

/// Two answer items share an id.
pub open spec fn has_duplicate_id(items: Seq<(u64, Seq<char>)>) -> bool {
    exists|i: int, j: int| 0 <= i < j < items.len() && item_id(#[trigger] items[i]) == item_id(#[trigger] items[j])
}

/// An answer item has an id that was not asked for.
pub open spec fn has_unexpected_id(items: Seq<(u64, Seq<char>)>, expected: Seq<u32>) -> bool {
    exists|i: int| 0 <= i < items.len() && !expected.contains(item_id(#[trigger] items[i]))
}

/// The position of the first answer item below `n` with this id, or -1.
pub open spec fn item_index(items: Seq<(u64, Seq<char>)>, id: u32, n: int) -> int
    decreases n,
{
    if n <= 0 || n > items.len() {
        -1
    } else if item_index(items, id, n - 1) >= 0 {
        item_index(items, id, n - 1)
    } else if item_id(items[n - 1]) == id {
        n - 1
    } else {
        -1
    }
}

/// Expected ids `..k` matched against the answer: the items found (each
/// answer item used once), the ids missing, and the ids used.
pub open spec fn match_ids(items: Seq<(u64, Seq<char>)>, expected: Seq<u32>, k: int) -> (
    Seq<(u32, Seq<char>)>,
    Seq<u32>,
    Set<u32>,
)
    decreases k,
{
    if k <= 0 || k > expected.len() {
        (seq![], seq![], Set::empty())
    } else {
        let (found, missing, used) = match_ids(items, expected, k - 1);
        let id = expected[k - 1];
        let p = item_index(items, id, items.len() as int);
        if p >= 0 && !used.contains(id) {
            (found.push((id, items[p].1)), missing, used.insert(id))
        } else {
            (found, missing.push(id), used)
        }
    }
}

/// How a batch answer reads against the expected ids.
pub enum BatchOutcome {
    Unreadable,
    Duplicate,
    Unexpected,
    Complete(Seq<Seq<char>>),
    Partial(Seq<(u32, Seq<char>)>, Seq<u32>),
}

pub open spec fn batch_outcome(content: Seq<char>, expected: Seq<u32>) -> BatchOutcome {
    match answer_items(content) {
        None => BatchOutcome::Unreadable,
        Some(items) => if has_duplicate_id(items) {
            BatchOutcome::Duplicate
        } else if has_unexpected_id(items, expected) {
            BatchOutcome::Unexpected
        } else {
            let (found, missing, _used) = match_ids(items, expected, expected.len() as int);
            if missing.len() == 0 {
                BatchOutcome::Complete(found.map_values(|f: (u32, Seq<char>)| f.1))
            } else {
                BatchOutcome::Partial(found, missing)
            }
        },
    }
}

pub open spec fn found_view(v: Seq<(u32, String)>) -> Seq<(u32, Seq<char>)> {
    v.map_values(|f: (u32, String)| (f.0, f.1@))
}

pub proof fn lemma_item_index(items: Seq<(u64, Seq<char>)>, id: u32, n: int)
    requires
        0 <= n <= items.len(),
    ensures
        -1 <= item_index(items, id, n) < n,
        item_index(items, id, n) >= 0 ==> item_id(items[item_index(items, id, n)]) == id,
        item_index(items, id, n) < 0 ==> forall|j: int| 0 <= j < n ==> item_id(#[trigger] items[j]) != id,
    decreases n,
{
    if n > 0 {
        lemma_item_index(items, id, n - 1);
    }
}

fn find_item(items: &Vec<LlmSeg>, id: u32) -> (r: Option<usize>)
    ensures
        match r {
            Some(p) => item_index(segs_view(items@), id, items.len() as int) == p as int,
            None => item_index(segs_view(items@), id, items.len() as int) == -1,
        },
{
    let ghost sv = segs_view(items@);
    proof {
        lemma_item_index(sv, id, items.len() as int);
    }
    let mut j: usize = 0;
    while j < items.len()
        invariant
            j <= items.len() == sv.len(),
            sv == segs_view(items@),
            item_index(sv, id, j as int) == -1,
        decreases items.len() - j,
    {
        assert(sv[j as int] == items@[j as int]@);
        if items[j].id as u32 == id {
            assert(item_index(sv, id, j + 1) == j as int);
            proof {
                lemma_item_index_stable(sv, id, j + 1, items.len() as int);
            }
            return Some(j);
        }
        j += 1;
    }
    None
}

proof fn lemma_item_index_stable(items: Seq<(u64, Seq<char>)>, id: u32, n: int, m: int)
    requires
        0 <= n <= m <= items.len(),
        item_index(items, id, n) >= 0,
    ensures
        item_index(items, id, m) == item_index(items, id, n),
    decreases m,
{
    if m > n {
        lemma_item_index_stable(items, id, n, m - 1);
    }
}

/// Reads a batch answer against the expected ids: all of them, or those
/// found and those missing; an error where the answer is unreadable, repeats
/// an id or has one not asked for.
pub fn parse_batch_partial(content: &str, expected_ids: &[u32]) -> (r: Result<BatchParse, String>)
    requires
        bracket_slice_ok(trim(content@)),
    ensures
        match r {
            Ok(BatchParse::Complete(v)) => batch_outcome(content@, expected_ids@) == BatchOutcome::Complete(
                strings_view(v@),
            ),
            Ok(BatchParse::Partial { found, missing }) => batch_outcome(content@, expected_ids@)
                == BatchOutcome::Partial(found_view(found@), missing@),
            Err(e) => (batch_outcome(content@, expected_ids@) is Unreadable) || (batch_outcome(
                content@,
                expected_ids@,
            ) is Duplicate && e@ == "Duplicate id in JSON response"@) || (batch_outcome(content@, expected_ids@) is Unexpected
                && crate::text::starts_with(e@, "Unexpected ids in JSON response: "@)),
        },
{
    let items = match parse_segments(content) {
        Ok(items) => items,
        Err(e) => return Err(e),
    };
    let ghost sv = segs_view(items@);
    let n = items.len();
    let mut i: usize = 0;
    while i < n
        invariant
            i <= n == items.len() == sv.len(),
            sv == segs_view(items@),
            answer_items(content@) == Some(sv),
            forall|a: int, b: int| 0 <= a < b < i ==> item_id(#[trigger] sv[a]) != item_id(#[trigger] sv[b]),
        decreases n - i,
    {
        let mut j: usize = 0;
        while j < i
            invariant
                j <= i < n == items.len() == sv.len(),
                sv == segs_view(items@),
                answer_items(content@) == Some(sv),
                forall|a: int| 0 <= a < j ==> item_id(#[trigger] sv[a]) != item_id(sv[i as int]),
            decreases i - j,
        {
            assert(sv[j as int] == items@[j as int]@);
            assert(sv[i as int] == items@[i as int]@);
            if items[j].id as u32 == items[i].id as u32 {
                assert(item_id(sv[j as int]) == item_id(sv[i as int]));
                return Err("Duplicate id in JSON response".to_string());
            }
            j += 1;
        }
        i += 1;
    }
    assert(!has_duplicate_id(sv));
    let mut unexpected: Vec<u32> = Vec::new();
    let mut k: usize = 0;
    while k < n
        invariant
            k <= n == items.len() == sv.len(),
            sv == segs_view(items@),
            answer_items(content@) == Some(sv),
            !has_duplicate_id(sv),
            unexpected.len() == 0 <==> forall|a: int| 0 <= a < k ==> expected_ids@.contains(item_id(#[trigger] sv[a])),
        decreases n - k,
    {
        assert(sv[k as int] == items@[k as int]@);
        let id = items[k].id as u32;
        let mut found = false;
        let mut q: usize = 0;
        while q < expected_ids.len()
            invariant
                q <= expected_ids.len(),
                found <==> exists|b: int| 0 <= b < q && expected_ids@[b] == id,
            decreases expected_ids.len() - q,
        {
            if expected_ids[q] == id {
                found = true;
            }
            q += 1;
        }
        if !found {
            unexpected.push(id);
        }
        k += 1;
    }
    if unexpected.len() > 0 {
        let mut m = "Unexpected ids in JSON response: ".to_string();
        let ghost head = m@;
        push_str(&mut m, &ids_debug(&unexpected));
        assert(m@.take(head.len() as int) =~= head);
        return Err(m);
    }
    assert(!has_unexpected_id(sv, expected_ids@));
    let mut found: Vec<(u32, String)> = Vec::new();
    let mut missing: Vec<u32> = Vec::new();
    let mut used: Vec<u32> = Vec::new();
    let mut e: usize = 0;
    while e < expected_ids.len()
        invariant
            e <= expected_ids.len(),
            sv == segs_view(items@),
            sv.len() == items.len(),
            (found_view(found@), missing@, used@.to_set()) == match_ids(sv, expected_ids@, e as int),
        decreases expected_ids.len() - e,
    {
        let id = expected_ids[e];
        let mut was_used = false;
        let mut q: usize = 0;
        while q < used.len()
            invariant
                q <= used.len(),
                was_used <==> exists|b: int| 0 <= b < q && used@[b] == id,
            decreases used.len() - q,
        {
            if used[q] == id {
                was_used = true;
            }
            q += 1;
        }
        assert(was_used <==> used@.to_set().contains(id));
        let ghost before_found = found_view(found@);
        let ghost before_used = used@;
        proof {
            lemma_item_index(sv, id, sv.len() as int);
        }
        match find_item(&items, id) {
            Some(p) if !was_used => {
                assert(sv[p as int] == items@[p as int]@);
                found.push((id, items[p].text.clone()));
                used.push(id);
                assert(found_view(found@) =~= before_found.push((id, sv[p as int].1)));
                proof {
                    before_used.lemma_push_to_set_commute(id);
                }
                assert(used@ == before_used.push(id));
                assert(used@.to_set() =~= before_used.to_set().insert(id));
            },
            _ => {
                missing.push(id);
            },
        }
        e += 1;
    }
    if missing.len() == 0 {
        let mut texts: Vec<String> = Vec::new();
        let mut t: usize = 0;
        while t < found.len()
            invariant
                t <= found.len(),
                strings_view(texts@) == found_view(found@).map_values(|f: (u32, Seq<char>)| f.1).take(t as int),
            decreases found.len() - t,
        {
            let ghost before = strings_view(texts@);
            texts.push(found[t].1.clone());
            assert(strings_view(texts@) =~= before.push(found@[t as int].1@));
            assert(found_view(found@).map_values(|f: (u32, Seq<char>)| f.1).take(t + 1) =~= found_view(found@).map_values(
                |f: (u32, Seq<char>)| f.1,
            ).take(t as int).push(found@[t as int].1@));
            t += 1;
        }
        assert(found_view(found@).map_values(|f: (u32, Seq<char>)| f.1).take(found.len() as int) =~= found_view(
            found@,
        ).map_values(|f: (u32, Seq<char>)| f.1));
        return Ok(BatchParse::Complete(texts));
    }
    Ok(BatchParse::Partial { found, missing })
}

/// The ids in decimal, separated by `, `.
pub open spec fn ids_joined(ids: Seq<u32>) -> Seq<char>
    decreases ids.len(),
{
    if ids.len() == 0 {
        seq![]
    } else if ids.len() == 1 {
        crate::text::dec(ids[0] as nat)
    } else {
        ids_joined(ids.drop_last()) + ", "@ + crate::text::dec(ids.last() as nat)
    }
}

/// Ids written as Rust's `Debug` writes a list: `[1, 2]`.
fn ids_debug(ids: &Vec<u32>) -> (r: String)
    ensures
        r@ == "["@ + ids_joined(ids@) + "]"@,
{
    let mut s = "[".to_string();
    let mut i: usize = 0;
    while i < ids.len()
        invariant
            i <= ids.len(),
            s@ == "["@ + ids_joined(ids@.take(i as int)),
        decreases ids.len() - i,
    {
        assert(ids@.take(i + 1).drop_last() =~= ids@.take(i as int));
        if i > 0 {
            push_str(&mut s, ", ");
        }
        let d = crate::text::dec_u64(ids[i] as u64);
        push_str(&mut s, &string_of(&d));
        assert(s@ =~= "["@ + ids_joined(ids@.take(i + 1)));
        i += 1;
    }
    assert(ids@.take(ids@.len() as int) =~= ids@);
    push_str(&mut s, "]");
    s
}

/// A batch answer that must hold every expected item.
pub fn parse_batch_json(content: &str, expected_ids: &[u32]) -> (r: Result<Vec<String>, String>)
    requires
        bracket_slice_ok(trim(content@)),
    ensures
        match r {
            Ok(v) => batch_outcome(content@, expected_ids@) == BatchOutcome::Complete(strings_view(v@)),
            Err(e) => match batch_outcome(content@, expected_ids@) {
                BatchOutcome::Complete(_) => false,
                BatchOutcome::Duplicate => e@ == "Duplicate id in JSON response"@,
                BatchOutcome::Unexpected => crate::text::starts_with(e@, "Unexpected ids in JSON response: "@),
                BatchOutcome::Partial(found, missing) => e@ == "Returned "@ + crate::text::dec(found.len()) + " items, expected "@
                    + crate::text::dec(expected_ids@.len()) + "; missing ids="@ + "["@ + ids_joined(missing) + "]"@,
                BatchOutcome::Unreadable => true,
            },
        },
{
    match parse_batch_partial(content, expected_ids) {
        Err(e) => Err(e),
        Ok(BatchParse::Complete(items)) => Ok(items),
        Ok(BatchParse::Partial { found, missing }) => {
            let mut m = "Returned ".to_string();
            push_str(&mut m, &string_of(&crate::text::dec_u64(found.len() as u64)));
            push_str(&mut m, " items, expected ");
            push_str(&mut m, &string_of(&crate::text::dec_u64(expected_ids.len() as u64)));
            push_str(&mut m, "; missing ids=");
            push_str(&mut m, &ids_debug(&missing));
            Err(m)
        },
    }
}


// ---------------------------------------------------------------------------
// Batches
// ---------------------------------------------------------------------------

/// The size weight of a cue: its characters counted as `u32`, at least one.
pub open spec fn cue_weight(c: CueView) -> int {
    let n = (c.text.len() as u32) as int;
    if n > 1 {
        n
    } else {
        1
    }
}

/// Cues `..i` put into batches of at most `max_c` weight (a single heavier
/// cue forms its own batch): the closed batches, the open one and its weight.
pub open spec fn batch_run(cues: Seq<CueView>, max_c: int, i: int) -> (Seq<Seq<usize>>, Seq<usize>, int)
    decreases i,
{
    if i <= 0 || i > cues.len() {
        (seq![], seq![], 0)
    } else {
        let (done, cur, size) = batch_run(cues, max_c, i - 1);
        let add = cue_weight(cues[i - 1]);
        if cur.len() > 0 && size + add > max_c {
            (done.push(cur), seq![(i - 1) as usize], add)
        } else {
            (done, cur.push((i - 1) as usize), size + add)
        }
    }
}

/// The batches of all cues, for a character budget of at least 64.
pub open spec fn batches(cues: Seq<CueView>, max_segment_chars: u32) -> Seq<Seq<usize>> {
    let max_c = if max_segment_chars > 64 {
        max_segment_chars as int
    } else {
        64
    };
    let (done, cur, _size) = batch_run(cues, max_c, cues.len() as int);
    if cur.len() > 0 {
        done.push(cur)
    } else {
        done
    }
}

/// The batches in order, concatenated.
pub open spec fn flatten(b: Seq<Seq<usize>>) -> Seq<usize>
    decreases b.len(),
{
    if b.len() == 0 {
        seq![]
    } else {
        flatten(b.drop_last()) + b.last()
    }
}

pub open spec fn upto(n: int) -> Seq<usize> {
    Seq::new(n as nat, |i: int| i as usize)
}

proof fn lemma_batch_run(cues: Seq<CueView>, max_c: int, i: int)
    requires
        0 <= i <= cues.len() <= usize::MAX,
    ensures
        flatten(batch_run(cues, max_c, i).0) + batch_run(cues, max_c, i).1 == upto(i),
        i > 0 ==> batch_run(cues, max_c, i).1.len() > 0,
        forall|k: int| 0 <= k < batch_run(cues, max_c, i).0.len() ==> (#[trigger] batch_run(cues, max_c, i).0[k]).len() > 0,
    decreases i,
{
    if i > 0 {
        lemma_batch_run(cues, max_c, i - 1);
        let (done, cur, size) = batch_run(cues, max_c, i - 1);
        let add = cue_weight(cues[i - 1]);
        if cur.len() > 0 && size + add > max_c {
            assert(done.push(cur).drop_last() =~= done);
            assert(flatten(done.push(cur)) == flatten(done) + cur);
            assert(flatten(done.push(cur)) + seq![(i - 1) as usize] =~= upto(i));
            assert forall|k: int| 0 <= k < done.push(cur).len() implies (#[trigger] done.push(cur)[k]).len() > 0 by {
                if k < done.len() {
                    assert(done.push(cur)[k] == done[k]);
                }
            }
        } else {
            assert((flatten(done) + cur).push((i - 1) as usize) =~= flatten(done) + cur.push((i - 1) as usize));
            assert(upto(i - 1).push((i - 1) as usize) =~= upto(i));
        }
    }
}

/// Every cue lands in exactly one batch, in order, and no batch is empty.
pub proof fn lemma_batches_cover(cues: Seq<CueView>, max_segment_chars: u32)
    requires
        cues.len() <= usize::MAX,
    ensures
        flatten(batches(cues, max_segment_chars)) == upto(cues.len() as int),
        forall|k: int| 0 <= k < batches(cues, max_segment_chars).len() ==> (#[trigger] batches(cues, max_segment_chars)[k]).len() > 0,
{
    let max_c = if max_segment_chars > 64 {
        max_segment_chars as int
    } else {
        64
    };
    lemma_batch_run(cues, max_c, cues.len() as int);
    let (done, cur, _size) = batch_run(cues, max_c, cues.len() as int);
    if cur.len() > 0 {
        assert(done.push(cur).drop_last() =~= done);
        assert forall|k: int| 0 <= k < done.push(cur).len() implies (#[trigger] done.push(cur)[k]).len() > 0 by {
            if k < done.len() {
                assert(done.push(cur)[k] == done[k]);
            }
        }
    } else {
        assert(flatten(done) + cur =~= flatten(done));
    }
}

/// The weight of a batch: the weights of its cues added up.
pub open spec fn batch_weight(cues: Seq<CueView>, b: Seq<usize>) -> int
    decreases b.len(),
{
    if b.len() == 0 {
        0
    } else {
        batch_weight(cues, b.drop_last()) + cue_weight(cues[b.last() as int])
    }
}

proof fn lemma_batch_weight_push(cues: Seq<CueView>, b: Seq<usize>, x: usize)
    ensures
        batch_weight(cues, b.push(x)) == batch_weight(cues, b) + cue_weight(cues[x as int]),
{
    assert(b.push(x).drop_last() =~= b);
}

proof fn lemma_batch_run_law(cues: Seq<CueView>, max_c: int, i: int)
    requires
        0 <= i <= cues.len(),
        cues.len() <= usize::MAX,
    ensures
        ({
            let (done, cur, size) = batch_run(cues, max_c, i);
            &&& size == batch_weight(cues, cur)
            &&& i > 0 ==> cur.len() > 0
            &&& i == 0 ==> done.len() == 0 && cur.len() == 0
            &&& cur.len() >= 2 ==> size <= max_c
            &&& forall|k: int| 0 <= k < done.len() ==> (#[trigger] done[k]).len() > 0
            &&& forall|k: int| 0 <= k < done.len() && done[k].len() >= 2 ==> batch_weight(cues, #[trigger] done[k]) <= max_c
            &&& forall|k: int|
                0 <= k < done.len() - 1 ==> batch_weight(cues, #[trigger] done[k]) + cue_weight(cues[done[k + 1][0] as int])
                    > max_c
            &&& done.len() > 0 && cur.len() > 0 ==> batch_weight(cues, done.last()) + cue_weight(cues[cur[0] as int]) > max_c
        }),
    decreases i,
{
    if i > 0 {
        lemma_batch_run_law(cues, max_c, i - 1);
        let (done, cur, size) = batch_run(cues, max_c, i - 1);
        let add = cue_weight(cues[i - 1]);
        let x = (i - 1) as usize;
        if cur.len() > 0 && size + add > max_c {
            let nd = done.push(cur);
            lemma_batch_weight_push(cues, seq![], x);
            assert(seq![x] =~= Seq::<usize>::empty().push(x));
            assert forall|k: int| 0 <= k < nd.len() && nd[k].len() >= 2 implies batch_weight(cues, #[trigger] nd[k]) <= max_c by {
                if k < done.len() {
                    assert(nd[k] == done[k]);
                }
            }
            assert forall|k: int|
                0 <= k < nd.len() - 1 implies batch_weight(cues, #[trigger] nd[k]) + cue_weight(cues[nd[k + 1][0] as int])
                > max_c by {
                assert(nd[k] == done[k]);
                if k < done.len() - 1 {
                    assert(nd[k + 1] == done[k + 1]);
                } else {
                    assert(nd[k + 1] == cur);
                }
            }
            assert forall|k: int| 0 <= k < nd.len() implies (#[trigger] nd[k]).len() > 0 by {
                if k < done.len() {
                    assert(nd[k] == done[k]);
                }
            }
        } else {
            lemma_batch_weight_push(cues, cur, x);
            if cur.len() > 0 {
                assert(cur.push(x)[0] == cur[0]);
            }
        }
    }
}

/// The batches keep to the weight budget `max(max_segment_chars, 64)`
/// wherever a batch holds more than one cue, and each batch is closed only
/// when the next cue would not fit.
pub proof fn lemma_batches_budget(cues: Seq<CueView>, max_segment_chars: u32)
    requires
        cues.len() <= usize::MAX,
    ensures
        ({
            let b = batches(cues, max_segment_chars);
            let m = if max_segment_chars > 64 { max_segment_chars as int } else { 64 };
            &&& forall|k: int| 0 <= k < b.len() && b[k].len() >= 2 ==> batch_weight(cues, #[trigger] b[k]) <= m
            &&& forall|k: int| 0 <= k < b.len() - 1 ==> batch_weight(cues, #[trigger] b[k]) + cue_weight(cues[b[k + 1][0] as int]) > m
        }),
{
    let m = if max_segment_chars > 64 { max_segment_chars as int } else { 64 };
    lemma_batch_run_law(cues, m, cues.len() as int);
    let (done, cur, size) = batch_run(cues, m, cues.len() as int);
    let b = batches(cues, max_segment_chars);
    if cur.len() > 0 {
        assert(b == done.push(cur));
        assert forall|k: int| 0 <= k < b.len() && b[k].len() >= 2 implies batch_weight(cues, #[trigger] b[k]) <= m by {
            if k < done.len() {
                assert(b[k] == done[k]);
            }
        }
        assert forall|k: int| 0 <= k < b.len() - 1 implies batch_weight(cues, #[trigger] b[k]) + cue_weight(cues[b[k + 1][0] as int])
            > m by {
            assert(b[k] == done[k]);
            if k < done.len() - 1 {
                assert(b[k + 1] == done[k + 1]);
            } else {
                assert(b[k + 1] == cur);
            }
        }
    }
}

pub open spec fn batches_view(v: Seq<Vec<usize>>) -> Seq<Seq<usize>> {
    v.map_values(|b: Vec<usize>| b@)
}

pub fn build_batches(cues: &[SubCue], max_segment_chars: u32) -> (r: Vec<Vec<usize>>)
    ensures
        batches_view(r@) == batches(crate::srt::cues_view(cues@), max_segment_chars),
{
    let ghost cv = crate::srt::cues_view(cues@);
    let max_c: u64 = if max_segment_chars > 64 {
        max_segment_chars as u64
    } else {
        64
    };
    let mut done: Vec<Vec<usize>> = Vec::new();
    let mut cur: Vec<usize> = Vec::new();
    let mut size: u64 = 0;
    let mut i: usize = 0;
    while i < cues.len()
        invariant
            i <= cues.len() == cv.len(),
            cv == crate::srt::cues_view(cues@),
            max_c as int == if max_segment_chars > 64 { max_segment_chars as int } else { 64 },
            (batches_view(done@), cur@, size as int) == batch_run(cv, max_c as int, i as int),
            size <= 0xffff_ffffu64,
            max_c <= 0xffff_ffffu64,
        decreases cues.len() - i,
    {
        assert(cv[i as int] == cues@[i as int]@);
        let v = chars_of(cues[i].text.as_str());
        let n = v.len() as u32;
        let add: u64 = if n > 1 {
            n as u64
        } else {
            1
        };
        if cur.len() > 0 && size + add > max_c {
            let ghost before = batches_view(done@);
            done.push(cur);
            assert(batches_view(done@) =~= before.push(cur@));
            cur = Vec::new();
            size = 0;
        }
        let ghost cb = cur@;
        cur.push(i);
        size = size + add;
        i += 1;
    }
    if cur.len() > 0 {
        let ghost before = batches_view(done@);
        done.push(cur);
        assert(batches_view(done@) =~= before.push(cur@));
    }
    done
}


// ---------------------------------------------------------------------------
// Requests
// ---------------------------------------------------------------------------

pub const SYSTEM_HEAD: &'static str =
    "You are a subtitle translation assistant. Output JSON only, no markdown, no explanation.\nTarget language code: ";

pub const USER_HEAD: &'static str = "Translate each subtitle item into the target language.\nReturn a JSON array where each item is {\"id\": number, \"text\": \"translation\"}.\nThe number of items and every id must match the input exactly.\nTranslate each item faithfully. Do not omit information just to make it shorter.\nDo not merge explanation into a vague summary. Keep the original instructional intent.\nInput:\n";

pub const CONTEXT_HEAD: &'static str = "\n\nPrevious translated context for tone only:\n";

pub const PROPER_NOUNS: &'static str = "Preserve proper nouns when appropriate.";

/// The system message of a batch request.
pub open spec fn system_prompt(
    target: Seq<char>,
    source: Seq<char>,
    style: Seq<char>,
    keep_proper_nouns: bool,
    glossary: Seq<char>,
) -> Seq<char> {
    SYSTEM_HEAD@ + target + "\nSource language hint: "@ + source + "\n"@ + style_text(style) + "\n"@ + fidelity_text(style)
        + "\n"@ + identifier_text(style) + "\n"@ + (if keep_proper_nouns {
        PROPER_NOUNS@
    } else {
        Seq::<char>::empty()
    }) + "\n"@ + glossary
}

/// One input item as `serde_json` writes it: `{"id":N,"text":"..."}`.
pub open spec fn payload_item(c: CueView) -> Seq<char> {
    "{\"id\":"@ + crate::text::dec(c.index as nat) + ",\"text\":"@ + json_string_literal(c.text) + "}"@
}

/// The input items of `indices[..n]`, separated by commas.
pub open spec fn payload_items(cues: Seq<CueView>, indices: Seq<usize>, n: int) -> Seq<char>
    decreases n,
{
    if n <= 0 || n > indices.len() {
        seq![]
    } else if n == 1 {
        payload_item(cues[indices[0] as int])
    } else {
        payload_items(cues, indices, n - 1) + ","@ + payload_item(cues[indices[n - 1] as int])
    }
}

/// The user message of a batch request: the instructions, the items as a
/// JSON array, and the context hint where it is not blank.
pub open spec fn user_prompt(cues: Seq<CueView>, indices: Seq<usize>, hint: Option<Seq<char>>) -> Seq<char> {
    USER_HEAD@ + "["@ + payload_items(cues, indices, indices.len() as int) + "]"@ + match hint {
        Some(h) => if trim(h).len() > 0 {
            CONTEXT_HEAD@ + h
        } else {
            Seq::<char>::empty()
        },
        None => Seq::<char>::empty(),
    }
}

pub open spec fn job_system_prompt(job: &TranslateJob) -> Seq<char> {
    system_prompt(
        job.target_lang@,
        job.source_lang@,
        job.style@,
        job.keep_proper_nouns,
        glossary_text(job.glossary@, job.glossary_case_sensitive),
    )
}

pub open spec fn hint_view(h: Option<&str>) -> Option<Seq<char>> {
    match h {
        Some(s) => Some(s@),
        None => None,
    }
}

pub open spec fn ids_of(cues: Seq<CueView>, indices: Seq<usize>) -> Seq<u32> {
    indices.map_values(|i: usize| cues[i as int].index)
}

fn payload_text(cues: &[SubCue], indices: &[usize]) -> (r: String)
    requires
        forall|k: int| 0 <= k < indices.len() ==> indices[k] < cues.len(),
    ensures
        r@ == "["@ + payload_items(crate::srt::cues_view(cues@), indices@, indices.len() as int) + "]"@,
{
    let ghost cv = crate::srt::cues_view(cues@);
    let mut s = "[".to_string();
    let ghost head = s@;
    let mut k: usize = 0;
    while k < indices.len()
        invariant
            k <= indices.len(),
            cv == crate::srt::cues_view(cues@),
            forall|m: int| 0 <= m < indices.len() ==> indices[m] < cues.len(),
            s@ == head + payload_items(cv, indices@, k as int),
        decreases indices.len() - k,
    {
        let c = &cues[indices[k]];
        assert(cv[indices@[k as int] as int] == cues@[indices@[k as int] as int]@);
        if k > 0 {
            push_str(&mut s, ",");
        }
        push_str(&mut s, "{\"id\":");
        push_str(&mut s, &string_of(&crate::text::dec_u64(c.index as u64)));
        push_str(&mut s, ",\"text\":");
        push_str(&mut s, &quote_json_string(c.text.as_str()));
        push_str(&mut s, "}");
        k += 1;
    }
    push_str(&mut s, "]");
    s
}

/// The request for one batch of items.
pub fn batch_request(job: &TranslateJob, cues: &[SubCue], indices: &[usize], context_hint: Option<&str>) -> (r: ChatRequest)
    requires
        forall|k: int| 0 <= k < indices.len() ==> indices[k] < cues.len(),
    ensures
        r.url@ == chat_url(job.base_url@),
        r.body@ == chat_body(
            job.model@,
            job_system_prompt(job),
            user_prompt(crate::srt::cues_view(cues@), indices@, hint_view(context_hint)),
            "0.2"@,
            8192,
        ),
        r.authorization@ == bearer(job.api_key@),
        r.timeout_secs == if job.timeout_sec >= 5 { job.timeout_sec } else { 5 },
{
    let mut sys = SYSTEM_HEAD.to_string();
    push_str(&mut sys, job.target_lang);
    push_str(&mut sys, "\nSource language hint: ");
    push_str(&mut sys, job.source_lang);
    push_str(&mut sys, "\n");
    push_str(&mut sys, style_instruction(job.style));
    push_str(&mut sys, "\n");
    push_str(&mut sys, fidelity_instruction(job.style));
    push_str(&mut sys, "\n");
    push_str(&mut sys, identifier_instruction(job.style));
    push_str(&mut sys, "\n");
    if job.keep_proper_nouns {
        push_str(&mut sys, PROPER_NOUNS);
    }
    push_str(&mut sys, "\n");
    push_str(&mut sys, &glossary_block(job.glossary, job.glossary_case_sensitive));
    assert(sys@ =~= job_system_prompt(job));
    let mut user = USER_HEAD.to_string();
    push_str(&mut user, &payload_text(cues, indices));
    match context_hint {
        Some(ctx) => {
            if !is_blank(ctx) {
                push_str(&mut user, CONTEXT_HEAD);
                push_str(&mut user, ctx);
            }
        },
        None => {},
    }
    assert(user@ =~= user_prompt(crate::srt::cues_view(cues@), indices@, hint_view(context_hint)));
    let body = chat_request_body(job.model, sys.as_str(), user.as_str(), "0.2", 8192);
    ChatRequest {
        url: chat_completions_url(job.base_url),
        body,
        authorization: bearer_header(job.api_key),
        timeout_secs: if job.timeout_sec >= 5 {
            job.timeout_sec
        } else {
            5
        },
    }
}

/// How a reply to a batch request reads: the answer content of a successful
/// reply, read against the expected ids. A content whose last `]` comes too
/// early to slice from its first `[` is taken as unreadable.
pub open spec fn reply_outcome(reply: Result<HttpReply, String>, expected: Seq<u32>) -> BatchOutcome {
    match reply_text(Some(reply)) {
        None => BatchOutcome::Unreadable,
        Some(content) => if bracket_slice_ok(trim(content)) {
            batch_outcome(content, expected)
        } else {
            BatchOutcome::Unreadable
        },
    }
}

pub fn read_batch_reply(reply: &Result<HttpReply, String>, expected_ids: &[u32]) -> (r: Result<BatchParse, String>)
    ensures
        match r {
            Ok(BatchParse::Complete(v)) => reply_outcome(*reply, expected_ids@) == BatchOutcome::Complete(strings_view(v@)),
            Ok(BatchParse::Partial { found, missing }) => reply_outcome(*reply, expected_ids@) == BatchOutcome::Partial(
                found_view(found@),
                missing@,
            ),
            Err(_) => !(reply_outcome(*reply, expected_ids@) is Complete) && !(reply_outcome(*reply, expected_ids@) is Partial),
        },
{
    let opt: Option<Result<HttpReply, String>> = match reply {
        Ok(r) => Some(Ok(HttpReply { status: r.status, body: r.body.clone() })),
        Err(e) => Some(Err(e.clone())),
    };
    assert(reply_text(opt) == reply_text(Some(*reply)));
    let content = match reply_text_exec(&opt) {
        Some(c) => c,
        None => return Err("Response has no readable content".to_string()),
    };
    let cv = chars_of(content.as_str());
    let t = trim_vec(&cv, CharClass::Whitespace);
    proof {
        crate::text::lemma_find_char_from(t@, '[', 0);
        crate::text::lemma_rfind_char_below(t@, ']', t.len() as int);
    }
    let i = crate::text::find_char_from_exec(&t, '[', 0);
    if i < t.len() {
        match crate::text::rfind_char_exec(&t, ']') {
            Some(j) => {
                if i > j + 1 {
                    return Err("Response brackets are out of order".to_string());
                }
            },
            None => {},
        }
    }
    parse_batch_partial(content.as_str(), expected_ids)
}


// ---------------------------------------------------------------------------
// Retries, repair of partial answers and splitting
// ---------------------------------------------------------------------------

/// The position in the batch for an id: the last batch position whose cue
/// carries it, among `indices[..n]`.
pub open spec fn position_for(cues: Seq<CueView>, indices: Seq<usize>, id: u32, n: int) -> Option<usize>
    decreases n,
{
    if n <= 0 || n > indices.len() {
        None
    } else if cues[indices[n - 1] as int].index == id {
        Some(indices[n - 1])
    } else {
        position_for(cues, indices, id, n - 1)
    }
}

/// Found items keyed by cue position, those whose id has one.
pub open spec fn found_positions(cues: Seq<CueView>, indices: Seq<usize>, found: Seq<(u32, Seq<char>)>, n: int) -> Seq<
    (usize, Seq<char>),
>
    decreases n,
{
    if n <= 0 || n > found.len() {
        seq![]
    } else {
        let prev = found_positions(cues, indices, found, n - 1);
        match position_for(cues, indices, found[n - 1].0, indices.len() as int) {
            Some(p) => prev.push((p, found[n - 1].1)),
            None => prev,
        }
    }
}

/// Missing ids turned into cue positions, those that have one.
pub open spec fn missing_positions(cues: Seq<CueView>, indices: Seq<usize>, missing: Seq<u32>, n: int) -> Seq<usize>
    decreases n,
{
    if n <= 0 || n > missing.len() {
        seq![]
    } else {
        let prev = missing_positions(cues, indices, missing, n - 1);
        match position_for(cues, indices, missing[n - 1], indices.len() as int) {
            Some(p) => prev.push(p),
            None => prev,
        }
    }
}

proof fn lemma_positions_len(cues: Seq<CueView>, indices: Seq<usize>, found: Seq<(u32, Seq<char>)>, missing: Seq<u32>, n: int, m: int)
    requires
        0 <= n <= found.len(),
        0 <= m <= missing.len(),
    ensures
        found_positions(cues, indices, found, n).len() <= n,
        missing_positions(cues, indices, missing, m).len() <= m,
    decreases n + m,
{
    if n > 0 {
        lemma_positions_len(cues, indices, found, missing, n - 1, m);
    } else if m > 0 {
        lemma_positions_len(cues, indices, found, missing, n, m - 1);
    }
}

fn position_for_exec(cues: &[SubCue], indices: &[usize], id: u32) -> (r: Option<usize>)
    requires
        forall|k: int| 0 <= k < indices.len() ==> indices[k] < cues.len(),
    ensures
        r == position_for(crate::srt::cues_view(cues@), indices@, id, indices.len() as int),
{
    let ghost cv = crate::srt::cues_view(cues@);
    let mut n: usize = indices.len();
    while n > 0
        invariant
            n <= indices.len(),
            cv == crate::srt::cues_view(cues@),
            forall|k: int| 0 <= k < indices.len() ==> indices[k] < cues.len(),
            position_for(cv, indices@, id, indices.len() as int) == position_for(cv, indices@, id, n as int),
        decreases n,
    {
        assert(cv[indices@[n - 1] as int] == cues@[indices@[n - 1] as int]@);
        if cues[indices[n - 1]].index == id {
            return Some(indices[n - 1]);
        }
        n -= 1;
    }
    None
}

pub open spec fn pos_found_view(v: Seq<(usize, String)>) -> Seq<(usize, Seq<char>)> {
    v.map_values(|f: (usize, String)| (f.0, f.1@))
}

/// A partial answer keyed by cue positions.
pub fn partial_positions(cues: &[SubCue], indices: &[usize], found: &Vec<(u32, String)>, missing: &Vec<u32>) -> (r: (
    Vec<(usize, String)>,
    Vec<usize>,
))
    requires
        forall|k: int| 0 <= k < indices.len() ==> indices[k] < cues.len(),
    ensures
        pos_found_view(r.0@) == found_positions(crate::srt::cues_view(cues@), indices@, found_view(found@), found.len() as int),
        r.1@ == missing_positions(crate::srt::cues_view(cues@), indices@, missing@, missing.len() as int),
{
    let ghost cv = crate::srt::cues_view(cues@);
    let mut fo: Vec<(usize, String)> = Vec::new();
    let mut i: usize = 0;
    while i < found.len()
        invariant
            i <= found.len(),
            cv == crate::srt::cues_view(cues@),
            forall|k: int| 0 <= k < indices.len() ==> indices[k] < cues.len(),
            pos_found_view(fo@) == found_positions(cv, indices@, found_view(found@), i as int),
        decreases found.len() - i,
    {
        match position_for_exec(cues, indices, found[i].0) {
            Some(p) => {
                let ghost before = pos_found_view(fo@);
                fo.push((p, found[i].1.clone()));
                assert(pos_found_view(fo@) =~= before.push((p, found@[i as int].1@)));
            },
            None => {},
        }
        i += 1;
    }
    let mut mi: Vec<usize> = Vec::new();
    let mut j: usize = 0;
    while j < missing.len()
        invariant
            j <= missing.len(),
            cv == crate::srt::cues_view(cues@),
            forall|k: int| 0 <= k < indices.len() ==> indices[k] < cues.len(),
            mi@ == missing_positions(cv, indices@, missing@, j as int),
        decreases missing.len() - j,
    {
        match position_for_exec(cues, indices, missing[j]) {
            Some(p) => {
                mi.push(p);
            },
            None => {},
        }
        j += 1;
    }
    (fo, mi)
}

/// The text kept for a cue position in an association list: the last entry.
pub open spec fn assoc_get(m: Seq<(usize, Seq<char>)>, k: usize) -> Option<Seq<char>>
    decreases m.len(),
{
    if m.len() == 0 {
        None
    } else if m.last().0 == k {
        Some(m.last().1)
    } else {
        assoc_get(m.drop_last(), k)
    }
}

/// Pairs of missing positions and their repaired texts, as far as both go.
pub open spec fn zip_repaired(missing: Seq<usize>, repaired: Seq<Seq<char>>) -> Seq<(usize, Seq<char>)> {
    Seq::new(
        if missing.len() <= repaired.len() {
            missing.len()
        } else {
            repaired.len()
        },
        |i: int| (missing[i], repaired[i]),
    )
}

/// The texts of `indices[..n]`: each position takes its kept text the first
/// time it occurs, else the source text of its cue.
pub open spec fn merge_run(cues: Seq<CueView>, indices: Seq<usize>, m: Seq<(usize, Seq<char>)>, n: int) -> (Seq<Seq<char>>, Set<usize>)
    decreases n,
{
    if n <= 0 || n > indices.len() {
        (seq![], Set::empty())
    } else {
        let (out, taken) = merge_run(cues, indices, m, n - 1);
        let idx = indices[n - 1];
        match assoc_get(m, idx) {
            Some(t) => if !taken.contains(idx) {
                (out.push(t), taken.insert(idx))
            } else {
                (out.push(cues[idx as int].text), taken)
            },
            None => (out.push(cues[idx as int].text), taken),
        }
    }
}

/// A batch put back together from the found items and the repaired ones.
pub open spec fn merged_texts(
    cues: Seq<CueView>,
    indices: Seq<usize>,
    found: Seq<(usize, Seq<char>)>,
    missing: Seq<usize>,
    repaired: Seq<Seq<char>>,
) -> Seq<Seq<char>> {
    merge_run(cues, indices, found + zip_repaired(missing, repaired), indices.len() as int).0
}

proof fn lemma_merge_run_len(cues: Seq<CueView>, indices: Seq<usize>, m: Seq<(usize, Seq<char>)>, n: int)
    requires
        0 <= n <= indices.len(),
    ensures
        merge_run(cues, indices, m, n).0.len() == n,
    decreases n,
{
    if n > 0 {
        lemma_merge_run_len(cues, indices, m, n - 1);
    }
}

fn assoc_get_exec(m: &Vec<(usize, String)>, k: usize) -> (r: Option<String>)
    ensures
        match r {
            Some(t) => assoc_get(pos_found_view(m@), k) == Some(t@),
            None => assoc_get(pos_found_view(m@), k) is None,
        },
{
    let ghost mv = pos_found_view(m@);
    let mut n: usize = m.len();
    assert(mv.take(n as int) =~= mv);
    while n > 0
        invariant
            n <= m.len(),
            mv == pos_found_view(m@),
            assoc_get(mv, k) == assoc_get(mv.take(n as int), k),
        decreases n,
    {
        assert(mv.take(n as int).last() == (m@[n - 1].0, m@[n - 1].1@));
        assert(mv.take(n as int).drop_last() =~= mv.take(n - 1));
        if m[n - 1].0 == k {
            return Some(m[n - 1].1.clone());
        }
        n -= 1;
    }
    None
}

/// Puts a batch back together: found and repaired texts by position, the
/// source text where a position has none or was already used.
pub fn merge_repaired(
    cues: &[SubCue],
    indices: &[usize],
    found: &Vec<(usize, String)>,
    missing: &Vec<usize>,
    repaired: &Vec<String>,
) -> (r: Vec<String>)
    requires
        forall|k: int| 0 <= k < indices.len() ==> indices[k] < cues.len(),
    ensures
        strings_view(r@) == merged_texts(
            crate::srt::cues_view(cues@),
            indices@,
            pos_found_view(found@),
            missing@,
            strings_view(repaired@),
        ),
        r.len() == indices.len(),
{
    let ghost cv = crate::srt::cues_view(cues@);
    let mut m: Vec<(usize, String)> = Vec::new();
    let mut i: usize = 0;
    while i < found.len()
        invariant
            i <= found.len(),
            pos_found_view(m@) == pos_found_view(found@).take(i as int),
        decreases found.len() - i,
    {
        let ghost before = pos_found_view(m@);
        m.push((found[i].0, found[i].1.clone()));
        assert(pos_found_view(m@) =~= before.push((found@[i as int].0, found@[i as int].1@)));
        assert(pos_found_view(found@).take(i + 1) =~= pos_found_view(found@).take(i as int).push(
            (found@[i as int].0, found@[i as int].1@),
        ));
        i += 1;
    }
    assert(pos_found_view(found@).take(found.len() as int) =~= pos_found_view(found@));
    let ghost base = pos_found_view(m@);
    let mut j: usize = 0;
    while j < missing.len() && j < repaired.len()
        invariant
            j <= missing.len(),
            j <= repaired.len(),
            pos_found_view(m@) == base + zip_repaired(missing@, strings_view(repaired@)).take(j as int),
        decreases missing.len() - j,
    {
        let ghost before = pos_found_view(m@);
        m.push((missing[j], repaired[j].clone()));
        let ghost z = zip_repaired(missing@, strings_view(repaired@));
        assert(z[j as int] == (missing@[j as int], repaired@[j as int]@));
        assert(pos_found_view(m@) =~= before.push((missing@[j as int], repaired@[j as int]@)));
        assert(z.take(j + 1) =~= z.take(j as int).push(z[j as int]));
        j += 1;
    }
    assert(zip_repaired(missing@, strings_view(repaired@)).take(j as int) =~= zip_repaired(missing@, strings_view(repaired@)));
    let ghost mv = pos_found_view(m@);
    let mut out: Vec<String> = Vec::new();
    let mut taken: Vec<usize> = Vec::new();
    let mut k: usize = 0;
    while k < indices.len()
        invariant
            k <= indices.len(),
            cv == crate::srt::cues_view(cues@),
            mv == pos_found_view(m@),
            forall|q: int| 0 <= q < indices.len() ==> indices[q] < cues.len(),
            (strings_view(out@), taken@.to_set()) == merge_run(cv, indices@, mv, k as int),
        decreases indices.len() - k,
    {
        let idx = indices[k];
        let mut was = false;
        let mut q: usize = 0;
        while q < taken.len()
            invariant
                q <= taken.len(),
                was <==> exists|b: int| 0 <= b < q && taken@[b] == idx,
            decreases taken.len() - q,
        {
            if taken[q] == idx {
                was = true;
            }
            q += 1;
        }
        assert(was <==> taken@.to_set().contains(idx));
        assert(cv[idx as int] == cues@[idx as int]@);
        let ghost before = strings_view(out@);
        let ghost tb = taken@;
        match assoc_get_exec(&m, idx) {
            Some(t) if !was => {
                let ghost tv = t@;
                out.push(t);
                taken.push(idx);
                proof {
                    tb.lemma_push_to_set_commute(idx);
                }
                assert(strings_view(out@) =~= before.push(tv));
            },
            _ => {
                out.push(cues[idx].text.clone());
                assert(strings_view(out@) =~= before.push(cv[idx as int].text));
            },
        }
        k += 1;
    }
    proof {
        lemma_merge_run_len(cv, indices@, mv, indices.len() as int);
    }
    out
}

/// The context hint left by a partial answer: the text at the highest
/// position (the last such entry where several share it).
pub open spec fn hint_of(found: Seq<(usize, Seq<char>)>) -> Option<Seq<char>>
    decreases found.len(),
{
    if found.len() == 0 {
        None
    } else {
        let rest = found.drop_last();
        let last = found.last();
        if found.len() == 1 {
            Some(last.1)
        } else if last.0 >= max_pos(rest) {
            Some(last.1)
        } else {
            hint_of(rest)
        }
    }
}

/// The highest position among the entries.
pub open spec fn max_pos(found: Seq<(usize, Seq<char>)>) -> int
    decreases found.len(),
{
    if found.len() == 0 {
        -1
    } else {
        let m = max_pos(found.drop_last());
        if found.last().0 >= m {
            found.last().0 as int
        } else {
            m
        }
    }
}

pub fn best_hint(found: &Vec<(usize, String)>) -> (r: Option<String>)
    ensures
        match r {
            Some(t) => hint_of(pos_found_view(found@)) == Some(t@),
            None => hint_of(pos_found_view(found@)) is None,
        },
{
    let ghost fv = pos_found_view(found@);
    if found.len() == 0 {
        return None;
    }
    let mut best: usize = 0;
    let mut i: usize = 1;
    assert(fv.take(1).drop_last() =~= seq![]);
    assert(max_pos(fv.take(1).drop_last()) == -1);
    assert(fv.take(1).last() == fv[0]);
    while i < found.len()
        invariant
            1 <= i <= found.len(),
            best < i,
            fv == pos_found_view(found@),
            hint_of(fv.take(i as int)) == Some(fv[best as int].1),
            max_pos(fv.take(i as int)) == fv[best as int].0 as int,
        decreases found.len() - i,
    {
        assert(fv.take(i + 1).drop_last() =~= fv.take(i as int));
        assert(fv.take(i + 1).last() == fv[i as int]);
        if found[i].0 >= found[best].0 {
            best = i;
        }
        i += 1;
    }
    assert(fv.take(found.len() as int) =~= fv);
    Some(found[best].1.clone())
}


proof fn lemma_match_ids_len(items: Seq<(u64, Seq<char>)>, expected: Seq<u32>, k: int)
    requires
        0 <= k <= expected.len(),
    ensures
        match_ids(items, expected, k).0.len() + match_ids(items, expected, k).1.len() == k,
    decreases k,
{
    if k > 0 {
        lemma_match_ids_len(items, expected, k - 1);
    }
}

proof fn lemma_partial_sizes(reply: Result<HttpReply, String>, expected: Seq<u32>)
    requires
        reply_outcome(reply, expected) is Partial,
    ensures
        ({
            let (found, missing) = match reply_outcome(reply, expected) {
                BatchOutcome::Partial(f, m) => (f, m),
                _ => (seq![], seq![]),
            };
            found.len() + missing.len() == expected.len()
        }),
{
    let content = reply_text(Some(reply))->Some_0;
    let items = answer_items(content)->Some_0;
    lemma_match_ids_len(items, expected, expected.len() as int);
}

proof fn lemma_position_for_in(cues: Seq<CueView>, indices: Seq<usize>, id: u32, n: int, bound: int)
    requires
        forall|k: int| 0 <= k < indices.len() ==> indices[k] < bound,
    ensures
        position_for(cues, indices, id, n) matches Some(p) ==> p < bound,
    decreases n,
{
    if n > 0 && n <= indices.len() {
        lemma_position_for_in(cues, indices, id, n - 1, bound);
    }
}

proof fn lemma_missing_positions_in(cues: Seq<CueView>, indices: Seq<usize>, missing: Seq<u32>, n: int, bound: int)
    requires
        0 <= n <= missing.len(),
        forall|k: int| 0 <= k < indices.len() ==> indices[k] < bound,
    ensures
        forall|j: int|
            0 <= j < missing_positions(cues, indices, missing, n).len() ==> #[trigger] missing_positions(
                cues,
                indices,
                missing,
                n,
            )[j] < bound,
    decreases n,
{
    if n > 0 {
        lemma_missing_positions_in(cues, indices, missing, n - 1, bound);
        lemma_position_for_in(cues, indices, missing[n - 1], indices.len() as int, bound);
        let prev = missing_positions(cues, indices, missing, n - 1);
        assert forall|j: int| 0 <= j < missing_positions(cues, indices, missing, n).len() implies #[trigger] missing_positions(
            cues,
            indices,
            missing,
            n,
        )[j] < bound by {
            if j < prev.len() {
                assert(missing_positions(cues, indices, missing, n)[j] == prev[j]);
            }
        }
    }
}

/// The source texts of the batch positions.
pub open spec fn sources(cues: Seq<CueView>, indices: Seq<usize>) -> Seq<Seq<char>> {
    indices.map_values(|i: usize| cues[i as int].text)
}

/// Whether every reply the call can give is a failure.
pub open spec fn always_fails<F: Fn(ChatRequest, u64) -> Result<HttpReply, String>>(call: &F) -> bool {
    forall|q: ChatRequest, d: u64, rep: Result<HttpReply, String>| #[trigger] call.ensures((q, d), rep) ==> rep is Err
}

/// The answer holds an item with this id and text.
pub open spec fn item_present(items: Seq<(u64, Seq<char>)>, id: u32, text: Seq<char>) -> bool {
    exists|p: int| 0 <= p < items.len() && item_id(#[trigger] items[p]) == id && items[p].1 == text
}

/// A reply whose answer holds an item with this id and text.
pub open spec fn reply_offers(rep: Result<HttpReply, String>, id: u32, text: Seq<char>) -> bool {
    match reply_text(Some(rep)) {
        Some(content) => match answer_items(content) {
            Some(items) => item_present(items, id, text),
            None => false,
        },
        None => false,
    }
}

/// Some reply the call can give holds an item with this id and text.
pub open spec fn call_offers<F: Fn(ChatRequest, u64) -> Result<HttpReply, String>>(call: &F, id: u32, text: Seq<char>) -> bool {
    exists|q: ChatRequest, d: u64, rep: Result<HttpReply, String>| #[trigger] call.ensures((q, d), rep) && reply_offers(rep, id, text)
}

/// Each text is the source text of its cue, or a text that a reply of the
/// call gave for that cue's id.
pub open spec fn texts_from<F: Fn(ChatRequest, u64) -> Result<HttpReply, String>>(
    call: &F,
    cues: Seq<CueView>,
    indices: Seq<usize>,
    texts: Seq<Seq<char>>,
) -> bool {
    forall|k: int|
        0 <= k < indices.len() ==> #[trigger] texts[k] == cues[indices[k] as int].text || call_offers(
            call,
            cues[indices[k] as int].index,
            texts[k],
        )
}

proof fn lemma_match_ids(items: Seq<(u64, Seq<char>)>, expected: Seq<u32>, k: int)
    requires
        0 <= k <= expected.len(),
    ensures
        ({
            let (found, missing, _used) = match_ids(items, expected, k);
            &&& found.len() + missing.len() == k
            &&& forall|j: int| 0 <= j < found.len() ==> item_present(items, (#[trigger] found[j]).0, found[j].1)
            &&& missing.len() == 0 ==> forall|j: int| 0 <= j < k ==> (#[trigger] found[j]).0 == expected[j]
        }),
    decreases k,
{
    if k > 0 {
        lemma_match_ids(items, expected, k - 1);
        let (found, missing, used) = match_ids(items, expected, k - 1);
        let id = expected[k - 1];
        let p = item_index(items, id, items.len() as int);
        lemma_item_index(items, id, items.len() as int);
        let (f2, m2, _u2) = match_ids(items, expected, k);
        if p >= 0 && !used.contains(id) {
            assert(f2 == found.push((id, items[p].1)));
            assert forall|j: int| 0 <= j < f2.len() implies item_present(items, (#[trigger] f2[j]).0, f2[j].1) by {
                if j < found.len() {
                    assert(f2[j] == found[j]);
                } else {
                    assert(item_id(items[p]) == f2[j].0 && items[p].1 == f2[j].1);
                }
            }
        } else {
            assert(m2.len() > 0);
        }
    }
}

/// What a reply read against the expected ids gives is offered by it: a
/// complete answer item by item in order, a partial one for each item found.
proof fn lemma_outcome_offers(rep: Result<HttpReply, String>, expected: Seq<u32>)
    ensures
        reply_outcome(rep, expected) matches BatchOutcome::Complete(v) ==> v.len() == expected.len() && forall|k: int|
            0 <= k < v.len() ==> reply_offers(rep, expected[k], #[trigger] v[k]),
        reply_outcome(rep, expected) matches BatchOutcome::Partial(f, m) ==> forall|j: int|
            0 <= j < f.len() ==> reply_offers(rep, (#[trigger] f[j]).0, f[j].1),
{
    match reply_text(Some(rep)) {
        None => {},
        Some(content) => {
            if bracket_slice_ok(trim(content)) {
                match answer_items(content) {
                    None => {},
                    Some(items) => {
                        lemma_match_ids(items, expected, expected.len() as int);
                        let (found, missing, _used) = match_ids(items, expected, expected.len() as int);
                        if !has_duplicate_id(items) && !has_unexpected_id(items, expected) {
                            if missing.len() == 0 {
                                let v = found.map_values(|f: (u32, Seq<char>)| f.1);
                                assert forall|k: int| 0 <= k < v.len() implies reply_offers(rep, expected[k], #[trigger] v[k]) by {
                                    assert(found[k].0 == expected[k]);
                                    assert(item_present(items, found[k].0, found[k].1));
                                }
                            } else {
                                assert forall|j: int| 0 <= j < found.len() implies reply_offers(rep, (#[trigger] found[j]).0, found[j].1) by {
                                    assert(item_present(items, found[j].0, found[j].1));
                                }
                            }
                        }
                    },
                }
            }
        },
    }
}

proof fn lemma_position_for(cues: Seq<CueView>, indices: Seq<usize>, id: u32, n: int)
    ensures
        position_for(cues, indices, id, n) matches Some(p) ==> cues[p as int].index == id && exists|k: int|
            0 <= k < indices.len() && indices[k] == p,
    decreases n,
{
    if 0 < n <= indices.len() && cues[indices[n - 1] as int].index != id {
        lemma_position_for(cues, indices, id, n - 1);
    }
}

proof fn lemma_found_positions(cues: Seq<CueView>, indices: Seq<usize>, found: Seq<(u32, Seq<char>)>, n: int)
    ensures
        forall|i: int|
            0 <= i < found_positions(cues, indices, found, n).len() ==> exists|j: int|
                0 <= j < found.len() && cues[(#[trigger] found_positions(cues, indices, found, n)[i]).0 as int].index
                    == found[j].0 && found_positions(cues, indices, found, n)[i].1 == found[j].1,
    decreases n,
{
    if 0 < n <= found.len() {
        lemma_found_positions(cues, indices, found, n - 1);
        lemma_position_for(cues, indices, found[n - 1].0, indices.len() as int);
        let prev = found_positions(cues, indices, found, n - 1);
        let cur = found_positions(cues, indices, found, n);
        assert forall|i: int| 0 <= i < cur.len() implies exists|j: int|
            0 <= j < found.len() && cues[(#[trigger] cur[i]).0 as int].index == found[j].0 && cur[i].1 == found[j].1 by {
            if i < prev.len() {
                assert(cur[i] == prev[i]);
                let j = choose|j: int|
                    0 <= j < found.len() && cues[(#[trigger] prev[i]).0 as int].index == found[j].0 && prev[i].1
                        == found[j].1;
            } else {
                assert(cues[cur[i].0 as int].index == found[n - 1].0 && cur[i].1 == found[n - 1].1);
            }
        }
    }
}

proof fn lemma_assoc_get(m: Seq<(usize, Seq<char>)>, key: usize)
    ensures
        assoc_get(m, key) matches Some(t) ==> exists|i: int| 0 <= i < m.len() && #[trigger] m[i] == (key, t),
    decreases m.len(),
{
    if m.len() > 0 && m.last().0 != key {
        lemma_assoc_get(m.drop_last(), key);
        if let Some(t) = assoc_get(m.drop_last(), key) {
            let i = choose|i: int| 0 <= i < m.drop_last().len() && #[trigger] m.drop_last()[i] == (key, t);
            assert(m[i] == (key, t));
        }
    } else if m.len() > 0 {
        assert(m[m.len() - 1] == (key, m.last().1));
    }
}

proof fn lemma_merge_run_items(cues: Seq<CueView>, indices: Seq<usize>, m: Seq<(usize, Seq<char>)>, n: int)
    requires
        0 <= n <= indices.len(),
    ensures
        forall|k: int|
            0 <= k < n ==> #[trigger] merge_run(cues, indices, m, n).0[k] == cues[indices[k] as int].text
                || assoc_get(m, indices[k]) == Some(merge_run(cues, indices, m, n).0[k]),
    decreases n,
{
    if n > 0 {
        lemma_merge_run_items(cues, indices, m, n - 1);
        lemma_merge_run_len(cues, indices, m, n - 1);
        let prev = merge_run(cues, indices, m, n - 1).0;
        let cur = merge_run(cues, indices, m, n).0;
        assert forall|k: int| 0 <= k < n implies #[trigger] cur[k] == cues[indices[k] as int].text || assoc_get(m, indices[k])
            == Some(cur[k]) by {
            if k < n - 1 {
                assert(cur[k] == prev[k]);
            }
        }
    }
}

/// No two of the items at `indices` share a cue id.
pub open spec fn distinct_ids(cues: Seq<CueView>, indices: Seq<usize>) -> bool {
    forall|a: int, b: int|
        0 <= a < indices.len() && 0 <= b < indices.len() && a != b ==> cues[indices[a] as int].index != cues[
            indices[b] as int].index
}

/// The text at `k` is the source text of its cue.
pub open spec fn keeps_source(cues: Seq<CueView>, indices: Seq<usize>, texts: Seq<Seq<char>>, k: int) -> bool {
    texts[k] == cues[indices[k] as int].text
}

/// Some item kept the source text of its cue.
pub open spec fn some_source_kept(cues: Seq<CueView>, indices: Seq<usize>, texts: Seq<Seq<char>>) -> bool {
    exists|k: int| 0 <= k < indices.len() && #[trigger] keeps_source(cues, indices, texts, k)
}

/// No value occurs twice.
pub open spec fn all_distinct<T>(s: Seq<T>) -> bool {
    forall|a: int, b: int| 0 <= a < s.len() && 0 <= b < s.len() && a != b ==> s[a] != s[b]
}

/// Every reply the call can give answers all the requested ids.
pub open spec fn always_complete<F: Fn(ChatRequest, u64) -> Result<HttpReply, String>>(call: &F, ids: Seq<u32>) -> bool {
    forall|q: ChatRequest, d: u64, rep: Result<HttpReply, String>|
        #[trigger] call.ensures((q, d), rep) ==> reply_outcome(rep, ids) is Complete
}

proof fn lemma_position_found(cues: Seq<CueView>, indices: Seq<usize>, id: u32, n: int, j: int)
    requires
        0 <= j < n <= indices.len(),
        cues[indices[j] as int].index == id,
    ensures
        position_for(cues, indices, id, n) is Some,
    decreases n,
{
    if cues[indices[n - 1] as int].index != id {
        lemma_position_found(cues, indices, id, n - 1, j);
    }
}

/// With distinct ids, the id of the item at `k` leads back to that item.
proof fn lemma_position_of_item(cues: Seq<CueView>, indices: Seq<usize>, k: int)
    requires
        0 <= k < indices.len(),
        distinct_ids(cues, indices),
    ensures
        position_for(cues, indices, cues[indices[k] as int].index, indices.len() as int) == Some(indices[k]),
{
    let id = cues[indices[k] as int].index;
    lemma_position_found(cues, indices, id, indices.len() as int, k);
    lemma_position_for(cues, indices, id, indices.len() as int);
    let p = position_for(cues, indices, id, indices.len() as int)->Some_0;
    let j = choose|j: int| 0 <= j < indices.len() && indices[j] == p;
    assert(cues[indices[j] as int].index == id);
}

proof fn lemma_match_cover(items: Seq<(u64, Seq<char>)>, expected: Seq<u32>, k: int)
    requires
        0 <= k <= expected.len(),
    ensures
        ({
            let (found, missing, _used) = match_ids(items, expected, k);
            &&& forall|j: int|
                0 <= j < k ==> (exists|a: int| 0 <= a < found.len() && #[trigger] found[a].0 == expected[j]) || missing.contains(
                    expected[j],
                )
            &&& forall|a: int| 0 <= a < missing.len() ==> exists|j: int| 0 <= j < k && #[trigger] missing[a] == expected[j]
            &&& all_distinct(expected.take(k)) ==> all_distinct(missing)
        }),
    decreases k,
{
    if k > 0 {
        lemma_match_cover(items, expected, k - 1);
        let (found, missing, used) = match_ids(items, expected, k - 1);
        let (f2, m2, _u2) = match_ids(items, expected, k);
        let id = expected[k - 1];
        let p = item_index(items, id, items.len() as int);
        if p >= 0 && !used.contains(id) {
            assert(f2[found.len() as int].0 == expected[k - 1]);
            assert forall|j: int|
                0 <= j < k implies (exists|a: int| 0 <= a < f2.len() && #[trigger] f2[a].0 == expected[j]) || m2.contains(
                expected[j],
            ) by {
                if j < k - 1 {
                    if exists|a: int| 0 <= a < found.len() && #[trigger] found[a].0 == expected[j] {
                        let a = choose|a: int| 0 <= a < found.len() && #[trigger] found[a].0 == expected[j];
                        assert(f2[a] == found[a]);
                    }
                }
            }
            if all_distinct(expected.take(k)) {
                assert(expected.take(k - 1) =~= expected.take(k).take(k - 1));
                assert(all_distinct(expected.take(k - 1)));
            }
        } else {
            assert(m2 == missing.push(id));
            assert(m2[missing.len() as int] == expected[k - 1]);
            assert forall|j: int|
                0 <= j < k implies (exists|a: int| 0 <= a < f2.len() && #[trigger] f2[a].0 == expected[j]) || m2.contains(
                expected[j],
            ) by {
                if j < k - 1 {
                    if missing.contains(expected[j]) {
                        let a = choose|a: int| 0 <= a < missing.len() && missing[a] == expected[j];
                        assert(m2[a] == expected[j]);
                    }
                } else {
                    assert(m2[missing.len() as int] == expected[j]);
                }
            }
            assert forall|a: int| 0 <= a < m2.len() implies exists|j: int| 0 <= j < k && #[trigger] m2[a] == expected[j] by {
                if a < missing.len() {
                    assert(m2[a] == missing[a]);
                } else {
                    assert(m2[a] == expected[k - 1]);
                }
            }
            if all_distinct(expected.take(k)) {
                assert(expected.take(k - 1) =~= expected.take(k).take(k - 1));
                assert(all_distinct(expected.take(k - 1)));
                assert forall|a: int, b: int| 0 <= a < m2.len() && 0 <= b < m2.len() && a != b implies m2[a] != m2[b] by {
                    if a < missing.len() && b < missing.len() {
                        assert(m2[a] == missing[a] && m2[b] == missing[b]);
                    } else if a < missing.len() {
                        let j = choose|j: int| 0 <= j < k - 1 && #[trigger] missing[a] == expected[j];
                        assert(expected.take(k)[j] == expected[j] && expected.take(k)[k - 1] == expected[k - 1]);
                        assert(m2[a] == missing[a]);
                    } else if b < missing.len() {
                        let j = choose|j: int| 0 <= j < k - 1 && #[trigger] missing[b] == expected[j];
                        assert(expected.take(k)[j] == expected[j] && expected.take(k)[k - 1] == expected[k - 1]);
                        assert(m2[b] == missing[b]);
                    }
                }
            }
        }
    }
}

proof fn lemma_found_cover(cues: Seq<CueView>, indices: Seq<usize>, found: Seq<(u32, Seq<char>)>, n: int)
    requires
        0 <= n <= found.len(),
    ensures
        forall|jf: int|
            0 <= jf < n ==> ((#[trigger] position_for(cues, indices, found[jf].0, indices.len() as int)) matches Some(p)
                ==> exists|e: int|
                0 <= e < found_positions(cues, indices, found, n).len() && found_positions(cues, indices, found, n)[e].0 == p),
    decreases n,
{
    if n > 0 {
        lemma_found_cover(cues, indices, found, n - 1);
        let prev = found_positions(cues, indices, found, n - 1);
        let cur = found_positions(cues, indices, found, n);
        assert forall|jf: int|
            0 <= jf < n implies ((#[trigger] position_for(cues, indices, found[jf].0, indices.len() as int)) matches Some(p)
                ==> exists|e: int| 0 <= e < cur.len() && cur[e].0 == p) by {
            if let Some(p) = position_for(cues, indices, found[jf].0, indices.len() as int) {
                if jf < n - 1 {
                    let e = choose|e: int| 0 <= e < prev.len() && prev[e].0 == p;
                    assert(cur[e] == prev[e]);
                } else {
                    assert(cur[prev.len() as int].0 == p);
                }
            }
        }
    }
}

proof fn lemma_missing_cover(cues: Seq<CueView>, indices: Seq<usize>, missing: Seq<u32>, n: int)
    requires
        0 <= n <= missing.len(),
    ensures
        forall|jm: int|
            0 <= jm < n ==> ((#[trigger] position_for(cues, indices, missing[jm], indices.len() as int)) matches Some(p)
                ==> missing_positions(cues, indices, missing, n).contains(p)),
        forall|e: int|
            0 <= e < missing_positions(cues, indices, missing, n).len() ==> exists|jm: int|
                0 <= jm < n && position_for(cues, indices, missing[jm], indices.len() as int) == Some(
                    #[trigger] missing_positions(cues, indices, missing, n)[e],
                ),
        all_distinct(missing.take(n)) ==> all_distinct(missing_positions(cues, indices, missing, n)),
    decreases n,
{
    if n > 0 {
        lemma_missing_cover(cues, indices, missing, n - 1);
        let prev = missing_positions(cues, indices, missing, n - 1);
        let cur = missing_positions(cues, indices, missing, n);
        lemma_position_for(cues, indices, missing[n - 1], indices.len() as int);
        assert forall|jm: int|
            0 <= jm < n implies ((#[trigger] position_for(cues, indices, missing[jm], indices.len() as int)) matches Some(p)
                ==> cur.contains(p)) by {
            if let Some(p) = position_for(cues, indices, missing[jm], indices.len() as int) {
                if jm < n - 1 {
                    let e = choose|e: int| 0 <= e < prev.len() && prev[e] == p;
                    assert(cur[e] == prev[e]);
                } else {
                    assert(cur[prev.len() as int] == p);
                }
            }
        }
        assert forall|e: int| 0 <= e < cur.len() implies exists|jm: int|
            0 <= jm < n && position_for(cues, indices, missing[jm], indices.len() as int) == Some(#[trigger] cur[e]) by {
            if e < prev.len() {
                assert(cur[e] == prev[e]);
                let jm = choose|jm: int|
                    0 <= jm < n - 1 && position_for(cues, indices, missing[jm], indices.len() as int) == Some(
                        #[trigger] prev[e],
                    );
            } else {
                assert(position_for(cues, indices, missing[n - 1], indices.len() as int) == Some(cur[e]));
            }
        }
        if all_distinct(missing.take(n)) {
            assert(missing.take(n - 1) =~= missing.take(n).take(n - 1));
            assert(all_distinct(missing.take(n - 1)));
            if let Some(p) = position_for(cues, indices, missing[n - 1], indices.len() as int) {
                assert forall|a: int, b: int| 0 <= a < cur.len() && 0 <= b < cur.len() && a != b implies cur[a] != cur[b] by {
                    if a < prev.len() && b < prev.len() {
                        assert(cur[a] == prev[a] && cur[b] == prev[b]);
                    } else {
                        let x = if a < prev.len() { a } else { b };
                        assert(cur[x] == prev[x]);
                        let jm = choose|jm: int|
                            0 <= jm < n - 1 && position_for(cues, indices, missing[jm], indices.len() as int) == Some(
                                #[trigger] prev[x],
                            );
                        lemma_position_for(cues, indices, missing[jm], indices.len() as int);
                        assert(missing.take(n)[jm] == missing[jm] && missing.take(n)[n - 1] == missing[n - 1]);
                        assert(cur[prev.len() as int] == p);
                    }
                }
            } else {
                assert(cur == prev);
            }
        }
    }
}

/// The last entry with a key is the one found for it.
proof fn lemma_assoc_last(m: Seq<(usize, Seq<char>)>, z: int)
    requires
        0 <= z < m.len(),
        forall|i: int| z < i < m.len() ==> m[i].0 != m[z].0,
    ensures
        assoc_get(m, m[z].0) == Some(m[z].1),
    decreases m.len(),
{
    if z < m.len() - 1 {
        assert(m.drop_last()[z] == m[z]);
        lemma_assoc_last(m.drop_last(), z);
    }
}

/// A key with an entry is found.
proof fn lemma_assoc_some(m: Seq<(usize, Seq<char>)>, i: int)
    requires
        0 <= i < m.len(),
    ensures
        assoc_get(m, m[i].0) is Some,
    decreases m.len(),
{
    if i < m.len() - 1 && m.last().0 != m[i].0 {
        assert(m.drop_last()[i] == m[i]);
        lemma_assoc_some(m.drop_last(), i);
    }
}

/// With no position repeated, each position takes its kept text where it
/// has one, else its source text.
proof fn lemma_merge_values(cues: Seq<CueView>, indices: Seq<usize>, m: Seq<(usize, Seq<char>)>, n: int)
    requires
        0 <= n <= indices.len(),
        all_distinct(indices),
    ensures
        forall|x: usize| merge_run(cues, indices, m, n).1.contains(x) ==> exists|j: int| 0 <= j < n && indices[j] == x,
        forall|k: int|
            0 <= k < n ==> #[trigger] merge_run(cues, indices, m, n).0[k] == match assoc_get(m, indices[k]) {
                Some(t) => t,
                None => cues[indices[k] as int].text,
            },
    decreases n,
{
    if n > 0 {
        lemma_merge_values(cues, indices, m, n - 1);
        lemma_merge_run_len(cues, indices, m, n - 1);
        let (out, taken) = merge_run(cues, indices, m, n - 1);
        let cur = merge_run(cues, indices, m, n);
        let idx = indices[n - 1];
        assert(!taken.contains(idx)) by {
            if taken.contains(idx) {
                let j = choose|j: int| 0 <= j < n - 1 && indices[j] == idx;
            }
        }
        assert forall|k: int| 0 <= k < n implies #[trigger] cur.0[k] == match assoc_get(m, indices[k]) {
            Some(t) => t,
            None => cues[indices[k] as int].text,
        } by {
            if k < n - 1 {
                assert(cur.0[k] == out[k]);
            }
        }
    }
}

proof fn lemma_partial_cover(rep: Result<HttpReply, String>, expected: Seq<u32>)
    ensures
        reply_outcome(rep, expected) matches BatchOutcome::Partial(f, m) ==> {
            &&& forall|j: int|
                0 <= j < expected.len() ==> (exists|a: int| 0 <= a < f.len() && #[trigger] f[a].0 == expected[j])
                    || m.contains(expected[j])
            &&& all_distinct(expected) ==> all_distinct(m)
        },
{
    if let BatchOutcome::Partial(f, m) = reply_outcome(rep, expected) {
        let content = reply_text(Some(rep))->Some_0;
        let items = answer_items(content)->Some_0;
        lemma_match_cover(items, expected, expected.len() as int);
        assert(expected.take(expected.len() as int) =~= expected);
    }
}

/// A partial answer put back together with the repaired missing items:
/// each text is the text of some entry for its position, and each repaired
/// text lands at its position.
proof fn lemma_merge_flags(
    cues: Seq<CueView>,
    indices: Seq<usize>,
    f: Seq<(u32, Seq<char>)>,
    m: Seq<u32>,
    rv: Seq<Seq<char>>,
)
    requires
        distinct_ids(cues, indices),
        forall|j: int|
            0 <= j < indices.len() ==> (exists|a: int| 0 <= a < f.len() && #[trigger] f[a].0 == cues[indices[j] as int].index)
                || m.contains(cues[indices[j] as int].index),
        all_distinct(m),
        rv.len() == missing_positions(cues, indices, m, m.len() as int).len(),
    ensures
        ({
            let fv = found_positions(cues, indices, f, f.len() as int);
            let mi = missing_positions(cues, indices, m, m.len() as int);
            let mm = fv + zip_repaired(mi, rv);
            let out = merge_run(cues, indices, mm, indices.len() as int).0;
            &&& distinct_ids(cues, mi)
            &&& forall|k: int| #![trigger indices[k]] 0 <= k < indices.len() ==> exists|i: int| 0 <= i < mm.len() && #[trigger] mm[i] == (indices[k], out[k])
            &&& forall|z: int|
                #![trigger mi[z]]
                0 <= z < mi.len() ==> exists|k: int| 0 <= k < indices.len() && indices[k] == mi[z] && #[trigger] out[k] == rv[z]
        }),
{
    let fv = found_positions(cues, indices, f, f.len() as int);
    let mi = missing_positions(cues, indices, m, m.len() as int);
    let zr = zip_repaired(mi, rv);
    let mm = fv + zr;
    let n = indices.len() as int;
    let out = merge_run(cues, indices, mm, n).0;
    assert(all_distinct(indices)) by {
        assert forall|a: int, b: int| 0 <= a < indices.len() && 0 <= b < indices.len() && a != b implies indices[a]
            != indices[b] by {
            assert(cues[indices[a] as int].index != cues[indices[b] as int].index);
        }
    }
    lemma_merge_values(cues, indices, mm, n);
    lemma_merge_run_len(cues, indices, mm, n);
    lemma_found_cover(cues, indices, f, f.len() as int);
    lemma_missing_cover(cues, indices, m, m.len() as int);
    assert(m.take(m.len() as int) =~= m);
    assert(zr.len() == mi.len());
    assert forall|e: int| 0 <= e < mi.len() implies exists|k: int| 0 <= k < n && indices[k] == #[trigger] mi[e] by {
        let jm = choose|jm: int| 0 <= jm < m.len() && position_for(cues, indices, m[jm], n) == Some(#[trigger] mi[e]);
        lemma_position_for(cues, indices, m[jm], n);
    }
    assert forall|a: int, b: int| 0 <= a < mi.len() && 0 <= b < mi.len() && a != b implies cues[mi[a] as int].index
        != cues[mi[b] as int].index by {
        let ka = choose|k: int| 0 <= k < n && indices[k] == #[trigger] mi[a];
        let kb = choose|k: int| 0 <= k < n && indices[k] == #[trigger] mi[b];
        assert(mi[a] != mi[b]);
    }
    assert forall|k: int| #![trigger indices[k]] 0 <= k < n implies exists|i: int| 0 <= i < mm.len() && #[trigger] mm[i] == (indices[k], out[k]) by {
        let id = cues[indices[k] as int].index;
        lemma_position_of_item(cues, indices, k);
        if exists|a: int| 0 <= a < f.len() && #[trigger] f[a].0 == id {
            let a = choose|a: int| 0 <= a < f.len() && #[trigger] f[a].0 == id;
            assert(position_for(cues, indices, f[a].0, n) == Some(indices[k]));
            let e = choose|e: int| 0 <= e < fv.len() && fv[e].0 == indices[k];
            assert(mm[e] == fv[e]);
            lemma_assoc_some(mm, e);
        } else {
            assert(m.contains(id));
            let a = choose|a: int| 0 <= a < m.len() && m[a] == id;
            assert(position_for(cues, indices, m[a], n) == Some(indices[k]));
            let z = choose|z: int| 0 <= z < mi.len() && mi[z] == indices[k];
            assert(mm[fv.len() + z] == zr[z]);
            assert(zr[z].0 == mi[z]);
            lemma_assoc_some(mm, fv.len() + z);
        }
        lemma_assoc_get(mm, indices[k]);
    }
    assert forall|z: int| #![trigger mi[z]] 0 <= z < mi.len() implies exists|k: int| 0 <= k < n && indices[k] == mi[z] && #[trigger] out[k] == rv[z] by {
        let i = fv.len() + z;
        assert(mm[i] == zr[z]);
        assert forall|i2: int| i < i2 < mm.len() implies mm[i2].0 != mm[i].0 by {
            assert(mm[i2] == zr[i2 - fv.len()]);
        }
        lemma_assoc_last(mm, i);
        let k = choose|k: int| 0 <= k < n && indices[k] == #[trigger] mi[z];
        assert(out[k] == rv[z]);
    }
}

fn ids_for(cues: &[SubCue], indices: &[usize]) -> (r: Vec<u32>)
    requires
        forall|k: int| 0 <= k < indices.len() ==> indices[k] < cues.len(),
    ensures
        r@ == ids_of(crate::srt::cues_view(cues@), indices@),
{
    let ghost cv = crate::srt::cues_view(cues@);
    let mut ids: Vec<u32> = Vec::new();
    let mut k: usize = 0;
    while k < indices.len()
        invariant
            k <= indices.len(),
            cv == crate::srt::cues_view(cues@),
            forall|q: int| 0 <= q < indices.len() ==> indices[q] < cues.len(),
            ids@ == ids_of(cv, indices@).take(k as int),
        decreases indices.len() - k,
    {
        assert(cv[indices@[k as int] as int] == cues@[indices@[k as int] as int]@);
        ids.push(cues[indices[k]].index);
        assert(ids_of(cv, indices@).take(k + 1) =~= ids_of(cv, indices@).take(k as int).push(cues@[indices@[k as int] as int].index));
        k += 1;
    }
    assert(ids_of(cv, indices@).take(indices.len() as int) =~= ids_of(cv, indices@));
    ids
}

fn source_texts(cues: &[SubCue], indices: &[usize]) -> (r: Vec<String>)
    requires
        forall|k: int| 0 <= k < indices.len() ==> indices[k] < cues.len(),
    ensures
        strings_view(r@) == sources(crate::srt::cues_view(cues@), indices@),
        r.len() == indices.len(),
{
    let ghost cv = crate::srt::cues_view(cues@);
    let mut out: Vec<String> = Vec::new();
    let mut k: usize = 0;
    while k < indices.len()
        invariant
            k <= indices.len(),
            cv == crate::srt::cues_view(cues@),
            forall|q: int| 0 <= q < indices.len() ==> indices[q] < cues.len(),
            strings_view(out@) == sources(cv, indices@).take(k as int),
        decreases indices.len() - k,
    {
        assert(cv[indices@[k as int] as int] == cues@[indices@[k as int] as int]@);
        let ghost before = strings_view(out@);
        out.push(cues[indices[k]].text.clone());
        assert(strings_view(out@) =~= before.push(cv[indices@[k as int] as int].text));
        assert(sources(cv, indices@).take(k + 1) =~= sources(cv, indices@).take(k as int).push(cv[indices@[k as int] as int].text));
        k += 1;
    }
    assert(sources(cv, indices@).take(indices.len() as int) =~= sources(cv, indices@));
    assert(strings_view(out@).len() == out@.len());
    out
}

/// Translates the items at `indices`: up to `max_retries_per_batch + 1`
/// attempts for the whole batch; then the best partial answer with its
/// missing items translated on their own; or else the two halves on their
/// own. A single item that never comes back keeps its source text. `call`
/// sends a request after waiting the given milliseconds; `sleep_next` says
/// whether the next request waits. Returns one text per index, and whether
/// any item kept its source text.
#[verifier::spinoff_prover]
pub fn translate_indices_recursive<F: Fn(ChatRequest, u64) -> Result<HttpReply, String>>(
    call: &F,
    job: &TranslateJob,
    cues: &[SubCue],
    indices: &[usize],
    context_hint: Option<&str>,
    sleep_next: &mut bool,
) -> (r: (Vec<String>, bool))
    requires
        forall|q: ChatRequest, d: u64| #[trigger] call.requires((q, d)),
        forall|k: int| 0 <= k < indices.len() ==> indices[k] < cues.len(),
    ensures
        r.0.len() == indices.len(),
        indices.len() == 0 ==> !r.1,
        always_fails(call) ==> strings_view(r.0@) == sources(crate::srt::cues_view(cues@), indices@) && r.1 == (
        indices.len() > 0),
        texts_from(call, crate::srt::cues_view(cues@), indices@, strings_view(r.0@)),
        distinct_ids(crate::srt::cues_view(cues@), indices@) && !r.1 ==> forall|k: int|
            0 <= k < indices.len() ==> call_offers(
                call,
                crate::srt::cues_view(cues@)[indices[k] as int].index,
                #[trigger] strings_view(r.0@)[k],
            ),
        distinct_ids(crate::srt::cues_view(cues@), indices@) && r.1 ==> some_source_kept(
            crate::srt::cues_view(cues@),
            indices@,
            strings_view(r.0@),
        ),
        indices.len() == 1 && r.1 ==> strings_view(r.0@) == sources(crate::srt::cues_view(cues@), indices@),
        indices.len() > 0 && always_complete(call, ids_of(crate::srt::cues_view(cues@), indices@)) ==> !r.1 && exists|
            q: ChatRequest,
            d: u64,
            rep: Result<HttpReply, String>,
        |
            #[trigger] call.ensures((q, d), rep) && reply_outcome(rep, ids_of(crate::srt::cues_view(cues@), indices@))
                == BatchOutcome::Complete(strings_view(r.0@)),
    decreases indices.len(),
{
    let ghost cv = crate::srt::cues_view(cues@);
    if indices.len() == 0 {
        return (Vec::new(), false);
    }
    let ids = ids_for(cues, indices);
    let rounds: u64 = job.max_retries_per_batch as u64 + 1;
    if indices.len() == 1 {
        let mut attempt: u64 = 0;
        while attempt < rounds
            invariant
                indices.len() == 1,
                ids@ == ids_of(cv, indices@),
                cv == crate::srt::cues_view(cues@),
                forall|q: ChatRequest, d: u64| #[trigger] call.requires((q, d)),
                forall|k: int| 0 <= k < indices.len() ==> indices[k] < cues.len(),
                always_complete(call, ids@) ==> attempt == 0,
            decreases rounds - attempt,
        {
            let delay = if *sleep_next {
                job.min_interval_ms
            } else {
                0
            };
            let req = batch_request(job, cues, indices, context_hint);
            let ghost q = req;
            let reply = call(req, delay);
            let ghost rep = reply;
            proof {
                lemma_outcome_offers(rep, ids@);
                assert(call.ensures((q, delay), rep));
            }
            match read_batch_reply(&reply, ids.as_slice()) {
                Ok(BatchParse::Complete(v)) => {
                    if v.len() == 1 {
                        proof {
                            assert(reply_offers(rep, ids@[0], strings_view(v@)[0]));
                            assert(ids@[0] == cv[indices@[0] as int].index);
                            assert(call_offers(call, cv[indices@[0] as int].index, strings_view(v@)[0]));
                        }
                        *sleep_next = true;
                        return (v, false);
                    }
                },
                _ => {},
            }
            *sleep_next = true;
            attempt += 1;
        }
        let orig = source_texts(cues, indices);
        proof {
            assert(strings_view(orig@)[0] == cv[indices@[0] as int].text);
            assert(keeps_source(cv, indices@, strings_view(orig@), 0));
        }
        assert(some_source_kept(cv, indices@, strings_view(orig@)));
        return (orig, true);
    }
    let mut best: Option<(Vec<(usize, String)>, Vec<usize>)> = None;
    let ghost mut bf: Seq<(u32, Seq<char>)> = seq![];
    let ghost mut bm: Seq<u32> = seq![];
    let mut attempt: u64 = 0;
    while attempt < rounds
        invariant
            indices.len() >= 2,
            ids@ == ids_of(cv, indices@),
            cv == crate::srt::cues_view(cues@),
            forall|q: ChatRequest, d: u64| #[trigger] call.requires((q, d)),
            forall|k: int| 0 <= k < indices.len() ==> indices[k] < cues.len(),
            best matches Some(b) ==> b.0.len() > 0 && b.1.len() < indices.len() && forall|k: int|
                0 <= k < b.1.len() ==> #[trigger] b.1@[k] < cues.len(),
            always_fails(call) ==> best is None,
            best matches Some(b) ==> forall|j: int|
                0 <= j < b.0.len() ==> call_offers(call, cv[(#[trigger] b.0@[j]).0 as int].index, b.0@[j].1@),
            best matches Some(b) ==> pos_found_view(b.0@) == found_positions(cv, indices@, bf, bf.len() as int) && b.1@
                == missing_positions(cv, indices@, bm, bm.len() as int),
            best is Some && distinct_ids(cv, indices@) ==> all_distinct(bm) && forall|j: int|
                0 <= j < indices.len() ==> (exists|a: int| 0 <= a < bf.len() && #[trigger] bf[a].0 == cv[indices[j] as int].index)
                    || bm.contains(cv[indices[j] as int].index),
            always_complete(call, ids@) ==> attempt == 0,
        decreases rounds - attempt,
    {
        let delay = if *sleep_next {
            job.min_interval_ms
        } else {
            0
        };
        let req = batch_request(job, cues, indices, context_hint);
        let ghost q = req;
        let reply = call(req, delay);
        let ghost rep = reply;
        proof {
            lemma_outcome_offers(rep, ids@);
            assert(call.ensures((q, delay), rep));
        }
        match read_batch_reply(&reply, ids.as_slice()) {
            Ok(BatchParse::Complete(v)) => {
                if v.len() == indices.len() {
                    proof {
                        assert forall|k: int| 0 <= k < indices.len() implies call_offers(
                            call,
                            cv[indices@[k] as int].index,
                            #[trigger] strings_view(v@)[k],
                        ) by {
                            assert(reply_offers(rep, ids@[k], strings_view(v@)[k]));
                            assert(ids@[k] == cv[indices@[k] as int].index);
                        }
                        assert forall|k: int| 0 <= k < indices.len() implies #[trigger] strings_view(v@)[k]
                            == cv[indices@[k] as int].text || call_offers(call, cv[indices@[k] as int].index, strings_view(v@)[k]) by {
                            assert(reply_offers(rep, ids@[k], strings_view(v@)[k]));
                            assert(ids@[k] == cv[indices@[k] as int].index);
                        }
                    }
                    *sleep_next = true;
                    return (v, false);
                }
            },
            Ok(BatchParse::Partial { found, missing }) => {
                proof {
                    lemma_partial_sizes(rep, ids@);
                }
                let (fi, mi) = partial_positions(cues, indices, &found, &missing);
                proof {
                    lemma_positions_len(cv, indices@, found_view(found@), missing@, found.len() as int, missing.len() as int);
                    lemma_missing_positions_in(cv, indices@, missing@, missing.len() as int, cues.len() as int);
                    lemma_outcome_offers(rep, ids@);
                    lemma_found_positions(cv, indices@, found_view(found@), found.len() as int);
                    assert(call.ensures((q, delay), rep));
                    let fp = found_positions(cv, indices@, found_view(found@), found.len() as int);
                    assert(pos_found_view(fi@) == fp);
                    assert forall|j: int| 0 <= j < fi.len() implies call_offers(
                        call,
                        cv[(#[trigger] fi@[j]).0 as int].index,
                        fi@[j].1@,
                    ) by {
                        assert(fp[j] == (fi@[j].0, fi@[j].1@));
                        let jj = choose|jj: int|
                            0 <= jj < found_view(found@).len() && cv[(#[trigger] fp[j]).0 as int].index
                                == found_view(found@)[jj].0 && fp[j].1 == found_view(found@)[jj].1;
                        assert(reply_offers(rep, found_view(found@)[jj].0, found_view(found@)[jj].1));
                    }
                }
                let better = match &best {
                    Some(b) => fi.len() > b.0.len(),
                    None => true,
                };
                if fi.len() > 0 && better {
                    proof {
                        lemma_partial_cover(rep, ids@);
                        bf = found_view(found@);
                        bm = missing@;
                        if distinct_ids(cv, indices@) {
                            assert forall|a: int, b: int| 0 <= a < ids@.len() && 0 <= b < ids@.len() && a != b implies ids@[a]
                                != ids@[b] by {
                                assert(ids@[a] == cv[indices@[a] as int].index);
                                assert(ids@[b] == cv[indices@[b] as int].index);
                            }
                            assert forall|j: int| 0 <= j < indices.len() implies (exists|a: int|
                                0 <= a < bf.len() && #[trigger] bf[a].0 == cv[indices[j] as int].index) || bm.contains(
                                cv[indices[j] as int].index,
                            ) by {
                                assert(ids@[j] == cv[indices@[j] as int].index);
                            }
                        }
                    }
                    best = Some((fi, mi));
                }
            },
            Err(_) => {},
        }
        *sleep_next = true;
        attempt += 1;
    }
    match best {
        Some((fi, mi)) => {
            let hint_owned = best_hint(&fi);
            let hint: Option<&str> = match &hint_owned {
                Some(h) => Some(h.as_str()),
                None => context_hint,
            };

            let (repaired, fb) = translate_indices_recursive(call, job, cues, mi.as_slice(), hint, sleep_next);
            let merged = merge_repaired(cues, indices, &fi, &mi, &repaired);
            proof {
                let fv = pos_found_view(fi@);
                let rv = strings_view(repaired@);
                let mm = fv + zip_repaired(mi@, rv);
                lemma_merge_run_items(cv, indices@, mm, indices.len() as int);
                lemma_merge_run_len(cv, indices@, mm, indices.len() as int);
                assert forall|k: int| 0 <= k < indices.len() implies #[trigger] strings_view(merged@)[k]
                    == cv[indices@[k] as int].text || call_offers(call, cv[indices@[k] as int].index, strings_view(merged@)[k]) by {
                    let t = strings_view(merged@)[k];
                    assert(t == merge_run(cv, indices@, mm, indices.len() as int).0[k]);
                    if t != cv[indices@[k] as int].text {
                        let key = indices@[k];
                        assert(assoc_get(mm, key) == Some(t));
                        lemma_assoc_get(mm, key);
                        let i = choose|i: int| 0 <= i < mm.len() && #[trigger] mm[i] == (key, t);
                        if i < fv.len() {
                            assert(mm[i] == fv[i]);
                            assert(fv[i] == (fi@[i].0, fi@[i].1@));
                            assert(call_offers(call, cv[fi@[i].0 as int].index, fi@[i].1@));
                        } else {
                            let z = i - fv.len();
                            assert(mm[i] == zip_repaired(mi@, rv)[z]);
                            assert(mi@[z] == key && rv[z] == t);
                            assert(rv[z] == cv[mi@[z] as int].text || call_offers(call, cv[mi@[z] as int].index, rv[z]));
                        }
                    }
                }
            }
            proof {
                if distinct_ids(cv, indices@) {
                    let fv = pos_found_view(fi@);
                    let rv = strings_view(repaired@);
                    let zr = zip_repaired(mi@, rv);
                    let mm = fv + zr;
                    let out = merge_run(cv, indices@, mm, indices.len() as int).0;
                    lemma_merge_flags(cv, indices@, bf, bm, rv);
                    lemma_merge_run_len(cv, indices@, mm, indices.len() as int);
                    assert forall|k: int| 0 <= k < indices.len() implies #[trigger] strings_view(merged@)[k] == out[k] by {}
                    if !fb {
                        assert forall|k: int| 0 <= k < indices.len() implies call_offers(
                            call,
                            cv[indices[k] as int].index,
                            #[trigger] strings_view(merged@)[k],
                        ) by {
                            assert(strings_view(merged@)[k] == out[k]);
                            let i = choose|i: int| 0 <= i < mm.len() && #[trigger] mm[i] == (indices@[k], out[k]);
                            if i < fv.len() {
                                assert(mm[i] == fv[i]);
                                assert(fv[i] == (fi@[i].0, fi@[i].1@));
                            } else {
                                let z = i - fv.len();
                                assert(mm[i] == zr[z]);
                                assert(call_offers(call, cv[mi@[z] as int].index, rv[z]));
                            }
                        }
                    } else {
                        assert(distinct_ids(cv, mi@));
                        
                        let z = choose|z: int| 0 <= z < mi@.len() && #[trigger] keeps_source(cv, mi@, rv, z);
                        let mp = missing_positions(cv, indices@, bm, bm.len() as int);
                        assert(mp[z] == mi@[z]);
                        assert(exists|k: int| 0 <= k < indices.len() && indices@[k] == mi@[z] && #[trigger] out[k] == rv[z]);
                        let k = choose|k: int| 0 <= k < indices.len() && indices@[k] == mi@[z] && #[trigger] out[k] == rv[z];
                        assert(strings_view(merged@)[k] == out[k]);
                        assert(strings_view(merged@)[k] == cv[indices@[k] as int].text);
                        assert(keeps_source(cv, indices@, strings_view(merged@), k));
                    }
                }
            }
            assert(distinct_ids(cv, indices@) && fb ==> some_source_kept(cv, indices@, strings_view(merged@)));
            (merged, fb)
        },
        None => {
            let mid = indices.len() / 2;
            let mut left: Vec<usize> = Vec::new();
            let mut right: Vec<usize> = Vec::new();
            let mut k: usize = 0;
            while k < indices.len()
                invariant
                    k <= indices.len(),
                    mid == indices.len() / 2,
                    left@ == indices@.take(if k < mid { k as int } else { mid as int }),
                    right@ == if k < mid { seq![] } else { indices@.subrange(mid as int, k as int) },
                decreases indices.len() - k,
            {
                if k < mid {
                    left.push(indices[k]);
                    assert(indices@.take(k + 1) =~= indices@.take(k as int).push(indices@[k as int]));
                } else {
                    right.push(indices[k]);
                    assert(indices@.subrange(mid as int, k + 1) =~= indices@.subrange(mid as int, k as int).push(indices@[k as int]));
                }
                k += 1;
            }
            let (l, fb1) = translate_indices_recursive(call, job, cues, left.as_slice(), context_hint, sleep_next);
            let tail: Option<&str> = if l.len() > 0 {
                Some(l[l.len() - 1].as_str())
            } else {
                None
            };
            let (r, fb2) = translate_indices_recursive(call, job, cues, right.as_slice(), tail, sleep_next);
            let ghost lv = strings_view(l@);
            let ghost rv = strings_view(r@);
            let mut out = l;
            let mut rr = r;
            out.append(&mut rr);
            proof {
                assert(strings_view(out@) =~= lv + rv);
                assert(indices@ =~= left@ + right@);
                assert(sources(cv, indices@) =~= sources(cv, left@) + sources(cv, right@));
                assert forall|k: int| 0 <= k < indices.len() implies #[trigger] strings_view(out@)[k]
                    == cv[indices@[k] as int].text || call_offers(call, cv[indices@[k] as int].index, strings_view(out@)[k]) by {
                    if k < left.len() {
                        assert(strings_view(out@)[k] == lv[k]);
                        assert(indices@[k] == left@[k]);
                    } else {
                        assert(strings_view(out@)[k] == rv[k - left.len()]);
                        assert(indices@[k] == right@[k - left.len()]);
                    }
                }
            }
            proof {
                if distinct_ids(cv, indices@) {
                    assert(distinct_ids(cv, left@)) by {
                        assert forall|a: int, b: int| 0 <= a < left.len() && 0 <= b < left.len() && a != b implies cv[left@[a] as int].index
                            != cv[left@[b] as int].index by {
                            assert(left@[a] == indices@[a] && left@[b] == indices@[b]);
                        }
                    }
                    assert(distinct_ids(cv, right@)) by {
                        assert forall|a: int, b: int| 0 <= a < right.len() && 0 <= b < right.len() && a != b implies cv[right@[a] as int].index
                            != cv[right@[b] as int].index by {
                            assert(right@[a] == indices@[left.len() + a] && right@[b] == indices@[left.len() + b]);
                        }
                    }
                    if !(fb1 || fb2) {
                        assert forall|k: int| 0 <= k < indices.len() implies call_offers(
                            call,
                            cv[indices[k] as int].index,
                            #[trigger] strings_view(out@)[k],
                        ) by {
                            if k < left.len() {
                                assert(strings_view(out@)[k] == lv[k]);
                                assert(indices@[k] == left@[k]);
                            } else {
                                assert(strings_view(out@)[k] == rv[k - left.len()]);
                                assert(indices@[k] == right@[k - left.len()]);
                            }
                        }
                    } else if fb1 {
                        let k = choose|k: int| 0 <= k < left.len() && #[trigger] keeps_source(cv, left@, lv, k);
                        assert(strings_view(out@)[k] == lv[k]);
                        assert(indices@[k] == left@[k]);
                        assert(keeps_source(cv, indices@, strings_view(out@), k));
                    } else {
                        let k = choose|k: int| 0 <= k < right.len() && #[trigger] keeps_source(cv, right@, rv, k);
                        assert(strings_view(out@)[left.len() + k] == rv[k]);
                        assert(indices@[left.len() + k] == right@[k]);
                        assert(keeps_source(cv, indices@, strings_view(out@), left.len() + k));
                    }
                }
            }
            assert(distinct_ids(cv, indices@) && (fb1 || fb2) ==> some_source_kept(cv, indices@, strings_view(out@)));
            (out, fb1 || fb2)
        },
    }
}


proof fn lemma_flatten_split(b: Seq<Seq<usize>>, k: int)
    requires
        0 <= k <= b.len(),
    ensures
        flatten(b) == flatten(b.take(k)) + flatten(b.skip(k)),
    decreases b.len(),
{
    if b.len() == 0 {
        assert(b.take(k) =~= b);
        assert(b.skip(k) =~= b);
    } else if k == b.len() {
        assert(b.take(k) =~= b);
        assert(b.skip(k) =~= Seq::<Seq<usize>>::empty());
        assert(flatten(b) + seq![] =~= flatten(b));
    } else {
        lemma_flatten_split(b.drop_last(), k);
        assert(b.drop_last().take(k) =~= b.take(k));
        assert(b.skip(k).drop_last() =~= b.drop_last().skip(k));
        assert(b.skip(k).last() == b.last());
        assert(flatten(b.take(k)) + flatten(b.skip(k)) =~= flatten(b.take(k)) + flatten(b.drop_last().skip(k)) + b.last());
    }
}

proof fn lemma_flatten_take_push(b: Seq<Seq<usize>>, k: int)
    requires
        0 <= k < b.len(),
    ensures
        flatten(b.take(k + 1)) == flatten(b.take(k)) + b[k],
{
    assert(b.take(k + 1).drop_last() =~= b.take(k));
    assert(b.take(k + 1).last() == b[k]);
}

pub const PAUSE_MARKER: &'static str = "__pause__";

/// The text at `j` is the source text of cue `j`.
pub open spec fn cue_keeps_source(cues: Seq<CueView>, texts: Seq<Seq<char>>, j: int) -> bool {
    texts[j] == cues[j].text
}

/// Some cue kept its source text.
pub open spec fn some_cue_kept(cues: Seq<CueView>, texts: Seq<Seq<char>>, n: int) -> bool {
    exists|j: int| 0 <= j < n && #[trigger] cue_keeps_source(cues, texts, j)
}

/// No two cues share an id.
pub open spec fn distinct_cue_ids(cues: Seq<CueView>) -> bool {
    forall|a: int, b: int| 0 <= a < cues.len() && 0 <= b < cues.len() && a != b ==> cues[a].index != cues[b].index
}

/// Translates all cues batch by batch. Stops with `"__pause__"` where
/// `pause_requested` answers yes before a batch, and reports the items done
/// after each batch. Returns one text per cue and whether any item kept its
/// source text.
#[verifier::rlimit(40)]
pub fn translate_all_cues<F: Fn(ChatRequest, u64) -> Result<HttpReply, String>, P: Fn() -> bool, G: Fn(usize, usize)>(
    call: &F,
    job: &TranslateJob,
    cues: &[SubCue],
    max_segment_chars: u32,
    pause_requested: &P,
    on_progress: &G,
) -> (r: Result<(Vec<String>, bool), String>)
    requires
        forall|q: ChatRequest, d: u64| #[trigger] call.requires((q, d)),
        pause_requested.requires(()),
        forall|a: usize, b: usize| #[trigger] on_progress.requires((a, b)),
    ensures
        cues.len() == 0 ==> (r matches Ok(x) && x.0.len() == 0 && !x.1),
        cues.len() > 0 && trim(job.base_url@).len() == 0 ==> (r matches Err(e) && e@ == "LLM Base URL is empty"@),
        cues.len() > 0 && trim(job.base_url@).len() > 0 && trim(job.model@).len() == 0 ==> (r matches Err(e) && e@
            == "LLM model is empty"@),
        cues.len() > 0 && trim(job.base_url@).len() > 0 && trim(job.model@).len() > 0 && trim(job.api_key@).len() == 0
            ==> (r matches Err(e) && e@ == "LLM API Key is not configured"@),
        cues.len() > 0 && trim(job.base_url@).len() > 0 && trim(job.model@).len() > 0 && trim(job.api_key@).len() > 0
            ==> match r {
            Ok(x) => x.0.len() == cues.len() && (always_fails(call) ==> strings_view(x.0@) == crate::srt::cues_view(
                cues@,
            ).map_values(|c: CueView| c.text) && x.1) && forall|j: int|
                0 <= j < cues.len() ==> #[trigger] x.0@[j]@ == cues@[j].text@ || call_offers(
                    call,
                    cues@[j].index,
                    x.0@[j]@,
                ),
            Err(e) => e@ == PAUSE_MARKER@ && pause_requested.ensures((), true),
        },
        cues.len() > 0 && trim(job.base_url@).len() > 0 && trim(job.model@).len() > 0 && trim(job.api_key@).len() > 0
            && (forall|b: bool| pause_requested.ensures((), b) ==> b) ==> r is Err,
        (forall|b: bool| pause_requested.ensures((), b) ==> !b) && (cues.len() == 0 || (trim(job.base_url@).len() > 0
            && trim(job.model@).len() > 0 && trim(job.api_key@).len() > 0)) ==> r is Ok,
        distinct_cue_ids(crate::srt::cues_view(cues@)) ==> match r {
            Ok(x) => (x.1 ==> some_cue_kept(crate::srt::cues_view(cues@), strings_view(x.0@), cues.len() as int)) && (!x.1
                ==> forall|j: int| 0 <= j < cues.len() ==> call_offers(call, cues@[j].index, #[trigger] x.0@[j]@)),
            Err(_) => true,
        },
{
    let ghost cv = crate::srt::cues_view(cues@);
    if cues.len() == 0 {
        return Ok((Vec::new(), false));
    }
    if is_blank(job.base_url) {
        return Err("LLM Base URL is empty".to_string());
    }
    if is_blank(job.model) {
        return Err("LLM model is empty".to_string());
    }
    if is_blank(job.api_key) {
        return Err("LLM API Key is not configured".to_string());
    }
    let batches = build_batches(cues, max_segment_chars);
    let ghost bv = batches_view(batches@);
    proof {
        lemma_batches_cover(cv, max_segment_chars);
    }
    let n = cues.len();
    let mut out: Vec<String> = Vec::new();
    let mut z: usize = 0;
    while z < n
        invariant
            z <= n,
            out.len() == z,
        decreases n - z,
    {
        out.push(String::new());
        z += 1;
    }
    let mut any_fb = false;
    let mut done: usize = 0;
    let mut sleep_next = false;
    let mut last_tail: Option<String> = None;
    let mut b: usize = 0;
    while b < batches.len()
        invariant
            b <= batches.len(),
            n == cues.len() == cv.len(),
            cv == crate::srt::cues_view(cues@),
            bv == batches_view(batches@),
            flatten(bv) == upto(n as int),
            n > 0,
            trim(job.base_url@).len() > 0 && trim(job.model@).len() > 0 && trim(job.api_key@).len() > 0,
            forall|k: int| 0 <= k < bv.len() ==> (#[trigger] bv[k]).len() > 0,
            flatten(bv.take(b as int)) == upto(done as int),
            done <= n,
            out.len() == n,
            forall|q: ChatRequest, d: u64| #[trigger] call.requires((q, d)),
            pause_requested.requires(()),
            forall|a: usize, c: usize| #[trigger] on_progress.requires((a, c)),
            always_fails(call) ==> (forall|j: int| 0 <= j < done ==> #[trigger] out@[j]@ == cv[j].text) && (b > 0 ==> any_fb),
            forall|j: int|
                0 <= j < done ==> #[trigger] out@[j]@ == cv[j].text || call_offers(call, cv[j].index, out@[j]@),
            distinct_cue_ids(cv) && any_fb ==> some_cue_kept(cv, strings_view(out@), done as int),
            distinct_cue_ids(cv) && !any_fb ==> forall|j: int| 0 <= j < done ==> call_offers(call, cv[j].index, #[trigger] out@[j]@),
            (forall|x: bool| pause_requested.ensures((), x) ==> x) ==> b == 0,
        decreases batches.len() - b,
    {
        if pause_requested() {
            return Err(PAUSE_MARKER.to_string());
        }
        let batch = &batches[b];
        proof {
            lemma_flatten_split(bv, b as int);
            lemma_flatten_take_push(bv, b as int);
            lemma_flatten_split(bv, b + 1);
            assert(bv.skip(b as int).len() > 0);
            assert(bv[b as int] == batch@);
            let rest = bv.skip(b as int);
            assert(rest.take(1) =~= seq![bv[b as int]]);
            lemma_flatten_split(rest, 1);
            assert(rest.take(1).drop_last() =~= Seq::<Seq<usize>>::empty());
            assert(rest.take(1).last() == rest[0]);
            assert(rest[0] == bv[b as int]);
            assert(flatten(Seq::<Seq<usize>>::empty()) =~= Seq::<usize>::empty());
            assert(flatten(rest.take(1)) == flatten(rest.take(1).drop_last()) + rest.take(1).last());
            assert(flatten(rest.take(1)) =~= bv[b as int]);
            let fr = flatten(rest);
            assert(fr == flatten(rest.take(1)) + flatten(rest.skip(1)));
            assert(flatten(bv) == upto(done as int) + fr);
            assert(fr.len() >= batch.len());
            assert(upto(n as int).len() == n);
            assert(upto(done as int).len() == done);
            assert(flatten(bv).len() == done + fr.len());
            assert(done + batch.len() <= n);
            assert forall|k: int| 0 <= k < batch.len() implies batch@[k] == done + k && #[trigger] batch@[k] < n by {
                assert(fr[k] == batch@[k]);
                assert((upto(done as int) + fr)[done + k] == fr[k]);
                assert(upto(n as int)[done + k] == done + k);
            }
        }
        let ctx: Option<&str> = match &last_tail {
            Some(t) => Some(t.as_str()),
            None => None,
        };
        proof {
            if distinct_cue_ids(cv) {
                assert forall|a: int, c: int| 0 <= a < batch.len() && 0 <= c < batch.len() && a != c implies cv[batch@[a] as int].index
                    != cv[batch@[c] as int].index by {
                    assert(batch@[a] == done + a && batch@[c] == done + c);
                }
            }
        }
        let (parts, fb) = translate_indices_recursive(call, job, cues, batch.as_slice(), ctx, &mut sleep_next);
        let ghost fb_before = any_fb;
        any_fb = any_fb || fb;
        let ghost out_before = out@;
        let mut k: usize = 0;
        while k < batch.len()
            invariant
                k <= batch.len() == parts.len(),
                out.len() == n,
                forall|m: int| 0 <= m < batch.len() ==> batch@[m] == done + m && #[trigger] batch@[m] < n,
                done + batch.len() <= n,
                forall|j: int| 0 <= j < out.len() && !(done <= j < done + k) ==> #[trigger] out@[j] == out_before[j],
                forall|m: int| 0 <= m < k ==> #[trigger] out@[done + m] == parts@[m],
            decreases batch.len() - k,
        {
            out.set(batch[k], parts[k].clone());
            k += 1;
        }
        let ghost old_done = done;
        done = done + batch.len();
        proof {
            if always_fails(call) {
                assert forall|j: int| 0 <= j < done implies #[trigger] out@[j]@ == cv[j].text by {
                    if j >= done - batch.len() {
                        let m = j - old_done;
                        assert(out@[old_done + m] == parts@[m]);
                        assert(out@[j] == parts@[m]);
                        assert(strings_view(parts@)[m] == parts@[m]@);
                        assert(sources(cv, batch@)[m] == cv[batch@[m] as int].text);
                    } else {
                        assert(out@[j] == out_before[j]);
                    }
                }
            }
            assert forall|j: int| 0 <= j < done implies #[trigger] out@[j]@ == cv[j].text || call_offers(
                call,
                cv[j].index,
                out@[j]@,
            ) by {
                if j >= old_done {
                    let m = j - old_done;
                    assert(out@[old_done + m] == parts@[m]);
                    assert(strings_view(parts@)[m] == parts@[m]@);
                    assert(batch@[m] == j);
                    assert(strings_view(parts@)[m] == cv[batch@[m] as int].text || call_offers(
                        call,
                        cv[batch@[m] as int].index,
                        strings_view(parts@)[m],
                    ));
                } else {
                    assert(out@[j] == out_before[j]);
                }
            }
            assert(upto(done - batch.len()) + batch@ =~= upto(done as int));
            if distinct_cue_ids(cv) {
                if any_fb {
                    if fb_before {
                        let j = choose|j: int| 0 <= j < old_done && #[trigger] cue_keeps_source(cv, strings_view(out_before), j);
                        assert(out@[j] == out_before[j]);
                        assert(cue_keeps_source(cv, strings_view(out@), j));
                    } else {
                        let m = choose|m: int| 0 <= m < batch.len() && #[trigger] keeps_source(cv, batch@, strings_view(parts@), m);
                        assert(out@[old_done + m] == parts@[m]);
                        assert(batch@[m] == old_done + m);
                        assert(cue_keeps_source(cv, strings_view(out@), old_done + m));
                    }
                    assert(some_cue_kept(cv, strings_view(out@), done as int));
                } else {
                    assert forall|j: int| 0 <= j < done implies call_offers(call, cv[j].index, #[trigger] out@[j]@) by {
                        if j >= old_done {
                            let m = j - old_done;
                            assert(out@[old_done + m] == parts@[m]);
                            assert(strings_view(parts@)[m] == parts@[m]@);
                            assert(batch@[m] == j);
                        } else {
                            assert(out@[j] == out_before[j]);
                        }
                    }
                }
            }
        }
        last_tail = Some(out[batch[batch.len() - 1]].clone());
        on_progress(done, n);
        b += 1;
    }
    proof {
        assert(bv.take(bv.len() as int) =~= bv);
        assert(bv.len() > 0) by {
            if bv.len() == 0 {
                assert(flatten(bv) =~= Seq::<usize>::empty());
                assert(upto(n as int).len() == n);
            }
        }
        if always_fails(call) {
            assert(strings_view(out@) =~= cv.map_values(|c: CueView| c.text));
        }
        assert(done == n) by {
            assert(upto(done as int).len() == done);
            assert(upto(n as int).len() == n);
        }
        if distinct_cue_ids(cv) {
            if any_fb {
                assert(some_cue_kept(crate::srt::cues_view(cues@), strings_view(out@), cues.len() as int));
            } else {
                assert forall|j: int| 0 <= j < cues.len() implies call_offers(call, cues@[j].index, #[trigger] out@[j]@) by {
                    assert(cv[j] == cues@[j]@);
                    assert(call_offers(call, cv[j].index, out@[j]@));
                }
            }
        }
    }
    Ok((out, any_fb))
}

} // verus!
