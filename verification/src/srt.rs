//! SRT parsing and formatting, plus the post-processing that merges subtitle
//! fragments.
use vstd::prelude::*;

use crate::text::{
    append_chars, dec, dec_padded, dec_u64, trim_string, zero_pad, find_char_from,
    find_char_from_exec, find_from, find_from_exec, has_char, lemma_find_from, matches_at, parse_i64,
    parse_signed, parse_u32, parse_unsigned, split, split_exec, ascii_alphanumeric, chars_of, ends_with, ends_with_exec, eq_chars,
    is_ascii_alphanumeric, lower_seq, lower_vec, scan_back, scan_back_exec, scan_fwd,
    scan_fwd_exec, starts_with, starts_with_exec, string_of, sub_vec, trim, trim_class,
    trim_end, trim_end_vec, trim_start, trim_start_vec, trim_vec, visible_len,
    visible_len_exec, word_count, word_count_exec, CharClass,
};

verus! {

#[derive(Debug, Clone)]
pub struct SubCue {
    pub index: u32,
    pub start_ms: i64,
    pub end_ms: i64,
    pub text: String,
}

/// The mathematical content of a cue.
pub struct CueView {
    pub index: u32,
    pub start_ms: i64,
    pub end_ms: i64,
    pub text: Seq<char>,
}

impl View for SubCue {
    type V = CueView;

    open spec fn view(&self) -> CueView {
        CueView { index: self.index, start_ms: self.start_ms, end_ms: self.end_ms, text: self.text@ }
    }
}

pub open spec fn cues_view(v: Seq<SubCue>) -> Seq<CueView> {
    v.map_values(|c: SubCue| c@)
}

pub fn clone_cue(c: &SubCue) -> (r: SubCue)
    ensures
        r@ == c@,
{
    SubCue { index: c.index, start_ms: c.start_ms, end_ms: c.end_ms, text: c.text.clone() }
}

pub fn clone_cues(v: &Vec<SubCue>) -> (r: Vec<SubCue>)
    ensures
        cues_view(r@) == cues_view(v@),
{
    let mut out: Vec<SubCue> = Vec::new();
    let mut i: usize = 0;
    while i < v.len()
        invariant
            i <= v.len(),
            out.len() == i,
            forall|j: int| 0 <= j < i ==> #[trigger] out@[j]@ == v@[j]@,
        decreases v.len() - i,
    {
        let c = clone_cue(&v[i]);
        out.push(c);
        i += 1;
    }
    assert(cues_view(out@) =~= cues_view(v@));
    out
}

pub const MIN_CUE_DURATION_MS: i64 = 1;
pub const SOURCE_FRAGMENT_MAX_DURATION_MS: i64 = 1200;
pub const SOURCE_FRAGMENT_MAX_CHARS: usize = 14;
pub const SOURCE_FRAGMENT_MAX_WORDS: usize = 3;
pub const SOURCE_MERGE_MAX_DURATION_MS: i64 = 6500;
pub const SOURCE_MERGE_MAX_CHARS: usize = 84;
pub const TARGET_FRAGMENT_MAX_DURATION_MS: i64 = 1200;
pub const TARGET_FRAGMENT_HARD_MAX_CHARS: usize = 4;
pub const TARGET_FRAGMENT_SOFT_MAX_CHARS: usize = 6;
pub const TARGET_MERGE_MAX_DURATION_MS: i64 = 6500;
pub const TARGET_MERGE_MAX_CHARS: usize = 26;
pub const BILINGUAL_SOURCE_MERGE_MAX_CHARS: usize = 84;
pub const BILINGUAL_TARGET_MERGE_MAX_CHARS: usize = 26;

pub open spec fn leading_source_words() -> Seq<Seq<char>> {
    seq!["and"@, "or"@, "but"@, "so"@, "then"@, "because"@]
}

pub open spec fn trailing_source_words() -> Seq<Seq<char>> {
    seq![
        "a"@, "an"@, "and"@, "as"@, "at"@, "be"@, "by"@, "for"@, "from"@, "gonna"@, "if"@,
        "in"@, "into"@, "of"@, "on"@, "or"@, "so"@, "the"@, "to"@, "up"@, "with"@,
    ]
}

pub open spec fn leading_target_words() -> Seq<Seq<char>> {
    seq!["而且"@, "并且"@, "然后"@, "所以"@, "但是"@, "以及"@, "通过"@]
}

pub open spec fn trailing_target_words() -> Seq<Seq<char>> {
    seq![
        "的"@, "了"@, "在"@, "把"@, "和"@, "与"@, "并"@, "将"@, "会"@, "去"@, "到"@, "对"@,
        "给"@, "通过"@,
    ]
}

/// Which of the four word lists.
#[derive(Clone, Copy)]
pub enum WordList {
    LeadingSource,
    TrailingSource,
    LeadingTarget,
    TrailingTarget,
}

pub open spec fn word_list(w: WordList) -> Seq<Seq<char>> {
    match w {
        WordList::LeadingSource => leading_source_words(),
        WordList::TrailingSource => trailing_source_words(),
        WordList::LeadingTarget => leading_target_words(),
        WordList::TrailingTarget => trailing_target_words(),
    }
}

fn word_list_exec(w: WordList) -> (r: Vec<&'static str>)
    ensures
        r@.map_values(|s: &str| s@) == word_list(w),
{
    let r: Vec<&'static str> = match w {
        WordList::LeadingSource => vec!["and", "or", "but", "so", "then", "because"],
        WordList::TrailingSource => vec![
            "a", "an", "and", "as", "at", "be", "by", "for", "from", "gonna", "if", "in",
            "into", "of", "on", "or", "so", "the", "to", "up", "with",
        ],
        WordList::LeadingTarget => vec!["而且", "并且", "然后", "所以", "但是", "以及", "通过"],
        WordList::TrailingTarget => vec![
            "的", "了", "在", "把", "和", "与", "并", "将", "会", "去", "到", "对", "给", "通过",
        ],
    };
    assert(r@.map_values(|s: &str| s@) =~= word_list(w));
    r
}

/// Whether `token` is one of the words of list `w`.
fn in_word_list(w: WordList, token: &Vec<char>) -> (r: bool)
    ensures
        r == word_list(w).contains(token@),
{
    let words = word_list_exec(w);
    let ghost ws = words@.map_values(|s: &str| s@);
    let mut i: usize = 0;
    while i < words.len()
        invariant
            i <= words.len(),
            ws == word_list(w),
            ws == words@.map_values(|s: &str| s@),
            ws.len() == words.len(),
            forall|j: int| 0 <= j < i ==> ws[j] != token@,
        decreases words.len() - i,
    {
        let cand = chars_of(words[i]);
        assert(ws[i as int] == words@[i as int]@);
        if eq_chars(&cand, token) {
            assert(ws[i as int] == token@);
            return true;
        }
        i += 1;
    }
    false
}

/// Whether the (start-trimmed) text starts with a word of list `w`.
pub open spec fn starts_with_any(text: Seq<char>, w: WordList) -> bool {
    exists|i: int| 0 <= i < word_list(w).len() && starts_with(trim_start(text), #[trigger] word_list(w)[i])
}

/// Whether the (end-trimmed) text ends with a word of list `w`.
pub open spec fn ends_with_any(text: Seq<char>, w: WordList) -> bool {
    exists|i: int| 0 <= i < word_list(w).len() && ends_with(trim_end(text), #[trigger] word_list(w)[i])
}

fn affix_any(text: &Vec<char>, w: WordList, at_start: bool) -> (r: bool)
    ensures
        at_start ==> r == starts_with_any(text@, w),
        !at_start ==> r == ends_with_any(text@, w),
{
    let t = if at_start {
        trim_start_vec(text, CharClass::Whitespace)
    } else {
        trim_end_vec(text, CharClass::Whitespace)
    };
    let words = word_list_exec(w);
    let ghost ws = words@.map_values(|s: &str| s@);
    let mut i: usize = 0;
    while i < words.len()
        invariant
            i <= words.len(),
            ws == word_list(w),
            ws == words@.map_values(|s: &str| s@),
            ws.len() == words.len(),
            at_start ==> t@ == trim_start(text@),
            !at_start ==> t@ == trim_end(text@),
            at_start ==> forall|j: int| 0 <= j < i ==> !starts_with(t@, #[trigger] ws[j]),
            !at_start ==> forall|j: int| 0 <= j < i ==> !ends_with(t@, #[trigger] ws[j]),
        decreases words.len() - i,
    {
        let cand = chars_of(words[i]);
        assert(ws[i as int] == words@[i as int]@);
        let hit = if at_start {
            starts_with_exec(&t, &cand)
        } else {
            ends_with_exec(&t, &cand)
        };
        if hit {
            return true;
        }
        i += 1;
    }
    false
}

// ---------------------------------------------------------------------------
// Text helpers
// ---------------------------------------------------------------------------

/// The duration of a cue, never negative.
pub open spec fn cue_duration(c: CueView) -> int {
    if c.end_ms - c.start_ms > 0 {
        c.end_ms - c.start_ms
    } else {
        0
    }
}

fn cue_duration_exec(c: &SubCue) -> (r: i128)
    ensures
        r == cue_duration(c@),
{
    let d: i128 = c.end_ms as i128 - c.start_ms as i128;
    if d > 0 {
        d
    } else {
        0
    }
}

pub open spec fn is_terminal_char(c: char) -> bool {
    c == '.' || c == '!' || c == '?' || c == '。' || c == '！' || c == '？'
}

/// Whether the end-trimmed text ends with sentence-final punctuation.
pub open spec fn ends_with_terminal(text: Seq<char>) -> bool {
    let t = trim_end(text);
    t.len() > 0 && is_terminal_char(t.last())
}

pub fn ends_with_terminal_exec(text: &Vec<char>) -> (r: bool)
    ensures
        r == ends_with_terminal(text@),
{
    let t = trim_end_vec(text, CharClass::Whitespace);
    if t.len() == 0 {
        return false;
    }
    let c = t[t.len() - 1];
    c == '.' || c == '!' || c == '?' || c == '。' || c == '！' || c == '？'
}

/// A token stripped of non-alphanumeric ends and lower-cased (ASCII).
pub open spec fn normalize_token(token: Seq<char>) -> Seq<char> {
    lower_seq(trim_class(token, CharClass::NonAlphanumeric))
}

/// The first whitespace-separated word, normalized; `None` when there is no
/// word or it normalizes to nothing.
pub open spec fn first_token(text: Seq<char>) -> Option<Seq<char>> {
    let a = scan_fwd(text, CharClass::Whitespace, 0);
    if a >= text.len() {
        None
    } else {
        let b = scan_fwd(text, CharClass::NonWhitespace, a);
        let t = normalize_token(text.subrange(a, b));
        if t.len() == 0 {
            None
        } else {
            Some(t)
        }
    }
}

/// The last whitespace-separated word, normalized; `None` when there is no
/// word or it normalizes to nothing.
pub open spec fn last_token(text: Seq<char>) -> Option<Seq<char>> {
    let b = scan_back(text, CharClass::Whitespace, 0, text.len() as int);
    if b <= 0 {
        None
    } else {
        let a = scan_back(text, CharClass::NonWhitespace, 0, b);
        let t = normalize_token(text.subrange(a, b));
        if t.len() == 0 {
            None
        } else {
            Some(t)
        }
    }
}

fn normalize_token_exec(v: &Vec<char>, a: usize, b: usize) -> (r: Vec<char>)
    requires
        a <= b <= v.len(),
    ensures
        r@ == normalize_token(v@.subrange(a as int, b as int)),
{
    let w = sub_vec(v, a, b);
    let t = trim_vec(&w, CharClass::NonAlphanumeric);
    lower_vec(&t)
}

fn first_token_exec(text: &Vec<char>) -> (r: Option<Vec<char>>)
    ensures
        match r {
            Some(t) => first_token(text@) == Some(t@),
            None => first_token(text@) is None,
        },
{
    let a = scan_fwd_exec(text, CharClass::Whitespace, 0);
    if a >= text.len() {
        return None;
    }
    let b = scan_fwd_exec(text, CharClass::NonWhitespace, a);
    let t = normalize_token_exec(text, a, b);
    if t.len() == 0 {
        None
    } else {
        Some(t)
    }
}

fn last_token_exec(text: &Vec<char>) -> (r: Option<Vec<char>>)
    ensures
        match r {
            Some(t) => last_token(text@) == Some(t@),
            None => last_token(text@) is None,
        },
{
    let b = scan_back_exec(text, CharClass::Whitespace, 0, text.len());
    if b == 0 {
        return None;
    }
    let a = scan_back_exec(text, CharClass::NonWhitespace, 0, b);
    let t = normalize_token_exec(text, a, b);
    if t.len() == 0 {
        None
    } else {
        Some(t)
    }
}

/// Whether joining needs a space: an ASCII letter or digit on both sides.
pub open spec fn should_insert_space(left: Seq<char>, right: Seq<char>) -> bool {
    let l = trim_end(left);
    let r = trim_start(right);
    l.len() > 0 && r.len() > 0 && ascii_alphanumeric(l.last()) && ascii_alphanumeric(r[0])
}

fn should_insert_space_exec(left: &Vec<char>, right: &Vec<char>) -> (r: bool)
    ensures
        r == should_insert_space(left@, right@),
{
    let l = trim_end_vec(left, CharClass::Whitespace);
    let r = trim_start_vec(right, CharClass::Whitespace);
    l.len() > 0 && r.len() > 0 && is_ascii_alphanumeric(l[l.len() - 1]) && is_ascii_alphanumeric(r[0])
}

/// Joins two subtitle texts: both trimmed, a space between them only when
/// both touching characters are ASCII letters or digits.
pub open spec fn join_texts(left: Seq<char>, right: Seq<char>) -> Seq<char> {
    let l = trim(left);
    let r = trim(right);
    if l.len() == 0 {
        r
    } else if r.len() == 0 {
        l
    } else if should_insert_space(l, r) {
        l + seq![' '] + r
    } else {
        l + r
    }
}

/// Joining keeps both texts whole, the first before the second, and puts
/// exactly one space between them when the touching characters are ASCII
/// letters or digits, none otherwise.
/// A trimmed text neither starts nor ends with white space, so trimming
/// either end again changes nothing.
proof fn lemma_trimmed_ends(x: Seq<char>)
    ensures
        trim_end(trim(x)) == trim(x),
        trim_start(trim(x)) == trim(x),
{
    let a = scan_fwd(x, CharClass::Whitespace, 0);
    crate::text::lemma_scan_fwd_bounds(x, CharClass::Whitespace, 0);
    crate::text::lemma_scan_back_bounds(x, CharClass::Whitespace, a, x.len() as int);
    let b = scan_back(x, CharClass::Whitespace, a, x.len() as int);
    let t = trim(x);
    assert(t =~= x.subrange(a, b));
    crate::text::lemma_scan_back_bounds(t, CharClass::Whitespace, 0, t.len() as int);
    crate::text::lemma_scan_fwd_bounds(t, CharClass::Whitespace, 0);
    if t.len() > 0 {
        assert(!crate::text::in_class(CharClass::Whitespace, x[b - 1]));
        assert(t[t.len() - 1] == x[b - 1]);
        assert(scan_back(t, CharClass::Whitespace, 0, t.len() as int) == t.len());
        assert(!crate::text::in_class(CharClass::Whitespace, x[a]));
        assert(t[0] == x[a]);
        assert(scan_fwd(t, CharClass::Whitespace, 0) == 0);
    }
    assert(trim_end(t) =~= t);
    assert(trim_start(t) =~= t);
}

/// Joining keeps both texts whole, the first before the second, and puts
/// exactly one space between them when the touching characters are ASCII
/// letters or digits, none otherwise.
pub proof fn lemma_join_texts_words(left: Seq<char>, right: Seq<char>)
    ensures
        trim(left).is_prefix_of(join_texts(left, right)),
        trim(right).is_suffix_of(join_texts(left, right)),
        ({
            let l = trim(left);
            let r = trim(right);
            let spaced = l.len() > 0 && r.len() > 0 && ascii_alphanumeric(l.last()) && ascii_alphanumeric(r[0]);
            &&& join_texts(left, right).len() == l.len() + r.len() + if spaced { 1int } else { 0int }
            &&& spaced ==> join_texts(left, right)[l.len() as int] == ' '
        }),
{
    let l = trim(left);
    let r = trim(right);
    let j = join_texts(left, right);
    lemma_trimmed_ends(left);
    lemma_trimmed_ends(right);
    if l.len() > 0 && r.len() > 0 {
        if should_insert_space(l, r) {
            assert(j =~= l + seq![' '] + r);
        } else {
            assert(j =~= l + r);
        }
        assert(j.subrange(0, l.len() as int) =~= l);
        assert(j.subrange(j.len() - r.len(), j.len() as int) =~= r);
    } else if l.len() == 0 {
        assert(j.subrange(0, 0) =~= l);
        assert(j.subrange(j.len() - r.len(), j.len() as int) =~= r);
    } else {
        assert(j.subrange(0, l.len() as int) =~= l);
        assert(j.subrange(j.len() - 0, j.len() as int) =~= r);
    }
}

pub fn join_texts_vec(left: &Vec<char>, right: &Vec<char>) -> (r: Vec<char>)
    ensures
        r@ == join_texts(left@, right@),
{
    let l = trim_vec(left, CharClass::Whitespace);
    let r = trim_vec(right, CharClass::Whitespace);
    if l.len() == 0 {
        return r;
    }
    if r.len() == 0 {
        return l;
    }
    let mut out = l.clone();
    if should_insert_space_exec(&l, &r) {
        out.push(' ');
    }
    append_chars(&mut out, &r);
    out
}

pub fn join_texts_string(left: &str, right: &str) -> (r: String)
    ensures
        r@ == join_texts(left@, right@),
{
    let l = chars_of(left);
    let r = chars_of(right);
    let j = join_texts_vec(&l, &r);
    string_of(&j)
}

/// Whether two neighbouring cues may be merged within the given limits.
pub open spec fn can_merge_texts(left: CueView, right: CueView, max_duration_ms: int, max_chars: int) -> bool {
    right.end_ms - left.start_ms <= max_duration_ms && visible_len(join_texts(left.text, right.text)) <= max_chars
}

fn can_merge_texts_exec(left: &SubCue, right: &SubCue, max_duration_ms: i64, max_chars: usize) -> (r: bool)
    ensures
        r == can_merge_texts(left@, right@, max_duration_ms as int, max_chars as int),
{
    let combined: i128 = right.end_ms as i128 - left.start_ms as i128;
    if combined > max_duration_ms as i128 {
        return false;
    }
    let l = chars_of(left.text.as_str());
    let r = chars_of(right.text.as_str());
    let j = join_texts_vec(&l, &r);
    visible_len_exec(&j) <= max_chars
}

/// Cues numbered from 1 in order.
pub open spec fn renumbered(s: Seq<CueView>) -> Seq<CueView> {
    Seq::new(
        s.len(),
        |i: int| CueView { index: (i + 1) as u32, start_ms: s[i].start_ms, end_ms: s[i].end_ms, text: s[i].text },
    )
}

pub fn renumber(cues: &mut Vec<SubCue>)
    ensures
        cues_view(final(cues)@) == renumbered(cues_view(old(cues)@)),
{
    let ghost orig = cues_view(cues@);
    let mut i: usize = 0;
    while i < cues.len()
        invariant
            i <= cues.len(),
            orig.len() == cues.len(),
            forall|j: int| 0 <= j < i ==> #[trigger] cues@[j]@ == renumbered(orig)[j],
            forall|j: int| i <= j < cues.len() ==> #[trigger] cues@[j]@ == orig[j],
        decreases cues.len() - i,
    {
        let mut c = clone_cue(&cues[i]);
        c.index = (i + 1) as u32;
        cues.set(i, c);
        i += 1;
    }
    assert(cues_view(cues@) =~= renumbered(orig));
}

// ---------------------------------------------------------------------------
// Fragment detection
// ---------------------------------------------------------------------------

/// Whether a source-language cue looks like a fragment of a sentence.
pub open spec fn is_source_fragment(cue: CueView) -> bool {
    let text = trim(cue.text);
    if text.len() == 0 {
        true
    } else if ends_with_terminal(text) {
        false
    } else {
        let words = word_count(text);
        let len = visible_len(text);
        if cue_duration(cue) <= SOURCE_FRAGMENT_MAX_DURATION_MS && len <= SOURCE_FRAGMENT_MAX_CHARS {
            true
        } else if words <= SOURCE_FRAGMENT_MAX_WORDS && len <= SOURCE_FRAGMENT_MAX_CHARS {
            true
        } else if first_token(text) is Some && leading_source_words().contains(first_token(text)->0) {
            true
        } else {
            last_token(text) is Some && trailing_source_words().contains(last_token(text)->0)
        }
    }
}

/// Whether a target-language (Chinese) cue looks like a fragment.
pub open spec fn is_target_fragment(cue: CueView) -> bool {
    let text = trim(cue.text);
    if text.len() == 0 {
        true
    } else if ends_with_terminal(text) {
        false
    } else {
        let len = visible_len(text);
        if len <= TARGET_FRAGMENT_HARD_MAX_CHARS {
            true
        } else if len <= TARGET_FRAGMENT_SOFT_MAX_CHARS && cue_duration(cue) <= TARGET_FRAGMENT_MAX_DURATION_MS {
            true
        } else {
            starts_with_any(text, WordList::LeadingTarget) || ends_with_any(text, WordList::TrailingTarget)
        }
    }
}

pub fn is_source_fragment_exec(cue: &SubCue) -> (r: bool)
    ensures
        r == is_source_fragment(cue@),
{
    let raw = chars_of(cue.text.as_str());
    let text = trim_vec(&raw, CharClass::Whitespace);
    if text.len() == 0 {
        return true;
    }
    if ends_with_terminal_exec(&text) {
        return false;
    }
    let words = word_count_exec(&text);
    let len = visible_len_exec(&text);
    if cue_duration_exec(cue) <= SOURCE_FRAGMENT_MAX_DURATION_MS as i128 && len <= SOURCE_FRAGMENT_MAX_CHARS {
        return true;
    }
    if words <= SOURCE_FRAGMENT_MAX_WORDS && len <= SOURCE_FRAGMENT_MAX_CHARS {
        return true;
    }
    match first_token_exec(&text) {
        Some(t) => {
            if in_word_list(WordList::LeadingSource, &t) {
                return true;
            }
        },
        None => {},
    }
    match last_token_exec(&text) {
        Some(t) => in_word_list(WordList::TrailingSource, &t),
        None => false,
    }
}

pub fn is_target_fragment_exec(cue: &SubCue) -> (r: bool)
    ensures
        r == is_target_fragment(cue@),
{
    let raw = chars_of(cue.text.as_str());
    let text = trim_vec(&raw, CharClass::Whitespace);
    if text.len() == 0 {
        return true;
    }
    if ends_with_terminal_exec(&text) {
        return false;
    }
    let len = visible_len_exec(&text);
    if len <= TARGET_FRAGMENT_HARD_MAX_CHARS {
        return true;
    }
    if len <= TARGET_FRAGMENT_SOFT_MAX_CHARS && cue_duration_exec(cue) <= TARGET_FRAGMENT_MAX_DURATION_MS as i128 {
        return true;
    }
    affix_any(&text, WordList::LeadingTarget, true) || affix_any(&text, WordList::TrailingTarget, false)
}

/// Which fragment test a merge pass uses.
#[derive(Clone, Copy)]
pub enum FragmentKind {
    Source,
    Target,
}

pub open spec fn is_fragment(k: FragmentKind, cue: CueView) -> bool {
    match k {
        FragmentKind::Source => is_source_fragment(cue),
        FragmentKind::Target => is_target_fragment(cue),
    }
}

fn is_fragment_exec(k: FragmentKind, cue: &SubCue) -> (r: bool)
    ensures
        r == is_fragment(k, cue@),
{
    match k {
        FragmentKind::Source => is_source_fragment_exec(cue),
        FragmentKind::Target => is_target_fragment_exec(cue),
    }
}

// ---------------------------------------------------------------------------
// Merge passes
// ---------------------------------------------------------------------------

/// Whether the cue `prev` absorbs the following cue `cue` in a merge pass.
pub open spec fn absorbs(k: FragmentKind, prev: CueView, cue: CueView, max_duration_ms: int, max_chars: int) -> bool {
    !ends_with_terminal(prev.text) && (is_fragment(k, prev) || is_fragment(k, cue))
        && can_merge_texts(prev, cue, max_duration_ms, max_chars)
}

/// The result of the backward merge pass over the first `n` cues: each cue
/// either extends the last output cue or is appended.
pub open spec fn merge_backward(cues: Seq<CueView>, k: FragmentKind, max_duration_ms: int, max_chars: int, n: int) -> Seq<CueView>
    decreases n,
{
    if n <= 0 || n > cues.len() {
        seq![]
    } else {
        let out = merge_backward(cues, k, max_duration_ms, max_chars, n - 1);
        let cue = cues[n - 1];
        if out.len() > 0 && absorbs(k, out.last(), cue, max_duration_ms, max_chars) {
            let prev = out.last();
            out.update(
                out.len() - 1,
                CueView { index: prev.index, start_ms: prev.start_ms, end_ms: cue.end_ms, text: join_texts(prev.text, cue.text) },
            )
        } else {
            out.push(cue)
        }
    }
}

/// The forward merge pass, kept in reverse: cues are visited from the last
/// one down, and each either extends the last kept cue (its successor) at the
/// front or is kept.
pub open spec fn merge_forward_rev(cues: Seq<CueView>, k: FragmentKind, max_duration_ms: int, max_chars: int, n: int) -> Seq<CueView>
    decreases n,
{
    if n <= 0 || n > cues.len() {
        seq![]
    } else {
        let out = merge_forward_rev(cues, k, max_duration_ms, max_chars, n - 1);
        let cue = cues[cues.len() - n];
        if out.len() > 0 && absorbs(k, cue, out.last(), max_duration_ms, max_chars) {
            let next = out.last();
            out.update(
                out.len() - 1,
                CueView { index: next.index, start_ms: cue.start_ms, end_ms: next.end_ms, text: join_texts(cue.text, next.text) },
            )
        } else {
            out.push(cue)
        }
    }
}

pub open spec fn merge_forward(cues: Seq<CueView>, k: FragmentKind, max_duration_ms: int, max_chars: int) -> Seq<CueView> {
    merge_forward_rev(cues, k, max_duration_ms, max_chars, cues.len() as int).reverse()
}

fn merge_backward_pass(cues: &Vec<SubCue>, k: FragmentKind, max_duration_ms: i64, max_chars: usize) -> (r: Vec<SubCue>)
    ensures
        cues_view(r@) == merge_backward(cues_view(cues@), k, max_duration_ms as int, max_chars as int, cues.len() as int),
{
    let ghost cv = cues_view(cues@);
    let mut out: Vec<SubCue> = Vec::new();
    let mut i: usize = 0;
    while i < cues.len()
        invariant
            i <= cues.len(),
            cv == cues_view(cues@),
            cues_view(out@) == merge_backward(cv, k, max_duration_ms as int, max_chars as int, i as int),
        decreases cues.len() - i,
    {
        let cue = clone_cue(&cues[i]);
        assert(cv[i as int] == cue@);
        let n = out.len();
        if n > 0 {
            let prev_text = chars_of(out[n - 1].text.as_str());
            assert(cues_view(out@).last() == out@[n - 1]@);
            if !ends_with_terminal_exec(&prev_text) && (is_fragment_exec(k, &out[n - 1]) || is_fragment_exec(k, &cue))
                && can_merge_texts_exec(&out[n - 1], &cue, max_duration_ms, max_chars) {
                let mut prev = out.pop().unwrap();
                let cue_text = chars_of(cue.text.as_str());
                let joined = join_texts_vec(&prev_text, &cue_text);
                prev.end_ms = cue.end_ms;
                prev.text = string_of(&joined);
                out.push(prev);
                assert(cues_view(out@) =~= merge_backward(cv, k, max_duration_ms as int, max_chars as int, i + 1));
                i += 1;
                continue;
            }
        }
        out.push(cue);
        assert(cues_view(out@) =~= merge_backward(cv, k, max_duration_ms as int, max_chars as int, i + 1));
        i += 1;
    }
    out
}

fn reverse_cues(v: Vec<SubCue>) -> (r: Vec<SubCue>)
    ensures
        cues_view(r@) == cues_view(v@).reverse(),
{
    let mut src = v;
    let ghost orig = cues_view(src@);
    let mut out: Vec<SubCue> = Vec::new();
    while src.len() > 0
        invariant
            orig.len() == out.len() + src.len(),
            forall|j: int| 0 <= j < src.len() ==> #[trigger] src@[j]@ == orig[j],
            forall|j: int| 0 <= j < out.len() ==> #[trigger] out@[j]@ == orig[orig.len() - 1 - j],
        decreases src.len(),
    {
        let c = src.pop().unwrap();
        out.push(c);
    }
    assert(cues_view(out@) =~= orig.reverse());
    out
}

fn merge_forward_pass(cues: &Vec<SubCue>, k: FragmentKind, max_duration_ms: i64, max_chars: usize) -> (r: Vec<SubCue>)
    ensures
        cues_view(r@) == merge_forward(cues_view(cues@), k, max_duration_ms as int, max_chars as int),
{
    let ghost cv = cues_view(cues@);
    let mut out: Vec<SubCue> = Vec::new();
    let mut n: usize = 0;
    while n < cues.len()
        invariant
            n <= cues.len(),
            cv == cues_view(cues@),
            cues_view(out@) == merge_forward_rev(cv, k, max_duration_ms as int, max_chars as int, n as int),
        decreases cues.len() - n,
    {
        let cue = clone_cue(&cues[cues.len() - 1 - n]);
        assert(cv[cv.len() - (n + 1)] == cue@);
        let m = out.len();
        if m > 0 {
            let cue_text = chars_of(cue.text.as_str());
            assert(cues_view(out@).last() == out@[m - 1]@);
            if !ends_with_terminal_exec(&cue_text) && (is_fragment_exec(k, &cue) || is_fragment_exec(k, &out[m - 1]))
                && can_merge_texts_exec(&cue, &out[m - 1], max_duration_ms, max_chars) {
                let mut next = out.pop().unwrap();
                let next_text = chars_of(next.text.as_str());
                let joined = join_texts_vec(&cue_text, &next_text);
                next.start_ms = cue.start_ms;
                next.text = string_of(&joined);
                out.push(next);
                assert(cues_view(out@) =~= merge_forward_rev(cv, k, max_duration_ms as int, max_chars as int, n + 1));
                n += 1;
                continue;
            }
        }
        out.push(cue);
        assert(cues_view(out@) =~= merge_forward_rev(cv, k, max_duration_ms as int, max_chars as int, n + 1));
        n += 1;
    }
    reverse_cues(out)
}

/// Backward then forward merge of source fragments, then renumbering.
pub open spec fn optimize_source(cues: Seq<CueView>) -> Seq<CueView> {
    let first = merge_backward(cues, FragmentKind::Source, SOURCE_MERGE_MAX_DURATION_MS as int, SOURCE_MERGE_MAX_CHARS as int, cues.len() as int);
    renumbered(merge_forward(first, FragmentKind::Source, SOURCE_MERGE_MAX_DURATION_MS as int, SOURCE_MERGE_MAX_CHARS as int))
}

/// Backward then forward merge of target fragments, then renumbering.
pub open spec fn optimize_translated(cues: Seq<CueView>) -> Seq<CueView> {
    let first = merge_backward(cues, FragmentKind::Target, TARGET_MERGE_MAX_DURATION_MS as int, TARGET_MERGE_MAX_CHARS as int, cues.len() as int);
    renumbered(merge_forward(first, FragmentKind::Target, TARGET_MERGE_MAX_DURATION_MS as int, TARGET_MERGE_MAX_CHARS as int))
}

pub fn optimize_source_cues(cues: &Vec<SubCue>) -> (r: Vec<SubCue>)
    ensures
        cues_view(r@) == optimize_source(cues_view(cues@)),
{
    let first = merge_backward_pass(cues, FragmentKind::Source, SOURCE_MERGE_MAX_DURATION_MS, SOURCE_MERGE_MAX_CHARS);
    let mut merged = merge_forward_pass(&first, FragmentKind::Source, SOURCE_MERGE_MAX_DURATION_MS, SOURCE_MERGE_MAX_CHARS);
    renumber(&mut merged);
    merged
}

pub fn optimize_translated_cues(cues: &Vec<SubCue>) -> (r: Vec<SubCue>)
    ensures
        cues_view(r@) == optimize_translated(cues_view(cues@)),
{
    let first = merge_backward_pass(cues, FragmentKind::Target, TARGET_MERGE_MAX_DURATION_MS, TARGET_MERGE_MAX_CHARS);
    let mut merged = merge_forward_pass(&first, FragmentKind::Target, TARGET_MERGE_MAX_DURATION_MS, TARGET_MERGE_MAX_CHARS);
    renumber(&mut merged);
    merged
}


// ---------------------------------------------------------------------------
// Normalization and formatting
// ---------------------------------------------------------------------------

/// The sort key `(start_ms, end_ms, index)` of `a` is smaller than that of `b`.
pub open spec fn key_lt(a: CueView, b: CueView) -> bool {
    a.start_ms < b.start_ms || (a.start_ms == b.start_ms && (a.end_ms < b.end_ms || (a.end_ms == b.end_ms
        && a.index < b.index)))
}

/// Inserts `c` into `s` after every element whose key is not greater.
pub open spec fn insert_sorted(s: Seq<CueView>, c: CueView) -> Seq<CueView>
    decreases s.len(),
{
    if s.len() == 0 {
        seq![c]
    } else if key_lt(c, s.last()) {
        insert_sorted(s.drop_last(), c).push(s.last())
    } else {
        s.push(c)
    }
}

/// The stable sort of `s` by `(start_ms, end_ms, index)`.
pub open spec fn sort_cues(s: Seq<CueView>) -> Seq<CueView>
    decreases s.len(),
{
    if s.len() == 0 {
        s
    } else {
        insert_sorted(sort_cues(s.drop_last()), s.last())
    }
}

pub proof fn lemma_insert_sorted_len(s: Seq<CueView>, c: CueView)
    ensures
        insert_sorted(s, c).len() == s.len() + 1,
    decreases s.len(),
{
    if s.len() > 0 && key_lt(c, s.last()) {
        lemma_insert_sorted_len(s.drop_last(), c);
    }
}

pub proof fn lemma_sort_len(s: Seq<CueView>)
    ensures
        sort_cues(s).len() == s.len(),
    decreases s.len(),
{
    if s.len() > 0 {
        lemma_sort_len(s.drop_last());
        lemma_insert_sorted_len(sort_cues(s.drop_last()), s.last());
    }
}

/// The multiset of cues is unchanged by inserting.
pub proof fn lemma_insert_sorted_contents(s: Seq<CueView>, c: CueView)
    ensures
        insert_sorted(s, c).to_multiset() == s.to_multiset().insert(c),
    decreases s.len(),
{
    broadcast use vstd::seq_lib::group_to_multiset_ensures;
    if s.len() > 0 && key_lt(c, s.last()) {
        lemma_insert_sorted_contents(s.drop_last(), c);
        assert(s =~= s.drop_last().push(s.last()));
    }
}

fn key_lt_exec(a: &SubCue, b: &SubCue) -> (r: bool)
    ensures
        r == key_lt(a@, b@),
{
    a.start_ms < b.start_ms || (a.start_ms == b.start_ms && (a.end_ms < b.end_ms || (a.end_ms == b.end_ms
        && a.index < b.index)))
}

fn sort_cues_exec(cues: &Vec<SubCue>) -> (r: Vec<SubCue>)
    ensures
        cues_view(r@) == sort_cues(cues_view(cues@)),
{
    let ghost cv = cues_view(cues@);
    let mut out: Vec<SubCue> = Vec::new();
    let mut i: usize = 0;
    while i < cues.len()
        invariant
            i <= cues.len(),
            cv == cues_view(cues@),
            cues_view(out@) == sort_cues(cv.subrange(0, i as int)),
        decreases cues.len() - i,
    {
        let c = clone_cue(&cues[i]);
        let ghost old_out = cues_view(out@);
        let n = out.len();
        let mut j: usize = n;
        assert(old_out.subrange(0, n as int) =~= old_out);
        assert(insert_sorted(old_out, c@) =~= insert_sorted(old_out.subrange(0, n as int), c@) + old_out.subrange(n as int, n as int));
        while j > 0 && key_lt_exec(&c, &out[j - 1])
            invariant
                j <= n == out.len(),
                old_out == cues_view(out@),
                insert_sorted(old_out, c@) == insert_sorted(old_out.subrange(0, j as int), c@) + old_out.subrange(j as int, n as int),
            decreases j,
        {
            let ghost pre = old_out.subrange(0, j as int);
            assert(pre.drop_last() =~= old_out.subrange(0, j - 1));
            assert(pre.last() == old_out[j - 1]);
            assert(old_out.subrange(j - 1, n as int) =~= seq![old_out[j - 1]] + old_out.subrange(j as int, n as int));
            assert(insert_sorted(pre.drop_last(), c@).push(pre.last()) + old_out.subrange(j as int, n as int) =~= insert_sorted(old_out.subrange(0, j - 1), c@) + old_out.subrange(j - 1, n as int));
            j -= 1;
        }
        proof {
            let pre = old_out.subrange(0, j as int);
            if j > 0 {
                assert(pre.last() == old_out[j - 1]);
            }
            assert(insert_sorted(pre, c@) == pre.push(c@));
        }
        out.insert(j, c);
        proof {
            assert(cues_view(out@) =~= old_out.subrange(0, j as int).push(c@) + old_out.subrange(j as int, n as int));
            let sub = cv.subrange(0, i + 1);
            assert(sub.drop_last() =~= cv.subrange(0, i as int));
            assert(sub.last() == c@);
        }
        i += 1;
    }
    assert(cv.subrange(0, cues.len() as int) =~= cv);
    out
}

/// First repair: negative starts become 0 and empty or inverted cues get
/// the minimal duration.
pub open spec fn clamp_cue(c: CueView) -> CueView {
    let start = if c.start_ms < 0 { 0 } else { c.start_ms };
    let end = if c.end_ms <= start { (start + MIN_CUE_DURATION_MS) as i64 } else { c.end_ms };
    CueView { index: c.index, start_ms: start, end_ms: end, text: c.text }
}

/// Second repair at position `i`, against the (already repaired) cue before
/// it: an overlap is removed by ending the previous cue earlier when that
/// keeps it non-empty, otherwise by starting this cue later.
pub open spec fn fix_overlap(s: Seq<CueView>, i: int) -> Seq<CueView> {
    let prev = s[i - 1];
    let cur = s[i];
    let s1 = if cur.start_ms < prev.end_ms && cur.start_ms > prev.start_ms {
        s.update(i - 1, CueView { index: prev.index, start_ms: prev.start_ms, end_ms: cur.start_ms, text: prev.text })
    } else {
        s
    };
    let cur1 = if cur.start_ms < prev.end_ms && !(cur.start_ms > prev.start_ms) {
        CueView { index: cur.index, start_ms: prev.end_ms, end_ms: cur.end_ms, text: cur.text }
    } else {
        cur
    };
    let cur2 = if cur1.end_ms <= cur1.start_ms {
        CueView { index: cur1.index, start_ms: cur1.start_ms, end_ms: (cur1.start_ms + MIN_CUE_DURATION_MS) as i64, text: cur1.text }
    } else {
        cur1
    };
    s1.update(i, cur2)
}

/// The second repair applied at positions `1..n`.
pub open spec fn fix_overlaps(s: Seq<CueView>, n: int) -> Seq<CueView>
    decreases n,
{
    if n <= 1 {
        s
    } else {
        fix_overlap(fix_overlaps(s, n - 1), n - 1)
    }
}

/// What `normalize_cues_for_srt` returns: sorted, repaired, renumbered.
pub open spec fn normalize_cues(cues: Seq<CueView>) -> Seq<CueView> {
    let sorted = sort_cues(cues);
    let clamped = sorted.map_values(|c: CueView| clamp_cue(c));
    renumbered(fix_overlaps(clamped, clamped.len() as int))
}

/// The bound under which the repairs cannot overflow: every time at most
/// `i64::MAX` minus the number of cues minus one (and fewer cues than could
/// ever fit in memory).
pub open spec fn times_bounded(cues: Seq<CueView>) -> bool {
    cues.len() < 0x4000_0000_0000_0000 && forall|i: int|
        0 <= i < cues.len() ==> #[trigger] cues[i].start_ms <= i64::MAX - cues.len() - 1 && cues[i].end_ms
            <= i64::MAX - cues.len() - 1
}

/// Cues that `format_srt` can write: non-negative, non-empty, in order and
/// without overlaps.
pub open spec fn well_timed(cues: Seq<CueView>) -> bool {
    &&& forall|i: int| 0 <= i < cues.len() ==> 0 <= #[trigger] cues[i].start_ms < cues[i].end_ms
    &&& forall|i: int| 0 <= i < cues.len() - 1 ==> #[trigger] cues[i].end_ms <= cues[i + 1].start_ms
}

/// The texts of cues, in order.
pub open spec fn texts_of(cues: Seq<CueView>) -> Seq<Seq<char>> {
    cues.map_values(|c: CueView| c.text)
}

proof fn lemma_fix_overlaps_texts(s: Seq<CueView>, n: int)
    requires
        0 <= n <= s.len(),
    ensures
        fix_overlaps(s, n).len() == s.len(),
        forall|i: int| 0 <= i < s.len() ==> (#[trigger] fix_overlaps(s, n)[i]).text == s[i].text,
    decreases n,
{
    if n > 1 {
        lemma_fix_overlaps_texts(s, n - 1);
    }
}

proof fn lemma_insert_sorted_texts(s: Seq<CueView>, c: CueView)
    ensures
        texts_of(insert_sorted(s, c)).to_multiset() == texts_of(s).to_multiset().insert(c.text),
    decreases s.len(),
{
    broadcast use vstd::seq_lib::group_to_multiset_ensures;
    if s.len() == 0 {
        assert(texts_of(seq![c]) =~= seq![c.text]);
        assert(texts_of(s) =~= Seq::<Seq<char>>::empty());
        assert(seq![c.text] =~= Seq::<Seq<char>>::empty().push(c.text));
    } else if key_lt(c, s.last()) {
        lemma_insert_sorted_texts(s.drop_last(), c);
        assert(texts_of(insert_sorted(s.drop_last(), c).push(s.last())) =~= texts_of(insert_sorted(s.drop_last(), c)).push(
            s.last().text,
        ));
        assert(texts_of(s) =~= texts_of(s.drop_last()).push(s.last().text));
    } else {
        assert(texts_of(s.push(c)) =~= texts_of(s).push(c.text));
    }
}

proof fn lemma_sort_texts(s: Seq<CueView>)
    ensures
        texts_of(sort_cues(s)).to_multiset() == texts_of(s).to_multiset(),
    decreases s.len(),
{
    broadcast use vstd::seq_lib::group_to_multiset_ensures;
    if s.len() > 0 {
        lemma_sort_texts(s.drop_last());
        lemma_insert_sorted_texts(sort_cues(s.drop_last()), s.last());
        assert(texts_of(s) =~= texts_of(s.drop_last()).push(s.last().text));
    }
}

/// Repairing cues for writing keeps every text: the repaired cues hold the
/// same texts, each as often, as the cues given.
pub proof fn lemma_normalize_keeps_texts(cues: Seq<CueView>)
    ensures
        texts_of(normalize_cues(cues)).to_multiset() == texts_of(cues).to_multiset(),
{
    let sorted = sort_cues(cues);
    let clamped = sorted.map_values(|c: CueView| clamp_cue(c));
    lemma_sort_len(cues);
    lemma_sort_texts(cues);
    lemma_fix_overlaps_texts(clamped, clamped.len() as int);
    assert(texts_of(normalize_cues(cues)) =~= texts_of(sorted));
}

#[verifier::rlimit(40)]
pub fn normalize_cues_for_srt(cues: &Vec<SubCue>) -> (r: Vec<SubCue>)
    requires
        times_bounded(cues_view(cues@)),
    ensures
        cues_view(r@) == normalize_cues(cues_view(cues@)),
        r.len() == cues.len(),
        well_timed(cues_view(r@)),
        forall|i: int| 0 <= i < r.len() ==> (#[trigger] r@[i]).index == (i + 1) as u32,
{
    let ghost cv = cues_view(cues@);
    let mut out = sort_cues_exec(cues);
    proof {
        lemma_sort_len(cv);
        lemma_sort_contents(cv);
    }
    let ghost sorted = cues_view(out@);
    // Every sorted cue is one of the input cues, so it is bounded too.
    assert forall|i: int| 0 <= i < sorted.len() implies #[trigger] sorted[i].start_ms <= i64::MAX - cv.len() - 1
        && sorted[i].end_ms <= i64::MAX - cv.len() - 1 by {
        broadcast use vstd::seq_lib::group_to_multiset_ensures;
        assert(sorted.contains(sorted[i]));
        assert(sorted.to_multiset().count(sorted[i]) > 0);
        assert(cv.to_multiset().count(sorted[i]) > 0);
        assert(cv.contains(sorted[i]));
        let k = choose|k: int| 0 <= k < cv.len() && cv[k] == sorted[i];
        assert(cv[k].start_ms <= i64::MAX - cv.len() - 1);
    }
    let n = out.len();
    let ghost bound: int = i64::MAX - n - 1;
    let mut i: usize = 0;
    while i < n
        invariant
            i <= n == out.len() == cv.len(),
            bound == i64::MAX - n - 1,
            forall|j: int| 0 <= j < i ==> #[trigger] out@[j]@ == clamp_cue(sorted[j]),
            forall|j: int| i <= j < n ==> #[trigger] out@[j]@ == sorted[j],
            forall|j: int| 0 <= j < n ==> #[trigger] sorted[j].start_ms <= bound && sorted[j].end_ms <= bound,
        decreases n - i,
    {
        let mut c = clone_cue(&out[i]);
        assert(out@[i as int]@ == sorted[i as int]);
        assert(sorted[i as int].start_ms <= bound);
        if c.start_ms < 0 {
            c.start_ms = 0;
        }
        if c.end_ms <= c.start_ms {
            c.end_ms = c.start_ms + MIN_CUE_DURATION_MS;
        }
        out.set(i, c);
        i += 1;
    }
    let ghost clamped = sorted.map_values(|c: CueView| clamp_cue(c));
    assert(cues_view(out@) =~= clamped);
    assert forall|j: int| 0 <= j < n implies 0 <= #[trigger] out@[j].start_ms < out@[j].end_ms
        && out@[j].start_ms <= bound + j && out@[j].end_ms <= bound + 1 + j by {
        assert(out@[j]@ == clamp_cue(sorted[j]));
        assert(sorted[j].start_ms <= bound && sorted[j].end_ms <= bound);
        assert(0 <= out@[j].start_ms);
        assert(out@[j].start_ms < out@[j].end_ms);
        assert(out@[j].start_ms <= bound + j);
        assert(out@[j].end_ms <= bound + 1 + j);
    }
    let mut i: usize = 1;
    while i < n
        invariant
            1 <= i,
            n == out.len() == cv.len(),
            bound == i64::MAX - n - 1,
            i < n ==> cues_view(out@) == fix_overlaps(clamped, i as int),
            i >= n ==> cues_view(out@) == fix_overlaps(clamped, n as int),
            forall|j: int| 0 <= j < n ==> 0 <= #[trigger] out@[j].start_ms < out@[j].end_ms,
            forall|j: int| 0 <= j < n ==> #[trigger] out@[j].start_ms <= bound + j && out@[j].end_ms <= bound + 1 + j,
            forall|j: int| 0 <= j < i - 1 && j < n - 1 ==> #[trigger] out@[j].end_ms <= out@[j + 1].start_ms,
        decreases n - i,
    {
        let ghost before = cues_view(out@);
        let ghost old_out = out@;
        let mut cur = clone_cue(&out[i]);
        let prev_start = out[i - 1].start_ms;
        let prev_end = out[i - 1].end_ms;
        assert(old_out[i - 1].end_ms <= bound + 1 + (i - 1));
        assert(old_out[i as int].start_ms <= bound + i && old_out[i as int].end_ms <= bound + 1 + i);
        if cur.start_ms < prev_end {
            if cur.start_ms > prev_start {
                let mut p = clone_cue(&out[i - 1]);
                p.end_ms = cur.start_ms;
                out.set(i - 1, p);
            } else {
                cur.start_ms = prev_end;
            }
        }
        if cur.end_ms <= cur.start_ms {
            cur.end_ms = cur.start_ms + MIN_CUE_DURATION_MS;
        }
        out.set(i, cur);
        assert(cues_view(out@) =~= fix_overlap(before, i as int));
        assert forall|j: int| 0 <= j < n implies #[trigger] out@[j].start_ms <= bound + j && out@[j].end_ms <= bound + 1 + j by {
            if j != i as int && j != i - 1 {
                assert(out@[j] == old_out[j]);
            }
        }
        i += 1;
    }
    proof {
        if n <= 1 {
            assert(fix_overlaps(clamped, n as int) == clamped);
        }
    }
    let ghost fixed = cues_view(out@);
    renumber(&mut out);
    proof {
        assert(cues_view(out@).len() == out@.len());
        assert forall|i: int| 0 <= i < out.len() implies (#[trigger] out@[i]).index == (i + 1) as u32 by {
            assert(cues_view(out@)[i] == out@[i]@);
        }
        assert forall|i: int| 0 <= i < out.len() implies 0 <= #[trigger] cues_view(out@)[i].start_ms < cues_view(out@)[i].end_ms by {
            assert(cues_view(out@)[i].start_ms == fixed[i].start_ms);
        }
    }
    out
}

/// Every cue of `sort_cues(s)` is a cue of `s`, the same number of times.
pub proof fn lemma_sort_contents(s: Seq<CueView>)
    ensures
        sort_cues(s).to_multiset() == s.to_multiset(),
    decreases s.len(),
{
    broadcast use vstd::seq_lib::group_to_multiset_ensures;
    if s.len() > 0 {
        lemma_sort_contents(s.drop_last());
        lemma_insert_sorted_contents(sort_cues(s.drop_last()), s.last());
        assert(s =~= s.drop_last().push(s.last()));
    }
}

/// `format!("{h:02}:{m:02}:{s:02},{milli:03}")` of a non-negative time.
pub open spec fn format_ts(ms: int) -> Seq<char> {
    let h = ms / 3_600_000;
    let m = (ms % 3_600_000) / 60_000;
    let s = (ms % 60_000) / 1000;
    let milli = ms % 1000;
    zero_pad(dec(h as nat), 2) + seq![':'] + zero_pad(dec(m as nat), 2) + seq![':'] + zero_pad(dec(s as nat), 2)
        + seq![','] + zero_pad(dec(milli as nat), 3)
}

/// A time stamp written from its fields: hours, minutes and seconds in at
/// least two digits, milliseconds in at least three.
pub open spec fn stamp_text(h: nat, m: nat, s: nat, f: nat) -> Seq<char> {
    zero_pad(dec(h), 2) + seq![':'] + zero_pad(dec(m), 2) + seq![':'] + zero_pad(dec(s), 2) + seq![','] + zero_pad(
        dec(f),
        3,
    )
}

proof fn lemma_digit_char(d: int)
    requires
        0 <= d < 10,
    ensures
        crate::text::ascii_digit(crate::text::digit_char(d)),
        crate::text::digit_value(crate::text::digit_char(d)) == d,
{
}

proof fn lemma_dec_digits(n: nat)
    ensures
        crate::text::all_digits(dec(n)),
        crate::text::digits_value(dec(n)) == n,
        dec(n).len() >= 1,
    decreases n,
{
    if n < 10 {
        lemma_digit_char(n as int);
        assert(dec(n).drop_last() =~= Seq::<char>::empty());
        assert(crate::text::digits_value(Seq::<char>::empty()) == 0);
    } else {
        lemma_dec_digits(n / 10);
        lemma_digit_char((n % 10) as int);
        assert(dec(n) == dec(n / 10).push(crate::text::digit_char((n % 10) as int)));
        assert(dec(n).drop_last() =~= dec(n / 10));
        assert(dec(n).last() == crate::text::digit_char((n % 10) as int));
        assert(forall|i: int| 0 <= i < dec(n / 10).len() ==> dec(n)[i] == dec(n / 10)[i]);
        assert(crate::text::digits_value(dec(n)) == crate::text::digits_value(dec(n / 10)) * 10 + (n % 10));
        assert((n / 10) * 10 + n % 10 == n);
    }
}

proof fn lemma_zeros_value(z: Seq<char>)
    requires
        forall|i: int| 0 <= i < z.len() ==> z[i] == '0',
    ensures
        crate::text::digits_value(z) == 0,
    decreases z.len(),
{
    if z.len() > 0 {
        lemma_zeros_value(z.drop_last());
    }
}

proof fn lemma_leading_zeros(z: Seq<char>, s: Seq<char>)
    requires
        forall|i: int| 0 <= i < z.len() ==> z[i] == '0',
    ensures
        crate::text::digits_value(z + s) == crate::text::digits_value(s),
    decreases s.len(),
{
    if s.len() == 0 {
        assert(z + s =~= z);
        lemma_zeros_value(z);
    } else {
        lemma_leading_zeros(z, s.drop_last());
        assert((z + s).drop_last() =~= z + s.drop_last());
        assert((z + s).last() == s.last());
    }
}

proof fn lemma_padded(n: nat, w: nat)
    ensures
        crate::text::all_digits(zero_pad(dec(n), w)),
        crate::text::digits_value(zero_pad(dec(n), w)) == n,
        zero_pad(dec(n), w).len() >= 1,
{
    lemma_dec_digits(n);
    let d = dec(n);
    if d.len() < w {
        let z = Seq::new((w - d.len()) as nat, |i: int| '0');
        lemma_leading_zeros(z, d);
        assert(zero_pad(d, w) == z + d);
        assert forall|i: int| 0 <= i < (z + d).len() implies crate::text::ascii_digit(#[trigger] (z + d)[i]) by {
            if i >= z.len() {
                assert((z + d)[i] == d[i - z.len()]);
            }
        }
    }
}

proof fn lemma_trim_solid(s: Seq<char>)
    requires
        s.len() > 0,
        !crate::text::white_space(s[0]),
        !crate::text::white_space(s.last()),
    ensures
        trim(s) == s,
{
    assert(scan_fwd(s, CharClass::Whitespace, 0) == 0);
    assert(scan_back(s, CharClass::Whitespace, 0, s.len() as int) == s.len());
    assert(trim(s) =~= s);
}

proof fn lemma_find_char_at(s: Seq<char>, c: char, i: int, j: int)
    requires
        0 <= i <= j < s.len(),
        s[j] == c,
        forall|k: int| i <= k < j ==> s[k] != c,
    ensures
        find_char_from(s, c, i) == j,
    decreases j - i,
{
    if i < j {
        lemma_find_char_at(s, c, i + 1, j);
    }
}

proof fn lemma_find_colon_at(s: Seq<char>, i: int, j: int)
    requires
        0 <= i <= j < s.len(),
        s[j] == ':',
        forall|k: int| i <= k < j ==> s[k] != ':',
    ensures
        find_from(s, seq![':'], i) == j,
    decreases j - i,
{
    assert(s.subrange(j, j + 1) =~= seq![':']);
    if i < j {
        if matches_at(s, seq![':'], i) {
            assert(s.subrange(i, i + 1)[0] == s[i]);
            assert(seq![':'][0] == ':');
        }
        lemma_find_colon_at(s, i + 1, j);
    }
}

proof fn lemma_find_colon_none(s: Seq<char>, i: int)
    requires
        0 <= i <= s.len(),
        forall|k: int| i <= k < s.len() ==> s[k] != ':',
    ensures
        find_from(s, seq![':'], i) == -1,
    decreases s.len() - i,
{
    if i < s.len() {
        if matches_at(s, seq![':'], i) {
            assert(s.subrange(i, i + 1)[0] == s[i]);
            assert(seq![':'][0] == ':');
        }
        lemma_find_colon_none(s, i + 1);
    }
}

proof fn lemma_split_three(a: Seq<char>, b: Seq<char>, c: Seq<char>)
    requires
        crate::text::all_digits(a),
        crate::text::all_digits(b),
        crate::text::all_digits(c),
    ensures
        split(a + seq![':'] + b + seq![':'] + c, seq![':']) == seq![a, b, c],
{
    let q = a + seq![':'] + b + seq![':'] + c;
    let p = seq![':'];
    let i1 = a.len() as int;
    let i2 = (a.len() + 1 + b.len()) as int;
    assert(q[i1] == ':');
    assert(q[i2] == ':');
    assert forall|k: int| 0 <= k < i1 implies q[k] != ':' by {
        assert(q[k] == a[k]);
    }
    assert forall|k: int| i1 + 1 <= k < i2 implies q[k] != ':' by {
        assert(q[k] == b[k - i1 - 1]);
    }
    assert forall|k: int| i2 + 1 <= k < q.len() implies q[k] != ':' by {
        assert(q[k] == c[k - i2 - 1]);
    }
    lemma_find_colon_at(q, 0, i1);
    lemma_find_colon_at(q, i1 + 1, i2);
    lemma_find_colon_none(q, i2 + 1);
    let t3 = crate::text::split_from(q, p, i2 + 1);
    assert(t3 == seq![q.subrange(i2 + 1, q.len() as int)]);
    let t2 = crate::text::split_from(q, p, i1 + 1);
    assert(t2 == seq![q.subrange(i1 + 1, i2)] + t3);
    let t1 = crate::text::split_from(q, p, 0);
    assert(t1 == seq![q.subrange(0, i1)] + t2);
    assert(q.subrange(0, i1) =~= a);
    assert(q.subrange(i1 + 1, i2) =~= b);
    assert(q.subrange(i2 + 1, q.len() as int) =~= c);
    assert(t1 =~= seq![a, b, c]);
}

proof fn lemma_parse_digits(d: Seq<char>)
    requires
        d.len() > 0,
        crate::text::all_digits(d),
        crate::text::digits_value(d) <= i64::MAX,
    ensures
        parse_i64_spec(d) == Some(crate::text::digits_value(d)),
{
    assert(crate::text::ascii_digit(d[0]));
    crate::text::lemma_digits_value_nonneg(d);
}

/// Written time stamps are well formed: minutes and seconds below 60,
/// milliseconds below 1000, and the fields add up to the time written.
pub proof fn lemma_format_ts_fields(ms: int)
    requires
        ms >= 0,
    ensures
        exists|h: nat, m: nat, s: nat, f: nat|
            m < 60 && s < 60 && f < 1000 && ((h * 60 + m) * 60 + s) * 1000 + f == ms && format_ts(ms) == #[trigger] stamp_text(
                h,
                m,
                s,
                f,
            ),
{
    let h = (ms / 3_600_000) as nat;
    let m = ((ms % 3_600_000) / 60_000) as nat;
    let s = ((ms % 60_000) / 1000) as nat;
    let f = (ms % 1000) as nat;
    assert(((h * 60 + m) * 60 + s) * 1000 + f == ms) by (nonlinear_arith)
        requires
            ms >= 0,
            h == ms / 3_600_000,
            m == (ms % 3_600_000) / 60_000,
            s == (ms % 60_000) / 1000,
            f == ms % 1000,
    ;
    assert(format_ts(ms) == stamp_text(h, m, s, f));
}

/// Reading back a written time stamp gives the time: `parse_ts` undoes
/// `format_ts` for every time up to `i64::MAX` milliseconds.
#[verifier::rlimit(60)]
pub proof fn lemma_parse_format_ts(ms: int)
    requires
        0 <= ms <= i64::MAX,
    ensures
        parse_ts(format_ts(ms)) == Some(ms),
{
    lemma_format_ts_fields(ms);
    let (h, m, s, f) = choose|h: nat, m: nat, s: nat, f: nat|
        m < 60 && s < 60 && f < 1000 && ((h * 60 + m) * 60 + s) * 1000 + f == ms && format_ts(ms) == #[trigger] stamp_text(
            h,
            m,
            s,
            f,
        );
    let a = zero_pad(dec(h), 2);
    let b = zero_pad(dec(m), 2);
    let c = zero_pad(dec(s), 2);
    let d = zero_pad(dec(f), 3);
    lemma_padded(h, 2);
    lemma_padded(m, 2);
    lemma_padded(s, 2);
    lemma_padded(f, 3);
    assert(h <= ms && h * 60 <= ms && h * 60 + m <= ms && (h * 60 + m) * 60 <= ms && (h * 60 + m) * 60 + s <= ms && ((
    h * 60 + m) * 60 + s) * 1000 <= ms) by (nonlinear_arith)
        requires
            ((h * 60 + m) * 60 + s) * 1000 + f == ms,
            h >= 0,
            m >= 0,
            s >= 0,
            f >= 0,
    ;
    let p = a + seq![':'] + b + seq![':'] + c + seq![','] + d;
    assert(format_ts(ms) =~= p);
    assert(crate::text::ascii_digit(a[0]));
    assert(p[0] == a[0]);
    assert(crate::text::ascii_digit(d.last()));
    assert(p.last() == d.last());
    lemma_trim_solid(p);
    let k = (a.len() + b.len() + c.len() + 2) as int;
    let q = a + seq![':'] + b + seq![':'] + c;
    assert(q.len() == k);
    assert(p =~= q + (seq![','] + d));
    assert(p[k] == ',');
    assert forall|i: int| 0 <= i < k implies p[i] != ',' by {
        assert(p[i] == q[i]);
        if i < a.len() {
            assert(q[i] == a[i]);
        } else if i == a.len() {
        } else if i < a.len() + 1 + b.len() {
            assert(q[i] == b[i - a.len() - 1]);
        } else if i == a.len() + 1 + b.len() {
        } else {
            assert(q[i] == c[i - a.len() - b.len() - 2]);
        }
    }
    lemma_find_char_at(p, ',', 0, k);
    assert(has_char(p, ','));
    assert(p.subrange(0, k) =~= q);
    lemma_split_three(a, b, c);
    let fields = split(p.subrange(0, k), seq![':']);
    assert(fields == seq![a, b, c]);
    assert(p.subrange(k + 1, p.len() as int) =~= d);
    assert(d[0] == d[0]);
    assert(crate::text::ascii_digit(d[0]));
    lemma_trim_solid(d);
    lemma_parse_digits(a);
    lemma_parse_digits(b);
    lemma_parse_digits(c);
    lemma_parse_digits(d);
    assert(ts_value(h as int, m as int, s as int, f as int) == Some(ms));
}

fn format_ts_exec(ms: i64) -> (r: Vec<char>)
    requires
        ms >= 0,
    ensures
        r@ == format_ts(ms as int),
{
    let h: u64 = (ms / 3_600_000) as u64;
    let m: u64 = ((ms % 3_600_000) / 60_000) as u64;
    let s: u64 = ((ms % 60_000) / 1000) as u64;
    let milli: u64 = (ms % 1000) as u64;
    let mut out = dec_padded(h, 2);
    out.push(':');
    let mv = dec_padded(m, 2);
    append_chars(&mut out, &mv);
    out.push(':');
    let sv = dec_padded(s, 2);
    append_chars(&mut out, &sv);
    out.push(',');
    let lv = dec_padded(milli, 3);
    append_chars(&mut out, &lv);
    out
}

/// The SRT text of already normalized cues `s[..n]`.
pub open spec fn srt_body(s: Seq<CueView>, n: int) -> Seq<char>
    decreases n,
{
    if n <= 0 || n > s.len() {
        seq![]
    } else {
        let c = s[n - 1];
        srt_body(s, n - 1) + dec(c.index as nat) + seq!['\n'] + format_ts(c.start_ms as int) + seq![' ', '-', '-', '>', ' ']
            + format_ts(c.end_ms as int) + seq!['\n'] + c.text + seq!['\n', '\n']
    }
}

/// What `format_srt` returns.
pub open spec fn format_srt_spec(cues: Seq<CueView>) -> Seq<char> {
    let n = normalize_cues(cues);
    srt_body(n, n.len() as int)
}

pub fn format_srt(cues: &Vec<SubCue>) -> (r: String)
    requires
        times_bounded(cues_view(cues@)),
    ensures
        r@ == format_srt_spec(cues_view(cues@)),
{
    let normalized = normalize_cues_for_srt(cues);
    let ghost nv = cues_view(normalized@);
    let mut out: Vec<char> = Vec::new();
    let mut i: usize = 0;
    while i < normalized.len()
        invariant
            i <= normalized.len(),
            nv == cues_view(normalized@),
            well_timed(nv),
            out@ == srt_body(nv, i as int),
        decreases normalized.len() - i,
    {
        let c = &normalized[i];
        assert(nv[i as int] == c@);
        assert(0 <= nv[i as int].start_ms < nv[i as int].end_ms);
        let idx = dec_u64(c.index as u64);
        append_chars(&mut out, &idx);
        out.push('\n');
        let a = format_ts_exec(c.start_ms);
        append_chars(&mut out, &a);
        out.push(' ');
        out.push('-');
        out.push('-');
        out.push('>');
        out.push(' ');
        let b = format_ts_exec(c.end_ms);
        append_chars(&mut out, &b);
        out.push('\n');
        let t = chars_of(c.text.as_str());
        append_chars(&mut out, &t);
        out.push('\n');
        out.push('\n');
        assert(out@ =~= srt_body(nv, i + 1));
        i += 1;
    }
    string_of(&out)
}


// ---------------------------------------------------------------------------
// Pairing source cues with translations
// ---------------------------------------------------------------------------

pub open spec fn strings_view(v: Seq<String>) -> Seq<Seq<char>> {
    v.map_values(|s: String| s@)
}

/// The error for two lists of different lengths.
pub open spec fn count_mismatch(prefix: Seq<char>, a: nat, b: nat) -> Seq<char> {
    prefix + dec(a) + " / "@ + dec(b)
}

fn count_mismatch_exec(prefix: &str, a: usize, b: usize) -> (r: String)
    ensures
        r@ == count_mismatch(prefix@, a as nat, b as nat),
{
    let mut out = chars_of(prefix);
    let av = dec_u64(a as u64);
    append_chars(&mut out, &av);
    let sep = chars_of(" / ");
    append_chars(&mut out, &sep);
    let bv = dec_u64(b as u64);
    append_chars(&mut out, &bv);
    string_of(&out)
}

/// Source cue timing with the trimmed translation as text.
pub open spec fn translated_cues(sources: Seq<CueView>, lines: Seq<Seq<char>>) -> Seq<CueView> {
    Seq::new(
        sources.len(),
        |i: int| CueView { index: sources[i].index, start_ms: sources[i].start_ms, end_ms: sources[i].end_ms, text: trim(lines[i]) },
    )
}

/// Source cue timing with the trimmed translation above the trimmed source.
pub open spec fn bilingual_cues(sources: Seq<CueView>, lines: Seq<Seq<char>>) -> Seq<CueView> {
    Seq::new(
        sources.len(),
        |i: int| CueView {
            index: sources[i].index,
            start_ms: sources[i].start_ms,
            end_ms: sources[i].end_ms,
            text: trim(lines[i]) + seq!['\n'] + trim(sources[i].text),
        },
    )
}

pub fn build_translated_cues(sources: &Vec<SubCue>, translated_lines: &Vec<String>) -> (r: Result<Vec<SubCue>, String>)
    ensures
        sources.len() != translated_lines.len() ==> r == Err::<Vec<SubCue>, String>(r->Err_0) && r->Err_0@ == count_mismatch(
            "Source/translation cue count mismatch: "@,
            sources.len() as nat,
            translated_lines.len() as nat,
        ),
        sources.len() == translated_lines.len() ==> r is Ok && cues_view(r->Ok_0@) == translated_cues(
            cues_view(sources@),
            strings_view(translated_lines@),
        ),
{
    if sources.len() != translated_lines.len() {
        return Err(count_mismatch_exec("Source/translation cue count mismatch: ", sources.len(), translated_lines.len()));
    }
    let mut out: Vec<SubCue> = Vec::new();
    let mut i: usize = 0;
    while i < sources.len()
        invariant
            i <= sources.len() == translated_lines.len(),
            out.len() == i,
            forall|j: int| 0 <= j < i ==> #[trigger] out@[j]@ == translated_cues(cues_view(sources@), strings_view(translated_lines@))[j],
        decreases sources.len() - i,
    {
        let c = &sources[i];
        let t = trim_string(translated_lines[i].as_str());
        out.push(SubCue { index: c.index, start_ms: c.start_ms, end_ms: c.end_ms, text: t });
        i += 1;
    }
    assert(cues_view(out@) =~= translated_cues(cues_view(sources@), strings_view(translated_lines@)));
    Ok(out)
}

pub fn build_bilingual_cues(sources: &Vec<SubCue>, translated_lines: &Vec<String>) -> (r: Result<Vec<SubCue>, String>)
    ensures
        sources.len() != translated_lines.len() ==> r is Err && r->Err_0@ == count_mismatch(
            "Bilingual cue count mismatch: "@,
            sources.len() as nat,
            translated_lines.len() as nat,
        ),
        sources.len() == translated_lines.len() ==> r is Ok && cues_view(r->Ok_0@) == bilingual_cues(
            cues_view(sources@),
            strings_view(translated_lines@),
        ),
{
    if sources.len() != translated_lines.len() {
        return Err(count_mismatch_exec("Bilingual cue count mismatch: ", sources.len(), translated_lines.len()));
    }
    let mut out: Vec<SubCue> = Vec::new();
    let mut i: usize = 0;
    while i < sources.len()
        invariant
            i <= sources.len() == translated_lines.len(),
            out.len() == i,
            forall|j: int| 0 <= j < i ==> #[trigger] out@[j]@ == bilingual_cues(cues_view(sources@), strings_view(translated_lines@))[j],
        decreases sources.len() - i,
    {
        let c = &sources[i];
        let tv = chars_of(translated_lines[i].as_str());
        let mut text = trim_vec(&tv, CharClass::Whitespace);
        text.push('\n');
        let sv = chars_of(c.text.as_str());
        let st = trim_vec(&sv, CharClass::Whitespace);
        append_chars(&mut text, &st);
        assert(text@ =~= trim(translated_lines@[i as int]@) + seq!['\n'] + trim(c.text@));
        assert(strings_view(translated_lines@)[i as int] == translated_lines@[i as int]@);
        assert(cues_view(sources@)[i as int] == c@);
        out.push(SubCue { index: c.index, start_ms: c.start_ms, end_ms: c.end_ms, text: string_of(&text) });
        i += 1;
    }
    assert(cues_view(out@) =~= bilingual_cues(cues_view(sources@), strings_view(translated_lines@)));
    Ok(out)
}

/// Whether the pair (`prev_s`, `prev_t`) absorbs the next source cue and its
/// trimmed translation when building a bilingual file.
pub open spec fn bilingual_absorbs(prev_s: CueView, prev_t: Seq<char>, source: CueView, cur_t: Seq<char>) -> bool {
    !ends_with_terminal(prev_s.text) && can_merge_texts(
        prev_s,
        source,
        TARGET_MERGE_MAX_DURATION_MS as int,
        BILINGUAL_SOURCE_MERGE_MAX_CHARS as int,
    ) && visible_len(join_texts(prev_t, cur_t)) <= BILINGUAL_TARGET_MERGE_MAX_CHARS && (is_source_fragment(prev_s)
        || is_source_fragment(source) || is_target_fragment(
        CueView { index: prev_s.index, start_ms: prev_s.start_ms, end_ms: prev_s.end_ms, text: prev_t },
    ) || is_target_fragment(
        CueView { index: source.index, start_ms: source.start_ms, end_ms: source.end_ms, text: cur_t },
    ))
}

/// The merged sources and translations after the first `n` pairs.
pub open spec fn bilingual_merge(sources: Seq<CueView>, targets: Seq<Seq<char>>, n: int) -> (Seq<CueView>, Seq<Seq<char>>)
    decreases n,
{
    if n <= 0 || n > sources.len() || n > targets.len() {
        (seq![], seq![])
    } else {
        let (ms, mt) = bilingual_merge(sources, targets, n - 1);
        let source = sources[n - 1];
        let cur_t = trim(targets[n - 1]);
        if ms.len() > 0 && mt.len() > 0 && bilingual_absorbs(ms.last(), mt.last(), source, cur_t) {
            let prev = ms.last();
            (
                ms.update(
                    ms.len() - 1,
                    CueView { index: prev.index, start_ms: prev.start_ms, end_ms: source.end_ms, text: join_texts(prev.text, source.text) },
                ),
                mt.update(mt.len() - 1, join_texts(mt.last(), cur_t)),
            )
        } else {
            (ms.push(source), mt.push(cur_t))
        }
    }
}

pub proof fn lemma_bilingual_merge_len(sources: Seq<CueView>, targets: Seq<Seq<char>>, n: int)
    ensures
        bilingual_merge(sources, targets, n).0.len() == bilingual_merge(sources, targets, n).1.len(),
    decreases n,
{
    if n > 0 && n <= sources.len() && n <= targets.len() {
        lemma_bilingual_merge_len(sources, targets, n - 1);
    }
}

/// What `build_bilingual_cues_optimized` returns for lists of equal length.
pub open spec fn bilingual_optimized(sources: Seq<CueView>, targets: Seq<Seq<char>>) -> Seq<CueView> {
    let (ms, mt) = bilingual_merge(sources, targets, sources.len() as int);
    renumbered(bilingual_cues(ms, mt))
}

pub fn build_bilingual_cues_optimized(sources: &Vec<SubCue>, translated_lines: &Vec<String>) -> (r: Result<Vec<SubCue>, String>)
    ensures
        sources.len() != translated_lines.len() ==> r is Err && r->Err_0@ == count_mismatch(
            "Bilingual cue count mismatch: "@,
            sources.len() as nat,
            translated_lines.len() as nat,
        ),
        sources.len() == translated_lines.len() ==> r is Ok && cues_view(r->Ok_0@) == bilingual_optimized(
            cues_view(sources@),
            strings_view(translated_lines@),
        ),
{
    if sources.len() != translated_lines.len() {
        return Err(count_mismatch_exec("Bilingual cue count mismatch: ", sources.len(), translated_lines.len()));
    }
    let ghost sv = cues_view(sources@);
    let ghost tv = strings_view(translated_lines@);
    let mut merged_sources: Vec<SubCue> = Vec::new();
    let mut merged_targets: Vec<String> = Vec::new();
    let mut i: usize = 0;
    while i < sources.len()
        invariant
            i <= sources.len() == translated_lines.len(),
            sv == cues_view(sources@),
            tv == strings_view(translated_lines@),
            merged_sources.len() == merged_targets.len(),
            (cues_view(merged_sources@), strings_view(merged_targets@)) == bilingual_merge(sv, tv, i as int),
        decreases sources.len() - i,
    {
        let source = clone_cue(&sources[i]);
        assert(sv[i as int] == source@);
        let current_target = trim_string(translated_lines[i].as_str());
        assert(tv[i as int] == translated_lines@[i as int]@);
        let n = merged_sources.len();
        let ghost ms = cues_view(merged_sources@);
        let ghost mt = strings_view(merged_targets@);
        if n > 0 {
            let prev_target = &merged_targets[n - 1];
            assert(ms.last() == merged_sources@[n - 1]@);
            assert(mt.last() == merged_targets@[n - 1]@);
            let prev_source_text = chars_of(merged_sources[n - 1].text.as_str());
            let pt = chars_of(prev_target.as_str());
            let ct = chars_of(current_target.as_str());
            let joined_t = join_texts_vec(&pt, &ct);
            let prev_target_cue = SubCue {
                index: merged_sources[n - 1].index,
                start_ms: merged_sources[n - 1].start_ms,
                end_ms: merged_sources[n - 1].end_ms,
                text: prev_target.clone(),
            };
            let current_target_cue = SubCue {
                index: source.index,
                start_ms: source.start_ms,
                end_ms: source.end_ms,
                text: current_target.clone(),
            };
            let should_merge = !ends_with_terminal_exec(&prev_source_text) && can_merge_texts_exec(
                &merged_sources[n - 1],
                &source,
                TARGET_MERGE_MAX_DURATION_MS,
                BILINGUAL_SOURCE_MERGE_MAX_CHARS,
            ) && visible_len_exec(&joined_t) <= BILINGUAL_TARGET_MERGE_MAX_CHARS && (is_source_fragment_exec(
                &merged_sources[n - 1],
            ) || is_source_fragment_exec(&source) || is_target_fragment_exec(&prev_target_cue)
                || is_target_fragment_exec(&current_target_cue));
            if should_merge {
                let mut prev_source = merged_sources.pop().unwrap();
                let st = chars_of(source.text.as_str());
                let js = join_texts_vec(&prev_source_text, &st);
                prev_source.end_ms = source.end_ms;
                prev_source.text = string_of(&js);
                merged_sources.push(prev_source);
                merged_targets.pop();
                merged_targets.push(string_of(&joined_t));
                assert(cues_view(merged_sources@) =~= bilingual_merge(sv, tv, i + 1).0);
                assert(strings_view(merged_targets@) =~= bilingual_merge(sv, tv, i + 1).1);
                i += 1;
                continue;
            }
        }
        merged_sources.push(source);
        merged_targets.push(current_target);
        assert(cues_view(merged_sources@) =~= bilingual_merge(sv, tv, i + 1).0);
        assert(strings_view(merged_targets@) =~= bilingual_merge(sv, tv, i + 1).1);
        i += 1;
    }
    let res = build_bilingual_cues(&merged_sources, &merged_targets);
    match res {
        Ok(mut bilingual) => {
            renumber(&mut bilingual);
            Ok(bilingual)
        },
        Err(e) => Err(e),
    }
}


// ---------------------------------------------------------------------------
// Parsing
// ---------------------------------------------------------------------------

/// `s` without carriage returns (`s.replace('\r', "")`).
pub open spec fn drop_cr(s: Seq<char>) -> Seq<char>
    decreases s.len(),
{
    if s.len() == 0 {
        s
    } else if s.last() == '\r' {
        drop_cr(s.drop_last())
    } else {
        drop_cr(s.drop_last()).push(s.last())
    }
}

fn drop_cr_exec(v: &Vec<char>) -> (r: Vec<char>)
    ensures
        r@ == drop_cr(v@),
{
    let mut out: Vec<char> = Vec::new();
    let mut i: usize = 0;
    while i < v.len()
        invariant
            i <= v.len(),
            out@ == drop_cr(v@.subrange(0, i as int)),
        decreases v.len() - i,
    {
        let ghost pre = v@.subrange(0, i + 1);
        assert(pre.drop_last() =~= v@.subrange(0, i as int));
        if v[i] != '\r' {
            out.push(v[i]);
        }
        i += 1;
    }
    assert(v@.subrange(0, v.len() as int) =~= v@);
    out
}

/// The trimmed, non-empty lines of `s[..]` that precede piece `n`.
pub open spec fn kept_lines(pieces: Seq<Seq<char>>, n: int) -> Seq<Seq<char>>
    decreases n,
{
    if n <= 0 || n > pieces.len() {
        seq![]
    } else if trim(pieces[n - 1]).len() == 0 {
        kept_lines(pieces, n - 1)
    } else {
        kept_lines(pieces, n - 1).push(trim(pieces[n - 1]))
    }
}

/// `block.lines().map(str::trim).filter(|l| !l.is_empty())`.
pub open spec fn block_lines(block: Seq<char>) -> Seq<Seq<char>> {
    let pieces = split(block, seq!['\n']);
    kept_lines(pieces, pieces.len() as int)
}

/// `lines.join("\n")`.
pub open spec fn join_lines(lines: Seq<Seq<char>>) -> Seq<char>
    decreases lines.len(),
{
    if lines.len() == 0 {
        seq![]
    } else if lines.len() == 1 {
        lines[0]
    } else {
        join_lines(lines.drop_last()) + seq!['\n'] + lines.last()
    }
}

/// Whether an intermediate value fits in `i64`.
pub open spec fn fits_i64(x: int) -> bool {
    i64::MIN <= x <= i64::MAX
}

/// `((h * 60 + m) * 60 + s) * 1000 + ms`, when no step leaves `i64`.
pub open spec fn ts_value(h: int, m: int, s: int, ms: int) -> Option<int> {
    let a = h * 60;
    let b = a + m;
    let c = b * 60;
    let d = c + s;
    let e = d * 1000;
    let f = e + ms;
    if fits_i64(a) && fits_i64(b) && fits_i64(c) && fits_i64(d) && fits_i64(e) && fits_i64(f) {
        Some(f)
    } else {
        None
    }
}

pub open spec fn parse_i64_spec(s: Seq<char>) -> Option<int> {
    parse_signed(s, i64::MIN as int, i64::MAX as int)
}

/// A time stamp `H:M:S,ms` (or `H:M:S.ms`) in milliseconds. Extra `:`
/// fields after the third are ignored, as `split(':')` with three `next()`s
/// does.
pub open spec fn parse_ts(part: Seq<char>) -> Option<int> {
    let p = trim(part);
    let k = if has_char(p, ',') {
        find_char_from(p, ',', 0)
    } else if has_char(p, '.') {
        find_char_from(p, '.', 0)
    } else {
        -1
    };
    if k < 0 {
        None
    } else {
        let fields = split(p.subrange(0, k), seq![':']);
        if fields.len() < 3 {
            None
        } else {
            match (
                parse_i64_spec(fields[0]),
                parse_i64_spec(fields[1]),
                parse_i64_spec(fields[2]),
                parse_i64_spec(trim(p.subrange(k + 1, p.len() as int))),
            ) {
                (Some(h), Some(m), Some(s), Some(ms)) => ts_value(h, m, s, ms),
                _ => None,
            }
        }
    }
}

/// `start --> end`, the end being the first word after the arrow.
pub open spec fn parse_time_line(line: Seq<char>) -> Option<(int, int)> {
    let k = find_from(line, "-->"@, 0);
    if k < 0 {
        None
    } else {
        let rest = line.subrange(k + 3, line.len() as int);
        let a = scan_fwd(rest, CharClass::Whitespace, 0);
        if a >= rest.len() {
            None
        } else {
            let word = rest.subrange(a, scan_fwd(rest, CharClass::NonWhitespace, a));
            match (parse_ts(line.subrange(0, k)), parse_ts(word)) {
                (Some(s), Some(e)) => Some((s, e)),
                _ => None,
            }
        }
    }
}

/// One block: `None` when it has fewer than two non-blank lines, else the
/// cue or the error for its index or time line.
pub open spec fn parse_block(block: Seq<char>) -> Result<Option<CueView>, Seq<char>> {
    let lines = block_lines(block);
    if lines.len() < 2 {
        Ok(None)
    } else {
        match parse_unsigned(lines[0], u32::MAX as int) {
            None => Err("Invalid cue index: "@ + lines[0]),
            Some(idx) => match parse_time_line(lines[1]) {
                None => Err("Invalid time line: "@ + lines[1]),
                Some((start, end)) => Ok(
                    Some(
                        CueView {
                            index: idx as u32,
                            start_ms: start as i64,
                            end_ms: end as i64,
                            text: join_lines(lines.subrange(2, lines.len() as int)),
                        },
                    ),
                ),
            },
        }
    }
}

/// The cues of blocks `blocks[..n]`, or the first error.
pub open spec fn parse_blocks(blocks: Seq<Seq<char>>, n: int) -> Result<Seq<CueView>, Seq<char>>
    decreases n,
{
    if n <= 0 || n > blocks.len() {
        Ok(seq![])
    } else {
        match parse_blocks(blocks, n - 1) {
            Err(e) => Err(e),
            Ok(cues) => match parse_block(blocks[n - 1]) {
                Err(e) => Err(e),
                Ok(None) => Ok(cues),
                Ok(Some(c)) => Ok(cues.push(c)),
            },
        }
    }
}

/// What `parse_srt` returns: blocks are separated by blank lines, a block
/// with fewer than two non-blank lines is skipped, the others must start with
/// an index line and a time line.
pub open spec fn parse_srt_spec(raw: Seq<char>) -> Result<Seq<CueView>, Seq<char>> {
    let blocks = split(drop_cr(raw), seq!['\n', '\n']);
    match parse_blocks(blocks, blocks.len() as int) {
        Err(e) => Err(e),
        Ok(cues) => if cues.len() == 0 {
            Err("No subtitle cues found"@)
        } else {
            Ok(cues)
        },
    }
}

fn parse_i64_vec(v: &Vec<char>) -> (r: Option<i64>)
    ensures
        match r {
            Some(x) => parse_i64_spec(v@) == Some(x as int),
            None => parse_i64_spec(v@) is None,
        },
{
    let s = string_of(v);
    parse_i64(s.as_str())
}

fn ts_value_exec(h: i64, m: i64, s: i64, ms: i64) -> (r: Option<i64>)
    ensures
        match r {
            Some(x) => ts_value(h as int, m as int, s as int, ms as int) == Some(x as int),
            None => ts_value(h as int, m as int, s as int, ms as int) is None,
        },
{
    let lo: i128 = i64::MIN as i128;
    let hi: i128 = i64::MAX as i128;
    let a: i128 = h as i128 * 60;
    if a < lo || a > hi {
        return None;
    }
    let b: i128 = a + m as i128;
    if b < lo || b > hi {
        return None;
    }
    let c: i128 = b * 60;
    if c < lo || c > hi {
        return None;
    }
    let d: i128 = c + s as i128;
    if d < lo || d > hi {
        return None;
    }
    let e: i128 = d * 1000;
    if e < lo || e > hi {
        return None;
    }
    let f: i128 = e + ms as i128;
    if f < lo || f > hi {
        return None;
    }
    Some(f as i64)
}

fn parse_ts_exec(part: &Vec<char>) -> (r: Option<i64>)
    ensures
        match r {
            Some(x) => parse_ts(part@) == Some(x as int),
            None => parse_ts(part@) is None,
        },
{
    let p = trim_vec(part, CharClass::Whitespace);
    let comma = find_char_from_exec(&p, ',', 0);
    let dot = find_char_from_exec(&p, '.', 0);
    let k = if comma < p.len() {
        comma
    } else if dot < p.len() {
        dot
    } else {
        return None;
    };
    let hms = sub_vec(&p, 0, k);
    let colon = vec![':'];
    assert(colon@ =~= seq![':']);
    let fields = split_exec(&hms, &colon);
    let ghost fv = fields@.map_values(|x: Vec<char>| x@);
    if fields.len() < 3 {
        return None;
    }
    assert(fv[0] == fields@[0]@ && fv[1] == fields@[1]@ && fv[2] == fields@[2]@);
    let msv = sub_vec(&p, k + 1, p.len());
    let ms_t = trim_vec(&msv, CharClass::Whitespace);
    let h = parse_i64_vec(&fields[0]);
    let m = parse_i64_vec(&fields[1]);
    let s = parse_i64_vec(&fields[2]);
    let ms = parse_i64_vec(&ms_t);
    match (h, m, s, ms) {
        (Some(h), Some(m), Some(s), Some(ms)) => ts_value_exec(h, m, s, ms),
        _ => None,
    }
}

fn parse_time_line_exec(line: &Vec<char>) -> (r: Option<(i64, i64)>)
    ensures
        match r {
            Some((a, b)) => parse_time_line(line@) == Some((a as int, b as int)),
            None => parse_time_line(line@) is None,
        },
{
    let arrow = chars_of("-->");
    let k = match find_from_exec(line, &arrow, 0) {
        Some(k) => k,
        None => return None,
    };
    proof {
        lemma_find_from(line@, arrow@, 0);
        reveal_strlit("-->");
        assert(arrow@.len() == 3);
        assert(matches_at(line@, arrow@, k as int));
    }
    assert(k + 3 <= line.len());
    let rest = sub_vec(line, k + 3, line.len());
    let a = scan_fwd_exec(&rest, CharClass::Whitespace, 0);
    if a >= rest.len() {
        return None;
    }
    let b = scan_fwd_exec(&rest, CharClass::NonWhitespace, a);
    let word = sub_vec(&rest, a, b);
    let head = sub_vec(line, 0, k);
    match (parse_ts_exec(&head), parse_ts_exec(&word)) {
        (Some(s), Some(e)) => Some((s, e)),
        _ => None,
    }
}

fn block_lines_exec(block: &Vec<char>) -> (r: Vec<Vec<char>>)
    ensures
        r@.map_values(|x: Vec<char>| x@) == block_lines(block@),
{
    let nl = vec!['\n'];
    assert(nl@ =~= seq!['\n']);
    let pieces = split_exec(block, &nl);
    let ghost pv = pieces@.map_values(|x: Vec<char>| x@);
    let mut out: Vec<Vec<char>> = Vec::new();
    let mut i: usize = 0;
    while i < pieces.len()
        invariant
            i <= pieces.len(),
            pv == pieces@.map_values(|x: Vec<char>| x@),
            out@.map_values(|x: Vec<char>| x@) == kept_lines(pv, i as int),
        decreases pieces.len() - i,
    {
        let t = trim_vec(&pieces[i], CharClass::Whitespace);
        assert(pv[i as int] == pieces@[i as int]@);
        if t.len() > 0 {
            let ghost before = out@.map_values(|x: Vec<char>| x@);
            out.push(t);
            assert(out@.map_values(|x: Vec<char>| x@) =~= before.push(t@));
        }
        i += 1;
    }
    out
}

fn join_lines_from(lines: &Vec<Vec<char>>, start: usize) -> (r: Vec<char>)
    requires
        start <= lines.len(),
    ensures
        r@ == join_lines(lines@.map_values(|x: Vec<char>| x@).subrange(start as int, lines.len() as int)),
{
    let ghost lv = lines@.map_values(|x: Vec<char>| x@);
    let mut out: Vec<char> = Vec::new();
    let mut i: usize = start;
    while i < lines.len()
        invariant
            start <= i <= lines.len(),
            lv == lines@.map_values(|x: Vec<char>| x@),
            out@ == join_lines(lv.subrange(start as int, i as int)),
        decreases lines.len() - i,
    {
        let ghost sub = lv.subrange(start as int, i + 1);
        assert(sub.drop_last() =~= lv.subrange(start as int, i as int));
        assert(sub.last() == lines@[i as int]@);
        if i > start {
            out.push('\n');
        } else {
            assert(sub.len() == 1);
        }
        append_chars(&mut out, &lines[i]);
        if i == start {
            assert(out@ =~= sub[0]);
        }
        i += 1;
    }
    out
}

fn parse_block_exec(block: &Vec<char>) -> (r: Result<Option<SubCue>, String>)
    ensures
        match r {
            Ok(None) => parse_block(block@) == Ok::<Option<CueView>, Seq<char>>(None),
            Ok(Some(c)) => parse_block(block@) == Ok::<Option<CueView>, Seq<char>>(Some(c@)),
            Err(e) => parse_block(block@) == Err::<Option<CueView>, Seq<char>>(e@),
        },
{
    let lines = block_lines_exec(block);
    let ghost lv = lines@.map_values(|x: Vec<char>| x@);
    if lines.len() < 2 {
        return Ok(None);
    }
    assert(lv[0] == lines@[0]@ && lv[1] == lines@[1]@);
    let first = string_of(&lines[0]);
    let idx = match parse_u32(first.as_str()) {
        Some(x) => x,
        None => {
            let mut msg = chars_of("Invalid cue index: ");
            append_chars(&mut msg, &lines[0]);
            return Err(string_of(&msg));
        },
    };
    let (start, end) = match parse_time_line_exec(&lines[1]) {
        Some(p) => p,
        None => {
            let mut msg = chars_of("Invalid time line: ");
            append_chars(&mut msg, &lines[1]);
            return Err(string_of(&msg));
        },
    };
    let text = join_lines_from(&lines, 2);
    Ok(Some(SubCue { index: idx, start_ms: start, end_ms: end, text: string_of(&text) }))
}

pub fn parse_srt(raw: &str) -> (r: Result<Vec<SubCue>, String>)
    ensures
        match r {
            Ok(cues) => parse_srt_spec(raw@) == Ok::<Seq<CueView>, Seq<char>>(cues_view(cues@)),
            Err(e) => parse_srt_spec(raw@) == Err::<Seq<CueView>, Seq<char>>(e@),
        },
{
    let rv = chars_of(raw);
    let normalized = drop_cr_exec(&rv);
    let sep = vec!['\n', '\n'];
    assert(sep@ =~= seq!['\n', '\n']);
    let blocks = split_exec(&normalized, &sep);
    let ghost bv = blocks@.map_values(|x: Vec<char>| x@);
    assert(bv == split(drop_cr(raw@), seq!['\n', '\n']));
    let mut out: Vec<SubCue> = Vec::new();
    assert(cues_view(out@) =~= seq![]);
    let mut i: usize = 0;
    while i < blocks.len()
        invariant
            i <= blocks.len(),
            bv == blocks@.map_values(|x: Vec<char>| x@),
            bv == split(drop_cr(raw@), seq!['\n', '\n']),
            parse_blocks(bv, i as int) == Ok::<Seq<CueView>, Seq<char>>(cues_view(out@)),
        decreases blocks.len() - i,
    {
        assert(bv[i as int] == blocks@[i as int]@);
        match parse_block_exec(&blocks[i]) {
            Err(e) => {
                proof {
                    assert(parse_blocks(bv, i + 1) == Err::<Seq<CueView>, Seq<char>>(e@));
                    lemma_parse_blocks_err(bv, i + 1, e@);
                }
                return Err(e);
            },
            Ok(None) => {},
            Ok(Some(c)) => {
                let ghost before = cues_view(out@);
                out.push(c);
                assert(cues_view(out@) =~= before.push(out@[out.len() - 1]@));
            },
        }
        i += 1;
    }
    if out.len() == 0 {
        return Err(String::from_str("No subtitle cues found"));
    }
    Ok(out)
}

/// Once a block fails, every longer prefix fails with the same error.
pub proof fn lemma_parse_blocks_err(blocks: Seq<Seq<char>>, n: int, e: Seq<char>)
    requires
        0 <= n <= blocks.len(),
        parse_blocks(blocks, n) == Err::<Seq<CueView>, Seq<char>>(e),
    ensures
        parse_blocks(blocks, blocks.len() as int) == Err::<Seq<CueView>, Seq<char>>(e),
    decreases blocks.len() - n,
{
    if n < blocks.len() {
        assert(parse_blocks(blocks, n + 1) == Err::<Seq<CueView>, Seq<char>>(e));
        lemma_parse_blocks_err(blocks, n + 1, e);
    }
}

} // verus!
