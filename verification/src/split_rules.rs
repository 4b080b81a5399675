//! Splitting subtitle text at safe word boundaries: tokenization, boundary
//! points, the choice of cut points and the split itself.
use vstd::prelude::*;

use crate::srt::strings_view;
use crate::text::{
    alphanumeric, char_is_alphanumeric, char_is_whitespace, chars_of, has_char, has_char_exec,
    lemma_scan_back_bounds, lemma_scan_fwd_bounds, normalize_ws, normalize_ws_vec, scan_back,
    scan_back_exec, scan_fwd, scan_fwd_exec, string_of, sub_vec, white_space, CharClass,
};

verus! {

#[derive(Debug, Clone, Copy, PartialEq, Eq, Structural)]
pub enum TokenKind {
    Word,
    Space,
    Punct,
}

/// A token `chars[start_char..end_char]` of a text.
#[derive(Debug, Clone, Copy)]
pub struct TokenSpan {
    pub start_char: usize,
    pub end_char: usize,
    pub kind: TokenKind,
}

/// A position where a text may be cut, and whether it follows a pause.
#[derive(Debug, Clone, Copy)]
pub struct BoundaryPoint {
    pub char_pos: usize,
    pub strong: bool,
}

pub open spec fn word_core(c: char) -> bool {
    alphanumeric(c) || c == '_'
}

fn is_word_core(c: char) -> (r: bool)
    ensures
        r == word_core(c),
{
    char_is_alphanumeric(c) || c == '_'
}

/// An apostrophe, hyphen, dot or underscore between two word characters.
pub open spec fn connector_at(s: Seq<char>, i: int) -> bool {
    0 < i && i + 1 < s.len() && (s[i] == '\'' || s[i] == '’' || s[i] == '-' || s[i] == '.' || s[i] == '_')
        && word_core(s[i - 1]) && word_core(s[i + 1])
}

fn is_word_connector_at(v: &Vec<char>, i: usize) -> (r: bool)
    requires
        i < v.len(),
    ensures
        r == connector_at(v@, i as int),
{
    let c = v[i];
    if !(c == '\'' || c == '’' || c == '-' || c == '.' || c == '_') {
        return false;
    }
    if i == 0 || i + 1 >= v.len() {
        return false;
    }
    is_word_core(v[i - 1]) && is_word_core(v[i + 1])
}

/// The end of a word that continues from `j`.
pub open spec fn word_run_end(s: Seq<char>, j: int) -> int
    decreases s.len() - j,
{
    if 0 <= j < s.len() && (word_core(s[j]) || connector_at(s, j)) {
        word_run_end(s, j + 1)
    } else {
        j
    }
}

proof fn lemma_word_run_end(s: Seq<char>, j: int)
    requires
        0 <= j <= s.len(),
    ensures
        j <= word_run_end(s, j) <= s.len(),
    decreases s.len() - j,
{
    if j < s.len() && (word_core(s[j]) || connector_at(s, j)) {
        lemma_word_run_end(s, j + 1);
    }
}

/// The token that starts at `i`: a run of whitespace, a word, or a single
/// other character.
pub open spec fn token_at(s: Seq<char>, i: int) -> TokenSpan {
    if white_space(s[i]) {
        TokenSpan { start_char: i as usize, end_char: scan_fwd(s, CharClass::Whitespace, i + 1) as usize, kind: TokenKind::Space }
    } else if word_core(s[i]) {
        TokenSpan { start_char: i as usize, end_char: word_run_end(s, i + 1) as usize, kind: TokenKind::Word }
    } else {
        TokenSpan { start_char: i as usize, end_char: (i + 1) as usize, kind: TokenKind::Punct }
    }
}

pub proof fn lemma_token_at(s: Seq<char>, i: int)
    requires
        0 <= i < s.len() <= usize::MAX,
    ensures
        token_at(s, i).start_char == i,
        i < token_at(s, i).end_char <= s.len(),
{
    lemma_scan_fwd_bounds(s, CharClass::Whitespace, i + 1);
    lemma_word_run_end(s, i + 1);
}

/// The tokens of `s[i..]`.
pub open spec fn tokens_from(s: Seq<char>, i: int) -> Seq<TokenSpan>
    decreases s.len() - i,
{
    if i < 0 || i >= s.len() || s.len() > usize::MAX {
        seq![]
    } else {
        let t = token_at(s, i);
        proof {
            lemma_token_at(s, i);
        }
        seq![t] + tokens_from(s, t.end_char as int)
    }
}

pub open spec fn tokenize(s: Seq<char>) -> Seq<TokenSpan> {
    tokens_from(s, 0)
}

pub fn tokenize_text(v: &Vec<char>) -> (r: Vec<TokenSpan>)
    ensures
        r@ == tokenize(v@),
{
    let mut out: Vec<TokenSpan> = Vec::new();
    let mut i: usize = 0;
    while i < v.len()
        invariant
            i <= v.len(),
            out@ + tokens_from(v@, i as int) == tokenize(v@),
        decreases v.len() - i,
    {
        proof {
            lemma_token_at(v@, i as int);
        }
        let start = i;
        let c = v[i];
        let tok = if char_is_whitespace(c) {
            let e = scan_fwd_exec(v, CharClass::Whitespace, i + 1);
            TokenSpan { start_char: start, end_char: e, kind: TokenKind::Space }
        } else if is_word_core(c) {
            let mut j: usize = i + 1;
            while j < v.len() && (is_word_core(v[j]) || is_word_connector_at(v, j))
                invariant
                    i < j <= v.len(),
                    word_run_end(v@, j as int) == word_run_end(v@, i + 1),
                decreases v.len() - j,
            {
                j += 1;
            }
            TokenSpan { start_char: start, end_char: j, kind: TokenKind::Word }
        } else {
            TokenSpan { start_char: start, end_char: i + 1, kind: TokenKind::Punct }
        };
        assert(tok == token_at(v@, i as int));
        let ghost before = out@;
        out.push(tok);
        assert(tokens_from(v@, i as int) == seq![tok] + tokens_from(v@, tok.end_char as int));
        assert(before + tokens_from(v@, i as int) =~= out@ + tokens_from(v@, tok.end_char as int));
        i = tok.end_char;
    }
    assert(out@ =~= tokenize(v@));
    out
}

pub open spec fn is_pause_punct(c: char) -> bool {
    c == ',' || c == '.' || c == '!' || c == '?' || c == ';' || c == ':'
}

/// Whether the last non-whitespace character of `text` is pause punctuation.
pub open spec fn has_pause_punct(text: Seq<char>) -> bool {
    let b = scan_back(text, CharClass::Whitespace, 0, text.len() as int);
    b > 0 && is_pause_punct(text[b - 1])
}

fn has_pause_punct_exec(v: &Vec<char>) -> (r: bool)
    ensures
        r == has_pause_punct(v@),
{
    let b = scan_back_exec(v, CharClass::Whitespace, 0, v.len());
    if b == 0 {
        return false;
    }
    let c = v[b - 1];
    c == ',' || c == '.' || c == '!' || c == '?' || c == ';' || c == ':'
}

pub open spec fn token_text(s: Seq<char>, t: TokenSpan) -> Seq<char> {
    s.subrange(t.start_char as int, t.end_char as int)
}

/// Whether a cut may fall between two tokens.
pub open spec fn can_split_between(prev: TokenSpan, next: TokenSpan) -> bool {
    prev.kind == TokenKind::Space || prev.kind == TokenKind::Punct || next.kind == TokenKind::Space
}

/// Whether the boundary before token `idx` follows a line break or pause
/// punctuation (possibly before a space).
pub open spec fn boundary_is_strong(s: Seq<char>, toks: Seq<TokenSpan>, idx: int) -> bool {
    let prev = token_text(s, toks[idx - 1]);
    if has_char(prev, '\n') {
        true
    } else if has_pause_punct(prev) {
        true
    } else if toks[idx - 1].kind == TokenKind::Space && idx >= 2 {
        has_pause_punct(token_text(s, toks[idx - 2]))
    } else {
        false
    }
}

/// Well-formed tokens of `s`: in bounds.
pub open spec fn tokens_in_bounds(s: Seq<char>, toks: Seq<TokenSpan>) -> bool {
    forall|k: int| 0 <= k < toks.len() ==> #[trigger] toks[k].start_char <= toks[k].end_char <= s.len()
}

proof fn lemma_tokens_in_bounds(s: Seq<char>, i: int)
    requires
        0 <= i,
    ensures
        tokens_in_bounds(s, tokens_from(s, i)),
    decreases s.len() - i,
{
    if i < s.len() && s.len() <= usize::MAX {
        lemma_token_at(s, i);
        let t = token_at(s, i);
        lemma_tokens_in_bounds(s, t.end_char as int);
        let rest = tokens_from(s, t.end_char as int);
        assert forall|k: int| 0 <= k < tokens_from(s, i).len() implies #[trigger] tokens_from(s, i)[k].start_char
            <= tokens_from(s, i)[k].end_char <= s.len() by {
            if k > 0 {
                assert(tokens_from(s, i)[k] == rest[k - 1]);
            }
        }
    }
}

fn boundary_is_strong_exec(v: &Vec<char>, toks: &Vec<TokenSpan>, idx: usize) -> (r: bool)
    requires
        1 <= idx < toks.len(),
        tokens_in_bounds(v@, toks@),
    ensures
        r == boundary_is_strong(v@, toks@, idx as int),
{
    let p = toks[idx - 1];
    let prev = sub_vec(v, p.start_char, p.end_char);
    if has_char_exec(&prev, '\n') {
        return true;
    }
    if has_pause_punct_exec(&prev) {
        return true;
    }
    if p.kind == TokenKind::Space && idx >= 2 {
        let q = toks[idx - 2];
        let before = sub_vec(v, q.start_char, q.end_char);
        return has_pause_punct_exec(&before);
    }
    false
}

/// The boundary points found among tokens `1..n`.
pub open spec fn boundaries_upto(s: Seq<char>, toks: Seq<TokenSpan>, n: int) -> Seq<BoundaryPoint>
    decreases n,
{
    if n <= 1 || n > toks.len() {
        seq![]
    } else {
        let out = boundaries_upto(s, toks, n - 1);
        let prev = toks[n - 2];
        let next = toks[n - 1];
        if !can_split_between(prev, next) {
            out
        } else if out.len() > 0 && out.last().char_pos == next.start_char {
            out
        } else {
            out.push(BoundaryPoint { char_pos: next.start_char, strong: boundary_is_strong(s, toks, n - 1) })
        }
    }
}

/// Every position between two tokens where a cut keeps words whole.
pub open spec fn build_boundaries(s: Seq<char>) -> Seq<BoundaryPoint> {
    let toks = tokenize(s);
    if toks.len() < 2 {
        seq![]
    } else {
        boundaries_upto(s, toks, toks.len() as int)
    }
}

pub fn build_boundaries_exec(v: &Vec<char>) -> (r: Vec<BoundaryPoint>)
    ensures
        r@ == build_boundaries(v@),
{
    let toks = tokenize_text(v);
    proof {
        lemma_tokens_in_bounds(v@, 0);
    }
    if toks.len() < 2 {
        return Vec::new();
    }
    let mut out: Vec<BoundaryPoint> = Vec::new();
    let mut idx: usize = 1;
    while idx < toks.len()
        invariant
            1 <= idx <= toks.len(),
            toks@ == tokenize(v@),
            tokens_in_bounds(v@, toks@),
            out@ == boundaries_upto(v@, toks@, idx as int),
        decreases toks.len() - idx,
    {
        let prev = toks[idx - 1];
        let next = toks[idx];
        let split_ok = prev.kind == TokenKind::Space || prev.kind == TokenKind::Punct || next.kind == TokenKind::Space;
        if split_ok {
            let strong = boundary_is_strong_exec(v, &toks, idx);
            let dup = out.len() > 0 && out[out.len() - 1].char_pos == next.start_char;
            if !dup {
                out.push(BoundaryPoint { char_pos: next.start_char, strong });
            }
        }
        idx += 1;
    }
    out
}

// ---------------------------------------------------------------------------
// Choosing cut points
// ---------------------------------------------------------------------------

pub open spec fn sat_usize(x: int) -> int {
    if x > usize::MAX {
        usize::MAX as int
    } else {
        x
    }
}

pub open spec fn abs_diff(a: int, b: int) -> int {
    if a >= b {
        a - b
    } else {
        b - a
    }
}

/// The score of a boundary for a target position: four times the distance,
/// plus 8 when it is not after a pause (saturating, as `usize` arithmetic).
pub open spec fn boundary_score(b: BoundaryPoint, target: int) -> int {
    sat_usize(sat_usize(abs_diff(b.char_pos as int, target) * 4) + if b.strong { 0int } else { 8int })
}

/// The first index at or after `i` whose position is after `after`.
pub open spec fn first_after(bs: Seq<BoundaryPoint>, after: int, i: int) -> int
    decreases bs.len() - i,
{
    if 0 <= i < bs.len() && bs[i].char_pos <= after {
        first_after(bs, after, i + 1)
    } else {
        i
    }
}

/// The best (first lowest-scoring) boundary among `bs[lo..j]`.
pub open spec fn best_in(bs: Seq<BoundaryPoint>, target: int, lo: int, j: int) -> Option<(usize, int)>
    decreases j - lo,
{
    if j <= lo {
        None
    } else {
        let prev = best_in(bs, target, lo, j - 1);
        let b = bs[j - 1];
        let sc = boundary_score(b, target);
        match prev {
            None => Some((b.char_pos, sc)),
            Some((p, s)) => if sc < s {
                Some((b.char_pos, sc))
            } else {
                prev
            },
        }
    }
}

/// The boundary after `after` nearest to `target`, keeping `reserve_tail`
/// boundaries for later cuts.
pub open spec fn choose_boundary(bs: Seq<BoundaryPoint>, after: int, target: int, reserve_tail: int) -> Option<usize> {
    let start = first_after(bs, after, 0);
    let end = if bs.len() >= reserve_tail { bs.len() - reserve_tail } else { 0 };
    if start >= end {
        None
    } else {
        match best_in(bs, target, start, end) {
            Some((p, _)) => Some(p),
            None => None,
        }
    }
}

proof fn lemma_first_after(bs: Seq<BoundaryPoint>, after: int, i: int)
    requires
        0 <= i <= bs.len(),
    ensures
        i <= first_after(bs, after, i) <= bs.len(),
    decreases bs.len() - i,
{
    if i < bs.len() && bs[i].char_pos <= after {
        lemma_first_after(bs, after, i + 1);
    }
}

proof fn lemma_first_after_split(bs: Seq<BoundaryPoint>, after: int, i: int)
    requires
        0 <= i <= bs.len(),
        forall|a: int, b: int| 0 <= a < b < bs.len() ==> bs[a].char_pos < bs[b].char_pos,
    ensures
        forall|k: int| i <= k < first_after(bs, after, i) ==> bs[k].char_pos <= after,
        forall|k: int| first_after(bs, after, i) <= k < bs.len() ==> bs[k].char_pos > after,
    decreases bs.len() - i,
{
    lemma_first_after(bs, after, i);
    if i < bs.len() && bs[i].char_pos <= after {
        lemma_first_after_split(bs, after, i + 1);
    } else if i < bs.len() {
        assert forall|k: int| first_after(bs, after, i) <= k < bs.len() implies bs[k].char_pos > after by {
            if k > i {
                assert(bs[i].char_pos < bs[k].char_pos);
            }
        }
    }
}

proof fn lemma_best_in(bs: Seq<BoundaryPoint>, target: int, lo: int, j: int)
    requires
        0 <= lo <= j <= bs.len(),
    ensures
        j > lo <==> best_in(bs, target, lo, j) is Some,
        best_in(bs, target, lo, j) matches Some((p, sc)) ==> exists|k: int|
            lo <= k < j && #[trigger] bs[k].char_pos == p && boundary_score(bs[k], target) == sc && (forall|k2: int|
                lo <= k2 < j ==> sc <= #[trigger] boundary_score(bs[k2], target)) && (forall|k2: int|
                lo <= k2 < k ==> sc < #[trigger] boundary_score(bs[k2], target)),
    decreases j - lo,
{
    if j > lo {
        lemma_best_in(bs, target, lo, j - 1);
        let sc = boundary_score(bs[j - 1], target);
        match best_in(bs, target, lo, j - 1) {
            None => {
                assert(bs[j - 1].char_pos == bs[j - 1].char_pos);
            },
            Some((p, s)) => {
                let k = choose|k: int|
                    lo <= k < j - 1 && #[trigger] bs[k].char_pos == p && boundary_score(bs[k], target) == s && (forall|k2: int|
                        lo <= k2 < j - 1 ==> s <= #[trigger] boundary_score(bs[k2], target)) && (forall|k2: int|
                        lo <= k2 < k ==> s < #[trigger] boundary_score(bs[k2], target));
                if sc < s {
                    assert(bs[j - 1].char_pos == bs[j - 1].char_pos);
                } else {
                    assert(bs[k].char_pos == p);
                }
            },
        }
    }
}

/// Among the boundaries after `after` and before the reserved tail (the
/// boundaries in increasing order of position), the one chosen has the
/// lowest score, and is the first with that score; there is none exactly
/// when no boundary is a candidate.
pub proof fn lemma_choose_boundary_best(bs: Seq<BoundaryPoint>, after: int, target: int, reserve_tail: int)
    requires
        reserve_tail >= 0,
        forall|a: int, b: int| 0 <= a < b < bs.len() ==> bs[a].char_pos < bs[b].char_pos,
    ensures
        ({
            let end = if bs.len() >= reserve_tail { bs.len() - reserve_tail } else { 0 };
            &&& choose_boundary(bs, after, target, reserve_tail) is None <==> !exists|k: int|
                0 <= k < end && #[trigger] bs[k].char_pos > after
            &&& choose_boundary(bs, after, target, reserve_tail) matches Some(p) ==> exists|k: int|
                0 <= k < end && bs[k].char_pos > after && #[trigger] bs[k].char_pos == p && (forall|k2: int|
                    0 <= k2 < end && bs[k2].char_pos > after ==> boundary_score(bs[k], target) <= #[trigger] boundary_score(
                        bs[k2],
                        target,
                    )) && (forall|k2: int|
                    0 <= k2 < k && bs[k2].char_pos > after ==> boundary_score(bs[k], target) < #[trigger] boundary_score(
                        bs[k2],
                        target,
                    ))
        }),
{
    let start = first_after(bs, after, 0);
    let end = if bs.len() >= reserve_tail { bs.len() - reserve_tail } else { 0 };
    lemma_first_after_split(bs, after, 0);
    if start < end {
        lemma_best_in(bs, target, start, end);
        assert(bs[start].char_pos > after);
        let (p, sc) = best_in(bs, target, start, end)->Some_0;
        let k = choose|k: int|
            start <= k < end && #[trigger] bs[k].char_pos == p && boundary_score(bs[k], target) == sc && (forall|k2: int|
                start <= k2 < end ==> sc <= #[trigger] boundary_score(bs[k2], target)) && (forall|k2: int|
                start <= k2 < k ==> sc < #[trigger] boundary_score(bs[k2], target));
        assert forall|k2: int|
            0 <= k2 < end && bs[k2].char_pos > after implies boundary_score(bs[k], target) <= #[trigger] boundary_score(
                bs[k2],
                target,
            ) by {
            assert(k2 >= start);
        }
        assert forall|k2: int|
            0 <= k2 < k && bs[k2].char_pos > after implies boundary_score(bs[k], target) < #[trigger] boundary_score(
                bs[k2],
                target,
            ) by {
            assert(k2 >= start);
        }
    } else {
        assert forall|k: int| 0 <= k < end implies !(#[trigger] bs[k].char_pos > after) by {
            assert(k < start);
        }
    }
}

fn boundary_score_exec(b: BoundaryPoint, target: usize) -> (r: u128)
    ensures
        r == boundary_score(b, target as int),
{
    let d: u128 = if b.char_pos >= target { (b.char_pos - target) as u128 } else { (target - b.char_pos) as u128 };
    let mut s: u128 = d * 4;
    if s > usize::MAX as u128 {
        s = usize::MAX as u128;
    }
    let pen: u128 = if b.strong { 0 } else { 8 };
    let mut t: u128 = s + pen;
    if t > usize::MAX as u128 {
        t = usize::MAX as u128;
    }
    t
}

pub fn choose_boundary_exec(bs: &Vec<BoundaryPoint>, after: usize, target: usize, reserve_tail: usize) -> (r: Option<usize>)
    ensures
        r == choose_boundary(bs@, after as int, target as int, reserve_tail as int),
{
    proof {
        lemma_first_after(bs@, after as int, 0);
    }
    let mut start: usize = 0;
    while start < bs.len() && bs[start].char_pos <= after
        invariant
            start <= bs.len(),
            first_after(bs@, after as int, start as int) == first_after(bs@, after as int, 0),
        decreases bs.len() - start,
    {
        start += 1;
    }
    let end: usize = if bs.len() >= reserve_tail { bs.len() - reserve_tail } else { 0 };
    if start >= end {
        return None;
    }
    let mut best: Option<(usize, u128)> = None;
    let mut j: usize = start;
    while j < end
        invariant
            start <= j <= end <= bs.len(),
            match best {
                None => best_in(bs@, target as int, start as int, j as int) is None,
                Some((p, s)) => best_in(bs@, target as int, start as int, j as int) == Some((p, s as int)),
            },
        decreases end - j,
    {
        let b = bs[j];
        let sc = boundary_score_exec(b, target);
        match best {
            None => {
                best = Some((b.char_pos, sc));
            },
            Some((_, s)) => {
                if sc < s {
                    best = Some((b.char_pos, sc));
                }
            },
        }
        j += 1;
    }
    match best {
        Some((p, _)) => Some(p),
        None => None,
    }
}

// ---------------------------------------------------------------------------
// Splitting at cut points
// ---------------------------------------------------------------------------

/// The parts before cut `k`, and where the next part starts.
pub open spec fn safe_split_upto(s: Seq<char>, cuts: Seq<usize>, k: int) -> (Seq<Seq<char>>, int)
    decreases k,
{
    if k <= 0 || k > cuts.len() {
        (seq![], 0)
    } else {
        let (out, start) = safe_split_upto(s, cuts, k - 1);
        let cut = cuts[k - 1] as int;
        if cut <= start || cut >= s.len() {
            (out, start)
        } else {
            let part = normalize_ws(s.subrange(start, cut));
            (if part.len() > 0 { out.push(part) } else { out }, cut)
        }
    }
}

/// The whitespace-normalized, non-empty pieces of `s` between the usable
/// cuts (those after the previous cut and inside the text).
pub open spec fn safe_parts(s: Seq<char>, cuts: Seq<usize>) -> Seq<Seq<char>> {
    let (out, start) = safe_split_upto(s, cuts, cuts.len() as int);
    let tail = normalize_ws(s.subrange(start, s.len() as int));
    if tail.len() > 0 {
        out.push(tail)
    } else {
        out
    }
}

proof fn lemma_safe_split_start(s: Seq<char>, cuts: Seq<usize>, k: int)
    ensures
        0 <= safe_split_upto(s, cuts, k).1 <= s.len(),
    decreases k,
{
    if k > 0 && k <= cuts.len() {
        lemma_safe_split_start(s, cuts, k - 1);
    }
}


pub fn split_by_safe_positions_exec(v: &Vec<char>, cuts: &Vec<usize>) -> (r: Vec<String>)
    ensures
        strings_view(r@) == safe_parts(v@, cuts@),
{
    let mut out: Vec<String> = Vec::new();
    let mut start: usize = 0;
    let mut k: usize = 0;
    while k < cuts.len()
        invariant
            k <= cuts.len(),
            start <= v.len(),
            (strings_view(out@), start as int) == safe_split_upto(v@, cuts@, k as int),
        decreases cuts.len() - k,
    {
        let cut = cuts[k];
        if !(cut <= start || cut >= v.len()) {
            let piece = sub_vec(v, start, cut);
            let part = normalize_ws_vec(&piece);
            if part.len() > 0 {
                let ghost before = strings_view(out@);
                out.push(string_of(&part));
                assert(strings_view(out@) =~= before.push(part@));
            }
            start = cut;
        }
        k += 1;
    }
    let piece = sub_vec(v, start, v.len());
    let tail = normalize_ws_vec(&piece);
    if tail.len() > 0 {
        let ghost before = strings_view(out@);
        out.push(string_of(&tail));
        assert(strings_view(out@) =~= before.push(tail@));
    }
    out
}

/// The cuts chosen for parts `0..k` of a rule-based split, and the last cut.
pub open spec fn rules_cuts(bs: Seq<BoundaryPoint>, char_count: int, desired: int, k: int) -> (Seq<usize>, int)
    decreases k,
{
    if k <= 0 {
        (seq![], 0)
    } else {
        let (cuts, after) = rules_cuts(bs, char_count, desired, k - 1);
        let part_idx = k - 1;
        let target = char_count * (part_idx + 1) / desired;
        let reserve_tail = (desired - 1) - part_idx - 1;
        match choose_boundary(bs, after, target, reserve_tail) {
            Some(cut) => if cut > after && cut < char_count {
                (cuts.push(cut), cut as int)
            } else {
                (cuts, after)
            },
            None => (cuts, after),
        }
    }
}

/// Splits a text into about `desired` parts at the boundaries nearest to
/// equal shares of its characters; one whole part when that fails.
pub open spec fn rule_parts(s: Seq<char>, desired: int) -> Seq<Seq<char>> {
    if desired <= 1 || s.len() < 2 {
        seq![normalize_ws(s)]
    } else {
        let bs = build_boundaries(s);
        if bs.len() == 0 {
            seq![normalize_ws(s)]
        } else {
            let cuts = rules_cuts(bs, s.len() as int, desired, desired - 1).0;
            let parts = safe_parts(s, cuts);
            if parts.len() <= 1 {
                seq![normalize_ws(s)]
            } else {
                parts
            }
        }
    }
}

proof fn lemma_rules_after(bs: Seq<BoundaryPoint>, char_count: int, desired: int, k: int)
    requires
        char_count >= 0,
    ensures
        0 <= rules_cuts(bs, char_count, desired, k).1 <= char_count,
        rules_cuts(bs, char_count, desired, k).0.len() <= if k > 0 { k } else { 0 },
    decreases k,
{
    if k > 0 {
        lemma_rules_after(bs, char_count, desired, k - 1);
    }
}

pub fn split_by_rules_exec(v: &Vec<char>, desired: usize) -> (r: Vec<String>)
    ensures
        strings_view(r@) == rule_parts(v@, desired as int),
{
    if desired <= 1 || v.len() < 2 {
        let n = normalize_ws_vec(v);
        let r = vec![string_of(&n)];
        assert(strings_view(r@) =~= seq![normalize_ws(v@)]);
        return r;
    }
    let char_count = v.len();
    let bs = build_boundaries_exec(v);
    if bs.len() == 0 {
        let n = normalize_ws_vec(v);
        let r = vec![string_of(&n)];
        assert(strings_view(r@) =~= seq![normalize_ws(v@)]);
        return r;
    }
    let mut cuts: Vec<usize> = Vec::new();
    let mut after: usize = 0;
    let cuts_needed = desired - 1;
    let mut part_idx: usize = 0;
    while part_idx < cuts_needed
        invariant
            part_idx <= cuts_needed == desired - 1,
            desired >= 2,
            char_count == v.len(),
            bs@ == build_boundaries(v@),
            (cuts@, after as int) == rules_cuts(bs@, char_count as int, desired as int, part_idx as int),
        decreases cuts_needed - part_idx,
    {
        let count_wide: u128 = char_count as u128;
        let share_wide: u128 = (part_idx + 1) as u128;
        assert(count_wide * share_wide <= 0xffff_ffff_ffff_ffffu128 * 0xffff_ffff_ffff_ffffu128) by (nonlinear_arith)
            requires
                count_wide <= 0xffff_ffff_ffff_ffffu128,
                share_wide <= 0xffff_ffff_ffff_ffffu128,
        ;
        let product: u128 = count_wide * share_wide;
        let target: usize = (product / (desired as u128)) as usize;
        proof {
            assert((char_count as int) * (part_idx + 1) / (desired as int) <= char_count as int) by (nonlinear_arith)
                requires
                    part_idx + 1 <= desired,
                    desired >= 1,
                    char_count >= 0,
            ;
            assert((char_count as int) * (part_idx + 1) / (desired as int) >= 0) by (nonlinear_arith)
                requires
                    part_idx + 1 <= desired,
                    desired >= 1,
                    char_count >= 0,
            ;
        }
        let reserve_tail = cuts_needed - part_idx - 1;
        match choose_boundary_exec(&bs, after, target, reserve_tail) {
            Some(cut) => {
                if cut > after && cut < char_count {
                    cuts.push(cut);
                    after = cut;
                }
            },
            None => {},
        }
        part_idx += 1;
    }
    let parts = split_by_safe_positions_exec(v, &cuts);
    if parts.len() <= 1 {
        let n = normalize_ws_vec(v);
        let r = vec![string_of(&n)];
        assert(strings_view(r@) =~= seq![normalize_ws(v@)]);
        return r;
    }
    parts
}

/// The cuts kept when snapping proposed cut positions to boundaries.
pub open spec fn snap_cuts(bs: Seq<BoundaryPoint>, char_count: int, raw: Seq<usize>, k: int) -> (Seq<usize>, int)
    decreases k,
{
    if k <= 0 || k > raw.len() {
        (seq![], 0)
    } else {
        let (out, after) = snap_cuts(bs, char_count, raw, k - 1);
        let idx = k - 1;
        let reserve_tail = raw.len() - idx - 1;
        match choose_boundary(bs, after, raw[idx] as int, reserve_tail) {
            Some(cut) => if cut > after && cut < char_count {
                (out.push(cut), cut as int)
            } else {
                (out, after)
            },
            None => (out, after),
        }
    }
}

/// Proposed cut positions moved to the nearest safe boundaries (each after
/// the previous one), in increasing order without repeats.
pub open spec fn snapped_cuts(s: Seq<char>, raw: Seq<usize>) -> Seq<usize> {
    let bs = build_boundaries(s);
    if bs.len() == 0 {
        seq![]
    } else {
        snap_cuts(bs, s.len() as int, raw, raw.len() as int).0
    }
}

/// The snapped cuts increase strictly, so sorting and deduplicating them
/// changes nothing.
proof fn lemma_snap_increasing(bs: Seq<BoundaryPoint>, char_count: int, raw: Seq<usize>, k: int)
    ensures
        forall|a: int, b: int|
            0 <= a < b < snap_cuts(bs, char_count, raw, k).0.len() ==> #[trigger] snap_cuts(bs, char_count, raw, k).0[a]
                < #[trigger] snap_cuts(bs, char_count, raw, k).0[b],
        forall|a: int|
            0 <= a < snap_cuts(bs, char_count, raw, k).0.len() ==> #[trigger] snap_cuts(bs, char_count, raw, k).0[a]
                <= snap_cuts(bs, char_count, raw, k).1,
        0 <= snap_cuts(bs, char_count, raw, k).1,
    decreases k,
{
    if k > 0 && k <= raw.len() {
        lemma_snap_increasing(bs, char_count, raw, k - 1);
    }
}

pub fn snap_llm_cuts_to_boundaries_exec(v: &Vec<char>, raw: &Vec<usize>) -> (r: Vec<usize>)
    ensures
        r@ == snapped_cuts(v@, raw@),
        forall|a: int, b: int| 0 <= a < b < r@.len() ==> #[trigger] r@[a] < #[trigger] r@[b],
{
    let bs = build_boundaries_exec(v);
    if bs.len() == 0 {
        return Vec::new();
    }
    let char_count = v.len();
    let mut out: Vec<usize> = Vec::new();
    let mut after: usize = 0;
    let mut idx: usize = 0;
    while idx < raw.len()
        invariant
            idx <= raw.len(),
            char_count == v.len(),
            bs@ == build_boundaries(v@),
            (out@, after as int) == snap_cuts(bs@, char_count as int, raw@, idx as int),
        decreases raw.len() - idx,
    {
        let reserve_tail = raw.len() - idx - 1;
        match choose_boundary_exec(&bs, after, raw[idx], reserve_tail) {
            Some(cut) => {
                if cut > after && cut < char_count {
                    out.push(cut);
                    after = cut;
                }
            },
            None => {},
        }
        idx += 1;
    }
    proof {
        lemma_snap_increasing(bs@, char_count as int, raw@, raw@.len() as int);
    }
    out
}

/// Splits a text into about `desired_parts` parts at safe word boundaries.
pub fn split_by_rules(text: &str, desired_parts: usize) -> (r: Vec<String>)
    ensures
        strings_view(r@) == rule_parts(text@, desired_parts as int),
{
    let v = chars_of(text);
    split_by_rules_exec(&v, desired_parts)
}

/// Splits a text at the given character positions, skipping positions that
/// do not advance; each part is whitespace-normalized and empty parts dropped.
pub fn split_by_safe_positions(text: &str, cuts: &[usize]) -> (r: Vec<String>)
    ensures
        strings_view(r@) == safe_parts(text@, cuts@),
{
    let v = chars_of(text);
    let mut c: Vec<usize> = Vec::new();
    let mut i: usize = 0;
    while i < cuts.len()
        invariant
            i <= cuts.len(),
            c@ == cuts@.subrange(0, i as int),
        decreases cuts.len() - i,
    {
        c.push(cuts[i]);
        i += 1;
    }
    assert(c@ =~= cuts@);
    split_by_safe_positions_exec(&v, &c)
}

/// Moves proposed cut positions to the nearest safe boundaries; the result
/// increases strictly.
pub fn snap_llm_cuts_to_boundaries(text: &str, raw_cuts: &[usize]) -> (r: Vec<usize>)
    ensures
        r@ == snapped_cuts(text@, raw_cuts@),
        forall|a: int, b: int| 0 <= a < b < r@.len() ==> #[trigger] r@[a] < #[trigger] r@[b],
{
    let v = chars_of(text);
    let mut c: Vec<usize> = Vec::new();
    let mut i: usize = 0;
    while i < raw_cuts.len()
        invariant
            i <= raw_cuts.len(),
            c@ == raw_cuts@.subrange(0, i as int),
        decreases raw_cuts.len() - i,
    {
        c.push(raw_cuts[i]);
        i += 1;
    }
    assert(c@ =~= raw_cuts@);
    snap_llm_cuts_to_boundaries_exec(&v, &c)
}

} // verus!
