//! Re-segmentation of long subtitle cues: how many parts a cue needs, where
//! its text is split (by rules or by cut positions an LLM proposes), how the
//! parts get their times (from word timestamps or by proportional reflow) and
//! how too-short results are merged back.
use vstd::prelude::*;

use crate::openai_compat::{
    bearer, bearer_header, chat_body, chat_completions_url, chat_request_body, chat_url, reply_text, reply_text_exec,
    ChatRequest, HttpReply,
};
use crate::split_rules::{rule_parts, safe_parts, snap_llm_cuts_to_boundaries, snapped_cuts, split_by_rules, split_by_safe_positions};
use crate::srt::{clone_cue, cues_view, renumber, renumbered, strings_view, CueView, SubCue};
use crate::text::{
    chars_of, count_non_control, count_non_control_exec, count_printable, count_printable_exec,
    is_blank, normalize_ws, normalize_ws_string, str_eq, string_of, trim,
};

verus! {

pub const MIN_SEGMENT_DURATION_MS: i64 = 800;

pub const MIN_SEGMENT_VISIBLE_CHARS: usize = 3;

/// A timed piece of transcript (usually one word) from the recognizer.
#[derive(Debug, Clone)]
pub struct TimeUnit {
    pub start_ms: i64,
    pub end_ms: i64,
    pub text: String,
}

/// The mathematical content of a time unit.
pub struct UnitView {
    pub start_ms: i64,
    pub end_ms: i64,
    pub text: Seq<char>,
}

impl View for TimeUnit {
    type V = UnitView;

    open spec fn view(&self) -> UnitView {
        UnitView { start_ms: self.start_ms, end_ms: self.end_ms, text: self.text@ }
    }
}

pub open spec fn units_view(v: Seq<TimeUnit>) -> Seq<UnitView> {
    v.map_values(|u: TimeUnit| u@)
}

fn clone_unit(u: &TimeUnit) -> (r: TimeUnit)
    ensures
        r@ == u@,
{
    TimeUnit { start_ms: u.start_ms, end_ms: u.end_ms, text: u.text.clone() }
}

/// How cues are re-segmented.
pub struct SegmentationJob<'a> {
    pub strategy: &'a str,
    pub timing_mode: &'a str,
    pub max_chars_per_segment: u32,
    pub max_duration_ms: u32,
    pub llm_base_url: &'a str,
    pub llm_model: &'a str,
    pub llm_api_key: &'a str,
    pub llm_timeout_sec: u64,
}

/// The re-segmented cues and a note on fallbacks that were taken.
pub struct SegmentationResult {
    pub cues: Vec<SubCue>,
    pub note: Option<String>,
}

/// Number of characters that are neither whitespace nor control characters.
pub open spec fn vis(s: Seq<char>) -> nat {
    count_printable(s, s.len() as int)
}

pub fn visible_chars(s: &str) -> (r: usize)
    ensures
        r == vis(s@),
{
    let v = chars_of(s);
    count_printable_exec(&v)
}

/// `text.split_whitespace().collect::<Vec<_>>().join(" ")`.
pub fn normalize_part_text(text: &str) -> (r: String)
    ensures
        r@ == normalize_ws(text@),
{
    normalize_ws_string(text)
}

pub open spec fn span(c: CueView) -> int {
    c.end_ms - c.start_ms
}

pub open spec fn max_int(a: int, b: int) -> int {
    if a >= b {
        a
    } else {
        b
    }
}

pub open spec fn min_int(a: int, b: int) -> int {
    if a <= b {
        a
    } else {
        b
    }
}

/// A cue is split when it has more non-control characters than `max_chars`
/// (counted as a `u32`) or lasts longer than `max_duration_ms`.
pub open spec fn should_split(c: CueView, max_chars: u32, max_duration_ms: int) -> bool {
    (count_non_control(c.text, c.text.len() as int) as u32) > max_chars || max_int(span(c), 0)
        > max_duration_ms
}

/// A cue is split when it is too long in characters, whatever its
/// duration, or too long in time, whatever its length; and only then.
pub proof fn lemma_split_when_too_long(c: CueView, max_chars: u32, max_duration_ms: int)
    ensures
        count_non_control(c.text, c.text.len() as int) <= u32::MAX && count_non_control(c.text, c.text.len() as int)
            > max_chars ==> should_split(c, max_chars, max_duration_ms),
        c.end_ms - c.start_ms > max_duration_ms ==> should_split(c, max_chars, max_duration_ms),
        count_non_control(c.text, c.text.len() as int) <= max_chars && c.end_ms - c.start_ms <= max_duration_ms
            && max_duration_ms >= 0 ==> !should_split(c, max_chars, max_duration_ms),
{
    let n = count_non_control(c.text, c.text.len() as int);
    if n <= u32::MAX {
        assert((n as u32) as int == n);
    }
}

fn wide_span(cue: &SubCue) -> (r: i128)
    ensures
        r == span(cue@),
{
    (cue.end_ms as i128) - (cue.start_ms as i128)
}

pub fn cue_should_split(cue: &SubCue, max_chars: u32, max_duration_ms: i64) -> (r: bool)
    ensures
        r == should_split(cue@, max_chars, max_duration_ms as int),
{
    let v = chars_of(&cue.text);
    let char_count = count_non_control_exec(&v) as u32;
    let d = wide_span(cue);
    let duration: i128 = if d > 0 {
        d
    } else {
        0
    };
    char_count > max_chars || duration > max_duration_ms as i128
}

/// Whether the LLM endpoint, model and key are all given.
pub open spec fn llm_available(base_url: Seq<char>, model: Seq<char>, api_key: Seq<char>) -> bool {
    trim(base_url).len() > 0 && trim(model).len() > 0 && trim(api_key).len() > 0
}

pub fn llm_is_available(job: &SegmentationJob) -> (r: bool)
    ensures
        r == llm_available(job.llm_base_url@, job.llm_model@, job.llm_api_key@),
{
    !is_blank(job.llm_base_url) && !is_blank(job.llm_model) && !is_blank(job.llm_api_key)
}

pub open spec fn ceil_div(a: int, b: int) -> int {
    (a + b - 1) / b
}

/// How many parts a cue should become: enough for the character limit and
/// for the duration limit, but no more than one per minimum segment duration.
pub open spec fn desired(c: CueView, max_chars: u32, max_duration_ms: u32) -> int {
    let chars = max_int(c.text.len() as int, 1);
    let duration = (max_int(span(c), 1) as usize) as int;
    let by_chars = ceil_div(chars, max_int(max_chars as int, 1));
    let by_duration = ceil_div(duration, max_int(max_duration_ms as int, 1));
    let base = max_int(max_int(by_chars, by_duration), 1);
    let max_by_duration = max_int(duration / (MIN_SEGMENT_DURATION_MS as int), 1);
    min_int(base, max_by_duration)
}

fn div_ceil_usize(a: usize, b: usize) -> (r: usize)
    requires
        b > 0,
    ensures
        r == ceil_div(a as int, b as int),
{
    let q = a / b;
    let m = a % b;
    proof {
        assert(ceil_div(a as int, b as int) == q + if m > 0 { 1int } else { 0int }) by (nonlinear_arith)
            requires
                b > 0,
                q == a / b,
                m == a % b,
        {
            assert(a == b * q + m);
        }
    }
    assert(m > 0 ==> q < a) by (nonlinear_arith)
        requires
            b > 0,
            q == a / b,
            m == a % b,
    ;
    if m > 0 {
        q + 1
    } else {
        q
    }
}

pub fn desired_parts(cue: &SubCue, max_chars: u32, max_duration_ms: u32) -> (r: usize)
    ensures
        r == desired(cue@, max_chars, max_duration_ms),
        r >= 1,
{
    let v = chars_of(&cue.text);
    let chars: usize = if v.len() > 1 {
        v.len()
    } else {
        1
    };
    let d = wide_span(cue);
    let duration_wide: i128 = if d > 1 {
        d
    } else {
        1
    };
    let duration_ms: usize = duration_wide as usize;
    let mc: usize = if max_chars > 1 {
        max_chars as usize
    } else {
        1
    };
    let md: usize = if max_duration_ms > 1 {
        max_duration_ms as usize
    } else {
        1
    };
    let by_chars = div_ceil_usize(chars, mc);
    let by_duration = div_ceil_usize(duration_ms, md);
    let mut base = if by_chars >= by_duration {
        by_chars
    } else {
        by_duration
    };
    if base < 1 {
        base = 1;
    }
    let q = duration_ms / 800;
    let max_by_duration: usize = if q > 1 {
        q
    } else {
        1
    };
    if base <= max_by_duration {
        base
    } else {
        max_by_duration
    }
}

// ---------------------------------------------------------------------------
// Joining and merging short cues
// ---------------------------------------------------------------------------

pub open spec fn right_attached(c: char) -> bool {
    c == ',' || c == '.' || c == '!' || c == '?' || c == ';' || c == ':' || c == ')' || c == ']'
        || c == '}'
}

/// Two normalized fragments joined with a space, or without one where the
/// right one starts with closing punctuation.
pub open spec fn join_fragments(left: Seq<char>, right: Seq<char>) -> Seq<char> {
    let l = normalize_ws(left);
    let r = normalize_ws(right);
    if l.len() == 0 {
        r
    } else if r.len() == 0 {
        l
    } else if right_attached(r[0]) {
        l + r
    } else {
        l + seq![' '] + r
    }
}

pub fn join_text_fragments(left: &str, right: &str) -> (r: String)
    ensures
        r@ == join_fragments(left@, right@),
{
    let l = normalize_part_text(left);
    let rt = normalize_part_text(right);
    let lv = chars_of(&l);
    let rv = chars_of(&rt);
    if lv.len() == 0 {
        return rt;
    }
    if rv.len() == 0 {
        return l;
    }
    let c = rv[0];
    let mut out = l;
    if !(c == ',' || c == '.' || c == '!' || c == '?' || c == ';' || c == ':' || c == ')' || c == ']'
        || c == '}') {
        crate::text::push_str(&mut out, " ");
        proof {
            reveal_strlit(" ");
        }
    }
    crate::text::push_str(&mut out, &rt);
    out
}

pub open spec fn too_short(c: CueView) -> bool {
    span(c) < MIN_SEGMENT_DURATION_MS || vis(c.text) < MIN_SEGMENT_VISIBLE_CHARS
}

pub fn cue_is_too_short(cue: &SubCue) -> (r: bool)
    ensures
        r == too_short(cue@),
{
    wide_span(cue) < 800 || visible_chars(&cue.text) < 3
}

/// A cue that takes over the text and the end of the cue after it.
pub open spec fn absorb_next(a: CueView, b: CueView) -> CueView {
    CueView { index: a.index, start_ms: a.start_ms, end_ms: b.end_ms, text: join_fragments(a.text, b.text) }
}

/// Merges each too-short cue into a neighbour, scanning from `idx`: the
/// first cue absorbs the second, any later one is absorbed by the one before
/// it, and the scan steps back to re-check the merged cue.
pub open spec fn merge_short(cues: Seq<CueView>, idx: int) -> Seq<CueView>
    decreases cues.len(), cues.len() - idx,
{
    if cues.len() <= 1 || idx < 0 || idx >= cues.len() {
        cues
    } else if !too_short(cues[idx]) {
        merge_short(cues, idx + 1)
    } else if idx == 0 {
        merge_short(seq![absorb_next(cues[0], cues[1])] + cues.subrange(2, cues.len() as int), 0)
    } else {
        merge_short(
            cues.subrange(0, idx - 1) + seq![absorb_next(cues[idx - 1], cues[idx])] + cues.subrange(
                idx + 1,
                cues.len() as int,
            ),
            idx - 1,
        )
    }
}

fn absorb_next_exec(a: &SubCue, b: &SubCue) -> (r: SubCue)
    ensures
        r@ == absorb_next(a@, b@),
{
    SubCue { index: a.index, start_ms: a.start_ms, end_ms: b.end_ms, text: join_text_fragments(&a.text, &b.text) }
}

pub fn merge_short_cues(cues: Vec<SubCue>) -> (r: Vec<SubCue>)
    ensures
        cues_view(r@) == merge_short(cues_view(cues@), 0),
{
    let ghost target = merge_short(cues_view(cues@), 0);
    let mut cues = cues;
    let mut idx: usize = 0;
    while cues.len() > 1 && idx < cues.len()
        invariant
            idx <= cues.len(),
            merge_short(cues_view(cues@), idx as int) == target,
        decreases cues.len(), cues.len() - idx,
    {
        let ghost cv = cues_view(cues@);
        let short = cue_is_too_short(&cues[idx]);
        if !short {
            idx += 1;
        } else if idx == 0 {
            let next = cues.remove(1);
            let merged = absorb_next_exec(&cues[0], &next);
            cues.set(0, merged);
            assert(cues_view(cues@) =~= seq![absorb_next(cv[0], cv[1])] + cv.subrange(2, cv.len() as int));
        } else {
            let current = cues.remove(idx);
            let merged = absorb_next_exec(&cues[idx - 1], &current);
            cues.set(idx - 1, merged);
            assert(cues_view(cues@) =~= cv.subrange(0, idx - 1) + seq![absorb_next(cv[idx - 1], cv[idx as int])]
                + cv.subrange(idx + 1, cv.len() as int));
            idx -= 1;
        }
    }
    cues
}


// ---------------------------------------------------------------------------
// Proportional timing
// ---------------------------------------------------------------------------

/// Division rounding toward zero, for a positive divisor.
pub open spec fn tdiv(a: int, b: int) -> int {
    if a >= 0 {
        a / b
    } else {
        -((-a) / b)
    }
}

/// `x.clamp(lo, hi)` for `lo <= hi`.
pub open spec fn clamp_int(x: int, lo: int, hi: int) -> int {
    if x < lo {
        lo
    } else if x > hi {
        hi
    } else {
        x
    }
}

/// The weight of a part: its visible characters, at least one.
pub open spec fn part_weight(p: Seq<char>) -> int {
    max_int(vis(p) as int, 1)
}

pub open spec fn weight_sum(parts: Seq<Seq<char>>, n: int) -> int
    decreases n,
{
    if n <= 0 || n > parts.len() {
        0
    } else {
        weight_sum(parts, n - 1) + part_weight(parts[n - 1])
    }
}

pub proof fn lemma_weight_sum_mono(parts: Seq<Seq<char>>, i: int, j: int)
    requires
        0 <= i <= j <= parts.len(),
    ensures
        0 <= weight_sum(parts, i) <= weight_sum(parts, j),
        weight_sum(parts, i) >= i,
    decreases j,
{
    if j > i {
        lemma_weight_sum_mono(parts, i, j - 1);
    } else if i > 0 {
        lemma_weight_sum_mono(parts, i - 1, i - 1);
    }
}

/// The end of part `idx` of `count`, starting at `start`, where `w` is its
/// weight and `rw` the weight of it and the parts after it: its share of the
/// remaining time, at least the minimum segment duration where there is
/// room, leaving the parts after it their minimum.
pub open spec fn approx_end(c: CueView, count: int, idx: int, start: int, w: int, rw: int) -> int {
    let rp = count - idx - 1;
    let rt = c.end_ms - start;
    if rp == 0 {
        c.end_ms as int
    } else {
        let min_tail = max_int(min_int(rp * MIN_SEGMENT_DURATION_MS, rt - rp), rp);
        let max_piece = max_int(rt - min_tail, 1);
        let ideal = max_int(tdiv(rt * w, rw), 1);
        let min_piece = max_int(min_int(MIN_SEGMENT_DURATION_MS as int, max_piece), 1);
        start + clamp_int(ideal, min_piece, max_piece)
    }
}

/// The first `k` parts placed one after another from the cue's start: the
/// cues so far, the next start and the remaining weight.
pub open spec fn approx_run(c: CueView, parts: Seq<Seq<char>>, k: int) -> (Seq<CueView>, int, int)
    decreases k,
{
    if k <= 0 || k > parts.len() {
        (seq![], c.start_ms as int, max_int(weight_sum(parts, parts.len() as int), 1))
    } else {
        let (out, start, rw) = approx_run(c, parts, k - 1);
        let idx = k - 1;
        let w = part_weight(parts[idx]);
        let end = approx_end(c, parts.len() as int, idx, start, w, rw);
        let e2 = max_int(end, start + 1);
        (
            out.push(CueView { index: 0, start_ms: start as i64, end_ms: e2 as i64, text: normalize_ws(parts[idx]) }),
            e2,
            max_int(rw - w, 1),
        )
    }
}

/// The parts timed in proportion to their weights; the last one ends where
/// the cue ends.
pub open spec fn approx_timing(c: CueView, parts: Seq<Seq<char>>) -> Seq<CueView> {
    let out = approx_run(c, parts, parts.len() as int).0;
    if out.len() == 0 {
        out
    } else {
        let last = out[out.len() - 1];
        out.update(
            out.len() - 1,
            CueView { index: last.index, start_ms: last.start_ms, end_ms: c.end_ms, text: last.text },
        )
    }
}

/// What proportional timing needs: the total weight fits an `i64`, as the
/// weights are summed as `i64`, and every time it produces fits an `i64`.
pub open spec fn approx_defined(c: CueView, parts: Seq<Seq<char>>) -> bool {
    weight_sum(parts, parts.len() as int) <= i64::MAX && approx_run(c, parts, parts.len() as int).1 <= i64::MAX
}

pub proof fn lemma_approx_run(c: CueView, parts: Seq<Seq<char>>, j: int, k: int)
    requires
        0 <= j <= k <= parts.len(),
    ensures
        c.start_ms <= approx_run(c, parts, j).1 <= approx_run(c, parts, k).1,
        approx_run(c, parts, k).1 >= c.start_ms + k,
        approx_run(c, parts, k).0.len() == k,
        1 <= approx_run(c, parts, k).2 <= max_int(weight_sum(parts, parts.len() as int), 1),
    decreases k,
{
    if k > j {
        lemma_approx_run(c, parts, j, k - 1);
    } else if k > 0 {
        lemma_approx_run(c, parts, k - 1, k - 1);
    }
}

fn part_weight_exec(p: &String) -> (r: usize)
    ensures
        r == part_weight(p@),
{
    let n = visible_chars(p);
    if n > 1 {
        n
    } else {
        1
    }
}

fn tdiv_exec(a: i128, b: i128) -> (r: i128)
    requires
        b > 0,
        a > i128::MIN,
    ensures
        r == tdiv(a as int, b as int),
{
    if a >= 0 {
        ((a as u128) / (b as u128)) as i128
    } else {
        let na: i128 = -a;
        -(((na as u128) / (b as u128)) as i128)
    }
}

/// One step of proportional timing, in wide integers.
fn approx_step(cue: &SubCue, count: usize, idx: usize, start: i128, w: i128, rw: i128) -> (r: i128)
    requires
        idx < count,
        i64::MIN <= start <= i64::MAX,
        1 <= w <= i64::MAX,
        rw >= 1,
    ensures
        r == approx_end(cue@, count as int, idx as int, start as int, w as int, rw as int),
{
    let rp = count - idx - 1;
    let rt: i128 = cue.end_ms as i128 - start;
    if rp == 0 {
        return cue.end_ms as i128;
    }
    let rpw = rp as i128;
    let a: i128 = rpw * 800;
    let b: i128 = rt - rpw;
    let m: i128 = if a <= b {
        a
    } else {
        b
    };
    let min_tail: i128 = if m >= rpw {
        m
    } else {
        rpw
    };
    let max_piece: i128 = if rt - min_tail > 1 {
        rt - min_tail
    } else {
        1
    };
    assert(-0x1_0000_0000_0000_0000int <= rt <= 0x1_0000_0000_0000_0000int);
    assert(rt * w < 0x8000_0000_0000_0000_0000_0000_0000_0000int && rt * w > -0x8000_0000_0000_0000_0000_0000_0000_0000int)
        by (nonlinear_arith)
        requires
            -0x1_0000_0000_0000_0000int <= rt <= 0x1_0000_0000_0000_0000int,
            1 <= w <= 0x7fff_ffff_ffff_ffffint,
    ;
    let q = tdiv_exec(rt * w, rw);
    let ideal: i128 = if q > 1 {
        q
    } else {
        1
    };
    let mp: i128 = if 800 <= max_piece {
        800
    } else {
        max_piece
    };
    let min_piece: i128 = if mp > 1 {
        mp
    } else {
        1
    };
    let cl: i128 = if ideal < min_piece {
        min_piece
    } else if ideal > max_piece {
        max_piece
    } else {
        ideal
    };
    start + cl
}

pub fn apply_approximate_timing(cue: &SubCue, parts: &[String]) -> (r: Vec<SubCue>)
    requires
        approx_defined(cue@, strings_view(parts@)),
    ensures
        cues_view(r@) == approx_timing(cue@, strings_view(parts@)),
{
    let ghost ps = strings_view(parts@);
    let ghost c = cue@;
    let count = parts.len();
    let mut total: i128 = 0;
    let mut i: usize = 0;
    while i < count
        invariant
            i <= count == parts.len() == ps.len(),
            ps == strings_view(parts@),
            total == weight_sum(ps, i as int),
            weight_sum(ps, count as int) <= i64::MAX,
        decreases count - i,
    {
        proof {
            lemma_weight_sum_mono(ps, i + 1, count as int);
        }
        let w = part_weight_exec(&parts[i]);
        assert(ps[i as int] == parts@[i as int]@);
        total = total + w as i128;
        i += 1;
    }
    let mut start: i128 = cue.start_ms as i128;
    let mut rw: i128 = if total > 1 {
        total
    } else {
        1
    };
    let mut out: Vec<SubCue> = Vec::new();
    let mut idx: usize = 0;
    proof {
        lemma_weight_sum_mono(ps, 0, count as int);
    }
    while idx < count
        invariant
            idx <= count == parts.len() == ps.len(),
            ps == strings_view(parts@),
            c == cue@,
            approx_defined(c, ps),
            (cues_view(out@), start as int, rw as int) == approx_run(c, ps, idx as int),
        decreases count - idx,
    {
        proof {
            lemma_approx_run(c, ps, idx as int, count as int);
            lemma_approx_run(c, ps, idx + 1, count as int);
            lemma_weight_sum_mono(ps, idx + 1, count as int);
            lemma_weight_sum_mono(ps, idx as int, count as int);
        }
        let w = part_weight_exec(&parts[idx]) as i128;
        assert(ps[idx as int] == parts@[idx as int]@);
        assert(weight_sum(ps, idx + 1) == weight_sum(ps, idx as int) + part_weight(ps[idx as int]));
        assert(w <= i64::MAX);
        let end = approx_step(cue, count, idx, start, w, rw);
        let e2: i128 = if end > start + 1 {
            end
        } else {
            start + 1
        };
        let ghost before = cues_view(out@);
        out.push(
            SubCue {
                index: 0,
                start_ms: start as i64,
                end_ms: e2 as i64,
                text: normalize_part_text(&parts[idx]),
            },
        );
        assert(cues_view(out@) =~= before.push(
            CueView { index: 0, start_ms: start as i64, end_ms: e2 as i64, text: normalize_ws(ps[idx as int]) },
        ));
        start = e2;
        rw = if rw - w > 1 {
            rw - w
        } else {
            1
        };
        idx += 1;
    }
    let n = out.len();
    if n > 0 {
        let last = clone_cue(&out[n - 1]);
        let ghost before = cues_view(out@);
        out.set(n - 1, SubCue { index: last.index, start_ms: last.start_ms, end_ms: cue.end_ms, text: last.text });
        assert(cues_view(out@) =~= approx_timing(c, ps));
    } else {
        assert(cues_view(out@) =~= approx_timing(c, ps));
    }
    out
}


// ---------------------------------------------------------------------------
// Timing from word timestamps
// ---------------------------------------------------------------------------

/// A unit is used for a cue when it overlaps the cue and has visible text.
pub open spec fn unit_kept(c: CueView, u: UnitView) -> bool {
    u.end_ms > c.start_ms && u.start_ms < c.end_ms && vis(u.text) > 0
}

/// The units among `units[..n]` used for the cue, in order.
pub open spec fn overlapping(c: CueView, units: Seq<UnitView>, n: int) -> Seq<UnitView>
    decreases n,
{
    if n <= 0 || n > units.len() {
        seq![]
    } else {
        let p = overlapping(c, units, n - 1);
        if unit_kept(c, units[n - 1]) {
            p.push(units[n - 1])
        } else {
            p
        }
    }
}

pub open spec fn kept_units(c: CueView, units: Seq<UnitView>) -> Seq<UnitView> {
    overlapping(c, units, units.len() as int)
}

/// Total weight (visible characters, at least one) of `ov[..n]`.
pub open spec fn unit_sum(ov: Seq<UnitView>, n: int) -> int
    decreases n,
{
    if n <= 0 || n > ov.len() {
        0
    } else {
        unit_sum(ov, n - 1) + max_int(vis(ov[n - 1].text) as int, 1)
    }
}

pub proof fn lemma_unit_sum_mono(ov: Seq<UnitView>, i: int, j: int)
    requires
        0 <= i <= j <= ov.len(),
    ensures
        0 <= unit_sum(ov, i) <= unit_sum(ov, j),
        unit_sum(ov, j) - unit_sum(ov, i) >= j - i,
    decreases j,
{
    if j > i {
        lemma_unit_sum_mono(ov, i, j - 1);
    } else if i > 0 {
        lemma_unit_sum_mono(ov, i - 1, i - 1);
    }
}

/// A group's start, moved into the cue (for a cue with `start < end`).
pub open spec fn clamp_start(c: CueView, t: int) -> int {
    clamp_int(t, c.start_ms as int, c.end_ms - 1)
}

/// A group's end, moved into the cue (for a cue with `start < end`).
pub open spec fn clamp_end(c: CueView, t: int) -> int {
    clamp_int(t, c.start_ms + 1, c.end_ms as int)
}

/// The cost of ending a group at unit `end`: four times its distance from
/// the target weight, plus four per millisecond the group falls short of the
/// minimum duration, saturating at `usize::MAX`.
pub open spec fn group_score(c: CueView, ov: Seq<UnitView>, target: int, prev_end: int, end: int) -> int {
    let dist = if unit_sum(ov, end) >= target {
        unit_sum(ov, end) - target
    } else {
        target - unit_sum(ov, end)
    };
    let d = clamp_end(c, ov[end - 1].end_ms as int) - clamp_start(c, ov[prev_end].start_ms as int);
    let penalty = if d < MIN_SEGMENT_DURATION_MS {
        (MIN_SEGMENT_DURATION_MS - d) * 4
    } else {
        0
    };
    min_int(min_int(dist * 4, usize::MAX as int) + penalty, usize::MAX as int)
}

/// The first group end in `e..=max_end` with the lowest score, given the best
/// so far.
pub open spec fn best_end(
    c: CueView,
    ov: Seq<UnitView>,
    target: int,
    prev_end: int,
    e: int,
    max_end: int,
    be: int,
    bs: int,
) -> int
    decreases max_end + 1 - e,
{
    if e > max_end {
        be
    } else {
        let sc = group_score(c, ov, target, prev_end, e);
        if sc < bs {
            best_end(c, ov, target, prev_end, e + 1, max_end, e, sc)
        } else {
            best_end(c, ov, target, prev_end, e + 1, max_end, be, bs)
        }
    }
}

pub proof fn lemma_best_end(
    c: CueView,
    ov: Seq<UnitView>,
    target: int,
    prev_end: int,
    e: int,
    max_end: int,
    be: int,
    bs: int,
    lo: int,
)
    requires
        lo <= be <= max_end,
        lo <= e,
    ensures
        lo <= best_end(c, ov, target, prev_end, e, max_end, be, bs) <= max_end,
    decreases max_end + 1 - e,
{
    if e <= max_end {
        let sc = group_score(c, ov, target, prev_end, e);
        if sc < bs {
            lemma_best_end(c, ov, target, prev_end, e + 1, max_end, e, sc, lo);
        } else {
            lemma_best_end(c, ov, target, prev_end, e + 1, max_end, be, bs, lo);
        }
    }
}

/// The unit groups of the first `k` parts, the end of the last one and the
/// weight of those parts: each group ends where its running share of the
/// parts' weight is best matched, leaving a unit for every later part.
pub open spec fn group_run(c: CueView, parts: Seq<Seq<char>>, ov: Seq<UnitView>, k: int) -> (Seq<(int, int)>, int, int)
    decreases k,
{
    if k <= 0 {
        (seq![], 0, 0)
    } else {
        let (g, prev_end, acc) = group_run(c, parts, ov, k - 1);
        let idx = k - 1;
        let acc2 = acc + part_weight(parts[idx]);
        let target = acc2 * unit_sum(ov, ov.len() as int) / weight_sum(parts, parts.len() as int);
        let min_end = prev_end + 1;
        let max_end = ov.len() - (parts.len() - idx - 1);
        let be = best_end(c, ov, target, prev_end, min_end, max_end, min_end, usize::MAX as int);
        (g.push((prev_end, be)), be, acc2)
    }
}

/// The unit groups of all parts: the last one takes the remaining units.
pub open spec fn unit_groups(c: CueView, parts: Seq<Seq<char>>, ov: Seq<UnitView>) -> Seq<(int, int)> {
    let (g, prev_end, _acc) = group_run(c, parts, ov, parts.len() - 1);
    g.push((prev_end, ov.len() as int))
}

/// The timed cues of groups `0..n`, or `None` where a group is empty or
/// would not last a moment.
pub open spec fn grouped_cues(c: CueView, parts: Seq<Seq<char>>, ov: Seq<UnitView>, g: Seq<(int, int)>, n: int) -> Option<
    Seq<CueView>,
>
    decreases n,
{
    if n <= 0 {
        Some(seq![])
    } else {
        match grouped_cues(c, parts, ov, g, n - 1) {
            None => None,
            Some(out) => {
                let (si, ei) = g[n - 1];
                if si >= ei {
                    None
                } else {
                    let st = clamp_start(c, ov[si].start_ms as int);
                    let en = clamp_end(c, ov[ei - 1].end_ms as int);
                    if en <= st {
                        None
                    } else {
                        Some(
                            out.push(
                                CueView {
                                    index: 0,
                                    start_ms: st as i64,
                                    end_ms: en as i64,
                                    text: normalize_ws(parts[n - 1]),
                                },
                            ),
                        )
                    }
                }
            },
        }
    }
}

/// The parts timed by the word units they cover, or `None` where there are
/// too few units.
pub open spec fn word_timing(c: CueView, parts: Seq<Seq<char>>, units: Seq<UnitView>) -> Option<Seq<CueView>> {
    if parts.len() <= 1 {
        Some(seq![CueView { index: 0, start_ms: c.start_ms, end_ms: c.end_ms, text: normalize_ws(c.text) }])
    } else {
        let ov = kept_units(c, units);
        if ov.len() < parts.len() {
            None
        } else if weight_sum(parts, parts.len() as int) == 0 || unit_sum(ov, ov.len() as int) == 0 {
            None
        } else {
            grouped_cues(c, parts, ov, unit_groups(c, parts, ov), parts.len() as int)
        }
    }
}

/// Where word timing runs without a panic: it clamps times into the cue,
/// which needs `start < end`, and sums the weights as `usize`.
proof fn lemma_grouped_cues_shape(c: CueView, parts: Seq<Seq<char>>, ov: Seq<UnitView>, g: Seq<(int, int)>, n: int)
    requires
        c.start_ms < c.end_ms,
        0 <= n,
    ensures
        grouped_cues(c, parts, ov, g, n) matches Some(out) ==> {
            &&& out.len() == n
            &&& forall|i: int|
                0 <= i < n ==> (#[trigger] out[i]).text == normalize_ws(parts[i]) && c.start_ms <= out[i].start_ms
                    < out[i].end_ms <= c.end_ms
            &&& forall|i: int| 0 <= i < n ==> (#[trigger] g[i]).0 < g[i].1
            &&& forall|i: int|
                0 <= i < n ==> (#[trigger] out[i]).start_ms == clamp_start(c, ov[g[i].0].start_ms as int)
                    && out[i].end_ms == clamp_end(c, ov[g[i].1 - 1].end_ms as int)
        },
    decreases n,
{
    if n > 0 {
        lemma_grouped_cues_shape(c, parts, ov, g, n - 1);
        if let Some(out) = grouped_cues(c, parts, ov, g, n) {
            let prev = grouped_cues(c, parts, ov, g, n - 1)->Some_0;
            assert forall|i: int| 0 <= i < n implies (#[trigger] out[i]).text == normalize_ws(parts[i]) && c.start_ms
                <= out[i].start_ms < out[i].end_ms <= c.end_ms && out[i].start_ms == clamp_start(
                c,
                ov[g[i].0].start_ms as int,
            ) && out[i].end_ms == clamp_end(c, ov[g[i].1 - 1].end_ms as int) by {
                if i < n - 1 {
                    assert(out[i] == prev[i]);
                } else {
                    let (si, ei) = g[n - 1];
                    let st = clamp_start(c, ov[si].start_ms as int);
                    let en = clamp_end(c, ov[ei - 1].end_ms as int);
                    assert(c.start_ms <= st <= c.end_ms - 1);
                    assert(c.start_ms + 1 <= en <= c.end_ms);
                    assert(out[i].start_ms == st as i64);
                    assert(out[i].end_ms == en as i64);
                    assert((st as i64) as int == st);
                    assert((en as i64) as int == en);
                    assert(out[i].start_ms == clamp_start(c, ov[g[i].0].start_ms as int));
                    assert(out[i].end_ms == clamp_end(c, ov[g[i].1 - 1].end_ms as int));
                }
            }
            assert forall|i: int| 0 <= i < n implies (#[trigger] g[i]).0 < g[i].1 by {
                if i < n - 1 {
                    assert(g[i].0 < g[i].1);
                } else {
                    let (si, ei) = g[n - 1];
                    assert(si < ei);
                }
            }
        }
    }
}

proof fn lemma_group_chain(c: CueView, parts: Seq<Seq<char>>, ov: Seq<UnitView>, k: int)
    requires
        0 <= k,
    ensures
        group_run(c, parts, ov, k).0.len() == k,
        forall|j: int|
            0 <= j < k - 1 ==> (#[trigger] group_run(c, parts, ov, k).0[j]).1 == group_run(c, parts, ov, k).0[j + 1].0,
        k > 0 ==> group_run(c, parts, ov, k).0[k - 1].1 == group_run(c, parts, ov, k).1,
        k == 0 ==> group_run(c, parts, ov, k).1 == 0,
    decreases k,
{
    if k > 0 {
        lemma_group_chain(c, parts, ov, k - 1);
        let prev = group_run(c, parts, ov, k - 1).0;
        let cur = group_run(c, parts, ov, k).0;
        assert forall|j: int| 0 <= j < k - 1 implies (#[trigger] cur[j]).1 == cur[j + 1].0 by {
            assert(cur[j] == prev[j]);
            if j + 1 < k - 1 {
                assert(cur[j + 1] == prev[j + 1]);
            }
        }
    }
}

proof fn lemma_overlapping_order(c: CueView, units: Seq<UnitView>, n: int)
    requires
        0 <= n <= units.len(),
        forall|a: int, b: int| 0 <= a < b < units.len() ==> units[a].end_ms <= units[b].start_ms,
    ensures
        forall|e: int|
            0 <= e < overlapping(c, units, n).len() ==> exists|j: int|
                0 <= j < n && #[trigger] overlapping(c, units, n)[e] == units[j],
        forall|a: int, b: int|
            0 <= a < b < overlapping(c, units, n).len() ==> (#[trigger] overlapping(c, units, n)[a]).end_ms
                <= (#[trigger] overlapping(c, units, n)[b]).start_ms,
        forall|e: int| 0 <= e < overlapping(c, units, n).len() ==> unit_kept(c, #[trigger] overlapping(c, units, n)[e]),
    decreases n,
{
    if n > 0 {
        lemma_overlapping_order(c, units, n - 1);
        let p = overlapping(c, units, n - 1);
        let cur = overlapping(c, units, n);
        if unit_kept(c, units[n - 1]) {
            assert forall|e: int| 0 <= e < cur.len() implies exists|j: int| 0 <= j < n && #[trigger] cur[e] == units[j] by {
                if e < p.len() {
                    assert(cur[e] == p[e]);
                    let j = choose|j: int| 0 <= j < n - 1 && #[trigger] p[e] == units[j];
                } else {
                    assert(cur[e] == units[n - 1]);
                }
            }
            assert forall|a: int, b: int| 0 <= a < b < cur.len() implies (#[trigger] cur[a]).end_ms <= (#[trigger] cur[b]).start_ms by {
                assert(cur[a] == p[a]);
                if b < p.len() {
                    assert(cur[b] == p[b]);
                } else {
                    let j = choose|j: int| 0 <= j < n - 1 && #[trigger] p[a] == units[j];
                    assert(cur[b] == units[n - 1]);
                }
            }
            assert forall|e: int| 0 <= e < cur.len() implies unit_kept(c, #[trigger] cur[e]) by {
                if e < p.len() {
                    assert(cur[e] == p[e]);
                }
            }
        }
    }
}

/// Word timing of a cue into two or more parts: with fewer kept units than
/// parts there is no timing; a timing gives one cue per part, in order,
/// with the part's text and a non-empty span inside the cue.
pub proof fn lemma_word_timing_shape(c: CueView, parts: Seq<Seq<char>>, units: Seq<UnitView>)
    requires
        parts.len() >= 2,
        c.start_ms < c.end_ms,
    ensures
        kept_units(c, units).len() < parts.len() ==> word_timing(c, parts, units) is None,
        word_timing(c, parts, units) matches Some(out) ==> {
            &&& out.len() == parts.len()
            &&& forall|i: int|
                0 <= i < out.len() ==> (#[trigger] out[i]).text == normalize_ws(parts[i]) && c.start_ms <= out[i].start_ms
                    < out[i].end_ms <= c.end_ms
        },
        (forall|a: int, b: int| 0 <= a < b < units.len() ==> units[a].end_ms <= units[b].start_ms) ==> (word_timing(
            c,
            parts,
            units,
        ) matches Some(out) ==> forall|i: int| 0 <= i < out.len() - 1 ==> (#[trigger] out[i]).end_ms <= out[i + 1].start_ms),
{
    let ov = kept_units(c, units);
    if ov.len() >= parts.len() && weight_sum(parts, parts.len() as int) != 0 && unit_sum(ov, ov.len() as int) != 0 {
        let g = unit_groups(c, parts, ov);
        let n = parts.len() as int;
        lemma_grouped_cues_shape(c, parts, ov, g, n);
        lemma_group_chain(c, parts, ov, n - 1);
        lemma_group_run(c, parts, ov, n - 1);
        let (g0, prev_end, _acc) = group_run(c, parts, ov, n - 1);
        assert forall|j: int| 0 <= j < n implies 0 <= (#[trigger] g[j]).0 && g[j].1 <= ov.len() by {
            if j < n - 1 {
                assert(g[j] == g0[j]);
            } else {
                assert(g[j] == (prev_end, ov.len() as int));
            }
        }
        assert forall|j: int| 0 <= j < n - 1 implies (#[trigger] g[j]).1 == g[j + 1].0 by {
            assert(g[j] == g0[j]);
            if j + 1 < n - 1 {
                assert(g[j + 1] == g0[j + 1]);
            } else {
                assert(g[j + 1] == (prev_end, ov.len() as int));
            }
        }
        if forall|a: int, b: int| 0 <= a < b < units.len() ==> units[a].end_ms <= units[b].start_ms {
            lemma_overlapping_order(c, units, units.len() as int);
            if let Some(out) = word_timing(c, parts, units) {
                assert forall|i: int| 0 <= i < out.len() - 1 implies (#[trigger] out[i]).end_ms <= out[i + 1].start_ms by {
                    let ei = g[i].1;
                    assert(g[i + 1].0 == ei);
                    assert(out[i + 1].start_ms == clamp_start(c, ov[g[i + 1].0].start_ms as int));
                    assert(out[i].end_ms == clamp_end(c, ov[g[i].1 - 1].end_ms as int));
                    assert(g[i + 1].0 < g[i + 1].1);
                    assert(g[i].0 < g[i].1);
                    assert(0 <= g[i].0);
                    assert(g[i + 1].1 <= ov.len());
                    assert(ov[ei - 1].end_ms <= ov[ei].start_ms);
                    assert(unit_kept(c, ov[ei - 1]) && unit_kept(c, ov[ei]));
                }
            }
        }
    }
}

pub open spec fn word_timing_defined(c: CueView, parts: Seq<Seq<char>>, units: Seq<UnitView>) -> bool {
    let ov = kept_units(c, units);
    parts.len() <= 1 || ov.len() < parts.len() || (c.start_ms < c.end_ms && weight_sum(parts, parts.len() as int)
        <= usize::MAX && unit_sum(ov, ov.len() as int) <= usize::MAX)
}


pub proof fn lemma_group_run(c: CueView, parts: Seq<Seq<char>>, ov: Seq<UnitView>, k: int)
    requires
        0 <= k <= parts.len() - 1,
        ov.len() >= parts.len(),
    ensures
        group_run(c, parts, ov, k).2 == weight_sum(parts, k),
        group_run(c, parts, ov, k).0.len() == k,
        0 <= group_run(c, parts, ov, k).1 <= ov.len() - (parts.len() - k),
        k > 0 ==> group_run(c, parts, ov, k).1 >= k,
        forall|j: int|
            0 <= j < k ==> 0 <= #[trigger] group_run(c, parts, ov, k).0[j].0 && group_run(c, parts, ov, k).0[j].1
                <= ov.len(),
    decreases k,
{
    if k > 0 {
        lemma_group_run(c, parts, ov, k - 1);
        let (g, prev_end, acc) = group_run(c, parts, ov, k - 1);
        let idx = k - 1;
        let acc2 = acc + part_weight(parts[idx]);
        let target = acc2 * unit_sum(ov, ov.len() as int) / weight_sum(parts, parts.len() as int);
        let min_end = prev_end + 1;
        let max_end = ov.len() - (parts.len() - idx - 1);
        lemma_best_end(c, ov, target, prev_end, min_end, max_end, min_end, usize::MAX as int, min_end);
        let be = best_end(c, ov, target, prev_end, min_end, max_end, min_end, usize::MAX as int);
        assert forall|j: int| 0 <= j < k implies 0 <= #[trigger] group_run(c, parts, ov, k).0[j].0
            && group_run(c, parts, ov, k).0[j].1 <= ov.len() by {
            if j < k - 1 {
                assert(group_run(c, parts, ov, k).0[j] == g[j]);
            }
        }
    }
}

pub proof fn lemma_grouped_none(c: CueView, parts: Seq<Seq<char>>, ov: Seq<UnitView>, g: Seq<(int, int)>, n: int, m: int)
    requires
        0 <= n <= m,
        grouped_cues(c, parts, ov, g, n) is None,
    ensures
        grouped_cues(c, parts, ov, g, m) is None,
    decreases m,
{
    if m > n {
        lemma_grouped_none(c, parts, ov, g, n, m - 1);
    }
}

pub open spec fn pairs_view(s: Seq<(usize, usize)>) -> Seq<(int, int)> {
    s.map_values(|p: (usize, usize)| (p.0 as int, p.1 as int))
}

fn collect_overlapping(cue: &SubCue, units: &[TimeUnit]) -> (r: Vec<TimeUnit>)
    ensures
        units_view(r@) == kept_units(cue@, units_view(units@)),
{
    let ghost uv = units_view(units@);
    let mut ov: Vec<TimeUnit> = Vec::new();
    let mut i: usize = 0;
    while i < units.len()
        invariant
            i <= units.len() == uv.len(),
            uv == units_view(units@),
            units_view(ov@) == overlapping(cue@, uv, i as int),
        decreases units.len() - i,
    {
        let u = &units[i];
        assert(uv[i as int] == u@);
        if u.end_ms > cue.start_ms && u.start_ms < cue.end_ms && visible_chars(&u.text) > 0 {
            let ghost before = units_view(ov@);
            ov.push(clone_unit(u));
            assert(units_view(ov@) =~= before.push(u@));
        }
        i += 1;
    }
    ov
}

/// The running sums of the unit weights, from 0 to the total.
fn unit_prefix(ov: &Vec<TimeUnit>) -> (r: Vec<usize>)
    requires
        unit_sum(units_view(ov@), ov.len() as int) <= usize::MAX,
    ensures
        r.len() == ov.len() + 1,
        forall|k: int| 0 <= k <= ov.len() ==> #[trigger] r@[k] == unit_sum(units_view(ov@), k),
{
    let ghost ovs = units_view(ov@);
    let mut prefix: Vec<usize> = Vec::new();
    prefix.push(0);
    let mut j: usize = 0;
    while j < ov.len()
        invariant
            j <= ov.len() == ovs.len(),
            ovs == units_view(ov@),
            unit_sum(ovs, ovs.len() as int) <= usize::MAX,
            prefix.len() == j + 1,
            forall|k: int| 0 <= k <= j ==> #[trigger] prefix@[k] == unit_sum(ovs, k),
        decreases ov.len() - j,
    {
        proof {
            lemma_unit_sum_mono(ovs, j + 1, ovs.len() as int);
        }
        let n = visible_chars(&ov[j].text);
        let w: usize = if n > 1 {
            n
        } else {
            1
        };
        assert(ovs[j as int] == ov@[j as int]@);
        let next = prefix[j] + w;
        prefix.push(next);
        j += 1;
    }
    prefix
}

fn clamp_start_exec(cue: &SubCue, t: i64) -> (r: i128)
    requires
        cue.start_ms < cue.end_ms,
    ensures
        r == clamp_start(cue@, t as int),
{
    let lo = cue.start_ms as i128;
    let hi = cue.end_ms as i128 - 1;
    let x = t as i128;
    if x < lo {
        lo
    } else if x > hi {
        hi
    } else {
        x
    }
}

fn clamp_end_exec(cue: &SubCue, t: i64) -> (r: i128)
    requires
        cue.start_ms < cue.end_ms,
    ensures
        r == clamp_end(cue@, t as int),
{
    let lo = cue.start_ms as i128 + 1;
    let hi = cue.end_ms as i128;
    let x = t as i128;
    if x < lo {
        lo
    } else if x > hi {
        hi
    } else {
        x
    }
}

fn group_score_exec(cue: &SubCue, ov: &Vec<TimeUnit>, prefix: &Vec<usize>, target: usize, prev_end: usize, end: usize) -> (r: usize)
    requires
        cue.start_ms < cue.end_ms,
        prefix.len() == ov.len() + 1,
        forall|k: int| 0 <= k <= ov.len() ==> #[trigger] prefix@[k] == unit_sum(units_view(ov@), k),
        prev_end < ov.len(),
        1 <= end <= ov.len(),
    ensures
        r == group_score(cue@, units_view(ov@), target as int, prev_end as int, end as int),
{
    let ghost ovs = units_view(ov@);
    let pv = prefix[end];
    let dist: usize = if pv >= target {
        pv - target
    } else {
        target - pv
    };
    assert(ovs[prev_end as int] == ov@[prev_end as int]@);
    assert(ovs[end - 1] == ov@[end - 1]@);
    let st = clamp_start_exec(cue, ov[prev_end].start_ms);
    let en = clamp_end_exec(cue, ov[end - 1].end_ms);
    let d: i128 = en - st;
    let penalty: u128 = if d < 800 {
        ((800 - d) * 4) as u128
    } else {
        0
    };
    let d4: u128 = (dist as u128) * 4;
    let s1: u128 = if d4 <= usize::MAX as u128 {
        d4
    } else {
        usize::MAX as u128
    };
    let total: u128 = s1 + penalty;
    if total <= usize::MAX as u128 {
        total as usize
    } else {
        usize::MAX
    }
}

/// The end of the group that starts at unit `prev_end`: the first end in
/// `min_end..=max_end` with the lowest score.
fn choose_group_end(
    cue: &SubCue,
    ov: &Vec<TimeUnit>,
    prefix: &Vec<usize>,
    target: usize,
    prev_end: usize,
    min_end: usize,
    max_end: usize,
) -> (r: usize)
    requires
        cue.start_ms < cue.end_ms,
        prefix.len() == ov.len() + 1,
        forall|k: int| 0 <= k <= ov.len() ==> #[trigger] prefix@[k] == unit_sum(units_view(ov@), k),
        prev_end < ov.len(),
        min_end == prev_end + 1,
        min_end <= max_end <= ov.len(),
    ensures
        r == best_end(
            cue@,
            units_view(ov@),
            target as int,
            prev_end as int,
            min_end as int,
            max_end as int,
            min_end as int,
            usize::MAX as int,
        ),
{
    let ghost goal = best_end(
        cue@,
        units_view(ov@),
        target as int,
        prev_end as int,
        min_end as int,
        max_end as int,
        min_end as int,
        usize::MAX as int,
    );
    let mut be: usize = min_end;
    let mut bs: usize = usize::MAX;
    let mut end: usize = min_end;
    while end <= max_end
        invariant
            cue.start_ms < cue.end_ms,
            prefix.len() == ov.len() + 1,
            forall|k: int| 0 <= k <= ov.len() ==> #[trigger] prefix@[k] == unit_sum(units_view(ov@), k),
            prev_end < ov.len(),
            min_end == prev_end + 1,
            min_end <= end <= max_end + 1,
            max_end <= ov.len(),
            best_end(cue@, units_view(ov@), target as int, prev_end as int, end as int, max_end as int, be as int, bs as int)
                == goal,
        decreases max_end + 1 - end,
    {
        let score = group_score_exec(cue, ov, prefix, target, prev_end, end);
        if score < bs {
            bs = score;
            be = end;
        }
        end += 1;
    }
    be
}

pub fn apply_word_timing(cue: &SubCue, parts: &[String], units: &[TimeUnit]) -> (r: Option<Vec<SubCue>>)
    requires
        word_timing_defined(cue@, strings_view(parts@), units_view(units@)),
    ensures
        match r {
            Some(v) => word_timing(cue@, strings_view(parts@), units_view(units@)) == Some(cues_view(v@)),
            None => word_timing(cue@, strings_view(parts@), units_view(units@)) is None,
        },
{
    let ghost ps = strings_view(parts@);
    let ghost c = cue@;
    let count = parts.len();
    if count <= 1 {
        let out = vec![SubCue { index: 0, start_ms: cue.start_ms, end_ms: cue.end_ms, text: normalize_part_text(&cue.text) }];
        assert(cues_view(out@) =~= seq![CueView { index: 0, start_ms: c.start_ms, end_ms: c.end_ms, text: normalize_ws(c.text) }]);
        return Some(out);
    }
    let ov = collect_overlapping(cue, units);
    let ghost ovs = units_view(ov@);
    if ov.len() < count {
        return None;
    }
    let prefix = unit_prefix(&ov);
    let total_unit = prefix[ov.len()];
    let mut total_part: usize = 0;
    let mut i: usize = 0;
    while i < count
        invariant
            i <= count == parts.len() == ps.len(),
            ps == strings_view(parts@),
            total_part == weight_sum(ps, i as int),
            weight_sum(ps, count as int) <= usize::MAX,
        decreases count - i,
    {
        proof {
            lemma_weight_sum_mono(ps, i + 1, count as int);
        }
        assert(ps[i as int] == parts@[i as int]@);
        total_part = total_part + part_weight_exec(&parts[i]);
        i += 1;
    }
    proof {
        lemma_weight_sum_mono(ps, 0, count as int);
        lemma_unit_sum_mono(ovs, 0, ovs.len() as int);
    }
    if total_part == 0 || total_unit == 0 {
        return None;
    }
    let mut groups: Vec<(usize, usize)> = Vec::new();
    let mut prev_end: usize = 0;
    let mut part_acc: usize = 0;
    let mut part_idx: usize = 0;
    while part_idx < count - 1
        invariant
            2 <= count == parts.len() == ps.len(),
            ps == strings_view(parts@),
            c == cue@,
            c.start_ms < c.end_ms,
            ovs == units_view(ov@),
            ov.len() >= count,
            prefix.len() == ov.len() + 1,
            forall|k: int| 0 <= k <= ov.len() ==> #[trigger] prefix@[k] == unit_sum(ovs, k),
            total_unit == unit_sum(ovs, ovs.len() as int),
            total_part == weight_sum(ps, count as int),
            total_part > 0,
            part_idx <= count - 1,
            (pairs_view(groups@), prev_end as int, part_acc as int) == group_run(c, ps, ovs, part_idx as int),
        decreases count - 1 - part_idx,
    {
        proof {
            lemma_group_run(c, ps, ovs, part_idx as int);
            lemma_weight_sum_mono(ps, part_idx + 1, count as int);
        }
        assert(ps[part_idx as int] == parts@[part_idx as int]@);
        part_acc = part_acc + part_weight_exec(&parts[part_idx]);
        assert(part_acc as int * total_unit as int <= total_part as int * total_unit as int) by (nonlinear_arith)
            requires
                part_acc <= total_part,
        ;
        assert(part_acc as int * total_unit as int / total_part as int <= total_unit as int) by (nonlinear_arith)
            requires
                part_acc <= total_part,
                total_part > 0,
        ;
        assert(total_part as int * total_unit as int <= 0xffff_ffff_ffff_ffffint * 0xffff_ffff_ffff_ffffint) by (nonlinear_arith)
            requires
                total_part <= 0xffff_ffff_ffff_ffffint,
                total_unit <= 0xffff_ffff_ffff_ffffint,
        ;
        let prod: u128 = (part_acc as u128) * (total_unit as u128);
        let target: usize = (prod / (total_part as u128)) as usize;
        let min_end = prev_end + 1;
        let max_end = ov.len() - (count - part_idx - 1);
        let be = choose_group_end(cue, &ov, &prefix, target, prev_end, min_end, max_end);
        let ghost before = pairs_view(groups@);
        groups.push((prev_end, be));
        assert(pairs_view(groups@) =~= before.push((prev_end as int, be as int)));
        prev_end = be;
        part_idx += 1;
    }
    proof {
        lemma_group_run(c, ps, ovs, part_idx as int);
    }
    let ghost before = pairs_view(groups@);
    groups.push((prev_end, ov.len()));
    assert(pairs_view(groups@) =~= before.push((prev_end as int, ov.len() as int)));
    let ghost g = unit_groups(c, ps, ovs);
    assert(pairs_view(groups@) == g);
    assert(kept_units(c, units_view(units@)) == ovs);
    assert(word_timing(c, ps, units_view(units@)) == grouped_cues(c, ps, ovs, g, count as int));
    assert forall|j: int| 0 <= j < count implies 0 <= #[trigger] g[j].0 && g[j].1 <= ov.len() by {
        if j < count - 1 {
            assert(g[j] == group_run(c, ps, ovs, count - 1).0[j]);
        }
    }
    let mut out: Vec<SubCue> = Vec::new();
    let mut k: usize = 0;
    while k < count
        invariant
            2 <= count == parts.len() == ps.len(),
            ps == strings_view(parts@),
            c == cue@,
            c.start_ms < c.end_ms,
            ovs == units_view(ov@),
            groups.len() == count,
            pairs_view(groups@) == g,
            forall|j: int| 0 <= j < count ==> 0 <= #[trigger] g[j].0 && g[j].1 <= ov.len(),
            k <= count,
            word_timing(c, ps, units_view(units@)) == grouped_cues(c, ps, ovs, g, count as int),
            grouped_cues(c, ps, ovs, g, k as int) == Some(cues_view(out@)),
        decreases count - k,
    {
        let (si, ei) = groups[k];
        assert(g[k as int] == (si as int, ei as int));
        if si >= ei {
            proof {
                lemma_grouped_none(c, ps, ovs, g, k + 1, count as int);
            }
            return None;
        }
        assert(ovs[si as int] == ov@[si as int]@);
        assert(ovs[ei - 1] == ov@[ei - 1]@);
        let st = clamp_start_exec(cue, ov[si].start_ms);
        let en = clamp_end_exec(cue, ov[ei - 1].end_ms);
        if en <= st {
            proof {
                lemma_grouped_none(c, ps, ovs, g, k + 1, count as int);
            }
            return None;
        }
        assert(ps[k as int] == parts@[k as int]@);
        let ghost before = cues_view(out@);
        out.push(SubCue { index: 0, start_ms: st as i64, end_ms: en as i64, text: normalize_part_text(&parts[k]) });
        assert(cues_view(out@) =~= before.push(
            CueView { index: 0, start_ms: st as i64, end_ms: en as i64, text: normalize_ws(ps[k as int]) },
        ));
        k += 1;
    }
    Some(out)
}


// ---------------------------------------------------------------------------
// Cut positions proposed by an LLM
// ---------------------------------------------------------------------------

/// `x` inserted into an increasing sequence, unless it is already there.
pub open spec fn insert_uniq(r: Seq<usize>, x: usize) -> Seq<usize>
    decreases r.len(),
{
    if r.len() == 0 {
        seq![x]
    } else if x < r[0] {
        seq![x] + r
    } else if x == r[0] {
        r
    } else {
        seq![r[0]] + insert_uniq(r.drop_first(), x)
    }
}

/// The values of `s[..n]` in increasing order, each once (`sort_unstable`
/// followed by `dedup`).
pub open spec fn sorted_set(s: Seq<usize>, n: int) -> Seq<usize>
    decreases n,
{
    if n <= 0 || n > s.len() {
        seq![]
    } else {
        insert_uniq(sorted_set(s, n - 1), s[n - 1])
    }
}

pub open spec fn increasing(r: Seq<usize>) -> bool {
    forall|a: int, b: int| 0 <= a < b < r.len() ==> #[trigger] r[a] < #[trigger] r[b]
}

proof fn lemma_insert_uniq(r: Seq<usize>, x: usize)
    requires
        increasing(r),
    ensures
        increasing(insert_uniq(r, x)),
        forall|y: usize| #[trigger] insert_uniq(r, x).contains(y) <==> (r.contains(y) || y == x),
    decreases r.len(),
{
    if r.len() == 0 {
        assert forall|y: usize| #[trigger] insert_uniq(r, x).contains(y) <==> (r.contains(y) || y == x) by {
            if y == x {
                assert(insert_uniq(r, x)[0] == y);
            }
        }
    } else if x < r[0] {
        let t = seq![x] + r;
        assert forall|a: int, b: int| 0 <= a < b < t.len() implies #[trigger] t[a] < #[trigger] t[b] by {
            if a > 0 {
                assert(t[a] == r[a - 1] && t[b] == r[b - 1]);
            } else {
                assert(r[0] <= r[b - 1]) by {
                    if b - 1 > 0 {
                        assert(r[0] < r[b - 1]);
                    }
                }
            }
        }
        assert forall|y: usize| t.contains(y) <==> (r.contains(y) || y == x) by {
            if r.contains(y) {
                let k = choose|k: int| 0 <= k < r.len() && r[k] == y;
                assert(t[k + 1] == y);
            }
            if y == x {
                assert(t[0] == y);
            }
            if t.contains(y) && y != x {
                let k = choose|k: int| 0 <= k < t.len() && t[k] == y;
                assert(r[k - 1] == y);
            }
        }
    } else if x == r[0] {
        assert forall|y: usize| #[trigger] insert_uniq(r, x).contains(y) <==> (r.contains(y) || y == x) by {
            if y == x {
                assert(r[0] == y);
            }
        }
    } else {
        let rest = r.drop_first();
        assert(increasing(rest)) by {
            assert forall|a: int, b: int| 0 <= a < b < rest.len() implies #[trigger] rest[a] < #[trigger] rest[b] by {
                assert(rest[a] == r[a + 1] && rest[b] == r[b + 1]);
            }
        }
        lemma_insert_uniq(rest, x);
        let ins = insert_uniq(rest, x);
        let t = seq![r[0]] + ins;
        assert forall|a: int, b: int| 0 <= a < b < t.len() implies #[trigger] t[a] < #[trigger] t[b] by {
            if a > 0 {
                assert(t[a] == ins[a - 1] && t[b] == ins[b - 1]);
            } else {
                let y = ins[b - 1];
                assert(0 <= b - 1 < ins.len());
                assert(ins[b - 1] == y);
                assert(ins.contains(y));
                assert(rest.contains(y) || y == x);
                if rest.contains(y) {
                    let k = choose|k: int| 0 <= k < rest.len() && rest[k] == y;
                    assert(r[k + 1] == y);
                }
            }
        }
        assert forall|y: usize| t.contains(y) <==> (r.contains(y) || y == x) by {
            if r.contains(y) {
                let k = choose|k: int| 0 <= k < r.len() && r[k] == y;
                if k > 0 {
                    assert(rest[k - 1] == y);
                    assert(rest.contains(y));
                    assert(insert_uniq(rest, x).contains(y) <==> (rest.contains(y) || y == x));
                    assert(ins.contains(y));
                    let m = choose|m: int| 0 <= m < ins.len() && ins[m] == y;
                    assert(t[m + 1] == y);
                } else {
                    assert(t[0] == y);
                }
            }
            if y == x {
                assert(insert_uniq(rest, x).contains(y) <==> (rest.contains(y) || y == x));
                assert(ins.contains(y));
                let m = choose|m: int| 0 <= m < ins.len() && ins[m] == y;
                assert(t[m + 1] == y);
            }
            if t.contains(y) {
                let k = choose|k: int| 0 <= k < t.len() && t[k] == y;
                if k > 0 {
                    assert(ins[k - 1] == y);
                    assert(ins.contains(y));
                    if rest.contains(y) {
                        let m = choose|m: int| 0 <= m < rest.len() && rest[m] == y;
                        assert(r[m + 1] == y);
                    }
                } else {
                    assert(r[0] == y);
                }
            }
        }
    }
}

/// `sort_unstable` followed by `dedup` yields the distinct values in
/// increasing order.
pub proof fn lemma_sorted_set(s: Seq<usize>, n: int)
    requires
        0 <= n <= s.len(),
    ensures
        increasing(sorted_set(s, n)),
        forall|y: usize| sorted_set(s, n).contains(y) <==> s.take(n).contains(y),
    decreases n,
{
    if n > 0 {
        lemma_sorted_set(s, n - 1);
        lemma_insert_uniq(sorted_set(s, n - 1), s[n - 1]);
        assert forall|y: usize| sorted_set(s, n).contains(y) <==> s.take(n).contains(y) by {
            assert(sorted_set(s, n - 1).contains(y) <==> s.take(n - 1).contains(y));
            assert(insert_uniq(sorted_set(s, n - 1), s[n - 1]).contains(y) <==> (sorted_set(s, n - 1).contains(y) || y
                == s[n - 1]));
            if s.take(n - 1).contains(y) {
                let k = choose|k: int| 0 <= k < s.take(n - 1).len() && #[trigger] s.take(n - 1)[k] == y;
                assert(s.take(n)[k] == y);
            }
            if y == s[n - 1] {
                assert(s.take(n)[n - 1] == y);
            }
            if s.take(n).contains(y) {
                let k = choose|k: int| 0 <= k < s.take(n).len() && #[trigger] s.take(n)[k] == y;
                if k < n - 1 {
                    assert(s.take(n - 1)[k] == y);
                }
            }
        }
    }
}

proof fn lemma_insert_uniq_at(r: Seq<usize>, x: usize, p: int)
    requires
        0 <= p <= r.len(),
        forall|k: int| 0 <= k < p ==> #[trigger] r[k] < x,
        p < r.len() ==> r[p] >= x,
    ensures
        insert_uniq(r, x) == if p < r.len() && r[p] == x {
            r
        } else {
            r.take(p) + seq![x] + r.skip(p)
        },
    decreases p,
{
    if p > 0 {
        let rest = r.drop_first();
        assert forall|k: int| 0 <= k < p - 1 implies #[trigger] rest[k] < x by {
            assert(rest[k] == r[k + 1]);
        }
        lemma_insert_uniq_at(rest, x, p - 1);
        if p < r.len() && r[p] == x {
            assert(seq![r[0]] + rest =~= r);
        } else {
            assert(seq![r[0]] + (rest.take(p - 1) + seq![x] + rest.skip(p - 1)) =~= r.take(p) + seq![x] + r.skip(p));
        }
    } else {
        if r.len() > 0 && r[0] == x {
        } else {
            assert(r.take(0) + seq![x] + r.skip(0) =~= seq![x] + r);
        }
    }
}

/// The distinct values of `v`, in increasing order.
pub fn sort_dedup(v: &Vec<usize>) -> (r: Vec<usize>)
    ensures
        r@ == sorted_set(v@, v.len() as int),
        increasing(r@),
        forall|y: usize| r@.contains(y) <==> v@.contains(y),
{
    let mut out: Vec<usize> = Vec::new();
    let mut i: usize = 0;
    while i < v.len()
        invariant
            i <= v.len(),
            out@ == sorted_set(v@, i as int),
            increasing(out@),
        decreases v.len() - i,
    {
        let x = v[i];
        let mut p: usize = 0;
        while p < out.len() && out[p] < x
            invariant
                p <= out.len(),
                forall|k: int| 0 <= k < p ==> #[trigger] out@[k] < x,
            decreases out.len() - p,
        {
            p += 1;
        }
        proof {
            lemma_insert_uniq_at(out@, x, p as int);
            lemma_insert_uniq(out@, x);
        }
        if !(p < out.len() && out[p] == x) {
            let ghost before = out@;
            out.insert(p, x);
            assert(out@ =~= before.take(p as int) + seq![x] + before.skip(p as int));
        }
        i += 1;
    }
    proof {
        lemma_sorted_set(v@, v.len() as int);
        assert(v@.take(v.len() as int) =~= v@);
    }
    out
}

/// The model output with fences removed: the bracketed span where there is
/// one, else the text without leading and trailing code fences.
pub open spec fn cut_fence(s: Seq<char>) -> Seq<char> {
    let t = trim(s);
    match crate::openai_compat::bracket_span(t) {
        Some((i, j)) => t.subrange(i, j + 1),
        None => trim(
            crate::openai_compat::strip_suffixes(
                crate::openai_compat::strip_prefixes(crate::openai_compat::strip_prefixes(t, "```json"@), "```"@),
                "```"@,
            ),
        ),
    }
}

pub fn strip_json_fence(s: &str) -> (r: String)
    requires
        crate::openai_compat::bracket_slice_ok(trim(s@)),
    ensures
        r@ == cut_fence(s@),
{
    let v = chars_of(s);
    let (a, b) = crate::text::trim_bounds(&v, crate::text::CharClass::Whitespace);
    let t = crate::text::sub_vec(&v, a, b);
    assert(t@ == trim(s@));
    match crate::openai_compat::bracket_slice(&t) {
        Some(x) => string_of(&x),
        None => {
            let p1 = chars_of("```json");
            let p2 = chars_of("```");
            let u1 = crate::openai_compat::strip_prefixes_exec(&t, &p1);
            let u2 = crate::openai_compat::strip_prefixes_exec(&u1, &p2);
            let u3 = crate::openai_compat::strip_suffixes_exec(&u2, &p2);
            let u4 = crate::text::trim_vec(&u3, crate::text::CharClass::Whitespace);
            string_of(&u4)
        },
    }
}

/// The cut positions read from model output: a JSON array of character
/// positions, distinct and increasing, each inside the text; `None` where
/// the output is not such an array or a position is out of range.
pub open spec fn cut_positions(content: Seq<char>, char_len: int) -> Option<Seq<usize>> {
    match crate::json::json_of_text(cut_fence(content)) {
        None => None,
        Some(v) => match crate::json::usize_items(v) {
            None => None,
            Some(raw) => {
                let cuts = sorted_set(raw, raw.len() as int);
                if exists|k: int| 0 <= k < cuts.len() && (cuts[k] == 0 || cuts[k] >= char_len) {
                    None
                } else {
                    Some(cuts)
                }
            },
        },
    }
}

pub fn parse_cut_positions(content: &str, char_len: usize) -> (r: Result<Vec<usize>, String>)
    requires
        crate::openai_compat::bracket_slice_ok(trim(content@)),
    ensures
        match r {
            Ok(c) => cut_positions(content@, char_len as int) == Some(c@),
            Err(_) => cut_positions(content@, char_len as int) is None,
        },
{
    let trimmed = strip_json_fence(content);
    let v = match crate::json::parse_json(&trimmed) {
        Ok(v) => v,
        Err(e) => {
            let mut m = String::new();
            crate::text::push_str(&mut m, "LLM cut JSON parse failed: ");
            let et = crate::json::json_error_text(&e);
            crate::text::push_str(&mut m, &et);
            return Err(m);
        },
    };
    let raw = match crate::json::usize_items_exec(&v) {
        Some(raw) => raw,
        None => {
            let mut m = String::new();
            crate::text::push_str(&mut m, "LLM cut JSON parse failed: expected an array of non-negative integers");
            return Err(m);
        },
    };
    let cuts = sort_dedup(&raw);
    let mut k: usize = 0;
    while k < cuts.len()
        invariant
            k <= cuts.len(),
            forall|j: int| 0 <= j < k ==> !(#[trigger] cuts@[j] == 0 || cuts@[j] >= char_len),
            cuts@ == sorted_set(raw@, raw.len() as int),
            trimmed@ == cut_fence(content@),
            crate::json::json_of_text(trimmed@) == Some(v),
            crate::json::usize_items(v) == Some(raw@),
        decreases cuts.len() - k,
    {
        if cuts[k] == 0 || cuts[k] >= char_len {
            assert(cuts@[k as int] == 0 || cuts@[k as int] >= char_len);
            let mut m = String::new();
            crate::text::push_str(&mut m, "LLM cut positions were out of range.");
            return Err(m);
        }
        k += 1;
    }
    Ok(cuts)
}


// ---------------------------------------------------------------------------
// Splitting by an LLM
// ---------------------------------------------------------------------------

pub const CUT_SYSTEM_PROMPT: &'static str =
    "You return only JSON cut positions for subtitle segmentation. Do not rewrite the text.";

/// The user message asking for cut positions.
pub open spec fn cut_prompt(text: Seq<char>, char_len: nat, desired_count: nat) -> Seq<char> {
    "Given one subtitle text, return a JSON array of 0-based Unicode character cut positions.\nRequirements:\n1. Cut only at natural phrase boundaries.\n2. Do not return 0 or the full length "@
        + crate::text::dec(char_len)
        + ".\n3. Target about "@ + crate::text::dec(desired_count)
        + " subtitle parts, but you may return fewer cuts if the sentence should stay intact.\n4. Output JSON only, for example [12, 27].\n5. Do not modify the original text.\nText:\n"@
        + text
}

fn cut_prompt_exec(text: &str, char_len: usize, desired_count: usize) -> (r: String)
    ensures
        r@ == cut_prompt(text@, char_len as nat, desired_count as nat),
{
    let mut out = String::new();
    crate::text::push_str(
        &mut out,
        "Given one subtitle text, return a JSON array of 0-based Unicode character cut positions.\nRequirements:\n1. Cut only at natural phrase boundaries.\n2. Do not return 0 or the full length ",
    );
    let a = crate::text::dec_u64(char_len as u64);
    crate::text::push_str(&mut out, &string_of(&a));
    crate::text::push_str(&mut out, ".\n3. Target about ");
    let b = crate::text::dec_u64(desired_count as u64);
    crate::text::push_str(&mut out, &string_of(&b));
    crate::text::push_str(
        &mut out,
        " subtitle parts, but you may return fewer cuts if the sentence should stay intact.\n4. Output JSON only, for example [12, 27].\n5. Do not modify the original text.\nText:\n",
    );
    crate::text::push_str(&mut out, text);
    out
}

/// The parts of a job that decide how a cue is split.
pub struct JobView {
    pub strategy: Seq<char>,
    pub timing_mode: Seq<char>,
    pub max_chars: u32,
    pub max_duration: u32,
    pub llm_ok: bool,
}

pub open spec fn job_view(job: &SegmentationJob) -> JobView {
    JobView {
        strategy: job.strategy@,
        timing_mode: job.timing_mode@,
        max_chars: job.max_chars_per_segment,
        max_duration: job.max_duration_ms,
        llm_ok: llm_available(job.llm_base_url@, job.llm_model@, job.llm_api_key@),
    }
}

pub open spec fn max_u32(a: u32, b: u32) -> u32 {
    if a >= b {
        a
    } else {
        b
    }
}

/// Whether the cue is split at all (the limits count as at least 1).
pub open spec fn cue_needs_split(jv: JobView, c: CueView) -> bool {
    should_split(c, max_u32(jv.max_chars, 1), max_u32(jv.max_duration, 1) as int)
}

pub open spec fn uses_llm(jv: JobView) -> bool {
    (jv.strategy == "auto"@ || jv.strategy == "llm_preferred"@) && jv.llm_ok
}

/// Whether segmentation asks the LLM about this cue.
pub open spec fn needs_llm_request(jv: JobView, c: CueView) -> bool {
    jv.strategy != "disabled"@ && cue_needs_split(jv, c) && uses_llm(jv) && c.text.len() >= 2
}

/// The request that asks the LLM where to cut a cue, where segmentation
/// makes one.
pub fn llm_segmentation_request(job: &SegmentationJob, cue: &SubCue) -> (r: Option<ChatRequest>)
    ensures
        r is Some <==> needs_llm_request(job_view(job), cue@),
        r matches Some(q) ==> {
            &&& q.url@ == chat_url(job.llm_base_url@)
            &&& q.body@ == chat_body(
                job.llm_model@,
                CUT_SYSTEM_PROMPT@,
                cut_prompt(cue.text@, cue.text@.len(), desired(cue@, job.max_chars_per_segment, job.max_duration_ms) as nat),
                "0.1"@,
                256,
            )
            &&& q.authorization@ == bearer(job.llm_api_key@)
            &&& q.timeout_secs == if job.llm_timeout_sec >= 5 { job.llm_timeout_sec } else { 5 }
        },
{
    if str_eq(job.strategy, "disabled") {
        return None;
    }
    let mc = if job.max_chars_per_segment > 1 { job.max_chars_per_segment } else { 1 };
    let md = if job.max_duration_ms > 1 { job.max_duration_ms } else { 1 };
    if !cue_should_split(cue, mc, md as i64) {
        return None;
    }
    if !(str_eq(job.strategy, "auto") || str_eq(job.strategy, "llm_preferred")) || !llm_is_available(job) {
        return None;
    }
    let v = chars_of(&cue.text);
    if v.len() < 2 {
        return None;
    }
    let d = desired_parts(cue, job.max_chars_per_segment, job.max_duration_ms);
    let user = cut_prompt_exec(&cue.text, v.len(), d);
    let body = chat_request_body(job.llm_model, CUT_SYSTEM_PROMPT, &user, "0.1", 256);
    Some(
        ChatRequest {
            url: chat_completions_url(job.llm_base_url),
            body,
            authorization: bearer_header(job.llm_api_key),
            timeout_secs: if job.llm_timeout_sec >= 5 {
                job.llm_timeout_sec
            } else {
                5
            },
        },
    )
}

/// The parts the LLM's cut positions give, snapped to safe boundaries;
/// `None` where the request failed or the reply is unusable.
pub open spec fn llm_cut_parts(text: Seq<char>, reply: Option<Result<HttpReply, String>>) -> Option<Seq<Seq<char>>> {
    if text.len() < 2 {
        Some(seq![normalize_ws(text)])
    } else {
        match reply_text(reply) {
            None => None,
            Some(content) => match cut_positions(content, text.len() as int) {
                None => None,
                Some(raw) => {
                    let parts = safe_parts(text, snapped_cuts(text, raw));
                    if parts.len() <= 1 {
                        Some(seq![normalize_ws(text)])
                    } else {
                        Some(parts)
                    }
                },
            },
        }
    }
}

/// Where reading a reply does not panic: the bracket span of its content
/// can be sliced.
pub open spec fn llm_reply_defined(text: Seq<char>, reply: Option<Result<HttpReply, String>>) -> bool {
    text.len() < 2 || match reply_text(reply) {
        Some(content) => crate::openai_compat::bracket_slice_ok(trim(content)),
        None => true,
    }
}

/// Splits a cue's text at the cut positions in an LLM reply.
pub fn split_by_llm_reply(text: &str, reply: &Option<Result<HttpReply, String>>) -> (r: Option<Vec<String>>)
    requires
        llm_reply_defined(text@, *reply),
    ensures
        match r {
            Some(p) => llm_cut_parts(text@, *reply) == Some(strings_view(p@)),
            None => llm_cut_parts(text@, *reply) is None,
        },
{
    let v = chars_of(text);
    if v.len() < 2 {
        let out = vec![normalize_part_text(text)];
        assert(strings_view(out@) =~= seq![normalize_ws(text@)]);
        return Some(out);
    }
    let content = match reply_text_exec(reply) {
        Some(c) => c,
        None => return None,
    };
    let raw = match parse_cut_positions(&content, v.len()) {
        Ok(raw) => raw,
        Err(_) => return None,
    };
    let safe = snap_llm_cuts_to_boundaries(text, raw.as_slice());
    let parts = split_by_safe_positions(text, safe.as_slice());
    if parts.len() <= 1 {
        let out = vec![normalize_part_text(text)];
        assert(strings_view(out@) =~= seq![normalize_ws(text@)]);
        return Some(out);
    }
    Some(parts)
}


// ---------------------------------------------------------------------------
// Segmenting cues
// ---------------------------------------------------------------------------

pub const LLM_PREFERRED_UNAVAILABLE: &'static str =
    "LLM-preferred segmentation requested but no usable LLM configuration is available.";

pub const TIMING_FALLBACK_NOTE: &'static str = "Subtitle timing fell back to approximate reflow.";

/// The parts a cue that needs splitting is split into.
pub open spec fn split_parts(jv: JobView, c: CueView, reply: Option<Result<HttpReply, String>>) -> Result<
    Seq<Seq<char>>,
    Seq<char>,
> {
    let d = desired(c, jv.max_chars, jv.max_duration);
    if jv.strategy == "rules_only"@ {
        Ok(rule_parts(c.text, d))
    } else if jv.strategy == "auto"@ || jv.strategy == "llm_preferred"@ {
        if jv.llm_ok {
            match llm_cut_parts(c.text, reply) {
                Some(p) => Ok(p),
                None => {
                    let fb = rule_parts(c.text, d);
                    Ok(
                        if fb.len() == 0 {
                            seq![normalize_ws(c.text)]
                        } else {
                            fb
                        },
                    )
                },
            }
        } else if jv.strategy == "auto"@ {
            Ok(rule_parts(c.text, d))
        } else {
            Err(LLM_PREFERRED_UNAVAILABLE@)
        }
    } else {
        Ok(seq![normalize_ws(c.text)])
    }
}

/// The parts of a cue: its normalized text where it needs no split.
pub open spec fn cue_parts(jv: JobView, c: CueView, reply: Option<Result<HttpReply, String>>) -> Result<
    Seq<Seq<char>>,
    Seq<char>,
> {
    if cue_needs_split(jv, c) {
        split_parts(jv, c, reply)
    } else {
        Ok(seq![normalize_ws(c.text)])
    }
}

/// The timed cues for one cue's parts, before merging, and whether timing
/// had to fall back to reflow in word-timestamp mode.
pub open spec fn timed_parts(jv: JobView, c: CueView, parts: Seq<Seq<char>>, units: Seq<UnitView>) -> (Seq<CueView>, bool) {
    if parts.len() <= 1 {
        (seq![CueView { index: 0, start_ms: c.start_ms, end_ms: c.end_ms, text: normalize_ws(c.text) }], false)
    } else {
        match word_timing(c, parts, units) {
            Some(w) => (w, false),
            None => (approx_timing(c, parts), jv.timing_mode == "word_timestamps_first"@),
        }
    }
}

/// One cue segmented: its merged cues and whether a fallback note is due.
pub open spec fn cue_segment(jv: JobView, c: CueView, units: Seq<UnitView>, reply: Option<Result<HttpReply, String>>) -> Result<
    (Seq<CueView>, bool),
    Seq<char>,
> {
    match cue_parts(jv, c, reply) {
        Err(e) => Err(e),
        Ok(p) => {
            let (t, note) = timed_parts(jv, c, p, units);
            Ok((merge_short(t, 0), note))
        },
    }
}

/// Where segmenting one cue runs without a panic.
pub open spec fn cue_segment_defined(jv: JobView, c: CueView, units: Seq<UnitView>, reply: Option<Result<HttpReply, String>>) -> bool {
    &&& (cue_needs_split(jv, c) && uses_llm(jv)) ==> llm_reply_defined(c.text, reply)
    &&& match cue_parts(jv, c, reply) {
        Ok(p) => p.len() <= 1 || (word_timing_defined(c, p, units) && (word_timing(c, p, units) is None
            ==> approx_defined(c, p))),
        Err(_) => true,
    }
}

/// The reply for cue `i`, where there is one.
pub open spec fn reply_at(replies: Seq<Option<Result<HttpReply, String>>>, i: int) -> Option<Result<HttpReply, String>> {
    if 0 <= i < replies.len() {
        replies[i]
    } else {
        None
    }
}

/// The units used for timing: those given, in word-timestamp mode only.
pub open spec fn effective_timing_units(jv: JobView, units: Seq<UnitView>) -> Seq<UnitView> {
    if jv.timing_mode == "word_timestamps_first"@ {
        units
    } else {
        seq![]
    }
}

/// The first `n` cues segmented, with the notes collected; the first error
/// ends the run.
pub open spec fn segment_run(
    jv: JobView,
    cues: Seq<CueView>,
    units: Seq<UnitView>,
    replies: Seq<Option<Result<HttpReply, String>>>,
    n: int,
) -> Result<(Seq<CueView>, Seq<Seq<char>>), Seq<char>>
    decreases n,
{
    if n <= 0 || n > cues.len() {
        Ok((seq![], seq![]))
    } else {
        match segment_run(jv, cues, units, replies, n - 1) {
            Err(e) => Err(e),
            Ok((out, notes)) => match cue_segment(jv, cues[n - 1], effective_timing_units(jv, units), reply_at(replies, n - 1)) {
                Err(e) => Err(e),
                Ok((segs, note)) => Ok(
                    (
                        out + segs,
                        if note {
                            notes.push(TIMING_FALLBACK_NOTE@)
                        } else {
                            notes
                        },
                    ),
                ),
            },
        }
    }
}

/// Where segmentation runs without a panic: every cue it reaches does.
pub open spec fn segment_defined(
    jv: JobView,
    cues: Seq<CueView>,
    units: Seq<UnitView>,
    replies: Seq<Option<Result<HttpReply, String>>>,
) -> bool {
    cues.len() == 0 || jv.strategy == "disabled"@ || forall|i: int|
        0 <= i < cues.len() && #[trigger] segment_run(jv, cues, units, replies, i) is Ok ==> cue_segment_defined(
            jv,
            cues[i],
            effective_timing_units(jv, units),
            reply_at(replies, i),
        )
}

/// The distinct notes among `notes[..n]`, in order of first appearance.
pub open spec fn uniq_notes(notes: Seq<Seq<char>>, n: int) -> Seq<Seq<char>>
    decreases n,
{
    if n <= 0 || n > notes.len() {
        seq![]
    } else {
        let u = uniq_notes(notes, n - 1);
        if u.contains(notes[n - 1]) {
            u
        } else {
            u.push(notes[n - 1])
        }
    }
}

/// Texts joined with a separator.
pub open spec fn join_with(items: Seq<Seq<char>>, sep: Seq<char>) -> Seq<char>
    decreases items.len(),
{
    if items.len() == 0 {
        seq![]
    } else if items.len() == 1 {
        items[0]
    } else {
        join_with(items.drop_last(), sep) + sep + items.last()
    }
}

/// The distinct notes joined by `", "`, or `None` where there are none.
pub open spec fn deduped_note(notes: Seq<Seq<char>>) -> Option<Seq<char>> {
    let u = uniq_notes(notes, notes.len() as int);
    if u.len() == 0 {
        None
    } else {
        Some(join_with(u, ", "@))
    }
}

pub fn dedupe_notes(notes: Vec<String>) -> (r: Option<String>)
    ensures
        match r {
            Some(s) => deduped_note(strings_view(notes@)) == Some(s@),
            None => deduped_note(strings_view(notes@)) is None,
        },
{
    let ghost ns = strings_view(notes@);
    let mut uniq: Vec<String> = Vec::new();
    let mut i: usize = 0;
    while i < notes.len()
        invariant
            i <= notes.len() == ns.len(),
            ns == strings_view(notes@),
            strings_view(uniq@) == uniq_notes(ns, i as int),
        decreases notes.len() - i,
    {
        assert(ns[i as int] == notes@[i as int]@);
        let mut found = false;
        let mut k: usize = 0;
        while k < uniq.len()
            invariant
                k <= uniq.len(),
                i < notes.len(),
                found <==> exists|m: int| 0 <= m < k && #[trigger] strings_view(uniq@)[m] == notes@[i as int]@,
            decreases uniq.len() - k,
        {
            assert(strings_view(uniq@)[k as int] == uniq@[k as int]@);
            if str_eq(&uniq[k], &notes[i]) {
                found = true;
            }
            k += 1;
        }
        proof {
            let u = strings_view(uniq@);
            if found {
                let m = choose|m: int| 0 <= m < uniq.len() && #[trigger] strings_view(uniq@)[m] == notes@[i as int]@;
                assert(u[m] == ns[i as int]);
            } else {
                assert(!u.contains(ns[i as int]));
            }
        }
        if !found {
            let ghost before = strings_view(uniq@);
            uniq.push(notes[i].clone());
            assert(strings_view(uniq@) =~= before.push(ns[i as int]));
        }
        i += 1;
    }
    if uniq.len() == 0 {
        return None;
    }
    let mut out = uniq[0].clone();
    let mut j: usize = 1;
    while j < uniq.len()
        invariant
            1 <= j <= uniq.len(),
            out@ == join_with(strings_view(uniq@).take(j as int), ", "@),
        decreases uniq.len() - j,
    {
        let ghost before = out@;
        crate::text::push_str(&mut out, ", ");
        crate::text::push_str(&mut out, &uniq[j]);
        assert(strings_view(uniq@).take(j + 1).drop_last() =~= strings_view(uniq@).take(j as int));
        j += 1;
    }
    assert(strings_view(uniq@).take(uniq.len() as int) =~= strings_view(uniq@));
    Some(out)
}


pub open spec fn option_view(o: Option<String>) -> Option<Seq<char>> {
    match o {
        Some(s) => Some(s@),
        None => None,
    }
}

/// What segmentation gives: the cues unchanged where there are none or it is
/// disabled; else every cue segmented, renumbered from 1, with the distinct
/// fallback notes; or the first error.
proof fn lemma_unavailable_run(
    jv: JobView,
    cues: Seq<CueView>,
    units: Seq<UnitView>,
    replies: Seq<Option<Result<HttpReply, String>>>,
    n: int,
)
    requires
        jv.strategy == "llm_preferred"@,
        !jv.llm_ok,
        0 <= n <= cues.len(),
    ensures
        segment_run(jv, cues, units, replies, n) matches Err(e) ==> e == LLM_PREFERRED_UNAVAILABLE@,
        (exists|i: int| 0 <= i < n && cue_needs_split(jv, #[trigger] cues[i])) ==> segment_run(jv, cues, units, replies, n) is Err,
    decreases n,
{
    assert("llm_preferred"@ != "rules_only"@ && "llm_preferred"@ != "auto"@) by {
        reveal_strlit("llm_preferred");
        reveal_strlit("rules_only");
        reveal_strlit("auto");
        assert("llm_preferred"@.len() != "rules_only"@.len());
        assert("llm_preferred"@.len() != "auto"@.len());
    }
    if n > 0 {
        lemma_unavailable_run(jv, cues, units, replies, n - 1);
        if exists|i: int| 0 <= i < n && cue_needs_split(jv, #[trigger] cues[i]) {
            let i = choose|i: int| 0 <= i < n && cue_needs_split(jv, #[trigger] cues[i]);
            if i < n - 1 {
                assert(exists|i2: int| 0 <= i2 < n - 1 && cue_needs_split(jv, #[trigger] cues[i2]));
            }
        }
    }
}

/// LLM-preferred segmentation with no usable LLM fails with
/// `LLM_PREFERRED_UNAVAILABLE` as soon as some cue needs splitting.
pub proof fn lemma_llm_preferred_unavailable(
    jv: JobView,
    cues: Seq<CueView>,
    units: Seq<UnitView>,
    replies: Seq<Option<Result<HttpReply, String>>>,
)
    requires
        jv.strategy == "llm_preferred"@,
        !jv.llm_ok,
        exists|i: int| 0 <= i < cues.len() && cue_needs_split(jv, #[trigger] cues[i]),
    ensures
        segmentation(jv, cues, units, replies) == Err::<(Seq<CueView>, Option<Seq<char>>), Seq<char>>(
            LLM_PREFERRED_UNAVAILABLE@,
        ),
{
    lemma_unavailable_run(jv, cues, units, replies, cues.len() as int);
    assert("llm_preferred"@ != "disabled"@) by {
        reveal_strlit("llm_preferred");
        reveal_strlit("disabled");
        assert("llm_preferred"@.len() != "disabled"@.len());
    }
}

pub open spec fn segmentation(
    jv: JobView,
    cues: Seq<CueView>,
    units: Seq<UnitView>,
    replies: Seq<Option<Result<HttpReply, String>>>,
) -> Result<(Seq<CueView>, Option<Seq<char>>), Seq<char>> {
    if cues.len() == 0 || jv.strategy == "disabled"@ {
        Ok((cues, None))
    } else {
        match segment_run(jv, cues, units, replies, cues.len() as int) {
            Err(e) => Err(e),
            Ok((out, notes)) => Ok((renumbered(out), deduped_note(notes))),
        }
    }
}

fn split_text_parts(job: &SegmentationJob, cue: &SubCue, reply: &Option<Result<HttpReply, String>>) -> (r: Result<
    Vec<String>,
    String,
>)
    requires
        uses_llm(job_view(job)) ==> llm_reply_defined(cue.text@, *reply),
    ensures
        match r {
            Ok(p) => split_parts(job_view(job), cue@, *reply) == Ok::<Seq<Seq<char>>, Seq<char>>(strings_view(p@)),
            Err(e) => split_parts(job_view(job), cue@, *reply) == Err::<Seq<Seq<char>>, Seq<char>>(e@),
        },
{
    let d = desired_parts(cue, job.max_chars_per_segment, job.max_duration_ms);
    if str_eq(job.strategy, "rules_only") {
        return Ok(split_by_rules(&cue.text, d));
    }
    if str_eq(job.strategy, "auto") || str_eq(job.strategy, "llm_preferred") {
        if llm_is_available(job) {
            match split_by_llm_reply(&cue.text, reply) {
                Some(p) => Ok(p),
                None => {
                    let fb = split_by_rules(&cue.text, d);
                    if fb.len() == 0 {
                        let out = vec![normalize_part_text(&cue.text)];
                        assert(strings_view(out@) =~= seq![normalize_ws(cue.text@)]);
                        Ok(out)
                    } else {
                        Ok(fb)
                    }
                },
            }
        } else if str_eq(job.strategy, "auto") {
            Ok(split_by_rules(&cue.text, d))
        } else {
            Err(LLM_PREFERRED_UNAVAILABLE.to_string())
        }
    } else {
        let out = vec![normalize_part_text(&cue.text)];
        assert(strings_view(out@) =~= seq![normalize_ws(cue.text@)]);
        Ok(out)
    }
}

fn cue_parts_exec(job: &SegmentationJob, cue: &SubCue, reply: &Option<Result<HttpReply, String>>) -> (r: Result<Vec<String>, String>)
    requires
        (cue_needs_split(job_view(job), cue@) && uses_llm(job_view(job))) ==> llm_reply_defined(cue.text@, *reply),
    ensures
        match r {
            Ok(p) => cue_parts(job_view(job), cue@, *reply) == Ok::<Seq<Seq<char>>, Seq<char>>(strings_view(p@)),
            Err(e) => cue_parts(job_view(job), cue@, *reply) == Err::<Seq<Seq<char>>, Seq<char>>(e@),
        },
{
    let mc = if job.max_chars_per_segment > 1 {
        job.max_chars_per_segment
    } else {
        1
    };
    let md = if job.max_duration_ms > 1 {
        job.max_duration_ms
    } else {
        1
    };
    if cue_should_split(cue, mc, md as i64) {
        split_text_parts(job, cue, reply)
    } else {
        let out = vec![normalize_part_text(&cue.text)];
        assert(strings_view(out@) =~= seq![normalize_ws(cue.text@)]);
        Ok(out)
    }
}

fn segment_one(job: &SegmentationJob, cue: &SubCue, units: &[TimeUnit], reply: &Option<Result<HttpReply, String>>) -> (r: Result<
    (Vec<SubCue>, bool),
    String,
>)
    requires
        cue_segment_defined(job_view(job), cue@, units_view(units@), *reply),
    ensures
        match r {
            Ok((v, note)) => cue_segment(job_view(job), cue@, units_view(units@), *reply) == Ok::<
                (Seq<CueView>, bool),
                Seq<char>,
            >((cues_view(v@), note)),
            Err(e) => cue_segment(job_view(job), cue@, units_view(units@), *reply) == Err::<(Seq<CueView>, bool), Seq<char>>(
                e@,
            ),
        },
{
    let parts = match cue_parts_exec(job, cue, reply) {
        Ok(p) => p,
        Err(e) => return Err(e),
    };
    let ghost ps = strings_view(parts@);
    let (timed, note) = if parts.len() <= 1 {
        let one = vec![SubCue { index: 0, start_ms: cue.start_ms, end_ms: cue.end_ms, text: normalize_part_text(&cue.text) }];
        assert(cues_view(one@) =~= seq![CueView { index: 0, start_ms: cue.start_ms, end_ms: cue.end_ms, text: normalize_ws(cue.text@) }]);
        (one, false)
    } else {
        match apply_word_timing(cue, parts.as_slice(), units) {
            Some(w) => (w, false),
            None => (apply_approximate_timing(cue, parts.as_slice()), str_eq(job.timing_mode, "word_timestamps_first")),
        }
    };
    Ok((merge_short_cues(timed), note))
}

pub proof fn lemma_segment_run_err(
    jv: JobView,
    cues: Seq<CueView>,
    units: Seq<UnitView>,
    replies: Seq<Option<Result<HttpReply, String>>>,
    n: int,
    m: int,
)
    requires
        0 <= n <= m <= cues.len(),
        segment_run(jv, cues, units, replies, n) is Err,
    ensures
        segment_run(jv, cues, units, replies, m) == segment_run(jv, cues, units, replies, n),
    decreases m,
{
    if m > n {
        lemma_segment_run_err(jv, cues, units, replies, n, m - 1);
    }
}

fn clone_units(units: &[TimeUnit]) -> (r: Vec<TimeUnit>)
    ensures
        units_view(r@) == units_view(units@),
{
    let mut out: Vec<TimeUnit> = Vec::new();
    let mut i: usize = 0;
    while i < units.len()
        invariant
            i <= units.len(),
            units_view(out@) == units_view(units@).take(i as int),
        decreases units.len() - i,
    {
        assert(units_view(units@)[i as int] == units@[i as int]@);
        let ghost before = units_view(out@);
        out.push(clone_unit(&units[i]));
        assert(units_view(out@) =~= before.push(units@[i as int]@));
        assert(units_view(units@).take(i + 1) =~= units_view(units@).take(i as int).push(units@[i as int]@));
        i += 1;
    }
    assert(units_view(units@).take(units.len() as int) =~= units_view(units@));
    out
}

fn effective_units(job: &SegmentationJob, units: &[TimeUnit]) -> (r: Vec<TimeUnit>)
    ensures
        units_view(r@) == effective_timing_units(job_view(job), units_view(units@)),
{
    if str_eq(job.timing_mode, "word_timestamps_first") {
        clone_units(units)
    } else {
        let v: Vec<TimeUnit> = Vec::new();
        assert(units_view(v@) =~= seq![]);
        v
    }
}

/// Re-segments cues: long cues are split (by rules, or at the cut positions
/// in `replies[i]`, the answer to `llm_segmentation_request` for cue `i`),
/// timed by `timing_units` in word-timestamp mode or by proportional reflow,
/// short results merged, and all renumbered.
pub fn segment_cues(
    job: &SegmentationJob,
    cues: &[SubCue],
    timing_units: &[TimeUnit],
    replies: &[Option<Result<HttpReply, String>>],
) -> (r: Result<SegmentationResult, String>)
    requires
        segment_defined(job_view(job), cues_view(cues@), units_view(timing_units@), replies@),
    ensures
        match r {
            Ok(res) => segmentation(job_view(job), cues_view(cues@), units_view(timing_units@), replies@) == Ok::<
                (Seq<CueView>, Option<Seq<char>>),
                Seq<char>,
            >((cues_view(res.cues@), option_view(res.note))),
            Err(e) => segmentation(job_view(job), cues_view(cues@), units_view(timing_units@), replies@) == Err::<
                (Seq<CueView>, Option<Seq<char>>),
                Seq<char>,
            >(e@),
        },
{
    let ghost jv = job_view(job);
    let ghost cv = cues_view(cues@);
    let ghost uv = units_view(timing_units@);
    if cues.len() == 0 || str_eq(job.strategy, "disabled") {
        let mut all: Vec<SubCue> = Vec::new();
        let mut i: usize = 0;
        while i < cues.len()
            invariant
                i <= cues.len(),
                cues_view(all@) == cues_view(cues@).take(i as int),
            decreases cues.len() - i,
        {
            assert(cues_view(cues@)[i as int] == cues@[i as int]@);
            let ghost before = cues_view(all@);
            all.push(clone_cue(&cues[i]));
            assert(cues_view(all@) =~= before.push(cues@[i as int]@));
            assert(cues_view(cues@).take(i + 1) =~= cues_view(cues@).take(i as int).push(cues@[i as int]@));
            i += 1;
        }
        assert(cues_view(cues@).take(cues.len() as int) =~= cues_view(cues@));
        return Ok(SegmentationResult { cues: all, note: None });
    }
    let units = effective_units(job, timing_units);
    let none_reply: Option<Result<HttpReply, String>> = None;
    let mut out: Vec<SubCue> = Vec::new();
    let mut notes: Vec<String> = Vec::new();
    let mut i: usize = 0;
    assert(cues_view(out@) =~= seq![]);
    assert(strings_view(notes@) =~= seq![]);
    while i < cues.len()
        invariant
            i <= cues.len(),
            jv == job_view(job),
            cv == cues_view(cues@),
            uv == units_view(timing_units@),
            units_view(units@) == effective_timing_units(jv, uv),
            none_reply is None,
            cv.len() > 0 && jv.strategy != "disabled"@,
            segment_defined(jv, cv, uv, replies@),
            segment_run(jv, cv, uv, replies@, i as int) == Ok::<(Seq<CueView>, Seq<Seq<char>>), Seq<char>>(
                (cues_view(out@), strings_view(notes@)),
            ),
        decreases cues.len() - i,
    {
        let reply = if i < replies.len() {
            &replies[i]
        } else {
            &none_reply
        };
        assert(*reply == reply_at(replies@, i as int));
        assert(cv[i as int] == cues@[i as int]@);
        assert(segment_run(jv, cv, uv, replies@, i as int) is Ok);
        match segment_one(job, &cues[i], units.as_slice(), reply) {
            Err(e) => {
                proof {
                    lemma_segment_run_err(jv, cv, uv, replies@, i + 1, cv.len() as int);
                }
                return Err(e);
            },
            Ok((segs, note)) => {
                let ghost before = cues_view(out@);
                let ghost bnotes = strings_view(notes@);
                let ghost sv = cues_view(segs@);
                let mut segs = segs;
                out.append(&mut segs);
                assert(cues_view(out@) =~= before + sv);
                if note {
                    notes.push(TIMING_FALLBACK_NOTE.to_string());
                    assert(strings_view(notes@) =~= bnotes.push(TIMING_FALLBACK_NOTE@));
                }
            },
        }
        i += 1;
    }
    let mut out = out;
    renumber(&mut out);
    let note = dedupe_notes(notes);
    Ok(SegmentationResult { cues: out, note })
}


// ---------------------------------------------------------------------------
// Telling where segmentation is defined
// ---------------------------------------------------------------------------

pub fn approx_defined_exec(cue: &SubCue, parts: &[String]) -> (r: bool)
    ensures
        r == approx_defined(cue@, strings_view(parts@)),
{
    let ghost ps = strings_view(parts@);
    let ghost c = cue@;
    let count = parts.len();
    let mut total: u128 = 0;
    let mut i: usize = 0;
    while i < count
        invariant
            i <= count == parts.len() == ps.len(),
            ps == strings_view(parts@),
            total == weight_sum(ps, i as int),
            total <= i * 0xffff_ffff_ffff_ffffu128,
        decreases count - i,
    {
        assert(ps[i as int] == parts@[i as int]@);
        total = total + part_weight_exec(&parts[i]) as u128;
        i += 1;
    }
    if total > i64::MAX as u128 {
        return false;
    }
    let mut start: i128 = cue.start_ms as i128;
    let mut rw: i128 = if total > 1 {
        total as i128
    } else {
        1
    };
    let mut idx: usize = 0;
    proof {
        lemma_weight_sum_mono(ps, 0, count as int);
    }
    while idx < count
        invariant
            idx <= count == parts.len() == ps.len(),
            ps == strings_view(parts@),
            c == cue@,
            weight_sum(ps, count as int) <= i64::MAX,
            start as int == approx_run(c, ps, idx as int).1,
            rw as int == approx_run(c, ps, idx as int).2,
            start <= i64::MAX,
        decreases count - idx,
    {
        proof {
            lemma_approx_run(c, ps, idx as int, count as int);
            lemma_approx_run(c, ps, idx + 1, count as int);
            lemma_weight_sum_mono(ps, idx + 1, count as int);
            lemma_weight_sum_mono(ps, idx as int, count as int);
        }
        let w = part_weight_exec(&parts[idx]) as i128;
        assert(ps[idx as int] == parts@[idx as int]@);
        assert(weight_sum(ps, idx + 1) == weight_sum(ps, idx as int) + part_weight(ps[idx as int]));
        let end = approx_step(cue, count, idx, start, w, rw);
        let e2: i128 = if end > start + 1 {
            end
        } else {
            start + 1
        };
        if e2 > i64::MAX as i128 {
            return false;
        }
        start = e2;
        rw = if rw - w > 1 {
            rw - w
        } else {
            1
        };
        idx += 1;
    }
    true
}

pub fn word_timing_defined_exec(cue: &SubCue, parts: &[String], units: &[TimeUnit]) -> (r: bool)
    ensures
        r == word_timing_defined(cue@, strings_view(parts@), units_view(units@)),
{
    let ghost ps = strings_view(parts@);
    let count = parts.len();
    if count <= 1 {
        return true;
    }
    let ov = collect_overlapping(cue, units);
    let ghost ovs = units_view(ov@);
    if ov.len() < count {
        return true;
    }
    if cue.start_ms >= cue.end_ms {
        return false;
    }
    let mut tp: u128 = 0;
    let mut i: usize = 0;
    while i < count
        invariant
            i <= count == parts.len() == ps.len(),
            ps == strings_view(parts@),
            tp == weight_sum(ps, i as int),
            tp <= i * 0xffff_ffff_ffff_ffffu128,
        decreases count - i,
    {
        assert(ps[i as int] == parts@[i as int]@);
        tp = tp + part_weight_exec(&parts[i]) as u128;
        i += 1;
    }
    let mut tu: u128 = 0;
    let mut j: usize = 0;
    while j < ov.len()
        invariant
            j <= ov.len(),
            ovs == units_view(ov@),
            tu == unit_sum(ovs, j as int),
            tu <= j * 0xffff_ffff_ffff_ffffu128,
        decreases ov.len() - j,
    {
        assert(ovs[j as int] == ov@[j as int]@);
        let n = visible_chars(&ov[j].text);
        let w: usize = if n > 1 {
            n
        } else {
            1
        };
        tu = tu + w as u128;
        j += 1;
    }
    tp <= usize::MAX as u128 && tu <= usize::MAX as u128
}

pub fn llm_reply_defined_exec(text: &str, reply: &Option<Result<HttpReply, String>>) -> (r: bool)
    ensures
        r == llm_reply_defined(text@, *reply),
{
    let v = chars_of(text);
    if v.len() < 2 {
        return true;
    }
    match reply_text_exec(reply) {
        None => true,
        Some(content) => {
            let cv = chars_of(&content);
            let t = crate::text::trim_vec(&cv, crate::text::CharClass::Whitespace);
            proof {
                crate::text::lemma_find_char_from(t@, '[', 0);
                crate::text::lemma_rfind_char_below(t@, ']', t.len() as int);
            }
            let i = crate::text::find_char_from_exec(&t, '[', 0);
            if i >= t.len() {
                return true;
            }
            match crate::text::rfind_char_exec(&t, ']') {
                None => true,
                Some(j) => i <= j + 1,
            }
        },
    }
}

/// Whether a cue's parts fail: it needs a split, an LLM is required and
/// none is configured.
fn cue_parts_fail(job: &SegmentationJob, cue: &SubCue) -> (r: bool)
    ensures
        forall|reply: Option<Result<HttpReply, String>>| r == (#[trigger] cue_parts(job_view(job), cue@, reply) is Err),
{
    let mc = if job.max_chars_per_segment > 1 {
        job.max_chars_per_segment
    } else {
        1
    };
    let md = if job.max_duration_ms > 1 {
        job.max_duration_ms
    } else {
        1
    };
    cue_should_split(cue, mc, md as i64) && !str_eq(job.strategy, "rules_only") && !str_eq(job.strategy, "auto")
        && str_eq(job.strategy, "llm_preferred") && !llm_is_available(job)
}

pub fn cue_segment_defined_exec(
    job: &SegmentationJob,
    cue: &SubCue,
    units: &[TimeUnit],
    reply: &Option<Result<HttpReply, String>>,
) -> (r: bool)
    ensures
        r == cue_segment_defined(job_view(job), cue@, units_view(units@), *reply),
{
    let mc = if job.max_chars_per_segment > 1 {
        job.max_chars_per_segment
    } else {
        1
    };
    let md = if job.max_duration_ms > 1 {
        job.max_duration_ms
    } else {
        1
    };
    let needs = cue_should_split(cue, mc, md as i64);
    let llm = (str_eq(job.strategy, "auto") || str_eq(job.strategy, "llm_preferred")) && llm_is_available(job);
    if needs && llm && !llm_reply_defined_exec(&cue.text, reply) {
        return false;
    }
    match cue_parts_exec(job, cue, reply) {
        Err(_) => true,
        Ok(parts) => {
            if parts.len() <= 1 {
                return true;
            }
            if !word_timing_defined_exec(cue, parts.as_slice(), units) {
                return false;
            }
            match apply_word_timing(cue, parts.as_slice(), units) {
                Some(_) => true,
                None => approx_defined_exec(cue, parts.as_slice()),
            }
        },
    }
}

/// Whether `segment_cues` is defined on these inputs.
pub fn segmentation_defined(
    job: &SegmentationJob,
    cues: &[SubCue],
    timing_units: &[TimeUnit],
    replies: &[Option<Result<HttpReply, String>>],
) -> (r: bool)
    ensures
        r == segment_defined(job_view(job), cues_view(cues@), units_view(timing_units@), replies@),
{
    let ghost jv = job_view(job);
    let ghost cv = cues_view(cues@);
    let ghost uv = units_view(timing_units@);
    if cues.len() == 0 || str_eq(job.strategy, "disabled") {
        return true;
    }
    let units = effective_units(job, timing_units);
    let none_reply: Option<Result<HttpReply, String>> = None;
    let mut i: usize = 0;
    while i < cues.len()
        invariant
            i <= cues.len(),
            jv == job_view(job),
            cv == cues_view(cues@),
            uv == units_view(timing_units@),
            units_view(units@) == effective_timing_units(jv, uv),
            none_reply is None,
            cv.len() > 0 && jv.strategy != "disabled"@,
            segment_run(jv, cv, uv, replies@, i as int) is Ok,
            forall|j: int|
                0 <= j < i && #[trigger] segment_run(jv, cv, uv, replies@, j) is Ok ==> cue_segment_defined(
                    jv,
                    cv[j],
                    effective_timing_units(jv, uv),
                    reply_at(replies@, j),
                ),
        decreases cues.len() - i,
    {
        let reply = if i < replies.len() {
            &replies[i]
        } else {
            &none_reply
        };
        assert(*reply == reply_at(replies@, i as int));
        assert(cv[i as int] == cues@[i as int]@);
        if !cue_segment_defined_exec(job, &cues[i], units.as_slice(), reply) {
            return false;
        }
        if cue_parts_fail(job, &cues[i]) {
            assert(cue_parts(jv, cv[i as int], reply_at(replies@, i as int)) is Err);
            assert forall|j: int|
                0 <= j < cv.len() && #[trigger] segment_run(jv, cv, uv, replies@, j) is Ok implies cue_segment_defined(
                    jv,
                    cv[j],
                    effective_timing_units(jv, uv),
                    reply_at(replies@, j),
                ) by {
                if j > i {
                    lemma_segment_run_err(jv, cv, uv, replies@, i + 1, j);
                }
            }
            return true;
        }
        assert(cue_parts(jv, cv[i as int], reply_at(replies@, i as int)) is Ok);
        i += 1;
    }
    true
}

/// `segment_cues` where it is defined, `None` where the inputs would make
/// it panic.
pub fn segment_cues_checked(
    job: &SegmentationJob,
    cues: &[SubCue],
    timing_units: &[TimeUnit],
    replies: &[Option<Result<HttpReply, String>>],
) -> (r: Option<Result<SegmentationResult, String>>)
    ensures
        r is None <==> !segment_defined(job_view(job), cues_view(cues@), units_view(timing_units@), replies@),
        match r {
            Some(Ok(res)) => segmentation(job_view(job), cues_view(cues@), units_view(timing_units@), replies@) == Ok::<
                (Seq<CueView>, Option<Seq<char>>),
                Seq<char>,
            >((cues_view(res.cues@), option_view(res.note))),
            Some(Err(e)) => segmentation(job_view(job), cues_view(cues@), units_view(timing_units@), replies@) == Err::<
                (Seq<CueView>, Option<Seq<char>>),
                Seq<char>,
            >(e@),
            None => true,
        },
{
    if segmentation_defined(job, cues, timing_units, replies) {
        Some(segment_cues(job, cues, timing_units, replies))
    } else {
        None
    }
}

} // verus!
