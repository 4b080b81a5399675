//! Character classes and the string operations that the subtitle logic is
//! built from, each stated over `Seq<char>`.
use vstd::prelude::*;

verus! {

// ---------------------------------------------------------------------------
// Character classes
// ---------------------------------------------------------------------------

/// The Unicode `White_Space` property, which `char::is_whitespace` answers:
/// U+0009..=U+000D, U+0020, U+0085, U+00A0, U+1680, U+2000..=U+200A, U+2028,
/// U+2029, U+202F, U+205F and U+3000.
pub open spec fn white_space(c: char) -> bool {
    ('\u{9}' <= c <= '\u{d}') || c == ' ' || c == '\u{85}' || c == '\u{a0}' || c == '\u{1680}' || (
    '\u{2000}' <= c <= '\u{200a}') || c == '\u{2028}' || c == '\u{2029}' || c == '\u{202f}' || c == '\u{205f}'
        || c == '\u{3000}'
}

/// What `char::is_alphanumeric` answers: `Alphabetic` or `Numeric`.
pub uninterp spec fn alphanumeric(c: char) -> bool;

/// `char::is_whitespace`.
pub fn char_is_whitespace(c: char) -> (r: bool)
    ensures
        r == white_space(c),
{
    ('\u{9}' <= c && c <= '\u{d}') || c == ' ' || c == '\u{85}' || c == '\u{a0}' || c == '\u{1680}' || ('\u{2000}'
        <= c && c <= '\u{200a}') || c == '\u{2028}' || c == '\u{2029}' || c == '\u{202f}' || c == '\u{205f}' || c
        == '\u{3000}'
}

/// Calls `char::is_alphanumeric`; its answer is named `alphanumeric`.
#[verifier::external_body]
pub(crate) fn char_is_alphanumeric(c: char) -> (r: bool)
    ensures
        r == alphanumeric(c),
{
    c.is_alphanumeric()
}

/// Appends one character with `String::push`.
#[verifier::external_body]
pub(crate) fn push_char(s: &mut String, c: char)
    ensures
        final(s)@ == old(s)@.push(c),
{
    s.push(c);
}

/// The general category `Cc`: U+0000..=U+001F and U+007F..=U+009F.
pub open spec fn control(c: char) -> bool {
    (c as u32) <= 0x1F || (0x7F <= (c as u32) && (c as u32) <= 0x9F)
}

pub fn is_control(c: char) -> (r: bool)
    ensures
        r == control(c),
{
    let v: u32 = c as u32;
    v <= 0x1F || (0x7F <= v && v <= 0x9F)
}

pub open spec fn ascii_digit(c: char) -> bool {
    '0' <= c && c <= '9'
}

pub open spec fn ascii_alphanumeric(c: char) -> bool {
    ('0' <= c && c <= '9') || ('a' <= c && c <= 'z') || ('A' <= c && c <= 'Z')
}

pub fn is_ascii_alphanumeric(c: char) -> (r: bool)
    ensures
        r == ascii_alphanumeric(c),
{
    ('0' <= c && c <= '9') || ('a' <= c && c <= 'z') || ('A' <= c && c <= 'Z')
}

pub fn is_ascii_digit(c: char) -> (r: bool)
    ensures
        r == ascii_digit(c),
{
    '0' <= c && c <= '9'
}

/// `char::to_ascii_lowercase`.
pub open spec fn lower_char(c: char) -> char {
    if 'A' <= c && c <= 'Z' {
        ((c as u32) + 32) as char
    } else {
        c
    }
}

pub fn to_ascii_lower(c: char) -> (r: char)
    ensures
        r == lower_char(c),
{
    if 'A' <= c && c <= 'Z' {
        let b: u8 = c as u8;
        (b + 32) as char
    } else {
        c
    }
}

/// `str::to_ascii_lowercase`.
pub open spec fn lower_seq(s: Seq<char>) -> Seq<char> {
    s.map_values(|c: char| lower_char(c))
}

/// The classes of characters that the trimming and scanning helpers work with.
#[derive(Clone, Copy, PartialEq, Eq, Structural)]
pub enum CharClass {
    Whitespace,
    NonWhitespace,
    NonAlphanumeric,
    Underscore,
    Backtick,
    Slash,
}

pub open spec fn in_class(k: CharClass, c: char) -> bool {
    match k {
        CharClass::Whitespace => white_space(c),
        CharClass::NonWhitespace => !white_space(c),
        CharClass::NonAlphanumeric => !alphanumeric(c),
        CharClass::Underscore => c == '_',
        CharClass::Backtick => c == '`',
        CharClass::Slash => c == '/',
    }
}

pub fn class_has(k: CharClass, c: char) -> (r: bool)
    ensures
        r == in_class(k, c),
{
    match k {
        CharClass::Whitespace => char_is_whitespace(c),
        CharClass::NonWhitespace => !char_is_whitespace(c),
        CharClass::NonAlphanumeric => !char_is_alphanumeric(c),
        CharClass::Underscore => c == '_',
        CharClass::Backtick => c == '`',
        CharClass::Slash => c == '/',
    }
}

// ---------------------------------------------------------------------------
// Conversions between strings and character vectors
// ---------------------------------------------------------------------------

pub fn chars_of(s: &str) -> (r: Vec<char>)
    ensures
        r@ == s@,
{
    let mut out: Vec<char> = Vec::new();
    for c in it: s.chars()
        invariant
            out@ == it.seq().take(it.index() as int),
            it.seq() == s@,
    {
        out.push(c);
    }
    out
}

pub fn string_of_range(v: &Vec<char>, start: usize, end: usize) -> (r: String)
    requires
        start <= end <= v.len(),
    ensures
        r@ == v@.subrange(start as int, end as int),
{
    let mut out = String::new();
    let mut i: usize = start;
    while i < end
        invariant
            start <= i <= end <= v.len(),
            out@ == v@.subrange(start as int, i as int),
        decreases end - i,
    {
        push_char(&mut out, v[i]);
        assert(v@.subrange(start as int, i + 1) =~= v@.subrange(start as int, i as int).push(v@[i as int]));
        i += 1;
    }
    out
}

pub fn string_of(v: &Vec<char>) -> (r: String)
    ensures
        r@ == v@,
{
    let r = string_of_range(v, 0, v.len());
    assert(v@.subrange(0, v.len() as int) =~= v@);
    r
}

pub fn sub_vec(v: &Vec<char>, start: usize, end: usize) -> (r: Vec<char>)
    requires
        start <= end <= v.len(),
    ensures
        r@ == v@.subrange(start as int, end as int),
{
    let mut out: Vec<char> = Vec::new();
    let mut i: usize = start;
    while i < end
        invariant
            start <= i <= end <= v.len(),
            out@ == v@.subrange(start as int, i as int),
        decreases end - i,
    {
        out.push(v[i]);
        assert(v@.subrange(start as int, i + 1) =~= v@.subrange(start as int, i as int).push(v@[i as int]));
        i += 1;
    }
    out
}

pub fn append_chars(out: &mut Vec<char>, add: &Vec<char>)
    ensures
        final(out)@ == old(out)@ + add@,
{
    let mut i: usize = 0;
    while i < add.len()
        invariant
            i <= add.len(),
            out@ == old(out)@ + add@.subrange(0, i as int),
        decreases add.len() - i,
    {
        out.push(add[i]);
        assert(add@.subrange(0, i + 1) =~= add@.subrange(0, i as int).push(add@[i as int]));
        i += 1;
    }
    assert(add@.subrange(0, add.len() as int) =~= add@);
}

pub fn push_str(s: &mut String, t: &str)
    ensures
        final(s)@ == old(s)@ + t@,
{
    s.append(t);
}

pub fn eq_chars(a: &Vec<char>, b: &Vec<char>) -> (r: bool)
    ensures
        r == (a@ == b@),
{
    if a.len() != b.len() {
        return false;
    }
    let mut i: usize = 0;
    while i < a.len()
        invariant
            a.len() == b.len(),
            i <= a.len(),
            forall|j: int| 0 <= j < i ==> a@[j] == b@[j],
        decreases a.len() - i,
    {
        if a[i] != b[i] {
            return false;
        }
        i += 1;
    }
    assert(a@ =~= b@);
    true
}

/// `==` on two strings.
pub fn str_eq(a: &str, b: &str) -> (r: bool)
    ensures
        r == (a@ == b@),
{
    let x = chars_of(a);
    let y = chars_of(b);
    eq_chars(&x, &y)
}

pub fn lower_vec(v: &Vec<char>) -> (r: Vec<char>)
    ensures
        r@ == lower_seq(v@),
{
    let mut out: Vec<char> = Vec::new();
    let mut i: usize = 0;
    while i < v.len()
        invariant
            i <= v.len(),
            out@ == lower_seq(v@.subrange(0, i as int)),
        decreases v.len() - i,
    {
        let c = to_ascii_lower(v[i]);
        out.push(c);
        assert(lower_seq(v@.subrange(0, i + 1)) =~= lower_seq(v@.subrange(0, i as int)).push(c));
        i += 1;
    }
    assert(v@.subrange(0, v.len() as int) =~= v@);
    out
}

// ---------------------------------------------------------------------------
// Scanning and trimming
// ---------------------------------------------------------------------------

/// The first index at or after `i` whose character is not in class `k`.
pub open spec fn scan_fwd(s: Seq<char>, k: CharClass, i: int) -> int
    decreases s.len() - i,
{
    if 0 <= i < s.len() && in_class(k, s[i]) {
        scan_fwd(s, k, i + 1)
    } else {
        i
    }
}

/// Moving down from `j` (not below `lo`), the first end index whose
/// preceding character is not in class `k`.
pub open spec fn scan_back(s: Seq<char>, k: CharClass, lo: int, j: int) -> int
    decreases j - lo,
{
    if lo < j <= s.len() && in_class(k, s[j - 1]) {
        scan_back(s, k, lo, j - 1)
    } else {
        j
    }
}

pub proof fn lemma_scan_fwd_bounds(s: Seq<char>, k: CharClass, i: int)
    requires
        0 <= i <= s.len(),
    ensures
        i <= scan_fwd(s, k, i) <= s.len(),
        forall|j: int| i <= j < scan_fwd(s, k, i) ==> in_class(k, #[trigger] s[j]),
        scan_fwd(s, k, i) < s.len() ==> !in_class(k, s[scan_fwd(s, k, i)]),
    decreases s.len() - i,
{
    if i < s.len() && in_class(k, s[i]) {
        lemma_scan_fwd_bounds(s, k, i + 1);
    }
}

pub proof fn lemma_scan_back_bounds(s: Seq<char>, k: CharClass, lo: int, j: int)
    requires
        0 <= lo <= j <= s.len(),
    ensures
        lo <= scan_back(s, k, lo, j) <= j,
        forall|m: int| scan_back(s, k, lo, j) <= m < j ==> in_class(k, #[trigger] s[m]),
        scan_back(s, k, lo, j) > lo ==> !in_class(k, s[scan_back(s, k, lo, j) - 1]),
    decreases j - lo,
{
    if lo < j && in_class(k, s[j - 1]) {
        lemma_scan_back_bounds(s, k, lo, j - 1);
    }
}

pub open spec fn trim_class(s: Seq<char>, k: CharClass) -> Seq<char> {
    let a = scan_fwd(s, k, 0);
    s.subrange(a, scan_back(s, k, a, s.len() as int))
}

pub open spec fn trim_class_start(s: Seq<char>, k: CharClass) -> Seq<char> {
    s.subrange(scan_fwd(s, k, 0), s.len() as int)
}

pub open spec fn trim_class_end(s: Seq<char>, k: CharClass) -> Seq<char> {
    s.subrange(0, scan_back(s, k, 0, s.len() as int))
}

/// `str::trim`.
pub open spec fn trim(s: Seq<char>) -> Seq<char> {
    trim_class(s, CharClass::Whitespace)
}

/// `str::trim_start`.
pub open spec fn trim_start(s: Seq<char>) -> Seq<char> {
    trim_class_start(s, CharClass::Whitespace)
}

/// `str::trim_end`.
pub open spec fn trim_end(s: Seq<char>) -> Seq<char> {
    trim_class_end(s, CharClass::Whitespace)
}

pub fn scan_fwd_exec(v: &Vec<char>, k: CharClass, i: usize) -> (r: usize)
    requires
        i <= v.len(),
    ensures
        r == scan_fwd(v@, k, i as int),
        i <= r <= v.len(),
{
    proof {
        lemma_scan_fwd_bounds(v@, k, i as int);
    }
    let mut j: usize = i;
    while j < v.len() && class_has(k, v[j])
        invariant
            i <= j <= v.len(),
            scan_fwd(v@, k, j as int) == scan_fwd(v@, k, i as int),
        decreases v.len() - j,
    {
        j += 1;
    }
    j
}

pub fn scan_back_exec(v: &Vec<char>, k: CharClass, lo: usize, j: usize) -> (r: usize)
    requires
        lo <= j <= v.len(),
    ensures
        r == scan_back(v@, k, lo as int, j as int),
        lo <= r <= j,
{
    proof {
        lemma_scan_back_bounds(v@, k, lo as int, j as int);
    }
    let mut m: usize = j;
    while m > lo && class_has(k, v[m - 1])
        invariant
            lo <= m <= j <= v.len(),
            scan_back(v@, k, lo as int, m as int) == scan_back(v@, k, lo as int, j as int),
        decreases m - lo,
    {
        m -= 1;
    }
    m
}

/// The bounds of `trim_class(v@, k)` inside `v`.
pub fn trim_bounds(v: &Vec<char>, k: CharClass) -> (r: (usize, usize))
    ensures
        r.0 <= r.1 <= v.len(),
        v@.subrange(r.0 as int, r.1 as int) == trim_class(v@, k),
        r.0 == scan_fwd(v@, k, 0),
{
    let a = scan_fwd_exec(v, k, 0);
    let b = scan_back_exec(v, k, a, v.len());
    (a, b)
}

pub fn trim_vec(v: &Vec<char>, k: CharClass) -> (r: Vec<char>)
    ensures
        r@ == trim_class(v@, k),
{
    let (a, b) = trim_bounds(v, k);
    sub_vec(v, a, b)
}

pub fn trim_start_vec(v: &Vec<char>, k: CharClass) -> (r: Vec<char>)
    ensures
        r@ == trim_class_start(v@, k),
{
    let a = scan_fwd_exec(v, k, 0);
    sub_vec(v, a, v.len())
}

pub fn trim_end_vec(v: &Vec<char>, k: CharClass) -> (r: Vec<char>)
    ensures
        r@ == trim_class_end(v@, k),
{
    let b = scan_back_exec(v, k, 0, v.len());
    sub_vec(v, 0, b)
}

/// `s.trim().to_string()`.
pub fn trim_string(s: &str) -> (r: String)
    ensures
        r@ == trim(s@),
{
    let v = chars_of(s);
    let (a, b) = trim_bounds(&v, CharClass::Whitespace);
    string_of_range(&v, a, b)
}

/// `s.is_empty()`.
pub fn is_empty_text(s: &str) -> (r: bool)
    ensures
        r == (s@.len() == 0),
{
    let v = chars_of(s);
    v.len() == 0
}

/// `s.trim().is_empty()`.
pub fn is_blank(s: &str) -> (r: bool)
    ensures
        r == (trim(s@).len() == 0),
{
    let v = chars_of(s);
    let (a, b) = trim_bounds(&v, CharClass::Whitespace);
    a == b
}

// ---------------------------------------------------------------------------
// Prefixes, suffixes, searching
// ---------------------------------------------------------------------------

pub open spec fn starts_with(s: Seq<char>, p: Seq<char>) -> bool {
    p.len() <= s.len() && s.subrange(0, p.len() as int) == p
}

pub open spec fn ends_with(s: Seq<char>, p: Seq<char>) -> bool {
    p.len() <= s.len() && s.subrange(s.len() - p.len(), s.len() as int) == p
}

/// Whether `p` occurs in `s` starting at position `i`.
pub open spec fn matches_at(s: Seq<char>, p: Seq<char>, i: int) -> bool {
    0 <= i && i + p.len() <= s.len() && s.subrange(i, i + p.len()) == p
}

pub fn matches_at_exec(v: &Vec<char>, p: &Vec<char>, i: usize) -> (r: bool)
    ensures
        r == matches_at(v@, p@, i as int),
{
    if i > v.len() || p.len() > v.len() - i {
        return false;
    }
    let mut j: usize = 0;
    while j < p.len()
        invariant
            i + p.len() <= v.len(),
            j <= p.len(),
            forall|m: int| 0 <= m < j ==> v@[i + m] == p@[m],
        decreases p.len() - j,
    {
        if v[i + j] != p[j] {
            assert(v@.subrange(i as int, i + p.len())[j as int] != p@[j as int]);
            return false;
        }
        j += 1;
    }
    assert(v@.subrange(i as int, i + p.len()) =~= p@);
    true
}

pub fn starts_with_exec(v: &Vec<char>, p: &Vec<char>) -> (r: bool)
    ensures
        r == starts_with(v@, p@),
{
    matches_at_exec(v, p, 0)
}

pub fn ends_with_exec(v: &Vec<char>, p: &Vec<char>) -> (r: bool)
    ensures
        r == ends_with(v@, p@),
{
    if p.len() > v.len() {
        return false;
    }
    matches_at_exec(v, p, v.len() - p.len())
}

/// The first position at or after `i` where `p` occurs, or -1.
pub open spec fn find_from(s: Seq<char>, p: Seq<char>, i: int) -> int
    decreases s.len() + 1 - i,
{
    if i < 0 || i + p.len() > s.len() {
        -1
    } else if matches_at(s, p, i) {
        i
    } else {
        find_from(s, p, i + 1)
    }
}

pub proof fn lemma_find_from(s: Seq<char>, p: Seq<char>, i: int)
    requires
        0 <= i,
    ensures
        find_from(s, p, i) == -1 || (i <= find_from(s, p, i) && matches_at(s, p, find_from(s, p, i))),
        find_from(s, p, i) == -1 ==> forall|j: int| i <= j ==> !matches_at(s, p, j),
        find_from(s, p, i) != -1 ==> forall|j: int| i <= j < find_from(s, p, i) ==> !matches_at(s, p, j),
    decreases s.len() + 1 - i,
{
    if i + p.len() > s.len() {
    } else if matches_at(s, p, i) {
    } else {
        lemma_find_from(s, p, i + 1);
    }
}

pub fn find_from_exec(v: &Vec<char>, p: &Vec<char>, i: usize) -> (r: Option<usize>)
    ensures
        match r {
            Some(k) => find_from(v@, p@, i as int) == k as int,
            None => find_from(v@, p@, i as int) == -1,
        },
{
    if p.len() == 0 {
        if i <= v.len() {
            assert(v@.subrange(i as int, i as int) =~= p@);
            return Some(i);
        }
        return None;
    }
    let mut j: usize = i;
    while j <= v.len() && p.len() <= v.len() - j
        invariant
            i <= j,
            p.len() > 0,
            find_from(v@, p@, j as int) == find_from(v@, p@, i as int),
        decreases v.len() + 1 - j,
    {
        if matches_at_exec(v, p, j) {
            return Some(j);
        }
        j += 1;
    }
    None
}

/// The first position at or after `i` holding `c`, or `s.len()`.
pub open spec fn find_char_from(s: Seq<char>, c: char, i: int) -> int
    decreases s.len() - i,
{
    if 0 <= i < s.len() && s[i] != c {
        find_char_from(s, c, i + 1)
    } else {
        i
    }
}

pub proof fn lemma_find_char_from(s: Seq<char>, c: char, i: int)
    requires
        0 <= i <= s.len(),
    ensures
        i <= find_char_from(s, c, i) <= s.len(),
        forall|j: int| i <= j < find_char_from(s, c, i) ==> s[j] != c,
        find_char_from(s, c, i) < s.len() ==> s[find_char_from(s, c, i)] == c,
    decreases s.len() - i,
{
    if i < s.len() && s[i] != c {
        lemma_find_char_from(s, c, i + 1);
    }
}

pub fn find_char_from_exec(v: &Vec<char>, c: char, i: usize) -> (r: usize)
    requires
        i <= v.len(),
    ensures
        r == find_char_from(v@, c, i as int),
        i <= r <= v.len(),
{
    proof {
        lemma_find_char_from(v@, c, i as int);
    }
    let mut j: usize = i;
    while j < v.len() && v[j] != c
        invariant
            i <= j <= v.len(),
            find_char_from(v@, c, j as int) == find_char_from(v@, c, i as int),
        decreases v.len() - j,
    {
        j += 1;
    }
    j
}

/// The last position below `j` holding `c`, or -1.
pub open spec fn rfind_char_below(s: Seq<char>, c: char, j: int) -> int
    decreases j,
{
    if j <= 0 || j > s.len() {
        -1
    } else if s[j - 1] == c {
        j - 1
    } else {
        rfind_char_below(s, c, j - 1)
    }
}

pub proof fn lemma_rfind_char_below(s: Seq<char>, c: char, j: int)
    requires
        0 <= j <= s.len(),
    ensures
        -1 <= rfind_char_below(s, c, j) < j,
        rfind_char_below(s, c, j) >= 0 ==> s[rfind_char_below(s, c, j)] == c,
        forall|m: int| rfind_char_below(s, c, j) < m < j ==> s[m] != c,
    decreases j,
{
    if j > 0 && s[j - 1] != c {
        lemma_rfind_char_below(s, c, j - 1);
    }
}

pub fn rfind_char_exec(v: &Vec<char>, c: char) -> (r: Option<usize>)
    ensures
        match r {
            Some(k) => rfind_char_below(v@, c, v.len() as int) == k as int,
            None => rfind_char_below(v@, c, v.len() as int) == -1,
        },
{
    let mut j: usize = v.len();
    while j > 0 && v[j - 1] != c
        invariant
            j <= v.len(),
            rfind_char_below(v@, c, j as int) == rfind_char_below(v@, c, v.len() as int),
        decreases j,
    {
        j -= 1;
    }
    if j == 0 {
        None
    } else {
        Some(j - 1)
    }
}

pub open spec fn has_char(s: Seq<char>, c: char) -> bool {
    find_char_from(s, c, 0) < s.len()
}

pub fn has_char_exec(v: &Vec<char>, c: char) -> (r: bool)
    ensures
        r == has_char(v@, c),
{
    find_char_from_exec(v, c, 0) < v.len()
}

// ---------------------------------------------------------------------------
// Splitting
// ---------------------------------------------------------------------------

/// `str::split` with a non-empty separator, starting from position `start`.
pub open spec fn split_from(s: Seq<char>, p: Seq<char>, start: int) -> Seq<Seq<char>>
    decreases s.len() + 1 - start,
{
    if start < 0 || start > s.len() || p.len() == 0 {
        seq![]
    } else {
        let k = find_from(s, p, start);
        proof {
            lemma_find_from(s, p, start);
        }
        if k < start {
            seq![s.subrange(start, s.len() as int)]
        } else {
            seq![s.subrange(start, k)] + split_from(s, p, k + p.len())
        }
    }
}

pub open spec fn split(s: Seq<char>, p: Seq<char>) -> Seq<Seq<char>> {
    split_from(s, p, 0)
}

pub fn split_exec(v: &Vec<char>, p: &Vec<char>) -> (r: Vec<Vec<char>>)
    requires
        p.len() > 0,
    ensures
        r@.map_values(|x: Vec<char>| x@) == split(v@, p@),
{
    let mut out: Vec<Vec<char>> = Vec::new();
    let mut start: usize = 0;
    loop
        invariant
            p.len() > 0,
            start <= v.len(),
            out@.map_values(|x: Vec<char>| x@) + split_from(v@, p@, start as int) == split(v@, p@),
        decreases v.len() + 1 - start,
    {
        proof {
            lemma_find_from(v@, p@, start as int);
        }
        let ghost before = out@.map_values(|x: Vec<char>| x@);
        match find_from_exec(v, p, start) {
            Some(k) => {
                let piece = sub_vec(v, start, k);
                out.push(piece);
                proof {
                    assert(out@.map_values(|x: Vec<char>| x@) =~= before.push(piece@));
                    assert(split_from(v@, p@, start as int) == seq![v@.subrange(start as int, k as int)] + split_from(v@, p@, k + p.len()));
                    assert(before.push(piece@) + split_from(v@, p@, k + p.len()) =~= before + (seq![v@.subrange(start as int, k as int)] + split_from(v@, p@, k + p.len())));
                }
                start = k + p.len();
            },
            None => {
                let piece = sub_vec(v, start, v.len());
                out.push(piece);
                proof {
                    assert(out@.map_values(|x: Vec<char>| x@) =~= before.push(piece@));
                    assert(split_from(v@, p@, start as int) == seq![v@.subrange(start as int, v.len() as int)]);
                    assert(before.push(piece@) =~= before + seq![piece@]);
                }
                return out;
            },
        }
    }
}

// ---------------------------------------------------------------------------
// Counting and whitespace runs
// ---------------------------------------------------------------------------

/// Number of characters in `s[..i]` that are not whitespace.
pub open spec fn count_non_ws(s: Seq<char>, i: int) -> nat
    decreases i,
{
    if i <= 0 || i > s.len() {
        0
    } else {
        count_non_ws(s, i - 1) + if white_space(s[i - 1]) { 0nat } else { 1nat }
    }
}

/// `s.chars().filter(|c| !c.is_whitespace()).count()`.
pub open spec fn visible_len(s: Seq<char>) -> nat {
    count_non_ws(s, s.len() as int)
}

pub fn visible_len_exec(v: &Vec<char>) -> (r: usize)
    ensures
        r == visible_len(v@),
{
    let mut n: usize = 0;
    let mut i: usize = 0;
    while i < v.len()
        invariant
            i <= v.len(),
            n == count_non_ws(v@, i as int),
            n <= i,
        decreases v.len() - i,
    {
        if !char_is_whitespace(v[i]) {
            n += 1;
        }
        i += 1;
    }
    n
}

/// Number of characters in `s[..i]` that are neither whitespace nor control.
pub open spec fn count_printable(s: Seq<char>, i: int) -> nat
    decreases i,
{
    if i <= 0 || i > s.len() {
        0
    } else {
        count_printable(s, i - 1) + if white_space(s[i - 1]) || control(s[i - 1]) {
            0nat
        } else {
            1nat
        }
    }
}

pub fn count_printable_exec(v: &Vec<char>) -> (r: usize)
    ensures
        r == count_printable(v@, v@.len() as int),
{
    let mut n: usize = 0;
    let mut i: usize = 0;
    while i < v.len()
        invariant
            i <= v.len(),
            n == count_printable(v@, i as int),
            n <= i,
        decreases v.len() - i,
    {
        if !char_is_whitespace(v[i]) && !is_control(v[i]) {
            n += 1;
        }
        i += 1;
    }
    n
}

/// Number of characters in `s[..i]` that are not control characters.
pub open spec fn count_non_control(s: Seq<char>, i: int) -> nat
    decreases i,
{
    if i <= 0 || i > s.len() {
        0
    } else {
        count_non_control(s, i - 1) + if control(s[i - 1]) { 0nat } else { 1nat }
    }
}

pub fn count_non_control_exec(v: &Vec<char>) -> (r: usize)
    ensures
        r == count_non_control(v@, v@.len() as int),
{
    let mut n: usize = 0;
    let mut i: usize = 0;
    while i < v.len()
        invariant
            i <= v.len(),
            n == count_non_control(v@, i as int),
            n <= i,
        decreases v.len() - i,
    {
        if !is_control(v[i]) {
            n += 1;
        }
        i += 1;
    }
    n
}

/// Whether a word (a maximal run of non-whitespace) starts at `j`.
pub open spec fn word_start(s: Seq<char>, j: int) -> bool {
    0 <= j < s.len() && !white_space(s[j]) && (j == 0 || white_space(s[j - 1]))
}

/// Number of words that start in `s[..i]`.
pub open spec fn count_words(s: Seq<char>, i: int) -> nat
    decreases i,
{
    if i <= 0 || i > s.len() {
        0
    } else {
        count_words(s, i - 1) + if word_start(s, i - 1) { 1nat } else { 0nat }
    }
}

/// `s.split_whitespace().count()`.
pub open spec fn word_count(s: Seq<char>) -> nat {
    count_words(s, s.len() as int)
}

pub fn word_count_exec(v: &Vec<char>) -> (r: usize)
    ensures
        r == word_count(v@),
{
    let mut n: usize = 0;
    let mut i: usize = 0;
    let mut prev_ws: bool = true;
    while i < v.len()
        invariant
            i <= v.len(),
            n == count_words(v@, i as int),
            n <= i,
            prev_ws == (i == 0 || white_space(v@[i - 1])),
        decreases v.len() - i,
    {
        let ws = char_is_whitespace(v[i]);
        if !ws && prev_ws {
            n += 1;
        }
        prev_ws = ws;
        i += 1;
    }
    n
}

/// The words of `s[..i]` joined by single spaces.
pub open spec fn collapse_ws(s: Seq<char>, i: int) -> Seq<char>
    decreases i,
{
    if i <= 0 || i > s.len() {
        seq![]
    } else {
        let prev = collapse_ws(s, i - 1);
        let c = s[i - 1];
        if white_space(c) {
            prev
        } else if i >= 2 && !white_space(s[i - 2]) {
            prev.push(c)
        } else if prev.len() == 0 {
            seq![c]
        } else {
            prev.push(' ').push(c)
        }
    }
}

/// `s.split_whitespace().collect::<Vec<_>>().join(" ")`.
pub open spec fn normalize_ws(s: Seq<char>) -> Seq<char> {
    collapse_ws(s, s.len() as int)
}

pub fn normalize_ws_vec(v: &Vec<char>) -> (r: Vec<char>)
    ensures
        r@ == normalize_ws(v@),
{
    let mut out: Vec<char> = Vec::new();
    let mut i: usize = 0;
    let mut prev_ws: bool = true;
    while i < v.len()
        invariant
            i <= v.len(),
            out@ == collapse_ws(v@, i as int),
            prev_ws == (i == 0 || white_space(v@[i - 1])),
        decreases v.len() - i,
    {
        let c = v[i];
        let ws = char_is_whitespace(c);
        if !ws {
            if !prev_ws {
                out.push(c);
            } else if out.len() == 0 {
                out.push(c);
                assert(out@ =~= seq![c]);
            } else {
                out.push(' ');
                out.push(c);
            }
        }
        prev_ws = ws;
        i += 1;
    }
    out
}

/// `normalize_ws` of a string, as a `String`.
pub fn normalize_ws_string(s: &str) -> (r: String)
    ensures
        r@ == normalize_ws(s@),
{
    let v = chars_of(s);
    let n = normalize_ws_vec(&v);
    string_of(&n)
}

// ---------------------------------------------------------------------------
// Decimal numbers
// ---------------------------------------------------------------------------

pub open spec fn digit_value(c: char) -> int {
    (c as int) - ('0' as int)
}

/// The value of a run of decimal digits.
pub open spec fn digits_value(s: Seq<char>) -> int
    decreases s.len(),
{
    if s.len() == 0 {
        0
    } else {
        digits_value(s.drop_last()) * 10 + digit_value(s.last())
    }
}

pub open spec fn all_digits(s: Seq<char>) -> bool {
    forall|i: int| 0 <= i < s.len() ==> ascii_digit(#[trigger] s[i])
}

pub proof fn lemma_digits_value_nonneg(s: Seq<char>)
    requires
        all_digits(s),
    ensures
        digits_value(s) >= 0,
    decreases s.len(),
{
    if s.len() > 0 {
        assert(all_digits(s.drop_last()));
        lemma_digits_value_nonneg(s.drop_last());
    }
}

/// What `str::parse` gives for an unsigned integer type whose largest value
/// is `max`: an optional `+`, then one or more ASCII digits.
pub open spec fn parse_unsigned(s: Seq<char>, max: int) -> Option<int> {
    let body = if s.len() > 0 && s[0] == '+' { s.drop_first() } else { s };
    if body.len() > 0 && all_digits(body) && digits_value(body) <= max {
        Some(digits_value(body))
    } else {
        None
    }
}

/// What `str::parse` gives for a signed integer type with range `min..=max`:
/// an optional `+` or `-`, then one or more ASCII digits.
pub open spec fn parse_signed(s: Seq<char>, min: int, max: int) -> Option<int> {
    let neg = s.len() > 0 && s[0] == '-';
    let body = if s.len() > 0 && (s[0] == '+' || s[0] == '-') { s.drop_first() } else { s };
    let v = if neg { -digits_value(body) } else { digits_value(body) };
    if body.len() > 0 && all_digits(body) && min <= v && v <= max {
        Some(v)
    } else {
        None
    }
}

/// Parses a run of ASCII digits `v[start..]`, answering `None` when a
/// non-digit occurs, and otherwise the value capped at `limit + 1`.
fn digits_capped(v: &Vec<char>, start: usize, limit: u64) -> (r: Option<u128>)
    requires
        start <= v.len(),
    ensures
        match r {
            Some(x) => all_digits(v@.subrange(start as int, v.len() as int)) && x as int == if digits_value(
                v@.subrange(start as int, v.len() as int),
            ) <= limit {
                digits_value(v@.subrange(start as int, v.len() as int))
            } else {
                limit + 1
            },
            None => !all_digits(v@.subrange(start as int, v.len() as int)),
        },
{
    let ghost body = v@.subrange(start as int, v.len() as int);
    let mut acc: u128 = 0;
    let mut i: usize = start;
    while i < v.len()
        invariant
            start <= i <= v.len(),
            body == v@.subrange(start as int, v.len() as int),
            all_digits(v@.subrange(start as int, i as int)),
            acc <= limit + 1,
            acc as int == if digits_value(v@.subrange(start as int, i as int)) <= limit {
                digits_value(v@.subrange(start as int, i as int))
            } else {
                limit + 1
            },
        decreases v.len() - i,
    {
        let c = v[i];
        if !is_ascii_digit(c) {
            assert(body[i - start] == c);
            return None;
        }
        let d: u128 = (c as u32 - '0' as u32) as u128;
        let ghost pre = v@.subrange(start as int, i as int);
        let ghost post = v@.subrange(start as int, i + 1);
        assert(post.drop_last() =~= pre);
        assert(post.last() == c);
        proof {
            lemma_digits_value_nonneg(pre);
        }
        let next = acc * 10 + d;
        if next > limit as u128 {
            acc = limit as u128 + 1;
        } else {
            acc = next;
        }
        assert(all_digits(post)) by {
            assert forall|j: int| 0 <= j < post.len() implies ascii_digit(#[trigger] post[j]) by {
                if j < pre.len() {
                    assert(post[j] == pre[j]);
                }
            }
        }
        i += 1;
    }
    Some(acc)
}

/// `str::parse::<u32>`.
pub fn parse_u32(s: &str) -> (r: Option<u32>)
    ensures
        match r {
            Some(x) => parse_unsigned(s@, u32::MAX as int) == Some(x as int),
            None => parse_unsigned(s@, u32::MAX as int) is None,
        },
{
    let v = chars_of(s);
    let start: usize = if v.len() > 0 && v[0] == '+' { 1 } else { 0 };
    let ghost body = if s@.len() > 0 && s@[0] == '+' { s@.drop_first() } else { s@ };
    assert(body =~= v@.subrange(start as int, v.len() as int));
    if start == v.len() {
        return None;
    }
    match digits_capped(&v, start, u32::MAX as u64) {
        Some(x) => {
            if x > u32::MAX as u128 {
                None
            } else {
                Some(x as u32)
            }
        },
        None => None,
    }
}

/// `str::parse::<u64>`.
pub fn parse_u64(s: &str) -> (r: Option<u64>)
    ensures
        match r {
            Some(x) => parse_unsigned(s@, u64::MAX as int) == Some(x as int),
            None => parse_unsigned(s@, u64::MAX as int) is None,
        },
{
    let v = chars_of(s);
    let start: usize = if v.len() > 0 && v[0] == '+' { 1 } else { 0 };
    let ghost body = if s@.len() > 0 && s@[0] == '+' { s@.drop_first() } else { s@ };
    assert(body =~= v@.subrange(start as int, v.len() as int));
    if start == v.len() {
        return None;
    }
    match digits_capped(&v, start, u64::MAX) {
        Some(x) => {
            if x > u64::MAX as u128 {
                None
            } else {
                Some(x as u64)
            }
        },
        None => None,
    }
}

/// `str::parse::<i64>`.
pub fn parse_i64(s: &str) -> (r: Option<i64>)
    ensures
        match r {
            Some(x) => parse_signed(s@, i64::MIN as int, i64::MAX as int) == Some(x as int),
            None => parse_signed(s@, i64::MIN as int, i64::MAX as int) is None,
        },
{
    let v = chars_of(s);
    let neg = v.len() > 0 && v[0] == '-';
    let start: usize = if v.len() > 0 && (v[0] == '+' || v[0] == '-') { 1 } else { 0 };
    let ghost body = if s@.len() > 0 && (s@[0] == '+' || s@[0] == '-') { s@.drop_first() } else { s@ };
    assert(body =~= v@.subrange(start as int, v.len() as int));
    if start == v.len() {
        return None;
    }
    let limit: u64 = if neg { 9223372036854775808u64 } else { 9223372036854775807u64 };
    match digits_capped(&v, start, limit) {
        Some(x) => {
            if x > limit as u128 {
                None
            } else if neg {
                if x == 9223372036854775808u128 {
                    Some(i64::MIN)
                } else {
                    Some(-(x as i64))
                }
            } else {
                Some(x as i64)
            }
        },
        None => None,
    }
}

pub open spec fn digit_char(d: int) -> char {
    (d + ('0' as int)) as char
}

/// The decimal digits of `n`, as `{}` formats it.
pub open spec fn dec(n: nat) -> Seq<char>
    decreases n,
{
    if n < 10 {
        seq![digit_char(n as int)]
    } else {
        dec(n / 10).push(digit_char((n % 10) as int))
    }
}

pub proof fn lemma_dec_len(n: nat)
    ensures
        dec(n).len() >= 1,
    decreases n,
{
    if n >= 10 {
        lemma_dec_len(n / 10);
    }
}

pub fn dec_u64(n: u64) -> (r: Vec<char>)
    ensures
        r@ == dec(n as nat),
    decreases n,
{
    if n < 10 {
        let c = ((n as u8) + 48) as char;
        vec![c]
    } else {
        let mut v = dec_u64(n / 10);
        let d: u8 = (n % 10) as u8;
        v.push((d + 48) as char);
        v
    }
}

/// `s` padded on the left with `'0'` up to width `w`.
pub open spec fn zero_pad(s: Seq<char>, w: nat) -> Seq<char> {
    if s.len() < w {
        Seq::new((w - s.len()) as nat, |i: int| '0') + s
    } else {
        s
    }
}

/// `format!("{n:0w$}")` for a non-negative `n`.
pub fn dec_padded(n: u64, w: usize) -> (r: Vec<char>)
    ensures
        r@ == zero_pad(dec(n as nat), w as nat),
{
    let d = dec_u64(n);
    if d.len() >= w {
        return d;
    }
    let mut out: Vec<char> = Vec::new();
    let pad = w - d.len();
    let mut i: usize = 0;
    while i < pad
        invariant
            i <= pad,
            out@ == Seq::new(i as nat, |j: int| '0'),
        decreases pad - i,
    {
        out.push('0');
        assert(out@ =~= Seq::new((i + 1) as nat, |j: int| '0'));
        i += 1;
    }
    append_chars(&mut out, &d);
    out
}

} // verus!
