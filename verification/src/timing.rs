//! Ordering the timed words read from a recognizer result: a stable sort by
//! start and end time, then the removal of a unit equal to the one before.
use vstd::prelude::*;

use crate::segmentation::{units_view, TimeUnit, UnitView};
use crate::text::str_eq;

verus! {

/// Whether unit `a` comes no later than `b`: by start, then by end.
pub open spec fn unit_before_eq(a: UnitView, b: UnitView) -> bool {
    a.start_ms < b.start_ms || (a.start_ms == b.start_ms && a.end_ms <= b.end_ms)
}

/// `u` placed into `s` after every unit, counted from the back, that comes
/// no later than it.
pub open spec fn insert_unit(s: Seq<UnitView>, u: UnitView) -> Seq<UnitView>
    decreases s.len(),
{
    if s.len() == 0 {
        seq![u]
    } else if unit_before_eq(s.last(), u) {
        s.push(u)
    } else {
        insert_unit(s.drop_last(), u).push(s.last())
    }
}

/// The units in time order, units with equal times in the order they came
/// (a stable sort by start, then end).
pub open spec fn time_sorted(s: Seq<UnitView>) -> Seq<UnitView>
    decreases s.len(),
{
    if s.len() == 0 {
        seq![]
    } else {
        insert_unit(time_sorted(s.drop_last()), s.last())
    }
}

/// The units without any unit that equals the one just before it.
pub open spec fn drop_repeats(s: Seq<UnitView>) -> Seq<UnitView>
    decreases s.len(),
{
    if s.len() == 0 {
        seq![]
    } else if s.len() >= 2 && s[s.len() - 1] == s[s.len() - 2] {
        drop_repeats(s.drop_last())
    } else {
        drop_repeats(s.drop_last()).push(s.last())
    }
}

/// Every unit comes no later than any unit after it.
pub open spec fn in_time_order(s: Seq<UnitView>) -> bool {
    forall|i: int, j: int| 0 <= i < j < s.len() ==> unit_before_eq(#[trigger] s[i], #[trigger] s[j])
}

/// No unit equals the one just before it.
pub open spec fn no_repeats(s: Seq<UnitView>) -> bool {
    forall|i: int| 0 <= i < s.len() - 1 ==> #[trigger] s[i] != s[i + 1]
}

proof fn lemma_insert_unit(s: Seq<UnitView>, u: UnitView)
    ensures
        insert_unit(s, u).len() == s.len() + 1,
        forall|x: UnitView| #[trigger] insert_unit(s, u).contains(x) <==> (s.contains(x) || x == u),
        in_time_order(s) ==> in_time_order(insert_unit(s, u)),
    decreases s.len(),
{
    let r = insert_unit(s, u);
    if s.len() == 0 {
        assert(r =~= seq![u]);
        assert forall|x: UnitView| r.contains(x) <==> (s.contains(x) || x == u) by {
            if r.contains(x) {
                let k = choose|k: int| 0 <= k < r.len() && r[k] == x;
                assert(k == 0);
            }
            if x == u {
                assert(r[0] == x);
            }
        }
    } else if unit_before_eq(s.last(), u) {
        assert forall|x: UnitView| r.contains(x) <==> (s.contains(x) || x == u) by {
            if r.contains(x) {
                let k = choose|k: int| 0 <= k < r.len() && r[k] == x;
                if k < s.len() {
                    assert(s[k] == x);
                }
            }
            if s.contains(x) {
                let k = choose|k: int| 0 <= k < s.len() && s[k] == x;
                assert(r[k] == x);
            }
            if x == u {
                assert(r[s.len() as int] == x);
            }
        }
        if in_time_order(s) {
            assert forall|i: int, j: int| 0 <= i < j < r.len() implies unit_before_eq(#[trigger] r[i], #[trigger] r[j]) by {
                if j == s.len() {
                    if i < s.len() - 1 {
                        assert(unit_before_eq(s[i], s[s.len() - 1]));
                    }
                }
            }
        }
    } else {
        let t = s.drop_last();
        let l = s.last();
        lemma_insert_unit(t, u);
        let m = insert_unit(t, u);
        assert(r == m.push(l));
        assert forall|x: UnitView| r.contains(x) <==> (s.contains(x) || x == u) by {
            if r.contains(x) {
                let k = choose|k: int| 0 <= k < r.len() && r[k] == x;
                if k < m.len() {
                    assert(m[k] == x);
                    assert(m.contains(x));
                    if x != u {
                        assert(t.contains(x));
                        let q = choose|q: int| 0 <= q < t.len() && t[q] == x;
                        assert(s[q] == x);
                    }
                } else {
                    assert(s[s.len() - 1] == x);
                }
            }
            if s.contains(x) {
                let k = choose|k: int| 0 <= k < s.len() && s[k] == x;
                if k < t.len() {
                    assert(t[k] == x);
                    assert(t.contains(x));
                    assert(m.contains(x));
                    let q = choose|q: int| 0 <= q < m.len() && m[q] == x;
                    assert(r[q] == x);
                } else {
                    assert(r[m.len() as int] == x);
                }
            }
            if x == u {
                assert(m.contains(u));
                let q = choose|q: int| 0 <= q < m.len() && m[q] == u;
                assert(r[q] == x);
            }
        }
        if in_time_order(s) {
            assert(in_time_order(t)) by {
                assert forall|i: int, j: int| 0 <= i < j < t.len() implies unit_before_eq(#[trigger] t[i], #[trigger] t[j]) by {
                    assert(unit_before_eq(s[i], s[j]));
                }
            }
            assert forall|i: int, j: int| 0 <= i < j < r.len() implies unit_before_eq(#[trigger] r[i], #[trigger] r[j]) by {
                if j == m.len() {
                    let x = m[i];
                    assert(m.contains(x));
                    if x == u {
                        assert(unit_before_eq(u, l));
                    } else {
                        assert(t.contains(x));
                        let q = choose|q: int| 0 <= q < t.len() && t[q] == x;
                        assert(unit_before_eq(s[q], s[s.len() - 1]));
                    }
                } else {
                    assert(unit_before_eq(m[i], m[j]));
                }
            }
        }
    }
}

/// The stable sort keeps the units (as many of each) and puts them in
/// time order.
pub proof fn lemma_time_sorted(s: Seq<UnitView>)
    ensures
        time_sorted(s).len() == s.len(),
        forall|x: UnitView| #[trigger] time_sorted(s).contains(x) <==> s.contains(x),
        in_time_order(time_sorted(s)),
    decreases s.len(),
{
    if s.len() > 0 {
        let t = s.drop_last();
        lemma_time_sorted(t);
        lemma_insert_unit(time_sorted(t), s.last());
        assert forall|x: UnitView| time_sorted(s).contains(x) <==> s.contains(x) by {
            if t.contains(x) {
                let q = choose|q: int| 0 <= q < t.len() && t[q] == x;
                assert(s[q] == x);
            }
            if s.contains(x) {
                let k = choose|k: int| 0 <= k < s.len() && s[k] == x;
                if k < t.len() {
                    assert(t[k] == x);
                }
            }
        }
    }
}

/// Dropping repeats keeps the first unit of every run of equal units: what
/// remains holds the same units, in the same order, none equal to the one
/// before it, and ends with the last unit.
pub proof fn lemma_drop_repeats(s: Seq<UnitView>)
    ensures
        drop_repeats(s).len() <= s.len(),
        forall|x: UnitView| #[trigger] drop_repeats(s).contains(x) <==> s.contains(x),
        in_time_order(s) ==> in_time_order(drop_repeats(s)),
        no_repeats(drop_repeats(s)),
        s.len() > 0 ==> drop_repeats(s).len() > 0 && drop_repeats(s).last() == s.last(),
    decreases s.len(),
{
    if s.len() > 0 {
        let t = s.drop_last();
        let l = s.last();
        lemma_drop_repeats(t);
        let d = drop_repeats(t);
        if in_time_order(s) {
            assert(in_time_order(t)) by {
                assert forall|i: int, j: int| 0 <= i < j < t.len() implies unit_before_eq(#[trigger] t[i], #[trigger] t[j]) by {
                    assert(unit_before_eq(s[i], s[j]));
                }
            }
        }
        if s.len() >= 2 && s[s.len() - 1] == s[s.len() - 2] {
            assert forall|x: UnitView| drop_repeats(s).contains(x) <==> s.contains(x) by {
                if s.contains(x) {
                    let k = choose|k: int| 0 <= k < s.len() && s[k] == x;
                    if k < t.len() {
                        assert(t[k] == x);
                    } else {
                        assert(t[t.len() - 1] == x);
                    }
                }
                if t.contains(x) {
                    let q = choose|q: int| 0 <= q < t.len() && t[q] == x;
                    assert(s[q] == x);
                }
            }
        } else {
            let r = d.push(l);
            assert(drop_repeats(s) == r);
            assert forall|x: UnitView| r.contains(x) <==> s.contains(x) by {
                if r.contains(x) {
                    let k = choose|k: int| 0 <= k < r.len() && r[k] == x;
                    if k < d.len() {
                        assert(d[k] == x);
                        assert(d.contains(x));
                        assert(t.contains(x));
                        let q = choose|q: int| 0 <= q < t.len() && t[q] == x;
                        assert(s[q] == x);
                    } else {
                        assert(s[s.len() - 1] == x);
                    }
                }
                if s.contains(x) {
                    let k = choose|k: int| 0 <= k < s.len() && s[k] == x;
                    if k < t.len() {
                        assert(t[k] == x);
                        assert(t.contains(x));
                        assert(d.contains(x));
                        let q = choose|q: int| 0 <= q < d.len() && d[q] == x;
                        assert(r[q] == x);
                    } else {
                        assert(r[d.len() as int] == x);
                    }
                }
            }
            if in_time_order(s) {
                assert forall|i: int, j: int| 0 <= i < j < r.len() implies unit_before_eq(#[trigger] r[i], #[trigger] r[j]) by {
                    if j == d.len() {
                        let x = d[i];
                        assert(d.contains(x));
                        assert(t.contains(x));
                        let q = choose|q: int| 0 <= q < t.len() && t[q] == x;
                        assert(unit_before_eq(s[q], s[s.len() - 1]));
                    } else {
                        assert(unit_before_eq(d[i], d[j]));
                    }
                }
            }
            assert forall|i: int| 0 <= i < r.len() - 1 implies #[trigger] r[i] != r[i + 1] by {
                if i == d.len() - 1 {
                    assert(d.last() == t.last());
                    assert(t.last() == s[s.len() - 2]);
                } else {
                    assert(d[i] != d[i + 1]);
                }
            }
        }
    }
}

fn copy_unit(u: &TimeUnit) -> (r: TimeUnit)
    ensures
        r@ == u@,
{
    TimeUnit { start_ms: u.start_ms, end_ms: u.end_ms, text: u.text.clone() }
}

fn insert_unit_exec(v: &mut Vec<TimeUnit>, u: TimeUnit)
    ensures
        units_view(final(v)@) == insert_unit(units_view(old(v)@), u@),
    decreases old(v)@.len(),
{
    let ghost s = units_view(v@);
    match v.pop() {
        None => {
            v.push(u);
            assert(units_view(v@) =~= seq![u@]);
        },
        Some(last) => {
            assert(units_view(v@) =~= s.drop_last());
            assert(last@ == s.last());
            if last.start_ms < u.start_ms || (last.start_ms == u.start_ms && last.end_ms <= u.end_ms) {
                v.push(last);
                v.push(u);
                assert(units_view(v@) =~= s.push(u@));
            } else {
                let ghost before = v@;
                insert_unit_exec(v, u);
                let ghost mid = v@;
                v.push(last);
                assert(units_view(v@) =~= units_view(mid).push(last@));
            }
        },
    }
}

fn same_unit(a: &TimeUnit, b: &TimeUnit) -> (r: bool)
    ensures
        r == (a@ == b@),
{
    a.start_ms == b.start_ms && a.end_ms == b.end_ms && str_eq(a.text.as_str(), b.text.as_str())
}

/// The units ordered by start, then end time, keeping the order of units
/// with equal times, with every unit equal to the one before it removed.
/// The result holds exactly the units given, in time order, no two in a row
/// equal.
pub fn sort_dedup_time_units(units: Vec<TimeUnit>) -> (r: Vec<TimeUnit>)
    ensures
        units_view(r@) == drop_repeats(time_sorted(units_view(units@))),
        forall|x: UnitView| units_view(r@).contains(x) <==> units_view(units@).contains(x),
        in_time_order(units_view(r@)),
        no_repeats(units_view(r@)),
{
    let ghost all = units_view(units@);
    let mut sorted: Vec<TimeUnit> = Vec::new();
    let mut i: usize = 0;
    while i < units.len()
        invariant
            i <= units@.len(),
            all == units_view(units@),
            units_view(sorted@) == time_sorted(all.take(i as int)),
        decreases units.len() - i,
    {
        assert(all.take(i + 1).drop_last() =~= all.take(i as int));
        assert(all.take(i + 1).last() == units@[i as int]@);
        insert_unit_exec(&mut sorted, copy_unit(&units[i]));
        i += 1;
    }
    assert(all.take(units@.len() as int) =~= all);
    let ghost st = units_view(sorted@);
    let mut out: Vec<TimeUnit> = Vec::new();
    let mut j: usize = 0;
    while j < sorted.len()
        invariant
            j <= sorted@.len(),
            st == units_view(sorted@),
            units_view(out@) == drop_repeats(st.take(j as int)),
        decreases sorted.len() - j,
    {
        let ghost p = st.take(j + 1);
        assert(p.drop_last() =~= st.take(j as int));
        assert(p.last() == sorted@[j as int]@);
        let repeat = j > 0 && same_unit(&sorted[j], &sorted[j - 1]);
        if repeat {
            assert(p[p.len() - 2] == sorted@[j - 1]@);
        } else {
            let ghost before = out@;
            out.push(copy_unit(&sorted[j]));
            assert(units_view(out@) =~= units_view(before).push(sorted@[j as int]@));
            if j > 0 {
                assert(p[p.len() - 2] == sorted@[j - 1]@);
            }
        }
        j += 1;
    }
    assert(st.take(sorted@.len() as int) =~= st);
    proof {
        lemma_time_sorted(all);
        lemma_drop_repeats(st);
    }
    out
}

} // verus!
