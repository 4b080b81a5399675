//! The decisions of the background runner: which queued task runs next,
//! how a task's record moves as its pipeline advances, fails, is paused or
//! is cancelled, and what the run does with the settings it started with.
//! Running the tools, the network and the files is the caller's part.
use vstd::prelude::*;

use crate::task::{
    failed_state, normalized, TaskRecord, TaskStoreFile, ORIGINAL_STAGE_EXTRACTING_AUDIO, ORIGINAL_STAGE_WAITING,
    STATUS_COMPLETED, STATUS_PAUSED, STATUS_PAUSE_REQUESTED, STATUS_QUEUED, STATUS_RUNNING,
    ORIGINAL_STAGE_COMPLETED, TRANSLATION_STAGE_COMPLETED, TRANSLATION_STAGE_NOT_REQUIRED,
    TRANSLATION_STAGE_WAITING_ORIGINAL,
};
use crate::task_ops::{find_task, position_of, replaced_at, unchanged};
use crate::text::{
    chars_of, dec, dec_u64, find_from, find_from_exec, is_blank, lower_seq, lower_vec, push_str, str_eq, string_of,
    string_of_range, trim, trim_string,
};

verus! {

// ---------------------------------------------------------------------------
// Runner slots
// ---------------------------------------------------------------------------

/// The statuses that hold one of the runner's slots.
pub open spec fn holds_slot(s: Seq<char>) -> bool {
    s == STATUS_RUNNING@ || s == STATUS_PAUSE_REQUESTED@
}

pub fn occupies_runner_slot(status: &str) -> (r: bool)
    ensures
        r == holds_slot(status@),
{
    str_eq(status, STATUS_RUNNING) || str_eq(status, STATUS_PAUSE_REQUESTED)
}

pub open spec fn count_slots(tasks: Seq<TaskRecord>) -> nat
    decreases tasks.len(),
{
    if tasks.len() == 0 {
        0
    } else {
        count_slots(tasks.drop_last()) + if holds_slot(tasks.last().status@) {
            1nat
        } else {
            0nat
        }
    }
}

/// The first queued task.
pub open spec fn first_queued(tasks: Seq<TaskRecord>) -> Option<int> {
    if exists|i: int| 0 <= i < tasks.len() && (#[trigger] tasks[i]).status@ == STATUS_QUEUED@ {
        Some(
            choose|i: int|
                0 <= i < tasks.len() && (#[trigger] tasks[i]).status@ == STATUS_QUEUED@ && forall|j: int|
                    0 <= j < i ==> (#[trigger] tasks[j]).status@ != STATUS_QUEUED@,
        )
    } else {
        None
    }
}

/// A task taken from the queue: running, extracting audio, at 5%.
pub open spec fn claimed(o: TaskRecord, n: TaskRecord, now: i64) -> bool {
    exists|m: TaskRecord|
        #[trigger] normalized(o, m) && n == (TaskRecord {
            status: n.status,
            original_stage: n.original_stage,
            translation_stage: n.translation_stage,
            progress: 5,
            phase: n.phase,
            updated_at_ms: now,
            ..m
        }) && n.status@ == STATUS_RUNNING@ && n.original_stage@ == ORIGINAL_STAGE_EXTRACTING_AUDIO@
            && n.translation_stage@ == (if m.will_translate {
            TRANSLATION_STAGE_WAITING_ORIGINAL@
        } else {
            TRANSLATION_STAGE_NOT_REQUIRED@
        }) && n.phase@ == "extract_audio"@
}

/// The runner's turn: every task is brought to the current form; then,
/// where fewer than `cap` tasks hold a slot, the first queued task is
/// claimed and its id answered.
/// Brings every task to the current form.
pub fn normalize_all(store: &mut TaskStoreFile)
    ensures
        final(store).version == old(store).version,
        final(store).output_dir_mode == old(store).output_dir_mode,
        final(store).custom_output_dir == old(store).custom_output_dir,
        final(store).tasks@.len() == old(store).tasks@.len(),
        forall|i: int| 0 <= i < old(store).tasks@.len() ==> normalized(#[trigger] old(store).tasks@[i], final(store).tasks@[i]),
{
    let ghost old_tasks = store.tasks@;
    let mut i: usize = 0;
    while i < store.tasks.len()
        invariant
            i <= store.tasks@.len(),
            store.tasks@.len() == old_tasks.len(),
            store.version == old(store).version,
            store.output_dir_mode == old(store).output_dir_mode,
            store.custom_output_dir == old(store).custom_output_dir,
            old_tasks == old(store).tasks@,
            forall|j: int| i <= j < old_tasks.len() ==> store.tasks@[j] == old_tasks[j],
            forall|j: int| 0 <= j < i ==> normalized(#[trigger] old_tasks[j], store.tasks@[j]),
        decreases old_tasks.len() - i,
    {
        let ghost before = store.tasks@;
        let mut t = store.tasks.remove(i);
        t.normalize_state();
        store.tasks.insert(i, t);
        assert(store.tasks@ =~= before.update(i as int, store.tasks@[i as int]));
        i += 1;
    }
}

fn count_slot_holders(tasks: &Vec<TaskRecord>) -> (r: u64)
    ensures
        r == count_slots(tasks@),
{
    let mut active: u64 = 0;
    let mut j: usize = 0;
    while j < tasks.len()
        invariant
            j <= tasks@.len(),
            active == count_slots(tasks@.subrange(0, j as int)),
            active <= j,
        decreases tasks.len() - j,
    {
        assert(tasks@.subrange(0, j + 1).drop_last() =~= tasks@.subrange(0, j as int));
        if occupies_runner_slot(tasks[j].status.as_str()) {
            active = active + 1;
        }
        j += 1;
    }
    assert(tasks@.subrange(0, tasks@.len() as int) =~= tasks@);
    active
}

fn first_queued_index(tasks: &Vec<TaskRecord>) -> (r: Option<usize>)
    ensures
        match r {
            Some(k) => first_queued(tasks@) == Some(k as int) && k < tasks@.len(),
            None => first_queued(tasks@) is None,
        },
{
    let mut k: usize = 0;
    while k < tasks.len()
        invariant
            k <= tasks@.len(),
            forall|q: int| 0 <= q < k ==> (#[trigger] tasks@[q]).status@ != STATUS_QUEUED@,
        decreases tasks.len() - k,
    {
        if str_eq(tasks[k].status.as_str(), STATUS_QUEUED) {
            let ghost c = choose|q: int|
                0 <= q < tasks@.len() && (#[trigger] tasks@[q]).status@ == STATUS_QUEUED@ && forall|p: int|
                    0 <= p < q ==> (#[trigger] tasks@[p]).status@ != STATUS_QUEUED@;
            assert(tasks@[k as int].status@ == STATUS_QUEUED@);
            assert(c == k) by {
                if c < k {
                    assert(tasks@[c].status@ != STATUS_QUEUED@);
                } else if c > k {
                    assert(tasks@[k as int].status@ != STATUS_QUEUED@);
                }
            }
            return Some(k);
        }
        k += 1;
    }
    None
}

/// The runner's turn: every task is brought to the current form; then,
/// where fewer than `cap` tasks hold a slot, the first queued task is
/// claimed and its id answered.
pub fn claim_next_task(store: &mut TaskStoreFile, cap: u32, now: i64) -> (r: Option<String>)
    ensures
        final(store).version == old(store).version,
        final(store).output_dir_mode == old(store).output_dir_mode,
        final(store).custom_output_dir == old(store).custom_output_dir,
        final(store).tasks@.len() == old(store).tasks@.len(),
        exists|mid: Seq<TaskRecord>|
            mid.len() == old(store).tasks@.len() && (forall|i: int|
                0 <= i < mid.len() ==> normalized(#[trigger] old(store).tasks@[i], mid[i])) && if count_slots(mid)
                >= cap || first_queued(mid) is None {
                r is None && final(store).tasks@ == mid
            } else {
                let k = first_queued(mid)->0;
                r matches Some(id) && id@ == mid[k].id@ && final(store).tasks@ == mid.update(
                    k,
                    final(store).tasks@[k],
                ) && claimed(mid[k], final(store).tasks@[k], now)
            },
{
    normalize_all(store);
    let ghost mid = store.tasks@;
    let active = count_slot_holders(&store.tasks);
    if active >= cap as u64 {
        return None;
    }
    let k = match first_queued_index(&store.tasks) {
        Some(k) => k,
        None => return None,
    };
    let mut t = store.tasks.remove(k);
    let id = t.id.clone();
    t.normalize_state();
    let ghost m2 = t;
    t.status = STATUS_RUNNING.to_string();
    t.original_stage = ORIGINAL_STAGE_EXTRACTING_AUDIO.to_string();
    t.translation_stage = if t.will_translate {
        TRANSLATION_STAGE_WAITING_ORIGINAL.to_string()
    } else {
        TRANSLATION_STAGE_NOT_REQUIRED.to_string()
    };
    t.progress = 5;
    t.phase = "extract_audio".to_string();
    t.updated_at_ms = now;
    assert(normalized(mid[k as int], m2));
    store.tasks.insert(k, t);
    assert(store.tasks@ =~= mid.update(k as int, store.tasks@[k as int]));
    assert(claimed(mid[k as int], store.tasks@[k as int], now));
    Some(id)
}

// ---------------------------------------------------------------------------
// Previews and errors
// ---------------------------------------------------------------------------

/// The trimmed, non-blank lines.
pub open spec fn shown_lines(lines: Seq<String>) -> Seq<Seq<char>> {
    lines.map_values(|l: String| trim(l@)).filter(|t: Seq<char>| t.len() > 0)
}

/// Up to two lines joined with ` / `.
pub open spec fn joined_preview(parts: Seq<Seq<char>>) -> Seq<char> {
    if parts.len() == 0 {
        seq![]
    } else if parts.len() == 1 {
        parts[0]
    } else {
        parts[0] + " / "@ + parts[1]
    }
}

/// The preview of subtitle lines: the first two non-blank lines, trimmed and
/// joined with ` / `, cut to 120 characters with `…` where longer; nothing
/// where every line is blank.
pub open spec fn preview_of(lines: Seq<String>) -> Option<Seq<char>> {
    let j = joined_preview(shown_lines(lines));
    if j.len() == 0 {
        None
    } else if j.len() > 120 {
        Some(j.take(120).push('…'))
    } else {
        Some(j)
    }
}

pub fn preview_text(lines: &Vec<String>) -> (r: Option<String>)
    ensures
        match r {
            Some(p) => preview_of(lines@) == Some(p@),
            None => preview_of(lines@) is None,
        },
{
    let ghost tm = lines@.map_values(|l: String| trim(l@));
    let mut picked: Vec<String> = Vec::new();
    let mut i: usize = 0;
    while i < lines.len()
        invariant
            i <= lines@.len(),
            tm == lines@.map_values(|l: String| trim(l@)),
            picked@.len() <= 2,
            crate::srt::strings_view(picked@) == (if tm.take(i as int).filter(|t: Seq<char>| t.len() > 0).len()
                <= 2 {
                tm.take(i as int).filter(|t: Seq<char>| t.len() > 0)
            } else {
                tm.take(i as int).filter(|t: Seq<char>| t.len() > 0).take(2)
            }),
        decreases lines.len() - i,
    {
        let t = trim_string(lines[i].as_str());
        assert(tm.take(i + 1) =~= tm.take(i as int).push(t@));
        proof {
            tm.take(i as int).lemma_filter_push(t@, |t: Seq<char>| t.len() > 0);
        }
        let ghost before = picked@;
        if !crate::text::is_empty_text(t.as_str()) && picked.len() < 2 {
            picked.push(t);
            assert(crate::srt::strings_view(picked@) =~= crate::srt::strings_view(before).push(
                picked@[picked@.len() - 1]@,
            ));
        }
        let ghost f1 = tm.take(i + 1).filter(|t: Seq<char>| t.len() > 0);
        let ghost f0 = tm.take(i as int).filter(|t: Seq<char>| t.len() > 0);
        assert(f0.len() > 2 ==> f1.len() > 2);
        assert(f0.len() >= 2 ==> f1.take(2) =~= f0.take(2));
        assert(f0.len() < 2 && f1.len() > f0.len() ==> f1 =~= f0.push(t@));
        assert(crate::srt::strings_view(picked@) =~= (if f1.len() <= 2 {
            f1
        } else {
            f1.take(2)
        }));
        i += 1;
    }
    assert(tm.take(lines@.len() as int) =~= tm);
    let ghost shown = shown_lines(lines@);
    assert(shown.len() >= 1 ==> crate::srt::strings_view(picked@)[0] == shown[0]);
    assert(shown.len() >= 2 ==> crate::srt::strings_view(picked@)[1] == shown[1]);
    let mut joined = String::new();
    if picked.len() >= 1 {
        push_str(&mut joined, picked[0].as_str());
    }
    if picked.len() >= 2 {
        push_str(&mut joined, " / ");
        push_str(&mut joined, picked[1].as_str());
    }
    assert(joined@ =~= joined_preview(shown));
    let v = chars_of(joined.as_str());
    if v.len() == 0 {
        return None;
    }
    if v.len() > 120 {
        let mut p = string_of_range(&v, 0, 120);
        crate::text::push_char(&mut p, '…');
        assert(p@ =~= joined@.take(120).push('…'));
        return Some(p);
    }
    Some(joined)
}

/// The fragments that mark an error as worth retrying the task for.
pub open spec fn retry_needles() -> Seq<Seq<char>> {
    seq![
        "timeout"@,
        "timed out"@,
        "network"@,
        "connection"@,
        "connect"@,
        "http "@,
        "429"@,
        "500"@,
        "502"@,
        "503"@,
        "504"@,
        "json"@,
        "rate limit"@,
        "dns"@,
        "tls"@,
        "socket"@,
    ]
}

pub open spec fn contains_text(s: Seq<char>, p: Seq<char>) -> bool {
    find_from(s, p, 0) >= 0
}

/// An error message that names a passing condition (time-outs, network,
/// server and parsing errors), ASCII case ignored.
pub open spec fn retryable_error(msg: Seq<char>) -> bool {
    exists|k: int| 0 <= k < retry_needles().len() && contains_text(lower_seq(msg), #[trigger] retry_needles()[k])
}

fn needles() -> (r: Vec<&'static str>)
    ensures
        r@.len() == retry_needles().len(),
        forall|k: int| 0 <= k < r@.len() ==> (#[trigger] r@[k])@ == retry_needles()[k],
{
    vec![
        "timeout",
        "timed out",
        "network",
        "connection",
        "connect",
        "http ",
        "429",
        "500",
        "502",
        "503",
        "504",
        "json",
        "rate limit",
        "dns",
        "tls",
        "socket",
    ]
}

pub fn is_retryable_task_error(msg: &str) -> (r: bool)
    ensures
        r == retryable_error(msg@),
{
    let lower = lower_vec(&chars_of(msg));
    let ns = needles();
    let mut k: usize = 0;
    while k < ns.len()
        invariant
            k <= ns@.len(),
            ns@.len() == retry_needles().len(),
            forall|q: int| 0 <= q < ns@.len() ==> (#[trigger] ns@[q])@ == retry_needles()[q],
            lower@ == lower_seq(msg@),
            forall|q: int| 0 <= q < k ==> !contains_text(lower_seq(msg@), #[trigger] retry_needles()[q]),
        decreases ns.len() - k,
    {
        let n = chars_of(ns[k]);
        if find_from_exec(&lower, &n, 0).is_some() {
            assert(contains_text(lower_seq(msg@), retry_needles()[k as int]));
            return true;
        }
        k += 1;
    }
    false
}

// ---------------------------------------------------------------------------
// Between steps
// ---------------------------------------------------------------------------

/// What the runner does between two steps of a task.
#[derive(Debug, Clone, Copy, PartialEq, Eq, Structural)]
pub enum MidRun {
    Continue,
    Pause,
    Cancel,
}

/// A task that is gone or marked for deletion is cancelled; one asked to
/// pause is paused; otherwise the run goes on.
pub open spec fn mid_run_of(tasks: Seq<TaskRecord>, id: Seq<char>) -> MidRun {
    match find_task(tasks, id) {
        None => MidRun::Cancel,
        Some(i) => if tasks[i].cancel_requested {
            MidRun::Cancel
        } else if tasks[i].status@ == STATUS_PAUSE_REQUESTED@ {
            MidRun::Pause
        } else {
            MidRun::Continue
        },
    }
}

pub fn mid_run_poll(store: &TaskStoreFile, id: &str) -> (r: MidRun)
    ensures
        r == mid_run_of(store.tasks@, id@),
{
    match position_of(&store.tasks, id) {
        None => MidRun::Cancel,
        Some(i) => {
            let t = &store.tasks[i];
            if t.cancel_requested {
                MidRun::Cancel
            } else if str_eq(t.status.as_str(), STATUS_PAUSE_REQUESTED) {
                MidRun::Pause
            } else {
                MidRun::Continue
            }
        },
    }
}

/// Translation stops where the task is to pause or to be cancelled.
pub fn translation_should_abort(store: &TaskStoreFile, id: &str) -> (r: bool)
    ensures
        r == (mid_run_of(store.tasks@, id@) != MidRun::Continue),
{
    mid_run_poll(store, id) != MidRun::Continue
}

/// Removes a cancelled task; answers whether it was there.
pub fn remove_task_if_present(store: &mut TaskStoreFile, id: &str) -> (r: bool)
    ensures
        final(store).version == old(store).version,
        final(store).output_dir_mode == old(store).output_dir_mode,
        final(store).custom_output_dir == old(store).custom_output_dir,
        final(store).tasks@ == old(store).tasks@.filter(|t: TaskRecord| t.id@ != id@),
        r == exists|i: int| 0 <= i < old(store).tasks@.len() && (#[trigger] old(store).tasks@[i]).id@ == id@,
{
    let mut old_tasks: Vec<TaskRecord> = Vec::new();
    std::mem::swap(&mut old_tasks, &mut store.tasks);
    let ghost o = old_tasks@;
    assert(o.len() == old_tasks.len());
    let mut kept: Vec<TaskRecord> = Vec::new();
    let mut k: usize = 0;
    let mut found = false;
    while old_tasks.len() > 0
        invariant
            k + old_tasks@.len() == o.len(),
            o.len() <= usize::MAX,
            old_tasks@ == o.subrange(k as int, o.len() as int),
            kept@ == o.subrange(0, k as int).filter(|t: TaskRecord| t.id@ != id@),
            found == exists|i: int| 0 <= i < k && (#[trigger] o[i]).id@ == id@,
        decreases old_tasks.len(),
    {
        let t = old_tasks.remove(0);
        proof {
            o.subrange(0, k as int).lemma_filter_push(t, |t: TaskRecord| t.id@ != id@);
            assert(o.subrange(0, k + 1) =~= o.subrange(0, k as int).push(t));
            assert(o[k as int] == t);
        }
        if str_eq(t.id.as_str(), id) {
            found = true;
        } else {
            kept.push(t);
        }
        assert(old_tasks@ =~= o.subrange(k + 1, o.len() as int));
        k += 1;
    }
    assert(o.subrange(0, o.len() as int) =~= o);
    store.tasks = kept;
    found
}

/// A task that was asked to pause, paused: no phase, stamped `now`.
pub open spec fn paused_state(m: TaskRecord, n: TaskRecord, now: i64) -> bool {
    &&& n == (TaskRecord { status: n.status, phase: n.phase, updated_at_ms: now, ..m })
    &&& n.status@ == STATUS_PAUSED@
    &&& n.phase@.len() == 0
}

/// The task brought to the current form, then paused where it was asked
/// to pause (answering its progress), or left so.
pub open spec fn paused_from(o: TaskRecord, n: TaskRecord, r: Option<u8>, now: i64) -> bool {
    exists|m: TaskRecord|
        #[trigger] normalized(o, m) && if m.status@ == STATUS_PAUSE_REQUESTED@ {
            paused_state(m, n, now) && r == Some(m.progress)
        } else {
            n == m && r is None
        }
}

/// Pauses a task that was asked to pause. The task is first brought to the
/// current form; where it was asked to pause, it becomes paused and its
/// progress is answered.
pub fn apply_paused(store: &mut TaskStoreFile, id: &str, now: i64) -> (r: Option<u8>)
    ensures
        find_task(old(store).tasks@, id@) is None ==> r is None && unchanged(*old(store), *final(store)),
        find_task(old(store).tasks@, id@) is Some ==> replaced_at(
            *old(store),
            *final(store),
            find_task(old(store).tasks@, id@)->0,
            final(store).tasks@[find_task(old(store).tasks@, id@)->0],
        ) && paused_from(
            old(store).tasks@[find_task(old(store).tasks@, id@)->0],
            final(store).tasks@[find_task(old(store).tasks@, id@)->0],
            r,
            now,
        ),
{
    let i = match position_of(&store.tasks, id) {
        Some(i) => i,
        None => return None,
    };
    let ghost before = store.tasks@;
    let mut t = store.tasks.remove(i);
    t.normalize_state();
    let ghost m = t;
    assert(normalized(before[i as int], m));
    let mut r: Option<u8> = None;
    if str_eq(t.status.as_str(), STATUS_PAUSE_REQUESTED) {
        t.status = STATUS_PAUSED.to_string();
        t.phase = String::new();
        t.updated_at_ms = now;
        r = Some(t.progress);
    }
    store.tasks.insert(i, t);
    assert(store.tasks@ =~= before.update(i as int, store.tasks@[i as int]));
    r
}

// ---------------------------------------------------------------------------
// Failing and succeeding
// ---------------------------------------------------------------------------

pub open spec fn first_chars_of(s: Seq<char>, n: int) -> Seq<char> {
    s.take(if s.len() < n {
        s.len() as int
    } else {
        n
    })
}

/// Whether a failed task (in the current form) is queued again: it is not
/// being deleted, it may be retried and has retries left, and the error is
/// one worth retrying.
pub open spec fn may_retry(m: TaskRecord, msg: Seq<char>) -> bool {
    !m.cancel_requested && m.snapshot_task_auto_retry_max > 0 && m.retry_attempts < m.snapshot_task_auto_retry_max
        && retryable_error(msg)
}

/// A task queued again after an error: one more attempt, waiting from the
/// start, the error and a retry note kept, the last run's results dropped.
pub open spec fn retried_state(m: TaskRecord, n: TaskRecord, msg: Seq<char>, now: i64) -> bool {
    let attempt = m.retry_attempts + 1;
    &&& n == (TaskRecord {
        retry_attempts: attempt as u32,
        status: n.status,
        original_stage: n.original_stage,
        translation_stage: n.translation_stage,
        progress: 0,
        phase: n.phase,
        cancel_requested: false,
        translate_note: n.translate_note,
        segmentation_note: None,
        error_message: n.error_message,
        original_preview: None,
        translated_preview: None,
        original_output_path: None,
        translated_output_path: None,
        bilingual_output_path: None,
        updated_at_ms: now,
        ..m
    })
    &&& n.status@ == STATUS_QUEUED@
    &&& n.original_stage@ == ORIGINAL_STAGE_WAITING@
    &&& n.translation_stage@ == if m.will_translate {
        TRANSLATION_STAGE_WAITING_ORIGINAL@
    } else {
        TRANSLATION_STAGE_NOT_REQUIRED@
    }
    &&& n.phase@ == "retry_"@ + dec(attempt as nat)
    &&& (n.translate_note matches Some(note) && note@ == "自动重试 "@ + dec(attempt as nat) + "/"@ + dec(
        m.snapshot_task_auto_retry_max as nat,
    ))
    &&& (n.error_message matches Some(e) && e@ == first_chars_of(msg, 4000))
}

/// A task that failed for good: marked failed, with the error kept and no
/// notes, phase or pending deletion.
pub open spec fn failed_for_good(m: TaskRecord, n: TaskRecord, msg: Seq<char>, now: i64) -> bool {
    exists|f: TaskRecord|
        #[trigger] failed_state(m, f) && n == (TaskRecord {
            cancel_requested: false,
            translate_note: None,
            segmentation_note: None,
            error_message: n.error_message,
            phase: n.phase,
            updated_at_ms: now,
            ..f
        }) && n.phase@.len() == 0 && (n.error_message matches Some(e) && e@ == first_chars_of(msg, 4000))
}

/// The task brought to the current form, then queued again or failed for
/// good, as `may_retry` decides.
pub open spec fn failed_from(o: TaskRecord, n: TaskRecord, msg: Seq<char>, r: FailOutcome, now: i64) -> bool {
    exists|m: TaskRecord|
        #[trigger] normalized(o, m) && if may_retry(m, msg) {
            r == FailOutcome::Retried && retried_state(m, n, msg, now)
        } else {
            r == FailOutcome::Failed(m.progress) && failed_for_good(m, n, msg, now)
        }
}

/// How a failure ended.
#[derive(Debug, Clone, Copy, PartialEq, Eq, Structural)]
pub enum FailOutcome {
    /// The task is no longer listed.
    Missing,
    /// The task was queued again.
    Retried,
    /// The task failed, at this progress.
    Failed(u8),
}

fn dec_string(n: u32) -> (r: String)
    ensures
        r@ == dec(n as nat),
{
    string_of(&dec_u64(n as u64))
}

fn retry_record(t: &mut TaskRecord, msg: &str, now: i64)
    requires
        old(t).retry_attempts < old(t).snapshot_task_auto_retry_max,
    ensures
        retried_state(*old(t), *final(t), msg@, now),
{
    let limit = t.snapshot_task_auto_retry_max;
    let attempt = t.retry_attempts + 1;
    t.retry_attempts = attempt;
    t.status = STATUS_QUEUED.to_string();
    t.original_stage = ORIGINAL_STAGE_WAITING.to_string();
    t.translation_stage = if t.will_translate {
        TRANSLATION_STAGE_WAITING_ORIGINAL.to_string()
    } else {
        TRANSLATION_STAGE_NOT_REQUIRED.to_string()
    };
    t.progress = 0;
    let mut phase = "retry_".to_string();
    push_str(&mut phase, dec_string(attempt).as_str());
    t.phase = phase;
    t.cancel_requested = false;
    let mut note = "自动重试 ".to_string();
    push_str(&mut note, dec_string(attempt).as_str());
    push_str(&mut note, "/");
    push_str(&mut note, dec_string(limit).as_str());
    t.translate_note = Some(note);
    t.segmentation_note = None;
    t.error_message = Some(crate::google::first_chars(msg, 4000));
    t.original_preview = None;
    t.translated_preview = None;
    t.original_output_path = None;
    t.translated_output_path = None;
    t.bilingual_output_path = None;
    t.updated_at_ms = now;
}

fn final_fail_record(t: &mut TaskRecord, msg: &str, now: i64)
    ensures
        failed_for_good(*old(t), *final(t), msg@, now),
{
    t.mark_failed();
    let ghost f = *t;
    t.cancel_requested = false;
    t.translate_note = None;
    t.segmentation_note = None;
    t.error_message = Some(crate::google::first_chars(msg, 4000));
    t.phase = String::new();
    t.updated_at_ms = now;
    assert(crate::task::failed_state(*old(t), f));
}

/// The failure of one task's run, as `failed_from` says.
fn fail_record(t: &mut TaskRecord, msg: &str, now: i64) -> (r: FailOutcome)
    ensures
        failed_from(*old(t), *final(t), msg@, r, now),
{
    t.normalize_state();
    let ghost m = *t;
    let limit = t.snapshot_task_auto_retry_max;
    let can_retry = !t.cancel_requested && limit > 0 && t.retry_attempts < limit && is_retryable_task_error(msg);
    if can_retry {
        retry_record(t, msg, now);
        assert(normalized(*old(t), m));
        FailOutcome::Retried
    } else {
        let p = t.progress;
        final_fail_record(t, msg, now);
        assert(normalized(*old(t), m));
        FailOutcome::Failed(p)
    }
}

/// Records that a task's run failed with `msg`: the task is brought to the
/// current form, then queued again where `may_retry` allows, else marked
/// failed.
pub fn fail_task(store: &mut TaskStoreFile, id: &str, msg: &str, now: i64) -> (r: FailOutcome)
    ensures
        find_task(old(store).tasks@, id@) is None ==> r == FailOutcome::Missing && unchanged(*old(store), *final(store)),
        find_task(old(store).tasks@, id@) is Some ==> replaced_at(
            *old(store),
            *final(store),
            find_task(old(store).tasks@, id@)->0,
            final(store).tasks@[find_task(old(store).tasks@, id@)->0],
        ) && failed_from(
            old(store).tasks@[find_task(old(store).tasks@, id@)->0],
            final(store).tasks@[find_task(old(store).tasks@, id@)->0],
            msg@,
            r,
            now,
        ),
{
    let i = match position_of(&store.tasks, id) {
        Some(i) => i,
        None => return FailOutcome::Missing,
    };
    let ghost before = store.tasks@;
    let mut t = store.tasks.remove(i);
    let r = fail_record(&mut t, msg, now);
    store.tasks.insert(i, t);
    assert(store.tasks@ =~= before.update(i as int, store.tasks@[i as int]));
    r
}

/// A task whose run succeeded: completed, both stages done (the
/// translation one as not required where there was none), at 100%, with
/// no phase or error and the given note.
pub open spec fn succeeded_state(m: TaskRecord, n: TaskRecord, note: Option<String>, now: i64) -> bool {
    &&& n == (TaskRecord {
        status: n.status,
        original_stage: n.original_stage,
        translation_stage: n.translation_stage,
        progress: 100,
        phase: n.phase,
        error_message: None,
        translate_note: note,
        updated_at_ms: now,
        ..m
    })
    &&& n.status@ == STATUS_COMPLETED@
    &&& n.original_stage@ == ORIGINAL_STAGE_COMPLETED@
    &&& n.translation_stage@ == if m.will_translate {
        TRANSLATION_STAGE_COMPLETED@
    } else {
        TRANSLATION_STAGE_NOT_REQUIRED@
    }
    &&& n.phase@.len() == 0
}

/// The task brought to the current form, then marked as succeeded.
pub open spec fn succeeded_from(o: TaskRecord, n: TaskRecord, note: Option<String>, now: i64) -> bool {
    exists|m: TaskRecord| #[trigger] normalized(o, m) && succeeded_state(m, n, note, now)
}

/// Records that a task's run succeeded; answers whether it was listed.
pub fn succeed_task(store: &mut TaskStoreFile, id: &str, note: Option<String>, now: i64) -> (r: bool)
    ensures
        find_task(old(store).tasks@, id@) is None ==> !r && unchanged(*old(store), *final(store)),
        find_task(old(store).tasks@, id@) is Some ==> r && replaced_at(
            *old(store),
            *final(store),
            find_task(old(store).tasks@, id@)->0,
            final(store).tasks@[find_task(old(store).tasks@, id@)->0],
        ) && succeeded_from(
            old(store).tasks@[find_task(old(store).tasks@, id@)->0],
            final(store).tasks@[find_task(old(store).tasks@, id@)->0],
            note,
            now,
        ),
{
    let i = match position_of(&store.tasks, id) {
        Some(i) => i,
        None => return false,
    };
    let ghost before = store.tasks@;
    let mut t = store.tasks.remove(i);
    t.normalize_state();
    let ghost m = t;
    assert(normalized(before[i as int], m));
    t.status = STATUS_COMPLETED.to_string();
    t.original_stage = ORIGINAL_STAGE_COMPLETED.to_string();
    t.translation_stage = if t.will_translate {
        TRANSLATION_STAGE_COMPLETED.to_string()
    } else {
        TRANSLATION_STAGE_NOT_REQUIRED.to_string()
    };
    t.progress = 100;
    t.phase = String::new();
    t.error_message = None;
    let ghost nv = note;
    t.translate_note = note;
    t.updated_at_ms = now;
    assert(succeeded_state(m, t, nv, now));
    store.tasks.insert(i, t);
    assert(store.tasks@ =~= before.update(i as int, store.tasks@[i as int]));
    true
}

} // verus!
