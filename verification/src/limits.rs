//! How many pipelines run at once, and the shared count of LLM requests in
//! flight.
use vstd::prelude::*;

use crate::config::AppConfig;

verus! {

pub open spec fn clamp(x: int, lo: int, hi: int) -> int {
    if x < lo {
        lo
    } else if x > hi {
        hi
    } else {
        x
    }
}

/// The number of pipelines allowed at once: the configured number kept in
/// 1..=16, and where hardware detection is on, no more than half the cores
/// (kept in 1..=8; 4 cores are assumed where the count is unknown).
pub open spec fn parallel_cap(max_parallel_tasks: u32, auto_detect: bool, cores: Option<u32>) -> int {
    let cap = clamp(max_parallel_tasks as int, 1, 16);
    if !auto_detect {
        cap
    } else {
        let c = match cores {
            Some(n) => if n == 0 {
                1
            } else {
                n as int
            },
            None => 4,
        };
        let suggested = clamp(c / 2, 1, 8);
        if cap < suggested {
            cap
        } else {
            suggested
        }
    }
}

/// `available_cores` is what the platform reports as available
/// parallelism, where it reports anything.
pub fn effective_max_parallel_tasks(cfg: &AppConfig, available_cores: Option<u32>) -> (r: u32)
    ensures
        r == parallel_cap(cfg.runtime.max_parallel_tasks, cfg.runtime.auto_detect_hardware, available_cores),
        1 <= r <= 16,
{
    let m = cfg.runtime.max_parallel_tasks;
    let cap: u32 = if m < 1 {
        1
    } else if m > 16 {
        16
    } else {
        m
    };
    if !cfg.runtime.auto_detect_hardware {
        return cap;
    }
    let cores: u32 = match available_cores {
        Some(n) => if n == 0 {
            1
        } else {
            n
        },
        None => 4,
    };
    let half = cores / 2;
    let suggested: u32 = if half < 1 {
        1
    } else if half > 8 {
        8
    } else {
        half
    };
    if cap < suggested {
        cap
    } else {
        suggested
    }
}

/// The cap on LLM requests in flight for a requested maximum: kept in
/// 1..=64.
pub open spec fn slot_limit(max_parallel: u32) -> int {
    clamp(max_parallel as int, 1, 64)
}

/// The count of LLM translation requests in flight, shared by all tasks.
/// A caller that gets no permit waits and asks again.
pub struct LlmRequestSlots {
    active: u32,
}

/// The right to one request slot; handed back with `release`.
pub struct LlmRequestPermit {
    limit: u32,
}

/// The count after asking for a slot: one more where it is below the cap.
pub open spec fn after_acquire(n: nat, max_parallel: u32) -> nat {
    if n < slot_limit(max_parallel) {
        n + 1
    } else {
        n
    }
}

/// The count after handing a slot back.
pub open spec fn after_release(n: nat) -> nat {
    if n == 0 {
        0
    } else {
        (n - 1) as nat
    }
}

impl LlmRequestSlots {
    /// The number of requests in flight.
    pub closed spec fn in_flight(self) -> nat {
        self.active as nat
    }

    pub fn new() -> (r: Self)
        ensures
            r.in_flight() == 0,
    {
        LlmRequestSlots { active: 0 }
    }

    /// Takes a slot where fewer than the cap are in flight; otherwise
    /// leaves the count and gives no permit.
    pub fn acquire(&mut self, max_parallel: u32) -> (r: Option<LlmRequestPermit>)
        ensures
            final(self).in_flight() == after_acquire(old(self).in_flight(), max_parallel),
            r is Some <==> old(self).in_flight() < slot_limit(max_parallel),
    {
        let max: u32 = if max_parallel < 1 {
            1
        } else if max_parallel > 64 {
            64
        } else {
            max_parallel
        };
        if self.active < max {
            self.active = self.active + 1;
            Some(LlmRequestPermit { limit: max })
        } else {
            None
        }
    }

    /// Hands a slot back.
    pub fn release(&mut self, permit: LlmRequestPermit)
        ensures
            final(self).in_flight() == after_release(old(self).in_flight()),
    {
        let _ = permit.limit;
        if self.active > 0 {
            self.active = self.active - 1;
        }
    }
}

/// A slot that was granted and handed back leaves the count as it was, and
/// granting never takes the count past the cap.
pub proof fn lemma_acquire_release(n: nat, max_parallel: u32)
    ensures
        n < slot_limit(max_parallel) ==> after_release(after_acquire(n, max_parallel)) == n,
        n <= slot_limit(max_parallel) ==> after_acquire(n, max_parallel) <= slot_limit(max_parallel),
{
}

} // verus!
