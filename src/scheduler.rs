use vstd::prelude::*;

verus! {

/// Delay before the first retry, in milliseconds.
pub const BASE_BACKOFF_MS: u64 = 1000;

/// Longest delay between retries, in milliseconds.
pub const MAX_BACKOFF_MS: u64 = 30000;

/// Window over which task crashes are counted, in seconds.
pub const CRASH_WINDOW_SECONDS: i64 = 60;

/// Crashes within the window that a task may have; one more stops the process.
pub const MAX_CRASHES_IN_WINDOW: usize = 3;

pub open spec fn pow2(n: nat) -> nat
    decreases n,
{
    if n == 0 { 1 } else { 2 * pow2((n - 1) as nat) }
}

/// Delay before the retry that follows `failures` consecutive failures: doubling from
/// the base delay, capped.
pub open spec fn spec_backoff_ms(failures: nat) -> int {
    let d = BASE_BACKOFF_MS * pow2(failures);
    if d < MAX_BACKOFF_MS { d } else { MAX_BACKOFF_MS as int }
}

proof fn lemma_pow2_monotone(a: nat, b: nat)
    requires
        a <= b,
    ensures
        pow2(a) <= pow2(b),
    decreases b,
{
    if b > a {
        lemma_pow2_monotone(a, (b - 1) as nat);
    }
}

pub fn backoff_ms(failures: u32) -> (r: u64)
    ensures
        r == spec_backoff_ms(failures as nat),
        BASE_BACKOFF_MS <= r <= MAX_BACKOFF_MS,
{
    let mut d: u64 = BASE_BACKOFF_MS;
    let mut k: u32 = 0;
    while k < failures
        invariant
            k <= failures,
            d == BASE_BACKOFF_MS * pow2(k as nat) || (d == MAX_BACKOFF_MS && BASE_BACKOFF_MS
                * pow2(k as nat) >= MAX_BACKOFF_MS),
            BASE_BACKOFF_MS <= d <= MAX_BACKOFF_MS,
        decreases failures - k,
    {
        proof {
            assert(pow2((k + 1) as nat) == 2 * pow2(k as nat));
        }
        if d >= MAX_BACKOFF_MS / 2 {
            d = MAX_BACKOFF_MS;
        } else {
            d = d * 2;
        }
        k = k + 1;
    }
    proof {
        lemma_pow2_monotone(0, failures as nat);
    }
    d
}

/// Holds of a crash time that lies within the window ending at `now`.
pub open spec fn within_window(now: i64) -> spec_fn(i64) -> bool {
    |t: i64| t > now - CRASH_WINDOW_SECONDS
}

/// Crash times of one task, for the crash-loop rule.
pub struct CrashWindow {
    pub crashes: Vec<i64>,
}

impl CrashWindow {
    pub fn new() -> (r: CrashWindow)
        ensures
            r.crashes@ == Seq::<i64>::empty(),
    {
        CrashWindow { crashes: Vec::new() }
    }

    /// Records a crash at `now` and forgets crashes older than the window. Returns whether
    /// the task crashed more often within the window than allowed, so that the process
    /// should stop.
    pub fn record_crash(&mut self, now: i64) -> (stop: bool)
        requires
            now >= i64::MIN + CRASH_WINDOW_SECONDS,
        ensures
            final(self).crashes@ == old(self).crashes@.push(now).filter(within_window(now)),
            stop == (final(self).crashes@.len() > MAX_CRASHES_IN_WINDOW),
    {
        let ghost all = self.crashes@.push(now);
        let ghost pred = within_window(now);
        self.crashes.push(now);
        let mut kept: Vec<i64> = Vec::new();
        let mut k: usize = 0;
        while k < self.crashes.len()
            invariant
                self.crashes@ == all,
                pred == within_window(now),
                now >= i64::MIN + CRASH_WINDOW_SECONDS,
                k <= all.len(),
                kept@ == all.subrange(0, k as int).filter(pred),
            decreases all.len() - k,
        {
            proof {
                assert(all.subrange(0, k + 1) == all.subrange(0, k as int).push(all[k as int]));
                all.subrange(0, k as int).lemma_filter_push(all[k as int], pred);
            }
            let t = self.crashes[k];
            if t > now - CRASH_WINDOW_SECONDS {
                kept.push(t);
            }
            k = k + 1;
        }
        proof {
            assert(all.subrange(0, all.len() as int) == all);
        }
        self.crashes = kept;
        self.crashes.len() > MAX_CRASHES_IN_WINDOW
    }
}

} // verus!
