//! Spacing the starts of control-plane calls.
//!
//! A limiter bounds the rate at which calls start, however fast they come back:
//! each caller reserves the next free slot and waits for it. Slots are points on
//! a monotonic clock, in nanoseconds.
use vstd::prelude::*;

verus! {

/// Ceiling for calls against the scarce shared control-plane quota.
pub const CONTROL_PLANE_TPS: u32 = 12;

/// Ceiling for log-group deletions.
pub const LOG_GROUP_DELETE_TPS: u32 = 8;

/// Enforces a least interval between the starts of successive calls.
pub struct RateLimiter {
    pub interval_ns: u64,
    /// The earliest point at which the next call may start.
    pub next_slot_ns: u64,
}

/// The point at which a call may start, and the limiter after it has reserved
/// that point: never before its slot, never before now.
pub open spec fn reserved(interval: int, slot: int, now: int) -> (int, int) {
    let at = if slot >= now {
        slot
    } else {
        now
    };
    (at, at + interval)
}

/// The points reserved by calls that arrive at the given times.
pub open spec fn slots(interval: int, slot: int, arrivals: Seq<int>) -> Seq<int>
    decreases arrivals.len(),
{
    if arrivals.len() == 0 {
        Seq::empty()
    } else {
        let (at, next) = reserved(interval, slot, arrivals[0]);
        seq![at] + slots(interval, next, arrivals.drop_first())
    }
}

impl RateLimiter {
    /// A limiter that starts at most `max_tps` calls in a second, the first of
    /// them at once.
    pub fn per_second(max_tps: u32, now_ns: u64) -> (r: RateLimiter)
        requires
            max_tps > 0,
        ensures
            r.interval_ns == 1_000_000_000int / (max_tps as int),
            r.next_slot_ns == now_ns,
    {
        RateLimiter { interval_ns: 1_000_000_000 / (max_tps as u64), next_slot_ns: now_ns }
    }

    /// Reserves the next slot for a call that arrives now, and says when it may
    /// start.
    pub fn reserve(&mut self, now_ns: u64) -> (at: u64)
        requires
            old(self).next_slot_ns + old(self).interval_ns <= u64::MAX,
            now_ns + old(self).interval_ns <= u64::MAX,
        ensures
            (at as int, final(self).next_slot_ns as int) == reserved(
                old(self).interval_ns as int,
                old(self).next_slot_ns as int,
                now_ns as int,
            ),
            final(self).interval_ns == old(self).interval_ns,
    {
        let at: u64 = if self.next_slot_ns >= now_ns {
            self.next_slot_ns
        } else {
            now_ns
        };
        self.next_slot_ns = at + self.interval_ns;
        at
    }
}

/// Calls start at least an interval apart, whenever they arrive, and never before
/// they arrive: no slow call lets a later one catch up.
pub proof fn law_starts_are_spaced(interval: int, slot: int, arrivals: Seq<int>, k: int)
    requires
        interval >= 0,
        0 <= k < arrivals.len(),
    ensures
        slots(interval, slot, arrivals).len() == arrivals.len(),
        slots(interval, slot, arrivals)[k] >= arrivals[k],
        slots(interval, slot, arrivals)[k] >= slot,
        k > 0 ==> slots(interval, slot, arrivals)[k] >= slots(interval, slot, arrivals)[k - 1]
            + interval,
    decreases arrivals.len(),
{
    let (at, next) = reserved(interval, slot, arrivals[0]);
    let rest = arrivals.drop_first();
    let all = slots(interval, slot, arrivals);
    lemma_slots_len(interval, next, rest);
    if k > 0 {
        law_starts_are_spaced(interval, next, rest, k - 1);
        assert(all[k] == slots(interval, next, rest)[k - 1]);
        assert(rest[k - 1] == arrivals[k]);
        if k > 1 {
            assert(all[k - 1] == slots(interval, next, rest)[k - 2]);
        } else {
            assert(all[0] == at);
        }
    } else {
        assert(all[0] == at);
    }
}

proof fn lemma_slots_len(interval: int, slot: int, arrivals: Seq<int>)
    ensures
        slots(interval, slot, arrivals).len() == arrivals.len(),
    decreases arrivals.len(),
{
    if arrivals.len() > 0 {
        let (at, next) = reserved(interval, slot, arrivals[0]);
        lemma_slots_len(interval, next, arrivals.drop_first());
    }
}

/// Calls that arrive together start exactly an interval apart, the first at once.
pub proof fn law_burst_is_spread(interval: int, now: int, n: nat, k: int)
    requires
        interval >= 0,
        0 <= k < n,
    ensures
        slots(interval, now, Seq::new(n, |i: int| now)).len() == n,
        slots(interval, now, Seq::new(n, |i: int| now))[k] == now + k * interval,
{
    lemma_burst(interval, now, now, n, k);
}

proof fn lemma_burst(interval: int, slot: int, now: int, n: nat, k: int)
    requires
        interval >= 0,
        slot >= now,
        0 <= k < n,
    ensures
        slots(interval, slot, Seq::new(n, |i: int| now)).len() == n,
        slots(interval, slot, Seq::new(n, |i: int| now))[k] == slot + k * interval,
    decreases n,
{
    let arrivals = Seq::new(n, |i: int| now);
    let rest = arrivals.drop_first();
    let next = slot + interval;
    assert(rest =~= Seq::new((n - 1) as nat, |i: int| now));
    assert(slots(interval, slot, arrivals) == seq![slot] + slots(interval, next, rest));
    lemma_slots_len(interval, next, rest);
    if k > 0 {
        lemma_burst(interval, next, now, (n - 1) as nat, k - 1);
        assert(slot + interval + (k - 1) * interval == slot + k * interval) by (nonlinear_arith);
    }
}

/// A call that arrives after its slot has passed starts at once, and the next one
/// waits a full interval from then.
pub proof fn law_no_burst_after_stall(interval: int, slot: int, now: int)
    requires
        interval >= 0,
        slot <= now,
    ensures
        slots(interval, slot, seq![now, now]) == seq![now, now + interval],
{
    let two = seq![now, now];
    let one = two.drop_first();
    assert(one =~= seq![now]);
    assert(one.drop_first() =~= Seq::<int>::empty());
    let none = one.drop_first();
    assert(slots(interval, now + interval + interval, none) =~= Seq::<int>::empty());
    assert(slots(interval, now + interval, one) =~= seq![now + interval]);
    assert(slots(interval, slot, two) =~= seq![now, now + interval]);
}

} // verus!
