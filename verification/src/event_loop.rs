//! The runtime's event loop decisions: timers (ids, cancellation, which are
//! due, how long to sleep), pending operation ids, and when the loop ends.
//! Times are counted in milliseconds on a clock of the caller's choosing.
use vstd::prelude::*;

use std::collections::HashMap;

use crate::errors::MycoError;

verus! {

broadcast use vstd::std_specs::hash::group_hash_axioms;

/// A timer: its id, what to call, and when it is due.
#[derive(Debug)]
pub struct Timer<C> {
    pub id: u32,
    pub callback: C,
    pub execute_at: u64,
}

/// The timers of a runtime and the id the next one gets.
#[derive(Debug)]
pub struct TimerQueue<C> {
    pub timers: Vec<Timer<C>>,
    pub next_timer_id: u32,
}

/// The timers of `ts` other than those with id `id`, in order.
pub open spec fn without_id<C>(ts: Seq<Timer<C>>, id: u32) -> Seq<Timer<C>>
    decreases ts.len(),
{
    if ts.len() == 0 {
        Seq::empty()
    } else {
        let rest = without_id(ts.drop_last(), id);
        if ts.last().id != id {
            rest.push(ts.last())
        } else {
            rest
        }
    }
}

/// The timers of `ts` due at `now` (`due` true) or not yet due (`due` false), in order.
pub open spec fn due_part<C>(ts: Seq<Timer<C>>, now: u64, due: bool) -> Seq<Timer<C>>
    decreases ts.len(),
{
    if ts.len() == 0 {
        Seq::empty()
    } else {
        let rest = due_part(ts.drop_last(), now, due);
        if (ts.last().execute_at <= now) == due {
            rest.push(ts.last())
        } else {
            rest
        }
    }
}

/// The least time left until a timer of `ts` is due (zero for one already due).
pub open spec fn min_delay<C>(ts: Seq<Timer<C>>, now: u64) -> Option<u64>
    decreases ts.len(),
{
    if ts.len() == 0 {
        None
    } else {
        let d: u64 = if ts.last().execute_at > now {
            (ts.last().execute_at - now) as u64
        } else {
            0
        };
        match min_delay(ts.drop_last(), now) {
            None => Some(d),
            Some(m) => Some(if d < m { d } else { m }),
        }
    }
}

/// How long from `now` until `t` is due: zero once it is.
pub open spec fn time_left<C>(t: Timer<C>, now: u64) -> int {
    if t.execute_at > now {
        t.execute_at - now
    } else {
        0
    }
}

/// The delay before the next timer is the least time left over all timers:
/// there is one exactly when there are timers; it is no more than the time
/// left of any timer, and it is the time left of one of them.
pub proof fn law_next_delay_is_least<C>(ts: Seq<Timer<C>>, now: u64)
    ensures
        (min_delay(ts, now) is None) == (ts.len() == 0),
        min_delay(ts, now) matches Some(d) ==> {
            &&& forall|i: int| 0 <= i < ts.len() ==> d <= #[trigger] time_left(ts[i], now)
            &&& exists|i: int| 0 <= i < ts.len() && d == #[trigger] time_left(ts[i], now)
        },
    decreases ts.len(),
{
    if ts.len() > 0 {
        let init = ts.drop_last();
        law_next_delay_is_least(init, now);
        let last = ts.len() - 1;
        assert(ts[last] == ts.last());
        assert forall|i: int| 0 <= i < init.len() implies ts[i] == #[trigger] init[i] by {}
        match min_delay(init, now) {
            None => {
                assert(init.len() == 0);
                assert(min_delay(ts, now) == Some(time_left(ts[last], now) as u64));
                assert(0 <= last < ts.len() && min_delay(ts, now)->Some_0 == time_left(ts[last], now));
            },
            Some(m) => {
                let k = choose|k: int| 0 <= k < init.len() && m == #[trigger] time_left(init[k], now);
                assert(ts[k] == init[k]);
                let dl = time_left(ts[last], now);
                if dl < m {
                    assert(min_delay(ts, now) == Some(dl as u64));
                    assert(0 <= last < ts.len() && min_delay(ts, now)->Some_0 == time_left(ts[last], now));
                } else {
                    assert(min_delay(ts, now) == Some(m));
                    assert(0 <= k < ts.len() && min_delay(ts, now)->Some_0 == time_left(ts[k], now));
                }
                assert forall|i: int| 0 <= i < ts.len() implies min_delay(ts, now)->Some_0 <= #[trigger] time_left(
                    ts[i],
                    now,
                ) by {
                    if i < init.len() {
                        assert(ts[i] == init[i]);
                        assert(m <= time_left(init[i], now));
                    }
                }
            },
        }
    }
}

/// Taking the due timers splits the timers in two: every timer taken is due
/// at `now`, every timer kept is not, each timer lands on its side, and none
/// is lost or added.
pub proof fn law_take_ready_splits<C>(ts: Seq<Timer<C>>, now: u64)
    ensures
        forall|i: int|
            0 <= i < due_part(ts, now, true).len() ==> (#[trigger] due_part(ts, now, true)[i]).execute_at <= now,
        forall|i: int|
            0 <= i < due_part(ts, now, false).len() ==> (#[trigger] due_part(ts, now, false)[i]).execute_at > now,
        forall|i: int|
            0 <= i < ts.len() ==> due_part(ts, now, (#[trigger] ts[i]).execute_at <= now).contains(ts[i]),
        due_part(ts, now, true).len() + due_part(ts, now, false).len() == ts.len(),
    decreases ts.len(),
{
    if ts.len() > 0 {
        let init = ts.drop_last();
        law_take_ready_splits(init, now);
        let last = ts.len() - 1;
        assert(ts[last] == ts.last());
        assert forall|i: int| 0 <= i < ts.len() implies due_part(ts, now, (#[trigger] ts[i]).execute_at <= now).contains(
            ts[i],
        ) by {
            let side = ts[i].execute_at <= now;
            if i < init.len() {
                assert(ts[i] == init[i]);
                let k = choose|k: int| 0 <= k < due_part(init, now, side).len() && due_part(init, now, side)[k] == init[i];
                if (ts.last().execute_at <= now) == side {
                    assert(due_part(ts, now, side)[k] == init[i]);
                }
            } else {
                assert(due_part(ts, now, side).last() == ts[i]);
            }
        }
    }
}

/// Cancelling a timer by id leaves no timer with that id and keeps every other
/// timer, in order, adding none.
pub proof fn law_clear_removes_only_id<C>(ts: Seq<Timer<C>>, id: u32)
    ensures
        forall|i: int| 0 <= i < without_id(ts, id).len() ==> (#[trigger] without_id(ts, id)[i]).id != id,
        forall|i: int| 0 <= i < ts.len() && (#[trigger] ts[i]).id != id ==> without_id(ts, id).contains(ts[i]),
        forall|i: int| 0 <= i < without_id(ts, id).len() ==> ts.contains(#[trigger] without_id(ts, id)[i]),
        without_id(ts, id).len() <= ts.len(),
    decreases ts.len(),
{
    if ts.len() > 0 {
        let init = ts.drop_last();
        law_clear_removes_only_id(init, id);
        let last = ts.len() - 1;
        assert(ts[last] == ts.last());
        assert forall|i: int| 0 <= i < ts.len() && (#[trigger] ts[i]).id != id implies without_id(ts, id).contains(ts[i]) by {
            if i < init.len() {
                assert(ts[i] == init[i]);
                let k = choose|k: int| 0 <= k < without_id(init, id).len() && without_id(init, id)[k] == init[i];
                if ts.last().id != id {
                    assert(without_id(ts, id)[k] == init[i]);
                }
            } else {
                assert(without_id(ts, id).last() == ts[i]);
            }
        }
        assert forall|i: int| 0 <= i < without_id(ts, id).len() implies ts.contains(#[trigger] without_id(ts, id)[i]) by {
            if i < without_id(init, id).len() {
                let t = without_id(init, id)[i];
                assert(without_id(ts, id)[i] == t);
                let k = choose|k: int| 0 <= k < init.len() && init[k] == t;
                assert(ts[k] == init[k]);
            } else {
                assert(without_id(ts, id)[i] == ts[last]);
            }
        }
    }
}

impl<C> TimerQueue<C> {
    /// No timers yet; the first gets id 1.
    pub fn new() -> (r: Self)
        ensures
            r.timers@.len() == 0,
            r.next_timer_id == 1,
    {
        TimerQueue { timers: Vec::new(), next_timer_id: 1 }
    }

    /// Schedules `callback` at `execute_at` under the next id, which it returns.
    pub fn add(&mut self, callback: C, execute_at: u64) -> (id: u32)
        requires
            old(self).next_timer_id < u32::MAX,
        ensures
            id == old(self).next_timer_id,
            final(self).next_timer_id == old(self).next_timer_id + 1,
            final(self).timers@ == old(self).timers@.push(Timer { id, callback, execute_at }),
    {
        let id = self.next_timer_id;
        self.next_timer_id = self.next_timer_id + 1;
        self.timers.push(Timer { id, callback, execute_at });
        id
    }

    /// Cancels every timer with id `id`.
    pub fn clear(&mut self, id: u32)
        ensures
            final(self).next_timer_id == old(self).next_timer_id,
            final(self).timers@ == without_id(old(self).timers@, id),
            forall|i: int| 0 <= i < final(self).timers@.len() ==> (#[trigger] final(self).timers@[i]).id != id,
            forall|i: int|
                0 <= i < old(self).timers@.len() && (#[trigger] old(self).timers@[i]).id != id
                    ==> final(self).timers@.contains(old(self).timers@[i]),
            final(self).timers@.len() <= old(self).timers@.len(),
    {
        proof {
            law_clear_removes_only_id(self.timers@, id);
        }
        let mut kept: Vec<Timer<C>> = Vec::new();
        let mut rest: Vec<Timer<C>> = Vec::new();
        std::mem::swap(&mut rest, &mut self.timers);
        let ghost all = rest@;
        let ghost mut n: int = 0;
        proof {
            assert(all.take(0) =~= Seq::<Timer<C>>::empty());
            assert(all.skip(0) =~= all);
        }
        while rest.len() > 0
            invariant
                rest@.len() + n == all.len(),
                0 <= n <= all.len(),
                rest@ == all.skip(n),
                kept@ == without_id(all.take(n), id),
            decreases rest@.len(),
        {
            let t = rest.remove(0);
            proof {
                assert(all.skip(n)[0] == all[n]);
                assert(rest@ =~= all.skip(n + 1));
                assert(t == all[n]);
                assert(all.take(n + 1).drop_last() =~= all.take(n));
                assert(all.take(n + 1).last() == all[n]);
            }
            if t.id != id {
                kept.push(t);
            }
            proof {
                n = n + 1;
            }
        }
        proof {
            assert(all.take(n) =~= all);
        }
        self.timers = kept;
    }

    /// Removes and returns the timers due at `now`, keeping the others; both in order.
    pub fn take_ready(&mut self, now: u64) -> (ready: Vec<Timer<C>>)
        ensures
            final(self).next_timer_id == old(self).next_timer_id,
            ready@ == due_part(old(self).timers@, now, true),
            final(self).timers@ == due_part(old(self).timers@, now, false),
            forall|i: int| 0 <= i < ready@.len() ==> (#[trigger] ready@[i]).execute_at <= now,
            forall|i: int| 0 <= i < final(self).timers@.len() ==> (#[trigger] final(self).timers@[i]).execute_at > now,
            ready@.len() + final(self).timers@.len() == old(self).timers@.len(),
    {
        proof {
            law_take_ready_splits(self.timers@, now);
        }
        let mut rest: Vec<Timer<C>> = Vec::new();
        std::mem::swap(&mut rest, &mut self.timers);
        let ghost all = rest@;
        let mut ready: Vec<Timer<C>> = Vec::new();
        let mut remaining: Vec<Timer<C>> = Vec::new();
        let ghost mut n: int = 0;
        proof {
            assert(all.take(0) =~= Seq::<Timer<C>>::empty());
            assert(all.skip(0) =~= all);
        }
        while rest.len() > 0
            invariant
                rest@.len() + n == all.len(),
                0 <= n <= all.len(),
                rest@ == all.skip(n),
                ready@ == due_part(all.take(n), now, true),
                remaining@ == due_part(all.take(n), now, false),
            decreases rest@.len(),
        {
            let t = rest.remove(0);
            proof {
                assert(all.skip(n)[0] == all[n]);
                assert(rest@ =~= all.skip(n + 1));
                assert(t == all[n]);
                assert(all.take(n + 1).drop_last() =~= all.take(n));
                assert(all.take(n + 1).last() == all[n]);
            }
            if t.execute_at <= now {
                ready.push(t);
            } else {
                remaining.push(t);
            }
            proof {
                n = n + 1;
            }
        }
        proof {
            assert(all.take(n) =~= all);
        }
        self.timers = remaining;
        ready
    }

    /// The least time left at `now` until a timer is due; `None` without timers.
    pub fn next_delay(&self, now: u64) -> (r: Option<u64>)
        ensures
            r == min_delay(self.timers@, now),
            (r is None) == (self.timers@.len() == 0),
            r matches Some(d) ==> {
                &&& forall|i: int|
                    0 <= i < self.timers@.len() ==> d <= #[trigger] time_left(self.timers@[i], now)
                &&& exists|i: int| 0 <= i < self.timers@.len() && d == #[trigger] time_left(self.timers@[i], now)
            },
    {
        proof {
            law_next_delay_is_least(self.timers@, now);
        }
        let mut best: Option<u64> = None;
        let mut i: usize = 0;
        proof {
            assert(self.timers@.take(0) =~= Seq::<Timer<C>>::empty());
        }
        while i < self.timers.len()
            invariant
                i <= self.timers@.len(),
                best == min_delay(self.timers@.take(i as int), now),
            decreases self.timers@.len() - i,
        {
            proof {
                assert(self.timers@.take(i + 1).drop_last() =~= self.timers@.take(i as int));
                assert(self.timers@.take(i + 1).last() == self.timers@[i as int]);
            }
            let at = self.timers[i].execute_at;
            let d: u64 = if at > now {
                at - now
            } else {
                0
            };
            best = match best {
                None => Some(d),
                Some(m) => Some(if d < m {
                    d
                } else {
                    m
                }),
            };
            i = i + 1;
        }
        proof {
            assert(self.timers@.take(i as int) =~= self.timers@);
        }
        best
    }
}

/// The longest the loop sleeps between rounds, in milliseconds.
pub const MAX_SLEEP_MS: u64 = 10;

/// How long to sleep before the next round while timers are pending: until the
/// next timer is due (1 ms when that cannot be told), but at most 10 ms.
pub fn sleep_ms(next_delay: Option<u64>) -> (r: u64)
    ensures
        r == match next_delay {
            Some(d) => if d < MAX_SLEEP_MS { d } else { MAX_SLEEP_MS },
            None => 1,
        },
{
    let d = match next_delay {
        Some(d) => d,
        None => 1,
    };
    if d < MAX_SLEEP_MS {
        d
    } else {
        MAX_SLEEP_MS
    }
}

/// Empty rounds in a row after which an idle loop ends.
pub const MAX_EMPTY_ROUNDS: u64 = 10;

/// Rounds during which the loop never counts as idle.
pub const WARMUP_ROUNDS: u64 = 50;

/// The loop's counters.
#[derive(Debug, Clone, Copy, PartialEq, Eq, Structural)]
pub struct LoopState {
    pub consecutive_empty_rounds: u64,
    pub total_rounds: u64,
}

/// The counters after a round, and whether the loop then ends: a round that
/// ran a timer or settled an operation resets the idle count; during the first
/// 50 rounds it stays zero; the loop ends after 10 idle rounds in a row with
/// nothing pending.
pub open spec fn after_round(s: LoopState, progressed: bool, pending: bool) -> (LoopState, bool) {
    let total = s.total_rounds + 1;
    let empty = if progressed {
        0
    } else {
        s.consecutive_empty_rounds + 1
    };
    let empty = if total < WARMUP_ROUNDS {
        0
    } else {
        empty
    };
    (
        LoopState { consecutive_empty_rounds: empty as u64, total_rounds: total as u64 },
        empty >= MAX_EMPTY_ROUNDS && !pending,
    )
}

impl LoopState {
    /// A loop that has run no round.
    pub fn new() -> (r: Self)
        ensures
            r.consecutive_empty_rounds == 0,
            r.total_rounds == 0,
    {
        LoopState { consecutive_empty_rounds: 0, total_rounds: 0 }
    }

    /// Accounts for one round; returns whether the loop ends.
    pub fn finish_round(&mut self, progressed: bool, pending_ops: bool, pending_timers: bool) -> (stop: bool)
        requires
            old(self).total_rounds < u64::MAX,
            old(self).consecutive_empty_rounds < u64::MAX,
        ensures
            (*final(self), stop) == after_round(*old(self), progressed, pending_ops || pending_timers),
    {
        self.total_rounds = self.total_rounds + 1;
        if progressed {
            self.consecutive_empty_rounds = 0;
        } else {
            self.consecutive_empty_rounds = self.consecutive_empty_rounds + 1;
        }
        if self.total_rounds < WARMUP_ROUNDS {
            self.consecutive_empty_rounds = 0;
        }
        self.consecutive_empty_rounds >= MAX_EMPTY_ROUNDS && !pending_ops && !pending_timers
    }
}

/// An idle loop with nothing pending ends: from any counters, ten idle rounds
/// past the warm-up end it, and a round with something pending never does.
pub proof fn law_idle_loop_ends(s: LoopState)
    requires
        s.total_rounds >= WARMUP_ROUNDS,
        s.consecutive_empty_rounds >= MAX_EMPTY_ROUNDS - 1,
    ensures
        after_round(s, false, false).1,
        !after_round(s, false, true).1,
        !after_round(s, true, false).1,
{
}

/// Starts the loop: it needs the runtime's state (`state_present`), from
/// which it takes, once, the receiver of finished operations. Without the
/// state, or with the receiver already taken, the loop fails.
pub fn start_loop<T>(state_present: bool, receiver: &mut Option<T>) -> (r: Result<T, MycoError>)
    ensures
        !state_present ==> (r matches Err(MycoError::EventLoop { message }) && message@
            == "Failed to get isolate state"@) && *final(receiver) == *old(receiver),
        state_present ==> match *old(receiver) {
            None => (r matches Err(MycoError::EventLoop { message }) && message@
                == "Op receiver already taken"@) && *final(receiver) is None,
            Some(x) => r == Ok::<T, MycoError>(x) && *final(receiver) is None,
        },
{
    proof {
        reveal_strlit("Failed to get isolate state");
        reveal_strlit("Op receiver already taken");
    }
    if !state_present {
        return Err(MycoError::EventLoop { message: "Failed to get isolate state".to_string() });
    }
    match receiver.take() {
        Some(x) => Ok(x),
        None => Err(MycoError::EventLoop { message: "Op receiver already taken".to_string() }),
    }
}

/// Opens a round: an error the script recorded as unhandled (with the message
/// and stack text the runtime made of it) ends the loop with that error.
pub fn check_unhandled(recorded: Option<String>) -> (r: Result<(), MycoError>)
    ensures
        match recorded {
            None => r is Ok,
            Some(m) => r matches Err(MycoError::UnhandledError { message }) && message@ == m@,
        },
{
    match recorded {
        None => Ok(()),
        Some(m) => Err(MycoError::UnhandledError { message: m }),
    }
}

/// The operations a runtime awaits, by id, and the id the next one gets.
#[derive(Debug)]
pub struct OpTable<R> {
    pub pending: HashMap<u32, R>,
    pub next_op_id: u32,
}

impl<R> OpTable<R> {
    /// No operations yet; the first gets id 1.
    pub fn new() -> (r: Self)
        ensures
            r.pending@ == Map::<u32, R>::empty(),
            r.next_op_id == 1,
    {
        OpTable { pending: HashMap::new(), next_op_id: 1 }
    }

    /// Hands out the next operation id.
    pub fn get_next_op_id(&mut self) -> (id: u32)
        requires
            old(self).next_op_id < u32::MAX,
        ensures
            id == old(self).next_op_id,
            final(self).next_op_id == old(self).next_op_id + 1,
            final(self).pending@ == old(self).pending@,
    {
        let id = self.next_op_id;
        self.next_op_id = self.next_op_id + 1;
        id
    }

    /// Records that operation `op_id` settles `resolver`.
    pub fn register_pending_op(&mut self, op_id: u32, resolver: R)
        ensures
            final(self).pending@ == old(self).pending@.insert(op_id, resolver),
            final(self).next_op_id == old(self).next_op_id,
    {
        self.pending.insert(op_id, resolver);
    }

    /// Takes what operation `op_id` settles, once it completes.
    pub fn complete_pending_op(&mut self, op_id: u32) -> (r: Option<R>)
        ensures
            final(self).pending@ == old(self).pending@.remove(op_id),
            final(self).next_op_id == old(self).next_op_id,
            match r {
                Some(v) => old(self).pending@.contains_key(op_id) && old(self).pending@[op_id] == v,
                None => !old(self).pending@.contains_key(op_id),
            },
    {
        self.pending.remove(&op_id)
    }

    /// Whether any operation is still awaited.
    pub fn has_pending(&self) -> (r: bool)
        ensures
            r == (self.pending@.dom().len() > 0),
    {
        self.pending.len() > 0
    }
}

} // verus!
