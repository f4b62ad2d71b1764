//! Offline ring buffer and tick-based exponential backoff.
//!
//! The buffer keeps snapshots while the destination is unreachable; once it
//! is full, the oldest snapshot makes room for the newest one.  The backoff
//! counts in ticks of the agent's own interval, never in absolute time.

use std::collections::VecDeque;
use vstd::prelude::*;

verus! {

/// How many snapshots a buffer created with `max_size` can hold at once.
/// A zero-sized buffer still keeps the latest snapshot.
pub open spec fn buffer_capacity(max_size: nat) -> nat {
    if max_size == 0 {
        1
    } else {
        max_size
    }
}

/// The contents after pushing `item` onto `items` in a buffer of `max_size`.
pub open spec fn spec_push<T>(items: Seq<T>, max_size: nat, item: T) -> Seq<T> {
    if items.len() >= max_size && items.len() > 0 {
        items.drop_first().push(item)
    } else {
        items.push(item)
    }
}

/// The contents after pushing every element of `xs`, in order.
pub open spec fn spec_push_all<T>(items: Seq<T>, max_size: nat, xs: Seq<T>) -> Seq<T>
    decreases xs.len(),
{
    if xs.len() == 0 {
        items
    } else {
        spec_push_all(spec_push(items, max_size, xs[0]), max_size, xs.drop_first())
    }
}

/// The newest `buffer_capacity(max_size)` elements of `s`.
pub open spec fn newest<T>(s: Seq<T>, max_size: nat) -> Seq<T> {
    if s.len() > buffer_capacity(max_size) {
        s.skip(s.len() - buffer_capacity(max_size))
    } else {
        s
    }
}

/// Ring buffer that stores snapshots while the destination is unreachable.
pub struct OfflineBuffer<T> {
    queue: VecDeque<T>,
    max_size: usize,
}

impl<T> View for OfflineBuffer<T> {
    type V = Seq<T>;

    /// The buffered snapshots, oldest first.
    closed spec fn view(&self) -> Seq<T> {
        self.queue@
    }
}

impl<T> OfflineBuffer<T> {
    #[verifier::type_invariant]
    spec fn holds_at_most_capacity(self) -> bool {
        self.queue@.len() <= buffer_capacity(self.max_size as nat)
    }

    /// The size limit the buffer was created with.
    pub closed spec fn max_size(self) -> usize {
        self.max_size
    }

    pub fn new(max_size: usize) -> (buf: Self)
        ensures
            buf@ == Seq::<T>::empty(),
            buf.max_size() == max_size,
    {
        let initial_capacity: usize = if max_size < 1024 {
            max_size
        } else {
            1024
        };
        OfflineBuffer { queue: VecDeque::with_capacity(initial_capacity), max_size }
    }

    /// Appends `item`, dropping the oldest snapshot first when the buffer is full.
    pub fn push(&mut self, item: T)
        ensures
            final(self)@ == spec_push(old(self)@, old(self).max_size() as nat, item),
            final(self).max_size() == old(self).max_size(),
            final(self)@.len() <= buffer_capacity(final(self).max_size() as nat),
    {
        proof {
            use_type_invariant(&*self);
        }
        let mut queue: VecDeque<T> = VecDeque::new();
        std::mem::swap(&mut queue, &mut self.queue);
        if queue.len() >= self.max_size {
            let _ = queue.pop_front();
        }
        queue.push_back(item);
        proof {
            assert(queue@ =~= spec_push(old(self)@, old(self).max_size() as nat, item));
        }
        self.queue = queue;
    }

    /// Removes and returns every buffered snapshot, oldest first.
    pub fn drain_all(&mut self) -> (items: Vec<T>)
        ensures
            items@ == old(self)@,
            final(self)@ == Seq::<T>::empty(),
            final(self).max_size() == old(self).max_size(),
    {
        proof {
            use_type_invariant(&*self);
        }
        let mut items: Vec<T> = Vec::new();
        let mut queue: VecDeque<T> = VecDeque::new();
        std::mem::swap(&mut queue, &mut self.queue);
        let ghost buffered = queue@;
        while queue.len() > 0
            invariant
                items@ + queue@ =~= buffered,
            decreases queue@.len(),
        {
            match queue.pop_front() {
                Some(x) => {
                    items.push(x);
                },
                None => {},
            }
        }
        items
    }

    pub fn len(&self) -> (n: usize)
        ensures
            n == self@.len(),
            n <= buffer_capacity(self.max_size() as nat),
    {
        proof {
            use_type_invariant(self);
        }
        self.queue.len()
    }

    /// The size limit the buffer was created with.
    pub fn size_limit(&self) -> (m: usize)
        ensures
            m == self.max_size(),
    {
        self.max_size
    }

    /// Whether the buffer is at its size limit, so that `push` makes room
    /// first (a zero-sized buffer is always full).
    pub fn is_full(&self) -> (b: bool)
        ensures
            b == (self@.len() >= self.max_size()),
    {
        self.queue.len() >= self.max_size
    }

    pub fn is_empty(&self) -> (b: bool)
        ensures
            b == (self@.len() == 0),
    {
        self.queue.len() == 0
    }
}

/// Pushing a run of snapshots into a buffer keeps exactly the newest ones:
/// whatever was buffered followed by the run, cut down to the capacity.
pub proof fn lemma_push_all_keeps_newest<T>(items: Seq<T>, max_size: nat, xs: Seq<T>)
    requires
        items.len() <= buffer_capacity(max_size),
    ensures
        spec_push_all(items, max_size, xs) == newest(items + xs, max_size),
    decreases xs.len(),
{
    let cap = buffer_capacity(max_size);
    if xs.len() == 0 {
        assert(items + xs =~= items);
    } else {
        let next = spec_push(items, max_size, xs[0]);
        assert(next == newest(items.push(xs[0]), max_size)) by {
            if items.len() >= max_size && items.len() > 0 {
                assert(items.len() == cap);
                assert(items.drop_first().push(xs[0]) =~= items.push(xs[0]).skip(1));
            }
        }
        assert(next.len() <= cap);
        lemma_push_all_keeps_newest(next, max_size, xs.drop_first());
        let whole = items + xs;
        assert(items.push(xs[0]) + xs.drop_first() =~= whole);
        if items.len() + 1 > cap {
            let p = items.push(xs[0]);
            assert(p.len() == cap + 1);
            assert(next =~= p.skip(1));
            assert(next + xs.drop_first() =~= whole.skip(1));
            let w1 = whole.skip(1);
            if w1.len() > cap {
                assert(w1.skip(w1.len() - cap) =~= whole.skip(whole.len() - cap));
            } else {
                assert(w1 =~= whole.skip(whole.len() - cap));
            }
        }
    }
}

/// A fresh buffer (or one just drained) that receives the pushes `xs`
/// holds exactly their newest `buffer_capacity(max_size)`, oldest first;
/// that is what the next `drain_all` returns.
pub proof fn lemma_drain_after_pushes<T>(max_size: nat, xs: Seq<T>)
    ensures
        spec_push_all(Seq::<T>::empty(), max_size, xs) == newest(xs, max_size),
        newest(xs, max_size).len() == if xs.len() < buffer_capacity(max_size) {
            xs.len()
        } else {
            buffer_capacity(max_size)
        },
{
    lemma_push_all_keeps_newest(Seq::<T>::empty(), max_size, xs);
    assert(Seq::<T>::empty() + xs =~= xs);
}

/// The abstract state of a backoff: the current wait, its ceiling, and how
/// many more checks are skipped before the next real one.
pub struct BackoffState {
    pub current_ticks: nat,
    pub max_ticks: nat,
    pub countdown: nat,
}

/// The ceiling, in ticks, for an agent polling every `interval_secs`:
/// about thirty seconds of waiting, and never less than one tick.
pub open spec fn max_ticks_for(interval_secs: u64) -> nat {
    let interval: int = if interval_secs < 1 {
        1
    } else {
        interval_secs as int
    };
    let ticks: int = 30int / interval;
    if ticks < 1 {
        1
    } else {
        ticks as nat
    }
}

/// `should_check` on a state: whether to check now, and the state after.
pub open spec fn spec_should_check(s: BackoffState) -> (bool, BackoffState) {
    if s.countdown == 0 {
        (true, s)
    } else {
        (false, BackoffState { countdown: (s.countdown - 1) as nat, ..s })
    }
}

/// `on_failure` on a state: wait the current number of ticks, then double
/// the wait up to the ceiling.
pub open spec fn spec_on_failure(s: BackoffState) -> BackoffState {
    BackoffState {
        current_ticks: if 2 * s.current_ticks < s.max_ticks {
            2 * s.current_ticks
        } else {
            s.max_ticks
        },
        max_ticks: s.max_ticks,
        countdown: s.current_ticks,
    }
}

/// `on_success` on a state: back to a one-tick wait and an immediate check.
pub open spec fn spec_on_success(s: BackoffState) -> BackoffState {
    BackoffState { current_ticks: 1, max_ticks: s.max_ticks, countdown: 0 }
}

/// Exponential backoff for connectivity checks, counted in agent ticks.
pub struct Backoff {
    current_ticks: u64,
    max_ticks: u64,
    countdown: u64,
}

impl View for Backoff {
    type V = BackoffState;

    closed spec fn view(&self) -> BackoffState {
        BackoffState {
            current_ticks: self.current_ticks as nat,
            max_ticks: self.max_ticks as nat,
            countdown: self.countdown as nat,
        }
    }
}

impl Backoff {
    #[verifier::type_invariant]
    spec fn within_ceiling(self) -> bool {
        &&& 1 <= self.current_ticks <= self.max_ticks
        &&& self.max_ticks <= 30
        &&& self.countdown <= self.max_ticks
    }

    /// The ceiling is about thirty seconds of waiting, expressed in ticks of
    /// `interval_secs`.
    pub fn new(interval_secs: u64) -> (b: Self)
        ensures
            b@ == (BackoffState { current_ticks: 1, max_ticks: max_ticks_for(interval_secs), countdown: 0 }),
    {
        let interval: u64 = if interval_secs < 1 {
            1
        } else {
            interval_secs
        };
        let ticks: u64 = 30 / interval;
        let max_ticks: u64 = if ticks < 1 {
            1
        } else {
            ticks
        };
        Backoff { current_ticks: 1, max_ticks, countdown: 0 }
    }

    /// True when this tick should run a real connectivity check; otherwise
    /// one skipped tick is counted off.
    pub fn should_check(&mut self) -> (check: bool)
        ensures
            (check, final(self)@) == spec_should_check(old(self)@),
    {
        proof {
            use_type_invariant(&*self);
        }
        if self.countdown == 0 {
            true
        } else {
            self.countdown = self.countdown - 1;
            false
        }
    }

    pub fn on_failure(&mut self)
        ensures
            final(self)@ == spec_on_failure(old(self)@),
    {
        proof {
            use_type_invariant(&*self);
        }
        let doubled: u64 = self.current_ticks * 2;
        let next: u64 = if doubled < self.max_ticks {
            doubled
        } else {
            self.max_ticks
        };
        self.countdown = self.current_ticks;
        self.current_ticks = next;
    }

    pub fn on_success(&mut self)
        ensures
            final(self)@ == spec_on_success(old(self)@),
    {
        proof {
            use_type_invariant(&*self);
        }
        self.current_ticks = 1;
        self.countdown = 0;
    }

    /// The wait, in ticks, that the next failure will impose.
    pub fn current_ticks(&self) -> (t: u64)
        ensures
            t == self@.current_ticks,
            1 <= self@.current_ticks <= self@.max_ticks <= 30,
            self@.countdown <= self@.max_ticks,
    {
        proof {
            use_type_invariant(self);
        }
        self.current_ticks
    }
}

/// 2 to the power `n`.
pub open spec fn pow2(n: nat) -> nat
    decreases n,
{
    if n == 0 {
        1
    } else {
        2 * pow2((n - 1) as nat)
    }
}

/// The state after `n` failures in a row.
pub open spec fn failures(s: BackoffState, n: nat) -> BackoffState
    decreases n,
{
    if n == 0 {
        s
    } else {
        spec_on_failure(failures(s, (n - 1) as nat))
    }
}

/// The state after `n` calls of `should_check`.
pub open spec fn checks(s: BackoffState, n: nat) -> BackoffState
    decreases n,
{
    if n == 0 {
        s
    } else {
        spec_should_check(checks(s, (n - 1) as nat)).1
    }
}

/// From a fresh or freshly reset backoff, `n` failures in a row make the
/// wait `2^n` ticks, capped at the ceiling.
pub proof fn lemma_failures_double_then_cap(s: BackoffState, n: nat)
    requires
        s.current_ticks == 1,
        s.max_ticks >= 1,
    ensures
        failures(s, n).current_ticks == if pow2(n) < s.max_ticks {
            pow2(n)
        } else {
            s.max_ticks
        },
        failures(s, n).max_ticks == s.max_ticks,
    decreases n,
{
    if n > 0 {
        lemma_failures_double_then_cap(s, (n - 1) as nat);
    }
}

/// After a failure that imposed a wait of `w` ticks, the next `w` calls of
/// `should_check` all say "skip", and the one after says "check".
pub proof fn lemma_failure_skips_current_wait(s: BackoffState)
    ensures
        forall|k: nat|
            k < s.current_ticks ==> !(#[trigger] spec_should_check(
                checks(spec_on_failure(s), k),
            )).0,
        spec_should_check(checks(spec_on_failure(s), s.current_ticks)).0,
{
    let f = spec_on_failure(s);
    assert forall|k: nat| k <= s.current_ticks implies #[trigger] checks(f, k).countdown == s.current_ticks
        - k && checks(f, k).current_ticks == f.current_ticks by {
        lemma_checks_count_down(f, k);
    }
    assert forall|k: nat| k < s.current_ticks implies !(#[trigger] spec_should_check(
        checks(f, k),
    )).0 by {
        assert(checks(f, k).countdown == s.current_ticks - k);
    }
    assert(checks(f, s.current_ticks).countdown == 0);
}

proof fn lemma_checks_count_down(s: BackoffState, k: nat)
    requires
        k <= s.countdown,
    ensures
        checks(s, k).countdown == s.countdown - k,
        checks(s, k).current_ticks == s.current_ticks,
        checks(s, k).max_ticks == s.max_ticks,
    decreases k,
{
    if k > 0 {
        lemma_checks_count_down(s, (k - 1) as nat);
    }
}

/// From any state, the next `countdown` calls of `should_check` say "skip"
/// and count down by one each; every later call says "check" and leaves
/// the countdown at zero.  The wait and its ceiling never change.
pub proof fn lemma_checks_skip_then_check(s: BackoffState, k: nat)
    ensures
        k < s.countdown ==> !spec_should_check(checks(s, k)).0 && checks(s, k).countdown
            == s.countdown - k,
        k >= s.countdown ==> spec_should_check(checks(s, k)).0 && checks(s, k).countdown == 0,
        checks(s, k).current_ticks == s.current_ticks,
        checks(s, k).max_ticks == s.max_ticks,
    decreases k,
{
    if k > 0 {
        lemma_checks_skip_then_check(s, (k - 1) as nat);
    }
}

/// The wait that a backoff for `interval_secs` can impose, in seconds, is
/// at most thirty seconds, or one interval when the interval is longer.
pub proof fn lemma_wait_bound(interval_secs: u64, countdown: nat)
    requires
        countdown <= max_ticks_for(interval_secs),
    ensures
        countdown * (if interval_secs < 1 {
            1
        } else {
            interval_secs as int
        }) <= if interval_secs > 30 {
            interval_secs as int
        } else {
            30
        },
{
    lemma_ceiling_is_thirty_seconds(interval_secs);
    let i: int = if interval_secs < 1 {
        1
    } else {
        interval_secs as int
    };
    let m = max_ticks_for(interval_secs) as int;
    assert(m * i <= 30 || (interval_secs > 30 && m == 1));
    assert(countdown * i <= m * i) by (nonlinear_arith)
        requires
            countdown <= m,
            i >= 1,
    ;
}

/// With an interval of at most thirty seconds the longest wait stays within
/// thirty seconds; with a longer interval the wait is a single tick.
pub proof fn lemma_ceiling_is_thirty_seconds(interval_secs: u64)
    ensures
        1 <= max_ticks_for(interval_secs) <= 30,
        1 <= interval_secs <= 30 ==> max_ticks_for(interval_secs) * interval_secs <= 30,
        interval_secs > 30 ==> max_ticks_for(interval_secs) == 1,
{
    let i: int = if interval_secs < 1 {
        1
    } else {
        interval_secs as int
    };
    assert(30int / i <= 30) by (nonlinear_arith)
        requires
            i >= 1,
    ;
    assert((30int / i) * i <= 30) by (nonlinear_arith)
        requires
            i >= 1,
    ;
    if interval_secs > 30 {
        assert(30int / i == 0) by (nonlinear_arith)
            requires
                i > 30,
        ;
    }
}

/// Which connectivity change, if any, the agent should report.
pub enum StatusChange {
    /// The destination stopped answering: switch to offline mode.
    WentOffline,
    /// The destination answers again; `flushing` snapshots are about to be sent.
    Reconnected { flushing: usize },
    /// Nothing changed.
    Unchanged,
}

/// Decides the online/offline transition to report, so every agent logs the
/// same warning and notice.
pub fn log_status_change(was_offline: bool, now_offline: bool, buffered: usize) -> (change:
    StatusChange)
    ensures
        change == (if !was_offline && now_offline {
            StatusChange::WentOffline
        } else if was_offline && !now_offline {
            StatusChange::Reconnected { flushing: buffered }
        } else {
            StatusChange::Unchanged
        }),
{
    if !was_offline && now_offline {
        StatusChange::WentOffline
    } else if was_offline && !now_offline {
        StatusChange::Reconnected { flushing: buffered }
    } else {
        StatusChange::Unchanged
    }
}

} // verus!
