//! Supervision of a fixed-size worker pool: a worker that panics is
//! replaced under the same id, so the pool keeps its size.
use vstd::prelude::*;

verus! {

/// Which workers of a pool are running.
pub struct Supervisor {
    alive: Vec<bool>,
    stopping: bool,
}

/// The number of running workers.
pub open spec fn live_count(alive: Seq<bool>) -> nat
    decreases alive.len(),
{
    if alive.len() == 0 {
        0
    } else {
        live_count(alive.drop_last()) + if alive.last() { 1nat } else { 0nat }
    }
}

/// The workers after worker `id` exits: one that panicked is replaced
/// unless the pool is stopping; one that exits cleanly stays down.
pub open spec fn after_exit(alive: Seq<bool>, id: int, panicked: bool, stopping: bool) -> Seq<bool> {
    if panicked && !stopping {
        alive
    } else {
        alive.update(id, false)
    }
}

/// The workers after panics of the given ids, while the pool runs.
pub open spec fn after_panics(alive: Seq<bool>, ids: Seq<int>) -> Seq<bool>
    decreases ids.len(),
{
    if ids.len() == 0 {
        alive
    } else {
        after_exit(after_panics(alive, ids.drop_last()), ids.last(), true, false)
    }
}

/// All workers of a pool of `n` running.
pub open spec fn all_running(n: nat) -> Seq<bool> {
    Seq::new(n, |i: int| true)
}

/// A sequence of `true`s counts its length.
proof fn lemma_all_running(n: nat)
    ensures
        live_count(all_running(n)) == n,
    decreases n,
{
    if n > 0 {
        assert(all_running(n).drop_last() =~= all_running((n - 1) as nat));
        lemma_all_running((n - 1) as nat);
    }
}

/// However many workers panic while the pool runs, each is replaced, and
/// the pool keeps its configured number of workers.
pub proof fn lemma_pool_keeps_size(n: nat, ids: Seq<int>)
    requires
        forall|k: int| 0 <= k < ids.len() ==> 0 <= #[trigger] ids[k] < n,
    ensures
        live_count(after_panics(all_running(n), ids)) == n,
    decreases ids.len(),
{
    if ids.len() == 0 {
        lemma_all_running(n);
    } else {
        assert forall|k: int| 0 <= k < ids.drop_last().len() implies 0 <= #[trigger] ids.drop_last()[k] < n by {
            assert(ids.drop_last()[k] == ids[k]);
        }
        lemma_pool_keeps_size(n, ids.drop_last());
    }
}

impl Supervisor {
    /// A supervisor of `n` running workers.
    pub fn new(n: usize) -> (r: Supervisor)
        ensures
            r.alive_view() == all_running(n as nat),
            !r.stopping_view(),
    {
        let mut alive: Vec<bool> = Vec::new();
        let mut i: usize = 0;
        while i < n
            invariant
                i <= n,
                alive@ == all_running(i as nat),
            decreases n - i,
        {
            alive.push(true);
            i = i + 1;
            assert(alive@ =~= all_running(i as nat));
        }
        Supervisor { alive, stopping: false }
    }

    /// Which workers run.
    pub closed spec fn alive_view(&self) -> Seq<bool> {
        self.alive@
    }

    /// Whether the pool is shutting down.
    pub closed spec fn stopping_view(&self) -> bool {
        self.stopping
    }

    /// The number of workers.
    pub fn size(&self) -> (r: usize)
        ensures
            r == self.alive_view().len(),
    {
        self.alive.len()
    }

    /// Marks the pool as shutting down: workers that exit now are not replaced.
    pub fn stop(&mut self)
        ensures
            final(self).stopping_view(),
            final(self).alive_view() == old(self).alive_view(),
    {
        self.stopping = true;
    }

    /// Records that worker `id` exited, and says whether to start a
    /// replacement under the same id.
    pub fn on_exit(&mut self, id: usize, panicked: bool) -> (respawn: bool)
        requires
            id < old(self).alive_view().len(),
        ensures
            respawn == (panicked && !old(self).stopping_view()),
            final(self).alive_view() == after_exit(old(self).alive_view(), id as int, panicked, old(self).stopping_view()),
            final(self).stopping_view() == old(self).stopping_view(),
    {
        if panicked && !self.stopping {
            true
        } else {
            self.alive.set(id, false);
            false
        }
    }
}

} // verus!

verus! {

/// How long, in milliseconds, a task may wait in the queue before the pool
/// counts as overloaded.
pub const OVERLOAD_THRESHOLD: u128 = 100;

/// Whether a task that waited `waited_millis` in the queue shows the pool overloaded.
pub fn is_overloaded(waited_millis: u128) -> (r: bool)
    ensures
        r == (waited_millis > OVERLOAD_THRESHOLD),
{
    waited_millis > OVERLOAD_THRESHOLD
}

} // verus!
