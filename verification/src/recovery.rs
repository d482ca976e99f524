//! The one job that makes a mirror subscribe to its token again.

use vstd::prelude::*;
use vstd::multiset::Multiset;
use ic_cron::task_scheduler::TaskScheduler;
use crate::principal::Principal;
use crate::scheduler::{cron_enqueue, cron_iterate, cron_new, cron_one_shot, cron_queue, one_shot_only};

verus! {

/// Holds the recovery job of a mirror from the moment the mirror is set up
/// until the job has run.
pub struct ResubscriptionScheduler {
    cron: TaskScheduler,
}

/// Whether a job due at `due`, if there is one, runs at a tick at `now`.
pub open spec fn fires(due: Option<u64>, now: u64) -> bool {
    due matches Some(at) && at <= now
}

/// What is left of the job after a tick at `now`.
pub open spec fn due_after(due: Option<u64>, now: u64) -> Option<u64> {
    if fires(due, now) {
        None
    } else {
        due
    }
}

/// How many times the job runs over the ticks at the times `ticks`.
pub open spec fn runs(due: Option<u64>, ticks: Seq<u64>) -> nat
    decreases ticks.len(),
{
    if ticks.len() == 0 {
        0
    } else {
        (if fires(due, ticks[0]) {
            1nat
        } else {
            0nat
        }) + runs(due_after(due, ticks[0]), ticks.drop_first())
    }
}

/// A job that has run does not come back: no tick runs it again.
pub proof fn lemma_spent_job_never_runs(ticks: Seq<u64>)
    ensures
        runs(None, ticks) == 0,
    decreases ticks.len(),
{
    if ticks.len() > 0 {
        lemma_spent_job_never_runs(ticks.drop_first());
    }
}

/// Over any ticks the job runs at most once, and exactly once if one of them
/// comes at its due time or later.
pub proof fn lemma_job_runs_once(due: u64, ticks: Seq<u64>)
    ensures
        runs(Some(due), ticks) <= 1,
        runs(Some(due), ticks) == 1 <==> exists|i: int| 0 <= i < ticks.len() && ticks[i] >= due,
    decreases ticks.len(),
{
    if ticks.len() > 0 {
        let rest = ticks.drop_first();
        if fires(Some(due), ticks[0]) {
            lemma_spent_job_never_runs(rest);
            assert(ticks[0] >= due);
        } else {
            lemma_job_runs_once(due, rest);
            if exists|i: int| 0 <= i < rest.len() && rest[i] >= due {
                let i = choose|i: int| 0 <= i < rest.len() && rest[i] >= due;
                assert(ticks[i + 1] >= due);
            }
            if exists|i: int| 0 <= i < ticks.len() && ticks[i] >= due {
                let i = choose|i: int| 0 <= i < ticks.len() && ticks[i] >= due;
                assert(rest[i - 1] >= due);
            }
        }
    }
}

proof fn lemma_queue_of_one(queue: Multiset<(u64, u64)>)
    requires
        queue.len() == 1,
    ensures
        queue == Multiset::singleton(queue.choose()),
{
    let e = queue.choose();
    assert(queue.count(e) > 0);
    let rest = queue.remove(e);
    assert(rest.len() == 0);
    assert forall|x: (u64, u64)| queue.count(x) == Multiset::singleton(e).count(x) by {
        assert(rest.count(x) == 0);
    }
    assert(queue =~= Multiset::singleton(e));
}

/// The scheduler holds at most one job, and that job runs once.
spec fn single_job(cron: TaskScheduler) -> bool {
    &&& one_shot_only(cron)
    &&& cron_queue(cron).len() <= 1
}

/// When the job in `cron` falls due, if there is one.
spec fn due_of(cron: TaskScheduler) -> Option<u64> {
    if cron_queue(cron).len() == 0 {
        None
    } else {
        Some(cron_queue(cron).choose().0)
    }
}

/// Runs what is due in `cron` at `now` and says whether anything was.
fn run_due(cron: &mut TaskScheduler, now: u64) -> (fired: bool)
    requires
        single_job(*old(cron)),
    ensures
        single_job(*final(cron)),
        fired == fires(due_of(*old(cron)), now),
        due_of(*final(cron)) == due_after(due_of(*old(cron)), now),
    no_unwind
{
    let ghost before = cron_queue(*cron);
    let ids = cron_iterate(cron, now);
    let ghost after = cron_queue(*cron);
    proof {
        if before.len() == 0 {
            assert forall|e: (u64, u64)| before.count(e) == 0 by {
                if before.count(e) > 0 {
                    assert(before.contains(e));
                }
            }
            assert(after =~= before);
            if ids@.len() > 0 {
                assert(ids@.contains(ids@[0]));
            }
        } else {
            lemma_queue_of_one(before);
            let e = before.choose();
            if e.0 <= now {
                assert(before.count((e.0, e.1)) > 0);
                assert(ids@.contains(e.1));
                assert forall|i: int| 0 <= i < ids@.len() implies ids@[i] == e.1 by {
                    assert(ids@.contains(ids@[i]));
                }
                if ids@.len() > 1 {
                    assert(ids@[0] == ids@[1]);
                }
                assert(after =~= Multiset::<(u64, u64)>::empty());
            } else {
                assert(after =~= before);
                if ids@.len() > 0 {
                    assert(ids@.contains(ids@[0]));
                }
            }
        }
        assert(one_shot_only(*cron)) by {
            assert forall|x: (u64, u64)| #[trigger] after.count(x) > 0 implies {
                &&& after.count(x) == 1
                &&& cron_one_shot(*cron).contains(x.1)
                &&& forall|t: u64| #[trigger] after.count((t, x.1)) > 0 ==> t == x.0
            } by {
                assert(before.count(x) > 0);
                assert(x.0 > now);
                if ids@.contains(x.1) {
                    let t = choose|t: u64| t <= now && #[trigger] before.count((t, x.1)) > 0;
                    assert(t == x.0);
                }
                assert forall|t: u64| #[trigger] after.count((t, x.1)) > 0 implies t == x.0 by {
                    assert(before.count((t, x.1)) > 0);
                }
            }
        }
    }
    ids.len() > 0
}

impl ResubscriptionScheduler {
    #[verifier::type_invariant]
    closed spec fn at_most_one_job(self) -> bool {
        single_job(self.cron)
    }

    /// When the job falls due, or `None` once it has run.
    pub closed spec fn due(&self) -> Option<u64> {
        due_of(self.cron)
    }

    /// A scheduler with one job for the mirror of `source`: no delay, one
    /// run.
    pub fn new(source: &Principal, now: u64) -> (r: ResubscriptionScheduler)
        ensures
            r.due() == Some(now),
    {
        let mut cron = cron_new();
        let _ = cron_enqueue(&mut cron, source, 0, 0, 1, now);
        proof {
            let e = (now, 0u64);
            assert(cron_queue(cron) =~= Multiset::singleton(e));
            assert(cron_queue(cron).count(cron_queue(cron).choose()) > 0);
            assert(cron_one_shot(cron).contains(0u64));
        }
        ResubscriptionScheduler { cron }
    }

    /// A tick at `now`: runs the job if it is due, and says whether it did.
    pub fn tick(&mut self, now: u64) -> (fired: bool)
        ensures
            fired == fires(old(self).due(), now),
            final(self).due() == due_after(old(self).due(), now),
    {
        proof {
            use_type_invariant(&*self);
        }
        run_due(&mut self.cron, now)
    }
}

} // verus!
