//! The task scheduler of `ic_cron`, as far as one-shot jobs go.
//!
//! Nothing in this file is proved: each contract restates what the source of
//! `ic_cron::task_scheduler::TaskScheduler` does, over three names for what a
//! scheduler holds.

use vstd::prelude::*;
use vstd::multiset::Multiset;
use ic_cron::task_scheduler::TaskScheduler;
use crate::principal::Principal;

verus! {

#[verifier::external_type_specification]
#[verifier::external_body]
pub struct ExTaskScheduler(ic_cron::task_scheduler::TaskScheduler);

/// The entries of the scheduler's execution queue, each the time at which
/// it falls due and the id of its task.
pub uninterp spec fn cron_queue(scheduler: TaskScheduler) -> Multiset<(u64, u64)>;

/// The ids of the tasks that the scheduler holds and that have at most one
/// run left.
pub uninterp spec fn cron_one_shot(scheduler: TaskScheduler) -> Set<u64>;

/// The id that the scheduler gives to the next task.
pub uninterp spec fn cron_next_id(scheduler: TaskScheduler) -> u64;

/// Every queued entry belongs to a task with at most one run left, and no
/// task is queued twice.
pub open spec fn one_shot_only(scheduler: TaskScheduler) -> bool {
    forall|e: (u64, u64)| #[trigger]
        cron_queue(scheduler).count(e) > 0 ==> {
            &&& cron_queue(scheduler).count(e) == 1
            &&& cron_one_shot(scheduler).contains(e.1)
            &&& forall|t: u64| #[trigger]
                cron_queue(scheduler).count((t, e.1)) > 0 ==> t == e.0
        }
}

/// `TaskScheduler::default()`: a scheduler with no task, an empty queue and
/// 0 as its next id.
#[verifier::external_body]
pub(crate) fn cron_new() -> (scheduler: TaskScheduler)
    ensures
        cron_queue(scheduler) == Multiset::<(u64, u64)>::empty(),
        cron_one_shot(scheduler) == Set::<u64>::empty(),
        cron_next_id(scheduler) == 0,
{
    TaskScheduler::default()
}

/// `TaskScheduler::enqueue` with `Iterations::Exact(iterations)`. It takes
/// the next id for the task, queues the task at `now + delay_nano` unless
/// `iterations` is 0, stores it under its id and returns `Ok` of that id;
/// it has no path that returns `Err`. It adds 1 to the next id and
/// `delay_nano` to `now`, so both sums must fit. The payload goes into the
/// task as the scheduler encodes it; the contract says nothing of it.
#[verifier::external_body]
pub(crate) fn cron_enqueue(
    scheduler: &mut TaskScheduler,
    payload: &Principal,
    delay_nano: u64,
    interval_nano: u64,
    iterations: u64,
    now: u64,
) -> (id: Option<u64>)
    requires
        cron_next_id(*old(scheduler)) < u64::MAX,
        now + delay_nano <= u64::MAX,
    ensures
        id == Some(cron_next_id(*old(scheduler))),
        cron_next_id(*final(scheduler)) == cron_next_id(*old(scheduler)) + 1,
        cron_queue(*final(scheduler)) == if iterations > 0 {
            cron_queue(*old(scheduler)).insert(
                ((now + delay_nano) as u64, cron_next_id(*old(scheduler))),
            )
        } else {
            cron_queue(*old(scheduler))
        },
        cron_one_shot(*final(scheduler)) == if iterations <= 1 {
            cron_one_shot(*old(scheduler)).insert(cron_next_id(*old(scheduler)))
        } else {
            cron_one_shot(*old(scheduler)).remove(cron_next_id(*old(scheduler)))
        },
{
    let payload = candid::Principal::from_slice(&payload.to_vec());
    let options = ic_cron::types::SchedulingOptions {
        delay_nano,
        interval_nano,
        iterations: ic_cron::types::Iterations::Exact(iterations),
    };
    scheduler.enqueue(payload, options, now).ok()
}

/// `TaskScheduler::iterate` on a scheduler whose queue is
/// [`one_shot_only`]. It takes out of the queue every entry due at `now` or
/// before, earliest first, and for each hands out its task and drops it,
/// as it has no run left after this one; on such a queue it adds nothing
/// up and so cannot overflow. The wrapper keeps the ids of the tasks handed
/// out.
#[verifier::external_body]
pub(crate) fn cron_iterate(scheduler: &mut TaskScheduler, now: u64) -> (fired: Vec<u64>)
    requires
        one_shot_only(*old(scheduler)),
    ensures
        cron_queue(*final(scheduler)) == cron_queue(*old(scheduler)).filter(
            |e: (u64, u64)| e.0 > now,
        ),
        cron_one_shot(*final(scheduler)) == cron_one_shot(*old(scheduler)).filter(
            |id: u64| !fired@.contains(id),
        ),
        cron_next_id(*final(scheduler)) == cron_next_id(*old(scheduler)),
        fired@.no_duplicates(),
        forall|id: u64| #[trigger]
            fired@.contains(id) <==> exists|t: u64|
                t <= now && #[trigger] cron_queue(*old(scheduler)).count((t, id)) > 0,
    no_unwind
{
    scheduler.iterate(now).into_iter().map(|task| task.id).collect()
}

} // verus!
