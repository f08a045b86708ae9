//! How long a declared task counts, and for whom.

use crate::task_state::{after_end, is_task_at, TaskView};
use crate::time::Timestamp;
use vstd::prelude::*;

verus! {

/// Whether a task was declared less than so many seconds before a time.
pub open spec fn is_younger(e: TaskView, now: Timestamp, secs: int) -> bool {
    e.declared_at.secs > now.secs - secs || (e.declared_at.secs == now.secs - secs
        && e.declared_at.nanos > now.nanos)
}

/// Ending a session drops its own task and every task that is seven days old, and
/// leaves all others as they are.
pub proof fn ending_a_session_drops_it_and_what_is_a_week_old(
    tasks: Map<Seq<char>, TaskView>,
    session_id: Seq<char>,
    now: Timestamp,
    k: Seq<char>,
)
    requires
        now.secs - 604_800 >= i64::MIN,
    ensures
        after_end(tasks, session_id, now).contains_key(k) <==> tasks.contains_key(k) && k
            != session_id && is_younger(tasks[k], now, 604_800),
        after_end(tasks, session_id, now).contains_key(k) ==> after_end(tasks, session_id, now)[k]
            == tasks[k],
{
    assert(now.minus(604_800).secs == now.secs - 604_800);
}

/// A session that declared a task has that task, however old it is and whatever
/// others declared.
pub proof fn an_own_task_counts_first(
    tasks: Map<Seq<char>, TaskView>,
    session_id: Seq<char>,
    now: Timestamp,
    task: Option<Seq<char>>,
)
    requires
        session_id.len() > 0,
        tasks.contains_key(session_id),
    ensures
        is_task_at(tasks, session_id, now, task) <==> task == Some(tasks[session_id].task),
{
}

/// A session without a task of its own, or without an id, has the task that was
/// declared last, where that was less than a day ago; else it has none.
pub proof fn the_latest_task_of_the_last_day_counts_next(
    tasks: Map<Seq<char>, TaskView>,
    session_id: Seq<char>,
    now: Timestamp,
    task: Option<Seq<char>>,
    k: Seq<char>,
)
    requires
        now.secs - 86_400 >= i64::MIN,
        session_id.len() == 0 || !tasks.contains_key(session_id),
        is_task_at(tasks, session_id, now, task),
    ensures
        tasks.contains_key(k) && is_younger(tasks[k], now, 86_400) ==> task is Some,
        task matches Some(t) ==> exists|j: Seq<char>|
            {
                &&& #[trigger] tasks.contains_key(j)
                &&& tasks[j].task == t
                &&& is_younger(tasks[j], now, 86_400)
                &&& forall|i: Seq<char>| #[trigger]
                    tasks.contains_key(i) ==> tasks[i].declared_at.secs < tasks[j].declared_at.secs
                        || (tasks[i].declared_at.secs == tasks[j].declared_at.secs
                        && tasks[i].declared_at.nanos <= tasks[j].declared_at.nanos)
            },
{
    let cutoff = now.minus(86_400);
    assert(cutoff.secs == now.secs - 86_400);
    match task {
        Some(t) => {
            let j = choose|j: Seq<char>|
                {
                    &&& #[trigger] tasks.contains_key(j)
                    &&& crate::task_state::declared_after(tasks[j], cutoff)
                    &&& tasks[j].task == t
                    &&& forall|i: Seq<char>| #[trigger]
                        tasks.contains_key(i) ==> !tasks[j].declared_at.before(
                            tasks[i].declared_at,
                        )
                };
            assert(tasks.contains_key(j));
        },
        None => {
            if tasks.contains_key(k) {
                assert(!crate::task_state::declared_after(tasks[k], cutoff));
            }
        },
    }
}

} // verus!
