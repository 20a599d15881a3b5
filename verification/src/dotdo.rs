//! Tasks from the dotdo to-do list, which the tavern offers as bounties.
use vstd::prelude::*;

verus! {

/// A task as dotdo stores it.
#[derive(Clone, Debug)]
pub struct Task {
    pub id: u32,
    pub title: String,
    pub status: String,
    pub due: String,
}

/// A task is still a threat while it is to be done or being done.
pub open spec fn is_active(t: Task) -> bool {
    t.status@ == "todo"@ || t.status@ == "doing"@
}

pub open spec fn active_filter() -> spec_fn(Task) -> bool {
    |t: Task| is_active(t)
}

/// A copy of a task, field for field.
pub fn copy_task(t: &Task) -> (c: Task)
    ensures
        c == *t,
{
    Task { id: t.id, title: t.title.clone(), status: t.status.clone(), due: t.due.clone() }
}

/// The tasks whose status is "todo" or "doing", in the order given.
pub fn active_tasks(tasks: &Vec<Task>) -> (active: Vec<Task>)
    ensures
        active@ == tasks@.filter(active_filter()),
{
    let todo = "todo".to_owned();
    let doing = "doing".to_owned();
    let mut active: Vec<Task> = Vec::new();
    let mut i: usize = 0;
    proof {
        reveal(Seq::filter);
        assert(tasks@.subrange(0, 0) =~= Seq::<Task>::empty());
    }
    while i < tasks.len()
        invariant
            i <= tasks@.len(),
            todo@ == "todo"@,
            doing@ == "doing"@,
            active@ == tasks@.subrange(0, i as int).filter(active_filter()),
        decreases tasks@.len() - i,
    {
        let t = &tasks[i];
        let keep = t.status == todo || t.status == doing;
        proof {
            reveal(Seq::filter);
            assert(tasks@.subrange(0, i + 1).drop_last() =~= tasks@.subrange(0, i as int));
            assert(tasks@.subrange(0, i + 1).last() == tasks@[i as int]);
        }
        if keep {
            active.push(copy_task(t));
        }
        i = i + 1;
    }
    assert(tasks@.subrange(0, i as int) =~= tasks@);
    active
}


/// The active tasks are exactly the tasks whose status is "todo" or "doing":
/// every task kept has one of those statuses, every task with one is kept, and
/// the order is kept.
pub proof fn lemma_active_tasks_exact(tasks: Seq<Task>)
    ensures
        forall|i: int|
            0 <= i < tasks.filter(active_filter()).len() ==> {
                let st = (#[trigger] tasks.filter(active_filter())[i]).status@;
                st == "todo"@ || st == "doing"@
            },
        forall|i: int|
            0 <= i < tasks.len() && ((#[trigger] tasks[i]).status@ == "todo"@ || tasks[i].status@
                == "doing"@) ==> tasks.filter(active_filter()).contains(tasks[i]),
        tasks.filter(active_filter()).len() <= tasks.len(),
{
    tasks.filter_lemma(active_filter());
    assert forall|i: int|
        0 <= i < tasks.filter(active_filter()).len() implies {
            let st = (#[trigger] tasks.filter(active_filter())[i]).status@;
            st == "todo"@ || st == "doing"@
        } by {
        assert(active_filter()(tasks.filter(active_filter())[i]));
    }
    assert forall|i: int|
        0 <= i < tasks.len() && ((#[trigger] tasks[i]).status@ == "todo"@ || tasks[i].status@
            == "doing"@) implies tasks.filter(active_filter()).contains(tasks[i]) by {
        assert(active_filter()(tasks[i]));
    }
}

} // verus!
