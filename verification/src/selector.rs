//! The selector resolver: queries that pick tasks out of a project, and
//! the batch operations the commands run over them.
use vstd::prelude::*;

use crate::error::Error;
use crate::project::only_tasks_changed;
use crate::project::spec_task_pos;
use crate::project::Project;
use crate::project::Task;

verus! {

/// Which task(s) of a project an operation selects.
#[derive(Debug, Clone, PartialEq, Eq)]
pub enum TaskSelector {
    /// The tasks carrying these indices, applied in order.
    Indexed(Vec<usize>),
    /// Every task.
    All,
    /// Every completed task; used only for bulk removal.
    Completed,
}

/// One parsed command-line invocation.
#[derive(Debug, Clone, PartialEq, Eq)]
pub enum Command {
    Show,
    NewProject { name: Option<String>, force: bool },
    AddTask { desc: String, completed: bool },
    MarkCompletion(bool, TaskSelector),
    RemoveTask(TaskSelector),
    EditTask(String, usize),
    RemoveProject,
}

/// Marks the selected indices one by one: the first index without a task
/// aborts the batch, keeping the marks already applied.
pub open spec fn spec_mark_batch(tasks: Seq<Task>, ixs: Seq<usize>, completed: bool) -> (Seq<
    Task,
>, Option<usize>)
    decreases ixs.len(),
{
    if ixs.len() == 0 {
        (tasks, None)
    } else {
        match spec_task_pos(tasks, ixs.first()) {
            Some(j) => spec_mark_batch(
                tasks.update(
                    j,
                    Task { desc: tasks[j].desc, index: tasks[j].index, completed },
                ),
                ixs.drop_first(),
                completed,
            ),
            None => (tasks, Some(ixs.first())),
        }
    }
}

/// Sets the completion mark on the selected tasks. Indexed selection is
/// applied in order and the first missing index aborts the batch: marks
/// already applied are kept, and the error names that index. The
/// completed-only selector is not a completion query.
pub fn done(p: &mut Project, selector: &TaskSelector, completed: bool) -> (r: Result<(), Error>)
    requires
        !(selector matches TaskSelector::Completed),
    ensures
        only_tasks_changed(*old(p), *final(p)),
        selector matches TaskSelector::All ==> {
            &&& r is Ok
            &&& final(p).data.tasks@.len() == old(p).data.tasks@.len()
            &&& forall|i: int|
                0 <= i < old(p).data.tasks@.len() ==> final(p).data.tasks@[i] == (Task {
                    desc: old(p).data.tasks@[i].desc,
                    index: old(p).data.tasks@[i].index,
                    completed,
                })
        },
        selector matches TaskSelector::Indexed(ixs) ==> {
            &&& final(p).data.tasks@ == spec_mark_batch(old(p).data.tasks@, ixs@, completed).0
            &&& match spec_mark_batch(old(p).data.tasks@, ixs@, completed).1 {
                None => r is Ok,
                Some(ix) => r matches Err(e) && e == (Error::NoSuchTask {
                    list: old(p).data.name,
                    index: ix,
                }),
            }
        },
{
    match selector {
        TaskSelector::All => {
            p.mark_completion_all(completed);
            Ok(())
        },
        TaskSelector::Indexed(ixs) => {
            let ghost orig = p.data.tasks@;
            let mut i: usize = 0;
            let n = ixs.len();
            proof {
                assert(ixs@.skip(0) =~= ixs@);
            }
            while i < n
                invariant
                    0 <= i <= ixs@.len(),
                    n == ixs@.len(),
                    selector matches TaskSelector::Indexed(v) && v@ == ixs@,
                    orig == old(p).data.tasks@,
                    only_tasks_changed(*old(p), *p),
                    spec_mark_batch(orig, ixs@, completed) == spec_mark_batch(
                        p.data.tasks@,
                        ixs@.skip(i as int),
                        completed,
                    ),
                decreases n - i,
            {
                proof {
                    assert(ixs@.skip(i as int).first() == ixs@[i as int]);
                    assert(ixs@.skip(i as int).drop_first() =~= ixs@.skip(i + 1));
                }
                match p.mark_completion(ixs[i], completed) {
                    Ok(_) => {},
                    Err(e) => {
                        return Err(e);
                    },
                }
                i += 1;
            }
            proof {
                assert(ixs@.skip(ixs@.len() as int) =~= Seq::<usize>::empty());
            }
            Ok(())
        },
        TaskSelector::Completed => {
            proof {
                assert(false);
            }
            Ok(())
        },
    }
}

/// Whether `x` occurs in `ixs`.
fn index_in(ixs: &Vec<usize>, x: usize) -> (r: bool)
    ensures
        r == ixs@.contains(x),
{
    let mut i: usize = 0;
    let n = ixs.len();
    while i < n
        invariant
            0 <= i <= ixs@.len(),
            n == ixs@.len(),
            forall|j: int| 0 <= j < i ==> ixs@[j] != x,
        decreases n - i,
    {
        if ixs[i] == x {
            assert(ixs@.contains(x));
            return true;
        }
        i += 1;
    }
    assert(!ixs@.contains(x));
    false
}

/// Removes the selected tasks: all of them, the completed ones, or every
/// task carrying one of the given indices; the rest keep their order.
pub fn remove(p: &mut Project, selector: &TaskSelector)
    ensures
        only_tasks_changed(*old(p), *final(p)),
        selector matches TaskSelector::All ==> final(p).data.tasks@.len() == 0,
        selector matches TaskSelector::Completed ==> final(p).data.tasks@ == old(
            p,
        ).data.tasks@.filter(|t: Task| !t.completed),
        selector matches TaskSelector::Indexed(ixs) ==> final(p).data.tasks@ == old(
            p,
        ).data.tasks@.filter(|t: Task| !ixs@.contains(t.index)),
{
    match selector {
        TaskSelector::All => {
            p.remove_all();
        },
        TaskSelector::Completed => {
            p.remove_completed();
        },
        TaskSelector::Indexed(ixs) => {
            let ghost s = p.data.tasks@;
            let mut kept: Vec<Task> = Vec::new();
            let mut i: usize = 0;
            let n = p.data.tasks.len();
            proof {
                reveal(Seq::filter);
                assert(s.take(0).filter(|t: Task| !ixs@.contains(t.index)) =~= Seq::<
                    Task,
                >::empty());
            }
            while i < n
                invariant
                    0 <= i <= s.len(),
                    n == s.len(),
                    s == p.data.tasks@,
                    selector matches TaskSelector::Indexed(v) && v@ == ixs@,
                    kept@ == s.take(i as int).filter(|t: Task| !ixs@.contains(t.index)),
                decreases n - i,
            {
                proof {
                    reveal(Seq::filter);
                    let pred = |t: Task| !ixs@.contains(t.index);
                    assert(s.take(i + 1).drop_last() =~= s.take(i as int));
                    assert(s.take(i + 1).last() == s[i as int]);
                    assert(s.take(i + 1).filter(pred) == if pred(s[i as int]) {
                        s.take(i as int).filter(pred).push(s[i as int])
                    } else {
                        s.take(i as int).filter(pred)
                    });
                }
                let t = &p.data.tasks[i];
                if !index_in(ixs, t.index) {
                    let copy = Task { desc: t.desc.clone(), index: t.index, completed: t.completed };
                    assert(copy == s[i as int]);
                    kept.push(copy);
                }
                i += 1;
            }
            proof {
                assert(s.take(s.len() as int) =~= s);
            }
            p.data.tasks = kept;
        },
    }
}

} // verus!
