//! The task data model: tasks, task lists, and the project tree.
use vstd::prelude::*;

use crate::error::Error;
use crate::text::spec_starts_with;
use crate::text::str_starts_with;

verus! {

/// A completable unit of work within a task list.
#[derive(Debug, PartialEq, Eq, Clone)]
pub struct Task {
    pub desc: String,
    pub index: usize,
    pub completed: bool,
}

/// The part of a project that is persisted: a named, ordered task list and
/// the flag that marks it as subordinate to some ancestor list.
#[derive(Debug, PartialEq, Eq, Clone)]
pub struct ProjectData {
    pub name: String,
    pub tasks: Vec<Task>,
    pub is_child: bool,
}

/// A task list bound to the file it came from, its signed distance in
/// directory hops from the query origin, and its attached child lists.
#[derive(Debug, PartialEq, Eq)]
pub struct Project {
    pub data: ProjectData,
    pub path: String,
    pub steps: isize,
    pub children: Vec<Project>,
}

/// The largest task index; the next index after it wraps to 0.
pub const INDEX_LIMIT: usize = 999;

/// The greatest index among the tasks, or 0 when there are none.
pub open spec fn spec_max_index(s: Seq<Task>) -> int
    decreases s.len(),
{
    if s.len() == 0 {
        0
    } else {
        let rest = spec_max_index(s.drop_last());
        if s.last().index as int > rest {
            s.last().index as int
        } else {
            rest
        }
    }
}

/// The index the next added task receives: one past the maximum, wrapping
/// to 0 on an empty list or once the maximum has reached `INDEX_LIMIT`.
pub open spec fn spec_next_index(s: Seq<Task>) -> int {
    if s.len() == 0 {
        0
    } else if spec_max_index(s) >= INDEX_LIMIT {
        0
    } else {
        spec_max_index(s) + 1
    }
}

/// The position of the first task carrying `index`, if any.
pub open spec fn spec_task_pos(s: Seq<Task>, index: usize) -> Option<int>
    decreases s.len(),
{
    if s.len() == 0 {
        None
    } else if s.first().index == index {
        Some(0int)
    } else {
        match spec_task_pos(s.drop_first(), index) {
            Some(j) => Some(j + 1),
            None => None,
        }
    }
}

/// `post` differs from `pre` at most in its task sequence.
pub open spec fn only_tasks_changed(pre: Project, post: Project) -> bool {
    &&& post.data.name == pre.data.name
    &&& post.data.is_child == pre.data.is_child
    &&& post.path == pre.path
    &&& post.steps == pre.steps
    &&& post.children == pre.children
}

/// The position of the first task carrying `index`, as `spec_task_pos`
/// describes it.
fn task_pos(tasks: &Vec<Task>, index: usize) -> (r: Option<usize>)
    ensures
        match r {
            Some(i) => 0 <= i < tasks@.len() && spec_task_pos(tasks@, index) == Some(i as int),
            None => spec_task_pos(tasks@, index) is None,
        },
{
    let ghost s = tasks@;
    let mut i: usize = 0;
    let n = tasks.len();
    proof {
        assert(s.skip(0) =~= s);
    }
    while i < n
        invariant
            0 <= i <= s.len(),
            n == s.len(),
            s == tasks@,
            spec_task_pos(s, index) == match spec_task_pos(s.skip(i as int), index) {
                Some(j) => Some(j + i),
                None => None::<int>,
            },
        decreases s.len() - i,
    {
        proof {
            assert(s.skip(i as int).first() == s[i as int]);
            assert(s.skip(i as int).drop_first() =~= s.skip(i + 1));
        }
        if tasks[i].index == index {
            assert(spec_task_pos(s, index) == Some(i as int));
            return Some(i);
        }
        i += 1;
    }
    proof {
        assert(s.skip(s.len() as int) =~= Seq::<Task>::empty());
    }
    None
}

impl Task {
    /// Makes a task from its parts.
    pub fn new(name: &str, completed: bool, index: usize) -> (t: Task)
        ensures
            t.desc@ == name@,
            t.completed == completed,
            t.index == index,
    {
        Task { desc: name.to_owned(), completed, index }
    }
}

impl Project {
    /// Every attached child is marked as a child, recursively: the tree
    /// invariant that attachment preserves.
    pub open spec fn wf(self) -> bool
        decreases self,
    {
        forall|i: int|
            0 <= i < self.children.len() ==> (#[trigger] self.children[i]).data.is_child
                && self.children[i].wf()
    }

    /// Creates a project with no tasks and no children.
    pub fn new(project_file: String, steps: isize, name: String, is_child: bool) -> (p: Project)
        ensures
            p.path == project_file,
            p.steps == steps,
            p.data.name == name,
            p.data.is_child == is_child,
            p.data.tasks@ =~= Seq::<Task>::empty(),
            p.children@ =~= Seq::<Project>::empty(),
            p.wf(),
    {
        let p = Project {
            path: project_file,
            steps,
            children: Vec::new(),
            data: ProjectData { name, tasks: Vec::new(), is_child },
        };
        assert(p.wf());
        p
    }

    /// Binds already-loaded list data to the file it came from.
    pub fn from_data(project_file: String, steps: isize, data: ProjectData) -> (p: Project)
        ensures
            p.path == project_file,
            p.steps == steps,
            p.data == data,
            p.children@ =~= Seq::<Project>::empty(),
            p.wf(),
    {
        let p = Project { path: project_file, steps, children: Vec::new(), data };
        assert(p.wf());
        p
    }

    /// Whether this list is marked as subordinate to an ancestor list.
    pub fn is_child(&self) -> (r: bool)
        ensures
            r == self.data.is_child,
    {
        self.data.is_child
    }

    /// Attaches a child list under this project. Only a list marked as a
    /// child may ever be attached; attaching anything else is a programming
    /// error, which this contract rules out.
    pub fn attach_child(&mut self, child: Project)
        requires
            child.data.is_child,
            child.wf(),
        ensures
            final(self).children@ == old(self).children@.push(child),
            final(self).data == old(self).data,
            final(self).path == old(self).path,
            final(self).steps == old(self).steps,
            old(self).wf() ==> final(self).wf(),
    {
        let ghost pre = *self;
        self.children.push(child);
        proof {
            if pre.wf() {
                assert forall|i: int| 0 <= i < self.children.len() implies (#[trigger] self
                    .children[i]).data.is_child && self.children[i].wf() by {
                    if i < pre.children.len() {
                        assert(self.children[i] == pre.children[i]);
                    } else {
                        assert(self.children[i] == child);
                    }
                }
                assert(self.wf());
            }
        }
    }

    /// The file this project was loaded from and is saved back to.
    pub fn path(&self) -> (r: &str)
        ensures
            r@ == self.path@,
    {
        self.path.as_str()
    }

    /// Signed hop distance from the query origin: negative for ancestors,
    /// zero at the origin, positive for discovered descendants.
    pub fn steps(&self) -> (r: isize)
        ensures
            r == self.steps,
    {
        self.steps
    }

    /// The attached child projects, in attachment order.
    pub fn get_children(&self) -> (r: &[Project])
        ensures
            r@ == self.children@,
    {
        self.children.as_slice()
    }

    /// The index the next added task will receive: one past the current
    /// maximum, wrapping to 0 once the maximum has reached `INDEX_LIMIT`.
    pub fn next_index(&self) -> (r: usize)
        ensures
            r as int == spec_next_index(self.data.tasks@),
    {
        let tasks = &self.data.tasks;
        if tasks.is_empty() {
            return 0;
        }
        let ghost s = tasks@;
        let mut highest: usize = 0;
        let mut i: usize = 0;
        while i < tasks.len()
            invariant
                0 <= i <= s.len(),
                s == tasks@,
                highest as int == spec_max_index(s.take(i as int)),
            decreases s.len() - i,
        {
            proof {
                assert(s.take(i + 1).drop_last() =~= s.take(i as int));
                assert(s.take(i + 1).last() == s[i as int]);
            }
            if tasks[i].index > highest {
                highest = tasks[i].index;
            }
            i += 1;
        }
        proof {
            assert(s.take(s.len() as int) =~= s);
        }
        if highest >= INDEX_LIMIT {
            0
        } else {
            highest + 1
        }
    }

    /// Appends a new task carrying the next free index.
    pub fn add(&mut self, name: String, completed: bool)
        ensures
            final(self).data.tasks@ == old(self).data.tasks@.push(
                Task {
                    desc: name,
                    index: spec_next_index(old(self).data.tasks@) as usize,
                    completed,
                },
            ),
            only_tasks_changed(*old(self), *final(self)),
    {
        let index = self.next_index();
        self.data.tasks.push(Task { desc: name, index, completed });
    }

    /// Drops every task carrying `index`.
    pub fn remove(&mut self, index: usize)
        ensures
            final(self).data.tasks@ == old(self).data.tasks@.filter(
                |t: Task| t.index != index,
            ),
            only_tasks_changed(*old(self), *final(self)),
    {
        let ghost s = self.data.tasks@;
        let mut kept: Vec<Task> = Vec::new();
        let mut i: usize = 0;
        proof {
            reveal(Seq::filter);
            assert(s.take(0).filter(|t: Task| t.index != index) =~= Seq::<Task>::empty());
        }
        while i < self.data.tasks.len()
            invariant
                0 <= i <= s.len(),
                s == self.data.tasks@,
                kept@ == s.take(i as int).filter(|t: Task| t.index != index),
            decreases s.len() - i,
        {
            proof {
                reveal(Seq::filter);
                let pred = |t: Task| t.index != index;
                assert(s.take(i + 1).drop_last() =~= s.take(i as int));
                assert(s.take(i + 1).last() == s[i as int]);
                assert(s.take(i + 1).filter(pred) == if pred(s[i as int]) {
                    s.take(i as int).filter(pred).push(s[i as int])
                } else {
                    s.take(i as int).filter(pred)
                });
            }
            let t = &self.data.tasks[i];
            if t.index != index {
                let copy = Task { desc: t.desc.clone(), index: t.index, completed: t.completed };
                assert(copy == s[i as int]);
                kept.push(copy);
            }
            i += 1;
        }
        proof {
            assert(s.take(s.len() as int) =~= s);
        }
        self.data.tasks = kept;
    }

    /// Drops every task.
    pub fn remove_all(&mut self)
        ensures
            final(self).data.tasks@ =~= Seq::<Task>::empty(),
            only_tasks_changed(*old(self), *final(self)),
    {
        self.data.tasks.clear();
    }

    /// Drops every completed task, keeping the rest in order.
    pub fn remove_completed(&mut self)
        ensures
            final(self).data.tasks@ == old(self).data.tasks@.filter(|t: Task| !t.completed),
            only_tasks_changed(*old(self), *final(self)),
    {
        let ghost s = self.data.tasks@;
        let mut kept: Vec<Task> = Vec::new();
        let mut i: usize = 0;
        proof {
            reveal(Seq::filter);
            assert(s.take(0).filter(|t: Task| !t.completed) =~= Seq::<Task>::empty());
        }
        while i < self.data.tasks.len()
            invariant
                0 <= i <= s.len(),
                s == self.data.tasks@,
                kept@ == s.take(i as int).filter(|t: Task| !t.completed),
            decreases s.len() - i,
        {
            proof {
                reveal(Seq::filter);
                let pred = |t: Task| !t.completed;
                assert(s.take(i + 1).drop_last() =~= s.take(i as int));
                assert(s.take(i + 1).last() == s[i as int]);
                assert(s.take(i + 1).filter(pred) == if pred(s[i as int]) {
                    s.take(i as int).filter(pred).push(s[i as int])
                } else {
                    s.take(i as int).filter(pred)
                });
            }
            let t = &self.data.tasks[i];
            if !t.completed {
                let copy = Task { desc: t.desc.clone(), index: t.index, completed: t.completed };
                assert(copy == s[i as int]);
                kept.push(copy);
            }
            i += 1;
        }
        proof {
            assert(s.take(s.len() as int) =~= s);
        }
        self.data.tasks = kept;
    }

    /// Sets the completion mark on every task.
    pub fn mark_completion_all(&mut self, completed: bool)
        ensures
            final(self).data.tasks@.len() == old(self).data.tasks@.len(),
            forall|i: int|
                0 <= i < old(self).data.tasks@.len() ==> final(self).data.tasks@[i] == (Task {
                    desc: old(self).data.tasks@[i].desc,
                    index: old(self).data.tasks@[i].index,
                    completed,
                }),
            only_tasks_changed(*old(self), *final(self)),
    {
        let ghost s = self.data.tasks@;
        let mut marked: Vec<Task> = Vec::new();
        let mut i: usize = 0;
        while i < self.data.tasks.len()
            invariant
                0 <= i <= s.len(),
                s == self.data.tasks@,
                marked@.len() == i,
                forall|j: int|
                    0 <= j < i ==> marked@[j] == (Task {
                        desc: s[j].desc,
                        index: s[j].index,
                        completed,
                    }),
            decreases s.len() - i,
        {
            let t = &self.data.tasks[i];
            marked.push(Task { desc: t.desc.clone(), index: t.index, completed });
            i += 1;
        }
        self.data.tasks = marked;
    }

    /// Hands out the first task carrying `index` for mutation, or reports
    /// that no task carries it.
    pub fn get_task_mut(&mut self, index: usize) -> (r: Result<&mut Task, Error>)
        ensures
            match spec_task_pos(old(self).data.tasks@, index) {
                Some(j) => {
                    &&& r matches Ok(t)
                    &&& *t == old(self).data.tasks@[j]
                    &&& final(self).data.tasks@ == old(self).data.tasks@.update(j, *final(t))
                    &&& only_tasks_changed(*old(self), *final(self))
                },
                None => {
                    &&& r matches Err(e)
                    &&& e == (Error::NoSuchTask { list: old(self).data.name, index })
                    &&& *final(self) == *old(self)
                },
            },
    {
        match task_pos(&self.data.tasks, index) {
            Some(i) => {
                let t = &mut self.data.tasks[i];
                Ok(t)
            },
            None => Err(Error::NoSuchTask { list: self.data.name.clone(), index }),
        }
    }

    /// Marks the first task carrying `index` as completed or not, or
    /// reports that no task carries it, leaving the list unchanged.
    pub fn mark_completion(&mut self, index: usize, completed: bool) -> (r: Result<(), Error>)
        ensures
            match spec_task_pos(old(self).data.tasks@, index) {
                Some(j) => {
                    &&& r is Ok
                    &&& final(self).data.tasks@ == old(self).data.tasks@.update(
                        j,
                        Task {
                            desc: old(self).data.tasks@[j].desc,
                            index: old(self).data.tasks@[j].index,
                            completed,
                        },
                    )
                    &&& only_tasks_changed(*old(self), *final(self))
                },
                None => {
                    &&& r matches Err(e)
                    &&& e == (Error::NoSuchTask { list: old(self).data.name, index })
                    &&& *final(self) == *old(self)
                },
            },
    {
        let task = match self.get_task_mut(index) {
            Ok(t) => t,
            Err(e) => {
                return Err(e);
            },
        };
        task.completed = completed;
        Ok(())
    }

    /// Looks up a task by node-name prefix and index across the tree:
    /// the first node (depth first, this node before its children, children
    /// in attachment order) whose name starts with `selector` resolves the
    /// index; a miss is reported against this node's name.
    pub fn find_task(&self, selector: &str, index: usize) -> (r: Result<&Task, Error>)
        ensures
            r matches Ok(t) ==> Project::spec_find_task(*self, selector@, index) == Some(*t),
            r is Err ==> Project::spec_find_task(*self, selector@, index) is None,
            r matches Err(e) ==> e == (Error::NoSuchTask { list: self.data.name, index }),
        decreases *self,
    {
        if str_starts_with(self.data.name.as_str(), selector) {
            match task_pos(&self.data.tasks, index) {
                Some(i) => Ok(&self.data.tasks[i]),
                None => Err(Error::NoSuchTask { list: self.data.name.clone(), index }),
            }
        } else {
            let mut i: usize = 0;
            let n = self.children.len();
            proof {
                assert(self.children@.skip(0) =~= self.children@);
            }
            while i < n
                invariant
                    0 <= i <= self.children@.len(),
                    n == self.children@.len(),
                    !spec_starts_with(self.data.name@, selector@),
                    Project::spec_find_in_children(self.children@, selector@, index)
                        == Project::spec_find_in_children(
                        self.children@.skip(i as int),
                        selector@,
                        index,
                    ),
                decreases n - i,
            {
                proof {
                    assert(self.children@.skip(i as int).first() == self.children@[i as int]);
                    assert(self.children@.skip(i as int).drop_first() =~= self.children@.skip(
                        i + 1,
                    ));
                }
                match self.children[i].find_task(selector, index) {
                    Ok(t) => {
                        proof {
                            assert(Project::spec_find_in_children(
                                self.children@.skip(i as int),
                                selector@,
                                index,
                            ) == Some(*t));
                        }
                        return Ok(t);
                    },
                    Err(_) => {},
                }
                i += 1;
            }
            proof {
                assert(self.children@.skip(self.children@.len() as int) =~= Seq::<
                    Project,
                >::empty());
            }
            Err(Error::NoSuchTask { list: self.data.name.clone(), index })
        }
    }

    /// What `find_task` returns: the task at `index` in the first node,
    /// depth first, whose name starts with `sel`.
    pub open spec fn spec_find_task(p: Project, sel: Seq<char>, index: usize) -> Option<Task>
        decreases p,
    {
        if spec_starts_with(p.data.name@, sel) {
            match spec_task_pos(p.data.tasks@, index) {
                Some(j) => Some(p.data.tasks@[j]),
                None => None,
            }
        } else {
            Project::spec_find_in_children(p.children@, sel, index)
        }
    }

    /// The first hit of `spec_find_task` over a sequence of children.
    pub open spec fn spec_find_in_children(cs: Seq<Project>, sel: Seq<char>, index: usize) -> Option<
        Task,
    >
        decreases cs,
    {
        if cs.len() == 0 {
            None
        } else {
            match Project::spec_find_task(cs.first(), sel, index) {
                Some(t) => Some(t),
                None => Project::spec_find_in_children(cs.drop_first(), sel, index),
            }
        }
    }
}


/// The value of a whole project tree, children as a sequence: what the
/// resolver's contracts speak of.
pub struct ProjectView {
    pub data: ProjectData,
    pub path: String,
    pub steps: int,
    pub children: Seq<ProjectView>,
}

impl Project {
    /// This project as a plain tree value.
    pub open spec fn deep(self) -> ProjectView
        decreases self,
    {
        ProjectView {
            data: self.data,
            path: self.path,
            steps: self.steps as int,
            children: Project::deep_seq(self.children@),
        }
    }

    /// A sequence of projects as plain tree values, in order.
    pub open spec fn deep_seq(cs: Seq<Project>) -> Seq<ProjectView>
        decreases cs,
    {
        if cs.len() == 0 {
            Seq::empty()
        } else {
            seq![cs.first().deep()] + Project::deep_seq(cs.drop_first())
        }
    }
}

/// Appending one project appends its tree value.
pub proof fn lemma_deep_seq_push(cs: Seq<Project>, c: Project)
    ensures
        Project::deep_seq(cs.push(c)) == Project::deep_seq(cs).push(c.deep()),
    decreases cs.len(),
{
    if cs.len() == 0 {
        assert(cs.push(c).len() == 1);
        assert(cs.push(c).first() == c);
        assert(cs.push(c).drop_first() =~= Seq::<Project>::empty());
        assert(Project::deep_seq(Seq::<Project>::empty()) =~= Seq::<ProjectView>::empty());
        assert(Project::deep_seq(cs.push(c)) =~= seq![c.deep()]);
        assert(Project::deep_seq(cs).push(c.deep()) =~= seq![c.deep()]);
    } else {
        assert(cs.push(c).first() == cs.first());
        assert(cs.push(c).drop_first() =~= cs.drop_first().push(c));
        lemma_deep_seq_push(cs.drop_first(), c);
        assert(Project::deep_seq(cs.push(c)) == seq![cs.first().deep()] + Project::deep_seq(
            cs.drop_first(),
        ).push(c.deep()));
        assert(seq![cs.first().deep()] + Project::deep_seq(cs.drop_first()).push(c.deep()) =~= (
        seq![cs.first().deep()] + Project::deep_seq(cs.drop_first())).push(c.deep()));
    }
}

/// The next index is 0 on an empty list; on a non-empty list the greatest
/// index is attained by some task and bounds every task, and the next
/// index is one past it, wrapping to 0 once it has reached `INDEX_LIMIT`.
pub proof fn lemma_next_index(s: Seq<Task>)
    ensures
        s.len() == 0 ==> spec_next_index(s) == 0,
        s.len() > 0 ==> exists|i: int|
            0 <= i < s.len() && (#[trigger] s[i]).index as int == spec_max_index(s),
        forall|i: int| 0 <= i < s.len() ==> (#[trigger] s[i]).index as int <= spec_max_index(s),
        s.len() > 0 && spec_max_index(s) >= INDEX_LIMIT ==> spec_next_index(s) == 0,
        s.len() > 0 && spec_max_index(s) < INDEX_LIMIT ==> spec_next_index(s) == spec_max_index(s)
            + 1,
    decreases s.len(),
{
    if s.len() > 0 {
        let rest = s.drop_last();
        lemma_next_index(rest);
        assert(forall|i: int| 0 <= i < rest.len() ==> rest[i] == s[i]);
        if s.last().index as int > spec_max_index(rest) {
            assert(s[s.len() - 1].index as int == spec_max_index(s));
        } else {
            if rest.len() == 0 {
                assert(s[s.len() - 1].index as int == spec_max_index(s));
            } else {
                let w = choose|i: int|
                    0 <= i < rest.len() && (#[trigger] rest[i]).index as int == spec_max_index(
                        rest,
                    );
                assert(s[w].index as int == spec_max_index(s));
            }
        }
    }
}


/// In a well-formed tree every attached child is marked as a child.
pub proof fn lemma_children_marked(p: Project)
    requires
        p.wf(),
    ensures
        forall|i: int| 0 <= i < p.children@.len() ==> (#[trigger] p.children@[i]).data.is_child,
{
}

} // verus!
