//! The hierarchy resolver: picking the governing root list among the
//! ancestors of a starting directory, and attaching the subordinate lists
//! discovered below it.
//!
//! The resolver is a pure function of a filesystem snapshot: the caller
//! probes each ancestor directory for a list file (nearest first) and, for
//! the chosen root, snapshots the directory tree below it. Reading disks
//! is the caller's affair; every decision over what was read is made and
//! proved here.
use vstd::prelude::*;

use crate::error::Error;
use crate::project::lemma_deep_seq_push;
use crate::project::Project;
use crate::project::ProjectData;
use crate::project::ProjectView;
use crate::CHILDREN_DEPTH_LIMIT;

verus! {

/// What probing one directory for a task-list file turned up. A file that
/// exists but cannot be read or parsed counts as `Invalid`: while
/// ascending it is skipped so a corrupt intermediate file cannot hide a
/// valid root above it, and while descending the branch is treated as
/// bare.
pub enum ListProbe {
    /// No task-list file in the directory.
    Missing,
    /// A task-list file exists but could not be read or parsed.
    Invalid,
    /// A task-list file was read and parsed.
    Found(ProjectData),
}

/// One ancestor directory's probe, nearest first in a walk upward.
pub struct AncestorProbe {
    /// The task-list file path this directory's list lives at.
    pub file_path: String,
    pub probe: ListProbe,
}

/// One directory of the downward walk: its probe and its subdirectories.
pub struct DirSnapshot {
    /// The task-list file path this directory's list lives at.
    pub file_path: String,
    pub probe: ListProbe,
    pub subdirs: Vec<DirSnapshot>,
}

/// The probe found a list eligible to be a resolution root: it loaded and
/// is not marked as a child.
pub open spec fn is_root_probe(p: AncestorProbe) -> bool {
    p.probe matches ListProbe::Found(d) && !d.is_child
}

/// The position of the nearest eligible root among the ancestors.
pub open spec fn spec_root_pos(s: Seq<AncestorProbe>) -> Option<int>
    decreases s.len(),
{
    if s.len() == 0 {
        None
    } else if is_root_probe(s.first()) {
        Some(0int)
    } else {
        match spec_root_pos(s.drop_first()) {
            Some(j) => Some(j + 1),
            None => None,
        }
    }
}

/// Resolution roots at the nearest ancestor whose list loaded with
/// `is_child` false: every nearer ancestor — child-marked, corrupt or
/// bare — is skipped, and where no ancestor qualifies there is no root.
pub proof fn lemma_root_pos_is_nearest(s: Seq<AncestorProbe>)
    ensures
        match spec_root_pos(s) {
            Some(i) => 0 <= i < s.len() && is_root_probe(s[i]) && forall|j: int|
                0 <= j < i ==> !is_root_probe(#[trigger] s[j]),
            None => forall|j: int| 0 <= j < s.len() ==> !is_root_probe(#[trigger] s[j]),
        },
    decreases s.len(),
{
    if s.len() > 0 {
        assert(s[0] == s.first());
        if !is_root_probe(s.first()) {
            lemma_root_pos_is_nearest(s.drop_first());
            let rest = s.drop_first();
            assert(forall|j: int| 0 <= j < rest.len() ==> rest[j] == s[j + 1]);
            match spec_root_pos(s) {
                Some(i) => {
                    assert forall|j: int| 0 <= j < i implies !is_root_probe(#[trigger] s[j]) by {
                        if j > 0 {
                            assert(s[j] == rest[j - 1]);
                        }
                    }
                },
                None => {
                    assert forall|j: int| 0 <= j < s.len() implies !is_root_probe(
                        #[trigger] s[j],
                    ) by {
                        if j > 0 {
                            assert(s[j] == rest[j - 1]);
                        }
                    }
                },
            }
        }
    }
}

/// Picks the root list among the ancestors: the nearest one that loaded
/// and is not marked as a child becomes a project with no children yet,
/// `steps` counting the hops walked upward as a negative number.
pub fn resolve_root(ancestors: Vec<AncestorProbe>) -> (r: Result<Project, Error>)
    requires
        ancestors@.len() <= isize::MAX as int,
    ensures
        match spec_root_pos(ancestors@) {
            Some(i) => {
                &&& r matches Ok(p)
                &&& ancestors@[i].probe matches ListProbe::Found(d) && p.data == d
                &&& p.path == ancestors@[i].file_path
                &&& p.steps as int == -i
                &&& p.children@.len() == 0
                &&& p.wf()
            },
            None => {
                &&& r matches Err(e)
                &&& e == Error::NoProjectFound
            },
        },
{
    let ghost orig = ancestors@;
    let mut rest = ancestors;
    let mut k: usize = 0;
    proof {
        assert(orig.skip(0) =~= orig);
    }
    while rest.len() > 0
        invariant
            0 <= k,
            orig == ancestors@,
            k as int + rest@.len() == orig.len(),
            orig.len() <= isize::MAX as int,
            rest@ == orig.skip(k as int),
            spec_root_pos(orig) == match spec_root_pos(orig.skip(k as int)) {
                Some(j) => Some(j + k),
                None => None::<int>,
            },
        decreases rest@.len(),
    {
        proof {
            assert(orig.skip(k as int).first() == orig[k as int]);
            assert(orig.skip(k as int).drop_first() =~= orig.skip(k + 1));
        }
        let AncestorProbe { file_path, probe } = rest.remove(0);
        proof {
            assert(orig.skip(k as int).remove(0) =~= orig.skip(k as int).drop_first());
        }
        match probe {
            ListProbe::Found(d) => {
                if !d.is_child {
                    proof {
                        assert(is_root_probe(orig[k as int]));
                        assert(spec_root_pos(orig) == Some(k as int));
                    }
                    return Ok(Project::from_data(file_path, -(k as isize), d));
                }
            },
            _ => {},
        }
        k += 1;
    }
    proof {
        assert(orig.skip(orig.len() as int) =~= Seq::<AncestorProbe>::empty());
    }
    Err(Error::NoProjectFound)
}

/// The child lists that the downward walk over `dirs` attaches to a node
/// whose hop distance is `parent_steps`, descending at most `limit`
/// levels: a loaded child-marked list becomes a child one hop further with
/// its own subtree resolved first; a loaded non-child list is an unrelated
/// project and its whole branch is skipped; a bare or unreadable directory
/// is transparent, its subdirectories contributing to the same node.
pub open spec fn spec_children_of(dirs: Seq<DirSnapshot>, parent_steps: int, limit: nat) -> Seq<
    ProjectView,
>
    decreases limit, dirs.len(),
{
    if limit == 0 || dirs.len() == 0 {
        Seq::empty()
    } else {
        let head = dirs.first();
        let rest = spec_children_of(dirs.drop_first(), parent_steps, limit);
        match head.probe {
            ListProbe::Found(d) => if d.is_child {
                seq![
                    ProjectView {
                        data: d,
                        path: head.file_path,
                        steps: parent_steps + 1,
                        children: spec_children_of(
                            head.subdirs@,
                            parent_steps + 1,
                            (limit - 1) as nat,
                        ),
                    },
                ] + rest
            } else {
                rest
            },
            _ => spec_children_of(head.subdirs@, parent_steps, (limit - 1) as nat) + rest,
        }
    }
}

/// Walks `dirs` and attaches every discovered child list under `parent`,
/// as `spec_children_of` describes, after the children it already has.
pub fn attach_descendants(parent: &mut Project, dirs: Vec<DirSnapshot>, limit: usize)
    requires
        old(parent).steps as int + limit as int <= isize::MAX as int,
    ensures
        final(parent).data == old(parent).data,
        final(parent).path == old(parent).path,
        final(parent).steps == old(parent).steps,
        Project::deep_seq(final(parent).children@) == Project::deep_seq(old(parent).children@)
            + spec_children_of(dirs@, old(parent).steps as int, limit as nat),
        old(parent).wf() ==> final(parent).wf(),
    decreases limit,
{
    let ghost orig = dirs@;
    let ghost st = old(parent).steps as int;
    if limit == 0 {
        proof {
            assert(spec_children_of(orig, st, 0) =~= Seq::<ProjectView>::empty());
            assert(Project::deep_seq(parent.children@) + Seq::<ProjectView>::empty()
                =~= Project::deep_seq(parent.children@));
        }
        return;
    }
    let mut dirs = dirs;
    while dirs.len() > 0
        invariant
            limit >= 1,
            parent.data == old(parent).data,
            parent.path == old(parent).path,
            parent.steps == old(parent).steps,
            old(parent).steps as int + limit as int <= isize::MAX as int,
            st == old(parent).steps as int,
            Project::deep_seq(old(parent).children@) + spec_children_of(orig, st, limit as nat)
                == Project::deep_seq(parent.children@) + spec_children_of(
                dirs@,
                st,
                limit as nat,
            ),
            old(parent).wf() ==> parent.wf(),
        decreases dirs@.len(),
    {
        let ghost pre = dirs@;
        proof {
            assert(pre.first() == pre[0]);
        }
        let DirSnapshot { file_path, probe, subdirs } = dirs.remove(0);
        proof {
            assert(pre.remove(0) =~= pre.drop_first());
        }
        let ghost head = pre.first();
        match probe {
            ListProbe::Found(d) => {
                if d.is_child {
                    let child_steps = parent.steps + 1;
                    let mut child = Project::from_data(file_path, child_steps, d);
                    let ghost child0 = child;
                    attach_descendants(&mut child, subdirs, limit - 1);
                    proof {
                        assert(Project::deep_seq(child0.children@) =~= Seq::<
                            ProjectView,
                        >::empty());
                        assert(Project::deep_seq(child.children@) =~= spec_children_of(
                            head.subdirs@,
                            st + 1,
                            (limit - 1) as nat,
                        ));
                        assert(child.deep() == ProjectView {
                            data: d,
                            path: head.file_path,
                            steps: st + 1,
                            children: spec_children_of(head.subdirs@, st + 1, (limit - 1) as nat),
                        });
                    }
                    let ghost before = parent.children@;
                    parent.attach_child(child);
                    proof {
                        lemma_deep_seq_push(before, child);
                        assert(spec_children_of(pre, st, limit as nat) == seq![child.deep()]
                            + spec_children_of(pre.drop_first(), st, limit as nat));
                        assert(Project::deep_seq(before).push(child.deep()) =~= Project::deep_seq(
                            before,
                        ) + seq![child.deep()]);
                        assert((Project::deep_seq(before) + seq![child.deep()])
                            + spec_children_of(pre.drop_first(), st, limit as nat)
                            =~= Project::deep_seq(before) + (seq![child.deep()]
                            + spec_children_of(pre.drop_first(), st, limit as nat)));
                    }
                } else {
                    proof {
                        assert(spec_children_of(pre, st, limit as nat) == spec_children_of(
                            pre.drop_first(),
                            st,
                            limit as nat,
                        ));
                    }
                }
            },
            _ => {
                let ghost before = parent.children@;
                attach_descendants(parent, subdirs, limit - 1);
                proof {
                    assert(spec_children_of(pre, st, limit as nat) == spec_children_of(
                        head.subdirs@,
                        st,
                        (limit - 1) as nat,
                    ) + spec_children_of(pre.drop_first(), st, limit as nat));
                    assert((Project::deep_seq(before) + spec_children_of(
                        head.subdirs@,
                        st,
                        (limit - 1) as nat,
                    )) + spec_children_of(pre.drop_first(), st, limit as nat)
                        =~= Project::deep_seq(before) + (spec_children_of(
                        head.subdirs@,
                        st,
                        (limit - 1) as nat,
                    ) + spec_children_of(pre.drop_first(), st, limit as nat)));
                }
            },
        }
    }
    proof {
        assert(spec_children_of(dirs@, st, limit as nat) =~= Seq::<ProjectView>::empty());
        assert(Project::deep_seq(parent.children@) + Seq::<ProjectView>::empty()
            =~= Project::deep_seq(parent.children@));
    }
}

/// Resolves the whole project tree from a snapshot: the nearest eligible
/// ancestor list becomes the root, and the downward walk over the root
/// directory's subdirectories attaches every subordinate list, at most
/// `CHILDREN_DEPTH_LIMIT` levels deep.
pub fn load_project_rec(ancestors: Vec<AncestorProbe>, root_subdirs: Vec<DirSnapshot>) -> (r:
    Result<Project, Error>)
    requires
        ancestors@.len() <= isize::MAX as int,
    ensures
        match spec_root_pos(ancestors@) {
            Some(i) => {
                &&& r matches Ok(p)
                &&& ancestors@[i].probe matches ListProbe::Found(d) && p.data == d
                &&& p.path == ancestors@[i].file_path
                &&& p.steps as int == -i
                &&& Project::deep_seq(p.children@) == spec_children_of(
                    root_subdirs@,
                    -i,
                    CHILDREN_DEPTH_LIMIT as nat,
                )
                &&& p.wf()
            },
            None => {
                &&& r matches Err(e)
                &&& e == Error::NoProjectFound
            },
        },
{
    proof {
        lemma_root_pos_is_nearest(ancestors@);
    }
    let mut root = match resolve_root(ancestors) {
        Ok(p) => p,
        Err(e) => {
            return Err(e);
        },
    };
    proof {
        assert(Project::deep_seq(root.children@) =~= Seq::<ProjectView>::empty());
    }
    attach_descendants(&mut root, root_subdirs, CHILDREN_DEPTH_LIMIT);
    Ok(root)
}

} // verus!
