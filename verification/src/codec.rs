//! The persistence codec's schema layer: a plain document model, the exact
//! mapping between task lists and documents, and the round-trip proof.
//!
//! A persisted task list is a key-value document. Encoding always emits
//! `name` and `tasks`, and emits `is_child` only when it is true, so that
//! root files stay terse. Decoding accepts `desc` or `name` for a task's
//! description (legacy compatibility), requires `completed` and `index`,
//! defaults an absent `is_child` to false, and rejects missing, duplicate
//! and unknown fields.
use vstd::prelude::*;

use crate::error::Error;
use crate::project::ProjectData;
use crate::project::Task;
use crate::text::str_eq;

verus! {

/// A plain value of a structured key-value document.
pub enum DocValue {
    Text(String),
    Int(i64),
    Flag(bool),
    List(Vec<DocValue>),
    Table(Vec<DocEntry>),
    /// A value of some kind the schema has no use for.
    Other,
}

/// One key-value pair of a document table.
pub struct DocEntry {
    pub key: String,
    pub value: DocValue,
}

/// How decoding a document can fail, at the specification level.
pub enum DocErr {
    NotTable,
    Missing { field: Seq<char> },
    Duplicate { field: Seq<char> },
    Unknown { field: Seq<char> },
    WrongType { field: Seq<char> },
}

/// The decode error `e` reports the same failure as `de`.
pub open spec fn doc_err_matches(e: Error, de: DocErr) -> bool {
    match de {
        DocErr::NotTable => e matches Error::Syntax { message } && message@ == "expected a table"@,
        DocErr::Missing { field: f } => e matches Error::MissingField { field } && field@ == f,
        DocErr::Duplicate { field: f } => e matches Error::DuplicateField { field } && field@ == f,
        DocErr::Unknown { field: f } => e matches Error::UnknownField { field } && field@ == f,
        DocErr::WrongType { field: f } => e matches Error::InvalidFieldType { field } && field@
            == f,
    }
}

/// `v` is exactly the encoded form of the task `t`.
pub open spec fn is_task_doc(v: DocValue, t: Task) -> bool {
    match v {
        DocValue::Table(es) => {
            &&& es@.len() == 3
            &&& es@[0].key@ == "desc"@
            &&& es@[0].value == DocValue::Text(t.desc)
            &&& es@[1].key@ == "completed"@
            &&& es@[1].value == DocValue::Flag(t.completed)
            &&& es@[2].key@ == "index"@
            &&& es@[2].value == DocValue::Int(t.index as i64)
        },
        _ => false,
    }
}

/// `v` is exactly the encoded form of the task sequence `ts`.
pub open spec fn is_task_list_doc(v: DocValue, ts: Seq<Task>) -> bool {
    match v {
        DocValue::List(vs) => vs@.len() == ts.len() && forall|i: int|
            0 <= i < ts.len() ==> is_task_doc(#[trigger] vs@[i], ts[i]),
        _ => false,
    }
}

/// `v` is exactly the encoded form of the task list `d`: `name` first,
/// `tasks` second, and `is_child` only when it is true.
pub open spec fn is_project_data_doc(v: DocValue, d: ProjectData) -> bool {
    match v {
        DocValue::Table(es) => {
            &&& es@.len() == if d.is_child {
                3int
            } else {
                2int
            }
            &&& es@[0].key@ == "name"@
            &&& es@[0].value == DocValue::Text(d.name)
            &&& es@[1].key@ == "tasks"@
            &&& is_task_list_doc(es@[1].value, d.tasks@)
            &&& (d.is_child ==> es@[2].key@ == "is_child"@ && es@[2].value == DocValue::Flag(
                true,
            ))
        },
        _ => false,
    }
}

/// Encodes one task as a three-entry table.
pub fn task_to_doc(t: &Task) -> (r: DocValue)
    requires
        t.index as int <= i64::MAX as int,
    ensures
        is_task_doc(r, *t),
{
    let mut es: Vec<DocEntry> = Vec::new();
    es.push(DocEntry { key: "desc".to_owned(), value: DocValue::Text(t.desc.clone()) });
    es.push(DocEntry { key: "completed".to_owned(), value: DocValue::Flag(t.completed) });
    es.push(DocEntry { key: "index".to_owned(), value: DocValue::Int(t.index as i64) });
    DocValue::Table(es)
}

/// Encodes a task list as a document table; `is_child` is emitted only
/// when true, so a root list's file stays terse and an absent flag keeps
/// meaning "not a child".
pub fn project_data_to_doc(d: &ProjectData) -> (r: DocValue)
    requires
        forall|i: int| 0 <= i < d.tasks@.len() ==> (#[trigger] d.tasks@[i]).index as int
            <= i64::MAX as int,
    ensures
        is_project_data_doc(r, *d),
{
    let mut items: Vec<DocValue> = Vec::new();
    let mut i: usize = 0;
    let n = d.tasks.len();
    while i < n
        invariant
            0 <= i <= n,
            n == d.tasks@.len(),
            items@.len() == i,
            forall|j: int| 0 <= j < d.tasks@.len() ==> (#[trigger] d.tasks@[j]).index as int
                <= i64::MAX as int,
            forall|j: int| 0 <= j < i ==> is_task_doc(#[trigger] items@[j], d.tasks@[j]),
        decreases n - i,
    {
        items.push(task_to_doc(&d.tasks[i]));
        i += 1;
    }
    let mut es: Vec<DocEntry> = Vec::new();
    es.push(DocEntry { key: "name".to_owned(), value: DocValue::Text(d.name.clone()) });
    es.push(DocEntry { key: "tasks".to_owned(), value: DocValue::List(items) });
    if d.is_child {
        es.push(DocEntry { key: "is_child".to_owned(), value: DocValue::Flag(true) });
    }
    DocValue::Table(es)
}


/// Folds task-table entries in order, tracking which fields have been
/// seen: the first offending entry decides the error, `desc` and `name`
/// both set the description, and a negative or oversized `index` is
/// rejected as ill-typed.
pub open spec fn spec_task_fold(
    es: Seq<DocEntry>,
    desc: Option<String>,
    index: Option<i64>,
    completed: Option<bool>,
) -> Result<(Option<String>, Option<i64>, Option<bool>), DocErr>
    decreases es.len(),
{
    if es.len() == 0 {
        Ok((desc, index, completed))
    } else {
        let e = es.first();
        if e.key@ == "desc"@ || e.key@ == "name"@ {
            if desc is Some {
                Err(DocErr::Duplicate { field: "desc/name"@ })
            } else {
                match e.value {
                    DocValue::Text(s) => spec_task_fold(es.drop_first(), Some(s), index, completed),
                    _ => Err(DocErr::WrongType { field: e.key@ }),
                }
            }
        } else if e.key@ == "index"@ {
            if index is Some {
                Err(DocErr::Duplicate { field: "index"@ })
            } else {
                match e.value {
                    DocValue::Int(v) => if 0 <= v as int && v as int <= usize::MAX as int {
                        spec_task_fold(es.drop_first(), desc, Some(v), completed)
                    } else {
                        Err(DocErr::WrongType { field: "index"@ })
                    },
                    _ => Err(DocErr::WrongType { field: "index"@ }),
                }
            }
        } else if e.key@ == "completed"@ {
            if completed is Some {
                Err(DocErr::Duplicate { field: "completed"@ })
            } else {
                match e.value {
                    DocValue::Flag(b) => spec_task_fold(es.drop_first(), desc, index, Some(b)),
                    _ => Err(DocErr::WrongType { field: "completed"@ }),
                }
            }
        } else {
            Err(DocErr::Unknown { field: e.key@ })
        }
    }
}

/// What decoding one task document yields: the folded fields, with a
/// missing description, index or completion flag reported in that order.
pub open spec fn spec_task_from_doc(v: DocValue) -> Result<Task, DocErr> {
    match v {
        DocValue::Table(es) => match spec_task_fold(es@, None, None, None) {
            Ok((d, ix, c)) => if d is None {
                Err(DocErr::Missing { field: "desc or name"@ })
            } else if ix is None {
                Err(DocErr::Missing { field: "index"@ })
            } else if c is None {
                Err(DocErr::Missing { field: "completed"@ })
            } else {
                Ok(Task { desc: d.unwrap(), index: ix.unwrap() as usize, completed: c.unwrap() })
            },
            Err(e) => Err(e),
        },
        _ => Err(DocErr::NotTable),
    }
}

/// What decoding a list of task documents yields: the tasks in order, or
/// the first element's error.
pub open spec fn spec_tasks_from_list(vs: Seq<DocValue>) -> Result<Seq<Task>, DocErr>
    decreases vs.len(),
{
    if vs.len() == 0 {
        Ok(Seq::empty())
    } else {
        match spec_task_from_doc(vs.first()) {
            Ok(t) => match spec_tasks_from_list(vs.drop_first()) {
                Ok(rest) => Ok(seq![t] + rest),
                Err(e) => Err(e),
            },
            Err(e) => Err(e),
        }
    }
}

/// Folds top-level entries in order, tracking which fields have been seen.
pub open spec fn spec_data_fold(
    es: Seq<DocEntry>,
    name: Option<String>,
    tasks: Option<Seq<Task>>,
    is_child: Option<bool>,
) -> Result<(Option<String>, Option<Seq<Task>>, Option<bool>), DocErr>
    decreases es.len(),
{
    if es.len() == 0 {
        Ok((name, tasks, is_child))
    } else {
        let e = es.first();
        if e.key@ == "name"@ {
            if name is Some {
                Err(DocErr::Duplicate { field: "name"@ })
            } else {
                match e.value {
                    DocValue::Text(s) => spec_data_fold(es.drop_first(), Some(s), tasks, is_child),
                    _ => Err(DocErr::WrongType { field: "name"@ }),
                }
            }
        } else if e.key@ == "tasks"@ {
            if tasks is Some {
                Err(DocErr::Duplicate { field: "tasks"@ })
            } else {
                match e.value {
                    DocValue::List(vs) => match spec_tasks_from_list(vs@) {
                        Ok(ts) => spec_data_fold(es.drop_first(), name, Some(ts), is_child),
                        Err(err) => Err(err),
                    },
                    _ => Err(DocErr::WrongType { field: "tasks"@ }),
                }
            }
        } else if e.key@ == "is_child"@ {
            if is_child is Some {
                Err(DocErr::Duplicate { field: "is_child"@ })
            } else {
                match e.value {
                    DocValue::Flag(b) => spec_data_fold(es.drop_first(), name, tasks, Some(b)),
                    _ => Err(DocErr::WrongType { field: "is_child"@ }),
                }
            }
        } else {
            Err(DocErr::Unknown { field: e.key@ })
        }
    }
}

/// What decoding a whole task-list document yields: `name` and `tasks`
/// are required, an absent `is_child` means false.
pub open spec fn spec_data_from_doc(v: DocValue) -> Result<(String, Seq<Task>, bool), DocErr> {
    match v {
        DocValue::Table(es) => match spec_data_fold(es@, None, None, None) {
            Ok((n, ts, c)) => if n is None {
                Err(DocErr::Missing { field: "name"@ })
            } else if ts is None {
                Err(DocErr::Missing { field: "tasks"@ })
            } else {
                Ok((n.unwrap(), ts.unwrap(), if c is Some { c.unwrap() } else { false }))
            },
            Err(e) => Err(e),
        },
        _ => Err(DocErr::NotTable),
    }
}


/// Decodes one task from a task-table document.
pub fn task_from_doc(v: &DocValue) -> (r: Result<Task, Error>)
    ensures
        match spec_task_from_doc(*v) {
            Ok(t) => r matches Ok(rt) && rt == t,
            Err(de) => r matches Err(e) && doc_err_matches(e, de),
        },
{
    let es: &Vec<DocEntry> = match v {
        DocValue::Table(es) => es,
        _ => {
            return Err(Error::Syntax { message: "expected a table".to_owned() });
        },
    };
    let mut desc: Option<String> = None;
    let mut index: Option<i64> = None;
    let mut completed: Option<bool> = None;
    let mut i: usize = 0;
    let n = es.len();
    proof {
        assert(es@.skip(0) =~= es@);
    }
    while i < n
        invariant
            0 <= i <= es@.len(),
            n == es@.len(),
            *v matches DocValue::Table(inner) && inner@ == es@,
            spec_task_fold(es@, None, None, None) == spec_task_fold(
                es@.skip(i as int),
                desc,
                index,
                completed,
            ),
        decreases n - i,
    {
        proof {
            assert(es@.skip(i as int).first() == es@[i as int]);
            assert(es@.skip(i as int).drop_first() =~= es@.skip(i + 1));
        }
        let e = &es[i];
        if str_eq(e.key.as_str(), "desc") || str_eq(e.key.as_str(), "name") {
            if desc.is_some() {
                return Err(Error::DuplicateField { field: "desc/name".to_owned() });
            }
            match &e.value {
                DocValue::Text(s) => {
                    desc = Some(s.clone());
                },
                _ => {
                    return Err(Error::InvalidFieldType { field: e.key.clone() });
                },
            }
        } else if str_eq(e.key.as_str(), "index") {
            if index.is_some() {
                return Err(Error::DuplicateField { field: "index".to_owned() });
            }
            match &e.value {
                DocValue::Int(iv) => {
                    let val = *iv;
                    if val >= 0 && (val as u64) <= (usize::MAX as u64) {
                        index = Some(val);
                    } else {
                        return Err(Error::InvalidFieldType { field: "index".to_owned() });
                    }
                },
                _ => {
                    return Err(Error::InvalidFieldType { field: "index".to_owned() });
                },
            }
        } else if str_eq(e.key.as_str(), "completed") {
            if completed.is_some() {
                return Err(Error::DuplicateField { field: "completed".to_owned() });
            }
            match &e.value {
                DocValue::Flag(b) => {
                    completed = Some(*b);
                },
                _ => {
                    return Err(Error::InvalidFieldType { field: "completed".to_owned() });
                },
            }
        } else {
            return Err(Error::UnknownField { field: e.key.clone() });
        }
        i += 1;
    }
    proof {
        assert(es@.skip(es@.len() as int) =~= Seq::<DocEntry>::empty());
    }
    let desc = match desc {
        Some(s) => s,
        None => {
            return Err(Error::MissingField { field: "desc or name".to_owned() });
        },
    };
    let index = match index {
        Some(iv) => iv as usize,
        None => {
            return Err(Error::MissingField { field: "index".to_owned() });
        },
    };
    let completed = match completed {
        Some(b) => b,
        None => {
            return Err(Error::MissingField { field: "completed".to_owned() });
        },
    };
    Ok(Task { desc, index, completed })
}

/// Decodes a list of task documents, stopping at the first bad element.
pub fn tasks_from_list(vs: &Vec<DocValue>) -> (r: Result<Vec<Task>, Error>)
    ensures
        match spec_tasks_from_list(vs@) {
            Ok(ts) => r matches Ok(rts) && rts@ == ts,
            Err(de) => r matches Err(e) && doc_err_matches(e, de),
        },
{
    let mut out: Vec<Task> = Vec::new();
    let mut i: usize = 0;
    let n = vs.len();
    proof {
        assert(vs@.skip(0) =~= vs@);
    }
    while i < n
        invariant
            0 <= i <= vs@.len(),
            n == vs@.len(),
            spec_tasks_from_list(vs@) == match spec_tasks_from_list(vs@.skip(i as int)) {
                Ok(rest) => Ok(out@ + rest),
                Err(e) => Err(e),
            },
        decreases n - i,
    {
        proof {
            assert(vs@.skip(i as int).first() == vs@[i as int]);
            assert(vs@.skip(i as int).drop_first() =~= vs@.skip(i + 1));
        }
        match task_from_doc(&vs[i]) {
            Ok(t) => {
                let ghost prev = out@;
                out.push(t);
                proof {
                    match spec_tasks_from_list(vs@.skip(i + 1)) {
                        Ok(rest) => {
                            assert(prev + (seq![t] + rest) =~= out@ + rest);
                        },
                        Err(_) => {},
                    }
                }
            },
            Err(e) => {
                return Err(e);
            },
        }
        i += 1;
    }
    proof {
        assert(vs@.skip(vs@.len() as int) =~= Seq::<DocValue>::empty());
        assert(out@ + Seq::<Task>::empty() =~= out@);
    }
    Ok(out)
}


/// Decodes a whole task-list document: `name` and `tasks` are required,
/// `desc` is accepted for a task's description alongside the legacy
/// `name` spelling, and an absent `is_child` means "not a child".
pub fn project_data_from_doc(v: &DocValue) -> (r: Result<ProjectData, Error>)
    ensures
        match spec_data_from_doc(*v) {
            Ok((n, ts, c)) => r matches Ok(pd) && pd.name == n && pd.tasks@ == ts && pd.is_child
                == c,
            Err(de) => r matches Err(e) && doc_err_matches(e, de),
        },
{
    let es: &Vec<DocEntry> = match v {
        DocValue::Table(es) => es,
        _ => {
            return Err(Error::Syntax { message: "expected a table".to_owned() });
        },
    };
    let mut name: Option<String> = None;
    let mut tasks: Option<Vec<Task>> = None;
    let ghost mut tasks_spec: Option<Seq<Task>> = None;
    let mut is_child: Option<bool> = None;
    let mut i: usize = 0;
    let n = es.len();
    proof {
        assert(es@.skip(0) =~= es@);
    }
    while i < n
        invariant
            0 <= i <= es@.len(),
            n == es@.len(),
            *v matches DocValue::Table(inner) && inner@ == es@,
            match (tasks, tasks_spec) {
                (Some(tv), Some(ts)) => tv@ == ts,
                (None, None) => true,
                _ => false,
            },
            spec_data_fold(es@, None, None, None) == spec_data_fold(
                es@.skip(i as int),
                name,
                tasks_spec,
                is_child,
            ),
        decreases n - i,
    {
        proof {
            assert(es@.skip(i as int).first() == es@[i as int]);
            assert(es@.skip(i as int).drop_first() =~= es@.skip(i + 1));
        }
        let e = &es[i];
        if str_eq(e.key.as_str(), "name") {
            if name.is_some() {
                return Err(Error::DuplicateField { field: "name".to_owned() });
            }
            match &e.value {
                DocValue::Text(s) => {
                    name = Some(s.clone());
                },
                _ => {
                    return Err(Error::InvalidFieldType { field: "name".to_owned() });
                },
            }
        } else if str_eq(e.key.as_str(), "tasks") {
            if tasks.is_some() {
                return Err(Error::DuplicateField { field: "tasks".to_owned() });
            }
            match &e.value {
                DocValue::List(vs) => {
                    match tasks_from_list(vs) {
                        Ok(ts) => {
                            proof {
                                tasks_spec = Some(ts@);
                            }
                            tasks = Some(ts);
                        },
                        Err(err) => {
                            return Err(err);
                        },
                    }
                },
                _ => {
                    return Err(Error::InvalidFieldType { field: "tasks".to_owned() });
                },
            }
        } else if str_eq(e.key.as_str(), "is_child") {
            if is_child.is_some() {
                return Err(Error::DuplicateField { field: "is_child".to_owned() });
            }
            match &e.value {
                DocValue::Flag(b) => {
                    is_child = Some(*b);
                },
                _ => {
                    return Err(Error::InvalidFieldType { field: "is_child".to_owned() });
                },
            }
        } else {
            return Err(Error::UnknownField { field: e.key.clone() });
        }
        i += 1;
    }
    proof {
        assert(es@.skip(es@.len() as int) =~= Seq::<DocEntry>::empty());
    }
    let name = match name {
        Some(s) => s,
        None => {
            return Err(Error::MissingField { field: "name".to_owned() });
        },
    };
    let tasks = match tasks {
        Some(ts) => ts,
        None => {
            return Err(Error::MissingField { field: "tasks".to_owned() });
        },
    };
    let is_child = match is_child {
        Some(b) => b,
        None => false,
    };
    Ok(ProjectData { name, tasks, is_child })
}


/// Decoding undoes encoding for one task.
pub proof fn lemma_task_round_trip(v: DocValue, t: Task)
    requires
        is_task_doc(v, t),
        t.index as int <= i64::MAX as int,
    ensures
        spec_task_from_doc(v) == Ok::<Task, DocErr>(t),
{
    broadcast use vstd::string::group_string_axioms;

    reveal_strlit("desc");
    reveal_strlit("name");
    reveal_strlit("completed");
    reveal_strlit("index");
    assert("desc"@.len() == 4);
    assert("name"@.len() == 4);
    assert("completed"@.len() == 9);
    assert("index"@.len() == 5);
    assert("completed"@ != "desc"@);
    assert("completed"@ != "name"@);
    assert("index"@ != "desc"@);
    assert("index"@ != "name"@);
    assert("index"@ != "completed"@);
    match v {
        DocValue::Table(es) => {
            let s0 = es@;
            let s1 = s0.drop_first();
            let s2 = s1.drop_first();
            let s3 = s2.drop_first();
            assert(s1.first() == s0[1]);
            assert(s2.first() == s0[2]);
            assert(s3.len() == 0);
            assert(spec_task_fold(s0, None, None, None) == spec_task_fold(
                s1,
                Some(t.desc),
                None,
                None,
            ));
            assert(spec_task_fold(s1, Some(t.desc), None, None) == spec_task_fold(
                s2,
                Some(t.desc),
                None,
                Some(t.completed),
            ));
            assert(0 <= (t.index as i64) as int <= usize::MAX as int);
            assert(spec_task_fold(s2, Some(t.desc), None, Some(t.completed)) == spec_task_fold(
                s3,
                Some(t.desc),
                Some(t.index as i64),
                Some(t.completed),
            ));
            assert(spec_task_from_doc(v) == Ok::<Task, DocErr>(
                Task { desc: t.desc, index: (t.index as i64) as usize, completed: t.completed },
            ));
            assert((t.index as i64) as usize == t.index);
        },
        _ => {},
    }
}

/// Decoding undoes encoding for a task list's elements.
pub proof fn lemma_task_list_round_trip(vs: Seq<DocValue>, ts: Seq<Task>)
    requires
        vs.len() == ts.len(),
        forall|i: int| 0 <= i < ts.len() ==> is_task_doc(#[trigger] vs[i], ts[i]),
        forall|i: int| 0 <= i < ts.len() ==> (#[trigger] ts[i]).index as int <= i64::MAX as int,
    ensures
        spec_tasks_from_list(vs) == Ok::<Seq<Task>, DocErr>(ts),
    decreases vs.len(),
{
    if vs.len() == 0 {
        assert(ts =~= Seq::<Task>::empty());
    } else {
        lemma_task_round_trip(vs[0], ts[0]);
        assert(forall|i: int|
            0 <= i < ts.drop_first().len() ==> is_task_doc(
                #[trigger] vs.drop_first()[i],
                ts.drop_first()[i],
            ));
        lemma_task_list_round_trip(vs.drop_first(), ts.drop_first());
        assert(seq![ts[0]] + ts.drop_first() =~= ts);
    }
}

/// The codec's round trip: decoding the document that encoding produced
/// yields the same name, the same tasks in order, and the same child flag,
/// with an omitted `is_child` read back as false.
pub proof fn lemma_doc_round_trip(doc: DocValue, d: ProjectData)
    requires
        is_project_data_doc(doc, d),
        forall|i: int| 0 <= i < d.tasks@.len() ==> (#[trigger] d.tasks@[i]).index as int
            <= i64::MAX as int,
    ensures
        spec_data_from_doc(doc) == Ok::<(String, Seq<Task>, bool), DocErr>((d.name, d.tasks@, d.is_child)),
{
    broadcast use vstd::string::group_string_axioms;

    reveal_strlit("name");
    reveal_strlit("tasks");
    reveal_strlit("is_child");
    assert("name"@.len() == 4);
    assert("tasks"@.len() == 5);
    assert("is_child"@.len() == 8);
    assert("tasks"@ != "name"@);
    assert("is_child"@ != "name"@);
    assert("is_child"@ != "tasks"@);
    match doc {
        DocValue::Table(es) => {
            let s0 = es@;
            let s1 = s0.drop_first();
            let s2 = s1.drop_first();
            assert(s1.first() == s0[1]);
            assert(spec_data_fold(s0, None, None, None) == spec_data_fold(
                s1,
                Some(d.name),
                None,
                None,
            ));
            match s0[1].value {
                DocValue::List(vs) => {
                    lemma_task_list_round_trip(vs@, d.tasks@);
                },
                _ => {},
            }
            assert(spec_data_fold(s1, Some(d.name), None, None) == spec_data_fold(
                s2,
                Some(d.name),
                Some(d.tasks@),
                None,
            ));
            if d.is_child {
                let s3 = s2.drop_first();
                assert(s2.first() == s0[2]);
                assert(s3.len() == 0);
                assert(spec_data_fold(s2, Some(d.name), Some(d.tasks@), None) == spec_data_fold(
                    s3,
                    Some(d.name),
                    Some(d.tasks@),
                    Some(true),
                ));
            } else {
                assert(s2.len() == 0);
            }
        },
        _ => {},
    }
}


/// A document value as a plain mathematical tree: strings by their
/// characters, tables and lists by their elements in order.
pub enum DocView {
    Text(Seq<char>),
    Int(int),
    Flag(bool),
    List(Seq<DocView>),
    Table(Seq<(Seq<char>, DocView)>),
    Other,
}

impl DocValue {
    /// The mathematical tree a document value stands for.
    pub open spec fn view_of(self) -> DocView
        decreases self,
    {
        match self {
            DocValue::Text(s) => DocView::Text(s@),
            DocValue::Int(i) => DocView::Int(i as int),
            DocValue::Flag(b) => DocView::Flag(b),
            DocValue::List(items) => DocView::List(DocValue::views_of(items@)),
            DocValue::Table(es) => DocView::Table(DocValue::entry_views_of(es@)),
            DocValue::Other => DocView::Other,
        }
    }

    /// The trees of a sequence of document values, in order.
    pub open spec fn views_of(s: Seq<DocValue>) -> Seq<DocView>
        decreases s,
    {
        if s.len() == 0 {
            Seq::empty()
        } else {
            seq![s.first().view_of()] + DocValue::views_of(s.drop_first())
        }
    }

    /// The trees of a sequence of table entries, in order.
    pub open spec fn entry_views_of(s: Seq<DocEntry>) -> Seq<(Seq<char>, DocView)>
        decreases s,
    {
        if s.len() == 0 {
            Seq::empty()
        } else {
            seq![(s.first().key@, s.first().value.view_of())] + DocValue::entry_views_of(
                s.drop_first(),
            )
        }
    }
}

/// Appending one value appends its tree.
pub proof fn lemma_views_of_push(s: Seq<DocValue>, v: DocValue)
    ensures
        DocValue::views_of(s.push(v)) == DocValue::views_of(s).push(v.view_of()),
    decreases s.len(),
{
    if s.len() == 0 {
        assert(s.push(v).first() == v);
        assert(s.push(v).drop_first() =~= Seq::<DocValue>::empty());
        assert(DocValue::views_of(Seq::<DocValue>::empty()) =~= Seq::<DocView>::empty());
        assert(DocValue::views_of(s.push(v)) =~= seq![v.view_of()]);
        assert(DocValue::views_of(s).push(v.view_of()) =~= seq![v.view_of()]);
    } else {
        assert(s.push(v).first() == s.first());
        assert(s.push(v).drop_first() =~= s.drop_first().push(v));
        lemma_views_of_push(s.drop_first(), v);
        assert(seq![s.first().view_of()] + DocValue::views_of(s.drop_first()).push(v.view_of())
            =~= (seq![s.first().view_of()] + DocValue::views_of(s.drop_first())).push(
            v.view_of(),
        ));
    }
}

/// Appending one entry appends its tree.
pub proof fn lemma_entry_views_of_push(s: Seq<DocEntry>, e: DocEntry)
    ensures
        DocValue::entry_views_of(s.push(e)) == DocValue::entry_views_of(s).push(
            (e.key@, e.value.view_of()),
        ),
    decreases s.len(),
{
    if s.len() == 0 {
        assert(s.push(e).first() == e);
        assert(s.push(e).drop_first() =~= Seq::<DocEntry>::empty());
        assert(DocValue::entry_views_of(Seq::<DocEntry>::empty()) =~= Seq::<(Seq<char>,
        DocView)>::empty());
        assert(DocValue::entry_views_of(s.push(e)) =~= seq![(e.key@, e.value.view_of())]);
        assert(DocValue::entry_views_of(s).push((e.key@, e.value.view_of())) =~= seq![
            (e.key@, e.value.view_of()),
        ]);
    } else {
        assert(s.push(e).first() == s.first());
        assert(s.push(e).drop_first() =~= s.drop_first().push(e));
        lemma_entry_views_of_push(s.drop_first(), e);
        assert(seq![(s.first().key@, s.first().value.view_of())] + DocValue::entry_views_of(
            s.drop_first(),
        ).push((e.key@, e.value.view_of())) =~= (seq![(s.first().key@, s.first().value.view_of())]
            + DocValue::entry_views_of(s.drop_first())).push((e.key@, e.value.view_of())));
    }
}


/// The tree holds no `Other` value anywhere.
pub open spec fn view_has_no_other(dv: DocView) -> bool
    decreases dv,
{
    match dv {
        DocView::Other => false,
        DocView::List(items) => forall|i: int|
            0 <= i < items.len() ==> view_has_no_other(#[trigger] items[i]),
        DocView::Table(es) => forall|i: int|
            0 <= i < es.len() ==> view_has_no_other(#[trigger] es[i].1),
        _ => true,
    }
}

/// The tree of one task's encoded form.
pub open spec fn task_doc_view(t: Task) -> DocView {
    DocView::Table(
        seq![
            ("desc"@, DocView::Text(t.desc@)),
            ("completed"@, DocView::Flag(t.completed)),
            ("index"@, DocView::Int(t.index as int)),
        ],
    )
}

/// The tree of a task list's encoded form: what any document satisfying
/// `is_project_data_doc` looks like, key strings aside.
pub open spec fn project_data_doc_view(d: ProjectData) -> DocView {
    DocView::Table(
        seq![
            ("name"@, DocView::Text(d.name@)),
            ("tasks"@, DocView::List(d.tasks@.map_values(|t: Task| task_doc_view(t)))),
        ] + if d.is_child {
            seq![("is_child"@, DocView::Flag(true))]
        } else {
            Seq::empty()
        },
    )
}

/// The encoded form of a task sequence has the tree its tasks prescribe.
proof fn lemma_task_list_doc_view(vs: Seq<DocValue>, ts: Seq<Task>)
    requires
        vs.len() == ts.len(),
        forall|i: int| 0 <= i < ts.len() ==> is_task_doc(#[trigger] vs[i], ts[i]),
        forall|i: int| 0 <= i < ts.len() ==> (#[trigger] ts[i]).index as int <= i64::MAX as int,
    ensures
        DocValue::views_of(vs) == ts.map_values(|t: Task| task_doc_view(t)),
    decreases vs.len(),
{
    if vs.len() == 0 {
        assert(DocValue::views_of(vs) =~= ts.map_values(|t: Task| task_doc_view(t)));
    } else {
        lemma_task_doc_view(vs[0], ts[0]);
        assert(forall|i: int|
            0 <= i < ts.drop_first().len() ==> is_task_doc(
                #[trigger] vs.drop_first()[i],
                ts.drop_first()[i],
            ));
        assert(forall|i: int|
            0 <= i < ts.drop_first().len() ==> (#[trigger] ts.drop_first()[i]).index as int
                <= i64::MAX as int);
        lemma_task_list_doc_view(vs.drop_first(), ts.drop_first());
        assert(DocValue::views_of(vs) =~= ts.map_values(|t: Task| task_doc_view(t)));
    }
}

/// The encoded form of one task has the tree the task prescribes.
proof fn lemma_task_doc_view(v: DocValue, t: Task)
    requires
        is_task_doc(v, t),
        t.index as int <= i64::MAX as int,
    ensures
        v.view_of() == task_doc_view(t),
{
    match v {
        DocValue::Table(es) => {
            let s0 = es@;
            let s1 = s0.drop_first();
            let s2 = s1.drop_first();
            let s3 = s2.drop_first();
            assert(s1.first() == s0[1]);
            assert(s2.first() == s0[2]);
            assert(s3.len() == 0);
            assert(DocValue::entry_views_of(s3) =~= Seq::<(Seq<char>, DocView)>::empty());
            assert(s0[0].value.view_of() == DocView::Text(t.desc@));
            assert(s0[1].value.view_of() == DocView::Flag(t.completed));
            assert(s0[2].value.view_of() == DocView::Int(t.index as int));
            assert(DocValue::entry_views_of(s2) == seq![(s2.first().key@, s2.first().value.view_of())]
                + DocValue::entry_views_of(s3));
            assert(DocValue::entry_views_of(s2) =~= seq![("index"@, DocView::Int(t.index as int))]);
            assert(DocValue::entry_views_of(s1) == seq![(s1.first().key@, s1.first().value.view_of())]
                + DocValue::entry_views_of(s2));
            assert(DocValue::entry_views_of(s1) =~= seq![
                ("completed"@, DocView::Flag(t.completed)),
                ("index"@, DocView::Int(t.index as int)),
            ]);
            assert(DocValue::entry_views_of(s0) == seq![(s0.first().key@, s0.first().value.view_of())]
                + DocValue::entry_views_of(s1));
            assert(DocValue::entry_views_of(s0) =~= seq![
                ("desc"@, DocView::Text(t.desc@)),
                ("completed"@, DocView::Flag(t.completed)),
                ("index"@, DocView::Int(t.index as int)),
            ]);
        },
        _ => {},
    }
}

/// The encoded form of a task list has the tree the list prescribes.
pub proof fn lemma_project_data_doc_view(doc: DocValue, d: ProjectData)
    requires
        is_project_data_doc(doc, d),
        forall|i: int| 0 <= i < d.tasks@.len() ==> (#[trigger] d.tasks@[i]).index as int
            <= i64::MAX as int,
    ensures
        doc.view_of() == project_data_doc_view(d),
{
    match doc {
        DocValue::Table(es) => {
            let s0 = es@;
            let s1 = s0.drop_first();
            let s2 = s1.drop_first();
            assert(s1.first() == s0[1]);
            match s0[1].value {
                DocValue::List(vs) => {
                    lemma_task_list_doc_view(vs@, d.tasks@);
                },
                _ => {},
            }
            if d.is_child {
                let s3 = s2.drop_first();
                assert(s2.first() == s0[2]);
                assert(s3.len() == 0);
                assert(DocValue::entry_views_of(s3) =~= Seq::<(Seq<char>, DocView)>::empty());
                assert(s0[2].value.view_of() == DocView::Flag(true));
                assert(DocValue::entry_views_of(s2) == seq![
                    (s2.first().key@, s2.first().value.view_of()),
                ] + DocValue::entry_views_of(s3));
                assert(DocValue::entry_views_of(s2) =~= seq![("is_child"@, DocView::Flag(true))]);
            } else {
                assert(s2.len() == 0);
                assert(DocValue::entry_views_of(s2) =~= Seq::<(Seq<char>, DocView)>::empty());
            }
            assert(DocValue::entry_views_of(s1) =~= seq![
                (s0[1].key@, s0[1].value.view_of()),
            ] + DocValue::entry_views_of(s2));
            assert(DocValue::entry_views_of(s0) =~= seq![
                (s0[0].key@, s0[0].value.view_of()),
            ] + DocValue::entry_views_of(s1));
            match project_data_doc_view(d) {
                DocView::Table(want) => {
                    assert(DocValue::entry_views_of(s0) =~= want);
                },
                _ => {},
            }
        },
        _ => {},
    }
}


/// A document the TOML form can hold: no `Other` value anywhere.
pub open spec fn doc_encodable(d: DocValue) -> bool
    decreases d,
{
    match d {
        DocValue::Other => false,
        DocValue::List(items) => forall|i: int|
            0 <= i < items@.len() ==> doc_encodable(#[trigger] items@[i]),
        DocValue::Table(es) => forall|i: int|
            0 <= i < es@.len() ==> doc_encodable(#[trigger] es@[i].value),
        _ => true,
    }
}

/// Every table anywhere in the document has pairwise distinct keys.
pub open spec fn doc_keys_distinct(d: DocValue) -> bool
    decreases d,
{
    match d {
        DocValue::List(items) => forall|i: int|
            0 <= i < items@.len() ==> doc_keys_distinct(#[trigger] items@[i]),
        DocValue::Table(es) => {
            &&& forall|i: int, j: int|
                0 <= i < j < es@.len() ==> (#[trigger] es@[i].key)@ != (#[trigger] es@[j].key)@
            &&& forall|i: int| 0 <= i < es@.len() ==> doc_keys_distinct(#[trigger] es@[i].value)
        },
        _ => true,
    }
}

/// `views_of` and `entry_views_of` map their sequences element by element.
pub proof fn lemma_views_of_index(s: Seq<DocValue>)
    ensures
        DocValue::views_of(s).len() == s.len(),
        forall|i: int| 0 <= i < s.len() ==> DocValue::views_of(s)[i] == (#[trigger] s[i]).view_of(),
    decreases s.len(),
{
    if s.len() > 0 {
        lemma_views_of_index(s.drop_first());
        assert forall|i: int| 0 <= i < s.len() implies DocValue::views_of(s)[i] == (
        #[trigger] s[i]).view_of() by {
            if i > 0 {
                assert(s.drop_first()[i - 1] == s[i]);
                assert(DocValue::views_of(s)[i] == DocValue::views_of(s.drop_first())[i - 1]);
            }
        }
    }
}

/// See `lemma_views_of_index`.
pub proof fn lemma_entry_views_of_index(s: Seq<DocEntry>)
    ensures
        DocValue::entry_views_of(s).len() == s.len(),
        forall|i: int|
            0 <= i < s.len() ==> DocValue::entry_views_of(s)[i] == ((#[trigger] s[i]).key@, s[i].value.view_of()),
    decreases s.len(),
{
    if s.len() > 0 {
        lemma_entry_views_of_index(s.drop_first());
        assert forall|i: int| 0 <= i < s.len() implies DocValue::entry_views_of(s)[i] == ((
        #[trigger] s[i]).key@, s[i].value.view_of()) by {
            if i > 0 {
                assert(s.drop_first()[i - 1] == s[i]);
                assert(DocValue::entry_views_of(s)[i] == DocValue::entry_views_of(s.drop_first())[i
                    - 1]);
            }
        }
    }
}

/// A document without `Other` values has a tree without `Other` nodes.
pub proof fn lemma_encodable_view_no_other(d: DocValue)
    requires
        doc_encodable(d),
    ensures
        view_has_no_other(d.view_of()),
    decreases d,
{
    match d {
        DocValue::List(items) => {
            lemma_views_of_index(items@);
            match d.view_of() {
                DocView::List(vviews) => {
                    assert forall|i: int| 0 <= i < vviews.len() implies view_has_no_other(
                        #[trigger] vviews[i],
                    ) by {
                        assert(vviews[i] == items@[i].view_of());
                        lemma_encodable_view_no_other(items@[i]);
                    }
                },
                _ => {},
            }
        },
        DocValue::Table(es) => {
            lemma_entry_views_of_index(es@);
            match d.view_of() {
                DocView::Table(eviews) => {
                    assert forall|i: int| 0 <= i < eviews.len() implies view_has_no_other(
                        #[trigger] eviews[i].1,
                    ) by {
                        assert(eviews[i].1 == es@[i].value.view_of());
                        lemma_encodable_view_no_other(es@[i].value);
                    }
                },
                _ => {},
            }
        },
        _ => {},
    }
}

/// The encoded form of a task list has distinct keys in every table.
pub proof fn lemma_project_doc_keys_distinct(doc: DocValue, d: ProjectData)
    requires
        is_project_data_doc(doc, d),
    ensures
        doc_keys_distinct(doc),
{
    broadcast use vstd::string::group_string_axioms;

    reveal_strlit("name");
    reveal_strlit("tasks");
    reveal_strlit("is_child");
    reveal_strlit("desc");
    reveal_strlit("completed");
    reveal_strlit("index");
    assert("name"@.len() == 4);
    assert("tasks"@.len() == 5);
    assert("is_child"@.len() == 8);
    assert("desc"@.len() == 4);
    assert("completed"@.len() == 9);
    assert("index"@.len() == 5);
    assert("name"@ != "tasks"@);
    assert("name"@ != "is_child"@);
    assert("tasks"@ != "is_child"@);
    assert("desc"@ != "completed"@);
    assert("desc"@ != "index"@);
    assert("completed"@ != "index"@);
    match doc {
        DocValue::Table(es) => {
            match es@[1].value {
                DocValue::List(vs) => {
                    assert forall|i: int| 0 <= i < vs@.len() implies doc_keys_distinct(
                        #[trigger] vs@[i],
                    ) by {
                        assert(is_task_doc(vs@[i], d.tasks@[i]));
                        match vs@[i] {
                            DocValue::Table(fs) => {
                                assert(doc_keys_distinct(fs@[0].value));
                                assert(doc_keys_distinct(fs@[1].value));
                                assert(doc_keys_distinct(fs@[2].value));
                            },
                            _ => {},
                        }
                    }
                },
                _ => {},
            }
            assert(doc_keys_distinct(es@[0].value));
            assert(doc_keys_distinct(es@[1].value));
            if d.is_child {
                assert(doc_keys_distinct(es@[2].value));
            }
        },
        _ => {},
    }
}

} // verus!
