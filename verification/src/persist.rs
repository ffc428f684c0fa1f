//! Reading and writing the persisted text form of a task list.
//!
//! The text format is TOML; the `toml` crate parses and renders it behind
//! the trusted wrappers below, each of which only converts between the
//! crate's values and the plain document model of [`crate::codec`]. All
//! schema logic — which fields exist, the `desc`/`name` aliasing, missing,
//! duplicate and unknown fields — is the verified codec's.
//!
//! A parsed `toml::Value` is opaque to the verifier, so what one holds is
//! written as an uninterpreted tree, [`toml_value_model`]; what parsing a
//! given text yields is likewise the name [`toml_doc_of`]. The wrappers
//! state how each call relates to those names, and everything after the
//! calls is verified against them.
use vstd::prelude::*;

use crate::codec::doc_encodable;
use crate::codec::doc_err_matches;
use crate::codec::doc_keys_distinct;
use crate::codec::is_project_data_doc;
use crate::codec::is_task_doc;
use crate::codec::is_task_list_doc;
use crate::codec::lemma_encodable_view_no_other;
use crate::codec::lemma_entry_views_of_index;
use crate::codec::lemma_entry_views_of_push;
use crate::codec::lemma_project_data_doc_view;
use crate::codec::lemma_project_doc_keys_distinct;
use crate::codec::lemma_views_of_index;
use crate::codec::lemma_views_of_push;
use crate::codec::project_data_doc_view;
use crate::codec::project_data_from_doc;
use crate::codec::project_data_to_doc;
use crate::codec::spec_data_from_doc;
use crate::codec::view_has_no_other;
use crate::codec::DocEntry;
use crate::codec::DocValue;
use crate::codec::DocView;
use crate::error::Error;
use crate::project::ProjectData;

verus! {

#[verifier::external_type_specification]
#[verifier::external_body]
pub struct ExTomlValue(toml::Value);

/// The tree a parsed TOML value holds: a name for `toml::Value`'s
/// contents, which the verifier cannot see. Strings appear by their
/// characters, tables by their entries in the order `toml::map::Map`
/// iterates them, and values of kinds the schema has no use for (floats,
/// datetimes) as `Other`.
pub uninterp spec fn toml_value_model(v: toml::Value) -> DocView;

/// What parsing the text `s` as TOML yields: the parsed table's tree, or
/// nothing when the text is rejected. The `toml` crate's parse is a
/// function of the text alone, so the result can be named.
pub uninterp spec fn toml_doc_of(s: Seq<char>) -> Option<DocView>;

/// What rendering a table with the given tree yields: its TOML text, or
/// nothing when rendering fails. Where the tree holds no `Other` node it
/// determines the table handed to the renderer, and the `toml` crate's
/// output is a function of that table alone, so the result can be named.
pub uninterp spec fn toml_render_of(dv: DocView) -> Option<Seq<char>>;

/// One level of a TOML value, handed over as plain parts.
enum TomlNode {
    Text(String),
    Int(i64),
    Flag(bool),
    List(Vec<toml::Value>),
    Entries(Vec<(String, toml::Value)>),
    Other,
}

/// Relies on `toml::from_str` for `toml::Table`: parses TOML text into a
/// key-value table, rejecting ill-formed text and duplicate keys; the
/// entries are handed out as plain pairs, and what they hold is exactly
/// the parse of the text.
#[verifier::external_body]
fn toml_parse(s: &str) -> (r: Result<Vec<(String, toml::Value)>, String>)
    ensures
        match r {
            Ok(pairs) => toml_doc_of(s@) == Some(
                DocView::Table(
                    pairs@.map_values(
                        (|p: (String, toml::Value)| (p.0@, toml_value_model(p.1))),
                    ),
                ),
            ),
            Err(_) => toml_doc_of(s@) is None,
        },
{
    match toml::from_str::<toml::Table>(s) {
        Ok(t) => Ok(t.into_iter().collect()),
        Err(e) => Err(e.to_string()),
    }
}

/// Relies on `toml::to_string_pretty`: renders a key-value table as TOML
/// text that `toml::from_str` reads back.
#[verifier::external_body]
fn toml_render(entries: Vec<(String, toml::Value)>) -> (r: Result<String, String>)
    ensures
        view_has_no_other(
            DocView::Table(
                entries@.map_values((|p: (String, toml::Value)| (p.0@, toml_value_model(p.1)))),
            ),
        ) ==> match r {
            Ok(out) => toml_render_of(
                DocView::Table(
                    entries@.map_values(
                        (|p: (String, toml::Value)| (p.0@, toml_value_model(p.1))),
                    ),
                ),
            ) == Some(out@),
            Err(_) => toml_render_of(
                DocView::Table(
                    entries@.map_values(
                        (|p: (String, toml::Value)| (p.0@, toml_value_model(p.1))),
                    ),
                ),
            ) is None,
        },
{
    let table: toml::Table = entries.into_iter().collect();
    match toml::to_string_pretty(&table) {
        Ok(s) => Ok(s),
        Err(e) => Err(e.to_string()),
    }
}

/// Relies on `toml::Value` being the enum its source declares: each arm
/// moves one variant's payload out, a table as plain pairs, and what came
/// out is one level of the value's tree.
#[verifier::external_body]
fn toml_value_unpack(v: toml::Value) -> (r: TomlNode)
    ensures
        match r {
            TomlNode::Text(s) => toml_value_model(v) == DocView::Text(s@),
            TomlNode::Int(i) => toml_value_model(v) == DocView::Int(i as int),
            TomlNode::Flag(b) => toml_value_model(v) == DocView::Flag(b),
            TomlNode::List(items) => toml_value_model(v) == DocView::List(
                items@.map_values((|x: toml::Value| toml_value_model(x))),
            ),
            TomlNode::Entries(es) => toml_value_model(v) == DocView::Table(
                es@.map_values((|p: (String, toml::Value)| (p.0@, toml_value_model(p.1)))),
            ),
            TomlNode::Other => toml_value_model(v) == DocView::Other,
        },
{
    match v {
        toml::Value::String(s) => TomlNode::Text(s),
        toml::Value::Integer(i) => TomlNode::Int(i),
        toml::Value::Boolean(b) => TomlNode::Flag(b),
        toml::Value::Array(a) => TomlNode::List(a),
        toml::Value::Table(t) => TomlNode::Entries(t.into_iter().collect()),
        _ => TomlNode::Other,
    }
}

/// Relies on `toml::Value::String`: wraps a string as a TOML value.
#[verifier::external_body]
fn toml_value_text(s: String) -> (r: toml::Value)
    ensures
        toml_value_model(r) == DocView::Text(s@),
{
    toml::Value::String(s)
}

/// Relies on `toml::Value::Integer`: wraps an integer as a TOML value.
#[verifier::external_body]
fn toml_value_int(i: i64) -> (r: toml::Value)
    ensures
        toml_value_model(r) == DocView::Int(i as int),
{
    toml::Value::Integer(i)
}

/// Relies on `toml::Value::Boolean`: wraps a boolean as a TOML value.
#[verifier::external_body]
fn toml_value_flag(b: bool) -> (r: toml::Value)
    ensures
        toml_value_model(r) == DocView::Flag(b),
{
    toml::Value::Boolean(b)
}

/// Relies on `toml::Value::Array`: wraps a list of values as a TOML value,
/// keeping them in order.
#[verifier::external_body]
fn toml_value_list(items: Vec<toml::Value>) -> (r: toml::Value)
    ensures
        toml_value_model(r) == DocView::List(
            items@.map_values((|x: toml::Value| toml_value_model(x))),
        ),
{
    toml::Value::Array(items)
}

/// Relies on `toml::Value::Table`: wraps plain pairs as a TOML table
/// value. The map keeps insertion order, so with pairwise distinct keys
/// the table holds exactly the given pairs in the given order.
#[verifier::external_body]
fn toml_value_table(entries: Vec<(String, toml::Value)>) -> (r: toml::Value)
    ensures
        (forall|i: int, j: int|
            0 <= i < j < entries@.len() ==> (#[trigger] entries@[i]).0@ != (
            #[trigger] entries@[j]).0@) ==> toml_value_model(r) == DocView::Table(
            entries@.map_values((|p: (String, toml::Value)| (p.0@, toml_value_model(p.1)))),
        ),
{
    toml::Value::Table(entries.into_iter().collect())
}

/// Translates one parsed TOML value into the plain document model; the
/// result's tree is exactly the value's.
fn value_to_doc(v: toml::Value) -> (r: DocValue)
    ensures
        r.view_of() == toml_value_model(v),
    decreases toml_value_model(v),
{
    match toml_value_unpack(v) {
        TomlNode::Text(s) => DocValue::Text(s),
        TomlNode::Int(i) => DocValue::Int(i),
        TomlNode::Flag(b) => DocValue::Flag(b),
        TomlNode::List(items) => {
            let ghost items0 = items@;
            let ghost mseq = items0.map_values(|x: toml::Value| toml_value_model(x));
            let mut items = items;
            let mut out: Vec<DocValue> = Vec::new();
            proof {
                assert(items0.skip(0) =~= items0);
                assert(mseq.take(0) =~= Seq::<DocView>::empty());
                assert(DocValue::views_of(Seq::<DocValue>::empty()) =~= Seq::<DocView>::empty());
            }
            while items.len() > 0
                invariant
                    toml_value_model(v) == DocView::List(mseq),
                    mseq == items0.map_values(|x: toml::Value| toml_value_model(x)),
                    items0.len() == out@.len() + items@.len(),
                    items@ == items0.skip(out@.len() as int),
                    DocValue::views_of(out@) == mseq.take(out@.len() as int),
                decreases items@.len(),
            {
                let ghost k = out@.len() as int;
                proof {
                    assert(items0.skip(k).first() == items0[k]);
                    assert(items0.skip(k).drop_first() =~= items0.skip(k + 1));
                    assert(mseq[k] == toml_value_model(items0[k]));
                    let m = toml_value_model(v);
                    assert(m->List_0 == mseq);
                    assert(decreases_to!(m => m->List_0));
                    assert(decreases_to!(m->List_0 => m->List_0[k]));
                    assert(m->List_0[k] == toml_value_model(items0[k]));
                }
                let it = items.remove(0);
                let d = value_to_doc(it);
                let ghost outpre = out@;
                out.push(d);
                proof {
                    lemma_views_of_push(outpre, d);
                    assert(mseq.take(k + 1) =~= mseq.take(k).push(mseq[k]));
                }
            }
            proof {
                assert(mseq.take(out@.len() as int) =~= mseq);
            }
            DocValue::List(out)
        },
        TomlNode::Entries(entries) => {
            let ghost entries0 = entries@;
            let ghost mseq = entries0.map_values(
                |p: (String, toml::Value)| (p.0@, toml_value_model(p.1)),
            );
            let mut entries = entries;
            let mut out: Vec<DocEntry> = Vec::new();
            proof {
                assert(entries0.skip(0) =~= entries0);
                assert(mseq.take(0) =~= Seq::<(Seq<char>, DocView)>::empty());
                assert(DocValue::entry_views_of(Seq::<DocEntry>::empty()) =~= Seq::<(Seq<char>,
                DocView)>::empty());
            }
            while entries.len() > 0
                invariant
                    toml_value_model(v) == DocView::Table(mseq),
                    mseq == entries0.map_values(
                        |p: (String, toml::Value)| (p.0@, toml_value_model(p.1)),
                    ),
                    entries0.len() == out@.len() + entries@.len(),
                    entries@ == entries0.skip(out@.len() as int),
                    DocValue::entry_views_of(out@) == mseq.take(out@.len() as int),
                decreases entries@.len(),
            {
                let ghost k = out@.len() as int;
                proof {
                    assert(entries0.skip(k).first() == entries0[k]);
                    assert(entries0.skip(k).drop_first() =~= entries0.skip(k + 1));
                    assert(mseq[k] == (entries0[k].0@, toml_value_model(entries0[k].1)));
                    let m = toml_value_model(v);
                    assert(m->Table_0 == mseq);
                    assert(decreases_to!(m => m->Table_0));
                    assert(decreases_to!(m->Table_0 => m->Table_0[k]));
                    assert(decreases_to!(m->Table_0[k] => m->Table_0[k].1));
                    assert(m->Table_0[k].1 == toml_value_model(entries0[k].1));
                }
                let (key, val) = entries.remove(0);
                let d = value_to_doc(val);
                let e = DocEntry { key, value: d };
                let ghost outpre = out@;
                out.push(e);
                proof {
                    lemma_entry_views_of_push(outpre, e);
                    assert(mseq.take(k + 1) =~= mseq.take(k).push(mseq[k]));
                }
            }
            proof {
                assert(mseq.take(out@.len() as int) =~= mseq);
            }
            DocValue::Table(out)
        },
        TomlNode::Other => DocValue::Other,
    }
}

/// The encoded form of a task list never holds an `Other` value.
proof fn lemma_project_doc_encodable(doc: DocValue, d: ProjectData)
    requires
        is_project_data_doc(doc, d),
    ensures
        doc_encodable(doc),
{
    match doc {
        DocValue::Table(es) => {
            assert forall|i: int| 0 <= i < es@.len() implies doc_encodable(
                #[trigger] es@[i].value,
            ) by {
                if i == 1 {
                    match es@[1].value {
                        DocValue::List(vs) => {
                            assert(is_task_list_doc(es@[1].value, d.tasks@));
                            assert forall|j: int| 0 <= j < vs@.len() implies doc_encodable(
                                #[trigger] vs@[j],
                            ) by {
                                assert(is_task_doc(vs@[j], d.tasks@[j]));
                                match vs@[j] {
                                    DocValue::Table(fs) => {
                                        assert forall|k: int|
                                            0 <= k < fs@.len() implies doc_encodable(
                                            #[trigger] fs@[k].value,
                                        ) by {}
                                    },
                                    _ => {},
                                }
                            }
                        },
                        _ => {},
                    }
                }
            }
        },
        _ => {},
    }
}

/// Translates an encodable document value with distinct table keys into
/// a TOML value holding exactly its tree.
fn doc_to_value(d: &DocValue) -> (r: toml::Value)
    requires
        doc_encodable(*d),
        doc_keys_distinct(*d),
    ensures
        toml_value_model(r) == d.view_of(),
    decreases *d,
{
    match d {
        DocValue::Text(s) => toml_value_text(s.clone()),
        DocValue::Int(i) => toml_value_int(*i),
        DocValue::Flag(b) => toml_value_flag(*b),
        DocValue::List(items) => {
            let mut out: Vec<toml::Value> = Vec::new();
            let mut i: usize = 0;
            let n = items.len();
            while i < n
                invariant
                    n == items@.len(),
                    0 <= i <= n,
                    out@.len() == i,
                    *d matches DocValue::List(inner) && inner@ == items@,
                    forall|j: int| 0 <= j < items@.len() ==> doc_encodable(#[trigger] items@[j]),
                    forall|j: int|
                        0 <= j < items@.len() ==> doc_keys_distinct(#[trigger] items@[j]),
                    forall|j: int|
                        0 <= j < i ==> toml_value_model(#[trigger] out@[j]) == items@[j].view_of(),
                decreases n - i,
            {
                out.push(doc_to_value(&items[i]));
                i += 1;
            }
            let r = toml_value_list(out);
            proof {
                lemma_views_of_index(items@);
                assert(out@.map_values(|x: toml::Value| toml_value_model(x))
                    =~= DocValue::views_of(items@));
            }
            r
        },
        DocValue::Table(es) => {
            let mut out: Vec<(String, toml::Value)> = Vec::new();
            let mut i: usize = 0;
            let n = es.len();
            while i < n
                invariant
                    n == es@.len(),
                    0 <= i <= n,
                    out@.len() == i,
                    *d matches DocValue::Table(inner) && inner@ == es@,
                    forall|j: int| 0 <= j < es@.len() ==> doc_encodable(#[trigger] es@[j].value),
                    forall|j: int|
                        0 <= j < es@.len() ==> doc_keys_distinct(#[trigger] es@[j].value),
                    forall|j: int, k: int|
                        0 <= j < k < es@.len() ==> (#[trigger] es@[j].key)@ != (
                        #[trigger] es@[k].key)@,
                    forall|j: int|
                        0 <= j < i ==> (#[trigger] out@[j]).0@ == es@[j].key@ && toml_value_model(
                            out@[j].1,
                        ) == es@[j].value.view_of(),
                decreases n - i,
            {
                out.push((es[i].key.clone(), doc_to_value(&es[i].value)));
                i += 1;
            }
            proof {
                assert(forall|j: int, k: int|
                    0 <= j < k < out@.len() ==> (#[trigger] out@[j]).0@ != (
                    #[trigger] out@[k]).0@);
            }
            let r = toml_value_table(out);
            proof {
                lemma_entry_views_of_index(es@);
                assert(out@.map_values(|p: (String, toml::Value)| (p.0@, toml_value_model(p.1)))
                    =~= DocValue::entry_views_of(es@));
            }
            r
        },
        DocValue::Other => toml_value_flag(false),
    }
}

impl ProjectData {
    /// The persisted form of this list: the TOML rendering of its encoded
    /// document, whose tree this contract pins down; a failure in the
    /// renderer comes back as a rendering error.
    pub fn to_toml_string(&self) -> (r: Result<String, Error>)
        requires
            forall|i: int| 0 <= i < self.tasks@.len() ==> (#[trigger] self.tasks@[i]).index as int
                <= i64::MAX as int,
        ensures
            match toml_render_of(project_data_doc_view(*self)) {
                Some(out) => r matches Ok(text) && text@ == out,
                None => r matches Err(e) && e matches Error::Render { .. },
            },
    {
        let doc = project_data_to_doc(self);
        proof {
            lemma_project_doc_encodable(doc, *self);
            lemma_project_doc_keys_distinct(doc, *self);
            lemma_project_data_doc_view(doc, *self);
            lemma_encodable_view_no_other(doc);
        }
        let es: &Vec<DocEntry> = match &doc {
            DocValue::Table(es) => es,
            _ => {
                proof {
                    assert(false);
                }
                return Err(Error::Render { message: "not a table".to_owned() });
            },
        };
        let mut pairs: Vec<(String, toml::Value)> = Vec::new();
        let mut i: usize = 0;
        let n = es.len();
        while i < n
            invariant
                n == es@.len(),
                0 <= i <= n,
                pairs@.len() == i,
                doc matches DocValue::Table(inner) && inner@ == es@,
                doc_encodable(doc),
                doc_keys_distinct(doc),
                forall|j: int|
                    0 <= j < i ==> (#[trigger] pairs@[j]).0@ == es@[j].key@ && toml_value_model(
                        pairs@[j].1,
                    ) == es@[j].value.view_of(),
            decreases n - i,
        {
            pairs.push((es[i].key.clone(), doc_to_value(&es[i].value)));
            i += 1;
        }
        proof {
            lemma_entry_views_of_index(es@);
            assert(pairs@.map_values(|p: (String, toml::Value)| (p.0@, toml_value_model(p.1)))
                =~= DocValue::entry_views_of(es@));
            assert(DocView::Table(
                pairs@.map_values(|p: (String, toml::Value)| (p.0@, toml_value_model(p.1))),
            ) == doc.view_of());
            assert(doc.view_of() == project_data_doc_view(*self));
        }
        match toml_render(pairs) {
            Ok(s) => Ok(s),
            Err(m) => Err(Error::Render { message: m }),
        }
    }

    /// Parses TOML text into a task list. A text the `toml` crate rejects
    /// is a syntax error, and nothing else is; every parsed document goes
    /// through the verified schema decoder, so the result is the decode of
    /// a document holding exactly the parse of the text.
    pub fn from_toml_str(s: &str) -> (r: Result<ProjectData, Error>)
        ensures
            match toml_doc_of(s@) {
                Some(dv) => exists|d: DocValue|
                    (#[trigger] d.view_of()) == dv && match spec_data_from_doc(d) {
                        Ok((n, ts, c)) => r matches Ok(pd) && pd.name == n && pd.tasks@ == ts
                            && pd.is_child == c,
                        Err(de) => r matches Err(e) && doc_err_matches(e, de),
                    },
                None => r matches Err(e) && e matches Error::Syntax { .. },
            },
    {
        let pairs = match toml_parse(s) {
            Ok(pairs) => pairs,
            Err(m) => {
                return Err(Error::Syntax { message: m });
            },
        };
        let ghost pairs0 = pairs@;
        let ghost pmodel = pairs0.map_values(
            |p: (String, toml::Value)| (p.0@, toml_value_model(p.1)),
        );
        let mut pairs = pairs;
        let mut es: Vec<DocEntry> = Vec::new();
        proof {
            assert(pairs0.skip(0) =~= pairs0);
            assert(pmodel.take(0) =~= Seq::<(Seq<char>, DocView)>::empty());
            assert(DocValue::entry_views_of(Seq::<DocEntry>::empty()) =~= Seq::<(Seq<char>,
            DocView)>::empty());
        }
        while pairs.len() > 0
            invariant
                toml_doc_of(s@) == Some(DocView::Table(pmodel)),
                pmodel == pairs0.map_values(
                    |p: (String, toml::Value)| (p.0@, toml_value_model(p.1)),
                ),
                pairs0.len() == es@.len() + pairs@.len(),
                pairs@ == pairs0.skip(es@.len() as int),
                DocValue::entry_views_of(es@) == pmodel.take(es@.len() as int),
            decreases pairs@.len(),
        {
            let ghost k = es@.len() as int;
            proof {
                assert(pairs0.skip(k).first() == pairs0[k]);
                assert(pairs0.skip(k).drop_first() =~= pairs0.skip(k + 1));
                assert(pmodel[k] == (pairs0[k].0@, toml_value_model(pairs0[k].1)));
            }
            let (key, val) = pairs.remove(0);
            let d = value_to_doc(val);
            let e = DocEntry { key, value: d };
            let ghost espre = es@;
            es.push(e);
            proof {
                lemma_entry_views_of_push(espre, e);
                assert(pmodel.take(k + 1) =~= pmodel.take(k).push(pmodel[k]));
            }
        }
        proof {
            assert(pmodel.take(es@.len() as int) =~= pmodel);
        }
        let doc = DocValue::Table(es);
        let r = project_data_from_doc(&doc);
        proof {
            assert(doc.view_of() == DocView::Table(pmodel));
        }
        r
    }
}

} // verus!
