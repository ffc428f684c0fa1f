//! The ways a library operation can fail.
use vstd::prelude::*;

verus! {

/// Why a library operation failed.
///
/// Parse failures carry the offending field or a syntax message; selector
/// misses carry the list name and the requested index.
#[derive(Debug, PartialEq, Eq)]
pub enum Error {
    /// No ancestor directory held a task list eligible to be a root.
    NoProjectFound,
    /// No task with the given index exists in the named list.
    NoSuchTask { list: String, index: usize },
    /// A required field was absent from a persisted document.
    MissingField { field: String },
    /// A field occurred more than once in a persisted document.
    DuplicateField { field: String },
    /// A field outside the schema occurred in a persisted document.
    UnknownField { field: String },
    /// A field held a value of the wrong kind.
    InvalidFieldType { field: String },
    /// The text was not a well-formed document.
    Syntax { message: String },
    /// The document could not be rendered to text.
    Render { message: String },
}

impl Error {
    /// A single-line description of the failure.
    pub fn message(&self) -> String {
        match self {
            Error::NoProjectFound => "no project found".to_owned(),
            Error::NoSuchTask { list, index } => {
                let mut m: String = "no task ".to_owned();
                m.append(list.as_str());
                m.append(":");
                m.append(index.to_string().as_str());
                m.append(" found");
                m
            },
            Error::MissingField { field } => {
                let mut m: String = "missing field ".to_owned();
                m.append(field.as_str());
                m
            },
            Error::DuplicateField { field } => {
                let mut m: String = "duplicate field ".to_owned();
                m.append(field.as_str());
                m
            },
            Error::UnknownField { field } => {
                let mut m: String = "unknown field ".to_owned();
                m.append(field.as_str());
                m
            },
            Error::InvalidFieldType { field } => {
                let mut m: String = "invalid value for field ".to_owned();
                m.append(field.as_str());
                m
            },
            Error::Syntax { message } => {
                let mut m: String = "invalid project file syntax: ".to_owned();
                m.append(message.as_str());
                m
            },
            Error::Render { message } => {
                let mut m: String = "unable to serialize project: ".to_owned();
                m.append(message.as_str());
                m
            },
        }
    }
}

} // verus!
