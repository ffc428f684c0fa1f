//! A terminal task-list manager's core: task lists persisted as one
//! structured file per directory, discovered by walking the filesystem
//! upward to the governing list and downward to subordinate lists.
use vstd::prelude::*;

pub mod codec;
pub mod error;
pub mod nav;
pub mod persist;
pub mod project;
pub mod resolve;
pub mod selector;
pub mod text;

pub use error::Error;
pub use project::Project;
pub use project::ProjectData;
pub use project::Task;
pub use selector::Command;
pub use selector::TaskSelector;

verus! {

/// Default file name of a persisted task list, one per directory.
pub const PROJECT_FILE_NAME: &'static str = ".tutel.toml";

/// How many directory levels below the root are searched for child lists.
pub const CHILDREN_DEPTH_LIMIT: usize = 5;

} // verus!
