//! What the application's commands decide, apart from the I/O around them:
//! the shapes they exchange with the user interface, the queries they send,
//! and how they pick and order what they show.

pub mod connection;
pub mod queries;
pub mod settings;
pub mod sync;
pub mod types;

use vstd::prelude::*;

verus! {

/// Setting keys of the local database.
pub const KEY_CONNECTION: &'static str = "connection";

pub const KEY_FIELD_MAPPING: &'static str = "field_mapping";

pub const KEY_PROJECTS: &'static str = "projects";

pub const KEY_BLOCKED_STATUSES: &'static str = "blocked_statuses";

pub const KEY_EPIC_CHILDREN_CLAUSE: &'static str = "epic_children_clause";

} // verus!
