//! The records the commands exchange with the user interface. Dates are day
//! numbers (see `time`).

use vstd::prelude::*;

use crate::auth::AuthMode;
use crate::fields::FieldMapping;
use crate::model::Increment;

verus! {

/// Non-secret connection settings persisted locally. The PAT itself lives
/// only in the OS keychain.
pub struct ConnectionConfig {
    pub base_url: String,
    pub username: String,
    pub auth_mode: Option<AuthMode>,
}

pub struct TestConnectionInput {
    pub base_url: String,
    pub username: String,
    pub pat: String,
}

pub struct ConnectionTestResult {
    pub auth_mode: AuthMode,
    pub display_name: String,
}

pub struct SaveConnectionInput {
    pub base_url: String,
    pub username: String,
    /// Omitted = keep the already-stored PAT.
    pub pat: Option<String>,
    pub auth_mode: Option<AuthMode>,
}

pub struct ConnectionView {
    pub base_url: String,
    pub username: String,
    pub auth_mode: Option<AuthMode>,
    pub has_pat: bool,
}

pub struct SettingsView {
    pub connection: Option<ConnectionView>,
    pub field_mapping: Option<FieldMapping>,
    pub projects: Vec<String>,
    pub blocked_statuses: Vec<String>,
    pub epic_children_clause: Option<String>,
    pub increments: Vec<Increment>,
    pub active_increment_id: Option<i64>,
}

pub struct ProjectView {
    pub key: String,
    pub name: String,
}

pub struct IncrementInput {
    pub id: Option<i64>,
    pub name: String,
    pub jql: String,
    pub start_date: i64,
    pub end_date: i64,
}

pub struct JqlSampleIssue {
    pub key: String,
    pub summary: String,
}

pub struct JqlValidation {
    pub total: i64,
    pub sample: Vec<JqlSampleIssue>,
    /// Set when the app adjusted the query (e.g. added `issuetype = Epic`).
    pub notice: Option<String>,
}

pub struct SyncSummary {
    pub epics: u32,
    pub issues: u32,
    pub sprints: u32,
    pub duration_ms: u64,
}

pub struct SyncProgress {
    pub stage: String,
    pub detail: String,
}

} // verus!
