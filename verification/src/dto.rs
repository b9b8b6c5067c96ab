//! Jira's wire records, as the library reads them. Issue `fields` stay a
//! JSON value because story points / sprint / epic link are instance-specific
//! custom fields resolved at run time.

use vstd::prelude::*;

use crate::json::JsonValue;

verus! {

pub struct MyselfDto {
    pub display_name: Option<String>,
    pub name: Option<String>,
    pub email_address: Option<String>,
}

pub struct ProjectDto {
    pub id: String,
    pub key: String,
    pub name: String,
}

/// Wrapper returned by Cloud's `/project/search`.
pub struct ProjectSearchDto {
    pub values: Vec<ProjectDto>,
}

pub struct FieldSchemaDto {
    pub custom: Option<String>,
    pub field_type: Option<String>,
}

pub struct FieldDto {
    pub id: String,
    pub name: String,
    pub schema: Option<FieldSchemaDto>,
}

pub struct StatusCategoryDto {
    pub key: String,
}

pub struct StatusDto {
    pub name: String,
    pub status_category: Option<StatusCategoryDto>,
}

pub struct HistoryItemDto {
    pub field: String,
    pub from: Option<String>,
    pub from_string: Option<String>,
    pub to: Option<String>,
    pub to_string: Option<String>,
}

pub struct HistoryDto {
    pub created: String,
    pub items: Vec<HistoryItemDto>,
}

pub struct ChangelogDto {
    pub histories: Vec<HistoryDto>,
}

pub struct IssueDto {
    pub key: String,
    pub fields: JsonValue,
    pub changelog: Option<ChangelogDto>,
}

/// Data Center / classic `/rest/api/2/search` page.
pub struct SearchResponseDto {
    pub start_at: i64,
    pub max_results: i64,
    pub total: i64,
    pub issues: Vec<IssueDto>,
}

/// Cloud `/rest/api/3/search/jql` page (token-based pagination).
pub struct SearchPageDto {
    pub issues: Vec<IssueDto>,
    pub next_page_token: Option<String>,
    pub is_last: Option<bool>,
}

pub struct SprintDto {
    pub id: i64,
    pub name: String,
    pub state: String,
    pub start_date: Option<String>,
    pub end_date: Option<String>,
    pub complete_date: Option<String>,
    pub origin_board_id: Option<i64>,
}

} // verus!
