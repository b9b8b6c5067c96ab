use increment_tracker::commands::connection::{normalize_base_url, supplied_pat};
use increment_tracker::commands::settings::{active_increment_id, default_blocked_statuses, ensure_epic_jql};
use increment_tracker::error::AppError;
use increment_tracker::model::Increment;

#[test]
fn appends_epic_clause_only_when_missing() {
    let (q, notice) = ensure_epic_jql("project = ABC AND fixVersion = \"Increment 25\"");
    assert!(q.ends_with("AND issuetype = Epic"));
    assert!(notice.is_some());

    let (q, notice) = ensure_epic_jql("project = ABC AND issuetype = Epic");
    assert_eq!(q, "project = ABC AND issuetype = Epic");
    assert!(notice.is_none());
}

#[test]
fn epic_clause_wraps_the_query_and_explains_itself() {
    let (q, notice) = ensure_epic_jql("project = ABC OR project = XYZ");
    assert_eq!(q, "(project = ABC OR project = XYZ) AND issuetype = Epic");
    assert_eq!(notice.as_deref(), Some("Added `issuetype = Epic` to the query."));
}

#[test]
fn epic_clause_check_ignores_case_and_accepts_issue_type() {
    let (q, notice) = ensure_epic_jql("project = ABC AND IssueType = Epic");
    assert_eq!(q, "project = ABC AND IssueType = Epic");
    assert!(notice.is_none());
    let (q, notice) = ensure_epic_jql("\"Issue Type\" = Epic");
    assert_eq!(q, "\"Issue Type\" = Epic");
    assert!(notice.is_none());
}

#[test]
fn epic_clause_is_added_once() {
    let (q1, _) = ensure_epic_jql("fixVersion = 25");
    let (q2, notice) = ensure_epic_jql(&q1);
    assert_eq!(q1, q2);
    assert!(notice.is_none());
}

#[test]
fn base_url_is_trimmed_and_checked() {
    assert_eq!(normalize_base_url("  https://jira.example.com//  ").ok(), Some("https://jira.example.com".to_string()));
    assert_eq!(normalize_base_url("http://x").ok(), Some("http://x".to_string()));
    match normalize_base_url("jira.example.com") {
        Err(AppError::Config(m)) => assert_eq!(m, "Base URL must start with http:// or https://"),
        _ => panic!("expected a configuration error"),
    }
}

#[test]
fn empty_pat_keeps_the_stored_one() {
    assert_eq!(supplied_pat(&Some(String::new())), None);
    assert_eq!(supplied_pat(&None), None);
    assert_eq!(supplied_pat(&Some("tok".into())), Some("tok".to_string()));
}

#[test]
fn default_blocked_statuses_are_blocked_and_on_hold() {
    assert_eq!(default_blocked_statuses(), vec!["Blocked".to_string(), "On Hold".to_string()]);
}

fn inc(id: i64, active: bool) -> Increment {
    Increment { id, name: format!("Inc {id}"), jql: "x".into(), start_date: 0, end_date: 10, is_active: active }
}

#[test]
fn the_first_active_increment_is_reported() {
    assert_eq!(active_increment_id(&[inc(1, false), inc(2, true), inc(3, true)]), Some(2));
    assert_eq!(active_increment_id(&[inc(1, false)]), None);
}

#[test]
fn epic_clause_is_added_once_for_any_text() {
    for jql in ["summary ~ \"ΟΔΥΣΣΕΥΣ\"", "project = ABC", "labels = ΣΣ", "summary ~ \"Straße\""] {
        let (q, notice) = ensure_epic_jql(jql);
        assert!(notice.is_some());
        let (again, second) = ensure_epic_jql(&q);
        assert_eq!(again, q);
        assert_eq!(second, None);
    }
}
