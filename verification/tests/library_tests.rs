use chrono::{NaiveDate, TimeZone, Utc};
use increment_tracker::auth::{auth_header, detect_next, detect_start, display_name_of, AuthMode, DetectStep};
use increment_tracker::client::{
    client_base_url, extract_jira_error, is_retryable, refusal_error, retry_delay, sprint_path, truncate,
};
use increment_tracker::commands::queries::{
    epic_detail_positions, epic_not_found, epic_spill_count, find_epic, find_sprint, referenced_sprints,
    sorted_sprints, sprint_detail_positions, sprint_not_found, sprint_span,
};
use increment_tracker::commands::sync::{
    accept_discovered, children_queries, children_template, collect_sprints, epic_fields, incomplete_sprint_ids,
    issue_fields, replace_sprint, resolve_epic_key, sprint_from_dto, stored_mapping,
};
use increment_tracker::dto::{IssueDto, MyselfDto, SprintDto};
use increment_tracker::error::AppError;
use increment_tracker::fields::FieldMapping;
use increment_tracker::insights::{
    cap_insights, chronic_keys_text, childless_epics, one_sprint_elapsed, remaining_sprint_count,
    remaining_sprints_by_calendar, InsightSeverity,
};
use increment_tracker::json::JsonValue;
use increment_tracker::mapper::{MappedIssue, SprintRef};
use increment_tracker::model::{Epic, Increment, Issue, IssueSprint, Sprint, SprintState, StatusCategory, StatusEvent};
use increment_tracker::progress::{breakdown_counts, counts_as_blocked, imputation_flags, sp_bucket, SpBucket};
use increment_tracker::search::{v2_body, v2_next_start, v3_body, v3_continues};
use increment_tracker::spillover::{chronic_count, is_spilled_row, sprint_counts, sprint_role, spilled_sprint_names, started_sprints_in_order};
use increment_tracker::store::{bundle_sprints, date_column, instant_column};
use increment_tracker::time::{date_of, parse_jira_date, parse_jira_datetime, start_of_day};
use increment_tracker::timeline::{burnup_sprints, counts_as_spilled_work, done_at, epic_children, latest_snapshot, shows_now_point};

fn dt(y: i32, m: u32, d: u32) -> i64 {
    Utc.with_ymd_and_hms(y, m, d, 12, 0, 0).unwrap().timestamp_micros()
}

fn date(y: i32, m: u32, d: u32) -> i64 {
    NaiveDate::from_ymd_opt(y, m, d).unwrap().to_epoch_days() as i64
}

fn sprint(id: i64, name: &str, state: SprintState, start: i64, end: i64) -> Sprint {
    Sprint { id, name: name.into(), state, start_date: Some(start), end_date: Some(end), board_id: None }
}

fn issue(key: &str, epic: &str, cat: StatusCategory) -> Issue {
    Issue {
        key: key.into(),
        epic_key: epic.into(),
        summary: format!("Issue {key}"),
        estimated: true,
        sp_imputed: false,
        status: "Whatever".into(),
        status_category: cat,
        resolution: None,
        descoped: false,
        blocked: false,
        assignee: None,
        created: dt(2026, 1, 1),
        done_at: None,
        reopened: false,
        current_sprint_id: None,
        sprints: vec![],
        status_events: vec![],
        spill_count: 0,
    }
}

fn link(sprint_id: i64, committed: bool, done_at_close: Option<bool>) -> IssueSprint {
    IssueSprint { sprint_id, was_committed: committed, added_mid_sprint: !committed, done_at_close }
}

fn epic(key: &str, name: &str) -> Epic {
    Epic {
        key: key.into(),
        name: name.into(),
        owner: Some("Owner".into()),
        start_date: None,
        end_date: None,
        status_category: StatusCategory::InProgress,
        carried_from: None,
        removed_from_plan: false,
    }
}

fn increment() -> Increment {
    Increment {
        id: 1,
        name: "Increment 25".into(),
        jql: String::new(),
        start_date: date(2026, 1, 5),
        end_date: date(2026, 3, 27),
        is_active: true,
    }
}

fn obj(members: Vec<(&str, JsonValue)>) -> JsonValue {
    JsonValue::Object(members.into_iter().map(|(k, v)| (k.to_string(), v)).collect())
}

fn s(text: &str) -> JsonValue {
    JsonValue::Str(text.into())
}

// --- errors -----------------------------------------------------------------

#[test]
fn error_messages_name_their_kind() {
    assert_eq!(AppError::Http("timed out".into()).message(), "Network error talking to Jira: timed out");
    assert_eq!(AppError::jira(404, "Not here".into()).message(), "Jira API error (404): Not here");
    assert_eq!(AppError::Db("locked".into()).message(), "Local database error: locked");
    assert_eq!(AppError::Keychain("denied".into()).message(), "Credential store error: denied");
    assert_eq!(AppError::Config("missing".into()).message(), "Configuration error: missing");
    assert_eq!(AppError::Other("plain".into()).message(), "plain");
    assert_eq!(AppError::serialization("bad json").message(), "Serialization error: bad json");
}

#[test]
fn endpoint_missing_and_unauthorized_statuses() {
    for s in [404u16, 405, 410] {
        assert!(AppError::jira(s, String::new()).is_endpoint_missing());
        assert!(!AppError::jira(s, String::new()).is_unauthorized());
    }
    for s in [401u16, 403] {
        assert!(AppError::jira(s, String::new()).is_unauthorized());
        assert!(!AppError::jira(s, String::new()).is_endpoint_missing());
    }
    assert!(!AppError::jira(500, String::new()).is_endpoint_missing());
    assert!(!AppError::Config("x".into()).is_unauthorized());
}

// --- client -----------------------------------------------------------------

#[test]
fn retries_follow_retry_after_or_back_off() {
    assert_eq!(retry_delay(429, 0, Some("7")), Some(7));
    assert_eq!(retry_delay(503, 0, None), Some(2));
    assert_eq!(retry_delay(502, 1, Some("soon")), Some(4));
    assert_eq!(retry_delay(504, 2, None), Some(8));
    assert_eq!(retry_delay(429, 3, Some("1")), None);
    assert_eq!(retry_delay(500, 0, None), None);
    assert!(is_retryable(429) && !is_retryable(400));
}

#[test]
fn truncation_cuts_on_character_boundaries() {
    assert_eq!(truncate("short", 500), "short");
    assert_eq!(truncate("abcdef", 3), "abc…");
    // "é" is two bytes: cutting at 2 bytes would split it, so one byte is kept.
    assert_eq!(truncate("aé", 2), "a…");
    assert_eq!(truncate("éé", 1), "…");
}

#[test]
fn jira_error_bodies_are_read() {
    assert_eq!(
        extract_jira_error(r#"{"errorMessages":["First","Second"],"errors":{}}"#).as_deref(),
        Some("First; Second")
    );
    assert_eq!(extract_jira_error(r#"{"errorMessages":[],"errors":{"a":"b"}}"#), None);
    assert_eq!(extract_jira_error("not json"), None);
    assert_eq!(extract_jira_error(r#"{"errorMessages":[1, "Only text"]}"#).as_deref(), Some("Only text"));
}

#[test]
fn refusals_carry_status_and_message() {
    match refusal_error(400, r#"{"errorMessages":["Bad JQL"]}"#) {
        AppError::Jira { status, message } => {
            assert_eq!(status, 400);
            assert_eq!(message, "Bad JQL");
        },
        _ => panic!("expected a Jira error"),
    }
    match refusal_error(500, "Internal error") {
        AppError::Jira { message, .. } => assert_eq!(message, "Internal error"),
        _ => panic!("expected a Jira error"),
    }
    let long = "x".repeat(600);
    match refusal_error(500, &long) {
        AppError::Jira { message, .. } => assert_eq!(message, format!("{}…", "x".repeat(500))),
        _ => panic!("expected a Jira error"),
    }
}

#[test]
fn base_url_and_paths() {
    assert_eq!(client_base_url("https://jira.example.com///"), "https://jira.example.com");
    assert_eq!(sprint_path(42), "/rest/agile/1.0/sprint/42");
}

// --- auth -------------------------------------------------------------------

#[test]
fn auth_headers_per_mode() {
    assert_eq!(auth_header(AuthMode::Bearer, "ignored", "pat-123"), "Bearer pat-123");
    assert_eq!(auth_header(AuthMode::Basic, "user", "secret"), "Basic dXNlcjpzZWNyZXQ=");
}

#[test]
fn detection_tries_bearer_then_basic() {
    let me = MyselfDto { display_name: None, name: Some("jdoe".into()), email_address: None };
    assert!(matches!(detect_start(), DetectStep::Probe(AuthMode::Bearer)));
    match detect_next(AuthMode::Bearer, Err(AppError::jira(401, String::new())), "u") {
        DetectStep::Probe(AuthMode::Basic) => {},
        _ => panic!("expected a Basic probe"),
    }
    match detect_next(AuthMode::Basic, Err(AppError::jira(401, "no".into())), "u") {
        DetectStep::Failed(AppError::Jira { status: 401, .. }) => {},
        _ => panic!("expected the refusal"),
    }
    match detect_next(AuthMode::Bearer, Err(AppError::jira(500, String::new())), "u") {
        DetectStep::Failed(e) => assert!(!e.is_unauthorized()),
        _ => panic!("expected the server error"),
    }
    match detect_next(AuthMode::Basic, Ok(me), "u") {
        DetectStep::Found(AuthMode::Basic, name) => assert_eq!(name, "jdoe"),
        _ => panic!("expected success"),
    }
}

#[test]
fn display_name_falls_back_to_username() {
    let nobody = MyselfDto { display_name: None, name: None, email_address: None };
    assert_eq!(display_name_of(&nobody, "typed"), "typed");
    let mail = MyselfDto { display_name: None, name: None, email_address: Some("a@b.c".into()) };
    assert_eq!(display_name_of(&mail, "typed"), "a@b.c");
    let full = MyselfDto { display_name: Some("Ann".into()), name: Some("ann".into()), email_address: None };
    assert_eq!(display_name_of(&full, "typed"), "Ann");
}

// --- search -----------------------------------------------------------------

#[test]
fn search_bodies_per_deployment() {
    match v2_body("project = A", 100, &["summary", "status"], true) {
        JsonValue::Object(ms) => {
            let keys: Vec<&str> = ms.iter().map(|(k, _)| k.as_str()).collect();
            assert_eq!(keys, vec!["jql", "startAt", "maxResults", "fields", "expand"]);
            assert!(matches!(ms[1].1, JsonValue::Number(Some(100))));
            assert!(matches!(&ms[4].1, JsonValue::Array(a) if a.len() == 1));
        },
        _ => panic!("expected an object"),
    }
    match v3_body("project = A", &["summary"], true, &Some("tok".into())) {
        JsonValue::Object(ms) => {
            let keys: Vec<&str> = ms.iter().map(|(k, _)| k.as_str()).collect();
            assert_eq!(keys, vec!["jql", "maxResults", "fields", "expand", "nextPageToken"]);
            assert!(matches!(&ms[3].1, JsonValue::Str(t) if t == "changelog"));
        },
        _ => panic!("expected an object"),
    }
}

#[test]
fn paging_stops_when_done() {
    assert_eq!(v2_next_start(0, 100, 250), Some(100));
    assert_eq!(v2_next_start(200, 50, 250), None);
    assert_eq!(v2_next_start(100, 0, 250), None);
    assert!(v3_continues(false, &Some("t".into()), None));
    assert!(!v3_continues(false, &Some("t".into()), Some(true)));
    assert!(!v3_continues(true, &Some("t".into()), Some(false)));
    assert!(!v3_continues(false, &None, Some(false)));
}

// --- sync planning ----------------------------------------------------------

fn mapping(epic_link: bool) -> FieldMapping {
    FieldMapping {
        story_points: Some("customfield_10016".into()),
        epic_link: if epic_link { Some("customfield_10014".into()) } else { None },
        sprint: Some("customfield_10020".into()),
        epic_start: None,
        epic_end: Some("duedate".into()),
    }
}

#[test]
fn requested_fields_follow_the_mapping() {
    assert_eq!(
        epic_fields(&mapping(true)),
        vec!["summary", "assignee", "status", "fixVersions", "duedate", "customfield_10016", "duedate"]
    );
    assert_eq!(
        issue_fields(&mapping(false)),
        vec!["summary", "status", "resolution", "assignee", "created", "parent", "customfield_10016", "customfield_10020"]
    );
}

#[test]
fn child_queries_are_chunked_by_fifty() {
    let keys: Vec<String> = (1..=120).map(|n| format!("E-{n}")).collect();
    let qs = children_queries(&keys, &None, &mapping(true));
    assert_eq!(qs.len(), 3);
    assert!(qs[0].starts_with("\"Epic Link\" in (E-1, E-2"));
    assert!(qs[0].ends_with("E-50)"));
    assert_eq!(qs[2], format!("\"Epic Link\" in ({})", (101..=120).map(|n| format!("E-{n}")).collect::<Vec<_>>().join(", ")));
    let qs = children_queries(&keys[..2], &None, &mapping(false));
    assert_eq!(qs, vec!["parent in (E-1, E-2)".to_string()]);
    let qs = children_queries(&keys[..2], &Some("issueFunction in subtasksOf(\"key in ({keys})\")".into()), &mapping(true));
    assert_eq!(qs, vec!["issueFunction in subtasksOf(\"key in (E-1, E-2)\")".to_string()]);
    assert!(children_queries(&[], &None, &mapping(true)).is_empty());
}

#[test]
fn blank_templates_are_ignored() {
    assert_eq!(children_template(Some("   ".into())), None);
    assert_eq!(children_template(Some("parent in ({keys})".into())), Some("parent in ({keys})".to_string()));
    assert_eq!(children_template(None), None);
}

#[test]
fn epic_keys_come_from_epic_link_or_parent() {
    let dc = IssueDto { key: "A-1".into(), fields: obj(vec![("customfield_10014", s("EPIC-1"))]), changelog: None };
    assert_eq!(resolve_epic_key(&dc, &mapping(true)).as_deref(), Some("EPIC-1"));
    let cloud = IssueDto {
        key: "A-2".into(),
        fields: obj(vec![("customfield_10014", JsonValue::Null), ("parent", obj(vec![("key", s("EPIC-2"))]))]),
        changelog: None,
    };
    assert_eq!(resolve_epic_key(&cloud, &mapping(true)).as_deref(), Some("EPIC-2"));
    let orphan = IssueDto { key: "A-3".into(), fields: obj(vec![]), changelog: None };
    assert_eq!(resolve_epic_key(&orphan, &mapping(false)), None);
}

fn sref(id: i64, name: Option<&str>) -> SprintRef {
    SprintRef { id, name: name.map(String::from), state: Some(SprintState::Closed), start_date: None, end_date: None }
}

#[test]
fn sprints_are_collected_once_first_mention_wins() {
    let a = MappedIssue { issue: issue("A-1", "E", StatusCategory::New), sprint_refs: vec![sref(1, Some("S1")), sref(2, None)], sprint_added_at: vec![] };
    let b = MappedIssue { issue: issue("A-2", "E", StatusCategory::New), sprint_refs: vec![sref(1, Some("Other")), sref(3, Some("S3"))], sprint_added_at: vec![] };
    let sprints = collect_sprints(&[a, b]);
    let names: Vec<(i64, &str)> = sprints.iter().map(|s| (s.id, s.name.as_str())).collect();
    assert_eq!(names, vec![(1, "S1"), (2, "Sprint 2"), (3, "S3")]);
    assert_eq!(incomplete_sprint_ids(&sprints), vec![1, 2, 3]);
}

#[test]
fn fetched_sprints_replace_their_placeholder() {
    let dto = SprintDto {
        id: 2,
        name: "Sprint Two".into(),
        state: "CLOSED".into(),
        start_date: Some("2026-01-05T09:00:00.000Z".into()),
        end_date: None,
        complete_date: Some("2026-01-19T17:00:00.000Z".into()),
        origin_board_id: Some(4),
    };
    let fresh = sprint_from_dto(&dto);
    assert_eq!(fresh.state, SprintState::Closed);
    assert_eq!(fresh.end_date, parse_jira_datetime("2026-01-19T17:00:00.000Z"));
    assert_eq!(fresh.board_id, Some(4));
    let mut sprints = vec![sprint(1, "S1", SprintState::Closed, 0, 1), sprint(2, "Sprint 2", SprintState::Future, 0, 1)];
    replace_sprint(&mut sprints, 2, fresh);
    assert_eq!(sprints.len(), 2);
    assert_eq!(sprints[1].name, "Sprint Two");
    replace_sprint(&mut sprints, 9, sprint(9, "S9", SprintState::Future, 0, 1));
    assert_eq!(sprints.len(), 3);
}

// --- time -------------------------------------------------------------------

#[test]
fn jira_timestamps_parse_in_all_three_forms() {
    let jira = parse_jira_datetime("2026-01-02T10:00:00.000+0000");
    let rfc = parse_jira_datetime("2026-01-02T10:00:00Z");
    assert_eq!(jira, Some(Utc.with_ymd_and_hms(2026, 1, 2, 10, 0, 0).unwrap().timestamp_micros()));
    assert_eq!(jira, rfc);
    assert_eq!(parse_jira_datetime("2026-01-02"), Some(start_of_day(date(2026, 1, 2))));
    assert_eq!(parse_jira_datetime("yesterday"), None);
    assert_eq!(parse_jira_date("2026-03-15T10:00:00.000+0000"), Some(date(2026, 3, 15)));
    assert_eq!(date_of(dt(2026, 3, 15)), date(2026, 3, 15));
    assert_eq!(date_of(-1), -1);
}

#[test]
fn stored_columns_fall_back() {
    assert_eq!(date_column("2026-01-05"), date(2026, 1, 5));
    assert_eq!(date_column("garbage"), 0);
    assert_eq!(instant_column("2026-01-02T10:00:00+00:00", 7), Utc.with_ymd_and_hms(2026, 1, 2, 10, 0, 0).unwrap().timestamp_micros());
    assert_eq!(instant_column("garbage", 7), 7);
}

// --- timeline ---------------------------------------------------------------

#[test]
fn burnup_steps_are_closed_sprints_in_the_window() {
    let inc = increment();
    let sprints = vec![
        sprint(2, "S2", SprintState::Closed, dt(2026, 1, 20), dt(2026, 2, 2)),
        sprint(1, "S1", SprintState::Closed, dt(2026, 1, 5), dt(2026, 1, 19)),
        sprint(3, "S3", SprintState::Active, dt(2026, 2, 3), dt(2026, 2, 16)),
        sprint(0, "Old", SprintState::Closed, dt(2025, 12, 1), dt(2025, 12, 14)),
    ];
    let steps = burnup_sprints(&inc, &sprints, dt(2026, 2, 10));
    let names: Vec<&str> = steps.iter().map(|s| s.name.as_str()).collect();
    assert_eq!(names, vec!["S1", "S2"]);
    assert!(burnup_sprints(&inc, &sprints, dt(2026, 1, 25)).iter().all(|s| s.id == 1));
    assert!(shows_now_point(&inc, dt(2026, 3, 27)));
    assert!(!shows_now_point(&inc, dt(2026, 3, 28)));
}

#[test]
fn burnup_replays_history() {
    let mut a = issue("A-1", "E-1", StatusCategory::Done);
    a.status_events = vec![StatusEvent { at: dt(2026, 1, 10), from: StatusCategory::New, to: StatusCategory::Done }];
    assert!(!done_at(&a, dt(2026, 1, 9)));
    assert!(done_at(&a, dt(2026, 1, 19)));
    a.descoped = true;
    assert!(!done_at(&a, dt(2026, 1, 19)));
}

#[test]
fn latest_snapshot_at_an_instant() {
    let taken = [30, 10, 20, 20];
    assert_eq!(latest_snapshot(&taken, 25), Some(3));
    assert_eq!(latest_snapshot(&taken, 30), Some(0));
    assert_eq!(latest_snapshot(&taken, 5), None);
}

#[test]
fn gantt_children_and_spilled_work() {
    let issues = vec![issue("A-1", "E-1", StatusCategory::New), issue("B-1", "E-2", StatusCategory::New), issue("A-2", "E-1", StatusCategory::Done)];
    assert_eq!(epic_children(&issues, "E-1"), vec![0, 2]);
    assert!(epic_children(&issues, "E-9").is_empty());
    let mut spilled = issue("A-3", "E-1", StatusCategory::InProgress);
    spilled.spill_count = 1;
    assert!(counts_as_spilled_work(&spilled));
    spilled.status_category = StatusCategory::Done;
    assert!(!counts_as_spilled_work(&spilled));
    let epics = vec![epic("E-1", "One"), epic("E-9", "None")];
    assert_eq!(childless_epics(&epics, &issues), vec![1]);
}

// --- insights ---------------------------------------------------------------

#[test]
fn remaining_sprints_count_calendar_and_sprints() {
    let inc = increment();
    assert_eq!(remaining_sprints_by_calendar(&inc, date(2026, 3, 1)), 2); // 26 days
    assert_eq!(remaining_sprints_by_calendar(&inc, date(2026, 3, 13)), 1); // 14 days
    assert_eq!(remaining_sprints_by_calendar(&inc, date(2026, 4, 1)), 0);
    let sprints = vec![
        sprint(1, "S1", SprintState::Closed, dt(2026, 1, 5), dt(2026, 1, 19)),
        sprint(2, "S2", SprintState::Active, dt(2026, 1, 20), dt(2026, 2, 2)),
        sprint(3, "S3", SprintState::Future, dt(2026, 2, 3), dt(2026, 2, 16)),
        sprint(4, "Next", SprintState::Future, dt(2026, 4, 3), dt(2026, 4, 16)),
    ];
    assert_eq!(remaining_sprint_count(&inc, &sprints, date(2026, 3, 20)), 2);
    assert_eq!(remaining_sprint_count(&inc, &sprints, date(2026, 1, 20)), 5);
    assert!(!one_sprint_elapsed(&inc, date(2026, 1, 18)));
    assert!(one_sprint_elapsed(&inc, date(2026, 1, 19)));
}

#[test]
fn chronic_card_lists_five_keys() {
    let mut issues = Vec::new();
    for n in 1..=6 {
        let mut i = issue(&format!("A-{n}"), "E-1", StatusCategory::InProgress);
        i.spill_count = 2;
        issues.push(i);
    }
    assert_eq!(chronic_keys_text(&issues), "A-1, A-2, A-3, A-4, A-5, …");
    assert_eq!(chronic_keys_text(&issues[..2]), "A-1, A-2");
    assert_eq!(chronic_count(&issues), 6);
}

#[test]
fn insights_are_capped_and_ranked() {
    let many: Vec<u32> = (0..10).collect();
    assert_eq!(cap_insights(many), vec![0, 1, 2, 3, 4, 5, 6]);
    assert_eq!(cap_insights(vec![1, 2]), vec![1, 2]);
    assert!(InsightSeverity::Critical > InsightSeverity::Warning && InsightSeverity::Warning > InsightSeverity::Info);
}

// --- spillover --------------------------------------------------------------

#[test]
fn committed_spilled_counts_and_names() {
    let s1 = sprint(1, "S1", SprintState::Closed, dt(2026, 1, 5), dt(2026, 1, 19));
    let s2 = sprint(2, "S2", SprintState::Closed, dt(2026, 1, 20), dt(2026, 2, 2));
    let mut done = issue("A-1", "E-1", StatusCategory::Done);
    done.sprints = vec![link(1, true, Some(true))];
    let mut spilled = issue("A-2", "E-1", StatusCategory::InProgress);
    spilled.sprints = vec![link(1, true, Some(false)), link(2, true, Some(false)), link(7, true, Some(false))];
    let mut added = issue("A-3", "E-1", StatusCategory::Done);
    added.sprints = vec![link(1, false, Some(true))];
    assert_eq!(sprint_counts(&s1, &[done, spilled.clone(), added]), (2, 1));
    assert_eq!(spilled_sprint_names(&spilled, &[s1.clone(), s2.clone()]), vec!["S1", "S2", "Sprint 7"]);
    let order = started_sprints_in_order(&[s2, sprint(3, "Later", SprintState::Future, 0, 1), s1], 0);
    let names: Vec<&str> = order.iter().map(|s| s.name.as_str()).collect();
    assert_eq!(names, vec!["S1", "S2"]);
}

// --- queries ----------------------------------------------------------------

#[test]
fn epic_detail_lists_sorted_and_split() {
    let mut issues = vec![
        issue("A-3", "E-1", StatusCategory::New),
        issue("A-1", "E-1", StatusCategory::New),
        issue("B-1", "E-2", StatusCategory::New),
        issue("A-2", "E-1", StatusCategory::Done),
    ];
    issues[3].descoped = true;
    issues[0].sprints = vec![link(5, true, None)];
    issues[3].sprints = vec![link(6, true, None)];
    let (descoped, kept) = epic_detail_positions(&issues, "E-1");
    assert_eq!(descoped, vec![3]);
    assert_eq!(kept, vec![1, 0]);
    let sprints = vec![
        sprint(6, "S6", SprintState::Active, dt(2026, 2, 1), dt(2026, 2, 14)),
        sprint(5, "S5", SprintState::Closed, dt(2026, 1, 1), dt(2026, 1, 14)),
    ];
    let shown = referenced_sprints(&issues, "E-1", sprints.clone());
    assert_eq!(shown.iter().map(|s| s.id).collect::<Vec<_>>(), vec![5]);
    assert_eq!(sprint_span(&issues, "E-1", &sprints).as_deref(), Some("S5 – S6"));
    assert_eq!(sprint_span(&issues, "E-2", &sprints), None);
    assert_eq!(find_epic(&[epic("E-1", "x"), epic("E-2", "y")], "E-2"), Some(1));
    assert_eq!(find_sprint(&sprints, 5), Some(1));
    assert_eq!(find_sprint(&sprints, 7), None);
    assert_eq!(epic_not_found("E-9").message(), "Configuration error: Epic E-9 not found in this increment");
    assert_eq!(sprint_not_found(7).message(), "Configuration error: Sprint 7 not found");
}

#[test]
fn sprint_detail_lists_and_spill_counts() {
    let mut a = issue("A-1", "E-1", StatusCategory::Done);
    a.sprints = vec![link(1, true, Some(true))];
    let mut b = issue("A-2", "E-1", StatusCategory::InProgress);
    b.sprints = vec![link(1, true, Some(false))];
    b.spill_count = 1;
    let mut c = issue("A-3", "E-1", StatusCategory::Done);
    c.sprints = vec![link(1, false, Some(true))];
    let mut d = issue("A-4", "E-1", StatusCategory::InProgress);
    d.sprints = vec![link(1, true, Some(false))];
    d.descoped = true;
    d.spill_count = 1;
    let issues = vec![a, b, c, d];
    assert_eq!(sprint_detail_positions(&issues, 1), (vec![0, 1], vec![2], vec![1]));
    assert_eq!(epic_spill_count(&issues, "E-1"), 1);
}

#[test]
fn sprints_sort_by_start_then_id() {
    let mut unknown = sprint(9, "?", SprintState::Future, 0, 1);
    unknown.start_date = None;
    let sorted = sorted_sprints(vec![
        sprint(3, "C", SprintState::Closed, 200, 300),
        sprint(1, "A", SprintState::Closed, 200, 300),
        unknown,
        sprint(2, "B", SprintState::Closed, 100, 300),
    ]);
    assert_eq!(sorted.iter().map(|s| s.id).collect::<Vec<_>>(), vec![9, 2, 1, 3]);
}

#[test]
fn bundles_keep_referenced_sprints() {
    let mut a = issue("A-1", "E-1", StatusCategory::New);
    a.sprints = vec![link(2, true, None)];
    let sprints = vec![sprint(1, "S1", SprintState::Closed, 0, 1), sprint(2, "S2", SprintState::Active, 0, 1)];
    assert_eq!(bundle_sprints(&[a], &sprints).iter().map(|s| s.id).collect::<Vec<_>>(), vec![2]);
}

#[test]
fn sprint_states_read_back_in_any_case() {
    assert_eq!(SprintState::from_jira("ACTIVE"), SprintState::Active);
    assert_eq!(SprintState::from_jira("Closed"), SprintState::Closed);
    assert_eq!(SprintState::from_jira("weird"), SprintState::Future);
    for s in [SprintState::Future, SprintState::Active, SprintState::Closed] {
        assert_eq!(SprintState::parse(s.as_str()), s);
        assert_eq!(SprintState::from_jira(s.as_str()), s);
    }
    for c in [StatusCategory::New, StatusCategory::InProgress, StatusCategory::Done] {
        assert_eq!(StatusCategory::parse(c.as_str()), c);
    }
    assert_eq!(StatusCategory::from_jira_key("indeterminate"), StatusCategory::InProgress);
}

// --- progress classification ------------------------------------------------

#[test]
fn imputation_needs_an_estimated_sibling() {
    let mut a = issue("A-1", "E-1", StatusCategory::Done);
    let mut b = issue("A-2", "E-1", StatusCategory::New);
    b.estimated = false;
    let mut c = issue("A-3", "E-2", StatusCategory::New);
    c.estimated = false;
    let mut d = issue("A-4", "E-3", StatusCategory::New);
    d.estimated = false;
    let mut e = issue("A-5", "E-3", StatusCategory::New);
    e.descoped = true; // a descoped estimate does not count
    a.blocked = false;
    assert_eq!(imputation_flags(&[a, b, c, d, e]), vec![false, true, false, false, false]);
}

#[test]
fn breakdown_classifies_by_status_and_scope() {
    let done = issue("A-1", "E-1", StatusCategory::Done);
    let mut doing = issue("A-2", "E-1", StatusCategory::InProgress);
    doing.blocked = true;
    let mut todo = issue("A-3", "E-1", StatusCategory::New);
    todo.estimated = false;
    let mut wont = issue("A-9", "E-1", StatusCategory::Done);
    wont.descoped = true;
    assert_eq!(sp_bucket(&done), SpBucket::Done);
    assert_eq!(sp_bucket(&doing), SpBucket::InProgress);
    assert_eq!(sp_bucket(&todo), SpBucket::NotStarted);
    assert_eq!(sp_bucket(&wont), SpBucket::Descoped);
    assert!(counts_as_blocked(&doing));
    let c = breakdown_counts(&[done, doing, todo, wont]);
    assert_eq!((c.total_count, c.done_count, c.unestimated_count), (3, 1, 1));
}

#[test]
fn an_active_sprint_has_no_spill() {
    let s2 = sprint(2, "S2", SprintState::Active, dt(2026, 1, 20), dt(2026, 2, 2));
    let mut doing = issue("A-1", "E-1", StatusCategory::Done);
    doing.sprints = vec![link(2, true, None)];
    let role = sprint_role(&s2, &doing).unwrap();
    assert!(role.done_here);
    assert!(!role.spilled);
    doing.descoped = true;
    assert!(sprint_role(&s2, &doing).is_none());
}

#[test]
fn spillover_rows_are_spilled_open_issues() {
    let mut open = issue("A-1", "E-1", StatusCategory::InProgress);
    open.spill_count = 1;
    assert!(is_spilled_row(&open));
    let mut done = issue("A-2", "E-1", StatusCategory::Done);
    done.spill_count = 1;
    assert!(!is_spilled_row(&done));
    let mut descoped = issue("A-3", "E-1", StatusCategory::New);
    descoped.spill_count = 2;
    descoped.descoped = true;
    assert!(!is_spilled_row(&descoped));
    let never = issue("A-4", "E-1", StatusCategory::New);
    assert!(!is_spilled_row(&never));
}

#[test]
fn stored_mapping_is_used_only_when_usable() {
    let usable = stored_mapping(Some(mapping(true))).expect("usable mapping is kept");
    assert_eq!(usable.story_points, mapping(true).story_points);
    assert_eq!(usable.sprint, mapping(true).sprint);
    let mut partial = mapping(true);
    partial.sprint = None;
    assert!(stored_mapping(Some(partial)).is_none());
    assert!(stored_mapping(None).is_none());
}

#[test]
fn undiscoverable_fields_refuse_the_sync() {
    let kept = accept_discovered(mapping(false)).ok().expect("usable discovery is kept");
    assert_eq!(kept.story_points, mapping(false).story_points);
    let mut nothing = mapping(false);
    nothing.story_points = None;
    match accept_discovered(nothing) {
        Err(e) => assert_eq!(
            e.message(),
            "Configuration error: Could not discover Story Points / Sprint fields — set them in Settings → Field mapping."
        ),
        Ok(_) => panic!("an unusable mapping must be refused"),
    }
}
