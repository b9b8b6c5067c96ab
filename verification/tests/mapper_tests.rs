use chrono::{NaiveDate, TimeZone, Utc};
use increment_tracker::dto::{ChangelogDto, HistoryDto, HistoryItemDto, IssueDto, StatusCategoryDto, StatusDto};
use increment_tracker::fields::FieldMapping;
use increment_tracker::json::JsonValue;
use increment_tracker::mapper::{
    attach_sprints, build_status_categories, map_epic, map_issue, needs_clock, parse_sprint_field, sprint_ref_from_groups,
    StatusCategories,
};
use increment_tracker::model::{is_descoping_resolution, Sprint, SprintState, StatusCategory};

fn now() -> i64 {
    Utc::now().timestamp_micros()
}

fn dt(y: i32, m: u32, d: u32) -> i64 {
    Utc.with_ymd_and_hms(y, m, d, 12, 0, 0).unwrap().timestamp_micros()
}

fn date(y: i32, m: u32, d: u32) -> i64 {
    NaiveDate::from_ymd_opt(y, m, d).unwrap().to_epoch_days() as i64
}

fn sprint(id: i64, name: &str, state: SprintState, start: i64, end: i64) -> Sprint {
    Sprint { id, name: name.into(), state, start_date: Some(start), end_date: Some(end), board_id: None }
}

/// The library's JSON value for a JSON text.
fn json(text: &str) -> JsonValue {
    from_serde(&serde_json::from_str(text).unwrap())
}

fn from_serde(v: &serde_json::Value) -> JsonValue {
    match v {
        serde_json::Value::Null => JsonValue::Null,
        serde_json::Value::Bool(b) => JsonValue::Bool(*b),
        serde_json::Value::Number(n) => JsonValue::Number(n.as_i64()),
        serde_json::Value::String(s) => JsonValue::Str(s.clone()),
        serde_json::Value::Array(a) => JsonValue::Array(a.iter().map(from_serde).collect()),
        serde_json::Value::Object(m) => JsonValue::Object(m.iter().map(|(k, x)| (k.clone(), from_serde(x))).collect()),
    }
}

fn item(field: &str, from: Option<&str>, from_string: Option<&str>, to: Option<&str>, to_string: Option<&str>) -> HistoryItemDto {
    HistoryItemDto {
        field: field.into(),
        from: from.map(String::from),
        from_string: from_string.map(String::from),
        to: to.map(String::from),
        to_string: to_string.map(String::from),
    }
}

fn history(created: &str, items: Vec<HistoryItemDto>) -> HistoryDto {
    HistoryDto { created: created.into(), items }
}

fn mapping() -> FieldMapping {
    FieldMapping {
        story_points: Some("customfield_10016".into()),
        epic_link: Some("customfield_10014".into()),
        sprint: Some("customfield_10020".into()),
        epic_start: None,
        epic_end: Some("duedate".into()),
    }
}

fn status(name: &str, key: &str) -> StatusDto {
    StatusDto { name: name.into(), status_category: Some(StatusCategoryDto { key: key.into() }) }
}

fn statuses() -> StatusCategories {
    build_status_categories(&[status("To Do", "new"), status("In Progress", "indeterminate"), status("Done", "done")])
}

fn issue_dto(fields: JsonValue, changelog: Option<ChangelogDto>) -> IssueDto {
    IssueDto { key: "ABC-1".into(), fields, changelog }
}

#[test]
fn parses_cloud_sprint_objects_and_dc_blobs() {
    let cloud = json(
        r#"[{ "id": 7, "name": "Sprint 7", "state": "active",
            "startDate": "2026-05-01T08:00:00.000Z", "endDate": "2026-05-14T18:00:00.000Z" }]"#,
    );
    let refs = parse_sprint_field(Some(&cloud));
    assert_eq!(refs.len(), 1);
    assert_eq!(refs[0].id, 7);
    assert_eq!(refs[0].state, Some(SprintState::Active));
    assert!(refs[0].start_date.is_some());

    let dc = json(
        r#"["com.atlassian.greenhopper.service.sprint.Sprint@a1[id=42,rapidViewId=4,state=CLOSED,name=Sprint 3,startDate=2026-01-05T09:00:00.000+05:30,endDate=2026-01-19T17:00:00.000+05:30,completeDate=2026-01-19T17:01:00.000+05:30,sequence=42]"]"#,
    );
    let refs = parse_sprint_field(Some(&dc));
    assert_eq!(refs.len(), 1);
    assert_eq!(refs[0].id, 42);
    assert_eq!(refs[0].name.as_deref(), Some("Sprint 3"));
    assert_eq!(refs[0].state, Some(SprintState::Closed));
    assert!(refs[0].end_date.is_some());
}

#[test]
fn maps_issue_with_status_history_and_reopen() {
    let dto = issue_dto(
        json(
            r#"{
                "summary": "Implement thing",
                "status": { "name": "In Progress", "statusCategory": { "key": "indeterminate" } },
                "created": "2026-01-02T10:00:00.000+0000",
                "customfield_10016": 5.0,
                "customfield_10020": []
            }"#,
        ),
        Some(ChangelogDto {
            histories: vec![
                history("2026-01-10T10:00:00.000+0000", vec![item("status", None, Some("To Do"), None, Some("Done"))]),
                history(
                    "2026-01-12T10:00:00.000+0000",
                    vec![item("status", None, Some("Done"), None, Some("In Progress"))],
                ),
            ],
        }),
    );
    let m = map_issue(&dto, "EPIC-1", &mapping(), &statuses(), &["Blocked".into()], now());
    // The library keeps whether the issue carries an estimate (the estimate
    // itself, 5.0, is a floating-point number left to the caller).
    assert!(m.issue.estimated);
    assert!(m.issue.reopened);
    assert_eq!(m.issue.done_at, None); // not currently done
    assert_eq!(m.issue.status_category, StatusCategory::InProgress);
    // Mid-history the issue *was* done.
    assert_eq!(m.issue.category_at(dt(2026, 1, 11)), StatusCategory::Done);
    assert_eq!(m.issue.category_at(dt(2026, 1, 13)), StatusCategory::InProgress);
}

#[test]
fn attach_sprints_derives_commitment_and_spill() {
    let dto = issue_dto(
        json(
            r#"{
                "summary": "Spilly",
                "status": { "name": "In Progress", "statusCategory": { "key": "indeterminate" } },
                "created": "2026-01-01T10:00:00.000+0000",
                "customfield_10016": 3.0,
                "customfield_10020": [
                    { "id": 1, "name": "S1", "state": "closed" },
                    { "id": 2, "name": "S2", "state": "active" }
                ]
            }"#,
        ),
        None,
    );
    let m = map_issue(&dto, "EPIC-1", &mapping(), &statuses(), &[], now());
    let sprints = vec![
        sprint(1, "S1", SprintState::Closed, dt(2026, 1, 5), dt(2026, 1, 19)),
        sprint(2, "S2", SprintState::Active, dt(2026, 1, 20), dt(2026, 2, 2)),
    ];
    let issue = attach_sprints(m, &sprints);
    assert_eq!(issue.spill_count, 1);
    assert_eq!(issue.current_sprint_id, Some(2));
    let s1 = issue.sprints.iter().find(|l| l.sprint_id == 1).unwrap();
    assert!(s1.was_committed);
    assert_eq!(s1.done_at_close, Some(false));
    let s2 = issue.sprints.iter().find(|l| l.sprint_id == 2).unwrap();
    assert_eq!(s2.done_at_close, None);
}

#[test]
fn mid_sprint_addition_detected_from_changelog() {
    let dto = issue_dto(
        json(
            r#"{
                "summary": "Added late",
                "status": { "name": "To Do", "statusCategory": { "key": "new" } },
                "created": "2026-01-01T10:00:00.000+0000",
                "customfield_10016": 2.0,
                "customfield_10020": [{ "id": 1, "name": "S1", "state": "closed" }]
            }"#,
        ),
        Some(ChangelogDto {
            histories: vec![history("2026-01-12T10:00:00.000+0000", vec![item("Sprint", Some(""), None, Some("1"), None)])],
        }),
    );
    let m = map_issue(&dto, "EPIC-1", &mapping(), &statuses(), &[], now());
    let sprints = vec![sprint(1, "S1", SprintState::Closed, dt(2026, 1, 5), dt(2026, 1, 19))];
    let issue = attach_sprints(m, &sprints);
    let s1 = &issue.sprints[0];
    assert!(!s1.was_committed);
    assert!(s1.added_mid_sprint);
}

#[test]
fn maps_epic_with_carried_from_and_descoping() {
    let dto = issue_dto(
        json(
            r#"{
                "summary": "Big Epic",
                "status": { "name": "In Progress", "statusCategory": { "key": "indeterminate" } },
                "assignee": { "displayName": "Kasun" },
                "customfield_10016": 40.0,
                "duedate": "2026-03-15",
                "fixVersions": [{ "name": "Increment 24" }, { "name": "Increment 25" }]
            }"#,
        ),
        None,
    );
    let epic = map_epic(&dto, &mapping(), "Increment 25");
    assert_eq!(epic.owner.as_deref(), Some("Kasun"));
    // The epic's own estimate (40.0) is a floating-point number the caller
    // reads; the library maps everything else.
    assert_eq!(epic.end_date, Some(date(2026, 3, 15)));
    assert_eq!(epic.carried_from.as_deref(), Some("Increment 24"));

    assert!(is_descoping_resolution("Won't Do"));
    assert!(is_descoping_resolution("Duplicate"));
    assert!(!is_descoping_resolution("Fixed"));
}

#[test]
fn descoping_resolution_ignores_case() {
    assert!(is_descoping_resolution("WON'T DO"));
    assert!(is_descoping_resolution("wont do"));
    assert!(is_descoping_resolution("Cannot Reproduce"));
    assert!(!is_descoping_resolution("Done"));
}

#[test]
fn status_categories_are_found_by_lower_cased_name() {
    let s = statuses();
    assert_eq!(s.get("in progress"), Some(StatusCategory::InProgress));
    assert_eq!(s.get("done"), Some(StatusCategory::Done));
    assert_eq!(s.get("Done"), None);
    // A later status with the same name overrides an earlier one.
    let s2 = build_status_categories(&[status("Review", "indeterminate"), status("REVIEW", "done")]);
    assert_eq!(s2.get("review"), Some(StatusCategory::Done));
}

#[test]
fn descoped_issue_never_spills() {
    let dto = issue_dto(
        json(
            r#"{
                "summary": "Dropped",
                "status": { "name": "Done", "statusCategory": { "key": "done" } },
                "resolution": { "name": "Won't Do" },
                "created": "2026-01-01T10:00:00.000+0000",
                "customfield_10020": [{ "id": 1, "name": "S1", "state": "closed" }]
            }"#,
        ),
        None,
    );
    let m = map_issue(&dto, "EPIC-1", &mapping(), &statuses(), &[], now());
    assert!(m.issue.descoped);
    let sprints = vec![sprint(1, "S1", SprintState::Closed, dt(2026, 1, 5), dt(2026, 1, 19))];
    let issue = attach_sprints(m, &sprints);
    assert_eq!(issue.spill_count, 0);
}

#[test]
fn blob_groups_build_a_sprint_reference() {
    let g = |t: &str| Some(Some(t.to_string()));
    let r = sprint_ref_from_groups(g("42"), g("Sprint 3"), g("CLOSED"), g("2026-01-05T09:00:00.000Z"), g("<null>"))
        .expect("an id gives a reference");
    assert_eq!(r.id, 42);
    assert_eq!(r.name.as_deref(), Some("Sprint 3"));
    assert_eq!(r.state, Some(SprintState::Closed));
    assert_eq!(r.start_date, increment_tracker::time::parse_jira_datetime("2026-01-05T09:00:00.000Z"));
    assert!(r.start_date.is_some());
    assert_eq!(r.end_date, None);
    let bare = sprint_ref_from_groups(g("7"), Some(None), None, g(""), None).expect("an id gives a reference");
    assert_eq!(bare.id, 7);
    assert_eq!(bare.name, None);
    assert_eq!(bare.state, None);
    assert_eq!(bare.start_date, None);
    assert!(sprint_ref_from_groups(g("<null>"), g("S"), None, None, None).is_none());
    assert!(sprint_ref_from_groups(None, g("S"), None, None, None).is_none());
}

#[test]
fn creation_instant_falls_back_to_the_time_of_mapping() {
    let dated = issue_dto(json(r#"{ "summary": "A", "created": "2026-01-02T10:00:00.000+0000" }"#), None);
    assert!(!needs_clock(&dated));
    let m = map_issue(&dated, "EPIC-1", &mapping(), &statuses(), &[], 7);
    assert_eq!(Some(m.issue.created), increment_tracker::time::parse_jira_datetime("2026-01-02T10:00:00.000+0000"));

    let undated = issue_dto(json(r#"{ "summary": "B" }"#), None);
    assert!(needs_clock(&undated));
    let m = map_issue(&undated, "EPIC-1", &mapping(), &statuses(), &[], 7);
    assert_eq!(m.issue.created, 7);

    let unreadable = issue_dto(json(r#"{ "summary": "C", "created": "yesterday" }"#), None);
    assert!(needs_clock(&unreadable));
    let m = map_issue(&unreadable, "EPIC-1", &mapping(), &statuses(), &[], 7);
    assert_eq!(m.issue.created, 7);
}
