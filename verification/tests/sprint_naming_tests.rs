use chrono::{NaiveDate, TimeZone, Utc};
use increment_tracker::model::{Increment, Sprint, SprintState};
use increment_tracker::sprint_naming::{filter_to_increment, parse_groups, ParsedSprintName, SprintNaming};

fn dt(y: i32, m: u32, d: u32) -> i64 {
    Utc.with_ymd_and_hms(y, m, d, 12, 0, 0).unwrap().timestamp_micros()
}

fn date(y: i32, m: u32, d: u32) -> i64 {
    NaiveDate::from_ymd_opt(y, m, d).unwrap().to_epoch_days() as i64
}

fn sprint(id: i64, name: &str, state: SprintState, start: i64, end: i64) -> Sprint {
    Sprint { id, name: name.into(), state, start_date: Some(start), end_date: Some(end), board_id: None }
}

fn increment() -> Increment {
    Increment {
        id: 1,
        name: "Increment 25".into(),
        jql: "fixVersion = \"Increment 25\"".into(),
        start_date: date(2026, 1, 5),
        end_date: date(2026, 3, 27),
        is_active: true,
    }
}

#[test]
fn parses_increment_and_sprint_numbers() {
    let n = SprintNaming::default();
    assert_eq!(n.parse("Pegasus 25:2"), Some(ParsedSprintName { increment: 25, sprint: 2 }));
    assert_eq!(n.parse("24:1"), Some(ParsedSprintName { increment: 24, sprint: 1 }));
    // Sprint number above the per-increment max is rejected (guards against
    // false matches like dates).
    assert_eq!(n.parse("Sprint 2026:30"), None);
    // No colon convention -> unparseable.
    assert_eq!(n.parse("Hardening Sprint"), None);
}

#[test]
fn filters_old_spilled_sprints_out_of_current_increment() {
    let sprints = vec![
        sprint(1, "Pegasus 24:5", SprintState::Closed, dt(2025, 11, 1), dt(2025, 11, 14)),
        sprint(2, "Pegasus 25:1", SprintState::Closed, dt(2026, 1, 5), dt(2026, 1, 18)),
        sprint(3, "Pegasus 25:2", SprintState::Active, dt(2026, 1, 19), dt(2026, 2, 1)),
    ];
    let kept = filter_to_increment(&increment(), sprints, &SprintNaming::default());
    let names: Vec<&str> = kept.iter().map(|s| s.name.as_str()).collect();
    assert_eq!(names, vec!["Pegasus 25:1", "Pegasus 25:2"]);
}

#[test]
fn keeps_forward_spilled_increment_when_viewing_a_past_increment() {
    let past = Increment {
        id: 2,
        name: "Increment 24".into(),
        jql: "x".into(),
        start_date: date(2025, 10, 1),
        end_date: date(2025, 12, 26),
        is_active: false,
    };
    let sprints = vec![
        sprint(1, "Pegasus 24:5", SprintState::Closed, dt(2025, 11, 1), dt(2025, 11, 14)),
        sprint(2, "Pegasus 24:6", SprintState::Closed, dt(2025, 11, 15), dt(2025, 11, 28)),
        sprint(3, "Pegasus 25:1", SprintState::Active, dt(2026, 1, 5), dt(2026, 1, 18)),
    ];
    let kept = filter_to_increment(&past, sprints, &SprintNaming::default());
    let names: Vec<&str> = kept.iter().map(|s| s.name.as_str()).collect();
    assert_eq!(names, vec!["Pegasus 24:5", "Pegasus 24:6"]);
}

#[test]
fn unparseable_sprints_are_left_untouched() {
    let sprints = vec![
        sprint(1, "Hardening", SprintState::Closed, dt(2026, 1, 5), dt(2026, 1, 18)),
        sprint(2, "Stabilization", SprintState::Active, dt(2026, 1, 19), dt(2026, 2, 1)),
    ];
    let kept = filter_to_increment(&increment(), sprints, &SprintNaming::default());
    assert_eq!(kept.len(), 2);
}

#[test]
fn custom_pattern_is_honored() {
    let naming = SprintNaming { pattern: r"INC(\d+)-S(\d+)".into(), sprints_per_increment: 6 };
    assert_eq!(naming.parse("INC25-S2"), Some(ParsedSprintName { increment: 25, sprint: 2 }));
}

#[test]
fn invalid_pattern_parses_nothing() {
    let naming = SprintNaming { pattern: r"(\d+".into(), sprints_per_increment: 6 };
    assert_eq!(naming.parse("Pegasus 25:2"), None);
}

#[test]
fn sprint_number_zero_is_rejected() {
    let n = SprintNaming::default();
    assert_eq!(n.parse("Pegasus 25:0"), None);
    assert_eq!(n.parse("Pegasus 25:6"), Some(ParsedSprintName { increment: 25, sprint: 6 }));
    assert_eq!(n.parse("Pegasus 25:7"), None);
}

#[test]
fn unparseable_sprint_survives_filtering_beside_parseable_ones() {
    let sprints = vec![
        sprint(1, "Pegasus 24:5", SprintState::Closed, dt(2025, 11, 1), dt(2025, 11, 14)),
        sprint(2, "Hardening", SprintState::Closed, dt(2026, 1, 5), dt(2026, 1, 18)),
        sprint(3, "Pegasus 25:1", SprintState::Active, dt(2026, 1, 19), dt(2026, 2, 1)),
    ];
    let kept = filter_to_increment(&increment(), sprints, &SprintNaming::default());
    let names: Vec<&str> = kept.iter().map(|s| s.name.as_str()).collect();
    assert_eq!(names, vec!["Hardening", "Pegasus 25:1"]);
}

#[test]
fn sprint_number_beyond_u32_is_rejected() {
    let n = SprintNaming::default();
    // 4294967297 wraps to 1 as a u32; the range check is on the number itself.
    assert_eq!(n.parse("Pegasus 1:4294967297"), None);
    assert_eq!(n.parse("Pegasus 1:6"), Some(ParsedSprintName { increment: 1, sprint: 6 }));
    assert_eq!(n.parse("Pegasus 1:7"), None);
}

#[test]
fn captured_groups_are_read_as_numbers() {
    let g = |t: &str| Some(Some(t.to_string()));
    assert_eq!(parse_groups(6, g("25"), g("2")), Some(ParsedSprintName { increment: 25, sprint: 2 }));
    assert_eq!(parse_groups(6, g("25"), g("4294967297")), None);
    assert_eq!(parse_groups(6, g("25"), g("0")), None);
    assert_eq!(parse_groups(6, g("x"), g("2")), None);
    assert_eq!(parse_groups(6, Some(None), g("2")), None);
    assert_eq!(parse_groups(6, None, None), None);
}
