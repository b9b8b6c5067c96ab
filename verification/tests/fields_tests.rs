use increment_tracker::dto::FieldDto;
use increment_tracker::fields::discover;

fn field(id: &str, name: &str) -> FieldDto {
    FieldDto { id: id.into(), name: name.into(), schema: None }
}

#[test]
fn discovers_common_fields() {
    let fields = vec![
        field("customfield_10016", "Story Points"),
        field("customfield_10014", "Epic Link"),
        field("customfield_10020", "Sprint"),
        field("summary", "Summary"),
    ];
    let m = discover(&fields);
    assert_eq!(m.story_points.as_deref(), Some("customfield_10016"));
    assert_eq!(m.epic_link.as_deref(), Some("customfield_10014"));
    assert_eq!(m.sprint.as_deref(), Some("customfield_10020"));
    assert_eq!(m.epic_end.as_deref(), Some("duedate"));
    assert!(m.is_usable());
}

#[test]
fn ignores_non_custom_fields_with_matching_names() {
    let fields = vec![field("sprint", "Sprint")];
    let m = discover(&fields);
    assert_eq!(m.sprint, None);
    assert!(!m.is_usable());
}

#[test]
fn matches_field_names_in_any_case_and_prefers_the_first() {
    let fields = vec![
        field("customfield_1", "STORY POINTS"),
        field("customfield_2", "Story Points"),
        field("customfield_3", "sprint"),
    ];
    let m = discover(&fields);
    assert_eq!(m.story_points.as_deref(), Some("customfield_1"));
    assert_eq!(m.sprint.as_deref(), Some("customfield_3"));
    assert!(m.is_usable());
}
