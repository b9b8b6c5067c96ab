//! Custom-field discovery. Story Points, Epic Link and Sprint are
//! instance-specific custom fields (`customfield_NNNNN`); they are matched by
//! well-known names, and the user may override the mapping.

use vstd::prelude::*;

use crate::dto::FieldDto;
use crate::text;
use crate::text::opt_view;

verus! {

pub struct FieldMapping {
    pub story_points: Option<String>,
    pub epic_link: Option<String>,
    pub sprint: Option<String>,
    pub epic_start: Option<String>,
    pub epic_end: Option<String>,
}

impl FieldMapping {
    pub open spec fn is_usable_spec(&self) -> bool {
        self.story_points is Some && self.sprint is Some
    }

    /// Story points and sprint are both mapped.
    pub fn is_usable(&self) -> (r: bool)
        ensures
            r == self.is_usable_spec(),
    {
        self.story_points.is_some() && self.sprint.is_some()
    }
}

/// A custom field whose lower-cased name is `wanted`.
pub open spec fn field_matches(f: FieldDto, wanted: Seq<char>) -> bool {
    text::lowercase(f.name@) == wanted && text::starts_with_spec(f.id@, "customfield_"@)
}

/// The id of the first field in `fields` that matches `wanted`.
pub open spec fn first_field(fields: Seq<FieldDto>, wanted: Seq<char>) -> Option<Seq<char>>
    decreases fields.len(),
{
    if fields.len() == 0 {
        None
    } else if field_matches(fields[0], wanted) {
        Some(fields[0].id@)
    } else {
        first_field(fields.drop_first(), wanted)
    }
}

/// Candidate names in priority order: the first that any field matches wins.
pub open spec fn find_spec(fields: Seq<FieldDto>, names: Seq<Seq<char>>) -> Option<Seq<char>>
    decreases names.len(),
{
    if names.len() == 0 {
        None
    } else {
        match first_field(fields, names[0]) {
            Some(id) => Some(id),
            None => find_spec(fields, names.drop_first()),
        }
    }
}

fn first_field_exec(fields: &[FieldDto], wanted: &str) -> (r: Option<String>)
    ensures
        opt_view(r) == first_field(fields@, wanted@),
{
    let mut i: usize = 0;
    assert(fields@.subrange(0, fields@.len() as int) =~= fields@);
    while i < fields.len()
        invariant
            i <= fields@.len(),
            first_field(fields@, wanted@) == first_field(fields@.subrange(i as int, fields@.len() as int), wanted@),
        decreases fields@.len() - i,
    {
        let ghost rest = fields@.subrange(i as int, fields@.len() as int);
        assert(rest.drop_first() =~= fields@.subrange(i + 1, fields@.len() as int));
        assert(rest[0] == fields@[i as int]);
        let f = &fields[i];
        let lower = text::to_lower(f.name.as_str());
        if text::str_eq(lower.as_str(), wanted) && text::starts_with(f.id.as_str(), "customfield_") {
            return Some(f.id.clone());
        }
        i = i + 1;
    }
    None
}

pub fn find(fields: &[FieldDto], names: &Vec<&str>) -> (r: Option<String>)
    ensures
        opt_view(r) == find_spec(fields@, names@.map_values(|n: &str| n@)),
{
    let ghost ns = names@.map_values(|n: &str| n@);
    let mut i: usize = 0;
    assert(ns.subrange(0, ns.len() as int) =~= ns);
    while i < names.len()
        invariant
            i <= names@.len(),
            ns == names@.map_values(|n: &str| n@),
            find_spec(fields@, ns) == find_spec(fields@, ns.subrange(i as int, ns.len() as int)),
        decreases names@.len() - i,
    {
        let ghost rest = ns.subrange(i as int, ns.len() as int);
        assert(rest.drop_first() =~= ns.subrange(i + 1, ns.len() as int));
        assert(rest[0] == names@[i as int]@);
        if let Some(id) = first_field_exec(fields, names[i]) {
            return Some(id);
        }
        i = i + 1;
    }
    None
}

pub open spec fn story_point_names() -> Seq<Seq<char>> {
    seq!["story points"@, "story point estimate"@]
}

pub open spec fn epic_link_names() -> Seq<Seq<char>> {
    seq!["epic link"@, "parent link"@]
}

pub open spec fn sprint_names() -> Seq<Seq<char>> {
    seq!["sprint"@]
}

pub open spec fn epic_start_names() -> Seq<Seq<char>> {
    seq!["start date"@, "target start"@]
}

pub open spec fn epic_end_names() -> Seq<Seq<char>> {
    seq!["target end"@]
}

/// Maps each field by its candidate names. The standard `duedate` serves as
/// the epic end when no custom "Target end" field exists.
pub fn discover(fields: &[FieldDto]) -> (m: FieldMapping)
    ensures
        opt_view(m.story_points) == find_spec(fields@, story_point_names()),
        opt_view(m.epic_link) == find_spec(fields@, epic_link_names()),
        opt_view(m.sprint) == find_spec(fields@, sprint_names()),
        opt_view(m.epic_start) == find_spec(fields@, epic_start_names()),
        opt_view(m.epic_end) == (match find_spec(fields@, epic_end_names()) {
            Some(id) => Some(id),
            None => Some("duedate"@),
        }),
{
    let sp_names = vec!["story points", "story point estimate"];
    assert(sp_names@.map_values(|n: &str| n@) =~= story_point_names());
    let link_names = vec!["epic link", "parent link"];
    assert(link_names@.map_values(|n: &str| n@) =~= epic_link_names());
    let sprint_names_v = vec!["sprint"];
    assert(sprint_names_v@.map_values(|n: &str| n@) =~= sprint_names());
    let start_names = vec!["start date", "target start"];
    assert(start_names@.map_values(|n: &str| n@) =~= epic_start_names());
    let end_names = vec!["target end"];
    assert(end_names@.map_values(|n: &str| n@) =~= epic_end_names());
    let epic_end = match find(fields, &end_names) {
        Some(id) => Some(id),
        None => Some(text::owned("duedate")),
    };
    FieldMapping {
        story_points: find(fields, &sp_names),
        epic_link: find(fields, &link_names),
        sprint: find(fields, &sprint_names_v),
        epic_start: find(fields, &start_names),
        epic_end,
    }
}

} // verus!
