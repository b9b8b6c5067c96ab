//! Boundary between Jira's wire records and the domain. Mapping happens in
//! two phases because sprint dates (needed to decide commitment and
//! done-at-close) may only be known after the agile API is consulted:
//!
//! 1. `map_issue` — reads fields and changelog into a `MappedIssue` that still
//!    carries raw sprint references and sprint-added instants.
//! 2. `attach_sprints` — with full sprint metadata, derives the `IssueSprint`
//!    facts (committed / added mid-sprint / done at close) and the spill count.

use vstd::prelude::*;

use crate::dto::{ChangelogDto, HistoryDto, HistoryItemDto, IssueDto, StatusDto};
use crate::fields::FieldMapping;
use crate::json::{self, JsonValue};
use crate::model::{category_of_key, is_descoping_resolution, is_descoping_spec, state_of_text, Epic, Issue, IssueSprint, Sprint, SprintState, StatusCategory, StatusEvent};
use crate::order::{self, SortKey};
use crate::pattern;
use crate::text::{self, opt_view};
use crate::time;

verus! {

/// Grace window after sprint start during which joining still counts as
/// "committed" (planning meetings often run on day one).
pub const COMMITMENT_GRACE_HOURS: i64 = 24;

// ---------------------------------------------------------------------------
// Status categories by status name
// ---------------------------------------------------------------------------

/// Workflow statuses by lower-cased name; a later entry for the same name
/// overrides an earlier one.
pub struct StatusCategories {
    pub entries: Vec<(String, StatusCategory)>,
}

pub open spec fn lookup_category(entries: Seq<(String, StatusCategory)>, name: Seq<char>) -> Option<StatusCategory>
    decreases entries.len(),
{
    if entries.len() == 0 {
        None
    } else if entries.last().0@ == name {
        Some(entries.last().1)
    } else {
        lookup_category(entries.drop_last(), name)
    }
}

/// A status's category from its category key (in progress when absent).
pub open spec fn status_dto_category(s: StatusDto) -> StatusCategory {
    match s.status_category {
        Some(c) => category_of_key(c.key@),
        None => StatusCategory::InProgress,
    }
}

pub fn build_status_categories(statuses: &[StatusDto]) -> (r: StatusCategories)
    ensures
        r.entries@.len() == statuses@.len(),
        forall|i: int| 0 <= i < statuses@.len() ==> (#[trigger] r.entries@[i]).0@ == text::lowercase(statuses@[i].name@)
            && r.entries@[i].1 == status_dto_category(statuses@[i]),
{
    let mut entries: Vec<(String, StatusCategory)> = Vec::new();
    let mut i: usize = 0;
    while i < statuses.len()
        invariant
            i <= statuses@.len(),
            entries@.len() == i,
            forall|k: int| 0 <= k < i ==> (#[trigger] entries@[k]).0@ == text::lowercase(statuses@[k].name@)
                && entries@[k].1 == status_dto_category(statuses@[k]),
        decreases statuses@.len() - i,
    {
        let s = &statuses[i];
        let cat = match &s.status_category {
            Some(c) => StatusCategory::from_jira_key(c.key.as_str()),
            None => StatusCategory::InProgress,
        };
        entries.push((text::to_lower(s.name.as_str()), cat));
        i = i + 1;
    }
    StatusCategories { entries }
}

impl StatusCategories {
    pub fn get(&self, name: &str) -> (r: Option<StatusCategory>)
        ensures
            r == lookup_category(self.entries@, name@),
    {
        let k = text::chars_of(name);
        let mut i: usize = self.entries.len();
        assert(self.entries@.take(i as int) =~= self.entries@);
        while i > 0
            invariant
                i <= self.entries@.len(),
                k@ == name@,
                lookup_category(self.entries@, name@) == lookup_category(self.entries@.take(i as int), name@),
            decreases i,
        {
            let ghost pre = self.entries@.take(i as int);
            assert(pre.drop_last() =~= self.entries@.take(i - 1));
            assert(pre.last() == self.entries@[i - 1]);
            let e = text::chars_of(self.entries[i - 1].0.as_str());
            if text::seq_eq(&e, &k) {
                return Some(self.entries[i - 1].1);
            }
            i = i - 1;
        }
        None
    }
}

/// The category of a status named in a changelog item (lower-cased lookup;
/// in progress when absent or unknown).
pub open spec fn named_category(statuses: Seq<(String, StatusCategory)>, name: Option<String>) -> StatusCategory {
    match name {
        Some(n) => match lookup_category(statuses, text::lowercase(n@)) {
            Some(c) => c,
            None => StatusCategory::InProgress,
        },
        None => StatusCategory::InProgress,
    }
}

fn named_category_exec(statuses: &StatusCategories, name: &Option<String>) -> (c: StatusCategory)
    ensures
        c == named_category(statuses.entries@, *name),
{
    match name {
        Some(n) => {
            let lower = text::to_lower(n.as_str());
            match statuses.get(lower.as_str()) {
                Some(c) => c,
                None => StatusCategory::InProgress,
            }
        },
        None => StatusCategory::InProgress,
    }
}

// ---------------------------------------------------------------------------
// Sprint field parsing (Cloud objects and Data Center toString blobs)
// ---------------------------------------------------------------------------

/// A sprint as an issue's Sprint field describes it.
pub struct SprintRef {
    pub id: i64,
    pub name: Option<String>,
    pub state: Option<SprintState>,
    pub start_date: Option<i64>,
    pub end_date: Option<i64>,
}

pub struct SprintRefView {
    pub id: i64,
    pub name: Option<Seq<char>>,
    pub state: Option<SprintState>,
    pub start_date: Option<i64>,
    pub end_date: Option<i64>,
}

impl View for SprintRef {
    type V = SprintRefView;

    open spec fn view(&self) -> SprintRefView {
        SprintRefView {
            id: self.id,
            name: opt_view(self.name),
            state: self.state,
            start_date: self.start_date,
            end_date: self.end_date,
        }
    }
}

pub open spec fn opt_state(s: Option<Seq<char>>) -> Option<SprintState> {
    match s {
        Some(t) => Some(state_of_text(text::lowercase(t))),
        None => None,
    }
}

pub open spec fn opt_instant(s: Option<Seq<char>>) -> Option<i64> {
    match s {
        Some(t) => time::jira_datetime_spec(t),
        None => None,
    }
}

/// The string member `key` of an object.
pub open spec fn member_str(v: JsonValue, key: Seq<char>) -> Option<Seq<char>> {
    match json::get_spec(v, key) {
        Some(x) => json::str_spec(x),
        None => None,
    }
}

/// A Cloud sprint object: needs an integer `id`.
pub open spec fn object_ref(v: JsonValue) -> Option<SprintRefView> {
    match json::get_spec(v, "id"@) {
        Some(JsonValue::Number(Some(id))) => Some(
            SprintRefView {
                id,
                name: member_str(v, "name"@),
                state: opt_state(member_str(v, "state"@)),
                start_date: opt_instant(member_str(v, "startDate"@)),
                end_date: opt_instant(member_str(v, "endDate"@)),
            },
        ),
        _ => None,
    }
}

fn member_str_exec(v: &JsonValue, key: &str) -> (r: Option<String>)
    ensures
        opt_view(r) == member_str(*v, key@),
{
    match v.get(key) {
        Some(x) => match x.as_str() {
            Some(s) => Some(s.clone()),
            None => None,
        },
        None => None,
    }
}

fn opt_state_exec(s: &Option<String>) -> (r: Option<SprintState>)
    ensures
        r == opt_state(opt_view(*s)),
{
    match s {
        Some(t) => Some(SprintState::from_jira(t.as_str())),
        None => None,
    }
}

fn opt_instant_exec(s: &Option<String>) -> (r: Option<i64>)
    ensures
        r == opt_instant(opt_view(*s)),
{
    match s {
        Some(t) => time::parse_jira_datetime(t.as_str()),
        None => None,
    }
}

fn parse_sprint_object(v: &JsonValue) -> (r: Option<SprintRef>)
    ensures
        r matches Some(x) ==> object_ref(*v) == Some(x@),
        r is None ==> object_ref(*v) is None,
{
    let id = match v.get("id") {
        Some(JsonValue::Number(Some(id))) => *id,
        _ => return None,
    };
    let name = member_str_exec(v, "name");
    let state_text = member_str_exec(v, "state");
    let start = member_str_exec(v, "startDate");
    let end = member_str_exec(v, "endDate");
    Some(
        SprintRef {
            id,
            name,
            state: opt_state_exec(&state_text),
            start_date: opt_instant_exec(&start),
            end_date: opt_instant_exec(&end),
        },
    )
}

/// A captured group's text, when present, non-empty and not `<null>`.
pub open spec fn group_value(g: Option<Option<Seq<char>>>) -> Option<Seq<char>> {
    match g {
        Some(Some(v)) => if v.len() > 0 && v != "<null>"@ {
            Some(v)
        } else {
            None
        },
        _ => None,
    }
}

/// A sprint reference from the groups captured out of a Data Center blob:
/// there is one when the `id` group holds an `i64`; the other fields are
/// read from their groups where present.
pub open spec fn blob_from_groups(
    id: Option<Option<Seq<char>>>,
    name: Option<Option<Seq<char>>>,
    state: Option<Option<Seq<char>>>,
    start: Option<Option<Seq<char>>>,
    end: Option<Option<Seq<char>>>,
) -> Option<SprintRefView> {
    match group_value(id) {
        Some(id_text) => match text::parse_i64_spec(id_text) {
            Some(id) => Some(
                SprintRefView {
                    id,
                    name: group_value(name),
                    state: opt_state(group_value(state)),
                    start_date: opt_instant(group_value(start)),
                    end_date: opt_instant(group_value(end)),
                },
            ),
            None => None,
        },
        None => None,
    }
}

/// Data Center serializes sprints as
/// `com.atlassian.greenhopper...Sprint@1a2b[id=42,state=CLOSED,name=Sprint 3,startDate=...,endDate=...,...]`.
pub open spec fn blob_ref(s: Seq<char>) -> Option<SprintRefView> {
    blob_from_groups(
        pattern::regex_group(r"id=(\d+)"@, s, 1),
        pattern::regex_group(r"name=([^,\]]+)"@, s, 1),
        pattern::regex_group(r"state=([A-Za-z]+)"@, s, 1),
        pattern::regex_group(r"startDate=([^,\]]+)"@, s, 1),
        pattern::regex_group(r"endDate=([^,\]]+)"@, s, 1),
    )
}

fn group_value_exec(g: Option<Option<String>>) -> (r: Option<String>)
    ensures
        opt_view(r) == group_value(pattern::group_view(g)),
{
    match g {
        Some(Some(v)) => {
            if text::chars_of(v.as_str()).len() > 0 && !text::str_eq(v.as_str(), "<null>") {
                Some(v)
            } else {
                None
            }
        },
        _ => None,
    }
}

/// Builds a sprint reference from the groups captured out of a Data Center
/// blob (see `blob_from_groups`).
pub fn sprint_ref_from_groups(
    id: Option<Option<String>>,
    name: Option<Option<String>>,
    state: Option<Option<String>>,
    start: Option<Option<String>>,
    end: Option<Option<String>>,
) -> (r: Option<SprintRef>)
    ensures
        r matches Some(x) ==> blob_from_groups(
            pattern::group_view(id),
            pattern::group_view(name),
            pattern::group_view(state),
            pattern::group_view(start),
            pattern::group_view(end),
        ) == Some(x@),
        r is None ==> blob_from_groups(
            pattern::group_view(id),
            pattern::group_view(name),
            pattern::group_view(state),
            pattern::group_view(start),
            pattern::group_view(end),
        ) is None,
{
    let id_text = match group_value_exec(id) {
        Some(t) => t,
        None => return None,
    };
    let id = match text::parse_i64(id_text.as_str()) {
        Some(id) => id,
        None => return None,
    };
    let name = group_value_exec(name);
    let state_text = group_value_exec(state);
    let start = group_value_exec(start);
    let end = group_value_exec(end);
    Some(
        SprintRef {
            id,
            name,
            state: opt_state_exec(&state_text),
            start_date: opt_instant_exec(&start),
            end_date: opt_instant_exec(&end),
        },
    )
}

fn parse_sprint_blob(s: &str) -> (r: Option<SprintRef>)
    ensures
        r matches Some(x) ==> blob_ref(s@) == Some(x@),
        r is None ==> blob_ref(s@) is None,
{
    let id = pattern::capture_group(r"id=(\d+)", s, 1);
    let name = pattern::capture_group(r"name=([^,\]]+)", s, 1);
    let state = pattern::capture_group(r"state=([A-Za-z]+)", s, 1);
    let start = pattern::capture_group(r"startDate=([^,\]]+)", s, 1);
    let end = pattern::capture_group(r"endDate=([^,\]]+)", s, 1);
    sprint_ref_from_groups(id, name, state, start, end)
}

/// One entry of the Sprint field: an object (Cloud) or a blob (Data Center).
pub open spec fn item_ref(v: JsonValue) -> Option<SprintRefView> {
    match v {
        JsonValue::Object(_) => object_ref(v),
        JsonValue::Str(s) => blob_ref(s@),
        _ => None,
    }
}

pub open spec fn has_ref_id(refs: Seq<SprintRefView>, id: i64) -> bool {
    exists|k: int| 0 <= k < refs.len() && (#[trigger] refs[k]).id == id
}

/// The sprint references of a Sprint field's entries, in order, each sprint
/// id once (the first entry for an id wins).
pub open spec fn refs_spec(items: Seq<JsonValue>) -> Seq<SprintRefView>
    decreases items.len(),
{
    if items.len() == 0 {
        Seq::empty()
    } else {
        let prev = refs_spec(items.drop_last());
        match item_ref(items.last()) {
            Some(r) => if has_ref_id(prev, r.id) {
                prev
            } else {
                prev.push(r)
            },
            None => prev,
        }
    }
}

pub open spec fn sprint_field_spec(value: Option<JsonValue>) -> Seq<SprintRefView> {
    match value {
        Some(JsonValue::Array(items)) => refs_spec(items@),
        _ => Seq::empty(),
    }
}

pub open spec fn refs_view(refs: Seq<SprintRef>) -> Seq<SprintRefView> {
    refs.map_values(|r: SprintRef| r@)
}

pub fn parse_sprint_field(value: Option<&JsonValue>) -> (refs: Vec<SprintRef>)
    ensures
        refs_view(refs@) == sprint_field_spec(match value {
            Some(v) => Some(*v),
            None => None,
        }),
{
    let items = match value {
        Some(JsonValue::Array(items)) => items,
        _ => {
            assert(refs_view(Seq::<SprintRef>::empty()) =~= Seq::<SprintRefView>::empty());
            return Vec::new();
        },
    };
    let mut refs: Vec<SprintRef> = Vec::new();
    let mut i: usize = 0;
    assert(items@.take(0) =~= Seq::<JsonValue>::empty());
    assert(refs_view(refs@) =~= Seq::<SprintRefView>::empty());
    while i < items.len()
        invariant
            i <= items@.len(),
            refs_view(refs@) == refs_spec(items@.take(i as int)),
        decreases items@.len() - i,
    {
        assert(items@.take(i + 1).drop_last() =~= items@.take(i as int));
        assert(items@.take(i + 1).last() == items@[i as int]);
        let item = &items[i];
        let parsed = match item {
            JsonValue::Object(_) => parse_sprint_object(item),
            JsonValue::Str(s) => parse_sprint_blob(s.as_str()),
            _ => None,
        };
        if let Some(r) = parsed {
            let mut seen = false;
            let mut k: usize = 0;
            while k < refs.len()
                invariant
                    k <= refs@.len(),
                    seen == exists|q: int| 0 <= q < k && (#[trigger] refs@[q]).id == r.id,
                decreases refs@.len() - k,
            {
                if refs[k].id == r.id {
                    seen = true;
                }
                k = k + 1;
            }
            proof {
                let rv = refs_view(refs@);
                if seen {
                    let q = choose|q: int| 0 <= q < refs@.len() && (#[trigger] refs@[q]).id == r.id;
                    assert(rv[q].id == r.id);
                } else {
                    assert forall|q: int| 0 <= q < rv.len() implies (#[trigger] rv[q]).id != r.id by {
                        assert(rv[q] == refs@[q]@);
                    }
                }
            }
            if !seen {
                let ghost before = refs@;
                refs.push(r);
                assert(refs_view(refs@) =~= refs_view(before).push(r@));
            }
        }
        i = i + 1;
    }
    assert(items@.take(items@.len() as int) =~= items@);
    refs
}

// ---------------------------------------------------------------------------
// Changelog parsing
// ---------------------------------------------------------------------------

/// A comma-separated list of sprint ids; pieces that are not integers (after
/// trimming) are skipped.
pub open spec fn parse_ids(pieces: Seq<Seq<char>>) -> Seq<i64>
    decreases pieces.len(),
{
    if pieces.len() == 0 {
        Seq::empty()
    } else {
        let prev = parse_ids(pieces.drop_last());
        match text::parse_i64_spec(text::trim_spec(pieces.last())) {
            Some(id) => prev.push(id),
            None => prev,
        }
    }
}

pub open spec fn ids_spec(s: Option<String>) -> Seq<i64> {
    match s {
        Some(t) => parse_ids(text::split_spec(t@, ',')),
        None => parse_ids(text::split_spec(Seq::empty(), ',')),
    }
}

pub open spec fn status_item_event(item: HistoryItemDto, at: i64, statuses: Seq<(String, StatusCategory)>) -> StatusEvent {
    StatusEvent { at, from: named_category(statuses, item.from_string), to: named_category(statuses, item.to_string) }
}

/// Status transitions recorded by a history's items.
pub open spec fn items_events(items: Seq<HistoryItemDto>, at: i64, statuses: Seq<(String, StatusCategory)>) -> Seq<StatusEvent>
    decreases items.len(),
{
    if items.len() == 0 {
        Seq::empty()
    } else {
        let prev = items_events(items.drop_last(), at, statuses);
        if text::lowercase(items.last().field@) == "status"@ {
            prev.push(status_item_event(items.last(), at, statuses))
        } else {
            prev
        }
    }
}

/// Status transitions of a changelog, in changelog order; histories whose
/// timestamp does not parse are skipped.
pub open spec fn raw_events(histories: Seq<HistoryDto>, statuses: Seq<(String, StatusCategory)>) -> Seq<StatusEvent>
    decreases histories.len(),
{
    if histories.len() == 0 {
        Seq::empty()
    } else {
        let prev = raw_events(histories.drop_last(), statuses);
        match time::jira_datetime_spec(histories.last().created@) {
            Some(at) => prev + items_events(histories.last().items@, at, statuses),
            None => prev,
        }
    }
}

/// Sprint ids newly attached by one Sprint item: those in `to` that were not
/// in `from`, in `to`'s order, each paired with the instant.
pub open spec fn new_ids(to: Seq<i64>, before: Seq<i64>, at: i64) -> Seq<(i64, i64)>
    decreases to.len(),
{
    if to.len() == 0 {
        Seq::empty()
    } else {
        let prev = new_ids(to.drop_last(), before, at);
        if before.contains(to.last()) {
            prev
        } else {
            prev.push((to.last(), at))
        }
    }
}

pub open spec fn items_adds(items: Seq<HistoryItemDto>, at: i64) -> Seq<(i64, i64)>
    decreases items.len(),
{
    if items.len() == 0 {
        Seq::empty()
    } else {
        let prev = items_adds(items.drop_last(), at);
        let item = items.last();
        if text::lowercase(item.field@) == "sprint"@ {
            prev + new_ids(ids_spec(item.to), ids_spec(item.from), at)
        } else {
            prev
        }
    }
}

pub open spec fn raw_adds(histories: Seq<HistoryDto>) -> Seq<(i64, i64)>
    decreases histories.len(),
{
    if histories.len() == 0 {
        Seq::empty()
    } else {
        let prev = raw_adds(histories.drop_last());
        match time::jira_datetime_spec(histories.last().created@) {
            Some(at) => prev + items_adds(histories.last().items@, at),
            None => prev,
        }
    }
}

pub open spec fn has_key(m: Seq<(i64, i64)>, id: i64) -> bool {
    exists|k: int| 0 <= k < m.len() && (#[trigger] m[k]).0 == id
}

/// Keeps the first instant recorded for each sprint id.
pub open spec fn first_adds(adds: Seq<(i64, i64)>) -> Seq<(i64, i64)>
    decreases adds.len(),
{
    if adds.len() == 0 {
        Seq::empty()
    } else {
        let prev = first_adds(adds.drop_last());
        if has_key(prev, adds.last().0) {
            prev
        } else {
            prev.push(adds.last())
        }
    }
}

/// The instant recorded for a sprint id.
pub open spec fn added_at_spec(m: Seq<(i64, i64)>, id: i64) -> Option<i64>
    decreases m.len(),
{
    if m.len() == 0 {
        None
    } else if m[0].0 == id {
        Some(m[0].1)
    } else {
        added_at_spec(m.drop_first(), id)
    }
}

pub open spec fn keyed_events(events: Seq<StatusEvent>) -> Seq<(SortKey, StatusEvent)> {
    events.map_values(|e: StatusEvent| (SortKey { a: e.at as i128, b: 0, c: 0 }, e))
}

/// Events stably sorted by instant.
pub open spec fn sorted_events(events: Seq<StatusEvent>) -> Seq<StatusEvent> {
    order::sort_spec(keyed_events(events)).map_values(|p: (SortKey, StatusEvent)| p.1)
}

pub struct ParsedChangelog {
    pub status_events: Vec<StatusEvent>,
    /// When each sprint id was first attached to the issue, per changelog.
    pub sprint_added_at: Vec<(i64, i64)>,
}

fn parse_ids_exec(s: &Option<String>) -> (r: Vec<i64>)
    ensures
        r@ == ids_spec(*s),
{
    let pieces = match s {
        Some(t) => text::split_char(t.as_str(), ','),
        None => text::split_char("", ','),
    };
    proof {
        reveal_strlit("");
    }
    let ghost ps = match s {
        Some(t) => text::split_spec(t@, ','),
        None => text::split_spec(Seq::empty(), ','),
    };
    assert(""@ =~= Seq::<char>::empty());
    let mut out: Vec<i64> = Vec::new();
    let mut i: usize = 0;
    assert(ps.take(0) =~= Seq::<Seq<char>>::empty());
    while i < pieces.len()
        invariant
            i <= pieces@.len(),
            pieces@.len() == ps.len(),
            forall|k: int| 0 <= k < pieces@.len() ==> #[trigger] pieces@[k]@ == ps[k],
            out@ == parse_ids(ps.take(i as int)),
        decreases pieces@.len() - i,
    {
        assert(ps.take(i + 1).drop_last() =~= ps.take(i as int));
        assert(ps.take(i + 1).last() == pieces@[i as int]@);
        let t = text::trim(pieces[i].as_str());
        if let Some(id) = text::parse_i64(t.as_str()) {
            out.push(id);
        }
        i = i + 1;
    }
    assert(ps.take(ps.len() as int) =~= ps);
    out
}

fn contains_id(v: &Vec<i64>, id: i64) -> (r: bool)
    ensures
        r == v@.contains(id),
{
    let mut k: usize = 0;
    while k < v.len()
        invariant
            k <= v@.len(),
            forall|q: int| 0 <= q < k ==> v@[q] != id,
        decreases v@.len() - k,
    {
        if v[k] == id {
            assert(v@[k as int] == id);
            return true;
        }
        k = k + 1;
    }
    false
}

fn map_has(m: &Vec<(i64, i64)>, id: i64) -> (r: bool)
    ensures
        r == has_key(m@, id),
{
    let mut k: usize = 0;
    while k < m.len()
        invariant
            k <= m@.len(),
            forall|q: int| 0 <= q < k ==> (#[trigger] m@[q]).0 != id,
        decreases m@.len() - k,
    {
        if m[k].0 == id {
            return true;
        }
        k = k + 1;
    }
    false
}

proof fn lemma_first_adds_append(a: Seq<(i64, i64)>, b: Seq<(i64, i64)>)
    ensures
        first_adds(a + b) == first_adds_from(first_adds(a), b),
    decreases b.len(),
{
    if b.len() == 0 {
        assert(a + b =~= a);
    } else {
        lemma_first_adds_append(a, b.drop_last());
        assert((a + b).drop_last() =~= a + b.drop_last());
        assert((a + b).last() == b.last());
    }
}

/// Continues `first_adds` from an already reduced prefix.
pub open spec fn first_adds_from(m: Seq<(i64, i64)>, adds: Seq<(i64, i64)>) -> Seq<(i64, i64)>
    decreases adds.len(),
{
    if adds.len() == 0 {
        m
    } else {
        let prev = first_adds_from(m, adds.drop_last());
        if has_key(prev, adds.last().0) {
            prev
        } else {
            prev.push(adds.last())
        }
    }
}

proof fn lemma_first_adds_from_append(m: Seq<(i64, i64)>, a: Seq<(i64, i64)>, b: Seq<(i64, i64)>)
    ensures
        first_adds_from(m, a + b) == first_adds_from(first_adds_from(m, a), b),
    decreases b.len(),
{
    if b.len() == 0 {
        assert(a + b =~= a);
    } else {
        lemma_first_adds_from_append(m, a, b.drop_last());
        assert((a + b).drop_last() =~= a + b.drop_last());
        assert((a + b).last() == b.last());
    }
}

proof fn lemma_first_adds_is_from_empty(a: Seq<(i64, i64)>)
    ensures
        first_adds(a) == first_adds_from(Seq::empty(), a),
    decreases a.len(),
{
    if a.len() > 0 {
        lemma_first_adds_is_from_empty(a.drop_last());
    }
}

/// Records each newly attached sprint id of one Sprint item, keeping the
/// first instant per id.
fn record_adds(m: &mut Vec<(i64, i64)>, item: &HistoryItemDto, at: i64)
    ensures
        final(m)@ == first_adds_from(old(m)@, new_ids(ids_spec(item.to), ids_spec(item.from), at)),
{
    let before = parse_ids_exec(&item.from);
    let to = parse_ids_exec(&item.to);
    let ghost start = m@;
    let mut j: usize = 0;
    assert(to@.take(0) =~= Seq::<i64>::empty());
    while j < to.len()
        invariant
            j <= to@.len(),
            before@ == ids_spec(item.from),
            to@ == ids_spec(item.to),
            m@ == first_adds_from(start, new_ids(to@.take(j as int), before@, at)),
        decreases to@.len() - j,
    {
        let ghost nxt = to@.take(j + 1);
        assert(nxt.drop_last() =~= to@.take(j as int));
        assert(nxt.last() == to@[j as int]);
        let id = to[j];
        if !contains_id(&before, id) {
            let ghost prev_adds = new_ids(to@.take(j as int), before@, at);
            assert(new_ids(nxt, before@, at) == prev_adds.push((id, at)));
            assert(prev_adds.push((id, at)).drop_last() =~= prev_adds);
            if !map_has(m, id) {
                m.push((id, at));
            }
        }
        j = j + 1;
    }
    assert(to@.take(to@.len() as int) =~= to@);
}

/// Reads a changelog: status transitions stably sorted by instant, and the
/// instant each sprint id was first attached.
pub fn parse_changelog(changelog: Option<&ChangelogDto>, statuses: &StatusCategories) -> (r: ParsedChangelog)
    ensures
        match changelog {
            Some(log) => {
                &&& r.status_events@ == sorted_events(raw_events(log.histories@, statuses.entries@))
                &&& r.sprint_added_at@ == first_adds(raw_adds(log.histories@))
            },
            None => r.status_events@ == Seq::<StatusEvent>::empty() && r.sprint_added_at@ == Seq::<(i64, i64)>::empty(),
        },
{
    let log = match changelog {
        Some(l) => l,
        None => return ParsedChangelog { status_events: Vec::new(), sprint_added_at: Vec::new() },
    };
    let ghost hs = log.histories@;
    let mut events: Vec<StatusEvent> = Vec::new();
    let mut adds: Vec<(i64, i64)> = Vec::new();
    let mut h: usize = 0;
    assert(hs.take(0) =~= Seq::<HistoryDto>::empty());
    proof {
        lemma_first_adds_is_from_empty(raw_adds(hs.take(0)));
    }
    while h < log.histories.len()
        invariant
            h <= hs.len(),
            hs == log.histories@,
            events@ == raw_events(hs.take(h as int), statuses.entries@),
            adds@ == first_adds_from(Seq::empty(), raw_adds(hs.take(h as int))),
        decreases hs.len() - h,
    {
        let ghost nxt = hs.take(h + 1);
        assert(nxt.drop_last() =~= hs.take(h as int));
        assert(nxt.last() == hs[h as int]);
        let history = &log.histories[h];
        if let Some(at) = time::parse_jira_datetime(history.created.as_str()) {
            let ghost items = history.items@;
            let ghost ev0 = events@;
            let ghost adds0 = adds@;
            let ghost raw0 = raw_adds(hs.take(h as int));
            let mut k: usize = 0;
            assert(items.take(0) =~= Seq::<HistoryItemDto>::empty());
            assert(ev0 + items_events(items.take(0), at, statuses.entries@) =~= ev0);
            assert(raw0 + items_adds(items.take(0), at) =~= raw0);
            while k < history.items.len()
                invariant
                    k <= items.len(),
                    items == history.items@,
                    events@ == ev0 + items_events(items.take(k as int), at, statuses.entries@),
                    adds@ == first_adds_from(Seq::empty(), raw0 + items_adds(items.take(k as int), at)),
                decreases items.len() - k,
            {
                let ghost inxt = items.take(k + 1);
                assert(inxt.drop_last() =~= items.take(k as int));
                assert(inxt.last() == items[k as int]);
                let item = &history.items[k];
                let field = text::to_lower(item.field.as_str());
                if text::str_eq(field.as_str(), "status") {
                    let from = named_category_exec(statuses, &item.from_string);
                    let to = named_category_exec(statuses, &item.to_string);
                    events.push(StatusEvent { at, from, to });
                    assert(events@ =~= ev0 + items_events(inxt, at, statuses.entries@));
                    assert(items_adds(inxt, at) == items_adds(items.take(k as int), at)) by {
                        reveal_strlit("status");
                        reveal_strlit("sprint");
                        assert("status"@[1] != "sprint"@[1]);
                    }
                } else if text::str_eq(field.as_str(), "sprint") {
                    let ghost pre_adds = raw0 + items_adds(items.take(k as int), at);
                    let ghost extra = new_ids(ids_spec(item.to), ids_spec(item.from), at);
                    record_adds(&mut adds, item, at);
                    proof {
                        lemma_first_adds_from_append(Seq::empty(), pre_adds, extra);
                        assert(raw0 + items_adds(inxt, at) =~= pre_adds + extra);
                        assert(items_events(inxt, at, statuses.entries@) == items_events(items.take(k as int), at, statuses.entries@)) by {
                            reveal_strlit("status");
                            reveal_strlit("sprint");
                            assert("status"@[1] != "sprint"@[1]);
                        }
                    }
                } else {
                    assert(items_events(inxt, at, statuses.entries@) == items_events(items.take(k as int), at, statuses.entries@));
                    assert(items_adds(inxt, at) == items_adds(items.take(k as int), at));
                }
                k = k + 1;
            }
            assert(items.take(items.len() as int) =~= items);
            assert(raw_adds(nxt) == raw0 + items_adds(items, at));
        }
        h = h + 1;
    }
    assert(hs.take(hs.len() as int) =~= hs);
    proof {
        lemma_first_adds_is_from_empty(raw_adds(hs));
    }
    let ghost raw = events@;
    let mut keyed: Vec<(SortKey, StatusEvent)> = Vec::new();
    let mut q: usize = 0;
    while q < events.len()
        invariant
            q <= events@.len(),
            raw == events@,
            keyed@ == keyed_events(events@.take(q as int)),
        decreases events@.len() - q,
    {
        let e = events[q];
        keyed.push((SortKey { a: e.at as i128, b: 0, c: 0 }, e));
        assert(keyed_events(events@.take(q + 1)) =~= keyed_events(events@.take(q as int)).push(
            (SortKey { a: e.at as i128, b: 0, c: 0 }, e),
        ));
        q = q + 1;
    }
    assert(events@.take(events@.len() as int) =~= events@);
    let sorted = order::sort_by_key(keyed);
    let mut status_events: Vec<StatusEvent> = Vec::new();
    let mut w: usize = 0;
    while w < sorted.len()
        invariant
            w <= sorted@.len(),
            status_events@ == sorted@.take(w as int).map_values(|p: (SortKey, StatusEvent)| p.1),
        decreases sorted@.len() - w,
    {
        status_events.push(sorted[w].1);
        assert(sorted@.take(w + 1).map_values(|p: (SortKey, StatusEvent)| p.1) =~= sorted@.take(w as int).map_values(
            |p: (SortKey, StatusEvent)| p.1,
        ).push(sorted@[w as int].1));
        w = w + 1;
    }
    assert(sorted@.take(sorted@.len() as int) =~= sorted@);
    ParsedChangelog { status_events, sprint_added_at: adds }
}

// ---------------------------------------------------------------------------
// Epic mapping
// ---------------------------------------------------------------------------

/// The field string at a path of keys.
pub open spec fn field_str(f: JsonValue, path: Seq<Seq<char>>) -> Option<Seq<char>> {
    json::path_str_spec(f, path)
}

/// A status category from `status.statusCategory.key` (new when absent).
pub open spec fn status_category_spec(f: JsonValue) -> StatusCategory {
    match field_str(f, seq!["status"@, "statusCategory"@, "key"@]) {
        Some(k) => category_of_key(k),
        None => StatusCategory::New,
    }
}

/// The first fix version whose name differs (ignoring ASCII case) from the
/// increment's name.
pub open spec fn other_version(versions: Seq<JsonValue>, increment_name: Seq<char>) -> Option<Seq<char>>
    decreases versions.len(),
{
    if versions.len() == 0 {
        None
    } else {
        match member_str(versions[0], "name"@) {
            Some(n) => if !text::eq_ignore_ascii_case_spec(n, increment_name) {
                Some(n)
            } else {
                other_version(versions.drop_first(), increment_name)
            },
            None => other_version(versions.drop_first(), increment_name),
        }
    }
}

pub open spec fn carried_from_spec(f: JsonValue, increment_name: Seq<char>) -> Option<Seq<char>> {
    match json::get_spec(f, "fixVersions"@) {
        Some(JsonValue::Array(versions)) => other_version(versions@, increment_name),
        _ => None,
    }
}

/// The text of the field a mapping names, when the field holds a string.
pub open spec fn mapped_str(f: JsonValue, id: Option<String>) -> Option<Seq<char>> {
    match id {
        Some(i) => member_str(f, i@),
        None => None,
    }
}

/// A date field: its first ten bytes read as `%Y-%m-%d`.
pub open spec fn date_field_spec(f: JsonValue, id: Option<String>) -> Option<i64> {
    match mapped_str(f, id) {
        Some(t) => time::ymd_day(time::date_head(t)),
        None => None,
    }
}

/// A date field can be read without the byte-slicing panic.
pub open spec fn date_field_ok(f: JsonValue, id: Option<String>) -> bool {
    match mapped_str(f, id) {
        Some(t) => time::date_head_ok(t),
        None => true,
    }
}

pub open spec fn epic_dates_ok(dto: IssueDto, mapping: FieldMapping) -> bool {
    date_field_ok(dto.fields, mapping.epic_start) && date_field_ok(dto.fields, mapping.epic_end)
}

fn path_vec(a: &'static str) -> (v: Vec<&'static str>)
    ensures
        v@.map_values(|p: &str| p@) == seq![a@],
{
    let v = vec![a];
    assert(v@.map_values(|p: &str| p@) =~= seq![a@]);
    v
}

fn path_vec2(a: &'static str, b: &'static str) -> (v: Vec<&'static str>)
    ensures
        v@.map_values(|p: &str| p@) == seq![a@, b@],
{
    let v = vec![a, b];
    assert(v@.map_values(|p: &str| p@) =~= seq![a@, b@]);
    v
}

fn path_vec3(a: &'static str, b: &'static str, c: &'static str) -> (v: Vec<&'static str>)
    ensures
        v@.map_values(|p: &str| p@) == seq![a@, b@, c@],
{
    let v = vec![a, b, c];
    assert(v@.map_values(|p: &str| p@) =~= seq![a@, b@, c@]);
    v
}

fn status_category_of(f: &JsonValue) -> (c: StatusCategory)
    ensures
        c == status_category_spec(*f),
{
    let p = path_vec3("status", "statusCategory", "key");
    match json::get_str(f, &p) {
        Some(k) => StatusCategory::from_jira_key(k.as_str()),
        None => StatusCategory::New,
    }
}

fn mapped_str_exec(f: &JsonValue, id: &Option<String>) -> (r: Option<String>)
    ensures
        opt_view(r) == mapped_str(*f, *id),
{
    match id {
        Some(i) => member_str_exec(f, i.as_str()),
        None => None,
    }
}

fn date_field(f: &JsonValue, id: &Option<String>) -> (r: Option<i64>)
    requires
        date_field_ok(*f, *id),
    ensures
        r == date_field_spec(*f, *id),
{
    match mapped_str_exec(f, id) {
        Some(t) => time::parse_jira_date(t.as_str()),
        None => None,
    }
}

/// Whether an epic's date fields can be read (see `date_field_ok`).
pub fn epic_dates_readable(dto: &IssueDto, mapping: &FieldMapping) -> (r: bool)
    ensures
        r == epic_dates_ok(*dto, *mapping),
{
    let a = match mapped_str_exec(&dto.fields, &mapping.epic_start) {
        Some(t) => time::date_head_readable(t.as_str()),
        None => true,
    };
    let b = match mapped_str_exec(&dto.fields, &mapping.epic_end) {
        Some(t) => time::date_head_readable(t.as_str()),
        None => true,
    };
    a && b
}

fn carried_from_exec(f: &JsonValue, increment_name: &str) -> (r: Option<String>)
    ensures
        opt_view(r) == carried_from_spec(*f, increment_name@),
{
    let versions = match f.get("fixVersions") {
        Some(JsonValue::Array(v)) => v,
        _ => return None,
    };
    let mut i: usize = 0;
    assert(versions@.subrange(0, versions@.len() as int) =~= versions@);
    while i < versions.len()
        invariant
            i <= versions@.len(),
            carried_from_spec(*f, increment_name@) == other_version(versions@, increment_name@),
            other_version(versions@, increment_name@) == other_version(
                versions@.subrange(i as int, versions@.len() as int),
                increment_name@,
            ),
        decreases versions@.len() - i,
    {
        let ghost rest = versions@.subrange(i as int, versions@.len() as int);
        assert(rest.drop_first() =~= versions@.subrange(i + 1, versions@.len() as int));
        assert(rest[0] == versions@[i as int]);
        if let Some(n) = member_str_exec(&versions[i], "name") {
            if !text::eq_ignore_ascii_case(n.as_str(), increment_name) {
                return Some(n);
            }
        }
        i = i + 1;
    }
    None
}

/// Maps an epic's fields. Its own story-point estimate, a floating-point
/// number, is read by the caller.
pub fn map_epic(dto: &IssueDto, mapping: &FieldMapping, increment_name: &str) -> (e: Epic)
    requires
        epic_dates_ok(*dto, *mapping),
    ensures
        e.key == dto.key,
        e.name@ == (match field_str(dto.fields, seq!["summary"@]) {
            Some(n) => n,
            None => dto.key@,
        }),
        opt_view(e.owner) == field_str(dto.fields, seq!["assignee"@, "displayName"@]),
        e.start_date == date_field_spec(dto.fields, mapping.epic_start),
        e.end_date == date_field_spec(dto.fields, mapping.epic_end),
        e.status_category == status_category_spec(dto.fields),
        opt_view(e.carried_from) == carried_from_spec(dto.fields, increment_name@),
        !e.removed_from_plan,
{
    let f = &dto.fields;
    let name = match json::get_str(f, &path_vec("summary")) {
        Some(n) => n,
        None => dto.key.clone(),
    };
    Epic {
        key: dto.key.clone(),
        name,
        owner: json::get_str(f, &path_vec2("assignee", "displayName")),
        start_date: date_field(f, &mapping.epic_start),
        end_date: date_field(f, &mapping.epic_end),
        status_category: status_category_of(f),
        carried_from: carried_from_exec(f, increment_name),
        removed_from_plan: false,
    }
}

// ---------------------------------------------------------------------------
// Issue mapping (phase 1)
// ---------------------------------------------------------------------------

pub struct MappedIssue {
    pub issue: Issue,
    pub sprint_refs: Vec<SprintRef>,
    /// When (per changelog) each sprint id was first attached to the issue.
    pub sprint_added_at: Vec<(i64, i64)>,
}

/// The instant of the last transition into Done.
pub open spec fn last_done(events: Seq<StatusEvent>) -> Option<i64>
    decreases events.len(),
{
    if events.len() == 0 {
        None
    } else if events.last().to == StatusCategory::Done {
        Some(events.last().at)
    } else {
        last_done(events.drop_last())
    }
}

/// Some transition left Done.
pub open spec fn reopened_spec(events: Seq<StatusEvent>) -> bool {
    exists|i: int| 0 <= i < events.len() && (#[trigger] events[i]).from == StatusCategory::Done && events[i].to != StatusCategory::Done
}

pub open spec fn blocked_spec(status: Seq<char>, blocked: Seq<String>) -> bool {
    exists|i: int| 0 <= i < blocked.len() && text::eq_ignore_ascii_case_spec(status, (#[trigger] blocked[i])@)
}

pub open spec fn estimated_spec(f: JsonValue, id: Option<String>) -> bool {
    match id {
        Some(i) => match json::get_spec(f, i@) {
            Some(JsonValue::Number(_)) => true,
            _ => false,
        },
        None => false,
    }
}

pub open spec fn resolution_spec(f: JsonValue) -> Option<Seq<char>> {
    field_str(f, seq!["resolution"@, "name"@])
}

pub open spec fn status_name_spec(f: JsonValue) -> Seq<char> {
    match field_str(f, seq!["status"@, "name"@]) {
        Some(s) => s,
        None => "Unknown"@,
    }
}

pub open spec fn mapped_field(f: JsonValue, id: Option<String>) -> Option<JsonValue> {
    match id {
        Some(i) => json::get_spec(f, i@),
        None => None,
    }
}

fn last_done_exec(events: &Vec<StatusEvent>) -> (r: Option<i64>)
    ensures
        r == last_done(events@),
{
    let mut i: usize = events.len();
    assert(events@.take(i as int) =~= events@);
    while i > 0
        invariant
            i <= events@.len(),
            last_done(events@) == last_done(events@.take(i as int)),
        decreases i,
    {
        assert(events@.take(i as int).drop_last() =~= events@.take(i - 1));
        assert(events@.take(i as int).last() == events@[i - 1]);
        if events[i - 1].to == StatusCategory::Done {
            return Some(events[i - 1].at);
        }
        i = i - 1;
    }
    None
}

fn reopened_exec(events: &Vec<StatusEvent>) -> (r: bool)
    ensures
        r == reopened_spec(events@),
{
    let mut i: usize = 0;
    while i < events.len()
        invariant
            i <= events@.len(),
            forall|k: int| 0 <= k < i ==> !((#[trigger] events@[k]).from == StatusCategory::Done && events@[k].to != StatusCategory::Done),
        decreases events@.len() - i,
    {
        if events[i].from == StatusCategory::Done && events[i].to != StatusCategory::Done {
            return true;
        }
        i = i + 1;
    }
    false
}

fn blocked_exec(status: &str, blocked: &[String]) -> (r: bool)
    ensures
        r == blocked_spec(status@, blocked@),
{
    let mut i: usize = 0;
    while i < blocked.len()
        invariant
            i <= blocked@.len(),
            forall|k: int| 0 <= k < i ==> !text::eq_ignore_ascii_case_spec(status@, (#[trigger] blocked@[k])@),
        decreases blocked@.len() - i,
    {
        if text::eq_ignore_ascii_case(status, blocked[i].as_str()) {
            return true;
        }
        i = i + 1;
    }
    false
}

/// The creation instant an issue's fields give, when `created` is present and
/// readable.
pub open spec fn created_spec(f: JsonValue) -> Option<i64> {
    match field_str(f, seq!["created"@]) {
        Some(t) => time::jira_datetime_spec(t),
        None => None,
    }
}

/// Whether mapping an issue needs the current time: its creation instant is
/// missing or unreadable, so the moment of mapping stands in for it.
pub fn needs_clock(dto: &IssueDto) -> (r: bool)
    ensures
        r == (created_spec(dto.fields) is None),
{
    match json::get_str(&dto.fields, &path_vec("created")) {
        Some(t) => time::parse_jira_datetime(t.as_str()).is_none(),
        None => true,
    }
}

/// What `map_issue` states of the issue it builds.
pub open spec fn mapped_issue_spec(
    m: MappedIssue,
    dto: IssueDto,
    epic_key: Seq<char>,
    mapping: FieldMapping,
    statuses: StatusCategories,
    blocked: Seq<String>,
    now: i64,
) -> bool {
    let f = dto.fields;
    let i = m.issue;
    let events = match dto.changelog {
        Some(log) => sorted_events(raw_events(log.histories@, statuses.entries@)),
        None => Seq::empty(),
    };
    &&& i.key == dto.key
    &&& i.epic_key@ == epic_key
    &&& i.summary@ == (match field_str(f, seq!["summary"@]) {
        Some(t) => t,
        None => Seq::empty(),
    })
    &&& i.estimated == estimated_spec(f, mapping.story_points)
    &&& !i.sp_imputed
    &&& i.status@ == status_name_spec(f)
    &&& i.status_category == status_category_spec(f)
    &&& opt_view(i.resolution) == resolution_spec(f)
    &&& i.descoped == (match resolution_spec(f) {
        Some(r) => is_descoping_spec(r),
        None => false,
    })
    &&& i.blocked == blocked_spec(status_name_spec(f), blocked)
    &&& opt_view(i.assignee) == field_str(f, seq!["assignee"@, "displayName"@])
    &&& i.created == (match created_spec(f) {
        Some(c) => c,
        None => now,
    })
    &&& i.status_events@ == events
    &&& i.done_at == (if i.status_category == StatusCategory::Done {
        last_done(events)
    } else {
        None
    })
    &&& i.reopened == reopened_spec(events)
    &&& i.current_sprint_id is None
    &&& i.sprints@.len() == 0
    &&& i.spill_count == 0
    &&& refs_view(m.sprint_refs@) == sprint_field_spec(mapped_field(f, mapping.sprint))
    &&& m.sprint_added_at@ == (match dto.changelog {
        Some(log) => first_adds(raw_adds(log.histories@)),
        None => Seq::empty(),
    })
}

/// Maps an issue's fields and changelog. `now` stands in for a missing or
/// unreadable creation instant (see `needs_clock`); the caller reads the
/// clock, and only when it is needed.
pub fn map_issue(
    dto: &IssueDto,
    epic_key: &str,
    mapping: &FieldMapping,
    statuses: &StatusCategories,
    blocked_statuses: &[String],
    now: i64,
) -> (m: MappedIssue)
    ensures
        mapped_issue_spec(m, *dto, epic_key@, *mapping, *statuses, blocked_statuses@, now),
{
    let f = &dto.fields;
    let status = match json::get_str(f, &path_vec2("status", "name")) {
        Some(s) => s,
        None => text::owned("Unknown"),
    };
    let status_category = status_category_of(f);
    let resolution = json::get_str(f, &path_vec2("resolution", "name"));
    let descoped = match &resolution {
        Some(r) => is_descoping_resolution(r.as_str()),
        None => false,
    };
    let blocked = blocked_exec(status.as_str(), blocked_statuses);
    let created = match json::get_str(f, &path_vec("created")) {
        Some(t) => match time::parse_jira_datetime(t.as_str()) {
            Some(c) => c,
            None => now,
        },
        None => now,
    };
    let parsed = parse_changelog(
        match &dto.changelog {
            Some(l) => Some(l),
            None => None,
        },
        statuses,
    );
    let done_at = if status_category == StatusCategory::Done {
        last_done_exec(&parsed.status_events)
    } else {
        None
    };
    let reopened = reopened_exec(&parsed.status_events);
    let sprint_field = match &mapping.sprint {
        Some(id) => f.get(id.as_str()),
        None => None,
    };
    let sprint_refs = parse_sprint_field(sprint_field);
    let estimated = match &mapping.story_points {
        Some(id) => match f.get(id.as_str()) {
            Some(v) => v.is_number(),
            None => false,
        },
        None => false,
    };
    let summary = match json::get_str(f, &path_vec("summary")) {
        Some(t) => t,
        None => String::new(),
    };
    let issue = Issue {
        key: dto.key.clone(),
        epic_key: text::owned(epic_key),
        summary,
        estimated,
        sp_imputed: false,
        status,
        status_category,
        resolution,
        descoped,
        blocked,
        assignee: json::get_str(f, &path_vec2("assignee", "displayName")),
        created,
        done_at,
        reopened,
        current_sprint_id: None,
        sprints: Vec::new(),
        status_events: parsed.status_events,
        spill_count: 0,
    };
    MappedIssue { issue, sprint_refs, sprint_added_at: parsed.sprint_added_at }
}

// ---------------------------------------------------------------------------
// Issue finalization (phase 2)
// ---------------------------------------------------------------------------

/// The commitment grace window in microseconds.
pub open spec fn grace_micros() -> int {
    (COMMITMENT_GRACE_HOURS as int) * (time::MICROS_PER_HOUR as int)
}

/// The sprint with an id (the first one, ids being unique in practice).
pub open spec fn lookup_sprint(sprints: Seq<Sprint>, id: i64) -> Option<Sprint>
    decreases sprints.len(),
{
    if sprints.len() == 0 {
        None
    } else if sprints[0].id == id {
        Some(sprints[0])
    } else {
        lookup_sprint(sprints.drop_first(), id)
    }
}

/// Sprint metadata wins over what the issue's Sprint field carried.
pub open spec fn ref_start(sprints: Seq<Sprint>, r: SprintRefView) -> Option<i64> {
    match lookup_sprint(sprints, r.id) {
        Some(s) => if s.start_date is Some {
            s.start_date
        } else {
            r.start_date
        },
        None => r.start_date,
    }
}

pub open spec fn ref_end(sprints: Seq<Sprint>, r: SprintRefView) -> Option<i64> {
    match lookup_sprint(sprints, r.id) {
        Some(s) => if s.end_date is Some {
            s.end_date
        } else {
            r.end_date
        },
        None => r.end_date,
    }
}

pub open spec fn ref_state(sprints: Seq<Sprint>, r: SprintRefView) -> SprintState {
    match lookup_sprint(sprints, r.id) {
        Some(s) => s.state,
        None => match r.state {
            Some(st) => st,
            None => SprintState::Future,
        },
    }
}

pub open spec fn ref_active(sprints: Seq<Sprint>, r: SprintRefView) -> bool {
    match lookup_sprint(sprints, r.id) {
        Some(s) => s.state == SprintState::Active,
        None => r.state == Some(SprintState::Active),
    }
}

/// Adding 24h to a sprint start must stay within chrono's range.
pub open spec fn starts_in_range(sprints: Seq<Sprint>, refs: Seq<SprintRef>) -> bool {
    forall|k: int| 0 <= k < refs.len() ==> (ref_start(sprints, (#[trigger] refs[k])@) matches Some(t) ==> t + grace_micros()
        <= time::MAX_INSTANT)
}

/// The facts of one issue–sprint relationship. When the changelog has no
/// record of the sprint being added, the association predates what we can
/// see and counts as planned-in (added at creation).
pub open spec fn link_spec(issue: Issue, added: Seq<(i64, i64)>, sprints: Seq<Sprint>, r: SprintRefView) -> IssueSprint {
    let added_at = match added_at_spec(added, r.id) {
        Some(t) => t,
        None => issue.created,
    };
    let was_committed = match ref_start(sprints, r) {
        Some(s) => added_at <= s + grace_micros(),
        None => true,
    };
    let done_at_close = match (ref_state(sprints, r), ref_end(sprints, r)) {
        (SprintState::Closed, Some(e)) => Some(issue.category_at_view(e as int) == StatusCategory::Done),
        (SprintState::Closed, None) => Some(issue.status_category == StatusCategory::Done),
        _ => None,
    };
    IssueSprint { sprint_id: r.id, was_committed, added_mid_sprint: !was_committed, done_at_close }
}

pub open spec fn keyed_refs(sprints: Seq<Sprint>, refs: Seq<SprintRef>) -> Seq<(SortKey, SprintRef)> {
    refs.map_values(|r: SprintRef| (order::opt_key(ref_start(sprints, r@), 0), r))
}

/// The references stably sorted by their sprint's start (unknown first).
pub open spec fn sorted_refs(sprints: Seq<Sprint>, refs: Seq<SprintRef>) -> Seq<SprintRefView> {
    order::sort_spec(keyed_refs(sprints, refs)).map_values(|p: (SortKey, SprintRef)| p.1@)
}

pub open spec fn count_spilled(links: Seq<IssueSprint>) -> nat
    decreases links.len(),
{
    if links.len() == 0 {
        0
    } else {
        count_spilled(links.drop_last()) + if links.last().done_at_close == Some(false) {
            1nat
        } else {
            0nat
        }
    }
}

/// The first active sprint among the sorted references, else the last one.
pub open spec fn current_sprint_spec(sprints: Seq<Sprint>, refs: Seq<SprintRefView>) -> Option<i64> {
    if exists|k: int| 0 <= k < refs.len() && ref_active(sprints, #[trigger] refs[k]) {
        let k = choose|k: int|
            0 <= k < refs.len() && ref_active(sprints, #[trigger] refs[k]) && forall|j: int|
                0 <= j < k ==> !ref_active(sprints, #[trigger] refs[j]);
        Some(refs[k].id)
    } else if refs.len() > 0 {
        Some(refs.last().id)
    } else {
        None
    }
}

fn lookup_sprint_exec(sprints: &Vec<Sprint>, id: i64) -> (r: Option<&Sprint>)
    ensures
        r matches Some(s) ==> lookup_sprint(sprints@, id) == Some(*s),
        r is None ==> lookup_sprint(sprints@, id) is None,
{
    let mut i: usize = 0;
    assert(sprints@.subrange(0, sprints@.len() as int) =~= sprints@);
    while i < sprints.len()
        invariant
            i <= sprints@.len(),
            lookup_sprint(sprints@, id) == lookup_sprint(sprints@.subrange(i as int, sprints@.len() as int), id),
        decreases sprints@.len() - i,
    {
        let ghost rest = sprints@.subrange(i as int, sprints@.len() as int);
        assert(rest.drop_first() =~= sprints@.subrange(i + 1, sprints@.len() as int));
        assert(rest[0] == sprints@[i as int]);
        if sprints[i].id == id {
            return Some(&sprints[i]);
        }
        i = i + 1;
    }
    None
}

fn added_at_exec(m: &Vec<(i64, i64)>, id: i64) -> (r: Option<i64>)
    ensures
        r == added_at_spec(m@, id),
{
    let mut i: usize = 0;
    assert(m@.subrange(0, m@.len() as int) =~= m@);
    while i < m.len()
        invariant
            i <= m@.len(),
            added_at_spec(m@, id) == added_at_spec(m@.subrange(i as int, m@.len() as int), id),
        decreases m@.len() - i,
    {
        let ghost rest = m@.subrange(i as int, m@.len() as int);
        assert(rest.drop_first() =~= m@.subrange(i + 1, m@.len() as int));
        assert(rest[0] == m@[i as int]);
        if m[i].0 == id {
            return Some(m[i].1);
        }
        i = i + 1;
    }
    None
}

fn ref_start_exec(sprints: &Vec<Sprint>, r: &SprintRef) -> (t: Option<i64>)
    ensures
        t == ref_start(sprints@, r@),
{
    match lookup_sprint_exec(sprints, r.id) {
        Some(s) => if s.start_date.is_some() {
            s.start_date
        } else {
            r.start_date
        },
        None => r.start_date,
    }
}

/// Whether every sprint start can take the commitment grace window (see
/// `starts_in_range`).
pub fn starts_in_range_exec(sprints: &Vec<Sprint>, refs: &Vec<SprintRef>) -> (ok: bool)
    ensures
        ok == starts_in_range(sprints@, refs@),
{
    let mut k: usize = 0;
    while k < refs.len()
        invariant
            k <= refs@.len(),
            forall|q: int| 0 <= q < k ==> (ref_start(sprints@, (#[trigger] refs@[q])@) matches Some(t) ==> t
                + grace_micros() <= time::MAX_INSTANT),
        decreases refs@.len() - k,
    {
        match ref_start_exec(sprints, &refs[k]) {
            Some(t) => {
                if t > time::MAX_INSTANT - 86_400_000_000 {
                    return false;
                }
            },
            None => {},
        }
        k = k + 1;
    }
    true
}

fn link_exec(issue: &Issue, added: &Vec<(i64, i64)>, sprints: &Vec<Sprint>, r: &SprintRef) -> (l: IssueSprint)
    requires
        ref_start(sprints@, r@) matches Some(t) ==> t + grace_micros() <= time::MAX_INSTANT,
    ensures
        l == link_spec(*issue, added@, sprints@, r@),
{
    let meta = lookup_sprint_exec(sprints, r.id);
    let state = match meta {
        Some(s) => s.state,
        None => match r.state {
            Some(st) => st,
            None => SprintState::Future,
        },
    };
    let start = ref_start_exec(sprints, r);
    let end = match meta {
        Some(s) => if s.end_date.is_some() {
            s.end_date
        } else {
            r.end_date
        },
        None => r.end_date,
    };
    let added_at = match added_at_exec(added, r.id) {
        Some(t) => t,
        None => issue.created,
    };
    let was_committed = match start {
        Some(s) => added_at <= s + COMMITMENT_GRACE_HOURS * time::MICROS_PER_HOUR,
        None => true,
    };
    let done_at_close = match (state, end) {
        (SprintState::Closed, Some(e)) => Some(issue.category_at(e) == StatusCategory::Done),
        (SprintState::Closed, None) => Some(issue.status_category == StatusCategory::Done),
        _ => None,
    };
    IssueSprint { sprint_id: r.id, was_committed, added_mid_sprint: !was_committed, done_at_close }
}

fn ref_active_exec(sprints: &Vec<Sprint>, r: &SprintRef) -> (a: bool)
    ensures
        a == ref_active(sprints@, r@),
{
    match lookup_sprint_exec(sprints, r.id) {
        Some(s) => s.state == SprintState::Active,
        None => match r.state {
            Some(SprintState::Active) => true,
            _ => false,
        },
    }
}

/// Attaches sprint facts once full sprint metadata is known: one link per
/// referenced sprint, in start order; the spill count (closed sprints not
/// finished in, zero for a descoped issue); and the current sprint (the
/// active one, else the latest).
pub fn attach_sprints(mapped: MappedIssue, sprints: &Vec<Sprint>) -> (issue: Issue)
    requires
        starts_in_range(sprints@, mapped.sprint_refs@),
    ensures
        ({
            let refs = sorted_refs(sprints@, mapped.sprint_refs@);
            &&& issue.sprints@ == refs.map_values(|r: SprintRefView| link_spec(mapped.issue, mapped.sprint_added_at@, sprints@, r))
            &&& issue.spill_count == (if mapped.issue.descoped {
                0
            } else {
                count_spilled(issue.sprints@) as u32
            })
            &&& issue.current_sprint_id == current_sprint_spec(sprints@, refs)
            &&& issue.key == mapped.issue.key
            &&& issue.epic_key == mapped.issue.epic_key
            &&& issue.summary == mapped.issue.summary
            &&& issue.estimated == mapped.issue.estimated
            &&& issue.sp_imputed == mapped.issue.sp_imputed
            &&& issue.status == mapped.issue.status
            &&& issue.status_category == mapped.issue.status_category
            &&& issue.resolution == mapped.issue.resolution
            &&& issue.descoped == mapped.issue.descoped
            &&& issue.blocked == mapped.issue.blocked
            &&& issue.assignee == mapped.issue.assignee
            &&& issue.created == mapped.issue.created
            &&& issue.done_at == mapped.issue.done_at
            &&& issue.reopened == mapped.issue.reopened
            &&& issue.status_events@ == mapped.issue.status_events@
        }),
{
    let MappedIssue { issue: base, sprint_refs, sprint_added_at } = mapped;
    let ghost refs0 = sprint_refs@;
    // Key each reference by its sprint's start.
    let mut keyed: Vec<(SortKey, SprintRef)> = Vec::new();
    let mut src = sprint_refs;
    let mut rev: Vec<SprintRef> = Vec::new();
    while src.len() > 0
        invariant
            refs0 == src@ + rev@.reverse(),
        decreases src.len(),
    {
        let ghost bs = src@;
        let ghost br = rev@;
        let x = src.pop().unwrap();
        rev.push(x);
        assert(rev@.reverse() =~= seq![x] + br.reverse());
        assert(bs =~= src@.push(x));
    }
    assert(rev@.reverse() =~= refs0);
    let n = rev.len();
    let mut i: usize = 0;
    assert(refs0.take(0) =~= Seq::<SprintRef>::empty());
    while rev.len() > 0
        invariant
            n == refs0.len(),
            rev@.len() + i == n,
            rev@.reverse() == refs0.skip(i as int),
            keyed@ == keyed_refs(sprints@, refs0.take(i as int)),
        decreases rev.len(),
    {
        let ghost br = rev@;
        let r = rev.pop().unwrap();
        assert(br =~= rev@.push(r));
        assert(br.reverse() =~= seq![r] + rev@.reverse());
        assert(refs0.skip(i as int)[0] == refs0[i as int]);
        assert(r == refs0[i as int]);
        assert(rev@.reverse() =~= refs0.skip(i + 1)) by {
            assert(rev@.reverse() =~= br.reverse().drop_first());
            assert(refs0.skip(i + 1) =~= refs0.skip(i as int).drop_first());
        }
        let k = order::opt_key_exec(ref_start_exec(sprints, &r), 0);
        keyed.push((k, r));
        assert(keyed_refs(sprints@, refs0.take(i + 1)) =~= keyed_refs(sprints@, refs0.take(i as int)).push((k, r)));
        i = i + 1;
    }
    assert(refs0.take(n as int) =~= refs0);
    let sorted = order::sort_by_key(keyed);
    let ghost sref = sorted_refs(sprints@, refs0);
    assert(sref =~= sorted@.map_values(|p: (SortKey, SprintRef)| p.1@));
    proof {
        // Sorting keeps the elements, so every sorted reference's start is in range.
        lemma_sort_keeps_starts(sprints@, refs0);
    }
    let mut links: Vec<IssueSprint> = Vec::new();
    let mut current: Option<i64> = None;
    let mut w: usize = 0;
    while w < sorted.len()
        invariant
            w <= sorted@.len(),
            sref == sorted@.map_values(|p: (SortKey, SprintRef)| p.1@),
            forall|q: int| 0 <= q < sorted@.len() ==> (ref_start(sprints@, (#[trigger] sorted@[q]).1@) matches Some(t) ==> t
                + grace_micros() <= time::MAX_INSTANT),
            links@ == sref.take(w as int).map_values(|r: SprintRefView| link_spec(base, sprint_added_at@, sprints@, r)),
            current is None <==> !(exists|k: int| 0 <= k < w && ref_active(sprints@, #[trigger] sref[k])),
            current matches Some(c) ==> exists|k: int|
                0 <= k < w && ref_active(sprints@, #[trigger] sref[k]) && sref[k].id == c && forall|j: int|
                    0 <= j < k ==> !ref_active(sprints@, #[trigger] sref[j]),
        decreases sorted@.len() - w,
    {
        let r = &sorted[w].1;
        assert(sref[w as int] == r@);
        let l = link_exec(&base, &sprint_added_at, sprints, r);
        links.push(l);
        assert(links@ =~= sref.take(w + 1).map_values(|r: SprintRefView| link_spec(base, sprint_added_at@, sprints@, r)));
        if current.is_none() && ref_active_exec(sprints, r) {
            current = Some(r.id);
        }
        w = w + 1;
    }
    assert(sref.take(sref.len() as int) =~= sref);
    let current_sprint_id = match current {
        Some(c) => Some(c),
        None => {
            if sorted.len() > 0 {
                assert(sref.last() == sorted@[sorted@.len() - 1].1@);
                Some(sorted[sorted.len() - 1].1.id)
            } else {
                None
            }
        },
    };
    proof {
        if current is Some {
            let c = current->Some_0;
            let k = choose|k: int|
                0 <= k < sref.len() && ref_active(sprints@, #[trigger] sref[k]) && sref[k].id == c && forall|j: int|
                    0 <= j < k ==> !ref_active(sprints@, #[trigger] sref[j]);
            let k2 = choose|k: int|
                0 <= k < sref.len() && ref_active(sprints@, #[trigger] sref[k]) && forall|j: int|
                    0 <= j < k ==> !ref_active(sprints@, #[trigger] sref[j]);
            if k < k2 {
            } else if k2 < k {
            }
            assert(k == k2);
        }
    }
    // Count the sprints closed without the issue being done.
    let mut spilled: usize = 0;
    let mut q: usize = 0;
    while q < links.len()
        invariant
            q <= links@.len(),
            spilled == count_spilled(links@.take(q as int)),
            spilled <= q,
        decreases links@.len() - q,
    {
        assert(links@.take(q + 1).drop_last() =~= links@.take(q as int));
        if links[q].done_at_close == Some(false) {
            spilled = spilled + 1;
        }
        q = q + 1;
    }
    assert(links@.take(links@.len() as int) =~= links@);
    let spill_count: u32 = if base.descoped { 0 } else { spilled as u32 };
    Issue {
        key: base.key,
        epic_key: base.epic_key,
        summary: base.summary,
        estimated: base.estimated,
        sp_imputed: base.sp_imputed,
        status: base.status,
        status_category: base.status_category,
        resolution: base.resolution,
        descoped: base.descoped,
        blocked: base.blocked,
        assignee: base.assignee,
        created: base.created,
        done_at: base.done_at,
        reopened: base.reopened,
        current_sprint_id,
        sprints: links,
        status_events: base.status_events,
        spill_count,
    }
}

proof fn lemma_insert_keeps<T>(sorted: Seq<(SortKey, T)>, e: (SortKey, T), p: spec_fn(T) -> bool)
    requires
        forall|k: int| 0 <= k < sorted.len() ==> #[trigger] p(sorted[k].1),
        p(e.1),
    ensures
        forall|k: int| 0 <= k < order::insert_by_key(sorted, e).len() ==> #[trigger] p(order::insert_by_key(sorted, e)[k].1),
        order::insert_by_key(sorted, e).len() == sorted.len() + 1,
    decreases sorted.len(),
{
    if sorted.len() > 0 && !order::key_le(sorted.last().0, e.0) {
        lemma_insert_keeps(sorted.drop_last(), e, p);
    }
}

proof fn lemma_sort_keeps<T>(s: Seq<(SortKey, T)>, p: spec_fn(T) -> bool)
    requires
        forall|k: int| 0 <= k < s.len() ==> #[trigger] p(s[k].1),
    ensures
        forall|k: int| 0 <= k < order::sort_spec(s).len() ==> #[trigger] p(order::sort_spec(s)[k].1),
        order::sort_spec(s).len() == s.len(),
    decreases s.len(),
{
    if s.len() > 0 {
        lemma_sort_keeps(s.drop_last(), p);
        lemma_insert_keeps(order::sort_spec(s.drop_last()), s.last(), p);
    }
}

proof fn lemma_sort_keeps_starts(sprints: Seq<Sprint>, refs: Seq<SprintRef>)
    requires
        starts_in_range(sprints, refs),
    ensures
        forall|q: int| 0 <= q < order::sort_spec(keyed_refs(sprints, refs)).len() ==> (ref_start(sprints, (
        #[trigger] order::sort_spec(keyed_refs(sprints, refs))[q]).1@) matches Some(t) ==> t + grace_micros() <= time::MAX_INSTANT),
{
    let p = |r: SprintRef| ref_start(sprints, r@) matches Some(t) ==> t + grace_micros() <= time::MAX_INSTANT;
    let ks = keyed_refs(sprints, refs);
    assert forall|k: int| 0 <= k < ks.len() implies #[trigger] p(ks[k].1) by {
        assert(ks[k].1 == refs[k]);
    }
    lemma_sort_keeps(ks, p);
    let ss = order::sort_spec(ks);
    assert forall|q: int| 0 <= q < ss.len() implies (ref_start(sprints, (#[trigger] ss[q]).1@) matches Some(t) ==> t
        + grace_micros() <= time::MAX_INSTANT) by {
        assert(p(ss[q].1));
    }
}

/// A sprint from what an issue's Sprint field said of it; unnamed sprints
/// are called `Sprint <id>`.
pub fn sprint_from_ref(r: &SprintRef) -> (s: Sprint)
    ensures
        s.id == r.id,
        s.name@ == (match r.name {
            Some(n) => n@,
            None => "Sprint "@ + text::decimal_spec(r.id as int),
        }),
        s.state == (match r.state {
            Some(st) => st,
            None => SprintState::Future,
        }),
        s.start_date == r.start_date,
        s.end_date == r.end_date,
        s.board_id is None,
{
    let name = match &r.name {
        Some(n) => n.clone(),
        None => {
            let digits = text::decimal(r.id);
            text::concat("Sprint ", digits.as_str())
        },
    };
    Sprint {
        id: r.id,
        name,
        state: match r.state {
            Some(st) => st,
            None => SprintState::Future,
        },
        start_date: r.start_date,
        end_date: r.end_date,
        board_id: None,
    }
}

} // verus!
