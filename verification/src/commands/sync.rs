//! Sync planning: the fields and queries a sync asks Jira for, the epic each
//! issue belongs to, and the sprints it gathers on the way.

use vstd::prelude::*;

use crate::dto::{IssueDto, SprintDto};
use crate::error::AppError;
use crate::fields::FieldMapping;
use crate::json::{self, JsonValue};
use crate::mapper::{MappedIssue, SprintRef};
use crate::model::{state_of_text, Sprint, SprintState};
use crate::text;
use crate::time;

verus! {

/// Epic keys per child-issue query.
pub const EPIC_KEY_CHUNK: usize = 50;

/// The refusal when field discovery finds no usable mapping.
pub const FIELDS_NOT_DISCOVERED: &'static str =
    "Could not discover Story Points / Sprint fields — set them in Settings → Field mapping.";

/// The first step of a sync: the stored field mapping is used when it maps
/// both story points and the sprint field; otherwise (`None`) the fields are
/// discovered from the instance.
pub fn stored_mapping(stored: Option<FieldMapping>) -> (r: Option<FieldMapping>)
    ensures
        (stored matches Some(m) && m.is_usable_spec()) ==> r == stored,
        !(stored matches Some(m) && m.is_usable_spec()) ==> r is None,
{
    match stored {
        Some(m) => if m.is_usable() {
            Some(m)
        } else {
            None
        },
        None => None,
    }
}

/// What a sync does with a freshly discovered mapping: a usable one is kept
/// (and saved); otherwise the sync stops with a configuration error that
/// points the user to the field-mapping settings.
pub fn accept_discovered(discovered: FieldMapping) -> (r: Result<FieldMapping, AppError>)
    ensures
        discovered.is_usable_spec() ==> r == Ok::<FieldMapping, AppError>(discovered),
        !discovered.is_usable_spec() ==> (r matches Err(AppError::Config(m)) && m@ == FIELDS_NOT_DISCOVERED@),
{
    if discovered.is_usable() {
        Ok(discovered)
    } else {
        Err(AppError::Config(text::owned(FIELDS_NOT_DISCOVERED)))
    }
}

pub open spec fn opt_list(o: Option<String>) -> Seq<Seq<char>> {
    match o {
        Some(s) => seq![s@],
        None => Seq::empty(),
    }
}

fn push_some(out: &mut Vec<String>, o: &Option<String>)
    ensures
        final(out)@.map_values(|s: String| s@) == old(out)@.map_values(|s: String| s@) + opt_list(*o),
{
    let ghost before = out@.map_values(|s: String| s@);
    match o {
        Some(id) => {
            out.push(id.clone());
            assert(out@.map_values(|s: String| s@) =~= before + opt_list(*o));
        },
        None => {
            assert(out@.map_values(|s: String| s@) =~= before + opt_list(*o));
        },
    }
}

fn push_text(out: &mut Vec<String>, s: &str)
    ensures
        final(out)@.map_values(|t: String| t@) == old(out)@.map_values(|t: String| t@).push(s@),
{
    let ghost before = out@.map_values(|t: String| t@);
    out.push(text::owned(s));
    assert(out@.map_values(|t: String| t@) =~= before.push(s@));
}

/// The fields fetched for epics: the standard ones, then the story-point,
/// start and end fields that are mapped.
pub open spec fn epic_fields_spec(m: FieldMapping) -> Seq<Seq<char>> {
    seq!["summary"@, "assignee"@, "status"@, "fixVersions"@, "duedate"@] + opt_list(m.story_points) + opt_list(
        m.epic_start,
    ) + opt_list(m.epic_end)
}

pub fn epic_fields(m: &FieldMapping) -> (r: Vec<String>)
    ensures
        r@.map_values(|s: String| s@) == epic_fields_spec(*m),
{
    let mut r: Vec<String> = Vec::new();
    push_text(&mut r, "summary");
    push_text(&mut r, "assignee");
    push_text(&mut r, "status");
    push_text(&mut r, "fixVersions");
    push_text(&mut r, "duedate");
    push_some(&mut r, &m.story_points);
    push_some(&mut r, &m.epic_start);
    push_some(&mut r, &m.epic_end);
    assert(r@.map_values(|s: String| s@) =~= epic_fields_spec(*m));
    r
}

/// The fields fetched for child issues: the standard ones, then the
/// story-point, sprint and epic-link fields that are mapped.
pub open spec fn issue_fields_spec(m: FieldMapping) -> Seq<Seq<char>> {
    seq!["summary"@, "status"@, "resolution"@, "assignee"@, "created"@, "parent"@] + opt_list(m.story_points)
        + opt_list(m.sprint) + opt_list(m.epic_link)
}

pub fn issue_fields(m: &FieldMapping) -> (r: Vec<String>)
    ensures
        r@.map_values(|s: String| s@) == issue_fields_spec(*m),
{
    let mut r: Vec<String> = Vec::new();
    push_text(&mut r, "summary");
    push_text(&mut r, "status");
    push_text(&mut r, "resolution");
    push_text(&mut r, "assignee");
    push_text(&mut r, "created");
    push_text(&mut r, "parent");
    push_some(&mut r, &m.story_points);
    push_some(&mut r, &m.sprint);
    push_some(&mut r, &m.epic_link);
    assert(r@.map_values(|s: String| s@) =~= issue_fields_spec(*m));
    r
}

/// The stored child-issue query template, unless it is blank.
pub fn children_template(stored: Option<String>) -> (r: Option<String>)
    ensures
        r == (match stored {
            Some(c) => if text::trim_spec(c@).len() > 0 { Some(c) } else { None },
            None => None,
        }),
{
    match stored {
        Some(c) => {
            let t = text::trim(c.as_str());
            if t.as_str().is_empty() {
                None
            } else {
                Some(c)
            }
        },
        None => None,
    }
}

/// The query for one chunk of epic keys (already joined by ", "): the
/// user's template with `{keys}` replaced, else `"Epic Link" in (…)` when an
/// Epic Link field is mapped, else `parent in (…)`.
pub open spec fn clause_spec(template: Option<Seq<char>>, has_epic_link: bool, keys: Seq<char>) -> Seq<char> {
    match template {
        Some(t) => text::replace_spec(t, "{keys}"@, keys),
        None => if has_epic_link {
            "\"Epic Link\" in ("@ + keys + ")"@
        } else {
            "parent in ("@ + keys + ")"@
        },
    }
}

/// Chunk `c` of the epic keys (fifty to a chunk), joined by ", ".
pub open spec fn chunk_text(keys: Seq<Seq<char>>, c: int) -> Seq<char> {
    let lo = 50 * c;
    let hi = if lo + 50 < keys.len() { lo + 50 } else { keys.len() as int };
    text::join_spec(keys.subrange(lo, hi), ", "@)
}

/// One child-issue query per chunk of fifty epic keys, in order.
pub fn children_queries(epic_keys: &[String], template: &Option<String>, mapping: &FieldMapping) -> (r: Vec<String>)
    ensures
        r@.len() == (epic_keys@.len() + 49) / 50,
        forall|c: int| 0 <= c < r@.len() ==> (#[trigger] r@[c])@ == clause_spec(
            text::opt_view(*template),
            mapping.epic_link is Some,
            chunk_text(epic_keys@.map_values(|k: String| k@), c),
        ),
{
    let ghost keys = epic_keys@.map_values(|k: String| k@);
    let n = epic_keys.len();
    let mut r: Vec<String> = Vec::new();
    let mut start: usize = 0;
    while start < n
        invariant
            n == epic_keys@.len(),
            keys == epic_keys@.map_values(|k: String| k@),
            start <= n,
            start == n || start == 50 * r@.len(),
            r@.len() == (start + 49) / 50,
            forall|c: int| 0 <= c < r@.len() ==> (#[trigger] r@[c])@ == clause_spec(
                text::opt_view(*template),
                mapping.epic_link is Some,
                chunk_text(keys, c),
            ),
        decreases n - start,
    {
        let end = if n - start > EPIC_KEY_CHUNK { start + EPIC_KEY_CHUNK } else { n };
        let mut parts: Vec<String> = Vec::new();
        let mut k: usize = start;
        while k < end
            invariant
                start <= k <= end <= n,
                n == epic_keys@.len(),
                keys == epic_keys@.map_values(|k: String| k@),
                parts@.map_values(|s: String| s@) == keys.subrange(start as int, k as int),
            decreases end - k,
        {
            let key = epic_keys[k].clone();
            assert(key@ == keys[k as int]);
            let ghost before = parts@.map_values(|s: String| s@);
            parts.push(key);
            assert(parts@.map_values(|s: String| s@) =~= before.push(keys[k as int]));
            assert(keys.subrange(start as int, k + 1) =~= keys.subrange(start as int, k as int).push(keys[k as int]));
            k = k + 1;
        }
        let joined = text::join(&parts, ", ");
        proof {
            reveal_strlit("{keys}");
        }
        let clause = match template {
            Some(t) => text::replace_all(t.as_str(), "{keys}", joined.as_str()),
            None => match &mapping.epic_link {
                Some(_) => {
                    let head = text::concat("\"Epic Link\" in (", joined.as_str());
                    text::concat(head.as_str(), ")")
                },
                None => {
                    let head = text::concat("parent in (", joined.as_str());
                    text::concat(head.as_str(), ")")
                },
            },
        };
        proof {
            let c = r@.len() as int;
            assert(50 * c == start);
            assert(parts@.map_values(|s: String| s@) == keys.subrange(50 * c, end as int));
            assert(joined@ == chunk_text(keys, c));
            assert(clause@ =~= clause_spec(text::opt_view(*template), mapping.epic_link is Some, chunk_text(keys, c)));
        }
        let ghost c0 = r@.len();
        r.push(clause);
        proof {
            if end == n {
                assert((n + 49) / 50 == c0 + 1) by (nonlinear_arith)
                    requires
                        50 * c0 < n,
                        n <= 50 * c0 + 50,
                ;
            } else {
                assert((start + 50 + 49) / 50 == c0 + 1) by (nonlinear_arith)
                    requires
                        start == 50 * c0,
                ;
            }
        }
        start = end;
    }
    r
}

/// An issue's epic: the Epic Link custom field (Data Center) when it holds
/// text, else the key of `parent` (Cloud).
pub open spec fn epic_key_spec(fields: JsonValue, mapping: FieldMapping) -> Option<Seq<char>> {
    let via_link = match mapping.epic_link {
        Some(id) => json::path_str_spec(fields, seq![id@]),
        None => None,
    };
    match via_link {
        Some(k) => Some(k),
        None => json::path_str_spec(fields, seq!["parent"@, "key"@]),
    }
}

pub fn resolve_epic_key(dto: &IssueDto, mapping: &FieldMapping) -> (r: Option<String>)
    ensures
        text::opt_view(r) == epic_key_spec(dto.fields, *mapping),
{
    match &mapping.epic_link {
        Some(id) => {
            let path: Vec<&str> = vec![id.as_str()];
            assert(path@.map_values(|p: &str| p@) =~= seq![id@]);
            match json::get_str(&dto.fields, &path) {
                Some(k) => {
                    return Some(k);
                },
                None => {},
            }
        },
        None => {},
    }
    let path: Vec<&str> = vec!["parent", "key"];
    assert(path@.map_values(|p: &str| p@) =~= seq!["parent"@, "key"@]);
    json::get_str(&dto.fields, &path)
}

/// The sprint an issue's Sprint field describes (see
/// `mapper::sprint_from_ref`).
pub open spec fn made_from(s: Sprint, r: SprintRef) -> bool {
    &&& s.id == r.id
    &&& s.name@ == (match r.name {
        Some(n) => n@,
        None => "Sprint "@ + text::decimal_spec(r.id as int),
    })
    &&& s.state == (match r.state {
        Some(st) => st,
        None => SprintState::Future,
    })
    &&& s.start_date == r.start_date
    &&& s.end_date == r.end_date
    &&& s.board_id is None
}

/// The Sprint-field entries of every mapped issue, in order.
pub open spec fn all_refs(ms: Seq<MappedIssue>) -> Seq<SprintRef>
    decreases ms.len(),
{
    if ms.len() == 0 {
        Seq::empty()
    } else {
        all_refs(ms.drop_last()) + ms.last().sprint_refs@
    }
}

/// The position of the first entry naming sprint `id` (the length when none
/// does).
pub open spec fn first_index(refs: Seq<SprintRef>, id: i64) -> int
    decreases refs.len(),
{
    if refs.len() == 0 {
        0
    } else if refs[0].id == id {
        0
    } else {
        1 + first_index(refs.drop_first(), id)
    }
}

/// What `collect_sprints` returns: one sprint per sprint id that the
/// issues name, made from the first entry naming it.
pub open spec fn collected(refs: Seq<SprintRef>, r: Seq<Sprint>) -> bool {
    &&& forall|i: int, j: int| 0 <= i < j < r.len() ==> (#[trigger] r[i]).id != (#[trigger] r[j]).id
    &&& forall|k: int| 0 <= k < r.len() ==> first_index(refs, (#[trigger] r[k]).id) < refs.len() && made_from(
        r[k],
        refs[first_index(refs, r[k].id)],
    )
    &&& forall|m: int| 0 <= m < refs.len() ==> exists|k: int| 0 <= k < r.len() && (#[trigger] r[k]).id == (#[trigger] refs[m]).id
}

proof fn lemma_first_index(refs: Seq<SprintRef>, id: i64)
    ensures
        0 <= first_index(refs, id) <= refs.len(),
        first_index(refs, id) < refs.len() ==> refs[first_index(refs, id)].id == id,
        forall|j: int| 0 <= j < first_index(refs, id) ==> #[trigger] refs[j].id != id,
    decreases refs.len(),
{
    if refs.len() > 0 && refs[0].id != id {
        lemma_first_index(refs.drop_first(), id);
        assert forall|j: int| 0 <= j < first_index(refs, id) implies #[trigger] refs[j].id != id by {
            if j > 0 {
                assert(refs[j] == refs.drop_first()[j - 1]);
            }
        }
    }
}

proof fn lemma_first_index_push(refs: Seq<SprintRef>, x: SprintRef, id: i64)
    ensures
        first_index(refs.push(x), id) == if first_index(refs, id) < refs.len() {
            first_index(refs, id)
        } else if x.id == id {
            refs.len() as int
        } else {
            refs.len() + 1int
        },
    decreases refs.len(),
{
    let p = refs.push(x);
    if refs.len() == 0 {
        assert(p[0] == x);
        assert(p.drop_first().len() == 0);
        if x.id != id {
            assert(first_index(p.drop_first(), id) == 0);
            assert(first_index(p, id) == 1);
        }
    } else {
        assert(p[0] == refs[0]);
        if refs[0].id != id {
            assert(p.drop_first() =~= refs.drop_first().push(x));
            lemma_first_index_push(refs.drop_first(), x, id);
            assert(first_index(p, id) == 1 + first_index(refs.drop_first().push(x), id));
            assert(first_index(refs, id) == 1 + first_index(refs.drop_first(), id));
        }
    }
}

proof fn lemma_collected_known(before: Seq<SprintRef>, x: SprintRef, out: Seq<Sprint>)
    requires
        collected(before, out),
        exists|k: int| 0 <= k < out.len() && (#[trigger] out[k]).id == x.id,
    ensures
        collected(before.push(x), out),
{
    let after = before.push(x);
    let m = before.len() as int;
    assert forall|mm: int| 0 <= mm < after.len() implies exists|k: int|
        0 <= k < out.len() && (#[trigger] out[k]).id == (#[trigger] after[mm]).id by {
        if mm < m {
            assert(after[mm] == before[mm]);
        }
    }
    assert forall|k: int| 0 <= k < out.len() implies first_index(after, (#[trigger] out[k]).id) < after.len() && made_from(
        out[k],
        after[first_index(after, out[k].id)],
    ) by {
        lemma_first_index_push(before, x, out[k].id);
        lemma_first_index(before, out[k].id);
        assert(after[first_index(before, out[k].id)] == before[first_index(before, out[k].id)]);
    }
}

proof fn lemma_collected_new(before: Seq<SprintRef>, x: SprintRef, out: Seq<Sprint>, s: Sprint)
    requires
        collected(before, out),
        forall|k: int| 0 <= k < out.len() ==> (#[trigger] out[k]).id != x.id,
        made_from(s, x),
    ensures
        collected(before.push(x), out.push(s)),
{
    let after = before.push(x);
    let out2 = out.push(s);
    let m = before.len() as int;
    assert(after[m] == x);
    lemma_first_index(before, x.id);
    if first_index(before, x.id) < before.len() {
        let mm = first_index(before, x.id);
        let k = choose|k: int| 0 <= k < out.len() && (#[trigger] out[k]).id == before[mm].id;
        assert(false);
    }
    assert forall|mm: int| 0 <= mm < after.len() implies exists|k: int|
        0 <= k < out2.len() && (#[trigger] out2[k]).id == (#[trigger] after[mm]).id by {
        if mm < m {
            assert(after[mm] == before[mm]);
            let k = choose|k: int| 0 <= k < out.len() && (#[trigger] out[k]).id == before[mm].id;
            assert(out2[k] == out[k]);
        } else {
            assert(out2[out.len() as int] == s);
        }
    }
    assert forall|k: int| 0 <= k < out2.len() implies first_index(after, (#[trigger] out2[k]).id) < after.len() && made_from(
        out2[k],
        after[first_index(after, out2[k].id)],
    ) by {
        lemma_first_index_push(before, x, out2[k].id);
        lemma_first_index(before, out2[k].id);
        if k < out.len() {
            assert(out2[k] == out[k]);
            assert(after[first_index(before, out[k].id)] == before[first_index(before, out[k].id)]);
        } else {
            assert(out2[k] == s);
        }
    }
    assert forall|a: int, b: int| 0 <= a < b < out2.len() implies (#[trigger] out2[a]).id != (#[trigger] out2[b]).id by {
        assert(out2[a] == out[a]);
        if b < out.len() {
            assert(out2[b] == out[b]);
        }
    }
}

/// The sprints named by the mapped issues' Sprint fields, each id once, the
/// first mention of an id giving its sprint.
pub fn collect_sprints(mapped: &[MappedIssue]) -> (r: Vec<Sprint>)
    ensures
        forall|i: int, j: int| 0 <= i < j < r@.len() ==> (#[trigger] r@[i]).id != (#[trigger] r@[j]).id,
        collected(all_refs(mapped@), r@),
{
    let mut out: Vec<Sprint> = Vec::new();
    let mut i: usize = 0;
    while i < mapped.len()
        invariant
            i <= mapped@.len(),
            collected(all_refs(mapped@.take(i as int)), out@),
        decreases mapped@.len() - i,
    {
        assert(mapped@.take(i + 1).drop_last() =~= mapped@.take(i as int));
        let ghost prefix = all_refs(mapped@.take(i as int));
        let refs = &mapped[i].sprint_refs;
        let mut j: usize = 0;
        assert(prefix + refs@.take(0) =~= prefix);
        while j < refs.len()
            invariant
                j <= refs@.len(),
                collected(prefix + refs@.take(j as int), out@),
            decreases refs@.len() - j,
        {
            let ghost before = prefix + refs@.take(j as int);
            assert(prefix + refs@.take(j + 1) =~= before.push(refs@[j as int]));
            let r = &refs[j];
            let mut found = false;
            let mut k: usize = 0;
            while k < out.len()
                invariant
                    k <= out@.len(),
                    !found ==> forall|x: int| 0 <= x < k ==> (#[trigger] out@[x]).id != r.id,
                    found ==> exists|x: int| 0 <= x < out@.len() && (#[trigger] out@[x]).id == r.id,
                decreases out@.len() - k,
            {
                if out[k].id == r.id {
                    found = true;
                }
                k = k + 1;
            }
            if found {
                proof {
                    lemma_collected_known(before, *r, out@);
                }
            } else {
                let s = crate::mapper::sprint_from_ref(r);
                proof {
                    lemma_collected_new(before, *r, out@, s);
                }
                out.push(s);
            }
            j = j + 1;
        }
        assert(refs@.take(refs@.len() as int) =~= refs@);
        i = i + 1;
    }
    assert(mapped@.take(mapped@.len() as int) =~= mapped@);
    out
}

/// Sprints that lack a start or an end date, whose record is fetched.
pub open spec fn incomplete(s: Sprint) -> bool {
    s.start_date is None || s.end_date is None
}

pub fn incomplete_sprint_ids(sprints: &[Sprint]) -> (r: Vec<i64>)
    ensures
        r@ == sprints@.filter(|s: Sprint| incomplete(s)).map_values(|s: Sprint| s.id),
{
    let ghost p = |s: Sprint| incomplete(s);
    let mut r: Vec<i64> = Vec::new();
    let mut k: usize = 0;
    while k < sprints.len()
        invariant
            k <= sprints@.len(),
            p == (|s: Sprint| incomplete(s)),
            r@ == sprints@.take(k as int).filter(p).map_values(|s: Sprint| s.id),
        decreases sprints@.len() - k,
    {
        reveal_with_fuel(Seq::<_>::filter, 1);
        assert(sprints@.take(k + 1).drop_last() =~= sprints@.take(k as int));
        assert(sprints@.take(k + 1).last() == sprints@[k as int]);
        if sprints[k].start_date.is_none() || sprints[k].end_date.is_none() {
            r.push(sprints[k].id);
            assert(r@ =~= sprints@.take(k + 1).filter(p).map_values(|s: Sprint| s.id));
        } else {
            assert(sprints@.take(k + 1).filter(p) =~= sprints@.take(k as int).filter(p));
        }
        k = k + 1;
    }
    assert(sprints@.take(sprints@.len() as int) =~= sprints@);
    r
}

pub open spec fn opt_instant(s: Option<String>) -> Option<i64> {
    match s {
        Some(t) => time::jira_datetime_spec(t@),
        None => None,
    }
}

/// A sprint from its own record: the end date, else the completion date,
/// gives its end.
pub fn sprint_from_dto(dto: &SprintDto) -> (s: Sprint)
    ensures
        s.id == dto.id,
        s.name@ == dto.name@,
        s.state == state_of_text(text::lowercase(dto.state@)),
        s.start_date == opt_instant(dto.start_date),
        s.end_date == (match dto.end_date {
            Some(_) => opt_instant(dto.end_date),
            None => opt_instant(dto.complete_date),
        }),
        s.board_id == dto.origin_board_id,
{
    let start_date = match &dto.start_date {
        Some(t) => time::parse_jira_datetime(t.as_str()),
        None => None,
    };
    let end_date = match &dto.end_date {
        Some(t) => time::parse_jira_datetime(t.as_str()),
        None => match &dto.complete_date {
            Some(t) => time::parse_jira_datetime(t.as_str()),
            None => None,
        },
    };
    Sprint {
        id: dto.id,
        name: dto.name.clone(),
        state: SprintState::from_jira(dto.state.as_str()),
        start_date,
        end_date,
        board_id: dto.origin_board_id,
    }
}

/// Puts a freshly fetched sprint in place of the sprint with id `id` (the
/// first one, when several share it), or adds it when there is none.
pub fn replace_sprint(sprints: &mut Vec<Sprint>, id: i64, s: Sprint)
    ensures
        (exists|k: int| 0 <= k < old(sprints)@.len() && (#[trigger] old(sprints)@[k]).id == id) ==> exists|k: int|
            0 <= k < old(sprints)@.len() && (#[trigger] old(sprints)@[k]).id == id && (forall|j: int|
                0 <= j < k ==> (#[trigger] old(sprints)@[j]).id != id) && final(sprints)@ == old(sprints)@.update(k, s),
        !(exists|k: int| 0 <= k < old(sprints)@.len() && (#[trigger] old(sprints)@[k]).id == id) ==> final(sprints)@
            == old(sprints)@.push(s),
{
    let mut k: usize = 0;
    while k < sprints.len()
        invariant
            k <= sprints@.len(),
            sprints@ == old(sprints)@,
            forall|j: int| 0 <= j < k ==> (#[trigger] sprints@[j]).id != id,
        decreases sprints@.len() - k,
    {
        if sprints[k].id == id {
            sprints.set(k, s);
            return;
        }
        k = k + 1;
    }
    sprints.push(s);
}

} // verus!
