//! Sprint-name convention parsing. Spilled issues carry their entire sprint
//! history in Jira's Sprint field, so the sprints referenced by an
//! increment's issues include old sprints of earlier increments. Teams encode
//! the increment in the sprint name as `<increment>:<sprint>` (e.g.
//! `Pegasus 25:2`), which lets the sprints of the increment in view be kept.
//!
//! The convention is configurable: a regex with two capture groups
//! (increment number, then sprint number) plus the sprints per increment.

use vstd::prelude::*;

use crate::model::{Increment, Sprint, SprintState};
use crate::pattern;
use crate::text;
use crate::time;

verus! {

/// Default regex: two colon-separated numbers anywhere in the name. The first
/// is the increment, the second the sprint (e.g. `Pegasus 25:2`).
pub const DEFAULT_PATTERN: &'static str = r"(\d+)\s*:\s*(\d+)";

/// Default sprints per increment (a 3-month increment is ~6 × 2-week sprints).
pub const DEFAULT_SPRINTS_PER_INCREMENT: u32 = 6;

pub struct SprintNaming {
    /// Regex with two capture groups: increment number, then sprint number.
    pub pattern: String,
    /// Sprints per increment; the parsed sprint number must fall in 1..=this.
    pub sprints_per_increment: u32,
}

impl Default for SprintNaming {
    fn default() -> (r: Self)
        ensures
            r.pattern@ == DEFAULT_PATTERN@,
            r.sprints_per_increment == DEFAULT_SPRINTS_PER_INCREMENT,
    {
        SprintNaming { pattern: text::owned(DEFAULT_PATTERN), sprints_per_increment: DEFAULT_SPRINTS_PER_INCREMENT }
    }
}

#[derive(Clone, Copy, Debug, PartialEq, Eq, Structural)]
pub struct ParsedSprintName {
    pub increment: i64,
    pub sprint: i64,
}

/// The numbers read from the two capture groups: both groups present and
/// readable as `i64`, and the sprint number within `1..=per_increment`.
pub open spec fn from_groups(
    per_increment: u32,
    g1: Option<Option<Seq<char>>>,
    g2: Option<Option<Seq<char>>>,
) -> Option<ParsedSprintName> {
    match (g1, g2) {
        (Some(Some(a)), Some(Some(b))) => match (text::parse_i64_spec(a), text::parse_i64_spec(b)) {
            (Some(increment), Some(sprint)) => if 1 <= sprint <= per_increment {
                Some(ParsedSprintName { increment, sprint })
            } else {
                None
            },
            _ => None,
        },
        _ => None,
    }
}

/// A sprint name read by the convention: the numbers in capture groups 1
/// and 2 of the pattern's first match in the name (see `from_groups`).
pub open spec fn parse_spec(pattern: Seq<char>, per_increment: u32, name: Seq<char>) -> Option<ParsedSprintName> {
    from_groups(per_increment, pattern::regex_group(pattern, name, 1), pattern::regex_group(pattern, name, 2))
}

/// Reads a sprint name's numbers from what the pattern captured: group 1 is
/// the increment, group 2 the sprint, which must fall in
/// `1..=sprints_per_increment`.
pub fn parse_groups(
    sprints_per_increment: u32,
    g1: Option<Option<String>>,
    g2: Option<Option<String>>,
) -> (r: Option<ParsedSprintName>)
    ensures
        r == from_groups(sprints_per_increment, pattern::group_view(g1), pattern::group_view(g2)),
{
    let a = match g1 {
        Some(Some(a)) => a,
        _ => return None,
    };
    let b = match g2 {
        Some(Some(b)) => b,
        _ => return None,
    };
    let increment = match text::parse_i64(a.as_str()) {
        Some(x) => x,
        None => return None,
    };
    let sprint = match text::parse_i64(b.as_str()) {
        Some(x) => x,
        None => return None,
    };
    if sprint >= 1 && sprint <= sprints_per_increment as i64 {
        Some(ParsedSprintName { increment, sprint })
    } else {
        None
    }
}

impl SprintNaming {
    pub open spec fn parse_view(&self, name: Seq<char>) -> Option<ParsedSprintName> {
        parse_spec(self.pattern@, self.sprints_per_increment, name)
    }

    /// Parses a sprint name into its `(increment, sprint)` numbers. `None`
    /// when the name does not follow the convention or the sprint number
    /// falls outside `1..=sprints_per_increment` (which guards against false
    /// matches like a year in a date).
    pub fn parse(&self, name: &str) -> (r: Option<ParsedSprintName>)
        ensures
            r == self.parse_view(name@),
    {
        let g1 = pattern::capture_group(self.pattern.as_str(), name, 1);
        let g2 = pattern::capture_group(self.pattern.as_str(), name, 2);
        parse_groups(self.sprints_per_increment, g1, g2)
    }
}

pub open spec fn opt_day(t: Option<i64>) -> Option<int> {
    match t {
        Some(x) => Some(time::day_of(x as int)),
        None => None,
    }
}

/// A sprint's date span overlaps the increment's window; a one-sided span
/// counts as a point at its known end.
pub open spec fn overlaps_spec(sprint: Sprint, increment: Increment) -> bool {
    let start = opt_day(sprint.start_date);
    let end = opt_day(sprint.end_date);
    let s = if start is Some { start } else { end };
    let e = if end is Some { end } else { start };
    match (s, e) {
        (Some(s), Some(e)) => s <= increment.end_date && e >= increment.start_date,
        _ => false,
    }
}

fn opt_date_of(t: Option<i64>) -> (r: Option<i64>)
    ensures
        r matches Some(d) ==> opt_day(t) == Some(d as int),
        r is None ==> opt_day(t) is None,
{
    match t {
        Some(x) => Some(time::date_of(x)),
        None => None,
    }
}

pub fn overlaps_increment(sprint: &Sprint, increment: &Increment) -> (r: bool)
    ensures
        r == overlaps_spec(*sprint, *increment),
{
    let start = opt_date_of(sprint.start_date);
    let end = opt_date_of(sprint.end_date);
    let s = if start.is_some() { start } else { end };
    let e = if end.is_some() { end } else { start };
    match (s, e) {
        (Some(s), Some(e)) => s <= increment.end_date && e >= increment.start_date,
        _ => false,
    }
}

/// How many sprints parse to increment `n` and overlap the window.
pub open spec fn overlap_count(sprints: Seq<Sprint>, naming: SprintNaming, increment: Increment, n: i64) -> nat
    decreases sprints.len(),
{
    if sprints.len() == 0 {
        0
    } else {
        let rest = overlap_count(sprints.drop_last(), naming, increment, n);
        let s = sprints.last();
        match naming.parse_view(s.name@) {
            Some(p) => if p.increment == n && overlaps_spec(s, increment) {
                rest + 1
            } else {
                rest
            },
            None => rest,
        }
    }
}

/// The increment number of the first sprint (in order) that parses and is
/// active.
pub open spec fn first_active(sprints: Seq<Sprint>, naming: SprintNaming) -> Option<i64>
    decreases sprints.len(),
{
    if sprints.len() == 0 {
        None
    } else {
        match naming.parse_view(sprints[0].name@) {
            Some(p) => if sprints[0].state == SprintState::Active {
                Some(p.increment)
            } else {
                first_active(sprints.drop_first(), naming)
            },
            None => first_active(sprints.drop_first(), naming),
        }
    }
}

pub open spec fn parses(s: Sprint, naming: SprintNaming) -> bool {
    naming.parse_view(s.name@) is Some
}

pub open spec fn parsed_increment(s: Sprint, naming: SprintNaming) -> i64 {
    naming.parse_view(s.name@)->Some_0.increment
}

/// `(count, n)` is at least `(count', m)` in lexicographic order.
pub open spec fn lex_ge(c1: nat, n1: i64, c2: nat, n2: i64) -> bool {
    c1 > c2 || (c1 == c2 && n1 >= n2)
}

/// The increment number of the increment in view, inferred from its sprints:
/// - `None` when no sprint name follows the convention;
/// - else, when some parsed sprint overlaps the increment's window, the most
///   common increment number among those (ties to the larger number);
/// - else the active sprint's increment (the first such sprint);
/// - else the largest increment number present.
pub open spec fn target_spec(increment: Increment, sprints: Seq<Sprint>, naming: SprintNaming, r: Option<i64>) -> bool {
    if !(exists|i: int| 0 <= i < sprints.len() && parses(#[trigger] sprints[i], naming)) {
        r is None
    } else if exists|i: int| 0 <= i < sprints.len() && parses(#[trigger] sprints[i], naming) && overlaps_spec(sprints[i], increment) {
        &&& r is Some
        &&& overlap_count(sprints, naming, increment, r->Some_0) > 0
        &&& forall|m: i64| overlap_count(sprints, naming, increment, m) > 0 ==> lex_ge(
            overlap_count(sprints, naming, increment, r->Some_0),
            r->Some_0,
            #[trigger] overlap_count(sprints, naming, increment, m),
            m,
        )
    } else if first_active(sprints, naming) is Some {
        r == first_active(sprints, naming)
    } else {
        &&& r is Some
        &&& exists|i: int| 0 <= i < sprints.len() && parses(#[trigger] sprints[i], naming) && parsed_increment(sprints[i], naming) == r->Some_0
        &&& forall|i: int| 0 <= i < sprints.len() && parses(#[trigger] sprints[i], naming) ==> parsed_increment(sprints[i], naming) <= r->Some_0
    }
}

proof fn lemma_overlap_count_witness(sprints: Seq<Sprint>, naming: SprintNaming, increment: Increment, n: i64)
    requires
        overlap_count(sprints, naming, increment, n) > 0,
    ensures
        exists|j: int| 0 <= j < sprints.len() && parses(#[trigger] sprints[j], naming) && parsed_increment(sprints[j], naming) == n
            && overlaps_spec(sprints[j], increment),
    decreases sprints.len(),
{
    let rest = sprints.drop_last();
    let s = sprints.last();
    if overlap_count(rest, naming, increment, n) > 0 {
        lemma_overlap_count_witness(rest, naming, increment, n);
        let j = choose|j: int| 0 <= j < rest.len() && parses(#[trigger] rest[j], naming) && parsed_increment(rest[j], naming) == n
            && overlaps_spec(rest[j], increment);
        assert(sprints[j] == rest[j]);
    } else {
        assert(sprints[sprints.len() - 1] == s);
    }
}

fn parse_all(sprints: &[Sprint], naming: &SprintNaming) -> (parsed: Vec<Option<ParsedSprintName>>)
    ensures
        parsed@.len() == sprints@.len(),
        forall|i: int| 0 <= i < sprints@.len() ==> #[trigger] parsed@[i] == naming.parse_view(sprints@[i].name@),
{
    let mut parsed: Vec<Option<ParsedSprintName>> = Vec::new();
    let mut i: usize = 0;
    while i < sprints.len()
        invariant
            i <= sprints@.len(),
            parsed@.len() == i,
            forall|k: int| 0 <= k < i ==> #[trigger] parsed@[k] == naming.parse_view(sprints@[k].name@),
        decreases sprints@.len() - i,
    {
        parsed.push(naming.parse(sprints[i].name.as_str()));
        i = i + 1;
    }
    parsed
}

fn count_overlapping(
    sprints: &[Sprint],
    parsed: &Vec<Option<ParsedSprintName>>,
    naming: &SprintNaming,
    increment: &Increment,
    n: i64,
) -> (c: usize)
    requires
        parsed@.len() == sprints@.len(),
        forall|i: int| 0 <= i < sprints@.len() ==> #[trigger] parsed@[i] == naming.parse_view(sprints@[i].name@),
    ensures
        c == overlap_count(sprints@, *naming, *increment, n),
{
    let mut c: usize = 0;
    let mut i: usize = 0;
    assert(sprints@.take(0) =~= Seq::<Sprint>::empty());
    while i < sprints.len()
        invariant
            i <= sprints@.len(),
            c <= i,
            parsed@.len() == sprints@.len(),
            forall|k: int| 0 <= k < sprints@.len() ==> #[trigger] parsed@[k] == naming.parse_view(sprints@[k].name@),
            c == overlap_count(sprints@.take(i as int), *naming, *increment, n),
        decreases sprints@.len() - i,
    {
        assert(sprints@.take(i + 1).drop_last() =~= sprints@.take(i as int));
        assert(sprints@.take(i + 1).last() == sprints@[i as int]);
        match parsed[i] {
            Some(p) => {
                if p.increment == n && overlaps_increment(&sprints[i], increment) {
                    c = c + 1;
                }
            },
            None => {},
        }
        i = i + 1;
    }
    assert(sprints@.take(sprints@.len() as int) =~= sprints@);
    c
}

/// The increment number that the increment in view belongs to, inferred from
/// its sprints (see `target_spec`). `None` when no sprint name follows the
/// convention — in which case nothing is filtered.
#[verifier::loop_isolation(false)]
pub fn target_increment_number(increment: &Increment, sprints: &[Sprint], naming: &SprintNaming) -> (r: Option<i64>)
    ensures
        target_spec(*increment, sprints@, *naming, r),
{
    let parsed = parse_all(sprints, naming);
    let mut any_parsed = false;
    let mut any_overlap = false;
    let mut best_count: usize = 0;
    let mut best_n: i64 = 0;
    let mut i: usize = 0;
    while i < sprints.len()
        invariant
            i <= sprints@.len(),
            parsed@.len() == sprints@.len(),
            forall|k: int| 0 <= k < sprints@.len() ==> #[trigger] parsed@[k] == naming.parse_view(sprints@[k].name@),
            any_parsed == exists|k: int| 0 <= k < i && parses(#[trigger] sprints@[k], *naming),
            any_overlap == exists|k: int| 0 <= k < i && parses(#[trigger] sprints@[k], *naming) && overlaps_spec(sprints@[k], *increment),
            any_overlap ==> best_count == overlap_count(sprints@, *naming, *increment, best_n) && best_count > 0,
            forall|k: int| 0 <= k < i && parses(#[trigger] sprints@[k], *naming) && overlaps_spec(sprints@[k], *increment)
                ==> lex_ge(best_count as nat, best_n, overlap_count(sprints@, *naming, *increment, parsed_increment(sprints@[k], *naming)), parsed_increment(sprints@[k], *naming)),
        decreases sprints@.len() - i,
    {
        match parsed[i] {
            Some(p) => {
                any_parsed = true;
                if overlaps_increment(&sprints[i], increment) {
                    let c = count_overlapping(sprints, &parsed, naming, increment, p.increment);
                    proof {
                        assert(overlap_count(sprints@, *naming, *increment, p.increment) > 0) by {
                            if overlap_count(sprints@, *naming, *increment, p.increment) == 0 {
                                lemma_overlap_at_least_one(sprints@, *naming, *increment, i as int);
                            }
                        }
                    }
                    if !any_overlap || c > best_count || (c == best_count && p.increment > best_n) {
                        best_count = c;
                        best_n = p.increment;
                    }
                    any_overlap = true;
                }
            },
            None => {},
        }
        i = i + 1;
    }
    if !any_parsed {
        return None;
    }
    if any_overlap {
        proof {
            assert forall|m: i64| overlap_count(sprints@, *naming, *increment, m) > 0 implies lex_ge(
                overlap_count(sprints@, *naming, *increment, best_n),
                best_n,
                #[trigger] overlap_count(sprints@, *naming, *increment, m),
                m,
            ) by {
                lemma_overlap_count_witness(sprints@, *naming, *increment, m);
            }
        }
        return Some(best_n);
    }
    // The active sprint's increment (definitively the current one).
    let mut j: usize = 0;
    assert(sprints@.subrange(0, sprints@.len() as int) =~= sprints@);
    while j < sprints.len()
        invariant
            j <= sprints@.len(),
            parsed@.len() == sprints@.len(),
            forall|k: int| 0 <= k < sprints@.len() ==> #[trigger] parsed@[k] == naming.parse_view(sprints@[k].name@),
            first_active(sprints@, *naming) == first_active(sprints@.subrange(j as int, sprints@.len() as int), *naming),
        decreases sprints@.len() - j,
    {
        let ghost rest = sprints@.subrange(j as int, sprints@.len() as int);
        assert(rest.drop_first() =~= sprints@.subrange(j + 1, sprints@.len() as int));
        assert(rest[0] == sprints@[j as int]);
        match parsed[j] {
            Some(p) => {
                if sprints[j].state == SprintState::Active {
                    assert(first_active(rest, *naming) == Some(p.increment));
                    return Some(p.increment);
                }
            },
            None => {},
        }
        j = j + 1;
    }
    // The most recent increment number present.
    let mut found = false;
    let mut max_n: i64 = 0;
    let mut k: usize = 0;
    while k < sprints.len()
        invariant
            k <= sprints@.len(),
            parsed@.len() == sprints@.len(),
            forall|q: int| 0 <= q < sprints@.len() ==> #[trigger] parsed@[q] == naming.parse_view(sprints@[q].name@),
            found == exists|q: int| 0 <= q < k && parses(#[trigger] sprints@[q], *naming),
            found ==> exists|q: int| 0 <= q < k && parses(#[trigger] sprints@[q], *naming) && parsed_increment(sprints@[q], *naming) == max_n,
            forall|q: int| 0 <= q < k && parses(#[trigger] sprints@[q], *naming) ==> parsed_increment(sprints@[q], *naming) <= max_n,
        decreases sprints@.len() - k,
    {
        match parsed[k] {
            Some(p) => {
                if !found || p.increment > max_n {
                    max_n = p.increment;
                }
                found = true;
            },
            None => {},
        }
        k = k + 1;
    }
    Some(max_n)
}

proof fn lemma_overlap_at_least_one(sprints: Seq<Sprint>, naming: SprintNaming, increment: Increment, i: int)
    requires
        0 <= i < sprints.len(),
        parses(sprints[i], naming),
        overlaps_spec(sprints[i], increment),
    ensures
        overlap_count(sprints, naming, increment, parsed_increment(sprints[i], naming)) > 0,
    decreases sprints.len(),
{
    if i < sprints.len() - 1 {
        lemma_overlap_at_least_one(sprints.drop_last(), naming, increment, i);
        assert(sprints.drop_last()[i] == sprints[i]);
    }
}

/// Keeps a sprint unless its name follows the convention with another
/// increment number.
pub open spec fn keep_spec(naming: SprintNaming, target: i64, s: Sprint) -> bool {
    match naming.parse_view(s.name@) {
        Some(p) => p.increment == target,
        None => true,
    }
}

/// Keeps only the sprints that belong to the increment in view. Sprints whose
/// name does not follow the convention are kept (they cannot be classified,
/// so they are not hidden). When the target increment cannot be determined,
/// all sprints are returned unchanged.
pub fn filter_to_increment(increment: &Increment, sprints: Vec<Sprint>, naming: &SprintNaming) -> (r: Vec<Sprint>)
    ensures
        exists|t: Option<i64>| #[trigger] target_spec(*increment, sprints@, *naming, t) && match t {
            None => r@ == sprints@,
            Some(target) => r@ == sprints@.filter(|s: Sprint| keep_spec(*naming, target, s)),
        },
{
    let t = target_increment_number(increment, sprints.as_slice(), naming);
    let target = match t {
        None => return sprints,
        Some(x) => x,
    };
    let ghost keep = |s: Sprint| keep_spec(*naming, target, s);
    let mut out: Vec<Sprint> = Vec::new();
    let mut i: usize = 0;
    while i < sprints.len()
        invariant
            i <= sprints@.len(),
            keep == (|s: Sprint| keep_spec(*naming, target, s)),
            out@ == sprints@.take(i as int).filter(keep),
        decreases sprints@.len() - i,
    {
        reveal_with_fuel(Seq::<_>::filter, 1);
        assert(sprints@.take(i + 1).drop_last() =~= sprints@.take(i as int));
        let keep_it = match naming.parse(sprints[i].name.as_str()) {
            Some(p) => p.increment == target,
            None => true,
        };
        if keep_it {
            out.push(sprints[i].clone());
        }
        i = i + 1;
    }
    assert(sprints@.take(sprints@.len() as int) =~= sprints@);
    out
}

} // verus!
