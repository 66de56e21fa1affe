//! From the members of a team to the rows of the table: who, or where, on the
//! left, and the local time on the right.

use vstd::prelude::*;
use vstd::string::*;
use crate::config::{Config, Member, MemberView};
use crate::order::{
    earlier, lemma_stable_order_rises, order_by_clock, positions, stable_order, Reading,
};
use crate::table::Cells;
use crate::zone::{
    clock_in_zone, local_clock, local_text, text_in_zone, zone_exists, zone_known, Clock, Instant,
};

verus! {

/// The pattern that writes a zone's abbreviation, such as `EST` or `CET`.
pub const ABBREVIATION: &'static str = "%Z";

/// What a row stands for.
#[derive(Clone, Copy, Debug, PartialEq, Eq, Structural)]
pub enum Grouping {
    /// One row for each member, in the members' order.
    Team,
    /// One row for each zone that has a member, earliest local time first,
    /// under the zone's identifier.
    Location,
    /// As `Location`, under the abbreviation that the zone goes by at the
    /// instant.
    Timezone,
}

impl Grouping {
    /// The grouping that two switches ask for: by abbreviation where the
    /// first is on, else by zone where the second is on, else by member.
    pub fn from_flags(by_timezones: bool, by_locations: bool) -> (grouping: Grouping)
        ensures
            grouping == if by_timezones {
                Grouping::Timezone
            } else if by_locations {
                Grouping::Location
            } else {
                Grouping::Team
            },
    {
        if by_timezones {
            Grouping::Timezone
        } else if by_locations {
            Grouping::Location
        } else {
            Grouping::Team
        }
    }
}

/// Why there are no rows.
#[derive(Clone, Copy, Debug, PartialEq, Eq, Structural)]
pub enum LineError {
    /// A member is in a zone that the time zone database does not have.
    UnknownZone,
    /// The instant lies beyond the dates that the calendar reaches in some
    /// member's zone.
    OutOfRange,
    /// A time could not be written: the pattern is not one, or cannot hold
    /// the time.
    BadFormat,
}

/// The reading of the clocks in `zone` at `at`.
pub open spec fn clock_at(at: Instant, zone: Seq<char>) -> Option<Reading> {
    local_clock(at.secs as int, at.nanos as int, zone)
}

/// The local time in `zone` at `at`, written as `pattern` asks.
pub open spec fn text_at(at: Instant, zone: Seq<char>, pattern: Seq<char>) -> Option<Seq<char>> {
    local_text(at.secs as int, at.nanos as int, zone, pattern)
}

/// The zones of `members`, member by member.
pub open spec fn locations(members: Seq<MemberView>) -> Seq<Seq<char>> {
    Seq::new(members.len(), |i: int| members[i].location)
}

/// `zones` without repeats: each zone once, where it first occurs.
pub open spec fn distinct(zones: Seq<Seq<char>>) -> Seq<Seq<char>>
    decreases zones.len(),
{
    if zones.len() == 0 {
        Seq::empty()
    } else {
        let before = distinct(zones.drop_last());
        if before.contains(zones.last()) {
            before
        } else {
            before.push(zones.last())
        }
    }
}

/// The readings of the clocks in each of `zones` at `at`.
pub open spec fn readings(zones: Seq<Seq<char>>, at: Instant) -> Seq<Reading> {
    Seq::new(zones.len(), |i: int| clock_at(at, zones[i])->0)
}

/// `zones` from the earliest local time at `at` to the latest; zones whose
/// clocks show the same stay in the order they are given in.
pub open spec fn by_clock(zones: Seq<Seq<char>>, at: Instant) -> Seq<Seq<char>> {
    let order = stable_order(readings(zones, at));
    Seq::new(zones.len(), |i: int| zones[order[i]])
}

/// How a member is labelled: the name, and the zone in brackets.
pub open spec fn member_label(member: MemberView) -> Seq<char> {
    member.name + seq![' ', '('] + member.location + seq![')']
}

/// The zone of each row, from the first row to the last.
pub open spec fn row_zones(members: Seq<MemberView>, grouping: Grouping, at: Instant) -> Seq<
    Seq<char>,
> {
    match grouping {
        Grouping::Team => locations(members),
        _ => by_clock(distinct(locations(members)), at),
    }
}

/// The left entry of row `i`, if it can be written.
pub open spec fn label_at(
    members: Seq<MemberView>,
    grouping: Grouping,
    at: Instant,
    i: int,
) -> Option<Seq<char>> {
    match grouping {
        Grouping::Team => Some(member_label(members[i])),
        Grouping::Location => Some(row_zones(members, grouping, at)[i]),
        Grouping::Timezone => text_at(at, row_zones(members, grouping, at)[i], ABBREVIATION@),
    }
}

/// Row `i`, if both its entries can be written: the label, and the local time
/// in the row's zone.
pub open spec fn line_at(
    members: Seq<MemberView>,
    grouping: Grouping,
    at: Instant,
    pattern: Seq<char>,
    i: int,
) -> Option<(Seq<char>, Seq<char>)> {
    let label = label_at(members, grouping, at, i);
    let time = text_at(at, row_zones(members, grouping, at)[i], pattern);
    if label is Some && time is Some {
        Some((label->0, time->0))
    } else {
        None
    }
}

/// The rows for `members` at `at`, or why there are none.
///
/// A member in an unknown zone comes first; then an instant that is out of
/// range in some member's zone; then a row that cannot be written.
pub open spec fn lines_for(
    members: Seq<MemberView>,
    grouping: Grouping,
    at: Instant,
    pattern: Seq<char>,
) -> Result<Cells, LineError> {
    let places = locations(members);
    let count = row_zones(members, grouping, at).len();
    if exists|i: int| 0 <= i < places.len() && !zone_known(#[trigger] places[i]) {
        Err(LineError::UnknownZone)
    } else if exists|i: int| 0 <= i < places.len() && clock_at(at, #[trigger] places[i]) is None {
        Err(LineError::OutOfRange)
    } else if exists|i: int|
        0 <= i < count && #[trigger] line_at(members, grouping, at, pattern, i) is None {
        Err(LineError::BadFormat)
    } else {
        Ok(Seq::new(count, |i: int| line_at(members, grouping, at, pattern, i)->0))
    }
}

/// What a result holds, as plain text.
pub open spec fn shown(lines: Result<Vec<(String, String)>, LineError>) -> Result<
    Cells,
    LineError,
> {
    match lines {
        Ok(rows) => Ok(rows.deep_view()),
        Err(why) => Err(why),
    }
}

/// `distinct` drops repeats and nothing else: the result holds no zone twice,
/// and holds exactly the zones that `zones` holds.
pub proof fn lemma_distinct(zones: Seq<Seq<char>>)
    ensures
        distinct(zones).no_duplicates(),
        forall|zone: Seq<char>| #[trigger] distinct(zones).contains(zone) <==> zones.contains(zone),
        distinct(zones).len() == zones.to_set().len(),
    decreases zones.len(),
{
    let kept = distinct(zones);
    if zones.len() > 0 {
        let before = zones.drop_last();
        lemma_distinct(before);
        assert forall|zone: Seq<char>| #[trigger] kept.contains(zone) <==> zones.contains(zone) by {
            if kept.contains(zone) {
                let k = choose|k: int| 0 <= k < kept.len() && kept[k] == zone;
                if k < distinct(before).len() {
                    assert(distinct(before).contains(zone));
                }
            }
            if zones.contains(zone) {
                let j = choose|j: int| 0 <= j < zones.len() && zones[j] == zone;
                if j < before.len() {
                    assert(before[j] == zone);
                    assert(distinct(before).contains(zone));
                    let k = choose|k: int|
                        0 <= k < distinct(before).len() && distinct(before)[k] == zone;
                    assert(kept[k] == zone);
                } else if !distinct(before).contains(zone) {
                    assert(kept[kept.len() - 1] == zone);
                }
            }
        }
    }
    kept.unique_seq_to_set();
    assert(kept.to_set() =~= zones.to_set());
}

/// Where `zone` first occurs in `zones`.
pub open spec fn first_at(zones: Seq<Seq<char>>, zone: Seq<char>) -> int {
    choose|i: int| 0 <= i < zones.len() && zones[i] == zone && !zones.take(i).contains(zone)
}

proof fn lemma_first_at(zones: Seq<Seq<char>>, zone: Seq<char>)
    requires
        zones.contains(zone),
    ensures
        0 <= first_at(zones, zone) < zones.len(),
        zones[first_at(zones, zone)] == zone,
        forall|j: int| 0 <= j < first_at(zones, zone) ==> zones[j] != zone,
    decreases zones.len(),
{
    let i = first_at(zones, zone);
    let k = choose|k: int| 0 <= k < zones.len() && zones[k] == zone;
    if zones.drop_last().contains(zone) {
        lemma_first_at(zones.drop_last(), zone);
    }
    assert forall|j: int| 0 <= j < i implies zones[j] != zone by {
        if zones[j] == zone {
            assert(zones.take(i)[j] == zone);
        }
    }
}

/// `distinct` keeps the zones in the order in which they first occur.
pub proof fn lemma_distinct_keeps_order(zones: Seq<Seq<char>>, a: int, b: int)
    requires
        0 <= a < b < distinct(zones).len(),
    ensures
        first_at(zones, distinct(zones)[a]) < first_at(zones, distinct(zones)[b]),
    decreases zones.len(),
{
    let kept = distinct(zones);
    let before = zones.drop_last();
    let last = zones.len() - 1;
    lemma_distinct(zones);
    lemma_distinct(before);
    assert(kept.contains(kept[a]) && kept.contains(kept[b]));
    lemma_first_at(zones, kept[a]);
    lemma_first_at(zones, kept[b]);
    assert(distinct(before).contains(kept[a]));
    lemma_first_at(before, kept[a]);
    if b < distinct(before).len() {
        lemma_distinct_keeps_order(before, a, b);
        assert(distinct(before).contains(kept[b]));
        lemma_first_at(before, kept[b]);
        assert forall|j: int| 0 <= j < first_at(before, kept[a]) implies zones[j] != kept[a] by {
            assert(before[j] == zones[j]);
        }
        assert forall|j: int| 0 <= j < first_at(before, kept[b]) implies zones[j] != kept[b] by {
            assert(before[j] == zones[j]);
        }
    } else if first_at(zones, kept[b]) < last {
        // `kept[b]` is new with the last zone, so it cannot occur before it.
        assert(before[first_at(zones, kept[b])] == kept[b]);
    }
}

/// Grouped by member, the rows follow the members: there is one row for each
/// member, and row `i` holds the label of member `i` and the local time in
/// that member's zone.
pub proof fn lemma_member_lines_follow_members(
    members: Seq<MemberView>,
    at: Instant,
    pattern: Seq<char>,
)
    ensures
        lines_for(members, Grouping::Team, at, pattern) matches Ok(rows) ==> {
            &&& rows.len() == members.len()
            &&& forall|i: int|
                0 <= i < members.len() ==> #[trigger] rows[i].0 == member_label(members[i])
                    && Some(rows[i].1) == text_at(at, members[i].location, pattern)
        },
{
}

/// Grouped by zone, there are as many rows as there are different zones among
/// the members.
pub proof fn lemma_one_line_for_each_zone(
    members: Seq<MemberView>,
    grouping: Grouping,
    at: Instant,
    pattern: Seq<char>,
)
    requires
        grouping != Grouping::Team,
    ensures
        lines_for(members, grouping, at, pattern) matches Ok(rows) ==> rows.len() == locations(
            members,
        ).to_set().len(),
{
    lemma_distinct(locations(members));
}

/// Grouped by zone, the rows stand for the members' zones, each once, and the
/// local times rise from row to row: a zone where it is earlier than in
/// another stands above it, and zones where it is the same time stand in the
/// order in which the members first name them.
pub proof fn lemma_zone_lines_rise(members: Seq<MemberView>, grouping: Grouping, at: Instant)
    requires
        grouping != Grouping::Team,
    ensures
        ({
            let places = locations(members);
            let zones = row_zones(members, grouping, at);
            &&& zones.no_duplicates()
            &&& forall|zone: Seq<char>| #[trigger] zones.contains(zone) <==> places.contains(zone)
            &&& forall|i: int, j: int|
                0 <= i < zones.len() && 0 <= j < zones.len() && earlier(
                    clock_at(at, #[trigger] zones[i])->0,
                    clock_at(at, #[trigger] zones[j])->0,
                ) ==> i < j
            &&& forall|i: int, j: int|
                0 <= i < j < zones.len() ==> !earlier(
                    clock_at(at, #[trigger] zones[j])->0,
                    clock_at(at, #[trigger] zones[i])->0,
                )
            &&& forall|i: int, j: int|
                0 <= i < j < zones.len() && clock_at(at, #[trigger] zones[i]) == clock_at(
                    at,
                    #[trigger] zones[j],
                ) ==> first_at(places, zones[i]) < first_at(places, zones[j])
        }),
{
    let places = locations(members);
    let kept = distinct(places);
    let shown = readings(kept, at);
    let order = stable_order(shown);
    let zones = row_zones(members, grouping, at);
    lemma_distinct(places);
    crate::order::lemma_stable_order_exists(shown);
    assert forall|i: int, j: int| 0 <= i < zones.len() && 0 <= j < zones.len() implies (earlier(
        clock_at(at, #[trigger] zones[i])->0,
        clock_at(at, #[trigger] zones[j])->0,
    ) ==> i < j) && (i < j ==> !earlier(clock_at(at, zones[j])->0, clock_at(at, zones[i])->0)
        && zones[i] != zones[j]) && (i < j && clock_at(at, zones[i]) == clock_at(at, zones[j])
        ==> first_at(places, zones[i]) < first_at(places, zones[j])) by {
        lemma_stable_order_rises(shown, i, j);
        if i < j && clock_at(at, zones[i]) == clock_at(at, zones[j]) {
            lemma_distinct_keeps_order(places, order[i], order[j]);
        }
    }
    assert forall|zone: Seq<char>| #[trigger] zones.contains(zone) <==> places.contains(zone) by {
        if zones.contains(zone) {
            assert(kept.contains(zone));
        }
        if places.contains(zone) {
            assert(kept.contains(zone));
            let k = choose|k: int| 0 <= k < kept.len() && kept[k] == zone;
            assert(order.contains(k));
            let i = choose|i: int| 0 <= i < order.len() && order[i] == k;
            assert(zones[i] == zone);
        }
    }
}

impl Member {
    /// The member's label: the name, and the zone in brackets.
    pub fn label(&self) -> (label: String)
        ensures
            label@ == member_label(self@),
    {
        proof {
            reveal_strlit(" (");
            reveal_strlit(")");
        }
        let mut label = self.name.clone();
        label.append(" (");
        label.append(self.location.as_str());
        label.append(")");
        label
    }
}

/// The zones of the members, member by member.
pub fn member_locations(members: &Vec<Member>) -> (zones: Vec<String>)
    ensures
        zones.deep_view() == locations(members.deep_view()),
{
    let mut zones: Vec<String> = Vec::new();
    let mut i: usize = 0;
    while i < members.len()
        invariant
            i <= members.len(),
            zones.deep_view() == locations(members.deep_view().take(i as int)),
        decreases members.len() - i,
    {
        let ghost before = zones.deep_view();
        zones.push(members[i].location.clone());
        proof {
            assert(zones.deep_view() =~= before.push(members[i as int].location@));
        }
        i = i + 1;
    }
    zones
}

fn holds(zones: &Vec<String>, zone: &String) -> (found: bool)
    ensures
        found == zones.deep_view().contains(zone@),
{
    let mut i: usize = 0;
    while i < zones.len()
        invariant
            i <= zones.len(),
            forall|k: int| 0 <= k < i ==> zones.deep_view()[k] != zone@,
        decreases zones.len() - i,
    {
        if zones[i] == *zone {
            assert(zones.deep_view()[i as int] == zone@);
            return true;
        }
        i = i + 1;
    }
    false
}

/// The zones that have a member: each once, in the order in which the
/// members first name them.
pub fn distinct_locations(members: &Vec<Member>) -> (zones: Vec<String>)
    ensures
        zones.deep_view() == distinct(locations(members.deep_view())),
{
    let ghost places = locations(members.deep_view());
    let mut zones: Vec<String> = Vec::new();
    let mut i: usize = 0;
    while i < members.len()
        invariant
            i <= members.len(),
            places == locations(members.deep_view()),
            zones.deep_view() == distinct(places.take(i as int)),
        decreases members.len() - i,
    {
        proof {
            assert(places.take(i + 1).drop_last() =~= places.take(i as int));
        }
        if !holds(&zones, &members[i].location) {
            zones.push(members[i].location.clone());
        }
        i = i + 1;
    }
    proof {
        assert(places.take(members.len() as int) =~= places);
    }
    zones
}

fn all_known(zones: &Vec<String>) -> (yes: bool)
    ensures
        yes == forall|i: int| 0 <= i < zones.len() ==> zone_known(#[trigger] zones.deep_view()[i]),
{
    let mut i: usize = 0;
    while i < zones.len()
        invariant
            i <= zones.len(),
            forall|k: int| 0 <= k < i ==> zone_known(#[trigger] zones.deep_view()[k]),
        decreases zones.len() - i,
    {
        if !zone_exists(zones[i].as_str()) {
            assert(!zone_known(zones.deep_view()[i as int]));
            return false;
        }
        i = i + 1;
    }
    true
}

fn read_clocks(zones: &Vec<String>, at: &Instant) -> (clocks: Option<Vec<Clock>>)
    ensures
        clocks is Some <==> forall|i: int|
            0 <= i < zones.len() ==> clock_at(*at, #[trigger] zones.deep_view()[i]) is Some,
        clocks matches Some(read) ==> read.deep_view() == readings(zones.deep_view(), *at),
{
    let mut clocks: Vec<Clock> = Vec::new();
    let mut i: usize = 0;
    while i < zones.len()
        invariant
            i <= zones.len(),
            clocks.len() == i,
            forall|k: int|
                0 <= k < i ==> clock_at(*at, #[trigger] zones.deep_view()[k]) == Some(clocks[k]@),
        decreases zones.len() - i,
    {
        match clock_in_zone(at, zones[i].as_str()) {
            Some(clock) => {
                clocks.push(clock);
            },
            None => {
                assert(clock_at(*at, zones.deep_view()[i as int]) is None);
                return None;
            },
        }
        i = i + 1;
    }
    Some(clocks)
}

/// One row for each member, in the members' order: the member's label, and
/// the local time in the member's zone at `at`, written as `pattern` asks.
pub fn member_lines(members: &Vec<Member>, at: &Instant, pattern: &str) -> (lines: Result<
    Vec<(String, String)>,
    LineError,
>)
    ensures
        shown(lines) == lines_for(members.deep_view(), Grouping::Team, *at, pattern@),
        lines matches Ok(rows) ==> rows.len() == members.len() && forall|i: int|
            0 <= i < rows.len() ==> (#[trigger] rows[i]).0@ == member_label(members[i]@),
{
    let ghost people = members.deep_view();
    let zones = member_locations(members);
    if !all_known(&zones) {
        return Err(LineError::UnknownZone);
    }
    if read_clocks(&zones, at).is_none() {
        return Err(LineError::OutOfRange);
    }
    let mut rows: Vec<(String, String)> = Vec::new();
    let mut i: usize = 0;
    while i < members.len()
        invariant
            i <= members.len(),
            people == members.deep_view(),
            zones.deep_view() == locations(people),
            forall|k: int| 0 <= k < people.len() ==> zone_known(#[trigger] locations(people)[k]),
            forall|k: int|
                0 <= k < people.len() ==> clock_at(*at, #[trigger] locations(people)[k]) is Some,
            rows.len() == i,
            forall|k: int|
                0 <= k < i ==> #[trigger] line_at(people, Grouping::Team, *at, pattern@, k) == Some(
                    rows.deep_view()[k],
                ),
        decreases members.len() - i,
    {
        let label = members[i].label();
        match text_in_zone(at, zones[i].as_str(), pattern) {
            Some(time) => {
                rows.push((label, time));
            },
            None => {
                assert(line_at(people, Grouping::Team, *at, pattern@, i as int) is None);
                return Err(LineError::BadFormat);
            },
        }
        i = i + 1;
    }
    proof {
        assert(rows.deep_view() =~= Seq::new(
            people.len(),
            |k: int| line_at(people, Grouping::Team, *at, pattern@, k)->0,
        ));
        assert forall|k: int| 0 <= k < rows.len() implies (#[trigger] rows[k]).0@ == member_label(
            members[k]@,
        ) by {
            assert(line_at(people, Grouping::Team, *at, pattern@, k) == Some(rows.deep_view()[k]));
        }
    }
    Ok(rows)
}

/// One row for each zone that has a member, from the earliest local time at
/// `at` to the latest: the zone's identifier, or its abbreviation where
/// `abbreviated`, and the local time written as `pattern` asks. Zones whose
/// clocks show the same stand in the order in which the members first name
/// them.
pub fn zone_lines(
    members: &Vec<Member>,
    at: &Instant,
    pattern: &str,
    abbreviated: bool,
) -> (lines: Result<Vec<(String, String)>, LineError>)
    ensures
        shown(lines) == lines_for(
            members.deep_view(),
            if abbreviated {
                Grouping::Timezone
            } else {
                Grouping::Location
            },
            *at,
            pattern@,
        ),
        lines matches Ok(rows) ==> rows.len() == locations(members.deep_view()).to_set().len(),
        lines is Ok ==> ({
            let zones = by_clock(distinct(locations(members.deep_view())), *at);
            forall|i: int, j: int|
                0 <= i < j < zones.len() ==> !earlier(
                    clock_at(*at, #[trigger] zones[j])->0,
                    clock_at(*at, #[trigger] zones[i])->0,
                )
        }),
{
    let ghost people = members.deep_view();
    let ghost places = locations(people);
    let ghost grouping = if abbreviated {
        Grouping::Timezone
    } else {
        Grouping::Location
    };
    let zones = distinct_locations(members);
    proof {
        // The zones without repeats are the members' zones, so what holds of
        // each of the ones holds of each of the others.
        lemma_distinct(places);
        assert forall|i: int| 0 <= i < places.len() implies distinct(places).contains(
            #[trigger] places[i],
        ) by {}
        assert forall|k: int| 0 <= k < zones.len() implies places.contains(
            #[trigger] zones.deep_view()[k],
        ) by {
            assert(distinct(places).contains(zones.deep_view()[k]));
        }
    }
    if !all_known(&zones) {
        return Err(LineError::UnknownZone);
    }
    let clocks = match read_clocks(&zones, at) {
        Some(clocks) => clocks,
        None => {
            return Err(LineError::OutOfRange);
        },
    };
    let order = order_by_clock(&clocks);
    let ghost arranged = row_zones(people, grouping, *at);
    proof {
        assert forall|k: int| 0 <= k < order.len() implies (#[trigger] order[k] as int)
            < zones.len() && arranged[k] == zones.deep_view()[order[k] as int] by {
            assert(positions(order@)[k] == order[k]);
        }
    }
    let mut rows: Vec<(String, String)> = Vec::new();
    let mut i: usize = 0;
    while i < order.len()
        invariant
            i <= order.len(),
            order.len() == zones.len(),
            people == members.deep_view(),
            forall|k: int| 0 <= k < people.len() ==> zone_known(#[trigger] locations(people)[k]),
            forall|k: int|
                0 <= k < people.len() ==> clock_at(*at, #[trigger] locations(people)[k]) is Some,
            arranged == row_zones(people, grouping, *at),
            arranged.len() == zones.len(),
            grouping == if abbreviated {
                Grouping::Timezone
            } else {
                Grouping::Location
            },
            forall|k: int|
                0 <= k < order.len() ==> (#[trigger] order[k] as int) < zones.len() && arranged[k]
                    == zones.deep_view()[order[k] as int],
            rows.len() == i,
            forall|k: int|
                0 <= k < i ==> #[trigger] line_at(people, grouping, *at, pattern@, k) == Some(
                    rows.deep_view()[k],
                ),
        decreases order.len() - i,
    {
        let zone = zones[order[i]].as_str();
        let label = if abbreviated {
            text_in_zone(at, zone, ABBREVIATION)
        } else {
            Some(zones[order[i]].clone())
        };
        let time = text_in_zone(at, zone, pattern);
        match (label, time) {
            (Some(label), Some(time)) => {
                rows.push((label, time));
            },
            _ => {
                assert(line_at(people, grouping, *at, pattern@, i as int) is None);
                return Err(LineError::BadFormat);
            },
        }
        i = i + 1;
    }
    proof {
        assert(rows.deep_view() =~= Seq::new(
            arranged.len(),
            |k: int| line_at(people, grouping, *at, pattern@, k)->0,
        ));
        lemma_distinct(locations(people));
        lemma_zone_lines_rise(people, grouping, *at);
    }
    Ok(rows)
}

/// The rows for `members` at `at`: one for each member, or one for each zone
/// that has a member, as `grouping` says.
pub fn build_lines(
    members: &Vec<Member>,
    grouping: Grouping,
    at: &Instant,
    pattern: &str,
) -> (lines: Result<Vec<(String, String)>, LineError>)
    ensures
        shown(lines) == lines_for(members.deep_view(), grouping, *at, pattern@),
        lines matches Ok(rows) ==> rows.len() == if grouping == Grouping::Team {
            members.len() as nat
        } else {
            locations(members.deep_view()).to_set().len()
        },
{
    match grouping {
        Grouping::Team => member_lines(members, at, pattern),
        Grouping::Location => zone_lines(members, at, pattern, false),
        Grouping::Timezone => zone_lines(members, at, pattern, true),
    }
}

/// The rows for `members` at `date`, with the times written in the pattern
/// that `cfg` gives.
pub fn team_to_lines(
    cfg: &Config,
    grouping: Grouping,
    date: &Instant,
    members: &Vec<Member>,
) -> (lines: Result<Vec<(String, String)>, LineError>)
    ensures
        shown(lines) == lines_for(members.deep_view(), grouping, *date, cfg.pattern()),
{
    build_lines(members, grouping, date, cfg.date_format())
}

} // verus!
