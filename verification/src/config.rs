//! The teams and the settings that go with them.

use vstd::prelude::*;
use vstd::string::*;
use crate::zone::{zone_exists, zone_known};

verus! {

/// The pattern that times are written in where a configuration names none.
pub const DEFAULT_DATE_FMT: &'static str = "%a %b %d %H:%M";

/// Someone to keep track of: a name to show, and the identifier of the time
/// zone they are in, as the time zone database spells it.
#[derive(Clone, Debug, PartialEq, Eq)]
pub struct Member {
    pub name: String,
    pub location: String,
}

/// What a [`Member`] holds, as plain text.
pub struct MemberView {
    pub name: Seq<char>,
    pub location: Seq<char>,
}

impl View for Member {
    type V = MemberView;

    open spec fn view(&self) -> MemberView {
        MemberView { name: self.name@, location: self.location@ }
    }
}

impl DeepView for Member {
    type V = MemberView;

    open spec fn deep_view(&self) -> MemberView {
        self.view()
    }
}

impl Member {
    /// A member in the zone `location`, if the time zone database has such a
    /// zone.
    pub fn new(name: String, location: String) -> (member: Option<Member>)
        ensures
            member is Some <==> zone_known(location@),
            member matches Some(m) ==> m.name == name && m.location == location,
    {
        if zone_exists(location.as_str()) {
            Some(Member { name, location })
        } else {
            None
        }
    }
}

/// A team: its name and its members, in the order they were declared in.
#[derive(Clone, Debug, PartialEq, Eq)]
pub struct Team {
    pub name: String,
    pub members: Vec<Member>,
}

/// The teams by name. No two teams share a name; the teams keep the order in
/// which their names were first entered.
#[derive(Debug)]
pub struct Teams {
    list: Vec<Team>,
}

impl View for Teams {
    type V = Map<Seq<char>, Seq<MemberView>>;

    /// The members of each team, by the team's name.
    open spec fn view(&self) -> Map<Seq<char>, Seq<MemberView>> {
        Map::new(
            |name: Seq<char>| self.names().contains(name),
            |name: Seq<char>| self.roster(self.names().index_of(name)),
        )
    }
}

impl Teams {
    #[verifier::type_invariant]
    spec fn names_differ(self) -> bool {
        forall|i: int, j: int|
            0 <= i < j < self.list.len() ==> (#[trigger] self.list[i]).name@ != (
            #[trigger] self.list[j]).name@
    }

    /// The names of the teams, in order.
    pub closed spec fn names(self) -> Seq<Seq<char>> {
        Seq::new(self.list@.len(), |i: int| self.list[i].name@)
    }

    /// The members of the team at position `i`.
    pub closed spec fn roster(self, i: int) -> Seq<MemberView> {
        self.list[i].members.deep_view()
    }

    /// No teams.
    pub fn new() -> (teams: Teams)
        ensures
            teams.names() == Seq::<Seq<char>>::empty(),
            teams@ == Map::<Seq<char>, Seq<MemberView>>::empty(),
    {
        let teams = Teams { list: Vec::new() };
        assert(teams.names() =~= Seq::<Seq<char>>::empty());
        assert(teams@ =~= Map::<Seq<char>, Seq<MemberView>>::empty());
        teams
    }

    fn position(&self, name: &str) -> (at: Option<usize>)
        ensures
            match at {
                Some(i) => i < self.names().len() && self.names()[i as int] == name@,
                None => !self.names().contains(name@),
            },
    {
        let wanted = name.to_owned();
        let mut i: usize = 0;
        while i < self.list.len()
            invariant
                i <= self.list.len(),
                wanted@ == name@,
                forall|k: int| 0 <= k < i ==> self.names()[k] != name@,
            decreases self.list.len() - i,
        {
            if self.list[i].name == wanted {
                return Some(i);
            }
            i = i + 1;
        }
        None
    }

    /// How many teams there are.
    pub fn len(&self) -> (count: usize)
        ensures
            count == self.names().len(),
            count == self@.dom().len(),
    {
        proof {
            use_type_invariant(self);
            let names = self.names();
            assert(names.no_duplicates());
            names.unique_seq_to_set();
            assert(self@.dom() =~= names.to_set());
        }
        self.list.len()
    }

    /// Whether there is a team of this name.
    pub fn contains_key(&self, name: &str) -> (found: bool)
        ensures
            found == self@.contains_key(name@),
    {
        self.position(name).is_some()
    }

    /// The members of the team of this name, if there is one.
    pub fn get(&self, name: &str) -> (found: Option<&Vec<Member>>)
        ensures
            found is Some <==> self@.contains_key(name@),
            found matches Some(members) ==> members.deep_view() == self@[name@],
    {
        proof {
            use_type_invariant(self);
        }
        match self.position(name) {
            Some(i) => {
                assert(self.names().index_of(name@) == i);
                Some(&self.list[i].members)
            },
            None => None,
        }
    }

    /// The team at position `i`, counting from 0 in the order of
    /// [`Teams::names`], if there are that many.
    pub fn at(&self, i: usize) -> (found: Option<&Team>)
        ensures
            found is Some <==> i < self.names().len(),
            found matches Some(team) ==> team.name@ == self.names()[i as int]
                && team.members.deep_view() == self.roster(i as int)
                && self@[team.name@] == team.members.deep_view(),
    {
        proof {
            use_type_invariant(self);
        }
        if i < self.list.len() {
            assert(self.names()[i as int] == self.list[i as int].name@);
            assert(self.names().index_of(self.list[i as int].name@) == i);
            Some(&self.list[i])
        } else {
            None
        }
    }

    /// Enters a team. A team that had the name before is replaced, in its
    /// place, and its members are handed back; a new team goes last.
    pub fn insert(&mut self, name: String, members: Vec<Member>) -> (replaced: Option<Vec<Member>>)
        ensures
            final(self)@ == old(self)@.insert(name@, members.deep_view()),
            replaced is Some <==> old(self)@.contains_key(name@),
            replaced matches Some(before) ==> before.deep_view() == old(self)@[name@],
            final(self).names() == if old(self)@.contains_key(name@) {
                old(self).names()
            } else {
                old(self).names().push(name@)
            },
    {
        proof {
            use_type_invariant(&*self);
        }
        let ghost before = *self;
        let found = self.position(name.as_str());
        let mut taken = Teams { list: Vec::new() };
        std::mem::swap(self, &mut taken);
        let mut list = taken.list;
        let replaced = match found {
            Some(i) => {
                let team = list.remove(i);
                list.insert(i, Team { name, members });
                Some(team.members)
            },
            None => {
                list.push(Team { name, members });
                None
            },
        };
        proof {
            let after = Teams { list };
            if found is Some {
                // The team that is replaced gives way to one of the same name.
                assert(after.names() =~= before.names());
                assert forall|n: Seq<char>| before.names().contains(n) implies #[trigger] after@[n]
                    == before@.insert(name@, members.deep_view())[n] by {
                    assert(before.names()[before.names().index_of(n)] == n);
                }
            } else {
                // The new team goes last, under a name that was not there.
                assert(after.names() =~= before.names().push(name@));
                assert forall|n: Seq<char>| after.names().contains(n) <==> (n == name@
                    || before.names().contains(n)) by {
                    if before.names().contains(n) {
                        assert(after.names()[before.names().index_of(n)] == n);
                    }
                    if n == name@ {
                        assert(after.names()[before.names().len() as int] == n);
                    }
                }
                assert forall|n: Seq<char>| after.names().contains(n) implies #[trigger] after@[n]
                    == before@.insert(name@, members.deep_view())[n] by {
                    let k = after.names().index_of(n);
                    assert(after.names()[k] == n);
                    if k < before.names().len() {
                        let b = before.names().index_of(n);
                        assert(before.names()[b] == n);
                        assert(after.names()[b] == n);
                    }
                }
            }
            assert(after@ =~= before@.insert(name@, members.deep_view()));
            // Either way the names still differ.
            assert forall|x: int, y: int| 0 <= x < y < list.len() implies (#[trigger] list[x]).name@
                != (#[trigger] list[y]).name@ by {
                assert(after.names()[x] == list[x].name@ && after.names()[y] == list[y].name@);
                assert(before.names()[x] == before.list[x].name@);
                if y < before.list.len() {
                    assert(before.names()[y] == before.list[y].name@);
                }
            }
        }
        *self = Teams { list };
        replaced
    }
}

/// How dates that can be read two ways are read: the day first, as in
/// Britain, or the month first, as in the United States.
#[derive(Clone, Copy, Debug, PartialEq, Eq, Structural)]
pub enum Dialect {
    Uk,
    Us,
}

/// Whether `a` and `b` are the same letter, taking `A` to `Z` for `a` to `z`.
pub open spec fn same_letter(a: char, b: char) -> bool {
    a == b || ('A' <= a <= 'Z' && b as int == a as int + 32) || ('A' <= b <= 'Z' && a as int
        == b as int + 32)
}

/// Whether `a` and `b` read the same once the case of the letters `A` to `Z`
/// is set aside.
pub open spec fn same_ignoring_case(a: Seq<char>, b: Seq<char>) -> bool {
    a.len() == b.len() && forall|i: int| 0 <= i < a.len() ==> same_letter(a[i], b[i])
}

/// Compares two strings, setting the case of the letters `A` to `Z` aside.
pub fn eq_ignoring_case(a: &str, b: &str) -> (same: bool)
    ensures
        same == same_ignoring_case(a@, b@),
{
    let len: usize = a.unicode_len();
    if len != b.unicode_len() {
        return false;
    }
    let mut i: usize = 0;
    while i < len
        invariant
            i <= len,
            len == a@.len(),
            len == b@.len(),
            forall|k: int| 0 <= k < i ==> same_letter(a@[k], b@[k]),
        decreases len - i,
    {
        let x: char = a.get_char(i);
        let y: char = b.get_char(i);
        let same: bool = x == y || ('A' <= x && x <= 'Z' && y as u32 == x as u32 + 32) || ('A' <= y
            && y <= 'Z' && x as u32 == y as u32 + 32);
        if !same {
            return false;
        }
        i = i + 1;
    }
    true
}

/// The teams, and what was chosen for the dialect, for the pattern that times
/// are written in and for the team to show by default. Each choice may be
/// left open.
#[derive(Debug)]
pub struct Config {
    pub teams: Teams,
    pub dialect: Option<String>,
    pub date_format: Option<String>,
    pub default_team: Option<String>,
}

impl Config {
    /// The pattern to write times in: the one that was chosen, else
    /// [`DEFAULT_DATE_FMT`].
    pub open spec fn pattern(self) -> Seq<char> {
        match self.date_format {
            Some(chosen) => chosen@,
            None => DEFAULT_DATE_FMT@,
        }
    }

    /// The pattern to write times in: the one that was chosen, else
    /// [`DEFAULT_DATE_FMT`].
    pub fn date_format(&self) -> (pattern: &str)
        ensures
            pattern@ == self.pattern(),
    {
        match &self.date_format {
            Some(chosen) => chosen.as_str(),
            None => DEFAULT_DATE_FMT,
        }
    }

    /// The members of the default team: of the team whose name was chosen, if
    /// one was and there is a team of that name.
    pub fn default_team(&self) -> (members: Option<&Vec<Member>>)
        ensures
            members is Some <==> (self.default_team matches Some(name) && self.teams@.contains_key(
                name@,
            )),
            members matches Some(found) ==> found.deep_view() == self.teams@[self.default_team->0@],
    {
        match &self.default_team {
            Some(name) => self.teams.get(name.as_str()),
            None => None,
        }
    }

    /// The dialect to read dates in: British where `UK` was chosen, in
    /// capitals or not, and American otherwise.
    pub fn dialect(&self) -> (dialect: Dialect)
        ensures
            dialect == if self.dialect matches Some(chosen) && same_ignoring_case(chosen@, "UK"@) {
                Dialect::Uk
            } else {
                Dialect::Us
            },
    {
        match &self.dialect {
            None => Dialect::Us,
            Some(chosen) => {
                if eq_ignoring_case(chosen.as_str(), "UK") {
                    Dialect::Uk
                } else {
                    Dialect::Us
                }
            },
        }
    }
}

} // verus!
