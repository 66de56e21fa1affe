//! What to show: which team, under which header, and for which words of a
//! date.

use vstd::prelude::*;
use vstd::string::*;
use crate::config::{Config, Member, MemberView};
use crate::lines::Grouping;

verus! {

/// Where the configuration is looked for unless another file is named, below
/// the home directory.
pub const CONFIG_BELOW_HOME: &'static str = "/.config/teamdate/teams.toml";

/// The path of the configuration file of someone whose home directory is
/// `home`.
pub fn default_config_path(home: &str) -> (path: String)
    ensures
        path@ == home@ + CONFIG_BELOW_HOME@,
{
    let mut path = home.to_owned();
    path.append(CONFIG_BELOW_HOME);
    path
}

/// A name, if there is one, as plain text.
pub open spec fn named(name: Option<&str>) -> Option<Seq<char>> {
    match name {
        Some(text) => Some(text@),
        None => None,
    }
}

/// A list of members, if there is one, as plain text.
pub open spec fn listed(members: Option<&Vec<Member>>) -> Option<Seq<MemberView>> {
    match members {
        Some(list) => Some(list.deep_view()),
        None => None,
    }
}

/// The team to show, by name and by members.
///
/// Where all teams are asked for, neither: the teams are shown one after the
/// other. Where a team is asked for by name, that name, and the members of the
/// team if there is one of that name. Else the default team, name and members,
/// if a default was chosen and there is a team of that name; and neither
/// otherwise.
pub open spec fn resolved(config: Config, requested: Option<Seq<char>>, show_all: bool) -> (
    Option<Seq<char>>,
    Option<Seq<MemberView>>,
) {
    if show_all {
        (None, None)
    } else {
        match requested {
            Some(name) => if config.teams@.contains_key(name) {
                (Some(name), Some(config.teams@[name]))
            } else {
                (Some(name), None)
            },
            None => match config.default_team {
                Some(name) => if config.teams@.contains_key(name@) {
                    (Some(name@), Some(config.teams@[name@]))
                } else {
                    (None, None)
                },
                None => (None, None),
            },
        }
    }
}

/// Picks the team to show: see [`resolved`].
pub fn resolve_team<'a>(
    config: &'a Config,
    requested: Option<&'a str>,
    show_all: bool,
) -> (choice: (Option<&'a str>, Option<&'a Vec<Member>>))
    ensures
        (named(choice.0), listed(choice.1)) == resolved(*config, named(requested), show_all),
{
    if show_all {
        return (None, None);
    }
    match requested {
        Some(name) => (Some(name), config.teams.get(name)),
        None => match &config.default_team {
            Some(name) => match config.teams.get(name.as_str()) {
                Some(members) => (Some(name.as_str()), Some(members)),
                None => (None, None),
            },
            None => (None, None),
        },
    }
}

/// The header of the left column: `Team` and the team's name, or
/// `Team member` where no one team is shown, for rows that stand for members;
/// `Location` or `Timezone` for rows that stand for zones.
pub open spec fn left_header_for(grouping: Grouping, team: Option<Seq<char>>) -> Seq<char> {
    match grouping {
        Grouping::Team => "Team "@ + match team {
            Some(name) => name,
            None => "member"@,
        },
        Grouping::Location => "Location"@,
        Grouping::Timezone => "Timezone"@,
    }
}

/// Writes the header of the left column.
pub fn left_header(grouping: Grouping, team: Option<&str>) -> (header: String)
    ensures
        header@ == left_header_for(grouping, named(team)),
{
    match grouping {
        Grouping::Team => {
            let mut header = "Team ".to_owned();
            match team {
                Some(name) => header.append(name),
                None => header.append("member"),
            }
            header
        },
        Grouping::Location => "Location".to_owned(),
        Grouping::Timezone => "Timezone".to_owned(),
    }
}

/// Writes the line that announces a team where all teams are shown: below an
/// empty line, ` => Team ` and the team's name.
pub fn team_heading(team: &str) -> (heading: String)
    ensures
        heading@ == "\n => Team "@ + team@,
{
    let mut heading = "\n => Team ".to_owned();
    heading.append(team);
    heading
}

/// `words` in a row, a blank behind each.
pub open spec fn spaced(words: Seq<Seq<char>>) -> Seq<char>
    decreases words.len(),
{
    if words.len() == 0 {
        Seq::empty()
    } else {
        spaced(words.drop_last()) + words.last() + seq![' ']
    }
}

/// Puts the words of a date back into one text, a blank behind each.
pub fn date_text(words: &Vec<String>) -> (text: String)
    ensures
        text@ == spaced(words.deep_view()),
{
    proof {
        reveal_strlit(" ");
    }
    let mut text = String::new();
    let mut i: usize = 0;
    while i < words.len()
        invariant
            i <= words.len(),
            " "@ == seq![' '],
            text@ == spaced(words.deep_view().take(i as int)),
        decreases words.len() - i,
    {
        proof {
            let seen = words.deep_view().take(i + 1);
            assert(seen.drop_last() =~= words.deep_view().take(i as int));
        }
        text.append(words[i].as_str());
        text.append(" ");
        i = i + 1;
    }
    proof {
        assert(words.deep_view().take(words.len() as int) =~= words.deep_view());
    }
    text
}

} // verus!
