use teamdate::config::{eq_ignoring_case, Config, Dialect, Member, Teams, DEFAULT_DATE_FMT};

fn setting(table: &toml::Table, key: &str) -> Option<String> {
    table.get(key).map(|value| value.as_str().unwrap().to_owned())
}

fn load(text: &str) -> Config {
    let table: toml::Table = toml::from_str(text).unwrap();
    let mut teams = Teams::new();
    if let Some(listed) = table.get("teams") {
        for (name, entries) in listed.as_table().unwrap() {
            let mut members = Vec::new();
            for entry in entries.as_array().unwrap() {
                let name = entry.get("name").unwrap().as_str().unwrap().to_owned();
                let location = entry.get("location").unwrap().as_str().unwrap().to_owned();
                members.push(Member::new(name, location).unwrap());
            }
            teams.insert(name.clone(), members);
        }
    }
    Config {
        teams,
        dialect: setting(&table, "dialect"),
        date_format: setting(&table, "date_format"),
        default_team: setting(&table, "default_team"),
    }
}

fn member(name: &str, location: &str) -> Member {
    Member { name: name.to_owned(), location: location.to_owned() }
}

fn zone(member: &Member) -> chrono_tz::Tz {
    member.location.parse().unwrap()
}

#[test]
fn reads_config_alright() {
    let config: Config = load(
        r#"
    date_format = "%c"
    default_team = "wcgw"

    [[teams.wcgw]]
    name = "Alex"
    location = "America/Montreal"

    [[teams.wcgw]]
    name = "John Doe"
    location = "Europe/Dublin"

    [[teams.managers]]
    name = "John Doe"
    location = "Europe/Dublin"
    "#,
    );

    assert_eq!(config.date_format(), "%c");
    assert_eq!(config.default_team, Some("wcgw".to_owned()));

    assert_eq!(config.teams.len(), 2);
    assert!(config.teams.contains_key("wcgw"));
    assert!(config.teams.contains_key("managers"));

    assert_eq!(config.teams.get("wcgw").unwrap().len(), 2);
    assert_eq!(config.teams.get("managers").unwrap().len(), 1);

    assert_eq!(config.teams.get("managers").unwrap().first().unwrap().name, "John Doe");
    assert_eq!(
        zone(config.teams.get("managers").unwrap().first().unwrap()),
        chrono_tz::Tz::Europe__Dublin
    );

    assert_eq!(config.teams.get("wcgw").unwrap()[0].name, "Alex");
    assert_eq!(zone(&config.teams.get("wcgw").unwrap()[0]), chrono_tz::Tz::America__Montreal);

    assert_eq!(config.teams.get("wcgw").unwrap()[1].name, "John Doe");
    assert_eq!(zone(&config.teams.get("wcgw").unwrap()[1]), chrono_tz::Tz::Europe__Dublin);
}

#[test]
fn date_format_falls_back_to_the_default() {
    let config = load("");
    assert_eq!(DEFAULT_DATE_FMT, "%a %b %d %H:%M");
    assert_eq!(config.date_format(), "%a %b %d %H:%M");
    let chosen = load("date_format = \"%H:%M\"");
    assert_eq!(chosen.date_format(), "%H:%M");
}

#[test]
fn dialect_is_british_only_for_uk() {
    let with = |dialect: Option<&str>| Config {
        teams: Teams::new(),
        dialect: dialect.map(str::to_owned),
        date_format: None,
        default_team: None,
    };
    assert_eq!(with(None).dialect(), Dialect::Us);
    assert_eq!(with(Some("UK")).dialect(), Dialect::Uk);
    assert_eq!(with(Some("uk")).dialect(), Dialect::Uk);
    assert_eq!(with(Some("Uk")).dialect(), Dialect::Uk);
    assert_eq!(with(Some("uK")).dialect(), Dialect::Uk);
    assert_eq!(with(Some("US")).dialect(), Dialect::Us);
    assert_eq!(with(Some("")).dialect(), Dialect::Us);
    assert_eq!(with(Some("UK ")).dialect(), Dialect::Us);
    assert_eq!(with(Some("U")).dialect(), Dialect::Us);
    assert_eq!(with(Some("gb")).dialect(), Dialect::Us);
    // U+212A, the Kelvin sign, is no ASCII letter.
    assert_eq!(with(Some("U\u{212A}")).dialect(), Dialect::Us);
}

#[test]
fn comparing_without_case_agrees_with_std() {
    let samples = [
        "", "UK", "uk", "Uk", "us", "U", "UKK", "@K", "`k", "[k", "{k", "Zz", "zZ", "ÄK", "äk",
        "u\u{212A}",
    ];
    for a in samples {
        for b in samples {
            assert_eq!(eq_ignoring_case(a, b), a.eq_ignore_ascii_case(b), "{a:?} against {b:?}");
        }
    }
}

#[test]
fn default_team_is_absent_when_unset_or_stale() {
    let mut teams = Teams::new();
    teams.insert("wcgw".to_owned(), vec![member("Alex", "America/Montreal")]);
    let mut config = Config { teams, dialect: None, date_format: None, default_team: None };
    assert_eq!(config.default_team(), None);
    config.default_team = Some("gone".to_owned());
    assert_eq!(config.default_team(), None);
    config.default_team = Some("wcgw".to_owned());
    assert_eq!(config.default_team(), Some(&vec![member("Alex", "America/Montreal")]));
}

#[test]
fn a_member_needs_a_zone_of_the_database() {
    let alex = Member::new("Alex".to_owned(), "America/Montreal".to_owned());
    assert_eq!(alex, Some(member("Alex", "America/Montreal")));
    assert_eq!(Member::new("Alex".to_owned(), "Mars/Olympus_Mons".to_owned()), None);
    assert_eq!(Member::new("Alex".to_owned(), "america/montreal".to_owned()), None);
    assert_eq!(Member::new("Alex".to_owned(), "".to_owned()), None);
    assert!(Member::new("".to_owned(), "UTC".to_owned()).is_some());
}

#[test]
fn teams_keep_their_names_apart_and_in_order() {
    let mut teams = Teams::new();
    assert_eq!(teams.len(), 0);
    assert!(!teams.contains_key("a"));
    assert_eq!(teams.get("a"), None);
    assert!(teams.at(0).is_none());

    assert_eq!(teams.insert("b".to_owned(), vec![member("Bo", "UTC")]), None);
    assert_eq!(teams.insert("a".to_owned(), vec![]), None);
    assert_eq!(teams.len(), 2);
    assert_eq!(teams.at(0).unwrap().name, "b");
    assert_eq!(teams.at(1).unwrap().name, "a");
    assert!(teams.at(2).is_none());

    let replaced =
        teams.insert("b".to_owned(), vec![member("Al", "Asia/Tokyo"), member("Bo", "UTC")]);
    assert_eq!(replaced, Some(vec![member("Bo", "UTC")]));
    assert_eq!(teams.len(), 2);
    assert_eq!(teams.at(0).unwrap().name, "b");
    assert_eq!(teams.at(0).unwrap().members.len(), 2);
    assert_eq!(teams.get("b").unwrap()[0], member("Al", "Asia/Tokyo"));
    assert_eq!(teams.get("a"), Some(&vec![]));
    assert!(teams.contains_key("a"));
    assert!(!teams.contains_key("A"));
    assert!(!teams.contains_key(""));
}
