use teamdate::config::{Config, Member, Teams};
use teamdate::lines::{
    build_lines, distinct_locations, member_lines, member_locations, team_to_lines, zone_lines,
    Grouping, LineError,
};
use teamdate::zone::Instant;

const FORMAT: &str = "%a %b %d %H:%M";

/// Monday 1 January 2024, 14:00:00 UTC.
const NEW_YEAR: Instant = Instant { secs: 1_704_117_600, nanos: 0 };

/// Monday 1 July 2024, 12:30:00 UTC.
const SUMMER: Instant = Instant { secs: 1_719_837_000, nanos: 0 };

fn member(name: &str, location: &str) -> Member {
    Member { name: name.to_owned(), location: location.to_owned() }
}

fn wcgw() -> Vec<Member> {
    vec![member("Alex", "America/Montreal"), member("John Doe", "Europe/Dublin")]
}

fn rows(cells: &[(&str, &str)]) -> Result<Vec<(String, String)>, LineError> {
    Ok(cells.iter().map(|(left, right)| (left.to_string(), right.to_string())).collect())
}

#[test]
fn team_members_keep_their_order_and_get_their_local_time() {
    let lines = build_lines(&wcgw(), Grouping::Team, &NEW_YEAR, FORMAT);
    assert_eq!(
        lines,
        rows(&[
            ("Alex (America/Montreal)", "Mon Jan 01 09:00"),
            ("John Doe (Europe/Dublin)", "Mon Jan 01 14:00"),
        ])
    );
}

#[test]
fn team_to_lines_writes_in_the_configured_pattern() {
    let mut teams = Teams::new();
    teams.insert("wcgw".to_owned(), wcgw());
    let mut config = Config { teams, dialect: None, date_format: None, default_team: None };
    let members = wcgw();
    assert_eq!(
        team_to_lines(&config, Grouping::Team, &NEW_YEAR, &members),
        rows(&[
            ("Alex (America/Montreal)", "Mon Jan 01 09:00"),
            ("John Doe (Europe/Dublin)", "Mon Jan 01 14:00"),
        ])
    );
    config.date_format = Some("%Y-%m-%d %H:%M:%S %z".to_owned());
    assert_eq!(
        team_to_lines(&config, Grouping::Location, &NEW_YEAR, &members),
        rows(&[
            ("America/Montreal", "2024-01-01 09:00:00 -0500"),
            ("Europe/Dublin", "2024-01-01 14:00:00 +0000"),
        ])
    );
}

#[test]
fn locations_are_sorted_by_local_time() {
    let lines = build_lines(&wcgw(), Grouping::Location, &NEW_YEAR, FORMAT);
    assert_eq!(
        lines,
        rows(&[("America/Montreal", "Mon Jan 01 09:00"), ("Europe/Dublin", "Mon Jan 01 14:00")])
    );
    let turned = vec![member("John Doe", "Europe/Dublin"), member("Alex", "America/Montreal")];
    assert_eq!(build_lines(&turned, Grouping::Location, &NEW_YEAR, FORMAT), lines);
}

#[test]
fn members_in_one_zone_share_a_row() {
    let team = vec![member("Alex", "America/Montreal"), member("Sam", "America/Montreal")];
    let lines = build_lines(&team, Grouping::Location, &NEW_YEAR, FORMAT);
    assert_eq!(lines, rows(&[("America/Montreal", "Mon Jan 01 09:00")]));
    let short = build_lines(&team, Grouping::Timezone, &NEW_YEAR, FORMAT);
    assert_eq!(short, rows(&[("EST", "Mon Jan 01 09:00")]));
    let each = build_lines(&team, Grouping::Team, &NEW_YEAR, FORMAT);
    assert_eq!(each.unwrap().len(), 2);
}

#[test]
fn timezones_show_the_abbreviation_of_the_day() {
    assert_eq!(
        build_lines(&wcgw(), Grouping::Timezone, &NEW_YEAR, FORMAT),
        rows(&[("EST", "Mon Jan 01 09:00"), ("GMT", "Mon Jan 01 14:00")])
    );
    assert_eq!(
        build_lines(&wcgw(), Grouping::Timezone, &SUMMER, FORMAT),
        rows(&[("EDT", "Mon Jul 01 08:30"), ("IST", "Mon Jul 01 13:30")])
    );
}

#[test]
fn the_local_date_counts_before_the_local_time() {
    let team = vec![
        member("Aroha", "Pacific/Auckland"),
        member("Yuki", "Asia/Tokyo"),
        member("John Doe", "Europe/Dublin"),
        member("Alex", "America/Montreal"),
        member("Tavita", "Pacific/Pago_Pago"),
        member("Teraii", "Pacific/Kiritimati"),
    ];
    assert_eq!(
        build_lines(&team, Grouping::Location, &NEW_YEAR, FORMAT),
        rows(&[
            ("Pacific/Pago_Pago", "Mon Jan 01 03:00"),
            ("America/Montreal", "Mon Jan 01 09:00"),
            ("Europe/Dublin", "Mon Jan 01 14:00"),
            ("Asia/Tokyo", "Mon Jan 01 23:00"),
            ("Pacific/Auckland", "Tue Jan 02 03:00"),
            ("Pacific/Kiritimati", "Tue Jan 02 04:00"),
        ])
    );
    assert_eq!(
        build_lines(&team, Grouping::Team, &NEW_YEAR, "%H:%M"),
        rows(&[
            ("Aroha (Pacific/Auckland)", "03:00"),
            ("Yuki (Asia/Tokyo)", "23:00"),
            ("John Doe (Europe/Dublin)", "14:00"),
            ("Alex (America/Montreal)", "09:00"),
            ("Tavita (Pacific/Pago_Pago)", "03:00"),
            ("Teraii (Pacific/Kiritimati)", "04:00"),
        ])
    );
}

#[test]
fn zones_with_the_same_time_stay_in_the_order_they_are_named_in() {
    let team = vec![
        member("Petra", "Europe/Paris"),
        member("Yuki", "Asia/Tokyo"),
        member("Bernd", "Europe/Berlin"),
        member("Alex", "America/Montreal"),
        member("Pia", "Europe/Paris"),
        member("Nia", "America/New_York"),
    ];
    assert_eq!(
        build_lines(&team, Grouping::Location, &NEW_YEAR, "%H:%M"),
        rows(&[
            ("America/Montreal", "09:00"),
            ("America/New_York", "09:00"),
            ("Europe/Paris", "15:00"),
            ("Europe/Berlin", "15:00"),
            ("Asia/Tokyo", "23:00"),
        ])
    );
    // Turned round, New York is named before Montreal, and Paris still before Berlin.
    let turned: Vec<Member> = team.iter().rev().cloned().collect();
    assert_eq!(
        build_lines(&turned, Grouping::Timezone, &NEW_YEAR, "%H:%M"),
        rows(&[
            ("EST", "09:00"),
            ("EST", "09:00"),
            ("CET", "15:00"),
            ("CET", "15:00"),
            ("JST", "23:00"),
        ])
    );
    assert_eq!(
        build_lines(&turned, Grouping::Location, &NEW_YEAR, "%H:%M"),
        rows(&[
            ("America/New_York", "09:00"),
            ("America/Montreal", "09:00"),
            ("Europe/Paris", "15:00"),
            ("Europe/Berlin", "15:00"),
            ("Asia/Tokyo", "23:00"),
        ])
    );
}

#[test]
fn there_are_as_many_zone_rows_as_different_zones() {
    let team = vec![
        member("a", "UTC"),
        member("b", "Asia/Tokyo"),
        member("c", "UTC"),
        member("d", "Asia/Tokyo"),
        member("e", "Etc/UTC"),
        member("f", "UTC"),
    ];
    assert_eq!(zone_lines(&team, &NEW_YEAR, FORMAT, false).unwrap().len(), 3);
    assert_eq!(zone_lines(&team, &NEW_YEAR, FORMAT, true).unwrap().len(), 3);
    assert_eq!(member_lines(&team, &NEW_YEAR, FORMAT).unwrap().len(), 6);
}

#[test]
fn no_members_no_rows() {
    let nobody: Vec<Member> = Vec::new();
    assert_eq!(build_lines(&nobody, Grouping::Team, &NEW_YEAR, FORMAT), rows(&[]));
    assert_eq!(build_lines(&nobody, Grouping::Location, &NEW_YEAR, FORMAT), rows(&[]));
    assert_eq!(build_lines(&nobody, Grouping::Timezone, &NEW_YEAR, "%?"), rows(&[]));
}

#[test]
fn an_unknown_zone_is_reported() {
    let team = vec![member("Alex", "America/Montreal"), member("Ares", "Mars/Olympus_Mons")];
    for grouping in [Grouping::Team, Grouping::Location, Grouping::Timezone] {
        assert_eq!(build_lines(&team, grouping, &NEW_YEAR, FORMAT), Err(LineError::UnknownZone));
        assert_eq!(build_lines(&team, grouping, &NEW_YEAR, "%?"), Err(LineError::UnknownZone));
    }
    let lower = vec![member("Alex", "america/montreal")];
    assert_eq!(build_lines(&lower, Grouping::Team, &NEW_YEAR, FORMAT), Err(LineError::UnknownZone));
}

#[test]
fn an_instant_out_of_range_is_reported() {
    let never = Instant { secs: i64::MAX, nanos: 0 };
    let long_ago = Instant { secs: i64::MIN, nanos: 0 };
    let no_second = Instant { secs: 0, nanos: 2_000_000_000 };
    for grouping in [Grouping::Team, Grouping::Location, Grouping::Timezone] {
        assert_eq!(build_lines(&wcgw(), grouping, &never, FORMAT), Err(LineError::OutOfRange));
        assert_eq!(build_lines(&wcgw(), grouping, &long_ago, FORMAT), Err(LineError::OutOfRange));
        assert_eq!(build_lines(&wcgw(), grouping, &no_second, "%?"), Err(LineError::OutOfRange));
    }
    let unknown = vec![member("Ares", "Mars/Olympus_Mons")];
    assert_eq!(build_lines(&unknown, Grouping::Team, &never, FORMAT), Err(LineError::UnknownZone));
}

#[test]
fn a_pattern_that_is_none_is_reported() {
    for grouping in [Grouping::Team, Grouping::Location, Grouping::Timezone] {
        assert_eq!(build_lines(&wcgw(), grouping, &NEW_YEAR, "%?"), Err(LineError::BadFormat));
        assert_eq!(build_lines(&wcgw(), grouping, &NEW_YEAR, "%H:%M %"), Err(LineError::BadFormat));
    }
    assert_eq!(build_lines(&wcgw(), Grouping::Team, &NEW_YEAR, "").unwrap()[0].1, "");
    assert_eq!(build_lines(&wcgw(), Grouping::Team, &NEW_YEAR, "100%%").unwrap()[0].1, "100%");
}

#[test]
fn times_before_1970_and_fractions_of_a_second() {
    let early = Instant { secs: -1, nanos: 500_000_000 };
    assert_eq!(
        build_lines(&wcgw(), Grouping::Location, &early, "%Y-%m-%d %H:%M:%S%.3f"),
        rows(&[
            ("America/Montreal", "1969-12-31 18:59:59.500"),
            ("Europe/Dublin", "1970-01-01 00:59:59.500"),
        ])
    );
}

#[test]
fn member_label_holds_name_and_zone() {
    assert_eq!(member("Alex", "America/Montreal").label(), "Alex (America/Montreal)");
    assert_eq!(member("", "").label(), " ()");
    assert_eq!(member("Zoë (she)", "UTC").label(), "Zoë (she) (UTC)");
}

#[test]
fn distinct_locations_keep_the_first_of_each() {
    let team = vec![
        member("a", "Europe/Paris"),
        member("b", "UTC"),
        member("c", "Europe/Paris"),
        member("d", "Asia/Tokyo"),
        member("e", "UTC"),
        member("f", "utc"),
    ];
    assert_eq!(distinct_locations(&team), vec!["Europe/Paris", "UTC", "Asia/Tokyo", "utc"]);
    assert_eq!(
        member_locations(&team),
        vec!["Europe/Paris", "UTC", "Europe/Paris", "Asia/Tokyo", "UTC", "utc"]
    );
    assert_eq!(distinct_locations(&Vec::new()), Vec::<String>::new());
}

#[test]
fn a_team_from_members_to_table() {
    let mut teams = Teams::new();
    teams.insert("wcgw".to_owned(), wcgw());
    let config = Config {
        teams,
        dialect: None,
        date_format: None,
        default_team: Some("wcgw".to_owned()),
    };
    let (name, members) = teamdate::choice::resolve_team(&config, None, false);
    let header = teamdate::choice::left_header(Grouping::Team, name);
    let lines = team_to_lines(&config, Grouping::Team, &NEW_YEAR, members.unwrap()).unwrap();
    let table = teamdate::table::render(&header, "Time", &lines);
    let expected = "\
┏━━━━━━━━━━━━━━━━━━━━━━━━━━┯━━━━━━━━━━━━━━━━━━┓
┃        Team wcgw         │       Time       ┃
┠──────────────────────────┼──────────────────┨
┃  Alex (America/Montreal) │ Mon Jan 01 09:00 ┃
┃ John Doe (Europe/Dublin) │ Mon Jan 01 14:00 ┃
┗━━━━━━━━━━━━━━━━━━━━━━━━━━┷━━━━━━━━━━━━━━━━━━┛
";
    assert_eq!(table, expected);
}
