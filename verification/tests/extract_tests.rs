use fixture_notify::dates::{Date, MatchTime};
use fixture_notify::matches::{
    extract_matches, ExtractError, Match, Node, StructureError,
};

fn header(text: &str) -> Node {
    Node::Header(Some(text.to_string()))
}

fn fixture(home: &str, away: &str) -> Node {
    Node::Fixture {
        home: Some(home.to_string()),
        away: Some(away.to_string()),
    }
}

#[test]
fn one_header_two_fixtures_in_document_order() {
    let nodes = vec![
        header("10.05.2024"),
        fixture("Alpha", "Beta"),
        fixture("Gamma", "Delta"),
    ];
    let ms = extract_matches(&nodes, 0).unwrap();
    assert_eq!(ms.len(), 2);
    assert_eq!(ms[0].home_team, "Alpha");
    assert_eq!(ms[0].away_team, "Beta");
    assert_eq!(ms[1].home_team, "Gamma");
    assert_eq!(ms[1].away_team, "Delta");
    let want = MatchTime::DateOnly(Date { year: 2024, month: 5, day: 10 });
    assert_eq!(ms[0].time, want);
    assert_eq!(ms[1].time, want);
}

#[test]
fn fixture_before_any_header_is_structural_error() {
    let nodes = vec![fixture("Alpha", "Beta"), header("10.05.2024")];
    let e = extract_matches(&nodes, 0).unwrap_err();
    assert!(matches!(
        e,
        ExtractError::Structure(StructureError::NoDateForMatch)
    ));
}

#[test]
fn header_without_date_clears_the_current_date() {
    let nodes = vec![
        header("10.05.2024"),
        Node::Header(None),
        fixture("Alpha", "Beta"),
    ];
    let e = extract_matches(&nodes, 0).unwrap_err();
    assert!(matches!(
        e,
        ExtractError::Structure(StructureError::NoDateForMatch)
    ));
}

#[test]
fn empty_home_team_is_structural_error() {
    let nodes = vec![
        header("10.05.2024"),
        Node::Fixture {
            home: Some(String::new()),
            away: Some("Beta".to_string()),
        },
    ];
    let e = extract_matches(&nodes, 0).unwrap_err();
    assert!(matches!(
        e,
        ExtractError::Structure(StructureError::MissingOrEmptyHomeTeam)
    ));
}

#[test]
fn missing_away_team_is_structural_error() {
    let nodes = vec![
        header("10.05.2024"),
        Node::Fixture {
            home: Some("Alpha".to_string()),
            away: None,
        },
    ];
    let e = extract_matches(&nodes, 0).unwrap_err();
    assert!(matches!(
        e,
        ExtractError::Structure(StructureError::MissingOrEmptyAwayTeam)
    ));
}

#[test]
fn unparseable_header_date_is_hard_failure_with_text() {
    let nodes = vec![header("soon"), fixture("Alpha", "Beta")];
    let e = extract_matches(&nodes, 0).unwrap_err();
    match e {
        ExtractError::Time(t) => assert_eq!(t.text, "soon"),
        other => panic!("expected a time parse error, got {:?}", other),
    }
}

#[test]
fn later_header_replaces_the_date() {
    let nodes = vec![
        header("10.05.2024"),
        fixture("Alpha", "Beta"),
        header("11.05.2024 19:00"),
        fixture("Gamma", "Delta"),
    ];
    let ms = extract_matches(&nodes, 3600).unwrap();
    assert_eq!(ms.len(), 2);
    assert_eq!(
        ms[0].time,
        MatchTime::DateOnly(Date { year: 2024, month: 5, day: 10 })
    );
    match ms[1].time {
        MatchTime::DateTime(dt) => {
            assert_eq!(dt.date, Date { year: 2024, month: 5, day: 11 });
            assert_eq!(dt.hour, 19);
            assert_eq!(dt.minute, 0);
            assert_eq!(dt.offset_seconds, 3600);
        }
        other => panic!("expected a full timestamp, got {:?}", other),
    }
}

#[test]
fn empty_node_list_yields_no_matches() {
    let ms = extract_matches(&Vec::new(), 0).unwrap();
    assert!(ms.is_empty());
}

#[test]
fn match_construction_fails_on_empty_team_name() {
    let t = MatchTime::DateOnly(Date { year: 2024, month: 5, day: 10 });
    assert!(Match::new(String::new(), "Beta".to_string(), t).is_none());
    assert!(Match::new("Alpha".to_string(), String::new(), t).is_none());
    let m = Match::new("Alpha".to_string(), "Beta".to_string(), t).unwrap();
    assert_eq!(m.home_team, "Alpha");
    assert_eq!(m.away_team, "Beta");
    assert_eq!(m.time, t);
}
