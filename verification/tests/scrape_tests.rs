use fixture_notify::dates::{Date, MatchTime};
use fixture_notify::matches::{ExtractError, StructureError};
use fixture_notify::scrape::get_games;

fn doc(inner: &str) -> String {
    format!(
        "<html><body><div class=\"module-gameplan\">{}</div></body></html>",
        inner
    )
}

fn head(date_text: &str) -> String {
    format!(
        "<div class=\"hs-head\"><div class=\"match-date\">{}</div></div>",
        date_text
    )
}

fn row(home: &str, away: &str) -> String {
    format!(
        "<div class=\"match\">\
         <div class=\"team-name team-name-home\">{}</div>\
         <div class=\"team-name team-name-away\">{}</div>\
         </div>",
        home, away
    )
}

#[test]
fn one_header_two_rows_both_carry_the_header_date() {
    let body = doc(&format!(
        "{}{}{}",
        head("10.05.2024"),
        row("Alpha", "Beta"),
        row("Gamma", "Delta")
    ));
    let ms = get_games(&body, 0).unwrap();
    assert_eq!(ms.len(), 2);
    let want = MatchTime::DateOnly(Date { year: 2024, month: 5, day: 10 });
    assert_eq!(ms[0].home_team, "Alpha");
    assert_eq!(ms[0].away_team, "Beta");
    assert_eq!(ms[0].time, want);
    assert_eq!(ms[1].home_team, "Gamma");
    assert_eq!(ms[1].away_team, "Delta");
    assert_eq!(ms[1].time, want);
}

#[test]
fn missing_container_is_structural_error() {
    let body = "<html><body><div class=\"other\"></div></body></html>";
    let e = get_games(body, 0).unwrap_err();
    assert!(matches!(
        e,
        ExtractError::Structure(StructureError::MissingContainer)
    ));
}

#[test]
fn row_before_any_header_is_structural_error() {
    let body = doc(&format!("{}{}", row("Alpha", "Beta"), head("10.05.2024")));
    let e = get_games(&body, 0).unwrap_err();
    assert!(matches!(
        e,
        ExtractError::Structure(StructureError::NoDateForMatch)
    ));
}

#[test]
fn empty_home_team_element_is_structural_error() {
    let body = doc(&format!("{}{}", head("10.05.2024"), row("", "Beta")));
    let e = get_games(&body, 0).unwrap_err();
    assert!(matches!(
        e,
        ExtractError::Structure(StructureError::MissingOrEmptyHomeTeam)
    ));
}

#[test]
fn team_text_is_concatenated_across_descendants() {
    let body = doc(&format!(
        "{}{}",
        head("10.05.2024"),
        row("<span>Ro</span><span>vers</span>", "City")
    ));
    let ms = get_games(&body, 0).unwrap();
    assert_eq!(ms.len(), 1);
    assert_eq!(ms[0].home_team, "Rovers");
    assert_eq!(ms[0].away_team, "City");
}

#[test]
fn unrelated_markup_inside_the_container_is_ignored() {
    let body = doc(&format!(
        "<div class=\"advert\">ignored</div>{}<p>also ignored</p>{}",
        head("10.05.2024"),
        row("Alpha", "Beta")
    ));
    let ms = get_games(&body, 0).unwrap();
    assert_eq!(ms.len(), 1);
}

#[test]
fn datetime_header_attaches_the_configured_offset() {
    let body = doc(&format!(
        "{}{}",
        head("10.05.2024 18:30"),
        row("Alpha", "Beta")
    ));
    let ms = get_games(&body, 7200).unwrap();
    match ms[0].time {
        MatchTime::DateTime(dt) => {
            assert_eq!(dt.date, Date { year: 2024, month: 5, day: 10 });
            assert_eq!(dt.hour, 18);
            assert_eq!(dt.minute, 30);
            assert_eq!(dt.offset_seconds, 7200);
        }
        ref other => panic!("expected a full timestamp, got {:?}", other),
    }
}

#[test]
fn unparseable_header_date_aborts_extraction() {
    let body = doc(&format!("{}{}", head("soon"), row("Alpha", "Beta")));
    let e = get_games(&body, 0).unwrap_err();
    match e {
        ExtractError::Time(t) => assert_eq!(t.text, "soon"),
        other => panic!("expected a time parse error, got {:?}", other),
    }
}

#[test]
fn header_with_no_date_element_clears_the_date() {
    let body = doc(&format!(
        "{}<div class=\"hs-head\"></div>{}",
        head("10.05.2024"),
        row("Alpha", "Beta")
    ));
    let e = get_games(&body, 0).unwrap_err();
    assert!(matches!(
        e,
        ExtractError::Structure(StructureError::NoDateForMatch)
    ));
}
