use fixture_notify::config::{Config, ConfigError, PushoverConfig, Secret};
use fixture_notify::dates::{Date, MatchTime};
use fixture_notify::filter::{filter_matches, FilterCriteria, TeamPattern};
use fixture_notify::matches::Match;
use fixture_notify::pipeline::{run_pipeline, should_notify};

fn date(year: i32, month: u8, day: u8) -> Date {
    Date { year, month, day }
}

fn m(home: &str, away: &str, d: Date) -> Match {
    Match::new(home.to_string(), away.to_string(), MatchTime::DateOnly(d)).unwrap()
}

fn criteria(now: Date, window_days: u64, pattern: &str) -> FilterCriteria {
    FilterCriteria {
        now,
        window_days,
        pattern: TeamPattern::new(pattern).unwrap(),
    }
}

fn same_matches(a: &[Match], b: &[Match]) -> bool {
    a.len() == b.len()
        && a.iter().zip(b.iter()).all(|(x, y)| {
            x.home_team == y.home_team && x.away_team == y.away_team && x.time == y.time
        })
}

#[test]
fn window_boundaries_are_inclusive_and_past_is_dropped() {
    let ms = vec![
        m("Rovers", "A", date(2024, 5, 9)),
        m("Rovers", "B", date(2024, 5, 10)),
        m("Rovers", "C", date(2024, 5, 17)),
        m("Rovers", "D", date(2024, 5, 18)),
    ];
    let c = criteria(date(2024, 5, 10), 7, "Rovers");
    let r = filter_matches(&ms, &c);
    assert_eq!(r.len(), 2);
    assert_eq!(r[0].away_team, "B");
    assert_eq!(r[1].away_team, "C");
}

#[test]
fn team_pattern_must_match_home_or_away() {
    let ms = vec![
        m("Rovers", "City", date(2024, 5, 10)),
        m("Town", "United", date(2024, 5, 10)),
    ];
    let c = criteria(date(2024, 5, 10), 7, "^Rovers$");
    let r = filter_matches(&ms, &c);
    assert_eq!(r.len(), 1);
    assert_eq!(r[0].home_team, "Rovers");
    assert_eq!(r[0].away_team, "City");
}

#[test]
fn away_side_match_is_enough() {
    let ms = vec![m("City", "Rovers", date(2024, 5, 11))];
    let c = criteria(date(2024, 5, 10), 7, "^Rovers$");
    let r = filter_matches(&ms, &c);
    assert_eq!(r.len(), 1);
}

#[test]
fn pattern_is_case_sensitive() {
    let ms = vec![m("rovers", "city", date(2024, 5, 10))];
    let c = criteria(date(2024, 5, 10), 7, "^Rovers$");
    let r = filter_matches(&ms, &c);
    assert!(r.is_empty());
}

#[test]
fn result_is_sorted_ascending_by_date() {
    let ms = vec![
        m("Rovers", "C", date(2024, 5, 14)),
        m("Rovers", "A", date(2024, 5, 11)),
        m("Rovers", "B", date(2024, 5, 12)),
    ];
    let c = criteria(date(2024, 5, 10), 30, "Rovers");
    let r = filter_matches(&ms, &c);
    assert_eq!(r.len(), 3);
    assert_eq!(r[0].away_team, "A");
    assert_eq!(r[1].away_team, "B");
    assert_eq!(r[2].away_team, "C");
}

#[test]
fn equal_dates_keep_input_order() {
    let ms = vec![
        m("Rovers", "First", date(2024, 5, 12)),
        m("Rovers", "Second", date(2024, 5, 12)),
        m("Rovers", "Earlier", date(2024, 5, 11)),
    ];
    let c = criteria(date(2024, 5, 10), 30, "Rovers");
    let r = filter_matches(&ms, &c);
    assert_eq!(r.len(), 3);
    assert_eq!(r[0].away_team, "Earlier");
    assert_eq!(r[1].away_team, "First");
    assert_eq!(r[2].away_team, "Second");
}

#[test]
fn filtering_twice_yields_identical_output() {
    let ms = vec![
        m("Rovers", "A", date(2024, 5, 9)),
        m("Rovers", "B", date(2024, 5, 12)),
        m("Town", "United", date(2024, 5, 12)),
        m("Rovers", "C", date(2024, 5, 11)),
    ];
    let c = criteria(date(2024, 5, 10), 7, "Rovers");
    let once = filter_matches(&ms, &c);
    let twice = filter_matches(&once, &c);
    assert!(same_matches(&once, &twice));
}

#[test]
fn empty_input_yields_empty_output_and_no_delivery() {
    let c = criteria(date(2024, 5, 10), 7, "Rovers");
    let r = filter_matches(&Vec::new(), &c);
    assert!(r.is_empty());
    assert!(!should_notify(&r));
}

#[test]
fn empty_post_filter_list_triggers_no_delivery() {
    let ms = vec![m("Town", "United", date(2024, 5, 12))];
    let c = criteria(date(2024, 5, 10), 7, "Rovers");
    let r = filter_matches(&ms, &c);
    assert!(r.is_empty());
    assert!(!should_notify(&r));
    assert!(should_notify(&vec![m("Rovers", "City", date(2024, 5, 12))]));
}

#[test]
fn invalid_pattern_is_rejected_with_the_pattern() {
    let e = TeamPattern::new("(").unwrap_err();
    assert_eq!(e.pattern, "(");
}

fn config_with(pattern: &str, offset: i32) -> Config {
    Config {
        scrape_urls: Vec::new(),
        utc_offset_seconds: offset,
        search_duration_in_days: 7,
        team_regex: pattern.to_string(),
        pushover: PushoverConfig {
            token: Secret::Env,
            user_key: Secret::Env,
            notification_sound: "intermission".to_string(),
            notification_title: "t".to_string(),
            notification_message: "m".to_string(),
        },
    }
}

#[test]
fn config_validation_rejects_bad_pattern_and_bad_offset() {
    assert!(matches!(
        config_with("(", 0).validate(),
        Err(ConfigError::InvalidPattern(_))
    ));
    assert!(matches!(
        config_with("Rovers", 90000).validate(),
        Err(ConfigError::InvalidOffset)
    ));
    assert!(config_with("Rovers", 7200).validate().is_ok());
}

fn doc_for(team: &str, date_text: &str) -> String {
    format!(
        "<div class=\"module-gameplan\">\
         <div class=\"hs-head\"><div class=\"match-date\">{}</div></div>\
         <div class=\"match\">\
         <div class=\"team-name team-name-home\">{}</div>\
         <div class=\"team-name team-name-away\">City</div>\
         </div></div>",
        date_text, team
    )
}

#[test]
fn pipeline_aggregates_sources_in_order_then_filters() {
    let bodies = vec![
        doc_for("Rovers", "12.05.2024"),
        doc_for("Town", "11.05.2024"),
        doc_for("Rovers", "11.05.2024"),
    ];
    let c = criteria(date(2024, 5, 10), 7, "Rovers");
    let r = run_pipeline(&bodies, 0, &c).unwrap();
    assert_eq!(r.len(), 2);
    assert_eq!(r[0].home_team, "Rovers");
    assert_eq!(r[0].time, MatchTime::DateOnly(date(2024, 5, 11)));
    assert_eq!(r[1].time, MatchTime::DateOnly(date(2024, 5, 12)));
}

#[test]
fn pipeline_failure_carries_the_source_index() {
    let bodies = vec![
        doc_for("Rovers", "12.05.2024"),
        "<div class=\"nothing\"></div>".to_string(),
    ];
    let c = criteria(date(2024, 5, 10), 7, "Rovers");
    let e = run_pipeline(&bodies, 0, &c).unwrap_err();
    assert_eq!(e.source_index, 1);
}
