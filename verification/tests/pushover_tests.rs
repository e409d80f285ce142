use fixture_notify::config::{notification_sound, Secret};
use fixture_notify::dates::{Date, DateTime, MatchTime};
use fixture_notify::filter::TeamPattern;
use fixture_notify::matches::Match;
use fixture_notify::pushover::{prepare_message, PushOverMessage};

#[test]
fn default_notification_sound_is_intermission() {
    assert_eq!(notification_sound(), "intermission");
}

#[test]
fn default_secret_source_is_the_environment() {
    assert!(matches!(Secret::default(), Secret::Env));
}

#[test]
fn message_fields_carry_over_and_html_is_set() {
    let msg = PushOverMessage::new("tok", "usr", "title", "body", -1, "intermission");
    assert_eq!(msg.token, "tok");
    assert_eq!(msg.user, "usr");
    assert_eq!(msg.title, "title");
    assert_eq!(msg.message, "body");
    assert_eq!(msg.html, 1);
    assert_eq!(msg.priority, -1);
    assert_eq!(msg.sound, "intermission");
}

#[test]
fn prepare_message_flags_home_matches_and_formats_the_time() {
    let pattern = TeamPattern::new("^Rovers$").unwrap();
    let home = Match::new(
        "Rovers".to_string(),
        "City".to_string(),
        MatchTime::DateTime(DateTime {
            date: Date { year: 2024, month: 5, day: 10 },
            hour: 18,
            minute: 30,
            offset_seconds: 7200,
        }),
    )
    .unwrap();
    let d = prepare_message(&home, &pattern);
    assert!(d.is_home_match);
    assert_eq!(d.formatted_date, "10.05.2024 18:30");

    let away = Match::new(
        "City".to_string(),
        "Rovers".to_string(),
        MatchTime::DateOnly(Date { year: 2024, month: 5, day: 10 }),
    )
    .unwrap();
    let d = prepare_message(&away, &pattern);
    assert!(!d.is_home_match);
    assert_eq!(d.formatted_date, "10.05.2024");
}
