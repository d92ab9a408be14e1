use mairu::cmd::list_sessions::{
    check_expiry_date, json_session, run, session_line, session_line_at, Expiration,
    ListSessionsArgs, ListSessionsFormat, Listing, Session,
};
use mairu::time::{
    format_time, Timestamp, FIRST_PLAIN_SECOND, FIRST_SECOND, LAST_PLAIN_SECOND, LAST_SECOND,
};

fn session(expiration: Expiration, refreshable: bool) -> Session {
    Session {
        id: 12,
        server_id: "example".to_string(),
        server_url: "https://example.com".to_string(),
        expiration,
        refreshable,
    }
}

fn at(seconds: i64, local_offset: i32) -> Expiration {
    Expiration::At { time: Timestamp { seconds, nanos: 453_829_000 }, local_offset }
}

#[test]
fn times_are_shown_to_the_second() {
    let t = Timestamp { seconds: 1_516_991_409, nanos: 453_829_000 };
    assert_eq!(format_time(&t, true, 8 * 3600), "2018-01-26T18:30:09+00:00");
    assert_eq!(format_time(&t, false, 8 * 3600), "2018-01-27T02:30:09+08:00");
    assert_eq!(format_time(&t, false, -(3600 + 1800)), "2018-01-26T17:00:09-01:30");
    assert_eq!(format_time(&t, false, 0), "2018-01-26T18:30:09+00:00");
}

#[test]
fn leap_seconds_are_shown() {
    let t = Timestamp { seconds: 1_483_228_799, nanos: 1_500_000_000 };
    assert!(t.check_date_at(0));
    assert_eq!(format_time(&t, true, 0), "2016-12-31T23:59:60+00:00");
}

#[test]
fn dates_have_bounds() {
    let first = Timestamp { seconds: FIRST_SECOND, nanos: 0 };
    let last = Timestamp { seconds: LAST_SECOND, nanos: 999_999_999 };
    assert_eq!(format_time(&first, true, 0), "-262143-01-01T00:00:00+00:00");
    assert_eq!(format_time(&last, true, 0), "+262142-12-31T23:59:59+00:00");
    assert!(!first.check_date_at(-1));
    assert!(!last.check_date_at(1));
    assert!(last.check_date_at(-1));
    assert!(!Timestamp { seconds: FIRST_SECOND - 1, nanos: 0 }.check_date_at(0));
    assert!(!Timestamp { seconds: LAST_SECOND + 1, nanos: 0 }.check_date_at(0));
    assert!(!Timestamp { seconds: 0, nanos: 1_000_000_000 }.check_date_at(0));
    assert!(Timestamp { seconds: -1, nanos: 1_999_999_999 }.check_date_at(0));
    assert!(!Timestamp { seconds: -1, nanos: 2_000_000_000 }.check_date_at(0));
    assert!(!Timestamp { seconds: 0, nanos: 0 }.check_date_at(86_400));
    assert!(!Timestamp { seconds: 0, nanos: 0 }.check_date_at(-86_400));
}

#[test]
fn the_bounds_are_those_of_the_calendar() {
    assert_eq!(chrono::DateTime::<chrono::Utc>::MIN_UTC.timestamp(), FIRST_SECOND);
    assert_eq!(chrono::DateTime::<chrono::Utc>::MAX_UTC.timestamp(), LAST_SECOND);
}

#[test]
fn lines_say_how_a_session_ends() {
    let head = "12. example: https://example.com";
    let expiring = at(1_516_991_409, 3600);
    assert_eq!(
        session_line(&session(expiring, true), true),
        format!("{head} [renews after 2018-01-26T18:30:09+00:00]")
    );
    assert_eq!(
        session_line(&session(expiring, false), false),
        format!("{head} [until 2018-01-26T19:30:09+01:00]")
    );
    assert_eq!(session_line(&session(Expiration::Never, true), true), format!("{head}[refreshable]"));
    assert_eq!(session_line(&session(Expiration::Never, false), true), head);
    assert_eq!(session_line(&session(Expiration::Invalid, true), true), head);
    assert_eq!(session_line(&session(Expiration::Invalid, false), true), head);
    assert_eq!(session_line_at(&session(expiring, false), "then"), format!("{head} [until then]"));
}

#[test]
fn dates_are_checked_in_the_zone_they_are_shown_in() {
    let s = session(Expiration::At { time: Timestamp { seconds: LAST_SECOND, nanos: 0 }, local_offset: 1 }, true);
    assert!(check_expiry_date(&s, true));
    assert!(!check_expiry_date(&s, false));
    assert!(check_expiry_date(&session(Expiration::Invalid, true), false));
}

#[test]
fn the_listing_follows_the_arguments() {
    let sessions = vec![
        session(Expiration::Never, true),
        session(at(0, 0), false),
        session(Expiration::Invalid, false),
    ];
    let text = ListSessionsArgs { utc: true, output: ListSessionsFormat::Text };
    match run(&text, &sessions) {
        Listing::Text(lines) => assert_eq!(
            lines,
            vec![
                "12. example: https://example.com[refreshable]",
                "12. example: https://example.com [until 1970-01-01T00:00:00+00:00]",
                "12. example: https://example.com",
            ]
        ),
        other => panic!("{other:?}"),
    }
    let json = ListSessionsArgs { utc: true, output: ListSessionsFormat::Json };
    match run(&json, &sessions) {
        Listing::Json(entries) => {
            assert_eq!(entries.len(), 3);
            assert!(entries[0].expires_at.is_none());
            let expires_at = entries[1].expires_at.unwrap();
            assert_eq!((expires_at.seconds, expires_at.nanos), (0, 453_829_000));
            assert!(entries[2].expires_at.is_none());
            assert!(entries[0].refreshable && !entries[1].refreshable);
        }
        other => panic!("{other:?}"),
    }
    assert!(matches!(run(&text, &vec![]), Listing::Text(lines) if lines.is_empty()));
}

#[test]
fn a_json_entry_holds_the_session() {
    let s = session(at(7, 0), true);
    let entry = json_session(&s);
    assert_eq!(entry.id, 12);
    assert_eq!(entry.server_id, "example");
    assert_eq!(entry.server_url, "https://example.com");
    assert!(entry.refreshable);
}

#[test]
fn both_texts_tell_the_second_of_the_moment() {
    for seconds in [0, -1, 951_782_399, 951_868_800, 1_516_991_409, -62_135_510_400, 253_402_214_399] {
        let t = Timestamp { seconds, nanos: 999_999_999 };
        for offset in [0, 60, 3600, 20_700, -12_600, 50_400, -43_200, 86_340, -86_340] {
            let in_utc = format_time(&t, true, offset);
            let local = format_time(&t, false, offset);
            assert_eq!(in_utc.len(), 25);
            assert_eq!(local.len(), 25);
            let in_utc = chrono::DateTime::parse_from_rfc3339(&in_utc).unwrap();
            let local = chrono::DateTime::parse_from_rfc3339(&local).unwrap();
            assert_eq!(in_utc, local);
            assert_eq!(local.timestamp(), seconds);
            assert_eq!(in_utc.offset().local_minus_utc(), 0);
            assert_eq!(local.offset().local_minus_utc(), offset);
        }
    }
}

#[test]
fn years_of_four_digits_reach_from_0_to_9999() {
    let first = Timestamp { seconds: FIRST_PLAIN_SECOND, nanos: 0 };
    let last = Timestamp { seconds: LAST_PLAIN_SECOND, nanos: 0 };
    assert_eq!(format_time(&first, true, 0), "0000-01-01T00:00:00+00:00");
    assert_eq!(format_time(&last, true, 0), "9999-12-31T23:59:59+00:00");
    assert_eq!(format_time(&first, false, -60), "-0001-12-31T23:59:00-00:01");
    assert_eq!(format_time(&last, false, 60), "+10000-01-01T00:00:59+00:01");
}
