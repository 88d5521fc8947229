use chrono::{Duration, Local};
use clock::calendar::{
    configured, events_from_items, fetch_url, mock_events, parse_time, should_flash, wants_setup,
    CalendarConfig, CalendarEvent, CalendarItem, Instant,
};

fn instant_of(t: chrono::DateTime<Local>) -> Instant {
    Instant { secs: t.timestamp(), nanos: t.timestamp_subsec_nanos() }
}

#[test]
fn test_should_flash_triggers() {
    let now = Local::now();
    let at = instant_of(now);

    // 1. Event in 45 seconds -> SHOULD FLASH
    let event_soon = CalendarEvent {
        summary: "Soon".to_string(),
        start_time: (now + Duration::seconds(45)).to_rfc3339(),
    };
    assert!(should_flash(&at, &[event_soon]));

    // 2. Event in 60 seconds -> SHOULD FLASH (edge of 1 minute)
    let event_exact = CalendarEvent {
        summary: "Exact".to_string(),
        start_time: (now + Duration::seconds(60)).to_rfc3339(),
    };
    assert!(should_flash(&at, &[event_exact]));

    // 3. Event in 75 seconds -> SHOULD NOT FLASH
    let event_far = CalendarEvent {
        summary: "Far".to_string(),
        start_time: (now + Duration::seconds(75)).to_rfc3339(),
    };
    assert!(!should_flash(&at, &[event_far]));

    // 4. Past event (started 10 seconds ago) -> SHOULD NOT FLASH
    let event_past = CalendarEvent {
        summary: "Past".to_string(),
        start_time: (now - Duration::seconds(10)).to_rfc3339(),
    };
    assert!(!should_flash(&at, &[event_past]));
}

#[test]
fn flash_window_edges() {
    let now = Instant { secs: 1_786_700_000, nanos: 0 };
    let ev = |t: &str| CalendarEvent { summary: "x".to_string(), start_time: t.to_string() };
    // 1786700000 is 2026-08-14T09:33:20Z.
    assert!(!should_flash(&now, &[ev("2026-08-14T09:33:20Z")]));
    assert!(should_flash(&now, &[ev("2026-08-14T09:33:21Z")]));
    assert!(should_flash(&now, &[ev("2026-08-14T17:34:20+08:00")]));
    assert!(!should_flash(&now, &[ev("2026-08-14T09:34:21Z")]));
    // Sub-second parts count toward whole seconds only once they add up.
    assert!(!should_flash(&now, &[ev("2026-08-14T09:33:20.999Z")]));
    assert!(should_flash(&now, &[ev("2026-08-14T09:34:20.999Z")]));
    // Unparseable starts are ignored; one good event is enough.
    assert!(!should_flash(&now, &[ev("tomorrow")]));
    assert!(should_flash(&now, &[ev("tomorrow"), ev("2026-08-14T09:34:00Z")]));
    assert!(!should_flash(&now, &[]));
}

#[test]
fn parse_time_reads_rfc3339() {
    let t = parse_time("2026-08-14T16:30:00+08:00").unwrap();
    assert_eq!(t, Instant { secs: 1_786_696_200, nanos: 0 });
    let t = parse_time("1970-01-01T00:00:01.5Z").unwrap();
    assert_eq!(t, Instant { secs: 1, nanos: 500_000_000 });
    assert!(parse_time("2026-08-14 16:30").is_none());
}

#[test]
fn mock_default_is_mock_primary() {
    let c = CalendarConfig::mock_default();
    assert_eq!(c.api_key, "");
    assert_eq!(c.calendar_id, "primary");
    assert!(c.mock_mode);
    assert!(c.mock_events.is_empty());
    assert!(c.needs_setup());
}

#[test]
fn mock_events_add_demo_event() {
    let mut c = CalendarConfig::mock_default();
    c.mock_events.push(CalendarEvent { summary: "Lunch".to_string(), start_time: "2026-08-14T12:00:00Z".to_string() });
    let events = mock_events(&c, "2026-08-14T09:34:25Z".to_string());
    assert_eq!(events.len(), 2);
    assert_eq!(events[0].summary, "Lunch");
    assert_eq!(events[0].start_time, "2026-08-14T12:00:00Z");
    assert_eq!(events[1].summary, "Demo Team Standup");
    assert_eq!(events[1].start_time, "2026-08-14T09:34:25Z");
}

#[test]
fn fetch_url_needs_key() {
    let mut c = CalendarConfig::mock_default();
    assert!(fetch_url(&c, "2026-08-14T09:33:20+00:00").is_none());
    c.api_key = "KEY".to_string();
    assert_eq!(
        fetch_url(&c, "2026-08-14T09:33:20+00:00").unwrap(),
        "https://www.googleapis.com/calendar/v3/calendars/primary/events?key=KEY&timeMin=2026-08-14T09:33:20+00:00&singleEvents=true&orderBy=startTime&maxResults=5"
    );
}

#[test]
fn items_without_title_or_time_are_dropped() {
    let items = vec![
        CalendarItem { summary: Some("A".to_string()), date_time: Some("t1".to_string()) },
        CalendarItem { summary: None, date_time: Some("t2".to_string()) },
        CalendarItem { summary: Some("C".to_string()), date_time: None },
        CalendarItem { summary: Some("D".to_string()), date_time: Some("t4".to_string()) },
    ];
    let events = events_from_items(items);
    assert_eq!(events.len(), 2);
    assert_eq!(events[0].summary, "A");
    assert_eq!(events[0].start_time, "t1");
    assert_eq!(events[1].summary, "D");
    assert_eq!(events[1].start_time, "t4");
}

#[test]
fn setup_answers() {
    assert!(wants_setup("y\n"));
    assert!(wants_setup("  YES "));
    assert!(!wants_setup(""));
    assert!(!wants_setup("no"));
    assert!(!wants_setup("yess"));
}

#[test]
fn setup_fills_key_and_calendar() {
    let c = configured(CalendarConfig::mock_default(), "  abc123\n", "\n");
    assert_eq!(c.api_key, "abc123");
    assert_eq!(c.calendar_id, "primary");
    assert!(!c.mock_mode);
    assert!(!c.needs_setup());
    let c = configured(CalendarConfig::mock_default(), "k", " team@example.com ");
    assert_eq!(c.calendar_id, "team@example.com");
}

#[test]
fn event_plans() {
    let mut cfg = CalendarConfig::mock_default();
    match clock::calendar::event_plan(&cfg, "2026-01-01T00:00:00Z", "2026-01-01T00:01:05Z".to_string()) {
        clock::calendar::EventPlan::Mock(v) => {
            assert_eq!(v.len(), 1);
            assert_eq!(v[0].summary, "Demo Team Standup");
            assert_eq!(v[0].start_time, "2026-01-01T00:01:05Z");
        }
        _ => panic!("mock mode gives the mock events"),
    }
    cfg.mock_mode = false;
    assert!(matches!(
        clock::calendar::event_plan(&cfg, "t", String::new()),
        clock::calendar::EventPlan::Nothing
    ));
    cfg.api_key = "k".to_string();
    match clock::calendar::event_plan(&cfg, "t", String::new()) {
        clock::calendar::EventPlan::Fetch(u) => assert_eq!(
            u,
            "https://www.googleapis.com/calendar/v3/calendars/primary/events?key=k&timeMin=t&singleEvents=true&orderBy=startTime&maxResults=5"
        ),
        _ => panic!("a real calendar with a key is fetched"),
    }
}
