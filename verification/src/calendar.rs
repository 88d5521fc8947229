//! Calendar reminders: the events of the day, and the rule that the clock
//! flashes during the minute before an event starts. Fetching the events
//! over the network and the setup dialogue are left to the program around
//! the library; the decisions they take are here.

use vstd::prelude::*;
use crate::text::{trimmed, lower_seq, trim, to_ascii_lowercase, str_eq, push_str};
use crate::time::trunc_div;

verus! {

/// An event: its title and its start as an RFC 3339 text, e.g.
/// "2026-08-14T16:30:00+08:00".
#[derive(Debug)]
pub struct CalendarEvent {
    pub summary: String,
    pub start_time: String,
}

/// Where the events come from: a Google Calendar (with its API key and
/// calendar id), or the stored demo events in mock mode.
#[derive(Debug)]
pub struct CalendarConfig {
    pub api_key: String,
    pub calendar_id: String,
    pub mock_mode: bool,
    pub mock_events: Vec<CalendarEvent>,
}

/// A moment: seconds since the Unix epoch and the nanoseconds past that
/// second (at or above one second during a leap second).
#[derive(Clone, Copy, Debug, PartialEq, Eq, Structural)]
pub struct Instant {
    pub secs: i64,
    pub nanos: u32,
}

pub open spec fn nanos_per_sec() -> int {
    1_000_000_000
}

/// The moments within roughly 250,000 years of 1970, away from a leap second.
pub open spec fn ordinary(t: Instant) -> bool {
    t.nanos < nanos_per_sec() && -8_000_000_000_000 <= t.secs <= 8_000_000_000_000
}

pub open spec fn total_nanos(t: Instant) -> int {
    t.secs * nanos_per_sec() + t.nanos
}

/// The moment an RFC 3339 text names, as `chrono::DateTime::parse_from_rfc3339`
/// reads it: seconds since the epoch and subsecond nanoseconds.
pub uninterp spec fn rfc3339_instant(text: Seq<char>) -> Option<(i64, u32)>;

/// Calls `chrono::DateTime::parse_from_rfc3339`: the moment is `None` when
/// the text is not RFC 3339, else the parsed moment, named by
/// `rfc3339_instant`. Which texts parse, and to what, is not stated here.
#[verifier::external_body]
pub fn parse_time(time_str: &str) -> (r: Option<Instant>)
    ensures
        match rfc3339_instant(time_str@) {
            Some((s, n)) => r == Some(Instant { secs: s, nanos: n }),
            None => r is None,
        },
{
    match chrono::DateTime::parse_from_rfc3339(time_str) {
        Ok(dt) => Some(Instant { secs: dt.timestamp(), nanos: dt.timestamp_subsec_nanos() }),
        Err(_) => None,
    }
}

/// The whole seconds from `earlier` to `later`, as chrono's
/// `signed_duration_since(..).num_seconds()` counts them.
pub uninterp spec fn chrono_seconds_between(later_secs: i64, later_nanos: u32, earlier_secs: i64, earlier_nanos: u32) -> Option<i64>;

/// Calls `chrono::DateTime::from_timestamp` on both moments and then
/// `signed_duration_since(..).num_seconds()`. `None` when a moment is not
/// one chrono can hold. Away from leap seconds the count is the exact
/// difference rounded toward zero; across a leap second chrono's own
/// accounting applies, which is not stated here.
#[verifier::external_body]
fn whole_seconds_between(later: &Instant, earlier: &Instant) -> (r: Option<i64>)
    ensures
        r == chrono_seconds_between(later.secs, later.nanos, earlier.secs, earlier.nanos),
        ordinary(*later) && ordinary(*earlier) ==> r == Some(
            trunc_div(total_nanos(*later) - total_nanos(*earlier), nanos_per_sec()) as i64,
        ),
{
    match (
        chrono::DateTime::from_timestamp(later.secs, later.nanos),
        chrono::DateTime::from_timestamp(earlier.secs, earlier.nanos),
    ) {
        (Some(a), Some(b)) => Some(a.signed_duration_since(b).num_seconds()),
        _ => None,
    }
}

/// An event starts 1 to 60 whole seconds after `now`.
pub open spec fn starts_within_a_minute(now: Instant, e: CalendarEvent) -> bool {
    match rfc3339_instant(e.start_time@) {
        Some((s, n)) => match chrono_seconds_between(s, n, now.secs, now.nanos) {
            Some(d) => 0 < d <= 60,
            None => false,
        },
        None => false,
    }
}

/// Whether the clock should flash: some event starts 1 to 60 seconds from
/// now. Events whose start does not parse are ignored.
pub fn should_flash(now: &Instant, events: &[CalendarEvent]) -> (r: bool)
    ensures
        r == exists|i: int| 0 <= i < events@.len() && starts_within_a_minute(*now, #[trigger] events@[i]),
{
    let n = events.len();
    let mut i: usize = 0;
    while i < n
        invariant
            n == events@.len(),
            i <= n,
            forall|k: int| 0 <= k < i ==> !starts_within_a_minute(*now, #[trigger] events@[k]),
        decreases n - i,
    {
        let e = &events[i];
        if let Some(start) = parse_time(e.start_time.as_str()) {
            if let Some(diff) = whole_seconds_between(&start, now) {
                if diff > 0 && diff <= 60 {
                    assert(starts_within_a_minute(*now, events@[i as int]));
                    return true;
                }
            }
        }
        i += 1;
    }
    false
}

/// For moments away from leap seconds, an event triggers the flash exactly
/// when it starts at least one and less than sixty-one seconds after now.
pub proof fn lemma_flash_window(now: Instant, start: Instant, e: CalendarEvent)
    requires
        ordinary(now),
        ordinary(start),
        rfc3339_instant(e.start_time@) == Some((start.secs, start.nanos)),
        chrono_seconds_between(start.secs, start.nanos, now.secs, now.nanos) == Some(
            trunc_div(total_nanos(start) - total_nanos(now), nanos_per_sec()) as i64,
        ),
    ensures
        starts_within_a_minute(now, e) <==> (nanos_per_sec() <= total_nanos(start) - total_nanos(now) < 61
            * nanos_per_sec()),
{
    let d = total_nanos(start) - total_nanos(now);
    assert(-16_000_000_000_000 * nanos_per_sec() - nanos_per_sec() <= d <= 16_000_000_000_000 * nanos_per_sec() + nanos_per_sec()) by (nonlinear_arith)
        requires
            d == total_nanos(start) - total_nanos(now),
            ordinary(now),
            ordinary(start),
    ;
    let q = trunc_div(d, nanos_per_sec());
    if d >= 0 {
        assert(q == d / nanos_per_sec());
    } else {
        assert(q == -((-d) / nanos_per_sec()));
    }
    assert(i64::MIN <= q <= i64::MAX);
}

impl CalendarEvent {
    /// A copy of the event.
    pub fn duplicate(&self) -> (e: CalendarEvent)
        ensures
            e.summary@ == self.summary@,
            e.start_time@ == self.start_time@,
    {
        CalendarEvent { summary: self.summary.clone(), start_time: self.start_time.clone() }
    }
}

pub open spec fn event_view(e: CalendarEvent) -> (Seq<char>, Seq<char>) {
    (e.summary@, e.start_time@)
}

impl CalendarConfig {
    /// The configuration written on first use: mock mode with no stored
    /// events, the primary calendar, and no API key.
    pub fn mock_default() -> (c: CalendarConfig)
        ensures
            c.api_key@ == Seq::<char>::empty(),
            c.calendar_id@ == "primary"@,
            c.mock_mode,
            c.mock_events@.len() == 0,
    {
        CalendarConfig {
            api_key: String::new(),
            calendar_id: String::from_str("primary"),
            mock_mode: true,
            mock_events: Vec::new(),
        }
    }

    /// The setup dialogue is offered while no API key is configured.
    pub fn needs_setup(&self) -> (b: bool)
        ensures
            b == (self.api_key@.len() == 0),
    {
        self.api_key.as_str().unicode_len() == 0
    }
}

/// The events in mock mode: the stored ones, then a demo event starting at
/// `demo_start` (the caller passes the time 65 seconds from now), so the
/// flash can be seen right away.
pub fn mock_events(cfg: &CalendarConfig, demo_start: String) -> (events: Vec<CalendarEvent>)
    ensures
        events@.len() == cfg.mock_events@.len() + 1,
        forall|i: int|
            0 <= i < cfg.mock_events@.len() ==> event_view(#[trigger] events@[i]) == event_view(
                cfg.mock_events@[i],
            ),
        events@.last().summary@ == "Demo Team Standup"@,
        events@.last().start_time@ == demo_start@,
{
    let mut events: Vec<CalendarEvent> = Vec::new();
    let n = cfg.mock_events.len();
    let mut i: usize = 0;
    while i < n
        invariant
            n == cfg.mock_events@.len(),
            i <= n,
            events@.len() == i,
            forall|k: int| 0 <= k < i ==> event_view(#[trigger] events@[k]) == event_view(cfg.mock_events@[k]),
        decreases n - i,
    {
        events.push(cfg.mock_events[i].duplicate());
        i += 1;
    }
    events.push(CalendarEvent { summary: String::from_str("Demo Team Standup"), start_time: demo_start });
    events
}

/// The Google Calendar query for the next five events from `time_min` on.
pub open spec fn events_query(calendar_id: Seq<char>, api_key: Seq<char>, time_min: Seq<char>) -> Seq<char> {
    "https://www.googleapis.com/calendar/v3/calendars/"@ + calendar_id + "/events?key="@ + api_key
        + "&timeMin="@ + time_min + "&singleEvents=true&orderBy=startTime&maxResults=5"@
}

/// The address to fetch the events from, or `None` when no API key is
/// configured (then there are no events).
pub fn fetch_url(cfg: &CalendarConfig, time_min: &str) -> (url: Option<String>)
    ensures
        cfg.api_key@.len() == 0 ==> url is None,
        cfg.api_key@.len() > 0 ==> (url matches Some(u) && u@ == events_query(
            cfg.calendar_id@,
            cfg.api_key@,
            time_min@,
        )),
{
    if cfg.api_key.as_str().unicode_len() == 0 {
        return None;
    }
    let mut u = String::from_str("https://www.googleapis.com/calendar/v3/calendars/");
    push_str(&mut u, cfg.calendar_id.as_str());
    push_str(&mut u, "/events?key=");
    push_str(&mut u, cfg.api_key.as_str());
    push_str(&mut u, "&timeMin=");
    push_str(&mut u, time_min);
    push_str(&mut u, "&singleEvents=true&orderBy=startTime&maxResults=5");
    Some(u)
}

/// One item of the calendar's answer: its title and its start time, each
/// when present (all-day events have a date and no time).
#[derive(Debug)]
pub struct CalendarItem {
    pub summary: Option<String>,
    pub date_time: Option<String>,
}

pub open spec fn item_event(it: CalendarItem) -> Option<(Seq<char>, Seq<char>)> {
    match (it.summary, it.date_time) {
        (Some(s), Some(t)) => Some((s@, t@)),
        _ => None,
    }
}

/// The events among `items`, in order: those with both a title and a
/// start time.
pub open spec fn items_events(items: Seq<CalendarItem>) -> Seq<(Seq<char>, Seq<char>)>
    decreases items.len(),
{
    if items.len() == 0 {
        Seq::empty()
    } else {
        let rest = items_events(items.drop_last());
        match item_event(items.last()) {
            Some(e) => rest.push(e),
            None => rest,
        }
    }
}

/// The events of a calendar answer: the items that have both a title and a
/// start time, in order.
pub fn events_from_items(items: Vec<CalendarItem>) -> (events: Vec<CalendarEvent>)
    ensures
        events@.map_values(|e: CalendarEvent| event_view(e)) == items_events(items@),
{
    let ghost all = items@;
    let mut rest = items;
    let mut rev: Vec<CalendarItem> = Vec::new();
    while rest.len() > 0
        invariant
            rest@.len() + rev@.len() == all.len(),
            rest@ == all.subrange(0, rest@.len() as int),
            forall|k: int| 0 <= k < rev@.len() ==> #[trigger] rev@[k] == all[all.len() - 1 - k],
        decreases rest@.len(),
    {
        let it = rest.pop().unwrap();
        rev.push(it);
    }
    let mut events: Vec<CalendarEvent> = Vec::new();
    while rev.len() > 0
        invariant
            rev@.len() <= all.len(),
            forall|k: int| 0 <= k < rev@.len() ==> #[trigger] rev@[k] == all[all.len() - 1 - k],
            events@.map_values(|e: CalendarEvent| event_view(e)) == items_events(
                all.subrange(0, all.len() - rev@.len()),
            ),
        decreases rev@.len(),
    {
        let ghost done = all.len() - rev@.len();
        let it = rev.pop().unwrap();
        assert(it == all[done]);
        assert(all.subrange(0, done + 1).drop_last() == all.subrange(0, done));
        assert(all.subrange(0, done + 1).last() == it);
        match (it.summary, it.date_time) {
            (Some(summary), Some(start_time)) => {
                events.push(CalendarEvent { summary, start_time });
                assert(events@.map_values(|e: CalendarEvent| event_view(e)) =~= items_events(
                    all.subrange(0, done + 1),
                ));
            },
            _ => {},
        }
    }
    assert(all.subrange(0, all.len() as int) == all);
    events
}

/// The setup dialogue goes ahead on "y" or "yes", in any case and with
/// surrounding whitespace.
pub open spec fn agrees(answer: Seq<char>) -> bool {
    let a = lower_seq(trimmed(answer));
    a == "y"@ || a == "yes"@
}

pub fn wants_setup(answer: &str) -> (b: bool)
    ensures
        b == agrees(answer@),
{
    let t = trim(answer);
    let l = to_ascii_lowercase(t.as_str());
    str_eq(l.as_str(), "y") || str_eq(l.as_str(), "yes")
}

/// The configuration after the setup dialogue: the key and calendar id as
/// typed (trimmed; the primary calendar when no id is given), out of mock
/// mode, with the stored demo events kept.
pub fn configured(cfg: CalendarConfig, api_key_line: &str, calendar_id_line: &str) -> (c: CalendarConfig)
    ensures
        c.api_key@ == trimmed(api_key_line@),
        c.calendar_id@ == (if trimmed(calendar_id_line@).len() == 0 {
            "primary"@
        } else {
            trimmed(calendar_id_line@)
        }),
        !c.mock_mode,
        c.mock_events == cfg.mock_events,
{
    let mut c = cfg;
    c.api_key = trim(api_key_line);
    let id = trim(calendar_id_line);
    c.calendar_id = if id.as_str().unicode_len() == 0 {
        String::from_str("primary")
    } else {
        id
    };
    c.mock_mode = false;
    c
}


/// The events of a mock configuration: the stored ones, then the demo event
/// starting at `demo_start`.
pub open spec fn mock_list(cfg: CalendarConfig, demo_start: Seq<char>) -> Seq<(Seq<char>, Seq<char>)> {
    cfg.mock_events@.map_values(|e: CalendarEvent| event_view(e)).push(("Demo Team Standup"@, demo_start))
}

/// Where the upcoming events come from.
pub enum EventPlan {
    /// The mock configuration's events, ready as they are.
    Mock(Vec<CalendarEvent>),
    /// The calendar's answer at this address.
    Fetch(String),
    /// No events: a real calendar without an API key.
    Nothing,
}

/// How to get the upcoming events: in mock mode the stored events and the
/// demo event at `demo_start` (the caller passes the time 65 seconds from
/// now); otherwise the calendar's events from `time_min` on, or none when no
/// API key is set.
pub fn event_plan(cfg: &CalendarConfig, time_min: &str, demo_start: String) -> (p: EventPlan)
    ensures
        cfg.mock_mode ==> (p matches EventPlan::Mock(v) && v@.map_values(|e: CalendarEvent| event_view(e))
            == mock_list(*cfg, demo_start@)),
        !cfg.mock_mode && cfg.api_key@.len() == 0 ==> p is Nothing,
        !cfg.mock_mode && cfg.api_key@.len() > 0 ==> (p matches EventPlan::Fetch(u) && u@ == events_query(
            cfg.calendar_id@,
            cfg.api_key@,
            time_min@,
        )),
{
    if cfg.mock_mode {
        let ghost d = demo_start@;
        let v = mock_events(cfg, demo_start);
        proof {
            reveal_strlit("Demo Team Standup");
            assert(v@.map_values(|e: CalendarEvent| event_view(e)) =~= mock_list(*cfg, d));
        }
        EventPlan::Mock(v)
    } else {
        match fetch_url(cfg, time_min) {
            Some(u) => EventPlan::Fetch(u),
            None => EventPlan::Nothing,
        }
    }
}

} // verus!
