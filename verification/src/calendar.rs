//! Google Calendar synchronisation: checking the configuration, reading
//! event times, deciding what each fetched event does to the vault, the
//! retry on an expired sync token, and the sync report.

use vstd::prelude::*;
use crate::error::{text_result, EngineError, ErrorView};
use crate::text::{chars_of, chars_eq_str, concat_str, is_ws, lemma_trim_empty, string_from_chars, trim, trim_vec};

verus! {

/// The instant that RFC 3339 text denotes, as seconds since the Unix epoch
/// and nanoseconds within the second, as `chrono` reads it
/// (`DateTime::parse_from_rfc3339`, then UTC); `None` when it does not
/// parse.
pub uninterp spec fn rfc3339_instant(text: Seq<char>) -> Option<(i64, u32)>;

/// The instant, as seconds since the Unix epoch, of hour `hour` (UTC) of
/// the date that `text` denotes in the `chrono` format `format`, as
/// `NaiveDate::parse_from_str` and `NaiveDate::and_hms_opt` give it; `None`
/// when the date does not parse or the hour does not exist.
pub uninterp spec fn date_hour_instant(text: Seq<char>, format: Seq<char>, hour: u32) -> Option<i64>;

/// The instant `delta_secs` seconds after `(secs, nanos)`, as `chrono`
/// adds `TimeDelta::seconds(delta_secs)` to a `DateTime<Utc>`; `None`
/// outside chrono's range.
pub uninterp spec fn instant_plus_seconds(secs: i64, nanos: u32, delta_secs: i64) -> Option<(i64, u32)>;

/// The RFC 3339 text `chrono` writes for an instant (`to_rfc3339`, UTC);
/// `None` for an instant outside chrono's range.
pub uninterp spec fn rfc3339_text(secs: i64, nanos: u32) -> Option<Seq<char>>;

/// Parses RFC 3339 text with `chrono::DateTime::parse_from_rfc3339`.
#[verifier::external_body]
fn parse_rfc3339(text: &str) -> (r: Option<(i64, u32)>)
    ensures
        r == rfc3339_instant(text@),
{
    chrono::DateTime::parse_from_rfc3339(text).ok().map(|dt| {
        let utc = dt.with_timezone(&chrono::Utc);
        (utc.timestamp(), utc.timestamp_subsec_nanos())
    })
}

/// Parses a date with `chrono::NaiveDate::parse_from_str` in `format` and
/// takes hour `hour` of it (`and_hms_opt`) as a UTC instant.
#[verifier::external_body]
fn parse_date_at_hour(text: &str, format: &str, hour: u32) -> (r: Option<i64>)
    ensures
        r == date_hour_instant(text@, format@, hour),
{
    let date = chrono::NaiveDate::parse_from_str(text, format).ok()?;
    let at = date.and_hms_opt(hour, 0, 0)?;
    Some(chrono::DateTime::<chrono::Utc>::from_naive_utc_and_offset(at, chrono::Utc).timestamp())
}

/// Adds `delta_secs` seconds to an instant with `chrono`
/// (`TimeDelta::try_seconds`, then `checked_add_signed`).
#[verifier::external_body]
fn add_seconds(secs: i64, nanos: u32, delta_secs: i64) -> (r: Option<(i64, u32)>)
    ensures
        r == instant_plus_seconds(secs, nanos, delta_secs),
{
    let start = chrono::DateTime::from_timestamp(secs, nanos)?;
    let delta = chrono::TimeDelta::try_seconds(delta_secs)?;
    let end = start.checked_add_signed(delta)?;
    Some((end.timestamp(), end.timestamp_subsec_nanos()))
}

/// The format of an all-day event's date.
pub open spec fn event_date_format() -> Seq<char> {
    "%Y-%m-%d"@
}

/// How long an event without an end lasts: one hour, in seconds.
pub open spec fn default_event_seconds() -> i64 {
    3600
}

/// Writes an instant as RFC 3339 text with `chrono`'s `to_rfc3339`.
#[verifier::external_body]
pub(crate) fn instant_rfc3339(secs: i64, nanos: u32) -> (r: Option<String>)
    ensures
        crate::obsidian::opt_string_view(&r) == rfc3339_text(secs, nanos),
{
    chrono::DateTime::from_timestamp(secs, nanos).map(|dt| dt.to_rfc3339())
}

/// A start or end time of a Google Calendar event: a date-time, or an
/// all-day date.
pub struct EventTime {
    pub date_time: Option<String>,
    pub date: Option<String>,
}

/// The instant an event time denotes: its date-time when it has one (even
/// one that does not parse), else midnight UTC of its `YYYY-MM-DD` date.
pub open spec fn event_time_instant(date_time: Option<Seq<char>>, date: Option<Seq<char>>) -> Option<(i64, u32)> {
    match date_time {
        Some(t) => rfc3339_instant(t),
        None => match date {
            Some(d) => match date_hour_instant(d, event_date_format(), 0) {
                Some(s) => Some((s, 0u32)),
                None => None,
            },
            None => None,
        },
    }
}

/// The view of an optional event time.
pub open spec fn event_time_view(t: Option<EventTime>) -> Option<(Option<Seq<char>>, Option<Seq<char>>)> {
    match t {
        Some(e) => Some((crate::obsidian::opt_string_view(&e.date_time), crate::obsidian::opt_string_view(&e.date))),
        None => None,
    }
}

/// The instant of an optional event time.
pub open spec fn opt_instant(t: Option<(Option<Seq<char>>, Option<Seq<char>>)>) -> Option<(i64, u32)> {
    match t {
        Some((dt, d)) => event_time_instant(dt, d),
        None => None,
    }
}

/// The start and end of an event: none without a start; the end defaults
/// to one hour after the start.
pub open spec fn event_span(start: Option<(Option<Seq<char>>, Option<Seq<char>>)>, end: Option<(Option<Seq<char>>, Option<Seq<char>>)>) -> Option<((i64, u32), (i64, u32))> {
    match opt_instant(start) {
        None => None,
        Some(s) => match opt_instant(end) {
            Some(e) => Some((s, e)),
            None => match instant_plus_seconds(s.0, s.1, default_event_seconds()) {
                Some(e) => Some((s, e)),
                None => None,
            },
        },
    }
}

/// The instant an event time denotes.
pub fn parse_google_event_time(time: &EventTime) -> (r: Option<(i64, u32)>)
    ensures
        r == event_time_instant(crate::obsidian::opt_string_view(&time.date_time), crate::obsidian::opt_string_view(&time.date)),
{
    match &time.date_time {
        Some(t) => parse_rfc3339(t.as_str()),
        None => match &time.date {
            Some(d) => match parse_date_at_hour(d.as_str(), "%Y-%m-%d", 0) {
                Some(s) => Some((s, 0u32)),
                None => None,
            },
            None => None,
        },
    }
}

/// The start and end of an event.
pub fn event_times(start: Option<EventTime>, end: Option<EventTime>) -> (r: Option<((i64, u32), (i64, u32))>)
    ensures
        r == event_span(event_time_view(start), event_time_view(end)),
{
    let s = match &start {
        Some(t) => parse_google_event_time(t),
        None => None,
    };
    let s = match s {
        Some(s) => s,
        None => return None,
    };
    let e = match &end {
        Some(t) => parse_google_event_time(t),
        None => None,
    };
    match e {
        Some(e) => Some((s, e)),
        None => match add_seconds(s.0, s.1, 3600) {
            Some(e) => Some((s, e)),
            None => None,
        },
    }
}

/// The Google Calendar section of the engine's configuration, as far as
/// checking it goes.
pub struct CalendarSettings {
    pub enabled: bool,
    pub client_id: Option<String>,
    pub client_secret: Option<String>,
    pub refresh_token: Option<String>,
    pub calendar_id: String,
}

/// The outcome of checking the settings: the trimmed calendar id, or the
/// first problem found.
pub open spec fn settings_check(s: CalendarSettings) -> Result<Seq<char>, ErrorView> {
    if !s.enabled {
        Err(ErrorView::InvalidInput("google calendar sync is disabled"@))
    } else if s.client_id is None {
        Err(ErrorView::InvalidInput("google calendar client_id missing"@))
    } else if s.client_secret is None {
        Err(ErrorView::InvalidInput("google calendar client_secret missing"@))
    } else if s.refresh_token is None {
        Err(ErrorView::InvalidInput("google calendar refresh_token missing"@))
    } else if trim(s.calendar_id@).len() == 0 {
        Err(ErrorView::InvalidInput("google calendar_id must not be empty"@))
    } else {
        Ok(trim(s.calendar_id@))
    }
}

/// Checks the settings before a sync; returns the trimmed calendar id.
pub fn check_calendar_settings(settings: &CalendarSettings) -> (r: Result<String, EngineError>)
    ensures
        text_result(r) == settings_check(*settings),
{
    if !settings.enabled {
        return Err(EngineError::InvalidInput("google calendar sync is disabled".to_string()));
    }
    if settings.client_id.is_none() {
        return Err(EngineError::InvalidInput("google calendar client_id missing".to_string()));
    }
    if settings.client_secret.is_none() {
        return Err(EngineError::InvalidInput("google calendar client_secret missing".to_string()));
    }
    if settings.refresh_token.is_none() {
        return Err(EngineError::InvalidInput("google calendar refresh_token missing".to_string()));
    }
    let c = chars_of(settings.calendar_id.as_str());
    let t = trim_vec(c.as_slice());
    if t.len() == 0 {
        return Err(EngineError::InvalidInput("google calendar_id must not be empty".to_string()));
    }
    Ok(string_from_chars(t.as_slice()))
}

/// The name under which a calendar's sync cursor is kept.
pub fn calendar_adapter_name(calendar_id: &str) -> (out: String)
    ensures
        out@ == "google-calendar:"@ + calendar_id@,
{
    concat_str("google-calendar:", calendar_id)
}

/// The source of the node an event becomes.
pub fn event_source(calendar_id: &str, event_id: &str) -> (out: String)
    ensures
        out@ == "google-calendar:"@ + calendar_id@ + ":"@ + event_id@,
{
    let a = concat_str("google-calendar:", calendar_id);
    let a = concat_str(a.as_str(), ":");
    concat_str(a.as_str(), event_id)
}

/// The sync token to resume from: the stored cursor, trimmed, unless blank.
pub open spec fn cursor_of(stored: Option<Seq<char>>) -> Option<Seq<char>> {
    match stored {
        Some(c) => if trim(c).len() > 0 { Some(trim(c)) } else { None },
        None => None,
    }
}

/// The sync token to resume from.
pub fn sync_cursor(stored: Option<&str>) -> (r: Option<String>)
    ensures
        crate::obsidian::opt_string_view(&r) == cursor_of(match stored {
            Some(s) => Some(s@),
            None => None,
        }),
{
    match stored {
        Some(c) => {
            let cs = chars_of(c);
            let t = trim_vec(cs.as_slice());
            if t.len() > 0 { Some(string_from_chars(t.as_slice())) } else { None }
        },
        None => None,
    }
}

/// What a fetched event does to the vault.
#[derive(PartialEq, Eq, Structural, Clone, Copy, Debug)]
pub enum EventAction {
    /// Not usable: no id, or no start.
    Skip,
    /// Cancelled: delete its node, if there is one.
    Delete,
    /// Create or update its node.
    Upsert,
}

/// The action for an event: skipped without an id; deleted when cancelled;
/// skipped without a start; else created or updated.
pub open spec fn event_action_of(has_id: bool, status: Option<Seq<char>>, has_times: bool) -> EventAction {
    if !has_id {
        EventAction::Skip
    } else if status == Some("cancelled"@) {
        EventAction::Delete
    } else if !has_times {
        EventAction::Skip
    } else {
        EventAction::Upsert
    }
}

/// Decides what a fetched event does to the vault.
pub fn classify_event(has_id: bool, status: Option<&str>, has_times: bool) -> (a: EventAction)
    ensures
        a == event_action_of(has_id, match status {
            Some(s) => Some(s@),
            None => None,
        }, has_times),
{
    if !has_id {
        return EventAction::Skip;
    }
    let cancelled = match status {
        Some(s) => {
            let c = chars_of(s);
            chars_eq_str(c.as_slice(), "cancelled")
        },
        None => false,
    };
    if cancelled {
        EventAction::Delete
    } else if !has_times {
        EventAction::Skip
    } else {
        EventAction::Upsert
    }
}

/// The title of an event's node: its summary unless blank, else
/// `Google Calendar Event`.
pub open spec fn event_title_of(summary: Option<Seq<char>>) -> Seq<char> {
    match summary {
        Some(s) => if trim(s).len() > 0 { s } else { "Google Calendar Event"@ },
        None => "Google Calendar Event"@,
    }
}

/// The content of an event's node: its description unless blank, else the
/// title.
pub open spec fn event_content_of(description: Option<Seq<char>>, title: Seq<char>) -> Seq<char> {
    match description {
        Some(d) => if trim(d).len() > 0 { d } else { title },
        None => title,
    }
}

fn non_blank(s: &str) -> (b: bool)
    ensures
        b == (trim(s@).len() > 0),
{
    let c = chars_of(s);
    let t = trim_vec(c.as_slice());
    t.len() > 0
}

/// The title and content of an event's node.
pub fn event_text(summary: Option<&str>, description: Option<&str>) -> (r: (String, String))
    ensures
        r.0@ == event_title_of(match summary {
            Some(s) => Some(s@),
            None => None,
        }),
        r.1@ == event_content_of(match description {
            Some(s) => Some(s@),
            None => None,
        }, r.0@),
{
    let title = match summary {
        Some(s) => if non_blank(s) { s.to_string() } else { "Google Calendar Event".to_string() },
        None => "Google Calendar Event".to_string(),
    };
    let content = match description {
        Some(d) => if non_blank(d) { d.to_string() } else { title.clone() },
        None => title.clone(),
    };
    (title, content)
}

/// How fetching the events ended.
pub enum FetchOutcome {
    /// The events were fetched.
    Fetched,
    /// The sync token has expired (HTTP 410 Gone).
    SyncTokenExpired,
    /// The request failed, with this message.
    RequestFailed(String),
}

/// What a sync does after a fetch.
pub enum SyncStep {
    /// Apply the fetched events.
    Apply,
    /// Fetch again, without a sync token.
    RetryWithoutToken,
    /// Stop with this error.
    Fail(EngineError),
}

/// What follows fetch attempt `attempt` (counted from 0): an expired token
/// is retried once without it, then reported; a failed request is reported.
pub fn next_sync_step(attempt: u32, outcome: FetchOutcome) -> (s: SyncStep)
    ensures
        outcome is Fetched ==> s is Apply,
        outcome is SyncTokenExpired && attempt == 0 ==> s is RetryWithoutToken,
        outcome is SyncTokenExpired && attempt > 0 ==> (s matches SyncStep::Fail(e) && e@ == ErrorView::InvalidInput("google calendar sync token expired"@)),
        outcome matches FetchOutcome::RequestFailed(m) ==> (s matches SyncStep::Fail(e) && e@ == ErrorView::Storage("google calendar sync failed: "@ + m@)),
{
    match outcome {
        FetchOutcome::Fetched => SyncStep::Apply,
        FetchOutcome::SyncTokenExpired => {
            if attempt == 0 {
                SyncStep::RetryWithoutToken
            } else {
                SyncStep::Fail(EngineError::InvalidInput("google calendar sync token expired".to_string()))
            }
        },
        FetchOutcome::RequestFailed(m) => SyncStep::Fail(EngineError::Storage(concat_str("google calendar sync failed: ", m.as_str()))),
    }
}

/// Counts of one calendar sync.
pub struct GoogleCalendarSyncReport {
    pub calendar_id: String,
    pub fetched: usize,
    pub created: usize,
    pub updated: usize,
    pub deleted: usize,
    pub skipped: usize,
    pub exported_created: usize,
    pub exported_updated: usize,
    pub next_sync_token: Option<String>,
}

/// How applying one event ended.
#[derive(PartialEq, Eq, Structural, Clone, Copy, Debug)]
pub enum EventApplied {
    Skipped,
    /// A cancelled event; `true` when a node was deleted.
    Cancelled(bool),
    Created,
    Updated,
}

/// How many of `applied` satisfy `p`.
pub open spec fn count_applied(applied: Seq<EventApplied>, p: spec_fn(EventApplied) -> bool) -> nat
    decreases applied.len(),
{
    if applied.len() == 0 {
        0
    } else {
        count_applied(applied.drop_last(), p) + if p(applied.last()) { 1nat } else { 0nat }
    }
}

proof fn lemma_count_applied_le(applied: Seq<EventApplied>, p: spec_fn(EventApplied) -> bool)
    ensures
        count_applied(applied, p) <= applied.len(),
    decreases applied.len(),
{
    if applied.len() > 0 {
        lemma_count_applied_le(applied.drop_last(), p);
    }
}

/// The report of a sync that fetched `fetched` events, applied as `applied`
/// when importing is on (else all skipped), with the export counts and the
/// next sync token.
pub fn sync_report(
    calendar_id: String,
    fetched: usize,
    import_events: bool,
    applied: &Vec<EventApplied>,
    exported: (usize, usize),
    next_sync_token: Option<String>,
) -> (r: GoogleCalendarSyncReport)
    ensures
        r.calendar_id == calendar_id,
        r.fetched == fetched,
        r.next_sync_token == next_sync_token,
        r.exported_created == exported.0 && r.exported_updated == exported.1,
        !import_events ==> r.created == 0 && r.updated == 0 && r.deleted == 0 && r.skipped == fetched,
        import_events ==> r.created == count_applied(applied@, |a: EventApplied| a == EventApplied::Created),
        import_events ==> r.updated == count_applied(applied@, |a: EventApplied| a == EventApplied::Updated),
        import_events ==> r.deleted == count_applied(applied@, |a: EventApplied| a == EventApplied::Cancelled(true)),
        import_events ==> r.skipped == count_applied(applied@, |a: EventApplied| a == EventApplied::Skipped),
{
    let mut created: usize = 0;
    let mut updated: usize = 0;
    let mut deleted: usize = 0;
    let mut skipped: usize = 0;
    if import_events {
        let ghost pc = |a: EventApplied| a == EventApplied::Created;
        let ghost pu = |a: EventApplied| a == EventApplied::Updated;
        let ghost pd = |a: EventApplied| a == EventApplied::Cancelled(true);
        let ghost ps = |a: EventApplied| a == EventApplied::Skipped;
        let mut i: usize = 0;
        while i < applied.len()
            invariant
                i <= applied@.len(),
                created == count_applied(applied@.take(i as int), pc),
                updated == count_applied(applied@.take(i as int), pu),
                deleted == count_applied(applied@.take(i as int), pd),
                skipped == count_applied(applied@.take(i as int), ps),
                pc == (|a: EventApplied| a == EventApplied::Created),
                pu == (|a: EventApplied| a == EventApplied::Updated),
                pd == (|a: EventApplied| a == EventApplied::Cancelled(true)),
                ps == (|a: EventApplied| a == EventApplied::Skipped),
            decreases applied.len() - i,
        {
            proof {
                let t = applied@.take(i + 1);
                assert(t.drop_last() =~= applied@.take(i as int));
                assert(t.last() == applied@[i as int]);
                lemma_count_applied_le(applied@.take(i as int), pc);
                lemma_count_applied_le(applied@.take(i as int), pu);
                lemma_count_applied_le(applied@.take(i as int), pd);
                lemma_count_applied_le(applied@.take(i as int), ps);
            }
            match applied[i] {
                EventApplied::Created => created += 1,
                EventApplied::Updated => updated += 1,
                EventApplied::Cancelled(true) => deleted += 1,
                EventApplied::Cancelled(false) => {},
                EventApplied::Skipped => skipped += 1,
            }
            i += 1;
        }
        proof { assert(applied@.take(applied@.len() as int) =~= applied@); }
    } else {
        skipped = fetched;
    }
    GoogleCalendarSyncReport {
        calendar_id,
        fetched,
        created,
        updated,
        deleted,
        skipped,
        exported_created: exported.0,
        exported_updated: exported.1,
        next_sync_token,
    }
}

/// What exporting a vault event to Google Calendar does.
#[derive(PartialEq, Eq, Structural, Clone, Copy, Debug)]
pub enum ExportAction {
    /// Its start or end is missing or not RFC 3339.
    Skip,
    /// It has a Google event id: update that event.
    Update,
    /// Create a Google event for it.
    Create,
}

/// Decides what exporting a vault event does, from whether its start and
/// end parse and whether it has a Google event id.
pub fn export_action(start_ok: bool, end_ok: bool, has_event_id: bool) -> (a: ExportAction)
    ensures
        a == (if !(start_ok && end_ok) { ExportAction::Skip } else if has_event_id { ExportAction::Update } else { ExportAction::Create }),
{
    if !(start_ok && end_ok) {
        ExportAction::Skip
    } else if has_event_id {
        ExportAction::Update
    } else {
        ExportAction::Create
    }
}

/// The summary of an exported event: the node's title, else
/// `MindVault Event`.
pub fn export_summary(title: Option<&str>) -> (out: String)
    ensures
        out@ == match title {
            Some(t) => t@,
            None => "MindVault Event"@,
        },
{
    match title {
        Some(t) => t.to_string(),
        None => "MindVault Event".to_string(),
    }
}


/// The tags of a node created for a calendar event.
pub fn calendar_event_tags() -> (tags: Vec<String>)
    ensures
        crate::obsidian::strings_view(tags@) == seq!["calendar"@, "google-calendar"@],
{
    let mut tags: Vec<String> = Vec::new();
    tags.push("calendar".to_string());
    tags.push("google-calendar".to_string());
    proof { assert(crate::obsidian::strings_view(tags@) =~= seq!["calendar"@, "google-calendar"@]); }
    tags
}

/// The metadata an event's node records, in order: its start and end as
/// RFC 3339 text, its event and calendar ids, and its update time and link
/// when the event has them. `None` when an instant has no RFC 3339 text.
pub open spec fn event_metadata_of(
    calendar_id: Seq<char>,
    event_id: Seq<char>,
    start: (i64, u32),
    end: (i64, u32),
    updated: Option<Seq<char>>,
    html_link: Option<Seq<char>>,
) -> Option<Seq<(Seq<char>, Seq<char>)>> {
    match (rfc3339_text(start.0, start.1), rfc3339_text(end.0, end.1)) {
        (Some(s), Some(e)) => {
            let base = seq![
                ("event_start_at"@, s),
                ("event_end_at"@, e),
                ("google_calendar_event_id"@, event_id),
                ("google_calendar_calendar_id"@, calendar_id),
            ];
            let with_updated = match updated {
                Some(u) => base.push(("google_calendar_updated_at"@, u)),
                None => base,
            };
            Some(match html_link {
                Some(l) => with_updated.push(("google_calendar_html_link"@, l)),
                None => with_updated,
            })
        },
        _ => None,
    }
}

/// The view of metadata entries.
pub open spec fn entries_view(v: Seq<(String, String)>) -> Seq<(Seq<char>, Seq<char>)> {
    v.map_values(|e: (String, String)| (e.0@, e.1@))
}

/// Builds the metadata of an event's node.
pub fn event_metadata(
    calendar_id: &str,
    event_id: &str,
    start: (i64, u32),
    end: (i64, u32),
    updated: Option<String>,
    html_link: Option<String>,
) -> (r: Option<Vec<(String, String)>>)
    ensures
        match r {
            Some(v) => event_metadata_of(calendar_id@, event_id@, start, end, crate::obsidian::opt_string_view(&updated), crate::obsidian::opt_string_view(&html_link)) == Some(entries_view(v@)),
            None => event_metadata_of(calendar_id@, event_id@, start, end, crate::obsidian::opt_string_view(&updated), crate::obsidian::opt_string_view(&html_link)) is None,
        },
{
    let s = match instant_rfc3339(start.0, start.1) {
        Some(s) => s,
        None => { return None; },
    };
    let e = match instant_rfc3339(end.0, end.1) {
        Some(e) => e,
        None => { return None; },
    };
    let mut v: Vec<(String, String)> = Vec::new();
    v.push(("event_start_at".to_string(), s));
    v.push(("event_end_at".to_string(), e));
    v.push(("google_calendar_event_id".to_string(), event_id.to_string()));
    v.push(("google_calendar_calendar_id".to_string(), calendar_id.to_string()));
    let ghost base = entries_view(v@);
    proof {
        assert(base =~= seq![
            ("event_start_at"@, s@),
            ("event_end_at"@, e@),
            ("google_calendar_event_id"@, event_id@),
            ("google_calendar_calendar_id"@, calendar_id@),
        ]);
    }
    let ghost after_updated = match crate::obsidian::opt_string_view(&updated) { Some(u) => base.push(("google_calendar_updated_at"@, u)), None => base };
    match updated {
        Some(u) => {
            v.push(("google_calendar_updated_at".to_string(), u));
            proof { assert(entries_view(v@) =~= after_updated); }
        },
        None => {},
    }
    match html_link {
        Some(l) => {
            let ghost before = entries_view(v@);
            v.push(("google_calendar_html_link".to_string(), l));
            proof { assert(entries_view(v@) =~= before.push(("google_calendar_html_link"@, l@))); }
        },
        None => {},
    }
    Some(v)
}

/// What a fetched event does: one without an id is skipped; a cancelled
/// event with an id deletes its node whether or not it has times; any
/// other event is stored when its times are readable and skipped when not.
pub proof fn lemma_event_actions(has_id: bool, status: Option<Seq<char>>, has_times: bool)
    ensures
        !has_id ==> event_action_of(has_id, status, has_times) == EventAction::Skip,
        has_id && status == Some(seq!['c', 'a', 'n', 'c', 'e', 'l', 'l', 'e', 'd'])
            ==> event_action_of(has_id, status, has_times) == EventAction::Delete,
        has_id && status != Some(seq!['c', 'a', 'n', 'c', 'e', 'l', 'l', 'e', 'd']) && has_times
            ==> event_action_of(has_id, status, has_times) == EventAction::Upsert,
        has_id && status != Some(seq!['c', 'a', 'n', 'c', 'e', 'l', 'l', 'e', 'd']) && !has_times
            ==> event_action_of(has_id, status, has_times) == EventAction::Skip,
{
    reveal_strlit("cancelled");
    assert("cancelled"@ =~= seq!['c', 'a', 'n', 'c', 'e', 'l', 'l', 'e', 'd']);
}

/// An event whose start is readable and which has no readable end lasts
/// 3600 seconds from its start; with a readable end it spans start to end;
/// without a readable start it has no span.
pub proof fn lemma_event_span_default_hour(
    start: Option<(Option<Seq<char>>, Option<Seq<char>>)>,
    end: Option<(Option<Seq<char>>, Option<Seq<char>>)>,
)
    ensures
        opt_instant(start) is None ==> event_span(start, end) is None,
        (opt_instant(start) is Some && opt_instant(end) is Some)
            ==> event_span(start, end) == Some((opt_instant(start)->0, opt_instant(end)->0)),
        (opt_instant(start) is Some && opt_instant(end) is None) ==> event_span(start, end) == (
            match instant_plus_seconds((opt_instant(start)->0).0, (opt_instant(start)->0).1, 3600) {
                Some(e) => Some((opt_instant(start)->0, e)),
                None => None,
            }),
{
}

/// The title of an event's node is its summary when that holds any
/// non-whitespace character, else `Google Calendar Event`; its content is
/// the description when that holds any non-whitespace character, else the
/// title.
pub proof fn lemma_event_text_fallbacks(summary: Seq<char>, description: Seq<char>, title: Seq<char>)
    ensures
        (exists|i: int| 0 <= i < summary.len() && !is_ws(#[trigger] summary[i])) ==> event_title_of(Some(summary)) == summary,
        (forall|i: int| 0 <= i < summary.len() ==> is_ws(#[trigger] summary[i])) ==> event_title_of(Some(summary)) == "Google Calendar Event"@,
        event_title_of(None) == "Google Calendar Event"@,
        (exists|i: int| 0 <= i < description.len() && !is_ws(#[trigger] description[i])) ==> event_content_of(Some(description), title) == description,
        (forall|i: int| 0 <= i < description.len() ==> is_ws(#[trigger] description[i])) ==> event_content_of(Some(description), title) == title,
        event_content_of(None, title) == title,
{
    lemma_trim_empty(summary);
    lemma_trim_empty(description);
}

/// The settings are accepted exactly when sync is enabled, the client id,
/// client secret and refresh token are all given and the calendar id holds
/// a non-whitespace character; the calendar id is then used trimmed.
pub proof fn lemma_settings_accepted(s: CalendarSettings)
    ensures
        settings_check(s) is Ok <==> (s.enabled && s.client_id is Some && s.client_secret is Some && s.refresh_token is Some
            && exists|i: int| 0 <= i < s.calendar_id@.len() && !is_ws(#[trigger] s.calendar_id@[i])),
        settings_check(s) is Ok ==> settings_check(s) == Ok::<Seq<char>, ErrorView>(trim(s.calendar_id@)),
        !s.enabled ==> settings_check(s) is Err,
{
    lemma_trim_empty(s.calendar_id@);
}

/// Every applied event is counted once: the created, updated, deleted and
/// skipped events and the cancelled ones that had no node together are all
/// the events.
pub proof fn lemma_applied_counts_partition(applied: Seq<EventApplied>)
    ensures
        count_applied(applied, |a: EventApplied| a == EventApplied::Created)
            + count_applied(applied, |a: EventApplied| a == EventApplied::Updated)
            + count_applied(applied, |a: EventApplied| a == EventApplied::Cancelled(true))
            + count_applied(applied, |a: EventApplied| a == EventApplied::Cancelled(false))
            + count_applied(applied, |a: EventApplied| a == EventApplied::Skipped) == applied.len(),
    decreases applied.len(),
{
    if applied.len() > 0 {
        lemma_applied_counts_partition(applied.drop_last());
    }
}

/// A sync resumes from the stored cursor without its surrounding
/// whitespace, and from scratch when no cursor is stored or it is blank.
pub proof fn lemma_cursor(stored: Seq<char>)
    ensures
        cursor_of(None) is None,
        (forall|i: int| 0 <= i < stored.len() ==> is_ws(#[trigger] stored[i])) ==> cursor_of(Some(stored)) is None,
        (exists|i: int| 0 <= i < stored.len() && !is_ws(#[trigger] stored[i])) ==> cursor_of(Some(stored)) == Some(trim(stored)),
{
    lemma_trim_empty(stored);
}

} // verus!
