//! The gym's class schedule: reading its rows into events, telling
//! substitutions and cancellations apart, and the address it is fetched from.

use vstd::prelude::*;
use vstd::utf8::{decode_utf8, valid_utf8};
use base64::Engine;
use crate::datetime::{
    chrono_naive_parse, eastern_local_to_utc, eastern_to_utc, naive_parse, unix_seconds, Date,
    LocalDateTime, UtcDateTime,
};
use crate::event::{Changes, ChangesView, Event, EventView};
use crate::json::{json_str_at, json_text_at, str_at, text_at, JsonValue};
use crate::text::{
    chars_of, contains, contains_seq, find, first_index, occurs_at,
    push_char, push_str, signed_decimal, string_of,
};

verus! {

broadcast use vstd::string::group_string_axioms;

/// Why a schedule row could not be read as an event.
#[derive(Clone, Copy, Debug, PartialEq, Eq, Structural)]
pub enum ScheduleError {
    /// The schedule data is not an array of rows.
    NotAnArray,
    /// Cell 1, the time range, is not a string.
    MissingTimeRange,
    /// The time range holds no `-`.
    InvalidTimeRange,
    /// Date and time do not read as `Weekday, Month day, year hour:minute[am|pm]`.
    InvalidDateTime,
    /// Date and time name no single US/Eastern instant.
    NotSingleLocalTime,
    /// Cell 3, the class details, is not a string.
    MissingDetails,
    /// Cell 10 is not standard base64.
    InvalidBase64,
    /// The decoded description is not UTF-8.
    InvalidUtf8,
}

/// The strftime format of the schedule's dates and times.
pub const SCHEDULE_FORMAT: &'static str = "%A, %B %d, %Y %I:%M%p";

// ---------------------------------------------------------------------------
// Substitutions and cancellations

/// `(sub for `
pub open spec fn sub_for_open() -> Seq<char> {
    seq!['(', 's', 'u', 'b', ' ', 'f', 'o', 'r', ' ']
}

/// The index of the first newline at or after `k`, or the length of `t`.
pub open spec fn line_end(t: Seq<char>, k: int) -> int
    decreases t.len() - k,
{
    if k < 0 || k >= t.len() {
        t.len() as int
    } else if t[k] == '\n' {
        k
    } else {
        line_end(t, k + 1)
    }
}

/// The index of the last `)` in `t[k..e]`.
pub open spec fn last_close_paren(t: Seq<char>, k: int, e: int) -> Option<int>
    decreases e - k,
{
    if e <= k {
        None
    } else if t[e - 1] == ')' {
        Some(e - 1)
    } else {
        last_close_paren(t, k, e - 1)
    }
}

/// Where the `)` ends a match of `\(sub for (.*)\)` that starts at `i`: the
/// last `)` before the line ends (`.` matches no newline, and `.*` is greedy).
pub open spec fn sub_for_close(t: Seq<char>, i: int) -> Option<int> {
    if occurs_at(t, sub_for_open(), i) {
        last_close_paren(t, i + 9, line_end(t, i + 9))
    } else {
        None
    }
}

/// The leftmost start at or after `k` of a match of `\(sub for (.*)\)`.
pub open spec fn first_sub_for_from(t: Seq<char>, k: int) -> Option<int>
    decreases t.len() + 1 - k,
{
    if k < 0 || k > t.len() {
        None
    } else if sub_for_close(t, k) is Some {
        Some(k)
    } else {
        first_sub_for_from(t, k + 1)
    }
}

/// Capture group 1 of the leftmost match of `\(sub for (.*)\)` in `t`.
pub open spec fn sub_for_capture(t: Seq<char>) -> Option<Seq<char>> {
    match first_sub_for_from(t, 0) {
        Some(i) => Some(t.subrange(i + 9, sub_for_close(t, i)->0)),
        None => None,
    }
}

/// Compiles the regex `\(sub for (.*)\)` with the `regex` crate and returns
/// capture group 1 of its first match in `details`. Claimed: that group is
/// `sub_for_capture(details@)` — leftmost match, greedy `.*` that matches no
/// newline — and there is none exactly when that is `None`.
#[verifier::external_body]
fn capture_sub_for(details: &str) -> (r: Option<String>)
    ensures
        match r {
            Some(s) => sub_for_capture(details@) == Some(s@),
            None => sub_for_capture(details@) is None,
        },
{
    let re = regex::Regex::new(r"\(sub for (.*)\)").unwrap();
    match re.captures(details) {
        Some(c) => Some(c[1].to_string()),
        None => None,
    }
}

/// The change a class's details announce: cancelled when they say
/// `CANCELED` or `CANCELLED`, else subbed when they hold `(sub for NAME)`.
pub open spec fn changes_of(details: Seq<char>) -> ChangesView {
    if contains_seq(details, "CANCELED"@) || contains_seq(details, "CANCELLED"@) {
        ChangesView::Cancelled
    } else {
        match sub_for_capture(details) {
            Some(name) => ChangesView::Subbed(name),
            None => ChangesView::Normal,
        }
    }
}

/// Reads the change of a schedule row from its details (cell 3).
pub fn detect_changes(json: &JsonValue) -> (c: Changes)
    requires
        json_str_at(*json, 3) is Some,
    ensures
        c@ == changes_of(json_str_at(*json, 3)->0),
{
    let details = match str_at(json, 3) {
        Some(d) => d,
        None => return Changes::Normal,
    };
    let t = chars_of(details.as_str());
    let canceled = chars_of("CANCELED");
    let cancelled = chars_of("CANCELLED");
    if contains(&t, &canceled) || contains(&t, &cancelled) {
        return Changes::Cancelled;
    }
    match capture_sub_for(details.as_str()) {
        Some(instructor) => Changes::Subbed(instructor),
        None => Changes::Normal,
    }
}

// ---------------------------------------------------------------------------
// Reading a row

/// The first two pieces of `r.split("-")`, when there are two.
pub open spec fn time_range_parts(r: Seq<char>) -> Option<(Seq<char>, Seq<char>)> {
    match first_index(r, seq!['-']) {
        None => None,
        Some(i) => {
            let rest = r.skip(i + 1);
            match first_index(rest, seq!['-']) {
                Some(j) => Some((r.take(i), rest.take(j))),
                None => Some((r.take(i), rest)),
            }
        },
    }
}

/// The instant of a schedule date and time, read in US/Eastern.
pub open spec fn schedule_instant(date: Seq<char>, time: Seq<char>) -> Result<UtcDateTime, ScheduleError> {
    match chrono_naive_parse(date + seq![' '] + time, SCHEDULE_FORMAT@) {
        None => Err(ScheduleError::InvalidDateTime),
        Some(n) => match eastern_local_to_utc(n) {
            None => Err(ScheduleError::NotSingleLocalTime),
            Some(t) => Ok(t),
        },
    }
}

/// `s` without a trailing `p`.
pub open spec fn strip_suffix_text(s: Seq<char>, p: Seq<char>) -> Seq<char> {
    if p.len() <= s.len() && s.skip(s.len() - p.len()) == p {
        s.take(s.len() - p.len())
    } else {
        s
    }
}

/// What the `base64` crate's standard engine (padded, standard alphabet)
/// decodes from a text, or `None` when it rejects it.
pub uninterp spec fn base64_standard_decode(text: Seq<char>) -> Option<Seq<u8>>;

#[verifier::external_type_specification]
#[verifier::external_body]
pub struct ExDecodeError(base64::DecodeError);

/// Calls `BASE64_STANDARD.decode(text)`. Claimed: the result is `Ok` exactly
/// when `base64_standard_decode` is `Some`, and then holds those bytes.
#[verifier::external_body]
fn decode_base64(text: &str) -> (r: Result<Vec<u8>, base64::DecodeError>)
    ensures
        (r is Ok) == (base64_standard_decode(text@) is Some),
        r matches Ok(v) ==> base64_standard_decode(text@) == Some(v@),
{
    base64::prelude::BASE64_STANDARD.decode(text)
}

#[verifier::external_type_specification]
#[verifier::external_body]
pub struct ExFromUtf8Error(std::string::FromUtf8Error);

/// Calls std's `String::from_utf8`. Claimed: `Ok` exactly when the bytes are
/// valid UTF-8, and then the text they encode.
#[verifier::external_body]
fn string_from_utf8(bytes: Vec<u8>) -> (r: Result<String, std::string::FromUtf8Error>)
    ensures
        (r is Ok) == valid_utf8(bytes@),
        r matches Ok(s) ==> s@ == decode_utf8(bytes@),
{
    String::from_utf8(bytes)
}

/// The event a schedule row describes: cell 0 the date, 1 the time range,
/// 2 the title, 3 the details, 4 the studio, 5 the category, 8 the branch,
/// 10 the base64 description.
pub open spec fn schedule_event(json: JsonValue) -> Result<EventView, ScheduleError> {
    match json_str_at(json, 1) {
        None => Err(ScheduleError::MissingTimeRange),
        Some(range) => match time_range_parts(range) {
            None => Err(ScheduleError::InvalidTimeRange),
            Some(parts) => match schedule_instant(json_text_at(json, 0), parts.0) {
                Err(e) => Err(e),
                Ok(start) => match schedule_instant(json_text_at(json, 0), parts.1) {
                    Err(e) => Err(e),
                    Ok(end) => match json_str_at(json, 3) {
                        None => Err(ScheduleError::MissingDetails),
                        Some(details) => match base64_standard_decode(json_text_at(json, 10)) {
                            None => Err(ScheduleError::InvalidBase64),
                            Some(bytes) => if !valid_utf8(bytes) {
                                Err(ScheduleError::InvalidUtf8)
                            } else {
                                Ok(
                                    EventView {
                                        start,
                                        end,
                                        title: json_text_at(json, 2),
                                        description: decode_utf8(bytes),
                                        changes: changes_of(details),
                                        studio: strip_suffix_text(json_text_at(json, 4), "&nbsp;"@),
                                        category: json_text_at(json, 5),
                                        branch: json_text_at(json, 8),
                                        uid: None,
                                        stamp: None,
                                    },
                                )
                            },
                        },
                    },
                },
            },
        },
    }
}

/// What a readable row gives: the class's start and end are the US/Eastern
/// instants of the date (cell 0) with the times before the first `-` of the
/// time range (cell 1) and between its first and second `-`; the change is
/// read from the details (cell 3) — cancelled when they say `CANCELED` or
/// `CANCELLED`, else subbed for the name captured after `(sub for `, else
/// normal; the title, category and branch are cells 2, 5 and 8; the studio is
/// cell 4 with a trailing `&nbsp;` dropped; the description is the UTF-8
/// text that cell 10 holds in base64; and there is no uid or stamp yet.
pub proof fn lemma_schedule_event_fields(json: JsonValue)
    ensures
        schedule_event(json) matches Ok(e) ==> {
            let date = json_text_at(json, 0);
            let range = json_str_at(json, 1)->0;
            let d = json_str_at(json, 3)->0;
            let s4 = json_text_at(json, 4);
            let nbsp = "&nbsp;"@;
            &&& json_str_at(json, 1) is Some
            &&& json_str_at(json, 3) is Some
            &&& first_index(range, seq!['-']) matches Some(i) && {
                let rest = range.skip(i + 1);
                let end_time = match first_index(rest, seq!['-']) {
                    Some(j) => rest.take(j),
                    None => rest,
                };
                &&& chrono_naive_parse(date + seq![' '] + range.take(i), SCHEDULE_FORMAT@) matches Some(n)
                    && eastern_local_to_utc(n) == Some(e.start)
                &&& chrono_naive_parse(date + seq![' '] + end_time, SCHEDULE_FORMAT@) matches Some(n)
                    && eastern_local_to_utc(n) == Some(e.end)
            }
            &&& (contains_seq(d, "CANCELED"@) || contains_seq(d, "CANCELLED"@)) ==> e.changes
                == ChangesView::Cancelled
            &&& !(contains_seq(d, "CANCELED"@) || contains_seq(d, "CANCELLED"@)) ==> e.changes
                == (match sub_for_capture(d) {
                Some(name) => ChangesView::Subbed(name),
                None => ChangesView::Normal,
            })
            &&& e.title == json_text_at(json, 2)
            &&& e.category == json_text_at(json, 5)
            &&& e.branch == json_text_at(json, 8)
            &&& if nbsp.len() <= s4.len() && s4.skip(s4.len() - nbsp.len()) == nbsp {
                e.studio + nbsp == s4
            } else {
                e.studio == s4
            }
            &&& base64_standard_decode(json_text_at(json, 10)) matches Some(b) && valid_utf8(b)
                && e.description == decode_utf8(b)
            &&& e.uid is None
            &&& e.stamp is None
        },
{
    if schedule_event(json) is Ok {
        let s4 = json_text_at(json, 4);
        let nbsp = "&nbsp;"@;
        if nbsp.len() <= s4.len() && s4.skip(s4.len() - nbsp.len()) == nbsp {
            assert(s4.take(s4.len() - nbsp.len()) + nbsp =~= s4);
        }
    }
}

pub open spec fn schedule_result_view(r: Result<Event, ScheduleError>) -> Result<EventView, ScheduleError> {
    match r {
        Ok(e) => Ok(e@),
        Err(x) => Err(x),
    }
}

/// `s` without a trailing `p`.
pub fn strip_suffix(s: &str, p: &str) -> (r: String)
    ensures
        r@ == strip_suffix_text(s@, p@),
{
    let t = chars_of(s);
    let q = chars_of(p);
    if q.len() <= t.len() && crate::text::matches_at(&t, &q, t.len() - q.len()) {
        assert(t@.subrange(t@.len() - q@.len(), t@.len() as int) =~= t@.skip(t@.len() - q@.len()));
        let r = string_of(&t, 0, t.len() - q.len());
        assert(t@.subrange(0, t@.len() - q@.len()) =~= t@.take(t@.len() - q@.len()));
        r
    } else {
        proof {
            if q@.len() <= t@.len() {
                assert(t@.subrange(t@.len() - q@.len(), t@.len() as int) =~= t@.skip(t@.len() - q@.len()));
            }
        }
        let r = string_of(&t, 0, t.len());
        assert(t@.subrange(0, t@.len() as int) =~= t@);
        r
    }
}

fn split_time_range(range: &String) -> (r: Option<(String, String)>)
    ensures
        match r {
            Some(p) => time_range_parts(range@) == Some((p.0@, p.1@)),
            None => time_range_parts(range@) is None,
        },
{
    let t = chars_of(range.as_str());
    let dash = vec!['-'];
    assert(dash@ == seq!['-']);
    match find(&t, &dash) {
        None => None,
        Some(i) => {
            proof {
                crate::text::lemma_first_index_from(t@, dash@, 0);
            }
            assert(occurs_at(t@, dash@, i as int));
            let ghost rest = t@.skip(i + 1);
            let first = string_of(&t, 0, i);
            assert(t@.subrange(0, i as int) =~= t@.take(i as int));
            assert(i + 1 <= t@.len());
            assert(t@.len() == t.len());
            let rest_chars: Vec<char> = chars_of(string_of(&t, i + 1, t.len()).as_str());
            assert(rest_chars@ =~= rest);
            match find(&rest_chars, &dash) {
                Some(j) => {
                    proof {
                        crate::text::lemma_first_index_from(rest, dash@, 0);
                    }
                    assert(occurs_at(rest, dash@, j as int));
                    let second = string_of(&rest_chars, 0, j);
                    assert(rest.subrange(0, j as int) =~= rest.take(j as int));
                    Some((first, second))
                },
                None => {
                    let second = string_of(&rest_chars, 0, rest_chars.len());
                    assert(rest.subrange(0, rest.len() as int) =~= rest);
                    Some((first, second))
                },
            }
        },
    }
}

fn read_schedule_instant(date: &String, time: &String) -> (r: Result<UtcDateTime, ScheduleError>)
    ensures
        r == schedule_instant(date@, time@),
{
    let mut text = date.clone();
    push_char(&mut text, ' ');
    push_str(&mut text, time.as_str());
    assert(text@ =~= date@ + seq![' '] + time@);
    match naive_parse(text.as_str(), SCHEDULE_FORMAT) {
        Err(_) => Err(ScheduleError::InvalidDateTime),
        Ok(n) => match eastern_to_utc(&n) {
            None => Err(ScheduleError::NotSingleLocalTime),
            Some(t) => Ok(t),
        },
    }
}

/// Reads one row of the schedule as an event without uid or stamp. A row
/// that cannot be read gives a `ScheduleError` naming the first step that
/// failed, where reading it would otherwise abort: the cells are checked in
/// the order the row is read.
pub fn parse_event(json: &JsonValue) -> (r: Result<Event, ScheduleError>)
    ensures
        schedule_result_view(r) == schedule_event(*json),
{
    let date = text_at(json, 0);
    let range = match str_at(json, 1) {
        Some(r) => r,
        None => return Err(ScheduleError::MissingTimeRange),
    };
    let (start_time, end_time) = match split_time_range(range) {
        Some(p) => p,
        None => return Err(ScheduleError::InvalidTimeRange),
    };
    let start_datetime = read_schedule_instant(&date, &start_time)?;
    let end_datetime = read_schedule_instant(&date, &end_time)?;
    let title = text_at(json, 2);
    if str_at(json, 3).is_none() {
        return Err(ScheduleError::MissingDetails);
    }
    let changes = detect_changes(json);
    let studio = text_at(json, 4);
    let category = text_at(json, 5);
    let branch = text_at(json, 8);
    let encoded = text_at(json, 10);
    let bytes = match decode_base64(encoded.as_str()) {
        Ok(b) => b,
        Err(_) => return Err(ScheduleError::InvalidBase64),
    };
    let description = match string_from_utf8(bytes) {
        Ok(d) => d,
        Err(_) => return Err(ScheduleError::InvalidUtf8),
    };
    let studio = strip_suffix(studio.as_str(), "&nbsp;");
    Ok(Event::new(
        start_datetime,
        end_datetime,
        title.as_str(),
        description.as_str(),
        changes,
        studio.as_str(),
        category.as_str(),
        branch.as_str(),
        None,
        None,
    ))
}

/// The events of the schedule's rows, in order; the first row that cannot
/// be read gives the error.
pub open spec fn events_of_rows(rows: Seq<JsonValue>) -> Result<Seq<EventView>, ScheduleError>
    decreases rows.len(),
{
    if rows.len() == 0 {
        Ok(seq![])
    } else {
        match schedule_event(rows[0]) {
            Err(e) => Err(e),
            Ok(e) => match events_of_rows(rows.drop_first()) {
                Ok(es) => Ok(seq![e] + es),
                Err(x) => Err(x),
            },
        }
    }
}

/// Row by row: when the rows can be read, there is one event per row, the
/// `k`-th being the event of the `k`-th row; when they cannot, the error is
/// that of the first row that cannot be read.
pub proof fn lemma_events_of_rows_rowwise(rows: Seq<JsonValue>)
    ensures
        events_of_rows(rows) matches Ok(es) ==> es.len() == rows.len() && forall|k: int|
            0 <= k < rows.len() ==> schedule_event(#[trigger] rows[k]) == Ok::<EventView, ScheduleError>(es[k]),
        (forall|k: int| 0 <= k < rows.len() ==> (#[trigger] schedule_event(rows[k])) is Ok)
            ==> events_of_rows(rows) is Ok,
        events_of_rows(rows) matches Err(x) ==> exists|k: int|
            0 <= k < rows.len() && schedule_event(#[trigger] rows[k]) == Err::<EventView, ScheduleError>(x)
                && forall|j: int| 0 <= j < k ==> (#[trigger] schedule_event(rows[j])) is Ok,
    decreases rows.len(),
{
    if rows.len() > 0 {
        let rest = rows.drop_first();
        lemma_events_of_rows_rowwise(rest);
        assert forall|k: int| 0 <= k < rest.len() implies #[trigger] rest[k] == rows[k + 1] by {}
        match schedule_event(rows[0]) {
            Ok(e) => {
                match events_of_rows(rest) {
                    Ok(es) => {
                        assert forall|k: int| 0 <= k < rows.len() implies schedule_event(#[trigger] rows[k])
                            == Ok::<EventView, ScheduleError>((seq![e] + es)[k]) by {
                            if k > 0 {
                                assert(rows[k] == rest[k - 1]);
                            }
                        }
                    },
                    Err(x) => {
                        let k = choose|k: int|
                            0 <= k < rest.len() && schedule_event(#[trigger] rest[k]) == Err::<EventView, ScheduleError>(x)
                                && forall|j: int| 0 <= j < k ==> (#[trigger] schedule_event(rest[j])) is Ok;
                        assert(rows[k + 1] == rest[k]);
                        assert forall|j: int| 0 <= j < k + 1 implies (#[trigger] schedule_event(rows[j])) is Ok by {
                            if j > 0 {
                                assert(rows[j] == rest[j - 1]);
                            }
                        }
                    },
                }
                if forall|k: int| 0 <= k < rows.len() ==> (#[trigger] schedule_event(rows[k])) is Ok {
                    assert forall|k: int| 0 <= k < rest.len() implies (#[trigger] schedule_event(rest[k])) is Ok by {
                        assert(rest[k] == rows[k + 1]);
                    }
                }
            },
            Err(x) => {},
        }
    }
}

/// The events of the schedule data, which must be an array of rows.
pub open spec fn schedule_events(data: JsonValue) -> Result<Seq<EventView>, ScheduleError> {
    match data {
        JsonValue::Array(rows) => events_of_rows(rows@),
        _ => Err(ScheduleError::NotAnArray),
    }
}

pub open spec fn schedule_events_view(r: Result<Vec<Event>, ScheduleError>) -> Result<Seq<EventView>, ScheduleError> {
    match r {
        Ok(v) => Ok(v@.map_values(|e: Event| e@)),
        Err(x) => Err(x),
    }
}

/// Reads every row of the schedule data. Data that is not an array, or a
/// row that cannot be read, gives an error in place of aborting.
pub fn parse_schedule(data: &JsonValue) -> (r: Result<Vec<Event>, ScheduleError>)
    ensures
        schedule_events_view(r) == schedule_events(*data),
{
    let rows = match data {
        JsonValue::Array(rows) => rows,
        _ => return Err(ScheduleError::NotAnArray),
    };
    let mut events: Vec<Event> = Vec::new();
    let mut i: usize = 0;
    assert(rows@.skip(0) =~= rows@);
    while i < rows.len()
        invariant
            i <= rows@.len(),
            schedule_events(*data) == events_of_rows(rows@),
            events_of_rows(rows@) == (match events_of_rows(rows@.skip(i as int)) {
                Ok(es) => Ok(events@.map_values(|e: Event| e@) + es),
                Err(x) => Err(x),
            }),
        decreases rows.len() - i,
    {
        assert(rows@.skip(i as int).drop_first() =~= rows@.skip(i + 1));
        assert(rows@.skip(i as int)[0] == rows@[i as int]);
        let e = parse_event(&rows[i])?;
        let ghost pre = events@.map_values(|e: Event| e@);
        events.push(e);
        assert(events@.map_values(|e: Event| e@) =~= pre.push(e@));
        proof {
            match events_of_rows(rows@.skip(i + 1)) {
                Ok(es) => {
                    assert(pre + (seq![e@] + es) =~= pre.push(e@) + es);
                },
                Err(x) => {},
            }
        }
        i = i + 1;
    }
    assert(events_of_rows(rows@.skip(i as int)) == Ok::<Seq<EventView>, ScheduleError>(seq![]));
    assert(events@.map_values(|e: Event| e@) + Seq::<EventView>::empty() =~= events@.map_values(|e: Event| e@));
    Ok(events)
}

// ---------------------------------------------------------------------------
// Where the schedule is fetched from

/// The schedule service's endpoint, with its fixed query parameters.
pub const SCHEDULE_ENDPOINT: &'static str = "https://groupexpro.com/schedule/embed/json_schedule.php?schedule=\n        &instructor_id=true";

/// The organisation the schedule belongs to.
pub const SCHEDULE_ORG: &'static str = "988";

/// The location (branch) whose classes are fetched.
pub const SCHEDULE_LOCATION: &'static str = "5962";

/// The address of the schedule between two Unix timestamps.
pub open spec fn schedule_url_text(start: int, end: int) -> Seq<char> {
    SCHEDULE_ENDPOINT@ + "&a="@ + SCHEDULE_ORG@ + "&location="@ + SCHEDULE_LOCATION@ + "&start="@
        + signed_decimal(start) + "&end="@ + signed_decimal(end)
}

/// Midnight of a date on the wall clock.
pub open spec fn local_midnight(d: Date) -> LocalDateTime {
    LocalDateTime { year: d.year, month: d.month, day: d.day, hour: 0, minute: 0, second: 0 }
}

/// The address of the schedule of a day: from and to the instant of the
/// day's US/Eastern midnight; `None` when that midnight names no single instant.
pub open spec fn schedule_url_for(d: Date) -> Option<Seq<char>> {
    match eastern_local_to_utc(local_midnight(d)) {
        Some(t) => Some(schedule_url_text(unix_seconds(t), unix_seconds(t))),
        None => None,
    }
}

/// The address the schedule of `date` is fetched from.
pub fn schedule_url(date: &Date) -> (r: Option<String>)
    ensures
        match r {
            Some(u) => schedule_url_for(*date) == Some(u@),
            None => schedule_url_for(*date) is None,
        },
{
    let midnight = LocalDateTime { year: date.year, month: date.month, day: date.day, hour: 0, minute: 0, second: 0 };
    let t = match eastern_to_utc(&midnight) {
        Some(t) => t,
        None => return None,
    };
    let ts = crate::datetime::unix_timestamp(&t);
    let mut u = String::new();
    push_str(&mut u, SCHEDULE_ENDPOINT);
    push_str(&mut u, "&a=");
    push_str(&mut u, SCHEDULE_ORG);
    push_str(&mut u, "&location=");
    push_str(&mut u, SCHEDULE_LOCATION);
    push_str(&mut u, "&start=");
    crate::text::push_signed_decimal(&mut u, ts);
    push_str(&mut u, "&end=");
    crate::text::push_signed_decimal(&mut u, ts);
    Some(u)
}

/// The schedule data's events are its rows' events: an array of rows that
/// can all be read gives one event per row, in order.
pub proof fn lemma_schedule_events_rowwise(data: JsonValue)
    ensures
        data matches JsonValue::Array(rows) ==> {
            &&& schedule_events(data) matches Ok(es) ==> es.len() == rows@.len() && forall|k: int|
                0 <= k < rows@.len() ==> schedule_event(#[trigger] rows@[k]) == Ok::<EventView, ScheduleError>(es[k])
            &&& (forall|k: int| 0 <= k < rows@.len() ==> (#[trigger] schedule_event(rows@[k])) is Ok)
                ==> schedule_events(data) is Ok
        },
        !(data is Array) ==> schedule_events(data) == Err::<Seq<EventView>, ScheduleError>(ScheduleError::NotAnArray),
{
    match data {
        JsonValue::Array(rows) => lemma_events_of_rows_rowwise(rows@),
        _ => {},
    }
}

} // verus!
