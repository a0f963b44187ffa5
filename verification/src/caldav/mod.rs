//! CalDAV: the server's parameters, the requests the library sends, the
//! iCalendar text it writes, and reading events back from what the server holds.

use vstd::prelude::*;
use crate::datetime::{
    ical_utc_text, is_last_date, next_day, push_ical_utc, utc_midnight, valid_date, Date,
    UtcDateTime,
};
use crate::event::{Event, EventView, populated_from};
use crate::text::{chars_of, push_char, push_str};

pub mod read;

verus! {

broadcast use vstd::string::group_string_axioms;

/// Where the calendar lives and how to log in.
#[derive(Debug)]
pub struct CaldavParams {
    pub protocol: String,
    pub url: String,
    pub user: String,
    pub pass: String,
    pub calendar: String,
}

/// `protocol://url/user/calendar/`
pub open spec fn cal_url_text(p: CaldavParams) -> Seq<char> {
    p.protocol@ + "://"@ + p.url@ + "/"@ + p.user@ + "/"@ + p.calendar@ + "/"@
}

/// `protocol://url/user/calendar/uid.ics`
pub open spec fn event_url_text(p: CaldavParams, uid: Seq<char>) -> Seq<char> {
    p.protocol@ + "://"@ + p.url@ + "/"@ + p.user@ + "/"@ + p.calendar@ + "/"@ + uid + ".ics"@
}

impl CaldavParams {
    pub fn new(protocol: &str, url: &str, user: &str, pass: &str, calendar: &str) -> (p: CaldavParams)
        ensures
            p.protocol@ == protocol@,
            p.url@ == url@,
            p.user@ == user@,
            p.pass@ == pass@,
            p.calendar@ == calendar@,
    {
        CaldavParams {
            protocol: protocol.to_string(),
            url: url.to_string(),
            user: user.to_string(),
            pass: pass.to_string(),
            calendar: calendar.to_string(),
        }
    }

    /// The URL of the calendar collection.
    pub fn cal_url(&self) -> (s: String)
        ensures
            s@ == cal_url_text(*self),
    {
        let mut s = String::new();
        push_str(&mut s, self.protocol.as_str());
        push_str(&mut s, "://");
        push_str(&mut s, self.url.as_str());
        push_str(&mut s, "/");
        push_str(&mut s, self.user.as_str());
        push_str(&mut s, "/");
        push_str(&mut s, self.calendar.as_str());
        push_str(&mut s, "/");
        s
    }

    /// The URL of the event with uid `event_uid` in the calendar.
    pub fn event_url(&self, event_uid: &str) -> (s: String)
        ensures
            s@ == event_url_text(*self, event_uid@),
    {
        let mut s = String::new();
        push_str(&mut s, self.protocol.as_str());
        push_str(&mut s, "://");
        push_str(&mut s, self.url.as_str());
        push_str(&mut s, "/");
        push_str(&mut s, self.user.as_str());
        push_str(&mut s, "/");
        push_str(&mut s, self.calendar.as_str());
        push_str(&mut s, "/");
        push_str(&mut s, event_uid);
        push_str(&mut s, ".ics");
        s
    }
}

impl Default for CaldavParams {
    fn default() -> (p: Self)
        ensures
            p.protocol@ == "https"@,
            p.url@ == "example.com"@,
            p.user@ == "user"@,
            p.pass@ == "pass"@,
            p.calendar@ == "cal"@,
    {
        CaldavParams {
            protocol: "https".to_string(),
            url: "example.com".to_string(),
            user: "user".to_string(),
            pass: "pass".to_string(),
            calendar: "cal".to_string(),
        }
    }
}

/// An event's URL is the calendar's URL followed by `uid.ics`.
pub proof fn lemma_event_url_extends_cal_url(p: CaldavParams, uid: Seq<char>)
    ensures
        event_url_text(p, uid) == cal_url_text(p) + uid + ".ics"@,
{
    assert(event_url_text(p, uid) =~= cal_url_text(p) + uid + ".ics"@);
}

/// The calendar's URL is built from the configured protocol, host, user and
/// calendar, in that order: it starts with the protocol followed by `://`
/// and ends with a `/`.
pub proof fn lemma_cal_url_parts(p: CaldavParams)
    ensures
        cal_url_text(p) == p.protocol@ + "://"@ + p.url@ + "/"@ + p.user@ + "/"@ + p.calendar@
            + "/"@,
        cal_url_text(p).take(p.protocol@.len() as int) == p.protocol@,
{
    assert(cal_url_text(p) =~= p.protocol@ + "://"@ + p.url@ + "/"@ + p.user@ + "/"@
        + p.calendar@ + "/"@);
    assert(cal_url_text(p).take(p.protocol@.len() as int) =~= p.protocol@);
}

/// An event's URL is built from the configured protocol, host, user,
/// calendar and the event's uid: it starts with the protocol followed by
/// `://` and ends with `uid.ics`.
pub proof fn lemma_event_url_parts(p: CaldavParams, uid: Seq<char>)
    ensures
        event_url_text(p, uid) == p.protocol@ + "://"@ + p.url@ + "/"@ + p.user@ + "/"@
            + p.calendar@ + "/"@ + uid + ".ics"@,
        event_url_text(p, uid).take(p.protocol@.len() as int) == p.protocol@,
{
    assert(event_url_text(p, uid) =~= p.protocol@ + "://"@ + p.url@ + "/"@ + p.user@ + "/"@
        + p.calendar@ + "/"@ + uid + ".ics"@);
    assert(event_url_text(p, uid).take(p.protocol@.len() as int) =~= p.protocol@);
}

/// The HTTP methods the library uses.
#[derive(Clone, Copy, Debug, PartialEq, Eq, Structural)]
pub enum HttpMethod {
    Get,
    Put,
    Delete,
}

/// A request for the CalDAV server, sent with HTTP basic authentication.
#[derive(Debug)]
pub struct HttpRequest {
    pub method: HttpMethod,
    pub url: String,
    pub headers: Vec<(String, String)>,
    pub body: Option<String>,
    pub user: String,
    pub pass: String,
}

pub open spec fn string_pairs(v: Seq<(String, String)>) -> Seq<(Seq<char>, Seq<char>)> {
    v.map_values(|p: (String, String)| (p.0@, p.1@))
}

/// The escaped form of one character of an iCalendar text value.
pub open spec fn escape_char(c: char) -> Seq<char> {
    if c == ',' {
        seq!['\\', ',']
    } else if c == ';' {
        seq!['\\', ';']
    } else if c == '\\' {
        seq!['\\', '\\']
    } else if c == '\n' {
        seq!['\\', 'n']
    } else {
        seq![c]
    }
}

/// `s` with every `,` `;` `\` and newline escaped by a backslash.
pub open spec fn escaped(s: Seq<char>) -> Seq<char>
    decreases s.len(),
{
    if s.len() == 0 {
        seq![]
    } else {
        escaped(s.drop_last()) + escape_char(s.last())
    }
}

/// Escapes a value for an iCalendar TEXT property.
pub fn escape_ical_value(value: &str) -> (escaped_value: String)
    ensures
        escaped_value@ == escaped(value@),
{
    let chars = chars_of(value);
    let mut out = String::new();
    let mut i: usize = 0;
    while i < chars.len()
        invariant
            i <= chars@.len(),
            chars@ == value@,
            out@ == escaped(chars@.take(i as int)),
        decreases chars.len() - i,
    {
        let c = chars[i];
        let ghost before = out@;
        if c == ',' {
            push_char(&mut out, '\\');
            push_char(&mut out, ',');
        } else if c == ';' {
            push_char(&mut out, '\\');
            push_char(&mut out, ';');
        } else if c == '\\' {
            push_char(&mut out, '\\');
            push_char(&mut out, '\\');
        } else if c == '\n' {
            push_char(&mut out, '\\');
            push_char(&mut out, 'n');
        } else {
            push_char(&mut out, c);
        }
        assert(chars@.take(i + 1).drop_last() =~= chars@.take(i as int));
        assert(out@ =~= before + escape_char(c));
        i = i + 1;
    }
    assert(chars@.take(chars@.len() as int) =~= chars@);
    out
}

/// Escaping works character by character: escaping two texts one after the
/// other gives the escaped form of the two joined.
pub proof fn lemma_escaped_append(a: Seq<char>, b: Seq<char>)
    ensures
        escaped(a + b) == escaped(a) + escaped(b),
    decreases b.len(),
{
    if b.len() == 0 {
        assert(a + b =~= a);
        assert(escaped(a) + escaped(b) =~= escaped(a));
    } else {
        assert((a + b).drop_last() =~= a + b.drop_last());
        assert((a + b).last() == b.last());
        lemma_escaped_append(a, b.drop_last());
        assert(escaped(a) + (escaped(b.drop_last()) + escape_char(b.last())) =~= (escaped(a)
            + escaped(b.drop_last())) + escape_char(b.last()));
    }
}

/// Escaped text holds no newline, so an escaped value stays on its content line.
pub proof fn lemma_escaped_has_no_newline(s: Seq<char>)
    ensures
        forall|i: int| 0 <= i < escaped(s).len() ==> escaped(s)[i] != '\n',
    decreases s.len(),
{
    if s.len() > 0 {
        lemma_escaped_has_no_newline(s.drop_last());
        let e = escape_char(s.last());
        let p = escaped(s.drop_last());
        assert(escaped(s) == p + e);
        assert forall|i: int| 0 <= i < escaped(s).len() implies escaped(s)[i] != '\n' by {
            if i < p.len() {
                assert(escaped(s)[i] == p[i]);
            } else {
                assert(escaped(s)[i] == e[i - p.len()]);
            }
        }
    }
}

/// The DESCRIPTION value written for an event: category and description,
/// escaped, joined by an escaped newline.
pub open spec fn description_value(category: Seq<char>, description: Seq<char>) -> Seq<char> {
    escaped(category) + seq!['\\', 'n'] + escaped(description)
}

/// The LOCATION value written for an event: studio and branch, escaped,
/// joined by an escaped comma and a space.
pub open spec fn location_value(studio: Seq<char>, branch: Seq<char>) -> Seq<char> {
    escaped(studio) + seq!['\\', ',', ' '] + escaped(branch)
}

/// The content lines (name, value) of the document stored for a populated event.
pub open spec fn caldav_lines(v: EventView) -> Seq<(Seq<char>, Seq<char>)> {
    seq![
        ("BEGIN"@, "VCALENDAR"@),
        ("VERSION"@, "2.0"@),
        ("PRODID"@, "-//Ycal//Ycal//EN"@),
        ("BEGIN"@, "VEVENT"@),
        ("UID"@, v.uid->0),
        ("DTSTAMP"@, ical_utc_text(v.stamp->0)),
        ("DTSTART"@, ical_utc_text(v.start)),
        ("DTEND"@, ical_utc_text(v.end)),
        ("SUMMARY"@, v.title),
        ("DESCRIPTION"@, description_value(v.category, v.description)),
        ("LOCATION"@, location_value(v.studio, v.branch)),
        ("END"@, "VEVENT"@),
        ("END"@, "VCALENDAR"@),
    ]
}

/// `name:value`
pub open spec fn content_line(l: (Seq<char>, Seq<char>)) -> Seq<char> {
    l.0 + seq![':'] + l.1
}

/// Content lines joined by newlines.
pub open spec fn render_lines(ls: Seq<(Seq<char>, Seq<char>)>) -> Seq<char>
    decreases ls.len(),
{
    if ls.len() == 0 {
        seq![]
    } else if ls.len() == 1 {
        content_line(ls[0])
    } else {
        render_lines(ls.drop_last()) + seq!['\n'] + content_line(ls.last())
    }
}

/// The iCalendar document stored on the server for a populated event.
pub open spec fn caldav_text(v: EventView) -> Seq<char> {
    render_lines(caldav_lines(v))
}

fn pair(name: &str, value: String) -> (p: (String, String))
    ensures
        p.0@ == name@,
        p.1@ == value@,
{
    (name.to_string(), value)
}

fn push_escaped(s: &mut String, value: &str)
    ensures
        final(s)@ == old(s)@ + escaped(value@),
{
    let e = escape_ical_value(value);
    push_str(s, e.as_str());
}

fn render(lines: &Vec<(String, String)>) -> (s: String)
    ensures
        s@ == render_lines(string_pairs(lines@)),
{
    let ghost ls = string_pairs(lines@);
    let mut s = String::new();
    let mut i: usize = 0;
    while i < lines.len()
        invariant
            i <= lines@.len(),
            ls == string_pairs(lines@),
            s@ == render_lines(ls.take(i as int)),
        decreases lines.len() - i,
    {
        let ghost before = s@;
        if i > 0 {
            push_char(&mut s, '\n');
        }
        push_str(&mut s, lines[i].0.as_str());
        push_char(&mut s, ':');
        push_str(&mut s, lines[i].1.as_str());
        assert(ls.take(i + 1).drop_last() =~= ls.take(i as int));
        assert(ls.take(i + 1).last() == ls[i as int]);
        if i > 0 {
            assert(s@ =~= render_lines(ls.take(i + 1)));
        } else {
            assert(s@ =~= render_lines(ls.take(i + 1)));
        }
        i = i + 1;
    }
    assert(ls.take(lines@.len() as int) =~= ls);
    s
}

/// The iCalendar document stored on the server for a populated event.
pub fn caldav_body(event: &Event) -> (s: String)
    requires
        event.uid is Some,
        event.stamp is Some,
    ensures
        s@ == caldav_text(event@),
{
    let mut lines: Vec<(String, String)> = Vec::new();
    lines.push(pair("BEGIN", "VCALENDAR".to_string()));
    lines.push(pair("VERSION", "2.0".to_string()));
    lines.push(pair("PRODID", "-//Ycal//Ycal//EN".to_string()));
    lines.push(pair("BEGIN", "VEVENT".to_string()));
    let uid = match &event.uid {
        Some(u) => u.clone(),
        None => String::new(),
    };
    assert(uid@ == event@.uid->0);
    lines.push(pair("UID", uid));
    let mut stamp = String::new();
    match &event.stamp {
        Some(t) => push_ical_utc(&mut stamp, t),
        None => {},
    }
    assert(stamp@ =~= ical_utc_text(event@.stamp->0));
    lines.push(pair("DTSTAMP", stamp));
    let mut start = String::new();
    push_ical_utc(&mut start, &event.start_datetime);
    assert(start@ =~= ical_utc_text(event@.start));
    lines.push(pair("DTSTART", start));
    let mut end = String::new();
    push_ical_utc(&mut end, &event.end_datetime);
    assert(end@ =~= ical_utc_text(event@.end));
    lines.push(pair("DTEND", end));
    lines.push(pair("SUMMARY", event.title.clone()));
    let mut description = String::new();
    push_escaped(&mut description, event.category.as_str());
    push_char(&mut description, '\\');
    push_char(&mut description, 'n');
    push_escaped(&mut description, event.description.as_str());
    assert(description@ =~= description_value(event@.category, event@.description));
    lines.push(pair("DESCRIPTION", description));
    let mut location = String::new();
    push_escaped(&mut location, event.studio.as_str());
    push_char(&mut location, '\\');
    push_char(&mut location, ',');
    push_char(&mut location, ' ');
    push_escaped(&mut location, event.branch.as_str());
    assert(location@ =~= location_value(event@.studio, event@.branch));
    lines.push(pair("LOCATION", location));
    lines.push(pair("END", "VEVENT".to_string()));
    lines.push(pair("END", "VCALENDAR".to_string()));
    assert(string_pairs(lines@) =~= caldav_lines(event@));
    render(&lines)
}

fn auth_request(
    params: &CaldavParams,
    method: HttpMethod,
    url: String,
    headers: Vec<(String, String)>,
    body: Option<String>,
) -> (r: HttpRequest)
    ensures
        r.method == method,
        r.url@ == url@,
        r.headers == headers,
        r.body == body,
        r.user@ == params.user@,
        r.pass@ == params.pass@,
{
    HttpRequest { method, url, headers, body, user: params.user.clone(), pass: params.pass.clone() }
}

/// Populates the event and builds the request that stores it on the server:
/// a PUT of its iCalendar document to the event's URL.
pub fn build_create_req(params: &CaldavParams, event: &mut Event) -> (r: HttpRequest)
    ensures
        populated_from(old(event)@, final(event)@),
        r.method == HttpMethod::Put,
        r.url@ == event_url_text(*params, final(event)@.uid->0),
        string_pairs(r.headers@) == seq![("Content-Type"@, "text/calendar"@)],
        r.body matches Some(b) && b@ == caldav_text(final(event)@),
        r.user@ == params.user@,
        r.pass@ == params.pass@,
{
    event.populate();
    let url = match &event.uid {
        Some(u) => params.event_url(u.as_str()),
        None => String::new(),
    };
    let body = caldav_body(event);
    let mut headers: Vec<(String, String)> = Vec::new();
    headers.push(pair("Content-Type", "text/calendar".to_string()));
    assert(string_pairs(headers@) =~= seq![("Content-Type"@, "text/calendar"@)]);
    auth_request(params, HttpMethod::Put, url, headers, Some(body))
}

/// Builds the request that deletes the event with uid `event_id`.
pub fn build_delete_req(params: &CaldavParams, event_id: &str) -> (r: HttpRequest)
    ensures
        r.method == HttpMethod::Delete,
        r.url@ == event_url_text(*params, event_id@),
        r.headers@.len() == 0,
        r.body is None,
        r.user@ == params.user@,
        r.pass@ == params.pass@,
{
    let url = params.event_url(event_id);
    auth_request(params, HttpMethod::Delete, url, Vec::new(), None)
}

pub const LIST_QUERY_HEAD: &'static str = r#"<?xml version="1.0" encoding="utf-8" ?>
          <C:calendar-query xmlns:D="DAV:"
               xmlns:C="urn:ietf:params:xml:ns:caldav">
           <D:prop>
             <D:getetag/>
             <C:calendar-data>
               <C:comp name="VCALENDAR">
                 <C:prop name="VERSION"/>
                 <C:comp name="VEVENT">
                   <C:prop name="SUMMARY"/>
                   <C:prop name="UID"/>
                   <C:prop name="DTSTART"/>
                   <C:prop name="DTEND"/>
                   <C:prop name="DURATION"/>
                   <C:prop name="RRULE"/>
                   <C:prop name="RDATE"/>
                   <C:prop name="EXRULE"/>
                   <C:prop name="EXDATE"/>
                   <C:prop name="RECURRENCE-ID"/>
                 </C:comp>
                 <C:comp name="VTIMEZONE"/>
               </C:comp>
             </C:calendar-data>
           </D:prop>
           <C:filter>
             <C:comp-filter name="VCALENDAR">
               <C:comp-filter name="VEVENT">
                 <C:time-range start=""#;

pub const LIST_QUERY_MIDDLE: &'static str = r#""
                               end=""#;

pub const LIST_QUERY_TAIL: &'static str = r#""/>
               </C:comp-filter>
             </C:comp-filter>
           </C:filter>
          </C:calendar-query>"#;

/// The calendar-query document asking for the events between `start` and `end`.
pub open spec fn list_query_text(start: UtcDateTime, end: UtcDateTime) -> Seq<char> {
    LIST_QUERY_HEAD@ + ical_utc_text(start) + LIST_QUERY_MIDDLE@ + ical_utc_text(end)
        + LIST_QUERY_TAIL@
}

/// Builds the request that lists the events of the UTC day `date`: a
/// calendar-query REPORT-style GET of the calendar collection.
pub fn build_list_req(params: &CaldavParams, date: &Date) -> (r: HttpRequest)
    requires
        valid_date(*date),
        !is_last_date(*date),
    ensures
        r.method == HttpMethod::Get,
        r.url@ == cal_url_text(*params),
        string_pairs(r.headers@) == seq![("Content-Type"@, "text/xml"@), ("Depth"@, "1"@)],
        r.body matches Some(b) && b@ == list_query_text(
            utc_midnight(*date),
            utc_midnight(crate::datetime::following_day(*date)),
        ),
        r.user@ == params.user@,
        r.pass@ == params.pass@,
{
    let start = Date { year: date.year, month: date.month, day: date.day };
    let end = match next_day(date) {
        Some(d) => d,
        None => start,
    };
    let mut body = String::new();
    push_str(&mut body, LIST_QUERY_HEAD);
    push_ical_utc(&mut body, &UtcDateTime { year: start.year, month: start.month, day: start.day, hour: 0, minute: 0, second: 0 });
    push_str(&mut body, LIST_QUERY_MIDDLE);
    push_ical_utc(&mut body, &UtcDateTime { year: end.year, month: end.month, day: end.day, hour: 0, minute: 0, second: 0 });
    push_str(&mut body, LIST_QUERY_TAIL);
    let mut headers: Vec<(String, String)> = Vec::new();
    headers.push(pair("Content-Type", "text/xml".to_string()));
    headers.push(pair("Depth", "1".to_string()));
    assert(string_pairs(headers@) =~= seq![("Content-Type"@, "text/xml"@), ("Depth"@, "1"@)]);
    auth_request(params, HttpMethod::Get, params.cal_url(), headers, Some(body))
}

} // verus!
