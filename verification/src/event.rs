//! A class of the schedule as a calendar event, and its iCalendar text.

use vstd::prelude::*;
use crate::datetime::{ical_utc_text, push_ical_utc, utc_now, valid_utc, UtcDateTime};
use crate::text::{contains_seq, occurs_at, push_str};

verus! {

broadcast use vstd::string::group_string_axioms;

/// How a class differs from its regular slot.
#[derive(PartialEq, Eq, Debug)]
pub enum Changes {
    Normal,
    /// Taught by a substitute in place of the named instructor.
    Subbed(String),
    Cancelled,
}

/// The model of [`Changes`].
pub enum ChangesView {
    Normal,
    Subbed(Seq<char>),
    Cancelled,
}

impl View for Changes {
    type V = ChangesView;

    open spec fn view(&self) -> ChangesView {
        match self {
            Changes::Normal => ChangesView::Normal,
            Changes::Subbed(name) => ChangesView::Subbed(name@),
            Changes::Cancelled => ChangesView::Cancelled,
        }
    }
}

/// One class of the schedule. The times are instants, kept as their UTC fields.
#[derive(PartialEq, Eq, Debug)]
pub struct Event {
    pub start_datetime: UtcDateTime,
    pub end_datetime: UtcDateTime,
    pub title: String,
    pub description: String,
    pub changes: Changes,
    pub studio: String,
    pub category: String,
    pub branch: String,
    pub uid: Option<String>,
    pub stamp: Option<UtcDateTime>,
}

/// The model of [`Event`].
pub struct EventView {
    pub start: UtcDateTime,
    pub end: UtcDateTime,
    pub title: Seq<char>,
    pub description: Seq<char>,
    pub changes: ChangesView,
    pub studio: Seq<char>,
    pub category: Seq<char>,
    pub branch: Seq<char>,
    pub uid: Option<Seq<char>>,
    pub stamp: Option<UtcDateTime>,
}

pub open spec fn opt_string_view(o: Option<String>) -> Option<Seq<char>> {
    match o {
        Some(s) => Some(s@),
        None => None,
    }
}

impl View for Event {
    type V = EventView;

    open spec fn view(&self) -> EventView {
        EventView {
            start: self.start_datetime,
            end: self.end_datetime,
            title: self.title@,
            description: self.description@,
            changes: self.changes@,
            studio: self.studio@,
            category: self.category@,
            branch: self.branch@,
            uid: opt_string_view(self.uid),
            stamp: self.stamp,
        }
    }
}

pub open spec fn is_lower_hex(c: char) -> bool {
    ('0' <= c && c <= '9') || ('a' <= c && c <= 'f')
}

/// `s` is a random (version 4) UUID in lower-case hyphenated form.
pub open spec fn is_uuid_v4_text(s: Seq<char>) -> bool {
    &&& s.len() == 36
    &&& forall|i: int|
        0 <= i < 36 ==> if i == 8 || i == 13 || i == 18 || i == 23 {
            s[i] == '-'
        } else {
            is_lower_hex(#[trigger] s[i])
        }
    &&& s[14] == '4'
    &&& (s[19] == '8' || s[19] == '9' || s[19] == 'a' || s[19] == 'b')
}

/// Calls `uuid::Uuid::new_v4()` and renders it with `to_string`. Claimed:
/// the text is a version-4 UUID in lower-case hyphenated form; which one is
/// left open (it is random).
#[verifier::external_body]
fn new_uuid_v4() -> (s: String)
    ensures
        is_uuid_v4_text(s@),
{
    uuid::Uuid::new_v4().to_string()
}

/// `new` is `old` with a uid and a stamp: those already present are kept,
/// missing ones are a fresh version-4 UUID and a valid instant.
pub open spec fn populated_from(old: EventView, new: EventView) -> bool {
    &&& new == (EventView { uid: new.uid, stamp: new.stamp, ..old })
    &&& new.uid is Some
    &&& new.stamp is Some
    &&& old.uid is Some ==> new.uid == old.uid
    &&& old.uid is None ==> is_uuid_v4_text(new.uid->0)
    &&& old.stamp is Some ==> new.stamp == old.stamp
    &&& old.stamp is None ==> valid_utc(new.stamp->0)
}

/// The iCalendar text of a populated event.
pub open spec fn ical_text(v: EventView) -> Seq<char> {
    "BEGIN:VCALENDAR\nVERSION:2.0\nPRODID:-//Ycal//Ycal//EN\nBEGIN:VEVENT\nUID:"@ + v.uid->0
        + "\nDTSTAMP:"@ + ical_utc_text(v.stamp->0) + "\nDTSTART:"@ + ical_utc_text(v.start)
        + "\nDTEND:"@ + ical_utc_text(v.end) + "\nSUMMARY:"@ + v.title + "\nDESCRIPTION:"@
        + v.description + "\nEND:VEVENT\nEND:VCALENDAR"@
}

/// The iCalendar text of an event is the fixed calendar header followed by
/// the event's uid and stamp line, holds the start, end, title and
/// description each whole on its own line between the lines that precede
/// and follow it, and ends with the description and the closing lines.
pub proof fn lemma_ical_text_lines(v: EventView)
    ensures
        ({
            let head = "BEGIN:VCALENDAR\nVERSION:2.0\nPRODID:-//Ycal//Ycal//EN\nBEGIN:VEVENT\nUID:"@
                + v.uid->0 + "\nDTSTAMP:"@;
            ical_text(v).take(head.len() as int) == head
        }),
        contains_seq(ical_text(v), "\nDTSTAMP:"@ + ical_utc_text(v.stamp->0) + "\nDTSTART:"@),
        contains_seq(ical_text(v), "\nDTSTART:"@ + ical_utc_text(v.start) + "\nDTEND:"@),
        contains_seq(ical_text(v), "\nDTEND:"@ + ical_utc_text(v.end) + "\nSUMMARY:"@),
        contains_seq(ical_text(v), "\nSUMMARY:"@ + v.title + "\nDESCRIPTION:"@),
        ({
            let tail = "\nDESCRIPTION:"@ + v.description + "\nEND:VEVENT\nEND:VCALENDAR"@;
            ical_text(v).skip(ical_text(v).len() - tail.len()) == tail
        }),
{
    lemma_ical_head(v);
    lemma_ical_tail(v);
    let h = "BEGIN:VCALENDAR\nVERSION:2.0\nPRODID:-//Ycal//Ycal//EN\nBEGIN:VEVENT\nUID:"@;
    let a = "\nDTSTAMP:"@;
    let b = "\nDTSTART:"@;
    let c = "\nDTEND:"@;
    let d = "\nSUMMARY:"@;
    let f = "\nDESCRIPTION:"@;
    let g = "\nEND:VEVENT\nEND:VCALENDAR"@;
    let uid = v.uid->0;
    let st = ical_utc_text(v.stamp->0);
    let s = ical_utc_text(v.start);
    let e = ical_utc_text(v.end);
    let t = v.title;
    let ds = v.description;
    // stamp line
    lemma_window(h + uid, a, st, b);
    lemma_contains_extend(h + uid + a + st + b, a + st + b, s);
    lemma_contains_extend(h + uid + a + st + b + s, a + st + b, c);
    lemma_contains_extend(h + uid + a + st + b + s + c, a + st + b, e);
    lemma_contains_extend(h + uid + a + st + b + s + c + e, a + st + b, d);
    lemma_contains_extend(h + uid + a + st + b + s + c + e + d, a + st + b, t);
    lemma_contains_extend(h + uid + a + st + b + s + c + e + d + t, a + st + b, f);
    lemma_contains_extend(h + uid + a + st + b + s + c + e + d + t + f, a + st + b, ds);
    lemma_contains_extend(h + uid + a + st + b + s + c + e + d + t + f + ds, a + st + b, g);
    // start line
    lemma_window(h + uid + a + st, b, s, c);
    lemma_contains_extend(h + uid + a + st + b + s + c, b + s + c, e);
    lemma_contains_extend(h + uid + a + st + b + s + c + e, b + s + c, d);
    lemma_contains_extend(h + uid + a + st + b + s + c + e + d, b + s + c, t);
    lemma_contains_extend(h + uid + a + st + b + s + c + e + d + t, b + s + c, f);
    lemma_contains_extend(h + uid + a + st + b + s + c + e + d + t + f, b + s + c, ds);
    lemma_contains_extend(h + uid + a + st + b + s + c + e + d + t + f + ds, b + s + c, g);
    // end line
    lemma_window(h + uid + a + st + b + s, c, e, d);
    lemma_contains_extend(h + uid + a + st + b + s + c + e + d, c + e + d, t);
    lemma_contains_extend(h + uid + a + st + b + s + c + e + d + t, c + e + d, f);
    lemma_contains_extend(h + uid + a + st + b + s + c + e + d + t + f, c + e + d, ds);
    lemma_contains_extend(h + uid + a + st + b + s + c + e + d + t + f + ds, c + e + d, g);
    // summary line
    lemma_window(h + uid + a + st + b + s + c + e, d, t, f);
    lemma_contains_extend(h + uid + a + st + b + s + c + e + d + t + f, d + t + f, ds);
    lemma_contains_extend(h + uid + a + st + b + s + c + e + d + t + f + ds, d + t + f, g);
}

/// Three consecutive parts at the end of a concatenation occur in it.
proof fn lemma_window(x: Seq<char>, y1: Seq<char>, y2: Seq<char>, y3: Seq<char>)
    ensures
        contains_seq(x + y1 + y2 + y3, y1 + y2 + y3),
{
    let w = y1 + y2 + y3;
    let t = x + y1 + y2 + y3;
    assert(t.subrange(x.len() as int, (x.len() + w.len()) as int) =~= w);
    assert(occurs_at(t, w, x.len() as int));
}

/// What occurs in `t` occurs in `t` with more appended.
proof fn lemma_contains_extend(t: Seq<char>, w: Seq<char>, z: Seq<char>)
    requires
        contains_seq(t, w),
    ensures
        contains_seq(t + z, w),
{
    let k = choose|k: int| occurs_at(t, w, k);
    assert((t + z).subrange(k, k + w.len()) =~= t.subrange(k, k + w.len()));
    assert(occurs_at(t + z, w, k));
}

#[verifier::rlimit(40)]
proof fn lemma_ical_head(v: EventView)
    ensures
        ({
            let head = "BEGIN:VCALENDAR\nVERSION:2.0\nPRODID:-//Ycal//Ycal//EN\nBEGIN:VEVENT\nUID:"@
                + v.uid->0 + "\nDTSTAMP:"@;
            ical_text(v).take(head.len() as int) == head
        }),
{
    let head = "BEGIN:VCALENDAR\nVERSION:2.0\nPRODID:-//Ycal//Ycal//EN\nBEGIN:VEVENT\nUID:"@
        + v.uid->0 + "\nDTSTAMP:"@;
    assert(ical_text(v).take(head.len() as int) =~= head);
}

#[verifier::rlimit(40)]
proof fn lemma_ical_tail(v: EventView)
    ensures
        ({
            let tail = "\nDESCRIPTION:"@ + v.description + "\nEND:VEVENT\nEND:VCALENDAR"@;
            ical_text(v).skip(ical_text(v).len() - tail.len()) == tail
        }),
{
    let tail = "\nDESCRIPTION:"@ + v.description + "\nEND:VEVENT\nEND:VCALENDAR"@;
    assert(ical_text(v).skip(ical_text(v).len() - tail.len()) =~= tail);
}

impl Event {
    pub fn new(
        start_datetime: UtcDateTime,
        end_datetime: UtcDateTime,
        title: &str,
        description: &str,
        changes: Changes,
        studio: &str,
        category: &str,
        branch: &str,
        uid: Option<String>,
        stamp: Option<UtcDateTime>,
    ) -> (e: Event)
        ensures
            e@ == (EventView {
                start: start_datetime,
                end: end_datetime,
                title: title@,
                description: description@,
                changes: changes@,
                studio: studio@,
                category: category@,
                branch: branch@,
                uid: opt_string_view(uid),
                stamp: stamp,
            }),
    {
        Event {
            start_datetime,
            end_datetime,
            title: title.to_string(),
            description: description.to_string(),
            changes,
            studio: studio.to_string(),
            category: category.to_string(),
            branch: branch.to_string(),
            uid,
            stamp,
        }
    }

    /// Gives the event a uid and a stamp where it has none: a fresh random
    /// UUID and the current time.
    pub fn populate(&mut self)
        ensures
            populated_from(old(self)@, final(self)@),
    {
        if self.uid.is_none() {
            self.uid = Some(new_uuid_v4());
        }
        if self.stamp.is_none() {
            self.stamp = Some(utc_now());
        }
    }

    /// Populates the event, then renders it as an iCalendar document.
    pub fn to_ical_str(&mut self) -> (s: String)
        ensures
            populated_from(old(self)@, final(self)@),
            s@ == ical_text(final(self)@),
    {
        self.populate();
        let mut s = String::new();
        push_str(&mut s, "BEGIN:VCALENDAR\nVERSION:2.0\nPRODID:-//Ycal//Ycal//EN\nBEGIN:VEVENT\nUID:");
        match &self.uid {
            Some(u) => push_str(&mut s, u.as_str()),
            None => {},
        }
        push_str(&mut s, "\nDTSTAMP:");
        match &self.stamp {
            Some(t) => push_ical_utc(&mut s, t),
            None => {},
        }
        push_str(&mut s, "\nDTSTART:");
        push_ical_utc(&mut s, &self.start_datetime);
        push_str(&mut s, "\nDTEND:");
        push_ical_utc(&mut s, &self.end_datetime);
        push_str(&mut s, "\nSUMMARY:");
        push_str(&mut s, self.title.as_str());
        push_str(&mut s, "\nDESCRIPTION:");
        push_str(&mut s, self.description.as_str());
        push_str(&mut s, "\nEND:VEVENT\nEND:VCALENDAR");
        s
    }
}

/// Populating a populated event changes nothing.
pub proof fn lemma_populate_idempotent(a: EventView, b: EventView, c: EventView)
    requires
        populated_from(a, b),
        populated_from(b, c),
    ensures
        c == b,
{
}

} // verus!
