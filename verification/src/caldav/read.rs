//! Reading events back from the iCalendar text the server holds.

use vstd::prelude::*;
use crate::caldav::{caldav_lines, description_value, escape_char, escaped, location_value};
use crate::datetime::{
    chrono_naive_parse, eastern_local_to_utc, eastern_to_utc, ical_utc_text, naive_of,
    naive_parse, utc_of, UtcDateTime, ICAL_UTC_FORMAT,
};
use crate::event::{Changes, ChangesView, Event, EventView};
use crate::text::{
    chars_of, contains, contains_seq, find, find_from, first_index, first_index_from, occurs_at,
    str_eq, string_of,
};

verus! {

broadcast use vstd::string::group_string_axioms;

/// Why an iCalendar document could not be read as an event.
#[derive(Clone, Copy, Debug, PartialEq, Eq, Structural)]
pub enum IcalEventError {
    /// A content line is not `NAME[;PARAMS]:VALUE`.
    InvalidProperty,
    /// A property has an empty value.
    MissingValue,
    /// A date-time value is not `YYYYMMDDTHHMMSSZ`.
    InvalidDateTime,
    /// A start or end names no single US/Eastern instant.
    NotSingleLocalTime,
    /// LOCATION holds no escaped `, ` between studio and branch.
    MissingLocationSeparator,
    /// DESCRIPTION holds no escaped newline between category and description.
    MissingDescriptionSeparator,
    MissingStart,
    MissingEnd,
    MissingUid,
    MissingStamp,
}

/// What has been read of an event so far.
pub struct IcalDraft {
    pub start: Option<UtcDateTime>,
    pub end: Option<UtcDateTime>,
    pub title: Seq<char>,
    pub description: Seq<char>,
    pub studio: Seq<char>,
    pub category: Seq<char>,
    pub branch: Seq<char>,
    pub uid: Option<Seq<char>>,
    pub stamp: Option<UtcDateTime>,
}

/// Nothing read yet: empty title and description, placeholder studio,
/// category and branch.
pub open spec fn initial_draft() -> IcalDraft {
    IcalDraft {
        start: None,
        end: None,
        title: seq![],
        description: seq![],
        studio: "TODO"@,
        category: "TODO"@,
        branch: "TODO"@,
        uid: None,
        stamp: None,
    }
}

/// A start or end value: the wall-clock reading it holds, taken as US/Eastern.
pub open spec fn eastern_value(v: Seq<char>) -> Result<UtcDateTime, IcalEventError> {
    match chrono_naive_parse(v, ICAL_UTC_FORMAT@) {
        None => Err(IcalEventError::InvalidDateTime),
        Some(n) => match eastern_local_to_utc(n) {
            None => Err(IcalEventError::NotSingleLocalTime),
            Some(t) => Ok(t),
        },
    }
}

pub open spec fn location_separator() -> Seq<char> {
    seq!['\\', ',', ' ']
}

pub open spec fn description_separator() -> Seq<char> {
    seq!['\\', 'n']
}

/// The draft after reading one property.
pub open spec fn apply_property(d: IcalDraft, name: Seq<char>, value: Option<Seq<char>>) -> Result<
    IcalDraft,
    IcalEventError,
> {
    match value {
        None => Err(IcalEventError::MissingValue),
        Some(v) => if name == "DTSTART"@ {
            match eastern_value(v) {
                Ok(t) => Ok(IcalDraft { start: Some(t), ..d }),
                Err(e) => Err(e),
            }
        } else if name == "DTEND"@ {
            match eastern_value(v) {
                Ok(t) => Ok(IcalDraft { end: Some(t), ..d }),
                Err(e) => Err(e),
            }
        } else if name == "SUMMARY"@ {
            Ok(IcalDraft { title: v, ..d })
        } else if name == "UID"@ {
            Ok(IcalDraft { uid: Some(v), ..d })
        } else if name == "DTSTAMP"@ {
            match chrono_naive_parse(v, ICAL_UTC_FORMAT@) {
                Some(n) => Ok(IcalDraft { stamp: Some(utc_of(n)), ..d }),
                None => Err(IcalEventError::InvalidDateTime),
            }
        } else if name == "LOCATION"@ {
            match first_index(v, location_separator()) {
                Some(i) => Ok(IcalDraft { studio: v.take(i), branch: v.skip(i + 3), ..d }),
                None => Err(IcalEventError::MissingLocationSeparator),
            }
        } else if name == "DESCRIPTION"@ {
            match first_index(v, description_separator()) {
                Some(i) => Ok(IcalDraft { category: v.take(i), description: v.skip(i + 2), ..d }),
                None => Err(IcalEventError::MissingDescriptionSeparator),
            }
        } else {
            Ok(d)
        },
    }
}

/// The draft after reading the properties in order; the first error stops it.
pub open spec fn apply_properties(d: IcalDraft, props: Seq<(Seq<char>, Option<Seq<char>>)>) -> Result<
    IcalDraft,
    IcalEventError,
>
    decreases props.len(),
{
    if props.len() == 0 {
        Ok(d)
    } else {
        match apply_property(d, props[0].0, props[0].1) {
            Ok(d2) => apply_properties(d2, props.drop_first()),
            Err(e) => Err(e),
        }
    }
}

/// The event a complete draft describes.
pub open spec fn finish_draft(d: IcalDraft) -> Result<EventView, IcalEventError> {
    if d.start is None {
        Err(IcalEventError::MissingStart)
    } else if d.end is None {
        Err(IcalEventError::MissingEnd)
    } else if d.uid is None {
        Err(IcalEventError::MissingUid)
    } else if d.stamp is None {
        Err(IcalEventError::MissingStamp)
    } else {
        Ok(
            EventView {
                start: d.start->0,
                end: d.end->0,
                title: d.title,
                description: d.description,
                changes: ChangesView::Normal,
                studio: d.studio,
                category: d.category,
                branch: d.branch,
                uid: d.uid,
                stamp: d.stamp,
            },
        )
    }
}

/// The event that a list of (name, value) properties describes.
pub open spec fn read_event(props: Seq<(Seq<char>, Option<Seq<char>>)>) -> Result<EventView, IcalEventError> {
    match apply_properties(initial_draft(), props) {
        Ok(d) => finish_draft(d),
        Err(e) => Err(e),
    }
}

pub open spec fn property_views(v: Seq<(String, Option<String>)>) -> Seq<(Seq<char>, Option<Seq<char>>)> {
    v.map_values(
        |p: (String, Option<String>)|
            (
                p.0@,
                match p.1 {
                    Some(s) => Some(s@),
                    None => None,
                },
            ),
    )
}

pub open spec fn event_result_view(r: Result<Event, IcalEventError>) -> Result<EventView, IcalEventError> {
    match r {
        Ok(e) => Ok(e@),
        Err(x) => Err(x),
    }
}

/// The (name, value) properties that the `ical` crate's `PropertyParser`
/// reads from a text, or `None` when it reports an error for some line.
pub uninterp spec fn ical_properties(text: Seq<char>) -> Option<Seq<(Seq<char>, Option<Seq<char>>)>>;

#[verifier::external_type_specification]
#[verifier::external_body]
pub struct ExIcalPropertyError(ical::property::PropertyError);

/// Runs `ical::PropertyParser::from_reader` over the text and collects the
/// name and value of each property. Claimed: the result is `Ok` exactly when
/// `ical_properties` is `Some`, and then lists those properties in order.
#[verifier::external_body]
fn read_properties(text: &str) -> (r: Result<Vec<(String, Option<String>)>, ical::property::PropertyError>)
    ensures
        (r is Ok) == (ical_properties(text@) is Some),
        r matches Ok(v) ==> ical_properties(text@) == Some(property_views(v@)),
{
    ical::PropertyParser::from_reader(text.as_bytes()).map(|p| p.map(|p| (p.name, p.value))).collect()
}

struct Draft {
    start: Option<UtcDateTime>,
    end: Option<UtcDateTime>,
    title: String,
    description: String,
    studio: String,
    category: String,
    branch: String,
    uid: Option<String>,
    stamp: Option<UtcDateTime>,
}

impl View for Draft {
    type V = IcalDraft;

    closed spec fn view(&self) -> IcalDraft {
        IcalDraft {
            start: self.start,
            end: self.end,
            title: self.title@,
            description: self.description@,
            studio: self.studio@,
            category: self.category@,
            branch: self.branch@,
            uid: match self.uid {
                Some(u) => Some(u@),
                None => None,
            },
            stamp: self.stamp,
        }
    }
}

fn read_eastern(v: &str) -> (r: Result<UtcDateTime, IcalEventError>)
    ensures
        r == eastern_value(v@),
{
    match naive_parse(v, ICAL_UTC_FORMAT) {
        Err(_) => Err(IcalEventError::InvalidDateTime),
        Ok(n) => match eastern_to_utc(&n) {
            None => Err(IcalEventError::NotSingleLocalTime),
            Some(t) => Ok(t),
        },
    }
}

fn apply_property_to(d: &mut Draft, name: &str, value: &Option<String>) -> (r: Result<(), IcalEventError>)
    ensures
        match apply_property(
            old(d)@,
            name@,
            match value {
                Some(s) => Some(s@),
                None => None,
            },
        ) {
            Ok(nd) => r is Ok && final(d)@ == nd,
            Err(e) => r == Err::<(), IcalEventError>(e),
        },
{
    let v: &String = match value {
        Some(v) => v,
        None => return Err(IcalEventError::MissingValue),
    };
    if str_eq(name, "DTSTART") {
        let t = read_eastern(v.as_str())?;
        d.start = Some(t);
    } else if str_eq(name, "DTEND") {
        let t = read_eastern(v.as_str())?;
        d.end = Some(t);
    } else if str_eq(name, "SUMMARY") {
        d.title = v.clone();
    } else if str_eq(name, "UID") {
        d.uid = Some(v.clone());
    } else if str_eq(name, "DTSTAMP") {
        match naive_parse(v.as_str(), ICAL_UTC_FORMAT) {
            Ok(n) => {
                d.stamp = Some(UtcDateTime {
                    year: n.year,
                    month: n.month,
                    day: n.day,
                    hour: n.hour,
                    minute: n.minute,
                    second: n.second,
                });
            },
            Err(_) => return Err(IcalEventError::InvalidDateTime),
        }
    } else if str_eq(name, "LOCATION") {
        let chars = chars_of(v.as_str());
        let sep = vec!['\\', ',', ' '];
        assert(sep@ == location_separator());
        match find(&chars, &sep) {
            Some(i) => {
                proof {
                    crate::text::lemma_first_index_from(chars@, sep@, 0);
                    assert(first_index_from(chars@, sep@, 0) == Some(i as int));
                    assert(sep@.len() == 3);
                    assert(occurs_at(chars@, sep@, i as int));
                }
                d.studio = string_of(&chars, 0, i);
                assert(i + 3 <= chars@.len());
                assert(chars@.len() == chars.len());
                d.branch = string_of(&chars, i + 3, chars.len());
                assert(chars@.subrange(0, i as int) =~= chars@.take(i as int));
                assert(chars@.subrange(i + 3, chars@.len() as int) =~= chars@.skip(i + 3));
            },
            None => return Err(IcalEventError::MissingLocationSeparator),
        }
    } else if str_eq(name, "DESCRIPTION") {
        let chars = chars_of(v.as_str());
        let sep = vec!['\\', 'n'];
        assert(sep@ == description_separator());
        match find(&chars, &sep) {
            Some(i) => {
                proof {
                    crate::text::lemma_first_index_from(chars@, sep@, 0);
                    assert(first_index_from(chars@, sep@, 0) == Some(i as int));
                    assert(sep@.len() == 2);
                    assert(occurs_at(chars@, sep@, i as int));
                }
                d.category = string_of(&chars, 0, i);
                assert(i + 2 <= chars@.len());
                assert(chars@.len() == chars.len());
                d.description = string_of(&chars, i + 2, chars.len());
                assert(chars@.subrange(0, i as int) =~= chars@.take(i as int));
                assert(chars@.subrange(i + 2, chars@.len() as int) =~= chars@.skip(i + 2));
            },
            None => return Err(IcalEventError::MissingDescriptionSeparator),
        }
    }
    Ok(())
}

/// Reads an event from its properties, in the order they appear: DTSTART and
/// DTEND hold US/Eastern wall-clock readings, DTSTAMP a UTC one; LOCATION
/// holds studio and branch, DESCRIPTION category and description. Properties
/// that cannot be read give an `IcalEventError` in place of aborting.
pub fn event_from_properties(props: &Vec<(String, Option<String>)>) -> (r: Result<Event, IcalEventError>)
    ensures
        event_result_view(r) == read_event(property_views(props@)),
{
    let ghost all = property_views(props@);
    let mut d = Draft {
        start: None,
        end: None,
        title: String::new(),
        description: String::new(),
        studio: "TODO".to_string(),
        category: "TODO".to_string(),
        branch: "TODO".to_string(),
        uid: None,
        stamp: None,
    };
    assert(d@ == initial_draft());
    assert(all.skip(0) =~= all);
    let mut i: usize = 0;
    while i < props.len()
        invariant
            i <= props@.len(),
            all == property_views(props@),
            apply_properties(initial_draft(), all) == apply_properties(d@, all.skip(i as int)),
        decreases props.len() - i,
    {
        let ghost before = d@;
        assert(all.skip(i as int).drop_first() =~= all.skip(i + 1));
        assert(all.skip(i as int)[0] == all[i as int]);
        apply_property_to(&mut d, props[i].0.as_str(), &props[i].1)?;
        i = i + 1;
    }
    assert(all.skip(i as int).len() == 0);
    let start = match d.start {
        Some(t) => t,
        None => return Err(IcalEventError::MissingStart),
    };
    let end = match d.end {
        Some(t) => t,
        None => return Err(IcalEventError::MissingEnd),
    };
    if d.uid.is_none() {
        return Err(IcalEventError::MissingUid);
    }
    if d.stamp.is_none() {
        return Err(IcalEventError::MissingStamp);
    }
    Ok(Event {
        start_datetime: start,
        end_datetime: end,
        title: d.title,
        description: d.description,
        changes: Changes::Normal,
        studio: d.studio,
        category: d.category,
        branch: d.branch,
        uid: d.uid,
        stamp: d.stamp,
    })
}

/// The event held in an iCalendar text, read by the `ical` crate's property parser.
pub open spec fn ical_event(text: Seq<char>) -> Result<EventView, IcalEventError> {
    match ical_properties(text) {
        None => Err(IcalEventError::InvalidProperty),
        Some(props) => read_event(props),
    }
}

/// Parses one VEVENT of an iCalendar text. A text that cannot be read as an
/// event (a malformed or empty property, a missing start, end, uid or stamp,
/// a malformed date-time, location or description) gives an
/// `IcalEventError` in place of aborting.
pub fn parse_event(event: &str) -> (r: Result<Event, IcalEventError>)
    ensures
        event_result_view(r) == ical_event(event@),
{
    match read_properties(event) {
        Ok(props) => event_from_properties(&props),
        Err(_) => Err(IcalEventError::InvalidProperty),
    }
}

/// The pieces `str::split_inclusive` cuts from `t[pos..]`: each ends just
/// after an occurrence of `p` (found left to right), the last holds what
/// follows the last occurrence, and no piece is empty.
pub open spec fn split_inclusive_from(t: Seq<char>, p: Seq<char>, pos: int) -> Seq<Seq<char>>
    decreases t.len() + 1 - pos,
{
    if p.len() == 0 || pos < 0 || pos >= t.len() {
        seq![]
    } else {
        match first_index_from(t, p, pos) {
            Some(i) => {
                proof {
                    crate::text::lemma_first_index_from(t, p, pos);
                }
                seq![t.subrange(pos, i + p.len())] + split_inclusive_from(t, p, i + p.len())
            },
            None => seq![t.subrange(pos, t.len() as int)],
        }
    }
}

/// `str::split_inclusive` of `t` by a non-empty pattern `p`.
pub open spec fn split_inclusive(t: Seq<char>, p: Seq<char>) -> Seq<Seq<char>> {
    split_inclusive_from(t, p, 0)
}

/// Each piece ends just after the pattern, save perhaps the last, and holds
/// the pattern nowhere but at its end.
pub open spec fn pieces_cut_at(ps: Seq<Seq<char>>, p: Seq<char>) -> bool {
    &&& forall|k: int| 0 <= k < ps.len() ==> #[trigger] ps[k].len() > 0
    &&& forall|k: int|
        0 <= k < ps.len() - 1 ==> #[trigger] ps[k].len() >= p.len() && ps[k].skip(
            ps[k].len() - p.len(),
        ) == p
    &&& forall|k: int, j: int|
        0 <= k < ps.len() && #[trigger] occurs_at(ps[k], p, j) ==> j == ps[k].len() - p.len()
}

/// Cutting by a non-empty pattern loses and adds nothing: the pieces joined
/// give the text back, every piece but the last ends with the pattern, no
/// piece is empty, and the pattern occurs in a piece only at its end.
pub proof fn lemma_split_inclusive_pieces(t: Seq<char>, p: Seq<char>)
    requires
        p.len() > 0,
    ensures
        split_inclusive(t, p).flatten() == t,
        pieces_cut_at(split_inclusive(t, p), p),
{
    lemma_split_inclusive_from_pieces(t, p, 0);
    assert(t.subrange(0, t.len() as int) =~= t);
}

proof fn lemma_split_inclusive_from_pieces(t: Seq<char>, p: Seq<char>, pos: int)
    requires
        p.len() > 0,
        0 <= pos <= t.len(),
    ensures
        split_inclusive_from(t, p, pos).flatten() == t.subrange(pos, t.len() as int),
        pieces_cut_at(split_inclusive_from(t, p, pos), p),
    decreases t.len() - pos,
{
    let ps = split_inclusive_from(t, p, pos);
    if pos >= t.len() {
        assert(t.subrange(pos, t.len() as int) =~= Seq::<char>::empty());
        assert(ps.flatten() == Seq::<char>::empty());
    } else {
        crate::text::lemma_first_index_from(t, p, pos);
        match first_index_from(t, p, pos) {
            Some(i) => {
                let piece = t.subrange(pos, i + p.len());
                let rest = split_inclusive_from(t, p, i + p.len());
                lemma_split_inclusive_from_pieces(t, p, i + p.len());
                assert(ps == seq![piece] + rest);
                assert(ps.drop_first() =~= rest);
                assert(ps[0] == piece);
                assert(ps.flatten() == piece + rest.flatten());
                assert(piece + t.subrange(i + p.len(), t.len() as int) =~= t.subrange(
                    pos,
                    t.len() as int,
                ));
                assert(piece.skip(piece.len() - p.len()) =~= t.subrange(i, i + p.len()));
                assert forall|k: int| 0 <= k < ps.len() - 1 implies #[trigger] ps[k].len()
                    >= p.len() && ps[k].skip(ps[k].len() - p.len()) == p by {
                    if k > 0 {
                        assert(ps[k] == rest[k - 1]);
                    }
                }
                assert forall|k: int| 0 <= k < ps.len() implies #[trigger] ps[k].len() > 0 by {
                    if k > 0 {
                        assert(ps[k] == rest[k - 1]);
                    }
                }
                assert forall|k: int, j: int|
                    0 <= k < ps.len() && #[trigger] occurs_at(ps[k], p, j) implies j == ps[k].len()
                    - p.len() by {
                    if k > 0 {
                        assert(ps[k] == rest[k - 1]);
                    } else {
                        assert(t.subrange(pos + j, pos + j + p.len()) =~= piece.subrange(
                            j,
                            j + p.len(),
                        ));
                        assert(occurs_at(t, p, pos + j));
                    }
                }
            },
            None => {
                let piece = t.subrange(pos, t.len() as int);
                assert(ps == seq![piece]);
                assert(ps.drop_first() =~= Seq::<Seq<char>>::empty());
                assert(ps[0] == piece);
                assert(ps.drop_first().flatten() == Seq::<char>::empty());
                assert(ps.flatten() == piece + Seq::<char>::empty());
                assert(piece + Seq::<char>::empty() =~= piece);
                assert forall|k: int, j: int|
                    0 <= k < ps.len() && #[trigger] occurs_at(ps[k], p, j) implies j == ps[k].len()
                    - p.len() by {
                    assert(t.subrange(pos + j, pos + j + p.len()) =~= piece.subrange(
                        j,
                        j + p.len(),
                    ));
                    assert(occurs_at(t, p, pos + j));
                }
            },
        }
    }
}

/// The events held in the pieces that contain an `END:VEVENT`, in order;
/// the first piece that cannot be read gives the error.
pub open spec fn events_of_pieces(ps: Seq<Seq<char>>) -> Result<Seq<EventView>, IcalEventError>
    decreases ps.len(),
{
    if ps.len() == 0 {
        Ok(seq![])
    } else {
        let rest = events_of_pieces(ps.drop_first());
        if contains_seq(ps[0], "END:VEVENT"@) {
            match ical_event(ps[0]) {
                Err(e) => Err(e),
                Ok(e) => match rest {
                    Ok(es) => Ok(seq![e] + es),
                    Err(x) => Err(x),
                },
            }
        } else {
            rest
        }
    }
}

/// Reading a run of pieces reads the first part, then the rest: the events
/// of `ps + qs` are those of `ps` followed by those of `qs`, and the first
/// error, in order, is the one reported.
pub proof fn lemma_events_of_pieces_append(ps: Seq<Seq<char>>, qs: Seq<Seq<char>>)
    ensures
        events_of_pieces(ps + qs) == (match events_of_pieces(ps) {
            Err(e) => Err(e),
            Ok(a) => match events_of_pieces(qs) {
                Ok(b) => Ok(a + b),
                Err(e) => Err(e),
            },
        }),
    decreases ps.len(),
{
    if ps.len() == 0 {
        assert(ps + qs =~= qs);
        match events_of_pieces(qs) {
            Ok(b) => { assert(Seq::<EventView>::empty() + b =~= b); },
            Err(e) => {},
        }
    } else {
        assert((ps + qs).drop_first() =~= ps.drop_first() + qs);
        assert((ps + qs)[0] == ps[0]);
        lemma_events_of_pieces_append(ps.drop_first(), qs);
        match events_of_pieces(ps.drop_first()) {
            Ok(a) => match events_of_pieces(qs) {
                Ok(b) => {
                    if contains_seq(ps[0], "END:VEVENT"@) {
                        match ical_event(ps[0]) {
                            Ok(e) => { assert(seq![e] + (a + b) =~= (seq![e] + a) + b); },
                            Err(x) => {},
                        }
                    }
                },
                Err(x) => {},
            },
            Err(x) => {},
        }
    }
}

/// A single piece gives one event when it holds an `END:VEVENT` (the event
/// that piece reads as, or its error), and none otherwise.
pub proof fn lemma_events_of_one_piece(p: Seq<char>)
    ensures
        events_of_pieces(seq![p]) == (if contains_seq(p, "END:VEVENT"@) {
            match ical_event(p) {
                Ok(e) => Ok(seq![e]),
                Err(x) => Err(x),
            }
        } else {
            Ok(Seq::<EventView>::empty())
        }),
{
    assert(seq![p].drop_first() =~= Seq::<Seq<char>>::empty());
    assert(seq![p][0] == p);
    assert(events_of_pieces(Seq::<Seq<char>>::empty()) == Ok::<Seq<EventView>, IcalEventError>(Seq::empty()));
    match ical_event(p) {
        Ok(e) => { assert(seq![e] + Seq::<EventView>::empty() =~= seq![e]); },
        Err(x) => {},
    }
}

/// The events of an iCalendar text: cut after each `BEGIN:VEVENT`, each piece
/// holding an `END:VEVENT` read as one event.
pub open spec fn ical_events(text: Seq<char>) -> Result<Seq<EventView>, IcalEventError> {
    events_of_pieces(split_inclusive(text, "BEGIN:VEVENT"@))
}

pub open spec fn event_views(v: Seq<Event>) -> Seq<EventView> {
    v.map_values(|e: Event| e@)
}

pub open spec fn with_prefix(pre: Seq<EventView>, r: Result<Seq<EventView>, IcalEventError>) -> Result<
    Seq<EventView>,
    IcalEventError,
> {
    match r {
        Ok(es) => Ok(pre + es),
        Err(e) => Err(e),
    }
}

pub open spec fn events_result_view(r: Result<Vec<Event>, IcalEventError>) -> Result<
    Seq<EventView>,
    IcalEventError,
> {
    match r {
        Ok(v) => Ok(event_views(v@)),
        Err(e) => Err(e),
    }
}

/// Reads every event of an iCalendar text. The first event that cannot be
/// read gives its `IcalEventError` in place of aborting; no partial list is
/// returned.
pub fn parse_event_list(event_list_str: &str) -> (r: Result<Vec<Event>, IcalEventError>)
    ensures
        events_result_view(r) == ical_events(event_list_str@),
{
    let t = chars_of(event_list_str);
    let begin = chars_of("BEGIN:VEVENT");
    let end_marker = chars_of("END:VEVENT");
    proof {
        reveal_strlit("BEGIN:VEVENT");
    }
    assert(begin@.len() > 0);
    let mut events: Vec<Event> = Vec::new();
    let mut pos: usize = 0;
    assert(event_views(events@) =~= Seq::<EventView>::empty());
    assert(with_prefix(Seq::empty(), events_of_pieces(split_inclusive_from(t@, begin@, 0)))
        == events_of_pieces(split_inclusive_from(t@, begin@, 0))) by {
        match events_of_pieces(split_inclusive_from(t@, begin@, 0)) {
            Ok(es) => { assert(Seq::<EventView>::empty() + es =~= es); },
            Err(e) => {},
        }
    }
    while pos < t.len()
        invariant
            t@ == event_list_str@,
            begin@ == "BEGIN:VEVENT"@,
            begin@.len() > 0,
            end_marker@ == "END:VEVENT"@,
            pos <= t@.len(),
            ical_events(event_list_str@) == with_prefix(
                event_views(events@),
                events_of_pieces(split_inclusive_from(t@, begin@, pos as int)),
            ),
        decreases t.len() - pos,
    {
        let found = find_from(&t, &begin, pos);
        proof {
            crate::text::lemma_first_index_from(t@, begin@, pos as int);
        }
        let next = match found {
            Some(i) => {
                assert(occurs_at(t@, begin@, i as int));
                i + begin.len()
            },
            None => t.len(),
        };
        let ghost rest = split_inclusive_from(t@, begin@, next as int);
        let piece = string_of(&t, pos, next);
        assert(split_inclusive_from(t@, begin@, pos as int) =~= seq![piece@] + rest);
        assert((seq![piece@] + rest).drop_first() =~= rest);
        let piece_chars = chars_of(piece.as_str());
        if contains(&piece_chars, &end_marker) {
            let e = parse_event(piece.as_str())?;
            let ghost pre = event_views(events@);
            events.push(e);
            assert(event_views(events@) =~= pre.push(e@));
            proof {
                match events_of_pieces(rest) {
                    Ok(es) => {
                        assert(pre + (seq![e@] + es) =~= pre.push(e@) + es);
                    },
                    Err(x) => {},
                }
            }
        }
        pos = next;
    }
    Ok(events)
}

/// Text with none of the characters that iCalendar TEXT values escape.
pub open spec fn is_plain_text(s: Seq<char>) -> bool {
    forall|i: int|
        0 <= i < s.len() ==> s[i] != ',' && s[i] != ';' && s[i] != '\\' && s[i] != '\n'
}

/// Content lines as properties that all carry a value.
pub open spec fn as_properties(ls: Seq<(Seq<char>, Seq<char>)>) -> Seq<(Seq<char>, Option<Seq<char>>)> {
    ls.map_values(|l: (Seq<char>, Seq<char>)| (l.0, Some(l.1)))
}

/// Escaping leaves plain text as it is.
pub proof fn lemma_escape_plain(s: Seq<char>)
    requires
        is_plain_text(s),
    ensures
        escaped(s) == s,
    decreases s.len(),
{
    if s.len() > 0 {
        assert(is_plain_text(s.drop_last()));
        lemma_escape_plain(s.drop_last());
        assert(escape_char(s.last()) == seq![s.last()]);
        assert(s.drop_last().push(s.last()) =~= s);
    }
}

/// In `a + sep + b` with plain `a`, the first backslash-led separator is the one after `a`.
proof fn lemma_split_plain(a: Seq<char>, sep: Seq<char>, b: Seq<char>)
    requires
        is_plain_text(a),
        sep.len() > 0,
        sep[0] == '\\',
    ensures
        first_index(a + sep + b, sep) == Some(a.len() as int),
        (a + sep + b).take(a.len() as int) == a,
        (a + sep + b).skip((a.len() + sep.len()) as int) == b,
{
    let t = a + sep + b;
    assert(t.subrange(a.len() as int, (a.len() + sep.len()) as int) =~= sep);
    assert forall|j: int| 0 <= j < a.len() implies !occurs_at(t, sep, j) by {
        if occurs_at(t, sep, j) {
            assert(t.subrange(j, j + sep.len())[0] == t[j]);
        }
    }
    crate::text::lemma_first_index_at(t, sep, 0, a.len() as int);
    assert(t.take(a.len() as int) =~= a);
    assert(t.skip((a.len() + sep.len()) as int) =~= b);
}

/// The names of the written content lines are told apart by the reader.
proof fn lemma_property_names_distinct()
    ensures
        "BEGIN"@ != "DTSTART"@,
        "BEGIN"@ != "DTEND"@,
        "BEGIN"@ != "SUMMARY"@,
        "BEGIN"@ != "UID"@,
        "BEGIN"@ != "DTSTAMP"@,
        "BEGIN"@ != "LOCATION"@,
        "BEGIN"@ != "DESCRIPTION"@,
        "VERSION"@ != "DTSTART"@,
        "VERSION"@ != "DTEND"@,
        "VERSION"@ != "SUMMARY"@,
        "VERSION"@ != "UID"@,
        "VERSION"@ != "DTSTAMP"@,
        "VERSION"@ != "LOCATION"@,
        "VERSION"@ != "DESCRIPTION"@,
        "PRODID"@ != "DTSTART"@,
        "PRODID"@ != "DTEND"@,
        "PRODID"@ != "SUMMARY"@,
        "PRODID"@ != "UID"@,
        "PRODID"@ != "DTSTAMP"@,
        "PRODID"@ != "LOCATION"@,
        "PRODID"@ != "DESCRIPTION"@,
        "END"@ != "DTSTART"@,
        "END"@ != "DTEND"@,
        "END"@ != "SUMMARY"@,
        "END"@ != "UID"@,
        "END"@ != "DTSTAMP"@,
        "END"@ != "LOCATION"@,
        "END"@ != "DESCRIPTION"@,
        "DTEND"@ != "DTSTART"@,
        "SUMMARY"@ != "DTSTART"@,
        "SUMMARY"@ != "DTEND"@,
        "UID"@ != "DTSTART"@,
        "UID"@ != "DTEND"@,
        "UID"@ != "SUMMARY"@,
        "DTSTAMP"@ != "DTSTART"@,
        "DTSTAMP"@ != "DTEND"@,
        "DTSTAMP"@ != "SUMMARY"@,
        "DTSTAMP"@ != "UID"@,
        "LOCATION"@ != "DTSTART"@,
        "LOCATION"@ != "DTEND"@,
        "LOCATION"@ != "SUMMARY"@,
        "LOCATION"@ != "UID"@,
        "LOCATION"@ != "DTSTAMP"@,
        "DESCRIPTION"@ != "DTSTART"@,
        "DESCRIPTION"@ != "DTEND"@,
        "DESCRIPTION"@ != "SUMMARY"@,
        "DESCRIPTION"@ != "UID"@,
        "DESCRIPTION"@ != "DTSTAMP"@,
        "DESCRIPTION"@ != "LOCATION"@,
{
    reveal_strlit("BEGIN");
    reveal_strlit("VERSION");
    reveal_strlit("PRODID");
    reveal_strlit("END");
    reveal_strlit("DTSTART");
    reveal_strlit("DTEND");
    reveal_strlit("SUMMARY");
    reveal_strlit("UID");
    reveal_strlit("DTSTAMP");
    reveal_strlit("LOCATION");
    reveal_strlit("DESCRIPTION");
    assert("BEGIN"@.len() != "DTSTART"@.len());
    assert("BEGIN"@[0] != "DTEND"@[0]);
    assert("BEGIN"@.len() != "SUMMARY"@.len());
    assert("BEGIN"@.len() != "UID"@.len());
    assert("BEGIN"@.len() != "DTSTAMP"@.len());
    assert("BEGIN"@.len() != "LOCATION"@.len());
    assert("BEGIN"@.len() != "DESCRIPTION"@.len());
    assert("VERSION"@[0] != "DTSTART"@[0]);
    assert("VERSION"@.len() != "DTEND"@.len());
    assert("VERSION"@[0] != "SUMMARY"@[0]);
    assert("VERSION"@.len() != "UID"@.len());
    assert("VERSION"@[0] != "DTSTAMP"@[0]);
    assert("VERSION"@.len() != "LOCATION"@.len());
    assert("VERSION"@.len() != "DESCRIPTION"@.len());
    assert("PRODID"@.len() != "DTSTART"@.len());
    assert("PRODID"@.len() != "DTEND"@.len());
    assert("PRODID"@.len() != "SUMMARY"@.len());
    assert("PRODID"@.len() != "UID"@.len());
    assert("PRODID"@.len() != "DTSTAMP"@.len());
    assert("PRODID"@.len() != "LOCATION"@.len());
    assert("PRODID"@.len() != "DESCRIPTION"@.len());
    assert("END"@.len() != "DTSTART"@.len());
    assert("END"@.len() != "DTEND"@.len());
    assert("END"@.len() != "SUMMARY"@.len());
    assert("END"@[0] != "UID"@[0]);
    assert("END"@.len() != "DTSTAMP"@.len());
    assert("END"@.len() != "LOCATION"@.len());
    assert("END"@.len() != "DESCRIPTION"@.len());
    assert("DTEND"@.len() != "DTSTART"@.len());
    assert("SUMMARY"@[0] != "DTSTART"@[0]);
    assert("SUMMARY"@.len() != "DTEND"@.len());
    assert("UID"@.len() != "DTSTART"@.len());
    assert("UID"@.len() != "DTEND"@.len());
    assert("UID"@.len() != "SUMMARY"@.len());
    assert("DTSTAMP"@[5] != "DTSTART"@[5]);
    assert("DTSTAMP"@.len() != "DTEND"@.len());
    assert("DTSTAMP"@[0] != "SUMMARY"@[0]);
    assert("DTSTAMP"@.len() != "UID"@.len());
    assert("LOCATION"@.len() != "DTSTART"@.len());
    assert("LOCATION"@.len() != "DTEND"@.len());
    assert("LOCATION"@.len() != "SUMMARY"@.len());
    assert("LOCATION"@.len() != "UID"@.len());
    assert("LOCATION"@.len() != "DTSTAMP"@.len());
    assert("DESCRIPTION"@.len() != "DTSTART"@.len());
    assert("DESCRIPTION"@.len() != "DTEND"@.len());
    assert("DESCRIPTION"@.len() != "SUMMARY"@.len());
    assert("DESCRIPTION"@.len() != "UID"@.len());
    assert("DESCRIPTION"@.len() != "DTSTAMP"@.len());
    assert("DESCRIPTION"@.len() != "LOCATION"@.len());
}

/// Reading back what is stored. The content lines written for a populated
/// event, read as properties, give back its uid, stamp, title, studio,
/// category, branch and description (the last four when they hold nothing
/// that escaping changes), `Normal` changes, and as start and end the
/// instants whose US/Eastern wall-clock reading is the UTC reading written
/// for them; this holds whenever chrono parses each written date-time back to
/// its fields and both readings name one Eastern instant.
pub proof fn lemma_stored_event_reads_back(v: EventView)
    requires
        v.uid is Some,
        v.stamp is Some,
        is_plain_text(v.category),
        is_plain_text(v.description),
        is_plain_text(v.studio),
        is_plain_text(v.branch),
    ensures
        ({
            &&& chrono_naive_parse(ical_utc_text(v.start), ICAL_UTC_FORMAT@) == Some(naive_of(v.start))
            &&& chrono_naive_parse(ical_utc_text(v.end), ICAL_UTC_FORMAT@) == Some(naive_of(v.end))
            &&& chrono_naive_parse(ical_utc_text(v.stamp->0), ICAL_UTC_FORMAT@) == Some(naive_of(v.stamp->0))
            &&& eastern_local_to_utc(naive_of(v.start)) is Some
            &&& eastern_local_to_utc(naive_of(v.end)) is Some
        }) ==> read_event(as_properties(caldav_lines(v))) == Ok::<EventView, IcalEventError>(
            EventView {
                start: eastern_local_to_utc(naive_of(v.start))->0,
                end: eastern_local_to_utc(naive_of(v.end))->0,
                title: v.title,
                description: v.description,
                changes: ChangesView::Normal,
                studio: v.studio,
                category: v.category,
                branch: v.branch,
                uid: v.uid,
                stamp: v.stamp,
            },
        ),
{
    lemma_escape_plain(v.category);
    lemma_escape_plain(v.description);
    lemma_escape_plain(v.studio);
    lemma_escape_plain(v.branch);
    lemma_split_plain(v.category, description_separator(), v.description);
    lemma_split_plain(v.studio, location_separator(), v.branch);
    let ps = as_properties(caldav_lines(v));
    if chrono_naive_parse(ical_utc_text(v.start), ICAL_UTC_FORMAT@) == Some(naive_of(v.start))
        && chrono_naive_parse(ical_utc_text(v.end), ICAL_UTC_FORMAT@) == Some(naive_of(v.end))
        && chrono_naive_parse(ical_utc_text(v.stamp->0), ICAL_UTC_FORMAT@) == Some(
        naive_of(v.stamp->0))
        && eastern_local_to_utc(naive_of(v.start)) is Some
        && eastern_local_to_utc(naive_of(v.end)) is Some {
        lemma_property_names_distinct();
        assert(utc_of(naive_of(v.stamp->0)) == v.stamp->0);
        assert(description_value(v.category, v.description) == v.category + description_separator()
            + v.description);
        assert(location_value(v.studio, v.branch) == v.studio + location_separator() + v.branch);
        let d5 = IcalDraft { uid: v.uid, ..initial_draft() };
        let d6 = IcalDraft { stamp: v.stamp, ..d5 };
        let d7 = IcalDraft { start: eastern_local_to_utc(naive_of(v.start)), ..d6 };
        let d8 = IcalDraft { end: eastern_local_to_utc(naive_of(v.end)), ..d7 };
        let d9 = IcalDraft { title: v.title, ..d8 };
        let d10 = IcalDraft { category: v.category, description: v.description, ..d9 };
        let d11 = IcalDraft { studio: v.studio, branch: v.branch, ..d10 };
        assert(ps.skip(0) =~= ps);
        assert(ps[0] == ("BEGIN"@, Some("VCALENDAR"@)));
        assert(ps[1] == ("VERSION"@, Some("2.0"@)));
        assert(ps[2] == ("PRODID"@, Some("-//Ycal//Ycal//EN"@)));
        assert(ps[3] == ("BEGIN"@, Some("VEVENT"@)));
        assert(ps[4] == ("UID"@, Some(v.uid->0)));
        assert(ps[5] == ("DTSTAMP"@, Some(ical_utc_text(v.stamp->0))));
        assert(ps[6] == ("DTSTART"@, Some(ical_utc_text(v.start))));
        assert(ps[7] == ("DTEND"@, Some(ical_utc_text(v.end))));
        assert(ps[8] == ("SUMMARY"@, Some(v.title)));
        assert(ps[9] == ("DESCRIPTION"@, Some(description_value(v.category, v.description))));
        assert(ps[10] == ("LOCATION"@, Some(location_value(v.studio, v.branch))));
        assert(ps[11] == ("END"@, Some("VEVENT"@)));
        assert(ps[12] == ("END"@, Some("VCALENDAR"@)));
        assert(ps.skip(0)[0] == ps[0] && ps.skip(0).drop_first() =~= ps.skip(1));
        assert(apply_property(initial_draft(), ps[0].0, ps[0].1) == Ok::<IcalDraft, IcalEventError>(initial_draft()));
        assert(apply_properties(initial_draft(), ps.skip(0)) == apply_properties(initial_draft(), ps.skip(1)));
        assert(ps.skip(1)[0] == ps[1] && ps.skip(1).drop_first() =~= ps.skip(2));
        assert(apply_property(initial_draft(), ps[1].0, ps[1].1) == Ok::<IcalDraft, IcalEventError>(initial_draft()));
        assert(apply_properties(initial_draft(), ps.skip(1)) == apply_properties(initial_draft(), ps.skip(2)));
        assert(ps.skip(2)[0] == ps[2] && ps.skip(2).drop_first() =~= ps.skip(3));
        assert(apply_property(initial_draft(), ps[2].0, ps[2].1) == Ok::<IcalDraft, IcalEventError>(initial_draft()));
        assert(apply_properties(initial_draft(), ps.skip(2)) == apply_properties(initial_draft(), ps.skip(3)));
        assert(ps.skip(3)[0] == ps[3] && ps.skip(3).drop_first() =~= ps.skip(4));
        assert(apply_property(initial_draft(), ps[3].0, ps[3].1) == Ok::<IcalDraft, IcalEventError>(initial_draft()));
        assert(apply_properties(initial_draft(), ps.skip(3)) == apply_properties(initial_draft(), ps.skip(4)));
        assert(ps.skip(4)[0] == ps[4] && ps.skip(4).drop_first() =~= ps.skip(5));
        assert(apply_property(initial_draft(), ps[4].0, ps[4].1) == Ok::<IcalDraft, IcalEventError>(d5));
        assert(apply_properties(initial_draft(), ps.skip(4)) == apply_properties(d5, ps.skip(5)));
        assert(ps.skip(5)[0] == ps[5] && ps.skip(5).drop_first() =~= ps.skip(6));
        assert(apply_property(d5, ps[5].0, ps[5].1) == Ok::<IcalDraft, IcalEventError>(d6));
        assert(apply_properties(d5, ps.skip(5)) == apply_properties(d6, ps.skip(6)));
        assert(ps.skip(6)[0] == ps[6] && ps.skip(6).drop_first() =~= ps.skip(7));
        assert(apply_property(d6, ps[6].0, ps[6].1) == Ok::<IcalDraft, IcalEventError>(d7));
        assert(apply_properties(d6, ps.skip(6)) == apply_properties(d7, ps.skip(7)));
        assert(ps.skip(7)[0] == ps[7] && ps.skip(7).drop_first() =~= ps.skip(8));
        assert(apply_property(d7, ps[7].0, ps[7].1) == Ok::<IcalDraft, IcalEventError>(d8));
        assert(apply_properties(d7, ps.skip(7)) == apply_properties(d8, ps.skip(8)));
        assert(ps.skip(8)[0] == ps[8] && ps.skip(8).drop_first() =~= ps.skip(9));
        assert(apply_property(d8, ps[8].0, ps[8].1) == Ok::<IcalDraft, IcalEventError>(d9));
        assert(apply_properties(d8, ps.skip(8)) == apply_properties(d9, ps.skip(9)));
        assert(ps.skip(9)[0] == ps[9] && ps.skip(9).drop_first() =~= ps.skip(10));
        assert(apply_property(d9, ps[9].0, ps[9].1) == Ok::<IcalDraft, IcalEventError>(d10));
        assert(apply_properties(d9, ps.skip(9)) == apply_properties(d10, ps.skip(10)));
        assert(ps.skip(10)[0] == ps[10] && ps.skip(10).drop_first() =~= ps.skip(11));
        assert(apply_property(d10, ps[10].0, ps[10].1) == Ok::<IcalDraft, IcalEventError>(d11));
        assert(apply_properties(d10, ps.skip(10)) == apply_properties(d11, ps.skip(11)));
        assert(ps.skip(11)[0] == ps[11] && ps.skip(11).drop_first() =~= ps.skip(12));
        assert(apply_property(d11, ps[11].0, ps[11].1) == Ok::<IcalDraft, IcalEventError>(d11));
        assert(apply_properties(d11, ps.skip(11)) == apply_properties(d11, ps.skip(12)));
        assert(ps.skip(12)[0] == ps[12] && ps.skip(12).drop_first() =~= ps.skip(13));
        assert(apply_property(d11, ps[12].0, ps[12].1) == Ok::<IcalDraft, IcalEventError>(d11));
        assert(apply_properties(d11, ps.skip(12)) == apply_properties(d11, ps.skip(13)));
        assert(ps.skip(13).len() == 0);
        assert(apply_properties(d11, ps.skip(13)) == Ok::<IcalDraft, IcalEventError>(d11));
    }
}

} // verus!
