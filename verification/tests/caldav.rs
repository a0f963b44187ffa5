use ycal::caldav::read::{parse_event_list, IcalEventError};
use ycal::caldav::{
    build_create_req, build_delete_req, build_list_req, caldav_body, escape_ical_value,
    CaldavParams, HttpMethod,
};
use ycal::datetime::{from_eastern_local, LocalDateTime, UtcDateTime};
use ycal::{Changes, Date, Event};

fn create_dt(hours_offset: u32) -> UtcDateTime {
    from_eastern_local(&LocalDateTime {
        year: 2000,
        month: 2,
        day: 5,
        hour: 5 + hours_offset,
        minute: 0,
        second: 0,
    })
    .unwrap()
}

fn make_event(populate_static: bool) -> Event {
    Event::new(
        create_dt(0),
        create_dt(4),
        "atitle",
        "adescription",
        Changes::Normal,
        "astudio",
        "acategory",
        "abranch",
        if populate_static {
            Some(String::from("e110d27a-1513-40c1-8e8a-db8f50aac1d2"))
        } else {
            None
        },
        if populate_static { Some(create_dt(6)) } else { None },
    )
}

#[test]
fn test_build_create_req() {
    let mut event = make_event(true);
    let protocol = "https";
    let url = "example.com";
    let params = CaldavParams::new(protocol, url, "user", "pass", "cal");
    let request = build_create_req(&params, &mut event);

    let body = "BEGIN:VCALENDAR\n\
            VERSION:2.0\n\
            PRODID:-//Ycal//Ycal//EN\n\
            BEGIN:VEVENT\n\
            UID:e110d27a-1513-40c1-8e8a-db8f50aac1d2\n\
            DTSTAMP:20000205T160000Z\n\
            DTSTART:20000205T100000Z\n\
            DTEND:20000205T140000Z\n\
            SUMMARY:atitle\n\
            DESCRIPTION:acategory\\nadescription\n\
            LOCATION:astudio\\, abranch\n\
            END:VEVENT\n\
            END:VCALENDAR";
    assert_eq!(request.method, HttpMethod::Put);
    assert_eq!(
        request.url.as_str(),
        "https://example.com/user/cal/e110d27a-1513-40c1-8e8a-db8f50aac1d2.ics"
    );
    assert_eq!(request.body.unwrap().as_bytes(), body.as_bytes());
}

#[test]
fn test_build_delete_req() {
    let event = make_event(true);
    let protocol = "https";
    let url = "example.com";
    let params = CaldavParams::new(protocol, url, "user", "pass", "cal");
    let request = build_delete_req(&params, &event.uid.unwrap());

    assert_eq!(request.method, HttpMethod::Delete);
    assert_eq!(
        request.url.as_str(),
        "https://example.com/user/cal/e110d27a-1513-40c1-8e8a-db8f50aac1d2.ics"
    );
    assert!(request.body.is_none());
}

#[test]
fn test_build_list_req() {
    let protocol = "https";
    let url = "example.com";
    let params = CaldavParams::new(protocol, url, "user", "pass", "cal");
    let date = Date { year: 2024, month: 1, day: 1 };
    let request = build_list_req(&params, &date);

    assert_eq!(request.method, HttpMethod::Get);
    assert_eq!(request.url.as_str(), "https://example.com/user/cal/");
}

#[test]
fn test_parse_event_list() {
    let mut expected_event_list = Vec::new();
    expected_event_list.push(make_event(true));
    let event_list_str = "BEGIN:VCALENDAR
VERSION:2.0
PRODID:-//Ycal//Ycal//EN
BEGIN:VEVENT
UID:e110d27a-1513-40c1-8e8a-db8f50aac1d2
DTSTART:20000205T050000Z
DTEND:20000205T090000Z
DESCRIPTION:acategory\\nadescription
DTSTAMP:20000205T160000Z
LOCATION:astudio\\, abranch
SUMMARY:atitle
END:VEVENT
END:VCALENDAR";

    let event_list = parse_event_list(event_list_str).unwrap();
    assert_eq!(event_list, expected_event_list);
}

#[test]
fn test_escape_ical_value() {
    let value = "New York City, NY; USA\\ \nnewline";
    assert_eq!(
        escape_ical_value(value),
        "New York City\\, NY\\; USA\\\\ \\nnewline"
    );
}

#[test]
fn escape_leaves_plain_text_alone() {
    assert_eq!(escape_ical_value("plain text"), "plain text");
    assert_eq!(escape_ical_value(""), "");
}

#[test]
fn cal_and_event_urls() {
    let params = CaldavParams::default();
    assert_eq!(params.cal_url(), "https://example.com/user/cal/");
    assert_eq!(params.event_url("abc"), "https://example.com/user/cal/abc.ics");
    assert_eq!(params.event_url("abc"), format!("{}abc.ics", params.cal_url()));
}

#[test]
fn list_request_covers_the_utc_day() {
    let params = CaldavParams::new("http", "127.0.0.1:5232", "u", "p", "c");
    let request = build_list_req(&params, &Date { year: 2024, month: 12, day: 31 });
    let body = request.body.unwrap();
    assert!(body.starts_with("<?xml version=\"1.0\" encoding=\"utf-8\" ?>"));
    assert!(body.contains("<C:time-range start=\"20241231T000000Z\"\n                               end=\"20250101T000000Z\"/>"));
    assert!(body.ends_with("</C:calendar-query>"));
    assert_eq!(
        request.headers,
        vec![
            ("Content-Type".to_string(), "text/xml".to_string()),
            ("Depth".to_string(), "1".to_string())
        ]
    );
    assert_eq!(request.user, "u");
    assert_eq!(request.pass, "p");
}

#[test]
fn list_request_in_a_leap_february() {
    let params = CaldavParams::default();
    let request = build_list_req(&params, &Date { year: 2024, month: 2, day: 28 });
    let body = request.body.unwrap();
    assert!(body.contains("start=\"20240228T000000Z\""));
    assert!(body.contains("end=\"20240229T000000Z\""));
}

#[test]
fn create_request_populates_the_event() {
    let params = CaldavParams::default();
    let mut event = make_event(false);
    let request = build_create_req(&params, &mut event);
    let uid = event.uid.clone().unwrap();
    assert_eq!(uid.len(), 36);
    assert_eq!(uid.chars().nth(14), Some('4'));
    assert!(event.stamp.is_some());
    assert_eq!(request.url, format!("https://example.com/user/cal/{}.ics", uid));
    assert_eq!(
        request.headers,
        vec![("Content-Type".to_string(), "text/calendar".to_string())]
    );
}

#[test]
fn stored_event_reads_back() {
    let params = CaldavParams::default();
    let mut event = make_event(true);
    let request = build_create_req(&params, &mut event);
    let read = parse_event_list(&request.body.unwrap()).unwrap();
    assert_eq!(read.len(), 1);
    let back = &read[0];
    assert_eq!(back.uid, event.uid);
    assert_eq!(back.stamp, event.stamp);
    assert_eq!(back.title, event.title);
    assert_eq!(back.description, event.description);
    assert_eq!(back.category, event.category);
    assert_eq!(back.studio, event.studio);
    assert_eq!(back.branch, event.branch);
    // The stored UTC reading comes back as a US/Eastern wall-clock reading.
    assert_eq!(
        back.start_datetime,
        from_eastern_local(&LocalDateTime { year: 2000, month: 2, day: 5, hour: 10, minute: 0, second: 0 })
            .unwrap()
    );
}

#[test]
fn body_escapes_commas_in_values() {
    let mut event = make_event(true);
    event.studio = "Studio A, upstairs".to_string();
    let body = caldav_body(&event);
    assert!(body.contains("LOCATION:Studio A\\, upstairs\\, abranch\n"));
}

#[test]
fn reading_reports_missing_pieces() {
    let no_location_sep = "BEGIN:VEVENT\nLOCATION:nowhere\nEND:VEVENT";
    assert_eq!(
        parse_event_list(no_location_sep),
        Err(IcalEventError::MissingLocationSeparator)
    );
    let no_description_sep = "BEGIN:VEVENT\nDESCRIPTION:plain\nEND:VEVENT";
    assert_eq!(
        parse_event_list(no_description_sep),
        Err(IcalEventError::MissingDescriptionSeparator)
    );
    let no_start = "BEGIN:VEVENT\nUID:x\nEND:VEVENT";
    assert_eq!(parse_event_list(no_start), Err(IcalEventError::MissingStart));
    let no_end = "BEGIN:VEVENT\nDTSTART:20000205T050000Z\nEND:VEVENT";
    assert_eq!(parse_event_list(no_end), Err(IcalEventError::MissingEnd));
    let no_uid = "BEGIN:VEVENT\nDTSTART:20000205T050000Z\nDTEND:20000205T060000Z\nEND:VEVENT";
    assert_eq!(parse_event_list(no_uid), Err(IcalEventError::MissingUid));
    let no_stamp =
        "BEGIN:VEVENT\nDTSTART:20000205T050000Z\nDTEND:20000205T060000Z\nUID:x\nEND:VEVENT";
    assert_eq!(parse_event_list(no_stamp), Err(IcalEventError::MissingStamp));
    let bad_time = "BEGIN:VEVENT\nDTSTART:yesterday\nEND:VEVENT";
    assert_eq!(parse_event_list(bad_time), Err(IcalEventError::InvalidDateTime));
    let no_value = "BEGIN:VEVENT\nSUMMARY:\nEND:VEVENT";
    assert_eq!(parse_event_list(no_value), Err(IcalEventError::MissingValue));
    let no_name = "BEGIN:VEVENT\n:value\nEND:VEVENT";
    assert_eq!(parse_event_list(no_name), Err(IcalEventError::InvalidProperty));
    // 02:30 on 2024-03-10 does not exist in US/Eastern.
    let gap = "BEGIN:VEVENT\nDTSTART:20240310T023000Z\nEND:VEVENT";
    assert_eq!(parse_event_list(gap), Err(IcalEventError::NotSingleLocalTime));
}

#[test]
fn pieces_without_an_event_end_are_skipped() {
    assert_eq!(parse_event_list("BEGIN:VCALENDAR\nEND:VCALENDAR"), Ok(vec![]));
    assert_eq!(parse_event_list(""), Ok(vec![]));
}
