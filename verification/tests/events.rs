use ycal::datetime::{
    from_eastern_local, next_day, unix_timestamp, utc_dt_to_ical, LocalDateTime, UtcDateTime,
};
use ycal::{
    detect_changes, jquery_payload, parse_event, parse_jquery, parse_schedule, schedule_data, schedule_url,
    Changes, Date, Event, JsonValue, ScheduleError,
};

fn create_dt(hours_offset: u32) -> UtcDateTime {
    from_eastern_local(&LocalDateTime {
        year: 2000,
        month: 2,
        day: 5,
        hour: 5 + hours_offset,
        minute: 0,
        second: 0,
    })
    .unwrap()
}

fn make_event(populate_static: bool) -> Event {
    Event::new(
        create_dt(0),
        create_dt(4),
        "atitle",
        "adescription",
        Changes::Normal,
        "astudio",
        "acategory",
        "abranch",
        if populate_static {
            Some(String::from("e110d27a-1513-40c1-8e8a-db8f50aac1d2"))
        } else {
            None
        },
        if populate_static { Some(create_dt(6)) } else { None },
    )
}

fn row(cells: &[&str]) -> JsonValue {
    JsonValue::Array(cells.iter().map(|c| JsonValue::String(c.to_string())).collect())
}

#[test]
fn create_event_from_json() {
    let event = make_event(false);
    let json = row(&[
        "Saturday, February 5, 2000",
        "5:00am-9:00am",
        "atitle",
        "",
        "astudio&nbsp;",
        "acategory",
        "",
        "",
        "abranch",
        "",
        "YWRlc2NyaXB0aW9u",
        "",
        "",
        "",
        "",
        "",
    ]);

    assert_eq!(parse_event(&json).unwrap(), event);
}

#[test]
fn test_detect_changes_subbed() {
    let json = row(&[
        "", "", "",
        "Yoga<br><strong>New Instructor<span class=\"subbed\" style=\"color: #CC0000;\"><br>(sub for Old Instructor)</span></strong><br />",
        "", "", "", "", "", "", "", "", "", "", "", "",
    ]);

    assert_eq!(
        detect_changes(&json),
        Changes::Subbed(String::from("Old Instructor")),
    );
}

#[test]
fn test_detect_changes_cancelled() {
    let json = row(&[
        "", "", "",
        "CANCELED: Yoga<br><strong>Instructor</strong><br />",
        "", "", "", "", "", "", "", "", "", "", "", "",
    ]);

    assert_eq!(detect_changes(&json), Changes::Cancelled,);
}

#[test]
fn test_detect_changes_normal() {
    let json = row(&[
        "", "", "",
        "Yoga<br><strong>Instructor</strong><br />",
        "", "", "", "", "", "", "", "", "", "", "", "",
    ]);

    assert_eq!(detect_changes(&json), Changes::Normal,);
}

#[test]
fn test_to_ical_str() {
    let mut event = make_event(true);

    let ical_str = event.to_ical_str();
    assert_eq!(
        ical_str,
        "BEGIN:VCALENDAR
VERSION:2.0
PRODID:-//Ycal//Ycal//EN
BEGIN:VEVENT
UID:e110d27a-1513-40c1-8e8a-db8f50aac1d2
DTSTAMP:20000205T160000Z
DTSTART:20000205T100000Z
DTEND:20000205T140000Z
SUMMARY:atitle
DESCRIPTION:adescription
END:VEVENT
END:VCALENDAR"
    );
}

#[test]
fn cancellation_wins_over_substitution() {
    let json = row(&["", "", "", "CANCELLED (sub for Someone)"]);
    assert_eq!(detect_changes(&json), Changes::Cancelled);
}

#[test]
fn substitute_capture_is_greedy_within_a_line() {
    let json = row(&["", "", "", "x (sub for A) and (sub for B) y"]);
    assert_eq!(
        detect_changes(&json),
        Changes::Subbed(String::from("A) and (sub for B"))
    );
    let json = row(&["", "", "", "(sub for A\nB)"]);
    assert_eq!(detect_changes(&json), Changes::Normal);
}

#[test]
fn populate_keeps_and_fills() {
    let mut kept = make_event(true);
    kept.populate();
    assert_eq!(kept, make_event(true));

    let mut filled = make_event(false);
    filled.populate();
    let uid = filled.uid.clone().unwrap();
    assert_eq!(uid.len(), 36);
    assert_eq!(uid.chars().filter(|c| *c == '-').count(), 4);
    assert!(filled.stamp.is_some());
    let once = (filled.uid.clone(), filled.stamp);
    filled.populate();
    assert_eq!((filled.uid.clone(), filled.stamp), once);
}

#[test]
fn ical_utc_text_of_years() {
    let t = |year| UtcDateTime { year, month: 3, day: 4, hour: 5, minute: 6, second: 7 };
    assert_eq!(utc_dt_to_ical(&t(2024)), "20240304T050607Z");
    assert_eq!(utc_dt_to_ical(&t(33)), "00330304T050607Z");
    assert_eq!(utc_dt_to_ical(&t(-5)), "-00050304T050607Z");
    assert_eq!(utc_dt_to_ical(&t(12345)), "+123450304T050607Z");
}

#[test]
fn next_day_rolls_over() {
    assert_eq!(
        next_day(&Date { year: 2023, month: 2, day: 28 }),
        Some(Date { year: 2023, month: 3, day: 1 })
    );
    assert_eq!(
        next_day(&Date { year: 2000, month: 2, day: 28 }),
        Some(Date { year: 2000, month: 2, day: 29 })
    );
    assert_eq!(
        next_day(&Date { year: 1900, month: 2, day: 28 }),
        Some(Date { year: 1900, month: 3, day: 1 })
    );
    assert_eq!(
        next_day(&Date { year: 2024, month: 12, day: 31 }),
        Some(Date { year: 2025, month: 1, day: 1 })
    );
    assert_eq!(next_day(&Date { year: 262142, month: 12, day: 31 }), None);
}

#[test]
fn unix_timestamps() {
    let t = UtcDateTime { year: 1970, month: 1, day: 1, hour: 0, minute: 0, second: 0 };
    assert_eq!(unix_timestamp(&t), 0);
    let t = UtcDateTime { year: 2000, month: 2, day: 5, hour: 10, minute: 0, second: 0 };
    assert_eq!(unix_timestamp(&t), 949744800);
    let t = UtcDateTime { year: 1969, month: 12, day: 31, hour: 23, minute: 59, second: 59 };
    assert_eq!(unix_timestamp(&t), -1);
    let t = UtcDateTime { year: 1600, month: 3, day: 1, hour: 0, minute: 0, second: 0 };
    assert_eq!(unix_timestamp(&t), -11670912000);
}

#[test]
fn schedule_url_of_a_day() {
    let url = schedule_url(&Date { year: 2024, month: 4, day: 3 }).unwrap();
    assert_eq!(
        url,
        "https://groupexpro.com/schedule/embed/json_schedule.php?schedule=\n        &instructor_id=true&a=988&location=5962&start=1712116800&end=1712116800"
    );
}

#[test]
fn jsonp_payload_and_data() {
    let input = "jQuery({\n \"aaData\": [\"inside\"]\n})";
    assert_eq!(jquery_payload(input), "{\n \"aaData\": [\"inside\"]\n}");

    let root = JsonValue::Object(vec![
        ("other".to_string(), JsonValue::Null),
        (
            "aaData".to_string(),
            JsonValue::Array(vec![JsonValue::String("inside".to_string())]),
        ),
    ]);
    assert_eq!(
        schedule_data(root),
        JsonValue::Array(vec![JsonValue::String("inside".to_string())])
    );
    assert_eq!(schedule_data(JsonValue::Array(vec![])), JsonValue::Null);
}

#[test]
fn schedule_errors() {
    assert_eq!(parse_schedule(&JsonValue::Null), Err(ScheduleError::NotAnArray));
    assert_eq!(parse_schedule(&JsonValue::Array(vec![])), Ok(vec![]));
    assert_eq!(parse_event(&row(&[])), Err(ScheduleError::MissingTimeRange));
    assert_eq!(
        parse_event(&row(&["Saturday, February 5, 2000", "5:00am"])),
        Err(ScheduleError::InvalidTimeRange)
    );
    assert_eq!(
        parse_event(&row(&["someday", "5:00am-9:00am"])),
        Err(ScheduleError::InvalidDateTime)
    );
    assert_eq!(
        parse_event(&row(&["Sunday, March 10, 2024", "2:30am-3:30am"])),
        Err(ScheduleError::NotSingleLocalTime)
    );
    assert_eq!(
        parse_event(&row(&["Saturday, February 5, 2000", "5:00am-9:00am", "t"])),
        Err(ScheduleError::MissingDetails)
    );
    let mut cells = vec!["Saturday, February 5, 2000", "5:00am-9:00am", "t", "", "", "", "", "", "", "", "!!"];
    assert_eq!(parse_event(&row(&cells)), Err(ScheduleError::InvalidBase64));
    cells[10] = "/w==";
    assert_eq!(parse_event(&row(&cells)), Err(ScheduleError::InvalidUtf8));
}

#[test]
fn schedule_rows_become_events() {
    let cells = [
        "Saturday, February 5, 2000",
        "5:00am-9:00am",
        "atitle",
        "",
        "astudio&nbsp;",
        "acategory",
        "",
        "",
        "abranch",
        "",
        "YWRlc2NyaXB0aW9u",
    ];
    let events = parse_schedule(&JsonValue::Array(vec![row(&cells), row(&cells)])).unwrap();
    assert_eq!(events, vec![make_event(false), make_event(false)]);
}

#[test]
fn find_relevant_json() {
    let input = r#"jQuery({
            "aaData": [
                "inside"
            ]
        })"#;
    let expected = JsonValue::Array(vec![JsonValue::String("inside".to_string())]);

    assert_eq!(parse_jquery(input).unwrap(), expected,);
}

#[test]
fn jsonp_answers_that_are_not_json() {
    assert!(parse_jquery("jQuery({ not json })").is_err());
    assert_eq!(parse_jquery("x({\"other\": 1})").unwrap(), JsonValue::Null);
    assert_eq!(
        parse_jquery("x({\"aaData\": [1.5, true, null, {\"k\": \"v\"}]})").unwrap(),
        JsonValue::Array(vec![
            JsonValue::Number("1.5".to_string()),
            JsonValue::Bool(true),
            JsonValue::Null,
            JsonValue::Object(vec![("k".to_string(), JsonValue::String("v".to_string()))]),
        ])
    );
}
