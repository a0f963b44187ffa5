//! Schedule-to-calendar synchronisation: reads a gym's class schedule,
//! turns each class into an iCalendar event, and builds the CalDAV requests
//! that store, list and delete those events.

pub mod caldav;
pub mod datetime;
pub mod event;
pub mod json;
pub mod schedule;
pub mod text;

pub use datetime::{Date, LocalDateTime, UtcDateTime};
pub use event::{Changes, Event};
pub use json::{jquery_payload, parse_jquery, schedule_data, JsonValue};
pub use schedule::{detect_changes, parse_event, parse_schedule, schedule_url, ScheduleError};
