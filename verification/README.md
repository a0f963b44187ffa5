# ycal

Turns a gym's class schedule into calendar events on a CalDAV server.

- `src/` — the verified library (Verus):
  - `text` — character-level string helpers (search, decimal formatting);
  - `datetime` — dates and instants as plain values, the iCalendar UTC form,
    next day, Unix time, and the calls into `chrono` / `chrono-tz`;
  - `event` — `Event`, `Changes`, populating an event and its iCalendar text;
  - `json` — JSON values; reading the schedule data out of the JSONP answer
    (the JSON text itself is parsed by `serde_json`);
  - `schedule` — reading schedule rows into events, substitutions and
    cancellations, the schedule's address;
  - `caldav` — server parameters, the create/list/delete requests, the
    stored document; `caldav::read` reads events back from iCalendar text.
- `app/` — the command line: configuration and HTTP.
- `tests/` — the tests.
