use chrono::NaiveDate;
use tsunoru::calendar::{
    append_folded_content_line, escape_text, offset_immediately_before_gap, render_icalendar,
    resolve_event_start, validate_event, IcalendarError, IcalendarEvent,
};

fn wall_clock(y: i32, m: u32, d: u32, h: u32, min: u32) -> i64 {
    NaiveDate::from_ymd_opt(y, m, d).unwrap().and_hms_opt(h, min, 0).unwrap().and_utc().timestamp()
}

fn event() -> IcalendarEvent {
    IcalendarEvent {
        public_id: "6f1c3f0a-3a4b-4c2d-9e8f-0123456789ab".to_string(),
        name: "夏の会, 1次会".to_string(),
        organizer_note: Some("持ち物: 水;\n雨天決行".to_string()),
        time_zone: "Asia/Tokyo".to_string(),
        local_date: "2027-01-15".to_string(),
        local_time: "19:00".to_string(),
        generated_at_utc: "20260101T000000Z".to_string(),
    }
}

#[test]
fn text_is_escaped_for_icalendar() {
    assert_eq!(escape_text("a,b;c\\d").as_deref(), Some("a\\,b\\;c\\\\d"));
    assert_eq!(escape_text("line\r\nnext\nlast").as_deref(), Some("line\\nnext\\nlast"));
    assert_eq!(escape_text("tab\there").as_deref(), Some("tab\there"));
    assert_eq!(escape_text("bell\u{7}"), None);
}

#[test]
fn long_lines_are_folded_at_75_octets() {
    let mut out = String::new();
    let line = "x".repeat(80);
    assert_eq!(append_folded_content_line(&mut out, &line), Ok(()));
    assert_eq!(out, format!("{}\r\n {}\r\n", "x".repeat(75), "x".repeat(5)));
    let mut wide = String::new();
    let japanese = "あ".repeat(30);
    assert_eq!(append_folded_content_line(&mut wide, &japanese), Ok(()));
    assert_eq!(wide, format!("{}\r\n {}\r\n", "あ".repeat(25), "あ".repeat(5)));
    let mut untouched = String::from("kept");
    assert_eq!(append_folded_content_line(&mut untouched, "a\nb"), Err(IcalendarError::InvalidData));
    assert_eq!(untouched, "kept");
}

#[test]
fn calendar_is_rendered_with_crlf_lines() {
    let text = render_icalendar(&event()).unwrap();
    assert_eq!(
        text,
        "BEGIN:VCALENDAR\r\nPRODID:-//TSUNORU//Schedule Coordination//JA\r\nVERSION:2.0\r\nCALSCALE:GREGORIAN\r\nBEGIN:VEVENT\r\nUID:urn:uuid:6f1c3f0a-3a4b-4c2d-9e8f-0123456789ab\r\nDTSTAMP:20260101T000000Z\r\nDTSTART:20270115T100000Z\r\nSUMMARY:夏の会\\, 1次会\r\nDESCRIPTION:持ち物: 水\\;\\n雨天決行\r\nEND:VEVENT\r\nEND:VCALENDAR\r\n"
    );
}

#[test]
fn invalid_calendar_data_is_refused() {
    assert_eq!(validate_event(&event()), Ok(()));
    let mut bad_id = event();
    bad_id.public_id = "nope".to_string();
    assert_eq!(render_icalendar(&bad_id), Err(IcalendarError::InvalidData));
    let mut bad_zone = event();
    bad_zone.time_zone = "Mars/Base".to_string();
    assert_eq!(render_icalendar(&bad_zone), Err(IcalendarError::InvalidData));
    let mut blank = event();
    blank.name = "  ".to_string();
    assert_eq!(validate_event(&blank), Err(IcalendarError::InvalidData));
    assert_eq!(IcalendarError::InvalidData.message(), "event data cannot form a safe iCalendar object");
}

#[test]
fn daylight_saving_edges_resolve_predictably() {
    let gap = wall_clock(2026, 3, 8, 2, 30);
    assert_eq!(offset_immediately_before_gap("America/New_York", gap), Ok(-5 * 3600));
    assert_eq!(resolve_event_start("America/New_York", gap), Ok(gap + 5 * 3600));
    let ambiguous = wall_clock(2026, 11, 1, 1, 30);
    assert_eq!(resolve_event_start("America/New_York", ambiguous), Ok(ambiguous + 4 * 3600));
    let plain = wall_clock(2027, 1, 15, 19, 0);
    assert_eq!(resolve_event_start("Asia/Tokyo", plain), Ok(plain - 9 * 3600));
}
