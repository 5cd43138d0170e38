use orthoterm::date::Date;
use orthoterm::ical::{fix_ordinals, ical_event_fields, ical_file_path, sanitize_text};
use orthoterm::types::OrthoCalendarData;

fn export_record() -> OrthoCalendarData {
    OrthoCalendarData {
        date: "Sunday January 1, 2024/December 19, 2023".to_string(),
        header: "Feast of the Day Tone 1".to_string(),
        lives: vec!["Saint A".to_string(), "Saint B".to_string()],
        troparia: vec!["Hymn".to_string()],
        scripture: vec!["Gen. 1:1".to_string()],
    }
}

#[test]
fn sanitize_removes_backslashes_and_doubled_newlines() {
    assert_eq!(sanitize_text("a\\b"), "ab");
    assert_eq!(sanitize_text("line\n\nnext"), "line\nnext");
    assert_eq!(sanitize_text("  padded  "), "padded");
    assert_eq!(sanitize_text(""), "");
}

#[test]
fn fix_ordinals_joins_spaced_suffixes() {
    assert_eq!(fix_ordinals("the 3 rd day"), "the 3rd day");
    assert_eq!(fix_ordinals("1 st 2 nd 4 th and more"), "1st 2nd 4th and more");
    assert_eq!(fix_ordinals("no ordinals here"), "no ordinals here");
}

#[test]
fn event_fields_combine_summary_and_description() {
    let rec = export_record();
    let (date, summary, description) = ical_event_fields(&rec).unwrap().unwrap();
    assert_eq!(date, Date { year: 2024, month: 1, day: 1 });
    assert_eq!(summary, "Feast of the Day - Saint A");
    assert_eq!(description, "Tone 1\n\n\nSaint A\nSaint B\n\n\nHymn\n\n\nGen. 1:1");
}

#[test]
fn empty_header_yields_no_event() {
    let mut rec = export_record();
    rec.header = "  ".to_string();
    assert!(ical_event_fields(&rec).unwrap().is_none());
}

#[test]
fn bad_date_line_aborts_export() {
    let mut rec = export_record();
    rec.date = "garbage".to_string();
    assert_eq!(
        ical_event_fields(&rec).unwrap_err(),
        orthoterm::error::CalendarError::InvalidInput
    );
}

#[test]
fn ical_path_under_export_dir() {
    assert_eq!(
        ical_file_path("/data/ical", 2024),
        "/data/ical/calendar_2024.ics"
    );
}
