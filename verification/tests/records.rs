use orthoterm::error::CalendarError;
use orthoterm::json::{create_calendar_data, get_calendar_path, OrthoCalendarData};

fn empty_record() -> OrthoCalendarData {
    OrthoCalendarData {
        date: String::new(),
        julian_date: String::new(),
        summary: String::new(),
        liturgical_notes: String::new(),
        lives: vec![],
        troparia: vec![],
        scripture: vec![],
    }
}

#[test]
fn test_has_content() {
    let empty = empty_record();
    assert!(!empty.has_content());

    let mut with_content = empty_record();
    with_content.summary = "Test".to_string();
    assert!(with_content.has_content());
}

#[test]
fn test_date_parsing() {
    let mut data = empty_record();
    data.date = "Sunday January 1, 2024/December 19, 2023".to_string();
    data.julian_date = "Sunday January 1, 2024/December 19, 2023".to_string();

    assert_eq!(
        data.gregorian_date().as_deref(),
        Some("Sunday January 1, 2024")
    );
    assert_eq!(
        data.julian_date().as_deref(),
        Some("Sunday January 1, 2024/December 19, 2023")
    );
}

#[test]
fn new_stores_sortable_date() {
    let rec = OrthoCalendarData::new(
        "January 1, 2024".to_string(),
        "December 19, 2023".to_string(),
        "Feast".to_string(),
        "Tone 1".to_string(),
        vec!["A".to_string()],
        vec![],
        vec![],
    )
    .unwrap();
    assert_eq!(rec.date, "2024-01-01");
    assert_eq!(rec.julian_date, "December 19, 2023");
    assert_eq!(rec.summary, "Feast");
    assert_eq!(rec.lives, vec!["A".to_string()]);
}

#[test]
fn new_rejects_unparsable_date() {
    let r = OrthoCalendarData::new(
        "not a date".to_string(),
        String::new(),
        String::new(),
        String::new(),
        vec![],
        vec![],
        vec![],
    );
    assert_eq!(r.unwrap_err(), CalendarError::InvalidInput);
}

#[test]
fn create_splits_header_with_parenthesis_guard() {
    let rec = create_calendar_data(
        "April 25, 2024".to_string(),
        "April 12, 2024".to_string(),
        "St. Mark (Fast) Tone 4".to_string(),
        vec![],
        vec![],
        vec![],
    )
    .unwrap();
    assert_eq!(rec.date, "2024-04-25");
    assert_eq!(rec.summary, "St. Mark (Fast)");
    assert_eq!(rec.liturgical_notes, "Tone 4");
}

#[test]
fn create_cleans_newlines_and_ordinals() {
    let rec = create_calendar_data(
        "March 3, 2023".to_string(),
        "February 18, 2023".to_string(),
        "The 3 rd Sunday By Monastic Charter: strict".to_string(),
        vec!["  Saint\nOne  ".to_string()],
        vec!["Hymn\ntext".to_string()],
        vec![],
    )
    .unwrap();
    assert_eq!(rec.summary, "The 3rd Sunday");
    assert_eq!(rec.liturgical_notes, "By Monastic Charter: strict");
    assert_eq!(rec.lives, vec!["Saint One".to_string()]);
    assert_eq!(rec.troparia, vec!["Hymn text".to_string()]);
}

#[test]
fn calendar_path_under_data_dir() {
    let p = get_calendar_path("/data/orthoterm", 2024);
    assert_eq!(p, "/data/orthoterm/calendar_2024.json");
}

#[test]
fn error_kinds_describe_themselves() {
    assert_eq!(CalendarError::InvalidInput.describe(), "invalid input");
    assert_eq!(CalendarError::FetchFailed.describe(), "fetch failed");
    assert_eq!(CalendarError::IncompleteSource.describe(), "incomplete source");
    assert_eq!(
        CalendarError::PersistenceFailure.describe(),
        "persistence failure"
    );
}
