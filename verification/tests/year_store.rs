use orthoterm::codec::{encode_calendar_json, parse_calendar_json};
use orthoterm::date::{days_in_month, format_sortable, parse_date, parse_sortable, Date};
use orthoterm::json::OrthoCalendarData;
use orthoterm::year::{is_month_complete, is_year_complete, merge_month_data, month_needs_fetch};

fn record_for(date: Date) -> OrthoCalendarData {
    OrthoCalendarData {
        date: format_sortable(date),
        julian_date: "some julian day".to_string(),
        summary: "Commemoration".to_string(),
        liturgical_notes: String::new(),
        lives: vec!["Saint".to_string()],
        troparia: vec![],
        scripture: vec![],
    }
}

fn month_records(year: i32, month: u32, days: u32) -> Vec<OrthoCalendarData> {
    let mut out = Vec::new();
    for day in 1..=days {
        out.push(record_for(Date { year, month, day }));
    }
    out
}

#[test]
fn sortable_date_roundtrip() {
    let samples = [
        Date { year: 1900, month: 1, day: 1 },
        Date { year: 2023, month: 12, day: 31 },
        Date { year: 2024, month: 2, day: 29 },
        Date { year: 2100, month: 7, day: 15 },
    ];
    for d in samples {
        let text = format_sortable(d);
        assert_eq!(parse_sortable(&text), Some(d));
    }
    assert_eq!(format_sortable(Date { year: 2024, month: 1, day: 1 }), "2024-01-01");
    assert_eq!(parse_sortable("2024-02-30"), None);
    assert_eq!(parse_sortable("2024-13-01"), None);
    assert_eq!(parse_sortable("2024/01/01"), None);
}

#[test]
fn long_date_form_parses() {
    assert_eq!(
        parse_date("January 1, 2024"),
        Some(Date { year: 2024, month: 1, day: 1 })
    );
    assert_eq!(
        parse_date("September 30, 1999"),
        Some(Date { year: 1999, month: 9, day: 30 })
    );
    assert_eq!(parse_date("February 30, 2024"), None);
    assert_eq!(parse_date("Smarch 1, 2024"), None);
    assert_eq!(parse_date("January 1 2024"), None);
}

#[test]
fn leap_year_february_needs_29_days() {
    assert_eq!(days_in_month(2024, 2), 29);
    assert_eq!(days_in_month(2023, 2), 28);
    assert_eq!(days_in_month(1900, 2), 28);
    assert_eq!(days_in_month(2000, 2), 29);

    let partial = month_records(2024, 2, 28);
    assert!(!is_month_complete(&partial, 2024, 2));
    let full = month_records(2024, 2, 29);
    assert!(is_month_complete(&full, 2024, 2));
}

#[test]
fn partial_february_is_refetched_and_merged() {
    // 2023: eleven complete months plus a 20-day February.
    let mut data = Vec::new();
    for month in 1..=12u32 {
        let days = if month == 2 { 20 } else { days_in_month(2023, month) };
        data.append(&mut month_records(2023, month, days));
    }
    for month in 1..=12u32 {
        assert_eq!(month_needs_fetch(&data, 2023, month), month == 2);
    }
    assert!(!is_year_complete(&data, 2023));

    let fresh_february = month_records(2023, 2, 28);
    let merged = merge_month_data(data, fresh_february, 2);

    assert_eq!(merged.len(), 365);
    assert!(is_year_complete(&merged, 2023));
    for i in 1..merged.len() {
        assert!(merged[i - 1].date < merged[i].date);
    }
    let mut dates: Vec<&str> = merged.iter().map(|r| r.date.as_str()).collect();
    dates.dedup();
    assert_eq!(dates.len(), 365);
}

#[test]
fn save_load_roundtrip_keeps_content_and_order() {
    let mut data = Vec::new();
    for day in 1..=3u32 {
        data.push(record_for(Date { year: 2023, month: 5, day }));
    }
    data[0].summary = "Quote \" backslash \\ and\nnewline".to_string();
    data[1].lives = vec!["one".to_string(), "".to_string(), "three".to_string()];
    data[2].scripture = vec!["Gen. 1:1".to_string()];

    let text = encode_calendar_json(&data);
    let back = parse_calendar_json(&text).unwrap();

    assert_eq!(back.len(), data.len());
    for (a, b) in data.iter().zip(back.iter()) {
        assert_eq!(a.date, b.date);
        assert_eq!(a.julian_date, b.julian_date);
        assert_eq!(a.summary, b.summary);
        assert_eq!(a.liturgical_notes, b.liturgical_notes);
        assert_eq!(a.lives, b.lives);
        assert_eq!(a.troparia, b.troparia);
        assert_eq!(a.scripture, b.scripture);
    }
}

#[test]
fn empty_dataset_roundtrip() {
    let data: Vec<OrthoCalendarData> = Vec::new();
    let text = encode_calendar_json(&data);
    assert_eq!(text, "[]");
    assert_eq!(parse_calendar_json(&text).unwrap().len(), 0);
    assert!(parse_calendar_json("nonsense").is_none());
    assert!(parse_calendar_json("[]trailing").is_none());
}
