use orthoterm::calendar::{
    extract_section, parse_date_line, parse_lives, parse_scripture, parse_troparia, section_url,
};
use orthoterm::error::CalendarError;
use orthoterm::scraper::strip_html_tags;

#[test]
fn test_strip_html_tags() {
    // Test basic HTML stripping
    assert_eq!(strip_html_tags("<p>Hello</p>"), "Hello");

    // Test nested tags
    assert_eq!(
        strip_html_tags("<div><p>Hello <b>World</b>!</p></div>"),
        "Hello World!"
    );

    // Test multiple whitespace
    assert_eq!(strip_html_tags("Hello     World"), "Hello World");

    // Test empty input
    assert_eq!(strip_html_tags(""), "");

    // Test HTML entities
    assert_eq!(strip_html_tags("Hello&nbsp;World"), "Hello World");
}

#[test]
fn strip_is_idempotent_on_samples() {
    let samples = [
        "<p>Hello  <b>World</b>!</p>",
        "a < b\tand&nbsp;more ",
        "  <img src=\"x\">text<unclosed",
    ];
    for s in samples {
        let once = strip_html_tags(s);
        let twice = strip_html_tags(&once);
        assert_eq!(once, twice);
    }
}

#[test]
fn lives_split_at_image_markers() {
    let html = "<p>boilerplate</p><img src=\"a\">First Saint<br><img >Second Saint";
    let lives = parse_lives(html);
    assert_eq!(
        lives,
        vec!["First Saint".to_string(), "Second Saint".to_string()]
    );
}

#[test]
fn lives_discard_empty_segments() {
    let html = "intro<img src=\"a\">  <b> </b> <img src=\"b\">Kept";
    assert_eq!(parse_lives(html), vec!["Kept".to_string()]);
}

#[test]
fn scripture_split_at_anchor_markers() {
    let html = "head<a href=\"x\">Gen. 1:1-5</a> reading<a>John 1:1</a>";
    let scripture = parse_scripture(html);
    assert_eq!(
        scripture,
        vec!["Gen. 1:1-5 reading".to_string(), "John 1:1".to_string()]
    );
}

#[test]
fn troparia_one_entry_per_paragraph() {
    let html = "<html><p>Hymn one</p><p>Hymn two, verse</p></html>";
    let troparia = parse_troparia(html);
    assert_eq!(
        troparia,
        vec!["Hymn one".to_string(), "Hymn two, verse".to_string()]
    );
}

#[test]
fn section_url_enables_one_flag() {
    let url = section_url(1, 2, 2024, "dt").unwrap();
    assert_eq!(
        url,
        "http://holytrinityorthodox.com/calendar/calendar.php?month=1&today=2&year=2024&dt=1&header=0&lives=0&trp=0&scripture=0"
    );
    let url = section_url(12, 31, 1900, "lives").unwrap();
    assert_eq!(
        url,
        "http://holytrinityorthodox.com/calendar/calendar.php?month=12&today=31&year=1900&dt=0&header=0&lives=3&trp=0&scripture=0"
    );
}

#[test]
fn section_url_rejects_bad_input() {
    assert_eq!(section_url(0, 1, 2024, "dt").unwrap_err(), CalendarError::InvalidInput);
    assert_eq!(section_url(1, 32, 2024, "dt").unwrap_err(), CalendarError::InvalidInput);
    assert_eq!(section_url(1, 1, 1899, "dt").unwrap_err(), CalendarError::InvalidInput);
    assert_eq!(section_url(1, 1, 2101, "dt").unwrap_err(), CalendarError::InvalidInput);
    assert_eq!(
        section_url(1, 1, 2024, "unknown").unwrap_err(),
        CalendarError::InvalidInput
    );
}

#[test]
fn extract_section_dispatches() {
    let one = extract_section("header", "<b>Feast</b> Tone 1").unwrap();
    assert_eq!(one, vec!["Feast Tone 1".to_string()]);
    assert_eq!(
        extract_section("bogus", "x").unwrap_err(),
        CalendarError::InvalidInput
    );
}

#[test]
fn date_line_splits_gregorian_and_julian() {
    let (greg, julian) = parse_date_line("Sunday January 1, 2024/December 19, 2023").unwrap();
    assert_eq!(greg, "January 1, 2024");
    assert_eq!(julian, "December 19, 2023");
}

#[test]
fn date_line_without_slash_is_incomplete() {
    assert_eq!(
        parse_date_line("Sunday January 1, 2024").unwrap_err(),
        CalendarError::IncompleteSource
    );
}

#[test]
fn section_url_rejects_impossible_calendar_dates() {
    assert_eq!(
        section_url(2, 30, 2024, "dt").unwrap_err(),
        CalendarError::InvalidInput
    );
    assert_eq!(
        section_url(2, 29, 2023, "dt").unwrap_err(),
        CalendarError::InvalidInput
    );
    assert_eq!(
        section_url(4, 31, 2024, "dt").unwrap_err(),
        CalendarError::InvalidInput
    );
    assert!(section_url(2, 29, 2024, "dt").is_ok());
    assert!(section_url(4, 30, 2024, "dt").is_ok());
}

#[test]
fn troparia_blocks_are_structural() {
    // Text standing between paragraph blocks belongs to no hymn.
    assert_eq!(
        parse_troparia("<p>A</p>junk between<p>B</p>"),
        vec!["A".to_string(), "B".to_string()]
    );
    // A tag that merely starts with `p` does not open a block.
    assert_eq!(
        parse_troparia("<pre>code</pre><p>Hymn</p>"),
        vec!["Hymn".to_string()]
    );
    // Attributes and an unclosed final block are tolerated.
    assert_eq!(
        parse_troparia("<p class=\"h\">Styled</p><p>Solo hymn"),
        vec!["Styled".to_string(), "Solo hymn".to_string()]
    );
    // Blocks whose text strips to nothing are discarded.
    assert_eq!(parse_troparia("<p> <b> </b> </p><p>Kept</p>"), vec!["Kept".to_string()]);
    assert_eq!(parse_troparia("no paragraphs here"), Vec::<String>::new());
}
