use orthoterm::header::split_header;

#[test]
fn tone_probe_wins_over_fast_guard() {
    // The parenthesis guard keeps ` Fast` from matching inside the
    // parenthetical, so the split lands at ` Tone`.
    let (summary, details) = split_header("St. Mark (Fast) Tone 4");
    assert_eq!(summary, "St. Mark (Fast)");
    assert_eq!(details, "Tone 4");
}

#[test]
fn fast_guard_blocks_parenthetical() {
    // ` Fast` followed by `)` must not split; no later probe matches,
    // so the whole header is the summary.
    let (summary, details) = split_header("A Long Fast)");
    assert_eq!(summary, "A Long Fast)");
    assert_eq!(details, "");
}

#[test]
fn fast_probe_keeps_anchor_in_details() {
    let (summary, details) = split_header("Apostle Fast begins");
    assert_eq!(summary, "Apostle");
    assert_eq!(details, " Fast begins");
}

#[test]
fn charter_probe_splits_before_anchor() {
    let (summary, details) = split_header("Great Feast By Monastic Charter: strict fast");
    assert_eq!(summary, "Great Feast ");
    assert_eq!(details, "By Monastic Charter: strict fast");
}

#[test]
fn fish_probe_drops_separator_space() {
    let (summary, details) = split_header("Annunciation Fish Allowed");
    assert_eq!(summary, "Annunciation");
    assert_eq!(details, "Fish Allowed");
}

#[test]
fn food_with_probe_drops_separator_space() {
    let (summary, details) = split_header("Some Day Food With Oil");
    assert_eq!(summary, "Some Day");
    assert_eq!(details, "Food With Oil");
}

#[test]
fn no_probe_leaves_header_whole() {
    let (summary, details) = split_header("Plain commemoration day");
    assert_eq!(summary, "Plain commemoration day");
    assert_eq!(details, "");
}

#[test]
fn first_tone_occurrence_wins() {
    let (summary, details) = split_header("A Tone 1 and Tone 2");
    assert_eq!(summary, "A");
    assert_eq!(details, "Tone 1 and Tone 2");
}
