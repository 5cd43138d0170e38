//! Per-section content handling: the request URL for one (date,
//! section) pair, and the extraction of plain-text fragments from the
//! raw markup each section returns.

use crate::date::{digit_char, four_digits, two_digits};
use crate::error::CalendarError;
use crate::scraper::{strip_chars, strip_html_tags, strip_spec};
use crate::text::{
    chars_to_string, find_spec, find_sub, lemma_find_spec, lemma_matches_cons, matches_at,
    matches_at_exec, str_chars, str_eq, vec_range,
};
use vstd::prelude::*;

verus! {

/// Decimal text of `n` in 0..=99 without a leading zero.
pub open spec fn unpadded_spec(n: int) -> Seq<char> {
    if n < 10 {
        seq![digit_char(n)]
    } else {
        two_digits(n)
    }
}

/// The five section keys the source understands.
pub open spec fn section_valid_spec(sec: Seq<char>) -> bool {
    ||| sec == "dt"@
    ||| sec == "header"@
    ||| sec == "lives"@
    ||| sec == "trp"@
    ||| sec == "scripture"@
}

/// The value the section's own query flag takes when enabled: the
/// `lives` section is requested at level 3, every other one at 1.
pub open spec fn section_level_spec(sec: Seq<char>) -> Seq<char> {
    if sec == "lives"@ {
        seq!['3']
    } else {
        seq!['1']
    }
}

/// One flag assignment `name=value` for the query string.
pub open spec fn flag_spec(name: Seq<char>, sec: Seq<char>) -> Seq<char> {
    name + seq!['='] + (if name == sec {
        section_level_spec(sec)
    } else {
        seq!['0']
    })
}

/// The full request URL for one (date, section) pair: the fixed
/// endpoint, the date fields, and all five section flags with exactly
/// the requested one enabled.
pub open spec fn section_url_spec(month: int, day: int, year: int, sec: Seq<char>) -> Seq<char> {
    "http://holytrinityorthodox.com/calendar/calendar.php?month="@ + unpadded_spec(month)
        + "&today="@ + unpadded_spec(day) + "&year="@ + four_digits(year) + seq!['&'] + flag_spec(
        "dt"@,
        sec,
    ) + seq!['&'] + flag_spec("header"@, sec) + seq!['&'] + flag_spec("lives"@, sec) + seq!['&']
        + flag_spec("trp"@, sec) + seq!['&'] + flag_spec("scripture"@, sec)
}

fn push_unpadded(v: &mut Vec<char>, n: u32)
    requires
        n <= 99,
    ensures
        final(v)@ == old(v)@ + unpadded_spec(n as int),
{
    let ghost v0 = v@;
    if n < 10 {
        v.push(crate::date::digit_char_exec(n));
        proof {
            assert(v@ =~= v0 + unpadded_spec(n as int));
        }
    } else {
        v.push(crate::date::digit_char_exec(n / 10));
        v.push(crate::date::digit_char_exec(n % 10));
        proof {
            assert(v@ =~= v0 + unpadded_spec(n as int));
        }
    }
}

fn push_str(v: &mut Vec<char>, s: &str)
    ensures
        final(v)@ == old(v)@ + s@,
{
    let mut w = str_chars(s);
    v.append(&mut w);
}

fn push_flag(v: &mut Vec<char>, name: &str, sec: &str)
    ensures
        final(v)@ == old(v)@ + seq!['&'] + flag_spec(name@, sec@),
{
    let ghost v0 = v@;
    v.push('&');
    push_str(v, name);
    v.push('=');
    if str_eq(name, sec) {
        if str_eq(sec, "lives") {
            proof {
                reveal_strlit("lives");
            }
            v.push('3');
        } else {
            v.push('1');
        }
    } else {
        v.push('0');
    }
    proof {
        assert(v@ =~= v0 + seq!['&'] + flag_spec(name@, sec@));
    }
}

/// Builds the request URL for one (date, section) pair. The date must
/// be a real calendar date — month 1..=12, a year in 1900..=2100 and a
/// day the month actually has in that year — and the section one of
/// the five keys; anything else is invalid input.
pub fn section_url(month: u32, day: u32, year: i32, section: &str) -> (r: Result<
    String,
    CalendarError,
>)
    ensures
        match r {
            Ok(url) => crate::date::valid_date(
                crate::date::Date { year, month, day },
            ) && section_valid_spec(section@) && url@ == section_url_spec(
                month as int,
                day as int,
                year as int,
                section@,
            ),
            Err(e) => e == CalendarError::InvalidInput && !(crate::date::valid_date(
                crate::date::Date { year, month, day },
            ) && section_valid_spec(section@)),
        },
{
    if !(1 <= month && month <= 12) {
        return Err(CalendarError::InvalidInput);
    }
    if !(1900 <= year && year <= 2100) {
        return Err(CalendarError::InvalidInput);
    }
    if !(1 <= day && day <= crate::date::days_in_month(year, month)) {
        return Err(CalendarError::InvalidInput);
    }
    let valid = str_eq(section, "dt") || str_eq(section, "header") || str_eq(section, "lives")
        || str_eq(section, "trp") || str_eq(section, "scripture");
    if !valid {
        return Err(CalendarError::InvalidInput);
    }
    let mut v: Vec<char> = Vec::new();
    push_str(&mut v, "http://holytrinityorthodox.com/calendar/calendar.php?month=");
    push_unpadded(&mut v, month);
    push_str(&mut v, "&today=");
    push_unpadded(&mut v, day);
    push_str(&mut v, "&year=");
    let y = year as u32;
    v.push(crate::date::digit_char_exec(y / 1000));
    v.push(crate::date::digit_char_exec((y / 100) % 10));
    v.push(crate::date::digit_char_exec((y / 10) % 10));
    v.push(crate::date::digit_char_exec(y % 10));
    let ghost mid = v@;
    proof {
        assert(mid =~= "http://holytrinityorthodox.com/calendar/calendar.php?month="@
            + unpadded_spec(month as int) + "&today="@ + unpadded_spec(day as int) + "&year="@
            + four_digits(year as int));
    }
    push_flag(&mut v, "dt", section);
    push_flag(&mut v, "header", section);
    push_flag(&mut v, "lives", section);
    push_flag(&mut v, "trp", section);
    push_flag(&mut v, "scripture", section);
    proof {
        assert(v@ =~= section_url_spec(month as int, day as int, year as int, section@));
    }
    Ok(chars_to_string(&v))
}

/// The pieces of `s` between occurrences of `pat`, in order: what
/// `str::split` yields. The piece before the first occurrence comes
/// first; with no occurrence the whole text is the single piece.
pub open spec fn split_on(s: Seq<char>, pat: Seq<char>) -> Seq<Seq<char>>
    decreases s.len(),
    via split_on_decreases
{
    if pat.len() == 0 {
        seq![s]
    } else {
        let i = find_spec(s, pat);
        if i < 0 {
            seq![s]
        } else {
            seq![s.take(i)] + split_on(s.skip(i + pat.len()), pat)
        }
    }
}

#[via_fn]
proof fn split_on_decreases(s: Seq<char>, pat: Seq<char>) {
    if pat.len() > 0 {
        lemma_find_spec(s, pat);
    }
}

/// The text of one marker-delimited segment: everything after the
/// first `>` (the tail of the marker's tag), markup-stripped; a
/// segment without `>` is stripped whole.
pub open spec fn entry_text(p: Seq<char>) -> Seq<char> {
    let j = find_spec(p, seq!['>']);
    if j >= 0 {
        strip_spec(p.skip(j + 1))
    } else {
        strip_spec(p)
    }
}

/// The texts of the given segments, empty ones discarded.
pub open spec fn entries_of(parts: Seq<Seq<char>>) -> Seq<Seq<char>>
    decreases parts.len(),
{
    if parts.len() == 0 {
        Seq::empty()
    } else {
        let t = entry_text(parts[0]);
        (if t.len() == 0 {
            Seq::<Seq<char>>::empty()
        } else {
            seq![t]
        }) + entries_of(parts.drop_first())
    }
}

/// Per-entry extraction for a marker-structured section: the text is
/// segmented at each marker, the leading boilerplate segment is
/// discarded, and each remaining segment yields its stripped text
/// unless empty.
pub open spec fn marker_entries(html: Seq<char>, marker: Seq<char>) -> Seq<Seq<char>> {
    entries_of(split_on(html, marker).skip(1))
}

fn split_on_exec(v: &Vec<char>, pat: &Vec<char>) -> (r: Vec<Vec<char>>)
    requires
        pat@.len() >= 1,
    ensures
        r.deep_view() == split_on(v@, pat@),
{
    let mut parts: Vec<Vec<char>> = Vec::new();
    let mut rest: Vec<char> = vec_range(v, 0, v.len());
    proof {
        assert(rest@ =~= v@);
    }
    loop
        invariant
            pat@.len() >= 1,
            split_on(v@, pat@) == parts.deep_view() + split_on(rest@, pat@),
        decreases rest@.len(),
    {
        let ghost before = parts.deep_view();
        match find_sub(&rest, pat) {
            Some(i) => {
                proof {
                    lemma_find_spec(rest@, pat@);
                }
                let piece = vec_range(&rest, 0, i);
                let ghost old_rest = rest@;
                let new_rest = vec_range(&rest, i + pat.len(), rest.len());
                parts.push(piece);
                proof {
                    assert(piece@ =~= old_rest.take(i as int));
                    assert(new_rest@ =~= old_rest.skip(i + pat@.len()));
                    assert(parts.deep_view() =~~= before.push(old_rest.take(i as int)));
                    assert(split_on(old_rest, pat@) == seq![old_rest.take(i as int)] + split_on(
                        new_rest@,
                        pat@,
                    ));
                    assert(parts.deep_view() + split_on(new_rest@, pat@) =~~= before + split_on(
                        old_rest,
                        pat@,
                    ));
                }
                rest = new_rest;
            },
            None => {
                let ghost old_rest = rest@;
                parts.push(rest);
                proof {
                    assert(split_on(old_rest, pat@) =~= seq![old_rest]);
                    assert(parts.deep_view() =~~= before.push(old_rest));
                    assert(parts.deep_view() =~~= before + split_on(old_rest, pat@));
                }
                return parts;
            },
        }
    }
}

/// Extracts the entries of a marker-structured section.
fn extract_marker_entries(html: &str, marker: &str) -> (r: Vec<String>)
    requires
        marker@.len() >= 1,
    ensures
        r.deep_view() == marker_entries(html@, marker@),
{
    let v = str_chars(html);
    let pat = str_chars(marker);
    let parts = split_on_exec(&v, &pat);
    let ghost pdv = parts.deep_view();
    let mut out: Vec<String> = Vec::new();
    let mut i: usize = 1;
    proof {
        assert(out.deep_view() + entries_of(pdv.skip(1)) =~= entries_of(pdv.skip(1)));
    }
    if parts.len() <= 1 {
        proof {
            if pdv.len() == 1 {
                assert(pdv.skip(1) =~= Seq::<Seq<char>>::empty());
            }
            assert(pdv.len() >= 1) by {
                assert(split_on(v@, pat@).len() >= 1);
            }
            assert(out.deep_view() =~= marker_entries(html@, marker@));
        }
        return out;
    }
    let n = parts.len();
    while i < n
        invariant
            1 <= i <= n,
            n == pdv.len(),
            pdv == parts.deep_view(),
            entries_of(pdv.skip(1)) == out.deep_view() + entries_of(pdv.skip(i as int)),
        decreases n - i,
    {
        let ghost t = pdv.skip(i as int);
        proof {
            assert(t[0] == pdv[i as int]);
            assert(t.drop_first() =~= pdv.skip(i + 1));
        }
        let part = &parts[i];
        proof {
            assert(pdv[i as int] == parts@[i as int]@);
        }
        let ghost before = out.deep_view();
        let text = entry_text_exec(part);
        if !text.as_str().is_empty() {
            proof {
                assert(text@.len() != 0);
            }
            out.push(text);
            proof {
                assert(entry_text(pdv[i as int]).len() != 0);
                assert(out.deep_view() =~= before.push(entry_text(t[0])));
                assert(entries_of(t) == seq![entry_text(t[0])] + entries_of(t.drop_first()));
                assert(out.deep_view() + entries_of(pdv.skip(i + 1)) =~= before + entries_of(t));
            }
        } else {
            proof {
                assert(text@.len() == 0);
                assert(entry_text(t[0]).len() == 0);
                assert(entries_of(t) =~= entries_of(t.drop_first()));
            }
        }
        i = i + 1;
    }
    proof {
        assert(pdv.skip(n as int) =~= Seq::<Seq<char>>::empty());
        assert(out.deep_view() =~= entries_of(pdv.skip(1)));
    }
    out
}

fn entry_text_exec(p: &Vec<char>) -> (r: String)
    ensures
        r@ == entry_text(p@),
{
    let mut gt: Vec<char> = Vec::new();
    gt.push('>');
    proof {
        assert(gt@ =~= seq!['>']);
    }
    let stripped = match find_sub(p, &gt) {
        Some(j) => {
            let n = p.len();
            proof {
                lemma_find_spec(p@, seq!['>']);
            }
            let tail = vec_range(p, j + 1, n);
            proof {
                assert(tail@ =~= p@.skip(j + 1));
            }
            strip_chars(&tail)
        },
        None => strip_chars(p),
    };
    chars_to_string(&stripped)
}

/// Lives entries: the source marks each commemorated figure with an
/// image tag; the text after each marker is one entry.
pub fn parse_lives(html: &str) -> (r: Vec<String>)
    ensures
        r.deep_view() == marker_entries(html@, "<img"@),
{
    proof {
        reveal_strlit("<img");
    }
    extract_marker_entries(html, "<img")
}

/// Scripture entries: each reading is introduced by an anchor-link
/// opening tag; the text after each marker is one entry.
pub fn parse_scripture(html: &str) -> (r: Vec<String>)
    ensures
        r.deep_view() == marker_entries(html@, "<a"@),
{
    proof {
        reveal_strlit("<a");
    }
    extract_marker_entries(html, "<a")
}

/// True when a paragraph block opens at `i`: the tag name `p` alone,
/// ended by `>`, whitespace before attributes, a self-closing `/`, or
/// the end of the text — so tags that merely start with `p`, such as
/// `pre`, do not open a block.
pub open spec fn is_p_open_at(s: Seq<char>, i: int) -> bool {
    &&& matches_at(s, i, seq!['<', 'p'])
    &&& (i + 2 == s.len() || s[i + 2] == '>' || crate::text::is_ws(s[i + 2]) || s[i + 2] == '/')
}

/// True when a paragraph block closes at `i`, with the same tag-name
/// boundary as the opening.
pub open spec fn is_p_close_at(s: Seq<char>, i: int) -> bool {
    &&& matches_at(s, i, seq!['<', '/', 'p'])
    &&& (i + 3 == s.len() || s[i + 3] == '>' || crate::text::is_ws(s[i + 3]))
}

/// True where one paragraph block's content ends: its own closing tag
/// or the opening of the next block.
pub open spec fn is_block_end_at(s: Seq<char>, i: int) -> bool {
    is_p_open_at(s, i) || is_p_close_at(s, i)
}

/// Index of the first paragraph opening in `s`, or -1.
pub open spec fn find_p_open(s: Seq<char>) -> int
    decreases s.len(),
{
    if s.len() == 0 {
        -1
    } else if is_p_open_at(s, 0) {
        0
    } else if find_p_open(s.drop_first()) == -1 {
        -1
    } else {
        1 + find_p_open(s.drop_first())
    }
}

/// Index of the first block boundary in `s`, or -1.
pub open spec fn find_block_end(s: Seq<char>) -> int
    decreases s.len(),
{
    if s.len() == 0 {
        -1
    } else if is_block_end_at(s, 0) {
        0
    } else if find_block_end(s.drop_first()) == -1 {
        -1
    } else {
        1 + find_block_end(s.drop_first())
    }
}

/// The opening and closing markers shift position by one across a
/// dropped first character.
proof fn lemma_p_marks_shift(s: Seq<char>)
    requires
        s.len() > 0,
    ensures
        forall|i: int| 1 <= i ==> is_p_open_at(s, i) == is_p_open_at(s.drop_first(), i - 1),
        forall|i: int| 1 <= i ==> is_p_close_at(s, i) == is_p_close_at(s.drop_first(), i - 1),
{
    let t = s.drop_first();
    assert(s =~= seq![s[0]] + t);
    assert(forall|k: int| 0 <= k < t.len() ==> t[k] == s[k + 1]);
    assert forall|i: int| 1 <= i implies is_p_open_at(s, i) == is_p_open_at(t, i - 1) by {
        lemma_matches_cons(s[0], t, i, seq!['<', 'p']);
    }
    assert forall|i: int| 1 <= i implies is_p_close_at(s, i) == is_p_close_at(t, i - 1) by {
        lemma_matches_cons(s[0], t, i, seq!['<', '/', 'p']);
    }
}

/// What `find_p_open` returns: the first opening, or -1 when there is
/// none.
proof fn lemma_find_p_open(s: Seq<char>)
    ensures
        find_p_open(s) >= -1,
        find_p_open(s) == -1 ==> forall|i: int| !is_p_open_at(s, i),
        find_p_open(s) >= 0 ==> is_p_open_at(s, find_p_open(s)) && find_p_open(s) + 2 <= s.len(),
        find_p_open(s) >= 0 ==> forall|i: int| 0 <= i < find_p_open(s) ==> !is_p_open_at(s, i),
    decreases s.len(),
{
    if s.len() == 0 {
        assert forall|i: int| !is_p_open_at(s, i) by {}
    } else if is_p_open_at(s, 0) {
    } else {
        lemma_find_p_open(s.drop_first());
        lemma_p_marks_shift(s);
    }
}

/// What `find_block_end` returns: the first boundary, or -1 when
/// there is none.
proof fn lemma_find_block_end(s: Seq<char>)
    ensures
        find_block_end(s) >= -1,
        find_block_end(s) == -1 ==> forall|i: int| !is_block_end_at(s, i),
        find_block_end(s) >= 0 ==> is_block_end_at(s, find_block_end(s)) && find_block_end(s) + 2
            <= s.len(),
        find_block_end(s) >= 0 ==> forall|i: int|
            0 <= i < find_block_end(s) ==> !is_block_end_at(s, i),
    decreases s.len(),
{
    if s.len() == 0 {
        assert forall|i: int| !is_block_end_at(s, i) by {}
    } else if is_block_end_at(s, 0) {
    } else {
        lemma_find_block_end(s.drop_first());
        lemma_p_marks_shift(s);
        assert forall|i: int| 1 <= i implies is_block_end_at(s, i) == is_block_end_at(
            s.drop_first(),
            i - 1,
        ) by {}
    }
}

/// The hymn texts of a troparia response, one per paragraph block.
/// Each block's content starts after its opening tag's `>` (the
/// attributes) and runs to the block's closing tag or the opening of
/// the next block; the content is markup-stripped, and blocks whose
/// text comes out empty are discarded.
pub open spec fn troparia_spec(html: Seq<char>) -> Seq<Seq<char>>
    decreases html.len(),
    via troparia_spec_decreases
{
    let i = find_p_open(html);
    if i < 0 {
        Seq::empty()
    } else {
        let after_marker = html.skip(i + 2);
        let j = find_spec(after_marker, seq!['>']);
        let zone = if j >= 0 {
            after_marker.skip(j + 1)
        } else {
            Seq::<char>::empty()
        };
        let e = find_block_end(zone);
        let block = if e >= 0 {
            zone.take(e)
        } else {
            zone
        };
        let rest = if e >= 0 {
            zone.skip(e)
        } else {
            Seq::<char>::empty()
        };
        let t = strip_spec(block);
        (if t.len() == 0 {
            Seq::<Seq<char>>::empty()
        } else {
            seq![t]
        }) + troparia_spec(rest)
    }
}

#[via_fn]
proof fn troparia_spec_decreases(html: Seq<char>) {
    lemma_find_p_open(html);
    let i = find_p_open(html);
    if i >= 0 {
        let after_marker = html.skip(i + 2);
        lemma_find_spec(after_marker, seq!['>']);
        let j = find_spec(after_marker, seq!['>']);
        let zone = if j >= 0 {
            after_marker.skip(j + 1)
        } else {
            Seq::<char>::empty()
        };
        lemma_find_block_end(zone);
    }
}

fn is_p_open_exec(v: &Vec<char>, i: usize) -> (r: bool)
    requires
        i <= v@.len(),
    ensures
        r == is_p_open_at(v@, i as int),
{
    let n = v.len();
    let mut pat: Vec<char> = Vec::new();
    pat.push('<');
    pat.push('p');
    proof {
        assert(pat@ =~= seq!['<', 'p']);
    }
    if !matches_at_exec(v, i, &pat) {
        return false;
    }
    if i + 2 == n {
        return true;
    }
    let c = v[i + 2];
    c == '>' || crate::text::is_ws_char(c) || c == '/'
}

fn is_p_close_exec(v: &Vec<char>, i: usize) -> (r: bool)
    requires
        i <= v@.len(),
    ensures
        r == is_p_close_at(v@, i as int),
{
    let n = v.len();
    let mut pat: Vec<char> = Vec::new();
    pat.push('<');
    pat.push('/');
    pat.push('p');
    proof {
        assert(pat@ =~= seq!['<', '/', 'p']);
    }
    if !matches_at_exec(v, i, &pat) {
        return false;
    }
    if i + 3 == n {
        return true;
    }
    let c = v[i + 3];
    c == '>' || crate::text::is_ws_char(c)
}

fn find_p_open_exec(v: &Vec<char>) -> (r: Option<usize>)
    ensures
        match r {
            Some(i) => i == find_p_open(v@),
            None => find_p_open(v@) == -1,
        },
{
    proof {
        lemma_find_p_open(v@);
    }
    let n = v.len();
    let mut i: usize = 0;
    while i < n
        invariant
            n == v@.len(),
            i <= n,
            forall|k: int| 0 <= k < i ==> !is_p_open_at(v@, k),
        decreases n - i,
    {
        if is_p_open_exec(v, i) {
            proof {
                lemma_find_p_open(v@);
            }
            return Some(i);
        }
        i = i + 1;
    }
    proof {
        assert forall|k: int| !is_p_open_at(v@, k) by {
            if 0 <= k < v@.len() {
                assert(k < i);
            }
        }
        lemma_find_p_open(v@);
    }
    None
}

fn find_block_end_exec(v: &Vec<char>) -> (r: Option<usize>)
    ensures
        match r {
            Some(i) => i == find_block_end(v@),
            None => find_block_end(v@) == -1,
        },
{
    proof {
        lemma_find_block_end(v@);
    }
    let n = v.len();
    let mut i: usize = 0;
    while i < n
        invariant
            n == v@.len(),
            i <= n,
            forall|k: int| 0 <= k < i ==> !is_block_end_at(v@, k),
        decreases n - i,
    {
        if is_p_open_exec(v, i) || is_p_close_exec(v, i) {
            proof {
                assert(is_block_end_at(v@, i as int));
                lemma_find_block_end(v@);
            }
            return Some(i);
        }
        proof {
            assert(!is_block_end_at(v@, i as int));
        }
        i = i + 1;
    }
    proof {
        assert forall|k: int| !is_block_end_at(v@, k) by {
            if 0 <= k < v@.len() {
                assert(k < i);
            }
        }
        lemma_find_block_end(v@);
    }
    None
}

fn troparia_blocks(v: &Vec<char>) -> (r: Vec<String>)
    ensures
        r.deep_view() == troparia_spec(v@),
    decreases v@.len(),
{
    proof {
        lemma_find_p_open(v@);
    }
    let i = match find_p_open_exec(v) {
        Some(i) => i,
        None => {
            let out: Vec<String> = Vec::new();
            proof {
                assert(out.deep_view() =~~= troparia_spec(v@));
            }
            return out;
        },
    };
    let n = v.len();
    let after_marker = vec_range(v, i + 2, n);
    proof {
        assert(after_marker@ =~= v@.skip(i + 2));
        lemma_find_spec(after_marker@, seq!['>']);
    }
    let mut gt: Vec<char> = Vec::new();
    gt.push('>');
    proof {
        assert(gt@ =~= seq!['>']);
    }
    let zone: Vec<char> = match find_sub(&after_marker, &gt) {
        Some(j) => {
            let m = after_marker.len();
            let z = vec_range(&after_marker, j + 1, m);
            proof {
                assert(z@ =~= after_marker@.skip(j + 1));
            }
            z
        },
        None => Vec::new(),
    };
    proof {
        lemma_find_block_end(zone@);
    }
    let zn = zone.len();
    let (block, rest): (Vec<char>, Vec<char>) = match find_block_end_exec(&zone) {
        Some(e) => {
            let b = vec_range(&zone, 0, e);
            let rst = vec_range(&zone, e, zn);
            proof {
                assert(b@ =~= zone@.take(e as int));
                assert(rst@ =~= zone@.skip(e as int));
            }
            (b, rst)
        },
        None => (zone, Vec::new()),
    };
    let stripped = crate::scraper::strip_chars(&block);
    let mut out: Vec<String> = Vec::new();
    if stripped.len() > 0 {
        out.push(chars_to_string(&stripped));
    }
    let ghost head = out.deep_view();
    proof {
        if stripped@.len() == 0 {
            assert(head =~~= Seq::<Seq<char>>::empty());
        } else {
            assert(head =~~= seq![strip_spec(block@)]);
        }
    }
    let mut tail = troparia_blocks(&rest);
    out.append(&mut tail);
    proof {
        assert(out.deep_view() =~~= head + troparia_spec(rest@));
    }
    out
}

/// Troparia entries: each hymn stands in its own paragraph block.
/// Blocks are delimited structurally — from a `<p` opening tag to its
/// `</p` close or the next block's opening — rather than at a bare
/// marker, so text between blocks belongs to no hymn.
pub fn parse_troparia(html: &str) -> (r: Vec<String>)
    ensures
        r.deep_view() == troparia_spec(html@),
{
    let v = str_chars(html);
    troparia_blocks(&v)
}

/// Turns one section's raw response into its extracted fragments: the
/// date line and the header strip to a single text; the lives,
/// troparia and scripture sections yield one text per entry. An
/// unknown section key is rejected.
pub fn extract_section(section: &str, raw: &str) -> (r: Result<Vec<String>, CalendarError>)
    ensures
        match r {
            Ok(texts) => section_valid_spec(section@) && texts.deep_view() == extract_section_spec(
                section@,
                raw@,
            ),
            Err(e) => e == CalendarError::InvalidInput && !section_valid_spec(section@),
        },
{
    if str_eq(section, "trp") {
        Ok(parse_troparia(raw))
    } else if str_eq(section, "lives") {
        Ok(parse_lives(raw))
    } else if str_eq(section, "scripture") {
        Ok(parse_scripture(raw))
    } else if str_eq(section, "dt") || str_eq(section, "header") {
        let mut out: Vec<String> = Vec::new();
        out.push(strip_html_tags(raw));
        proof {
            assert(out.deep_view() =~= seq![strip_spec(raw@)]);
        }
        Ok(out)
    } else {
        Err(CalendarError::InvalidInput)
    }
}

/// What the date-line section's single fragment splits into: the
/// Gregorian part before the slash with its leading weekday word
/// dropped, and the Julian part after the slash, both trimmed. A line
/// without a slash, or whose Gregorian part has no weekday word to
/// drop, has no usable split.
pub open spec fn parse_date_line_spec(s: Seq<char>) -> Option<(Seq<char>, Seq<char>)> {
    let parts = split_on(s, seq!['/']);
    if parts.len() < 2 {
        None
    } else {
        let g0 = crate::text::trim_spec(parts[0]);
        let i = find_spec(g0, seq![' ']);
        if i < 0 {
            None
        } else {
            Some((crate::text::trim_spec(g0.skip(i + 1)), crate::text::trim_spec(parts[1])))
        }
    }
}

/// Splits a fetched date line into its Gregorian and Julian texts.
pub fn parse_date_line(full_date: &str) -> (r: Result<(String, String), CalendarError>)
    ensures
        match r {
            Ok(p) => parse_date_line_spec(full_date@) == Some((p.0@, p.1@)),
            Err(e) => parse_date_line_spec(full_date@) is None && e
                == CalendarError::IncompleteSource,
        },
{
    let v = str_chars(full_date);
    let mut slash: Vec<char> = Vec::new();
    slash.push('/');
    proof {
        assert(slash@ =~= seq!['/']);
    }
    let parts = split_on_exec(&v, &slash);
    if parts.len() < 2 {
        return Err(CalendarError::IncompleteSource);
    }
    proof {
        assert(parts.deep_view()[0] == parts@[0]@);
        assert(parts.deep_view()[1] == parts@[1]@);
    }
    let g0 = crate::text::trim_chars(&parts[0]);
    let mut space: Vec<char> = Vec::new();
    space.push(' ');
    proof {
        assert(space@ =~= seq![' ']);
        lemma_find_spec(g0@, seq![' ']);
    }
    let i = match find_sub(&g0, &space) {
        Some(i) => i,
        None => {
            return Err(CalendarError::IncompleteSource);
        },
    };
    let tail = vec_range(&g0, i + 1, g0.len());
    proof {
        assert(tail@ =~= g0@.skip(i + 1));
    }
    let greg = crate::text::trim_chars(&tail);
    let julian = crate::text::trim_chars(&parts[1]);
    Ok((chars_to_string(&greg), chars_to_string(&julian)))
}

/// What each section's extraction yields.
pub open spec fn extract_section_spec(sec: Seq<char>, raw: Seq<char>) -> Seq<Seq<char>> {
    if sec == "trp"@ {
        troparia_spec(raw)
    } else if sec == "lives"@ {
        marker_entries(raw, "<img"@)
    } else if sec == "scripture"@ {
        marker_entries(raw, "<a"@)
    } else {
        seq![strip_spec(raw)]
    }
}

} // verus!
