//! The per-day record and its construction from extracted section
//! texts: header splitting, ordinal-suffix normalization, field
//! cleanup, and the sortable date key.

use crate::date::{
    format_sortable, format_sortable_spec, four_digits, is_digit, parse_date, parse_date_spec,
};
use crate::error::CalendarError;
use crate::header::{split_header, split_header_spec};
use crate::text::{chars_to_string, clean_spec, clean_text, str_chars};
use vstd::prelude::*;

verus! {

/// One day of calendar data, ready to persist or export.
#[derive(Clone, Debug)]
pub struct OrthoCalendarData {
    /// Gregorian date in sortable `YYYY-MM-DD` form.
    pub date: String,
    /// The Julian calendar date, kept verbatim as free text.
    pub julian_date: String,
    /// Feast title: the first segment of the header.
    pub summary: String,
    /// Fasting rules, tone and notes: the rest of the header.
    pub liturgical_notes: String,
    /// One entry per commemorated figure, in source order.
    pub lives: Vec<String>,
    /// Hymn texts, in source order.
    pub troparia: Vec<String>,
    /// Scripture citations or texts, in source order.
    pub scripture: Vec<String>,
}

/// The mathematical content of a day record.
pub struct DayRecordView {
    pub date: Seq<char>,
    pub julian_date: Seq<char>,
    pub summary: Seq<char>,
    pub liturgical_notes: Seq<char>,
    pub lives: Seq<Seq<char>>,
    pub troparia: Seq<Seq<char>>,
    pub scripture: Seq<Seq<char>>,
}

impl View for OrthoCalendarData {
    type V = DayRecordView;

    open spec fn view(&self) -> DayRecordView {
        DayRecordView {
            date: self.date@,
            julian_date: self.julian_date@,
            summary: self.summary@,
            liturgical_notes: self.liturgical_notes@,
            lives: self.lives.deep_view(),
            troparia: self.troparia.deep_view(),
            scripture: self.scripture.deep_view(),
        }
    }
}

impl DeepView for OrthoCalendarData {
    type V = DayRecordView;

    open spec fn deep_view(&self) -> DayRecordView {
        self.view()
    }
}

impl OrthoCalendarData {
    /// Builds a record from already-split header parts. The Gregorian
    /// date must parse as `MonthName day, year`; it is stored in the
    /// sortable form. All other fields are taken as given.
    pub fn new(
        gregorian_date: String,
        julian_date: String,
        summary: String,
        liturgical_notes: String,
        lives: Vec<String>,
        troparia: Vec<String>,
        scripture: Vec<String>,
    ) -> (r: Result<Self, CalendarError>)
        ensures
            match r {
                Ok(rec) => {
                    &&& parse_date_spec(gregorian_date@) is Some
                    &&& rec@.date == format_sortable_spec(parse_date_spec(gregorian_date@)->Some_0)
                    &&& rec@.julian_date == julian_date@
                    &&& rec@.summary == summary@
                    &&& rec@.liturgical_notes == liturgical_notes@
                    &&& rec@.lives == lives.deep_view()
                    &&& rec@.troparia == troparia.deep_view()
                    &&& rec@.scripture == scripture.deep_view()
                },
                Err(e) => parse_date_spec(gregorian_date@) is None && e
                    == CalendarError::InvalidInput,
            },
    {
        let parsed = match parse_date(gregorian_date.as_str()) {
            Some(d) => d,
            None => {
                return Err(CalendarError::InvalidInput);
            },
        };
        let date = format_sortable(parsed);
        Ok(
            Self {
                date,
                julian_date,
                summary,
                liturgical_notes,
                lives,
                troparia,
                scripture,
            },
        )
    }

    /// True when the day was meaningfully fetched: a record with an
    /// empty summary must not count toward completing its day.
    pub fn has_content(&self) -> (r: bool)
        ensures
            r == (self@.summary.len() != 0),
    {
        !self.summary.as_str().is_empty()
    }

    /// The Gregorian part of the stored date text: what stands before
    /// the first slash, or the whole text if there is no slash; `None`
    /// when the field is empty.
    pub fn gregorian_date(&self) -> (r: Option<String>)
        ensures
            match r {
                Some(g) => self@.date.len() != 0 && g@ == gregorian_part_spec(self@.date),
                None => self@.date.len() == 0,
            },
    {
        if self.date.as_str().is_empty() {
            return None;
        }
        let v = str_chars(self.date.as_str());
        let mut i: usize = 0;
        let n = v.len();
        while i < n && v[i] != '/'
            invariant
                n == v@.len(),
                i <= n,
                forall|k: int| 0 <= k < i ==> v@[k] != '/',
            decreases n - i,
        {
            i = i + 1;
        }
        let head = crate::text::vec_range(&v, 0, i);
        proof {
            lemma_gregorian_part(v@, i as int);
        }
        Some(chars_to_string(&head))
    }

    /// The stored Julian date text, verbatim; `None` when empty.
    pub fn julian_date(&self) -> (r: Option<String>)
        ensures
            match r {
                Some(j) => self@.julian_date.len() != 0 && j@ == self@.julian_date,
                None => self@.julian_date.len() == 0,
            },
    {
        if self.julian_date.as_str().is_empty() {
            None
        } else {
            Some(self.julian_date.clone())
        }
    }
}

/// The prefix of `s` before its first `/`, or all of `s` without one.
pub open spec fn gregorian_part_spec(s: Seq<char>) -> Seq<char> {
    let i = crate::text::find_spec(s, seq!['/']);
    if i >= 0 {
        s.take(i)
    } else {
        s
    }
}

proof fn lemma_gregorian_part(s: Seq<char>, i: int)
    requires
        0 <= i <= s.len(),
        forall|k: int| 0 <= k < i ==> s[k] != '/',
        i < s.len() ==> s[i] == '/',
    ensures
        s.subrange(0, i) == gregorian_part_spec(s),
{
    crate::text::lemma_find_spec(s, seq!['/']);
    let f = crate::text::find_spec(s, seq!['/']);
    assert(seq!['/'][0] == '/');
    if i < s.len() {
        assert(crate::text::matches_at(s, i, seq!['/']));
        assert(f >= 0);
        assert(f >= i) by {
            if f < i {
                assert(s[f] == '/');
            }
        }
        assert(f <= i) by {
            if f > i {
                assert(!crate::text::matches_at(s, i, seq!['/']));
            }
        }
        assert(s.subrange(0, i) =~= s.take(f));
    } else {
        if f >= 0 {
            assert(crate::text::matches_at(s, f, seq!['/']));
            assert(s[f] == '/');
        }
        assert(s.subrange(0, i) =~= s);
    }
}

/// True when the two characters spell an English ordinal suffix.
pub open spec fn is_ord_suffix(a: char, b: char) -> bool {
    (a == 's' && b == 't') || (a == 'n' && b == 'd') || (a == 'r' && b == 'd') || (a == 't' && b
        == 'h')
}

/// `s` with the stray space removed wherever a digit is followed by a
/// space and an ordinal suffix (`3 rd` becomes `3rd`).
pub open spec fn fix_ordinal_spaces(s: Seq<char>) -> Seq<char>
    decreases s.len(),
{
    if s.len() == 0 {
        Seq::empty()
    } else if s.len() >= 4 && is_digit(s[0]) && s[1] == ' ' && is_ord_suffix(s[2], s[3]) {
        seq![s[0]] + fix_ordinal_spaces(s.skip(2))
    } else {
        seq![s[0]] + fix_ordinal_spaces(s.drop_first())
    }
}

/// Removes the erroneous space in ordinal numbers (`3 rd` to `3rd`).
pub fn format_ordinal_suffixes(text: &str) -> (r: String)
    ensures
        r@ == fix_ordinal_spaces(text@),
{
    let v = str_chars(text);
    let n = v.len();
    let mut out: Vec<char> = Vec::new();
    let mut i: usize = 0;
    proof {
        assert(v@.skip(0) =~= v@);
        assert(out@ + fix_ordinal_spaces(v@) =~= fix_ordinal_spaces(v@));
    }
    while i < n
        invariant
            n == v@.len(),
            i <= n,
            out@ + fix_ordinal_spaces(v@.skip(i as int)) == fix_ordinal_spaces(v@),
        decreases n - i,
    {
        let ghost t = v@.skip(i as int);
        proof {
            assert(t[0] == v@[i as int]);
            assert(t.drop_first() =~= v@.skip(i + 1));
            if t.len() >= 4 {
                assert(t.skip(2) =~= v@.skip(i + 2));
                assert(t[1] == v@[i + 1] && t[2] == v@[i + 2] && t[3] == v@[i + 3]);
            }
        }
        let c = v[i];
        if n - i > 3 && crate::date::digit_val_exec(c) >= 0 && v[i + 1] == ' '
            && is_ord_suffix_exec(v[i + 2], v[i + 3]) {
            let ghost out0 = out@;
            out.push(c);
            proof {
                assert(fix_ordinal_spaces(t) == seq![t[0]] + fix_ordinal_spaces(t.skip(2)));
                assert(out@ + fix_ordinal_spaces(v@.skip(i + 2)) =~= out0 + fix_ordinal_spaces(t));
            }
            i = i + 2;
        } else {
            let ghost out0 = out@;
            out.push(c);
            proof {
                assert(fix_ordinal_spaces(t) == seq![t[0]] + fix_ordinal_spaces(t.drop_first()));
                assert(out@ + fix_ordinal_spaces(v@.skip(i + 1)) =~= out0 + fix_ordinal_spaces(t));
            }
            i = i + 1;
        }
    }
    proof {
        assert(v@.skip(n as int) =~= Seq::<char>::empty());
        assert(out@ + fix_ordinal_spaces(v@.skip(n as int)) =~= out@);
    }
    chars_to_string(&out)
}

fn is_ord_suffix_exec(a: char, b: char) -> (r: bool)
    ensures
        r == is_ord_suffix(a, b),
{
    (a == 's' && b == 't') || (a == 'n' && b == 'd') || (a == 'r' && b == 'd') || (a == 't' && b
        == 'h')
}

/// Every element cleaned: newlines to spaces, ends trimmed.
pub open spec fn clean_all_spec(xs: Seq<Seq<char>>) -> Seq<Seq<char>> {
    xs.map_values(|s: Seq<char>| clean_spec(s))
}

fn clean_string_vec(xs: Vec<String>) -> (r: Vec<String>)
    ensures
        r.deep_view() == clean_all_spec(xs.deep_view()),
{
    let mut out: Vec<String> = Vec::new();
    let mut i: usize = 0;
    let n = xs.len();
    while i < n
        invariant
            n == xs@.len(),
            i <= n,
            out.deep_view() == clean_all_spec(xs.deep_view().take(i as int)),
        decreases n - i,
    {
        let ghost before = out.deep_view();
        out.push(clean_text(xs[i].as_str()));
        proof {
            assert(xs.deep_view()[i as int] == xs@[i as int]@);
            assert(out.deep_view() =~= before.push(clean_spec(xs.deep_view()[i as int])));
            assert(out.deep_view() =~= clean_all_spec(xs.deep_view().take(i + 1)));
        }
        i = i + 1;
    }
    proof {
        assert(xs.deep_view().take(n as int) =~= xs.deep_view());
    }
    out
}

/// Builds a day record from the raw header and section texts: splits
/// the header, fixes ordinal spacing in the summary, cleans every
/// field, and keys the record by the sortable Gregorian date.
pub fn create_calendar_data(
    gregorian_date: String,
    julian_date: String,
    header: String,
    lives: Vec<String>,
    troparia: Vec<String>,
    scripture: Vec<String>,
) -> (r: Result<OrthoCalendarData, CalendarError>)
    ensures
        match r {
            Ok(rec) => {
                &&& parse_date_spec(gregorian_date@) is Some
                &&& rec@.date == format_sortable_spec(parse_date_spec(gregorian_date@)->Some_0)
                &&& rec@.julian_date == julian_date@
                &&& rec@.summary == clean_spec(fix_ordinal_spaces(split_header_spec(header@).0))
                &&& rec@.liturgical_notes == clean_spec(split_header_spec(header@).1)
                &&& rec@.lives == clean_all_spec(lives.deep_view())
                &&& rec@.troparia == clean_all_spec(troparia.deep_view())
                &&& rec@.scripture == clean_all_spec(scripture.deep_view())
            },
            Err(e) => parse_date_spec(gregorian_date@) is None && e == CalendarError::InvalidInput,
        },
{
    let (summary, liturgical_notes) = split_header(header.as_str());
    let formatted_summary = format_ordinal_suffixes(summary.as_str());
    let clean_lives = clean_string_vec(lives);
    let clean_troparia = clean_string_vec(troparia);
    let clean_scripture = clean_string_vec(scripture);
    OrthoCalendarData::new(
        gregorian_date,
        julian_date,
        clean_text(formatted_summary.as_str()),
        clean_text(liturgical_notes.as_str()),
        clean_lives,
        clean_troparia,
        clean_scripture,
    )
}

/// The file that holds one year's dataset, under the given data
/// directory: `<dir>/calendar_<year>.json`.
pub fn get_calendar_path(data_dir: &str, year: i32) -> (r: String)
    requires
        1000 <= year <= 9999,
    ensures
        r@ == data_dir@ + calendar_file_name_spec(year as int),
{
    let mut v = str_chars(data_dir);
    let mut name = str_chars("/calendar_");
    proof {
        reveal_strlit("/calendar_");
    }
    v.append(&mut name);
    let y = year as u32;
    v.push(crate::date::digit_char_exec(y / 1000));
    v.push(crate::date::digit_char_exec((y / 100) % 10));
    v.push(crate::date::digit_char_exec((y / 10) % 10));
    v.push(crate::date::digit_char_exec(y % 10));
    let mut ext = str_chars(".json");
    proof {
        reveal_strlit(".json");
    }
    v.append(&mut ext);
    proof {
        assert(v@ =~= data_dir@ + calendar_file_name_spec(year as int));
    }
    chars_to_string(&v)
}

/// `/calendar_<year>.json` for a four-digit year.
pub open spec fn calendar_file_name_spec(year: int) -> Seq<char> {
    seq!['/', 'c', 'a', 'l', 'e', 'n', 'd', 'a', 'r', '_'] + four_digits(year) + seq![
        '.', 'j', 's', 'o', 'n',
    ]
}

} // verus!
