//! The field values handed to the calendar-export sink: text
//! sanitizing, ordinal spacing, and the per-day summary and
//! description assembled from one export record. Writing the exchange
//! file itself is the sink's business, not this module's.

use crate::date::{four_digits, parse_date_chars, parse_date_spec, Date};
use crate::error::CalendarError;
use crate::header::{split_header_chars, split_header_spec};
use crate::text::{
    chars_to_string, find_spec, find_sub, lemma_find_spec, replace_all_chars, replace_all_spec,
    str_chars, trim_chars, trim_spec, vec_range,
};
use vstd::prelude::*;

verus! {

/// What sanitizing does: every backslash removed, then the (by that
/// point impossible) two-character `\n` escape collapsed, then double
/// newlines halved, then the ends trimmed.
pub open spec fn sanitize_spec(s: Seq<char>) -> Seq<char> {
    trim_spec(
        replace_all_spec(
            replace_all_spec(
                replace_all_spec(s, seq!['\\'], Seq::empty()),
                seq!['\\', 'n'],
                seq!['\n'],
            ),
            seq!['\n', '\n'],
            seq!['\n'],
        ),
    )
}

/// Cleans free text for the export: drops backslashes, collapses
/// doubled newlines and trims the ends.
pub fn sanitize_text(text: &str) -> (r: String)
    ensures
        r@ == sanitize_spec(text@),
{
    let v = str_chars(text);
    let mut bs: Vec<char> = Vec::new();
    bs.push('\\');
    let empty: Vec<char> = Vec::new();
    proof {
        assert(bs@ =~= seq!['\\']);
        assert(empty@ =~= Seq::<char>::empty());
    }
    let a = replace_all_chars(&v, &bs, &empty);
    let mut bsn: Vec<char> = Vec::new();
    bsn.push('\\');
    bsn.push('n');
    let mut nl: Vec<char> = Vec::new();
    nl.push('\n');
    proof {
        assert(bsn@ =~= seq!['\\', 'n']);
        assert(nl@ =~= seq!['\n']);
    }
    let b = replace_all_chars(&a, &bsn, &nl);
    let mut dnl: Vec<char> = Vec::new();
    dnl.push('\n');
    dnl.push('\n');
    proof {
        assert(dnl@ =~= seq!['\n', '\n']);
    }
    let c = replace_all_chars(&b, &dnl, &nl);
    let d = trim_chars(&c);
    chars_to_string(&d)
}

/// What ordinal fixing does: the space in ` st `, ` nd `, ` rd ` and
/// ` th ` removed, one suffix after the other.
pub open spec fn fix_ordinals_spec(s: Seq<char>) -> Seq<char> {
    replace_all_spec(
        replace_all_spec(
            replace_all_spec(
                replace_all_spec(s, seq![' ', 's', 't', ' '], seq!['s', 't', ' ']),
                seq![' ', 'n', 'd', ' '],
                seq!['n', 'd', ' '],
            ),
            seq![' ', 'r', 'd', ' '],
            seq!['r', 'd', ' '],
        ),
        seq![' ', 't', 'h', ' '],
        seq!['t', 'h', ' '],
    )
}

/// Removes the stray space inside spaced ordinal words.
pub fn fix_ordinals(text: &str) -> (r: String)
    ensures
        r@ == fix_ordinals_spec(text@),
{
    let v = str_chars(text);
    let a = fix_one_ordinal(&v, 's', 't');
    let b = fix_one_ordinal(&a, 'n', 'd');
    let c = fix_one_ordinal(&b, 'r', 'd');
    let d = fix_one_ordinal(&c, 't', 'h');
    chars_to_string(&d)
}

fn fix_one_ordinal(v: &Vec<char>, a: char, b: char) -> (r: Vec<char>)
    ensures
        r@ == replace_all_spec(v@, seq![' ', a, b, ' '], seq![a, b, ' ']),
{
    let mut pat: Vec<char> = Vec::new();
    pat.push(' ');
    pat.push(a);
    pat.push(b);
    pat.push(' ');
    let mut repl: Vec<char> = Vec::new();
    repl.push(a);
    repl.push(b);
    repl.push(' ');
    proof {
        assert(pat@ =~= seq![' ', a, b, ' ']);
        assert(repl@ =~= seq![a, b, ' ']);
    }
    replace_all_chars(v, &pat, &repl)
}

/// The texts joined by single newlines.
pub open spec fn join_nl_spec(xs: Seq<Seq<char>>) -> Seq<char>
    decreases xs.len(),
{
    if xs.len() == 0 {
        Seq::empty()
    } else if xs.len() == 1 {
        xs[0]
    } else {
        xs[0] + seq!['\n'] + join_nl_spec(xs.drop_first())
    }
}

proof fn lemma_join_nl_snoc(xs: Seq<Seq<char>>, x: Seq<char>)
    ensures
        join_nl_spec(xs.push(x)) == if xs.len() == 0 {
            x
        } else {
            join_nl_spec(xs) + seq!['\n'] + x
        },
    decreases xs.len(),
{
    let t = xs.push(x);
    if xs.len() == 0 {
        assert(t.len() == 1 && t[0] == x);
    } else {
        assert(t[0] == xs[0]);
        assert(t.drop_first() =~= xs.drop_first().push(x));
        lemma_join_nl_snoc(xs.drop_first(), x);
        assert(join_nl_spec(t) =~= join_nl_spec(xs) + seq!['\n'] + x);
    }
}

/// Joins the texts with single newlines between them.
pub fn join_nl(xs: &Vec<String>) -> (r: String)
    ensures
        r@ == join_nl_spec(xs.deep_view()),
{
    let ghost dv = xs.deep_view();
    let mut out: Vec<char> = Vec::new();
    let n = xs.len();
    let mut i: usize = 0;
    proof {
        assert(join_nl_spec(dv.take(0)) =~= Seq::<char>::empty());
        assert(out@ =~= join_nl_spec(dv.take(0)));
    }
    while i < n
        invariant
            n == dv.len(),
            dv == xs.deep_view(),
            i <= n,
            out@ == join_nl_spec(dv.take(i as int)),
        decreases n - i,
    {
        if i > 0 {
            out.push('\n');
        }
        let mut w = str_chars(xs[i].as_str());
        out.append(&mut w);
        proof {
            assert(dv[i as int] == xs@[i as int]@);
            lemma_join_nl_snoc(dv.take(i as int), dv[i as int]);
            assert(dv.take(i + 1) =~= dv.take(i as int).push(dv[i as int]));
            assert(out@ =~= join_nl_spec(dv.take(i + 1)));
        }
        i = i + 1;
    }
    proof {
        assert(dv.take(n as int) =~= dv);
    }
    chars_to_string(&out)
}

/// The Gregorian calendar date an export record's date line denotes:
/// the part before the slash, trimmed, with the leading weekday word
/// removed when one is there.
pub open spec fn export_date_spec(date_line: Seq<char>) -> Option<Date> {
    let i = find_spec(date_line, seq!['/']);
    let greg = if i >= 0 {
        date_line.take(i)
    } else {
        date_line
    };
    let g = trim_spec(greg);
    let j = find_spec(g, seq![' ']);
    let no_weekday = if j >= 0 {
        trim_spec(g.skip(j + 1))
    } else {
        g
    };
    parse_date_spec(no_weekday)
}

/// The event summary for one record: the header's first segment,
/// joined to the first commemorated figure when there is one.
pub open spec fn export_summary_spec(rv: crate::types::ExportRecordView) -> Seq<char> {
    let first = split_header_spec(sanitize_spec(rv.header)).0;
    if rv.lives.len() > 0 && trim_spec(rv.lives[0]).len() > 0 {
        first + seq![' ', '-', ' '] + trim_spec(rv.lives[0])
    } else {
        first
    }
}

/// The event description for one record: the header's details when
/// any, then the sanitized lives, troparia and scripture blocks,
/// separated by blank lines.
pub open spec fn export_description_spec(rv: crate::types::ExportRecordView) -> Seq<char> {
    let rest = split_header_spec(sanitize_spec(rv.header)).1;
    let tail = sanitize_spec(join_nl_spec(rv.lives)) + seq!['\n', '\n', '\n'] + sanitize_spec(
        join_nl_spec(rv.troparia),
    ) + seq!['\n', '\n', '\n'] + sanitize_spec(join_nl_spec(rv.scripture));
    if rest.len() == 0 {
        seq!['\n'] + tail
    } else {
        rest + seq!['\n', '\n', '\n'] + tail
    }
}

/// The field values of one day's export event: its date, summary and
/// description. `Ok(None)` marks a day whose sanitized header is
/// empty: such a day gets no event. A date line that does not parse
/// is an error that aborts the export.
pub fn ical_event_fields(rec: &crate::types::OrthoCalendarData) -> (r: Result<
    Option<(Date, String, String)>,
    CalendarError,
>)
    ensures
        match r {
            Ok(opt) => match opt {
                Some(f) => export_date_spec(rec@.date) is Some && sanitize_spec(
                    rec@.header,
                ).len() != 0 && f.0 == export_date_spec(rec@.date)->Some_0 && f.1@
                    == export_summary_spec(rec@) && f.2@ == export_description_spec(rec@),
                None => export_date_spec(rec@.date) is Some && sanitize_spec(rec@.header).len()
                    == 0,
            },
            Err(e) => export_date_spec(rec@.date) is None && e == CalendarError::InvalidInput,
        },
{
    let v = str_chars(rec.date.as_str());
    let mut slash: Vec<char> = Vec::new();
    slash.push('/');
    proof {
        assert(slash@ =~= seq!['/']);
    }
    proof {
        lemma_find_spec(v@, seq!['/']);
    }
    let greg = match find_sub(&v, &slash) {
        Some(i) => vec_range(&v, 0, i),
        None => vec_range(&v, 0, v.len()),
    };
    proof {
        assert(v@.subrange(0, v@.len() as int) =~= v@);
    }
    let g = trim_chars(&greg);
    let mut space: Vec<char> = Vec::new();
    space.push(' ');
    proof {
        assert(space@ =~= seq![' ']);
    }
    proof {
        lemma_find_spec(g@, seq![' ']);
    }
    let gn = g.len();
    let no_weekday = match find_sub(&g, &space) {
        Some(j) => {
            let t = vec_range(&g, j + 1, gn);
            proof {
                assert(t@ =~= g@.skip(j + 1));
            }
            trim_chars(&t)
        },
        None => { g },
    };
    let date = match parse_date_chars(&no_weekday) {
        Some(d) => d,
        None => {
            return Err(CalendarError::InvalidInput);
        },
    };
    let clean_header = sanitize_text(rec.header.as_str());
    if clean_header.as_str().is_empty() {
        return Ok(None);
    }
    let hv = str_chars(clean_header.as_str());
    let (first, rest) = split_header_chars(&hv);
    let major = if rec.lives.len() > 0 {
        let lv = str_chars(rec.lives[0].as_str());
        trim_chars(&lv)
    } else {
        Vec::new()
    };
    proof {
        if rec.lives.len() > 0 {
            assert(rec@.lives[0] == rec.lives@[0]@);
        }
    }
    let mut sv = vec_range(&first, 0, first.len());
    proof {
        assert(sv@ =~= first@);
    }
    if major.len() > 0 {
        sv.push(' ');
        sv.push('-');
        sv.push(' ');
        let mut mj = vec_range(&major, 0, major.len());
        proof {
            assert(mj@ =~= major@);
        }
        sv.append(&mut mj);
        proof {
            assert(sv@ =~= export_summary_spec(rec@));
        }
    } else {
        proof {
            if rec.lives.len() > 0 {
                assert(trim_spec(rec@.lives[0]).len() == 0);
            }
            assert(sv@ =~= export_summary_spec(rec@));
        }
    }
    let summary = chars_to_string(&sv);
    let lives_part = sanitize_text(join_nl(&rec.lives).as_str());
    let trop_part = sanitize_text(join_nl(&rec.troparia).as_str());
    let scrip_part = sanitize_text(join_nl(&rec.scripture).as_str());
    let mut dv: Vec<char> = Vec::new();
    if rest.len() == 0 {
        dv.push('\n');
    } else {
        let mut rr = vec_range(&rest, 0, rest.len());
        proof {
            assert(rr@ =~= rest@);
        }
        dv.append(&mut rr);
        dv.push('\n');
        dv.push('\n');
        dv.push('\n');
    }
    let mut w = str_chars(lives_part.as_str());
    dv.append(&mut w);
    dv.push('\n');
    dv.push('\n');
    dv.push('\n');
    let mut w = str_chars(trop_part.as_str());
    dv.append(&mut w);
    dv.push('\n');
    dv.push('\n');
    dv.push('\n');
    let mut w = str_chars(scrip_part.as_str());
    dv.append(&mut w);
    proof {
        assert(dv@ =~= export_description_spec(rec@));
    }
    let description = chars_to_string(&dv);
    Ok(Some((date, summary, description)))
}

/// The file that holds one year's export, under the given directory:
/// `<dir>/calendar_<year>.ics`.
pub fn ical_file_path(ical_dir: &str, year: i32) -> (r: String)
    requires
        1000 <= year <= 9999,
    ensures
        r@ == ical_dir@ + seq!['/', 'c', 'a', 'l', 'e', 'n', 'd', 'a', 'r', '_'] + four_digits(
            year as int,
        ) + seq!['.', 'i', 'c', 's'],
{
    let mut v = str_chars(ical_dir);
    let mut name = str_chars("/calendar_");
    proof {
        reveal_strlit("/calendar_");
    }
    v.append(&mut name);
    let y = year as u32;
    v.push(crate::date::digit_char_exec(y / 1000));
    v.push(crate::date::digit_char_exec((y / 100) % 10));
    v.push(crate::date::digit_char_exec((y / 10) % 10));
    v.push(crate::date::digit_char_exec(y % 10));
    let mut ext = str_chars(".ics");
    proof {
        reveal_strlit(".ics");
    }
    v.append(&mut ext);
    proof {
        assert(v@ =~= ical_dir@ + seq!['/', 'c', 'a', 'l', 'e', 'n', 'd', 'a', 'r', '_']
            + four_digits(year as int) + seq!['.', 'i', 'c', 's']);
    }
    chars_to_string(&v)
}

} // verus!
