//! The persisted form of a yearly dataset: a JSON array of day
//! records with a fixed field order, written compactly. The encoder
//! and parser are exact inverses: a saved dataset reloads to the same
//! records in the same order.

use crate::json::{DayRecordView, OrthoCalendarData};
use crate::text::{
    chars_to_string, lemma_matches_at_skip, matches_at_exec, starts_with_spec, str_chars,
};
use vstd::prelude::*;

verus! {

/// The escape for one character inside a JSON string: quotes,
/// backslashes and newlines are escaped, everything else stands as is.
pub open spec fn esc_char(c: char) -> Seq<char> {
    if c == '"' {
        seq!['\\', '"']
    } else if c == '\\' {
        seq!['\\', '\\']
    } else if c == '\n' {
        seq!['\\', 'n']
    } else {
        seq![c]
    }
}

/// The escaped body of a JSON string.
pub open spec fn esc(s: Seq<char>) -> Seq<char>
    decreases s.len(),
{
    if s.len() == 0 {
        Seq::empty()
    } else {
        esc_char(s[0]) + esc(s.drop_first())
    }
}

/// A JSON string: quote, escaped body, quote.
pub open spec fn enc_str(s: Seq<char>) -> Seq<char> {
    seq!['"'] + esc(s) + seq!['"']
}

/// The comma-separated items of a JSON array of strings.
pub open spec fn enc_arr_items(xs: Seq<Seq<char>>) -> Seq<char>
    decreases xs.len(),
{
    if xs.len() == 0 {
        Seq::empty()
    } else if xs.len() == 1 {
        enc_str(xs[0])
    } else {
        enc_str(xs[0]) + seq![','] + enc_arr_items(xs.drop_first())
    }
}

/// A JSON array of strings.
pub open spec fn enc_arr(xs: Seq<Seq<char>>) -> Seq<char> {
    seq!['['] + enc_arr_items(xs) + seq![']']
}

/// One day record as a JSON object with its fields in a fixed order.
#[verifier::opaque]
pub open spec fn enc_rec(rv: DayRecordView) -> Seq<char> {
    "{\"date\":"@ + enc_str(rv.date) + ",\"julian_date\":"@ + enc_str(rv.julian_date)
        + ",\"summary\":"@ + enc_str(rv.summary) + ",\"liturgical_notes\":"@ + enc_str(
        rv.liturgical_notes,
    ) + ",\"lives\":"@ + enc_arr(rv.lives) + ",\"troparia\":"@ + enc_arr(rv.troparia)
        + ",\"scripture\":"@ + enc_arr(rv.scripture) + "}"@
}

/// The comma-separated records of the dataset array.
pub open spec fn enc_dataset_items(rs: Seq<DayRecordView>) -> Seq<char>
    decreases rs.len(),
{
    if rs.len() == 0 {
        Seq::empty()
    } else if rs.len() == 1 {
        enc_rec(rs[0])
    } else {
        enc_rec(rs[0]) + seq![','] + enc_dataset_items(rs.drop_first())
    }
}

/// A whole yearly dataset as a JSON array of records.
pub open spec fn enc_dataset(rs: Seq<DayRecordView>) -> Seq<char> {
    seq!['['] + enc_dataset_items(rs) + seq![']']
}

fn push_esc_char(out: &mut Vec<char>, c: char)
    ensures
        final(out)@ == old(out)@ + esc_char(c),
{
    let ghost o0 = out@;
    if c == '"' {
        out.push('\\');
        out.push('"');
    } else if c == '\\' {
        out.push('\\');
        out.push('\\');
    } else if c == '\n' {
        out.push('\\');
        out.push('n');
    } else {
        out.push(c);
    }
    proof {
        assert(out@ =~= o0 + esc_char(c));
    }
}

/// Appends the JSON string for `s`.
fn push_enc_str(out: &mut Vec<char>, s: &str)
    ensures
        final(out)@ == old(out)@ + enc_str(s@),
{
    let ghost o0 = out@;
    let v = str_chars(s);
    out.push('"');
    let n = v.len();
    let mut i: usize = 0;
    proof {
        assert(v@.take(0) =~= Seq::<char>::empty());
        assert(esc(v@.take(0)) =~= Seq::<char>::empty());
        assert(out@ =~= o0 + seq!['"'] + esc(v@.take(0)));
    }
    while i < n
        invariant
            n == v@.len(),
            i <= n,
            out@ == o0 + seq!['"'] + esc(v@.take(i as int)),
        decreases n - i,
    {
        let ghost before = out@;
        push_esc_char(out, v[i]);
        proof {
            lemma_esc_snoc(v@.take(i as int), v@[i as int]);
            assert(v@.take(i + 1) =~= v@.take(i as int).push(v@[i as int]));
            assert(out@ =~= o0 + seq!['"'] + esc(v@.take(i + 1)));
        }
        i = i + 1;
    }
    out.push('"');
    proof {
        assert(v@.take(n as int) =~= v@);
        assert(out@ =~= o0 + enc_str(s@));
    }
}

/// Escaping one more character extends the escaped body.
proof fn lemma_esc_snoc(s: Seq<char>, c: char)
    ensures
        esc(s.push(c)) == esc(s) + esc_char(c),
    decreases s.len(),
{
    let t = s.push(c);
    if s.len() == 0 {
        assert(t[0] == c);
        assert(t.drop_first() =~= Seq::<char>::empty());
        assert(esc(t) == esc_char(c) + esc(t.drop_first()));
        assert(esc(t.drop_first()) =~= Seq::<char>::empty());
        assert(esc(t) =~= esc(s) + esc_char(c));
    } else {
        assert(t[0] == s[0]);
        assert(t.drop_first() =~= s.drop_first().push(c));
        lemma_esc_snoc(s.drop_first(), c);
        assert(esc(t) =~= esc(s) + esc_char(c));
    }
}

/// Appending one more item extends the encoded item list.
proof fn lemma_arr_items_snoc(xs: Seq<Seq<char>>, x: Seq<char>)
    ensures
        enc_arr_items(xs.push(x)) == if xs.len() == 0 {
            enc_str(x)
        } else {
            enc_arr_items(xs) + seq![','] + enc_str(x)
        },
    decreases xs.len(),
{
    let t = xs.push(x);
    if xs.len() == 0 {
        assert(t.len() == 1 && t[0] == x);
    } else {
        assert(t[0] == xs[0]);
        assert(t.drop_first() =~= xs.drop_first().push(x));
        lemma_arr_items_snoc(xs.drop_first(), x);
        if xs.len() == 1 {
            assert(enc_arr_items(t) =~= enc_arr_items(xs) + seq![','] + enc_str(x));
        } else {
            assert(enc_arr_items(t) =~= enc_arr_items(xs) + seq![','] + enc_str(x));
        }
    }
}

/// Appends the JSON array for the given strings.
fn push_enc_arr(out: &mut Vec<char>, xs: &Vec<String>)
    ensures
        final(out)@ == old(out)@ + enc_arr(xs.deep_view()),
{
    let ghost o0 = out@;
    let ghost dv = xs.deep_view();
    out.push('[');
    let n = xs.len();
    let mut i: usize = 0;
    proof {
        assert(enc_arr_items(dv.take(0)) =~= Seq::<char>::empty());
        assert(out@ =~= o0 + seq!['['] + enc_arr_items(dv.take(0)));
    }
    while i < n
        invariant
            n == dv.len(),
            dv == xs.deep_view(),
            i <= n,
            out@ == o0 + seq!['['] + enc_arr_items(dv.take(i as int)),
        decreases n - i,
    {
        if i > 0 {
            out.push(',');
        }
        let ghost before = out@;
        push_enc_str(out, xs[i].as_str());
        proof {
            assert(dv[i as int] == xs@[i as int]@);
            lemma_arr_items_snoc(dv.take(i as int), dv[i as int]);
            assert(dv.take(i + 1) =~= dv.take(i as int).push(dv[i as int]));
            assert(out@ =~= o0 + seq!['['] + enc_arr_items(dv.take(i + 1)));
        }
        i = i + 1;
    }
    out.push(']');
    proof {
        assert(dv.take(n as int) =~= dv);
        assert(out@ =~= o0 + enc_arr(dv));
    }
}

/// Appends the JSON object for one record.
fn push_enc_rec(out: &mut Vec<char>, rec: &OrthoCalendarData)
    ensures
        final(out)@ == old(out)@ + enc_rec(rec@),
{
    let ghost o0 = out@;
    let mut pre = str_chars("{\"date\":");
    out.append(&mut pre);
    push_enc_str(out, rec.date.as_str());
    let mut pre = str_chars(",\"julian_date\":");
    out.append(&mut pre);
    push_enc_str(out, rec.julian_date.as_str());
    let mut pre = str_chars(",\"summary\":");
    out.append(&mut pre);
    push_enc_str(out, rec.summary.as_str());
    let mut pre = str_chars(",\"liturgical_notes\":");
    out.append(&mut pre);
    push_enc_str(out, rec.liturgical_notes.as_str());
    let mut pre = str_chars(",\"lives\":");
    out.append(&mut pre);
    push_enc_arr(out, &rec.lives);
    let mut pre = str_chars(",\"troparia\":");
    out.append(&mut pre);
    push_enc_arr(out, &rec.troparia);
    let mut pre = str_chars(",\"scripture\":");
    out.append(&mut pre);
    push_enc_arr(out, &rec.scripture);
    let mut pre = str_chars("}");
    out.append(&mut pre);
    proof {
        reveal(crate::codec::enc_rec);
        assert(out@ =~= o0 + enc_rec(rec@));
    }
}

/// Appending one more record extends the encoded record list.
proof fn lemma_dataset_items_snoc(rs: Seq<DayRecordView>, rv: DayRecordView)
    ensures
        enc_dataset_items(rs.push(rv)) == if rs.len() == 0 {
            enc_rec(rv)
        } else {
            enc_dataset_items(rs) + seq![','] + enc_rec(rv)
        },
    decreases rs.len(),
{
    let t = rs.push(rv);
    if rs.len() == 0 {
        assert(t.len() == 1 && t[0] == rv);
    } else {
        assert(t[0] == rs[0]);
        assert(t.drop_first() =~= rs.drop_first().push(rv));
        lemma_dataset_items_snoc(rs.drop_first(), rv);
        assert(enc_dataset_items(t) =~= enc_dataset_items(rs) + seq![','] + enc_rec(rv));
    }
}

/// Serializes a yearly dataset to its persisted JSON text.
pub fn encode_calendar_json(data: &Vec<OrthoCalendarData>) -> (r: String)
    ensures
        r@ == enc_dataset(data.deep_view()),
{
    let ghost dv = data.deep_view();
    let mut out: Vec<char> = Vec::new();
    out.push('[');
    let n = data.len();
    let mut i: usize = 0;
    proof {
        assert(enc_dataset_items(dv.take(0)) =~= Seq::<char>::empty());
        assert(out@ =~= seq!['['] + enc_dataset_items(dv.take(0)));
    }
    while i < n
        invariant
            n == dv.len(),
            dv == data.deep_view(),
            i <= n,
            out@ == seq!['['] + enc_dataset_items(dv.take(i as int)),
        decreases n - i,
    {
        if i > 0 {
            out.push(',');
        }
        push_enc_rec(&mut out, &data[i]);
        proof {
            assert(dv[i as int] == data@[i as int]@);
            lemma_dataset_items_snoc(dv.take(i as int), dv[i as int]);
            assert(dv.take(i + 1) =~= dv.take(i as int).push(dv[i as int]));
            assert(out@ =~= seq!['['] + enc_dataset_items(dv.take(i + 1)));
        }
        i = i + 1;
    }
    out.push(']');
    proof {
        assert(dv.take(n as int) =~= dv);
        assert(out@ =~= enc_dataset(dv));
    }
    chars_to_string(&out)
}

/// Undoes an escape: `n` stands for a newline, any other escaped
/// character stands for itself.
pub open spec fn unesc_char(c: char) -> char {
    if c == 'n' {
        '\n'
    } else {
        c
    }
}

/// Reads a JSON string body up to its closing quote: an escaped
/// character after a backslash, any other character literally.
/// Returns the decoded text and what follows the closing quote.
pub open spec fn parse_str_body(s: Seq<char>) -> Option<(Seq<char>, Seq<char>)>
    decreases s.len(),
{
    if s.len() == 0 {
        None
    } else if s[0] == '"' {
        Some((Seq::empty(), s.skip(1)))
    } else if s[0] == '\\' {
        if s.len() < 2 {
            None
        } else {
            match parse_str_body(s.skip(2)) {
                Some(p) => Some((seq![unesc_char(s[1])] + p.0, p.1)),
                None => None,
            }
        }
    } else {
        match parse_str_body(s.skip(1)) {
            Some(p) => Some((seq![s[0]] + p.0, p.1)),
            None => None,
        }
    }
}

/// Reads a JSON string: an opening quote, then its body.
pub open spec fn parse_str_spec(s: Seq<char>) -> Option<(Seq<char>, Seq<char>)> {
    if s.len() >= 1 && s[0] == '"' {
        parse_str_body(s.skip(1))
    } else {
        None
    }
}

/// Expects the exact text `lit` and returns what follows it.
pub open spec fn parse_lit_spec(s: Seq<char>, lit: Seq<char>) -> Option<Seq<char>> {
    if starts_with_spec(s, lit) {
        Some(s.skip(lit.len() as int))
    } else {
        None
    }
}

/// A successful string body always consumes at least its quote.
proof fn lemma_body_consumes(s: Seq<char>)
    ensures
        parse_str_body(s) is Some ==> (parse_str_body(s)->Some_0).1.len() < s.len(),
    decreases s.len(),
{
    if s.len() == 0 {
    } else if s[0] == '"' {
    } else if s[0] == '\\' {
        if s.len() >= 2 {
            lemma_body_consumes(s.skip(2));
        }
    } else {
        lemma_body_consumes(s.skip(1));
    }
}

/// A successful string always consumes at least its quotes.
proof fn lemma_str_consumes(s: Seq<char>)
    ensures
        parse_str_spec(s) is Some ==> (parse_str_spec(s)->Some_0).1.len() < s.len(),
{
    if s.len() >= 1 && s[0] == '"' {
        lemma_body_consumes(s.skip(1));
    }
}

/// Reads the items of a non-empty string array, after the opening
/// bracket: strings separated by commas, ended by the closing bracket.
pub open spec fn parse_str_items(s: Seq<char>) -> Option<(Seq<Seq<char>>, Seq<char>)>
    decreases s.len(),
    via parse_str_items_decreases
{
    match parse_str_spec(s) {
        Some(p) => {
            if p.1.len() >= 1 && p.1[0] == ',' {
                match parse_str_items(p.1.skip(1)) {
                    Some(q) => Some((seq![p.0] + q.0, q.1)),
                    None => None,
                }
            } else if p.1.len() >= 1 && p.1[0] == ']' {
                Some((seq![p.0], p.1.skip(1)))
            } else {
                None
            }
        },
        None => None,
    }
}

#[via_fn]
proof fn parse_str_items_decreases(s: Seq<char>) {
    lemma_str_consumes(s);
}

/// Reads a JSON array of strings.
pub open spec fn parse_str_arr_spec(s: Seq<char>) -> Option<(Seq<Seq<char>>, Seq<char>)> {
    if s.len() >= 2 && s[0] == '[' && s[1] == ']' {
        Some((Seq::empty(), s.skip(2)))
    } else if s.len() >= 1 && s[0] == '[' {
        parse_str_items(s.skip(1))
    } else {
        None
    }
}

/// A successful item list consumes at least one character.
proof fn lemma_items_consumes(s: Seq<char>)
    ensures
        parse_str_items(s) is Some ==> (parse_str_items(s)->Some_0).1.len() < s.len(),
    decreases s.len(),
{
    lemma_str_consumes(s);
    match parse_str_spec(s) {
        Some(p) => {
            if p.1.len() >= 1 && p.1[0] == ',' {
                lemma_items_consumes(p.1.skip(1));
            }
        },
        None => {},
    }
}

/// A successful array consumes at least its brackets.
proof fn lemma_arr_consumes(s: Seq<char>)
    ensures
        parse_str_arr_spec(s) is Some ==> (parse_str_arr_spec(s)->Some_0).1.len() < s.len(),
{
    if s.len() >= 2 && s[0] == '[' && s[1] == ']' {
    } else if s.len() >= 1 && s[0] == '[' {
        lemma_items_consumes(s.skip(1));
    }
}

/// Reads one record object, fields in the fixed order the encoder
/// writes them.
#[verifier::opaque]
pub open spec fn parse_rec_spec(s: Seq<char>) -> Option<(DayRecordView, Seq<char>)> {
    match parse_lit_spec(s, "{\"date\":"@) {
        None => None,
        Some(s1) => match parse_str_spec(s1) {
            None => None,
            Some(p_date) => match parse_lit_spec(p_date.1, ",\"julian_date\":"@) {
                None => None,
                Some(s2) => match parse_str_spec(s2) {
                    None => None,
                    Some(p_julian) => match parse_lit_spec(p_julian.1, ",\"summary\":"@) {
                        None => None,
                        Some(s3) => match parse_str_spec(s3) {
                            None => None,
                            Some(p_summary) => match parse_lit_spec(
                                p_summary.1,
                                ",\"liturgical_notes\":"@,
                            ) {
                                None => None,
                                Some(s4) => match parse_str_spec(s4) {
                                    None => None,
                                    Some(p_notes) => match parse_lit_spec(
                                        p_notes.1,
                                        ",\"lives\":"@,
                                    ) {
                                        None => None,
                                        Some(s5) => match parse_str_arr_spec(s5) {
                                            None => None,
                                            Some(p_lives) => match parse_lit_spec(
                                                p_lives.1,
                                                ",\"troparia\":"@,
                                            ) {
                                                None => None,
                                                Some(s6) => match parse_str_arr_spec(s6) {
                                                    None => None,
                                                    Some(p_trop) => match parse_lit_spec(
                                                        p_trop.1,
                                                        ",\"scripture\":"@,
                                                    ) {
                                                        None => None,
                                                        Some(s7) => match parse_str_arr_spec(s7) {
                                                            None => None,
                                                            Some(p_scrip) => match parse_lit_spec(
                                                                p_scrip.1,
                                                                "}"@,
                                                            ) {
                                                                None => None,
                                                                Some(s8) => Some(
                                                                    (
                                                                        DayRecordView {
                                                                            date: p_date.0,
                                                                            julian_date:
                                                                                p_julian.0,
                                                                            summary: p_summary.0,
                                                                            liturgical_notes:
                                                                                p_notes.0,
                                                                            lives: p_lives.0,
                                                                            troparia: p_trop.0,
                                                                            scripture: p_scrip.0,
                                                                        },
                                                                        s8,
                                                                    ),
                                                                ),
                                                            },
                                                        },
                                                    },
                                                },
                                            },
                                        },
                                    },
                                },
                            },
                        },
                    },
                },
            },
        },
    }
}

/// A successful record consumes at least its braces.
proof fn lemma_rec_consumes(s: Seq<char>)
    ensures
        parse_rec_spec(s) is Some ==> (parse_rec_spec(s)->Some_0).1.len() < s.len(),
{
    reveal(crate::codec::parse_rec_spec);
    reveal_strlit("{\"date\":");
    if parse_rec_spec(s) is Some {
        let s1 = parse_lit_spec(s, "{\"date\":"@)->Some_0;
        lemma_str_consumes(s1);
        let p_date = parse_str_spec(s1)->Some_0;
        let s2 = parse_lit_spec(p_date.1, ",\"julian_date\":"@)->Some_0;
        lemma_str_consumes(s2);
        let p_julian = parse_str_spec(s2)->Some_0;
        let s3 = parse_lit_spec(p_julian.1, ",\"summary\":"@)->Some_0;
        lemma_str_consumes(s3);
        let p_summary = parse_str_spec(s3)->Some_0;
        let s4 = parse_lit_spec(p_summary.1, ",\"liturgical_notes\":"@)->Some_0;
        lemma_str_consumes(s4);
        let p_notes = parse_str_spec(s4)->Some_0;
        let s5 = parse_lit_spec(p_notes.1, ",\"lives\":"@)->Some_0;
        lemma_arr_consumes(s5);
        let p_lives = parse_str_arr_spec(s5)->Some_0;
        let s6 = parse_lit_spec(p_lives.1, ",\"troparia\":"@)->Some_0;
        lemma_arr_consumes(s6);
        let p_trop = parse_str_arr_spec(s6)->Some_0;
        let s7 = parse_lit_spec(p_trop.1, ",\"scripture\":"@)->Some_0;
        lemma_arr_consumes(s7);
    }
}

/// Reads the records of a non-empty dataset array, after the opening
/// bracket.
pub open spec fn parse_rec_items(s: Seq<char>) -> Option<(Seq<DayRecordView>, Seq<char>)>
    decreases s.len(),
    via parse_rec_items_decreases
{
    match parse_rec_spec(s) {
        Some(p) => {
            if p.1.len() >= 1 && p.1[0] == ',' {
                match parse_rec_items(p.1.skip(1)) {
                    Some(q) => Some((seq![p.0] + q.0, q.1)),
                    None => None,
                }
            } else if p.1.len() >= 1 && p.1[0] == ']' {
                Some((seq![p.0], p.1.skip(1)))
            } else {
                None
            }
        },
        None => None,
    }
}

#[via_fn]
proof fn parse_rec_items_decreases(s: Seq<char>) {
    lemma_rec_consumes(s);
}

/// Reads a whole dataset array.
pub open spec fn parse_dataset_spec(s: Seq<char>) -> Option<(Seq<DayRecordView>, Seq<char>)> {
    if s.len() >= 2 && s[0] == '[' && s[1] == ']' {
        Some((Seq::empty(), s.skip(2)))
    } else if s.len() >= 1 && s[0] == '[' {
        parse_rec_items(s.skip(1))
    } else {
        None
    }
}

/// What a persisted file denotes: a dataset array with nothing after
/// it, or nothing at all.
pub open spec fn parse_calendar_spec(s: Seq<char>) -> Option<Seq<DayRecordView>> {
    match parse_dataset_spec(s) {
        Some(p) => if p.1.len() == 0 {
            Some(p.0)
        } else {
            None
        },
        None => None,
    }
}

/// Expecting a literal right where it stands succeeds and leaves the
/// tail.
proof fn lemma_parse_lit(lit: Seq<char>, rest: Seq<char>)
    ensures
        parse_lit_spec(lit + rest, lit) == Some(rest),
{
    let s = lit + rest;
    assert forall|k: int| 0 <= k < lit.len() implies s[k] == lit[k] by {}
    assert(starts_with_spec(s, lit));
    assert(s.skip(lit.len() as int) =~= rest);
}

/// Decoding an escaped body finds exactly the original text and stops
/// at the closing quote.
proof fn lemma_body_roundtrip(x: Seq<char>, rest: Seq<char>)
    ensures
        parse_str_body(esc(x) + seq!['"'] + rest) == Some((x, rest)),
    decreases x.len(),
{
    let s = esc(x) + seq!['"'] + rest;
    if x.len() == 0 {
        assert(esc(x) =~= Seq::<char>::empty());
        assert(s =~= seq!['"'] + rest);
        assert(s[0] == '"');
        assert(s.skip(1) =~= rest);
    } else {
        let c = x[0];
        let x1 = x.drop_first();
        lemma_body_roundtrip(x1, rest);
        let tail = esc(x1) + seq!['"'] + rest;
        assert(esc(x) == esc_char(c) + esc(x1));
        assert(s =~= esc_char(c) + tail);
        if c == '"' {
            assert(s[0] == '\\' && s[1] == '"');
            assert(s.skip(2) =~= tail);
            assert(unesc_char('"') == '"');
            assert(seq![c] + x1 =~= x);
        } else if c == '\\' {
            assert(s[0] == '\\' && s[1] == '\\');
            assert(s.skip(2) =~= tail);
            assert(unesc_char('\\') == '\\');
            assert(seq![c] + x1 =~= x);
        } else if c == '\n' {
            assert(s[0] == '\\' && s[1] == 'n');
            assert(s.skip(2) =~= tail);
            assert(unesc_char('n') == '\n');
            assert(seq![c] + x1 =~= x);
        } else {
            assert(s[0] == c);
            assert(s.skip(1) =~= tail);
            assert(seq![c] + x1 =~= x);
        }
    }
}

/// Reading back an encoded string yields the original text.
proof fn lemma_str_roundtrip(x: Seq<char>, rest: Seq<char>)
    ensures
        parse_str_spec(enc_str(x) + rest) == Some((x, rest)),
{
    let s = enc_str(x) + rest;
    assert(s =~= seq!['"'] + (esc(x) + seq!['"'] + rest));
    assert(s[0] == '"');
    assert(s.skip(1) =~= esc(x) + seq!['"'] + rest);
    lemma_body_roundtrip(x, rest);
}

/// Reading back encoded array items yields the original strings.
proof fn lemma_items_roundtrip(xs: Seq<Seq<char>>, rest: Seq<char>)
    requires
        xs.len() >= 1,
    ensures
        parse_str_items(enc_arr_items(xs) + seq![']'] + rest) == Some((xs, rest)),
    decreases xs.len(),
{
    let s = enc_arr_items(xs) + seq![']'] + rest;
    if xs.len() == 1 {
        let after = seq![']'] + rest;
        assert(s =~= enc_str(xs[0]) + after);
        lemma_str_roundtrip(xs[0], after);
        assert(after[0] == ']');
        assert(after.skip(1) =~= rest);
        assert(seq![xs[0]] =~= xs);
    } else {
        let xs1 = xs.drop_first();
        let after = seq![','] + (enc_arr_items(xs1) + seq![']'] + rest);
        assert(s =~= enc_str(xs[0]) + after);
        lemma_str_roundtrip(xs[0], after);
        assert(after[0] == ',');
        assert(after.skip(1) =~= enc_arr_items(xs1) + seq![']'] + rest);
        lemma_items_roundtrip(xs1, rest);
        assert(seq![xs[0]] + xs1 =~= xs);
    }
}

/// Reading back an encoded string array yields the original strings.
proof fn lemma_arr_roundtrip(xs: Seq<Seq<char>>, rest: Seq<char>)
    ensures
        parse_str_arr_spec(enc_arr(xs) + rest) == Some((xs, rest)),
{
    let s = enc_arr(xs) + rest;
    if xs.len() == 0 {
        assert(enc_arr_items(xs) =~= Seq::<char>::empty());
        assert(s =~= seq!['[', ']'] + rest);
        assert(s[0] == '[' && s[1] == ']');
        assert(s.skip(2) =~= rest);
        assert(Seq::<Seq<char>>::empty() =~= xs);
    } else {
        assert(s[0] == '[');
        assert(enc_arr_items(xs)[0] == enc_str(xs[0])[0]);
        assert(enc_str(xs[0])[0] == '"');
        assert(s[1] == '"');
        assert(s.skip(1) =~= enc_arr_items(xs) + seq![']'] + rest);
        lemma_items_roundtrip(xs, rest);
    }
}

/// Concatenation is associative.
proof fn lemma_assoc(a: Seq<char>, b: Seq<char>, c: Seq<char>)
    ensures
        (a + b) + c == a + (b + c),
{
    assert((a + b) + c =~= a + (b + c));
}

/// Reading back an encoded record yields the original record.
#[verifier::rlimit(100)]
proof fn lemma_rec_roundtrip(rv: DayRecordView, rest: Seq<char>)
    ensures
        parse_rec_spec(enc_rec(rv) + rest) == Some((rv, rest)),
{
    reveal(crate::codec::enc_rec);
    reveal(crate::codec::parse_rec_spec);
    let t14 = enc_arr(rv.scripture) + "}"@;
    let t13 = ",\"scripture\":"@ + t14;
    let t12 = enc_arr(rv.troparia) + t13;
    let t11 = ",\"troparia\":"@ + t12;
    let t10 = enc_arr(rv.lives) + t11;
    let t9 = ",\"lives\":"@ + t10;
    let t8 = enc_str(rv.liturgical_notes) + t9;
    let t7 = ",\"liturgical_notes\":"@ + t8;
    let t6 = enc_str(rv.summary) + t7;
    let t5 = ",\"summary\":"@ + t6;
    let t4 = enc_str(rv.julian_date) + t5;
    let t3 = ",\"julian_date\":"@ + t4;
    let t2 = enc_str(rv.date) + t3;
    let t1 = "{\"date\":"@ + t2;
    assert(enc_rec(rv) == t1) by {
        lemma_assoc(enc_arr(rv.scripture), "}"@, Seq::empty());
        assert(enc_rec(rv) =~= t1);
    }
    lemma_assoc("{\"date\":"@, t2, rest);
    lemma_parse_lit("{\"date\":"@, t2 + rest);
    lemma_assoc(enc_str(rv.date), t3, rest);
    lemma_str_roundtrip(rv.date, t3 + rest);
    lemma_assoc(",\"julian_date\":"@, t4, rest);
    lemma_parse_lit(",\"julian_date\":"@, t4 + rest);
    lemma_assoc(enc_str(rv.julian_date), t5, rest);
    lemma_str_roundtrip(rv.julian_date, t5 + rest);
    lemma_assoc(",\"summary\":"@, t6, rest);
    lemma_parse_lit(",\"summary\":"@, t6 + rest);
    lemma_assoc(enc_str(rv.summary), t7, rest);
    lemma_str_roundtrip(rv.summary, t7 + rest);
    lemma_assoc(",\"liturgical_notes\":"@, t8, rest);
    lemma_parse_lit(",\"liturgical_notes\":"@, t8 + rest);
    lemma_assoc(enc_str(rv.liturgical_notes), t9, rest);
    lemma_str_roundtrip(rv.liturgical_notes, t9 + rest);
    lemma_assoc(",\"lives\":"@, t10, rest);
    lemma_parse_lit(",\"lives\":"@, t10 + rest);
    lemma_assoc(enc_arr(rv.lives), t11, rest);
    lemma_arr_roundtrip(rv.lives, t11 + rest);
    lemma_assoc(",\"troparia\":"@, t12, rest);
    lemma_parse_lit(",\"troparia\":"@, t12 + rest);
    lemma_assoc(enc_arr(rv.troparia), t13, rest);
    lemma_arr_roundtrip(rv.troparia, t13 + rest);
    lemma_assoc(",\"scripture\":"@, t14, rest);
    lemma_parse_lit(",\"scripture\":"@, t14 + rest);
    lemma_assoc(enc_arr(rv.scripture), "}"@, rest);
    lemma_arr_roundtrip(rv.scripture, "}"@ + rest);
    lemma_parse_lit("}"@, rest);
}

/// Reading back encoded dataset items yields the original records.
#[verifier::rlimit(100)]
proof fn lemma_dataset_items_roundtrip(rs: Seq<DayRecordView>, rest: Seq<char>)
    requires
        rs.len() >= 1,
    ensures
        parse_rec_items(enc_dataset_items(rs) + seq![']'] + rest) == Some((rs, rest)),
    decreases rs.len(),
{
    if rs.len() == 1 {
        let after = seq![']'] + rest;
        lemma_assoc(enc_rec(rs[0]), seq![']'], rest);
        lemma_rec_roundtrip(rs[0], after);
        assert(after[0] == ']');
        assert(after.skip(1) =~= rest);
        assert(seq![rs[0]] =~= rs);
    } else {
        let rs1 = rs.drop_first();
        let items1 = enc_dataset_items(rs1);
        lemma_assoc(enc_rec(rs[0]), seq![','], items1);
        lemma_assoc(enc_rec(rs[0]), seq![','] + items1, seq![']']);
        lemma_assoc(enc_rec(rs[0]), (seq![','] + items1) + seq![']'], rest);
        lemma_assoc(seq![','] + items1, seq![']'], rest);
        lemma_assoc(seq![','], items1, seq![']'] + rest);
        let after = seq![','] + (items1 + (seq![']'] + rest));
        lemma_rec_roundtrip(rs[0], after);
        assert(after[0] == ',');
        assert(after.skip(1) =~= items1 + (seq![']'] + rest));
        lemma_assoc(items1, seq![']'], rest);
        lemma_dataset_items_roundtrip(rs1, rest);
        assert(seq![rs[0]] + rs1 =~= rs);
    }
}

/// An encoded record starts with its opening brace.
proof fn lemma_enc_rec_head(rv: DayRecordView)
    ensures
        enc_rec(rv).len() >= 1,
        enc_rec(rv)[0] == '{',
{
    reveal(crate::codec::enc_rec);
    reveal_strlit("{\"date\":");
    assert("{\"date\":"@[0] == '{');
}

/// Reading back an encoded dataset yields the original records.
#[verifier::rlimit(100)]
proof fn lemma_dataset_roundtrip(rs: Seq<DayRecordView>, rest: Seq<char>)
    ensures
        parse_dataset_spec(enc_dataset(rs) + rest) == Some((rs, rest)),
{
    let s = enc_dataset(rs) + rest;
    if rs.len() == 0 {
        assert(enc_dataset_items(rs) =~= Seq::<char>::empty());
        assert(s =~= seq!['[', ']'] + rest);
        assert(s[0] == '[' && s[1] == ']');
        assert(s.skip(2) =~= rest);
        assert(Seq::<DayRecordView>::empty() =~= rs);
    } else {
        assert(s[0] == '[');
        lemma_enc_rec_head(rs[0]);
        assert(enc_dataset_items(rs)[0] == enc_rec(rs[0])[0]);
        assert(s[1] == '{');
        assert(s.skip(1) =~= enc_dataset_items(rs) + seq![']'] + rest);
        lemma_dataset_items_roundtrip(rs, rest);
    }
}

/// Saving and reloading round-trips: the persisted text of any
/// dataset parses back to exactly the same records, in the same
/// order.
pub proof fn lemma_save_load_roundtrip(rs: Seq<DayRecordView>)
    ensures
        parse_calendar_spec(enc_dataset(rs)) == Some(rs),
{
    lemma_dataset_roundtrip(rs, Seq::empty());
    assert(enc_dataset(rs) + Seq::<char>::empty() =~= enc_dataset(rs));
}

fn unesc_exec(c: char) -> (r: char)
    ensures
        r == unesc_char(c),
{
    if c == 'n' {
        '\n'
    } else {
        c
    }
}

fn p_lit(v: &Vec<char>, i: usize, lit: &Vec<char>) -> (r: Option<usize>)
    requires
        i <= v@.len(),
    ensures
        match r {
            Some(j) => i <= j <= v@.len() && parse_lit_spec(v@.skip(i as int), lit@) == Some(
                v@.skip(j as int),
            ),
            None => parse_lit_spec(v@.skip(i as int), lit@) is None,
        },
{
    let n = v.len();
    proof {
        lemma_matches_at_skip(v@, i as int, lit@);
    }
    if matches_at_exec(v, i, lit) {
        proof {
            assert(v@.skip(i as int).skip(lit@.len() as int) =~= v@.skip(i + lit@.len()));
        }
        Some(i + lit.len())
    } else {
        None
    }
}

fn p_str_body(v: &Vec<char>, i: usize) -> (r: Option<(Vec<char>, usize)>)
    requires
        i <= v@.len(),
    ensures
        match r {
            Some(p) => i <= p.1 <= v@.len() && parse_str_body(v@.skip(i as int)) == Some(
                (p.0@, v@.skip(p.1 as int)),
            ),
            None => parse_str_body(v@.skip(i as int)) is None,
        },
    decreases v@.len() - i,
{
    let ghost t = v@.skip(i as int);
    let n = v.len();
    if i >= n {
        proof {
            assert(t.len() == 0);
        }
        return None;
    }
    proof {
        assert(t[0] == v@[i as int]);
        assert(t.skip(1) =~= v@.skip(i + 1));
        assert(t.drop_first() =~= v@.skip(i + 1));
    }
    let c = v[i];
    if c == '"' {
        let out: Vec<char> = Vec::new();
        proof {
            assert(out@ =~= Seq::<char>::empty());
        }
        return Some((out, i + 1));
    }
    if c == '\\' {
        if n - i < 2 {
            proof {
                assert(t.len() < 2);
            }
            return None;
        }
        proof {
            assert(t[1] == v@[i + 1]);
            assert(t.skip(2) =~= v@.skip(i + 2));
        }
        let u = unesc_exec(v[i + 1]);
        match p_str_body(v, i + 2) {
            Some((x, j)) => {
                let mut out: Vec<char> = Vec::new();
                out.push(u);
                let mut xx = x;
                let ghost xv = xx@;
                out.append(&mut xx);
                proof {
                    assert(out@ =~= seq![unesc_char(t[1])] + xv);
                }
                Some((out, j))
            },
            None => None,
        }
    } else {
        match p_str_body(v, i + 1) {
            Some((x, j)) => {
                let mut out: Vec<char> = Vec::new();
                out.push(c);
                let mut xx = x;
                let ghost xv = xx@;
                out.append(&mut xx);
                proof {
                    assert(out@ =~= seq![t[0]] + xv);
                }
                Some((out, j))
            },
            None => None,
        }
    }
}

fn p_str(v: &Vec<char>, i: usize) -> (r: Option<(String, usize)>)
    requires
        i <= v@.len(),
    ensures
        match r {
            Some(p) => i <= p.1 <= v@.len() && parse_str_spec(v@.skip(i as int)) == Some(
                (p.0@, v@.skip(p.1 as int)),
            ),
            None => parse_str_spec(v@.skip(i as int)) is None,
        },
{
    let ghost t = v@.skip(i as int);
    if i >= v.len() || v[i] != '"' {
        proof {
            if i < v@.len() {
                assert(t[0] == v@[i as int]);
            }
        }
        return None;
    }
    proof {
        assert(t[0] == v@[i as int]);
        assert(t.skip(1) =~= v@.skip(i + 1));
    }
    match p_str_body(v, i + 1) {
        Some((x, j)) => Some((chars_to_string(&x), j)),
        None => None,
    }
}

fn p_str_items(v: &Vec<char>, i: usize) -> (r: Option<(Vec<String>, usize)>)
    requires
        i <= v@.len(),
    ensures
        match r {
            Some(p) => i <= p.1 <= v@.len() && parse_str_items(v@.skip(i as int)) == Some(
                (p.0.deep_view(), v@.skip(p.1 as int)),
            ),
            None => parse_str_items(v@.skip(i as int)) is None,
        },
    decreases v@.len() - i,
{
    let ghost t = v@.skip(i as int);
    let x_j = p_str(v, i);
    match x_j {
        None => None,
        Some((x, j)) => {
            proof {
                lemma_str_consumes(t);
                assert(v@.skip(j as int).len() < t.len());
                assert(j > i);
            }
            if j < v.len() && v[j] == ',' {
                proof {
                    assert(v@.skip(j as int)[0] == v@[j as int]);
                    assert(v@.skip(j as int).skip(1) =~= v@.skip(j + 1));
                }
                match p_str_items(v, j + 1) {
                    Some((xs, k)) => {
                        let mut out: Vec<String> = Vec::new();
                        out.push(x);
                        let mut xs2 = xs;
                        let ghost xsv = xs2.deep_view();
                        out.append(&mut xs2);
                        proof {
                            assert(out.deep_view() =~~= seq![x@] + xsv);
                        }
                        Some((out, k))
                    },
                    None => None,
                }
            } else if j < v.len() && v[j] == ']' {
                proof {
                    assert(v@.skip(j as int)[0] == v@[j as int]);
                    assert(v@.skip(j as int).skip(1) =~= v@.skip(j + 1));
                }
                let mut out: Vec<String> = Vec::new();
                out.push(x);
                proof {
                    assert(out.deep_view() =~~= seq![x@]);
                }
                Some((out, j + 1))
            } else {
                proof {
                    if j < v@.len() {
                        assert(v@.skip(j as int)[0] == v@[j as int]);
                    } else {
                        assert(v@.skip(j as int).len() == 0);
                    }
                }
                None
            }
        },
    }
}

fn p_str_arr(v: &Vec<char>, i: usize) -> (r: Option<(Vec<String>, usize)>)
    requires
        i <= v@.len(),
    ensures
        match r {
            Some(p) => i <= p.1 <= v@.len() && parse_str_arr_spec(v@.skip(i as int)) == Some(
                (p.0.deep_view(), v@.skip(p.1 as int)),
            ),
            None => parse_str_arr_spec(v@.skip(i as int)) is None,
        },
{
    let ghost t = v@.skip(i as int);
    let n = v.len();
    proof {
        if i < v@.len() {
            assert(t[0] == v@[i as int]);
        }
        if i + 1 < v@.len() {
            assert(t[1] == v@[i + 1]);
        }
    }
    if i < n && v[i] == '[' {
        if i + 1 < n && v[i + 1] == ']' {
            proof {
                assert(t.skip(2) =~= v@.skip(i + 2));
            }
            let out: Vec<String> = Vec::new();
            proof {
                assert(out.deep_view() =~~= Seq::<Seq<char>>::empty());
            }
            Some((out, i + 2))
        } else {
            proof {
                assert(t.skip(1) =~= v@.skip(i + 1));
            }
            p_str_items(v, i + 1)
        }
    } else {
        None
    }
}

#[verifier::rlimit(100)]
fn p_rec(v: &Vec<char>, i: usize) -> (r: Option<(OrthoCalendarData, usize)>)
    requires
        i <= v@.len(),
    ensures
        match r {
            Some(p) => i <= p.1 <= v@.len() && parse_rec_spec(v@.skip(i as int)) == Some(
                (p.0@, v@.skip(p.1 as int)),
            ),
            None => parse_rec_spec(v@.skip(i as int)) is None,
        },
{
    proof {
        reveal(crate::codec::parse_rec_spec);
    }
    let lit = str_chars("{\"date\":");
    let i1 = match p_lit(v, i, &lit) {
        Some(j) => j,
        None => {
            return None;
        },
    };
    let (date, i2) = match p_str(v, i1) {
        Some(p) => p,
        None => {
            return None;
        },
    };
    let lit = str_chars(",\"julian_date\":");
    let i3 = match p_lit(v, i2, &lit) {
        Some(j) => j,
        None => {
            return None;
        },
    };
    let (julian_date, i4) = match p_str(v, i3) {
        Some(p) => p,
        None => {
            return None;
        },
    };
    let lit = str_chars(",\"summary\":");
    let i5 = match p_lit(v, i4, &lit) {
        Some(j) => j,
        None => {
            return None;
        },
    };
    let (summary, i6) = match p_str(v, i5) {
        Some(p) => p,
        None => {
            return None;
        },
    };
    let lit = str_chars(",\"liturgical_notes\":");
    let i7 = match p_lit(v, i6, &lit) {
        Some(j) => j,
        None => {
            return None;
        },
    };
    let (liturgical_notes, i8) = match p_str(v, i7) {
        Some(p) => p,
        None => {
            return None;
        },
    };
    let lit = str_chars(",\"lives\":");
    let i9 = match p_lit(v, i8, &lit) {
        Some(j) => j,
        None => {
            return None;
        },
    };
    let (lives, i10) = match p_str_arr(v, i9) {
        Some(p) => p,
        None => {
            return None;
        },
    };
    let lit = str_chars(",\"troparia\":");
    let i11 = match p_lit(v, i10, &lit) {
        Some(j) => j,
        None => {
            return None;
        },
    };
    let (troparia, i12) = match p_str_arr(v, i11) {
        Some(p) => p,
        None => {
            return None;
        },
    };
    let lit = str_chars(",\"scripture\":");
    let i13 = match p_lit(v, i12, &lit) {
        Some(j) => j,
        None => {
            return None;
        },
    };
    let (scripture, i14) = match p_str_arr(v, i13) {
        Some(p) => p,
        None => {
            return None;
        },
    };
    let lit = str_chars("}");
    let i15 = match p_lit(v, i14, &lit) {
        Some(j) => j,
        None => {
            return None;
        },
    };
    let rec = OrthoCalendarData {
        date,
        julian_date,
        summary,
        liturgical_notes,
        lives,
        troparia,
        scripture,
    };
    Some((rec, i15))
}

#[verifier::rlimit(100)]
fn p_rec_items(v: &Vec<char>, i: usize) -> (r: Option<(Vec<OrthoCalendarData>, usize)>)
    requires
        i <= v@.len(),
    ensures
        match r {
            Some(p) => i <= p.1 <= v@.len() && parse_rec_items(v@.skip(i as int)) == Some(
                (p.0.deep_view(), v@.skip(p.1 as int)),
            ),
            None => parse_rec_items(v@.skip(i as int)) is None,
        },
    decreases v@.len() - i,
{
    let ghost t = v@.skip(i as int);
    let x_j = p_rec(v, i);
    match x_j {
        None => None,
        Some((x, j)) => {
            proof {
                lemma_rec_consumes(t);
                assert(v@.skip(j as int).len() < t.len());
                assert(j > i);
            }
            if j < v.len() && v[j] == ',' {
                proof {
                    assert(v@.skip(j as int)[0] == v@[j as int]);
                    assert(v@.skip(j as int).skip(1) =~= v@.skip(j + 1));
                }
                match p_rec_items(v, j + 1) {
                    Some((xs, k)) => {
                        let mut out: Vec<OrthoCalendarData> = Vec::new();
                        out.push(x);
                        let mut xs2 = xs;
                        let ghost xsv = xs2.deep_view();
                        out.append(&mut xs2);
                        proof {
                            assert(out.deep_view() =~~= seq![x@] + xsv);
                        }
                        Some((out, k))
                    },
                    None => None,
                }
            } else if j < v.len() && v[j] == ']' {
                proof {
                    assert(v@.skip(j as int)[0] == v@[j as int]);
                    assert(v@.skip(j as int).skip(1) =~= v@.skip(j + 1));
                }
                let mut out: Vec<OrthoCalendarData> = Vec::new();
                out.push(x);
                proof {
                    assert(out.deep_view() =~~= seq![x@]);
                }
                Some((out, j + 1))
            } else {
                proof {
                    if j < v@.len() {
                        assert(v@.skip(j as int)[0] == v@[j as int]);
                    } else {
                        assert(v@.skip(j as int).len() == 0);
                    }
                }
                None
            }
        },
    }
}

/// Parses a persisted yearly dataset back into its records, accepting
/// exactly the texts the encoder produces.
pub fn parse_calendar_json(s: &str) -> (r: Option<Vec<OrthoCalendarData>>)
    ensures
        match r {
            Some(ds) => parse_calendar_spec(s@) == Some(ds.deep_view()),
            None => parse_calendar_spec(s@) is None,
        },
{
    let v = str_chars(s);
    let ghost t = v@;
    let n = v.len();
    proof {
        if 0 < v@.len() {
            assert(t.skip(0)[0] == t[0]);
        }
        assert(t.skip(0) =~= t);
    }
    if n >= 2 && v[0] == '[' && v[1] == ']' {
        if n == 2 {
            proof {
                assert(t.skip(2).len() == 0);
            }
            let out: Vec<OrthoCalendarData> = Vec::new();
            proof {
                assert(out.deep_view() =~~= Seq::<DayRecordView>::empty());
            }
            return Some(out);
        } else {
            proof {
                assert(t.skip(2).len() > 0);
            }
            return None;
        }
    }
    if n >= 1 && v[0] == '[' {
        proof {
            assert(t.skip(1) =~= v@.skip(1));
        }
        match p_rec_items(&v, 1) {
            Some((ds, j)) => {
                if j == n {
                    proof {
                        assert(t.skip(j as int).len() == 0);
                    }
                    Some(ds)
                } else {
                    proof {
                        assert(t.skip(j as int).len() > 0);
                    }
                    None
                }
            },
            None => None,
        }
    } else {
        None
    }
}

} // verus!
