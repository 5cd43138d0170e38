//! The year store's decision logic: per-month completion accounting
//! over the persisted dataset, and the merge that replaces one month's
//! records and re-sorts the whole year by date.

use crate::date::{days_in_month, days_in_month_spec, parse_sortable, parse_sortable_spec};
use crate::json::{DayRecordView, OrthoCalendarData};
use vstd::prelude::*;

verus! {

/// True when the record's stored date parses and falls in `month`.
pub open spec fn record_in_month(rv: DayRecordView, month: int) -> bool {
    match parse_sortable_spec(rv.date) {
        Some(d) => d.month == month,
        None => false,
    }
}

/// How many records of the dataset fall in `month`.
pub open spec fn count_in_month(ds: Seq<DayRecordView>, month: int) -> int
    decreases ds.len(),
{
    if ds.len() == 0 {
        0
    } else {
        (if record_in_month(ds[0], month) {
            1int
        } else {
            0int
        }) + count_in_month(ds.drop_first(), month)
    }
}

/// The dataset without the records that fall in `month`.
pub open spec fn without_month(ds: Seq<DayRecordView>, month: int) -> Seq<DayRecordView>
    decreases ds.len(),
{
    if ds.len() == 0 {
        Seq::empty()
    } else {
        (if record_in_month(ds[0], month) {
            Seq::<DayRecordView>::empty()
        } else {
            seq![ds[0]]
        }) + without_month(ds.drop_first(), month)
    }
}

/// Lexicographic order on texts, by character value.
pub open spec fn lex_le(a: Seq<char>, b: Seq<char>) -> bool
    decreases a.len(),
{
    if a.len() == 0 {
        true
    } else if b.len() == 0 {
        false
    } else if a[0] == b[0] {
        lex_le(a.drop_first(), b.drop_first())
    } else {
        (a[0] as int) < (b[0] as int)
    }
}

/// The dataset is sorted ascending by its date texts.
pub open spec fn sorted_by_date(ds: Seq<DayRecordView>) -> bool {
    forall|i: int, j: int| 0 <= i < j < ds.len() ==> lex_le(#[trigger] ds[i].date, #[trigger] ds[j].date)
}

/// Strict lexicographic order on texts.
pub open spec fn lex_lt(a: Seq<char>, b: Seq<char>) -> bool {
    lex_le(a, b) && a != b
}

/// No two records of the dataset share a date text.
pub open spec fn distinct_dates(ds: Seq<DayRecordView>) -> bool {
    forall|i: int, j: int| 0 <= i < j < ds.len() ==> (#[trigger] ds[i].date) != (#[trigger] ds[j].date)
}

/// The dataset ascends strictly by its date texts, so every date is
/// unique.
pub open spec fn strictly_ascending(ds: Seq<DayRecordView>) -> bool {
    forall|i: int, j: int|
        0 <= i < j < ds.len() ==> lex_lt(#[trigger] ds[i].date, #[trigger] ds[j].date)
}

/// Two positions holding the same record put it in the contents at
/// least twice.
proof fn lemma_two_positions_count(s: Seq<DayRecordView>, i: int, j: int)
    requires
        0 <= i < j < s.len(),
        s[i] == s[j],
    ensures
        s.to_multiset().count(s[i]) >= 2,
{
    broadcast use vstd::seq_lib::group_to_multiset_ensures;
    broadcast use vstd::multiset::group_multiset_axioms;

    let x = s[i];
    let t = s.remove(j);
    assert(t.to_multiset() =~= s.to_multiset().remove(x));
    assert(t[i] == x);
    assert(t.contains(x));
    assert(t.to_multiset().count(x) > 0);
}

/// A dataset with distinct dates holds each record at most once.
proof fn lemma_distinct_count_le_one(inp: Seq<DayRecordView>, x: DayRecordView)
    requires
        distinct_dates(inp),
    ensures
        inp.to_multiset().count(x) <= 1,
{
    broadcast use vstd::seq_lib::group_to_multiset_ensures;
    broadcast use vstd::multiset::group_multiset_axioms;

    if inp.to_multiset().count(x) < 2 {
        return ;
    }
    assert(inp.contains(x));
    let k = choose|k: int| 0 <= k < inp.len() && inp[k] == x;
    let t = inp.remove(k);
    assert(t.to_multiset() =~= inp.to_multiset().remove(x));
    assert(t.to_multiset().count(x) >= 1);
    assert(t.contains(x));
    let l = choose|l: int| 0 <= l < t.len() && t[l] == x;
    let m = if l < k {
        l
    } else {
        l + 1
    };
    assert(inp[m] == x) by {
        assert(t[l] == inp[m]);
    }
    assert(m != k);
    if m < k {
        assert(inp[m].date != inp[k].date);
    } else {
        assert(inp[k].date != inp[m].date);
    }
    assert(false);
}

/// Sorting a distinct-dated dataset by date makes it strictly
/// ascending: any date-sorted dataset holding exactly the records of
/// one with pairwise-distinct dates has them in strictly increasing
/// order.
pub proof fn lemma_sorted_distinct(inp: Seq<DayRecordView>, out: Seq<DayRecordView>)
    requires
        out.to_multiset() == inp.to_multiset(),
        distinct_dates(inp),
        sorted_by_date(out),
    ensures
        strictly_ascending(out),
        distinct_dates(out),
{
    broadcast use vstd::seq_lib::group_to_multiset_ensures;

    assert forall|i: int, j: int| 0 <= i < j < out.len() implies (#[trigger] out[i].date)
        != (#[trigger] out[j].date) by {
        if out[i].date == out[j].date {
            if out[i] == out[j] {
                lemma_two_positions_count(out, i, j);
                lemma_distinct_count_le_one(inp, out[i]);
            } else {
                assert(out.contains(out[i]));
                assert(inp.to_multiset().count(out[i]) > 0);
                assert(inp.contains(out[i]));
                assert(out.contains(out[j]));
                assert(inp.to_multiset().count(out[j]) > 0);
                assert(inp.contains(out[j]));
                let k = choose|k: int| 0 <= k < inp.len() && inp[k] == out[i];
                let l = choose|l: int| 0 <= l < inp.len() && inp[l] == out[j];
                assert(k != l);
                if k < l {
                    assert(inp[k].date != inp[l].date);
                } else {
                    assert(inp[l].date != inp[k].date);
                }
            }
        }
    }
}

/// The order is total.
pub proof fn lemma_lex_total(a: Seq<char>, b: Seq<char>)
    ensures
        lex_le(a, b) || lex_le(b, a),
    decreases a.len(),
{
    if a.len() == 0 || b.len() == 0 {
    } else if a[0] == b[0] {
        lemma_lex_total(a.drop_first(), b.drop_first());
    } else {
        assert((a[0] as int) != (b[0] as int));
    }
}

/// The order is transitive.
pub proof fn lemma_lex_trans(a: Seq<char>, b: Seq<char>, c: Seq<char>)
    requires
        lex_le(a, b),
        lex_le(b, c),
    ensures
        lex_le(a, c),
    decreases a.len(),
{
    if a.len() == 0 {
    } else if b.len() == 0 {
    } else if c.len() == 0 {
    } else if a[0] == b[0] && b[0] == c[0] {
        lemma_lex_trans(a.drop_first(), b.drop_first(), c.drop_first());
    }
}

/// Character-by-character comparison of two texts.
pub fn str_le(a: &str, b: &str) -> (r: bool)
    ensures
        r == lex_le(a@, b@),
{
    let na = a.unicode_len();
    let nb = b.unicode_len();
    let mut i: usize = 0;
    proof {
        assert(a@.skip(0) =~= a@);
        assert(b@.skip(0) =~= b@);
    }
    while i < na && i < nb
        invariant
            na == a@.len(),
            nb == b@.len(),
            i <= na,
            i <= nb,
            lex_le(a@, b@) == lex_le(a@.skip(i as int), b@.skip(i as int)),
        decreases na - i,
    {
        let ca = a.get_char(i);
        let cb = b.get_char(i);
        proof {
            assert(a@.skip(i as int)[0] == a@[i as int]);
            assert(b@.skip(i as int)[0] == b@[i as int]);
            assert(a@.skip(i as int).drop_first() =~= a@.skip(i + 1));
            assert(b@.skip(i as int).drop_first() =~= b@.skip(i + 1));
        }
        if ca != cb {
            return (ca as u32) < (cb as u32);
        }
        i = i + 1;
    }
    proof {
        if i >= na {
            assert(a@.skip(i as int).len() == 0);
        } else {
            assert(b@.skip(i as int).len() == 0);
            assert(a@.skip(i as int).len() > 0);
        }
    }
    i >= na
}

/// Month of a record's stored date, or 0 when it does not parse.
fn record_month(rec: &OrthoCalendarData) -> (r: u32)
    ensures
        r != 0 ==> record_in_month(rec@, r as int),
        forall|m: int| m != r ==> !record_in_month(rec@, m),
{
    match parse_sortable(rec.date.as_str()) {
        Some(d) => d.month,
        None => 0,
    }
}

/// Counts the records whose date falls in `month`.
pub fn count_month(data: &Vec<OrthoCalendarData>, month: u32) -> (r: usize)
    requires
        1 <= month,
    ensures
        r == count_in_month(data.deep_view(), month as int),
{
    let ghost dv = data.deep_view();
    let n = data.len();
    let mut count: usize = 0;
    let mut i: usize = 0;
    proof {
        assert(dv.skip(0) =~= dv);
    }
    while i < n
        invariant
            n == dv.len(),
            dv == data.deep_view(),
            1 <= month,
            i <= n,
            count <= i,
            count + count_in_month(dv.skip(i as int), month as int) == count_in_month(
                dv,
                month as int,
            ),
        decreases n - i,
    {
        let ghost t = dv.skip(i as int);
        proof {
            assert(t[0] == dv[i as int]);
            assert(t.drop_first() =~= dv.skip(i + 1));
            assert(dv[i as int] == data@[i as int]@);
        }
        let rec = &data[i];
        let rm = record_month(rec);
        proof {
            assert(rec@ == dv[i as int]);
        }
        if rm == month {
            proof {
                assert(rm != 0);
                assert(record_in_month(rec@, rm as int));
                assert(record_in_month(t[0], month as int));
            }
            count = count + 1;
        } else {
            proof {
                assert(!record_in_month(t[0], month as int));
            }
        }
        i = i + 1;
    }
    proof {
        assert(dv.skip(n as int) =~= Seq::<DayRecordView>::empty());
    }
    count
}

/// True when `month` of `year` has as many records as it has days.
pub fn is_month_complete(data: &Vec<OrthoCalendarData>, year: i32, month: u32) -> (r: bool)
    requires
        1 <= month <= 12,
    ensures
        r == (count_in_month(data.deep_view(), month as int) == days_in_month_spec(
            year as int,
            month as int,
        )),
{
    let expected = days_in_month(year, month);
    count_month(data, month) == expected as usize
}

/// True when `month` of `year` still lacks records, as the year fetch
/// decides it: fewer records than the month has days.
pub fn month_needs_fetch(data: &Vec<OrthoCalendarData>, year: i32, month: u32) -> (r: bool)
    requires
        1 <= month <= 12,
    ensures
        r == (count_in_month(data.deep_view(), month as int) < days_in_month_spec(
            year as int,
            month as int,
        )),
{
    let expected = days_in_month(year, month);
    count_month(data, month) < expected as usize
}

/// Every month of the year has its full complement of records.
pub open spec fn year_complete_spec(ds: Seq<DayRecordView>, year: int) -> bool {
    forall|m: int|
        1 <= m <= 12 ==> count_in_month(ds, m) == days_in_month_spec(year, m)
}

/// True when all twelve months of `year` are complete.
pub fn is_year_complete(data: &Vec<OrthoCalendarData>, year: i32) -> (r: bool)
    ensures
        r == year_complete_spec(data.deep_view(), year as int),
{
    let mut m: u32 = 1;
    while m <= 12
        invariant
            1 <= m <= 13,
            forall|k: int|
                1 <= k < m ==> count_in_month(data.deep_view(), k) == days_in_month_spec(
                    year as int,
                    k,
                ),
        decreases 13 - m,
    {
        if !is_month_complete(data, year, m) {
            return false;
        }
        m = m + 1;
    }
    true
}

/// Month counts add up over concatenation.
pub proof fn lemma_count_concat(a: Seq<DayRecordView>, b: Seq<DayRecordView>, month: int)
    ensures
        count_in_month(a + b, month) == count_in_month(a, month) + count_in_month(b, month),
    decreases a.len(),
{
    if a.len() == 0 {
        assert(a + b =~= b);
    } else {
        assert((a + b)[0] == a[0]);
        assert((a + b).drop_first() =~= a.drop_first() + b);
        lemma_count_concat(a.drop_first(), b, month);
    }
}

/// True when some record of the dataset carries the date `d`.
pub open spec fn date_in(ds: Seq<DayRecordView>, d: Seq<char>) -> bool {
    exists|k: int| 0 <= k < ds.len() && (#[trigger] ds[k].date) == d
}

/// Dropping a month keeps dates distinct, keeps only records outside
/// the month, and introduces no date the dataset did not have.
pub proof fn lemma_without_month_distinct(ds: Seq<DayRecordView>, month: int)
    ensures
        distinct_dates(ds) ==> distinct_dates(without_month(ds, month)),
        forall|i: int|
            0 <= i < without_month(ds, month).len() ==> !record_in_month(
                #[trigger] without_month(ds, month)[i],
                month,
            ),
        forall|i: int|
            0 <= i < without_month(ds, month).len() ==> date_in(
                ds,
                (#[trigger] without_month(ds, month)[i]).date,
            ),
    decreases ds.len(),
{
    if ds.len() == 0 {
    } else {
        let rest = ds.drop_first();
        assert(forall|k: int| 0 <= k < rest.len() ==> rest[k] == ds[k + 1]);
        if distinct_dates(ds) {
            assert forall|i: int, j: int| 0 <= i < j < rest.len() implies (#[trigger] rest[i].date)
                != (#[trigger] rest[j].date) by {
                assert(ds[i + 1].date != ds[j + 1].date);
            }
        }
        lemma_without_month_distinct(rest, month);
        let wr = without_month(rest, month);
        assert forall|i: int| 0 <= i < wr.len() implies date_in(ds, wr[i].date) by {
            let k = choose|k: int| 0 <= k < rest.len() && rest[k].date == wr[i].date;
            assert(ds[k + 1].date == wr[i].date);
        }
        let w = without_month(ds, month);
        if record_in_month(ds[0], month) {
            assert(w =~= wr);
        } else {
            assert(w =~= seq![ds[0]] + wr);
            assert(forall|i: int| 1 <= i < w.len() ==> w[i] == wr[i - 1]);
            assert(w[0] == ds[0]);
            assert forall|i: int| 0 <= i < w.len() implies date_in(ds, w[i].date) by {
                if i == 0 {
                    assert(ds[0].date == w[i].date);
                }
            }
            if distinct_dates(ds) {
                assert forall|i: int, j: int| 0 <= i < j < w.len() implies (#[trigger] w[i].date)
                    != (#[trigger] w[j].date) by {
                    if i == 0 {
                        assert(date_in(rest, wr[j - 1].date));
                        let k = choose|k: int|
                            0 <= k < rest.len() && rest[k].date == wr[j - 1].date;
                        assert(ds[0].date != ds[k + 1].date);
                    }
                }
            }
        }
    }
}

/// Dropping a month's records zeroes that month's count and leaves
/// every other month's count unchanged.
pub proof fn lemma_count_without(ds: Seq<DayRecordView>, month: int, m: int)
    ensures
        count_in_month(without_month(ds, month), month) == 0,
        m != month ==> count_in_month(without_month(ds, month), m) == count_in_month(ds, m),
    decreases ds.len(),
{
    if ds.len() == 0 {
    } else {
        lemma_count_without(ds.drop_first(), month, m);
        let rest = without_month(ds.drop_first(), month);
        assert(count_in_month(ds, month) == (if record_in_month(ds[0], month) {
            1int
        } else {
            0int
        }) + count_in_month(ds.drop_first(), month));
        assert(count_in_month(ds, m) == (if record_in_month(ds[0], m) {
            1int
        } else {
            0int
        }) + count_in_month(ds.drop_first(), m));
        if record_in_month(ds[0], month) {
            assert(without_month(ds, month) =~= rest);
            assert(m != month ==> !record_in_month(ds[0], m));
        } else {
            assert(without_month(ds, month) =~= seq![ds[0]] + rest);
            lemma_count_concat(seq![ds[0]], rest, month);
            lemma_count_concat(seq![ds[0]], rest, m);
            assert(seq![ds[0]].drop_first() =~= Seq::<DayRecordView>::empty());
            assert(count_in_month(Seq::<DayRecordView>::empty(), month) == 0);
            assert(count_in_month(Seq::<DayRecordView>::empty(), m) == 0);
            assert(count_in_month(seq![ds[0]], month) == 0);
            assert(count_in_month(seq![ds[0]], m) == (if record_in_month(ds[0], m) {
                1int
            } else {
                0int
            }));
        }
    }
}

/// Removing one record lowers the count by exactly that record's
/// contribution.
proof fn lemma_count_remove(ds: Seq<DayRecordView>, j: int, m: int)
    requires
        0 <= j < ds.len(),
    ensures
        count_in_month(ds.remove(j), m) == count_in_month(ds, m) - (if record_in_month(ds[j], m) {
            1int
        } else {
            0int
        }),
    decreases j,
{
    if j == 0 {
        assert(ds.remove(0) =~= ds.drop_first());
    } else {
        assert(ds.remove(j)[0] == ds[0]);
        assert(ds.remove(j).drop_first() =~= ds.drop_first().remove(j - 1));
        lemma_count_remove(ds.drop_first(), j - 1, m);
    }
}

/// Month counts depend only on which records a dataset holds, not on
/// their order.
pub proof fn lemma_count_multiset(a: Seq<DayRecordView>, b: Seq<DayRecordView>, m: int)
    requires
        a.to_multiset() == b.to_multiset(),
    ensures
        count_in_month(a, m) == count_in_month(b, m),
    decreases a.len(),
{
    broadcast use vstd::seq_lib::group_to_multiset_ensures;

    if a.len() == 0 {
        assert(b.to_multiset().len() == 0);
        assert(b.len() == 0);
    } else {
        let x = a[0];
        assert(a.contains(x));
        assert(b.to_multiset().count(x) > 0);
        assert(b.contains(x));
        let j = choose|j: int| 0 <= j < b.len() && b[j] == x;
        assert(a.remove(0).to_multiset() =~= a.to_multiset().remove(x));
        assert(b.remove(j).to_multiset() =~= b.to_multiset().remove(b[j]));
        assert(a.remove(0) =~= a.drop_first());
        lemma_count_multiset(a.drop_first(), b.remove(j), m);
        lemma_count_remove(b, j, m);
        assert(count_in_month(a, m) == (if record_in_month(x, m) {
            1int
        } else {
            0int
        }) + count_in_month(a.drop_first(), m));
    }
}

/// Merging one month replaces exactly that month's records: any
/// dataset holding the kept records and the fresh month has the fresh
/// month's count for the merged month, and for every other month the
/// old count plus whatever the fresh data contributes to it.
pub proof fn lemma_merge_replaces_month(
    yearly: Seq<DayRecordView>,
    month_data: Seq<DayRecordView>,
    merged: Seq<DayRecordView>,
    month: int,
)
    requires
        merged.to_multiset() == without_month(yearly, month).add(month_data).to_multiset(),
    ensures
        count_in_month(merged, month) == count_in_month(month_data, month),
        forall|m: int|
            m != month ==> #[trigger] count_in_month(merged, m) == count_in_month(yearly, m)
                + count_in_month(month_data, m),
{
    let kept = without_month(yearly, month);
    lemma_count_multiset(merged, kept.add(month_data), month);
    lemma_count_concat(kept, month_data, month);
    lemma_count_without(yearly, month, month);
    assert forall|m: int| m != month implies #[trigger] count_in_month(merged, m) == count_in_month(
        yearly,
        m,
    ) + count_in_month(month_data, m) by {
        lemma_count_multiset(merged, kept.add(month_data), m);
        lemma_count_concat(kept, month_data, m);
        lemma_count_without(yearly, month, m);
    }
}

/// Inserting an element anywhere adds exactly it to the contents.
proof fn lemma_insert_multiset(s: Seq<DayRecordView>, i: int, x: DayRecordView)
    requires
        0 <= i <= s.len(),
    ensures
        s.insert(i, x).to_multiset() == s.to_multiset().insert(x),
    decreases s.len(),
{
    broadcast use vstd::seq_lib::group_to_multiset_ensures;

    let t = s.insert(i, x);
    assert(t.remove(i) =~= s);
    assert(t[i] == x);
    assert(t.remove(i).to_multiset() =~= t.to_multiset().remove(x));
    assert(t.to_multiset().count(x) > 0) by {
        assert(t.contains(x));
    }
    assert(t.to_multiset() =~= t.to_multiset().remove(x).insert(x));
}

/// Inserts a record into a date-sorted dataset, keeping it sorted.
fn insert_sorted(out: &mut Vec<OrthoCalendarData>, x: OrthoCalendarData)
    requires
        sorted_by_date(old(out).deep_view()),
    ensures
        sorted_by_date(final(out).deep_view()),
        final(out).deep_view().to_multiset() == old(out).deep_view().to_multiset().insert(x@),
{
    let ghost dv0 = out.deep_view();
    let n = out.len();
    let mut k: usize = 0;
    while k < n && str_le(out[k].date.as_str(), x.date.as_str())
        invariant
            n == out@.len(),
            dv0 == out.deep_view(),
            k <= n,
            forall|i: int| 0 <= i < k ==> lex_le(#[trigger] dv0[i].date, x@.date),
        decreases n - k,
    {
        proof {
            assert(dv0[k as int] == out@[k as int]@);
        }
        k = k + 1;
    }
    proof {
        if k < n {
            assert(dv0[k as int] == out@[k as int]@);
            assert(!lex_le(dv0[k as int].date, x@.date));
            lemma_lex_total(dv0[k as int].date, x@.date);
        }
    }
    let ghost xv = x@;
    out.insert(k, x);
    proof {
        assert(out.deep_view() =~~= dv0.insert(k as int, xv));
        lemma_insert_multiset(dv0, k as int, xv);
        let dv1 = out.deep_view();
        assert forall|i: int, j: int| 0 <= i < j < dv1.len() implies lex_le(
            #[trigger] dv1[i].date,
            #[trigger] dv1[j].date,
        ) by {
            if j < k {
                assert(dv1[i] == dv0[i] && dv1[j] == dv0[j]);
            } else if i > k {
                assert(dv1[i] == dv0[i - 1] && dv1[j] == dv0[j - 1]);
            } else if i < k && j == k {
                assert(dv1[i] == dv0[i] && dv1[j] == xv);
            } else if i < k && j > k {
                assert(dv1[i] == dv0[i] && dv1[j] == dv0[j - 1]);
            } else if i == k && j > k {
                assert(dv1[i] == xv && dv1[j] == dv0[j - 1]);
                assert(!lex_le(dv0[j - 1].date, xv.date) ==> lex_le(xv.date, dv0[j - 1].date)) by {
                    lemma_lex_total(dv0[j - 1].date, xv.date);
                }
                if lex_le(dv0[j - 1].date, xv.date) {
                    assert(j - 1 >= k);
                    if j - 1 == k {
                        lemma_lex_trans(xv.date, dv0[k as int].date, xv.date);
                        assert(lex_le(xv.date, dv0[j - 1].date));
                    } else {
                        assert(lex_le(dv0[k as int].date, dv0[j - 1].date));
                        lemma_lex_trans(xv.date, dv0[k as int].date, dv0[j - 1].date);
                    }
                }
            }
        }
    }
}

/// Sorts a dataset ascending by its date texts. The result holds
/// exactly the same records.
pub fn sort_by_date(data: Vec<OrthoCalendarData>) -> (r: Vec<OrthoCalendarData>)
    ensures
        sorted_by_date(r.deep_view()),
        r.deep_view().to_multiset() == data.deep_view().to_multiset(),
        distinct_dates(data.deep_view()) ==> strictly_ascending(r.deep_view()) && distinct_dates(
            r.deep_view(),
        ),
{
    let ghost dv = data.deep_view();
    let mut rest = data;
    let mut out: Vec<OrthoCalendarData> = Vec::new();
    proof {
        broadcast use vstd::seq_lib::group_to_multiset_ensures;

        assert(out.deep_view().to_multiset().add(dv.to_multiset()) =~= dv.to_multiset());
    }
    while rest.len() > 0
        invariant
            sorted_by_date(out.deep_view()),
            out.deep_view().to_multiset().add(rest.deep_view().to_multiset()) == dv.to_multiset(),
        decreases rest@.len(),
    {
        let ghost rem0 = rest.deep_view();
        let x = match rest.pop() {
            Some(x) => x,
            None => {
                proof {
                    assert(false);
                }
                return out;
            },
        };
        proof {
            broadcast use vstd::seq_lib::group_to_multiset_ensures;

            assert(rem0 =~~= rest.deep_view().push(x@));
            assert(rem0.to_multiset() =~= rest.deep_view().to_multiset().insert(x@));
        }
        let ghost out0 = out.deep_view();
        insert_sorted(&mut out, x);
        proof {
            assert(out.deep_view().to_multiset().add(rest.deep_view().to_multiset()) =~=
                out0.to_multiset().add(rem0.to_multiset()));
        }
    }
    proof {
        broadcast use vstd::seq_lib::group_to_multiset_ensures;

        let b = rest.deep_view().to_multiset();
        assert forall|x: DayRecordView| b.count(x) == 0 by {
            assert(!rest.deep_view().contains(x));
        }
        assert(out.deep_view().to_multiset().add(b) =~= out.deep_view().to_multiset());
        assert(out.deep_view().to_multiset() == dv.to_multiset());
        if distinct_dates(dv) {
            lemma_sorted_distinct(dv, out.deep_view());
        }
    }
    out
}

/// Keeps every record outside `month`.
fn retain_outside_month(data: Vec<OrthoCalendarData>, month: u32) -> (r: Vec<OrthoCalendarData>)
    requires
        1 <= month,
    ensures
        r.deep_view() == without_month(data.deep_view(), month as int),
{
    let ghost dv = data.deep_view();
    let mut out: Vec<OrthoCalendarData> = Vec::new();
    let mut rest = data;
    let mut i: usize = 0;
    let n = rest.len();
    proof {
        assert(dv.skip(0) =~= dv);
        assert(out.deep_view() + without_month(dv, month as int) =~= without_month(
            dv,
            month as int,
        ));
    }
    let mut taken: usize = 0;
    proof {
        assert forall|k: int| 0 <= k < rest@.len() implies rest@[k]@ == dv[k] by {}
    }
    while taken < n
        invariant
            n == dv.len(),
            1 <= month,
            rest@.len() == n - taken,
            taken <= n,
            forall|k: int| 0 <= k < rest@.len() ==> rest@[k]@ == dv[taken + k],
            without_month(dv, month as int) == out.deep_view() + without_month(
                dv.skip(taken as int),
                month as int,
            ),
        decreases n - taken,
    {
        let ghost t = dv.skip(taken as int);
        proof {
            assert(t[0] == dv[taken as int]);
            assert(t.drop_first() =~= dv.skip(taken + 1));
            assert(rest@[0]@ == dv[taken as int]);
        }
        let x = rest.remove(0);
        let ghost out0 = out.deep_view();
        if record_month(&x) == month {
            proof {
                assert(record_in_month(t[0], month as int));
                assert(without_month(t, month as int) =~= without_month(
                    t.drop_first(),
                    month as int,
                ));
            }
        } else {
            proof {
                assert(!record_in_month(t[0], month as int));
            }
            out.push(x);
            proof {
                assert(out.deep_view() =~~= out0.push(t[0]));
                assert(without_month(t, month as int) =~= seq![t[0]] + without_month(
                    t.drop_first(),
                    month as int,
                ));
                assert(out.deep_view() + without_month(dv.skip(taken + 1), month as int) =~= out0
                    + without_month(t, month as int));
            }
        }
        proof {
            assert forall|k: int| 0 <= k < rest@.len() implies rest@[k]@ == dv[taken + 1 + k] by {}
        }
        taken = taken + 1;
    }
    proof {
        assert(dv.skip(n as int) =~= Seq::<DayRecordView>::empty());
        assert(out.deep_view() =~= without_month(dv, month as int));
    }
    out
}

/// Replaces one month of the dataset: drops every record that falls in
/// `month`, adds the freshly fetched month, and returns the whole year
/// sorted ascending by date. The result holds exactly the kept records
/// and the new ones.
pub fn merge_month_data(
    yearly: Vec<OrthoCalendarData>,
    month_data: Vec<OrthoCalendarData>,
    month: u32,
) -> (r: Vec<OrthoCalendarData>)
    requires
        1 <= month <= 12,
    ensures
        sorted_by_date(r.deep_view()),
        r.deep_view().to_multiset() == without_month(yearly.deep_view(), month as int).add(
            month_data.deep_view(),
        ).to_multiset(),
        count_in_month(r.deep_view(), month as int) == count_in_month(
            month_data.deep_view(),
            month as int,
        ),
        forall|m: int|
            m != month ==> #[trigger] count_in_month(r.deep_view(), m) == count_in_month(
                yearly.deep_view(),
                m,
            ) + count_in_month(month_data.deep_view(), m),
        r.deep_view().len() == without_month(yearly.deep_view(), month as int).len()
            + month_data.deep_view().len(),
        (distinct_dates(yearly.deep_view()) && distinct_dates(month_data.deep_view()) && (forall|
            k: int,
        |
            0 <= k < month_data.deep_view().len() ==> record_in_month(
                #[trigger] month_data.deep_view()[k],
                month as int,
            ))) ==> strictly_ascending(r.deep_view()) && distinct_dates(r.deep_view()),
{
    let ghost ydv = yearly.deep_view();
    let ghost mdv = month_data.deep_view();
    let mut kept = retain_outside_month(yearly, month);
    let ghost kdv = kept.deep_view();
    let mut fresh = month_data;
    kept.append(&mut fresh);
    proof {
        assert(kept.deep_view() =~~= kdv.add(mdv));
    }
    let r = sort_by_date(kept);
    proof {
        lemma_merge_replaces_month(ydv, mdv, r.deep_view(), month as int);
        broadcast use vstd::seq_lib::group_to_multiset_ensures;
        broadcast use vstd::multiset::group_multiset_axioms;

        let comb = kdv.add(mdv);
        assert(r.deep_view().to_multiset().len() == comb.to_multiset().len());
        assert(comb.to_multiset().len() == comb.len());
        assert(comb.len() == kdv.len() + mdv.len());
        if distinct_dates(ydv) && distinct_dates(mdv) && (forall|k: int|
            0 <= k < mdv.len() ==> record_in_month(#[trigger] mdv[k], month as int)) {
            lemma_without_month_distinct(ydv, month as int);
            assert forall|i: int, j: int| 0 <= i < j < comb.len() implies (#[trigger] comb[i].date)
                != (#[trigger] comb[j].date) by {
                if j < kdv.len() {
                    assert(comb[i] == kdv[i] && comb[j] == kdv[j]);
                    assert(kdv[i].date != kdv[j].date);
                } else if i >= kdv.len() {
                    assert(comb[i] == mdv[i - kdv.len()] && comb[j] == mdv[j - kdv.len()]);
                    assert(mdv[i - kdv.len()].date != mdv[j - kdv.len()].date);
                } else {
                    let a = comb[i];
                    let b = comb[j];
                    assert(a == kdv[i] && b == mdv[j - kdv.len()]);
                    assert(!record_in_month(a, month as int));
                    assert(record_in_month(b, month as int));
                    if a.date == b.date {
                        assert(record_in_month(a, month as int) == record_in_month(
                            b,
                            month as int,
                        ));
                    }
                }
            }
            lemma_sorted_distinct(comb, r.deep_view());
        }
    }
    r
}

} // verus!
