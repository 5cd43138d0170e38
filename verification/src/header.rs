//! Splitting the free-text header line into a summary (the feast title)
//! and the liturgical details (fasting rule, tone, notes). An ordered
//! list of literal anchors is probed; the first one found wins.

use crate::text::{
    chars_to_string, contains_pat, find_spec, find_sub, lemma_find_spec, matches_at, str_chars,
    starts_with_spec, vec_range,
};
use vstd::prelude::*;

verus! {

/// The anchor ` Tone`.
pub open spec fn tone_pat() -> Seq<char> {
    seq![' ', 'T', 'o', 'n', 'e']
}

/// The anchor `By Monastic Charter:`.
pub open spec fn charter_pat() -> Seq<char> {
    seq![
        'B', 'y', ' ', 'M', 'o', 'n', 'a', 's', 't', 'i', 'c', ' ', 'C', 'h', 'a', 'r', 't', 'e',
        'r', ':',
    ]
}

/// The anchor ` Fast`.
pub open spec fn fast_pat() -> Seq<char> {
    seq![' ', 'F', 'a', 's', 't']
}

/// The anchor ` Fish`.
pub open spec fn fish_pat() -> Seq<char> {
    seq![' ', 'F', 'i', 's', 'h']
}

/// The anchor ` Food With`.
pub open spec fn food_pat() -> Seq<char> {
    seq![' ', 'F', 'o', 'o', 'd', ' ', 'W', 'i', 't', 'h']
}

/// Which probe decides the split of a given header.
#[derive(Clone, Copy, Debug, PartialEq, Eq, Structural)]
pub enum SplitRule {
    Tone,
    Charter,
    Fast,
    Fish,
    FoodWith,
    NoMatch,
}

/// The ` Fast` probe applies when the anchor occurs and the character
/// right after its first occurrence is not `)`; the guard keeps a
/// parenthetical mention of fasting from starting the details.
pub open spec fn fast_applies(h: Seq<char>) -> bool {
    let i = find_spec(h, fast_pat());
    i >= 0 && !(i + 5 < h.len() && h[i + 5] == ')')
}

/// The first probe that matches, in priority order.
pub open spec fn split_rule_spec(h: Seq<char>) -> SplitRule {
    if find_spec(h, tone_pat()) >= 0 {
        SplitRule::Tone
    } else if find_spec(h, charter_pat()) >= 0 {
        SplitRule::Charter
    } else if fast_applies(h) {
        SplitRule::Fast
    } else if find_spec(h, fish_pat()) >= 0 {
        SplitRule::Fish
    } else if find_spec(h, food_pat()) >= 0 {
        SplitRule::FoodWith
    } else {
        SplitRule::NoMatch
    }
}

/// Summary and details of a header under the first matching probe.
/// For ` Tone`, ` Fish` and ` Food With` the separating space is
/// dropped and the details start at the word; for `By Monastic
/// Charter:` and ` Fast` the details start at the anchor itself.
pub open spec fn split_header_spec(h: Seq<char>) -> (Seq<char>, Seq<char>) {
    match split_rule_spec(h) {
        SplitRule::Tone => {
            let i = find_spec(h, tone_pat());
            (h.take(i), h.skip(i + 1))
        },
        SplitRule::Charter => {
            let i = find_spec(h, charter_pat());
            (h.take(i), h.skip(i))
        },
        SplitRule::Fast => {
            let i = find_spec(h, fast_pat());
            (h.take(i), h.skip(i))
        },
        SplitRule::Fish => {
            let i = find_spec(h, fish_pat());
            (h.take(i), h.skip(i + 1))
        },
        SplitRule::FoodWith => {
            let i = find_spec(h, food_pat());
            (h.take(i), h.skip(i + 1))
        },
        SplitRule::NoMatch => (h, Seq::empty()),
    }
}

fn tone_chars() -> (r: Vec<char>)
    ensures
        r@ == tone_pat(),
{
    let r = str_chars(" Tone");
    proof {
        reveal_strlit(" Tone");
        assert(r@ =~= tone_pat());
    }
    r
}

fn charter_chars() -> (r: Vec<char>)
    ensures
        r@ == charter_pat(),
{
    let r = str_chars("By Monastic Charter:");
    proof {
        reveal_strlit("By Monastic Charter:");
        assert(r@ =~= charter_pat());
    }
    r
}

fn fast_chars() -> (r: Vec<char>)
    ensures
        r@ == fast_pat(),
{
    let r = str_chars(" Fast");
    proof {
        reveal_strlit(" Fast");
        assert(r@ =~= fast_pat());
    }
    r
}

fn fish_chars() -> (r: Vec<char>)
    ensures
        r@ == fish_pat(),
{
    let r = str_chars(" Fish");
    proof {
        reveal_strlit(" Fish");
        assert(r@ =~= fish_pat());
    }
    r
}

fn food_chars() -> (r: Vec<char>)
    ensures
        r@ == food_pat(),
{
    let r = str_chars(" Food With");
    proof {
        reveal_strlit(" Food With");
        assert(r@ =~= food_pat());
    }
    r
}

/// Splits a header into summary and liturgical details by the ordered
/// probes; with no anchor present the whole header is the summary.
pub fn split_header(header: &str) -> (r: (String, String))
    ensures
        (r.0@, r.1@) == split_header_spec(header@),
{
    let v = str_chars(header);
    let (a, b) = split_header_chars(&v);
    (chars_to_string(&a), chars_to_string(&b))
}

/// `split_header` on text held as characters.
pub fn split_header_chars(v: &Vec<char>) -> (r: (Vec<char>, Vec<char>))
    ensures
        (r.0@, r.1@) == split_header_spec(v@),
{
    let n = v.len();
    if let Some(i) = find_sub(v, &tone_chars()) {
        proof {
            lemma_find_spec(v@, tone_pat());
        }
        return (vec_range(v, 0, i), vec_range(v, i + 1, n));
    }
    if let Some(i) = find_sub(v, &charter_chars()) {
        proof {
            lemma_find_spec(v@, charter_pat());
        }
        return (vec_range(v, 0, i), vec_range(v, i, n));
    }
    if let Some(i) = find_sub(v, &fast_chars()) {
        proof {
            lemma_find_spec(v@, fast_pat());
        }
        if !(i + 5 < n && v[i + 5] == ')') {
            return (vec_range(v, 0, i), vec_range(v, i, n));
        }
    }
    if let Some(i) = find_sub(v, &fish_chars()) {
        proof {
            lemma_find_spec(v@, fish_pat());
        }
        return (vec_range(v, 0, i), vec_range(v, i + 1, n));
    }
    if let Some(i) = find_sub(v, &food_chars()) {
        proof {
            lemma_find_spec(v@, food_pat());
        }
        return (vec_range(v, 0, i), vec_range(v, i + 1, n));
    }
    let all = vec_range(v, 0, n);
    proof {
        assert(v@.subrange(0, n as int) =~= v@);
    }
    (all, Vec::new())
}

/// The header split is total and deterministic: every header falls
/// under exactly one probe (or the fallback), picked first-match-wins,
/// and summary and details reassemble the header at the matched anchor.
/// Where the space before the anchor word is dropped (` Tone`, ` Fish`,
/// ` Food With`) the header is summary, one space, details; otherwise
/// it is summary then details, and the details begin with the anchor.
pub proof fn lemma_split_header_total(h: Seq<char>)
    ensures
        split_rule_spec(h) == SplitRule::Tone <==> contains_pat(h, tone_pat()),
        split_rule_spec(h) == SplitRule::Charter <==> !contains_pat(h, tone_pat())
            && contains_pat(h, charter_pat()),
        split_rule_spec(h) == SplitRule::Fast <==> !contains_pat(h, tone_pat()) && !contains_pat(
            h,
            charter_pat(),
        ) && fast_applies(h),
        split_rule_spec(h) == SplitRule::Fish <==> !contains_pat(h, tone_pat()) && !contains_pat(
            h,
            charter_pat(),
        ) && !fast_applies(h) && contains_pat(h, fish_pat()),
        split_rule_spec(h) == SplitRule::FoodWith <==> !contains_pat(h, tone_pat())
            && !contains_pat(h, charter_pat()) && !fast_applies(h) && !contains_pat(h, fish_pat())
            && contains_pat(h, food_pat()),
        split_rule_spec(h) == SplitRule::NoMatch <==> !contains_pat(h, tone_pat())
            && !contains_pat(h, charter_pat()) && !fast_applies(h) && !contains_pat(h, fish_pat())
            && !contains_pat(h, food_pat()),
        ({
            let (sum, det) = split_header_spec(h);
            match split_rule_spec(h) {
                SplitRule::Tone => h == sum + seq![' '] + det && starts_with_spec(
                    det,
                    tone_pat().drop_first(),
                ),
                SplitRule::Charter => h == sum + det && starts_with_spec(det, charter_pat()),
                SplitRule::Fast => h == sum + det && starts_with_spec(det, fast_pat()),
                SplitRule::Fish => h == sum + seq![' '] + det && starts_with_spec(
                    det,
                    fish_pat().drop_first(),
                ),
                SplitRule::FoodWith => h == sum + seq![' '] + det && starts_with_spec(
                    det,
                    food_pat().drop_first(),
                ),
                SplitRule::NoMatch => sum == h && det.len() == 0,
            }
        }),
{
    lemma_find_spec(h, tone_pat());
    lemma_find_spec(h, charter_pat());
    lemma_find_spec(h, fast_pat());
    lemma_find_spec(h, fish_pat());
    lemma_find_spec(h, food_pat());
    let (sum, det) = split_header_spec(h);
    match split_rule_spec(h) {
        SplitRule::Tone => {
            let i = find_spec(h, tone_pat());
            lemma_anchor_reassembly(h, i, tone_pat());
        },
        SplitRule::Charter => {
            let i = find_spec(h, charter_pat());
            lemma_anchor_tail(h, i, charter_pat());
        },
        SplitRule::Fast => {
            let i = find_spec(h, fast_pat());
            lemma_anchor_tail(h, i, fast_pat());
        },
        SplitRule::Fish => {
            let i = find_spec(h, fish_pat());
            lemma_anchor_reassembly(h, i, fish_pat());
        },
        SplitRule::FoodWith => {
            let i = find_spec(h, food_pat());
            lemma_anchor_reassembly(h, i, food_pat());
        },
        SplitRule::NoMatch => {},
    }
}

/// For an anchor that starts with a space matched at `i`, the header is
/// the part before `i`, one space, then the tail from `i + 1`, and that
/// tail starts with the anchor word.
proof fn lemma_anchor_reassembly(h: Seq<char>, i: int, pat: Seq<char>)
    requires
        pat.len() >= 1,
        pat[0] == ' ',
        matches_at(h, i, pat),
    ensures
        h == h.take(i) + seq![' '] + h.skip(i + 1),
        starts_with_spec(h.skip(i + 1), pat.drop_first()),
{
    assert(h[i] == pat[0]);
    assert(h =~= h.take(i) + seq![' '] + h.skip(i + 1));
    assert forall|k: int| 0 <= k < pat.drop_first().len() implies h.skip(i + 1)[k]
        == pat.drop_first()[k] by {
        assert(h[i + 1 + k] == pat[1 + k]);
    }
}

/// For an anchor matched at `i`, the header is the part before `i`
/// followed by the tail from `i`, and that tail starts with the anchor.
proof fn lemma_anchor_tail(h: Seq<char>, i: int, pat: Seq<char>)
    requires
        matches_at(h, i, pat),
    ensures
        h == h.take(i) + h.skip(i),
        starts_with_spec(h.skip(i), pat),
{
    assert(h =~= h.take(i) + h.skip(i));
    assert forall|k: int| 0 <= k < pat.len() implies h.skip(i)[k] == pat[k] by {
        assert(h[i + k] == pat[k]);
    }
}

} // verus!
