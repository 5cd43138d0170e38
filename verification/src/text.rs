//! Character-level utilities shared by the text pipeline: conversions
//! between `&str`/`String` and `Vec<char>`, and substring search.

use vstd::prelude::*;

verus! {

/// The characters this library treats as whitespace when normalizing text.
pub open spec fn is_ws(c: char) -> bool {
    c == ' ' || c == '\t' || c == '\n' || c == '\r'
}

/// Executable twin of `is_ws`.
pub fn is_ws_char(c: char) -> (r: bool)
    ensures
        r == is_ws(c),
{
    c == ' ' || c == '\t' || c == '\n' || c == '\r'
}

/// The characters of `s` as a vector, in order.
pub fn str_chars(s: &str) -> (r: Vec<char>)
    ensures
        r@ == s@,
{
    let n = s.unicode_len();
    let mut r: Vec<char> = Vec::new();
    let mut i: usize = 0;
    while i < n
        invariant
            n == s@.len(),
            i <= n,
            r@ == s@.take(i as int),
        decreases n - i,
    {
        r.push(s.get_char(i));
        proof {
            assert(r@ =~= s@.take(i + 1));
        }
        i = i + 1;
    }
    proof {
        assert(s@.take(n as int) =~= s@);
    }
    r
}

/// True when the two strings hold the same characters.
pub fn str_eq(a: &str, b: &str) -> (r: bool)
    ensures
        r == (a@ == b@),
{
    let n = a.unicode_len();
    if n != b.unicode_len() {
        proof {
            assert(a@ != b@);
        }
        return false;
    }
    let mut i: usize = 0;
    while i < n
        invariant
            n == a@.len() == b@.len(),
            i <= n,
            forall|k: int| 0 <= k < i ==> a@[k] == b@[k],
        decreases n - i,
    {
        if a.get_char(i) != b.get_char(i) {
            proof {
                assert(a@[i as int] != b@[i as int]);
            }
            return false;
        }
        i = i + 1;
    }
    proof {
        assert(a@ =~= b@);
    }
    true
}

/// Relies on `Iterator::collect` for `String`: collecting a sequence of
/// `char`s yields the string made of exactly those characters in order.
#[verifier::external_body]
pub(crate) fn chars_to_string(v: &Vec<char>) -> (r: String)
    ensures
        r@ == v@,
{
    v.iter().collect()
}

/// True when `pat` occurs in `s` starting at index `i`.
pub open spec fn matches_at(s: Seq<char>, i: int, pat: Seq<char>) -> bool {
    &&& 0 <= i
    &&& i + pat.len() <= s.len()
    &&& forall|k: int| 0 <= k < pat.len() ==> s[i + k] == pat[k]
}

/// True when `pre` is a prefix of `s`.
pub open spec fn starts_with_spec(s: Seq<char>, pre: Seq<char>) -> bool {
    matches_at(s, 0, pre)
}

/// Index of the first occurrence of `pat` in `s`, or -1 when there is none.
/// The empty pattern matches at index 0.
pub open spec fn find_spec(s: Seq<char>, pat: Seq<char>) -> int
    decreases s.len(),
{
    if pat.len() > s.len() {
        -1
    } else if matches_at(s, 0, pat) {
        0
    } else if s.len() == 0 {
        -1
    } else if find_spec(s.drop_first(), pat) == -1 {
        -1
    } else {
        1 + find_spec(s.drop_first(), pat)
    }
}

/// What `find_spec` returns: the first match, or -1 when no index matches.
pub proof fn lemma_find_spec(s: Seq<char>, pat: Seq<char>)
    ensures
        find_spec(s, pat) >= -1,
        find_spec(s, pat) == -1 ==> forall|i: int| !matches_at(s, i, pat),
        find_spec(s, pat) >= 0 ==> matches_at(s, find_spec(s, pat), pat),
        find_spec(s, pat) >= 0 ==> forall|i: int|
            0 <= i < find_spec(s, pat) ==> !matches_at(s, i, pat),
    decreases s.len(),
{
    if pat.len() > s.len() {
        assert forall|i: int| !matches_at(s, i, pat) by {}
    } else if matches_at(s, 0, pat) {
    } else if s.len() == 0 {
        assert(matches_at(s, 0, pat));
    } else {
        let t = s.drop_first();
        lemma_find_spec(t, pat);
        assert forall|i: int| 1 <= i implies matches_at(s, i, pat) == matches_at(t, i - 1, pat) by {
            assert(forall|k: int| 0 <= k < t.len() ==> t[k] == s[k + 1]);
            if matches_at(s, i, pat) {
                assert forall|k: int| 0 <= k < pat.len() implies t[i - 1 + k] == pat[k] by {
                    assert(s[i + k] == pat[k]);
                }
            }
            if matches_at(t, i - 1, pat) {
                assert forall|k: int| 0 <= k < pat.len() implies s[i + k] == pat[k] by {
                    assert(t[i - 1 + k] == pat[k]);
                }
            }
        }
    }
}

/// The characters of `v` from `from` (inclusive) to `to` (exclusive).
pub fn vec_range(v: &Vec<char>, from: usize, to: usize) -> (r: Vec<char>)
    requires
        from <= to <= v@.len(),
    ensures
        r@ == v@.subrange(from as int, to as int),
{
    let mut r: Vec<char> = Vec::new();
    let mut i = from;
    while i < to
        invariant
            from <= i <= to <= v@.len(),
            r@ == v@.subrange(from as int, i as int),
        decreases to - i,
    {
        r.push(v[i]);
        proof {
            assert(r@ =~= v@.subrange(from as int, i + 1));
        }
        i = i + 1;
    }
    r
}

/// `s` with every newline replaced by a space.
pub open spec fn nl_to_space(s: Seq<char>) -> Seq<char> {
    s.map_values(|c: char| if c == '\n' { ' ' } else { c })
}

/// `s` without its leading whitespace.
pub open spec fn trim_start_spec(s: Seq<char>) -> Seq<char>
    decreases s.len(),
{
    if s.len() > 0 && is_ws(s[0]) {
        trim_start_spec(s.drop_first())
    } else {
        s
    }
}

/// `s` without its trailing whitespace.
pub open spec fn trim_end_spec(s: Seq<char>) -> Seq<char>
    decreases s.len(),
{
    if s.len() > 0 && is_ws(s.last()) {
        trim_end_spec(s.drop_last())
    } else {
        s
    }
}

/// `s` without leading or trailing whitespace.
pub open spec fn trim_spec(s: Seq<char>) -> Seq<char> {
    trim_end_spec(trim_start_spec(s))
}

/// Newlines turned to spaces, then both ends trimmed: how every field
/// is cleaned before it enters a day record.
pub open spec fn clean_spec(s: Seq<char>) -> Seq<char> {
    trim_spec(nl_to_space(s))
}

/// `trim_spec` on text held as characters.
pub fn trim_chars(v: &Vec<char>) -> (r: Vec<char>)
    ensures
        r@ == trim_spec(v@),
{
    let n = v.len();
    let mut lo: usize = 0;
    proof {
        assert(v@.skip(0) =~= v@);
    }
    while lo < n && is_ws_char(v[lo])
        invariant
            n == v@.len(),
            lo <= n,
            trim_start_spec(v@) == trim_start_spec(v@.skip(lo as int)),
        decreases n - lo,
    {
        proof {
            assert(v@.skip(lo as int).drop_first() =~= v@.skip(lo + 1));
        }
        lo = lo + 1;
    }
    let ghost u = v@.skip(lo as int);
    proof {
        assert(trim_start_spec(v@) == u);
    }
    let mut hi: usize = n;
    proof {
        assert(u.take(n - lo) =~= u);
    }
    while hi > lo && is_ws_char(v[hi - 1])
        invariant
            n == v@.len(),
            lo <= hi <= n,
            u == v@.skip(lo as int),
            trim_end_spec(u) == trim_end_spec(u.take(hi - lo)),
        decreases hi,
    {
        proof {
            assert(u.take(hi - lo).last() == v@[hi - 1]);
            assert(u.take(hi - lo).drop_last() =~= u.take(hi - lo - 1));
        }
        hi = hi - 1;
    }
    proof {
        if hi > lo {
            assert(u.take(hi - lo).last() == v@[hi - 1]);
        }
        assert(trim_end_spec(u.take(hi - lo)) == u.take(hi - lo));
        assert(v@.subrange(lo as int, hi as int) =~= u.take(hi - lo));
    }
    vec_range(v, lo, hi)
}

/// `s` with every occurrence of `pat` replaced by `repl`, scanning
/// left to right without rescanning what was substituted.
pub open spec fn replace_all_spec(s: Seq<char>, pat: Seq<char>, repl: Seq<char>) -> Seq<char>
    decreases s.len(),
{
    if pat.len() == 0 || s.len() == 0 {
        s
    } else if starts_with_spec(s, pat) {
        repl + replace_all_spec(s.skip(pat.len() as int), pat, repl)
    } else {
        seq![s[0]] + replace_all_spec(s.drop_first(), pat, repl)
    }
}

/// `replace_all_spec` on text held as characters.
pub fn replace_all_chars(v: &Vec<char>, pat: &Vec<char>, repl: &Vec<char>) -> (r: Vec<char>)
    requires
        pat@.len() >= 1,
    ensures
        r@ == replace_all_spec(v@, pat@, repl@),
{
    let n = v.len();
    let mut out: Vec<char> = Vec::new();
    let mut i: usize = 0;
    proof {
        assert(v@.skip(0) =~= v@);
        assert(out@ + replace_all_spec(v@, pat@, repl@) =~= replace_all_spec(v@, pat@, repl@));
    }
    while i < n
        invariant
            n == v@.len(),
            pat@.len() >= 1,
            i <= n,
            out@ + replace_all_spec(v@.skip(i as int), pat@, repl@) == replace_all_spec(
                v@,
                pat@,
                repl@,
            ),
        decreases n - i,
    {
        let ghost t = v@.skip(i as int);
        proof {
            assert(t[0] == v@[i as int]);
            assert(t.drop_first() =~= v@.skip(i + 1));
            lemma_matches_at_skip(v@, i as int, pat@);
        }
        if matches_at_exec(v, i, pat) {
            let ghost out0 = out@;
            let mut rr = vec_range(repl, 0, repl.len());
            proof {
                assert(rr@ =~= repl@);
            }
            out.append(&mut rr);
            proof {
                assert(t.skip(pat@.len() as int) =~= v@.skip(i + pat@.len()));
                assert(replace_all_spec(t, pat@, repl@) == repl@ + replace_all_spec(
                    t.skip(pat@.len() as int),
                    pat@,
                    repl@,
                ));
                assert(out@ + replace_all_spec(v@.skip(i + pat@.len()), pat@, repl@) =~= out0
                    + replace_all_spec(t, pat@, repl@));
            }
            i = i + pat.len();
        } else {
            let ghost out0 = out@;
            out.push(v[i]);
            proof {
                assert(replace_all_spec(t, pat@, repl@) == seq![t[0]] + replace_all_spec(
                    t.drop_first(),
                    pat@,
                    repl@,
                ));
                assert(out@ + replace_all_spec(v@.skip(i + 1), pat@, repl@) =~= out0
                    + replace_all_spec(t, pat@, repl@));
            }
            i = i + 1;
        }
    }
    proof {
        assert(v@.skip(n as int) =~= Seq::<char>::empty());
        assert(out@ + replace_all_spec(v@.skip(n as int), pat@, repl@) =~= out@);
    }
    out
}

/// `clean_spec` on text held as characters.
pub fn clean_chars(v: &Vec<char>) -> (r: Vec<char>)
    ensures
        r@ == clean_spec(v@),
{
    let n = v.len();
    let mut w: Vec<char> = Vec::new();
    let mut i: usize = 0;
    while i < n
        invariant
            n == v@.len(),
            i <= n,
            w@ == nl_to_space(v@.take(i as int)),
        decreases n - i,
    {
        let c = v[i];
        w.push(if c == '\n' {
            ' '
        } else {
            c
        });
        proof {
            assert(w@ =~= nl_to_space(v@.take(i + 1)));
        }
        i = i + 1;
    }
    proof {
        assert(v@.take(n as int) =~= v@);
    }
    trim_chars(&w)
}

/// `clean_spec` applied to a string.
pub fn clean_text(s: &str) -> (r: String)
    ensures
        r@ == clean_spec(s@),
{
    let v = str_chars(s);
    let w = clean_chars(&v);
    chars_to_string(&w)
}

/// True when `s` has no occurrence of the character `c`.
pub open spec fn no_char(s: Seq<char>, c: char) -> bool {
    forall|k: int| 0 <= k < s.len() ==> s[k] != c
}

/// True when `pat` occurs somewhere in `s`.
pub open spec fn contains_pat(s: Seq<char>, pat: Seq<char>) -> bool {
    exists|i: int| matches_at(s, i, pat)
}

/// An occurrence strictly after a prepended character is an occurrence
/// in the tail, and conversely.
pub proof fn lemma_matches_cons(c: char, x: Seq<char>, i: int, p: Seq<char>)
    requires
        i >= 1,
    ensures
        matches_at(seq![c] + x, i, p) <==> matches_at(x, i - 1, p),
{
    let y = seq![c] + x;
    if matches_at(y, i, p) {
        assert forall|k: int| 0 <= k < p.len() implies x[i - 1 + k] == p[k] by {
            assert(y[i + k] == p[k]);
        }
    }
    if matches_at(x, i - 1, p) {
        assert forall|k: int| 0 <= k < p.len() implies y[i + k] == p[k] by {
            assert(x[i - 1 + k] == p[k]);
        }
    }
}

/// An occurrence at the head of a prepended character pins the first
/// pattern character and leaves the rest as a prefix of the tail.
pub proof fn lemma_matches_cons_zero(c: char, x: Seq<char>, p: Seq<char>)
    requires
        p.len() >= 1,
        matches_at(seq![c] + x, 0, p),
    ensures
        p[0] == c,
        starts_with_spec(x, p.drop_first()),
{
    let y = seq![c] + x;
    assert(p[0] == y[0]);
    assert forall|k: int| 0 <= k < p.drop_first().len() implies x[k] == p.drop_first()[k] by {
        assert(y[1 + k] == p[1 + k]);
    }
}

/// A match at `i` within `s` is a prefix match of the suffix `s.skip(i)`,
/// and conversely.
pub proof fn lemma_matches_at_skip(s: Seq<char>, i: int, p: Seq<char>)
    requires
        0 <= i <= s.len(),
    ensures
        matches_at(s, i, p) <==> starts_with_spec(s.skip(i), p),
{
    let t = s.skip(i);
    if matches_at(s, i, p) {
        assert forall|k: int| 0 <= k < p.len() implies t[k] == p[k] by {
            assert(s[i + k] == p[k]);
        }
    }
    if starts_with_spec(t, p) {
        assert forall|k: int| 0 <= k < p.len() implies s[i + k] == p[k] by {
            assert(t[k] == p[k]);
        }
    }
}

/// True when `pat` occurs in `v` at index `i`.
pub fn matches_at_exec(v: &Vec<char>, i: usize, pat: &Vec<char>) -> (r: bool)
    requires
        i <= v@.len(),
    ensures
        r == matches_at(v@, i as int, pat@),
{
    let n = v.len();
    if pat.len() > n - i {
        return false;
    }
    let mut j: usize = 0;
    while j < pat.len()
        invariant
            n == v@.len(),
            i + pat@.len() <= n,
            j <= pat@.len(),
            forall|k: int| 0 <= k < j ==> v@[i + k] == pat@[k],
        decreases pat@.len() - j,
    {
        if v[i + j] != pat[j] {
            return false;
        }
        j = j + 1;
    }
    true
}

/// First index where `pat` occurs in `v`, if any.
pub fn find_sub(v: &Vec<char>, pat: &Vec<char>) -> (r: Option<usize>)
    ensures
        match r {
            Some(i) => i == find_spec(v@, pat@),
            None => find_spec(v@, pat@) == -1,
        },
{
    proof {
        lemma_find_spec(v@, pat@);
    }
    if pat.len() > v.len() {
        return None;
    }
    let n = v.len();
    let m = pat.len();
    let mut i: usize = 0;
    while i <= n - m
        invariant
            m <= n,
            n == v@.len(),
            m == pat@.len(),
            i <= n - m + 1,
            forall|k: int| 0 <= k < i ==> !matches_at(v@, k, pat@),
        decreases n - i,
    {
        if matches_at_exec(v, i, pat) {
            proof {
                lemma_find_spec(v@, pat@);
            }
            return Some(i);
        }
        i = i + 1;
    }
    proof {
        assert forall|k: int| !matches_at(v@, k, pat@) by {
            if 0 <= k && k + pat@.len() <= v@.len() {
                assert(k < i);
            }
        }
        lemma_find_spec(v@, pat@);
    }
    None
}

} // verus!
