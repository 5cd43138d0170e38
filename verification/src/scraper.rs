//! Markup stripping: remove every `<...>` span, collapse the `&nbsp;`
//! entity to a space, collapse whitespace runs to single spaces and trim
//! the ends. The function tolerates fragments and unbalanced markup,
//! and stripping twice gives the same text as stripping once.

use crate::text::{
    chars_to_string, is_ws, is_ws_char, lemma_matches_at_skip, lemma_matches_cons,
    lemma_matches_cons_zero, matches_at, matches_at_exec, no_char, starts_with_spec, str_chars,
};
use vstd::prelude::*;

verus! {

/// Text of `s` with every `<...>` span removed. `in_tag` tells whether
/// the scan starts inside an unclosed span; an unterminated span runs to
/// the end of the text.
pub open spec fn remove_tags(s: Seq<char>, in_tag: bool) -> Seq<char>
    decreases s.len(),
{
    if s.len() == 0 {
        Seq::empty()
    } else if in_tag {
        remove_tags(s.drop_first(), s[0] != '>')
    } else if s[0] == '<' {
        remove_tags(s.drop_first(), true)
    } else {
        seq![s[0]] + remove_tags(s.drop_first(), false)
    }
}

/// The `&nbsp;` entity.
pub open spec fn nbsp() -> Seq<char> {
    seq!['&', 'n', 'b', 's', 'p', ';']
}

/// Text of `s` with every `&nbsp;` replaced by one space.
pub open spec fn replace_nbsp(s: Seq<char>) -> Seq<char>
    decreases s.len(),
{
    if s.len() == 0 {
        Seq::empty()
    } else if starts_with_spec(s, nbsp()) {
        seq![' '] + replace_nbsp(s.skip(6))
    } else {
        seq![s[0]] + replace_nbsp(s.drop_first())
    }
}

/// Whitespace normalization as a three-state scan: `st` is 0 before any
/// word, 1 right after a word character, 2 in a gap after a word. Runs
/// of whitespace become one space between words and vanish at the ends.
pub open spec fn collapse_ws(s: Seq<char>, st: int) -> Seq<char>
    decreases s.len(),
{
    if s.len() == 0 {
        Seq::empty()
    } else if is_ws(s[0]) {
        collapse_ws(s.drop_first(), if st == 0 { 0int } else { 2int })
    } else if st == 2 {
        seq![' ', s[0]] + collapse_ws(s.drop_first(), 1)
    } else {
        seq![s[0]] + collapse_ws(s.drop_first(), 1)
    }
}

/// Plain text of a markup fragment: tags removed, `&nbsp;` collapsed to
/// a space, whitespace normalized and the ends trimmed.
pub open spec fn strip_spec(s: Seq<char>) -> Seq<char> {
    collapse_ws(replace_nbsp(remove_tags(s, false)), 0)
}

/// Strips markup from a string and normalizes whitespace.
pub fn strip_html_tags(html: &str) -> (r: String)
    ensures
        r@ == strip_spec(html@),
{
    let v = str_chars(html);
    let out = strip_chars(&v);
    chars_to_string(&out)
}

/// `strip_html_tags` on text held as characters.
pub fn strip_chars(v: &Vec<char>) -> (r: Vec<char>)
    ensures
        r@ == strip_spec(v@),
{
    let a = remove_tags_exec(v);
    let b = replace_nbsp_exec(&a);
    collapse_ws_exec(&b)
}

fn remove_tags_exec(v: &Vec<char>) -> (r: Vec<char>)
    ensures
        r@ == remove_tags(v@, false),
{
    let n = v.len();
    let mut out: Vec<char> = Vec::new();
    let mut in_tag = false;
    let mut i: usize = 0;
    proof {
        assert(v@.skip(0) =~= v@);
        assert(out@ + remove_tags(v@, false) =~= remove_tags(v@, false));
    }
    while i < n
        invariant
            n == v@.len(),
            i <= n,
            out@ + remove_tags(v@.skip(i as int), in_tag) == remove_tags(v@, false),
        decreases n - i,
    {
        let ghost t = v@.skip(i as int);
        proof {
            assert(t[0] == v@[i as int]);
            assert(t.drop_first() =~= v@.skip(i + 1));
        }
        let c = v[i];
        if in_tag {
            if c == '>' {
                in_tag = false;
            }
        } else if c == '<' {
            in_tag = true;
        } else {
            let ghost out0 = out@;
            out.push(c);
            proof {
                assert(remove_tags(t, false) == seq![t[0]] + remove_tags(t.drop_first(), false));
                assert(out@ + remove_tags(v@.skip(i + 1), false) =~= out0 + remove_tags(t, false));
            }
        }
        i = i + 1;
    }
    proof {
        assert(v@.skip(n as int) =~= Seq::<char>::empty());
        assert(out@ + remove_tags(v@.skip(n as int), in_tag) =~= out@);
    }
    out
}

fn nbsp_chars() -> (r: Vec<char>)
    ensures
        r@ == nbsp(),
{
    let mut r: Vec<char> = Vec::new();
    r.push('&');
    r.push('n');
    r.push('b');
    r.push('s');
    r.push('p');
    r.push(';');
    proof {
        assert(r@ =~= nbsp());
    }
    r
}

fn replace_nbsp_exec(v: &Vec<char>) -> (r: Vec<char>)
    ensures
        r@ == replace_nbsp(v@),
{
    let pat = nbsp_chars();
    let n = v.len();
    let mut out: Vec<char> = Vec::new();
    let mut i: usize = 0;
    proof {
        assert(v@.skip(0) =~= v@);
        assert(out@ + replace_nbsp(v@) =~= replace_nbsp(v@));
    }
    while i < n
        invariant
            n == v@.len(),
            i <= n,
            pat@ == nbsp(),
            out@ + replace_nbsp(v@.skip(i as int)) == replace_nbsp(v@),
        decreases n - i,
    {
        let ghost t = v@.skip(i as int);
        proof {
            assert(t[0] == v@[i as int]);
            assert(t.drop_first() =~= v@.skip(i + 1));
            lemma_matches_at_skip(v@, i as int, nbsp());
        }
        if matches_at_exec(v, i, &pat) {
            let ghost out0 = out@;
            out.push(' ');
            proof {
                assert(t.skip(6) =~= v@.skip(i + 6));
                assert(replace_nbsp(t) == seq![' '] + replace_nbsp(t.skip(6)));
                assert(out@ + replace_nbsp(v@.skip(i + 6)) =~= out0 + replace_nbsp(t));
            }
            i = i + 6;
        } else {
            let ghost out0 = out@;
            out.push(v[i]);
            proof {
                assert(replace_nbsp(t) == seq![t[0]] + replace_nbsp(t.drop_first()));
                assert(out@ + replace_nbsp(v@.skip(i + 1)) =~= out0 + replace_nbsp(t));
            }
            i = i + 1;
        }
    }
    proof {
        assert(v@.skip(n as int) =~= Seq::<char>::empty());
        assert(out@ + replace_nbsp(v@.skip(n as int)) =~= out@);
    }
    out
}

fn collapse_ws_exec(v: &Vec<char>) -> (r: Vec<char>)
    ensures
        r@ == collapse_ws(v@, 0),
{
    let n = v.len();
    let mut out: Vec<char> = Vec::new();
    let mut st: u8 = 0;
    let mut i: usize = 0;
    proof {
        assert(v@.skip(0) =~= v@);
        assert(out@ + collapse_ws(v@, 0) =~= collapse_ws(v@, 0));
    }
    while i < n
        invariant
            n == v@.len(),
            i <= n,
            st == 0 || st == 1 || st == 2,
            out@ + collapse_ws(v@.skip(i as int), st as int) == collapse_ws(v@, 0),
        decreases n - i,
    {
        let ghost t = v@.skip(i as int);
        proof {
            assert(t[0] == v@[i as int]);
            assert(t.drop_first() =~= v@.skip(i + 1));
        }
        let c = v[i];
        if is_ws_char(c) {
            st = if st == 0 {
                0
            } else {
                2
            };
        } else if st == 2 {
            let ghost out0 = out@;
            out.push(' ');
            out.push(c);
            proof {
                assert(collapse_ws(t, 2) == seq![' ', t[0]] + collapse_ws(t.drop_first(), 1));
                assert(out@ + collapse_ws(v@.skip(i + 1), 1) =~= out0 + collapse_ws(t, 2));
            }
            st = 1;
        } else {
            let ghost out0 = out@;
            out.push(c);
            proof {
                assert(collapse_ws(t, st as int) == seq![t[0]] + collapse_ws(t.drop_first(), 1));
                assert(out@ + collapse_ws(v@.skip(i + 1), 1) =~= out0 + collapse_ws(t, st as int));
            }
            st = 1;
        }
        i = i + 1;
    }
    proof {
        assert(v@.skip(n as int) =~= Seq::<char>::empty());
        assert(out@ + collapse_ws(v@.skip(n as int), st as int) =~= out@);
    }
    out
}

/// Tag removal leaves no `<` behind: a kept character is never `<`.
proof fn lemma_remove_tags_no_lt(s: Seq<char>, in_tag: bool)
    ensures
        no_char(remove_tags(s, in_tag), '<'),
    decreases s.len(),
{
    if s.len() == 0 {
    } else if in_tag {
        lemma_remove_tags_no_lt(s.drop_first(), s[0] != '>');
    } else if s[0] == '<' {
        lemma_remove_tags_no_lt(s.drop_first(), true);
    } else {
        lemma_remove_tags_no_lt(s.drop_first(), false);
    }
}

/// Tag removal does nothing to text without `<`.
proof fn lemma_remove_tags_id(s: Seq<char>)
    requires
        no_char(s, '<'),
    ensures
        remove_tags(s, false) == s,
    decreases s.len(),
{
    if s.len() == 0 {
        assert(remove_tags(s, false) =~= s);
    } else {
        assert(no_char(s.drop_first(), '<'));
        lemma_remove_tags_id(s.drop_first());
        assert(remove_tags(s, false) =~= s);
    }
}

/// Entity replacement only inserts spaces, so it cannot introduce any
/// other character.
proof fn lemma_replace_nbsp_preserves_no(s: Seq<char>, c: char)
    requires
        c != ' ',
        no_char(s, c),
    ensures
        no_char(replace_nbsp(s), c),
    decreases s.len(),
{
    if s.len() == 0 {
    } else if starts_with_spec(s, nbsp()) {
        assert(no_char(s.skip(6), c));
        lemma_replace_nbsp_preserves_no(s.skip(6), c);
        assert forall|k: int| 0 <= k < replace_nbsp(s).len() implies replace_nbsp(s)[k] != c by {
            if k >= 1 {
                assert(replace_nbsp(s)[k] == replace_nbsp(s.skip(6))[k - 1]);
            }
        }
    } else {
        assert(no_char(s.drop_first(), c));
        lemma_replace_nbsp_preserves_no(s.drop_first(), c);
        assert forall|k: int| 0 <= k < replace_nbsp(s).len() implies replace_nbsp(s)[k] != c by {
            if k >= 1 {
                assert(replace_nbsp(s)[k] == replace_nbsp(s.drop_first())[k - 1]);
            }
        }
    }
}

/// Whitespace collapsing only inserts spaces, so it cannot introduce
/// any other character.
proof fn lemma_collapse_preserves_no(s: Seq<char>, st: int, c: char)
    requires
        c != ' ',
        no_char(s, c),
    ensures
        no_char(collapse_ws(s, st), c),
    decreases s.len(),
{
    if s.len() == 0 {
    } else {
        assert(no_char(s.drop_first(), c));
        if is_ws(s[0]) {
            lemma_collapse_preserves_no(s.drop_first(), if st == 0 { 0int } else { 2int }, c);
        } else {
            lemma_collapse_preserves_no(s.drop_first(), 1, c);
            let r = collapse_ws(s, st);
            let rr = collapse_ws(s.drop_first(), 1);
            assert forall|k: int| 0 <= k < r.len() implies r[k] != c by {
                if st == 2 {
                    if k >= 2 {
                        assert(r[k] == rr[k - 2]);
                    }
                } else {
                    if k >= 1 {
                        assert(r[k] == rr[k - 1]);
                    }
                }
            }
        }
    }
}

/// If a pattern free of `&` and spaces is a prefix of the replaced
/// text, it already was a prefix of the original text.
proof fn lemma_replace_prefix(t: Seq<char>, q: Seq<char>)
    requires
        q.len() >= 1,
        no_char(q, '&'),
        no_char(q, ' '),
        starts_with_spec(replace_nbsp(t), q),
    ensures
        starts_with_spec(t, q),
    decreases t.len(),
{
    if t.len() == 0 {
        assert(matches_at(replace_nbsp(t), 0, q));
    } else if starts_with_spec(t, nbsp()) {
        assert(replace_nbsp(t) == seq![' '] + replace_nbsp(t.skip(6)));
        lemma_matches_cons_zero(' ', replace_nbsp(t.skip(6)), q);
        assert(q[0] == ' ');
    } else {
        assert(replace_nbsp(t) == seq![t[0]] + replace_nbsp(t.drop_first()));
        lemma_matches_cons_zero(t[0], replace_nbsp(t.drop_first()), q);
        if q.len() == 1 {
            assert forall|k: int| 0 <= k < q.len() implies t[k] == q[k] by {}
        } else {
            assert(no_char(q.drop_first(), '&'));
            assert(no_char(q.drop_first(), ' '));
            lemma_replace_prefix(t.drop_first(), q.drop_first());
            assert forall|k: int| 0 <= k < q.len() implies t[k] == q[k] by {
                if k >= 1 {
                    assert(t.drop_first()[k - 1] == q.drop_first()[k - 1]);
                }
            }
        }
    }
}

/// After replacement no `&nbsp;` remains anywhere in the text.
proof fn lemma_replace_nbsp_no_nbsp(s: Seq<char>)
    ensures
        forall|i: int| !matches_at(replace_nbsp(s), i, nbsp()),
    decreases s.len(),
{
    if s.len() == 0 {
    } else if starts_with_spec(s, nbsp()) {
        lemma_replace_nbsp_no_nbsp(s.skip(6));
        let r = replace_nbsp(s);
        assert(r == seq![' '] + replace_nbsp(s.skip(6)));
        assert forall|i: int| !matches_at(r, i, nbsp()) by {
            if i == 0 {
                if matches_at(r, 0, nbsp()) {
                    lemma_matches_cons_zero(' ', replace_nbsp(s.skip(6)), nbsp());
                }
            } else if i >= 1 {
                lemma_matches_cons(' ', replace_nbsp(s.skip(6)), i, nbsp());
            }
        }
    } else {
        lemma_replace_nbsp_no_nbsp(s.drop_first());
        let r = replace_nbsp(s);
        assert(r == seq![s[0]] + replace_nbsp(s.drop_first()));
        assert forall|i: int| !matches_at(r, i, nbsp()) by {
            if i == 0 {
                if matches_at(r, 0, nbsp()) {
                    lemma_matches_cons_zero(s[0], replace_nbsp(s.drop_first()), nbsp());
                    assert(no_char(nbsp().drop_first(), '&'));
                    assert(no_char(nbsp().drop_first(), ' '));
                    lemma_replace_prefix(s.drop_first(), nbsp().drop_first());
                    assert forall|k: int| 0 <= k < nbsp().len() implies s[k] == nbsp()[k] by {
                        if k >= 1 {
                            assert(s.drop_first()[k - 1] == nbsp().drop_first()[k - 1]);
                        }
                    }
                    assert(starts_with_spec(s, nbsp()));
                }
            } else if i >= 1 {
                lemma_matches_cons(s[0], replace_nbsp(s.drop_first()), i, nbsp());
            }
        }
    }
}

/// Entity replacement does nothing to text without `&nbsp;`.
proof fn lemma_replace_nbsp_id(s: Seq<char>)
    requires
        forall|i: int| !matches_at(s, i, nbsp()),
    ensures
        replace_nbsp(s) == s,
    decreases s.len(),
{
    if s.len() == 0 {
        assert(replace_nbsp(s) =~= s);
    } else {
        assert(!matches_at(s, 0, nbsp()));
        assert(!starts_with_spec(s, nbsp()));
        assert(s =~= seq![s[0]] + s.drop_first());
        assert forall|i: int| !matches_at(s.drop_first(), i, nbsp()) by {
            if i >= 0 {
                lemma_matches_cons(s[0], s.drop_first(), i + 1, nbsp());
                assert(!matches_at(s, i + 1, nbsp()));
            }
        }
        lemma_replace_nbsp_id(s.drop_first());
        assert(replace_nbsp(s) =~= s);
    }
}

/// In the gap state the next emitted character is a space.
proof fn lemma_cw2_head(t: Seq<char>)
    ensures
        collapse_ws(t, 2).len() > 0 ==> collapse_ws(t, 2)[0] == ' ',
    decreases t.len(),
{
    if t.len() == 0 {
    } else if is_ws(t[0]) {
        lemma_cw2_head(t.drop_first());
    }
}

/// If a whitespace-free pattern is a prefix of the collapsed text in
/// the in-word state, it already was a prefix of the original text.
proof fn lemma_cw_prefix1(t: Seq<char>, q: Seq<char>)
    requires
        q.len() >= 1,
        forall|k: int| 0 <= k < q.len() ==> !is_ws(q[k]),
        starts_with_spec(collapse_ws(t, 1), q),
    ensures
        starts_with_spec(t, q),
    decreases t.len(),
{
    if t.len() == 0 {
        assert(matches_at(collapse_ws(t, 1), 0, q));
    } else if is_ws(t[0]) {
        assert(collapse_ws(t, 1) == collapse_ws(t.drop_first(), 2));
        lemma_cw2_head(t.drop_first());
        assert(matches_at(collapse_ws(t, 1), 0, q));
        assert(collapse_ws(t, 1)[0] == q[0]);
        assert(!is_ws(q[0]));
    } else {
        assert(collapse_ws(t, 1) == seq![t[0]] + collapse_ws(t.drop_first(), 1));
        lemma_matches_cons_zero(t[0], collapse_ws(t.drop_first(), 1), q);
        if q.len() == 1 {
            assert forall|k: int| 0 <= k < q.len() implies t[k] == q[k] by {}
        } else {
            lemma_cw_prefix1(t.drop_first(), q.drop_first());
            assert forall|k: int| 0 <= k < q.len() implies t[k] == q[k] by {
                if k >= 1 {
                    assert(t.drop_first()[k - 1] == q.drop_first()[k - 1]);
                }
            }
        }
    }
}

/// Collapsing whitespace cannot create an occurrence of a
/// whitespace-free pattern that the text did not already contain.
proof fn lemma_cw_no_pat(t: Seq<char>, st: int, p: Seq<char>)
    requires
        p.len() >= 1,
        forall|k: int| 0 <= k < p.len() ==> !is_ws(p[k]),
        forall|j: int| !matches_at(t, j, p),
    ensures
        forall|i: int| !matches_at(collapse_ws(t, st), i, p),
    decreases t.len(), (if st == 2 { 1int } else { 0int }),
{
    if t.len() == 0 {
    } else if is_ws(t[0]) {
        assert(t =~= seq![t[0]] + t.drop_first());
        assert forall|j: int| !matches_at(t.drop_first(), j, p) by {
            if j >= 0 {
                lemma_matches_cons(t[0], t.drop_first(), j + 1, p);
            }
        }
        lemma_cw_no_pat(t.drop_first(), if st == 0 { 0int } else { 2int }, p);
        assert(collapse_ws(t, st) == collapse_ws(
            t.drop_first(),
            if st == 0 { 0int } else { 2int },
        ));
    } else if st == 2 {
        assert(collapse_ws(t, 2) == seq![' ', t[0]] + collapse_ws(t.drop_first(), 1));
        assert(collapse_ws(t, 1) == seq![t[0]] + collapse_ws(t.drop_first(), 1));
        assert(collapse_ws(t, 2) =~= seq![' '] + collapse_ws(t, 1));
        lemma_cw_no_pat(t, 1, p);
        assert forall|i: int| !matches_at(collapse_ws(t, 2), i, p) by {
            if i == 0 {
                if matches_at(collapse_ws(t, 2), 0, p) {
                    lemma_matches_cons_zero(' ', collapse_ws(t, 1), p);
                    assert(!is_ws(p[0]));
                }
            } else if i >= 1 {
                lemma_matches_cons(' ', collapse_ws(t, 1), i, p);
            }
        }
    } else {
        assert(t =~= seq![t[0]] + t.drop_first());
        assert forall|j: int| !matches_at(t.drop_first(), j, p) by {
            if j >= 0 {
                lemma_matches_cons(t[0], t.drop_first(), j + 1, p);
            }
        }
        lemma_cw_no_pat(t.drop_first(), 1, p);
        let r = collapse_ws(t, st);
        assert(r == seq![t[0]] + collapse_ws(t.drop_first(), 1));
        assert forall|i: int| !matches_at(r, i, p) by {
            if i == 0 {
                if matches_at(r, 0, p) {
                    lemma_matches_cons_zero(t[0], collapse_ws(t.drop_first(), 1), p);
                    if p.len() == 1 {
                        assert(matches_at(t, 0, p));
                    } else {
                        lemma_cw_prefix1(t.drop_first(), p.drop_first());
                        assert forall|k: int| 0 <= k < p.len() implies t[k] == p[k] by {
                            if k >= 1 {
                                assert(t.drop_first()[k - 1] == p.drop_first()[k - 1]);
                            }
                        }
                        assert(matches_at(t, 0, p));
                    }
                }
            } else if i >= 1 {
                lemma_matches_cons(t[0], collapse_ws(t.drop_first(), 1), i, p);
            }
        }
    }
}

/// Collapsing in the in-word state is idempotent.
proof fn lemma_cw_idem1(t: Seq<char>)
    ensures
        collapse_ws(collapse_ws(t, 1), 1) == collapse_ws(t, 1),
    decreases t.len(),
{
    if t.len() == 0 {
        assert(collapse_ws(collapse_ws(t, 1), 1) =~= collapse_ws(t, 1));
    } else if is_ws(t[0]) {
        assert(collapse_ws(t, 1) == collapse_ws(t.drop_first(), 2));
        lemma_cw_idem2(t.drop_first());
    } else {
        let w = collapse_ws(t.drop_first(), 1);
        assert(collapse_ws(t, 1) == seq![t[0]] + w);
        let x = seq![t[0]] + w;
        assert(x.len() > 0 && x[0] == t[0] && !is_ws(x[0]));
        assert(x.drop_first() =~= w);
        assert(collapse_ws(x, 1) == seq![t[0]] + collapse_ws(w, 1));
        lemma_cw_idem1(t.drop_first());
    }
}

/// Collapsing a gap-state result again from the in-word state changes
/// nothing: the single space it emitted is kept as is.
proof fn lemma_cw_idem2(t: Seq<char>)
    ensures
        collapse_ws(collapse_ws(t, 2), 1) == collapse_ws(t, 2),
    decreases t.len(),
{
    if t.len() == 0 {
        assert(collapse_ws(collapse_ws(t, 2), 1) =~= collapse_ws(t, 2));
    } else if is_ws(t[0]) {
        assert(collapse_ws(t, 2) == collapse_ws(t.drop_first(), 2));
        lemma_cw_idem2(t.drop_first());
    } else {
        let w = collapse_ws(t.drop_first(), 1);
        assert(collapse_ws(t, 2) == seq![' ', t[0]] + w);
        let x = seq![' ', t[0]] + w;
        assert(x[0] == ' ' && is_ws(x[0]));
        let x1 = x.drop_first();
        assert(x1 =~= seq![t[0]] + w);
        assert(collapse_ws(x, 1) == collapse_ws(x1, 2));
        assert(x1[0] == t[0] && !is_ws(x1[0]));
        assert(x1.drop_first() =~= w);
        assert(collapse_ws(x1, 2) == seq![' ', t[0]] + collapse_ws(w, 1));
        lemma_cw_idem1(t.drop_first());
    }
}

/// Whitespace collapsing is idempotent.
proof fn lemma_cw_idem(y: Seq<char>)
    ensures
        collapse_ws(collapse_ws(y, 0), 0) == collapse_ws(y, 0),
    decreases y.len(),
{
    if y.len() == 0 {
        assert(collapse_ws(collapse_ws(y, 0), 0) =~= collapse_ws(y, 0));
    } else if is_ws(y[0]) {
        assert(collapse_ws(y, 0) == collapse_ws(y.drop_first(), 0));
        lemma_cw_idem(y.drop_first());
    } else {
        let w = collapse_ws(y.drop_first(), 1);
        assert(collapse_ws(y, 0) == seq![y[0]] + w);
        let x = seq![y[0]] + w;
        assert(x[0] == y[0] && !is_ws(x[0]));
        assert(x.drop_first() =~= w);
        assert(collapse_ws(x, 0) == seq![y[0]] + collapse_ws(w, 1));
        lemma_cw_idem1(y.drop_first());
    }
}

/// Markup stripping is idempotent: stripping already-stripped text
/// changes nothing.
pub proof fn lemma_strip_idempotent(s: Seq<char>)
    ensures
        strip_spec(strip_spec(s)) == strip_spec(s),
{
    let z = remove_tags(s, false);
    let y = replace_nbsp(z);
    let r = collapse_ws(y, 0);
    lemma_remove_tags_no_lt(s, false);
    lemma_replace_nbsp_preserves_no(z, '<');
    lemma_collapse_preserves_no(y, 0, '<');
    lemma_remove_tags_id(r);
    lemma_replace_nbsp_no_nbsp(z);
    assert forall|k: int| 0 <= k < nbsp().len() implies !is_ws(nbsp()[k]) by {}
    lemma_cw_no_pat(y, 0, nbsp());
    lemma_replace_nbsp_id(r);
    lemma_cw_idem(y);
}

} // verus!
