//! Cleaning of free-text search queries before they are matched.
use vstd::prelude::*;

use crate::text::{chars_of, string_from_chars};

verus! {

broadcast use {vstd::seq_lib::group_seq_properties, vstd::seq::group_seq_axioms};

/// `s` with every occurrence of the non-empty `pat` removed, occurrences
/// taken from left to right without overlap (as `str::replace(pat, "")`).
pub open spec fn strip_pattern(s: Seq<char>, pat: Seq<char>) -> Seq<char>
    decreases s.len(),
{
    if pat.len() == 0 || s.len() < pat.len() {
        s
    } else if s.take(pat.len() as int) == pat {
        strip_pattern(s.skip(pat.len() as int), pat)
    } else {
        seq![s[0]] + strip_pattern(s.drop_first(), pat)
    }
}

/// The characters that a cleaned query may not hold.
pub open spec fn is_query_special(c: char) -> bool {
    c == '"' || c == '(' || c == ')' || c == ':' || c == '^' || c == '-' || c == '+' || c == '='
        || c == '>' || c == '<' || c == '~' || c == '*'
}

pub open spec fn keeps_char() -> spec_fn(char) -> bool {
    |c: char| !is_query_special(c)
}

/// The cleaned query: `&&` and `||` removed (in that order), then every
/// special character.
pub open spec fn sanitized(q: Seq<char>) -> Seq<char> {
    strip_pattern(strip_pattern(q, seq!['&', '&']), seq!['|', '|']).filter(keeps_char())
}

fn is_special(c: char) -> (r: bool)
    ensures
        r == is_query_special(c),
{
    c == '"' || c == '(' || c == ')' || c == ':' || c == '^' || c == '-' || c == '+' || c == '='
        || c == '>' || c == '<' || c == '~' || c == '*'
}

/// Removes every occurrence of the two-character pattern `[a, b]`.
fn strip_pair(s: &Vec<char>, a: char, b: char) -> (r: Vec<char>)
    ensures
        r@ == strip_pattern(s@, seq![a, b]),
{
    let ghost pat = seq![a, b];
    let n = s.len();
    let mut out: Vec<char> = Vec::new();
    let mut i: usize = 0;
    assert(s@.skip(0) =~= s@);
    while i < n
        invariant
            0 <= i <= n,
            n == s@.len(),
            pat == seq![a, b],
            out@ + strip_pattern(s@.skip(i as int), pat) == strip_pattern(s@, pat),
        decreases n - i,
    {
        let ghost rest = s@.skip(i as int);
        if i + 1 < n && s[i] == a && s[i + 1] == b {
            assert(rest.take(2) =~= pat);
            assert(rest.skip(2) =~= s@.skip(i + 2));
            i = i + 2;
        } else {
            proof {
                if rest.len() >= 2 {
                    assert(rest.take(2) != pat) by {
                        if rest.take(2) == pat {
                            assert(rest.take(2)[0] == s@[i as int]);
                            assert(rest.take(2)[1] == s@[i + 1]);
                        }
                    }
                    assert(strip_pattern(rest, pat) == seq![rest[0]] + strip_pattern(rest.drop_first(), pat));
                } else {
                    assert(strip_pattern(rest, pat) == rest);
                    assert(rest.drop_first().len() < 2);
                    assert(strip_pattern(rest.drop_first(), pat) == rest.drop_first());
                    assert(rest =~= seq![rest[0]] + rest.drop_first());
                }
            }
            assert(rest.drop_first() =~= s@.skip(i + 1));
            let ghost before = out@;
            out.push(s[i]);
            assert(out@ =~= before + seq![rest[0]]);
            assert(out@ + strip_pattern(s@.skip(i + 1), pat) =~= before + (seq![rest[0]]
                + strip_pattern(rest.drop_first(), pat)));
            i = i + 1;
        }
    }
    assert(s@.skip(n as int) =~= Seq::<char>::empty());
    assert(strip_pattern(s@.skip(n as int), pat) == Seq::<char>::empty());
    assert(out@ + Seq::<char>::empty() =~= out@);
    out
}

/// Cleans a free-text query: removes `&&` and `||`, then the characters
/// `" ( ) : ^ - + = > < ~ *`.
pub fn sanitize_fts_query(query: &str) -> (r: String)
    ensures
        r@ == sanitized(query@),
{
    let q = chars_of(query);
    let s1 = strip_pair(&q, '&', '&');
    let s2 = strip_pair(&s1, '|', '|');
    let ghost p = keeps_char();
    let mut out: Vec<char> = Vec::new();
    let mut i: usize = 0;
    while i < s2.len()
        invariant
            0 <= i <= s2@.len(),
            p == keeps_char(),
            out@ == s2@.take(i as int).filter(p),
        decreases s2@.len() - i,
    {
        proof {
            crate::seqs::lemma_filter_take_step(s2@, p, i as int);
        }
        if !is_special(s2[i]) {
            out.push(s2[i]);
        }
        i = i + 1;
    }
    assert(s2@.take(s2@.len() as int) =~= s2@);
    string_from_chars(out.as_slice())
}

/// A cleaned query holds none of the special characters.
pub proof fn law_sanitized_has_no_special(q: Seq<char>)
    ensures
        forall|i: int| 0 <= i < sanitized(q).len() ==> !is_query_special(#[trigger] sanitized(q)[i]),
{
    let s = strip_pattern(strip_pattern(q, seq!['&', '&']), seq!['|', '|']);
    assert forall|i: int| 0 <= i < sanitized(q).len() implies !is_query_special(
        #[trigger] sanitized(q)[i],
    ) by {
        s.lemma_filter_pred(keeps_char(), i);
    }
}

/// The characters a query may hold and keep as they are: every character
/// but `"`, `(`, `)`, `:`, `^`, `-`, `+`, `=`, `>`, `<`, `~` and `*`.
pub open spec fn plain_query_char(c: char) -> bool {
    &&& c != '"' && c != '(' && c != ')' && c != ':' && c != '^' && c != '-'
    &&& c != '+' && c != '=' && c != '>' && c != '<' && c != '~' && c != '*'
}

/// `s` holds neither `&&` nor `||`.
pub open spec fn no_double_operator(s: Seq<char>) -> bool {
    forall|i: int|
        0 <= i < s.len() - 1 ==> !(#[trigger] s[i] == '&' && s[i + 1] == '&') && !(s[i] == '|' && s[i + 1]
            == '|')
}

proof fn lemma_strip_absent(s: Seq<char>, a: char)
    requires
        a == '&' || a == '|',
        no_double_operator(s),
    ensures
        strip_pattern(s, seq![a, a]) == s,
    decreases s.len(),
{
    let pat = seq![a, a];
    if s.len() >= 2 {
        assert(s.take(2) != pat) by {
            if s.take(2) == pat {
                assert(s.take(2)[0] == s[0] && s.take(2)[1] == s[1]);
                assert(!(s[0int] == '&' && s[0int + 1] == '&') && !(s[0int] == '|' && s[0int + 1] == '|'));
            }
        }
        let d = s.drop_first();
        assert forall|i: int| 0 <= i < d.len() - 1 implies !(#[trigger] d[i] == '&' && d[i + 1] == '&')
            && !(d[i] == '|' && d[i + 1] == '|') by {
            assert(d[i] == s[i + 1] && d[i + 1] == s[i + 2]);
            assert(!(s[i + 1] == '&' && s[(i + 1) + 1] == '&') && !(s[i + 1] == '|' && s[(i + 1) + 1] == '|'));
        }
        lemma_strip_absent(d, a);
        assert(seq![s[0]] + d =~= s);
    }
}

proof fn lemma_filter_keeps_all(s: Seq<char>)
    requires
        forall|i: int| 0 <= i < s.len() ==> plain_query_char(#[trigger] s[i]),
    ensures
        s.filter(keeps_char()) == s,
    decreases s.len(),
{
    reveal(Seq::filter);
    if s.len() > 0 {
        let d = s.drop_last();
        assert forall|i: int| 0 <= i < d.len() implies plain_query_char(#[trigger] d[i]) by {
            assert(d[i] == s[i]);
        }
        lemma_filter_keeps_all(d);
        assert(plain_query_char(s[s.len() - 1]));
        assert(d.push(s.last()) =~= s);
    }
}

/// A cleaned query holds none of `"`, `(`, `)`, `:`, `^`, `-`, `+`, `=`,
/// `>`, `<`, `~` and `*`.
pub proof fn law_sanitized_is_plain(q: Seq<char>)
    ensures
        forall|i: int| 0 <= i < sanitized(q).len() ==> plain_query_char(#[trigger] sanitized(q)[i]),
{
    law_sanitized_has_no_special(q);
    assert forall|i: int| 0 <= i < sanitized(q).len() implies plain_query_char(#[trigger] sanitized(q)[i]) by {
        assert(!is_query_special(sanitized(q)[i]));
    }
}

/// Cleaning keeps a query as it is when the query holds none of the
/// special characters `"`, `(`, `)`, `:`, `^`, `-`, `+`, `=`, `>`, `<`,
/// `~`, `*` and neither `&&` nor `||` (so `node.js` stays `node.js`).
pub proof fn law_plain_query_unchanged(q: Seq<char>)
    requires
        forall|i: int| 0 <= i < q.len() ==> plain_query_char(#[trigger] q[i]),
        no_double_operator(q),
    ensures
        sanitized(q) == q,
{
    lemma_strip_absent(q, '&');
    lemma_strip_absent(q, '|');
    lemma_filter_keeps_all(q);
}

} // verus!
