//! Character-level text utilities shared by the rest of the library:
//! conversion between `&str`/`String` and character vectors, the binary
//! (code point) order that the store sorts names by, and exact matching.
use vstd::prelude::*;

verus! {

/// The characters of `s`, in order.
pub fn chars_of(s: &str) -> (v: Vec<char>)
    ensures
        v@ == s@,
{
    let mut v: Vec<char> = Vec::new();
    for c in it: s.chars()
        invariant
            it.seq() == s@,
            v@ == it.seq().take(it.index() as int),
    {
        v.push(c);
    }
    v
}

/// Builds a `String` from characters with std's `FromIterator<char>`
/// implementation for `String`; the contract claims that the string holds
/// exactly those characters, in order.
#[verifier::external_body]
pub(crate) fn string_from_chars(v: &[char]) -> (s: String)
    ensures
        s@ == v@,
{
    v.iter().collect()
}

/// The characters of each string.
pub open spec fn strings_view(v: Seq<String>) -> Seq<Seq<char>> {
    v.map_values(|s: String| s@)
}

/// A fresh `String` holding the characters of `s`.
pub fn owned(s: &str) -> (r: String)
    ensures
        r@ == s@,
{
    let v = chars_of(s);
    string_from_chars(v.as_slice())
}

/// Concatenation of two strings.
pub fn concat2(a: &str, b: &str) -> (r: String)
    ensures
        r@ == a@ + b@,
{
    let mut v = chars_of(a);
    let w = chars_of(b);
    let mut i: usize = 0;
    while i < w.len()
        invariant
            0 <= i <= w@.len(),
            w@ == b@,
            v@ == a@ + b@.take(i as int),
        decreases w@.len() - i,
    {
        v.push(w[i]);
        i = i + 1;
        assert(b@.take(i as int) == b@.take((i - 1) as int).push(b@[i - 1]));
    }
    assert(b@.take(b@.len() as int) == b@);
    string_from_chars(v.as_slice())
}

/// Concatenation of three strings.
pub fn concat3(a: &str, b: &str, c: &str) -> (r: String)
    ensures
        r@ == a@ + b@ + c@,
{
    let ab = concat2(a, b);
    concat2(ab.as_str(), c)
}

/// Equality of two character sequences.
pub fn seq_eq(a: &Vec<char>, b: &Vec<char>) -> (r: bool)
    ensures
        r == (a@ == b@),
{
    if a.len() != b.len() {
        return false;
    }
    let mut i: usize = 0;
    while i < a.len()
        invariant
            0 <= i <= a@.len(),
            a@.len() == b@.len(),
            forall|k: int| 0 <= k < i ==> a@[k] == b@[k],
        decreases a@.len() - i,
    {
        if a[i] != b[i] {
            return false;
        }
        i = i + 1;
    }
    assert(a@ =~= b@);
    true
}

/// Equality of the characters of two strings.
pub fn str_eq(a: &str, b: &str) -> (r: bool)
    ensures
        r == (a@ == b@),
{
    let va = chars_of(a);
    let vb = chars_of(b);
    seq_eq(&va, &vb)
}

/// `a` sorts strictly before `b` in binary order: the order of their
/// code points, position by position, a proper prefix first.  For UTF-8
/// text this is the byte order, the collation that SQLite's `ORDER BY`
/// and `<` apply to `TEXT` by default.
pub open spec fn text_lt(a: Seq<char>, b: Seq<char>) -> bool
    decreases a.len(),
{
    if a.len() == 0 {
        b.len() > 0
    } else if b.len() == 0 {
        false
    } else if a[0] != b[0] {
        a[0] < b[0]
    } else {
        text_lt(a.drop_first(), b.drop_first())
    }
}

pub proof fn lemma_text_lt_irreflexive(a: Seq<char>)
    ensures
        !text_lt(a, a),
    decreases a.len(),
{
    if a.len() > 0 {
        lemma_text_lt_irreflexive(a.drop_first());
    }
}

pub proof fn lemma_text_lt_transitive(a: Seq<char>, b: Seq<char>, c: Seq<char>)
    requires
        text_lt(a, b),
        text_lt(b, c),
    ensures
        text_lt(a, c),
    decreases a.len(),
{
    if a.len() > 0 && b.len() > 0 && c.len() > 0 {
        if a[0] == b[0] && b[0] == c[0] {
            lemma_text_lt_transitive(a.drop_first(), b.drop_first(), c.drop_first());
        }
    }
}

pub proof fn lemma_text_lt_total(a: Seq<char>, b: Seq<char>)
    ensures
        a == b || text_lt(a, b) || text_lt(b, a),
    decreases a.len(),
{
    if a.len() > 0 && b.len() > 0 {
        if a[0] == b[0] {
            lemma_text_lt_total(a.drop_first(), b.drop_first());
            if a.drop_first() == b.drop_first() {
                assert(a =~= seq![a[0]] + a.drop_first());
                assert(b =~= seq![b[0]] + b.drop_first());
            }
        }
    } else if a.len() == 0 && b.len() == 0 {
        assert(a =~= b);
    }
}

pub proof fn lemma_text_lt_asymmetric(a: Seq<char>, b: Seq<char>)
    requires
        text_lt(a, b),
    ensures
        !text_lt(b, a),
{
    if text_lt(b, a) {
        lemma_text_lt_transitive(a, b, a);
        lemma_text_lt_irreflexive(a);
    }
}

/// Binary order test on character vectors.
pub fn seq_lt(a: &Vec<char>, b: &Vec<char>) -> (r: bool)
    ensures
        r == text_lt(a@, b@),
{
    let mut i: usize = 0;
    assert(a@.skip(0) =~= a@);
    assert(b@.skip(0) =~= b@);
    while i < a.len() && i < b.len()
        invariant
            0 <= i <= a@.len(),
            i <= b@.len(),
            text_lt(a@, b@) == text_lt(a@.skip(i as int), b@.skip(i as int)),
        decreases a@.len() - i,
    {
        assert(a@.skip(i as int)[0] == a@[i as int]);
        assert(b@.skip(i as int)[0] == b@[i as int]);
        if a[i] != b[i] {
            return a[i] < b[i];
        }
        assert(a@.skip(i as int).drop_first() =~= a@.skip(i + 1));
        assert(b@.skip(i as int).drop_first() =~= b@.skip(i + 1));
        i = i + 1;
    }
    i < b.len()
}

/// Binary order test on strings.
pub fn str_lt(a: &str, b: &str) -> (r: bool)
    ensures
        r == text_lt(a@, b@),
{
    let va = chars_of(a);
    let vb = chars_of(b);
    seq_lt(&va, &vb)
}

/// `c` is an upper-case ASCII letter.
pub open spec fn is_ascii_upper(c: char) -> bool {
    'A' <= c <= 'Z'
}

/// Two characters are equal when upper- and lower-case ASCII letters are
/// taken as the same; every other character only equals itself.  This is
/// how SQLite's `LIKE` compares characters by default.
pub open spec fn like_char_eq(a: char, b: char) -> bool {
    ||| a == b
    ||| is_ascii_upper(a) && (b as u32) == (a as u32) + 32
    ||| is_ascii_upper(b) && (a as u32) == (b as u32) + 32
}

fn char_eq_nocase(a: char, b: char) -> (r: bool)
    ensures
        r == like_char_eq(a, b),
{
    let ua = 'A' <= a && a <= 'Z';
    let ub = 'A' <= b && b <= 'Z';
    let na = a as u32;
    let nb = b as u32;
    a == b || (ua && nb == na + 32) || (ub && na == nb + 32)
}

/// `text` matches the SQL `LIKE` pattern `pattern`: `%` stands for any run of
/// characters (the empty one too), `_` for exactly one character, and every
/// other character for itself, ASCII letters regardless of case.  There is no
/// escape character.
pub open spec fn like_match(pattern: Seq<char>, text: Seq<char>) -> bool
    decreases pattern.len(), text.len(),
{
    if pattern.len() == 0 {
        text.len() == 0
    } else if pattern[0] == '%' {
        like_match(pattern.drop_first(), text) || (text.len() > 0 && like_match(
            pattern,
            text.drop_first(),
        ))
    } else if text.len() == 0 {
        false
    } else if pattern[0] == '_' || like_char_eq(pattern[0], text[0]) {
        like_match(pattern.drop_first(), text.drop_first())
    } else {
        false
    }
}

/// The pattern `%q%`: texts that hold `q` somewhere, `q` itself read as a
/// `LIKE` pattern.
pub open spec fn infix_pattern(q: Seq<char>) -> Seq<char> {
    seq!['%'] + q + seq!['%']
}

/// The pattern `%%` matches every text.
pub proof fn lemma_empty_infix_matches_all(t: Seq<char>)
    ensures
        like_match(infix_pattern(Seq::empty()), t),
    decreases t.len(),
{
    let p = infix_pattern(Seq::<char>::empty());
    assert(p =~= seq!['%', '%']);
    assert(p.drop_first() =~= seq!['%']);
    lemma_percent_matches_all(t);
}

proof fn lemma_percent_matches_all(t: Seq<char>)
    ensures
        like_match(seq!['%'], t),
    decreases t.len(),
{
    let p = seq!['%'];
    assert(p[0] == '%');
    assert(p.drop_first() =~= Seq::<char>::empty());
    if t.len() > 0 {
        lemma_percent_matches_all(t.drop_first());
        assert(like_match(p, t.drop_first()));
    } else {
        assert(like_match(p.drop_first(), t));
    }
}

spec fn like_at(p: Seq<char>, t: Seq<char>, i: int, j: int) -> bool {
    like_match(p.skip(i), t.skip(j))
}

proof fn lemma_like_step(p: Seq<char>, t: Seq<char>, i: int, j: int)
    requires
        0 <= i <= p.len(),
        0 <= j <= t.len(),
    ensures
        i == p.len() ==> (like_at(p, t, i, j) == (j == t.len())),
        i < p.len() && p[i] == '%' ==> like_at(p, t, i, j) == (like_at(p, t, i + 1, j) || (j
            < t.len() && like_at(p, t, i, j + 1))),
        i < p.len() && p[i] != '%' ==> like_at(p, t, i, j) == (j < t.len() && (p[i] == '_'
            || like_char_eq(p[i], t[j])) && like_at(p, t, i + 1, j + 1)),
{
    let ps = p.skip(i);
    let ts = t.skip(j);
    if i < p.len() {
        assert(ps[0] == p[i]);
        assert(ps.drop_first() =~= p.skip(i + 1));
    }
    if j < t.len() {
        assert(ts[0] == t[j]);
        assert(ts.drop_first() =~= t.skip(j + 1));
    }
}

/// Whether `text` matches the `LIKE` pattern `pattern` (see `like_match`).
/// Runs in time proportional to the product of the two lengths.
pub fn like(pattern: &Vec<char>, text: &Vec<char>) -> (r: bool)
    ensures
        r == like_match(pattern@, text@),
{
    let m = pattern.len();
    let n = text.len();
    let ghost p = pattern@;
    let ghost t = text@;
    // next[k] == like_at(p, t, i, k) for the row below the current one
    let mut next: Vec<bool> = Vec::new();
    let mut k: usize = 0;
    while k < n
        invariant
            0 <= k <= n,
            n == t.len(),
            m == p.len(),
            next@.len() == k,
            forall|q: int| 0 <= q < k ==> next@[q] == like_at(p, t, m as int, q),
        decreases n - k,
    {
        proof {
            lemma_like_step(p, t, m as int, k as int);
        }
        next.push(false);
        k = k + 1;
    }
    proof {
        lemma_like_step(p, t, m as int, n as int);
    }
    next.push(true);
    let mut i: usize = m;
    while i > 0
        invariant
            0 <= i <= m,
            n == t.len(),
            m == p.len(),
            p == pattern@,
            t == text@,
            next@.len() == n + 1,
            forall|q: int| 0 <= q <= n ==> next@[q] == like_at(p, t, i as int, q),
        decreases i,
    {
        i = i - 1;
        let pc = pattern[i];
        let mut cur: Vec<bool> = Vec::new();
        let mut z: usize = 0;
        while z < n
            invariant
                0 <= z <= n,
                cur@.len() == z,
            decreases n - z,
        {
            cur.push(false);
            z = z + 1;
        }
        proof {
            lemma_like_step(p, t, i as int, n as int);
        }
        // the last column: the text is used up
        cur.push(pc == '%' && next[n]);
        let mut j: usize = n;
        while j > 0
            invariant
                0 <= j <= n,
                0 <= i < m,
                n == t.len(),
                m == p.len(),
                p == pattern@,
                t == text@,
                pc == p[i as int],
                cur@.len() == n + 1,
                next@.len() == n + 1,
                forall|q: int| 0 <= q <= n ==> next@[q] == like_at(p, t, i + 1, q),
                forall|q: int| j <= q <= n ==> cur@[q] == like_at(p, t, i as int, q),
            decreases j,
        {
            j = j - 1;
            proof {
                lemma_like_step(p, t, i as int, j as int);
            }
            let v = if pc == '%' {
                next[j] || cur[j + 1]
            } else {
                (pc == '_' || char_eq_nocase(pc, text[j])) && next[j + 1]
            };
            cur.set(j, v);
        }
        next = cur;
    }
    proof {
        assert(p.skip(0) =~= p);
        assert(t.skip(0) =~= t);
    }
    next[0]
}

/// Whether `text` matches the `LIKE` pattern `%query%`.
pub fn like_infix(query: &str, text: &str) -> (r: bool)
    ensures
        r == like_match(infix_pattern(query@), text@),
{
    let q = chars_of(query);
    let mut p: Vec<char> = Vec::new();
    p.push('%');
    let mut i: usize = 0;
    while i < q.len()
        invariant
            0 <= i <= q@.len(),
            p@ == seq!['%'] + q@.take(i as int),
        decreases q@.len() - i,
    {
        p.push(q[i]);
        i = i + 1;
        assert(q@.take(i as int) == q@.take((i - 1) as int).push(q@[i - 1]));
    }
    p.push('%');
    assert(q@.take(q@.len() as int) == q@);
    assert(p@ =~= infix_pattern(query@));
    let t = chars_of(text);
    like(&p, &t)
}


/// The decimal digit character for `d` (0 to 9).
pub open spec fn digit_char(d: int) -> char {
    if d == 0 {
        '0'
    } else if d == 1 {
        '1'
    } else if d == 2 {
        '2'
    } else if d == 3 {
        '3'
    } else if d == 4 {
        '4'
    } else if d == 5 {
        '5'
    } else if d == 6 {
        '6'
    } else if d == 7 {
        '7'
    } else if d == 8 {
        '8'
    } else {
        '9'
    }
}

/// The decimal writing of `n`, without leading zeros.
pub open spec fn decimal(n: nat) -> Seq<char>
    decreases n,
{
    if n < 10 {
        seq![digit_char(n as int)]
    } else {
        decimal(n / 10) + seq![digit_char((n % 10) as int)]
    }
}

/// The decimal writing of `n`, with a minus sign when it is negative.
pub open spec fn signed_decimal(n: int) -> Seq<char> {
    if n < 0 {
        seq!['-'] + decimal((-n) as nat)
    } else {
        decimal(n as nat)
    }
}

fn digit(d: u64) -> (c: char)
    requires
        d < 10,
    ensures
        c == digit_char(d as int),
{
    if d == 0 {
        '0'
    } else if d == 1 {
        '1'
    } else if d == 2 {
        '2'
    } else if d == 3 {
        '3'
    } else if d == 4 {
        '4'
    } else if d == 5 {
        '5'
    } else if d == 6 {
        '6'
    } else if d == 7 {
        '7'
    } else if d == 8 {
        '8'
    } else {
        '9'
    }
}

fn decimal_chars(n: u64) -> (v: Vec<char>)
    ensures
        v@ == decimal(n as nat),
    decreases n,
{
    if n < 10 {
        let mut v: Vec<char> = Vec::new();
        v.push(digit(n));
        assert(v@ =~= seq![digit_char(n as int)]);
        v
    } else {
        let mut v = decimal_chars(n / 10);
        v.push(digit(n % 10));
        v
    }
}

/// The decimal writing of an unsigned number.
pub fn u64_text(n: u64) -> (r: String)
    ensures
        r@ == decimal(n as nat),
{
    let v = decimal_chars(n);
    string_from_chars(v.as_slice())
}

/// The decimal writing of a signed number.
pub fn i64_text(n: i64) -> (r: String)
    ensures
        r@ == signed_decimal(n as int),
{
    if n < 0 {
        let m: u64 = if n == i64::MIN {
            9223372036854775808u64
        } else {
            (-n) as u64
        };
        let mut v: Vec<char> = Vec::new();
        v.push('-');
        let d = decimal_chars(m);
        let mut i: usize = 0;
        while i < d.len()
            invariant
                0 <= i <= d@.len(),
                v@ == seq!['-'] + d@.take(i as int),
            decreases d@.len() - i,
        {
            v.push(d[i]);
            i = i + 1;
            assert(v@ =~= seq!['-'] + d@.take(i as int));
        }
        assert(d@.take(d@.len() as int) =~= d@);
        string_from_chars(v.as_slice())
    } else {
        u64_text(n as u64)
    }
}

/// `b` is the ASCII letter `a` in the other case.
pub open spec fn other_case(a: char, b: char) -> bool {
    ||| ('A' <= a <= 'Z' && 'a' <= b <= 'z' && (b as int) - (a as int) == 32)
    ||| ('a' <= a <= 'z' && 'A' <= b <= 'Z' && (a as int) - (b as int) == 32)
}

/// `s` and `t` differ at most in the case of ASCII letters.
pub open spec fn same_but_case(s: Seq<char>, t: Seq<char>) -> bool {
    &&& s.len() == t.len()
    &&& forall|i: int| 0 <= i < s.len() ==> #[trigger] s[i] == t[i] || other_case(s[i], t[i])
}

/// `LIKE` compares characters symmetrically: `a` matches `b` exactly when
/// `b` matches `a`.
pub proof fn law_like_char_eq_symmetric(a: char, b: char)
    ensures
        like_char_eq(a, b) == like_char_eq(b, a),
{
}

/// `LIKE` takes an ASCII letter and the same letter in the other case as
/// equal, and compares any character the same way with either of them.
pub proof fn law_like_char_eq_ignores_case(p: char, a: char, b: char)
    requires
        a == b || other_case(a, b),
    ensures
        like_char_eq(a, b),
        like_char_eq(b, a),
        like_char_eq(p, a) == like_char_eq(p, b),
        like_char_eq(a, p) == like_char_eq(b, p),
{
}

proof fn lemma_same_but_case_tail(s: Seq<char>, t: Seq<char>)
    requires
        same_but_case(s, t),
        s.len() > 0,
    ensures
        same_but_case(s.drop_first(), t.drop_first()),
        s[0] == t[0] || other_case(s[0], t[0]),
{
    assert forall|i: int| 0 <= i < s.drop_first().len() implies #[trigger] s.drop_first()[i] == t.drop_first()[i]
        || other_case(s.drop_first()[i], t.drop_first()[i]) by {
        assert(s.drop_first()[i] == s[i + 1]);
        assert(t.drop_first()[i] == t[i + 1]);
    }
}

/// Whether a text matches a `LIKE` pattern does not change when ASCII
/// letters of the text change case.
pub proof fn law_like_match_ignores_text_case(p: Seq<char>, t: Seq<char>, t2: Seq<char>)
    requires
        same_but_case(t, t2),
    ensures
        like_match(p, t) == like_match(p, t2),
    decreases p.len(), t.len(),
{
    if p.len() == 0 {
    } else if p[0] == '%' {
        law_like_match_ignores_text_case(p.drop_first(), t, t2);
        if t.len() > 0 {
            lemma_same_but_case_tail(t, t2);
            law_like_match_ignores_text_case(p, t.drop_first(), t2.drop_first());
        }
    } else if t.len() == 0 {
    } else {
        lemma_same_but_case_tail(t, t2);
        law_like_char_eq_ignores_case(p[0], t[0], t2[0]);
        law_like_match_ignores_text_case(p.drop_first(), t.drop_first(), t2.drop_first());
    }
}

/// Whether a text matches a `LIKE` pattern does not change when ASCII
/// letters of the pattern change case.
pub proof fn law_like_match_ignores_pattern_case(p: Seq<char>, p2: Seq<char>, t: Seq<char>)
    requires
        same_but_case(p, p2),
    ensures
        like_match(p, t) == like_match(p2, t),
    decreases p.len(), t.len(),
{
    if p.len() == 0 {
    } else {
        lemma_same_but_case_tail(p, p2);
        if p[0] == '%' {
            law_like_match_ignores_pattern_case(p.drop_first(), p2.drop_first(), t);
            if t.len() > 0 {
                law_like_match_ignores_pattern_case(p, p2, t.drop_first());
            }
        } else if t.len() == 0 {
        } else {
            law_like_char_eq_ignores_case(t[0], p[0], p2[0]);
            law_like_match_ignores_pattern_case(p.drop_first(), p2.drop_first(), t.drop_first());
        }
    }
}

/// `%q%` patterns of two queries that differ only in case differ only in
/// case.
pub proof fn lemma_infix_same_but_case(q: Seq<char>, q2: Seq<char>)
    requires
        same_but_case(q, q2),
    ensures
        same_but_case(infix_pattern(q), infix_pattern(q2)),
{
    let a = infix_pattern(q);
    let b = infix_pattern(q2);
    assert forall|i: int| 0 <= i < a.len() implies #[trigger] a[i] == b[i] || other_case(a[i], b[i]) by {
        if 1 <= i <= q.len() {
            assert(a[i] == q[i - 1] && b[i] == q2[i - 1]);
        }
    }
}

} // verus!
