//! Newest-first ordering of dated records: by creation time, latest first,
//! records created at the same time by id, highest first.
use vstd::prelude::*;

use crate::seqs::{lemma_filter_contains_iff, lemma_filter_prefix, lemma_filter_suffix};
use crate::text::{
    chars_of, lemma_text_lt_irreflexive, lemma_text_lt_total,
    lemma_text_lt_transitive, seq_eq, seq_lt, text_lt,
};

verus! {

broadcast use {vstd::seq_lib::group_seq_properties, vstd::seq::group_seq_axioms};

/// A record with a creation time and an id.
pub trait Dated: Sized {
    spec fn created(&self) -> Seq<char>;

    spec fn ident(&self) -> int;

    fn created_text(&self) -> (r: &str)
        ensures
            r@ == self.created(),
    ;

    fn ident_value(&self) -> (r: i64)
        ensures
            r as int == self.ident(),
    ;
}

/// `a` comes before `b` newest first: it was created later, or at the same
/// time with a higher id.
pub open spec fn newer<T: Dated>(a: T, b: T) -> bool {
    ||| text_lt(b.created(), a.created())
    ||| (a.created() == b.created() && a.ident() > b.ident())
}

/// No two records share an id.
pub open spec fn distinct_idents<T: Dated>(s: Seq<T>) -> bool {
    forall|i: int, j: int| 0 <= i < j < s.len() ==> #[trigger] s[i].ident() != #[trigger] s[j].ident()
}

/// Records in strictly newest-first order.
pub open spec fn sorted_newest_first<T: Dated>(s: Seq<T>) -> bool {
    forall|i: int, j: int| 0 <= i < j < s.len() ==> newer(#[trigger] s[i], #[trigger] s[j])
}

/// `x` placed among newest-first records.
pub open spec fn insert_newest<T: Dated>(sorted: Seq<T>, x: T) -> Seq<T> {
    sorted.filter(|y: T| newer(y, x)) + seq![x] + sorted.filter(|y: T| newer(x, y))
}

/// The records of `s`, newest first.
pub open spec fn newest_first<T: Dated>(s: Seq<T>) -> Seq<T>
    decreases s.len(),
{
    if s.len() == 0 {
        s
    } else {
        insert_newest(newest_first(s.drop_last()), s.last())
    }
}

pub proof fn lemma_newer_irreflexive<T: Dated>(a: T)
    ensures
        !newer(a, a),
{
    lemma_text_lt_irreflexive(a.created());
}

pub proof fn lemma_newer_transitive<T: Dated>(a: T, b: T, c: T)
    requires
        newer(a, b),
        newer(b, c),
    ensures
        newer(a, c),
{
    if text_lt(b.created(), a.created()) && text_lt(c.created(), b.created()) {
        lemma_text_lt_transitive(c.created(), b.created(), a.created());
    }
}

pub proof fn lemma_newer_total<T: Dated>(a: T, b: T)
    requires
        a.ident() != b.ident(),
    ensures
        newer(a, b) || newer(b, a),
{
    lemma_text_lt_total(a.created(), b.created());
}

pub proof fn lemma_newer_asymmetric<T: Dated>(a: T, b: T)
    requires
        newer(a, b),
    ensures
        !newer(b, a),
{
    if newer(b, a) {
        lemma_newer_transitive(a, b, a);
        lemma_newer_irreflexive(a);
    }
}

/// Inserting at the first position whose record is older.
proof fn lemma_insert_newest_at<T: Dated>(s: Seq<T>, x: T, k: int)
    requires
        sorted_newest_first(s),
        forall|j: int| 0 <= j < s.len() ==> (#[trigger] s[j]).ident() != x.ident(),
        0 <= k <= s.len(),
        forall|j: int| 0 <= j < k ==> newer(#[trigger] s[j], x),
        k < s.len() ==> !newer(s[k], x),
    ensures
        insert_newest(s, x) == s.insert(k, x),
        sorted_newest_first(s.insert(k, x)),
{
    let before = |y: T| newer(y, x);
    let after = |y: T| newer(x, y);
    assert forall|j: int| k <= j < s.len() implies !before(#[trigger] s[j]) by {
        if j > k && newer(s[j], x) {
            lemma_newer_transitive(s[k], s[j], x);
        }
    }
    assert forall|j: int| k <= j < s.len() implies after(#[trigger] s[j]) by {
        lemma_newer_total(s[k], x);
        if j > k {
            lemma_newer_transitive(x, s[k], s[j]);
        }
    }
    assert forall|j: int| 0 <= j < k implies !after(#[trigger] s[j]) by {
        lemma_newer_asymmetric(s[j], x);
    }
    lemma_filter_prefix(s, before, k);
    lemma_filter_suffix(s, after, k);
    assert(s.insert(k, x) =~= s.take(k) + seq![x] + s.skip(k));
    let r = s.insert(k, x);
    assert forall|a: int, b: int| 0 <= a < b < r.len() implies newer(#[trigger] r[a], #[trigger] r[b]) by {
        if b < k {
            assert(r[a] == s[a] && r[b] == s[b]);
        } else if b == k {
            assert(r[a] == s[a]);
        } else if a == k {
            assert(r[b] == s[b - 1]);
            assert(after(s[b - 1]));
        } else if a < k {
            assert(r[a] == s[a] && r[b] == s[b - 1]);
        } else {
            assert(r[a] == s[a - 1] && r[b] == s[b - 1]);
        }
    }
}

/// `newest_first` yields records in newest-first order, each record of the
/// input exactly once.
pub proof fn lemma_newest_first_props<T: Dated>(s: Seq<T>)
    requires
        distinct_idents(s),
    ensures
        sorted_newest_first(newest_first(s)),
        newest_first(s).len() == s.len(),
        forall|x: T| newest_first(s).contains(x) <==> s.contains(x),
    decreases s.len(),
{
    if s.len() > 0 {
        let r = s.drop_last();
        let x = s.last();
        assert(distinct_idents(r)) by {
            assert forall|i: int, j: int| 0 <= i < j < r.len() implies #[trigger] r[i].ident()
                != #[trigger] r[j].ident() by {
                assert(r[i] == s[i] && r[j] == s[j]);
            }
        }
        lemma_newest_first_props(r);
        let sr = newest_first(r);
        assert forall|j: int| 0 <= j < sr.len() implies (#[trigger] sr[j]).ident() != x.ident() by {
            assert(sr.contains(sr[j]));
            assert(r.contains(sr[j]));
            let q = choose|q: int| 0 <= q < r.len() && r[q] == sr[j];
            assert(s[q] == sr[j]);
            assert(s[q].ident() != s[s.len() - 1].ident());
        }
        let k = lemma_first_not_newer(sr, x);
        lemma_insert_newest_at(sr, x, k);
        assert forall|y: T| newest_first(s).contains(y) <==> s.contains(y) by {
            assert(newest_first(s) == sr.insert(k, x));
            if sr.insert(k, x).contains(y) {
                let q = choose|q: int| 0 <= q < sr.insert(k, x).len() && sr.insert(k, x)[q] == y;
                if q < k {
                    assert(sr.contains(sr[q]));
                } else if q > k {
                    assert(sr.contains(sr[q - 1]));
                }
                if y != x {
                    assert(r.contains(y));
                    let w = choose|w: int| 0 <= w < r.len() && r[w] == y;
                    assert(s[w] == y);
                }
                assert(s[s.len() - 1] == x);
            }
            if s.contains(y) {
                let w = choose|w: int| 0 <= w < s.len() && s[w] == y;
                if w == s.len() - 1 {
                    assert(sr.insert(k, x)[k] == x);
                } else {
                    assert(r[w] == y);
                    assert(sr.contains(y));
                    let q = choose|q: int| 0 <= q < sr.len() && sr[q] == y;
                    if q < k {
                        assert(sr.insert(k, x)[q] == y);
                    } else {
                        assert(sr.insert(k, x)[q + 1] == y);
                    }
                }
            }
        }
    }
}

/// The first position whose record is not newer than `x`.
proof fn lemma_first_not_newer<T: Dated>(s: Seq<T>, x: T) -> (k: int)
    requires
        sorted_newest_first(s),
    ensures
        0 <= k <= s.len(),
        forall|j: int| 0 <= j < k ==> newer(#[trigger] s[j], x),
        k < s.len() ==> !newer(s[k], x),
    decreases s.len(),
{
    if s.len() == 0 {
        return 0;
    }
    let r = s.drop_last();
    assert(sorted_newest_first(r)) by {
        assert forall|i: int, j: int| 0 <= i < j < r.len() implies newer(#[trigger] r[i], #[trigger] r[j]) by {
            assert(r[i] == s[i] && r[j] == s[j]);
        }
    }
    let k0 = lemma_first_not_newer(r, x);
    if k0 < r.len() {
        assert(r[k0] == s[k0]);
        assert forall|j: int| 0 <= j < k0 implies newer(#[trigger] s[j], x) by {
            assert(r[j] == s[j]);
        }
        k0
    } else if newer(s.last(), x) {
        assert forall|j: int| 0 <= j < s.len() implies newer(#[trigger] s[j], x) by {
            if j < s.len() - 1 {
                assert(r[j] == s[j]);
            }
        }
        s.len() as int
    } else {
        assert forall|j: int| 0 <= j < k0 implies newer(#[trigger] s[j], x) by {
            assert(r[j] == s[j]);
        }
        k0
    }
}

/// A filter of records with distinct ids has distinct ids.
pub proof fn lemma_filter_distinct<T: Dated>(s: Seq<T>, p: spec_fn(T) -> bool)
    requires
        distinct_idents(s),
    ensures
        distinct_idents(s.filter(p)),
    decreases s.len(),
{
    reveal(Seq::filter);
    if s.len() > 0 {
        let r = s.drop_last();
        assert(distinct_idents(r)) by {
            assert forall|i: int, j: int| 0 <= i < j < r.len() implies #[trigger] r[i].ident()
                != #[trigger] r[j].ident() by {
                assert(r[i] == s[i] && r[j] == s[j]);
            }
        }
        lemma_filter_distinct(r, p);
        let f = r.filter(p);
        if p(s.last()) {
            let g = f.push(s.last());
            assert forall|i: int, j: int| 0 <= i < j < g.len() implies #[trigger] g[i].ident()
                != #[trigger] g[j].ident() by {
                if j == f.len() {
                    assert(f.contains(f[i]));
                    lemma_filter_contains_iff(r, p, f[i]);
                    let q = choose|q: int| 0 <= q < r.len() && r[q] == f[i];
                    assert(s[q] == f[i]);
                }
            }
        }
    }
}

/// Whether `a` comes before `b` newest first.
fn is_newer<T: Dated>(a: &T, b: &T) -> (r: bool)
    ensures
        r == newer(*a, *b),
{
    let ca = chars_of(a.created_text());
    let cb = chars_of(b.created_text());
    if seq_lt(&cb, &ca) {
        true
    } else if seq_eq(&ca, &cb) {
        a.ident_value() > b.ident_value()
    } else {
        false
    }
}

/// The records of `items`, newest first.
pub fn sort_newest_first<T: Dated>(items: Vec<T>) -> (r: Vec<T>)
    requires
        distinct_idents(items@),
    ensures
        r@ == newest_first(items@),
{
    let ghost orig = items@;
    let mut rest = items;
    let mut out: Vec<T> = Vec::new();
    let mut i: usize = 0;
    let n = rest.len();
    while i < n
        invariant
            0 <= i <= n,
            n == orig.len(),
            distinct_idents(orig),
            rest@ == orig.skip(i as int),
            out@ == newest_first(orig.take(i as int)),
        decreases n - i,
    {
        let ghost prefix = orig.take(i as int);
        proof {
            assert(distinct_idents(prefix)) by {
                assert forall|a: int, b: int| 0 <= a < b < prefix.len() implies #[trigger] prefix[a].ident()
                    != #[trigger] prefix[b].ident() by {
                    assert(prefix[a] == orig[a] && prefix[b] == orig[b]);
                }
            }
            lemma_newest_first_props(prefix);
        }
        let x = rest.remove(0);
        assert(x == orig[i as int]);
        let mut k: usize = 0;
        while k < out.len()
            invariant
                0 <= k <= out@.len(),
                forall|j: int| 0 <= j < k ==> newer(#[trigger] out@[j], x),
            ensures
                0 <= k <= out@.len(),
                forall|j: int| 0 <= j < k ==> newer(#[trigger] out@[j], x),
                k < out@.len() ==> !newer(out@[k as int], x),
            decreases out@.len() - k,
        {
            if !is_newer(&out[k], &x) {
                break;
            }
            k = k + 1;
        }
        proof {
            let sr = out@;
            assert forall|j: int| 0 <= j < sr.len() implies (#[trigger] sr[j]).ident() != x.ident() by {
                assert(sr.contains(sr[j]));
                assert(prefix.contains(sr[j]));
                let q = choose|q: int| 0 <= q < prefix.len() && prefix[q] == sr[j];
                assert(orig[q] == sr[j]);
                assert(orig[q].ident() != orig[i as int].ident());
            }
            lemma_insert_newest_at(sr, x, k as int);
            assert(orig.take(i + 1).drop_last() =~= prefix);
            assert(orig.take(i + 1).last() == x);
        }
        out.insert(k, x);
        i = i + 1;
        assert(rest@ =~= orig.skip(i as int));
    }
    assert(orig.take(n as int) =~= orig);
    out
}

} // verus!
