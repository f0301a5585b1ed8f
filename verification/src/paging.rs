//! Pages of the lists the web administration shows: which page and how
//! many rows per page a request asks for, and the rows on that page.
use vstd::prelude::*;

use crate::db::{Issue, Memory, Skill};

verus! {

broadcast use {vstd::seq_lib::group_seq_properties, vstd::seq::group_seq_axioms};

/// A positive number asked for, else `default`.
pub open spec fn positive_or(n: Option<i64>, default: usize) -> usize {
    match n {
        Some(p) => if p > 0 {
            #[verifier::truncate]
            (p as usize)
        } else {
            default
        },
        None => default,
    }
}

/// The page and the page size a request asks for: page 1 and 20 rows
/// where it asks for none, or for a number that is not positive.
pub fn parse_pagination(page: Option<i64>, size: Option<i64>) -> (r: (usize, usize))
    ensures
        r.0 == positive_or(page, 1),
        r.1 == positive_or(size, 20),
{
    let p: usize = match page {
        Some(p) => if p > 0 {
            #[verifier::truncate]
            (p as usize)
        } else {
            1
        },
        None => 1,
    };
    let s: usize = match size {
        Some(s) => if s > 0 {
            #[verifier::truncate]
            (s as usize)
        } else {
            20
        },
        None => 20,
    };
    (p, s)
}

/// The first row of page `page` (counted from 1) of `size` rows.
pub open spec fn page_start(page: usize, size: usize) -> int {
    (page - 1) * size
}

/// The rows of `items` on page `page` of `size` rows each: none past the
/// end, else those from the page's first row to the end of the page or of
/// the list.
pub open spec fn page_rows<T>(items: Seq<T>, page: usize, size: usize) -> Seq<T> {
    let start = page_start(page, size);
    if start >= items.len() {
        Seq::empty()
    } else if start + size <= items.len() {
        items.subrange(start, start + size)
    } else {
        items.subrange(start, items.len() as int)
    }
}

/// The page can be computed in machine numbers: pages count from 1 and
/// the index of the page's first row fits in a `usize` (the list's length
/// does not matter; it stays in the contracts that take it).
pub open spec fn page_fits(total: nat, page: usize, size: usize) -> bool {
    &&& page >= 1
    &&& page_start(page, size) <= usize::MAX
}

fn page_bounds(total: usize, page: usize, size: usize) -> (r: Option<(usize, usize)>)
    requires
        page_fits(total as nat, page, size),
    ensures
        page_start(page, size) >= total ==> r is None,
        page_start(page, size) < total ==> (r matches Some((a, b)) && a == page_start(page, size) && b
            == if page_start(page, size) + size <= total {
            page_start(page, size) + size
        } else {
            total as int
        }),
{
    let start = (page - 1) * size;
    if start >= total {
        return None;
    }
    let end = if size <= total - start {
        start + size
    } else {
        total
    };
    Some((start, end))
}

/// One page of the skills, and how many skills there are in all.
pub fn paginate_skills(skills: Vec<Skill>, page: usize, size: usize) -> (r: (Vec<Skill>, usize))
    requires
        page_fits(skills@.len(), page, size),
    ensures
        r.1 == skills@.len(),
        r.0@ == page_rows(skills@, page, size),
{
    let total = skills.len();
    match page_bounds(total, page, size) {
        None => (Vec::new(), total),
        Some((a, b)) => {
            let mut out: Vec<Skill> = Vec::new();
            let mut i: usize = a;
            while i < b
                invariant
                    a <= i <= b <= skills@.len(),
                    out@ == skills@.subrange(a as int, i as int),
                decreases b - i,
            {
                out.push(skills[i].clone());
                i = i + 1;
                assert(out@ =~= skills@.subrange(a as int, i as int));
            }
            (out, total)
        },
    }
}

/// One page of the notes, and how many notes there are in all.
pub fn paginate_memories(memories: Vec<Memory>, page: usize, size: usize) -> (r: (Vec<Memory>, usize))
    requires
        page_fits(memories@.len(), page, size),
    ensures
        r.1 == memories@.len(),
        r.0@ == page_rows(memories@, page, size),
{
    let total = memories.len();
    match page_bounds(total, page, size) {
        None => (Vec::new(), total),
        Some((a, b)) => {
            let mut out: Vec<Memory> = Vec::new();
            let mut i: usize = a;
            while i < b
                invariant
                    a <= i <= b <= memories@.len(),
                    out@ == memories@.subrange(a as int, i as int),
                decreases b - i,
            {
                out.push(memories[i].clone());
                i = i + 1;
                assert(out@ =~= memories@.subrange(a as int, i as int));
            }
            (out, total)
        },
    }
}

/// One page of the issues, and how many issues there are in all.
pub fn paginate_issues(issues: Vec<Issue>, page: usize, size: usize) -> (r: (Vec<Issue>, usize))
    requires
        page_fits(issues@.len(), page, size),
    ensures
        r.1 == issues@.len(),
        r.0@ == page_rows(issues@, page, size),
{
    let total = issues.len();
    match page_bounds(total, page, size) {
        None => (Vec::new(), total),
        Some((a, b)) => {
            let mut out: Vec<Issue> = Vec::new();
            let mut i: usize = a;
            while i < b
                invariant
                    a <= i <= b <= issues@.len(),
                    out@ == issues@.subrange(a as int, i as int),
                decreases b - i,
            {
                out.push(issues[i].clone());
                i = i + 1;
                assert(out@ =~= issues@.subrange(a as int, i as int));
            }
            (out, total)
        },
    }
}

/// Every row of a list is on exactly one page: row `i` is the row
/// `i % size` of page `i / size + 1`.
pub proof fn law_row_on_its_page<T>(items: Seq<T>, size: usize, i: int)
    requires
        size >= 1,
        0 <= i < items.len(),
        i / (size as int) + 1 <= usize::MAX,
    ensures
        ({
            let page = (i / (size as int) + 1) as usize;
            &&& i % (size as int) < page_rows(items, page, size).len()
            &&& page_rows(items, page, size)[i % (size as int)] == items[i]
        }),
{
    let s = size as int;
    let page = (i / s + 1) as usize;
    assert(i == (i / s) * s + i % s) by (nonlinear_arith)
        requires
            s >= 1,
    ;
    assert(0 <= i % s < s) by (nonlinear_arith)
        requires
            s >= 1,
    ;
    assert(page_start(page, size) == (i / s) * s) by (nonlinear_arith)
        requires
            page == i / s + 1,
            s == size,
            s >= 1,
            i >= 0,
    ;
}

} // verus!
