//! The issue log: problems met while working, with their solutions, found
//! again by keyword, task and category.
use vstd::prelude::*;

use crate::db::memories::{clone_opt, limited, opt_view, StoreError};
use crate::db::order::{distinct_idents, lemma_filter_distinct, newest_first, sort_newest_first, Dated};
use crate::query::{sanitize_fts_query, sanitized};
use crate::seqs::{lemma_filter_all, lemma_filter_none, lemma_filter_take_step};
use crate::text::{chars_of, infix_pattern, like_infix, like_match, owned, str_eq};

verus! {

broadcast use {vstd::seq_lib::group_seq_properties, vstd::seq::group_seq_axioms};

/// A reported issue.  `issue_id` is its public identifier; `id` its row id.
#[derive(Debug)]
pub struct Issue {
    pub id: i64,
    pub issue_id: String,
    pub category: String,
    pub task: Option<String>,
    pub scenario: String,
    pub solution: String,
    pub related_api: Option<String>,
    pub frequency: String,
    pub created_at: String,
}

impl Clone for Issue {
    fn clone(&self) -> (r: Self)
        ensures
            r == *self,
    {
        Issue {
            id: self.id,
            issue_id: self.issue_id.clone(),
            category: self.category.clone(),
            task: clone_opt(&self.task),
            scenario: self.scenario.clone(),
            solution: self.solution.clone(),
            related_api: clone_opt(&self.related_api),
            frequency: self.frequency.clone(),
            created_at: self.created_at.clone(),
        }
    }
}

impl Dated for Issue {
    open spec fn created(&self) -> Seq<char> {
        self.created_at@
    }

    open spec fn ident(&self) -> int {
        self.id as int
    }

    fn created_text(&self) -> (r: &str) {
        self.created_at.as_str()
    }

    fn ident_value(&self) -> (r: i64) {
        self.id
    }
}

/// An issue matches a search: where the cleaned query is not empty, its
/// scenario, solution or public id match `%query%`; where a task or a
/// category is given, it has exactly that task or category.
pub open spec fn issue_hit(
    i: Issue,
    safe_query: Seq<char>,
    task: Option<Seq<char>>,
    category: Option<Seq<char>>,
) -> bool {
    &&& safe_query.len() == 0 || like_match(infix_pattern(safe_query), i.scenario@) || like_match(
        infix_pattern(safe_query),
        i.solution@,
    ) || like_match(infix_pattern(safe_query), i.issue_id@)
    &&& match task {
        Some(t) => opt_view(i.task) == Some(t),
        None => true,
    }
    &&& match category {
        Some(c) => i.category@ == c,
        None => true,
    }
}

pub open spec fn issue_filter(
    safe_query: Seq<char>,
    task: Option<Seq<char>>,
    category: Option<Seq<char>>,
) -> spec_fn(Issue) -> bool {
    |i: Issue| issue_hit(i, safe_query, task, category)
}

/// What a search returns: the matching issues, newest first, at most
/// `limit` of them.
pub open spec fn issue_selection(
    rows: Seq<Issue>,
    query: Seq<char>,
    task: Option<Seq<char>>,
    category: Option<Seq<char>>,
    limit: i64,
) -> Seq<Issue> {
    limited(newest_first(rows.filter(issue_filter(sanitized(query), task, category))), limit)
}

pub open spec fn str_opt_view(o: Option<&str>) -> Option<Seq<char>> {
    match o {
        Some(s) => Some(s@),
        None => None,
    }
}

/// Row ids from 1 on, strictly increasing, none above `last_id`; no two
/// issues share a public id.
pub open spec fn issues_well_formed(rows: Seq<Issue>, last_id: i64) -> bool {
    &&& 0 <= last_id
    &&& forall|i: int| 0 <= i < rows.len() ==> 1 <= #[trigger] rows[i].id <= last_id
    &&& forall|i: int, j: int| 0 <= i < j < rows.len() ==> #[trigger] rows[i].id < #[trigger] rows[j].id
    &&& forall|i: int, j: int|
        0 <= i < j < rows.len() ==> #[trigger] rows[i].issue_id@ != #[trigger] rows[j].issue_id@
}

/// Some issue has the public id `issue_id`.
pub open spec fn has_issue_id(rows: Seq<Issue>, issue_id: Seq<char>) -> bool {
    exists|i: int| 0 <= i < rows.len() && #[trigger] rows[i].issue_id@ == issue_id
}

pub open spec fn issue_row_is_not(id: i64) -> spec_fn(Issue) -> bool {
    |i: Issue| i.id != id
}

/// The issue log, in id order.
pub struct IssueLog {
    pub(crate) issues: Vec<Issue>,
    pub(crate) last_id: i64,
}

impl IssueLog {
    /// The issues, in id order.
    pub closed spec fn rows(&self) -> Seq<Issue> {
        self.issues@
    }

    /// The highest row id ever handed out (0 when none was).
    pub closed spec fn last_id(&self) -> i64 {
        self.last_id
    }

    /// The highest id handed out so far (0 before the first).
    pub fn last_id_value(&self) -> (r: i64)
        ensures
            r == self.last_id(),
    {
        self.last_id
    }

    pub open spec fn wf(&self) -> bool {
        issues_well_formed(self.rows(), self.last_id())
    }

    /// An empty log.
    pub fn new() -> (r: IssueLog)
        ensures
            r.wf(),
            r.rows() == Seq::<Issue>::empty(),
            r.last_id() == 0,
    {
        IssueLog { issues: Vec::new(), last_id: 0 }
    }

    /// Whether some issue has the public id `issue_id`.
    fn has_public_id(&self, issue_id: &str) -> (r: bool)
        ensures
            r == has_issue_id(self.rows(), issue_id@),
    {
        let mut i: usize = 0;
        while i < self.issues.len()
            invariant
                0 <= i <= self.issues@.len(),
                forall|k: int| 0 <= k < i ==> #[trigger] self.issues@[k].issue_id@ != issue_id@,
            decreases self.issues@.len() - i,
        {
            if str_eq(self.issues[i].issue_id.as_str(), issue_id) {
                return true;
            }
            i = i + 1;
        }
        false
    }

    /// Records an issue under the public id `issue_id`, with frequency
    /// `low`, giving it the row id after the highest one ever handed out.
    /// Fails, changing nothing, once `i64::MAX` has been handed out, or
    /// else when the public id is taken; succeeds otherwise.
    pub fn report_issue(
        &mut self,
        issue_id: &str,
        category: &str,
        task: Option<&str>,
        scenario: &str,
        solution: &str,
        related_api: Option<&str>,
        now: &str,
    ) -> (r: Result<i64, StoreError>)
        requires
            old(self).wf(),
        ensures
            final(self).wf(),
            old(self).last_id() == i64::MAX ==> r == Err::<i64, StoreError>(StoreError::IdsExhausted),
            old(self).last_id() < i64::MAX && has_issue_id(old(self).rows(), issue_id@) ==> r == Err::<
                i64,
                StoreError,
            >(StoreError::DuplicateIssueId),
            old(self).last_id() < i64::MAX && !has_issue_id(old(self).rows(), issue_id@) ==> r is Ok,
            r is Err ==> final(self).rows() == old(self).rows() && final(self).last_id() == old(
                self,
            ).last_id(),
            r is Ok ==> {
                &&& old(self).last_id() < i64::MAX
                &&& !has_issue_id(old(self).rows(), issue_id@)
                &&& r == Ok::<i64, StoreError>((old(self).last_id() + 1) as i64)
                &&& final(self).last_id() == old(self).last_id() + 1
                &&& final(self).rows().drop_last() == old(self).rows()
                &&& final(self).rows().len() == old(self).rows().len() + 1
                &&& final(self).rows().last().id == old(self).last_id() + 1
                &&& final(self).rows().last().issue_id@ == issue_id@
                &&& final(self).rows().last().category@ == category@
                &&& opt_view(final(self).rows().last().task) == str_opt_view(task)
                &&& final(self).rows().last().scenario@ == scenario@
                &&& final(self).rows().last().solution@ == solution@
                &&& opt_view(final(self).rows().last().related_api) == str_opt_view(related_api)
                &&& final(self).rows().last().frequency@ == "low"@
                &&& final(self).rows().last().created_at@ == now@
            },
    {
        if self.last_id == i64::MAX {
            return Err(StoreError::IdsExhausted);
        }
        if self.has_public_id(issue_id) {
            return Err(StoreError::DuplicateIssueId);
        }
        let id = self.last_id + 1;
        let issue = Issue {
            id,
            issue_id: owned(issue_id),
            category: owned(category),
            task: match task {
                Some(t) => Some(owned(t)),
                None => None,
            },
            scenario: owned(scenario),
            solution: owned(solution),
            related_api: match related_api {
                Some(t) => Some(owned(t)),
                None => None,
            },
            frequency: owned("low"),
            created_at: owned(now),
        };
        let ghost before = self.issues@;
        let ghost old_last = self.last_id;
        let ghost added = issue;
        self.issues.push(issue);
        self.last_id = id;
        assert(self.issues@.drop_last() =~= before);
        assert forall|i: int| 0 <= i < self.issues@.len() implies 1 <= #[trigger] self.issues@[i].id
            <= self.last_id by {
            if i < before.len() {
                assert(self.issues@[i] == before[i]);
                assert(1 <= before[i].id <= old_last);
            } else {
                assert(self.issues@[i] == added);
            }
        }
        assert forall|i: int, k: int| 0 <= i < k < self.issues@.len() implies #[trigger] self.issues@[i].id
            < #[trigger] self.issues@[k].id by {
            assert(self.issues@[i] == before[i]);
            if k < before.len() {
                assert(self.issues@[k] == before[k]);
            }
        }
        assert forall|i: int, k: int| 0 <= i < k < self.issues@.len() implies #[trigger] self.issues@[i].issue_id@
            != #[trigger] self.issues@[k].issue_id@ by {
            assert(self.issues@[i] == before[i]);
            if k < before.len() {
                assert(self.issues@[k] == before[k]);
            } else {
                assert(self.issues@[k] == added);
            }
        }
        Ok(id)
    }

    /// Appends an issue read back from disk; refused (false, nothing
    /// changed) unless its row id is above every row id in the log and its
    /// public id is new.
    pub fn load_row(&mut self, issue: Issue) -> (r: bool)
        requires
            old(self).wf(),
        ensures
            final(self).wf(),
            r == (issue.id >= 1 && (forall|i: int|
                0 <= i < old(self).rows().len() ==> #[trigger] old(self).rows()[i].id < issue.id)
                && !has_issue_id(old(self).rows(), issue.issue_id@)),
            r ==> final(self).rows() == old(self).rows().push(issue) && final(self).last_id() == if issue.id
                > old(self).last_id() {
                issue.id
            } else {
                old(self).last_id()
            },
            !r ==> final(self).rows() == old(self).rows() && final(self).last_id() == old(self).last_id(),
    {
        let n = self.issues.len();
        if issue.id < 1 || (n > 0 && self.issues[n - 1].id >= issue.id) {
            return false;
        }
        if self.has_public_id(issue.issue_id.as_str()) {
            return false;
        }
        if issue.id > self.last_id {
            self.last_id = issue.id;
        }
        self.issues.push(issue);
        true
    }

    /// Raises the highest row id handed out to `seq`; a lower value changes
    /// nothing.
    pub fn note_sequence(&mut self, seq: i64)
        requires
            old(self).wf(),
        ensures
            final(self).wf(),
            final(self).rows() == old(self).rows(),
            final(self).last_id() == if seq > old(self).last_id() {
                seq
            } else {
                old(self).last_id()
            },
    {
        if seq > self.last_id {
            self.last_id = seq;
        }
    }

    /// Every issue, in id order.
    pub fn all_rows(&self) -> (r: Vec<Issue>)
        ensures
            r@ == self.rows(),
    {
        let mut out: Vec<Issue> = Vec::new();
        let mut i: usize = 0;
        while i < self.issues.len()
            invariant
                0 <= i <= self.issues@.len(),
                out@ == self.issues@.take(i as int),
            decreases self.issues@.len() - i,
        {
            out.push(self.issues[i].clone());
            i = i + 1;
            assert(out@ =~= self.issues@.take(i as int));
        }
        assert(self.issues@.take(self.issues@.len() as int) =~= self.issues@);
        out
    }

    /// Finds issues by keyword, task and category (see `issue_selection`),
    /// newest first.
    pub fn search_issues(&self, query: &str, task: Option<&str>, category: Option<&str>, limit: i64) -> (r: Vec<Issue>)
        requires
            self.wf(),
        ensures
            r@ == issue_selection(
                self.rows(),
                query@,
                str_opt_view(task),
                str_opt_view(category),
                limit,
            ),
    {
        let safe = sanitize_fts_query(query);
        let safe_len = chars_of(safe.as_str()).len();
        let ghost p = issue_filter(sanitized(query@), str_opt_view(task), str_opt_view(category));
        let mut hits: Vec<Issue> = Vec::new();
        let mut i: usize = 0;
        while i < self.issues.len()
            invariant
                0 <= i <= self.issues@.len(),
                p == issue_filter(sanitized(query@), str_opt_view(task), str_opt_view(category)),
                safe@ == sanitized(query@),
                safe_len == safe@.len(),
                hits@ == self.issues@.take(i as int).filter(p),
            decreases self.issues@.len() - i,
        {
            proof {
                lemma_filter_take_step(self.issues@, p, i as int);
            }
            let it = &self.issues[i];
            let text_hit = safe_len == 0 || like_infix(safe.as_str(), it.scenario.as_str())
                || like_infix(safe.as_str(), it.solution.as_str()) || like_infix(
                safe.as_str(),
                it.issue_id.as_str(),
            );
            let task_hit = match task {
                Some(t) => match &it.task {
                    Some(own) => str_eq(own.as_str(), t),
                    None => false,
                },
                None => true,
            };
            let category_hit = match category {
                Some(c) => str_eq(it.category.as_str(), c),
                None => true,
            };
            if text_hit && task_hit && category_hit {
                hits.push(it.clone());
            }
            i = i + 1;
        }
        assert(self.issues@.take(self.issues@.len() as int) =~= self.issues@);
        proof {
            assert(distinct_idents(self.issues@)) by {
                assert forall|a: int, b: int| 0 <= a < b < self.issues@.len() implies #[trigger] self.issues@[a].ident()
                    != #[trigger] self.issues@[b].ident() by {
                    assert(self.issues@[a].id < self.issues@[b].id);
                }
            }
            lemma_filter_distinct(self.issues@, p);
        }
        let mut sorted = sort_newest_first(hits);
        if limit >= 0 && (limit as u64) < (sorted.len() as u64) {
            sorted.truncate(limit as usize);
        }
        sorted
    }

    /// Deletes the issue with row id `id`, if there is one.
    pub fn delete_issue(&mut self, id: i64)
        requires
            old(self).wf(),
        ensures
            final(self).wf(),
            final(self).rows() == old(self).rows().filter(issue_row_is_not(id)),
            final(self).last_id() == old(self).last_id(),
    {
        let ghost before = self.issues@;
        let ghost p = issue_row_is_not(id);
        let ghost last = self.last_id;
        let mut i: usize = 0;
        while i < self.issues.len()
            invariant
                0 <= i <= self.issues@.len(),
                self.issues@ == before,
                self.last_id == last,
                before == old(self).issues@,
                last == old(self).last_id,
                p == issue_row_is_not(id),
                issues_well_formed(before, last),
                forall|k: int| 0 <= k < i ==> #[trigger] before[k].id != id,
            decreases self.issues@.len() - i,
        {
            if self.issues[i].id == id {
                proof {
                    let a = before.take(i as int);
                    let b = seq![before[i as int]];
                    let c = before.skip(i + 1);
                    assert(before =~= a + b + c);
                    Seq::filter_distributes_over_add(a + b, c, p);
                    Seq::filter_distributes_over_add(a, b, p);
                    assert forall|k: int| 0 <= k < a.len() implies p(#[trigger] a[k]) by {}
                    assert forall|k: int| 0 <= k < c.len() implies p(#[trigger] c[k]) by {
                        assert(before[i as int].id < before[k + i + 1].id);
                    }
                    lemma_filter_all(a, p);
                    lemma_filter_all(c, p);
                    lemma_filter_none(b, p);
                    assert(a + Seq::<Issue>::empty() =~= a);
                    assert(before.filter(p) == a + c);
                }
                self.issues.remove(i);
                assert(self.issues@ =~= before.take(i as int) + before.skip(i + 1));
                assert forall|a: int, b: int| 0 <= a < b < self.issues@.len() implies #[trigger] self.issues@[a].id
                    < #[trigger] self.issues@[b].id && self.issues@[a].issue_id@
                    != self.issues@[b].issue_id@ by {
                    let a0 = if a < i { a } else { a + 1 };
                    let b0 = if b < i { b } else { b + 1 };
                    assert(self.issues@[a] == before[a0]);
                    assert(self.issues@[b] == before[b0]);
                }
                assert forall|a: int| 0 <= a < self.issues@.len() implies 1 <= #[trigger] self.issues@[a].id
                    <= self.last_id by {
                    let a0 = if a < i { a } else { a + 1 };
                    assert(self.issues@[a] == before[a0]);
                }
                assert(self.issues@ == before.filter(p));
                return;
            }
            i = i + 1;
        }
        proof {
            assert forall|k: int| 0 <= k < before.len() implies p(#[trigger] before[k]) by {}
            lemma_filter_all(before, p);
        }
    }
}

/// A search without a limit finds every issue that matches it.
pub proof fn law_search_finds_what_matches(
    rows: Seq<Issue>,
    last_id: i64,
    query: Seq<char>,
    task: Option<Seq<char>>,
    category: Option<Seq<char>>,
    issue: Issue,
)
    requires
        issues_well_formed(rows, last_id),
        rows.contains(issue),
        issue_hit(issue, sanitized(query), task, category),
    ensures
        issue_selection(rows, query, task, category, -1i64).contains(issue),
{
    let p = issue_filter(sanitized(query), task, category);
    assert(distinct_idents(rows)) by {
        assert forall|a: int, b: int| 0 <= a < b < rows.len() implies #[trigger] rows[a].ident()
            != #[trigger] rows[b].ident() by {
            assert(rows[a].id < rows[b].id);
        }
    }
    lemma_filter_distinct(rows, p);
    crate::seqs::lemma_filter_contains_iff(rows, p, issue);
    crate::db::order::lemma_newest_first_props(rows.filter(p));
}

} // verus!
