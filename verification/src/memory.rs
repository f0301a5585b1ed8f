//! The memory system seen on its own: notes and issues, with the store's
//! refusals given as text.
use vstd::prelude::*;

use crate::db::issues::{issue_selection, str_opt_view};
use crate::db::memories::{
    archive_filter, archived_rows, id_is_not, is_archived_row, memory_ids, memory_rows, opt_view,
    recall_selection, store_error_text, tags_view, touched,
};
use crate::db::{Issue, Memory, MemoryCounts, SkillDb, StoreError};

verus! {

/// Notes and issues over a store.
pub struct MemoryManager {
    pub db: SkillDb,
}

/// A store result with the refusal given as text.
pub open spec fn as_text<T>(r: Result<T, StoreError>) -> Result<T, Seq<char>> {
    match r {
        Ok(v) => Ok(v),
        Err(e) => Err(store_error_text(e)),
    }
}

pub open spec fn text_result<T>(r: Result<T, String>) -> Result<T, Seq<char>> {
    match r {
        Ok(v) => Ok(v),
        Err(e) => Err(e@),
    }
}

fn with_text<T>(r: Result<T, StoreError>) -> (o: Result<T, String>)
    ensures
        text_result(o) == as_text(r),
{
    match r {
        Ok(v) => Ok(v),
        Err(e) => Err(e.message()),
    }
}

impl MemoryManager {
    /// A manager over `db`.
    pub fn new(db: SkillDb) -> (r: MemoryManager)
        ensures
            r.db == db,
    {
        MemoryManager { db }
    }

    /// Remembers a note (see `SkillDb::remember`).
    pub fn remember(&mut self, content: &str, tags: Option<&str>, source: Option<&str>, now: &str) -> (r: Result<i64, String>)
        requires
            old(self).db.wf(),
        ensures
            final(self).db.wf(),
            final(self).db.skills == old(self).db.skills,
            final(self).db.issues == old(self).db.issues,
            old(self).db.memories.last_id() == i64::MAX ==> text_result(r) == Err::<i64, Seq<char>>(
                store_error_text(StoreError::IdsExhausted),
            ) && final(self).db.memories.rows() == old(self).db.memories.rows(),
            old(self).db.memories.last_id() < i64::MAX ==> {
                &&& r == Ok::<i64, String>((old(self).db.memories.last_id() + 1) as i64)
                &&& final(self).db.memories.rows().drop_last() == old(self).db.memories.rows()
                &&& final(self).db.memories.rows().len() == old(self).db.memories.rows().len() + 1
                &&& final(self).db.memories.rows().last().content@ == content@
                &&& opt_view(final(self).db.memories.rows().last().tags) == str_opt_view(tags)
                &&& opt_view(final(self).db.memories.rows().last().source) == str_opt_view(source)
                &&& final(self).db.memories.rows().last().created_at@ == now@
            },
    {
        let r = self.db.remember(content, tags, source, now);
        with_text(r)
    }

    /// Finds notes (see `SkillDb::recall`); never refused.
    pub fn recall(&mut self, query: &str, tags: Option<Vec<String>>, include_archived: bool, limit: i64, now: &str) -> (r: Result<Vec<Memory>, String>)
        requires
            old(self).db.wf(),
        ensures
            final(self).db.wf(),
            final(self).db.skills == old(self).db.skills,
            final(self).db.issues == old(self).db.issues,
            r matches Ok(v) && v@ == recall_selection(old(self).db.memories.rows(), query@, tags_view(tags), include_archived, limit)
                && memory_rows(final(self).db.memories.rows()) == touched(
                memory_rows(old(self).db.memories.rows()),
                memory_ids(v@),
                now@,
            ),
    {
        Ok(self.db.recall(query, tags, include_archived, limit, now))
    }

    /// Deletes a note; never refused.
    pub fn forget(&mut self, memory_id: i64) -> (r: Result<(), String>)
        requires
            old(self).db.wf(),
        ensures
            final(self).db.wf(),
            final(self).db.skills == old(self).db.skills,
            final(self).db.issues == old(self).db.issues,
            final(self).db.memories.rows() == old(self).db.memories.rows().filter(id_is_not(memory_id)),
            r is Ok,
    {
        self.db.forget(memory_id);
        Ok(())
    }

    /// Archives the notes created before `cutoff` and says how many; never
    /// refused.
    pub fn archive(&mut self, cutoff: &str, now: &str) -> (r: Result<i64, String>)
        requires
            old(self).db.wf(),
        ensures
            final(self).db.wf(),
            final(self).db.skills == old(self).db.skills,
            final(self).db.issues == old(self).db.issues,
            memory_rows(final(self).db.memories.rows()) == archived_rows(
                memory_rows(old(self).db.memories.rows()),
                cutoff@,
                now@,
            ),
            r matches Ok(n) && n as int == memory_rows(old(self).db.memories.rows()).filter(
                archive_filter(cutoff@),
            ).len(),
    {
        Ok(self.db.archive(cutoff, now))
    }

    /// The counts of the notes; never refused.
    pub fn get_stats(&self) -> (r: Result<MemoryCounts, String>)
        requires
            self.db.wf(),
        ensures
            r matches Ok(c) && c.total as int == self.db.memories.rows().len() && c.archived as int
                == memory_rows(self.db.memories.rows()).filter(is_archived_row()).len() && c.active
                == c.total - c.archived,
    {
        Ok(self.db.get_stats())
    }

    /// Finds issues (see `SkillDb::search_issues`); never refused.
    pub fn search_issues(&self, query: &str, task: Option<&str>, category: Option<&str>, limit: i64) -> (r: Result<Vec<Issue>, String>)
        requires
            self.db.wf(),
        ensures
            r matches Ok(v) && v@ == issue_selection(
                self.db.issues.rows(),
                query@,
                str_opt_view(task),
                str_opt_view(category),
                limit,
            ),
    {
        Ok(self.db.search_issues(query, task, category, limit))
    }

    /// Records an issue (see `SkillDb::report_issue`).
    pub fn report_issue(
        &mut self,
        category: &str,
        task: Option<&str>,
        scenario: &str,
        solution: &str,
        related_api: Option<&str>,
        now: &str,
    ) -> (r: Result<i64, String>)
        requires
            old(self).db.wf(),
        ensures
            final(self).db.wf(),
            final(self).db.skills == old(self).db.skills,
            final(self).db.memories == old(self).db.memories,
            old(self).db.issues.last_id() == i64::MAX ==> text_result(r) == Err::<i64, Seq<char>>(
                store_error_text(StoreError::IdsExhausted),
            ),
            old(self).db.issues.last_id() < i64::MAX && old(self).db.issues.rows().len() == 0 ==> r is Ok,
            old(self).db.issues.last_id() < i64::MAX && r is Err ==> old(self).db.issues.rows().len() > 0
                && text_result(r) == Err::<i64, Seq<char>>(store_error_text(StoreError::DuplicateIssueId)),
            r is Err ==> final(self).db.issues.rows() == old(self).db.issues.rows(),
            r is Ok ==> {
                &&& r == Ok::<i64, String>((old(self).db.issues.last_id() + 1) as i64)
                &&& final(self).db.issues.rows().drop_last() == old(self).db.issues.rows()
                &&& final(self).db.issues.rows().last().category@ == category@
                &&& opt_view(final(self).db.issues.rows().last().task) == str_opt_view(task)
                &&& final(self).db.issues.rows().last().scenario@ == scenario@
                &&& final(self).db.issues.rows().last().solution@ == solution@
                &&& opt_view(final(self).db.issues.rows().last().related_api) == str_opt_view(related_api)
                &&& final(self).db.issues.rows().last().created_at@ == now@
            },
    {
        let r = self.db.report_issue(category, task, scenario, solution, related_api, now);
        with_text(r)
    }
}

} // verus!
