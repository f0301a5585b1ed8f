//! The skill manager's data: the skill table, the memory log and the issue
//! log, held together as one store.
pub mod issues;
pub mod memories;
pub mod order;
pub mod skills;

use vstd::prelude::*;

pub use issues::{Issue, IssueLog};
pub use memories::{Memory, MemoryCounts, MemoryLog, StoreError};
pub use skills::{Skill, SkillRow, SkillTable};

use issues::{has_issue_id, issue_selection, str_opt_view};
use memories::{
    archive_filter, archived_rows, id_is_not, is_archived_row, memory_ids, memory_rows,
    recall_selection, tags_view, touched,
};
use skills::{
    live_skills, search_results, set_deleted_rows, set_enabled_rows, skill_named, trashed_skills,
    upsert_rows, without_skill,
};

verus! {

/// A fresh public identifier for a reported issue, made by `uuid`'s
/// `Uuid::new_v4` (random) and written in the hyphenated form of its
/// `Display`.  The contract claims only that form: 36 characters with
/// hyphens at positions 8, 13, 18 and 23; which random value it is, is not
/// stated.
#[verifier::external_body]
fn new_issue_id() -> (r: String)
    ensures
        r@.len() == 36,
        r@[8] == '-' && r@[13] == '-' && r@[18] == '-' && r@[23] == '-',
{
    uuid::Uuid::new_v4().to_string()
}

/// The form of the public ids `new_issue_id` gives: 36 characters with
/// hyphens at positions 8, 13, 18 and 23.
pub open spec fn uuid_form(s: Seq<char>) -> bool {
    &&& s.len() == 36
    &&& s[8] == '-' && s[13] == '-' && s[18] == '-' && s[23] == '-'
}

/// The store behind the skill manager.
pub struct SkillDb {
    pub skills: SkillTable,
    pub memories: MemoryLog,
    pub issues: IssueLog,
}

impl SkillDb {
    pub open spec fn wf(&self) -> bool {
        &&& self.skills.wf()
        &&& self.memories.wf()
        &&& self.issues.wf()
    }

    /// An empty store.
    pub fn new() -> (r: SkillDb)
        ensures
            r.wf(),
            r.skills@ == Seq::<SkillRow>::empty(),
            r.memories.rows() == Seq::<Memory>::empty(),
            r.memories.last_id() == 0,
            r.issues.rows() == Seq::<Issue>::empty(),
            r.issues.last_id() == 0,
    {
        SkillDb { skills: SkillTable::new(), memories: MemoryLog::new(), issues: IssueLog::new() }
    }

    /// Registers a skill found on disk (see `skills::upsert_rows`).
    pub fn upsert(
        &mut self,
        name: &str,
        description: &str,
        tags: &str,
        file_path: &str,
        dir_name: &str,
        now: &str,
    )
        requires
            old(self).wf(),
        ensures
            final(self).wf(),
            final(self).skills@ == upsert_rows(
                old(self).skills@,
                name@,
                description@,
                tags@,
                file_path@,
                dir_name@,
                now@,
            ),
            final(self).memories == old(self).memories,
            final(self).issues == old(self).issues,
    {
        self.skills.upsert(name, description, tags, file_path, dir_name, now)
    }

    /// The skills outside the trash, in name order.
    pub fn list_all(&self) -> (r: Vec<Skill>)
        ensures
            skills::skill_rows(r@) == live_skills(self.skills@),
    {
        self.skills.list_all()
    }

    /// The skills in the trash, in name order.
    pub fn list_trash(&self) -> (r: Vec<Skill>)
        ensures
            skills::skill_rows(r@) == trashed_skills(self.skills@),
    {
        self.skills.list_trash()
    }

    /// Skills outside the trash matching `%query%` (and `%tags%`).
    pub fn search(&self, query: &str, tags: Option<&str>) -> (r: Vec<Skill>)
        ensures
            skills::skill_rows(r@) == search_results(self.skills@, query@, str_opt_view(tags)),
    {
        self.skills.search(query, tags)
    }

    /// Switches the skill called `name` on or off.
    pub fn set_enabled(&mut self, name: &str, enabled: bool, now: &str)
        requires
            old(self).wf(),
        ensures
            final(self).wf(),
            final(self).skills@ == set_enabled_rows(old(self).skills@, name@, enabled, now@),
            final(self).memories == old(self).memories,
            final(self).issues == old(self).issues,
    {
        self.skills.set_enabled(name, enabled, now)
    }

    /// Moves the skill called `name` into the trash.
    pub fn soft_delete(&mut self, name: &str, now: &str)
        requires
            old(self).wf(),
        ensures
            final(self).wf(),
            final(self).skills@ == set_deleted_rows(old(self).skills@, name@, true, now@),
            final(self).memories == old(self).memories,
            final(self).issues == old(self).issues,
    {
        self.skills.soft_delete(name, now)
    }

    /// Takes the skill called `name` out of the trash.
    pub fn restore(&mut self, name: &str, now: &str)
        requires
            old(self).wf(),
        ensures
            final(self).wf(),
            final(self).skills@ == set_deleted_rows(old(self).skills@, name@, false, now@),
            final(self).memories == old(self).memories,
            final(self).issues == old(self).issues,
    {
        self.skills.restore(name, now)
    }

    /// Removes the skill called `name` for good.
    pub fn permanent_delete(&mut self, name: &str)
        requires
            old(self).wf(),
        ensures
            final(self).wf(),
            final(self).skills@ == without_skill(old(self).skills@, name@),
            final(self).memories == old(self).memories,
            final(self).issues == old(self).issues,
    {
        self.skills.permanent_delete(name)
    }

    /// The skill called `name`, if any.
    pub fn get_by_name(&self, name: &str) -> (r: Option<Skill>)
        requires
            self.wf(),
        ensures
            match r {
                Some(s) => skill_named(self.skills@, name@) == Some(s@),
                None => skill_named(self.skills@, name@) is None,
            },
    {
        self.skills.get_by_name(name)
    }

    /// Remembers a note (see `MemoryLog::remember`).
    pub fn remember(&mut self, content: &str, tags: Option<&str>, source: Option<&str>, now: &str) -> (r: Result<i64, StoreError>)
        requires
            old(self).wf(),
        ensures
            final(self).wf(),
            final(self).skills == old(self).skills,
            final(self).issues == old(self).issues,
            old(self).memories.last_id() == i64::MAX ==> r == Err::<i64, StoreError>(
                StoreError::IdsExhausted,
            ) && final(self).memories.rows() == old(self).memories.rows(),
            old(self).memories.last_id() < i64::MAX ==> {
                &&& r == Ok::<i64, StoreError>((old(self).memories.last_id() + 1) as i64)
                &&& final(self).memories.rows().drop_last() == old(self).memories.rows()
                &&& final(self).memories.rows().len() == old(self).memories.rows().len() + 1
                &&& final(self).memories.rows().last().content@ == content@
                &&& final(self).memories.rows().last().id == old(self).memories.last_id() + 1
                &&& memories::opt_view(final(self).memories.rows().last().tags) == str_opt_view(tags)
                &&& memories::opt_view(final(self).memories.rows().last().source) == str_opt_view(source)
                &&& !final(self).memories.rows().last().is_archived
                &&& final(self).memories.rows().last().access_count == 0
                &&& final(self).memories.rows().last().created_at@ == now@
            },
    {
        self.memories.remember(content, tags, source, now)
    }

    /// Finds notes (see `MemoryLog::recall`).
    pub fn recall(&mut self, query: &str, tags: Option<Vec<String>>, include_archived: bool, limit: i64, now: &str) -> (r: Vec<Memory>)
        requires
            old(self).wf(),
        ensures
            final(self).wf(),
            final(self).skills == old(self).skills,
            final(self).issues == old(self).issues,
            r@ == recall_selection(old(self).memories.rows(), query@, tags_view(tags), include_archived, limit),
            memory_rows(final(self).memories.rows()) == touched(
                memory_rows(old(self).memories.rows()),
                memory_ids(r@),
                now@,
            ),
    {
        self.memories.recall(query, tags, include_archived, limit, now)
    }

    /// Deletes the note with id `memory_id`.
    pub fn forget(&mut self, memory_id: i64)
        requires
            old(self).wf(),
        ensures
            final(self).wf(),
            final(self).skills == old(self).skills,
            final(self).issues == old(self).issues,
            final(self).memories.rows() == old(self).memories.rows().filter(id_is_not(memory_id)),
    {
        self.memories.forget(memory_id)
    }

    /// Archives the notes created before `cutoff` (see `MemoryLog::archive`).
    pub fn archive(&mut self, cutoff: &str, now: &str) -> (r: i64)
        requires
            old(self).wf(),
        ensures
            final(self).wf(),
            final(self).skills == old(self).skills,
            final(self).issues == old(self).issues,
            memory_rows(final(self).memories.rows()) == archived_rows(
                memory_rows(old(self).memories.rows()),
                cutoff@,
                now@,
            ),
            r as int == memory_rows(old(self).memories.rows()).filter(archive_filter(cutoff@)).len(),
    {
        self.memories.archive(cutoff, now)
    }

    /// How many notes there are, archived or not.
    pub fn get_stats(&self) -> (r: MemoryCounts)
        requires
            self.wf(),
        ensures
            r.total as int == self.memories.rows().len(),
            r.archived as int == memory_rows(self.memories.rows()).filter(is_archived_row()).len(),
            r.active == r.total - r.archived,
    {
        self.memories.get_stats()
    }

    /// Finds issues (see `IssueLog::search_issues`).
    pub fn search_issues(&self, query: &str, task: Option<&str>, category: Option<&str>, limit: i64) -> (r: Vec<Issue>)
        requires
            self.wf(),
        ensures
            r@ == issue_selection(
                self.issues.rows(),
                query@,
                str_opt_view(task),
                str_opt_view(category),
                limit,
            ),
    {
        self.issues.search_issues(query, task, category, limit)
    }

    /// Records an issue under a fresh random public id (see
    /// `IssueLog::report_issue`).  It fails with `IdsExhausted` exactly when
    /// every row id has been handed out; otherwise it succeeds unless the
    /// random id clashes with a recorded one (`DuplicateIssueId`), which
    /// cannot happen while no recorded issue has an id of that form.
    pub fn report_issue(
        &mut self,
        category: &str,
        task: Option<&str>,
        scenario: &str,
        solution: &str,
        related_api: Option<&str>,
        now: &str,
    ) -> (r: Result<i64, StoreError>)
        requires
            old(self).wf(),
        ensures
            final(self).wf(),
            final(self).skills == old(self).skills,
            final(self).memories == old(self).memories,
            (r == Err::<i64, StoreError>(StoreError::IdsExhausted)) <==> old(self).issues.last_id()
                == i64::MAX,
            old(self).issues.last_id() < i64::MAX && old(self).issues.rows().len() == 0 ==> r is Ok,
            r == Err::<i64, StoreError>(StoreError::DuplicateIssueId) ==> old(self).issues.last_id()
                < i64::MAX && old(self).issues.rows().len() > 0,
            r is Err ==> r == Err::<i64, StoreError>(StoreError::IdsExhausted) || r == Err::<
                i64,
                StoreError,
            >(StoreError::DuplicateIssueId),
            r == Err::<i64, StoreError>(StoreError::DuplicateIssueId) ==> exists|k: int|
                0 <= k < old(self).issues.rows().len() && uuid_form(
                    #[trigger] old(self).issues.rows()[k].issue_id@,
                ),
            old(self).issues.last_id() < i64::MAX && (forall|k: int|
                0 <= k < old(self).issues.rows().len() ==> !uuid_form(
                    #[trigger] old(self).issues.rows()[k].issue_id@,
                )) ==> r is Ok,
            r is Err ==> final(self).issues.rows() == old(self).issues.rows(),
            r is Ok ==> {
                &&& uuid_form(final(self).issues.rows().last().issue_id@)
                &&& r == Ok::<i64, StoreError>((old(self).issues.last_id() + 1) as i64)
                &&& final(self).issues.rows().drop_last() == old(self).issues.rows()
                &&& final(self).issues.rows().len() == old(self).issues.rows().len() + 1
                &&& final(self).issues.rows().last().issue_id@.len() == 36
                &&& !has_issue_id(old(self).issues.rows(), final(self).issues.rows().last().issue_id@)
                &&& final(self).issues.rows().last().category@ == category@
                &&& memories::opt_view(final(self).issues.rows().last().task) == str_opt_view(task)
                &&& final(self).issues.rows().last().scenario@ == scenario@
                &&& final(self).issues.rows().last().solution@ == solution@
                &&& memories::opt_view(final(self).issues.rows().last().related_api) == str_opt_view(
                    related_api,
                )
                &&& final(self).issues.rows().last().frequency@ == "low"@
                &&& final(self).issues.rows().last().created_at@ == now@
            },
    {
        let issue_id = new_issue_id();
        let ghost rows = self.issues.rows();
        let r = self.issues.report_issue(issue_id.as_str(), category, task, scenario, solution, related_api, now);
        proof {
            if r == Err::<i64, StoreError>(StoreError::DuplicateIssueId) {
                assert(has_issue_id(rows, issue_id@));
                let k = choose|k: int| 0 <= k < rows.len() && #[trigger] rows[k].issue_id@ == issue_id@;
                assert(uuid_form(rows[k].issue_id@));
            }
        }
        r
    }

    /// Deletes the issue with row id `id`.
    pub fn delete_issue(&mut self, id: i64)
        requires
            old(self).wf(),
        ensures
            final(self).wf(),
            final(self).skills == old(self).skills,
            final(self).memories == old(self).memories,
            final(self).issues.rows() == old(self).issues.rows().filter(issues::issue_row_is_not(id)),
    {
        self.issues.delete_issue(id)
    }
}

} // verus!
