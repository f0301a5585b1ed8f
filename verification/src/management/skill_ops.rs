//! The skill operations of the web administration.  Each takes how the
//! file-system part went (done by the caller) and makes the matching change
//! to the store; the `Ok` text and the `Err` text are what the
//! administration shows.
use vstd::prelude::*;

use crate::db::skills::{
    has_skill, law_restore_undoes_delete, lemma_map_named_absent, lemma_map_named_at,
    lemma_skill_named_at, lemma_sorted_unique, map_named, rows_in_name_order, set_deleted_rows,
    set_enabled_rows, skill_named, without_skill, SkillRow,
};
use crate::db::SkillDb;
use crate::text::{concat2, concat3};
use crate::tools::replies::{about_skill, TrashMove};

verus! {

fn skill_text(name: &str, tail: &str) -> (r: String)
    ensures
        r@ == about_skill(name@, tail@),
{
    concat3("Skill '", name, tail)
}

/// Moves a skill into the trash: once its directory is there the skill is
/// marked deleted; otherwise nothing changes and the error says why.
pub fn delete_skill(db: &mut SkillDb, skill_name: &str, step: TrashMove, now: &str) -> (r: Result<String, String>)
    requires
        old(db).wf(),
    ensures
        final(db).wf(),
        final(db).memories == old(db).memories,
        final(db).issues == old(db).issues,
        match step {
            TrashMove::Moved => final(db).skills@ == set_deleted_rows(old(db).skills@, skill_name@, true, now@)
                && (r matches Ok(m) && m@ == about_skill(skill_name@, "' 已删除，移至回收站"@)),
            TrashMove::SkillMissing => final(db).skills@ == old(db).skills@ && (r matches Err(m) && m@
                == about_skill(skill_name@, "' 不存在"@)),
            TrashMove::TrashUnavailable(e) => final(db).skills@ == old(db).skills@ && (r matches Err(m)
                && m@ == "创建回收站失败: "@ + e@),
            TrashMove::MoveFailed(e) => final(db).skills@ == old(db).skills@ && (r matches Err(m) && m@
                == "移动到回收站失败: "@ + e@),
        },
{
    match step {
        TrashMove::Moved => {
            db.soft_delete(skill_name, now);
            Ok(skill_text(skill_name, "' 已删除，移至回收站"))
        },
        TrashMove::SkillMissing => Err(skill_text(skill_name, "' 不存在")),
        TrashMove::TrashUnavailable(e) => Err(concat2("创建回收站失败: ", e.as_str())),
        TrashMove::MoveFailed(e) => Err(concat2("移动到回收站失败: ", e.as_str())),
    }
}

/// How looking through the trash went.
pub enum TrashSearch {
    /// The trash directory could not be read, for the reason given.
    ListFailed(String),
    /// An entry of the trash could not be read, for the reason given.
    EntryFailed(String),
    /// No directory in the trash holds the skill (or there is no trash).
    NotFound,
}

/// How moving a skill's directory back from the trash went.
pub enum RestoreStep {
    /// The trash could not be searched, or does not hold the skill.
    Search(TrashSearch),
    /// The skill's directory exists already; the text names it.
    TargetExists(String),
    /// The directory could not be moved back, for the reason given.
    MoveFailed(String),
    /// The directory is back among the skills.
    Moved,
}

/// The error text for a failed search of the trash, if it failed.
pub open spec fn search_error(s: TrashSearch, skill_name: Seq<char>) -> Option<Seq<char>> {
    match s {
        TrashSearch::ListFailed(e) => Some("读取回收站失败: "@ + e@),
        TrashSearch::EntryFailed(e) => Some("读取回收站条目失败: "@ + e@),
        _ => None,
    }
}

/// Takes a skill out of the trash: once its directory is back the skill is
/// no longer marked deleted; otherwise nothing changes and the error says
/// why.
pub fn restore_skill(db: &mut SkillDb, skill_name: &str, step: RestoreStep, now: &str) -> (r: Result<String, String>)
    requires
        old(db).wf(),
    ensures
        final(db).wf(),
        final(db).memories == old(db).memories,
        final(db).issues == old(db).issues,
        match step {
            RestoreStep::Moved => final(db).skills@ == set_deleted_rows(old(db).skills@, skill_name@, false, now@)
                && (r matches Ok(m) && m@ == about_skill(skill_name@, "' 已恢复"@)),
            RestoreStep::Search(s) => final(db).skills@ == old(db).skills@ && (r matches Err(m) && m@
                == match search_error(s, skill_name@) {
                Some(e) => e,
                None => about_skill(skill_name@, "' 在回收站中不存在"@),
            }),
            RestoreStep::TargetExists(p) => final(db).skills@ == old(db).skills@ && (r matches Err(m)
                && m@ == "目标目录已存在: "@ + p@),
            RestoreStep::MoveFailed(e) => final(db).skills@ == old(db).skills@ && (r matches Err(m) && m@
                == "恢复失败: "@ + e@),
        },
{
    match step {
        RestoreStep::Moved => {
            db.restore(skill_name, now);
            Ok(skill_text(skill_name, "' 已恢复"))
        },
        RestoreStep::Search(TrashSearch::ListFailed(e)) => Err(concat2("读取回收站失败: ", e.as_str())),
        RestoreStep::Search(TrashSearch::EntryFailed(e)) => Err(
            concat2("读取回收站条目失败: ", e.as_str()),
        ),
        RestoreStep::Search(_) => Err(skill_text(skill_name, "' 在回收站中不存在")),
        RestoreStep::TargetExists(p) => Err(concat2("目标目录已存在: ", p.as_str())),
        RestoreStep::MoveFailed(e) => Err(concat2("恢复失败: ", e.as_str())),
    }
}

/// Deleting a skill and then restoring it, with both directory moves done
/// (`delete_skill` with `TrashMove::Moved`, then `restore_skill` with
/// `RestoreStep::Moved`), gives back the table as it was, but for the time
/// of the skill's last change: the skill's row comes back with every other
/// field as before, and a skill the store did not hold stays unheld.
pub proof fn law_delete_then_restore(rows: Seq<SkillRow>, name: Seq<char>, t1: Seq<char>, t2: Seq<char>)
    requires
        rows_in_name_order(rows),
        skill_named(rows, name) matches Some(r) ==> !r.deleted,
    ensures
        set_deleted_rows(set_deleted_rows(rows, name, true, t1), name, false, t2) == map_named(
            rows,
            name,
            |r: SkillRow| SkillRow { updated_at: t2, ..r },
        ),
        skill_named(set_deleted_rows(set_deleted_rows(rows, name, true, t1), name, false, t2), name)
            == match skill_named(rows, name) {
            Some(r) => Some(SkillRow { updated_at: t2, ..r }),
            None => None,
        },
{
    let g = |r: SkillRow| SkillRow { updated_at: t2, ..r };
    let f1 = |r: SkillRow| SkillRow { deleted: true, updated_at: t1, ..r };
    let f2 = |r: SkillRow| SkillRow { deleted: false, updated_at: t2, ..r };
    let after = set_deleted_rows(set_deleted_rows(rows, name, true, t1), name, false, t2);
    if has_skill(rows, name) {
        let i = choose|i: int| 0 <= i < rows.len() && #[trigger] rows[i].name == name;
        lemma_skill_named_at(rows, i);
        law_restore_undoes_delete(rows, name, t1, t2);
        lemma_map_named_at(rows, name, g, i);
        assert(after == rows.update(i, g(rows[i])));
        assert(after[i].name == name);
        assert(has_skill(after, name));
        let k = choose|k: int| 0 <= k < after.len() && #[trigger] after[k].name == name;
        if k != i {
            assert(after[k] == rows[k]);
            lemma_sorted_unique(rows, i, k);
        }
    } else {
        lemma_map_named_absent(rows, name, f1);
        lemma_map_named_absent(rows, name, f2);
        lemma_map_named_absent(rows, name, g);
    }
}

/// How removing a skill's directory from the trash went.
pub enum PurgeStep {
    /// The trash could not be searched, or does not hold the skill.
    Search(TrashSearch),
    /// The skill's directory in the trash could not be removed, for the reason given.
    RemoveFailed(String),
    /// The directory is gone.
    Removed,
}

/// Deletes a skill for good: its row goes once its directory in the trash
/// is removed, or when the trash holds none; otherwise nothing changes and
/// the error says why.
pub fn permanent_delete_skill(db: &mut SkillDb, skill_name: &str, step: PurgeStep) -> (r: Result<String, String>)
    requires
        old(db).wf(),
    ensures
        final(db).wf(),
        final(db).memories == old(db).memories,
        final(db).issues == old(db).issues,
        match step {
            PurgeStep::Removed | PurgeStep::Search(TrashSearch::NotFound) => final(db).skills@ == without_skill(
                old(db).skills@,
                skill_name@,
            ) && (r matches Ok(m) && m@ == about_skill(skill_name@, "' 已永久删除"@)),
            PurgeStep::Search(s) => final(db).skills@ == old(db).skills@ && (r matches Err(m) && search_error(
                s,
                skill_name@,
            ) == Some(m@)),
            PurgeStep::RemoveFailed(e) => final(db).skills@ == old(db).skills@ && (r matches Err(m) && m@
                == "删除目录失败: "@ + e@),
        },
{
    match step {
        PurgeStep::Removed | PurgeStep::Search(TrashSearch::NotFound) => {
            db.permanent_delete(skill_name);
            Ok(skill_text(skill_name, "' 已永久删除"))
        },
        PurgeStep::Search(TrashSearch::ListFailed(e)) => Err(concat2("读取回收站失败: ", e.as_str())),
        PurgeStep::Search(TrashSearch::EntryFailed(e)) => Err(
            concat2("读取回收站条目失败: ", e.as_str()),
        ),
        PurgeStep::RemoveFailed(e) => Err(concat2("删除目录失败: ", e.as_str())),
    }
}

/// Switches a skill on.
pub fn enable_skill(db: &mut SkillDb, skill_name: &str, now: &str) -> (r: Result<String, String>)
    requires
        old(db).wf(),
    ensures
        final(db).wf(),
        final(db).memories == old(db).memories,
        final(db).issues == old(db).issues,
        final(db).skills@ == set_enabled_rows(old(db).skills@, skill_name@, true, now@),
        r matches Ok(m) && m@ == about_skill(skill_name@, "' 已启用"@),
{
    db.set_enabled(skill_name, true, now);
    Ok(skill_text(skill_name, "' 已启用"))
}

/// Switches a skill off.
pub fn disable_skill(db: &mut SkillDb, skill_name: &str, now: &str) -> (r: Result<String, String>)
    requires
        old(db).wf(),
    ensures
        final(db).wf(),
        final(db).memories == old(db).memories,
        final(db).issues == old(db).issues,
        final(db).skills@ == set_enabled_rows(old(db).skills@, skill_name@, false, now@),
        r matches Ok(m) && m@ == about_skill(skill_name@, "' 已禁用"@),
{
    db.set_enabled(skill_name, false, now);
    Ok(skill_text(skill_name, "' 已禁用"))
}

} // verus!
