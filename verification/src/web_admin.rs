//! What the web administration's requests do to the store and answer:
//! listing, searching and deleting notes and issues with the panel's
//! defaults, listing skills page by page, and refreshing the skill table
//! from a scan of the skills directory.
use vstd::prelude::*;

use crate::db::issues::{issue_row_is_not, issue_selection, str_opt_view};
use crate::db::memories::{memory_ids, memory_rows, recall_selection, tags_view, touched, id_is_not};
use crate::db::skills::{
    has_skill, kept_on_sync, lemma_upsert_keeps_names, lemma_upsert_sorted, live_skills, retain_found,
    rows_in_name_order, skill_rows, trashed_skills, upsert_rows, SkillRow,
};
use crate::db::{Issue, Memory, Skill, SkillDb};
use crate::paging::{page_fits, page_rows, page_start, paginate_issues, paginate_memories, paginate_skills};
use crate::text::{concat2, concat3, i64_text, owned, signed_decimal, strings_view, decimal, u64_text};
use crate::tools::skill_scanner::{listed_fields, opt_chars, parse_front_matter, SkillDirEntry};

verus! {

broadcast use {vstd::seq_lib::group_seq_properties, vstd::seq::group_seq_axioms};

/// The number of rows the panel asks the store for when it lists notes or
/// issues in full.
pub const FULL_LIST: i64 = 10000;

/// One page of the skills outside the trash, and how many there are.
pub fn list_skills(db: &SkillDb, page: usize, size: usize) -> (r: (Vec<Skill>, usize))
    requires
        page_fits(live_skills(db.skills@).len(), page, size),
    ensures
        r.1 == live_skills(db.skills@).len(),
        skill_rows(r.0@) == page_rows(live_skills(db.skills@), page, size),
{
    let all = db.list_all();
    let (p, total) = paginate_skills(all, page, size);
    assert(skill_rows(p@) =~= page_rows(skill_rows(all@), page, size));
    (p, total)
}

/// One page of the skills in the trash, and how many there are.
pub fn list_trash(db: &SkillDb, page: usize, size: usize) -> (r: (Vec<Skill>, usize))
    requires
        page_fits(trashed_skills(db.skills@).len(), page, size),
    ensures
        r.1 == trashed_skills(db.skills@).len(),
        skill_rows(r.0@) == page_rows(trashed_skills(db.skills@), page, size),
{
    let all = db.list_trash();
    let (p, total) = paginate_skills(all, page, size);
    assert(skill_rows(p@) =~= page_rows(skill_rows(all@), page, size));
    (p, total)
}

/// One page of the notes outside the archive, newest first (at most
/// `FULL_LIST` of them in all), which count as read now; and how many there
/// are in that list.
pub fn list_memories(db: &mut SkillDb, page: usize, size: usize, now: &str) -> (r: (Vec<Memory>, usize))
    requires
        old(db).wf(),
        page >= 1,
        page_start(page, size) <= usize::MAX,
    ensures
        final(db).wf(),
        final(db).skills == old(db).skills,
        final(db).issues == old(db).issues,
        ({
            let all = recall_selection(old(db).memories.rows(), Seq::empty(), None, false, FULL_LIST);
            &&& r.1 == all.len()
            &&& r.0@ == page_rows(all, page, size)
            &&& memory_rows(final(db).memories.rows()) == touched(
                memory_rows(old(db).memories.rows()),
                memory_ids(all),
                now@,
            )
        }),
{
    proof {
        reveal_strlit("");
        assert(""@ =~= Seq::<char>::empty());
    }
    let all = db.recall("", None, false, FULL_LIST, now);
    paginate_memories(all, page, size)
}

/// The notes a search of the panel finds: archived ones only where it asks
/// for them, and at most 50 where it does not say how many.
pub fn search_memories(
    db: &mut SkillDb,
    query: &str,
    tags: Option<Vec<String>>,
    include_archived: Option<bool>,
    limit: Option<i64>,
    now: &str,
) -> (r: Vec<Memory>)
    requires
        old(db).wf(),
    ensures
        final(db).wf(),
        final(db).skills == old(db).skills,
        final(db).issues == old(db).issues,
        r@ == recall_selection(
            old(db).memories.rows(),
            query@,
            tags_view(tags),
            match include_archived {
                Some(b) => b,
                None => false,
            },
            match limit {
                Some(n) => n,
                None => 50,
            },
        ),
        memory_rows(final(db).memories.rows()) == touched(
            memory_rows(old(db).memories.rows()),
            memory_ids(r@),
            now@,
        ),
{
    let with_archived = match include_archived {
        Some(b) => b,
        None => false,
    };
    let n: i64 = match limit {
        Some(n) => n,
        None => 50,
    };
    db.recall(query, tags, with_archived, n, now)
}

/// Deletes a note; the text confirms which.
pub fn delete_memory(db: &mut SkillDb, memory_id: i64) -> (r: String)
    requires
        old(db).wf(),
    ensures
        final(db).wf(),
        final(db).skills == old(db).skills,
        final(db).issues == old(db).issues,
        final(db).memories.rows() == old(db).memories.rows().filter(id_is_not(memory_id)),
        r@ == "已删除记忆 ID: "@ + signed_decimal(memory_id as int),
{
    db.forget(memory_id);
    let t = i64_text(memory_id);
    concat2("已删除记忆 ID: ", t.as_str())
}

/// The text confirming an archiving of `count` notes.
pub fn archived_message(count: i64) -> (r: String)
    ensures
        r@ == "已归档 "@ + signed_decimal(count as int) + " 条记忆"@,
{
    let t = i64_text(count);
    concat3("已归档 ", t.as_str(), " 条记忆")
}

/// One page of the issues, newest first (at most `FULL_LIST` of them in
/// all), and how many there are in that list.
pub fn list_issues(db: &SkillDb, page: usize, size: usize) -> (r: (Vec<Issue>, usize))
    requires
        db.wf(),
        page >= 1,
        page_start(page, size) <= usize::MAX,
    ensures
        ({
            let all = issue_selection(db.issues.rows(), Seq::empty(), None, None, FULL_LIST);
            r.1 == all.len() && r.0@ == page_rows(all, page, size)
        }),
{
    proof {
        reveal_strlit("");
        assert(""@ =~= Seq::<char>::empty());
    }
    let all = db.search_issues("", None, None, FULL_LIST);
    paginate_issues(all, page, size)
}

/// The issues a search of the panel finds, at most 50 where it does not
/// say how many.
pub fn search_issues(
    db: &SkillDb,
    query: &str,
    task: Option<&str>,
    category: Option<&str>,
    limit: Option<i64>,
) -> (r: Vec<Issue>)
    requires
        db.wf(),
    ensures
        r@ == issue_selection(
            db.issues.rows(),
            query@,
            str_opt_view(task),
            str_opt_view(category),
            match limit {
                Some(n) => n,
                None => 50,
            },
        ),
{
    let n: i64 = match limit {
        Some(n) => n,
        None => 50,
    };
    db.search_issues(query, task, category, n)
}

/// Deletes an issue; the text confirms which.
pub fn delete_issue(db: &mut SkillDb, issue_id: i64) -> (r: String)
    requires
        old(db).wf(),
    ensures
        final(db).wf(),
        final(db).skills == old(db).skills,
        final(db).memories == old(db).memories,
        final(db).issues.rows() == old(db).issues.rows().filter(issue_row_is_not(issue_id)),
        r@ == "已删除问题 ID: "@ + signed_decimal(issue_id as int),
{
    db.delete_issue(issue_id);
    let t = i64_text(issue_id);
    concat2("已删除问题 ID: ", t.as_str())
}

/// A directory of the scan whose `SKILL.md` could be read.
pub open spec fn was_read(e: SkillDirEntry) -> bool {
    e.content is Some
}

pub open spec fn readable() -> spec_fn(SkillDirEntry) -> bool {
    |e: SkillDirEntry| was_read(e)
}

/// The name a refresh registers a read skill under: its front matter's, or
/// its directory's where that gives none.
pub open spec fn refresh_name(e: SkillDirEntry) -> Seq<char> {
    let n = listed_fields(opt_chars(e.content).unwrap_or(Seq::empty())).0;
    if n.len() == 0 {
        e.dir_name@
    } else {
        n
    }
}

/// The tags a refresh stores for a read skill: its JSON list, `[]` where it
/// has none.
pub open spec fn refresh_tags(e: SkillDirEntry) -> Seq<char> {
    let t = listed_fields(opt_chars(e.content).unwrap_or(Seq::empty())).2;
    if t.len() == 0 {
        "[]"@
    } else {
        t
    }
}

/// The table after registering each read skill in turn.
pub open spec fn refresh_upserts(rows: Seq<SkillRow>, read: Seq<SkillDirEntry>, now: Seq<char>) -> Seq<SkillRow>
    decreases read.len(),
{
    if read.len() == 0 {
        rows
    } else {
        let e = read.last();
        upsert_rows(
            refresh_upserts(rows, read.drop_last(), now),
            refresh_name(e),
            listed_fields(opt_chars(e.content).unwrap_or(Seq::empty())).1,
            refresh_tags(e),
            e.skill_file@,
            e.dir_name@,
            now,
        )
    }
}

/// The table after a refresh: each read skill registered, then each skill
/// outside the trash that the scan did not find deleted for good.
pub open spec fn refreshed_rows(rows: Seq<SkillRow>, scanned: Seq<SkillDirEntry>, now: Seq<char>) -> Seq<SkillRow> {
    let read = scanned.filter(readable());
    retain_found(refresh_upserts(rows, read, now), read.map_values(|e: SkillDirEntry| refresh_name(e)))
}

/// Refreshes the skill table from a scan of the skills directory (see
/// `refreshed_rows`); gives how many skills were read.
pub fn refresh_skills(db: &mut SkillDb, scanned: &Vec<SkillDirEntry>, now: &str) -> (r: usize)
    requires
        old(db).wf(),
    ensures
        final(db).wf(),
        final(db).memories == old(db).memories,
        final(db).issues == old(db).issues,
        final(db).skills@ == refreshed_rows(old(db).skills@, scanned@, now@),
        r == scanned@.filter(readable()).len(),
{
    let ghost p = readable();
    let mut names: Vec<String> = Vec::new();
    let mut count: usize = 0;
    let mut i: usize = 0;
    while i < scanned.len()
        invariant
            0 <= i <= scanned@.len(),
            p == readable(),
            db.wf(),
            db.memories == old(db).memories,
            db.issues == old(db).issues,
            count == scanned@.take(i as int).filter(p).len(),
            count == names@.len(),
            strings_view(names@) == scanned@.take(i as int).filter(p).map_values(
                |e: SkillDirEntry| refresh_name(e),
            ),
            db.skills@ == refresh_upserts(old(db).skills@, scanned@.take(i as int).filter(p), now@),
        decreases scanned@.len() - i,
    {
        proof {
            crate::seqs::lemma_filter_take_step(scanned@, p, i as int);
        }
        let e = &scanned[i];
        match &e.content {
            Some(content) => {
                let (n, d, t) = parse_front_matter(content.as_str());
                let name = if n.as_str().unicode_len() == 0 {
                    e.dir_name.clone()
                } else {
                    n
                };
                let tags = if t.as_str().unicode_len() == 0 {
                    owned("[]")
                } else {
                    t
                };
                let ghost read_before = scanned@.take(i as int).filter(p);
                let ghost read_now = read_before.push(*e);
                assert(read_now.drop_last() =~= read_before);
                assert(name@ == refresh_name(*e));
                assert(tags@ == refresh_tags(*e));
                db.upsert(name.as_str(), d.as_str(), tags.as_str(), e.skill_file.as_str(), e.dir_name.as_str(), now);
                let ghost names_before = names@;
                names.push(name);
                proof {
                    let f = |x: SkillDirEntry| refresh_name(x);
                    assert(read_now.map_values(f) =~= read_before.map_values(f).push(refresh_name(*e)));
                    assert(strings_view(names@) =~= strings_view(names_before).push(refresh_name(*e)));
                }
                count = count + 1;
            },
            None => {},
        }
        i = i + 1;
    }
    assert(scanned@.take(scanned@.len() as int) =~= scanned@);
    db.skills.retain_found(&names);
    count
}

/// The text confirming a refresh that read `count` skills.
pub fn refresh_message(count: usize) -> (r: String)
    ensures
        r@ == "已扫描并更新 "@ + decimal(count as nat) + " 个skill"@,
{
    let t = u64_text(count as u64);
    concat3("已扫描并更新 ", t.as_str(), " 个skill")
}

proof fn lemma_refresh_upserts_hold(rows: Seq<SkillRow>, read: Seq<SkillDirEntry>, now: Seq<char>, j: int)
    requires
        rows_in_name_order(rows),
    ensures
        rows_in_name_order(refresh_upserts(rows, read, now)),
        0 <= j < read.len() ==> has_skill(refresh_upserts(rows, read, now), refresh_name(read[j])),
    decreases read.len(),
{
    if read.len() > 0 {
        let e = read.last();
        let init = read.drop_last();
        lemma_refresh_upserts_hold(rows, init, now, j);
        let before = refresh_upserts(rows, init, now);
        let desc = listed_fields(opt_chars(e.content).unwrap_or(Seq::empty())).1;
        lemma_upsert_sorted(before, refresh_name(e), desc, refresh_tags(e), e.skill_file@, e.dir_name@, now);
        if 0 <= j < init.len() {
            assert(init[j] == read[j]);
            lemma_upsert_keeps_names(
                before,
                refresh_name(e),
                desc,
                refresh_tags(e),
                e.skill_file@,
                e.dir_name@,
                now,
                refresh_name(read[j]),
            );
        }
    }
}

/// A refresh registers every `SKILL.md` it reads: under the name its front
/// matter declares, or under its directory's name where the front matter
/// declares none (or none can be read from it).
pub proof fn law_refresh_registers_read_skill(
    rows: Seq<SkillRow>,
    scanned: Seq<SkillDirEntry>,
    now: Seq<char>,
    k: int,
    content: Seq<char>,
)
    requires
        rows_in_name_order(rows),
        0 <= k < scanned.len(),
        opt_chars(scanned[k].content) == Some(content),
    ensures
        listed_fields(content).0.len() > 0 ==> has_skill(refreshed_rows(rows, scanned, now), listed_fields(content).0),
        listed_fields(content).0.len() == 0 ==> has_skill(refreshed_rows(rows, scanned, now), scanned[k].dir_name@),
{
    let e = scanned[k];
    let read = scanned.filter(readable());
    assert(scanned.contains(e));
    assert(readable()(e));
    crate::seqs::lemma_filter_contains_iff(scanned, readable(), e);
    let j = choose|j: int| 0 <= j < read.len() && read[j] == e;
    let n = refresh_name(e);
    lemma_refresh_upserts_hold(rows, read, now, j);
    let up = refresh_upserts(rows, read, now);
    let names = read.map_values(|x: SkillDirEntry| refresh_name(x));
    assert(names[j] == n);
    assert(names.contains(n));
    let m = choose|m: int| 0 <= m < up.len() && #[trigger] up[m].name == n;
    assert(kept_on_sync(names)(up[m]));
    assert(up.contains(up[m]));
    crate::seqs::lemma_filter_contains_iff(up, kept_on_sync(names), up[m]);
    let after = retain_found(up, names);
    assert(after.contains(up[m]));
    let i = choose|i: int| 0 <= i < after.len() && after[i] == up[m];
    assert(after[i].name == n);
}

} // verus!
