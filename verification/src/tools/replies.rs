//! What each built-in tool answers: the arguments it reads, the checks it
//! makes, the change it makes to the store and the reply it gives.  Moving
//! directories in and out of the trash is left to the caller, which hands
//! in how the move went.
use vstd::prelude::*;

use crate::db::issues::{issue_selection, str_opt_view};
use crate::db::memories::{
    archive_filter, archived_rows, id_is_not, is_archived_row, memory_ids, memory_rows, opt_view,
    recall_selection, store_error_text, touched,
};
use crate::db::skills::{
    live_skills, search_results, set_deleted_rows, set_enabled_rows, skill_named, skill_rows,
    trashed_skills, SkillRow,
};
use crate::db::{Issue, Memory, MemoryCounts, Skill, SkillDb};
use crate::exec::{HandlerView, ToolHandler};
use crate::fields::{all_trimmed, split_at, split_trimmed, starts_with};
use crate::text::{concat2, concat3, decimal, i64_text, owned, signed_decimal, strings_view, u64_text};

verus! {

broadcast use {vstd::seq_lib::group_seq_properties, vstd::seq::group_seq_axioms};

/// The arguments of a tool call that the built-in tools read.  A text
/// argument is `None` where the call has no such key or its value is not a
/// string; likewise for the numbers and the flag.
pub struct ToolArgs {
    pub skill_name: Option<String>,
    pub query: Option<String>,
    pub tags: Option<String>,
    pub content: Option<String>,
    pub source: Option<String>,
    pub include_archived: Option<bool>,
    pub limit: Option<i64>,
    pub memory_id: Option<i64>,
    pub older_than_days: Option<i64>,
    pub task: Option<String>,
    pub category: Option<String>,
    pub scenario: Option<String>,
    pub solution: Option<String>,
    pub related_api: Option<String>,
}

impl ToolArgs {
    /// A call with no arguments.
    pub fn empty() -> (r: ToolArgs)
        ensures
            r.skill_name is None && r.query is None && r.tags is None && r.content is None,
            r.source is None && r.include_archived is None && r.limit is None,
            r.memory_id is None && r.older_than_days is None && r.task is None,
            r.category is None && r.scenario is None && r.solution is None && r.related_api is None,
    {
        ToolArgs {
            skill_name: None,
            query: None,
            tags: None,
            content: None,
            source: None,
            include_archived: None,
            limit: None,
            memory_id: None,
            older_than_days: None,
            task: None,
            category: None,
            scenario: None,
            solution: None,
            related_api: None,
        }
    }
}

/// The reply of a built-in tool.
#[derive(Debug)]
pub enum ToolReply {
    /// The call was refused or failed, for the reason given.
    Failed(String),
    /// The call did what it was asked, as the message says.
    Succeeded(String),
    /// Skills outside the trash, with how many of them are switched on and off.
    SkillList { enabled_count: usize, disabled_count: usize, skills: Vec<Skill> },
    /// The skills in the trash.
    TrashList { skills: Vec<Skill> },
    /// A note was stored under `memory_id`.
    Remembered { memory_id: i64, message: String },
    /// The notes found.
    Recalled { memories: Vec<Memory> },
    /// `archived_count` notes were archived.
    Archived { archived_count: i64, message: String },
    /// The counts of the memory log.
    Counts(MemoryCounts),
    /// The issues found.
    IssueList { issues: Vec<Issue> },
    /// An issue was recorded under row id `issue_id`.
    Reported { issue_id: i64, message: String },
    /// Where skills are kept, where they are commonly found, and the rules
    /// for moving them.
    MigrationGuide { managed_dir: String, common_locations: Vec<String>, rules: Vec<String> },
    /// A refresh of the tool list is due, as the message says.
    Refreshing(String),
    /// The text of the file `file`.
    FileContent { file: String, content: String },
    /// The names of the files in the directory `directory`.
    DirListing { directory: String, files: Vec<String> },
}

/// A text argument, the empty text where it is missing.
pub open spec fn given_text(a: Option<String>) -> Seq<char> {
    match a {
        Some(s) => s@,
        None => Seq::empty(),
    }
}

fn text_arg(a: &Option<String>) -> (r: &str)
    ensures
        r@ == given_text(*a),
{
    match a {
        Some(s) => s.as_str(),
        None => {
            proof {
                reveal_strlit("");
            }
            ""
        },
    }
}

fn opt_arg(a: &Option<String>) -> (r: Option<&str>)
    ensures
        str_opt_view(r) == opt_view(*a),
{
    match a {
        Some(s) => Some(s.as_str()),
        None => None,
    }
}

/// `Skill '<name>'` followed by `tail`.
pub open spec fn about_skill(name: Seq<char>, tail: Seq<char>) -> Seq<char> {
    "Skill '"@ + name + tail
}

fn skill_message(name: &str, tail: &str) -> (r: String)
    ensures
        r@ == about_skill(name@, tail@),
{
    concat3("Skill '", name, tail)
}

/// The skill a call names, or the reply that asks for one when the
/// argument is missing or empty.
pub fn skill_name_arg(args: &ToolArgs) -> (r: Result<String, ToolReply>)
    ensures
        given_text(args.skill_name).len() > 0 ==> (r matches Ok(n) && n@ == given_text(
            args.skill_name,
        )),
        given_text(args.skill_name).len() == 0 ==> (r matches Err(ToolReply::Failed(m)) && m@
            == "请提供 skill_name 参数"@),
{
    let name = text_arg(&args.skill_name);
    if name.unicode_len() == 0 {
        Err(ToolReply::Failed(owned("请提供 skill_name 参数")))
    } else {
        Ok(owned(name))
    }
}

/// The name a skill's directory takes in the trash: the skill's name, an
/// underscore and the time of deletion in seconds.
pub fn trash_entry_name(name: &str, timestamp: u64) -> (r: String)
    ensures
        r@ == name@ + "_"@ + decimal(timestamp as nat),
{
    let t = u64_text(timestamp);
    concat3(name, "_", t.as_str())
}

/// How moving a skill's directory into the trash went.
pub enum TrashMove {
    /// The skill has no directory.
    SkillMissing,
    /// The trash directory could not be made, for the reason given.
    TrashUnavailable(String),
    /// The directory could not be moved, for the reason given.
    MoveFailed(String),
    /// The directory is in the trash.
    Moved,
}

/// The end of `delete_skill`: once the directory is in the trash the skill
/// is marked deleted; otherwise nothing changes and the reply says why.
pub fn finish_delete(db: &mut SkillDb, name: &str, step: TrashMove, now: &str) -> (r: ToolReply)
    requires
        old(db).wf(),
    ensures
        final(db).wf(),
        final(db).memories == old(db).memories,
        final(db).issues == old(db).issues,
        match step {
            TrashMove::Moved => final(db).skills@ == set_deleted_rows(old(db).skills@, name@, true, now@)
                && (r matches ToolReply::Succeeded(m) && m@ == about_skill(name@, "' 已删除，移至回收站"@)),
            TrashMove::SkillMissing => final(db).skills@ == old(db).skills@ && (r matches ToolReply::Failed(m)
                && m@ == about_skill(name@, "' 不存在"@)),
            TrashMove::TrashUnavailable(e) => final(db).skills@ == old(db).skills@ && (r matches ToolReply::Failed(m)
                && m@ == "创建回收站失败: "@ + e@),
            TrashMove::MoveFailed(e) => final(db).skills@ == old(db).skills@ && (r matches ToolReply::Failed(m)
                && m@ == "移动到回收站失败: "@ + e@),
        },
{
    match step {
        TrashMove::Moved => {
            db.soft_delete(name, now);
            ToolReply::Succeeded(skill_message(name, "' 已删除，移至回收站"))
        },
        TrashMove::SkillMissing => ToolReply::Failed(skill_message(name, "' 不存在")),
        TrashMove::TrashUnavailable(e) => ToolReply::Failed(concat2("创建回收站失败: ", e.as_str())),
        TrashMove::MoveFailed(e) => ToolReply::Failed(concat2("移动到回收站失败: ", e.as_str())),
    }
}

/// An entry of the trash directory.
pub struct TrashEntry {
    pub name: String,
    pub is_dir: bool,
}

/// A trash entry holds the skill `skill`: its name is the skill's name, or
/// begins with the skill's name and an underscore.
pub open spec fn holds_skill(entry: Seq<char>, skill: Seq<char>) -> bool {
    ||| entry == skill
    ||| ((skill + "_"@).len() <= entry.len() && entry.subrange(0, (skill + "_"@).len() as int) == skill
        + "_"@)
}

/// The trash entry `e` is a directory that holds the skill `skill`.
pub open spec fn entry_holds(e: TrashEntry, skill: Seq<char>) -> bool {
    e.is_dir && holds_skill(e.name@, skill)
}

/// The first directory among `entries` that holds the skill `skill`.
pub fn find_in_trash(entries: &Vec<TrashEntry>, skill: &str) -> (r: Option<usize>)
    ensures
        match r {
            Some(i) => i < entries@.len() && entry_holds(entries@[i as int], skill@) && forall|k: int|
                0 <= k < i ==> !entry_holds(#[trigger] entries@[k], skill@),
            None => forall|k: int| 0 <= k < entries@.len() ==> !entry_holds(#[trigger] entries@[k], skill@),
        },
{
    let prefix = concat2(skill, "_");
    let mut i: usize = 0;
    while i < entries.len()
        invariant
            0 <= i <= entries@.len(),
            prefix@ == skill@ + "_"@,
            forall|k: int| 0 <= k < i ==> !entry_holds(#[trigger] entries@[k], skill@),
        decreases entries@.len() - i,
    {
        let e = &entries[i];
        if e.is_dir {
            let same = crate::text::str_eq(e.name.as_str(), skill);
            if same || starts_with(e.name.as_str(), prefix.as_str()) {
                return Some(i);
            }
        }
        i = i + 1;
    }
    None
}

/// How moving a skill's directory out of the trash went.
pub enum RestoreMove {
    /// There is no trash directory.
    TrashMissing,
    /// No directory in the trash holds the skill.
    NotInTrash,
    /// The directory could not be moved back, for the reason given.
    MoveFailed(String),
    /// The directory is back among the skills.
    Moved,
}

/// The end of `restore_skill`: once the directory is back the skill is
/// taken out of the trash; otherwise nothing changes and the reply says why.
pub fn finish_restore(db: &mut SkillDb, name: &str, step: RestoreMove, now: &str) -> (r: ToolReply)
    requires
        old(db).wf(),
    ensures
        final(db).wf(),
        final(db).memories == old(db).memories,
        final(db).issues == old(db).issues,
        match step {
            RestoreMove::Moved => final(db).skills@ == set_deleted_rows(old(db).skills@, name@, false, now@)
                && (r matches ToolReply::Succeeded(m) && m@ == about_skill(name@, "' 已从回收站恢复"@)),
            RestoreMove::TrashMissing => final(db).skills@ == old(db).skills@ && (r matches ToolReply::Failed(m)
                && m@ == "回收站目录不存在"@),
            RestoreMove::NotInTrash => final(db).skills@ == old(db).skills@ && (r matches ToolReply::Failed(m)
                && m@ == "在回收站中未找到 skill '"@ + name@ + "'"@),
            RestoreMove::MoveFailed(e) => final(db).skills@ == old(db).skills@ && (r matches ToolReply::Failed(m)
                && m@ == "恢复失败: "@ + e@),
        },
{
    match step {
        RestoreMove::Moved => {
            db.restore(name, now);
            ToolReply::Succeeded(skill_message(name, "' 已从回收站恢复"))
        },
        RestoreMove::TrashMissing => ToolReply::Failed(owned("回收站目录不存在")),
        RestoreMove::NotInTrash => ToolReply::Failed(concat3("在回收站中未找到 skill '", name, "'")),
        RestoreMove::MoveFailed(e) => ToolReply::Failed(concat2("恢复失败: ", e.as_str())),
    }
}

/// Rows of skills that are switched on.
pub open spec fn is_enabled_row() -> spec_fn(SkillRow) -> bool {
    |r: SkillRow| r.enabled
}

/// Rows of skills that are switched off.
pub open spec fn is_disabled_row() -> spec_fn(SkillRow) -> bool {
    |r: SkillRow| !r.enabled
}

/// `r` lists exactly the skills whose rows are `rows`, with their counts.
pub open spec fn lists_skills(r: ToolReply, rows: Seq<SkillRow>) -> bool {
    r matches ToolReply::SkillList { enabled_count, disabled_count, skills } && skill_rows(skills@)
        == rows && enabled_count == rows.filter(is_enabled_row()).len() && disabled_count
        == rows.filter(is_disabled_row()).len()
}

/// The reply listing `skills`, with how many are switched on and off.
fn skill_list(skills: Vec<Skill>) -> (r: ToolReply)
    ensures
        lists_skills(r, skill_rows(skills@)),
{
    let ghost rows = skill_rows(skills@);
    let mut on: usize = 0;
    let mut off: usize = 0;
    let mut i: usize = 0;
    while i < skills.len()
        invariant
            0 <= i <= skills@.len(),
            rows == skill_rows(skills@),
            on == rows.take(i as int).filter(is_enabled_row()).len(),
            off == rows.take(i as int).filter(is_disabled_row()).len(),
            on + off == i,
        decreases skills@.len() - i,
    {
        proof {
            crate::seqs::lemma_filter_take_step(rows, is_enabled_row(), i as int);
            crate::seqs::lemma_filter_take_step(rows, is_disabled_row(), i as int);
        }
        if skills[i].enabled {
            on = on + 1;
        } else {
            off = off + 1;
        }
        i = i + 1;
    }
    assert(rows.take(skills@.len() as int) =~= rows);
    ToolReply::SkillList { enabled_count: on, disabled_count: off, skills }
}

/// What `search_skills` answers `args` on the store `db`.
pub open spec fn search_outcome(db: SkillDb, args: ToolArgs, r: ToolReply) -> bool {
    &&& given_text(args.query).len() == 0 ==> (r matches ToolReply::Failed(m) && m@ == "请提供 query 参数"@)
    &&& given_text(args.query).len() > 0 ==> lists_skills(
        r,
        search_results(db.skills@, given_text(args.query), opt_view(args.tags)),
    )
}

/// `search_skills`: the skills outside the trash matching the query (and
/// the tags, when given); a missing or empty query is refused.
pub fn search_reply(db: &SkillDb, args: &ToolArgs) -> (r: ToolReply)
    ensures
        search_outcome(*db, *args, r),
{
    let query = text_arg(&args.query);
    if query.unicode_len() == 0 {
        return ToolReply::Failed(owned("请提供 query 参数"));
    }
    let found = db.search(query, opt_arg(&args.tags));
    skill_list(found)
}

/// What `list_skills` answers `args` on the store `db`.
pub open spec fn list_outcome(db: SkillDb, args: ToolArgs, r: ToolReply) -> bool {
    &&& args.tags matches Some(t) ==> lists_skills(r, search_results(db.skills@, Seq::empty(), Some(t@)))
    &&& args.tags is None ==> lists_skills(r, live_skills(db.skills@))
}

/// `list_skills`: the skills outside the trash, or, when tags are given,
/// those whose tags match them.
pub fn list_reply(db: &SkillDb, args: &ToolArgs) -> (r: ToolReply)
    ensures
        list_outcome(*db, *args, r),
{
    match &args.tags {
        Some(t) => {
            proof {
                reveal_strlit("");
                assert(""@ =~= Seq::<char>::empty());
            }
            let found = db.search("", Some(t.as_str()));
            skill_list(found)
        },
        None => skill_list(db.list_all()),
    }
}

/// What `list_trash` answers on the store `db`.
pub open spec fn trash_outcome(db: SkillDb, r: ToolReply) -> bool {
    r matches ToolReply::TrashList { skills } && skill_rows(skills@) == trashed_skills(db.skills@)
}

/// `list_trash`: the skills in the trash.
pub fn trash_reply(db: &SkillDb) -> (r: ToolReply)
    ensures
        trash_outcome(*db, r),
{
    ToolReply::TrashList { skills: db.list_trash() }
}

/// What `enable_skill` (`enabled`) or `disable_skill` answers `args` at the
/// time `now`, with the store going from `before` to `after`.
pub open spec fn switch_outcome(
    before: SkillDb,
    after: SkillDb,
    args: ToolArgs,
    enabled: bool,
    now: Seq<char>,
    r: ToolReply,
) -> bool {
    let name = given_text(args.skill_name);
    &&& after.memories == before.memories
    &&& after.issues == before.issues
    &&& if name.len() == 0 {
        after.skills@ == before.skills@ && (r matches ToolReply::Failed(m) && m@ == "请提供 skill_name 参数"@)
    } else if skill_named(before.skills@, name) matches Some(row) && row.deleted {
        after.skills@ == before.skills@ && (r matches ToolReply::Failed(m) && m@ == about_skill(
            name,
            "' 已在回收站，请先使用 restore_skill 恢复"@,
        ))
    } else {
        after.skills@ == set_enabled_rows(before.skills@, name, enabled, now) && (r matches ToolReply::Succeeded(m)
            && m@ == about_skill(name, if enabled { "' 已启用"@ } else { "' 已禁用"@ }))
    }
}

/// `enable_skill` and `disable_skill`: switches the named skill on or off,
/// unless the name is missing or the skill sits in the trash.
pub fn switch_reply(db: &mut SkillDb, args: &ToolArgs, enabled: bool, now: &str) -> (r: ToolReply)
    requires
        old(db).wf(),
    ensures
        final(db).wf(),
        switch_outcome(*old(db), *final(db), *args, enabled, now@, r),
{
    let name = match skill_name_arg(args) {
        Ok(n) => n,
        Err(reply) => return reply,
    };
    match db.get_by_name(name.as_str()) {
        Some(row) => {
            if row.deleted {
                return ToolReply::Failed(
                    skill_message(name.as_str(), "' 已在回收站，请先使用 restore_skill 恢复"),
                );
            }
        },
        None => {},
    }
    db.set_enabled(name.as_str(), enabled, now);
    if enabled {
        ToolReply::Succeeded(skill_message(name.as_str(), "' 已启用"))
    } else {
        ToolReply::Succeeded(skill_message(name.as_str(), "' 已禁用"))
    }
}

/// The directories, below the home directory, where other tools commonly
/// keep skills.
pub open spec fn common_skill_dirs(home: Seq<char>) -> Seq<Seq<char>> {
    seq![
        home + "/.agents/skills"@,
        home + "/.cursor/skills"@,
        home + "/.windsurf/skills"@,
        home + "/.copilot/skills"@,
        home + "/.config/opencode/skills"@,
        home + "/.trae/skills"@,
        home + "/.qoder/skills"@,
        home + "/.workbuddy/skills"@,
        home + "/.codebuddy/skills"@,
    ]
}

/// The rules for moving skills into the managed directory.
pub open spec fn migration_rules() -> Seq<Seq<char>> {
    seq![
        "扫描上述目录，找到含SKILL.md的目录即为skill"@,
        "已存在于managed_dir的skill跳过，告知用户"@,
        "重名冲突必须询问用户，用户确认后再移动"@,
        "移动完成后调用 refresh_skills 刷新"@,
    ]
}

/// `migrate_skills`: the managed skills directory, the common places of
/// skills below the home directory `home`, and the rules for moving them.
pub fn migrate_reply(skills_path: &str, home: &str) -> (r: ToolReply)
    ensures
        r matches ToolReply::MigrationGuide { managed_dir, common_locations, rules } && managed_dir@
            == skills_path@ && strings_view(common_locations@) == common_skill_dirs(home@)
            && strings_view(rules@) == migration_rules(),
{
    let mut dirs: Vec<String> = Vec::new();
    dirs.push(concat2(home, "/.agents/skills"));
    dirs.push(concat2(home, "/.cursor/skills"));
    dirs.push(concat2(home, "/.windsurf/skills"));
    dirs.push(concat2(home, "/.copilot/skills"));
    dirs.push(concat2(home, "/.config/opencode/skills"));
    dirs.push(concat2(home, "/.trae/skills"));
    dirs.push(concat2(home, "/.qoder/skills"));
    dirs.push(concat2(home, "/.workbuddy/skills"));
    dirs.push(concat2(home, "/.codebuddy/skills"));
    let mut rules: Vec<String> = Vec::new();
    rules.push(owned("扫描上述目录，找到含SKILL.md的目录即为skill"));
    rules.push(owned("已存在于managed_dir的skill跳过，告知用户"));
    rules.push(owned("重名冲突必须询问用户，用户确认后再移动"));
    rules.push(owned("移动完成后调用 refresh_skills 刷新"));
    assert(strings_view(dirs@) =~= common_skill_dirs(home@));
    assert(strings_view(rules@) =~= migration_rules());
    ToolReply::MigrationGuide { managed_dir: owned(skills_path), common_locations: dirs, rules }
}

/// What `remember` answers `args` at the time `now`, with the store going
/// from `before` to `after`.
pub open spec fn remember_outcome(before: SkillDb, after: SkillDb, args: ToolArgs, now: Seq<char>, r: ToolReply) -> bool {
    &&& after.skills == before.skills
    &&& after.issues == before.issues
    &&& given_text(args.content).len() == 0 ==> after.memories == before.memories && (r matches ToolReply::Failed(m)
        && m@ == "请提供 content 参数"@)
    &&& given_text(args.content).len() > 0 && before.memories.last_id() == i64::MAX ==> after.memories.rows()
        == before.memories.rows() && (r matches ToolReply::Failed(m) && m@ == "记住失败: "@ + store_error_text(
        crate::db::StoreError::IdsExhausted,
    ))
    &&& given_text(args.content).len() > 0 && before.memories.last_id() < i64::MAX ==> {
        &&& r matches ToolReply::Remembered { memory_id, message }
        &&& memory_id == before.memories.last_id() + 1
        &&& message@ == "已记住，ID: "@ + signed_decimal(memory_id as int)
        &&& after.memories.rows().drop_last() == before.memories.rows()
        &&& after.memories.rows().len() == before.memories.rows().len() + 1
        &&& after.memories.rows().last().id == memory_id
        &&& after.memories.rows().last().content@ == given_text(args.content)
        &&& opt_view(after.memories.rows().last().tags) == opt_view(args.tags)
        &&& opt_view(after.memories.rows().last().source) == opt_view(args.source)
        &&& after.memories.rows().last().created_at@ == now
    }
}

/// `remember`: stores the note with its tags and source; an empty note is
/// refused, and so is any note once every id has been handed out.
pub fn remember_reply(db: &mut SkillDb, args: &ToolArgs, now: &str) -> (r: ToolReply)
    requires
        old(db).wf(),
    ensures
        final(db).wf(),
        remember_outcome(*old(db), *final(db), *args, now@, r),
{
    let content = text_arg(&args.content);
    if content.unicode_len() == 0 {
        return ToolReply::Failed(owned("请提供 content 参数"));
    }
    match db.remember(content, opt_arg(&args.tags), opt_arg(&args.source), now) {
        Ok(id) => {
            let t = i64_text(id);
            ToolReply::Remembered { memory_id: id, message: concat2("已记住，ID: ", t.as_str()) }
        },
        Err(e) => {
            let why = e.message();
            ToolReply::Failed(concat2("记住失败: ", why.as_str()))
        },
    }
}

/// The tags a `recall` call filters by: the `tags` argument cut at commas,
/// each piece trimmed.
pub open spec fn recall_tags(a: Option<String>) -> Option<Seq<Seq<char>>> {
    match a {
        Some(t) => Some(all_trimmed(split_at(t@, ','))),
        None => None,
    }
}

/// The number of notes a `recall` call asks for, 5 where it does not say.
pub open spec fn recall_limit(a: Option<i64>) -> i64 {
    match a {
        Some(n) => n,
        None => 5,
    }
}

/// What `recall` answers `args` at the time `now`, with the store going
/// from `before` to `after`.
pub open spec fn recall_outcome(before: SkillDb, after: SkillDb, args: ToolArgs, now: Seq<char>, r: ToolReply) -> bool {
    &&& after.skills == before.skills
    &&& after.issues == before.issues
    &&& given_text(args.query).len() == 0 && args.tags is None ==> after.memories == before.memories && (r matches ToolReply::Failed(m)
        && m@ == "请提供 query 或 tags 参数"@)
    &&& !(given_text(args.query).len() == 0 && args.tags is None) ==> {
        &&& r matches ToolReply::Recalled { memories }
        &&& memories@ == recall_selection(
            before.memories.rows(),
            given_text(args.query),
            recall_tags(args.tags),
            match args.include_archived {
                Some(b) => b,
                None => false,
            },
            recall_limit(args.limit),
        )
        &&& memory_rows(after.memories.rows()) == touched(
            memory_rows(before.memories.rows()),
            memory_ids(memories@),
            now,
        )
    }
}

/// `recall`: the notes matching the query and tags (see
/// `memories::recall_selection`), which count as read now; a call with
/// neither a query nor tags is refused.
pub fn recall_reply(db: &mut SkillDb, args: &ToolArgs, now: &str) -> (r: ToolReply)
    requires
        old(db).wf(),
    ensures
        final(db).wf(),
        recall_outcome(*old(db), *final(db), *args, now@, r),
{
    let query = text_arg(&args.query);
    if query.unicode_len() == 0 && args.tags.is_none() {
        return ToolReply::Failed(owned("请提供 query 或 tags 参数"));
    }
    let tags: Option<Vec<String>> = match &args.tags {
        Some(t) => Some(split_trimmed(t.as_str(), ',')),
        None => None,
    };
    let include_archived = match args.include_archived {
        Some(b) => b,
        None => false,
    };
    let limit: i64 = match args.limit {
        Some(n) => n,
        None => 5,
    };
    let memories = db.recall(query, tags, include_archived, limit, now);
    ToolReply::Recalled { memories }
}

/// The note id a `forget` call names, 0 where it names none.
pub open spec fn forget_id(args: ToolArgs) -> i64 {
    match args.memory_id {
        Some(n) => n,
        None => 0,
    }
}

/// What `forget` answers `args`, with the store going from `before` to
/// `after`.
pub open spec fn forget_outcome(before: SkillDb, after: SkillDb, args: ToolArgs, r: ToolReply) -> bool {
    let id = forget_id(args);
    &&& after.skills == before.skills
    &&& after.issues == before.issues
    &&& if id == 0 {
        after.memories == before.memories && (r matches ToolReply::Failed(m) && m@ == "请提供 memory_id 参数"@)
    } else {
        after.memories.rows() == before.memories.rows().filter(id_is_not(id)) && (r matches ToolReply::Succeeded(m)
            && m@ == "已删除记忆 ID: "@ + signed_decimal(id as int))
    }
}

/// `forget`: deletes the note with the given id; a missing id, or id 0,
/// is refused.
pub fn forget_reply(db: &mut SkillDb, args: &ToolArgs) -> (r: ToolReply)
    requires
        old(db).wf(),
    ensures
        final(db).wf(),
        forget_outcome(*old(db), *final(db), *args, r),
{
    let id: i64 = match args.memory_id {
        Some(n) => n,
        None => 0,
    };
    if id == 0 {
        return ToolReply::Failed(owned("请提供 memory_id 参数"));
    }
    db.forget(id);
    let t = i64_text(id);
    ToolReply::Succeeded(concat2("已删除记忆 ID: ", t.as_str()))
}

/// The age in days past which `archive_memories` archives notes, 30 where
/// the call does not say.
pub fn archive_days(args: &ToolArgs) -> (r: i64)
    ensures
        r == match args.older_than_days {
            Some(d) => d,
            None => 30i64,
        },
{
    match args.older_than_days {
        Some(d) => d,
        None => 30,
    }
}

/// `archive_memories`: archives the notes created before `cutoff` (the
/// time that many days ago) and says how many there were.
pub fn archive_reply(db: &mut SkillDb, cutoff: &str, now: &str) -> (r: ToolReply)
    requires
        old(db).wf(),
    ensures
        final(db).wf(),
        final(db).skills == old(db).skills,
        final(db).issues == old(db).issues,
        memory_rows(final(db).memories.rows()) == archived_rows(
            memory_rows(old(db).memories.rows()),
            cutoff@,
            now@,
        ),
        r matches ToolReply::Archived { archived_count, message } && archived_count == memory_rows(
            old(db).memories.rows(),
        ).filter(archive_filter(cutoff@)).len() && message@ == "已归档 "@ + signed_decimal(
            archived_count as int,
        ) + " 条记忆"@,
{
    let n = db.archive(cutoff, now);
    let t = i64_text(n);
    ToolReply::Archived { archived_count: n, message: concat3("已归档 ", t.as_str(), " 条记忆") }
}

/// What `get_memory_stats` answers on the store `db`.
pub open spec fn stats_outcome(db: SkillDb, r: ToolReply) -> bool {
    r matches ToolReply::Counts(c) && c.total as int == db.memories.rows().len() && c.archived as int
        == memory_rows(db.memories.rows()).filter(is_archived_row()).len() && c.active == c.total - c.archived
}

/// `get_memory_stats`: how many notes there are, archived or not.
pub fn stats_reply(db: &SkillDb) -> (r: ToolReply)
    requires
        db.wf(),
    ensures
        stats_outcome(*db, r),
{
    ToolReply::Counts(db.get_stats())
}

/// The number of issues a `search_issues` call asks for, 10 where it does
/// not say.
pub open spec fn issue_limit(a: Option<i64>) -> i64 {
    match a {
        Some(n) => n,
        None => 10,
    }
}

/// What `search_issues` answers `args` on the store `db`.
pub open spec fn search_issues_outcome(db: SkillDb, args: ToolArgs, r: ToolReply) -> bool {
    &&& given_text(args.query).len() == 0 && args.task is None && args.category is None ==> (r matches ToolReply::Failed(m)
        && m@ == "请提供 query、task 或 category 参数"@)
    &&& !(given_text(args.query).len() == 0 && args.task is None && args.category is None) ==> (r matches ToolReply::IssueList {
        issues,
    } && issues@ == issue_selection(
        db.issues.rows(),
        given_text(args.query),
        opt_view(args.task),
        opt_view(args.category),
        issue_limit(args.limit),
    ))
}

/// `search_issues`: the issues matching the query, task and category (see
/// `issues::issue_selection`); a call with none of them is refused.
pub fn search_issues_reply(db: &SkillDb, args: &ToolArgs) -> (r: ToolReply)
    requires
        db.wf(),
    ensures
        search_issues_outcome(*db, *args, r),
{
    let query = text_arg(&args.query);
    if query.unicode_len() == 0 && args.task.is_none() && args.category.is_none() {
        return ToolReply::Failed(owned("请提供 query、task 或 category 参数"));
    }
    let limit: i64 = match args.limit {
        Some(n) => n,
        None => 10,
    };
    let issues = db.search_issues(query, opt_arg(&args.task), opt_arg(&args.category), limit);
    ToolReply::IssueList { issues }
}

/// What `report_issue` answers `args` at the time `now`, with the store
/// going from `before` to `after`.
pub open spec fn report_outcome(before: SkillDb, after: SkillDb, args: ToolArgs, now: Seq<char>, r: ToolReply) -> bool {
    let category = given_text(args.category);
    let scenario = given_text(args.scenario);
    let solution = given_text(args.solution);
    &&& after.skills == before.skills
    &&& after.memories == before.memories
    &&& if category.len() == 0 || scenario.len() == 0 || solution.len() == 0 {
        after.issues == before.issues && (r matches ToolReply::Failed(m) && m@
            == "请提供 category、scenario、solution 参数"@)
    } else {
        &&& before.issues.last_id() == i64::MAX ==> (r matches ToolReply::Failed(m) && m@
            == "记录失败: "@ + store_error_text(crate::db::StoreError::IdsExhausted))
        &&& before.issues.last_id() < i64::MAX && before.issues.rows().len() == 0 ==> r is Reported
        &&& before.issues.last_id() < i64::MAX && r is Failed ==> before.issues.rows().len() > 0 && (r matches ToolReply::Failed(m)
            && m@ == "记录失败: "@ + store_error_text(crate::db::StoreError::DuplicateIssueId))
        &&& r matches ToolReply::Failed(m) ==> after.issues.rows() == before.issues.rows()
            && (m@ == "记录失败: "@ + store_error_text(crate::db::StoreError::IdsExhausted) || m@
            == "记录失败: "@ + store_error_text(crate::db::StoreError::DuplicateIssueId))
        &&& (r is Failed || r is Reported)
        &&& r matches ToolReply::Reported { issue_id, message } ==> {
            &&& issue_id == before.issues.last_id() + 1
            &&& message@ == "已记录问题，ID: "@ + signed_decimal(issue_id as int)
            &&& after.issues.rows().drop_last() == before.issues.rows()
            &&& after.issues.rows().len() == before.issues.rows().len() + 1
            &&& after.issues.rows().last().category@ == category
            &&& opt_view(after.issues.rows().last().task) == opt_view(args.task)
            &&& after.issues.rows().last().scenario@ == scenario
            &&& after.issues.rows().last().solution@ == solution
            &&& opt_view(after.issues.rows().last().related_api) == opt_view(args.related_api)
            &&& after.issues.rows().last().frequency@ == "low"@
            &&& after.issues.rows().last().created_at@ == now
        }
    }
}

/// `report_issue`: records the issue, with frequency "low" and a fresh
/// public id; a call missing the category, the scenario or the solution is
/// refused, and so is any issue once every row id has been handed out.
/// Otherwise it is recorded while the log is empty; with issues recorded,
/// the random public id may clash with one of theirs, and the reply then
/// says the recording failed.
pub fn report_issue_reply(db: &mut SkillDb, args: &ToolArgs, now: &str) -> (r: ToolReply)
    requires
        old(db).wf(),
    ensures
        final(db).wf(),
        report_outcome(*old(db), *final(db), *args, now@, r),
{
    let category = text_arg(&args.category);
    let scenario = text_arg(&args.scenario);
    let solution = text_arg(&args.solution);
    if category.unicode_len() == 0 || scenario.unicode_len() == 0 || solution.unicode_len() == 0 {
        return ToolReply::Failed(owned("请提供 category、scenario、solution 参数"));
    }
    match db.report_issue(category, opt_arg(&args.task), scenario, solution, opt_arg(&args.related_api), now) {
        Ok(id) => {
            let t = i64_text(id);
            ToolReply::Reported { issue_id: id, message: concat2("已记录问题，ID: ", t.as_str()) }
        },
        Err(e) => {
            let why = e.message();
            ToolReply::Failed(concat2("记录失败: ", why.as_str()))
        },
    }
}

/// The first step of a tool call: the reply, where the store alone
/// answers it, or the outside work the call needs next.
pub enum CallStep {
    /// The call is answered.
    Reply(ToolReply),
    /// The tool list is to be refreshed.
    Refresh,
    /// The file `file_path` below `base_path` is to be read.
    ReadFile { base_path: String, file_path: String },
    /// The directory `dir_path` below `base_path` is to be listed.
    ListDir { base_path: String, dir_path: String },
    /// The directory of the skill `name` below `skills_path` is to be moved
    /// into the trash; `finish_delete` then takes how that went.
    MoveToTrash { skills_path: String, name: String },
    /// The directory of the skill `name` is to be moved out of the trash
    /// next to `skills_path`; `finish_restore` then takes how that went.
    MoveFromTrash { skills_path: String, name: String },
    /// The notes older than `days` days are to be archived: `archive_reply`
    /// takes the time that many days ago.
    Archive { days: i64 },
    /// The migration guide for `skills_path` is to be given: `migrate_reply`
    /// takes the home directory.
    Migrate { skills_path: String },
}

/// The store holds the same skills, notes and issues.
pub open spec fn store_unchanged(before: SkillDb, after: SkillDb) -> bool {
    &&& after.skills@ == before.skills@
    &&& after.memories == before.memories
    &&& after.issues == before.issues
}

/// A call to the built-in handler `h` lacks an argument that the handler
/// needs (the `required` fields of the tool's input schema, and for
/// `recall` and `search_issues` at least one of their search fields).
pub open spec fn missing_argument(h: HandlerView, args: ToolArgs) -> bool {
    match h {
        HandlerView::DeleteSkill { .. } | HandlerView::RestoreSkill { .. } | HandlerView::EnableSkill
        | HandlerView::DisableSkill => given_text(args.skill_name).len() == 0,
        HandlerView::SearchSkills => given_text(args.query).len() == 0,
        HandlerView::Remember => given_text(args.content).len() == 0,
        HandlerView::Recall => given_text(args.query).len() == 0 && args.tags is None,
        HandlerView::Forget => forget_id(args) == 0,
        HandlerView::SearchIssues => given_text(args.query).len() == 0 && args.task is None
            && args.category is None,
        HandlerView::ReportIssue => given_text(args.category).len() == 0 || given_text(args.scenario).len()
            == 0 || given_text(args.solution).len() == 0,
        _ => false,
    }
}

/// The first step of a call to the handler `h` with `args` at the time
/// `now`, with the store going from `before` to `after`.
pub open spec fn call_start_outcome(
    h: HandlerView,
    before: SkillDb,
    after: SkillDb,
    args: ToolArgs,
    now: Seq<char>,
    step: CallStep,
) -> bool {
    match h {
        HandlerView::RefreshSkills => store_unchanged(before, after) && step is Refresh,
        HandlerView::ReadFile { base_path, file_path } => store_unchanged(before, after) && (step matches CallStep::ReadFile {
            base_path: b,
            file_path: f,
        } && b@ == base_path && f@ == file_path),
        HandlerView::ListDir { base_path, dir_path } => store_unchanged(before, after) && (step matches CallStep::ListDir {
            base_path: b,
            dir_path: d,
        } && b@ == base_path && d@ == dir_path),
        HandlerView::DeleteSkill { skills_path } => store_unchanged(before, after) && if given_text(args.skill_name).len()
            == 0 {
            step matches CallStep::Reply(ToolReply::Failed(m)) && m@ == "请提供 skill_name 参数"@
        } else {
            step matches CallStep::MoveToTrash { skills_path: p, name } && p@ == skills_path && name@
                == given_text(args.skill_name)
        },
        HandlerView::RestoreSkill { skills_path } => store_unchanged(before, after) && if given_text(args.skill_name).len()
            == 0 {
            step matches CallStep::Reply(ToolReply::Failed(m)) && m@ == "请提供 skill_name 参数"@
        } else {
            step matches CallStep::MoveFromTrash { skills_path: p, name } && p@ == skills_path && name@
                == given_text(args.skill_name)
        },
        HandlerView::SearchSkills => store_unchanged(before, after) && (step matches CallStep::Reply(r)
            && search_outcome(before, args, r)),
        HandlerView::ListSkills => store_unchanged(before, after) && (step matches CallStep::Reply(r)
            && list_outcome(before, args, r)),
        HandlerView::ListTrash => store_unchanged(before, after) && (step matches CallStep::Reply(r)
            && trash_outcome(before, r)),
        HandlerView::EnableSkill => step matches CallStep::Reply(r) && switch_outcome(before, after, args, true, now, r),
        HandlerView::DisableSkill => step matches CallStep::Reply(r) && switch_outcome(
            before,
            after,
            args,
            false,
            now,
            r,
        ),
        HandlerView::MigrateSkills { skills_path } => store_unchanged(before, after) && (step matches CallStep::Migrate {
            skills_path: p,
        } && p@ == skills_path),
        HandlerView::Remember => step matches CallStep::Reply(r) && remember_outcome(before, after, args, now, r),
        HandlerView::Recall => step matches CallStep::Reply(r) && recall_outcome(before, after, args, now, r),
        HandlerView::Forget => step matches CallStep::Reply(r) && forget_outcome(before, after, args, r),
        HandlerView::ArchiveMemories => store_unchanged(before, after) && (step matches CallStep::Archive { days }
            && days == match args.older_than_days {
            Some(d) => d,
            None => 30i64,
        }),
        HandlerView::MemoryStats => store_unchanged(before, after) && (step matches CallStep::Reply(r)
            && stats_outcome(before, r)),
        HandlerView::SearchIssues => store_unchanged(before, after) && (step matches CallStep::Reply(r)
            && search_issues_outcome(before, args, r)),
        HandlerView::ReportIssue => step matches CallStep::Reply(r) && report_outcome(before, after, args, now, r),
    }
}

/// Runs the handler `handler` on `args` as far as the store alone can
/// take it: the reply, or the outside work the call needs next.
pub fn start_call(handler: &ToolHandler, args: &ToolArgs, db: &mut SkillDb, now: &str) -> (r: CallStep)
    requires
        old(db).wf(),
    ensures
        final(db).wf(),
        call_start_outcome(handler@, *old(db), *final(db), *args, now@, r),
        missing_argument(handler@, *args) ==> (r matches CallStep::Reply(ToolReply::Failed(_)))
            && store_unchanged(*old(db), *final(db)),
{
    let r = match handler {
        ToolHandler::RefreshSkills => CallStep::Refresh,
        ToolHandler::ReadFile { base_path, file_path } => CallStep::ReadFile {
            base_path: base_path.clone(),
            file_path: file_path.clone(),
        },
        ToolHandler::ListDir { base_path, dir_path } => CallStep::ListDir {
            base_path: base_path.clone(),
            dir_path: dir_path.clone(),
        },
        ToolHandler::DeleteSkill { skills_path } => match skill_name_arg(args) {
            Err(reply) => CallStep::Reply(reply),
            Ok(name) => CallStep::MoveToTrash { skills_path: skills_path.clone(), name },
        },
        ToolHandler::RestoreSkill { skills_path } => match skill_name_arg(args) {
            Err(reply) => CallStep::Reply(reply),
            Ok(name) => CallStep::MoveFromTrash { skills_path: skills_path.clone(), name },
        },
        ToolHandler::SearchSkills => CallStep::Reply(search_reply(db, args)),
        ToolHandler::ListSkills => CallStep::Reply(list_reply(db, args)),
        ToolHandler::ListTrash => CallStep::Reply(trash_reply(db)),
        ToolHandler::EnableSkill => CallStep::Reply(switch_reply(db, args, true, now)),
        ToolHandler::DisableSkill => CallStep::Reply(switch_reply(db, args, false, now)),
        ToolHandler::MigrateSkills { skills_path } => CallStep::Migrate { skills_path: skills_path.clone() },
        ToolHandler::Remember => CallStep::Reply(remember_reply(db, args, now)),
        ToolHandler::Recall => CallStep::Reply(recall_reply(db, args, now)),
        ToolHandler::Forget => CallStep::Reply(forget_reply(db, args)),
        ToolHandler::ArchiveMemories => CallStep::Archive { days: archive_days(args) },
        ToolHandler::MemoryStats => CallStep::Reply(stats_reply(db)),
        ToolHandler::SearchIssues => CallStep::Reply(search_issues_reply(db, args)),
        ToolHandler::ReportIssue => CallStep::Reply(report_issue_reply(db, args, now)),
    };
    proof {
        if missing_argument(handler@, *args) {
            law_missing_argument_refused(handler@, *old(db), *db, *args, now@, r);
        }
    }
    r
}

/// Every built-in handler (each one `register_mcp_tools` puts in the
/// handler table, see `builtin_handlers`) answers a call that lacks an
/// argument it needs with an error reply, and leaves the store as it was:
/// no skill, note or issue changes, and no directory move is asked for.
pub proof fn law_missing_argument_refused(
    h: HandlerView,
    before: SkillDb,
    after: SkillDb,
    args: ToolArgs,
    now: Seq<char>,
    step: CallStep,
)
    requires
        call_start_outcome(h, before, after, args, now, step),
        missing_argument(h, args),
    ensures
        step matches CallStep::Reply(ToolReply::Failed(_)),
        store_unchanged(before, after),
{
}

/// A `recall` call that does not ask for archived notes (its
/// `include_archived` is missing or false) gets no archived note back, and
/// one that gives no limit gets at most 5 notes.
pub proof fn law_recall_skips_archived_unless_asked(
    before: SkillDb,
    after: SkillDb,
    args: ToolArgs,
    now: Seq<char>,
    r: ToolReply,
)
    requires
        before.wf(),
        recall_outcome(before, after, args, now, r),
        args.include_archived != Some(true),
    ensures
        r matches ToolReply::Recalled { memories } ==> forall|i: int|
            0 <= i < memories@.len() ==> !(#[trigger] memories@[i]).is_archived,
        args.limit is None ==> (r matches ToolReply::Recalled { memories } ==> memories@.len() <= 5),
{
    if let ToolReply::Recalled { memories } = r {
        let rows = before.memories.rows();
        let q = given_text(args.query);
        let tags = recall_tags(args.tags);
        let limit = recall_limit(args.limit);
        assert(memories@ == recall_selection(rows, q, tags, false, limit));
        crate::db::memories::law_recall_shape(rows, before.memories.last_id(), q, tags, false, limit);
        assert forall|i: int| 0 <= i < memories@.len() implies !(#[trigger] memories@[i]).is_archived by {
            let m = memories@[i];
            crate::db::memories::law_recall_shape(rows, before.memories.last_id(), q, tags, false, limit);
            assert(recall_selection(rows, q, tags, false, limit).contains(m));
            assert(rows.contains(m));
            assert(crate::db::memories::recall_hit(m@, crate::query::sanitized(q), tags, false));
            assert(!m@.is_archived);
        }
    }
}

/// A `search_issues` call that gives no limit gets at most 10 issues.
pub proof fn law_issue_search_default_limit(db: SkillDb, args: ToolArgs, r: ToolReply)
    requires
        search_issues_outcome(db, args, r),
        args.limit is None,
    ensures
        r matches ToolReply::IssueList { issues } ==> issues@.len() <= 10,
{
}

/// A skill moved into the trash under the name `trash_entry_name` gives is
/// found there again by its name.
pub proof fn law_trashed_skill_is_found(name: Seq<char>, timestamp: u64)
    ensures
        holds_skill(name + "_"@ + decimal(timestamp as nat), name),
{
    let entry = name + "_"@ + decimal(timestamp as nat);
    let key = name + "_"@;
    assert(entry.subrange(0, key.len() as int) =~= key);
}

/// The skills listed are each counted once, as switched on or off.
pub proof fn law_counts_add_up(rows: Seq<SkillRow>)
    ensures
        rows.filter(is_enabled_row()).len() + rows.filter(is_disabled_row()).len() == rows.len(),
    decreases rows.len(),
{
    reveal(Seq::filter);
    if rows.len() > 0 {
        law_counts_add_up(rows.drop_last());
    }
}

} // verus!
