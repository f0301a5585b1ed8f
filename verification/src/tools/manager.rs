//! The tool manager: the tools the server lists and the handlers behind
//! them, rebuilt from the tool configuration and the skills on disk.
use vstd::prelude::*;

use crate::db::issues::str_opt_view;
use crate::db::skills::{
    live_skills, retain_found, search_results, set_deleted_rows, set_enabled_rows, skill_named, skill_rows,
    upsert_rows, SkillRow,
};
use crate::db::{Skill, SkillDb};
use crate::management::skill_ops;
use crate::exec::{
    handlers_applied, lemma_applied_concat, lemma_applied_push, HandlerView, ToolExecutor,
    ToolHandler,
};
use crate::text::{concat2, concat3, decimal, owned, str_eq, strings_view, u64_text};
use crate::tools::loader::JsonLoader;
use crate::tools::mcp_tools::{
    builtin_handlers, builtin_tools, register_mcp_tools, tool_views, ToolSchema, ToolSchemaView,
    ToolSpec, ToolSpecView,
};
use crate::tools::replies::{about_skill, ToolReply, TrashMove};
use crate::tools::schema::{error_text, AppError, ToolConfig, ToolDefinition};
use crate::tools::skill_scanner::{infos_view, json_string_array, strings_to_json, SkillInfo, SkillInfoView};

verus! {

broadcast use {vstd::seq_lib::group_seq_properties, vstd::seq::group_seq_axioms};

/// The tool a configured definition lists.
pub open spec fn def_tool(d: ToolDefinition) -> ToolSpecView {
    ToolSpecView {
        name: d.name@,
        description: d.description@,
        schema: ToolSchemaView::Json(d.input_schema@),
    }
}

/// The handler a configured definition asks for: `refresh_tools` refreshes
/// the skills, `file_reader` reads the schema's default file (or the empty
/// path) below the skills directory; any other kind gets none.
pub open spec fn def_handler(d: ToolDefinition, skills_path: Seq<char>) -> Option<HandlerView> {
    if d.handler@ == "refresh_tools"@ {
        Some(HandlerView::RefreshSkills)
    } else if d.handler@ == "file_reader"@ {
        Some(
            HandlerView::ReadFile {
                base_path: skills_path,
                file_path: match d.default_file_path {
                    Some(f) => f@,
                    None => Seq::empty(),
                },
            },
        )
    } else {
        None
    }
}

pub open spec fn defs_tools(defs: Seq<ToolDefinition>) -> Seq<ToolSpecView>
    decreases defs.len(),
{
    if defs.len() == 0 {
        Seq::empty()
    } else {
        defs_tools(defs.drop_last()).push(def_tool(defs.last()))
    }
}

pub open spec fn defs_entries(defs: Seq<ToolDefinition>, skills_path: Seq<char>) -> Seq<(Seq<char>, HandlerView)>
    decreases defs.len(),
{
    if defs.len() == 0 {
        Seq::empty()
    } else {
        defs_entries(defs.drop_last(), skills_path) + match def_handler(defs.last(), skills_path) {
            Some(h) => seq![(defs.last().name@, h)],
            None => Seq::empty(),
        }
    }
}

/// The tools of the configuration files, file by file.
pub open spec fn configs_tools(cs: Seq<ToolConfig>) -> Seq<ToolSpecView>
    decreases cs.len(),
{
    if cs.len() == 0 {
        Seq::empty()
    } else {
        configs_tools(cs.drop_last()) + defs_tools(cs.last().tools@)
    }
}

/// The handlers of the configuration files, file by file.
pub open spec fn configs_entries(cs: Seq<ToolConfig>, skills_path: Seq<char>) -> Seq<(Seq<char>, HandlerView)>
    decreases cs.len(),
{
    if cs.len() == 0 {
        Seq::empty()
    } else {
        configs_entries(cs.drop_last(), skills_path) + defs_entries(cs.last().tools@, skills_path)
    }
}

/// The skill table after registering each skill found, in turn; its tags
/// are stored as a JSON list.
pub open spec fn upsert_all(rows: Seq<SkillRow>, skills: Seq<SkillInfo>, now: Seq<char>) -> Seq<SkillRow>
    decreases skills.len(),
{
    if skills.len() == 0 {
        rows
    } else {
        let s = skills.last();
        upsert_rows(
            upsert_all(rows, skills.drop_last(), now),
            s.name@,
            s.description@,
            json_string_array(strings_view(s.tags@)),
            s.skill_file@,
            s.dir_name@,
            now,
        )
    }
}

pub open spec fn skill_names(skills: Seq<SkillInfo>) -> Seq<Seq<char>> {
    skills.map_values(|s: SkillInfo| s.name@)
}

/// The skill table synchronised with the skills found on disk: skills
/// outside the trash that were not found are deleted for good, then each
/// skill found is registered.
pub open spec fn synced_rows(rows: Seq<SkillRow>, skills: Seq<SkillInfo>, now: Seq<char>) -> Seq<SkillRow> {
    upsert_all(retain_found(rows, skill_names(skills)), skills, now)
}

/// A skill is offered as a tool unless the table lists it (outside the
/// trash) as disabled.
pub open spec fn skill_tool_enabled(rows: Seq<SkillRow>, name: Seq<char>) -> bool {
    !(skill_named(rows, name) matches Some(r) && !r.deleted && !r.enabled)
}

pub open spec fn skill_tools(skills: Seq<SkillInfo>, rows: Seq<SkillRow>) -> Seq<ToolSpecView>
    decreases skills.len(),
{
    if skills.len() == 0 {
        Seq::empty()
    } else {
        let s = skills.last();
        skill_tools(skills.drop_last(), rows) + if skill_tool_enabled(rows, s.name@) {
            seq![
                ToolSpecView {
                    name: s.name@,
                    description: s.description@,
                    schema: ToolSchemaView::SkillFile(s.skill_file@),
                },
            ]
        } else {
            Seq::empty()
        }
    }
}

pub open spec fn skill_entries(skills: Seq<SkillInfo>, rows: Seq<SkillRow>, skills_path: Seq<char>) -> Seq<(Seq<char>, HandlerView)>
    decreases skills.len(),
{
    if skills.len() == 0 {
        Seq::empty()
    } else {
        let s = skills.last();
        skill_entries(skills.drop_last(), rows, skills_path) + if skill_tool_enabled(rows, s.name@) {
            seq![(s.name@, HandlerView::ReadFile { base_path: skills_path, file_path: s.skill_file@ })]
        } else {
            Seq::empty()
        }
    }
}

/// The tools after a reload: those of the configuration, then one per
/// enabled skill, then the built-in ones.
pub open spec fn reload_tools(
    cs: Seq<ToolConfig>,
    skills: Seq<SkillInfo>,
    rows: Seq<SkillRow>,
) -> Seq<ToolSpecView> {
    configs_tools(cs) + skill_tools(skills, rows) + builtin_tools()
}

/// The handlers set by a reload, in the order they are set.
pub open spec fn reload_entries(
    cs: Seq<ToolConfig>,
    skills: Seq<SkillInfo>,
    rows: Seq<SkillRow>,
    skills_path: Seq<char>,
) -> Seq<(Seq<char>, HandlerView)> {
    configs_entries(cs, skills_path) + skill_entries(skills, rows, skills_path) + builtin_handlers(
        skills_path,
    ) + seq![("refresh_skills"@, HandlerView::RefreshSkills)]
}

/// Lists and runs the server's tools.
pub struct ToolManager {
    tools: Vec<ToolSpec>,
    executor: ToolExecutor,
    loader: JsonLoader,
    skills_path: String,
    reload_flag: bool,
    skills: Vec<SkillInfo>,
}

impl ToolManager {
    pub closed spec fn tools_view(&self) -> Seq<ToolSpecView> {
        tool_views(self.tools@)
    }

    pub closed spec fn handlers_view(&self) -> Map<Seq<char>, HandlerView> {
        self.executor@
    }

    pub closed spec fn skills_view(&self) -> Seq<SkillInfoView> {
        infos_view(self.skills@)
    }

    pub closed spec fn skills_path_view(&self) -> Seq<char> {
        self.skills_path@
    }

    pub closed spec fn tools_path_view(&self) -> Seq<char> {
        self.loader.tools_path@
    }

    pub closed spec fn reload_requested(&self) -> bool {
        self.reload_flag
    }

    pub closed spec fn wf(&self) -> bool {
        self.executor.wf()
    }

    /// A manager with no tools yet, for the configuration in `tools_path`
    /// and the skills in `skills_path`.
    pub fn new(tools_path: &str, skills_path: &str) -> (r: ToolManager)
        ensures
            r.wf(),
            r.tools_view() == Seq::<ToolSpecView>::empty(),
            r.handlers_view() == Map::<Seq<char>, HandlerView>::empty(),
            r.skills_view() == Seq::<SkillInfoView>::empty(),
            r.skills_path_view() == skills_path@,
            r.tools_path_view() == tools_path@,
            !r.reload_requested(),
    {
        let r = ToolManager {
            tools: Vec::new(),
            executor: ToolExecutor::new(),
            loader: JsonLoader::new(tools_path),
            skills_path: owned(skills_path),
            reload_flag: false,
            skills: Vec::new(),
        };
        assert(tool_views(r.tools@) =~= Seq::<ToolSpecView>::empty());
        r
    }

    /// The skills directory.
    pub fn skills_path(&self) -> (r: &str)
        ensures
            r@ == self.skills_path_view(),
    {
        self.skills_path.as_str()
    }

    /// The loader of the tool configuration.
    pub fn loader(&self) -> (r: &JsonLoader)
        ensures
            r.tools_path@ == self.tools_path_view(),
    {
        &self.loader
    }

    /// Asks for a reload at the next chance.
    pub fn trigger_reload(&mut self)
        requires
            old(self).wf(),
        ensures
            final(self).wf(),
            final(self).reload_requested(),
            final(self).tools_view() == old(self).tools_view(),
            final(self).handlers_view() == old(self).handlers_view(),
            final(self).skills_view() == old(self).skills_view(),
            final(self).skills_path_view() == old(self).skills_path_view(),
            final(self).tools_path_view() == old(self).tools_path_view(),
    {
        self.reload_flag = true;
    }

    /// Whether a reload was asked for, clearing the request.
    pub fn take_reload_request(&mut self) -> (r: bool)
        requires
            old(self).wf(),
        ensures
            final(self).wf(),
            r == old(self).reload_requested(),
            !final(self).reload_requested(),
            final(self).tools_view() == old(self).tools_view(),
            final(self).handlers_view() == old(self).handlers_view(),
            final(self).skills_view() == old(self).skills_view(),
            final(self).skills_path_view() == old(self).skills_path_view(),
            final(self).tools_path_view() == old(self).tools_path_view(),
    {
        let r = self.reload_flag;
        self.reload_flag = false;
        r
    }

    /// The number of tools listed.
    pub fn count(&self) -> (r: usize)
        ensures
            r == self.tools_view().len(),
    {
        self.tools.len()
    }

    /// The tools listed, in order.
    pub fn get_tools(&self) -> (r: Vec<ToolSpec>)
        ensures
            tool_views(r@) == self.tools_view(),
    {
        let mut out: Vec<ToolSpec> = Vec::new();
        let mut i: usize = 0;
        while i < self.tools.len()
            invariant
                0 <= i <= self.tools@.len(),
                out@ == self.tools@.take(i as int),
            decreases self.tools@.len() - i,
        {
            out.push(self.tools[i].clone());
            i = i + 1;
            assert(out@ =~= self.tools@.take(i as int));
        }
        assert(self.tools@.take(self.tools@.len() as int) =~= self.tools@);
        out
    }

    /// The skills found by the last reload.
    pub fn get_skills(&self) -> (r: Vec<SkillInfo>)
        ensures
            infos_view(r@) == self.skills_view(),
    {
        let mut out: Vec<SkillInfo> = Vec::new();
        let mut i: usize = 0;
        while i < self.skills.len()
            invariant
                0 <= i <= self.skills@.len(),
                out@.len() == i,
                infos_view(out@) == infos_view(self.skills@.take(i as int)),
            decreases self.skills@.len() - i,
        {
            let ghost before = out@;
            let c = self.skills[i].clone();
            out.push(c);
            proof {
                let t = self.skills@.take(i + 1);
                assert forall|k: int| 0 <= k < t.len() implies #[trigger] infos_view(out@)[k] == infos_view(t)[k] by {
                    if k < i {
                        assert(infos_view(before)[k] == infos_view(self.skills@.take(i as int))[k]);
                    }
                }
                assert(infos_view(out@) =~= infos_view(t));
            }
            i = i + 1;
        }
        assert(self.skills@.take(self.skills@.len() as int) =~= self.skills@);
        out
    }

    /// The table from tool names to handlers.
    pub fn executor(&self) -> (r: &ToolExecutor)
        requires
            self.wf(),
        ensures
            r.wf(),
            r@ == self.handlers_view(),
    {
        &self.executor
    }

    /// The first tool listed under `name`, as a definition: its name,
    /// description and schema, with no handler kind.
    pub fn find_tool(&self, name: &str) -> (r: Option<ToolSpec>)
        ensures
            match r {
                Some(t) => exists|i: int|
                    0 <= i < self.tools_view().len() && self.tools_view()[i] == t@ && t@.name == name@
                        && forall|k: int| 0 <= k < i ==> #[trigger] self.tools_view()[k].name != name@,
                None => forall|k: int|
                    0 <= k < self.tools_view().len() ==> #[trigger] self.tools_view()[k].name != name@,
            },
    {
        let mut i: usize = 0;
        while i < self.tools.len()
            invariant
                0 <= i <= self.tools@.len(),
                forall|k: int| 0 <= k < i ==> #[trigger] tool_views(self.tools@)[k].name != name@,
            decreases self.tools@.len() - i,
        {
            assert(tool_views(self.tools@)[i as int] == self.tools@[i as int]@);
            if str_eq(self.tools[i].name.as_str(), name) {
                return Some(self.tools[i].clone());
            }
            i = i + 1;
        }
        None
    }

    /// The first load of the tools: a reload (see `reload`).
    pub fn init(&mut self, configs: &Vec<ToolConfig>, scanned: Vec<SkillInfo>, db: &mut SkillDb, now: &str)
        requires
            old(self).wf(),
            old(db).wf(),
        ensures
            final(self).wf(),
            final(db).wf(),
            final(db).skills@ == synced_rows(old(db).skills@, scanned@, now@),
            final(db).memories == old(db).memories,
            final(db).issues == old(db).issues,
            final(self).tools_view() == reload_tools(configs@, scanned@, final(db).skills@),
            final(self).handlers_view() == handlers_applied(
                Map::empty(),
                reload_entries(configs@, scanned@, final(db).skills@, old(self).skills_path_view()),
            ),
            final(self).skills_view() == infos_view(scanned@),
            final(self).skills_path_view() == old(self).skills_path_view(),
            final(self).tools_path_view() == old(self).tools_path_view(),
            final(self).reload_requested() == old(self).reload_requested(),
    {
        self.reload(configs, scanned, db, now)
    }

    /// The skills outside the trash, from the store.
    pub fn list_from_db(&self, db: &SkillDb) -> (r: Result<Vec<Skill>, AppError>)
        ensures
            r matches Ok(v) && skill_rows(v@) == live_skills(db.skills@),
    {
        Ok(db.list_all())
    }

    /// The skills outside the trash matching `%query%` (and `%tags%`).
    pub fn search_in_db(&self, db: &SkillDb, query: &str, tags: Option<&str>) -> (r: Result<Vec<Skill>, AppError>)
        ensures
            r matches Ok(v) && skill_rows(v@) == search_results(db.skills@, query@, str_opt_view(tags)),
    {
        Ok(db.search(query, tags))
    }

    /// Whether a reload has been asked for.
    pub fn reload_flag(&self) -> (r: bool)
        ensures
            r == self.reload_requested(),
    {
        self.reload_flag
    }

    /// The `refresh_skills` tool: asks for a reload at the next call.
    pub fn refresh_reply(&mut self) -> (r: ToolReply)
        requires
            old(self).wf(),
        ensures
            final(self).wf(),
            final(self).reload_requested(),
            final(self).tools_view() == old(self).tools_view(),
            final(self).handlers_view() == old(self).handlers_view(),
            final(self).skills_view() == old(self).skills_view(),
            final(self).skills_path_view() == old(self).skills_path_view(),
            final(self).tools_path_view() == old(self).tools_path_view(),
            r matches ToolReply::Refreshing(m) && m@ == "工具列表将在下次调用时刷新"@,
    {
        self.reload_flag = true;
        ToolReply::Refreshing(owned("工具列表将在下次调用时刷新"))
    }

    /// Rebuilds the tool list and the handlers.  `configs` are the tool
    /// configuration files, `scanned` the skills found on disk and `now`
    /// the time stamp of the changes to the skill table: the table is
    /// synchronised with the skills found (see `synced_rows`), then the
    /// tools are those of the configuration, one per skill not disabled in
    /// the table, and the built-in ones (see `reload_tools` and
    /// `reload_entries`).
    pub fn reload(&mut self, configs: &Vec<ToolConfig>, scanned: Vec<SkillInfo>, db: &mut SkillDb, now: &str)
        requires
            old(self).wf(),
            old(db).wf(),
        ensures
            final(self).wf(),
            final(db).wf(),
            final(db).skills@ == synced_rows(old(db).skills@, scanned@, now@),
            final(db).memories == old(db).memories,
            final(db).issues == old(db).issues,
            final(self).tools_view() == reload_tools(configs@, scanned@, final(db).skills@),
            final(self).handlers_view() == handlers_applied(
                Map::empty(),
                reload_entries(configs@, scanned@, final(db).skills@, old(self).skills_path_view()),
            ),
            final(self).skills_view() == infos_view(scanned@),
            final(self).skills_path_view() == old(self).skills_path_view(),
            final(self).tools_path_view() == old(self).tools_path_view(),
            final(self).reload_requested() == old(self).reload_requested(),
    {
        let sp = self.skills_path.clone();
        let mut all_tools: Vec<ToolSpec> = Vec::new();
        let mut handlers = ToolExecutor::new();
        assert(tool_views(all_tools@) =~= Seq::<ToolSpecView>::empty());
        // 1. the tools of the configuration files
        let mut ci: usize = 0;
        while ci < configs.len()
            invariant
                0 <= ci <= configs@.len(),
                sp@ == self.skills_path@,
                handlers.wf(),
                tool_views(all_tools@) == configs_tools(configs@.take(ci as int)),
                handlers@ == handlers_applied(Map::empty(), configs_entries(configs@.take(ci as int), sp@)),
            decreases configs@.len() - ci,
        {
            let ghost h_before = handlers@;
            add_config_tools(&mut all_tools, &mut handlers, &configs[ci].tools, &sp);
            proof {
                let t = configs@.take(ci + 1);
                assert(t.drop_last() =~= configs@.take(ci as int));
                lemma_applied_concat(
                    Map::empty(),
                    configs_entries(configs@.take(ci as int), sp@),
                    defs_entries(configs@[ci as int].tools@, sp@),
                );
            }
            ci = ci + 1;
        }
        assert(configs@.take(configs@.len() as int) =~= configs@);
        // 2. the skill table follows the skills found
        let names = names_of(&scanned);
        db.skills.retain_found(&names);
        let mut si: usize = 0;
        while si < scanned.len()
            invariant
                0 <= si <= scanned@.len(),
                db.wf(),
                db.memories == old(db).memories,
                db.issues == old(db).issues,
                db.skills@ == upsert_all(
                    retain_found(old(db).skills@, skill_names(scanned@)),
                    scanned@.take(si as int),
                    now@,
                ),
            decreases scanned@.len() - si,
        {
            let s = &scanned[si];
            let tags_json = strings_to_json(&s.tags);
            db.upsert(s.name.as_str(), s.description.as_str(), tags_json.as_str(), s.skill_file.as_str(), s.dir_name.as_str(), now);
            proof {
                assert(scanned@.take(si + 1).drop_last() =~= scanned@.take(si as int));
            }
            si = si + 1;
        }
        assert(scanned@.take(scanned@.len() as int) =~= scanned@);
        // 3. one tool per skill that is not disabled
        let ghost h_cfg = handlers@;
        add_skill_tools(&mut all_tools, &mut handlers, &scanned, db, &sp);
        proof {
            lemma_applied_concat(
                Map::empty(),
                configs_entries(configs@, sp@),
                skill_entries(scanned@, db.skills@, sp@),
            );
        }
        // 4. the built-in tools, and the refresh handler
        let ghost h_skills = handlers@;
        register_mcp_tools(&mut all_tools, &mut handlers, sp.as_str());
        proof {
            lemma_applied_concat(
                Map::empty(),
                configs_entries(configs@, sp@) + skill_entries(scanned@, db.skills@, sp@),
                builtin_handlers(sp@),
            );
        }
        let ghost h_builtin = handlers@;
        handlers.insert(owned("refresh_skills"), ToolHandler::RefreshSkills);
        proof {
            let pre = configs_entries(configs@, sp@) + skill_entries(scanned@, db.skills@, sp@)
                + builtin_handlers(sp@);
            lemma_applied_push(Map::empty(), pre, ("refresh_skills"@, HandlerView::RefreshSkills));
            assert(pre.push(("refresh_skills"@, HandlerView::RefreshSkills)) =~= reload_entries(
                configs@,
                scanned@,
                db.skills@,
                sp@,
            ));
        }
        self.tools = all_tools;
        self.executor = handlers;
        self.skills = scanned;
    }

    /// Reloads if a reload was asked for, clearing the request, and then
    /// gives the number of tools; otherwise changes nothing.  `configs`
    /// and `scanned` are as for `reload`.
    pub fn check_and_reload(&mut self, configs: &Vec<ToolConfig>, scanned: Vec<SkillInfo>, db: &mut SkillDb, now: &str) -> (r: Option<usize>)
        requires
            old(self).wf(),
            old(db).wf(),
        ensures
            final(self).wf(),
            final(db).wf(),
            !final(self).reload_requested(),
            final(self).skills_path_view() == old(self).skills_path_view(),
            final(self).tools_path_view() == old(self).tools_path_view(),
            final(db).memories == old(db).memories,
            final(db).issues == old(db).issues,
            old(self).reload_requested() ==> {
                &&& final(db).skills@ == synced_rows(old(db).skills@, scanned@, now@)
                &&& final(self).tools_view() == reload_tools(configs@, scanned@, final(db).skills@)
                &&& final(self).handlers_view() == handlers_applied(
                    Map::empty(),
                    reload_entries(configs@, scanned@, final(db).skills@, old(self).skills_path_view()),
                )
                &&& final(self).skills_view() == infos_view(scanned@)
                &&& r == Some(final(self).tools_view().len() as usize)
            },
            !old(self).reload_requested() ==> {
                &&& r is None
                &&& final(db).skills@ == old(db).skills@
                &&& final(self).tools_view() == old(self).tools_view()
                &&& final(self).handlers_view() == old(self).handlers_view()
                &&& final(self).skills_view() == old(self).skills_view()
            },
    {
        if self.take_reload_request() {
            self.reload(configs, scanned, db, now);
            Some(self.count())
        } else {
            None
        }
    }

    /// Moves a skill into the trash (see `skill_ops::delete_skill`; `step`
    /// is how moving its directory went) and, when that worked, asks for a
    /// reload and reloads at once from `configs` and `scanned`, read after
    /// the move.  A failure comes back as a configuration error and
    /// changes nothing.
    pub fn delete_skill(
        &mut self,
        db: &mut SkillDb,
        skill_name: &str,
        step: TrashMove,
        now: &str,
        configs: &Vec<ToolConfig>,
        scanned: Vec<SkillInfo>,
    ) -> (r: Result<String, AppError>)
        requires
            old(self).wf(),
            old(db).wf(),
        ensures
            final(self).wf(),
            final(db).wf(),
            final(db).memories == old(db).memories,
            final(db).issues == old(db).issues,
            final(self).skills_path_view() == old(self).skills_path_view(),
            final(self).tools_path_view() == old(self).tools_path_view(),
            step is Moved ==> {
                let trashed = set_deleted_rows(old(db).skills@, skill_name@, true, now@);
                &&& r matches Ok(m) && m@ == about_skill(skill_name@, "' 已删除，移至回收站"@)
                &&& final(db).skills@ == synced_rows(trashed, scanned@, now@)
                &&& final(self).tools_view() == reload_tools(configs@, scanned@, final(db).skills@)
                &&& final(self).handlers_view() == handlers_applied(
                    Map::empty(),
                    reload_entries(configs@, scanned@, final(db).skills@, old(self).skills_path_view()),
                )
                &&& final(self).skills_view() == infos_view(scanned@)
                &&& final(self).reload_requested()
            },
            !(step is Moved) ==> {
                &&& r matches Err(AppError::Config(m)) && m@ == match step {
                    TrashMove::SkillMissing => about_skill(skill_name@, "' 不存在"@),
                    TrashMove::TrashUnavailable(e) => "创建回收站失败: "@ + e@,
                    TrashMove::MoveFailed(e) => "移动到回收站失败: "@ + e@,
                    TrashMove::Moved => Seq::empty(),
                }
                &&& final(db).skills@ == old(db).skills@
                &&& final(self).tools_view() == old(self).tools_view()
                &&& final(self).handlers_view() == old(self).handlers_view()
                &&& final(self).skills_view() == old(self).skills_view()
                &&& final(self).reload_requested() == old(self).reload_requested()
            },
    {
        match skill_ops::delete_skill(db, skill_name, step, now) {
            Ok(m) => {
                self.reload_flag = true;
                self.reload(configs, scanned, db, now);
                Ok(m)
            },
            Err(e) => Err(AppError::Config(e)),
        }
    }
}

/// The names of the skills found.
fn names_of(skills: &Vec<SkillInfo>) -> (r: Vec<String>)
    ensures
        strings_view(r@) == skill_names(skills@),
{
    let mut out: Vec<String> = Vec::new();
    let mut i: usize = 0;
    while i < skills.len()
        invariant
            0 <= i <= skills@.len(),
            out@.len() == i,
            strings_view(out@) == skill_names(skills@.take(i as int)),
        decreases skills@.len() - i,
    {
        let ghost before = out@;
        out.push(skills[i].name.clone());
        proof {
            let t = skills@.take(i + 1);
            assert forall|k: int| 0 <= k < t.len() implies #[trigger] strings_view(out@)[k] == skill_names(t)[k] by {
                if k < i {
                    assert(strings_view(before)[k] == skill_names(skills@.take(i as int))[k]);
                }
            }
            assert(strings_view(out@) =~= skill_names(t));
        }
        i = i + 1;
    }
    assert(skills@.take(skills@.len() as int) =~= skills@);
    out
}

/// Adds the tools of one configuration file.
fn add_config_tools(tools: &mut Vec<ToolSpec>, handlers: &mut ToolExecutor, defs: &Vec<ToolDefinition>, sp: &String)
    requires
        old(handlers).wf(),
    ensures
        final(handlers).wf(),
        tool_views(final(tools)@) == tool_views(old(tools)@) + defs_tools(defs@),
        final(handlers)@ == handlers_applied(old(handlers)@, defs_entries(defs@, sp@)),
{
    let ghost t0 = tool_views(tools@);
    let ghost h0 = handlers@;
    let mut di: usize = 0;
    assert(t0 + defs_tools(defs@.take(0)) =~= t0);
    while di < defs.len()
        invariant
            0 <= di <= defs@.len(),
            handlers.wf(),
            tool_views(tools@) == t0 + defs_tools(defs@.take(di as int)),
            handlers@ == handlers_applied(h0, defs_entries(defs@.take(di as int), sp@)),
        decreases defs@.len() - di,
    {
        let d = &defs[di];
        let ghost before = tools@;
        tools.push(
            ToolSpec {
                name: d.name.clone(),
                description: d.description.clone(),
                schema: ToolSchema::Json(d.input_schema.clone()),
            },
        );
        let ghost t = defs@.take(di + 1);
        assert(t.drop_last() =~= defs@.take(di as int));
        assert(tool_views(tools@) =~= tool_views(before).push(def_tool(*d)));
        assert(t0 + defs_tools(t) =~= (t0 + defs_tools(defs@.take(di as int))).push(def_tool(*d)));
        let handler: Option<ToolHandler> = if str_eq(d.handler.as_str(), "refresh_tools") {
            Some(ToolHandler::RefreshSkills)
        } else if str_eq(d.handler.as_str(), "file_reader") {
            let file_path = match &d.default_file_path {
                Some(f) => f.clone(),
                None => String::new(),
            };
            Some(ToolHandler::ReadFile { base_path: sp.clone(), file_path })
        } else {
            None
        };
        proof {
            reveal_strlit("refresh_tools");
            reveal_strlit("file_reader");
        }
        match handler {
            Some(h) => {
                let ghost hv = h@;
                assert(def_handler(*d, sp@) == Some(hv));
                handlers.insert(d.name.clone(), h);
                proof {
                    lemma_applied_push(h0, defs_entries(defs@.take(di as int), sp@), (d.name@, hv));
                    assert(defs_entries(t, sp@) =~= defs_entries(defs@.take(di as int), sp@).push(
                        (d.name@, hv),
                    ));
                }
            },
            None => {
                assert(def_handler(*d, sp@) is None);
                assert(defs_entries(t, sp@) =~= defs_entries(defs@.take(di as int), sp@));
            },
        }
        di = di + 1;
    }
    assert(defs@.take(defs@.len() as int) =~= defs@);
}

/// Adds a tool for each skill found that the table does not list as
/// disabled.
fn add_skill_tools(tools: &mut Vec<ToolSpec>, handlers: &mut ToolExecutor, skills: &Vec<SkillInfo>, db: &SkillDb, sp: &String)
    requires
        old(handlers).wf(),
        db.wf(),
    ensures
        final(handlers).wf(),
        tool_views(final(tools)@) == tool_views(old(tools)@) + skill_tools(skills@, db.skills@),
        final(handlers)@ == handlers_applied(old(handlers)@, skill_entries(skills@, db.skills@, sp@)),
{
    let ghost t0 = tool_views(tools@);
    let ghost h0 = handlers@;
    let ghost rows = db.skills@;
    let mut i: usize = 0;
    assert(t0 + skill_tools(skills@.take(0), rows) =~= t0);
    while i < skills.len()
        invariant
            0 <= i <= skills@.len(),
            rows == db.skills@,
            db.wf(),
            handlers.wf(),
            tool_views(tools@) == t0 + skill_tools(skills@.take(i as int), rows),
            handlers@ == handlers_applied(h0, skill_entries(skills@.take(i as int), rows, sp@)),
        decreases skills@.len() - i,
    {
        let s = &skills[i];
        let ghost t = skills@.take(i + 1);
        assert(t.drop_last() =~= skills@.take(i as int));
        let enabled = match db.get_by_name(s.name.as_str()) {
            Some(row) => row.deleted || row.enabled,
            None => true,
        };
        if enabled {
            let ghost before = tools@;
            tools.push(
                ToolSpec {
                    name: s.name.clone(),
                    description: s.description.clone(),
                    schema: ToolSchema::SkillFile(s.skill_file.clone()),
                },
            );
            let ghost tv = ToolSpecView {
                name: s.name@,
                description: s.description@,
                schema: ToolSchemaView::SkillFile(s.skill_file@),
            };
            assert(tool_views(tools@) =~= tool_views(before).push(tv));
            assert(t0 + skill_tools(t, rows) =~= (t0 + skill_tools(skills@.take(i as int), rows)).push(tv));
            let ghost hv = HandlerView::ReadFile { base_path: sp@, file_path: s.skill_file@ };
            handlers.insert(s.name.clone(), ToolHandler::ReadFile { base_path: sp.clone(), file_path: s.skill_file.clone() });
            proof {
                lemma_applied_push(h0, skill_entries(skills@.take(i as int), rows, sp@), (s.name@, hv));
                assert(skill_entries(t, rows, sp@) =~= skill_entries(skills@.take(i as int), rows, sp@).push(
                    (s.name@, hv),
                ));
            }
        } else {
            assert(t0 + skill_tools(t, rows) =~= t0 + skill_tools(skills@.take(i as int), rows));
            assert(skill_entries(t, rows, sp@) =~= skill_entries(skills@.take(i as int), rows, sp@));
        }
        i = i + 1;
    }
    assert(skills@.take(skills@.len() as int) =~= skills@);
}

/// The line listing a tool: `- <name> - <description>`.
pub open spec fn tool_line(t: ToolSpecView) -> Seq<char> {
    "- "@ + t.name + " - "@ + t.description
}

/// The lines listing the tools, one below the other.
pub open spec fn tool_lines(tools: Seq<ToolSpecView>) -> Seq<char>
    decreases tools.len(),
{
    if tools.len() == 0 {
        Seq::empty()
    } else if tools.len() == 1 {
        tool_line(tools[0])
    } else {
        tool_lines(tools.drop_last()) + "\n"@ + tool_line(tools.last())
    }
}

/// The reply to a tool call that led to a reload: how many tools are
/// loaded, then the list of them.
pub fn reload_summary(count: usize, tools: &Vec<ToolSpec>) -> (r: String)
    ensures
        r@ == "工具列表已刷新，当前加载 "@ + decimal(count as nat) + " 个工具:\n"@ + tool_lines(tool_views(tools@)),
{
    let ghost tv = tool_views(tools@);
    let mut acc = owned("");
    proof {
        reveal_strlit("");
        assert(acc@ =~= tool_lines(tv.take(0)));
    }
    let mut i: usize = 0;
    while i < tools.len()
        invariant
            0 <= i <= tools@.len(),
            tv == tool_views(tools@),
            acc@ == tool_lines(tv.take(i as int)),
        decreases tools@.len() - i,
    {
        let t = &tools[i];
        let a = concat3("- ", t.name.as_str(), " - ");
        let line = concat2(a.as_str(), t.description.as_str());
        let ghost sub = tv.take(i + 1);
        proof {
            assert(tv[i as int] == tools@[i as int]@);
            assert(line@ == tool_line(tv[i as int]));
            assert(sub.drop_last() =~= tv.take(i as int));
            assert(sub.last() == tv[i as int]);
        }
        if i == 0 {
            acc = line;
            assert(acc@ == tool_lines(sub));
        } else {
            acc = concat3(acc.as_str(), "\n", line.as_str());
        }
        i = i + 1;
    }
    assert(tv.take(tools@.len() as int) =~= tv);
    let n = u64_text(count as u64);
    let head = concat3("工具列表已刷新，当前加载 ", n.as_str(), " 个工具:\n");
    concat2(head.as_str(), acc.as_str())
}

/// The reply to a tool call that failed: `错误: ` and the error's message.
pub fn failure_text(e: &AppError) -> (r: String)
    ensures
        r@ == "错误: "@ + error_text(*e),
{
    let m = e.message();
    concat2("错误: ", m.as_str())
}

/// A skill found on disk is offered as a tool exactly when the table does
/// not list it as switched off.
pub proof fn law_skill_tools_offered(skills: Seq<SkillInfo>, rows: Seq<SkillRow>, name: Seq<char>)
    ensures
        (exists|j: int| 0 <= j < skill_tools(skills, rows).len() && #[trigger] skill_tools(skills, rows)[j].name
            == name) <==> ((exists|i: int| 0 <= i < skills.len() && #[trigger] skills[i].name@ == name)
            && skill_tool_enabled(rows, name)),
    decreases skills.len(),
{
    if skills.len() > 0 {
        let init = skills.drop_last();
        let s = skills.last();
        law_skill_tools_offered(init, rows, name);
        let prev = skill_tools(init, rows);
        let cur = skill_tools(skills, rows);
        if exists|j: int| 0 <= j < cur.len() && #[trigger] cur[j].name == name {
            let j = choose|j: int| 0 <= j < cur.len() && #[trigger] cur[j].name == name;
            if j < prev.len() {
                assert(cur[j] == prev[j]);
                let i = choose|i: int| 0 <= i < init.len() && #[trigger] init[i].name@ == name;
                assert(skills[i] == init[i]);
            } else {
                assert(skills[skills.len() - 1] == s);
            }
        }
        if (exists|i: int| 0 <= i < skills.len() && #[trigger] skills[i].name@ == name) && skill_tool_enabled(rows, name) {
            let i = choose|i: int| 0 <= i < skills.len() && #[trigger] skills[i].name@ == name;
            if i < init.len() {
                assert(init[i] == skills[i]);
                let j = choose|j: int| 0 <= j < prev.len() && #[trigger] prev[j].name == name;
                assert(cur[j] == prev[j]);
            } else {
                assert(cur[prev.len() as int].name == name);
            }
        }
    }
}

/// Once a skill outside the trash is switched off, a reload offers no
/// tool for it among the skills' tools.
pub proof fn law_disabled_skill_not_offered(skills: Seq<SkillInfo>, rows: Seq<SkillRow>, name: Seq<char>, now: Seq<char>)
    requires
        crate::db::skills::rows_in_name_order(rows),
        skill_named(rows, name) matches Some(r) && !r.deleted,
    ensures
        forall|j: int|
            0 <= j < skill_tools(skills, set_enabled_rows(rows, name, false, now)).len() ==> #[trigger] skill_tools(
                skills,
                set_enabled_rows(rows, name, false, now),
            )[j].name != name,
{
    crate::db::skills::law_read_after_set_enabled(rows, name, false, now);
    let after = set_enabled_rows(rows, name, false, now);
    assert(!skill_tool_enabled(after, name));
    law_skill_tools_offered(skills, after, name);
}

proof fn lemma_upsert_all_sorted_and_registers(rows: Seq<SkillRow>, skills: Seq<SkillInfo>, now: Seq<char>)
    requires
        crate::db::skills::rows_in_name_order(rows),
    ensures
        crate::db::skills::rows_in_name_order(upsert_all(rows, skills, now)),
        forall|i: int| 0 <= i < skills.len() ==> crate::db::skills::has_skill(
            upsert_all(rows, skills, now),
            #[trigger] skills[i].name@,
        ),
    decreases skills.len(),
{
    if skills.len() > 0 {
        let init = skills.drop_last();
        let s = skills.last();
        lemma_upsert_all_sorted_and_registers(rows, init, now);
        let before = upsert_all(rows, init, now);
        crate::db::skills::lemma_upsert_sorted(
            before,
            s.name@,
            s.description@,
            json_string_array(strings_view(s.tags@)),
            s.skill_file@,
            s.dir_name@,
            now,
        );
        assert forall|i: int| 0 <= i < skills.len() implies crate::db::skills::has_skill(
            upsert_all(rows, skills, now),
            #[trigger] skills[i].name@,
        ) by {
            if i < init.len() {
                assert(init[i] == skills[i]);
                crate::db::skills::lemma_upsert_keeps_names(
                    before,
                    s.name@,
                    s.description@,
                    json_string_array(strings_view(s.tags@)),
                    s.skill_file@,
                    s.dir_name@,
                    now,
                    skills[i].name@,
                );
            }
        }
    }
}

/// A reload registers in the skill table every skill found on disk.
pub proof fn law_reload_registers_found(rows: Seq<SkillRow>, skills: Seq<SkillInfo>, now: Seq<char>)
    requires
        crate::db::skills::rows_in_name_order(rows),
    ensures
        forall|i: int| 0 <= i < skills.len() ==> crate::db::skills::has_skill(
            synced_rows(rows, skills, now),
            #[trigger] skills[i].name@,
        ),
{
    let kept = retain_found(rows, skill_names(skills));
    assert(crate::db::skills::rows_in_name_order(kept)) by {
        crate::db::skills::lemma_filter_sorted(rows, crate::db::skills::kept_on_sync(skill_names(skills)));
    }
    lemma_upsert_all_sorted_and_registers(kept, skills, now);
}

} // verus!
