//! The tools that the server always offers, besides those of the
//! configuration and of the skills: skill management, memory and issues.
use vstd::prelude::*;

use crate::exec::{lemma_applied_push, HandlerView, ToolExecutor, ToolHandler};
use crate::text::owned;

verus! {

/// How a tool's input schema is given: as JSON text, or as the schema of a
/// skill tool, an object whose `file_path` string defaults to the skill's
/// file.
#[derive(Debug)]
pub enum ToolSchema {
    Json(String),
    SkillFile(String),
}

/// A tool as the server lists it.
#[derive(Debug)]
pub struct ToolSpec {
    pub name: String,
    pub description: String,
    pub schema: ToolSchema,
}

pub enum ToolSchemaView {
    Json(Seq<char>),
    SkillFile(Seq<char>),
}

pub struct ToolSpecView {
    pub name: Seq<char>,
    pub description: Seq<char>,
    pub schema: ToolSchemaView,
}

impl View for ToolSpec {
    type V = ToolSpecView;

    open spec fn view(&self) -> ToolSpecView {
        ToolSpecView {
            name: self.name@,
            description: self.description@,
            schema: match self.schema {
                ToolSchema::Json(t) => ToolSchemaView::Json(t@),
                ToolSchema::SkillFile(p) => ToolSchemaView::SkillFile(p@),
            },
        }
    }
}

impl Clone for ToolSpec {
    fn clone(&self) -> (r: Self)
        ensures
            r == *self,
    {
        ToolSpec {
            name: self.name.clone(),
            description: self.description.clone(),
            schema: match &self.schema {
                ToolSchema::Json(t) => ToolSchema::Json(t.clone()),
                ToolSchema::SkillFile(p) => ToolSchema::SkillFile(p.clone()),
            },
        }
    }
}

/// The views of a sequence of tools.
pub open spec fn tool_views(v: Seq<ToolSpec>) -> Seq<ToolSpecView> {
    v.map_values(|t: ToolSpec| t@)
}

pub const EMPTY_SCHEMA: &'static str = "{\"type\":\"object\",\"properties\":{}}";

pub const DELETE_SCHEMA: &'static str = "{\"type\":\"object\",\"properties\":{\"skill_name\":{\"type\":\"string\",\"description\":\"要删除的skill名称\"}},\"required\":[\"skill_name\"]}";

pub const RESTORE_SCHEMA: &'static str = "{\"type\":\"object\",\"properties\":{\"skill_name\":{\"type\":\"string\",\"description\":\"要恢复的skill名称\"}},\"required\":[\"skill_name\"]}";

pub const SEARCH_SCHEMA: &'static str = "{\"type\":\"object\",\"properties\":{\"query\":{\"type\":\"string\",\"description\":\"搜索关键词\"},\"tags\":{\"type\":\"string\",\"description\":\"标签过滤，多个用逗号分隔\"}},\"required\":[\"query\"]}";

pub const LIST_SCHEMA: &'static str = "{\"type\":\"object\",\"properties\":{\"tags\":{\"type\":\"string\",\"description\":\"标签过滤，多个用逗号分隔\"}}}";

pub const ENABLE_SCHEMA: &'static str = "{\"type\":\"object\",\"properties\":{\"skill_name\":{\"type\":\"string\",\"description\":\"要启用的skill名称\"}},\"required\":[\"skill_name\"]}";

pub const DISABLE_SCHEMA: &'static str = "{\"type\":\"object\",\"properties\":{\"skill_name\":{\"type\":\"string\",\"description\":\"要禁用的skill名称\"}},\"required\":[\"skill_name\"]}";

pub const REMEMBER_SCHEMA: &'static str = "{\"type\":\"object\",\"properties\":{\"content\":{\"type\":\"string\",\"description\":\"记忆内容\"},\"tags\":{\"type\":\"string\",\"description\":\"标签，多个用逗号分隔\"},\"source\":{\"type\":\"string\",\"description\":\"来源（如文件路径、会话ID）\"}},\"required\":[\"content\"]}";

pub const RECALL_SCHEMA: &'static str = "{\"type\":\"object\",\"properties\":{\"query\":{\"type\":\"string\",\"description\":\"搜索关键词\"},\"tags\":{\"type\":\"string\",\"description\":\"标签过滤，多个用逗号分隔\"},\"include_archived\":{\"type\":\"boolean\",\"description\":\"是否包含已归档记忆\"},\"limit\":{\"type\":\"integer\",\"description\":\"返回条数，默认5\"}}}";

pub const FORGET_SCHEMA: &'static str = "{\"type\":\"object\",\"properties\":{\"memory_id\":{\"type\":\"integer\",\"description\":\"记忆ID\"}},\"required\":[\"memory_id\"]}";

pub const ARCHIVE_SCHEMA: &'static str = "{\"type\":\"object\",\"properties\":{\"older_than_days\":{\"type\":\"integer\",\"description\":\"归档超过指定天数的记忆，默认30\"}}}";

pub const SEARCH_ISSUES_SCHEMA: &'static str = "{\"type\":\"object\",\"properties\":{\"query\":{\"type\":\"string\",\"description\":\"搜索关键词\"},\"task\":{\"type\":\"string\",\"description\":\"任务场景过滤\"},\"category\":{\"type\":\"string\",\"description\":\"分类过滤\"},\"limit\":{\"type\":\"integer\",\"description\":\"返回条数，默认10\"}}}";

pub const REPORT_ISSUE_SCHEMA: &'static str = "{\"type\":\"object\",\"properties\":{\"category\":{\"type\":\"string\",\"description\":\"分类\"},\"task\":{\"type\":\"string\",\"description\":\"任务场景\"},\"scenario\":{\"type\":\"string\",\"description\":\"问题现象\"},\"solution\":{\"type\":\"string\",\"description\":\"解决方案\"},\"related_api\":{\"type\":\"string\",\"description\":\"相关API\"}},\"required\":[\"category\",\"scenario\",\"solution\"]}";

pub open spec fn json_tool(name: &str, description: &str, schema: &str) -> ToolSpecView {
    ToolSpecView { name: name@, description: description@, schema: ToolSchemaView::Json(schema@) }
}

/// The built-in tools, in the order they are listed.
pub open spec fn builtin_tools() -> Seq<ToolSpecView> {
    seq![
        json_tool("refresh_skills", "刷新skill列表，重新扫描skills目录", EMPTY_SCHEMA),
        json_tool("delete_skill", "删除指定的skill（移动到回收站）", DELETE_SCHEMA),
        json_tool("restore_skill", "从回收站恢复指定的skill", RESTORE_SCHEMA),
        json_tool("search_skills", "搜索skill，支持关键词和标签过滤", SEARCH_SCHEMA),
        json_tool("list_skills", "列出所有skill，支持标签过滤", LIST_SCHEMA),
        json_tool("list_trash", "列出回收站中的skill（已删除的skill）", EMPTY_SCHEMA),
        json_tool("enable_skill", "启用指定的skill", ENABLE_SCHEMA),
        json_tool("disable_skill", "禁用指定的skill", DISABLE_SCHEMA),
        json_tool("migrate_skills", "获取MCP托管目录路径及常见skill存放位置，用于迁移", EMPTY_SCHEMA),
        json_tool("remember", "记住一条信息（需求、方案、结果等），支持标签和来源", REMEMBER_SCHEMA),
        json_tool("recall", "回忆相关记忆，按关键词和标签搜索", RECALL_SCHEMA),
        json_tool("forget", "永久删除一条记忆", FORGET_SCHEMA),
        json_tool("archive_memories", "归档超过指定天数的旧记忆", ARCHIVE_SCHEMA),
        json_tool("get_memory_stats", "获取记忆统计信息", EMPTY_SCHEMA),
        json_tool("search_issues", "搜索常见问题库，按场景和解决方案查找", SEARCH_ISSUES_SCHEMA),
        json_tool("report_issue", "报告新问题，积累问题库", REPORT_ISSUE_SCHEMA),
    ]
}

/// The handlers of the built-in tools, set in this order (the refresh
/// tool's handler is set by the reload itself).
pub open spec fn builtin_handlers(skills_path: Seq<char>) -> Seq<(Seq<char>, HandlerView)> {
    seq![
        ("delete_skill"@, HandlerView::DeleteSkill { skills_path: skills_path }),
        ("restore_skill"@, HandlerView::RestoreSkill { skills_path: skills_path }),
        ("search_skills"@, HandlerView::SearchSkills),
        ("list_skills"@, HandlerView::ListSkills),
        ("list_trash"@, HandlerView::ListTrash),
        ("enable_skill"@, HandlerView::EnableSkill),
        ("disable_skill"@, HandlerView::DisableSkill),
        ("migrate_skills"@, HandlerView::MigrateSkills { skills_path: skills_path }),
        ("remember"@, HandlerView::Remember),
        ("recall"@, HandlerView::Recall),
        ("forget"@, HandlerView::Forget),
        ("archive_memories"@, HandlerView::ArchiveMemories),
        ("get_memory_stats"@, HandlerView::MemoryStats),
        ("search_issues"@, HandlerView::SearchIssues),
        ("report_issue"@, HandlerView::ReportIssue),
    ]
}

fn push_tool(tools: &mut Vec<ToolSpec>, name: &str, description: &str, schema: &str)
    ensures
        tool_views(final(tools)@) == tool_views(old(tools)@).push(json_tool(name, description, schema)),
{
    let ghost before = tools@;
    tools.push(ToolSpec { name: owned(name), description: owned(description), schema: ToolSchema::Json(owned(schema)) });
    assert(tool_views(tools@) =~= tool_views(before).push(json_tool(name, description, schema)));
}

fn set_handler(handlers: &mut ToolExecutor, name: &str, handler: ToolHandler)
    requires
        old(handlers).wf(),
    ensures
        final(handlers).wf(),
        final(handlers)@ == old(handlers)@.insert(name@, handler@),
{
    handlers.insert(owned(name), handler);
}

/// Adds the built-in tools to `all_tools` and their handlers to `handlers`
/// (the skill tools delete, restore and migrate working on `skills_path`).
pub fn register_mcp_tools(all_tools: &mut Vec<ToolSpec>, handlers: &mut ToolExecutor, skills_path: &str)
    requires
        old(handlers).wf(),
    ensures
        final(handlers).wf(),
        tool_views(final(all_tools)@) == tool_views(old(all_tools)@) + builtin_tools(),
        final(handlers)@ == crate::exec::handlers_applied(old(handlers)@, builtin_handlers(skills_path@)),
{
    let ghost t0 = tool_views(all_tools@);
    let ghost h0 = handlers@;
    let ghost mut done: Seq<(Seq<char>, HandlerView)> = seq![];
    let sp = skills_path;
    push_tool(all_tools, "refresh_skills", "刷新skill列表，重新扫描skills目录", EMPTY_SCHEMA);
    push_tool(all_tools, "delete_skill", "删除指定的skill（移动到回收站）", DELETE_SCHEMA);
    set_handler(handlers, "delete_skill", ToolHandler::DeleteSkill { skills_path: owned(sp) });
    proof {
        lemma_applied_push(h0, done, ("delete_skill"@, HandlerView::DeleteSkill { skills_path: skills_path@ }));
        done = done.push(("delete_skill"@, HandlerView::DeleteSkill { skills_path: skills_path@ }));
    }
    push_tool(all_tools, "restore_skill", "从回收站恢复指定的skill", RESTORE_SCHEMA);
    set_handler(handlers, "restore_skill", ToolHandler::RestoreSkill { skills_path: owned(sp) });
    proof {
        lemma_applied_push(h0, done, ("restore_skill"@, HandlerView::RestoreSkill { skills_path: skills_path@ }));
        done = done.push(("restore_skill"@, HandlerView::RestoreSkill { skills_path: skills_path@ }));
    }
    push_tool(all_tools, "search_skills", "搜索skill，支持关键词和标签过滤", SEARCH_SCHEMA);
    set_handler(handlers, "search_skills", ToolHandler::SearchSkills);
    proof {
        lemma_applied_push(h0, done, ("search_skills"@, HandlerView::SearchSkills));
        done = done.push(("search_skills"@, HandlerView::SearchSkills));
    }
    push_tool(all_tools, "list_skills", "列出所有skill，支持标签过滤", LIST_SCHEMA);
    set_handler(handlers, "list_skills", ToolHandler::ListSkills);
    proof {
        lemma_applied_push(h0, done, ("list_skills"@, HandlerView::ListSkills));
        done = done.push(("list_skills"@, HandlerView::ListSkills));
    }
    push_tool(all_tools, "list_trash", "列出回收站中的skill（已删除的skill）", EMPTY_SCHEMA);
    set_handler(handlers, "list_trash", ToolHandler::ListTrash);
    proof {
        lemma_applied_push(h0, done, ("list_trash"@, HandlerView::ListTrash));
        done = done.push(("list_trash"@, HandlerView::ListTrash));
    }
    push_tool(all_tools, "enable_skill", "启用指定的skill", ENABLE_SCHEMA);
    set_handler(handlers, "enable_skill", ToolHandler::EnableSkill);
    proof {
        lemma_applied_push(h0, done, ("enable_skill"@, HandlerView::EnableSkill));
        done = done.push(("enable_skill"@, HandlerView::EnableSkill));
    }
    push_tool(all_tools, "disable_skill", "禁用指定的skill", DISABLE_SCHEMA);
    set_handler(handlers, "disable_skill", ToolHandler::DisableSkill);
    proof {
        lemma_applied_push(h0, done, ("disable_skill"@, HandlerView::DisableSkill));
        done = done.push(("disable_skill"@, HandlerView::DisableSkill));
    }
    push_tool(all_tools, "migrate_skills", "获取MCP托管目录路径及常见skill存放位置，用于迁移", EMPTY_SCHEMA);
    set_handler(handlers, "migrate_skills", ToolHandler::MigrateSkills { skills_path: owned(sp) });
    proof {
        lemma_applied_push(h0, done, ("migrate_skills"@, HandlerView::MigrateSkills { skills_path: skills_path@ }));
        done = done.push(("migrate_skills"@, HandlerView::MigrateSkills { skills_path: skills_path@ }));
    }
    push_tool(all_tools, "remember", "记住一条信息（需求、方案、结果等），支持标签和来源", REMEMBER_SCHEMA);
    set_handler(handlers, "remember", ToolHandler::Remember);
    proof {
        lemma_applied_push(h0, done, ("remember"@, HandlerView::Remember));
        done = done.push(("remember"@, HandlerView::Remember));
    }
    push_tool(all_tools, "recall", "回忆相关记忆，按关键词和标签搜索", RECALL_SCHEMA);
    set_handler(handlers, "recall", ToolHandler::Recall);
    proof {
        lemma_applied_push(h0, done, ("recall"@, HandlerView::Recall));
        done = done.push(("recall"@, HandlerView::Recall));
    }
    push_tool(all_tools, "forget", "永久删除一条记忆", FORGET_SCHEMA);
    set_handler(handlers, "forget", ToolHandler::Forget);
    proof {
        lemma_applied_push(h0, done, ("forget"@, HandlerView::Forget));
        done = done.push(("forget"@, HandlerView::Forget));
    }
    push_tool(all_tools, "archive_memories", "归档超过指定天数的旧记忆", ARCHIVE_SCHEMA);
    set_handler(handlers, "archive_memories", ToolHandler::ArchiveMemories);
    proof {
        lemma_applied_push(h0, done, ("archive_memories"@, HandlerView::ArchiveMemories));
        done = done.push(("archive_memories"@, HandlerView::ArchiveMemories));
    }
    push_tool(all_tools, "get_memory_stats", "获取记忆统计信息", EMPTY_SCHEMA);
    set_handler(handlers, "get_memory_stats", ToolHandler::MemoryStats);
    proof {
        lemma_applied_push(h0, done, ("get_memory_stats"@, HandlerView::MemoryStats));
        done = done.push(("get_memory_stats"@, HandlerView::MemoryStats));
    }
    push_tool(all_tools, "search_issues", "搜索常见问题库，按场景和解决方案查找", SEARCH_ISSUES_SCHEMA);
    set_handler(handlers, "search_issues", ToolHandler::SearchIssues);
    proof {
        lemma_applied_push(h0, done, ("search_issues"@, HandlerView::SearchIssues));
        done = done.push(("search_issues"@, HandlerView::SearchIssues));
    }
    push_tool(all_tools, "report_issue", "报告新问题，积累问题库", REPORT_ISSUE_SCHEMA);
    set_handler(handlers, "report_issue", ToolHandler::ReportIssue);
    proof {
        lemma_applied_push(h0, done, ("report_issue"@, HandlerView::ReportIssue));
        done = done.push(("report_issue"@, HandlerView::ReportIssue));
    }
    assert(tool_views(all_tools@) =~= t0 + builtin_tools());
    assert(done =~= builtin_handlers(skills_path@));
}

} // verus!
