use skill_manager_mcp::exec::ToolExecutor;
use skill_manager_mcp::tools::skill_scanner::{skill_file_schema, skill_to_tool_json};
use skill_manager_mcp::tools::loader::{has_json_extension, ToolDir, ToolFile};
use skill_manager_mcp::db::SkillDb;
use skill_manager_mcp::exec::file_handler::{list_dir_reply, read_file_reply, DirRead, FileHandlerFactory, FileRead};
use skill_manager_mcp::exec::ToolHandler;
use skill_manager_mcp::tools::loader::JsonLoader;
use skill_manager_mcp::tools::manager::{failure_text, reload_summary, ToolManager};
use skill_manager_mcp::tools::mcp_tools::ToolSchema;
use skill_manager_mcp::tools::replies::{ToolReply, TrashMove};
use skill_manager_mcp::tools::schema::{AppError, ToolConfig, ToolDefinition};
use skill_manager_mcp::tools::skill_scanner::{parse_front_matter, parse_skill_file, scan_skills, SkillDirEntry};

const PDF_SKILL: &str = "---\nname: pdf\ndescription: Work with PDF files\ntags:\n  - docs\n  - office\n---\n# PDF\n";

fn dir(name: &str, content: Option<&str>) -> SkillDirEntry {
    SkillDirEntry {
        path: format!("/skills/{}", name),
        dir_name: name.to_string(),
        skill_file: format!("/skills/{}/SKILL.md", name),
        content: content.map(|c| c.to_string()),
    }
}

#[test]
fn skill_file_front_matter_is_read_with_yaml() {
    let (name, description, tags) = parse_skill_file(PDF_SKILL).unwrap();
    assert_eq!(name, "pdf");
    assert_eq!(description, "Work with PDF files");
    assert_eq!(tags, vec!["docs", "office"]);
    assert!(parse_skill_file("no front matter").is_none());
    assert!(parse_skill_file("---\nname: x\n---\n").is_none());
}

#[test]
fn front_matter_fields_for_listing() {
    let (n, d, t) = parse_front_matter(PDF_SKILL);
    assert_eq!(n, "pdf");
    assert_eq!(d, "Work with PDF files");
    assert_eq!(t, "[\"docs\",\"office\"]");
    let (n2, d2, t2) = parse_front_matter("---\ndescription: only text\n---\n");
    assert_eq!(n2, "");
    assert_eq!(d2, "only text");
    assert_eq!(t2, "");
}

#[test]
fn scan_falls_back_to_the_directory_name() {
    let found = scan_skills(&vec![dir("pdf", Some(PDF_SKILL)), dir("plain", Some("# nothing")), dir("gone", None)]);
    assert_eq!(found.len(), 3);
    assert_eq!(found[0].name, "pdf");
    assert_eq!(found[0].tags, vec!["docs", "office"]);
    assert_eq!(found[1].name, "plain");
    assert_eq!(found[1].description, "Skill: plain");
    assert!(found[1].tags.is_empty());
    assert_eq!(found[2].dir_name, "gone");
    let loader = JsonLoader::new("/tools");
    assert_eq!(loader.load_skills(&vec![dir("pdf", Some(PDF_SKILL))]).len(), 1);
}

fn config() -> ToolConfig {
    ToolConfig {
        version: "1".to_string(),
        tools: vec![
            ToolDefinition {
                name: "guide".to_string(),
                description: "Read the guide".to_string(),
                input_schema: "{}".to_string(),
                handler: "file_reader".to_string(),
                default_file_path: Some("guide.md".to_string()),
            },
            ToolDefinition {
                name: "odd".to_string(),
                description: "Unknown kind".to_string(),
                input_schema: "{}".to_string(),
                handler: "shell".to_string(),
                default_file_path: None,
            },
        ],
    }
}

#[test]
fn reload_lists_config_skill_and_builtin_tools() {
    let mut db = SkillDb::new();
    let mut m = ToolManager::new("/tools", "/skills");
    let scanned = scan_skills(&vec![dir("pdf", Some(PDF_SKILL)), dir("plain", Some("x"))]);
    m.reload(&vec![config()], scanned, &mut db, "2024-01-01 00:00:00");
    let tools = m.get_tools();
    assert_eq!(tools.len(), 2 + 2 + 16);
    assert_eq!(tools[0].name, "guide");
    assert_eq!(tools[1].name, "odd");
    assert_eq!(tools[2].name, "pdf");
    assert!(matches!(&tools[2].schema, ToolSchema::SkillFile(f) if f == "/skills/pdf/SKILL.md"));
    assert_eq!(tools[3].name, "plain");
    assert_eq!(tools[4].name, "refresh_skills");
    assert_eq!(m.count(), 20);
    assert_eq!(db.list_all().len(), 2);
    assert_eq!(db.get_by_name("pdf").unwrap().tags, "[\"docs\",\"office\"]");
    let ex = m.executor();
    assert!(matches!(ex.execute("guide"), Ok(ToolHandler::ReadFile { file_path, .. }) if file_path == "guide.md"));
    assert!(matches!(ex.execute("odd"), Err(AppError::ToolNotFound(n)) if n == "odd"));
    assert!(matches!(ex.execute("refresh_skills"), Ok(ToolHandler::RefreshSkills)));
    assert!(matches!(ex.execute("recall"), Ok(ToolHandler::Recall)));
    assert!(m.find_tool("pdf").is_some());
    assert!(m.find_tool("nothing").is_none());
}

#[test]
fn disabled_skills_are_not_offered_and_missing_ones_are_dropped() {
    let mut db = SkillDb::new();
    let mut m = ToolManager::new("/tools", "/skills");
    let first = scan_skills(&vec![dir("pdf", Some(PDF_SKILL)), dir("plain", Some("x"))]);
    m.reload(&vec![], first, &mut db, "2024-01-01 00:00:00");
    db.set_enabled("plain", false, "2024-01-02 00:00:00");
    let second = scan_skills(&vec![dir("plain", Some("x"))]);
    m.reload(&vec![], second, &mut db, "2024-01-03 00:00:00");
    let names: Vec<String> = m.get_tools().iter().map(|t| t.name.clone()).collect();
    assert!(!names.contains(&"plain".to_string()));
    assert!(!names.contains(&"pdf".to_string()));
    assert!(db.get_by_name("pdf").is_none());
    assert!(!db.get_by_name("plain").unwrap().enabled);
    assert_eq!(m.get_skills().len(), 1);
}

#[test]
fn reload_requests_are_taken_once() {
    let mut db = SkillDb::new();
    let mut m = ToolManager::new("/tools", "/skills");
    assert_eq!(m.check_and_reload(&vec![], vec![], &mut db, "t"), None);
    assert!(matches!(m.refresh_reply(), ToolReply::Refreshing(s) if s == "工具列表将在下次调用时刷新"));
    assert!(m.reload_flag());
    assert_eq!(m.check_and_reload(&vec![], vec![], &mut db, "t"), Some(16));
    assert!(!m.reload_flag());
    assert_eq!(m.check_and_reload(&vec![], vec![], &mut db, "t"), None);
}

#[test]
fn deleting_through_the_manager_trashes_and_reloads() {
    let mut db = SkillDb::new();
    let mut m = ToolManager::new("/tools", "/skills");
    m.reload(&vec![], scan_skills(&vec![dir("pdf", Some(PDF_SKILL))]), &mut db, "t0");
    let r = m.delete_skill(&mut db, "pdf", TrashMove::Moved, "t1", &vec![], vec![]);
    assert_eq!(r.unwrap(), "Skill 'pdf' 已删除，移至回收站");
    assert!(db.get_by_name("pdf").unwrap().deleted);
    assert_eq!(m.count(), 16);
    assert!(m.reload_flag());
    let e = m.delete_skill(&mut db, "x", TrashMove::SkillMissing, "t2", &vec![], vec![]);
    assert!(matches!(e, Err(AppError::Config(s)) if s == "Skill 'x' 不存在"));
}

#[test]
fn reload_summary_lists_the_tools() {
    let mut db = SkillDb::new();
    let mut m = ToolManager::new("/tools", "/skills");
    m.reload(&vec![], vec![], &mut db, "t");
    let tools = m.get_tools();
    let text = reload_summary(tools.len(), &tools);
    assert!(text.starts_with("工具列表已刷新，当前加载 16 个工具:\n- refresh_skills - 刷新skill列表，重新扫描skills目录\n- delete_skill - "));
    assert_eq!(text.lines().count(), 17);
    assert_eq!(reload_summary(0, &vec![]), "工具列表已刷新，当前加载 0 个工具:\n");
}

#[test]
fn errors_read_as_messages() {
    assert_eq!(AppError::ToolNotFound("x".to_string()).message(), "工具不存在: x");
    assert_eq!(failure_text(&AppError::ToolExecFailed("boom".to_string())), "错误: 工具执行失败: boom");
    assert_eq!(AppError::Io("disk".to_string()).message(), "IO错误: disk");
}

#[test]
fn file_handlers_read_below_the_base() {
    let f = FileHandlerFactory::new("/skills");
    assert!(matches!(f.create_file_handler("a.md"), ToolHandler::ReadFile { base_path, file_path } if base_path == "/skills" && file_path == "a.md"));
    assert!(matches!(f.create_list_handler("docs"), ToolHandler::ListDir { dir_path, .. } if dir_path == "docs"));
    let ok = read_file_reply("a.md", FileRead::Read("text".to_string()));
    assert!(matches!(ok, Ok(ToolReply::FileContent { file, content }) if file == "a.md" && content == "text"));
    let missing = read_file_reply("a.md", FileRead::Missing("/skills/a.md".to_string()));
    assert!(matches!(missing, Err(AppError::ToolExecFailed(m)) if m == "文件不存在: /skills/a.md"));
    let failed = read_file_reply("a.md", FileRead::Failed("/skills/a.md".to_string(), "denied".to_string()));
    assert!(matches!(failed, Err(AppError::ToolExecFailed(m)) if m == "读取文件失败: /skills/a.md - denied"));
    let listed = list_dir_reply("docs", DirRead::Listed(vec!["x.md".to_string()]));
    assert!(matches!(listed, Ok(ToolReply::DirListing { directory, files }) if directory == "docs" && files == vec!["x.md".to_string()]));
    assert!(matches!(list_dir_reply("docs", DirRead::Missing("/skills/docs".to_string())), Err(AppError::ToolExecFailed(m)) if m == "目录不存在: /skills/docs"));
}

#[test]
fn skill_tool_definition_quotes_the_path() {
    let info = scan_skills(&vec![dir("pdf", Some(PDF_SKILL))]).remove(0);
    let def = skill_to_tool_json(&info);
    assert_eq!(def.name, "pdf");
    assert_eq!(def.handler, "file_reader");
    assert_eq!(def.default_file_path.as_deref(), Some("/skills/pdf/SKILL.md"));
    let schema: serde_json::Value = serde_json::from_str(&def.input_schema).unwrap();
    assert_eq!(schema["properties"]["file_path"]["default"], "/skills/pdf/SKILL.md");
    assert_eq!(skill_file_schema("a\"b").matches("a\\\"b").count(), 1);
}

#[test]
fn tool_configuration_files_are_picked_by_extension() {
    assert!(has_json_extension("tools.json"));
    assert!(has_json_extension("a.b.json"));
    assert!(!has_json_extension(".json"));
    assert!(!has_json_extension("tools.jsonl"));
    assert!(!has_json_extension("json"));
    let loader = JsonLoader::new("/tools");
    assert_eq!(loader.load_tools(ToolDir::Missing).unwrap().len(), 0);
    assert!(matches!(loader.load_tools(ToolDir::Unreadable("denied".into())), Err(AppError::Io(m)) if m == "denied"));
    let files = vec![
        ToolFile { file_name: "a.json".into(), is_file: true, parsed: Some(Ok(config())) },
        ToolFile { file_name: "b.json".into(), is_file: true, parsed: Some(Err(AppError::Json("bad".into()))) },
        ToolFile { file_name: "c.txt".into(), is_file: true, parsed: None },
        ToolFile { file_name: "d.json".into(), is_file: false, parsed: Some(Ok(config())) },
    ];
    let loaded = loader.load_tools(ToolDir::Listed(files)).unwrap();
    assert_eq!(loaded.len(), 1);
    assert_eq!(loaded[0].tools.len(), 2);
}

#[test]
fn manager_init_and_store_views() {
    let mut db = SkillDb::new();
    let mut m = ToolManager::new("/tools", "/skills");
    m.init(&vec![], scan_skills(&vec![dir("pdf", Some(PDF_SKILL))]), &mut db, "t");
    assert_eq!(m.count(), 17);
    assert_eq!(m.list_from_db(&db).unwrap().len(), 1);
    assert_eq!(m.search_in_db(&db, "office", None).unwrap().len(), 1);
    assert_eq!(m.search_in_db(&db, "zzz", None).unwrap().len(), 0);
    assert_eq!(m.skills_path(), "/skills");
    assert_eq!(m.loader().tools_path, "/tools");
}

#[test]
fn executor_from_named_handlers() {
    let ex = ToolExecutor::from_handlers(vec![
        ("a".to_string(), ToolHandler::Recall),
        ("b".to_string(), ToolHandler::Forget),
        ("a".to_string(), ToolHandler::Remember),
    ]);
    assert_eq!(ex.len(), 2);
    assert!(matches!(ex.execute("a"), Ok(ToolHandler::Remember)));
    assert!(matches!(ex.execute("b"), Ok(ToolHandler::Forget)));
    assert!(ex.execute("c").is_err());
}
