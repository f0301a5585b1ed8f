use skill_manager_mcp::api::set_base_url;
use skill_manager_mcp::db::issues::IssueLog;
use skill_manager_mcp::db::{Skill, SkillDb, StoreError};
use skill_manager_mcp::tools::skill_scanner::skill_file_schema;
use skill_manager_mcp::exec::ToolHandler;
use skill_manager_mcp::management::skill_ops::{delete_skill, restore_skill, RestoreStep};
use skill_manager_mcp::paging::paginate_skills;
use skill_manager_mcp::settings::{
    gui_config_text, port_config_text, read_config_dark_mode_override, read_config_listen_host,
    read_config_port, read_config_use_tray, read_config_web_port,
};
use skill_manager_mcp::tools::replies::{start_call, CallStep, ToolArgs, ToolReply, TrashMove};

fn db() -> SkillDb {
    let mut db = SkillDb::new();
    db.upsert("pdf", "Convert PDF files", "[\"docs\"]", "/s/pdf/SKILL.md", "pdf", "t0");
    db.upsert("excel", "Edit sheets", "[\"office\"]", "/s/excel/SKILL.md", "excel", "t0");
    db.remember("first note", Some("a"), None, "t0").unwrap();
    db.report_issue("运行", None, "it stops", "restart it", None, "t0").unwrap();
    db
}

type Snapshot = (Vec<(String, bool, bool, String)>, i64, usize);

fn snapshot(db: &SkillDb) -> Snapshot {
    let mut rows: Vec<Skill> = db.list_all();
    rows.extend(db.list_trash());
    let skills = rows.iter().map(|s| (s.name.clone(), s.enabled, s.deleted, s.updated_at.clone())).collect();
    let issues = db.search_issues("", None, Some("运行"), 100).len();
    (skills, db.get_stats().total, issues)
}

fn refused(step: &CallStep) -> String {
    match step {
        CallStep::Reply(ToolReply::Failed(m)) => m.clone(),
        _ => panic!("expected a refusal"),
    }
}

#[test]
fn a_call_missing_its_argument_is_refused_and_changes_nothing() {
    let handlers = vec![
        ToolHandler::DeleteSkill { skills_path: "/s".to_string() },
        ToolHandler::RestoreSkill { skills_path: "/s".to_string() },
        ToolHandler::EnableSkill,
        ToolHandler::DisableSkill,
        ToolHandler::SearchSkills,
        ToolHandler::Remember,
        ToolHandler::Recall,
        ToolHandler::Forget,
        ToolHandler::SearchIssues,
        ToolHandler::ReportIssue,
    ];
    let expected = vec![
        "请提供 skill_name 参数",
        "请提供 skill_name 参数",
        "请提供 skill_name 参数",
        "请提供 skill_name 参数",
        "请提供 query 参数",
        "请提供 content 参数",
        "请提供 query 或 tags 参数",
        "请提供 memory_id 参数",
        "请提供 query、task 或 category 参数",
        "请提供 category、scenario、solution 参数",
    ];
    for (h, want) in handlers.iter().zip(expected) {
        let mut store = db();
        let before = snapshot(&store);
        let step = start_call(h, &ToolArgs::empty(), &mut store, "t9");
        assert_eq!(refused(&step), want);
        assert_eq!(snapshot(&store), before);
    }
}

#[test]
fn empty_text_counts_as_missing_and_id_zero_is_refused() {
    let mut store = db();
    let before = snapshot(&store);
    let mut args = ToolArgs::empty();
    args.skill_name = Some(String::new());
    args.memory_id = Some(0);
    args.category = Some("运行".to_string());
    args.scenario = Some(String::new());
    args.solution = Some("x".to_string());
    let step = start_call(&ToolHandler::EnableSkill, &args, &mut store, "t9");
    assert_eq!(refused(&step), "请提供 skill_name 参数");
    let step = start_call(&ToolHandler::Forget, &args, &mut store, "t9");
    assert_eq!(refused(&step), "请提供 memory_id 参数");
    let step = start_call(&ToolHandler::ReportIssue, &args, &mut store, "t9");
    assert_eq!(refused(&step), "请提供 category、scenario、solution 参数");
    assert_eq!(snapshot(&store), before);
}

#[test]
fn calls_that_need_the_disk_say_what_to_do() {
    let mut store = db();
    let mut args = ToolArgs::empty();
    args.skill_name = Some("pdf".to_string());
    match start_call(&ToolHandler::DeleteSkill { skills_path: "/s".to_string() }, &args, &mut store, "t9") {
        CallStep::MoveToTrash { skills_path, name } => {
            assert_eq!(skills_path, "/s");
            assert_eq!(name, "pdf");
        }
        _ => panic!("expected a move into the trash"),
    }
    match start_call(&ToolHandler::RestoreSkill { skills_path: "/s".to_string() }, &args, &mut store, "t9") {
        CallStep::MoveFromTrash { name, .. } => assert_eq!(name, "pdf"),
        _ => panic!("expected a move out of the trash"),
    }
    match start_call(&ToolHandler::ArchiveMemories, &ToolArgs::empty(), &mut store, "t9") {
        CallStep::Archive { days } => assert_eq!(days, 30),
        _ => panic!("expected archiving"),
    }
    assert!(matches!(start_call(&ToolHandler::RefreshSkills, &args, &mut store, "t9"), CallStep::Refresh));
    match start_call(
        &ToolHandler::ReadFile { base_path: "/s".to_string(), file_path: "pdf/SKILL.md".to_string() },
        &args,
        &mut store,
        "t9",
    ) {
        CallStep::ReadFile { base_path, file_path } => {
            assert_eq!(base_path, "/s");
            assert_eq!(file_path, "pdf/SKILL.md");
        }
        _ => panic!("expected a file read"),
    }
    match start_call(&ToolHandler::MigrateSkills { skills_path: "/s".to_string() }, &args, &mut store, "t9") {
        CallStep::Migrate { skills_path } => assert_eq!(skills_path, "/s"),
        _ => panic!("expected the migration guide"),
    }
    assert_eq!(store.get_by_name("pdf").unwrap().deleted, false);
}

#[test]
fn calls_the_store_answers_are_answered() {
    let mut store = db();
    let mut args = ToolArgs::empty();
    args.skill_name = Some("pdf".to_string());
    match start_call(&ToolHandler::DisableSkill, &args, &mut store, "t9") {
        CallStep::Reply(ToolReply::Succeeded(m)) => assert_eq!(m, "Skill 'pdf' 已禁用"),
        _ => panic!("expected the switch"),
    }
    assert!(!store.get_by_name("pdf").unwrap().enabled);
    args.content = Some("second note".to_string());
    match start_call(&ToolHandler::Remember, &args, &mut store, "t9") {
        CallStep::Reply(ToolReply::Remembered { memory_id, .. }) => assert_eq!(memory_id, 2),
        _ => panic!("expected a stored note"),
    }
    match start_call(&ToolHandler::ListTrash, &args, &mut store, "t9") {
        CallStep::Reply(ToolReply::TrashList { skills }) => assert!(skills.is_empty()),
        _ => panic!("expected the trash"),
    }
}

#[test]
fn delete_then_restore_gives_the_skill_back() {
    let mut store = db();
    let before = store.get_by_name("excel").unwrap();
    let deleted = delete_skill(&mut store, "excel", TrashMove::Moved, "t1");
    assert_eq!(deleted.unwrap(), "Skill 'excel' 已删除，移至回收站");
    assert!(store.get_by_name("excel").unwrap().deleted);
    let restored = restore_skill(&mut store, "excel", RestoreStep::Moved, "t2");
    assert_eq!(restored.unwrap(), "Skill 'excel' 已恢复");
    let after = store.get_by_name("excel").unwrap();
    assert_eq!(after.name, before.name);
    assert_eq!(after.description, before.description);
    assert_eq!(after.tags, before.tags);
    assert_eq!(after.file_path, before.file_path);
    assert_eq!(after.dir_name, before.dir_name);
    assert_eq!(after.enabled, before.enabled);
    assert_eq!(after.deleted, before.deleted);
    assert_eq!(after.created_at, before.created_at);
    assert_eq!(after.updated_at, "t2");
    assert_eq!(store.list_all().len(), 2);
}

#[test]
fn the_base_address_is_set_once() {
    let first = set_base_url(None, "127.0.0.1:10882");
    assert_eq!(first.clone().unwrap(), "http://127.0.0.1:10882/api/admin");
    let second = set_base_url(first, "10.0.0.1:9000");
    assert_eq!(second.unwrap(), "http://127.0.0.1:10882/api/admin");
    let kept = set_base_url(Some("http://x/api/admin".to_string()), "y:1");
    assert_eq!(kept.unwrap(), "http://x/api/admin");
}

#[test]
fn saved_ports_read_back_without_gui_choices() {
    let text = port_config_text("0.0.0.0", "9001", "9002");
    assert_eq!(read_config_port(Some(&text)), "9001");
    assert_eq!(read_config_web_port(Some(&text)), "9002");
    assert_eq!(read_config_listen_host(Some(&text)), "0.0.0.0");
    assert!(!read_config_use_tray(Some(&text)));
    assert_eq!(read_config_dark_mode_override(Some(&text)), None);
    assert!(!text.contains("use_tray"));
    assert!(!text.contains("dark_mode"));
}

#[test]
fn saved_window_choices_read_back_the_host() {
    let text = gui_config_text("192.168.1.5", true, Some(false));
    assert_eq!(read_config_listen_host(Some(&text)), "192.168.1.5");
    assert!(read_config_use_tray(Some(&text)));
    assert_eq!(read_config_dark_mode_override(Some(&text)), Some(false));
}

#[test]
fn a_huge_page_size_takes_the_whole_list() {
    let store = db();
    let (page, total) = paginate_skills(store.list_all(), 1, usize::MAX);
    assert_eq!(total, 2);
    assert_eq!(page.len(), 2);
    let (page2, _) = paginate_skills(store.list_all(), 2, usize::MAX);
    assert!(page2.is_empty());
}

#[test]
fn an_issue_is_recorded_unless_its_public_id_is_taken() {
    let mut log = IssueLog::new();
    let first = log.report_issue("id-1", "运行", None, "it stops", "restart it", None, "t0");
    assert_eq!(first, Ok(1));
    let clash = log.report_issue("id-1", "安装", None, "s", "x", None, "t1");
    assert_eq!(clash, Err(StoreError::DuplicateIssueId));
    let second = log.report_issue("id-2", "安装", Some("导入"), "s", "x", Some("api"), "t1");
    assert_eq!(second, Ok(2));
    let mut store = SkillDb::new();
    assert!(store.report_issue("运行", None, "s", "x", None, "t0").is_ok());
}

#[test]
fn a_skill_file_path_is_escaped_as_serde_json_does() {
    let schema = skill_file_schema("C:\\s\\a\"b\tc\u{1}");
    assert!(schema.ends_with("\"default\":\"C:\\\\s\\\\a\\\"b\\tc\\u0001\"}}}"));
}

#[test]
fn a_host_with_a_quote_inside_reads_back() {
    let text = port_config_text("my\"host", "9001", "9002");
    assert_eq!(read_config_listen_host(Some(&text)), "my\"host");
    assert_eq!(read_config_web_port(Some(&text)), "9002");
    let gui = gui_config_text("my\"host", false, None);
    assert_eq!(read_config_listen_host(Some(&gui)), "my\"host");
    assert!(!read_config_use_tray(Some(&gui)));
}
