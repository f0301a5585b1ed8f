use skill_manager_mcp::db::SkillDb;
use skill_manager_mcp::tools::replies::{
    archive_days, archive_reply, find_in_trash, finish_delete, finish_restore, forget_reply, list_reply,
    migrate_reply, recall_reply, remember_reply, report_issue_reply, search_issues_reply, search_reply,
    skill_name_arg, stats_reply, switch_reply, trash_entry_name, trash_reply, RestoreMove, ToolArgs, ToolReply,
    TrashEntry, TrashMove,
};

fn db() -> SkillDb {
    let mut db = SkillDb::new();
    db.upsert("pdf", "Convert PDF files", "[\"docs\"]", "/s/pdf/SKILL.md", "pdf", "t0");
    db.upsert("excel", "Edit sheets", "[\"office\",\"docs\"]", "/s/excel/SKILL.md", "excel", "t0");
    db
}

fn failed(r: &ToolReply) -> String {
    match r {
        ToolReply::Failed(m) => m.clone(),
        _ => panic!("expected a failure"),
    }
}

fn succeeded(r: &ToolReply) -> String {
    match r {
        ToolReply::Succeeded(m) => m.clone(),
        _ => panic!("expected a success"),
    }
}

fn with_name(name: &str) -> ToolArgs {
    let mut a = ToolArgs::empty();
    a.skill_name = Some(name.to_string());
    a
}

#[test]
fn a_skill_name_is_required() {
    assert!(matches!(skill_name_arg(&with_name("pdf")), Ok(n) if n == "pdf"));
    assert_eq!(failed(&skill_name_arg(&with_name("")).unwrap_err()), "请提供 skill_name 参数");
    assert_eq!(failed(&skill_name_arg(&ToolArgs::empty()).unwrap_err()), "请提供 skill_name 参数");
}

#[test]
fn delete_reply_follows_the_move() {
    let mut d = db();
    assert_eq!(succeeded(&finish_delete(&mut d, "pdf", TrashMove::Moved, "t1")), "Skill 'pdf' 已删除，移至回收站");
    assert!(d.get_by_name("pdf").unwrap().deleted);
    assert_eq!(failed(&finish_delete(&mut d, "zip", TrashMove::SkillMissing, "t1")), "Skill 'zip' 不存在");
    assert_eq!(failed(&finish_delete(&mut d, "excel", TrashMove::TrashUnavailable("denied".into()), "t1")), "创建回收站失败: denied");
    assert_eq!(failed(&finish_delete(&mut d, "excel", TrashMove::MoveFailed("busy".into()), "t1")), "移动到回收站失败: busy");
    assert!(!d.get_by_name("excel").unwrap().deleted);
}

#[test]
fn trash_entries_are_found_by_skill_name() {
    let name = trash_entry_name("pdf", 1700000000);
    assert_eq!(name, "pdf_1700000000");
    let entries = vec![
        TrashEntry { name: "pdfx_1".into(), is_dir: true },
        TrashEntry { name: "pdf_9".into(), is_dir: false },
        TrashEntry { name: name.clone(), is_dir: true },
        TrashEntry { name: "pdf".into(), is_dir: true },
    ];
    assert_eq!(find_in_trash(&entries, "pdf"), Some(2));
    assert_eq!(find_in_trash(&entries, "pdfx"), Some(0));
    assert_eq!(find_in_trash(&entries, "word"), None);
}

#[test]
fn restore_reply_follows_the_move() {
    let mut d = db();
    d.soft_delete("pdf", "t1");
    assert_eq!(failed(&finish_restore(&mut d, "pdf", RestoreMove::TrashMissing, "t2")), "回收站目录不存在");
    assert_eq!(failed(&finish_restore(&mut d, "pdf", RestoreMove::NotInTrash, "t2")), "在回收站中未找到 skill 'pdf'");
    assert_eq!(failed(&finish_restore(&mut d, "pdf", RestoreMove::MoveFailed("x".into()), "t2")), "恢复失败: x");
    assert!(d.get_by_name("pdf").unwrap().deleted);
    assert_eq!(succeeded(&finish_restore(&mut d, "pdf", RestoreMove::Moved, "t2")), "Skill 'pdf' 已从回收站恢复");
    assert!(!d.get_by_name("pdf").unwrap().deleted);
}

#[test]
fn search_and_list_replies_count_switches() {
    let mut d = db();
    d.set_enabled("excel", false, "t1");
    let mut args = ToolArgs::empty();
    assert_eq!(failed(&search_reply(&d, &args)), "请提供 query 参数");
    args.query = Some("docs".into());
    match search_reply(&d, &args) {
        ToolReply::SkillList { enabled_count, disabled_count, skills } => {
            assert_eq!((enabled_count, disabled_count, skills.len()), (1, 1, 2));
            assert_eq!(skills[0].name, "excel");
        }
        _ => panic!("expected a list"),
    }
    let mut tagged = ToolArgs::empty();
    tagged.tags = Some("office".into());
    match list_reply(&d, &tagged) {
        ToolReply::SkillList { skills, .. } => assert_eq!(skills.len(), 1),
        _ => panic!("expected a list"),
    }
    match list_reply(&d, &ToolArgs::empty()) {
        ToolReply::SkillList { enabled_count, skills, .. } => {
            assert_eq!(skills.len(), 2);
            assert_eq!(enabled_count, 1);
        }
        _ => panic!("expected a list"),
    }
    d.soft_delete("pdf", "t2");
    match trash_reply(&d) {
        ToolReply::TrashList { skills } => {
            assert_eq!(skills.len(), 1);
            assert_eq!(skills[0].updated_at, "t2");
        }
        _ => panic!("expected the trash"),
    }
}

#[test]
fn switching_refuses_trashed_skills() {
    let mut d = db();
    assert_eq!(succeeded(&switch_reply(&mut d, &with_name("pdf"), false, "t1")), "Skill 'pdf' 已禁用");
    assert!(!d.get_by_name("pdf").unwrap().enabled);
    assert_eq!(succeeded(&switch_reply(&mut d, &with_name("pdf"), true, "t2")), "Skill 'pdf' 已启用");
    d.soft_delete("excel", "t3");
    assert_eq!(
        failed(&switch_reply(&mut d, &with_name("excel"), true, "t4")),
        "Skill 'excel' 已在回收站，请先使用 restore_skill 恢复"
    );
    assert_eq!(failed(&switch_reply(&mut d, &ToolArgs::empty(), true, "t4")), "请提供 skill_name 参数");
}

#[test]
fn migration_guide_points_at_common_places() {
    match migrate_reply("/data/skills", "/home/u") {
        ToolReply::MigrationGuide { managed_dir, common_locations, rules } => {
            assert_eq!(managed_dir, "/data/skills");
            assert_eq!(common_locations.len(), 9);
            assert_eq!(common_locations[0], "/home/u/.agents/skills");
            assert_eq!(common_locations[4], "/home/u/.config/opencode/skills");
            assert_eq!(rules.len(), 4);
            assert_eq!(rules[3], "移动完成后调用 refresh_skills 刷新");
        }
        _ => panic!("expected the guide"),
    }
}

#[test]
fn memory_tools_answer_as_the_store_does() {
    let mut d = SkillDb::new();
    let mut args = ToolArgs::empty();
    assert_eq!(failed(&remember_reply(&mut d, &args, "t0")), "请提供 content 参数");
    args.content = Some("deploy with docker".into());
    args.tags = Some("ops, docker".into());
    match remember_reply(&mut d, &args, "2024-01-01 00:00:00") {
        ToolReply::Remembered { memory_id, message } => {
            assert_eq!(memory_id, 1);
            assert_eq!(message, "已记住，ID: 1");
        }
        _ => panic!("expected a note"),
    }
    assert_eq!(failed(&recall_reply(&mut d, &ToolArgs::empty(), "t")), "请提供 query 或 tags 参数");
    let mut q = ToolArgs::empty();
    q.tags = Some(" docker , ops ".into());
    match recall_reply(&mut d, &q, "2024-01-02 00:00:00") {
        ToolReply::Recalled { memories } => assert_eq!(memories.len(), 1),
        _ => panic!("expected notes"),
    }
    let mut f = ToolArgs::empty();
    assert_eq!(failed(&forget_reply(&mut d, &f)), "请提供 memory_id 参数");
    f.memory_id = Some(1);
    assert_eq!(succeeded(&forget_reply(&mut d, &f)), "已删除记忆 ID: 1");
    match stats_reply(&d) {
        ToolReply::Counts(c) => assert_eq!((c.total, c.active, c.archived), (0, 0, 0)),
        _ => panic!("expected counts"),
    }
}

#[test]
fn archiving_defaults_to_thirty_days() {
    assert_eq!(archive_days(&ToolArgs::empty()), 30);
    let mut a = ToolArgs::empty();
    a.older_than_days = Some(7);
    assert_eq!(archive_days(&a), 7);
    let mut d = SkillDb::new();
    d.remember("old", None, None, "2023-01-01 00:00:00").unwrap();
    match archive_reply(&mut d, "2024-01-01 00:00:00", "2024-02-01 00:00:00") {
        ToolReply::Archived { archived_count, message } => {
            assert_eq!(archived_count, 1);
            assert_eq!(message, "已归档 1 条记忆");
        }
        _ => panic!("expected an archive count"),
    }
}

#[test]
fn issue_tools_check_their_arguments() {
    let mut d = SkillDb::new();
    let mut r = ToolArgs::empty();
    r.category = Some("运行".into());
    r.scenario = Some("crash on start".into());
    assert_eq!(failed(&report_issue_reply(&mut d, &r, "t")), "请提供 category、scenario、solution 参数");
    r.solution = Some("reinstall".into());
    match report_issue_reply(&mut d, &r, "2024-01-01 00:00:00") {
        ToolReply::Reported { issue_id, message } => {
            assert_eq!(issue_id, 1);
            assert_eq!(message, "已记录问题，ID: 1");
        }
        _ => panic!("expected a report"),
    }
    assert_eq!(failed(&search_issues_reply(&d, &ToolArgs::empty())), "请提供 query、task 或 category 参数");
    let mut s = ToolArgs::empty();
    s.query = Some("crash".into());
    match search_issues_reply(&d, &s) {
        ToolReply::IssueList { issues } => {
            assert_eq!(issues.len(), 1);
            assert_eq!(issues[0].solution, "reinstall");
        }
        _ => panic!("expected issues"),
    }
}
