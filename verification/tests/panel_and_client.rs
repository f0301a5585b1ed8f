use skill_manager_mcp::api::{
    base_url, call_outcome, check_status, init_base_url, scan_local_skills_static, skills_outcome, sort_by_name,
    LocalSkill, SkillEntry,
};
use skill_manager_mcp::db::SkillDb;
use skill_manager_mcp::management::service::listing_shows_service;
use skill_manager_mcp::management::skill_ops::{
    delete_skill, disable_skill, enable_skill, permanent_delete_skill, restore_skill, PurgeStep, RestoreStep,
    TrashSearch,
};
use skill_manager_mcp::paging::{paginate_skills, parse_pagination};
use skill_manager_mcp::tools::replies::TrashMove;
use skill_manager_mcp::tools::skill_scanner::SkillDirEntry;
use skill_manager_mcp::web_admin::{
    delete_issue, delete_memory, list_issues, list_memories, list_skills, list_trash, refresh_message,
    refresh_skills, search_issues, search_memories,
};

fn entry(name: &str, enabled: bool) -> SkillEntry {
    SkillEntry { name: name.into(), description: String::new(), tags: String::new(), dir_name: name.into(), enabled }
}

#[test]
fn api_addresses() {
    assert_eq!(init_base_url("127.0.0.1:9000"), "http://127.0.0.1:9000/api/admin");
    assert_eq!(base_url(None), "http://127.0.0.1:10882/api/admin");
    assert_eq!(base_url(Some("http://h/api/admin")), "http://h/api/admin");
}

#[test]
fn api_replies_are_read() {
    assert_eq!(call_outcome(true, None, "删除失败"), Ok(()));
    assert_eq!(call_outcome(false, None, "删除失败"), Err("删除失败".to_string()));
    assert_eq!(call_outcome(false, Some("busy".into()), "删除失败"), Err("busy".to_string()));
    assert_eq!(skills_outcome(true, None, None).unwrap().len(), 0);
    assert_eq!(skills_outcome(true, Some(vec![entry("a", true)]), None).unwrap().len(), 1);
    assert_eq!(skills_outcome(false, None, None).unwrap_err(), "未知错误");
    assert!(check_status(Some(true)));
    assert!(!check_status(None));
}

#[test]
fn entries_sort_stably_by_name() {
    let sorted = sort_by_name(vec![entry("b", true), entry("a", true), entry("b", false), entry("A", true)]);
    let names: Vec<(&str, bool)> = sorted.iter().map(|e| (e.name.as_str(), e.enabled)).collect();
    assert_eq!(names, vec![("A", true), ("a", true), ("b", true), ("b", false)]);
}

#[test]
fn local_scan_follows_the_server_lists() {
    let found = vec![
        LocalSkill { dir_name: "zeta".into(), content: "---\nname: zeta\ndescription: z\n---\n".into() },
        LocalSkill { dir_name: "alpha-dir".into(), content: "no front matter".into() },
        LocalSkill { dir_name: "beta".into(), content: "---\nname: beta\ndescription: b\ntags: [x]\n---\n".into() },
    ];
    let plain = scan_local_skills_static(found.clone_entries(), None, None);
    let names: Vec<&str> = plain.iter().map(|e| e.name.as_str()).collect();
    assert_eq!(names, vec!["alpha-dir", "beta", "zeta"]);
    assert_eq!(plain[1].tags, "[\"x\"]");
    assert!(plain.iter().all(|e| e.enabled));
    let listed = vec![entry("beta", false), entry("zeta", true)];
    let synced = scan_local_skills_static(found.clone_entries(), Some(listed.clone()), Some(listed));
    let names2: Vec<(&str, bool)> = synced.iter().map(|e| (e.name.as_str(), e.enabled)).collect();
    assert_eq!(names2, vec![("beta", false), ("zeta", true)]);
}

trait CloneEntries {
    fn clone_entries(&self) -> Vec<LocalSkill>;
}

impl CloneEntries for Vec<LocalSkill> {
    fn clone_entries(&self) -> Vec<LocalSkill> {
        self.iter().map(|l| LocalSkill { dir_name: l.dir_name.clone(), content: l.content.clone() }).collect()
    }
}

#[test]
fn the_service_is_seen_in_a_process_listing() {
    assert!(listing_shows_service("AISkillBox-mcp.exe   1234 Console  1  10,000 K"));
    assert!(!listing_shows_service("INFO: No tasks are running which match the specified criteria."));
}

fn panel_db() -> SkillDb {
    let mut db = SkillDb::new();
    for n in ["a", "b", "c", "d", "e"] {
        db.upsert(n, "d", "[]", "f", n, "t0");
    }
    db
}

#[test]
fn pages_of_the_lists() {
    assert_eq!(parse_pagination(None, None), (1, 20));
    assert_eq!(parse_pagination(Some(0), Some(-3)), (1, 20));
    assert_eq!(parse_pagination(Some(2), Some(2)), (2, 2));
    let db = panel_db();
    let (page, total) = list_skills(&db, 2, 2);
    assert_eq!(total, 5);
    assert_eq!(page.iter().map(|s| s.name.as_str()).collect::<Vec<_>>(), vec!["c", "d"]);
    let (last, _) = paginate_skills(db.list_all(), 3, 2);
    assert_eq!(last.len(), 1);
    let (none, _) = paginate_skills(db.list_all(), 4, 2);
    assert!(none.is_empty());
    assert_eq!(list_trash(&db, 1, 20).1, 0);
}

#[test]
fn panel_skill_operations() {
    let mut db = panel_db();
    assert_eq!(delete_skill(&mut db, "a", TrashMove::Moved, "t1"), Ok("Skill 'a' 已删除，移至回收站".to_string()));
    assert_eq!(restore_skill(&mut db, "a", RestoreStep::TargetExists("\"/s/a\"".into()), "t2"), Err("目标目录已存在: \"/s/a\"".to_string()));
    assert_eq!(restore_skill(&mut db, "a", RestoreStep::Search(TrashSearch::NotFound), "t2"), Err("Skill 'a' 在回收站中不存在".to_string()));
    assert_eq!(restore_skill(&mut db, "a", RestoreStep::Search(TrashSearch::ListFailed("x".into())), "t2"), Err("读取回收站失败: x".to_string()));
    assert_eq!(restore_skill(&mut db, "a", RestoreStep::Moved, "t2"), Ok("Skill 'a' 已恢复".to_string()));
    assert!(!db.get_by_name("a").unwrap().deleted);
    assert_eq!(disable_skill(&mut db, "b", "t3"), Ok("Skill 'b' 已禁用".to_string()));
    assert_eq!(enable_skill(&mut db, "b", "t4"), Ok("Skill 'b' 已启用".to_string()));
    assert_eq!(permanent_delete_skill(&mut db, "c", PurgeStep::RemoveFailed("busy".into())), Err("删除目录失败: busy".to_string()));
    assert!(db.get_by_name("c").is_some());
    assert_eq!(permanent_delete_skill(&mut db, "c", PurgeStep::Search(TrashSearch::NotFound)), Ok("Skill 'c' 已永久删除".to_string()));
    assert!(db.get_by_name("c").is_none());
    assert_eq!(permanent_delete_skill(&mut db, "d", PurgeStep::Search(TrashSearch::EntryFailed("e".into()))), Err("读取回收站条目失败: e".to_string()));
}

#[test]
fn panel_notes_and_issues() {
    let mut db = SkillDb::new();
    for i in 0..3 {
        db.remember(&format!("note {}", i), None, None, &format!("2024-01-0{} 00:00:00", i + 1)).unwrap();
    }
    let (page, total) = list_memories(&mut db, 1, 2, "2024-02-01 00:00:00");
    assert_eq!(total, 3);
    assert_eq!(page.iter().map(|m| m.id).collect::<Vec<_>>(), vec![3, 2]);
    assert_eq!(search_memories(&mut db, "note", None, None, None, "t").len(), 3);
    assert_eq!(search_memories(&mut db, "note", None, None, Some(1), "t").len(), 1);
    assert_eq!(delete_memory(&mut db, 2), "已删除记忆 ID: 2");
    db.report_issue("c", None, "s1", "x", None, "2024-01-01 00:00:00").unwrap();
    db.report_issue("c", Some("t"), "s2", "y", None, "2024-01-02 00:00:00").unwrap();
    let (issues, n) = list_issues(&db, 1, 20);
    assert_eq!((n, issues[0].id), (2, 2));
    assert_eq!(search_issues(&db, "", Some("t"), None, None).len(), 1);
    assert_eq!(delete_issue(&mut db, 1), "已删除问题 ID: 1");
    assert_eq!(list_issues(&db, 1, 20).1, 1);
}

#[test]
fn panel_refresh_registers_what_was_read() {
    let mut db = SkillDb::new();
    db.upsert("old", "d", "[]", "f", "old", "t0");
    db.upsert("trashed", "d", "[]", "f", "trashed", "t0");
    db.soft_delete("trashed", "t0");
    let scanned = vec![
        SkillDirEntry { path: "/s/pdf".into(), dir_name: "pdf".into(), skill_file: "/s/pdf/SKILL.md".into(), content: Some("---\nname: pdf\ndescription: P\n---\n".into()) },
        SkillDirEntry { path: "/s/raw".into(), dir_name: "raw".into(), skill_file: "/s/raw/SKILL.md".into(), content: Some("text".into()) },
        SkillDirEntry { path: "/s/bad".into(), dir_name: "bad".into(), skill_file: "/s/bad/SKILL.md".into(), content: None },
    ];
    let n = refresh_skills(&mut db, &scanned, "t1");
    assert_eq!(n, 2);
    assert_eq!(refresh_message(n), "已扫描并更新 2 个skill");
    assert!(db.get_by_name("old").is_none());
    assert!(db.get_by_name("trashed").is_some());
    assert_eq!(db.get_by_name("raw").unwrap().tags, "[]");
    assert_eq!(db.get_by_name("raw").unwrap().description, "");
    assert!(db.get_by_name("bad").is_none());
}

#[test]
fn every_row_is_on_its_page() {
    let db = panel_db();
    let all = db.list_all();
    for (i, s) in all.iter().enumerate() {
        let size = 2usize;
        let page = i / size + 1;
        let (rows, _) = paginate_skills(db.list_all(), page, size);
        assert_eq!(rows[i % size].name, s.name);
    }
}
