use skill_manager_mcp::memory::MemoryManager;
use skill_manager_mcp::db::{SkillDb, StoreError};

fn names(v: &[skill_manager_mcp::db::Skill]) -> Vec<String> {
    v.iter().map(|s| s.name.clone()).collect()
}

fn sample_db() -> SkillDb {
    let mut db = SkillDb::new();
    db.upsert("pdf", "Convert PDF files", "[\"docs\"]", "/s/pdf/SKILL.md", "pdf", "2024-01-01 00:00:00");
    db.upsert("excel", "Edit sheets", "[\"office\"]", "/s/excel/SKILL.md", "excel", "2024-01-01 00:00:00");
    db.upsert("chart", "Draw charts", "[]", "/s/chart/SKILL.md", "chart", "2024-01-01 00:00:00");
    db
}

#[test]
fn skills_are_listed_in_name_order() {
    let db = sample_db();
    assert_eq!(names(&db.list_all()), vec!["chart", "excel", "pdf"]);
    assert!(db.list_trash().is_empty());
}

#[test]
fn upsert_updates_an_existing_skill_and_keeps_its_switch() {
    let mut db = sample_db();
    db.set_enabled("pdf", false, "2024-01-02 00:00:00");
    db.upsert("pdf", "New text", "[]", "/s/pdf/SKILL.md", "pdf", "2024-01-03 00:00:00");
    let s = db.get_by_name("pdf").unwrap();
    assert_eq!(s.description, "New text");
    assert!(!s.enabled);
    assert_eq!(s.created_at, "2024-01-01 00:00:00");
    assert_eq!(s.updated_at, "2024-01-03 00:00:00");
    assert_eq!(db.list_all().len(), 3);
}

#[test]
fn search_matches_name_description_and_tags() {
    let db = sample_db();
    assert_eq!(names(&db.search("pdf", None)), vec!["pdf"]);
    assert_eq!(names(&db.search("SHEETS", None)), vec!["excel"]);
    assert_eq!(names(&db.search("office", None)), vec!["excel"]);
    assert_eq!(names(&db.search("", Some("docs"))), vec!["pdf"]);
    assert_eq!(names(&db.search("", None)), vec!["chart", "excel", "pdf"]);
    assert!(db.search("nothing", None).is_empty());
}

#[test]
fn trash_and_restore_round_trip() {
    let mut db = sample_db();
    db.soft_delete("excel", "2024-02-01 00:00:00");
    assert_eq!(names(&db.list_all()), vec!["chart", "pdf"]);
    assert_eq!(names(&db.list_trash()), vec!["excel"]);
    assert!(db.search("sheets", None).is_empty());
    db.restore("excel", "2024-02-02 00:00:00");
    assert_eq!(names(&db.list_all()), vec!["chart", "excel", "pdf"]);
    assert!(db.list_trash().is_empty());
}

#[test]
fn permanent_delete_forgets_the_skill() {
    let mut db = sample_db();
    db.permanent_delete("chart");
    assert!(db.get_by_name("chart").is_none());
    assert_eq!(names(&db.list_all()), vec!["excel", "pdf"]);
    db.permanent_delete("missing");
    assert_eq!(db.list_all().len(), 2);
}

#[test]
fn memories_are_numbered_and_recalled_newest_first() {
    let mut db = SkillDb::new();
    assert_eq!(db.remember("first note about rust", Some("rust,lang"), None, "2024-01-01 10:00:00"), Ok(1));
    assert_eq!(db.remember("second note about web", Some("web"), Some("chat-1"), "2024-01-02 10:00:00"), Ok(2));
    assert_eq!(db.remember("third note about rust web", Some("rust,web"), None, "2024-01-03 10:00:00"), Ok(3));
    let found = db.recall("rust", None, false, 5, "2024-01-04 00:00:00");
    let ids: Vec<i64> = found.iter().map(|m| m.id).collect();
    assert_eq!(ids, vec![3, 1]);
    assert_eq!(found[0].access_count, 0);
    let again = db.recall("rust", None, false, 1, "2024-01-05 00:00:00");
    assert_eq!(again.len(), 1);
    assert_eq!(again[0].id, 3);
    assert_eq!(again[0].access_count, 1);
    assert_eq!(again[0].last_accessed_at.as_deref(), Some("2024-01-04 00:00:00"));
}

#[test]
fn recall_by_tags_needs_every_tag() {
    let mut db = SkillDb::new();
    db.remember("a", Some("rust,lang"), None, "2024-01-01 10:00:00").unwrap();
    db.remember("b", Some("web"), None, "2024-01-02 10:00:00").unwrap();
    db.remember("c", Some("rust,web"), None, "2024-01-03 10:00:00").unwrap();
    let tags = vec!["rust".to_string(), "web".to_string()];
    let found = db.recall("", Some(tags), false, 10, "2024-01-04 00:00:00");
    let ids: Vec<i64> = found.iter().map(|m| m.id).collect();
    assert_eq!(ids, vec![3]);
}

#[test]
fn archive_hides_old_notes_and_counts_them() {
    let mut db = SkillDb::new();
    db.remember("old", None, None, "2023-01-01 00:00:00").unwrap();
    db.remember("new", None, None, "2024-06-01 00:00:00").unwrap();
    assert_eq!(db.archive("2024-01-01 00:00:00", "2024-06-02 00:00:00"), 1);
    assert_eq!(db.archive("2024-01-01 00:00:00", "2024-06-02 00:00:00"), 0);
    let stats = db.get_stats();
    assert_eq!((stats.total, stats.active, stats.archived), (2, 1, 1));
    let visible = db.recall("", None, false, 10, "2024-06-03 00:00:00");
    assert_eq!(visible.len(), 1);
    assert_eq!(visible[0].content, "new");
    let all = db.recall("", None, true, 10, "2024-06-03 00:00:00");
    assert_eq!(all.len(), 2);
}

#[test]
fn forget_removes_one_note() {
    let mut db = SkillDb::new();
    db.remember("x", None, None, "2024-01-01 00:00:00").unwrap();
    db.remember("y", None, None, "2024-01-02 00:00:00").unwrap();
    db.forget(1);
    let all = db.recall("", None, true, 10, "2024-01-03 00:00:00");
    assert_eq!(all.len(), 1);
    assert_eq!(all[0].id, 2);
    assert_eq!(db.remember("z", None, None, "2024-01-04 00:00:00"), Ok(3));
}

#[test]
fn issues_are_reported_and_searched() {
    let mut db = SkillDb::new();
    let id = db.report_issue("运行", Some("搜索"), "search returns nothing", "rebuild index", None, "2024-01-01 00:00:00").unwrap();
    assert_eq!(id, 1);
    db.report_issue("配置", None, "port busy", "change port", Some("bind"), "2024-01-02 00:00:00").unwrap();
    let found = db.search_issues("index", None, None, 10);
    assert_eq!(found.len(), 1);
    assert_eq!(found[0].frequency, "low");
    assert_eq!(found[0].issue_id.len(), 36);
    assert_eq!(found[0].issue_id.as_bytes()[8], b'-');
    let by_category = db.search_issues("", None, Some("配置"), 10);
    assert_eq!(by_category.len(), 1);
    assert_eq!(by_category[0].scenario, "port busy");
    let all = db.search_issues("", None, None, 10);
    assert_eq!(all.iter().map(|i| i.id).collect::<Vec<_>>(), vec![2, 1]);
    db.delete_issue(2);
    assert_eq!(db.search_issues("", None, None, 10).len(), 1);
}

#[test]
fn store_errors_have_messages() {
    assert_eq!(StoreError::IdsExhausted.message(), "编号已用尽");
    assert_eq!(StoreError::DuplicateIssueId.message(), "问题编号重复");
}

#[test]
fn listing_and_trash_cover_the_table() {
    let mut db = sample_db();
    db.soft_delete("pdf", "t1");
    let live = names(&db.list_all());
    let trash = names(&db.list_trash());
    assert_eq!(live.len() + trash.len(), 3);
    assert_eq!(live, vec!["chart", "excel"]);
    assert_eq!(trash, vec!["pdf"]);
    db.set_enabled("excel", false, "t2");
    assert_eq!(names(&db.list_all()), vec!["chart", "excel"]);
}

#[test]
fn memory_manager_reports_refusals_as_text() {
    let mut m = MemoryManager::new(SkillDb::new());
    assert_eq!(m.remember("note", Some("a"), None, "2024-01-01 00:00:00"), Ok(1));
    assert_eq!(m.recall("note", None, false, 5, "2024-01-02 00:00:00").unwrap().len(), 1);
    assert_eq!(m.get_stats().unwrap().total, 1);
    assert_eq!(m.archive("2025-01-01 00:00:00", "2025-01-02 00:00:00"), Ok(1));
    assert_eq!(m.forget(1), Ok(()));
    assert_eq!(m.report_issue("c", None, "s", "x", None, "t"), Ok(1));
    assert_eq!(m.search_issues("s", None, None, 10).unwrap().len(), 1);
}
