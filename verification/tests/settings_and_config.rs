use skill_manager_mcp::settings::start_outcome;
use skill_manager_mcp::settings::shown_description;
use skill_manager_mcp::settings::{digits_only, import_drop, import_result_line, service_status_text};
use skill_manager_mcp::config::{
    config_file_choice, default_listen_addr, default_log_level, default_mcp_listen_addr, default_skills_dir,
    default_tools_path, get, join_path, resolve_config, ConfigSlot, LogConfig, McpConfig, ServerConfig,
};
use skill_manager_mcp::settings::{
    about_url, browser_host, copy_skill_dir, detect_windows_dark_mode, gui_config_text, port_config_text,
    read_config_dark_mode_override, read_config_listen_host, read_config_port, read_config_use_tray,
    read_config_web_port, unquote, web_admin_url, CopyStep,
};

fn config(db_path: &str) -> ServerConfig {
    ServerConfig {
        listen_addr: default_listen_addr(),
        mcp_listen_addr: default_mcp_listen_addr(),
        db_path: db_path.to_string(),
        mcp: McpConfig::default(),
        log: LogConfig::default(),
    }
}

#[test]
fn defaults_match_the_documented_values() {
    assert_eq!(default_listen_addr(), "127.0.0.1:10882");
    assert_eq!(default_mcp_listen_addr(), "127.0.0.1:10881");
    assert_eq!(default_tools_path(), "tools");
    assert_eq!(default_skills_dir(), "skills");
    assert_eq!(default_log_level(), "info");
    let m = McpConfig::default();
    assert_eq!((m.tools_path.as_str(), m.skills_dir.as_str()), ("tools", "skills"));
    assert_eq!(LogConfig::default().level, "info");
}

#[test]
fn config_file_is_chosen_in_order() {
    assert_eq!(config_file_choice(Some("/etc/app.toml"), "/opt/app/config.toml", true), "/etc/app.toml");
    assert_eq!(config_file_choice(None, "/opt/app/config.toml", true), "/opt/app/config.toml");
    assert_eq!(config_file_choice(None, "/opt/app/config.toml", false), "config.toml");
}

#[test]
fn relative_paths_are_completed_below_the_program() {
    assert_eq!(join_path("/opt/app", "tools", '/'), "/opt/app/tools");
    assert_eq!(join_path("/opt/app/", "tools", '/'), "/opt/app/tools");
    assert_eq!(join_path("", "tools", '/'), "tools");
    let r = resolve_config(config(""), "/opt/app", '/', false, false);
    assert_eq!(r.mcp.tools_path, "/opt/app/tools");
    assert_eq!(r.mcp.skills_dir, "/opt/app/skills");
    assert_eq!(r.db_path, "/opt/app/skills.db");
    let mut abs = config("/data/x.db");
    abs.mcp.tools_path = "/srv/tools".to_string();
    let r2 = resolve_config(abs, "/opt/app", '/', true, false);
    assert_eq!(r2.mcp.tools_path, "/srv/tools");
    assert_eq!(r2.db_path, "/data/x.db");
    assert_eq!(r2.listen_addr, "127.0.0.1:10882");
}

#[test]
fn the_configuration_is_set_once() {
    let mut slot = ConfigSlot::new();
    assert!(slot.set(config("a.db")).is_ok());
    let again = slot.set(config("b.db"));
    assert!(matches!(again, Err(c) if c.db_path == "b.db"));
    assert_eq!(get(&slot).db_path, "a.db");
}

const SAMPLE: &str = "listen_addr = \"0.0.0.0:8080\"\r\nmcp_listen_addr = \"127.0.0.1:9090\"\n\n[gui]\nuse_tray = true\ndark_mode = \"light\"\n";

#[test]
fn ports_and_host_are_read_from_the_file() {
    assert_eq!(read_config_port(Some(SAMPLE)), "9090");
    assert_eq!(read_config_web_port(Some(SAMPLE)), "8080");
    assert_eq!(read_config_listen_host(Some(SAMPLE)), "0.0.0.0");
    assert_eq!(read_config_port(None), "10881");
    assert_eq!(read_config_web_port(Some("nothing")), "10882");
    assert_eq!(read_config_listen_host(Some("listen_addr\nlisten_addr = host")), "host");
}

#[test]
fn interface_choices_are_read_from_the_file() {
    assert!(read_config_use_tray(Some(SAMPLE)));
    assert!(!read_config_use_tray(Some("use_tray = false")));
    assert!(!read_config_use_tray(None));
    assert_eq!(read_config_dark_mode_override(Some(SAMPLE)), Some(false));
    assert_eq!(read_config_dark_mode_override(Some("dark_mode = \"dark\"")), Some(true));
    assert_eq!(read_config_dark_mode_override(Some("dark_mode = \"system\"")), None);
    assert_eq!(read_config_dark_mode_override(None), None);
    assert_eq!(unquote("\"\"x\"\""), "x");
}

#[test]
fn written_files_read_back() {
    let text = port_config_text("127.0.0.1", "9001", "9002");
    assert_eq!(
        text,
        "listen_addr = \"127.0.0.1:9002\"\nmcp_listen_addr = \"127.0.0.1:9001\"\ndb_path = \"\"\n\n[mcp]\ntools_path = \"tools\"\nskills_dir = \"skills\"\n\n[log]\nlevel = \"info\"\n"
    );
    assert_eq!(read_config_port(Some(&text)), "9001");
    assert_eq!(read_config_web_port(Some(&text)), "9002");
    let gui = gui_config_text("0.0.0.0", true, Some(true));
    assert!(gui.ends_with("\n[gui]\nuse_tray = true\ndark_mode = \"dark\"\n"));
    assert!(read_config_use_tray(Some(&gui)));
    assert_eq!(read_config_dark_mode_override(Some(&gui)), Some(true));
    assert_eq!(read_config_listen_host(Some(&gui)), "0.0.0.0");
    let plain = gui_config_text("h", false, None);
    assert!(!read_config_use_tray(Some(&plain)));
    assert_eq!(read_config_dark_mode_override(Some(&plain)), None);
}

#[test]
fn browser_addresses() {
    assert_eq!(browser_host("0.0.0.0"), "127.0.0.1");
    assert_eq!(browser_host("192.168.1.2"), "192.168.1.2");
    assert_eq!(web_admin_url("127.0.0.1", "10882"), "http://127.0.0.1:10882/web-admin/");
    assert_eq!(about_url("127.0.0.1", "10882"), "http://127.0.0.1:10882");
}

#[test]
fn windows_theme_detection() {
    assert!(detect_windows_dark_mode(None));
    assert!(detect_windows_dark_mode(Some(Some(0))));
    assert!(!detect_windows_dark_mode(Some(Some(1))));
    assert!(!detect_windows_dark_mode(Some(None)));
}

#[test]
fn copying_refuses_an_existing_target() {
    assert_eq!(copy_skill_dir("pdf", CopyStep::TargetExists), Err("pdf 已存在".to_string()));
    assert_eq!(copy_skill_dir("pdf", CopyStep::Copied(Ok(()))), Ok(()));
    assert_eq!(copy_skill_dir("pdf", CopyStep::Copied(Err("disk full".into()))), Err("复制失败: disk full".to_string()));
}

#[test]
fn descriptions_are_shortened_for_the_list() {
    assert_eq!(shown_description(""), "无描述");
    assert_eq!(shown_description("short text"), "short text");
    let long: String = std::iter::repeat('字').take(61).collect();
    let shown = shown_description(&long);
    assert_eq!(shown.chars().count(), 63);
    assert!(shown.ends_with("..."));
    let exact: String = std::iter::repeat('a').take(60).collect();
    assert_eq!(shown_description(&exact), exact);
}

#[test]
fn gui_helpers() {
    assert_eq!(digits_only("10a8-8１1"), "10881");
    assert_eq!(service_status_text(true), "服务运行中");
    assert_eq!(service_status_text(false), "服务未运行");
    assert_eq!(import_drop("pdf", true), (false, "→ pdf 已存在，跳过".to_string()));
    assert_eq!(import_drop("pdf", false), (true, "+ pdf (待确认)".to_string()));
    assert_eq!(import_result_line("pdf", &Ok(())), "✓ pdf 导入成功");
    assert_eq!(import_result_line("pdf", &Err("复制失败: x".into())), "✗ pdf 复制失败: x");
}

#[test]
fn starting_the_service_reports_what_happened() {
    assert_eq!(start_outcome(Ok("MCP 服务已启动".into()), true), (true, "MCP 服务已启动".to_string()));
    assert_eq!(start_outcome(Ok("MCP 服务已启动".into()), false), (false, "启动失败".to_string()));
    assert_eq!(start_outcome(Err("x".into()), false), (false, "启动失败: x".to_string()));
}
