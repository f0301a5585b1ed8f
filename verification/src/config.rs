//! The server's configuration: its fields and their defaults, where the
//! configuration file is looked for, how relative paths in it are
//! completed, and the slot that holds it once it is loaded.
use vstd::prelude::*;

use crate::text::{concat2, concat3, owned};

verus! {

/// Where the MCP tools and the skills are kept.
#[derive(Debug)]
pub struct McpConfig {
    pub tools_path: String,
    pub skills_dir: String,
}

/// How much the server logs.
#[derive(Debug)]
pub struct LogConfig {
    pub level: String,
}

/// The configuration of the server.
#[derive(Debug)]
pub struct ServerConfig {
    pub listen_addr: String,
    pub mcp_listen_addr: String,
    pub db_path: String,
    pub mcp: McpConfig,
    pub log: LogConfig,
}

/// The address of the web administration where the file sets none.
pub fn default_listen_addr() -> (r: String)
    ensures
        r@ == "127.0.0.1:10882"@,
{
    owned("127.0.0.1:10882")
}

/// The address of the MCP endpoint where the file sets none.
pub fn default_mcp_listen_addr() -> (r: String)
    ensures
        r@ == "127.0.0.1:10881"@,
{
    owned("127.0.0.1:10881")
}

/// The directory of the tool configuration where the file sets none.
pub fn default_tools_path() -> (r: String)
    ensures
        r@ == "tools"@,
{
    owned("tools")
}

/// The skills directory where the file sets none.
pub fn default_skills_dir() -> (r: String)
    ensures
        r@ == "skills"@,
{
    owned("skills")
}

/// The log level where the file sets none.
pub fn default_log_level() -> (r: String)
    ensures
        r@ == "info"@,
{
    owned("info")
}

impl Default for McpConfig {
    fn default() -> (r: Self)
        ensures
            r.tools_path@ == "tools"@,
            r.skills_dir@ == "skills"@,
    {
        McpConfig { tools_path: default_tools_path(), skills_dir: default_skills_dir() }
    }
}

impl Default for LogConfig {
    fn default() -> (r: Self)
        ensures
            r.level@ == "info"@,
    {
        LogConfig { level: default_log_level() }
    }
}

/// The configuration file to read: the one named by the `APP_CONFIG`
/// variable when it is set, else `config.toml` beside the program when
/// that exists, else `config.toml` in the working directory.
pub fn config_file_choice(env_override: Option<&str>, exe_config: &str, exe_config_exists: bool) -> (r: String)
    ensures
        r@ == match env_override {
            Some(p) => p@,
            None => if exe_config_exists {
                exe_config@
            } else {
                "config.toml"@
            },
        },
{
    match env_override {
        Some(p) => owned(p),
        None => if exe_config_exists {
            owned(exe_config)
        } else {
            owned("config.toml")
        },
    }
}

/// `rel` below the directory `dir`, with `sep` between them unless `dir`
/// is empty or ends with it already.
pub open spec fn joined(dir: Seq<char>, rel: Seq<char>, sep: char) -> Seq<char> {
    if dir.len() == 0 {
        rel
    } else if dir.last() == sep {
        dir + rel
    } else {
        dir + seq![sep] + rel
    }
}

/// `rel` below the directory `dir`.
pub fn join_path(dir: &str, rel: &str, sep: char) -> (r: String)
    ensures
        r@ == joined(dir@, rel@, sep),
{
    let d = crate::text::chars_of(dir);
    if d.len() == 0 {
        owned(rel)
    } else if d[d.len() - 1] == sep {
        concat2(dir, rel)
    } else {
        let mut v: Vec<char> = Vec::new();
        v.push(sep);
        let s = crate::text::string_from_chars(v.as_slice());
        assert(s@ =~= seq![sep]);
        concat3(dir, s.as_str(), rel)
    }
}

/// A path of the configuration, completed: kept where it is absolute,
/// else taken below the program's directory.
pub open spec fn completed(path: Seq<char>, absolute: bool, exe_dir: Seq<char>, sep: char) -> Seq<char> {
    if absolute {
        path
    } else {
        joined(exe_dir, path, sep)
    }
}

/// The configuration with its paths completed: the tools path and the
/// skills directory below the program's directory `exe_dir` unless they
/// are absolute (as the caller found them to be), and an empty database
/// path replaced by `skills.db` there.
pub fn resolve_config(
    config: ServerConfig,
    exe_dir: &str,
    sep: char,
    tools_absolute: bool,
    skills_absolute: bool,
) -> (r: ServerConfig)
    ensures
        r.listen_addr == config.listen_addr,
        r.mcp_listen_addr == config.mcp_listen_addr,
        r.log == config.log,
        r.mcp.tools_path@ == completed(config.mcp.tools_path@, tools_absolute, exe_dir@, sep),
        r.mcp.skills_dir@ == completed(config.mcp.skills_dir@, skills_absolute, exe_dir@, sep),
        r.db_path@ == if config.db_path@.len() == 0 {
            joined(exe_dir@, "skills.db"@, sep)
        } else {
            config.db_path@
        },
{
    let mut config = config;
    if !tools_absolute {
        config.mcp.tools_path = join_path(exe_dir, config.mcp.tools_path.as_str(), sep);
    }
    if !skills_absolute {
        config.mcp.skills_dir = join_path(exe_dir, config.mcp.skills_dir.as_str(), sep);
    }
    if config.db_path.as_str().unicode_len() == 0 {
        config.db_path = join_path(exe_dir, "skills.db", sep);
    }
    config
}

/// The slot the loaded configuration is kept in: empty until it is set,
/// then set once for all.
pub struct ConfigSlot {
    value: Option<ServerConfig>,
}

impl ConfigSlot {
    /// The configuration held, if it was set.
    pub closed spec fn held(&self) -> Option<ServerConfig> {
        self.value
    }

    /// An empty slot.
    pub fn new() -> (r: ConfigSlot)
        ensures
            r.held() is None,
    {
        ConfigSlot { value: None }
    }

    /// Sets the configuration unless one is set already, in which case the
    /// slot keeps it and `config` comes back as the error.
    pub fn set(&mut self, config: ServerConfig) -> (r: Result<(), ServerConfig>)
        ensures
            old(self).held() is None ==> r is Ok && final(self).held() == Some(config),
            old(self).held() is Some ==> r == Err::<(), ServerConfig>(config) && final(self).held()
                == old(self).held(),
    {
        if self.value.is_some() {
            Err(config)
        } else {
            self.value = Some(config);
            Ok(())
        }
    }
}

/// The loaded configuration.
pub fn get(slot: &ConfigSlot) -> (r: &ServerConfig)
    requires
        slot.held() is Some,
    ensures
        Some(*r) == slot.held(),
{
    match &slot.value {
        Some(c) => c,
        None => vstd::pervasive::unreached(),
    }
}

} // verus!
