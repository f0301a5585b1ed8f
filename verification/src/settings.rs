//! The desktop manager's view of `config.toml`: reading the ports, the
//! host and the interface choices out of its lines, and writing the file
//! anew; and the small decisions of the desktop manager that go with them.
use vstd::prelude::*;

use crate::fields::{all_trimmed, split_at, split_on, starts_with, trim, trimmed};
use crate::text::{chars_of, concat2, concat3, owned, string_from_chars, strings_view};

verus! {

broadcast use {vstd::seq_lib::group_seq_properties, vstd::seq::group_seq_axioms};

/// `s` without the characters `c` at its start.
pub open spec fn strip_start(s: Seq<char>, c: char) -> Seq<char>
    decreases s.len(),
{
    if s.len() > 0 && s[0] == c {
        strip_start(s.drop_first(), c)
    } else {
        s
    }
}

/// `s` without the characters `c` at its end.
pub open spec fn strip_end(s: Seq<char>, c: char) -> Seq<char>
    decreases s.len(),
{
    if s.len() > 0 && s.last() == c {
        strip_end(s.drop_last(), c)
    } else {
        s
    }
}

/// `s` without the double quotes around it (std's `trim_matches('"')`).
pub open spec fn unquoted(s: Seq<char>) -> Seq<char> {
    strip_end(strip_start(s, '"'), '"')
}

/// `s` without the double quotes around it.
pub fn unquote(s: &str) -> (r: String)
    ensures
        r@ == unquoted(s@),
{
    let v = chars_of(s);
    let n = v.len();
    let mut a: usize = 0;
    assert(s@.subrange(0, n as int) =~= s@);
    while a < n && v[a] == '"'
        invariant
            0 <= a <= n,
            n == v@.len(),
            v@ == s@,
            strip_start(s@, '"') == strip_start(s@.subrange(a as int, n as int), '"'),
        decreases n - a,
    {
        assert(s@.subrange(a as int, n as int).drop_first() =~= s@.subrange(a + 1, n as int));
        a = a + 1;
    }
    let ghost mid = s@.subrange(a as int, n as int);
    let mut b: usize = n;
    while b > a && v[b - 1] == '"'
        invariant
            a <= b <= n,
            n == v@.len(),
            v@ == s@,
            mid == s@.subrange(a as int, n as int),
            strip_end(mid, '"') == strip_end(s@.subrange(a as int, b as int), '"'),
        decreases b - a,
    {
        assert(s@.subrange(a as int, b as int).drop_last() =~= s@.subrange(a as int, b - 1));
        b = b - 1;
    }
    let mut out: Vec<char> = Vec::new();
    let mut i: usize = a;
    while i < b
        invariant
            a <= i <= b <= n,
            n == v@.len(),
            v@ == s@,
            out@ == s@.subrange(a as int, i as int),
        decreases b - i,
    {
        out.push(v[i]);
        i = i + 1;
        assert(out@ =~= s@.subrange(a as int, i as int));
    }
    string_from_chars(out.as_slice())
}

/// The lines of a configuration text, each trimmed.  (A carriage return
/// before a line break is whitespace, so it goes with the trimming.)
pub open spec fn config_lines(content: Seq<char>) -> Seq<Seq<char>> {
    all_trimmed(split_at(content, '\n'))
}

/// `line` begins with `key`.
pub open spec fn has_prefix(line: Seq<char>, key: Seq<char>) -> bool {
    key.len() <= line.len() && line.subrange(0, key.len() as int) == key
}

/// The value a setting line gives: the text after its first `=` (up to a
/// second one), trimmed and unquoted; none where the line has no `=`.
pub open spec fn line_value(line: Seq<char>) -> Option<Seq<char>> {
    let parts = split_at(line, '=');
    if parts.len() >= 2 {
        Some(unquoted(trimmed(parts[1])))
    } else {
        None
    }
}

/// Which lines set the key looked for: `mcp_listen_addr`, or
/// `listen_addr` (and not `mcp_listen_addr`), or `dark_mode`.
pub enum SettingKey {
    McpListenAddr,
    ListenAddr,
    DarkMode,
}

pub open spec fn sets_key(line: Seq<char>, key: SettingKey) -> bool {
    match key {
        SettingKey::McpListenAddr => has_prefix(line, "mcp_listen_addr"@),
        SettingKey::ListenAddr => has_prefix(line, "listen_addr"@) && !has_prefix(line, "mcp_listen_addr"@),
        SettingKey::DarkMode => has_prefix(line, "dark_mode"@),
    }
}

/// The value of the first line, from line `from` on, that sets `key` and
/// has a value.
pub open spec fn setting_from(lines: Seq<Seq<char>>, key: SettingKey, from: int) -> Option<Seq<char>>
    decreases lines.len() - from,
{
    if from < 0 || from >= lines.len() {
        None
    } else if sets_key(lines[from], key) && line_value(lines[from]) is Some {
        line_value(lines[from])
    } else {
        setting_from(lines, key, from + 1)
    }
}

/// The value the configuration text gives `key`, if any.
pub open spec fn setting(content: Seq<char>, key: SettingKey) -> Option<Seq<char>> {
    setting_from(config_lines(content), key, 0)
}

fn key_matches(line: &str, key: &SettingKey) -> (r: bool)
    ensures
        r == sets_key(line@, *key),
{
    match key {
        SettingKey::McpListenAddr => starts_with(line, "mcp_listen_addr"),
        SettingKey::ListenAddr => starts_with(line, "listen_addr") && !starts_with(line, "mcp_listen_addr"),
        SettingKey::DarkMode => starts_with(line, "dark_mode"),
    }
}

fn value_of(line: &str) -> (r: Option<String>)
    ensures
        match r {
            Some(v) => line_value(line@) == Some(v@),
            None => line_value(line@) is None,
        },
{
    let parts = split_on(line, '=');
    if parts.len() >= 2 {
        assert(strings_view(parts@)[1] == parts@[1]@);
        let t = trim(parts[1].as_str());
        Some(unquote(t.as_str()))
    } else {
        None
    }
}

/// The value the configuration text `content` gives `key`.
pub fn find_setting(content: &str, key: &SettingKey) -> (r: Option<String>)
    ensures
        match r {
            Some(v) => setting(content@, *key) == Some(v@),
            None => setting(content@, *key) is None,
        },
{
    let raw = split_on(content, '\n');
    let ghost lines = config_lines(content@);
    let mut i: usize = 0;
    while i < raw.len()
        invariant
            0 <= i <= raw@.len(),
            strings_view(raw@) == split_at(content@, '\n'),
            lines == config_lines(content@),
            lines.len() == raw@.len(),
            setting_from(lines, *key, 0) == setting_from(lines, *key, i as int),
        decreases raw@.len() - i,
    {
        let line = trim(raw[i].as_str());
        assert(strings_view(raw@)[i as int] == raw@[i as int]@);
        assert(line@ == lines[i as int]);
        if key_matches(line.as_str(), key) {
            match value_of(line.as_str()) {
                Some(v) => {
                    return Some(v);
                },
                None => {},
            }
        }
        i = i + 1;
    }
    None
}

/// The last `:`-separated piece of `s`.
pub open spec fn last_piece(s: Seq<char>) -> Seq<char> {
    split_at(s, ':').last()
}

/// The first `:`-separated piece of `s`.
pub open spec fn first_piece(s: Seq<char>) -> Seq<char> {
    split_at(s, ':')[0]
}

/// The MCP port the configuration text gives (the part of
/// `mcp_listen_addr` after its last `:`), `10881` where the text gives
/// none or there is no text.
pub fn read_config_port(content: Option<&str>) -> (r: String)
    ensures
        r@ == match content {
            Some(c) => match setting(c@, SettingKey::McpListenAddr) {
                Some(v) => last_piece(v),
                None => "10881"@,
            },
            None => "10881"@,
        },
{
    let found = match content {
        Some(c) => find_setting(c, &SettingKey::McpListenAddr),
        None => None,
    };
    match found {
        Some(v) => {
            let parts = split_on(v.as_str(), ':');
            proof {
                crate::fields::lemma_split_at_nonempty(v@, ':');
            }
            let last = parts.len() - 1;
            assert(strings_view(parts@)[last as int] == parts@[last as int]@);
            owned(parts[last].as_str())
        },
        None => owned("10881"),
    }
}

/// The web administration's port the configuration text gives (the part
/// of `listen_addr` after its last `:`), `10882` where it gives none.
pub fn read_config_web_port(content: Option<&str>) -> (r: String)
    ensures
        r@ == match content {
            Some(c) => match setting(c@, SettingKey::ListenAddr) {
                Some(v) => last_piece(v),
                None => "10882"@,
            },
            None => "10882"@,
        },
{
    let found = match content {
        Some(c) => find_setting(c, &SettingKey::ListenAddr),
        None => None,
    };
    match found {
        Some(v) => {
            let parts = split_on(v.as_str(), ':');
            proof {
                crate::fields::lemma_split_at_nonempty(v@, ':');
            }
            let last = parts.len() - 1;
            assert(strings_view(parts@)[last as int] == parts@[last as int]@);
            owned(parts[last].as_str())
        },
        None => owned("10882"),
    }
}

/// The host the configuration text gives (the part of `listen_addr`
/// before its first `:`), `127.0.0.1` where it gives none.
pub fn read_config_listen_host(content: Option<&str>) -> (r: String)
    ensures
        r@ == match content {
            Some(c) => match setting(c@, SettingKey::ListenAddr) {
                Some(v) => first_piece(v),
                None => "127.0.0.1"@,
            },
            None => "127.0.0.1"@,
        },
{
    let found = match content {
        Some(c) => find_setting(c, &SettingKey::ListenAddr),
        None => None,
    };
    match found {
        Some(v) => {
            let parts = split_on(v.as_str(), ':');
            proof {
                crate::fields::lemma_split_at_nonempty(v@, ':');
            }
            assert(strings_view(parts@)[0] == parts@[0]@);
            owned(parts[0].as_str())
        },
        None => owned("127.0.0.1"),
    }
}

/// The interface colours a `dark_mode` value asks for: `dark` dark,
/// `light` light, anything else the system's choice.
pub open spec fn dark_choice(v: Seq<char>) -> Option<bool> {
    if v == "dark"@ {
        Some(true)
    } else if v == "light"@ {
        Some(false)
    } else {
        None
    }
}

/// The colours the configuration text asks for: `Some(true)` dark,
/// `Some(false)` light, `None` the system's choice.
pub fn read_config_dark_mode_override(content: Option<&str>) -> (r: Option<bool>)
    ensures
        r == match content {
            Some(c) => match setting(c@, SettingKey::DarkMode) {
                Some(v) => dark_choice(v),
                None => None,
            },
            None => None,
        },
{
    let found = match content {
        Some(c) => find_setting(c, &SettingKey::DarkMode),
        None => None,
    };
    match found {
        Some(v) => {
            if crate::text::str_eq(v.as_str(), "dark") {
                Some(true)
            } else if crate::text::str_eq(v.as_str(), "light") {
                Some(false)
            } else {
                None
            }
        },
        None => None,
    }
}

/// The index of the first line from `from` on that begins with `use_tray`.
pub open spec fn tray_line_from(lines: Seq<Seq<char>>, from: int) -> Option<int>
    decreases lines.len() - from,
{
    if from < 0 || from >= lines.len() {
        None
    } else if has_prefix(lines[from], "use_tray"@) {
        Some(from)
    } else {
        tray_line_from(lines, from + 1)
    }
}

/// Whether `true` occurs in `line`.
pub open spec fn mentions_true(line: Seq<char>) -> bool {
    exists|i: int| crate::fields::occurs_at(line, "true"@, i)
}

/// Whether the first line of `c` beginning with `use_tray` mentions `true`.
fn tray_flag(c: &str) -> (r: bool)
    ensures
        r == match tray_line_from(config_lines(c@), 0) {
            Some(i) => mentions_true(config_lines(c@)[i]),
            None => false,
        },
{
    let raw = split_on(c, '\n');
    let ghost lines = config_lines(c@);
    let mut i: usize = 0;
    while i < raw.len()
        invariant
            0 <= i <= raw@.len(),
            strings_view(raw@) == split_at(c@, '\n'),
            lines == config_lines(c@),
            lines.len() == raw@.len(),
            tray_line_from(lines, 0) == tray_line_from(lines, i as int),
        decreases raw@.len() - i,
    {
        let line = trim(raw[i].as_str());
        assert(strings_view(raw@)[i as int] == raw@[i as int]@);
        assert(line@ == lines[i as int]);
        if starts_with(line.as_str(), "use_tray") {
            assert(tray_line_from(lines, i as int) == Some(i as int));
            let found = crate::fields::contains_text(line.as_str(), "true");
            return found;
        }
        i = i + 1;
    }
    false
}

/// Whether the configuration text asks for the tray icon: the first line
/// beginning with `use_tray` mentions `true`; no such line, or no text,
/// means no.
pub fn read_config_use_tray(content: Option<&str>) -> (r: bool)
    ensures
        r == match content {
            Some(c) => match tray_line_from(config_lines(c@), 0) {
                Some(i) => mentions_true(config_lines(c@)[i]),
                None => false,
            },
            None => false,
        },
{
    match content {
        Some(c) => tray_flag(c),
        None => false,
    }
}

/// The word `config.toml` stores a colour choice as.
pub open spec fn dark_word(dark: Option<bool>) -> Seq<char> {
    match dark {
        Some(true) => "dark"@,
        Some(false) => "light"@,
        None => "system"@,
    }
}

/// The words of a flag.
pub open spec fn flag_word(b: bool) -> Seq<char> {
    if b {
        "true"@
    } else {
        "false"@
    }
}

/// The lines of `config.toml` with both services on `host`, at
/// `web_port` and `port`, and the `[mcp]` and `[log]` sections at their
/// defaults.
pub open spec fn port_config_lines(host: Seq<char>, port: Seq<char>, web_port: Seq<char>) -> Seq<Seq<char>> {
    seq![
        setting_line("listen_addr"@, host + ":"@ + web_port),
        setting_line("mcp_listen_addr"@, host + ":"@ + port),
        "db_path = \"\""@,
        Seq::empty(),
        "[mcp]"@,
        "tools_path = \"tools\""@,
        "skills_dir = \"skills\""@,
        Seq::empty(),
        "[log]"@,
        "level = \"info\""@,
        Seq::empty(),
    ]
}

/// `config.toml` with both services on `host`, at `web_port` and `port`.
pub open spec fn port_config(host: Seq<char>, port: Seq<char>, web_port: Seq<char>) -> Seq<char> {
    joined_lines(port_config_lines(host, port, web_port))
}

/// `config.toml` with both services on `host` at the default ports, and
/// the `[gui]` section with the tray flag and the colour choice (see
/// `gui_config_lines`).
pub open spec fn gui_config(host: Seq<char>, use_tray: bool, dark: Option<bool>) -> Seq<char> {
    joined_lines(gui_config_lines(host, use_tray, dark))
}

/// The text of `config.toml` that keeps the ports `port` (MCP) and
/// `web_port` (web administration) on `host`.
pub fn port_config_text(host: &str, port: &str, web_port: &str) -> (r: String)
    ensures
        r@ == port_config(host@, port@, web_port@),
{
    let web = concat3(host, ":", web_port);
    let mcp = concat3(host, ":", port);
    let mut lines: Vec<String> = Vec::new();
    lines.push(setting_line_text("listen_addr", web.as_str()));
    lines.push(setting_line_text("mcp_listen_addr", mcp.as_str()));
    lines.push(owned("db_path = \"\""));
    lines.push(owned(""));
    lines.push(owned("[mcp]"));
    lines.push(owned("tools_path = \"tools\""));
    lines.push(owned("skills_dir = \"skills\""));
    lines.push(owned(""));
    lines.push(owned("[log]"));
    lines.push(owned("level = \"info\""));
    lines.push(owned(""));
    proof {
        reveal_strlit("");
        assert(""@ =~= Seq::<char>::empty());
    }
    assert(strings_view(lines@) =~= port_config_lines(host@, port@, web_port@));
    join_lines(&lines)
}

/// The line `<key> = "<v>"`.
fn setting_line_text(key: &str, v: &str) -> (r: String)
    ensures
        r@ == setting_line(key@, v@),
{
    proof {
        reveal_strlit(" = \"");
        reveal_strlit("\"");
    }
    let a = concat3(key, " = \"", v);
    let r = concat2(a.as_str(), "\"");
    assert(r@ =~= setting_line(key@, v@));
    r
}

/// Lines joined by line breaks.
pub fn join_lines(lines: &Vec<String>) -> (r: String)
    ensures
        r@ == joined_lines(strings_view(lines@)),
{
    let ghost ls = strings_view(lines@);
    let mut text = owned("");
    proof {
        reveal_strlit("");
        reveal_strlit("\n");
        assert(text@ =~= joined_lines(ls.take(0)));
    }
    let mut i: usize = 0;
    while i < lines.len()
        invariant
            0 <= i <= lines@.len(),
            ls == strings_view(lines@),
            text@ == joined_lines(ls.take(i as int)),
        decreases lines@.len() - i,
    {
        let ghost t = ls.take(i + 1);
        assert(t.drop_last() =~= ls.take(i as int));
        assert(t.last() == lines@[i as int]@);
        if i == 0 {
            text = lines[0].clone();
            assert(text@ == joined_lines(t));
        } else {
            proof {
                reveal_strlit("\n");
            }
            text = concat3(text.as_str(), "\n", lines[i].as_str());
            assert(t.len() >= 2);
            assert(text@ =~= joined_lines(t));
        }
        i = i + 1;
    }
    assert(ls.take(lines@.len() as int) =~= ls);
    text
}

/// The text of `config.toml` that keeps the tray flag and the colour
/// choice, with both services on `host` at the default ports.
pub fn gui_config_text(host: &str, use_tray: bool, dark: Option<bool>) -> (r: String)
    ensures
        r@ == gui_config(host@, use_tray, dark),
{
    let flag = if use_tray {
        "true"
    } else {
        "false"
    };
    let word = match dark {
        Some(true) => "dark",
        Some(false) => "light",
        None => "system",
    };
    let web = concat2(host, ":10882");
    let mcp = concat2(host, ":10881");
    let mut lines: Vec<String> = Vec::new();
    lines.push(setting_line_text("listen_addr", web.as_str()));
    lines.push(setting_line_text("mcp_listen_addr", mcp.as_str()));
    lines.push(owned("db_path = \"\""));
    lines.push(owned(""));
    lines.push(owned("[mcp]"));
    lines.push(owned("tools_path = \"tools\""));
    lines.push(owned("skills_dir = \"skills\""));
    lines.push(owned(""));
    lines.push(owned("[log]"));
    lines.push(owned("level = \"info\""));
    lines.push(owned(""));
    lines.push(owned("[gui]"));
    lines.push(concat2("use_tray = ", flag));
    lines.push(setting_line_text("dark_mode", word));
    lines.push(owned(""));
    proof {
        reveal_strlit("");
        assert(""@ =~= Seq::<char>::empty());
    }
    assert(strings_view(lines@) =~= gui_config_lines(host@, use_tray, dark));
    join_lines(&lines)
}

/// The host a browser should open: the loopback address where the server
/// listens on every address, else the host it listens on.
pub fn browser_host(listen_host: &str) -> (r: String)
    ensures
        r@ == if listen_host@ == "0.0.0.0"@ {
            "127.0.0.1"@
        } else {
            listen_host@
        },
{
    if crate::text::str_eq(listen_host, "0.0.0.0") {
        owned("127.0.0.1")
    } else {
        owned(listen_host)
    }
}

/// The address of the web administration's page.
pub fn web_admin_url(host: &str, web_port: &str) -> (r: String)
    ensures
        r@ == "http://"@ + host@ + ":"@ + web_port@ + "/web-admin/"@,
{
    let a = concat3("http://", host, ":");
    concat3(a.as_str(), web_port, "/web-admin/")
}

/// The address of the server's front page.
pub fn about_url(host: &str, web_port: &str) -> (r: String)
    ensures
        r@ == "http://"@ + host@ + ":"@ + web_port@,
{
    let a = concat3("http://", host, ":");
    concat2(a.as_str(), web_port)
}

/// Whether Windows asks for dark colours.  `setting` is what the
/// `Personalize` key of the registry holds: `None` where the key cannot be
/// opened (dark then), else the value of `AppsUseLightTheme`, if readable;
/// an unreadable value counts as 1, light.
pub fn detect_windows_dark_mode(setting: Option<Option<u32>>) -> (r: bool)
    ensures
        r == match setting {
            None => true,
            Some(None) => false,
            Some(Some(v)) => v == 0,
        },
{
    match setting {
        None => true,
        Some(v) => {
            let value: u32 = match v {
                Some(x) => x,
                None => 1,
            };
            value == 0
        },
    }
}

/// How copying a skill's directory went.
pub enum CopyStep {
    /// The target directory exists already.
    TargetExists,
    /// The copy was made, or failed for the reason given.
    Copied(Result<(), String>),
}

/// Copies a skill's directory to `target_name`: refused where the target
/// exists, else the copy's own outcome.
pub fn copy_skill_dir(target_name: &str, step: CopyStep) -> (r: Result<(), String>)
    ensures
        match step {
            CopyStep::TargetExists => r matches Err(m) && m@ == target_name@ + " 已存在"@,
            CopyStep::Copied(Ok(())) => r is Ok,
            CopyStep::Copied(Err(e)) => r matches Err(m) && m@ == "复制失败: "@ + e@,
        },
{
    match step {
        CopyStep::TargetExists => Err(concat2(target_name, " 已存在")),
        CopyStep::Copied(Ok(())) => Ok(()),
        CopyStep::Copied(Err(e)) => Err(concat2("复制失败: ", e.as_str())),
    }
}

/// Text that can stand between the quotes of a setting: no line break,
/// no `=`, no double quote.
pub open spec fn plain_value(s: Seq<char>) -> bool {
    !s.contains('\n') && !s.contains('=') && !s.contains('"')
}

/// The line `<key> = "<v>"`.
pub open spec fn setting_line(key: Seq<char>, v: Seq<char>) -> Seq<char> {
    key + seq![' ', '=', ' ', '"'] + v + seq!['"']
}

proof fn lemma_no_char_concat(a: Seq<char>, b: Seq<char>, c: char)
    requires
        !a.contains(c),
        !b.contains(c),
    ensures
        !(a + b).contains(c),
{
    if (a + b).contains(c) {
        let k = choose|k: int| 0 <= k < (a + b).len() && (a + b)[k] == c;
        if k < a.len() {
            assert(a[k] == c);
        } else {
            assert(b[k - a.len()] == c);
        }
    }
}

proof fn lemma_unquoted_plain(v: Seq<char>)
    requires
        !v.contains('"'),
    ensures
        unquoted(seq!['"'] + v + seq!['"']) == v,
{
    let t = seq!['"'] + v + seq!['"'];
    let u = v + seq!['"'];
    assert(t.drop_first() =~= u);
    assert(t[0] == '"');
    if v.len() > 0 {
        assert(u[0] == v[0]);
        assert(v[0] != '"') by {
            if v[0] == '"' {
                assert(v.contains('"'));
            }
        }
    } else {
        assert(u[0] == '"');
        assert(u.drop_first() =~= Seq::<char>::empty());
        assert(strip_start(u.drop_first(), '"') == Seq::<char>::empty());
        assert(strip_start(u, '"') == strip_start(u.drop_first(), '"'));
        assert(strip_start(t, '"') == strip_start(u, '"'));
        assert(strip_end(Seq::<char>::empty(), '"') == Seq::<char>::empty());
    }
    if v.len() > 0 {
        assert(strip_start(u, '"') == u);
        assert(u.last() == '"');
        assert(u.drop_last() =~= v);
        assert(v.last() != '"') by {
            if v.last() == '"' {
                assert(v[v.len() - 1] == '"');
                assert(v.contains('"'));
            }
        }
        assert(strip_end(v, '"') == v);
    }
}

proof fn lemma_unquoted_ends(v: Seq<char>)
    requires
        v.len() > 0,
        v[0] != '"',
        v.last() != '"',
    ensures
        unquoted(seq!['"'] + v + seq!['"']) == v,
{
    let t = seq!['"'] + v + seq!['"'];
    let u = v + seq!['"'];
    assert(t.drop_first() =~= u);
    assert(u[0] == v[0]);
    assert(strip_start(u, '"') == u);
    assert(u.drop_last() =~= v);
    assert(strip_end(v, '"') == v);
}

/// A host with no double quote at its start, a `:` and a port with no
/// double quote: the text neither begins nor ends with a double quote.
proof fn lemma_value_ends(host: Seq<char>, port: Seq<char>)
    requires
        host.len() == 0 || host[0] != '"',
        !port.contains('"'),
    ensures
        (host + ":"@ + port).len() > 0,
        (host + ":"@ + port)[0] != '"',
        (host + ":"@ + port).last() != '"',
{
    reveal_strlit(":");
    let v = host + ":"@ + port;
    if port.len() > 0 {
        assert(v.last() == port[port.len() - 1]);
        if port[port.len() - 1] == '"' {
            assert(port.contains('"'));
        }
    } else {
        assert(v.last() == ':');
    }
    if host.len() > 0 {
        assert(v[0] == host[0]);
    } else {
        assert(v[0] == ':');
    }
}

proof fn lemma_setting_line_value(key: Seq<char>, v: Seq<char>)
    requires
        key.len() > 0,
        !key.contains('='),
        !v.contains('='),
        !v.contains('"') || (v.len() > 0 && v[0] != '"' && v.last() != '"'),
    ensures
        line_value(setting_line(key, v)) == Some(v),
{
    let line = setting_line(key, v);
    let left = key + seq![' '];
    let right = seq![' ', '"'] + v + seq!['"'];
    assert(line =~= left + seq!['='] + right);
    crate::fields::lemma_split_around_sep(left, right, '=');
    assert(!seq![' '].contains('='));
    lemma_no_char_concat(key, seq![' '], '=');
    crate::fields::lemma_split_without_sep(left, '=');
    assert(!seq![' ', '"'].contains('=')) by {
        if seq![' ', '"'].contains('=') {
            let k = choose|k: int| 0 <= k < 2 && seq![' ', '"'][k] == '=';
        }
    }
    assert(!seq!['"'].contains('='));
    lemma_no_char_concat(seq![' ', '"'], v, '=');
    lemma_no_char_concat(seq![' ', '"'] + v, seq!['"'], '=');
    crate::fields::lemma_split_without_sep(right, '=');
    let parts = split_at(line, '=');
    assert(parts =~= seq![left, right]);
    let q = seq!['"'] + v + seq!['"'];
    assert(right =~= seq![' '] + q);
    assert(q[0] == '"');
    crate::fields::lemma_trim_start_space(q);
    assert(q.last() == '"');
    assert(trimmed(right) == q);
    if !v.contains('"') {
        lemma_unquoted_plain(v);
    } else {
        lemma_unquoted_ends(v);
    }
}

proof fn lemma_value_has_no(host: Seq<char>, port: Seq<char>, c: char)
    requires
        !host.contains(c),
        !port.contains(c),
        c != ':',
    ensures
        !(host + ":"@ + port).contains(c),
{
    reveal_strlit(":");
    assert(!":"@.contains(c)) by {
        if ":"@.contains(c) {
            let k = choose|k: int| 0 <= k < ":"@.len() && ":"@[k] == c;
        }
    }
    lemma_no_char_concat(host, ":"@, c);
    lemma_no_char_concat(host + ":"@, port, c);
}

proof fn lemma_pieces(host: Seq<char>, port: Seq<char>)
    requires
        !host.contains(':'),
        !port.contains(':'),
    ensures
        first_piece(host + ":"@ + port) == host,
        last_piece(host + ":"@ + port) == port,
{
    reveal_strlit(":");
    assert(host + ":"@ + port =~= host + seq![':'] + port);
    crate::fields::lemma_split_around_sep(host, port, ':');
    crate::fields::lemma_split_without_sep(host, ':');
    crate::fields::lemma_split_without_sep(port, ':');
    assert(split_at(host + seq![':'] + port, ':') =~= seq![host, port]);
}

proof fn lemma_line_plain(key: Seq<char>, v: Seq<char>)
    requires
        key.len() > 0,
        !key.contains('\n'),
        !is_white_space_char(key[0]),
        !v.contains('\n'),
    ensures
        !setting_line(key, v).contains('\n'),
        trimmed(setting_line(key, v)) == setting_line(key, v),
{
    let line = setting_line(key, v);
    assert(!seq![' ', '=', ' ', '"'].contains('\n')) by {
        if seq![' ', '=', ' ', '"'].contains('\n') {
            let k = choose|k: int| 0 <= k < 4 && seq![' ', '=', ' ', '"'][k] == '\n';
        }
    }
    assert(!seq!['"'].contains('\n'));
    lemma_no_char_concat(key, seq![' ', '=', ' ', '"'], '\n');
    lemma_no_char_concat(key + seq![' ', '=', ' ', '"'], v, '\n');
    lemma_no_char_concat(key + seq![' ', '=', ' ', '"'] + v, seq!['"'], '\n');
    assert(line[0] == key[0]);
    assert(line.last() == '"');
    crate::fields::lemma_trimmed_unchanged(line);
}

/// Whether `c` is whitespace (see `fields::is_white_space`).
pub open spec fn is_white_space_char(c: char) -> bool {
    crate::fields::is_white_space(c)
}

/// A skill's description as the desktop list shows it: its first 60
/// characters followed by `...` where it is longer, `无描述` where it is
/// empty.
pub open spec fn listed_description(desc: Seq<char>) -> Seq<char> {
    if desc.len() > 60 {
        desc.take(60) + "..."@
    } else if desc.len() == 0 {
        "无描述"@
    } else {
        desc
    }
}

/// The description shown for a skill in the desktop list.
pub fn shown_description(desc: &str) -> (r: String)
    ensures
        r@ == listed_description(desc@),
{
    let v = chars_of(desc);
    if v.len() > 60 {
        let mut head: Vec<char> = Vec::new();
        let mut i: usize = 0;
        while i < 60
            invariant
                0 <= i <= 60,
                60 < v@.len(),
                v@ == desc@,
                head@ == desc@.take(i as int),
            decreases 60 - i,
        {
            head.push(v[i]);
            i = i + 1;
            assert(head@ =~= desc@.take(i as int));
        }
        let h = string_from_chars(head.as_slice());
        concat2(h.as_str(), "...")
    } else if v.len() == 0 {
        owned("无描述")
    } else {
        owned(desc)
    }
}

/// The ASCII digits of `s`, in order (what a port field keeps).
pub open spec fn ascii_digits(s: Seq<char>) -> Seq<char> {
    s.filter(|c: char| '0' <= c && c <= '9')
}

/// The ASCII digits of `s`, in order.
pub fn digits_only(s: &str) -> (r: String)
    ensures
        r@ == ascii_digits(s@),
{
    let v = chars_of(s);
    let ghost p = |c: char| '0' <= c && c <= '9';
    let mut out: Vec<char> = Vec::new();
    let mut i: usize = 0;
    while i < v.len()
        invariant
            0 <= i <= v@.len(),
            v@ == s@,
            p == (|c: char| '0' <= c && c <= '9'),
            out@ == s@.take(i as int).filter(p),
        decreases v@.len() - i,
    {
        proof {
            crate::seqs::lemma_filter_take_step(s@, p, i as int);
        }
        let c = v[i];
        if '0' <= c && c <= '9' {
            out.push(c);
        }
        i = i + 1;
    }
    assert(s@.take(v@.len() as int) =~= s@);
    string_from_chars(out.as_slice())
}

/// The status line for the service's state.
pub fn service_status_text(running: bool) -> (r: String)
    ensures
        r@ == if running {
            "服务运行中"@
        } else {
            "服务未运行"@
        },
{
    if running {
        owned("服务运行中")
    } else {
        owned("服务未运行")
    }
}

/// The desktop manager's state after asking the service to start: running
/// as found afterwards, with the service's message; or stopped, with why.
pub fn start_outcome(started: Result<String, String>, running_after: bool) -> (r: (bool, String))
    ensures
        match started {
            Ok(m) => r.0 == running_after && r.1@ == if running_after {
                m@
            } else {
                "启动失败"@
            },
            Err(e) => !r.0 && r.1@ == "启动失败: "@ + e@,
        },
{
    match started {
        Ok(m) => {
            if running_after {
                (true, m)
            } else {
                (false, owned("启动失败"))
            }
        },
        Err(e) => (false, concat2("启动失败: ", e.as_str())),
    }
}

/// What the import window does with a directory dropped on it: a skill
/// whose name is taken in the skills directory is skipped, any other waits
/// for confirmation; the log line says which.
pub fn import_drop(name: &str, target_exists: bool) -> (r: (bool, String))
    ensures
        r.0 == !target_exists,
        r.1@ == if target_exists {
            "→ "@ + name@ + " 已存在，跳过"@
        } else {
            "+ "@ + name@ + " (待确认)"@
        },
{
    if target_exists {
        (false, concat3("→ ", name, " 已存在，跳过"))
    } else {
        (true, concat3("+ ", name, " (待确认)"))
    }
}

/// The import log line for a skill copied in, or not.
pub fn import_result_line(name: &str, copied: &Result<(), String>) -> (r: String)
    ensures
        r@ == match copied {
            Ok(()) => "✓ "@ + name@ + " 导入成功"@,
            Err(e) => "✗ "@ + name@ + " "@ + e@,
        },
{
    match copied {
        Ok(()) => concat3("✓ ", name, " 导入成功"),
        Err(e) => {
            let a = concat3("✗ ", name, " ");
            concat2(a.as_str(), e.as_str())
        },
    }
}

/// Lines joined by line breaks.
pub open spec fn joined_lines(ls: Seq<Seq<char>>) -> Seq<char>
    decreases ls.len(),
{
    if ls.len() == 0 {
        Seq::empty()
    } else if ls.len() == 1 {
        ls[0]
    } else {
        joined_lines(ls.drop_last()) + seq!['\n'] + ls.last()
    }
}

/// No character of `s` is a line break.
pub open spec fn one_line(s: Seq<char>) -> bool {
    forall|i: int| 0 <= i < s.len() ==> s[i] != '\n'
}

proof fn lemma_split_joined(ls: Seq<Seq<char>>)
    requires
        ls.len() >= 1,
        forall|k: int| 0 <= k < ls.len() ==> one_line(#[trigger] ls[k]),
    ensures
        split_at(joined_lines(ls), '\n') == ls,
    decreases ls.len(),
{
    if ls.len() == 1 {
        assert(!ls[0].contains('\n')) by {
            assert(one_line(ls[0]));
        }
        crate::fields::lemma_split_without_sep(ls[0], '\n');
        assert(seq![ls[0]] =~= ls);
    } else {
        let init = ls.drop_last();
        assert forall|k: int| 0 <= k < init.len() implies one_line(#[trigger] init[k]) by {
            assert(init[k] == ls[k]);
        }
        lemma_split_joined(init);
        assert(one_line(ls[ls.len() - 1]));
        assert(!ls.last().contains('\n'));
        crate::fields::lemma_split_around_sep(joined_lines(init), ls.last(), '\n');
        crate::fields::lemma_split_without_sep(ls.last(), '\n');
        assert(init + seq![ls.last()] =~= ls);
    }
}

/// The lines of the file `gui_config_text` writes.
pub open spec fn gui_config_lines(host: Seq<char>, use_tray: bool, dark: Option<bool>) -> Seq<Seq<char>> {
    seq![
        setting_line("listen_addr"@, host + ":10882"@),
        setting_line("mcp_listen_addr"@, host + ":10881"@),
        "db_path = \"\""@,
        Seq::empty(),
        "[mcp]"@,
        "tools_path = \"tools\""@,
        "skills_dir = \"skills\""@,
        Seq::empty(),
        "[log]"@,
        "level = \"info\""@,
        Seq::empty(),
        "[gui]"@,
        "use_tray = "@ + flag_word(use_tray),
        setting_line("dark_mode"@, dark_word(dark)),
        Seq::empty(),
    ]
}

proof fn lemma_not_prefix_at(line: Seq<char>, key: Seq<char>, i: int)
    requires
        0 <= i < key.len(),
        i >= line.len() || line[i] != key[i],
    ensures
        !has_prefix(line, key),
{
    if has_prefix(line, key) {
        assert(line.subrange(0, key.len() as int)[i] == line[i]);
    }
}

proof fn lemma_gui_lines_plain(host: Seq<char>, use_tray: bool, dark: Option<bool>)
    requires
        !host.contains('\n'),
    ensures
        forall|k: int|
            0 <= k < gui_config_lines(host, use_tray, dark).len() ==> one_line(
                #[trigger] gui_config_lines(host, use_tray, dark)[k],
            ),
        forall|k: int|
            0 <= k < gui_config_lines(host, use_tray, dark).len() ==> trimmed(
                #[trigger] gui_config_lines(host, use_tray, dark)[k],
            ) == gui_config_lines(host, use_tray, dark)[k],
{
    reveal_strlit("listen_addr");
    reveal_strlit("mcp_listen_addr");
    reveal_strlit(":10882");
    reveal_strlit(":10881");
    reveal_strlit("db_path = \"\"");
    reveal_strlit("[mcp]");
    reveal_strlit("tools_path = \"tools\"");
    reveal_strlit("skills_dir = \"skills\"");
    reveal_strlit("[log]");
    reveal_strlit("level = \"info\"");
    reveal_strlit("[gui]");
    reveal_strlit("use_tray = ");
    reveal_strlit("dark_mode");
    reveal_strlit("true");
    reveal_strlit("false");
    reveal_strlit("dark");
    reveal_strlit("light");
    reveal_strlit("system");
    let ls = gui_config_lines(host, use_tray, dark);
    reveal_strlit("10882");
    reveal_strlit("10881");
    reveal_strlit(":");
    assert(!"10882"@.contains('\n') && !"10881"@.contains('\n')) by {
        if "10882"@.contains('\n') {
            let k = choose|k: int| 0 <= k < "10882"@.len() && "10882"@[k] == '\n';
        }
        if "10881"@.contains('\n') {
            let k = choose|k: int| 0 <= k < "10881"@.len() && "10881"@[k] == '\n';
        }
    }
    lemma_value_has_no(host, "10882"@, '\n');
    lemma_value_has_no(host, "10881"@, '\n');
    assert(host + ":10882"@ =~= host + ":"@ + "10882"@);
    assert(host + ":10881"@ =~= host + ":"@ + "10881"@);
    assert(!"listen_addr"@.contains('\n')) by {
        if "listen_addr"@.contains('\n') {
            let k = choose|k: int| 0 <= k < "listen_addr"@.len() && "listen_addr"@[k] == '\n';
        }
    }
    assert(!"mcp_listen_addr"@.contains('\n')) by {
        if "mcp_listen_addr"@.contains('\n') {
            let k = choose|k: int| 0 <= k < "mcp_listen_addr"@.len() && "mcp_listen_addr"@[k] == '\n';
        }
    }
    assert(!"dark_mode"@.contains('\n')) by {
        if "dark_mode"@.contains('\n') {
            let k = choose|k: int| 0 <= k < "dark_mode"@.len() && "dark_mode"@[k] == '\n';
        }
    }
    assert(!dark_word(dark).contains('\n')) by {
        if dark_word(dark).contains('\n') {
            let k = choose|k: int| 0 <= k < dark_word(dark).len() && dark_word(dark)[k] == '\n';
        }
    }
    lemma_line_plain("listen_addr"@, host + ":10882"@);
    lemma_line_plain("mcp_listen_addr"@, host + ":10881"@);
    lemma_line_plain("dark_mode"@, dark_word(dark));
    assert forall|k: int| 0 <= k < ls.len() implies one_line(#[trigger] ls[k]) && trimmed(ls[k]) == ls[k] by {
        if k == 0 || k == 1 || k == 13 {
            if !one_line(ls[k]) {
                let j = choose|j: int| 0 <= j < ls[k].len() && ls[k][j] == '\n';
                assert(ls[k].contains('\n'));
            }
        } else if ls[k].len() == 0 {
        } else {
            assert(one_line(ls[k]));
            crate::fields::lemma_trimmed_unchanged(ls[k]);
        }
    }
}

/// Every character of `a` occurs in `s`.
pub open spec fn chars_within(a: Seq<char>, s: Seq<char>) -> bool {
    forall|c: char| #[trigger] a.contains(c) ==> s.contains(c)
}

proof fn lemma_within_subrange(s: Seq<char>, i: int, j: int)
    requires
        0 <= i <= j <= s.len(),
    ensures
        chars_within(s.subrange(i, j), s),
{
    assert forall|c: char| #[trigger] s.subrange(i, j).contains(c) implies s.contains(c) by {
        let k = choose|k: int| 0 <= k < j - i && s.subrange(i, j)[k] == c;
        assert(s[i + k] == c);
    }
}

proof fn lemma_trim_start_suffix(s: Seq<char>)
    ensures
        crate::fields::trim_start(s).len() <= s.len(),
        crate::fields::trim_start(s) == s.subrange(s.len() - crate::fields::trim_start(s).len(), s.len() as int),
    decreases s.len(),
{
    if s.len() > 0 && crate::fields::is_white_space(s[0]) {
        let d = s.drop_first();
        lemma_trim_start_suffix(d);
        let t = crate::fields::trim_start(d);
        assert(d.subrange(d.len() - t.len(), d.len() as int) =~= s.subrange(s.len() - t.len(), s.len() as int));
    } else {
        assert(s.subrange(0, s.len() as int) =~= s);
    }
}

proof fn lemma_trim_end_prefix(s: Seq<char>)
    ensures
        crate::fields::trim_end(s).len() <= s.len(),
        crate::fields::trim_end(s) == s.subrange(0, crate::fields::trim_end(s).len() as int),
    decreases s.len(),
{
    if s.len() > 0 && crate::fields::is_white_space(s.last()) {
        let d = s.drop_last();
        lemma_trim_end_prefix(d);
        let t = crate::fields::trim_end(d);
        assert(d.subrange(0, t.len() as int) =~= s.subrange(0, t.len() as int));
    } else {
        assert(s.subrange(0, s.len() as int) =~= s);
    }
}

proof fn lemma_strip_start_suffix(s: Seq<char>, c: char)
    ensures
        strip_start(s, c).len() <= s.len(),
        strip_start(s, c) == s.subrange(s.len() - strip_start(s, c).len(), s.len() as int),
        strip_start(s, c).len() == 0 || strip_start(s, c)[0] != c,
    decreases s.len(),
{
    if s.len() > 0 && s[0] == c {
        let d = s.drop_first();
        lemma_strip_start_suffix(d, c);
        let t = strip_start(d, c);
        assert(d.subrange(d.len() - t.len(), d.len() as int) =~= s.subrange(s.len() - t.len(), s.len() as int));
    } else {
        assert(s.subrange(0, s.len() as int) =~= s);
    }
}

proof fn lemma_strip_end_prefix(s: Seq<char>, c: char)
    ensures
        strip_end(s, c).len() <= s.len(),
        strip_end(s, c) == s.subrange(0, strip_end(s, c).len() as int),
    decreases s.len(),
{
    if s.len() > 0 && s.last() == c {
        let d = s.drop_last();
        lemma_strip_end_prefix(d, c);
        let t = strip_end(d, c);
        assert(d.subrange(0, t.len() as int) =~= s.subrange(0, t.len() as int));
    } else {
        assert(s.subrange(0, s.len() as int) =~= s);
    }
}

/// The pieces of a split hold no separator and no character that is not
/// in the text; the first piece begins the text, and a text without a
/// separator is its one piece.
proof fn lemma_split_pieces(s: Seq<char>, sep: char)
    ensures
        split_at(s, sep).len() >= 1,
        forall|k: int| 0 <= k < split_at(s, sep).len() ==> !(#[trigger] split_at(s, sep)[k]).contains(sep),
        forall|k: int| 0 <= k < split_at(s, sep).len() ==> chars_within(#[trigger] split_at(s, sep)[k], s),
        split_at(s, sep)[0].len() <= s.len(),
        split_at(s, sep)[0] == s.subrange(0, split_at(s, sep)[0].len() as int),
        split_at(s, sep).len() == 1 ==> split_at(s, sep)[0] == s,
    decreases s.len(),
{
    let ps = split_at(s, sep);
    if s.len() == 0 {
        assert(ps =~= seq![Seq::<char>::empty()]);
        assert(s.subrange(0, 0) =~= Seq::<char>::empty());
        assert(!Seq::<char>::empty().contains(sep));
        assert forall|c: char| #[trigger] Seq::<char>::empty().contains(c) implies s.contains(c) by {}
    } else {
        let init = s.drop_last();
        lemma_split_pieces(init, sep);
        let p = split_at(init, sep);
        lemma_within_subrange(s, 0, init.len() as int);
        assert(init =~= s.subrange(0, init.len() as int));
        if s.last() == sep {
            assert(ps == p.push(Seq::empty()));
            assert forall|k: int| 0 <= k < ps.len() implies !(#[trigger] ps[k]).contains(sep) && chars_within(ps[k], s) by {
                if k < p.len() {
                    assert(ps[k] == p[k]);
                    assert(chars_within(p[k], init));
                } else {
                    assert(ps[k] == Seq::<char>::empty());
                    assert forall|c: char| #[trigger] ps[k].contains(c) implies s.contains(c) by {}
                }
            }
            assert(ps[0] == p[0]);
            assert(p[0] =~= s.subrange(0, p[0].len() as int));
        } else {
            let last = p.last().push(s.last());
            assert(ps == p.update(p.len() - 1, last));
            assert(chars_within(p.last(), init));
            assert(!p.last().contains(sep));
            assert(!last.contains(sep)) by {
                if last.contains(sep) {
                    let j = choose|j: int| 0 <= j < last.len() && last[j] == sep;
                    if j < p.last().len() {
                        assert(p.last()[j] == sep);
                    }
                }
            }
            assert(chars_within(last, s)) by {
                assert forall|c: char| #[trigger] last.contains(c) implies s.contains(c) by {
                    let j = choose|j: int| 0 <= j < last.len() && last[j] == c;
                    if j < p.last().len() {
                        assert(p.last()[j] == c);
                        assert(p.last().contains(c));
                        assert(init.contains(c));
                    } else {
                        assert(s[s.len() - 1] == c);
                    }
                }
            }
            assert forall|k: int| 0 <= k < ps.len() implies !(#[trigger] ps[k]).contains(sep) && chars_within(ps[k], s) by {
                if k < p.len() - 1 {
                    assert(ps[k] == p[k]);
                    assert(chars_within(p[k], init));
                }
            }
            if p.len() == 1 {
                assert(ps[0] == last);
                assert(last =~= s);
                assert(s.subrange(0, s.len() as int) =~= s);
            } else {
                assert(ps[0] == p[0]);
                assert(p[0] =~= s.subrange(0, p[0].len() as int));
            }
        }
    }
}

/// The index of the line a found setting comes from.
proof fn lemma_setting_line(lines: Seq<Seq<char>>, key: SettingKey, from: int) -> (i: int)
    requires
        setting_from(lines, key, from) is Some,
    ensures
        0 <= i < lines.len(),
        line_value(lines[i]) == setting_from(lines, key, from),
    decreases lines.len() - from,
{
    if sets_key(lines[from], key) && line_value(lines[from]) is Some {
        from
    } else {
        lemma_setting_line(lines, key, from + 1)
    }
}

/// The file `gui_config_text` writes gives back, when read, the tray flag
/// and the colour choice it was written with, where the host holds no line
/// break; and it gives back the host itself where the host has the form of
/// a host read from a file (`host_form`).
pub proof fn law_saved_gui_choices_read_back(host: Seq<char>, use_tray: bool, dark: Option<bool>)
    requires
        !host.contains('\n'),
    ensures
        setting(gui_config(host, use_tray, dark), SettingKey::DarkMode) matches Some(v) && dark_choice(v)
            == dark,
        tray_line_from(config_lines(gui_config(host, use_tray, dark)), 0) matches Some(i) && mentions_true(
            config_lines(gui_config(host, use_tray, dark))[i],
        ) == use_tray,
        host_form(host) ==> (setting(gui_config(host, use_tray, dark), SettingKey::ListenAddr)
            matches Some(v) && first_piece(v) == host),
{
    let ls = gui_config_lines(host, use_tray, dark);
    lemma_gui_lines_plain(host, use_tray, dark);
    lemma_split_joined(ls);
    let lines = config_lines(gui_config(host, use_tray, dark));
    assert(lines =~= ls);
    reveal_strlit("listen_addr");
    reveal_strlit("mcp_listen_addr");
    reveal_strlit(":10882");
    reveal_strlit(":10881");
    reveal_strlit("db_path = \"\"");
    reveal_strlit("[mcp]");
    reveal_strlit("tools_path = \"tools\"");
    reveal_strlit("skills_dir = \"skills\"");
    reveal_strlit("[log]");
    reveal_strlit("level = \"info\"");
    reveal_strlit("[gui]");
    reveal_strlit("use_tray = ");
    reveal_strlit("use_tray");
    reveal_strlit("dark_mode");
    reveal_strlit("true");
    reveal_strlit("false");
    reveal_strlit("dark");
    reveal_strlit("light");
    reveal_strlit("system");
    let dm = "dark_mode"@;
    let ut = "use_tray"@;
    if host_form(host) {
        lemma_gui_host_read_back(host, use_tray, dark);
    }
    // no line before the colour line sets the colour
    lemma_not_prefix_at(ls[0], dm, 0);
    lemma_not_prefix_at(ls[1], dm, 0);
    lemma_not_prefix_at(ls[2], dm, 1);
    lemma_not_prefix_at(ls[3], dm, 0);
    lemma_not_prefix_at(ls[4], dm, 0);
    lemma_not_prefix_at(ls[5], dm, 0);
    lemma_not_prefix_at(ls[6], dm, 0);
    lemma_not_prefix_at(ls[7], dm, 0);
    lemma_not_prefix_at(ls[8], dm, 0);
    lemma_not_prefix_at(ls[9], dm, 0);
    lemma_not_prefix_at(ls[10], dm, 0);
    lemma_not_prefix_at(ls[11], dm, 0);
    lemma_not_prefix_at(ls[12], dm, 0);
    assert(!"dark_mode"@.contains('=')) by {
        if "dark_mode"@.contains('=') {
            let k = choose|k: int| 0 <= k < "dark_mode"@.len() && "dark_mode"@[k] == '=';
        }
    }
    assert(!dark_word(dark).contains('=') && !dark_word(dark).contains('"')) by {
        if dark_word(dark).contains('=') || dark_word(dark).contains('"') {
            let k = choose|k: int| 0 <= k < dark_word(dark).len() && (dark_word(dark)[k] == '=' || dark_word(dark)[k] == '"');
        }
    }
    lemma_setting_line_value(dm, dark_word(dark));
    assert(ls[13].subrange(0, 9) =~= dm);
    let key = SettingKey::DarkMode;
    assert(setting_from(lines, key, 13) == Some(dark_word(dark)));
    assert(setting_from(lines, key, 12) == setting_from(lines, key, 13));
    assert(setting_from(lines, key, 11) == setting_from(lines, key, 12));
    assert(setting_from(lines, key, 10) == setting_from(lines, key, 11));
    assert(setting_from(lines, key, 9) == setting_from(lines, key, 10));
    assert(setting_from(lines, key, 8) == setting_from(lines, key, 9));
    assert(setting_from(lines, key, 7) == setting_from(lines, key, 8));
    assert(setting_from(lines, key, 6) == setting_from(lines, key, 7));
    assert(setting_from(lines, key, 5) == setting_from(lines, key, 6));
    assert(setting_from(lines, key, 4) == setting_from(lines, key, 5));
    assert(setting_from(lines, key, 3) == setting_from(lines, key, 4));
    assert(setting_from(lines, key, 2) == setting_from(lines, key, 3));
    assert(setting_from(lines, key, 1) == setting_from(lines, key, 2));
    assert(setting_from(lines, key, 0) == setting_from(lines, key, 1));
    assert(dark_choice(dark_word(dark)) == dark) by {
        assert("system"@.len() != "dark"@.len());
        assert("system"@.len() != "light"@.len());
        assert("light"@.len() != "dark"@.len());
    }
    // the first tray line is the tray setting
    lemma_not_prefix_at(ls[0], ut, 0);
    lemma_not_prefix_at(ls[1], ut, 0);
    lemma_not_prefix_at(ls[2], ut, 0);
    lemma_not_prefix_at(ls[3], ut, 0);
    lemma_not_prefix_at(ls[4], ut, 0);
    lemma_not_prefix_at(ls[5], ut, 0);
    lemma_not_prefix_at(ls[6], ut, 0);
    lemma_not_prefix_at(ls[7], ut, 0);
    lemma_not_prefix_at(ls[8], ut, 0);
    lemma_not_prefix_at(ls[9], ut, 0);
    lemma_not_prefix_at(ls[10], ut, 0);
    lemma_not_prefix_at(ls[11], ut, 0);
    assert(ls[12].subrange(0, 8) =~= ut);
    assert(tray_line_from(lines, 12) == Some(12int));
    assert(tray_line_from(lines, 11) == tray_line_from(lines, 12));
    assert(tray_line_from(lines, 10) == tray_line_from(lines, 11));
    assert(tray_line_from(lines, 9) == tray_line_from(lines, 10));
    assert(tray_line_from(lines, 8) == tray_line_from(lines, 9));
    assert(tray_line_from(lines, 7) == tray_line_from(lines, 8));
    assert(tray_line_from(lines, 6) == tray_line_from(lines, 7));
    assert(tray_line_from(lines, 5) == tray_line_from(lines, 6));
    assert(tray_line_from(lines, 4) == tray_line_from(lines, 5));
    assert(tray_line_from(lines, 3) == tray_line_from(lines, 4));
    assert(tray_line_from(lines, 2) == tray_line_from(lines, 3));
    assert(tray_line_from(lines, 1) == tray_line_from(lines, 2));
    assert(tray_line_from(lines, 0) == tray_line_from(lines, 1));
    let line = ls[12];
    if use_tray {
        assert(line.subrange(11, 15) =~= "true"@);
        assert(crate::fields::occurs_at(line, "true"@, 11));
    } else {
        assert forall|i: int| !crate::fields::occurs_at(line, "true"@, i) by {
            if crate::fields::occurs_at(line, "true"@, i) {
                assert(line.subrange(i, i + 4)[0] == line[i]);
                assert(line.subrange(i, i + 4)[1] == line[i + 1]);
                assert(line[i] == 't' && line[i + 1] == 'r');
                if i == 4 {
                    assert(line[5] == 'r');
                    assert(line.subrange(i, i + 4)[2] == line[6]);
                } else {
                    assert(0 <= i <= 12);
                    assert(i == 0 || i == 1 || i == 2 || i == 3 || i == 5 || i == 6 || i == 7 || i == 8 || i == 9 || i == 10 || i == 11 || i == 12);
                }
            }
        }
    }
}

proof fn lemma_gui_host_read_back(host: Seq<char>, use_tray: bool, dark: Option<bool>)
    requires
        host_form(host),
    ensures
        setting(gui_config(host, use_tray, dark), SettingKey::ListenAddr) matches Some(v) && first_piece(v)
            == host,
{
    let ls = gui_config_lines(host, use_tray, dark);
    lemma_gui_lines_plain(host, use_tray, dark);
    lemma_split_joined(ls);
    let lines = config_lines(gui_config(host, use_tray, dark));
    assert(lines =~= ls);
    reveal_strlit("listen_addr");
    reveal_strlit("mcp_listen_addr");
    reveal_strlit(":10882");
    reveal_strlit("10882");
    reveal_strlit(":");
    let port = "10882"@;
    assert(!port.contains('=') && !port.contains('"') && !port.contains(':')) by {
        if port.contains('=') || port.contains('"') || port.contains(':') {
            let k = choose|k: int| 0 <= k < port.len() && (port[k] == '=' || port[k] == '"' || port[k] == ':');
        }
    }
    assert(!"listen_addr"@.contains('=')) by {
        if "listen_addr"@.contains('=') {
            let k = choose|k: int| 0 <= k < "listen_addr"@.len() && "listen_addr"@[k] == '=';
        }
    }
    let v = host + ":"@ + port;
    assert(host + ":10882"@ =~= v);
    lemma_value_has_no(host, port, '=');
    lemma_value_ends(host, port);
    lemma_setting_line_value("listen_addr"@, v);
    assert(ls[0].subrange(0, 11) =~= "listen_addr"@);
    lemma_not_prefix_at(ls[0], "mcp_listen_addr"@, 0);
    assert(sets_key(ls[0], SettingKey::ListenAddr));
    assert(setting_from(lines, SettingKey::ListenAddr, 0) == Some(v));
    lemma_pieces(host, port);
}

proof fn lemma_port_lines_plain(host: Seq<char>, port: Seq<char>, web_port: Seq<char>)
    requires
        !host.contains('\n'),
        !port.contains('\n'),
        !web_port.contains('\n'),
    ensures
        forall|k: int|
            0 <= k < port_config_lines(host, port, web_port).len() ==> one_line(
                #[trigger] port_config_lines(host, port, web_port)[k],
            ),
        forall|k: int|
            0 <= k < port_config_lines(host, port, web_port).len() ==> trimmed(
                #[trigger] port_config_lines(host, port, web_port)[k],
            ) == port_config_lines(host, port, web_port)[k],
{
    reveal_strlit("listen_addr");
    reveal_strlit("mcp_listen_addr");
    reveal_strlit(":");
    reveal_strlit("db_path = \"\"");
    reveal_strlit("[mcp]");
    reveal_strlit("tools_path = \"tools\"");
    reveal_strlit("skills_dir = \"skills\"");
    reveal_strlit("[log]");
    reveal_strlit("level = \"info\"");
    let ls = port_config_lines(host, port, web_port);
    lemma_value_has_no(host, web_port, '\n');
    lemma_value_has_no(host, port, '\n');
    assert(!"listen_addr"@.contains('\n')) by {
        if "listen_addr"@.contains('\n') {
            let k = choose|k: int| 0 <= k < "listen_addr"@.len() && "listen_addr"@[k] == '\n';
        }
    }
    assert(!"mcp_listen_addr"@.contains('\n')) by {
        if "mcp_listen_addr"@.contains('\n') {
            let k = choose|k: int| 0 <= k < "mcp_listen_addr"@.len() && "mcp_listen_addr"@[k] == '\n';
        }
    }
    lemma_line_plain("listen_addr"@, host + ":"@ + web_port);
    lemma_line_plain("mcp_listen_addr"@, host + ":"@ + port);
    assert forall|k: int| 0 <= k < ls.len() implies one_line(#[trigger] ls[k]) && trimmed(ls[k]) == ls[k] by {
        if k == 0 || k == 1 {
            if !one_line(ls[k]) {
                let j = choose|j: int| 0 <= j < ls[k].len() && ls[k][j] == '\n';
                assert(ls[k].contains('\n'));
            }
        } else if ls[k].len() == 0 {
        } else {
            assert(one_line(ls[k]));
            crate::fields::lemma_trimmed_unchanged(ls[k]);
        }
    }
}

/// The file `port_config_text` writes gives back, when read, the MCP port,
/// the web port and the host it was written with, where the ports hold no
/// line break, `=`, double quote or `:` and the host has the form of a host
/// read from a file (`host_form`); and it holds no tray setting (so the
/// tray is off) and no colour choice.
pub proof fn law_saved_ports_read_back(host: Seq<char>, port: Seq<char>, web_port: Seq<char>)
    requires
        host_form(host),
        plain_value(port),
        plain_value(web_port),
        !port.contains(':'),
        !web_port.contains(':'),
    ensures
        setting(port_config(host, port, web_port), SettingKey::McpListenAddr) matches Some(v) && last_piece(v)
            == port,
        setting(port_config(host, port, web_port), SettingKey::ListenAddr) matches Some(v) && last_piece(v)
            == web_port && first_piece(v) == host,
        tray_line_from(config_lines(port_config(host, port, web_port)), 0) is None,
        setting(port_config(host, port, web_port), SettingKey::DarkMode) is None,
{
    let ls = port_config_lines(host, port, web_port);
    lemma_port_lines_plain(host, port, web_port);
    lemma_split_joined(ls);
    let lines = config_lines(port_config(host, port, web_port));
    assert(lines =~= ls);
    reveal_strlit(":");
    reveal_strlit("listen_addr");
    reveal_strlit("mcp_listen_addr");
    reveal_strlit("db_path = \"\"");
    reveal_strlit("[mcp]");
    reveal_strlit("tools_path = \"tools\"");
    reveal_strlit("skills_dir = \"skills\"");
    reveal_strlit("[log]");
    reveal_strlit("level = \"info\"");
    reveal_strlit("use_tray");
    reveal_strlit("dark_mode");
    let web_v = host + ":"@ + web_port;
    let mcp_v = host + ":"@ + port;
    let l1 = ls[0];
    let l2 = ls[1];
    lemma_value_has_no(host, web_port, '=');
    lemma_value_has_no(host, port, '=');
    lemma_value_ends(host, web_port);
    lemma_value_ends(host, port);
    assert(!"listen_addr"@.contains('=')) by {
        if "listen_addr"@.contains('=') {
            let k = choose|k: int| 0 <= k < "listen_addr"@.len() && "listen_addr"@[k] == '=';
        }
    }
    assert(!"mcp_listen_addr"@.contains('=')) by {
        if "mcp_listen_addr"@.contains('=') {
            let k = choose|k: int| 0 <= k < "mcp_listen_addr"@.len() && "mcp_listen_addr"@[k] == '=';
        }
    }
    lemma_setting_line_value("listen_addr"@, web_v);
    lemma_setting_line_value("mcp_listen_addr"@, mcp_v);
    assert(l1.subrange(0, 11) =~= "listen_addr"@);
    assert(l2.subrange(0, 15) =~= "mcp_listen_addr"@);
    lemma_not_prefix_at(l1, "mcp_listen_addr"@, 0);
    assert(sets_key(l1, SettingKey::ListenAddr));
    assert(!sets_key(l1, SettingKey::McpListenAddr));
    assert(sets_key(l2, SettingKey::McpListenAddr));
    assert(setting_from(lines, SettingKey::McpListenAddr, 0) == setting_from(lines, SettingKey::McpListenAddr, 1));
    lemma_pieces(host, port);
    lemma_pieces(host, web_port);
    // no line sets the colour or the tray
    let dm = "dark_mode"@;
    let ut = "use_tray"@;
    lemma_not_prefix_at(ls[0], dm, 0);
    lemma_not_prefix_at(ls[1], dm, 0);
    lemma_not_prefix_at(ls[2], dm, 1);
    lemma_not_prefix_at(ls[3], dm, 0);
    lemma_not_prefix_at(ls[4], dm, 0);
    lemma_not_prefix_at(ls[5], dm, 0);
    lemma_not_prefix_at(ls[6], dm, 0);
    lemma_not_prefix_at(ls[7], dm, 0);
    lemma_not_prefix_at(ls[8], dm, 0);
    lemma_not_prefix_at(ls[9], dm, 0);
    lemma_not_prefix_at(ls[10], dm, 0);
    let key = SettingKey::DarkMode;
    assert(setting_from(lines, key, 11) is None);
    assert(setting_from(lines, key, 10) == setting_from(lines, key, 11));
    assert(setting_from(lines, key, 9) == setting_from(lines, key, 10));
    assert(setting_from(lines, key, 8) == setting_from(lines, key, 9));
    assert(setting_from(lines, key, 7) == setting_from(lines, key, 8));
    assert(setting_from(lines, key, 6) == setting_from(lines, key, 7));
    assert(setting_from(lines, key, 5) == setting_from(lines, key, 6));
    assert(setting_from(lines, key, 4) == setting_from(lines, key, 5));
    assert(setting_from(lines, key, 3) == setting_from(lines, key, 4));
    assert(setting_from(lines, key, 2) == setting_from(lines, key, 3));
    assert(setting_from(lines, key, 1) == setting_from(lines, key, 2));
    assert(setting_from(lines, key, 0) == setting_from(lines, key, 1));
    lemma_not_prefix_at(ls[0], ut, 0);
    lemma_not_prefix_at(ls[1], ut, 0);
    lemma_not_prefix_at(ls[2], ut, 0);
    lemma_not_prefix_at(ls[3], ut, 0);
    lemma_not_prefix_at(ls[4], ut, 0);
    lemma_not_prefix_at(ls[5], ut, 0);
    lemma_not_prefix_at(ls[6], ut, 0);
    lemma_not_prefix_at(ls[7], ut, 0);
    lemma_not_prefix_at(ls[8], ut, 0);
    lemma_not_prefix_at(ls[9], ut, 0);
    lemma_not_prefix_at(ls[10], ut, 0);
    assert(tray_line_from(lines, 11) is None);
    assert(tray_line_from(lines, 10) == tray_line_from(lines, 11));
    assert(tray_line_from(lines, 9) == tray_line_from(lines, 10));
    assert(tray_line_from(lines, 8) == tray_line_from(lines, 9));
    assert(tray_line_from(lines, 7) == tray_line_from(lines, 8));
    assert(tray_line_from(lines, 6) == tray_line_from(lines, 7));
    assert(tray_line_from(lines, 5) == tray_line_from(lines, 6));
    assert(tray_line_from(lines, 4) == tray_line_from(lines, 5));
    assert(tray_line_from(lines, 3) == tray_line_from(lines, 4));
    assert(tray_line_from(lines, 2) == tray_line_from(lines, 3));
    assert(tray_line_from(lines, 1) == tray_line_from(lines, 2));
    assert(tray_line_from(lines, 0) == tray_line_from(lines, 1));
}

/// A host as a configuration text can give it, and as the settings file
/// keeps it: no line break, `=` or `:`, and no double quote at its start.
pub open spec fn host_form(h: Seq<char>) -> bool {
    &&& !h.contains('\n')
    &&& !h.contains('=')
    &&& !h.contains(':')
    &&& (h.len() == 0 || h[0] != '"')
}

/// The host `read_config_listen_host` gives for the text `content`.
pub open spec fn listen_host_of(content: Seq<char>) -> Seq<char> {
    match setting(content, SettingKey::ListenAddr) {
        Some(v) => first_piece(v),
        None => "127.0.0.1"@,
    }
}

/// Every host read from a configuration text has `host_form`, so the
/// settings files written with it give it back.
pub proof fn law_read_host_has_form(content: Seq<char>)
    ensures
        host_form(listen_host_of(content)),
{
    let key = SettingKey::ListenAddr;
    match setting(content, key) {
        Some(v) => {
            let pieces = split_at(content, '\n');
            let lines = config_lines(content);
            let i = lemma_setting_line(lines, key, 0);
            lemma_split_pieces(content, '\n');
            assert(lines.len() == pieces.len());
            let l = lines[i];
            let piece = pieces[i];
            assert(l == trimmed(piece));
            let ts = crate::fields::trim_start(piece);
            lemma_trim_start_suffix(piece);
            lemma_trim_end_prefix(ts);
            lemma_within_subrange(piece, piece.len() - ts.len(), piece.len() as int);
            lemma_within_subrange(ts, 0, l.len() as int);
            assert(!l.contains('\n'));
            let parts = split_at(l, '=');
            lemma_split_pieces(l, '=');
            assert(parts.len() >= 2);
            let p1 = parts[1];
            assert(!p1.contains('=') && chars_within(p1, l));
            let t = trimmed(p1);
            let ts1 = crate::fields::trim_start(p1);
            lemma_trim_start_suffix(p1);
            lemma_trim_end_prefix(ts1);
            lemma_within_subrange(p1, p1.len() - ts1.len(), p1.len() as int);
            lemma_within_subrange(ts1, 0, t.len() as int);
            let r = strip_start(t, '"');
            lemma_strip_start_suffix(t, '"');
            lemma_within_subrange(t, t.len() - r.len(), t.len() as int);
            assert(v == strip_end(r, '"'));
            lemma_strip_end_prefix(r, '"');
            lemma_within_subrange(r, 0, v.len() as int);
            let h = split_at(v, ':')[0];
            lemma_split_pieces(v, ':');
            lemma_within_subrange(v, 0, h.len() as int);
            assert(!h.contains('\n'));
            assert(!h.contains('='));
            if h.len() > 0 {
                assert(h[0] == v[0]);
                assert(v[0] == r[0]);
            }
        },
        None => {
            let d = "127.0.0.1"@;
            reveal_strlit("127.0.0.1");
            assert(!d.contains('\n') && !d.contains('=') && !d.contains(':')) by {
                if d.contains('\n') || d.contains('=') || d.contains(':') {
                    let k = choose|k: int| 0 <= k < d.len() && (d[k] == '\n' || d[k] == '=' || d[k] == ':');
                }
            }
        },
    }
}

/// Saving the ports keeps the host that was read before: writing
/// `port_config_text` with the host read from a configuration text
/// `before` gives that host back, and the ports, where the ports hold no
/// line break, `=`, double quote or `:`.
pub proof fn law_saved_ports_keep_read_host(before: Seq<char>, port: Seq<char>, web_port: Seq<char>)
    requires
        plain_value(port),
        plain_value(web_port),
        !port.contains(':'),
        !web_port.contains(':'),
    ensures
        setting(port_config(listen_host_of(before), port, web_port), SettingKey::ListenAddr) matches Some(v)
            && first_piece(v) == listen_host_of(before) && last_piece(v) == web_port,
        setting(port_config(listen_host_of(before), port, web_port), SettingKey::McpListenAddr) matches Some(v)
            && last_piece(v) == port,
{
    law_read_host_has_form(before);
    law_saved_ports_read_back(listen_host_of(before), port, web_port);
}

/// Saving the window choices keeps the host that was read before: writing
/// `gui_config_text` with the host read from a configuration text
/// `before` gives that host back, with the tray flag and colour choice.
pub proof fn law_saved_gui_choices_keep_read_host(before: Seq<char>, use_tray: bool, dark: Option<bool>)
    ensures
        setting(gui_config(listen_host_of(before), use_tray, dark), SettingKey::ListenAddr) matches Some(v)
            && first_piece(v) == listen_host_of(before),
        setting(gui_config(listen_host_of(before), use_tray, dark), SettingKey::DarkMode) matches Some(v)
            && dark_choice(v) == dark,
{
    law_read_host_has_form(before);
    law_saved_gui_choices_read_back(listen_host_of(before), use_tray, dark);
}

} // verus!
