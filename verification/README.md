# skill_manager_mcp

A skill manager for AI assistants, served over MCP: it scans a skills
directory (each skill a folder with a `SKILL.md` whose YAML front matter
names and describes it), offers each skill as a tool, and lets the user
enable, disable, search, trash and restore skills. A small memory system
(notes with tags, recalled by keyword) and an issue log come with it.

The library is written in Verus: every function in `src/` carries a
contract, and the module docs say what each part models.  Verus proves
every contract except those of the five functions that call outside code,
whose contracts it takes on trust:

- `db::new_issue_id` — a random `uuid` v4 in its hyphenated form;
- `text::string_from_chars` — std's `String` built from characters;
- `tools::skill_scanner::load_yaml_fields` — the front matter read by
  `yaml_rust2` (its result is named `yaml_front_matter`);
- `tools::skill_scanner::strings_to_json` and `string_to_json` —
  `serde_json::to_string` of a list of strings and of a string (stated
  by `json_string_array` and `json_string`).

## Layout

- `src/db/` — the store: the skill table (name order, enable switch,
  trash flag), the memory log (newest-first recall, archiving, access
  counts) and the issue log.
- `src/tools/` — the tools: reading `SKILL.md` files, the built-in MCP
  tools and the replies they give, the tool manager that rebuilds the tool
  list and the handler table.
- `src/exec/` — the handler table and the file tools.
- `src/management/`, `src/web_admin.rs`, `src/paging.rs` — what the web
  administration does: trash moves, switches, refresh, paging.
- `src/config.rs`, `src/settings.rs`, `src/api.rs` — the server's
  configuration, the desktop manager's settings file, and its view of the
  administration API.
- `src/text.rs`, `src/fields.rs`, `src/query.rs` — text utilities: binary
  order, SQL `LIKE` matching, trimming, splitting, query cleaning.
- `app/` — the server program: configuration loading, SQLite persistence,
  file-system work, the MCP endpoint (rmcp) and the web panel (salvo).
- `tests/` — tests of the library on concrete values.
