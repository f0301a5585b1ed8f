//! Reading a skill's `SKILL.md`: the YAML front matter between the opening
//! `---` and the next `---` gives the skill's name, description and tags.
use vstd::prelude::*;

use crate::text::{chars_of, concat2, concat3, owned, string_from_chars, strings_view};
use crate::tools::schema::ToolDefinition;

verus! {

broadcast use {vstd::seq_lib::group_seq_properties, vstd::seq::group_seq_axioms};

/// A skill found in the skills directory.  `path` is its directory,
/// `dir_name` the directory's own name and `skill_file` its `SKILL.md`.
#[derive(Debug)]
pub struct SkillInfo {
    pub name: String,
    pub description: String,
    pub tags: Vec<String>,
    pub path: String,
    pub dir_name: String,
    pub skill_file: String,
}

/// The abstract content of a `SkillInfo`.
pub struct SkillInfoView {
    pub name: Seq<char>,
    pub description: Seq<char>,
    pub tags: Seq<Seq<char>>,
    pub path: Seq<char>,
    pub dir_name: Seq<char>,
    pub skill_file: Seq<char>,
}

impl View for SkillInfo {
    type V = SkillInfoView;

    open spec fn view(&self) -> SkillInfoView {
        SkillInfoView {
            name: self.name@,
            description: self.description@,
            tags: strings_view(self.tags@),
            path: self.path@,
            dir_name: self.dir_name@,
            skill_file: self.skill_file@,
        }
    }
}

/// A copy of a list of strings.
pub fn clone_strings(v: &Vec<String>) -> (r: Vec<String>)
    ensures
        r@ == v@,
{
    let mut out: Vec<String> = Vec::new();
    let mut i: usize = 0;
    while i < v.len()
        invariant
            0 <= i <= v@.len(),
            out@ == v@.take(i as int),
        decreases v@.len() - i,
    {
        out.push(v[i].clone());
        i = i + 1;
        assert(out@ =~= v@.take(i as int));
    }
    assert(v@.take(v@.len() as int) =~= v@);
    out
}

/// The abstract contents of a list of skills.
pub open spec fn infos_view(v: Seq<SkillInfo>) -> Seq<SkillInfoView> {
    v.map_values(|s: SkillInfo| s@)
}

impl Clone for SkillInfo {
    fn clone(&self) -> (r: Self)
        ensures
            r@ == self@,
    {
        SkillInfo {
            name: self.name.clone(),
            description: self.description.clone(),
            tags: clone_strings(&self.tags),
            path: self.path.clone(),
            dir_name: self.dir_name.clone(),
            skill_file: self.skill_file.clone(),
        }
    }
}

/// The fields of a YAML document that a skill's front matter may set:
/// `name` and `description` where they are strings, and `tags` where it is
/// a list, each item kept where it is a string.
pub struct YamlFields {
    pub name: Option<String>,
    pub description: Option<String>,
    pub tags: Option<Vec<Option<String>>>,
}

pub open spec fn opt_chars(o: Option<String>) -> Option<Seq<char>> {
    match o {
        Some(s) => Some(s@),
        None => None,
    }
}

pub open spec fn yaml_fields_view(f: YamlFields) -> (
    Option<Seq<char>>,
    Option<Seq<char>>,
    Option<Seq<Option<Seq<char>>>>,
) {
    (
        opt_chars(f.name),
        opt_chars(f.description),
        match f.tags {
            Some(v) => Some(v@.map_values(|o: Option<String>| opt_chars(o))),
            None => None,
        },
    )
}

/// What `yaml_rust2` reads from a text: for the first YAML document in it,
/// its `name` and `description` where they are strings and its `tags`
/// where it is a list (items that are strings); `None` when the text does
/// not parse or holds no document.
pub uninterp spec fn yaml_front_matter(text: Seq<char>) -> Option<
    (Option<Seq<char>>, Option<Seq<char>>, Option<Seq<Option<Seq<char>>>>),
>;

/// Loads the YAML documents of `text` with `yaml_rust2`'s
/// `YamlLoader::load_from_str` and picks the fields of the first one: the
/// contract claims that the result is `yaml_front_matter` of the text.
#[verifier::external_body]
fn load_yaml_fields(text: &str) -> (r: Option<YamlFields>)
    ensures
        match r {
            Some(f) => yaml_front_matter(text@) == Some(yaml_fields_view(f)),
            None => yaml_front_matter(text@) is None,
        },
{
    let docs = yaml_rust2::YamlLoader::load_from_str(text).ok()?;
    let doc = docs.first()?;
    Some(YamlFields {
        name: doc["name"].as_str().map(String::from),
        description: doc["description"].as_str().map(String::from),
        tags: doc["tags"].as_vec().map(|a| a.iter().map(|v| v.as_str().map(String::from)).collect()),
    })
}

/// The lowercase hexadecimal digits.
pub open spec fn hex_digits() -> Seq<char> {
    seq!['0', '1', '2', '3', '4', '5', '6', '7', '8', '9', 'a', 'b', 'c', 'd', 'e', 'f']
}

/// How a JSON string literal writes the character `c`: a double quote and
/// a backslash behind a backslash; backspace, tab, line feed, form feed
/// and carriage return as `\b`, `\t`, `\n`, `\f` and `\r`; the other
/// control characters below U+0020 as `\u00` and two lowercase hex
/// digits; every other character as itself.
pub open spec fn json_char(c: char) -> Seq<char> {
    if c == '"' {
        seq!['\\', '"']
    } else if c == '\\' {
        seq!['\\', '\\']
    } else if c == '\u{8}' {
        seq!['\\', 'b']
    } else if c == '\t' {
        seq!['\\', 't']
    } else if c == '\n' {
        seq!['\\', 'n']
    } else if c == '\u{c}' {
        seq!['\\', 'f']
    } else if c == '\r' {
        seq!['\\', 'r']
    } else if (c as int) < 0x20 {
        seq!['\\', 'u', '0', '0', hex_digits()[(c as int) / 16], hex_digits()[(c as int) % 16]]
    } else {
        seq![c]
    }
}

/// The characters of `s`, each written as in a JSON string literal.
pub open spec fn json_escaped(s: Seq<char>) -> Seq<char>
    decreases s.len(),
{
    if s.len() == 0 {
        Seq::empty()
    } else {
        json_escaped(s.drop_last()) + json_char(s.last())
    }
}

/// The JSON text of a string, as `serde_json::to_string` writes it: a
/// double quote, the string's characters escaped (see `json_char`), and a
/// double quote.
pub open spec fn json_string(s: Seq<char>) -> Seq<char> {
    seq!['"'] + json_escaped(s) + seq!['"']
}

/// The JSON literals of `items`, separated by commas.
pub open spec fn json_items(items: Seq<Seq<char>>) -> Seq<char>
    decreases items.len(),
{
    if items.len() == 0 {
        Seq::empty()
    } else if items.len() == 1 {
        json_string(items[0])
    } else {
        json_items(items.drop_last()) + seq![','] + json_string(items.last())
    }
}

/// The JSON text of a list of strings, as `serde_json::to_string` writes it
/// (its compact form): `[`, the strings' JSON literals separated by commas,
/// and `]`.
pub open spec fn json_string_array(items: Seq<Seq<char>>) -> Seq<char> {
    seq!['['] + json_items(items) + seq![']']
}

/// Writes a list of strings as JSON with `serde_json::to_string` (which
/// cannot fail on strings); the contract claims that the result is
/// `json_string_array` of the strings: the opening bracket, each string
/// as `string_to_json` writes it, separated by commas, and the closing
/// bracket.
#[verifier::external_body]
pub(crate) fn strings_to_json(items: &Vec<String>) -> (r: String)
    ensures
        r@ == json_string_array(strings_view(items@)),
{
    serde_json::to_string(items).unwrap_or_default()
}

/// Writes a string as a JSON literal with `serde_json::to_string` (which
/// cannot fail on a string); the contract claims that the result is
/// `json_string` of it: the string quoted, with serde_json's escapes.
#[verifier::external_body]
pub(crate) fn string_to_json(s: &str) -> (r: String)
    ensures
        r@ == json_string(s@),
{
    serde_json::to_string(s).unwrap_or_default()
}

/// The first position from `i` on where `pat` occurs in `s`.
pub open spec fn find_from(s: Seq<char>, pat: Seq<char>, i: int) -> Option<int>
    decreases s.len() + 1 - i,
{
    if i < 0 || i + pat.len() > s.len() {
        None
    } else if s.subrange(i, i + pat.len()) == pat {
        Some(i)
    } else {
        find_from(s, pat, i + 1)
    }
}

pub open spec fn dashes() -> Seq<char> {
    seq!['-', '-', '-']
}

/// The front matter of a `SKILL.md`: when the text starts with `---`, what
/// lies between it and the next `---`.
pub open spec fn front_matter(content: Seq<char>) -> Option<Seq<char>> {
    if content.len() >= 3 && content.take(3) == dashes() {
        let rest = content.skip(3);
        match find_from(rest, dashes(), 0) {
            Some(k) => Some(rest.take(k)),
            None => None,
        }
    } else {
        None
    }
}

pub open spec fn some_item() -> spec_fn(Option<Seq<char>>) -> Option<Seq<char>> {
    |o: Option<Seq<char>>| o
}

/// The string items of an optional YAML list.
pub open spec fn string_items(tags: Option<Seq<Option<Seq<char>>>>) -> Seq<Seq<char>> {
    match tags {
        Some(items) => items.filter_map(some_item()),
        None => Seq::empty(),
    }
}

/// The name, description and tags a `SKILL.md` declares: both a name and a
/// description are needed; tags are optional.
pub open spec fn declared_meta(content: Seq<char>) -> Option<(Seq<char>, Seq<char>, Seq<Seq<char>>)> {
    match front_matter(content) {
        Some(fm) => match yaml_front_matter(fm) {
            Some((Some(n), Some(d), t)) => Some((n, d, string_items(t))),
            _ => None,
        },
        None => None,
    }
}

/// The first position from 0 on where `---` occurs in `s`.
fn find_dashes(s: &Vec<char>) -> (r: Option<usize>)
    ensures
        match r {
            Some(k) => find_from(s@, dashes(), 0) == Some(k as int),
            None => find_from(s@, dashes(), 0) is None,
        },
{
    let n = s.len();
    let mut i: usize = 0;
    while i < n
        invariant
            0 <= i <= n,
            n == s@.len(),
            find_from(s@, dashes(), 0) == find_from(s@, dashes(), i as int),
        decreases n - i,
    {
        if n - i < 3 {
            proof {
                lemma_find_from_end(s@, i as int);
            }
            return None;
        }
        if s[i] == '-' && s[i + 1] == '-' && s[i + 2] == '-' {
            assert(s@.subrange(i as int, i + 3) =~= dashes());
            return Some(i);
        }
        assert(s@.subrange(i as int, i + 3) != dashes()) by {
            if s@.subrange(i as int, i + 3) == dashes() {
                assert(s@.subrange(i as int, i + 3)[0] == s@[i as int]);
                assert(s@.subrange(i as int, i + 3)[1] == s@[i + 1]);
                assert(s@.subrange(i as int, i + 3)[2] == s@[i + 2]);
            }
        }
        i = i + 1;
    }
    proof {
        lemma_find_from_end(s@, i as int);
    }
    None
}

proof fn lemma_find_from_bounds(s: Seq<char>, pat: Seq<char>, i: int)
    ensures
        find_from(s, pat, i) matches Some(k) ==> i <= k && k + pat.len() <= s.len() && s.subrange(
            k,
            k + pat.len(),
        ) == pat,
    decreases s.len() + 1 - i,
{
    if !(i < 0 || i + pat.len() > s.len()) && s.subrange(i, i + pat.len()) != pat {
        lemma_find_from_bounds(s, pat, i + 1);
    }
}

proof fn lemma_find_from_end(s: Seq<char>, i: int)
    requires
        0 <= i,
        i + 3 > s.len(),
    ensures
        find_from(s, dashes(), i) is None,
{
}

/// The front matter of a `SKILL.md` text (see `front_matter`).
pub fn front_matter_of(content: &str) -> (r: Option<String>)
    ensures
        match r {
            Some(f) => front_matter(content@) == Some(f@),
            None => front_matter(content@) is None,
        },
{
    let c = chars_of(content);
    if c.len() < 3 || c[0] != '-' || c[1] != '-' || c[2] != '-' {
        proof {
            if c@.len() >= 3 && c@.take(3) == dashes() {
                assert(c@.take(3)[0] == c@[0] && c@.take(3)[1] == c@[1] && c@.take(3)[2] == c@[2]);
            }
        }
        return None;
    }
    assert(c@.take(3) =~= dashes());
    let mut rest: Vec<char> = Vec::new();
    let mut i: usize = 3;
    while i < c.len()
        invariant
            3 <= i <= c@.len(),
            rest@ == c@.subrange(3, i as int),
        decreases c@.len() - i,
    {
        rest.push(c[i]);
        i = i + 1;
        assert(rest@ =~= c@.subrange(3, i as int));
    }
    assert(rest@ =~= c@.skip(3));
    match find_dashes(&rest) {
        Some(k) => {
            proof {
                lemma_find_from_bounds(rest@, dashes(), 0);
            }
            let mut fm: Vec<char> = Vec::new();
            let mut j: usize = 0;
            while j < k
                invariant
                    0 <= j <= k,
                    k <= rest@.len(),
                    fm@ == rest@.take(j as int),
                decreases k - j,
            {
                fm.push(rest[j]);
                j = j + 1;
                assert(fm@ =~= rest@.take(j as int));
            }
            Some(string_from_chars(fm.as_slice()))
        },
        None => None,
    }
}

/// The string items among optional ones, in order.
fn keep_strings(items: &Vec<Option<String>>) -> (r: Vec<String>)
    ensures
        strings_view(r@) == items@.map_values(|o: Option<String>| opt_chars(o)).filter_map(some_item()),
{
    let ghost iv = items@.map_values(|o: Option<String>| opt_chars(o));
    let mut out: Vec<String> = Vec::new();
    let mut i: usize = 0;
    while i < items.len()
        invariant
            0 <= i <= items@.len(),
            iv == items@.map_values(|o: Option<String>| opt_chars(o)),
            strings_view(out@) == iv.take(i as int).filter_map(some_item()),
        decreases items@.len() - i,
    {
        proof {
            iv.lemma_filter_map_take_succ(some_item(), i as int);
        }
        match &items[i] {
            Some(s) => {
                let ghost before = out@;
                out.push(s.clone());
                assert(strings_view(out@) =~= strings_view(before) + seq![s@]);
            },
            None => {},
        }
        i = i + 1;
    }
    assert(iv.take(items@.len() as int) =~= iv);
    out
}

/// The name, description and tags that a `SKILL.md` text declares (see
/// `declared_meta`).
pub fn parse_skill_file(content: &str) -> (r: Option<(String, String, Vec<String>)>)
    ensures
        match r {
            Some((n, d, t)) => declared_meta(content@) == Some((n@, d@, strings_view(t@))),
            None => declared_meta(content@) is None,
        },
{
    let fm = front_matter_of(content)?;
    let fields = load_yaml_fields(fm.as_str())?;
    let name = match fields.name {
        Some(n) => n,
        None => return None,
    };
    let description = match fields.description {
        Some(d) => d,
        None => return None,
    };
    let tags = match &fields.tags {
        Some(items) => keep_strings(items),
        None => {
            let v: Vec<String> = Vec::new();
            assert(strings_view(v@) =~= Seq::<Seq<char>>::empty());
            v
        },
    };
    Some((name, description, tags))
}

/// What a skill directory contributes to the scan: its front matter where
/// it declares a name and description, else the directory's name and the
/// description `Skill: <directory name>`, without tags.
pub open spec fn skill_info_spec(
    dir_path: Seq<char>,
    dir_name: Seq<char>,
    skill_file: Seq<char>,
    content: Option<Seq<char>>,
) -> SkillInfoView {
    let fallback = SkillInfoView {
        name: dir_name,
        description: "Skill: "@ + dir_name,
        tags: Seq::empty(),
        path: dir_path,
        dir_name: dir_name,
        skill_file: skill_file,
    };
    match content {
        Some(c) => match declared_meta(c) {
            Some((n, d, t)) => SkillInfoView {
                name: n,
                description: d,
                tags: t,
                path: dir_path,
                dir_name: dir_name,
                skill_file: skill_file,
            },
            None => fallback,
        },
        None => fallback,
    }
}

/// A directory holding a `SKILL.md`, as found on disk: its path, its name,
/// the path of the file, and the file's text (`None` when it could not be
/// read).
pub struct SkillDirEntry {
    pub path: String,
    pub dir_name: String,
    pub skill_file: String,
    pub content: Option<String>,
}

pub open spec fn entry_info(e: SkillDirEntry) -> SkillInfoView {
    skill_info_spec(e.path@, e.dir_name@, e.skill_file@, opt_chars(e.content))
}

/// The skill that a directory holding a `SKILL.md` stands for.
pub fn skill_info_for(entry: &SkillDirEntry) -> (r: SkillInfo)
    ensures
        r@ == entry_info(*entry),
{
    let parsed = match &entry.content {
        Some(c) => parse_skill_file(c.as_str()),
        None => None,
    };
    match parsed {
        Some((name, description, tags)) => SkillInfo {
            name,
            description,
            tags,
            path: entry.path.clone(),
            dir_name: entry.dir_name.clone(),
            skill_file: entry.skill_file.clone(),
        },
        None => {
            let r = SkillInfo {
                name: entry.dir_name.clone(),
                description: concat2("Skill: ", entry.dir_name.as_str()),
                tags: Vec::new(),
                path: entry.path.clone(),
                dir_name: entry.dir_name.clone(),
                skill_file: entry.skill_file.clone(),
            };
            assert(strings_view(r.tags@) =~= Seq::<Seq<char>>::empty());
            r
        },
    }
}

/// The skills of the directories found, in the order found.
pub fn scan_skills(entries: &Vec<SkillDirEntry>) -> (r: Vec<SkillInfo>)
    ensures
        r@.len() == entries@.len(),
        forall|i: int| 0 <= i < entries@.len() ==> #[trigger] r@[i]@ == entry_info(entries@[i]),
{
    let mut out: Vec<SkillInfo> = Vec::new();
    let mut i: usize = 0;
    while i < entries.len()
        invariant
            0 <= i <= entries@.len(),
            out@.len() == i,
            forall|k: int| 0 <= k < i ==> #[trigger] out@[k]@ == entry_info(entries@[k]),
        decreases entries@.len() - i,
    {
        let info = skill_info_for(&entries[i]);
        out.push(info);
        i = i + 1;
    }
    out
}

/// A `SKILL.md` text read field by field for the web panel's refresh and
/// the desktop client's list of skills.  This reading is defined here, by
/// this library, for those two uses: the front matter's name and
/// description, empty where missing, and its tags as a JSON list, empty
/// where there are none (unlike `parse_skill_file`, it refuses nothing).
pub open spec fn listed_fields(content: Seq<char>) -> (Seq<char>, Seq<char>, Seq<char>) {
    let fields = match front_matter(content) {
        Some(fm) => yaml_front_matter(fm),
        None => None,
    };
    let (n, d, t) = match fields {
        Some((n, d, t)) => (n, d, string_items(t)),
        None => (None, None, Seq::empty()),
    };
    (
        match n {
            Some(s) => s,
            None => Seq::<char>::empty(),
        },
        match d {
            Some(s) => s,
            None => Seq::<char>::empty(),
        },
        if t.len() == 0 {
            Seq::<char>::empty()
        } else {
            json_string_array(t)
        },
    )
}

/// Reads a `SKILL.md` text field by field (see `listed_fields`).
pub fn parse_front_matter(content: &str) -> (r: (String, String, String))
    ensures
        (r.0@, r.1@, r.2@) == listed_fields(content@),
{
    let fields = match front_matter_of(content) {
        Some(fm) => load_yaml_fields(fm.as_str()),
        None => None,
    };
    match fields {
        Some(f) => {
            let name = match f.name {
                Some(n) => n,
                None => String::new(),
            };
            let description = match f.description {
                Some(d) => d,
                None => String::new(),
            };
            let tags = match &f.tags {
                Some(items) => keep_strings(items),
                None => {
                    let v: Vec<String> = Vec::new();
                    assert(strings_view(v@) =~= Seq::<Seq<char>>::empty());
                    v
                },
            };
            let tags_text = if tags.len() == 0 {
                String::new()
            } else {
                strings_to_json(&tags)
            };
            (name, description, tags_text)
        },
        None => (String::new(), String::new(), String::new()),
    }
}

/// The JSON input schema of a skill's tool: one string property,
/// `file_path`, whose default is the skill's file.
pub open spec fn skill_schema(skill_file: Seq<char>) -> Seq<char> {
    "{\"type\":\"object\",\"properties\":{\"file_path\":{\"type\":\"string\",\"description\":\"Skill文件路径\",\"default\":"@
        + json_string(skill_file) + "}}}"@
}

/// The input schema of a skill's tool, as JSON text.
pub fn skill_file_schema(skill_file: &str) -> (r: String)
    ensures
        r@ == skill_schema(skill_file@),
{
    let quoted = string_to_json(skill_file);
    concat3(
        "{\"type\":\"object\",\"properties\":{\"file_path\":{\"type\":\"string\",\"description\":\"Skill文件路径\",\"default\":",
        quoted.as_str(),
        "}}}",
    )
}

/// The tool definition of a skill: named and described as the skill, read
/// with the file reader, its schema's default file being the skill's file.
pub fn skill_to_tool_json(skill: &SkillInfo) -> (r: ToolDefinition)
    ensures
        r.name@ == skill.name@,
        r.description@ == skill.description@,
        r.input_schema@ == skill_schema(skill.skill_file@),
        r.handler@ == "file_reader"@,
        r.default_file_path matches Some(f) && f@ == skill.skill_file@,
{
    ToolDefinition {
        name: skill.name.clone(),
        description: skill.description.clone(),
        input_schema: skill_file_schema(skill.skill_file.as_str()),
        handler: owned("file_reader"),
        default_file_path: Some(skill.skill_file.clone()),
    }
}

} // verus!
