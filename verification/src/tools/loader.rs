//! Where the tool configuration lives, and the scan of the skills
//! directory.
use vstd::prelude::*;

use crate::text::chars_of;
use crate::tools::schema::{AppError, ToolConfig};
use crate::tools::skill_scanner::{entry_info, scan_skills, SkillDirEntry, SkillInfo};

verus! {

broadcast use {vstd::seq_lib::group_seq_properties, vstd::seq::group_seq_axioms};

/// The position of the last `.` in a file name.
pub open spec fn last_dot(name: Seq<char>) -> Option<int>
    decreases name.len(),
{
    if name.len() == 0 {
        None
    } else if name.last() == '.' {
        Some(name.len() - 1)
    } else {
        last_dot(name.drop_last())
    }
}

/// A file name whose extension is `json`: the part after its last `.`,
/// where that dot is not the name's first character (as std's
/// `Path::extension` reads it).
pub open spec fn is_json_name(name: Seq<char>) -> bool {
    last_dot(name) matches Some(k) && k > 0 && name.skip(k + 1) == "json"@
}

/// Whether a file name has the extension `json`.
pub fn has_json_extension(name: &str) -> (r: bool)
    ensures
        r == is_json_name(name@),
{
    let v = chars_of(name);
    let mut n: usize = v.len();
    assert(name@.take(n as int) =~= name@);
    while n > 0 && v[n - 1] != '.'
        invariant
            0 <= n <= v@.len(),
            v@ == name@,
            last_dot(name@) == last_dot(name@.take(n as int)),
        decreases n,
    {
        assert(name@.take(n as int).drop_last() =~= name@.take(n - 1));
        n = n - 1;
    }
    if n <= 1 {
        return false;
    }
    let k = n - 1;
    assert(name@.take(n as int).last() == '.');
    assert(last_dot(name@) == Some(k as int));
    let len = v.len();
    proof {
        reveal_strlit("json");
    }
    if len - n != 4 {
        assert(name@.skip(k + 1).len() != "json"@.len());
        return false;
    }
    let is_json = v[n] == 'j' && v[n + 1] == 's' && v[n + 2] == 'o' && v[n + 3] == 'n';
    assert(is_json == (name@.skip(k + 1) =~= "json"@));
    is_json
}

/// An entry of the tool configuration directory: its file name, whether
/// it is a plain file, and, for a JSON file, how reading and parsing it
/// went.
pub struct ToolFile {
    pub file_name: String,
    pub is_file: bool,
    pub parsed: Option<Result<ToolConfig, AppError>>,
}

/// The tool configuration directory as found: missing, unreadable (for
/// the reason given), or its entries.
pub enum ToolDir {
    Missing,
    Unreadable(String),
    Listed(Vec<ToolFile>),
}

/// A configuration file of the directory that loads: a plain JSON file
/// that was read and parsed.
pub open spec fn loads(f: ToolFile) -> bool {
    f.is_file && is_json_name(f.file_name@) && (f.parsed matches Some(Ok(_)))
}

/// The configurations loaded from the files, in order.
pub open spec fn loaded_configs(files: Seq<ToolFile>) -> Seq<ToolConfig>
    decreases files.len(),
{
    if files.len() == 0 {
        Seq::empty()
    } else {
        loaded_configs(files.drop_last()) + match files.last().parsed {
            Some(Ok(c)) => if loads(files.last()) {
                seq![c]
            } else {
                Seq::empty()
            },
            _ => Seq::empty(),
        }
    }
}

/// Loads tool configurations from `tools_path` and skills from the skills
/// directory.
pub struct JsonLoader {
    pub tools_path: String,
}

impl JsonLoader {
    /// A loader for the configuration files in `tools_path`.
    pub fn new(tools_path: &str) -> (r: JsonLoader)
        ensures
            r.tools_path@ == tools_path@,
    {
        JsonLoader { tools_path: crate::text::owned(tools_path) }
    }

    /// The tool configurations of the directory: none where it is missing,
    /// an I/O error where it cannot be read, else those of its JSON files
    /// that parse, in order (the others are passed over).
    pub fn load_tools(&self, dir: ToolDir) -> (r: Result<Vec<ToolConfig>, AppError>)
        ensures
            match dir {
                ToolDir::Missing => r matches Ok(v) && v@.len() == 0,
                ToolDir::Unreadable(e) => r matches Err(AppError::Io(m)) && m@ == e@,
                ToolDir::Listed(files) => r matches Ok(v) && v@ == loaded_configs(files@),
            },
    {
        match dir {
            ToolDir::Missing => Ok(Vec::new()),
            ToolDir::Unreadable(e) => Err(AppError::Io(e)),
            ToolDir::Listed(files) => {
                let ghost all = files@;
                let mut rest = files;
                let mut out: Vec<ToolConfig> = Vec::new();
                let mut i: usize = 0;
                let n = rest.len();
                while rest.len() > 0
                    invariant
                        i + rest@.len() == n,
                        n == all.len(),
                        rest@ == all.skip(i as int),
                        out@ == loaded_configs(all.take(i as int)),
                    decreases rest@.len(),
                {
                    let f = rest.remove(0);
                    assert(f == all[i as int]);
                    assert(all.take(i + 1).drop_last() =~= all.take(i as int));
                    assert(all.take(i + 1).last() == f);
                    let wanted = f.is_file && has_json_extension(f.file_name.as_str());
                    match f.parsed {
                        Some(Ok(c)) => {
                            if wanted {
                                out.push(c);
                            }
                        },
                        _ => {},
                    }
                    i = i + 1;
                    assert(rest@ =~= all.skip(i as int));
                }
                assert(all.take(n as int) =~= all);
                Ok(out)
            },
        }
    }

    /// The skills of the directories holding a `SKILL.md` that were found
    /// in the skills directory, in the order found.
    pub fn load_skills(&self, entries: &Vec<SkillDirEntry>) -> (r: Vec<SkillInfo>)
        ensures
            r@.len() == entries@.len(),
            forall|i: int| 0 <= i < entries@.len() ==> #[trigger] r@[i]@ == entry_info(entries@[i]),
    {
        scan_skills(entries)
    }
}

impl Clone for JsonLoader {
    fn clone(&self) -> (r: Self)
        ensures
            r == *self,
    {
        JsonLoader { tools_path: self.tools_path.clone() }
    }
}

} // verus!
