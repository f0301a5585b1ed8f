//! What each tool does when it is called, and the table from tool names to
//! that.
pub mod file_handler;

use vstd::prelude::*;

use crate::text::{chars_of, seq_eq};
use crate::tools::schema::AppError;

verus! {

/// What a tool does when it is called.  File tools carry the directory
/// they read from and the path below it (an absolute path stands for
/// itself).
#[derive(Debug)]
pub enum ToolHandler {
    RefreshSkills,
    ReadFile { base_path: String, file_path: String },
    ListDir { base_path: String, dir_path: String },
    DeleteSkill { skills_path: String },
    RestoreSkill { skills_path: String },
    SearchSkills,
    ListSkills,
    ListTrash,
    EnableSkill,
    DisableSkill,
    MigrateSkills { skills_path: String },
    Remember,
    Recall,
    Forget,
    ArchiveMemories,
    MemoryStats,
    SearchIssues,
    ReportIssue,
}

/// The abstract content of a `ToolHandler`.
pub enum HandlerView {
    RefreshSkills,
    ReadFile { base_path: Seq<char>, file_path: Seq<char> },
    ListDir { base_path: Seq<char>, dir_path: Seq<char> },
    DeleteSkill { skills_path: Seq<char> },
    RestoreSkill { skills_path: Seq<char> },
    SearchSkills,
    ListSkills,
    ListTrash,
    EnableSkill,
    DisableSkill,
    MigrateSkills { skills_path: Seq<char> },
    Remember,
    Recall,
    Forget,
    ArchiveMemories,
    MemoryStats,
    SearchIssues,
    ReportIssue,
}

impl View for ToolHandler {
    type V = HandlerView;

    open spec fn view(&self) -> HandlerView {
        match self {
            ToolHandler::RefreshSkills => HandlerView::RefreshSkills,
            ToolHandler::ReadFile { base_path, file_path } => HandlerView::ReadFile {
                base_path: base_path@,
                file_path: file_path@,
            },
            ToolHandler::ListDir { base_path, dir_path } => HandlerView::ListDir {
                base_path: base_path@,
                dir_path: dir_path@,
            },
            ToolHandler::DeleteSkill { skills_path } => HandlerView::DeleteSkill { skills_path: skills_path@ },
            ToolHandler::RestoreSkill { skills_path } => HandlerView::RestoreSkill { skills_path: skills_path@ },
            ToolHandler::SearchSkills => HandlerView::SearchSkills,
            ToolHandler::ListSkills => HandlerView::ListSkills,
            ToolHandler::ListTrash => HandlerView::ListTrash,
            ToolHandler::EnableSkill => HandlerView::EnableSkill,
            ToolHandler::DisableSkill => HandlerView::DisableSkill,
            ToolHandler::MigrateSkills { skills_path } => HandlerView::MigrateSkills { skills_path: skills_path@ },
            ToolHandler::Remember => HandlerView::Remember,
            ToolHandler::Recall => HandlerView::Recall,
            ToolHandler::Forget => HandlerView::Forget,
            ToolHandler::ArchiveMemories => HandlerView::ArchiveMemories,
            ToolHandler::MemoryStats => HandlerView::MemoryStats,
            ToolHandler::SearchIssues => HandlerView::SearchIssues,
            ToolHandler::ReportIssue => HandlerView::ReportIssue,
        }
    }
}

impl Clone for ToolHandler {
    fn clone(&self) -> (r: Self)
        ensures
            r == *self,
    {
        match self {
            ToolHandler::RefreshSkills => ToolHandler::RefreshSkills,
            ToolHandler::ReadFile { base_path, file_path } => ToolHandler::ReadFile {
                base_path: base_path.clone(),
                file_path: file_path.clone(),
            },
            ToolHandler::ListDir { base_path, dir_path } => ToolHandler::ListDir {
                base_path: base_path.clone(),
                dir_path: dir_path.clone(),
            },
            ToolHandler::DeleteSkill { skills_path } => ToolHandler::DeleteSkill {
                skills_path: skills_path.clone(),
            },
            ToolHandler::RestoreSkill { skills_path } => ToolHandler::RestoreSkill {
                skills_path: skills_path.clone(),
            },
            ToolHandler::SearchSkills => ToolHandler::SearchSkills,
            ToolHandler::ListSkills => ToolHandler::ListSkills,
            ToolHandler::ListTrash => ToolHandler::ListTrash,
            ToolHandler::EnableSkill => ToolHandler::EnableSkill,
            ToolHandler::DisableSkill => ToolHandler::DisableSkill,
            ToolHandler::MigrateSkills { skills_path } => ToolHandler::MigrateSkills {
                skills_path: skills_path.clone(),
            },
            ToolHandler::Remember => ToolHandler::Remember,
            ToolHandler::Recall => ToolHandler::Recall,
            ToolHandler::Forget => ToolHandler::Forget,
            ToolHandler::ArchiveMemories => ToolHandler::ArchiveMemories,
            ToolHandler::MemoryStats => ToolHandler::MemoryStats,
            ToolHandler::SearchIssues => ToolHandler::SearchIssues,
            ToolHandler::ReportIssue => ToolHandler::ReportIssue,
        }
    }
}

/// The handler table of an association list in which later entries win.
pub open spec fn handler_map(entries: Seq<(String, ToolHandler)>) -> Map<Seq<char>, HandlerView>
    decreases entries.len(),
{
    if entries.len() == 0 {
        Map::empty()
    } else {
        handler_map(entries.drop_last()).insert(entries.last().0@, entries.last().1@)
    }
}

/// The handler table `m` after setting each named handler in turn, later
/// ones winning.
pub open spec fn handlers_applied(
    m: Map<Seq<char>, HandlerView>,
    entries: Seq<(Seq<char>, HandlerView)>,
) -> Map<Seq<char>, HandlerView>
    decreases entries.len(),
{
    if entries.len() == 0 {
        m
    } else {
        handlers_applied(m, entries.drop_last()).insert(entries.last().0, entries.last().1)
    }
}

/// Setting one more handler.
pub proof fn lemma_applied_push(
    m: Map<Seq<char>, HandlerView>,
    entries: Seq<(Seq<char>, HandlerView)>,
    x: (Seq<char>, HandlerView),
)
    ensures
        handlers_applied(m, entries.push(x)) == handlers_applied(m, entries).insert(x.0, x.1),
{
    assert(entries.push(x).drop_last() =~= entries);
}

/// Setting handlers in two runs.
pub proof fn lemma_applied_concat(
    m: Map<Seq<char>, HandlerView>,
    a: Seq<(Seq<char>, HandlerView)>,
    b: Seq<(Seq<char>, HandlerView)>,
)
    ensures
        handlers_applied(m, a + b) == handlers_applied(handlers_applied(m, a), b),
    decreases b.len(),
{
    if b.len() == 0 {
        assert(a + b =~= a);
    } else {
        lemma_applied_concat(m, a, b.drop_last());
        assert((a + b).drop_last() =~= a + b.drop_last());
        assert((a + b).last() == b.last());
    }
}

/// No two entries share a name.
pub open spec fn names_unique(entries: Seq<(String, ToolHandler)>) -> bool {
    forall|i: int, j: int| 0 <= i < j < entries.len() ==> #[trigger] entries[i].0@ != #[trigger] entries[j].0@
}

/// The table from tool names to handlers.
pub struct ToolExecutor {
    handlers: Vec<(String, ToolHandler)>,
}

impl View for ToolExecutor {
    type V = Map<Seq<char>, HandlerView>;

    closed spec fn view(&self) -> Map<Seq<char>, HandlerView> {
        handler_map(self.handlers@)
    }
}

proof fn lemma_handler_map_unique(entries: Seq<(String, ToolHandler)>)
    requires
        names_unique(entries),
    ensures
        forall|i: int| 0 <= i < entries.len() ==> handler_map(entries).contains_key(#[trigger] entries[i].0@)
            && handler_map(entries)[entries[i].0@] == entries[i].1@,
        forall|k: Seq<char>| handler_map(entries).contains_key(k) ==> exists|i: int| 0 <= i < entries.len() && #[trigger] entries[i].0@ == k,
    decreases entries.len(),
{
    if entries.len() > 0 {
        let r = entries.drop_last();
        assert(names_unique(r)) by {
            assert forall|i: int, j: int| 0 <= i < j < r.len() implies #[trigger] r[i].0@ != #[trigger] r[j].0@ by {
                assert(r[i] == entries[i] && r[j] == entries[j]);
            }
        }
        lemma_handler_map_unique(r);
        assert forall|i: int| 0 <= i < entries.len() implies handler_map(entries).contains_key(#[trigger] entries[i].0@)
            && handler_map(entries)[entries[i].0@] == entries[i].1@ by {
            if i < entries.len() - 1 {
                assert(r[i] == entries[i]);
                assert(entries[i].0@ != entries.last().0@);
            }
        }
        assert forall|k: Seq<char>| handler_map(entries).contains_key(k) implies exists|i: int| 0 <= i < entries.len() && #[trigger] entries[i].0@ == k by {
            if k != entries.last().0@ {
                assert(handler_map(r).contains_key(k));
                let i = choose|i: int| 0 <= i < r.len() && #[trigger] r[i].0@ == k;
                assert(entries[i] == r[i]);
            } else {
                assert(entries[entries.len() - 1].0@ == k);
            }
        }
    }
}

impl ToolExecutor {
    pub closed spec fn wf(&self) -> bool {
        names_unique(self.handlers@)
    }

    /// An empty table.
    pub fn new() -> (r: ToolExecutor)
        ensures
            r.wf(),
            r@ == Map::<Seq<char>, HandlerView>::empty(),
    {
        ToolExecutor { handlers: Vec::new() }
    }

    /// The table of the named handlers, set in turn (a later handler of a
    /// name replaces an earlier one).
    pub fn from_handlers(pairs: Vec<(String, ToolHandler)>) -> (r: ToolExecutor)
        ensures
            r.wf(),
            r@ == handler_map(pairs@),
    {
        let mut t = ToolExecutor::new();
        let mut i: usize = 0;
        while i < pairs.len()
            invariant
                0 <= i <= pairs@.len(),
                t.wf(),
                t@ == handler_map(pairs@.take(i as int)),
            decreases pairs@.len() - i,
        {
            let name = pairs[i].0.clone();
            let handler = pairs[i].1.clone();
            t.insert(name, handler);
            assert(pairs@.take(i + 1).drop_last() =~= pairs@.take(i as int));
            i = i + 1;
        }
        assert(pairs@.take(pairs@.len() as int) =~= pairs@);
        t
    }

    /// Sets the handler of `name`, replacing any earlier one.
    pub fn insert(&mut self, name: String, handler: ToolHandler)
        requires
            old(self).wf(),
        ensures
            final(self).wf(),
            final(self)@ == old(self)@.insert(name@, handler@),
    {
        let key = chars_of(name.as_str());
        let ghost before = self.handlers@;
        let ghost hn = name@;
        let ghost hh = handler@;
        proof {
            lemma_handler_map_unique(before);
        }
        let mut i: usize = 0;
        while i < self.handlers.len()
            invariant
                0 <= i <= self.handlers@.len(),
                self.handlers@ == before,
                names_unique(before),
                before == old(self).handlers@,
                key@ == hn,
                hn == name@,
                hh == handler@,
                forall|k: int| 0 <= k < i ==> #[trigger] before[k].0@ != hn,
            decreases self.handlers@.len() - i,
        {
            let existing = chars_of(self.handlers[i].0.as_str());
            if seq_eq(&existing, &key) {
                let ghost e = (name, handler);
                self.handlers.set(i, (name, handler));
                proof {
                    let after = self.handlers@;
                    assert(after == before.update(i as int, e));
                    assert(e.0@ == hn && e.1@ == hh);
                    assert(names_unique(after)) by {
                        assert forall|a: int, b: int| 0 <= a < b < after.len() implies #[trigger] after[a].0@
                            != #[trigger] after[b].0@ by {
                            if a != i as int && b != i as int {
                                assert(after[a] == before[a] && after[b] == before[b]);
                            } else if a == i as int {
                                assert(after[b] == before[b]);
                                assert(before[a].0@ != before[b].0@);
                            } else {
                                assert(after[a] == before[a]);
                                assert(before[a].0@ != before[b].0@);
                            }
                        }
                    }
                    lemma_handler_map_unique(after);
                    lemma_handler_map_unique(before);
                    assert(handler_map(after) =~= handler_map(before).insert(hn, hh)) by {
                        assert forall|k: Seq<char>| #[trigger] handler_map(after).contains_key(k)
                            <==> handler_map(before).insert(hn, hh).contains_key(k) by {
                            if handler_map(after).contains_key(k) {
                                let q = choose|q: int| 0 <= q < after.len() && #[trigger] after[q].0@ == k;
                                if q != i as int {
                                    assert(after[q] == before[q]);
                                }
                            }
                            if handler_map(before).contains_key(k) {
                                let q = choose|q: int| 0 <= q < before.len() && #[trigger] before[q].0@ == k;
                                if q != i as int {
                                    assert(after[q] == before[q]);
                                } else {
                                    assert(after[q].0@ == hn);
                                }
                            }
                            if k == hn {
                                assert(after[i as int].0@ == hn);
                            }
                        }
                        assert forall|k: Seq<char>| #[trigger] handler_map(after).contains_key(k) implies handler_map(after)[k]
                            == handler_map(before).insert(hn, hh)[k] by {
                            let q = choose|q: int| 0 <= q < after.len() && #[trigger] after[q].0@ == k;
                            if q != i as int {
                                assert(after[q] == before[q]);
                            }
                        }
                    }
                }
                return;
            }
            i = i + 1;
        }
        self.handlers.push((name, handler));
        proof {
            let after = self.handlers@;
            assert(after.drop_last() =~= before);
            assert(names_unique(after)) by {
                assert forall|a: int, b: int| 0 <= a < b < after.len() implies #[trigger] after[a].0@
                    != #[trigger] after[b].0@ by {
                    assert(after[a] == before[a]);
                    if b < before.len() {
                        assert(after[b] == before[b]);
                    }
                }
            }
        }
    }

    /// The handler that a call of `name` runs, or `ToolNotFound`.
    pub fn execute(&self, name: &str) -> (r: Result<ToolHandler, AppError>)
        requires
            self.wf(),
        ensures
            self@.contains_key(name@) ==> (r matches Ok(h) && h@ == self@[name@]),
            !self@.contains_key(name@) ==> (r matches Err(AppError::ToolNotFound(n)) && n@ == name@),
    {
        let key = chars_of(name);
        let mut i: usize = 0;
        while i < self.handlers.len()
            invariant
                0 <= i <= self.handlers@.len(),
                names_unique(self.handlers@),
                key@ == name@,
                forall|k: int| 0 <= k < i ==> #[trigger] self.handlers@[k].0@ != name@,
            decreases self.handlers@.len() - i,
        {
            let existing = chars_of(self.handlers[i].0.as_str());
            if seq_eq(&existing, &key) {
                proof {
                    lemma_handler_map_unique(self.handlers@);
                }
                return Ok(self.handlers[i].1.clone());
            }
            i = i + 1;
        }
        proof {
            lemma_handler_map_unique(self.handlers@);
        }
        Err(AppError::ToolNotFound(crate::text::owned(name)))
    }

    /// The number of names with a handler.
    pub fn len(&self) -> (r: usize)
        requires
            self.wf(),
        ensures
            r == self@.dom().len(),
    {
        proof {
            lemma_handler_map_len(self.handlers@);
        }
        self.handlers.len()
    }
}

proof fn lemma_handler_map_len(entries: Seq<(String, ToolHandler)>)
    requires
        names_unique(entries),
    ensures
        handler_map(entries).dom().finite(),
        handler_map(entries).dom().len() == entries.len(),
    decreases entries.len(),
{
    if entries.len() > 0 {
        let r = entries.drop_last();
        assert(names_unique(r)) by {
            assert forall|i: int, j: int| 0 <= i < j < r.len() implies #[trigger] r[i].0@ != #[trigger] r[j].0@ by {
                assert(r[i] == entries[i] && r[j] == entries[j]);
            }
        }
        lemma_handler_map_len(r);
        lemma_handler_map_unique(r);
        if handler_map(r).contains_key(entries.last().0@) {
            let i = choose|i: int| 0 <= i < r.len() && #[trigger] r[i].0@ == entries.last().0@;
            assert(entries[i] == r[i]);
        }
    } else {
        assert(handler_map(entries).dom() =~= Set::<Seq<char>>::empty());
    }
}

} // verus!
