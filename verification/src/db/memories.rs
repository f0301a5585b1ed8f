//! The memory log: notes that an assistant keeps across sessions, found
//! again by keyword and tag, newest first, and archived when they grow old.
use vstd::prelude::*;

use crate::db::order::{
    distinct_idents, lemma_filter_distinct, newest_first, sort_newest_first, Dated,
};
use crate::query::{sanitize_fts_query, sanitized};
use crate::seqs::{lemma_filter_all, lemma_filter_take_step};
use crate::text::{strings_view, infix_pattern, like_infix, like_match, owned, seq_lt, chars_of, text_lt};

verus! {

broadcast use {vstd::seq_lib::group_seq_properties, vstd::seq::group_seq_axioms};

/// A remembered note.
#[derive(Debug)]
pub struct Memory {
    pub id: i64,
    pub content: String,
    pub tags: Option<String>,
    pub source: Option<String>,
    pub access_count: i64,
    pub last_accessed_at: Option<String>,
    pub is_archived: bool,
    pub created_at: String,
    pub updated_at: String,
}

/// The abstract content of a `Memory`.
pub struct MemoryRow {
    pub id: i64,
    pub content: Seq<char>,
    pub tags: Option<Seq<char>>,
    pub source: Option<Seq<char>>,
    pub access_count: i64,
    pub last_accessed_at: Option<Seq<char>>,
    pub is_archived: bool,
    pub created_at: Seq<char>,
    pub updated_at: Seq<char>,
}

/// The characters of an optional string.
pub open spec fn opt_view(o: Option<String>) -> Option<Seq<char>> {
    match o {
        Some(s) => Some(s@),
        None => None,
    }
}

impl View for Memory {
    type V = MemoryRow;

    open spec fn view(&self) -> MemoryRow {
        MemoryRow {
            id: self.id,
            content: self.content@,
            tags: opt_view(self.tags),
            source: opt_view(self.source),
            access_count: self.access_count,
            last_accessed_at: opt_view(self.last_accessed_at),
            is_archived: self.is_archived,
            created_at: self.created_at@,
            updated_at: self.updated_at@,
        }
    }
}

/// A copy of an optional string.
pub fn clone_opt(o: &Option<String>) -> (r: Option<String>)
    ensures
        r == *o,
{
    match o {
        Some(s) => Some(s.clone()),
        None => None,
    }
}

impl Clone for Memory {
    fn clone(&self) -> (r: Self)
        ensures
            r == *self,
    {
        Memory {
            id: self.id,
            content: self.content.clone(),
            tags: clone_opt(&self.tags),
            source: clone_opt(&self.source),
            access_count: self.access_count,
            last_accessed_at: clone_opt(&self.last_accessed_at),
            is_archived: self.is_archived,
            created_at: self.created_at.clone(),
            updated_at: self.updated_at.clone(),
        }
    }
}

impl Dated for Memory {
    open spec fn created(&self) -> Seq<char> {
        self.created_at@
    }

    open spec fn ident(&self) -> int {
        self.id as int
    }

    fn created_text(&self) -> (r: &str) {
        self.created_at.as_str()
    }

    fn ident_value(&self) -> (r: i64) {
        self.id
    }
}

/// The characters of each tag asked for.
pub open spec fn tags_view(tags: Option<Vec<String>>) -> Option<Seq<Seq<char>>> {
    match tags {
        Some(ts) => Some(strings_view(ts@)),
        None => None,
    }
}

/// The rows that a sequence of memories stands for.
pub open spec fn memory_rows(v: Seq<Memory>) -> Seq<MemoryRow> {
    v.map_values(|m: Memory| m@)
}

/// The ids of a sequence of memories.
pub open spec fn memory_ids(v: Seq<Memory>) -> Seq<i64> {
    v.map_values(|m: Memory| m.id)
}

/// The first `limit` elements; all of them when `limit` is negative (as
/// with SQL's `LIMIT`).
pub open spec fn limited<T>(s: Seq<T>, limit: i64) -> Seq<T> {
    if limit < 0 || limit >= s.len() {
        s
    } else {
        s.take(limit as int)
    }
}

/// A memory matches a recall: it is not archived unless archived ones are
/// asked for; where the cleaned query is not empty, its content or tags
/// match `%query%`; and its tags match `%tag%` for every tag asked for.
pub open spec fn recall_hit(
    m: MemoryRow,
    safe_query: Seq<char>,
    tags: Option<Seq<Seq<char>>>,
    include_archived: bool,
) -> bool {
    &&& include_archived || !m.is_archived
    &&& safe_query.len() == 0 || like_match(infix_pattern(safe_query), m.content) || (
    m.tags matches Some(t) && like_match(infix_pattern(safe_query), t))
    &&& match tags {
        Some(ts) => all_tags_match(m.tags, ts),
        None => true,
    }
}

/// The tags of a memory match `%tag%` for every tag in `ts` (so there are
/// tags, unless `ts` is empty).
pub open spec fn all_tags_match(m_tags: Option<Seq<char>>, ts: Seq<Seq<char>>) -> bool {
    forall|k: int|
        0 <= k < ts.len() ==> (m_tags matches Some(t) && like_match(
            infix_pattern(#[trigger] ts[k]),
            t,
        ))
}

pub open spec fn recall_filter(
    safe_query: Seq<char>,
    tags: Option<Seq<Seq<char>>>,
    include_archived: bool,
) -> spec_fn(Memory) -> bool {
    |m: Memory| recall_hit(m@, safe_query, tags, include_archived)
}

/// What a recall returns: the matching memories, newest first, at most
/// `limit` of them.
pub open spec fn recall_selection(
    rows: Seq<Memory>,
    query: Seq<char>,
    tags: Option<Seq<Seq<char>>>,
    include_archived: bool,
    limit: i64,
) -> Seq<Memory> {
    limited(
        newest_first(rows.filter(recall_filter(sanitized(query), tags, include_archived))),
        limit,
    )
}

/// One more access, a count already at `i64::MAX` staying there.
pub open spec fn bumped(c: i64) -> i64 {
    if c < i64::MAX {
        (c + 1) as i64
    } else {
        c
    }
}

/// The rows after the memories with the given ids were read at `now`.
pub open spec fn touched(rows: Seq<MemoryRow>, ids: Seq<i64>, now: Seq<char>) -> Seq<MemoryRow> {
    rows.map_values(
        |r: MemoryRow|
            if ids.contains(r.id) {
                MemoryRow { access_count: bumped(r.access_count), last_accessed_at: Some(now), ..r }
            } else {
                r
            },
    )
}

/// A memory is due for archiving: not archived and created before `cutoff`.
pub open spec fn due_for_archive(r: MemoryRow, cutoff: Seq<char>) -> bool {
    !r.is_archived && text_lt(r.created_at, cutoff)
}

pub open spec fn archive_filter(cutoff: Seq<char>) -> spec_fn(MemoryRow) -> bool {
    |r: MemoryRow| due_for_archive(r, cutoff)
}

/// The rows after archiving those due at `now`.
pub open spec fn archived_rows(rows: Seq<MemoryRow>, cutoff: Seq<char>, now: Seq<char>) -> Seq<MemoryRow> {
    rows.map_values(
        |r: MemoryRow|
            if due_for_archive(r, cutoff) {
                MemoryRow { is_archived: true, updated_at: now, ..r }
            } else {
                r
            },
    )
}

pub open spec fn is_archived_row() -> spec_fn(MemoryRow) -> bool {
    |r: MemoryRow| r.is_archived
}

/// Ids from 1 on, strictly increasing, none above `last_id`.
pub open spec fn ids_well_formed(rows: Seq<Memory>, last_id: i64) -> bool {
    &&& 0 <= last_id
    &&& forall|i: int| 0 <= i < rows.len() ==> 1 <= #[trigger] rows[i].id <= last_id
    &&& forall|i: int, j: int| 0 <= i < j < rows.len() ==> #[trigger] rows[i].id < #[trigger] rows[j].id
}

/// Rows whose id is not `id`.
pub open spec fn id_is_not(id: i64) -> spec_fn(Memory) -> bool {
    |m: Memory| m.id != id
}

/// With ids from 1 on, strictly increasing and at most `last_id`, there are
/// at most `last_id` rows.
pub proof fn lemma_len_within_ids(rows: Seq<Memory>, last_id: i64)
    requires
        ids_well_formed(rows, last_id),
    ensures
        rows.len() <= last_id,
{
    if rows.len() > 0 {
        assert forall|k: int| 0 <= k < rows.len() implies #[trigger] rows[k].id >= k + 1 by {
            lemma_id_at_least_index(rows, last_id, k);
        }
        assert(rows[rows.len() - 1].id >= rows.len());
    }
}

proof fn lemma_id_at_least_index(rows: Seq<Memory>, last_id: i64, k: int)
    requires
        ids_well_formed(rows, last_id),
        0 <= k < rows.len(),
    ensures
        rows[k].id >= k + 1,
    decreases k,
{
    if k > 0 {
        lemma_id_at_least_index(rows, last_id, k - 1);
        assert(rows[k - 1].id < rows[k].id);
    }
}

/// Counts of the memory log.
#[derive(Debug)]
pub struct MemoryCounts {
    pub total: i64,
    pub active: i64,
    pub archived: i64,
}

/// Why a note could not be stored.
#[derive(PartialEq, Eq, Debug, Clone, Copy)]
pub enum StoreError {
    /// Every id has been handed out.
    IdsExhausted,
    /// The public id of a reported issue is taken already.
    DuplicateIssueId,
}

/// The words a refusal of the store is reported in.
pub open spec fn store_error_text(e: StoreError) -> Seq<char> {
    match e {
        StoreError::IdsExhausted => "编号已用尽"@,
        StoreError::DuplicateIssueId => "问题编号重复"@,
    }
}

impl StoreError {
    /// The refusal, in words.
    pub fn message(&self) -> (r: String)
        ensures
            r@ == store_error_text(*self),
    {
        match self {
            StoreError::IdsExhausted => owned("编号已用尽"),
            StoreError::DuplicateIssueId => owned("问题编号重复"),
        }
    }
}

/// The memory log, in id order.
pub struct MemoryLog {
    pub(crate) memories: Vec<Memory>,
    pub(crate) last_id: i64,
}

impl MemoryLog {
    /// The memories, in id order.
    pub closed spec fn rows(&self) -> Seq<Memory> {
        self.memories@
    }

    /// The highest id ever handed out (0 when none was).
    pub closed spec fn last_id(&self) -> i64 {
        self.last_id
    }

    /// The highest id handed out so far (0 before the first).
    pub fn last_id_value(&self) -> (r: i64)
        ensures
            r == self.last_id(),
    {
        self.last_id
    }

    pub open spec fn wf(&self) -> bool {
        ids_well_formed(self.rows(), self.last_id())
    }

    /// An empty log.
    pub fn new() -> (r: MemoryLog)
        ensures
            r.wf(),
            r.rows() == Seq::<Memory>::empty(),
            r.last_id() == 0,
    {
        MemoryLog { memories: Vec::new(), last_id: 0 }
    }

    /// Adds a note, giving it the id after the highest one ever handed out;
    /// fails, changing nothing, once `i64::MAX` has been handed out.
    pub fn remember(&mut self, content: &str, tags: Option<&str>, source: Option<&str>, now: &str) -> (r: Result<i64, StoreError>)
        requires
            old(self).wf(),
        ensures
            final(self).wf(),
            old(self).last_id() == i64::MAX ==> r == Err::<i64, StoreError>(StoreError::IdsExhausted)
                && final(self).rows() == old(self).rows() && final(self).last_id() == old(self).last_id(),
            old(self).last_id() < i64::MAX ==> {
                &&& r == Ok::<i64, StoreError>((old(self).last_id() + 1) as i64)
                &&& final(self).last_id() == old(self).last_id() + 1
                &&& final(self).rows().drop_last() == old(self).rows()
                &&& final(self).rows().len() == old(self).rows().len() + 1
                &&& final(self).rows().last()@ == (MemoryRow {
                    id: (old(self).last_id() + 1) as i64,
                    content: content@,
                    tags: match tags {
                        Some(t) => Some(t@),
                        None => None,
                    },
                    source: match source {
                        Some(t) => Some(t@),
                        None => None,
                    },
                    access_count: 0,
                    last_accessed_at: None,
                    is_archived: false,
                    created_at: now@,
                    updated_at: now@,
                })
            },
    {
        if self.last_id == i64::MAX {
            return Err(StoreError::IdsExhausted);
        }
        let id = self.last_id + 1;
        let m = Memory {
            id,
            content: owned(content),
            tags: match tags {
                Some(t) => Some(owned(t)),
                None => None,
            },
            source: match source {
                Some(t) => Some(owned(t)),
                None => None,
            },
            access_count: 0,
            last_accessed_at: None,
            is_archived: false,
            created_at: owned(now),
            updated_at: owned(now),
        };
        let ghost before = self.memories@;
        let ghost old_last = self.last_id;
        let ghost added = m;
        self.memories.push(m);
        self.last_id = id;
        assert(self.memories@.drop_last() =~= before);
        assert forall|i: int| 0 <= i < self.memories@.len() implies 1 <= #[trigger] self.memories@[i].id
            <= self.last_id by {
            if i < before.len() {
                assert(self.memories@[i] == before[i]);
                assert(1 <= before[i].id <= old_last);
            } else {
                assert(self.memories@[i] == added);
            }
        }
        assert forall|i: int, k: int| 0 <= i < k < self.memories@.len() implies #[trigger] self.memories@[i].id
            < #[trigger] self.memories@[k].id by {
            assert(self.memories@[i] == before[i]);
            if k < before.len() {
                assert(self.memories@[k] == before[k]);
            }
        }
        Ok(id)
    }

    /// Appends a memory read back from disk; refused (false, nothing
    /// changed) unless its id is above every id in the log.
    pub fn load_row(&mut self, m: Memory) -> (r: bool)
        requires
            old(self).wf(),
        ensures
            final(self).wf(),
            r == (m.id >= 1 && forall|i: int|
                0 <= i < old(self).rows().len() ==> #[trigger] old(self).rows()[i].id < m.id),
            r ==> final(self).rows() == old(self).rows().push(m) && final(self).last_id() == if m.id
                > old(self).last_id() {
                m.id
            } else {
                old(self).last_id()
            },
            !r ==> final(self).rows() == old(self).rows() && final(self).last_id() == old(self).last_id(),
    {
        let n = self.memories.len();
        if m.id < 1 || (n > 0 && self.memories[n - 1].id >= m.id) {
            return false;
        }
        if m.id > self.last_id {
            self.last_id = m.id;
        }
        self.memories.push(m);
        true
    }

    /// Raises the highest id handed out to `seq` (the counter SQLite keeps
    /// for the table); a lower value changes nothing.
    pub fn note_sequence(&mut self, seq: i64)
        requires
            old(self).wf(),
        ensures
            final(self).wf(),
            final(self).rows() == old(self).rows(),
            final(self).last_id() == if seq > old(self).last_id() {
                seq
            } else {
                old(self).last_id()
            },
    {
        if seq > self.last_id {
            self.last_id = seq;
        }
    }

    /// Every memory, in id order.
    pub fn all_rows(&self) -> (r: Vec<Memory>)
        ensures
            r@ == self.rows(),
    {
        let mut out: Vec<Memory> = Vec::new();
        let mut i: usize = 0;
        while i < self.memories.len()
            invariant
                0 <= i <= self.memories@.len(),
                out@ == self.memories@.take(i as int),
            decreases self.memories@.len() - i,
        {
            out.push(self.memories[i].clone());
            i = i + 1;
            assert(out@ =~= self.memories@.take(i as int));
        }
        assert(self.memories@.take(self.memories@.len() as int) =~= self.memories@);
        out
    }

    /// Deletes the memory with id `id`, if there is one.
    pub fn forget(&mut self, id: i64)
        requires
            old(self).wf(),
        ensures
            final(self).wf(),
            final(self).rows() == old(self).rows().filter(id_is_not(id)),
            final(self).last_id() == old(self).last_id(),
    {
        let ghost before = self.memories@;
        let ghost p = id_is_not(id);
        let ghost last = self.last_id;
        let mut i: usize = 0;
        while i < self.memories.len()
            invariant
                0 <= i <= self.memories@.len(),
                self.memories@ == before,
                self.last_id == last,
                before == old(self).memories@,
                last == old(self).last_id,
                p == id_is_not(id),
                ids_well_formed(before, last),
                forall|k: int| 0 <= k < i ==> #[trigger] before[k].id != id,
            decreases self.memories@.len() - i,
        {
            if self.memories[i].id == id {
                proof {
                    let a = before.take(i as int);
                    let b = seq![before[i as int]];
                    let c = before.skip(i + 1);
                    assert(before =~= a + b + c);
                    Seq::filter_distributes_over_add(a + b, c, p);
                    Seq::filter_distributes_over_add(a, b, p);
                    assert forall|k: int| 0 <= k < a.len() implies p(#[trigger] a[k]) by {}
                    assert forall|k: int| 0 <= k < c.len() implies p(#[trigger] c[k]) by {
                        assert(before[i as int].id < before[k + i + 1].id);
                    }
                    lemma_filter_all(a, p);
                    lemma_filter_all(c, p);
                    crate::seqs::lemma_filter_none(b, p);
                    assert(a + Seq::<Memory>::empty() =~= a);
                    assert(before.filter(p) == a + c);
                }
                self.memories.remove(i);
                assert(self.memories@ =~= before.take(i as int) + before.skip(i + 1));
                assert forall|a: int, b: int| 0 <= a < b < self.memories@.len() implies #[trigger] self.memories@[a].id
                    < #[trigger] self.memories@[b].id by {
                    let a0 = if a < i { a } else { a + 1 };
                    let b0 = if b < i { b } else { b + 1 };
                    assert(self.memories@[a] == before[a0]);
                    assert(self.memories@[b] == before[b0]);
                }
                assert forall|a: int| 0 <= a < self.memories@.len() implies 1 <= #[trigger] self.memories@[a].id
                    <= self.last_id by {
                    let a0 = if a < i { a } else { a + 1 };
                    assert(self.memories@[a] == before[a0]);
                }
                assert(self.memories@ == before.filter(p));
                return;
            }
            i = i + 1;
        }
        proof {
            assert forall|k: int| 0 <= k < before.len() implies p(#[trigger] before[k]) by {}
            lemma_filter_all(before, p);
        }
    }

    /// Archives the memories created before `cutoff` that are not archived
    /// yet, stamping them with `now`, and returns how many there were.
    pub fn archive(&mut self, cutoff: &str, now: &str) -> (r: i64)
        requires
            old(self).wf(),
        ensures
            final(self).wf(),
            final(self).last_id() == old(self).last_id(),
            memory_rows(final(self).rows()) == archived_rows(memory_rows(old(self).rows()), cutoff@, now@),
            r as int == memory_rows(old(self).rows()).filter(archive_filter(cutoff@)).len(),
    {
        let ghost before = self.memories@;
        let ghost rows0 = memory_rows(before);
        let ghost target = archived_rows(rows0, cutoff@, now@);
        let ghost p = archive_filter(cutoff@);
        let ghost last = self.last_id;
        proof {
            lemma_len_within_ids(before, last);
        }
        let cut = chars_of(cutoff);
        let n = self.memories.len();
        let mut count: i64 = 0;
        let mut j: usize = 0;
        while j < n
            invariant
                0 <= j <= n,
                n == before.len(),
                n <= last,
                self.last_id == last,
                cut@ == cutoff@,
                ids_well_formed(before, last),
                rows0 == memory_rows(before),
                p == archive_filter(cutoff@),
                target == archived_rows(rows0, cutoff@, now@),
                self.memories@.len() == n,
                count as int == rows0.take(j as int).filter(p).len(),
                forall|q: int| 0 <= q < j ==> #[trigger] self.memories@[q]@ == target[q],
                forall|q: int| j <= q < n ==> #[trigger] self.memories@[q] == before[q],
                forall|q: int| 0 <= q < n ==> #[trigger] self.memories@[q].id == before[q].id,
            decreases n - j,
        {
            proof {
                lemma_filter_take_step(rows0, p, j as int);
                rows0.take(j as int).lemma_filter_len(p);
                assert(rows0[j as int] == before[j as int]@);
            }
            let due = {
                let m = &self.memories[j];
                let c = chars_of(m.created_at.as_str());
                !m.is_archived && seq_lt(&c, &cut)
            };
            if due {
                let mut m = self.memories[j].clone();
                m.is_archived = true;
                m.updated_at = owned(now);
                self.memories.set(j, m);
                count = count + 1;
            }
            j = j + 1;
        }
        assert(rows0.take(n as int) =~= rows0);
        assert(memory_rows(self.memories@) =~= target);
        assert forall|a: int, b: int| 0 <= a < b < self.memories@.len() implies #[trigger] self.memories@[a].id
            < #[trigger] self.memories@[b].id by {
            assert(before[a].id < before[b].id);
        }
        assert forall|a: int| 0 <= a < self.memories@.len() implies 1 <= #[trigger] self.memories@[a].id
            <= self.last_id by {
            assert(before[a].id == self.memories@[a].id);
        }
        count
    }

    /// How many memories there are, archived or not.
    pub fn get_stats(&self) -> (r: MemoryCounts)
        requires
            self.wf(),
        ensures
            r.total as int == self.rows().len(),
            r.archived as int == memory_rows(self.rows()).filter(is_archived_row()).len(),
            r.active == r.total - r.archived,
    {
        let ghost rows0 = memory_rows(self.memories@);
        let ghost p = is_archived_row();
        proof {
            lemma_len_within_ids(self.memories@, self.last_id);
        }
        let n = self.memories.len();
        let mut archived: i64 = 0;
        let mut j: usize = 0;
        while j < n
            invariant
                0 <= j <= n,
                n == self.memories@.len(),
                n <= i64::MAX,
                rows0 == memory_rows(self.memories@),
                p == is_archived_row(),
                archived as int == rows0.take(j as int).filter(p).len(),
            decreases n - j,
        {
            proof {
                lemma_filter_take_step(rows0, p, j as int);
                rows0.take(j as int).lemma_filter_len(p);
                assert(rows0[j as int] == self.memories@[j as int]@);
            }
            if self.memories[j].is_archived {
                archived = archived + 1;
            }
            j = j + 1;
        }
        assert(rows0.take(n as int) =~= rows0);
        proof {
            rows0.lemma_filter_len(p);
        }
        let total = n as i64;
        MemoryCounts { total, active: total - archived, archived }
    }

    /// Finds memories by keyword and tags (see `recall_selection`), newest
    /// first, and counts the access: each memory returned has its access
    /// count raised by one and its last access set to `now`.  The memories
    /// are returned as they were before that.
    pub fn recall(
        &mut self,
        query: &str,
        tags: Option<Vec<String>>,
        include_archived: bool,
        limit: i64,
        now: &str,
    ) -> (r: Vec<Memory>)
        requires
            old(self).wf(),
        ensures
            final(self).wf(),
            r@ == recall_selection(
                old(self).rows(),
                query@,
                tags_view(tags),
                include_archived,
                limit,
            ),
            memory_rows(final(self).rows()) == touched(
                memory_rows(old(self).rows()),
                memory_ids(r@),
                now@,
            ),
            final(self).last_id() == old(self).last_id(),
    {
        let ghost tv = tags_view(tags);
        let safe = sanitize_fts_query(query);
        let safe_len = chars_of(safe.as_str()).len();
        let ghost p = recall_filter(sanitized(query@), tv, include_archived);
        let mut hits: Vec<Memory> = Vec::new();
        let mut i: usize = 0;
        while i < self.memories.len()
            invariant
                0 <= i <= self.memories@.len(),
                p == recall_filter(sanitized(query@), tv, include_archived),
                safe@ == sanitized(query@),
                safe_len == safe@.len(),
                tv == tags_view(tags),
                hits@ == self.memories@.take(i as int).filter(p),
            decreases self.memories@.len() - i,
        {
            proof {
                lemma_filter_take_step(self.memories@, p, i as int);
            }
            let m = &self.memories[i];
            let keep = (include_archived || !m.is_archived) && self.query_hit(m, safe.as_str(), safe_len)
                && match &tags {
                Some(ts) => Self::tags_hit(m, ts),
                None => true,
            };
            if keep {
                hits.push(m.clone());
            }
            i = i + 1;
        }
        assert(self.memories@.take(self.memories@.len() as int) =~= self.memories@);
        proof {
            lemma_filter_distinct(self.memories@, p);
        }
        let mut sorted = sort_newest_first(hits);
        if limit >= 0 && (limit as u64) < (sorted.len() as u64) {
            sorted.truncate(limit as usize);
        }
        self.touch(&sorted, now);
        sorted
    }

    /// The cleaned query matches `m` (or is empty).
    fn query_hit(&self, m: &Memory, safe: &str, safe_len: usize) -> (r: bool)
        requires
            safe_len == safe@.len(),
        ensures
            r == (safe@.len() == 0 || like_match(infix_pattern(safe@), m.content@) || (opt_view(
                m.tags,
            ) matches Some(t) && like_match(infix_pattern(safe@), t))),
    {
        if safe_len == 0 {
            return true;
        }
        if like_infix(safe, m.content.as_str()) {
            return true;
        }
        match &m.tags {
            Some(t) => like_infix(safe, t.as_str()),
            None => false,
        }
    }

    /// Every tag asked for matches the tags of `m`.
    fn tags_hit(m: &Memory, ts: &Vec<String>) -> (r: bool)
        ensures
            r == all_tags_match(opt_view(m.tags), strings_view(ts@)),
    {
        let ghost tv = strings_view(ts@);
        let mut k: usize = 0;
        while k < ts.len()
            invariant
                0 <= k <= ts@.len(),
                tv == strings_view(ts@),
                all_tags_match(opt_view(m.tags), tv.take(k as int)),
            decreases ts@.len() - k,
        {
            let ok = match &m.tags {
                Some(t) => like_infix(ts[k].as_str(), t.as_str()),
                None => false,
            };
            assert(tv[k as int] == ts@[k as int]@);
            if !ok {
                assert(!(opt_view(m.tags) matches Some(t) && like_match(
                    infix_pattern(tv[k as int]),
                    t,
                )));
                return false;
            }
            k = k + 1;
            assert forall|q: int| 0 <= q < k implies (opt_view(m.tags) matches Some(t) && like_match(
                infix_pattern(#[trigger] tv.take(k as int)[q]),
                t,
            )) by {
                if q < k - 1 {
                    assert(tv.take(k as int)[q] == tv.take(k - 1)[q]);
                }
            }
        }
        assert(tv.take(ts@.len() as int) =~= tv);
        true
    }

    /// Whether `id` is the id of one of `picked`.
    fn picked_has(picked: &Vec<Memory>, id: i64) -> (r: bool)
        ensures
            r == memory_ids(picked@).contains(id),
    {
        let mut k: usize = 0;
        while k < picked.len()
            invariant
                0 <= k <= picked@.len(),
                forall|q: int| 0 <= q < k ==> #[trigger] picked@[q].id != id,
            decreases picked@.len() - k,
        {
            if picked[k].id == id {
                assert(memory_ids(picked@)[k as int] == id);
                return true;
            }
            k = k + 1;
        }
        assert forall|q: int| 0 <= q < memory_ids(picked@).len() implies #[trigger] memory_ids(
            picked@,
        )[q] != id by {
            assert(memory_ids(picked@)[q] == picked@[q].id);
        }
        false
    }

    /// Counts an access at `now` to each memory whose id is among `picked`.
    fn touch(&mut self, picked: &Vec<Memory>, now: &str)
        requires
            old(self).wf(),
        ensures
            final(self).wf(),
            final(self).last_id() == old(self).last_id(),
            memory_rows(final(self).rows()) == touched(
                memory_rows(old(self).rows()),
                memory_ids(picked@),
                now@,
            ),
    {
        let ghost before = self.memories@;
        let ghost last = self.last_id;
        let ghost target = touched(memory_rows(before), memory_ids(picked@), now@);
        let n = self.memories.len();
        let mut j: usize = 0;
        while j < n
            invariant
                0 <= j <= n,
                self.last_id == last,
                ids_well_formed(before, last),
                n == before.len(),
                self.memories@.len() == n,
                target == touched(memory_rows(before), memory_ids(picked@), now@),
                forall|q: int| 0 <= q < j ==> #[trigger] self.memories@[q]@ == target[q],
                forall|q: int| j <= q < n ==> #[trigger] self.memories@[q] == before[q],
                forall|q: int| 0 <= q < n ==> #[trigger] self.memories@[q].id == before[q].id,
            decreases n - j,
        {
            let id = self.memories[j].id;
            if Self::picked_has(picked, id) {
                let mut m = self.memories[j].clone();
                m.access_count = if m.access_count < i64::MAX {
                    m.access_count + 1
                } else {
                    m.access_count
                };
                m.last_accessed_at = Some(owned(now));
                self.memories.set(j, m);
            }
            j = j + 1;
        }
        assert(memory_rows(self.memories@) =~= target);
        assert(ids_well_formed(self.memories@, self.last_id)) by {
            assert forall|i: int| 0 <= i < self.memories@.len() implies 1 <= #[trigger] self.memories@[i].id
                <= self.last_id by {
                assert(before[i].id == self.memories@[i].id);
            }
            assert forall|i: int, k: int| 0 <= i < k < self.memories@.len() implies #[trigger] self.memories@[i].id
                < #[trigger] self.memories@[k].id by {
                assert(before[i].id < before[k].id);
            }
        }
    }
}

/// Ids that are strictly increasing are distinct.
pub proof fn lemma_wf_distinct(rows: Seq<Memory>, last_id: i64)
    requires
        ids_well_formed(rows, last_id),
    ensures
        distinct_idents(rows),
{
    assert forall|i: int, j: int| 0 <= i < j < rows.len() implies #[trigger] rows[i].ident()
        != #[trigger] rows[j].ident() by {
        assert(rows[i].id < rows[j].id);
    }
}

/// A recall without a limit finds every memory that matches it.
pub proof fn law_recall_finds_what_matches(
    rows: Seq<Memory>,
    last_id: i64,
    query: Seq<char>,
    tags: Option<Seq<Seq<char>>>,
    include_archived: bool,
    m: Memory,
)
    requires
        ids_well_formed(rows, last_id),
        rows.contains(m),
        recall_hit(m@, sanitized(query), tags, include_archived),
    ensures
        recall_selection(rows, query, tags, include_archived, -1i64).contains(m),
{
    let p = recall_filter(sanitized(query), tags, include_archived);
    lemma_wf_distinct(rows, last_id);
    lemma_filter_distinct(rows, p);
    crate::seqs::lemma_filter_contains_iff(rows, p, m);
    crate::db::order::lemma_newest_first_props(rows.filter(p));
}

/// A recall returns matching memories only, newest first, and never more
/// than a non-negative `limit`.
pub proof fn law_recall_shape(
    rows: Seq<Memory>,
    last_id: i64,
    query: Seq<char>,
    tags: Option<Seq<Seq<char>>>,
    include_archived: bool,
    limit: i64,
)
    requires
        ids_well_formed(rows, last_id),
    ensures
        crate::db::order::sorted_newest_first(
            recall_selection(rows, query, tags, include_archived, limit),
        ),
        limit >= 0 ==> recall_selection(rows, query, tags, include_archived, limit).len() <= limit,
        forall|m: Memory|
            recall_selection(rows, query, tags, include_archived, limit).contains(m) ==> rows.contains(m)
                && recall_hit(m@, sanitized(query), tags, include_archived),
{
    let p = recall_filter(sanitized(query), tags, include_archived);
    let f = rows.filter(p);
    let sorted = newest_first(f);
    lemma_wf_distinct(rows, last_id);
    lemma_filter_distinct(rows, p);
    crate::db::order::lemma_newest_first_props(f);
    let r = recall_selection(rows, query, tags, include_archived, limit);
    assert forall|i: int, j: int| 0 <= i < j < r.len() implies crate::db::order::newer(
        #[trigger] r[i],
        #[trigger] r[j],
    ) by {
        assert(r[i] == sorted[i] && r[j] == sorted[j]);
    }
    assert forall|m: Memory| r.contains(m) implies rows.contains(m) && recall_hit(
        m@,
        sanitized(query),
        tags,
        include_archived,
    ) by {
        let i = choose|i: int| 0 <= i < r.len() && r[i] == m;
        assert(sorted[i] == m);
        assert(sorted.contains(m));
        crate::seqs::lemma_filter_contains_iff(rows, p, m);
    }
}

/// A recall for nothing, with no tags and archived memories included, lists
/// every memory, newest first.
pub proof fn law_blank_recall_lists_everything(rows: Seq<Memory>)
    ensures
        recall_selection(rows, Seq::empty(), None, true, -1i64) == newest_first(rows),
{
    let p = recall_filter(sanitized(Seq::empty()), None, true);
    reveal(Seq::filter);
    assert(strip_pattern_empty(seq!['&', '&']) && strip_pattern_empty(seq!['|', '|']));
    assert(sanitized(Seq::empty()) =~= Seq::<char>::empty());
    assert forall|i: int| 0 <= i < rows.len() implies p(#[trigger] rows[i]) by {}
    lemma_filter_all(rows, p);
}

/// The empty text holds no occurrence of a pattern.
spec fn strip_pattern_empty(pat: Seq<char>) -> bool {
    crate::query::strip_pattern(Seq::<char>::empty(), pat) == Seq::<char>::empty()
}

/// After archiving, nothing created before the cutoff is left unarchived,
/// and nothing archived before becomes unarchived.
pub proof fn law_archive_leaves_nothing_due(rows: Seq<MemoryRow>, cutoff: Seq<char>, now: Seq<char>)
    ensures
        archived_rows(rows, cutoff, now).filter(archive_filter(cutoff)).len() == 0,
        forall|i: int|
            0 <= i < rows.len() && rows[i].is_archived ==> #[trigger] archived_rows(rows, cutoff, now)[i].is_archived,
        archived_rows(rows, cutoff, now).len() == rows.len(),
{
    let a = archived_rows(rows, cutoff, now);
    assert forall|i: int| 0 <= i < a.len() implies !archive_filter(cutoff)(#[trigger] a[i]) by {}
    crate::seqs::lemma_filter_none(a, archive_filter(cutoff));
}

/// After forgetting a memory, no memory has its id and every other memory
/// stays.
pub proof fn law_forget_removes(rows: Seq<Memory>, id: i64)
    ensures
        forall|m: Memory| rows.filter(id_is_not(id)).contains(m) <==> (rows.contains(m) && m.id != id),
{
    assert forall|m: Memory| rows.filter(id_is_not(id)).contains(m) <==> (rows.contains(m) && m.id
        != id) by {
        crate::seqs::lemma_filter_contains_iff(rows, id_is_not(id), m);
    }
}

} // verus!
