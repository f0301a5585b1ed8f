//! The skill table: one row per skill, kept in name order, with the
//! enable/disable switch and the trash flag.
use vstd::prelude::*;

use crate::seqs::{
    lemma_filter_all, lemma_filter_contains_iff, lemma_filter_none, lemma_filter_prefix,
    lemma_filter_map_invariant, lemma_filter_suffix, lemma_filter_take_step,
};
use crate::text::{
    chars_of, infix_pattern, lemma_empty_infix_matches_all, like_infix, owned, lemma_text_lt_asymmetric, lemma_text_lt_irreflexive,
    lemma_text_lt_total, lemma_text_lt_transitive, like_match, seq_eq, seq_lt, text_lt,
};

verus! {

broadcast use {vstd::seq_lib::group_seq_properties, vstd::seq::group_seq_axioms};

/// A registered skill.  `tags` holds the skill's tags as a JSON array;
/// `deleted` marks a skill that sits in the trash.
#[derive(Debug)]
pub struct Skill {
    pub name: String,
    pub description: String,
    pub tags: String,
    pub file_path: String,
    pub dir_name: String,
    pub enabled: bool,
    pub deleted: bool,
    pub created_at: String,
    pub updated_at: String,
}

/// The abstract content of a `Skill`.
pub struct SkillRow {
    pub name: Seq<char>,
    pub description: Seq<char>,
    pub tags: Seq<char>,
    pub file_path: Seq<char>,
    pub dir_name: Seq<char>,
    pub enabled: bool,
    pub deleted: bool,
    pub created_at: Seq<char>,
    pub updated_at: Seq<char>,
}

impl View for Skill {
    type V = SkillRow;

    open spec fn view(&self) -> SkillRow {
        SkillRow {
            name: self.name@,
            description: self.description@,
            tags: self.tags@,
            file_path: self.file_path@,
            dir_name: self.dir_name@,
            enabled: self.enabled,
            deleted: self.deleted,
            created_at: self.created_at@,
            updated_at: self.updated_at@,
        }
    }
}

impl Clone for Skill {
    fn clone(&self) -> (r: Self)
        ensures
            r == *self,
    {
        Skill {
            name: self.name.clone(),
            description: self.description.clone(),
            tags: self.tags.clone(),
            file_path: self.file_path.clone(),
            dir_name: self.dir_name.clone(),
            enabled: self.enabled,
            deleted: self.deleted,
            created_at: self.created_at.clone(),
            updated_at: self.updated_at.clone(),
        }
    }
}

/// The rows that a sequence of skills stands for.
pub open spec fn skill_rows(v: Seq<Skill>) -> Seq<SkillRow> {
    v.map_values(|s: Skill| s@)
}

/// Rows in strictly increasing name order (so no name occurs twice).
pub open spec fn rows_in_name_order(rows: Seq<SkillRow>) -> bool {
    forall|i: int, j: int|
        0 <= i < j < rows.len() ==> text_lt(#[trigger] rows[i].name, #[trigger] rows[j].name)
}

/// Some row is called `name`.
pub open spec fn has_skill(rows: Seq<SkillRow>, name: Seq<char>) -> bool {
    exists|i: int| 0 <= i < rows.len() && #[trigger] rows[i].name == name
}

/// The row called `name`, if there is one.
pub open spec fn skill_named(rows: Seq<SkillRow>, name: Seq<char>) -> Option<SkillRow> {
    if has_skill(rows, name) {
        Some(rows[choose|i: int| 0 <= i < rows.len() && #[trigger] rows[i].name == name])
    } else {
        None
    }
}

/// Whether a row's trash flag is `trash`.
pub open spec fn deleted_is(trash: bool) -> spec_fn(SkillRow) -> bool {
    |r: SkillRow| r.deleted == trash
}

/// The skills outside the trash, in name order.
pub open spec fn live_skills(rows: Seq<SkillRow>) -> Seq<SkillRow> {
    rows.filter(deleted_is(false))
}

/// The skills in the trash, in name order.
pub open spec fn trashed_skills(rows: Seq<SkillRow>) -> Seq<SkillRow> {
    rows.filter(deleted_is(true))
}

/// A row matches a search for `query` (and, where given, `tags`): it is
/// outside the trash, its name, description or tags match `%query%`, and its
/// tags match `%tags%`.
pub open spec fn search_hit(r: SkillRow, query: Seq<char>, tags: Option<Seq<char>>) -> bool {
    &&& !r.deleted
    &&& {
        ||| like_match(infix_pattern(query), r.name)
        ||| like_match(infix_pattern(query), r.description)
        ||| like_match(infix_pattern(query), r.tags)
    }
    &&& match tags {
        Some(t) => like_match(infix_pattern(t), r.tags),
        None => true,
    }
}

/// The result of a search, in name order.
pub open spec fn search_results(rows: Seq<SkillRow>, query: Seq<char>, tags: Option<Seq<char>>) -> Seq<SkillRow> {
    rows.filter(search_filter(query, tags))
}

pub open spec fn search_filter(query: Seq<char>, tags: Option<Seq<char>>) -> spec_fn(SkillRow) -> bool {
    |r: SkillRow| search_hit(r, query, tags)
}

/// `rows` with `f` applied to the row called `name`.
pub open spec fn map_named(rows: Seq<SkillRow>, name: Seq<char>, f: spec_fn(SkillRow) -> SkillRow) -> Seq<SkillRow> {
    rows.map_values(|r: SkillRow| if r.name == name { f(r) } else { r })
}

/// The row called `name` with its enabled switch set to `enabled`.
pub open spec fn set_enabled_rows(rows: Seq<SkillRow>, name: Seq<char>, enabled: bool, now: Seq<char>) -> Seq<SkillRow> {
    map_named(rows, name, |r: SkillRow| SkillRow { enabled: enabled, updated_at: now, ..r })
}

/// The row called `name` moved into (`deleted`) or out of the trash.
pub open spec fn set_deleted_rows(rows: Seq<SkillRow>, name: Seq<char>, deleted: bool, now: Seq<char>) -> Seq<SkillRow> {
    map_named(rows, name, |r: SkillRow| SkillRow { deleted: deleted, updated_at: now, ..r })
}

/// The rows without the one called `name`.
pub open spec fn without_skill(rows: Seq<SkillRow>, name: Seq<char>) -> Seq<SkillRow> {
    rows.filter(|r: SkillRow| r.name != name)
}

/// `row` placed among `rows` by name.
pub open spec fn insert_by_name(rows: Seq<SkillRow>, row: SkillRow) -> Seq<SkillRow> {
    rows.filter(|r: SkillRow| text_lt(r.name, row.name)) + seq![row] + rows.filter(
        |r: SkillRow| text_lt(row.name, r.name),
    )
}

/// The table after registering a skill: a new skill is enabled and outside
/// the trash; a known one gets the new description, tags, file and
/// directory, leaves the trash and keeps its enabled switch and creation
/// time.
pub open spec fn upsert_rows(
    rows: Seq<SkillRow>,
    name: Seq<char>,
    description: Seq<char>,
    tags: Seq<char>,
    file_path: Seq<char>,
    dir_name: Seq<char>,
    now: Seq<char>,
) -> Seq<SkillRow> {
    if has_skill(rows, name) {
        map_named(
            rows,
            name,
            |r: SkillRow|
                SkillRow {
                    description: description,
                    tags: tags,
                    file_path: file_path,
                    dir_name: dir_name,
                    deleted: false,
                    updated_at: now,
                    ..r
                },
        )
    } else {
        insert_by_name(
            rows,
            SkillRow {
                name: name,
                description: description,
                tags: tags,
                file_path: file_path,
                dir_name: dir_name,
                enabled: true,
                deleted: false,
                created_at: now,
                updated_at: now,
            },
        )
    }
}

/// The table with `row` stored under its name, replacing any row of that
/// name.
pub open spec fn put_rows(rows: Seq<SkillRow>, row: SkillRow) -> Seq<SkillRow> {
    if has_skill(rows, row.name) {
        map_named(rows, row.name, |r: SkillRow| row)
    } else {
        insert_by_name(rows, row)
    }
}

/// Whether a row stays when the table is synchronised with the skills
/// found on disk: rows in the trash stay, and rows whose name was found.
pub open spec fn kept_on_sync(names: Seq<Seq<char>>) -> spec_fn(SkillRow) -> bool {
    |r: SkillRow| r.deleted || names.contains(r.name)
}

/// The table without the skills outside the trash whose name is not in
/// `names`.
pub open spec fn retain_found(rows: Seq<SkillRow>, names: Seq<Seq<char>>) -> Seq<SkillRow> {
    rows.filter(kept_on_sync(names))
}

/// In sorted rows, at most one row carries a given name.
pub proof fn lemma_sorted_unique(rows: Seq<SkillRow>, i: int, j: int)
    requires
        rows_in_name_order(rows),
        0 <= i < rows.len(),
        0 <= j < rows.len(),
        rows[i].name == rows[j].name,
    ensures
        i == j,
{
    if i < j {
        lemma_text_lt_irreflexive(rows[i].name);
    }
    if j < i {
        lemma_text_lt_irreflexive(rows[i].name);
    }
}

/// In sorted rows, the row called `rows[i].name` is `rows[i]`.
pub proof fn lemma_skill_named_at(rows: Seq<SkillRow>, i: int)
    requires
        rows_in_name_order(rows),
        0 <= i < rows.len(),
    ensures
        skill_named(rows, rows[i].name) == Some(rows[i]),
{
    assert(has_skill(rows, rows[i].name));
    let k = choose|k: int| 0 <= k < rows.len() && #[trigger] rows[k].name == rows[i].name;
    lemma_sorted_unique(rows, i, k);
}

/// A map that keeps every name keeps the name order.
proof fn lemma_same_names_sorted(a: Seq<SkillRow>, b: Seq<SkillRow>)
    requires
        rows_in_name_order(a),
        a.len() == b.len(),
        forall|i: int| 0 <= i < a.len() ==> #[trigger] b[i].name == a[i].name,
    ensures
        rows_in_name_order(b),
{
    assert forall|i: int, j: int| 0 <= i < j < b.len() implies text_lt(
        #[trigger] b[i].name,
        #[trigger] b[j].name,
    ) by {
        assert(text_lt(a[i].name, a[j].name));
    }
}

/// A filter of sorted rows is sorted.
pub proof fn lemma_filter_sorted(rows: Seq<SkillRow>, p: spec_fn(SkillRow) -> bool)
    requires
        rows_in_name_order(rows),
    ensures
        rows_in_name_order(rows.filter(p)),
    decreases rows.len(),
{
    reveal(Seq::filter);
    if rows.len() > 0 {
        let r = rows.drop_last();
        assert(rows_in_name_order(r)) by {
            assert forall|i: int, j: int| 0 <= i < j < r.len() implies text_lt(
                #[trigger] r[i].name,
                #[trigger] r[j].name,
            ) by {
                assert(text_lt(rows[i].name, rows[j].name));
            }
        }
        lemma_filter_sorted(r, p);
        let f = r.filter(p);
        if p(rows.last()) {
            assert forall|i: int, j: int| 0 <= i < j < f.push(rows.last()).len() implies text_lt(
                #[trigger] f.push(rows.last())[i].name,
                #[trigger] f.push(rows.last())[j].name,
            ) by {
                if j == f.len() {
                    r.lemma_filter_contains_rev(p, f[i]);
                    assert(f.contains(f[i]));
                    lemma_filter_contains_iff(r, p, f[i]);
                    let k = choose|k: int| 0 <= k < r.len() && r[k] == f[i];
                    assert(text_lt(rows[k].name, rows[rows.len() - 1].name));
                }
            }
        }
    }
}

/// Applying `f` by name leaves rows without that name alone.
pub proof fn lemma_map_named_absent(rows: Seq<SkillRow>, name: Seq<char>, f: spec_fn(SkillRow) -> SkillRow)
    requires
        !has_skill(rows, name),
    ensures
        map_named(rows, name, f) == rows,
{
    assert forall|k: int| 0 <= k < rows.len() implies #[trigger] map_named(rows, name, f)[k]
        == rows[k] by {
        assert(rows[k].name != name);
    }
    assert(map_named(rows, name, f) =~= rows);
}

/// Applying `f` by name in sorted rows changes the one row called `name`.
pub proof fn lemma_map_named_at(rows: Seq<SkillRow>, name: Seq<char>, f: spec_fn(SkillRow) -> SkillRow, i: int)
    requires
        rows_in_name_order(rows),
        0 <= i < rows.len(),
        rows[i].name == name,
    ensures
        map_named(rows, name, f) == rows.update(i, f(rows[i])),
{
    assert forall|k: int| 0 <= k < rows.len() implies #[trigger] map_named(rows, name, f)[k]
        == rows.update(i, f(rows[i]))[k] by {
        if k != i && rows[k].name == name {
            lemma_sorted_unique(rows, i, k);
        }
    }
    assert(map_named(rows, name, f) =~= rows.update(i, f(rows[i])));
}

/// Removing by name in sorted rows removes the one row called `name`.
pub proof fn lemma_without_at(rows: Seq<SkillRow>, name: Seq<char>, i: int)
    requires
        rows_in_name_order(rows),
        0 <= i < rows.len(),
        rows[i].name == name,
    ensures
        without_skill(rows, name) == rows.remove(i),
{
    let p = |r: SkillRow| r.name != name;
    let a = rows.take(i);
    let b = seq![rows[i]];
    let c = rows.skip(i + 1);
    assert(rows =~= a + b + c);
    Seq::filter_distributes_over_add(a + b, c, p);
    Seq::filter_distributes_over_add(a, b, p);
    assert forall|k: int| 0 <= k < a.len() implies p(#[trigger] a[k]) by {
        if a[k].name == name {
            lemma_sorted_unique(rows, i, k);
        }
    }
    assert forall|k: int| 0 <= k < c.len() implies p(#[trigger] c[k]) by {
        if c[k].name == name {
            lemma_sorted_unique(rows, i, k + i + 1);
        }
    }
    lemma_filter_all(a, p);
    lemma_filter_all(c, p);
    lemma_filter_none(b, p);
    assert(a + Seq::<SkillRow>::empty() =~= a);
    assert(rows.remove(i) =~= a + c);
}

/// Removing by name keeps sorted rows sorted.
proof fn lemma_remove_sorted(rows: Seq<SkillRow>, i: int)
    requires
        rows_in_name_order(rows),
        0 <= i < rows.len(),
    ensures
        rows_in_name_order(rows.remove(i)),
{
    let r = rows.remove(i);
    assert forall|a: int, b: int| 0 <= a < b < r.len() implies text_lt(
        #[trigger] r[a].name,
        #[trigger] r[b].name,
    ) by {
        let a0 = if a < i { a } else { a + 1 };
        let b0 = if b < i { b } else { b + 1 };
        assert(r[a] == rows[a0]);
        assert(r[b] == rows[b0]);
    }
}

/// Placing a new name at its insertion point in sorted rows.
pub proof fn lemma_insert_by_name_at(rows: Seq<SkillRow>, row: SkillRow, k: int)
    requires
        rows_in_name_order(rows),
        !has_skill(rows, row.name),
        0 <= k <= rows.len(),
        forall|j: int| 0 <= j < k ==> text_lt(#[trigger] rows[j].name, row.name),
        k < rows.len() ==> !text_lt(rows[k].name, row.name),
    ensures
        insert_by_name(rows, row) == rows.insert(k, row),
        rows_in_name_order(rows.insert(k, row)),
{
    let lt = |r: SkillRow| text_lt(r.name, row.name);
    let gt = |r: SkillRow| text_lt(row.name, r.name);
    assert forall|j: int| k <= j < rows.len() implies !lt(#[trigger] rows[j]) by {
        if j > k && text_lt(rows[j].name, row.name) {
            lemma_text_lt_transitive(rows[k].name, rows[j].name, row.name);
        }
    }
    assert forall|j: int| k <= j < rows.len() implies gt(#[trigger] rows[j]) by {
        assert(rows[k].name != row.name);
        lemma_text_lt_total(rows[k].name, row.name);
        if j > k {
            lemma_text_lt_transitive(row.name, rows[k].name, rows[j].name);
        }
    }
    assert forall|j: int| 0 <= j < k implies !gt(#[trigger] rows[j]) by {
        lemma_text_lt_asymmetric(rows[j].name, row.name);
    }
    lemma_filter_prefix(rows, lt, k);
    lemma_filter_suffix(rows, gt, k);
    assert(rows.insert(k, row) =~= rows.take(k) + seq![row] + rows.skip(k));
    let r = rows.insert(k, row);
    assert forall|a: int, b: int| 0 <= a < b < r.len() implies text_lt(
        #[trigger] r[a].name,
        #[trigger] r[b].name,
    ) by {
        if b < k {
            assert(r[a] == rows[a] && r[b] == rows[b]);
        } else if b == k {
            assert(r[a] == rows[a]);
        } else if a == k {
            assert(r[b] == rows[b - 1]);
            assert(gt(rows[b - 1]));
        } else if a < k {
            assert(r[a] == rows[a] && r[b] == rows[b - 1]);
        } else {
            assert(r[a] == rows[a - 1] && r[b] == rows[b - 1]);
        }
    }
}

/// Where a new name goes among sorted rows.
proof fn lemma_insertion_index(rows: Seq<SkillRow>, name: Seq<char>) -> (k: int)
    requires
        rows_in_name_order(rows),
    ensures
        0 <= k <= rows.len(),
        forall|j: int| 0 <= j < k ==> text_lt(#[trigger] rows[j].name, name),
        k < rows.len() ==> !text_lt(rows[k].name, name),
    decreases rows.len(),
{
    if rows.len() == 0 {
        return 0;
    }
    let r = rows.drop_last();
    assert(rows_in_name_order(r)) by {
        assert forall|i: int, j: int| 0 <= i < j < r.len() implies text_lt(
            #[trigger] r[i].name,
            #[trigger] r[j].name,
        ) by {
            assert(r[i] == rows[i] && r[j] == rows[j]);
        }
    }
    if text_lt(rows.last().name, name) {
        let k0 = lemma_insertion_index(r, name);
        if k0 < rows.len() - 1 {
            assert(r[k0] == rows[k0]);
            assert(text_lt(rows[k0].name, rows[rows.len() - 1].name));
            lemma_text_lt_transitive(rows[k0].name, rows.last().name, name);
        }
        assert forall|j: int| 0 <= j < rows.len() implies text_lt(#[trigger] rows[j].name, name) by {
            if j < rows.len() - 1 {
                assert(rows.drop_last()[j] == rows[j]);
            }
        }
        rows.len() as int
    } else {
        let k0 = lemma_insertion_index(r, name);
        assert forall|j: int| 0 <= j < k0 implies text_lt(#[trigger] rows[j].name, name) by {
            assert(rows.drop_last()[j] == rows[j]);
        }
        if k0 < rows.len() - 1 {
            assert(rows.drop_last()[k0] == rows[k0]);
        }
        k0
    }
}

/// The table that results from registering a skill is in name order.
pub proof fn lemma_upsert_sorted(
    rows: Seq<SkillRow>,
    name: Seq<char>,
    description: Seq<char>,
    tags: Seq<char>,
    file_path: Seq<char>,
    dir_name: Seq<char>,
    now: Seq<char>,
)
    requires
        rows_in_name_order(rows),
    ensures
        rows_in_name_order(upsert_rows(rows, name, description, tags, file_path, dir_name, now)),
        has_skill(upsert_rows(rows, name, description, tags, file_path, dir_name, now), name),
{
    let after = upsert_rows(rows, name, description, tags, file_path, dir_name, now);
    if has_skill(rows, name) {
        let i = choose|i: int| 0 <= i < rows.len() && #[trigger] rows[i].name == name;
        let f = |r: SkillRow|
            SkillRow {
                description: description,
                tags: tags,
                file_path: file_path,
                dir_name: dir_name,
                deleted: false,
                updated_at: now,
                ..r
            };
        lemma_map_named_at(rows, name, f, i);
        lemma_same_names_sorted(rows, after);
        assert(after[i].name == name);
    } else {
        let row = SkillRow {
            name: name,
            description: description,
            tags: tags,
            file_path: file_path,
            dir_name: dir_name,
            enabled: true,
            deleted: false,
            created_at: now,
            updated_at: now,
        };
        let k = lemma_insertion_index(rows, name);
        lemma_insert_by_name_at(rows, row, k);
        assert(after[k].name == name);
    }
}

/// Registering a skill keeps every name the table had.
pub proof fn lemma_upsert_keeps_names(
    rows: Seq<SkillRow>,
    name: Seq<char>,
    description: Seq<char>,
    tags: Seq<char>,
    file_path: Seq<char>,
    dir_name: Seq<char>,
    now: Seq<char>,
    other: Seq<char>,
)
    requires
        rows_in_name_order(rows),
        has_skill(rows, other),
    ensures
        has_skill(upsert_rows(rows, name, description, tags, file_path, dir_name, now), other),
{
    let after = upsert_rows(rows, name, description, tags, file_path, dir_name, now);
    let m = choose|m: int| 0 <= m < rows.len() && #[trigger] rows[m].name == other;
    if has_skill(rows, name) {
        let i = choose|i: int| 0 <= i < rows.len() && #[trigger] rows[i].name == name;
        let f = |r: SkillRow|
            SkillRow {
                description: description,
                tags: tags,
                file_path: file_path,
                dir_name: dir_name,
                deleted: false,
                updated_at: now,
                ..r
            };
        lemma_map_named_at(rows, name, f, i);
        assert(after[m].name == other);
    } else {
        let row = SkillRow {
            name: name,
            description: description,
            tags: tags,
            file_path: file_path,
            dir_name: dir_name,
            enabled: true,
            deleted: false,
            created_at: now,
            updated_at: now,
        };
        let k = lemma_insertion_index(rows, name);
        lemma_insert_by_name_at(rows, row, k);
        if m < k {
            assert(after[m] == rows[m]);
        } else {
            assert(after[m + 1] == rows[m]);
        }
    }
}

/// Read after write: once a skill is registered, looking it up by name
/// gives the description, tags, file and directory just written; it is out
/// of the trash; it is enabled if it is new and keeps its switch otherwise.
pub proof fn law_read_after_upsert(
    rows: Seq<SkillRow>,
    name: Seq<char>,
    description: Seq<char>,
    tags: Seq<char>,
    file_path: Seq<char>,
    dir_name: Seq<char>,
    now: Seq<char>,
)
    requires
        rows_in_name_order(rows),
    ensures
        ({
            let after = upsert_rows(rows, name, description, tags, file_path, dir_name, now);
            &&& skill_named(after, name) matches Some(r)
            &&& r.name == name
            &&& r.description == description
            &&& r.tags == tags
            &&& r.file_path == file_path
            &&& r.dir_name == dir_name
            &&& !r.deleted
            &&& r.enabled == match skill_named(rows, name) {
                Some(o) => o.enabled,
                None => true,
            }
        }),
{
    let after = upsert_rows(rows, name, description, tags, file_path, dir_name, now);
    lemma_upsert_sorted(rows, name, description, tags, file_path, dir_name, now);
    let k = choose|k: int| 0 <= k < after.len() && #[trigger] after[k].name == name;
    lemma_skill_named_at(after, k);
    if has_skill(rows, name) {
        let i = choose|i: int| 0 <= i < rows.len() && #[trigger] rows[i].name == name;
        lemma_skill_named_at(rows, i);
        let f = |r: SkillRow|
            SkillRow {
                description: description,
                tags: tags,
                file_path: file_path,
                dir_name: dir_name,
                deleted: false,
                updated_at: now,
                ..r
            };
        lemma_map_named_at(rows, name, f, i);
        lemma_sorted_unique(after, i, k);
    } else {
        let row = SkillRow {
            name: name,
            description: description,
            tags: tags,
            file_path: file_path,
            dir_name: dir_name,
            enabled: true,
            deleted: false,
            created_at: now,
            updated_at: now,
        };
        let j = lemma_insertion_index(rows, name);
        lemma_insert_by_name_at(rows, row, j);
        assert(after[j].name == name);
        lemma_sorted_unique(after, j, k);
    }
}

/// Nothing is lost to the trash: moving a skill that is outside the trash
/// into it and restoring it gives back the table as it was, but for the
/// skill's time of last change.
pub proof fn law_restore_undoes_delete(rows: Seq<SkillRow>, name: Seq<char>, t1: Seq<char>, t2: Seq<char>)
    requires
        rows_in_name_order(rows),
        skill_named(rows, name) matches Some(r) && !r.deleted,
    ensures
        set_deleted_rows(set_deleted_rows(rows, name, true, t1), name, false, t2) == map_named(
            rows,
            name,
            |r: SkillRow| SkillRow { updated_at: t2, ..r },
        ),
{
    let i = choose|i: int| 0 <= i < rows.len() && #[trigger] rows[i].name == name;
    lemma_skill_named_at(rows, i);
    let f1 = |r: SkillRow| SkillRow { deleted: true, updated_at: t1, ..r };
    let f2 = |r: SkillRow| SkillRow { deleted: false, updated_at: t2, ..r };
    let g = |r: SkillRow| SkillRow { updated_at: t2, ..r };
    let mid = set_deleted_rows(rows, name, true, t1);
    lemma_map_named_at(rows, name, f1, i);
    lemma_same_names_sorted(rows, mid);
    lemma_map_named_at(mid, name, f2, i);
    lemma_map_named_at(rows, name, g, i);
    assert(mid.update(i, f2(mid[i])) =~= rows.update(i, g(rows[i])));
}

/// A skill moved into the trash leaves the list of skills and shows in
/// the trash; restored, it moves back.
pub proof fn law_trash_moves_between_lists(rows: Seq<SkillRow>, name: Seq<char>, deleted: bool, now: Seq<char>)
    requires
        rows_in_name_order(rows),
        has_skill(rows, name),
    ensures
        ({
            let after = set_deleted_rows(rows, name, deleted, now);
            &&& has_skill(trashed_skills(after), name) == deleted
            &&& has_skill(live_skills(after), name) == !deleted
        }),
{
    let after = set_deleted_rows(rows, name, deleted, now);
    let i = choose|i: int| 0 <= i < rows.len() && #[trigger] rows[i].name == name;
    let f = |r: SkillRow| SkillRow { deleted: deleted, updated_at: now, ..r };
    lemma_map_named_at(rows, name, f, i);
    lemma_same_names_sorted(rows, after);
    let row = after[i];
    assert(row.name == name && row.deleted == deleted);
    lemma_filter_contains_iff(after, deleted_is(true), row);
    lemma_filter_contains_iff(after, deleted_is(false), row);
    assert(after.contains(row));
    if deleted {
        let t = trashed_skills(after);
        let j = choose|j: int| 0 <= j < t.len() && t[j] == row;
        assert(t[j].name == name);
        if has_skill(live_skills(after), name) {
            let l = live_skills(after);
            let m = choose|m: int| 0 <= m < l.len() && #[trigger] l[m].name == name;
            after.lemma_filter_pred(deleted_is(false), m);
            lemma_filter_contains_iff(after, deleted_is(false), l[m]);
            let q = choose|q: int| 0 <= q < after.len() && after[q] == l[m];
            lemma_sorted_unique(after, i, q);
        }
    } else {
        let l = live_skills(after);
        let j = choose|j: int| 0 <= j < l.len() && l[j] == row;
        assert(l[j].name == name);
        if has_skill(trashed_skills(after), name) {
            let t = trashed_skills(after);
            let m = choose|m: int| 0 <= m < t.len() && #[trigger] t[m].name == name;
            after.lemma_filter_pred(deleted_is(true), m);
            lemma_filter_contains_iff(after, deleted_is(true), t[m]);
            let q = choose|q: int| 0 <= q < after.len() && after[q] == t[m];
            lemma_sorted_unique(after, i, q);
        }
    }
}

/// Every skill is either listed or in the trash, never both, and the two
/// lists together are as long as the table.
pub proof fn law_lists_partition_table(rows: Seq<SkillRow>)
    ensures
        forall|r: SkillRow|
            rows.contains(r) <==> (live_skills(rows).contains(r) || trashed_skills(rows).contains(
                r,
            )),
        forall|r: SkillRow| !(live_skills(rows).contains(r) && trashed_skills(rows).contains(r)),
        live_skills(rows).len() + trashed_skills(rows).len() == rows.len(),
    decreases rows.len(),
{
    assert forall|r: SkillRow|
        rows.contains(r) <==> (live_skills(rows).contains(r) || trashed_skills(rows).contains(
            r,
        )) by {
        lemma_filter_contains_iff(rows, deleted_is(false), r);
        lemma_filter_contains_iff(rows, deleted_is(true), r);
    }
    assert forall|r: SkillRow| !(live_skills(rows).contains(r) && trashed_skills(rows).contains(r)) by {
        lemma_filter_contains_iff(rows, deleted_is(false), r);
        lemma_filter_contains_iff(rows, deleted_is(true), r);
    }
    reveal(Seq::filter);
    if rows.len() > 0 {
        law_lists_partition_table(rows.drop_last());
    }
}

/// Switching a skill on or off changes nothing about which skills are
/// listed: listing and switching commute.
pub proof fn law_enable_keeps_listing(rows: Seq<SkillRow>, name: Seq<char>, enabled: bool, now: Seq<char>)
    ensures
        live_skills(set_enabled_rows(rows, name, enabled, now)) == set_enabled_rows(
            live_skills(rows),
            name,
            enabled,
            now,
        ),
        trashed_skills(set_enabled_rows(rows, name, enabled, now)) == set_enabled_rows(
            trashed_skills(rows),
            name,
            enabled,
            now,
        ),
{
    let f = |r: SkillRow| SkillRow { enabled: enabled, updated_at: now, ..r };
    let g = |r: SkillRow| if r.name == name { f(r) } else { r };
    assert forall|x: SkillRow| #[trigger] deleted_is(false)(g(x)) <==> deleted_is(false)(x) by {}
    assert forall|x: SkillRow| #[trigger] deleted_is(true)(g(x)) <==> deleted_is(true)(x) by {}
    lemma_filter_map_invariant(rows, deleted_is(false), g);
    lemma_filter_map_invariant(rows, deleted_is(true), g);
}

/// After switching a skill that exists, looking it up shows the new switch.
pub proof fn law_read_after_set_enabled(rows: Seq<SkillRow>, name: Seq<char>, enabled: bool, now: Seq<char>)
    requires
        rows_in_name_order(rows),
        has_skill(rows, name),
    ensures
        skill_named(set_enabled_rows(rows, name, enabled, now), name) matches Some(r) && r.enabled
            == enabled && r.deleted == skill_named(rows, name).unwrap().deleted,
{
    let i = choose|i: int| 0 <= i < rows.len() && #[trigger] rows[i].name == name;
    let f = |r: SkillRow| SkillRow { enabled: enabled, updated_at: now, ..r };
    let after = set_enabled_rows(rows, name, enabled, now);
    lemma_map_named_at(rows, name, f, i);
    lemma_same_names_sorted(rows, after);
    lemma_skill_named_at(after, i);
    lemma_skill_named_at(rows, i);
}

/// A skill deleted for good is neither listed, nor in the trash, nor found
/// by name; every other row stays.
pub proof fn law_permanent_delete_forgets(rows: Seq<SkillRow>, name: Seq<char>)
    ensures
        !has_skill(without_skill(rows, name), name),
        skill_named(without_skill(rows, name), name) is None,
        forall|r: SkillRow|
            without_skill(rows, name).contains(r) <==> (rows.contains(r) && r.name != name),
{
    let p = |r: SkillRow| r.name != name;
    let w = without_skill(rows, name);
    assert forall|r: SkillRow| w.contains(r) <==> (rows.contains(r) && r.name != name) by {
        lemma_filter_contains_iff(rows, p, r);
    }
    if has_skill(w, name) {
        let k = choose|k: int| 0 <= k < w.len() && #[trigger] w[k].name == name;
        rows.lemma_filter_pred(p, k);
    }
}

/// A search for nothing, without a tag filter, lists every skill outside
/// the trash.
pub proof fn law_blank_search_lists_all(rows: Seq<SkillRow>)
    ensures
        search_results(rows, Seq::empty(), None) == live_skills(rows),
{
    assert forall|r: SkillRow| #[trigger]
        search_filter(Seq::empty(), None)(r) == deleted_is(false)(r) by {
        lemma_empty_infix_matches_all(r.name);
    }
    assert(search_filter(Seq::empty(), None) =~= deleted_is(false));
}

/// Search results are skills from the list, in the list's order.
pub proof fn law_search_within_listing(rows: Seq<SkillRow>, query: Seq<char>, tags: Option<Seq<char>>)
    ensures
        forall|r: SkillRow| #[trigger]
            search_results(rows, query, tags).contains(r) ==> live_skills(rows).contains(r),
{
    assert forall|r: SkillRow| #[trigger]
        search_results(rows, query, tags).contains(r) implies live_skills(rows).contains(r) by {
        lemma_filter_contains_iff(rows, search_filter(query, tags), r);
        lemma_filter_contains_iff(rows, deleted_is(false), r);
    }
}

/// The table of skills.
pub struct SkillTable {
    pub(crate) skills: Vec<Skill>,
}

impl View for SkillTable {
    type V = Seq<SkillRow>;

    closed spec fn view(&self) -> Seq<SkillRow> {
        skill_rows(self.skills@)
    }
}

impl SkillTable {
    /// Well-formed: the rows are in strictly increasing name order.
    pub open spec fn wf(&self) -> bool {
        rows_in_name_order(self@)
    }

    /// An empty table.
    pub fn new() -> (t: SkillTable)
        ensures
            t.wf(),
            t@ == Seq::<SkillRow>::empty(),
    {
        let t = SkillTable { skills: Vec::new() };
        assert(t@ =~= Seq::<SkillRow>::empty());
        t
    }

    /// The skills outside the trash, in name order.
    pub fn list_all(&self) -> (r: Vec<Skill>)
        ensures
            skill_rows(r@) == live_skills(self@),
    {
        self.rows_where_deleted(false)
    }

    /// The skills in the trash, in name order.
    pub fn list_trash(&self) -> (r: Vec<Skill>)
        ensures
            skill_rows(r@) == trashed_skills(self@),
    {
        self.rows_where_deleted(true)
    }

    /// Copies of every row, in name order.
    pub fn all_rows(&self) -> (r: Vec<Skill>)
        ensures
            skill_rows(r@) == self@,
    {
        let mut out: Vec<Skill> = Vec::new();
        let mut i: usize = 0;
        while i < self.skills.len()
            invariant
                0 <= i <= self.skills@.len(),
                skill_rows(out@) == self@.take(i as int),
            decreases self.skills@.len() - i,
        {
            let s = self.skills[i].clone();
            let ghost before = out@;
            out.push(s);
            assert(self@[i as int] == self.skills@[i as int]@);
            assert(skill_rows(out@) =~= skill_rows(before).push(s@));
            assert(self@.take(i + 1) =~= self@.take(i as int).push(self@[i as int]));
            i = i + 1;
        }
        assert(self@.take(self@.len() as int) =~= self@);
        out
    }

    /// The skills outside the trash whose name, description or tags match
    /// `%query%` and, where `tags` is given, whose tags match `%tags%`.
    pub fn search(&self, query: &str, tags: Option<&str>) -> (r: Vec<Skill>)
        ensures
            skill_rows(r@) == search_results(
                self@,
                query@,
                match tags {
                    Some(t) => Some(t@),
                    None => None,
                },
            ),
    {
        let ghost tv = match tags {
            Some(t) => Some(t@),
            None => None,
        };
        let ghost p = search_filter(query@, tv);
        let mut out: Vec<Skill> = Vec::new();
        let mut i: usize = 0;
        while i < self.skills.len()
            invariant
                0 <= i <= self.skills@.len(),
                p == search_filter(query@, tv),
                tv == match tags {
                    Some(t) => Some(t@),
                    None => None::<Seq<char>>,
                },
                skill_rows(out@) == self@.take(i as int).filter(p),
            decreases self.skills@.len() - i,
        {
            proof {
                lemma_filter_take_step(self@, p, i as int);
                assert(self@[i as int] == self.skills@[i as int]@);
            }
            let s = &self.skills[i];
            let text_hit = like_infix(query, s.name.as_str()) || like_infix(
                query,
                s.description.as_str(),
            ) || like_infix(query, s.tags.as_str());
            let tag_hit = match tags {
                Some(t) => like_infix(t, s.tags.as_str()),
                None => true,
            };
            if !s.deleted && text_hit && tag_hit {
                let c = s.clone();
                out.push(c);
                assert(skill_rows(out@) =~= self@.take(i as int).filter(p).push(self@[i as int]));
            }
            i = i + 1;
        }
        assert(self@.take(self@.len() as int) =~= self@);
        out
    }

    /// The skill called `name`, if there is one.
    pub fn get_by_name(&self, name: &str) -> (r: Option<Skill>)
        requires
            self.wf(),
        ensures
            match r {
                Some(s) => skill_named(self@, name@) == Some(s@),
                None => skill_named(self@, name@) is None,
            },
    {
        let key = chars_of(name);
        match self.position_of(&key) {
            Some(i) => {
                proof {
                    lemma_skill_named_at(self@, i as int);
                    assert(self@[i as int] == self.skills@[i as int]@);
                }
                Some(self.skills[i].clone())
            },
            None => None,
        }
    }

    /// Replaces the row at `i` by `s`, which has the same name.
    fn replace_at(&mut self, i: usize, s: Skill)
        requires
            old(self).wf(),
            i < old(self)@.len(),
            s@.name == old(self)@[i as int].name,
        ensures
            final(self).wf(),
            final(self)@ == old(self)@.update(i as int, s@),
    {
        let ghost before = self@;
        self.skills.set(i, s);
        assert(self@ =~= before.update(i as int, s@));
        proof {
            lemma_same_names_sorted(before, self@);
        }
    }

    /// Sets the enabled switch of the skill called `name`; a name that is
    /// not in the table changes nothing.
    pub fn set_enabled(&mut self, name: &str, enabled: bool, now: &str)
        requires
            old(self).wf(),
        ensures
            final(self).wf(),
            final(self)@ == set_enabled_rows(old(self)@, name@, enabled, now@),
    {
        let key = chars_of(name);
        let ghost f = |r: SkillRow| SkillRow { enabled: enabled, updated_at: now@, ..r };
        match self.position_of(&key) {
            Some(i) => {
                proof {
                    lemma_map_named_at(self@, name@, f, i as int);
                    assert(self@[i as int] == self.skills@[i as int]@);
                }
                let mut s = self.skills[i].clone();
                s.enabled = enabled;
                s.updated_at = owned(now);
                self.replace_at(i, s);
            },
            None => {
                proof {
                    lemma_map_named_absent(self@, name@, f);
                }
            },
        }
    }

    /// Moves the skill called `name` into (`deleted`) or out of the trash;
    /// a name that is not in the table changes nothing.
    fn set_deleted(&mut self, name: &str, deleted: bool, now: &str)
        requires
            old(self).wf(),
        ensures
            final(self).wf(),
            final(self)@ == set_deleted_rows(old(self)@, name@, deleted, now@),
    {
        let key = chars_of(name);
        let ghost f = |r: SkillRow| SkillRow { deleted: deleted, updated_at: now@, ..r };
        match self.position_of(&key) {
            Some(i) => {
                proof {
                    lemma_map_named_at(self@, name@, f, i as int);
                    assert(self@[i as int] == self.skills@[i as int]@);
                }
                let mut s = self.skills[i].clone();
                s.deleted = deleted;
                s.updated_at = owned(now);
                self.replace_at(i, s);
            },
            None => {
                proof {
                    lemma_map_named_absent(self@, name@, f);
                }
            },
        }
    }

    /// Moves the skill called `name` into the trash.
    pub fn soft_delete(&mut self, name: &str, now: &str)
        requires
            old(self).wf(),
        ensures
            final(self).wf(),
            final(self)@ == set_deleted_rows(old(self)@, name@, true, now@),
    {
        self.set_deleted(name, true, now)
    }

    /// Takes the skill called `name` out of the trash.
    pub fn restore(&mut self, name: &str, now: &str)
        requires
            old(self).wf(),
        ensures
            final(self).wf(),
            final(self)@ == set_deleted_rows(old(self)@, name@, false, now@),
    {
        self.set_deleted(name, false, now)
    }

    /// Removes the skill called `name` for good.
    pub fn permanent_delete(&mut self, name: &str)
        requires
            old(self).wf(),
        ensures
            final(self).wf(),
            final(self)@ == without_skill(old(self)@, name@),
    {
        let key = chars_of(name);
        match self.position_of(&key) {
            Some(i) => {
                let ghost before = self@;
                proof {
                    lemma_without_at(before, name@, i as int);
                    lemma_remove_sorted(before, i as int);
                }
                let _ = self.skills.remove(i);
                assert(self@ =~= before.remove(i as int));
            },
            None => {
                proof {
                    let p = |r: SkillRow| r.name != name@;
                    assert forall|k: int| 0 <= k < self@.len() implies p(#[trigger] self@[k]) by {}
                    lemma_filter_all(self@, p);
                }
            },
        }
    }

    /// Stores a row as it stands (for instance one read back from disk),
    /// replacing any row of the same name.
    pub fn put(&mut self, s: Skill)
        requires
            old(self).wf(),
        ensures
            final(self).wf(),
            final(self)@ == put_rows(old(self)@, s@),
    {
        let key = chars_of(s.name.as_str());
        let ghost row = s@;
        let ghost f = |r: SkillRow| row;
        match self.position_of(&key) {
            Some(i) => {
                proof {
                    lemma_map_named_at(self@, row.name, f, i as int);
                }
                self.replace_at(i, s);
            },
            None => {
                let k = self.insertion_point(&key);
                let ghost before = self@;
                proof {
                    lemma_insert_by_name_at(before, row, k as int);
                }
                self.skills.insert(k, s);
                assert(self@ =~= before.insert(k as int, row));
            },
        }
    }

    /// Deletes for good the skills outside the trash whose name is not
    /// among `names` (the skills found on disk).
    pub fn retain_found(&mut self, names: &Vec<String>)
        requires
            old(self).wf(),
        ensures
            final(self).wf(),
            final(self)@ == retain_found(old(self)@, crate::text::strings_view(names@)),
    {
        let ghost nv = crate::text::strings_view(names@);
        let ghost p = kept_on_sync(nv);
        let ghost before = self@;
        let mut kept: Vec<Skill> = Vec::new();
        let mut i: usize = 0;
        while i < self.skills.len()
            invariant
                0 <= i <= self.skills@.len(),
                before == self@,
                nv == crate::text::strings_view(names@),
                p == kept_on_sync(nv),
                skill_rows(kept@) == before.take(i as int).filter(p),
            decreases self.skills@.len() - i,
        {
            proof {
                lemma_filter_take_step(before, p, i as int);
                assert(before[i as int] == self.skills@[i as int]@);
            }
            let keep = self.skills[i].deleted || Self::name_listed(self.skills[i].name.as_str(), names);
            if keep {
                let s = self.skills[i].clone();
                let ghost prev = kept@;
                kept.push(s);
                assert(skill_rows(kept@) =~= skill_rows(prev).push(before[i as int]));
            }
            i = i + 1;
        }
        assert(before.take(before.len() as int) =~= before);
        proof {
            lemma_filter_sorted(before, p);
        }
        self.skills = kept;
    }

    /// Whether `name` is among `names`.
    fn name_listed(name: &str, names: &Vec<String>) -> (r: bool)
        ensures
            r == crate::text::strings_view(names@).contains(name@),
    {
        let ghost nv = crate::text::strings_view(names@);
        let mut k: usize = 0;
        while k < names.len()
            invariant
                0 <= k <= names@.len(),
                nv == crate::text::strings_view(names@),
                forall|q: int| 0 <= q < k ==> #[trigger] nv[q] != name@,
            decreases names@.len() - k,
        {
            assert(nv[k as int] == names@[k as int]@);
            if crate::text::str_eq(names[k].as_str(), name) {
                return true;
            }
            k = k + 1;
        }
        false
    }

    /// Registers a skill found on disk (see `upsert_rows`).
    pub fn upsert(
        &mut self,
        name: &str,
        description: &str,
        tags: &str,
        file_path: &str,
        dir_name: &str,
        now: &str,
    )
        requires
            old(self).wf(),
        ensures
            final(self).wf(),
            final(self)@ == upsert_rows(
                old(self)@,
                name@,
                description@,
                tags@,
                file_path@,
                dir_name@,
                now@,
            ),
    {
        let key = chars_of(name);
        let ghost f = |r: SkillRow|
            SkillRow {
                description: description@,
                tags: tags@,
                file_path: file_path@,
                dir_name: dir_name@,
                deleted: false,
                updated_at: now@,
                ..r
            };
        match self.position_of(&key) {
            Some(i) => {
                proof {
                    assert(has_skill(self@, name@));
                    lemma_map_named_at(self@, name@, f, i as int);
                    assert(self@[i as int] == self.skills@[i as int]@);
                }
                let mut s = self.skills[i].clone();
                s.description = owned(description);
                s.tags = owned(tags);
                s.file_path = owned(file_path);
                s.dir_name = owned(dir_name);
                s.deleted = false;
                s.updated_at = owned(now);
                self.replace_at(i, s);
            },
            None => {
                let k = self.insertion_point(&key);
                let s = Skill {
                    name: owned(name),
                    description: owned(description),
                    tags: owned(tags),
                    file_path: owned(file_path),
                    dir_name: owned(dir_name),
                    enabled: true,
                    deleted: false,
                    created_at: owned(now),
                    updated_at: owned(now),
                };
                let ghost before = self@;
                proof {
                    lemma_insert_by_name_at(before, s@, k as int);
                }
                self.skills.insert(k, s);
                assert(self@ =~= before.insert(k as int, s@));
            },
        }
    }

    /// The position of the row called `name`, if any.
    fn position_of(&self, name: &Vec<char>) -> (r: Option<usize>)
        requires
            self.wf(),
        ensures
            match r {
                Some(i) => i < self@.len() && self@[i as int].name == name@,
                None => !has_skill(self@, name@),
            },
    {
        let mut i: usize = 0;
        while i < self.skills.len()
            invariant
                0 <= i <= self.skills@.len(),
                forall|k: int| 0 <= k < i ==> #[trigger] self@[k].name != name@,
            decreases self.skills@.len() - i,
        {
            let candidate = chars_of(self.skills[i].name.as_str());
            if seq_eq(&candidate, name) {
                return Some(i);
            }
            i = i + 1;
        }
        None
    }

    /// The first position whose name does not sort before `name`.
    fn insertion_point(&self, name: &Vec<char>) -> (r: usize)
        requires
            self.wf(),
        ensures
            r <= self@.len(),
            forall|k: int| 0 <= k < r ==> text_lt(#[trigger] self@[k].name, name@),
            r < self@.len() ==> !text_lt(self@[r as int].name, name@),
    {
        let mut i: usize = 0;
        while i < self.skills.len()
            invariant
                0 <= i <= self.skills@.len(),
                forall|k: int| 0 <= k < i ==> text_lt(#[trigger] self@[k].name, name@),
            decreases self.skills@.len() - i,
        {
            let candidate = chars_of(self.skills[i].name.as_str());
            if !seq_lt(&candidate, name) {
                return i;
            }
            i = i + 1;
        }
        i
    }

    /// Copies of the skills outside the trash (`trash == false`) or of
    /// those in it, in table order.
    fn rows_where_deleted(&self, trash: bool) -> (r: Vec<Skill>)
        ensures
            skill_rows(r@) == self@.filter(deleted_is(trash)),
    {
        let ghost p = deleted_is(trash);
        let mut out: Vec<Skill> = Vec::new();
        let mut i: usize = 0;
        while i < self.skills.len()
            invariant
                0 <= i <= self.skills@.len(),
                p == deleted_is(trash),
                skill_rows(out@) == self@.take(i as int).filter(p),
            decreases self.skills@.len() - i,
        {
            proof {
                lemma_filter_take_step(self@, p, i as int);
                assert(self@[i as int] == self.skills@[i as int]@);
            }
            if self.skills[i].deleted == trash {
                let s = self.skills[i].clone();
                let ghost before = out@;
                out.push(s);
                assert(skill_rows(out@) =~= skill_rows(before).push(self@[i as int]));
            }
            i = i + 1;
        }
        assert(self@.take(self@.len() as int) =~= self@);
        out
    }
}

/// A search gives the same skills for two queries that differ only in the
/// case of ASCII letters (`convert` finds `Convert PDF files`).
pub proof fn law_search_ignores_query_case(
    rows: Seq<SkillRow>,
    q: Seq<char>,
    q2: Seq<char>,
    tags: Option<Seq<char>>,
)
    requires
        crate::text::same_but_case(q, q2),
    ensures
        search_results(rows, q, tags) == search_results(rows, q2, tags),
{
    crate::text::lemma_infix_same_but_case(q, q2);
    assert forall|r: SkillRow| #[trigger] search_filter(q, tags)(r) == search_filter(q2, tags)(r) by {
        crate::text::law_like_match_ignores_pattern_case(infix_pattern(q), infix_pattern(q2), r.name);
        crate::text::law_like_match_ignores_pattern_case(infix_pattern(q), infix_pattern(q2), r.description);
        crate::text::law_like_match_ignores_pattern_case(infix_pattern(q), infix_pattern(q2), r.tags);
    }
    assert(search_filter(q, tags) =~= search_filter(q2, tags));
}

} // verus!
