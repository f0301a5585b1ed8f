//! The desktop manager's side of the administration API: the address it
//! talks to, what a reply means, and the list of skills it shows when it
//! scans the skills directory itself.
use vstd::prelude::*;

use crate::text::{
    concat3, lemma_text_lt_asymmetric, lemma_text_lt_irreflexive, lemma_text_lt_total,
    lemma_text_lt_transitive, owned, str_eq, str_lt, text_lt,
};
use crate::tools::skill_scanner::{listed_fields, parse_front_matter};

verus! {

broadcast use {vstd::seq_lib::group_seq_properties, vstd::seq::group_seq_axioms};

/// The address of the administration API for a server listening on `addr`.
pub fn init_base_url(addr: &str) -> (r: String)
    ensures
        r@ == "http://"@ + addr@ + "/api/admin"@,
{
    concat3("http://", addr, "/api/admin")
}

/// The content of an address slot.
pub open spec fn slot_view(slot: Option<String>) -> Option<Seq<char>> {
    match slot {
        Some(u) => Some(u@),
        None => None,
    }
}

/// The address an address slot holds after it is set for a server on
/// `addr`: the address it held, where it held one, else the address of
/// the administration API on `addr`.
pub open spec fn base_url_after(slot: Option<Seq<char>>, addr: Seq<char>) -> Seq<char> {
    match slot {
        Some(u) => u,
        None => "http://"@ + addr + "/api/admin"@,
    }
}

/// Sets the address slot of the administration API for a server on
/// `addr`; a slot that is already set keeps its address.
pub fn set_base_url(slot: Option<String>, addr: &str) -> (r: Option<String>)
    ensures
        r matches Some(u) && u@ == base_url_after(slot_view(slot), addr@),
{
    match slot {
        Some(u) => Some(u),
        None => Some(init_base_url(addr)),
    }
}

/// Once the address slot is set, setting it again, for any address, keeps
/// the first address.
pub proof fn law_base_url_set_once(slot: Option<Seq<char>>, first: Seq<char>, second: Seq<char>)
    ensures
        base_url_after(Some(base_url_after(slot, first)), second) == base_url_after(slot, first),
{
}

/// The address of the administration API: the one set up, else the one of
/// a server on its default address.
pub fn base_url(configured: Option<&str>) -> (r: String)
    ensures
        r@ == match configured {
            Some(u) => u@,
            None => "http://127.0.0.1:10882/api/admin"@,
        },
{
    match configured {
        Some(u) => owned(u),
        None => owned("http://127.0.0.1:10882/api/admin"),
    }
}

/// A skill as the desktop manager lists it; `tags` is its tags as stored
/// (a JSON list, or empty).
#[derive(Debug)]
pub struct SkillEntry {
    pub name: String,
    pub description: String,
    pub tags: String,
    pub dir_name: String,
    pub enabled: bool,
}

/// The abstract content of a `SkillEntry`.
pub struct SkillEntryView {
    pub name: Seq<char>,
    pub description: Seq<char>,
    pub tags: Seq<char>,
    pub dir_name: Seq<char>,
    pub enabled: bool,
}

impl View for SkillEntry {
    type V = SkillEntryView;

    open spec fn view(&self) -> SkillEntryView {
        SkillEntryView {
            name: self.name@,
            description: self.description@,
            tags: self.tags@,
            dir_name: self.dir_name@,
            enabled: self.enabled,
        }
    }
}

impl Clone for SkillEntry {
    fn clone(&self) -> (r: Self)
        ensures
            r == *self,
    {
        SkillEntry {
            name: self.name.clone(),
            description: self.description.clone(),
            tags: self.tags.clone(),
            dir_name: self.dir_name.clone(),
            enabled: self.enabled,
        }
    }
}

/// The outcome of an API call that returns no data: success, or the
/// server's message, or `fallback` where it sent none.
pub fn call_outcome(success: bool, message: Option<String>, fallback: &str) -> (r: Result<(), String>)
    ensures
        success ==> r is Ok,
        !success ==> (r matches Err(m) && m@ == match message {
            Some(x) => x@,
            None => fallback@,
        }),
{
    if success {
        Ok(())
    } else {
        match message {
            Some(x) => Err(x),
            None => Err(owned(fallback)),
        }
    }
}

/// The outcome of listing the skills: on success the skills sent (none
/// where the reply has no data), else the server's message, or `未知错误`.
pub fn skills_outcome(success: bool, skills: Option<Vec<SkillEntry>>, message: Option<String>) -> (r: Result<Vec<SkillEntry>, String>)
    ensures
        success ==> (r matches Ok(v) && v@ == match skills {
            Some(s) => s@,
            None => Seq::<SkillEntry>::empty(),
        }),
        !success ==> (r matches Err(m) && m@ == match message {
            Some(x) => x@,
            None => "未知错误"@,
        }),
{
    if success {
        match skills {
            Some(s) => Ok(s),
            None => Ok(Vec::new()),
        }
    } else {
        match message {
            Some(x) => Err(x),
            None => Err(owned("未知错误")),
        }
    }
}

/// Whether a status reply says that the service runs; a reply without
/// data says it does not.
pub fn check_status(running: Option<bool>) -> (r: bool)
    ensures
        r == match running {
            Some(b) => b,
            None => false,
        },
{
    match running {
        Some(b) => b,
        None => false,
    }
}

/// A directory of the skills directory that holds a readable `SKILL.md`.
pub struct LocalSkill {
    pub dir_name: String,
    pub content: String,
}

/// The entry listed for a skill found on disk: named by its front matter,
/// or by its directory where that gives no name; switched on.
pub open spec fn local_entry(d: LocalSkill) -> SkillEntryView {
    let (n, desc, tags) = listed_fields(d.content@);
    SkillEntryView {
        name: if n.len() == 0 {
            d.dir_name@
        } else {
            n
        },
        description: desc,
        tags,
        dir_name: d.dir_name@,
        enabled: true,
    }
}

pub open spec fn entry_views(s: Seq<SkillEntry>) -> Seq<SkillEntryView> {
    s.map_values(|e: SkillEntry| e@)
}

/// Entries in name order (equal names in any order).
pub open spec fn sorted_by_name(s: Seq<SkillEntryView>) -> bool {
    forall|i: int, j: int| 0 <= i < j < s.len() ==> !text_lt(#[trigger] s[j].name, #[trigger] s[i].name)
}

/// `x` placed after the entries of `sorted` whose name is not above its
/// own, and before the others.
pub open spec fn insert_by_name(sorted: Seq<SkillEntryView>, x: SkillEntryView) -> Seq<SkillEntryView> {
    sorted.filter(|y: SkillEntryView| !text_lt(x.name, y.name)) + seq![x] + sorted.filter(
        |y: SkillEntryView| text_lt(x.name, y.name),
    )
}

/// The entries of `s` sorted by name, stably: entries with equal names keep
/// their order.
pub open spec fn by_name(s: Seq<SkillEntryView>) -> Seq<SkillEntryView>
    decreases s.len(),
{
    if s.len() == 0 {
        s
    } else {
        insert_by_name(by_name(s.drop_last()), s.last())
    }
}

proof fn lemma_insert_by_name_at(s: Seq<SkillEntryView>, x: SkillEntryView, k: int)
    requires
        sorted_by_name(s),
        0 <= k <= s.len(),
        forall|j: int| 0 <= j < k ==> !text_lt(x.name, #[trigger] s[j].name),
        k < s.len() ==> text_lt(x.name, s[k].name),
    ensures
        insert_by_name(s, x) == s.insert(k, x),
        sorted_by_name(s.insert(k, x)),
{
    let before = |y: SkillEntryView| !text_lt(x.name, y.name);
    let after = |y: SkillEntryView| text_lt(x.name, y.name);
    assert forall|j: int| k <= j < s.len() implies after(#[trigger] s[j]) by {
        if j > k {
            lemma_text_lt_total(s[k].name, s[j].name);
            if text_lt(s[k].name, s[j].name) {
                lemma_text_lt_transitive(x.name, s[k].name, s[j].name);
            }
        }
    }
    crate::seqs::lemma_filter_prefix(s, before, k);
    crate::seqs::lemma_filter_suffix(s, after, k);
    assert(s.take(k) + seq![x] + s.skip(k) =~= s.insert(k, x));
    let t = s.insert(k, x);
    assert forall|i: int, j: int| 0 <= i < j < t.len() implies !text_lt(#[trigger] t[j].name, #[trigger] t[i].name) by {
        if j < k {
            assert(t[i] == s[i] && t[j] == s[j]);
        } else if j == k {
            assert(t[j] == x && t[i] == s[i]);
        } else if i < k {
            assert(t[i] == s[i] && t[j] == s[j - 1]);
            assert(after(s[j - 1]));
            lemma_text_lt_asymmetric(x.name, s[j - 1].name);
            lemma_text_lt_total(s[i].name, x.name);
            if text_lt(s[j - 1].name, s[i].name) {
                lemma_text_lt_total(x.name, s[i].name);
                if text_lt(x.name, s[i].name) {
                } else if x.name == s[i].name {
                    lemma_text_lt_transitive(x.name, s[j - 1].name, s[i].name);
                    lemma_text_lt_irreflexive(x.name);
                } else {
                    lemma_text_lt_transitive(x.name, s[j - 1].name, s[i].name);
                }
            }
        } else if i == k {
            assert(t[i] == x && t[j] == s[j - 1]);
            assert(after(s[j - 1]));
            lemma_text_lt_asymmetric(x.name, s[j - 1].name);
        } else {
            assert(t[i] == s[i - 1] && t[j] == s[j - 1]);
        }
    }
}

fn name_before(a: &SkillEntry, b: &SkillEntry) -> (r: bool)
    ensures
        r == text_lt(a@.name, b@.name),
{
    str_lt(a.name.as_str(), b.name.as_str())
}

/// The entries sorted by name, stably.
pub fn sort_by_name(items: Vec<SkillEntry>) -> (r: Vec<SkillEntry>)
    ensures
        entry_views(r@) == by_name(entry_views(items@)),
        sorted_by_name(entry_views(r@)),
{
    let ghost orig = entry_views(items@);
    let mut out: Vec<SkillEntry> = Vec::new();
    let mut i: usize = 0;
    while i < items.len()
        invariant
            0 <= i <= items@.len(),
            orig == entry_views(items@),
            entry_views(out@) == by_name(orig.take(i as int)),
            sorted_by_name(entry_views(out@)),
        decreases items@.len() - i,
    {
        let x = items[i].clone();
        let mut k: usize = 0;
        while k < out.len()
            invariant
                0 <= k <= out@.len(),
                forall|j: int| 0 <= j < k ==> !text_lt(x@.name, #[trigger] entry_views(out@)[j].name),
            ensures
                0 <= k <= out@.len(),
                forall|j: int| 0 <= j < k ==> !text_lt(x@.name, #[trigger] entry_views(out@)[j].name),
                k < out@.len() ==> text_lt(x@.name, entry_views(out@)[k as int].name),
            decreases out@.len() - k,
        {
            if name_before(&x, &out[k]) {
                break;
            }
            k = k + 1;
        }
        let ghost sv = entry_views(out@);
        proof {
            lemma_insert_by_name_at(sv, x@, k as int);
            assert(orig.take(i + 1).drop_last() =~= orig.take(i as int));
            assert(orig.take(i + 1).last() == x@);
        }
        out.insert(k, x);
        assert(entry_views(out@) =~= sv.insert(k as int, x@));
        i = i + 1;
    }
    assert(orig.take(items@.len() as int) =~= orig);
    out
}

/// The entries listed for the skills found on disk, in the order found.
pub open spec fn local_entries(found: Seq<LocalSkill>) -> Seq<SkillEntryView> {
    found.map_values(|d: LocalSkill| local_entry(d))
}

/// The position of the last entry of `listed` named `name`.
pub open spec fn last_named(listed: Seq<SkillEntryView>, name: Seq<char>) -> Option<int>
    decreases listed.len(),
{
    if listed.len() == 0 {
        None
    } else if listed.last().name == name {
        Some(listed.len() - 1)
    } else {
        last_named(listed.drop_last(), name)
    }
}

/// `e` switched on or off as the server lists it (the last entry of that
/// name counts); unchanged where the server does not list it.
pub open spec fn with_listed_state(e: SkillEntryView, listed: Seq<SkillEntryView>) -> SkillEntryView {
    match last_named(listed, e.name) {
        Some(k) => SkillEntryView { enabled: listed[k].enabled, ..e },
        None => e,
    }
}

/// The server lists a skill of that name.
pub open spec fn listed_name(listed: Seq<SkillEntryView>) -> spec_fn(SkillEntryView) -> bool {
    |e: SkillEntryView| last_named(listed, e.name) is Some
}

/// What the desktop manager lists when it scans the skills directory: the
/// skills found, by name; each switched on or off as the server's first
/// listing says, where it could be had; and, where a second listing could
/// be had, only the skills that it lists.
pub open spec fn local_listing(
    found: Seq<LocalSkill>,
    listed: Option<Seq<SkillEntryView>>,
    listed_again: Option<Seq<SkillEntryView>>,
) -> Seq<SkillEntryView> {
    let sorted = by_name(local_entries(found));
    let synced = match listed {
        Some(l) => sorted.map_values(|e: SkillEntryView| with_listed_state(e, l)),
        None => sorted,
    };
    match listed_again {
        Some(l) => synced.filter(listed_name(l)),
        None => synced,
    }
}

pub open spec fn opt_entry_views(o: Option<Vec<SkillEntry>>) -> Option<Seq<SkillEntryView>> {
    match o {
        Some(v) => Some(entry_views(v@)),
        None => None,
    }
}

/// The position of the last entry of `listed` named `name`.
fn find_last_named(listed: &Vec<SkillEntry>, name: &str) -> (r: Option<usize>)
    ensures
        match r {
            Some(k) => k < listed@.len() && last_named(entry_views(listed@), name@) == Some(k as int),
            None => last_named(entry_views(listed@), name@) is None,
        },
{
    let ghost all = entry_views(listed@);
    let mut n: usize = listed.len();
    assert(all.take(n as int) =~= all);
    while n > 0
        invariant
            0 <= n <= listed@.len(),
            all == entry_views(listed@),
            last_named(all, name@) == last_named(all.take(n as int), name@),
        decreases n,
    {
        assert(all.take(n as int).last() == all[n - 1]);
        assert(all.take(n as int).drop_last() =~= all.take(n - 1));
        if str_eq(listed[n - 1].name.as_str(), name) {
            return Some(n - 1);
        }
        n = n - 1;
    }
    None
}

/// The entry for a skill found on disk.
fn entry_of(d: &LocalSkill) -> (r: SkillEntry)
    ensures
        r@ == local_entry(*d),
{
    let (n, desc, tags) = parse_front_matter(d.content.as_str());
    let name = if n.as_str().unicode_len() == 0 {
        d.dir_name.clone()
    } else {
        n
    };
    SkillEntry { name, description: desc, tags, dir_name: d.dir_name.clone(), enabled: true }
}

/// The skills the desktop manager lists from its own scan of the skills
/// directory (see `local_listing`).  `found` are the directories holding a
/// readable `SKILL.md`; `listed` and `listed_again` the server's two
/// listings of the skills, where they could be had.
pub fn scan_local_skills_static(
    found: Vec<LocalSkill>,
    listed: Option<Vec<SkillEntry>>,
    listed_again: Option<Vec<SkillEntry>>,
) -> (r: Vec<SkillEntry>)
    ensures
        entry_views(r@) == local_listing(found@, opt_entry_views(listed), opt_entry_views(listed_again)),
{
    let mut entries: Vec<SkillEntry> = Vec::new();
    let mut i: usize = 0;
    while i < found.len()
        invariant
            0 <= i <= found@.len(),
            entries@.len() == i,
            entry_views(entries@) == local_entries(found@.take(i as int)),
        decreases found@.len() - i,
    {
        let e = entry_of(&found[i]);
        let ghost before = entries@;
        entries.push(e);
        proof {
            let t = found@.take(i + 1);
            assert forall|k: int| 0 <= k < t.len() implies #[trigger] entry_views(entries@)[k] == local_entries(t)[k] by {
                if k < i {
                    assert(entry_views(before)[k] == local_entries(found@.take(i as int))[k]);
                }
            }
            assert(entry_views(entries@) =~= local_entries(t));
        }
        i = i + 1;
    }
    assert(found@.take(found@.len() as int) =~= found@);
    let mut skills = sort_by_name(entries);
    let ghost sorted = entry_views(skills@);
    match &listed {
        Some(l) => {
            let ghost lv = entry_views(l@);
            let mut j: usize = 0;
            while j < skills.len()
                invariant
                    0 <= j <= skills@.len(),
                    skills@.len() == sorted.len(),
                    lv == entry_views(l@),
                    forall|k: int| 0 <= k < j ==> #[trigger] entry_views(skills@)[k] == with_listed_state(sorted[k], lv),
                    forall|k: int| j <= k < skills@.len() ==> #[trigger] entry_views(skills@)[k] == sorted[k],
                decreases skills@.len() - j,
            {
                let found_at = find_last_named(l, skills[j].name.as_str());
                match found_at {
                    Some(k) => {
                        let on = l[k].enabled;
                        let mut e = skills[j].clone();
                        e.enabled = on;
                        let ghost before = skills@;
                        assert(lv[k as int] == l@[k as int]@);
                        assert(entry_views(before)[j as int] == sorted[j as int]);
                        skills.set(j, e);
                        proof {
                            assert(e@ == with_listed_state(sorted[j as int], lv));
                            assert forall|q: int| 0 <= q < skills@.len() && q != j implies #[trigger] entry_views(skills@)[q]
                                == entry_views(before)[q] by {}
                        }
                    },
                    None => {
                        assert(entry_views(skills@)[j as int] == sorted[j as int]);
                        assert(with_listed_state(sorted[j as int], lv) == sorted[j as int]);
                    },
                }
                j = j + 1;
            }
            assert(entry_views(skills@) =~= sorted.map_values(|e: SkillEntryView| with_listed_state(e, lv)));
        },
        None => {},
    }
    let ghost synced = entry_views(skills@);
    match &listed_again {
        Some(l) => {
            let ghost p = listed_name(entry_views(l@));
            let mut kept: Vec<SkillEntry> = Vec::new();
            let mut j: usize = 0;
            while j < skills.len()
                invariant
                    0 <= j <= skills@.len(),
                    synced == entry_views(skills@),
                    p == listed_name(entry_views(l@)),
                    entry_views(kept@) == synced.take(j as int).filter(p),
                decreases skills@.len() - j,
            {
                proof {
                    crate::seqs::lemma_filter_take_step(synced, p, j as int);
                }
                let at = find_last_named(l, skills[j].name.as_str());
                if at.is_some() {
                    kept.push(skills[j].clone());
                    assert(entry_views(kept@) =~= synced.take(j as int).filter(p).push(synced[j as int]));
                }
                j = j + 1;
            }
            assert(synced.take(skills@.len() as int) =~= synced);
            kept
        },
        None => skills,
    }
}

/// The first position from `from` on whose name is above `name`, or the
/// length where there is none.
pub open spec fn first_above(s: Seq<SkillEntryView>, name: Seq<char>, from: int) -> int
    decreases s.len() - from,
{
    if from < 0 || from >= s.len() {
        s.len() as int
    } else if text_lt(name, s[from].name) {
        from
    } else {
        first_above(s, name, from + 1)
    }
}

proof fn lemma_first_above(s: Seq<SkillEntryView>, name: Seq<char>, from: int)
    requires
        0 <= from <= s.len(),
        forall|j: int| 0 <= j < from ==> !text_lt(name, #[trigger] s[j].name),
    ensures
        from <= first_above(s, name, from) <= s.len(),
        forall|j: int| 0 <= j < first_above(s, name, from) ==> !text_lt(name, #[trigger] s[j].name),
        first_above(s, name, from) < s.len() ==> text_lt(name, s[first_above(s, name, from)].name),
    decreases s.len() - from,
{
    if from < s.len() && !text_lt(name, s[from].name) {
        lemma_first_above(s, name, from + 1);
    }
}

/// Sorting by name gives entries in name order.
pub proof fn law_by_name_is_sorted(s: Seq<SkillEntryView>)
    ensures
        sorted_by_name(by_name(s)),
        by_name(s).len() == s.len(),
    decreases s.len(),
{
    if s.len() > 0 {
        let p = by_name(s.drop_last());
        let x = s.last();
        law_by_name_is_sorted(s.drop_last());
        lemma_first_above(p, x.name, 0);
        lemma_insert_by_name_at(p, x, first_above(p, x.name, 0));
    }
}

proof fn lemma_filter_keeps_name_order(s: Seq<SkillEntryView>, keep: spec_fn(SkillEntryView) -> bool)
    requires
        sorted_by_name(s),
    ensures
        sorted_by_name(s.filter(keep)),
    decreases s.len(),
{
    reveal(Seq::filter);
    if s.len() > 0 {
        let init = s.drop_last();
        assert(sorted_by_name(init)) by {
            assert forall|i: int, j: int| 0 <= i < j < init.len() implies !text_lt(#[trigger] init[j].name, #[trigger] init[i].name) by {
                assert(init[i] == s[i] && init[j] == s[j]);
            }
        }
        lemma_filter_keeps_name_order(init, keep);
        let f = init.filter(keep);
        if keep(s.last()) {
            let g = f.push(s.last());
            assert(s.filter(keep) == g);
            assert forall|i: int, j: int| 0 <= i < j < g.len() implies !text_lt(#[trigger] g[j].name, #[trigger] g[i].name) by {
                if j == g.len() - 1 {
                    assert(f.contains(g[i]));
                    crate::seqs::lemma_filter_contains_iff(init, keep, g[i]);
                    let m = choose|m: int| 0 <= m < init.len() && init[m] == g[i];
                    assert(s[m] == g[i]);
                    assert(g[j] == s[s.len() - 1]);
                } else {
                    assert(g[i] == f[i] && g[j] == f[j]);
                }
            }
        }
    }
}

/// The desktop manager's own listing is in name order.
pub proof fn law_local_listing_sorted(
    found: Seq<LocalSkill>,
    listed: Option<Seq<SkillEntryView>>,
    listed_again: Option<Seq<SkillEntryView>>,
)
    ensures
        sorted_by_name(local_listing(found, listed, listed_again)),
{
    let sorted = by_name(local_entries(found));
    law_by_name_is_sorted(local_entries(found));
    let synced = match listed {
        Some(l) => sorted.map_values(|e: SkillEntryView| with_listed_state(e, l)),
        None => sorted,
    };
    assert(sorted_by_name(synced)) by {
        if let Some(l) = listed {
            assert forall|i: int, j: int| 0 <= i < j < synced.len() implies !text_lt(#[trigger] synced[j].name, #[trigger] synced[i].name) by {
                assert(synced[i].name == sorted[i].name && synced[j].name == sorted[j].name);
            }
        }
    }
    if let Some(l) = listed_again {
        lemma_filter_keeps_name_order(synced, listed_name(l));
    }
}

} // verus!
