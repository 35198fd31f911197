//! The persisted dependency cache.
//!
//! The file has two sections. `entries` holds items that are not installed,
//! and is dropped for any id that is now installed so disk always owns names.
//! `installedDeps` holds dependency lists for installed mods, which disk
//! cannot provide. In memory there is exactly one record per id.

use vstd::prelude::*;
use crate::json::{
    as_str, get, json_get, json_str, json_strings, object_index, object_map, strings_of, Json,
};
use crate::map::{strictly_sorted, StrMap};
use crate::profiles::copy_strings;
use crate::text::owned;

verus! {

/// An item that is not installed. Name known, dependencies possibly not.
#[derive(Debug, PartialEq, Eq)]
pub struct CacheEntry {
    pub name: String,
    /// None means the name is known but the dependencies are not, which
    /// happens when a child's name is learned from its parent's page.
    pub requires: Option<Vec<String>>,
    /// ISO timestamp of the fetch, empty when only the name is known.
    pub fetched_at: String,
}

/// Dependencies of an installed mod. Its name comes from disk while it is
/// installed, but is recorded here as well so an uninstall can demote the
/// whole record rather than losing the name.
#[derive(Debug, PartialEq, Eq)]
pub struct DepsEntry {
    /// Absent in files that never recorded it. Those records cannot be
    /// demoted, only dropped.
    pub name: Option<String>,
    pub requires: Vec<String>,
    pub fetched_at: String,
}

/// What is known about one id: installed, or not.
#[derive(Debug, PartialEq, Eq)]
pub enum CacheStatus {
    Installed(DepsEntry),
    NotInstalled(CacheEntry),
}

/// A not-installed record as values.
pub struct EntryView {
    pub name: Seq<char>,
    pub requires: Option<Seq<Seq<char>>>,
    pub fetched_at: Seq<char>,
}

/// An installed record as values.
pub struct DepsView {
    pub name: Option<Seq<char>>,
    pub requires: Seq<Seq<char>>,
    pub fetched_at: Seq<char>,
}

/// One record as values.
pub enum StatusView {
    Installed(DepsView),
    NotInstalled(EntryView),
}

/// The text of a list of strings.
pub open spec fn texts(v: Seq<String>) -> Seq<Seq<char>> {
    v.map_values(|s: String| s@)
}

/// The text of an optional string.
pub open spec fn opt_text(v: Option<String>) -> Option<Seq<char>> {
    match v {
        Some(s) => Some(s@),
        None => None,
    }
}

impl CacheEntry {
    pub open spec fn view(&self) -> EntryView {
        EntryView {
            name: self.name@,
            requires: match self.requires {
                Some(r) => Some(texts(r@)),
                None => None,
            },
            fetched_at: self.fetched_at@,
        }
    }

    /// A copy of the record.
    pub fn copy(&self) -> (r: CacheEntry)
        ensures
            r@ == self@,
    {
        CacheEntry {
            name: self.name.clone(),
            requires: match &self.requires {
                Some(r) => Some(copy_strings(r.as_slice())),
                None => None,
            },
            fetched_at: self.fetched_at.clone(),
        }
    }
}

impl DepsEntry {
    pub open spec fn view(&self) -> DepsView {
        DepsView {
            name: opt_text(self.name),
            requires: texts(self.requires@),
            fetched_at: self.fetched_at@,
        }
    }

    /// A copy of the record.
    pub fn copy(&self) -> (r: DepsEntry)
        ensures
            r@ == self@,
    {
        DepsEntry {
            name: match &self.name {
                Some(n) => Some(n.clone()),
                None => None,
            },
            requires: copy_strings(self.requires.as_slice()),
            fetched_at: self.fetched_at.clone(),
        }
    }
}

impl CacheStatus {
    pub open spec fn view(&self) -> StatusView {
        match self {
            CacheStatus::Installed(d) => StatusView::Installed(d@),
            CacheStatus::NotInstalled(e) => StatusView::NotInstalled(e@),
        }
    }

    /// A copy of the record.
    pub fn copy(&self) -> (r: CacheStatus)
        ensures
            r@ == self@,
    {
        match self {
            CacheStatus::Installed(d) => CacheStatus::Installed(d.copy()),
            CacheStatus::NotInstalled(e) => CacheStatus::NotInstalled(e.copy()),
        }
    }
}

/// The cache as held in memory: one record per id, in id order.
#[derive(Debug, PartialEq, Eq)]
pub struct Cache {
    records: StrMap<CacheStatus>,
}

impl Cache {
    /// What is known, id by id.
    pub closed spec fn view(&self) -> Map<Seq<char>, StatusView> {
        Map::new(
            |k: Seq<char>| self.records@.contains_key(k),
            |k: Seq<char>| self.records@[k]@,
        )
    }

    /// The recorded ids, in the order the file lists them.
    pub closed spec fn id_order(&self) -> Seq<Seq<char>> {
        self.records.keys()
    }

    /// An empty cache.
    pub fn new() -> (c: Cache)
        ensures
            c@ == Map::<Seq<char>, StatusView>::empty(),
    {
        let c = Cache { records: StrMap::new() };
        assert(c@ =~= Map::<Seq<char>, StatusView>::empty());
        c
    }

    /// What is known about one id.
    pub fn status(&self, id: &str) -> (r: Option<CacheStatus>)
        ensures
            match r {
                Some(s) => self@.contains_key(id@) && s@ == self@[id@],
                None => !self@.contains_key(id@),
            },
    {
        match self.records.get(id) {
            Some(s) => Some(s.copy()),
            None => None,
        }
    }

    /// Every id currently recorded, in id order.
    pub fn ids(&self) -> (r: Vec<String>)
        ensures
            texts(r@) == self.id_order(),
            texts(r@).no_duplicates(),
            strictly_sorted(texts(r@)),
            forall|k: Seq<char>| #[trigger] self@.contains_key(k) <==> self.id_order().contains(k),
    {
        let r = self.records.key_list();
        let _ = self.records.count();
        r
    }

    /// Record what is known about one id, replacing any earlier record.
    pub fn insert(&mut self, id: String, status: CacheStatus)
        ensures
            final(self)@ == old(self)@.insert(id@, status@),
    {
        let ghost (k, v) = (id@, status@);
        self.records.insert(id, status);
        assert(self@ =~= old(self)@.insert(k, v));
    }

    /// Whether anything is recorded for an id.
    pub fn contains(&self, id: &str) -> (r: bool)
        ensures
            r == self@.contains_key(id@),
    {
        self.records.contains_key(id)
    }
}

impl Default for Cache {
    fn default() -> (c: Cache)
        ensures
            c@ == Map::<Seq<char>, StatusView>::empty(),
    {
        Cache::new()
    }
}

/// The two sections of a cache file, as reading the file's shape into a
/// struct of two maps finds them: an object may omit either section, and a
/// two-element array may give them in order; anything else, or a section
/// that is present but not an object, leaves both empty.
pub open spec fn sections(raw: Json) -> (Seq<(String, Json)>, Seq<(String, Json)>) {
    match section_parts(raw) {
        Some((a, b)) => (a, b),
        None => (Seq::empty(), Seq::empty()),
    }
}

/// One section read as a map of fields: absent is empty, an object is its
/// fields, anything else fails.
pub open spec fn section(v: Option<Json>) -> Option<Seq<(String, Json)>> {
    match v {
        None => Some(Seq::empty()),
        Some(Json::Object(fields)) => Some(fields@),
        _ => None,
    }
}

pub open spec fn section_parts(raw: Json) -> Option<(Seq<(String, Json)>, Seq<(String, Json)>)> {
    match raw {
        Json::Object(_) => match (section(get(raw, "entries"@)), section(get(raw, "installedDeps"@))) {
            (Some(a), Some(b)) => Some((a, b)),
            _ => None,
        },
        Json::Array(items) => if items@.len() > 2 {
            None
        } else {
            let a = if items@.len() > 0 { section(Some(items@[0])) } else { Some(Seq::empty()) };
            let b = if items@.len() > 1 { section(Some(items@[1])) } else { Some(Seq::empty()) };
            match (a, b) {
                (Some(x), Some(y)) => Some((x, y)),
                _ => None,
            }
        },
        _ => None,
    }
}

/// A not-installed record read from one `entries` value: the name must be a
/// string, `requires` absent or null means unknown, an array gives its
/// strings, and anything else makes the record malformed.
pub open spec fn entry_of(v: Json) -> Option<EntryView> {
    match as_str(get(v, "name"@)) {
        None => None,
        Some(name) => {
            let fetched = match as_str(get(v, "fetchedAt"@)) {
                Some(f) => f,
                None => Seq::empty(),
            };
            match get(v, "requires"@) {
                None => Some(EntryView { name, requires: None, fetched_at: fetched }),
                Some(Json::Null) => Some(EntryView { name, requires: None, fetched_at: fetched }),
                Some(Json::Array(items)) => Some(
                    EntryView { name, requires: Some(strings_of(items@)), fetched_at: fetched },
                ),
                _ => None,
            }
        },
    }
}

/// An installed record read from one `installedDeps` value: `requires` must
/// be an array; the name is optional.
pub open spec fn deps_of(v: Json) -> Option<DepsView> {
    match get(v, "requires"@) {
        Some(Json::Array(items)) => Some(
            DepsView {
                name: as_str(get(v, "name"@)),
                requires: strings_of(items@),
                fetched_at: match as_str(get(v, "fetchedAt"@)) {
                    Some(f) => f,
                    None => Seq::empty(),
                },
            },
        ),
        _ => None,
    }
}

/// The id has a well-formed `entries` record and is not installed.
pub open spec fn kept_entry(raw: Json, installed: Set<Seq<char>>, id: Seq<char>) -> bool {
    let em = object_map(sections(raw).0);
    em.contains_key(id) && !installed.contains(id) && entry_of(em[id]) is Some
}

/// The id has a well-formed `installedDeps` record and is installed.
pub open spec fn kept_deps(raw: Json, installed: Set<Seq<char>>, id: Seq<char>) -> bool {
    let dm = object_map(sections(raw).1);
    dm.contains_key(id) && installed.contains(id) && deps_of(dm[id]) is Some
}

/// The id has a named, well-formed `installedDeps` record, is no longer
/// installed, and has no `entries` record of its own.
pub open spec fn demoted(raw: Json, installed: Set<Seq<char>>, id: Seq<char>) -> bool {
    let dm = object_map(sections(raw).1);
    &&& dm.contains_key(id)
    &&& !installed.contains(id)
    &&& !kept_entry(raw, installed, id)
    &&& deps_of(dm[id]) matches Some(d) && d.name is Some
}

/// The record a demoted installed-deps record becomes.
pub open spec fn demote(d: DepsView) -> EntryView {
    EntryView { name: d.name->0, requires: Some(d.requires), fetched_at: d.fetched_at }
}

/// The cache read from a file against the ids now installed.
pub open spec fn spec_merge(raw: Json, installed: Set<Seq<char>>) -> Map<Seq<char>, StatusView> {
    let em = object_map(sections(raw).0);
    let dm = object_map(sections(raw).1);
    Map::new(
        |id: Seq<char>|
            kept_entry(raw, installed, id) || kept_deps(raw, installed, id) || demoted(
                raw,
                installed,
                id,
            ),
        |id: Seq<char>|
            if kept_deps(raw, installed, id) {
                StatusView::Installed(deps_of(dm[id])->0)
            } else if kept_entry(raw, installed, id) {
                StatusView::NotInstalled(entry_of(em[id])->0)
            } else {
                StatusView::NotInstalled(demote(deps_of(dm[id])->0))
            },
    )
}

/// The ids of a list, as a set.
pub open spec fn id_set(ids: Seq<String>) -> Set<Seq<char>> {
    texts(ids).to_set()
}

/// Whether `id` is among `ids`.
pub fn listed_id(ids: &[String], id: &str) -> (r: bool)
    ensures
        r == id_set(ids@).contains(id@),
{
    let mut i: usize = 0;
    while i < ids.len()
        invariant
            i <= ids.len(),
            forall|j: int| 0 <= j < i ==> ids@[j]@ != id@,
        decreases ids.len() - i,
    {
        if crate::text::same(ids[i].as_str(), id) {
            assert(texts(ids@)[i as int] == id@);
            assert(texts(ids@).contains(id@));
            return true;
        }
        i += 1;
    }
    proof {
        if texts(ids@).contains(id@) {
            let j = texts(ids@).index_of(id@);
            assert(texts(ids@)[j] == ids@[j]@);
        }
    }
    false
}

/// A section's fields, with absent meaning none.
pub open spec fn fields_or_empty(f: Option<&Vec<(String, Json)>>) -> Seq<(String, Json)> {
    match f {
        Some(v) => v@,
        None => Seq::empty(),
    }
}

/// One section of the file: whether it could be read, and its fields if any.
fn section_fields(v: Option<&Json>) -> (r: (bool, Option<&Vec<(String, Json)>>))
    ensures
        ({
            let sv = match v {
                Some(x) => Some(*x),
                None => None,
            };
            &&& r.0 == section(sv) is Some
            &&& r.0 ==> section(sv) == Some(fields_or_empty(r.1))
        }),
{
    match v {
        None => (true, None),
        Some(Json::Object(fields)) => (true, Some(fields)),
        _ => (false, None),
    }
}

/// The two sections of a cache file: whether the shape could be read, and
/// each section's fields.
fn file_sections(raw: &Json) -> (r: (bool, Option<&Vec<(String, Json)>>, Option<&Vec<(String, Json)>>))
    ensures
        r.0 == section_parts(*raw) is Some,
        r.0 ==> section_parts(*raw) == Some((fields_or_empty(r.1), fields_or_empty(r.2))),
{
    match raw {
        Json::Object(_) => {
            let (ok_a, a) = section_fields(json_get(raw, "entries"));
            let (ok_b, b) = section_fields(json_get(raw, "installedDeps"));
            (ok_a && ok_b, a, b)
        },
        Json::Array(items) => {
            if items.len() > 2 {
                return (false, None, None);
            }
            let (ok_a, a) = if items.len() > 0 {
                section_fields(Some(&items[0]))
            } else {
                (true, None)
            };
            let (ok_b, b) = if items.len() > 1 {
                section_fields(Some(&items[1]))
            } else {
                (true, None)
            };
            (ok_a && ok_b, a, b)
        },
        _ => (false, None, None),
    }
}

/// The text of an optional string member.
fn text_or_empty(v: Option<&String>) -> (r: String)
    ensures
        r@ == match v {
            Some(s) => s@,
            None => Seq::<char>::empty(),
        },
{
    match v {
        Some(s) => s.clone(),
        None => String::new(),
    }
}

/// A not-installed record read from an `entries` value.
fn read_entry(v: &Json) -> (r: Option<CacheEntry>)
    ensures
        match r {
            Some(e) => entry_of(*v) == Some(e@),
            None => entry_of(*v) is None,
        },
{
    let name = match json_str(json_get(v, "name")) {
        Some(n) => n.clone(),
        None => return None,
    };
    let fetched_at = text_or_empty(json_str(json_get(v, "fetchedAt")));
    match json_get(v, "requires") {
        None => Some(CacheEntry { name, requires: None, fetched_at }),
        Some(Json::Null) => Some(CacheEntry { name, requires: None, fetched_at }),
        Some(Json::Array(items)) => Some(
            CacheEntry { name, requires: Some(json_strings(items)), fetched_at },
        ),
        _ => None,
    }
}

/// An installed record read from an `installedDeps` value.
fn read_deps(v: &Json) -> (r: Option<DepsEntry>)
    ensures
        match r {
            Some(d) => deps_of(*v) == Some(d@),
            None => deps_of(*v) is None,
        },
{
    let items = match json_get(v, "requires") {
        Some(Json::Array(items)) => items,
        _ => return None,
    };
    let name = match json_str(json_get(v, "name")) {
        Some(n) => Some(n.clone()),
        None => None,
    };
    let fetched_at = text_or_empty(json_str(json_get(v, "fetchedAt")));
    Some(DepsEntry { name, requires: json_strings(items), fetched_at })
}

/// Build the in-memory cache from a parsed cache file. Entries for ids that
/// are now installed are dropped, since disk owns those names. Installed
/// dependency lists survive while their mod is installed; once it is not,
/// a named record moves into a not-installed one unless the id already has
/// one, and a nameless record is dropped. Malformed records are skipped
/// rather than failing the whole file.
pub fn merge_cache(raw: &Json, installed_ids: &[String]) -> (cache: Cache)
    ensures
        cache@ == spec_merge(*raw, id_set(installed_ids@)),
{
    let ghost inst = id_set(installed_ids@);
    let (ok, e, d) = file_sections(raw);
    let empty: Vec<(String, Json)> = Vec::new();
    let ents: &Vec<(String, Json)> = if ok {
        match e {
            Some(f) => f,
            None => &empty,
        }
    } else {
        &empty
    };
    let deps: &Vec<(String, Json)> = if ok {
        match d {
            Some(f) => f,
            None => &empty,
        }
    } else {
        &empty
    };
    assert(ents@ == sections(*raw).0);
    assert(deps@ == sections(*raw).1);
    let ghost em_map = object_map(ents@);
    let ghost dm_map = object_map(deps@);

    let mut cache = Cache::new();
    let em = object_index(ents);
    let n = em.count();
    let mut i: usize = 0;
    while i < n
        invariant
            n == em.keys().len(),
            i <= n,
            ents@ == sections(*raw).0,
            em_map == object_map(ents@),
            em.keys().no_duplicates(),
            em@.dom() == em_map.dom(),
            forall|k: Seq<char>| #[trigger] em@.contains_key(k) <==> em.keys().contains(k),
            forall|k: Seq<char>|
                #[trigger] em@.contains_key(k) ==> em@[k] < ents.len() && ents@[em@[k] as int].0@
                    == k && ents@[em@[k] as int].1 == em_map[k],
            inst == id_set(installed_ids@),
            cache@ == Map::new(
                |k: Seq<char>| em.keys().take(i as int).contains(k) && kept_entry(*raw, inst, k),
                |k: Seq<char>| StatusView::NotInstalled(entry_of(em_map[k])->0),
            ),
        decreases n - i,
    {
        let (id, idx) = em.entry(i);
        let ghost k = id@;
        proof {
            assert(em.keys().contains(k));
            assert(em.keys().take(i + 1) =~= em.keys().take(i as int).push(k));
        }
        let v = &ents[*idx].1;
        proof {
            assert(em@.contains_key(k));
            assert(*v == em_map[k]);
            assert(em_map.contains_key(k));
        }
        let ghost before = cache@;
        if !listed_id(installed_ids, id.as_str()) {
            match read_entry(v) {
                Some(entry) => {
                    let ghost ev = entry@;
                    assert(kept_entry(*raw, inst, k));
                    cache.insert(id.clone(), CacheStatus::NotInstalled(entry));
                    assert(cache@ == before.insert(k, StatusView::NotInstalled(entry_of(em_map[k])->0)));
                },
                None => {
                    assert(!kept_entry(*raw, inst, k));
                },
            }
        } else {
            assert(!kept_entry(*raw, inst, k));
        }
        proof {
            let t0 = em.keys().take(i as int);
            let t1 = em.keys().take(i + 1);
            assert forall|x: Seq<char>| t1.contains(x) <==> (t0.contains(x) || x == k) by {
                if t1.contains(x) {
                    let y = t1.index_of(x);
                    if y < i {
                        assert(t0[y] == x);
                    }
                }
                if t0.contains(x) {
                    let y = t0.index_of(x);
                    assert(t1[y] == x);
                }
                if x == k {
                    assert(t1[i as int] == k);
                }
            }
        }
        assert(cache@ =~= Map::new(
            |k: Seq<char>| em.keys().take(i + 1).contains(k) && kept_entry(*raw, inst, k),
            |k: Seq<char>| StatusView::NotInstalled(entry_of(em_map[k])->0),
        ));
        i += 1;
    }
    assert(em.keys().take(n as int) =~= em.keys());
    assert(cache@ =~= Map::new(
        |k: Seq<char>| kept_entry(*raw, inst, k),
        |k: Seq<char>| StatusView::NotInstalled(entry_of(em_map[k])->0),
    ));

    let dm = object_index(deps);
    let m = dm.count();
    let mut j: usize = 0;
    while j < m
        invariant
            m == dm.keys().len(),
            j <= m,
            deps@ == sections(*raw).1,
            em_map == object_map(sections(*raw).0),
            dm_map == object_map(deps@),
            dm.keys().no_duplicates(),
            dm@.dom() == dm_map.dom(),
            forall|k: Seq<char>| #[trigger] dm@.contains_key(k) <==> dm.keys().contains(k),
            forall|k: Seq<char>|
                #[trigger] dm@.contains_key(k) ==> dm@[k] < deps.len() && deps@[dm@[k] as int].0@
                    == k && deps@[dm@[k] as int].1 == dm_map[k],
            inst == id_set(installed_ids@),
            cache@ == Map::new(
                |k: Seq<char>|
                    kept_entry(*raw, inst, k) || (dm.keys().take(j as int).contains(k) && (
                    kept_deps(*raw, inst, k) || demoted(*raw, inst, k))),
                |k: Seq<char>|
                    if kept_deps(*raw, inst, k) {
                        StatusView::Installed(deps_of(dm_map[k])->0)
                    } else if kept_entry(*raw, inst, k) {
                        StatusView::NotInstalled(entry_of(em_map[k])->0)
                    } else {
                        StatusView::NotInstalled(demote(deps_of(dm_map[k])->0))
                    },
            ),
        decreases m - j,
    {
        let (id, idx) = dm.entry(j);
        let ghost k = id@;
        proof {
            assert(dm.keys().contains(k));
            assert(dm.keys().take(j + 1) =~= dm.keys().take(j as int).push(k));
            assert(!dm.keys().take(j as int).contains(k)) by {
                if dm.keys().take(j as int).contains(k) {
                    let x = dm.keys().take(j as int).index_of(k);
                    assert(dm.keys()[x] == dm.keys()[j as int]);
                }
            }
        }
        let v = &deps[*idx].1;
        proof {
            assert(dm@.contains_key(k));
            assert(*v == dm_map[k]);
            assert(dm_map.contains_key(k));
        }
        let ghost before = cache@;
        match read_deps(v) {
            Some(entry) => {
                if listed_id(installed_ids, id.as_str()) {
                    assert(kept_deps(*raw, inst, k));
                    assert(!kept_entry(*raw, inst, k));
                    cache.insert(id.clone(), CacheStatus::Installed(entry));
                } else {
                    assert(!kept_deps(*raw, inst, k));
                    let known = cache.contains(id.as_str());
                    assert(known == kept_entry(*raw, inst, k));
                    match entry.name {
                        Some(name) => {
                            if !known {
                                assert(demoted(*raw, inst, k));
                                let demoted_entry = CacheEntry {
                                    name,
                                    requires: Some(entry.requires),
                                    fetched_at: entry.fetched_at,
                                };
                                assert(demoted_entry@ == demote(deps_of(dm_map[k])->0));
                                cache.insert(id.clone(), CacheStatus::NotInstalled(demoted_entry));
                            } else {
                                assert(!demoted(*raw, inst, k));
                            }
                        },
                        None => {
                            assert(!demoted(*raw, inst, k));
                        },
                    }
                }
            },
            None => {
                assert(!kept_deps(*raw, inst, k));
                assert(!demoted(*raw, inst, k));
            },
        }
        proof {
            let t0 = dm.keys().take(j as int);
            let t1 = dm.keys().take(j + 1);
            assert forall|x: Seq<char>| t1.contains(x) <==> (t0.contains(x) || x == k) by {
                if t1.contains(x) {
                    let y = t1.index_of(x);
                    if y < j {
                        assert(t0[y] == x);
                    }
                }
                if t0.contains(x) {
                    let y = t0.index_of(x);
                    assert(t1[y] == x);
                }
                if x == k {
                    assert(t1[j as int] == k);
                }
            }
        }
        assert(cache@ =~= Map::new(
            |k: Seq<char>|
                kept_entry(*raw, inst, k) || (dm.keys().take(j + 1).contains(k) && (kept_deps(
                    *raw,
                    inst,
                    k,
                ) || demoted(*raw, inst, k))),
            |k: Seq<char>|
                if kept_deps(*raw, inst, k) {
                    StatusView::Installed(deps_of(dm_map[k])->0)
                } else if kept_entry(*raw, inst, k) {
                    StatusView::NotInstalled(entry_of(em_map[k])->0)
                } else {
                    StatusView::NotInstalled(demote(deps_of(dm_map[k])->0))
                },
        ));
        j += 1;
    }
    proof {
        assert(dm.keys().take(m as int) =~= dm.keys());
        assert forall|k: Seq<char>| demoted(*raw, inst, k) || kept_deps(*raw, inst, k) implies dm.keys().contains(k) by {
            assert(dm@.contains_key(k));
        }
    }
    assert(cache@ =~= spec_merge(*raw, inst));
    cache
}

/// `items` holds exactly the strings `strs`, in order.
pub open spec fn strings_written(items: Seq<Json>, strs: Seq<Seq<char>>) -> bool {
    items.len() == strs.len() && forall|i: int|
        0 <= i < items.len() ==> (#[trigger] items[i] matches Json::Str(s) && s@ == strs[i])
}

/// `j` is the object written for a not-installed record: `name`, `requires`
/// (an array, or null when unknown) and `fetchedAt`, in that order.
pub open spec fn entry_written(j: Json, e: EntryView) -> bool {
    &&& j matches Json::Object(f)
    &&& f@.len() == 3
    &&& f@[0].0@ == "name"@
    &&& (f@[0].1 matches Json::Str(n) && n@ == e.name)
    &&& f@[1].0@ == "requires"@ && match e.requires {
        Some(r) => f@[1].1 matches Json::Array(items) && strings_written(items@, r),
        None => f@[1].1 == Json::Null,
    }
    &&& f@[2].0@ == "fetchedAt"@
    &&& (f@[2].1 matches Json::Str(t) && t@ == e.fetched_at)
}

/// `j` is the object written for an installed record: `name` when there is
/// one, then `requires` and `fetchedAt`.
pub open spec fn deps_written(j: Json, d: DepsView) -> bool {
    &&& j matches Json::Object(f)
    &&& match d.name {
        Some(name) => {
            &&& f@.len() == 3
            &&& f@[0].0@ == "name"@
            &&& (f@[0].1 matches Json::Str(n) && n@ == name)
            &&& f@[1].0@ == "requires"@
            &&& (f@[1].1 matches Json::Array(items) && strings_written(items@, d.requires))
            &&& f@[2].0@ == "fetchedAt"@
            &&& (f@[2].1 matches Json::Str(t) && t@ == d.fetched_at)
        },
        None => {
            &&& f@.len() == 2
            &&& f@[0].0@ == "requires"@
            &&& (f@[0].1 matches Json::Array(items) && strings_written(items@, d.requires))
            &&& f@[1].0@ == "fetchedAt"@
            &&& (f@[1].1 matches Json::Str(t) && t@ == d.fetched_at)
        },
    }
}

/// The keys of an object's fields.
pub open spec fn field_keys(f: Seq<(String, Json)>) -> Seq<Seq<char>> {
    f.map_values(|e: (String, Json)| e.0@)
}

/// `f` is a section holding exactly the records of `view` that are
/// installed (`installed`) or not, each once and in the order of their ids,
/// each written as its kind is.
pub open spec fn section_written(view: Map<Seq<char>, StatusView>, f: Seq<(String, Json)>, installed: bool) -> bool {
    &&& field_keys(f).no_duplicates()
    &&& strictly_sorted(field_keys(f))
    &&& forall|k: Seq<char>| #[trigger] field_keys(f).contains(k) <==> (view.contains_key(k) && (
        view[k] is Installed) == installed)
    &&& forall|i: int|
        0 <= i < f.len() ==> match view[(#[trigger] f[i]).0@] {
            StatusView::Installed(d) => deps_written(f[i].1, d),
            StatusView::NotInstalled(e) => entry_written(f[i].1, e),
        }
}

/// `j` is the cache file written for `view`: version 2, then the
/// not-installed records under `entries`, then the installed ones under
/// `installedDeps`.
pub open spec fn cache_written(view: Map<Seq<char>, StatusView>, j: Json) -> bool {
    &&& j matches Json::Object(top)
    &&& top@.len() == 3
    &&& top@[0].0@ == "version"@
    &&& (top@[0].1 matches Json::Number(n) && n@ == "2"@)
    &&& top@[1].0@ == "entries"@
    &&& (top@[1].1 matches Json::Object(ef) && section_written(view, ef@, false))
    &&& top@[2].0@ == "installedDeps"@
    &&& (top@[2].1 matches Json::Object(df) && section_written(view, df@, true))
}

/// A string list written as a JSON array.
fn strings_json(v: &Vec<String>) -> (j: Json)
    ensures
        j matches Json::Array(items) && strings_written(items@, texts(v@)),
{
    let mut items: Vec<Json> = Vec::new();
    let mut i: usize = 0;
    while i < v.len()
        invariant
            i <= v.len(),
            strings_written(items@, texts(v@.take(i as int))),
        decreases v.len() - i,
    {
        items.push(Json::Str(v[i].clone()));
        assert(texts(v@.take(i + 1)) =~= texts(v@.take(i as int)).push(v@[i as int]@));
        i += 1;
    }
    assert(v@.take(i as int) =~= v@);
    Json::Array(items)
}

impl CacheEntry {
    /// The record as it is written to the file.
    pub fn to_json(&self) -> (j: Json)
        ensures
            entry_written(j, self@),
    {
        let req_json = match &self.requires {
            Some(r) => strings_json(r),
            None => Json::Null,
        };
        let mut f: Vec<(String, Json)> = Vec::new();
        f.push((owned("name"), Json::Str(self.name.clone())));
        f.push((owned("requires"), req_json));
        f.push((owned("fetchedAt"), Json::Str(self.fetched_at.clone())));
        Json::Object(f)
    }
}

impl DepsEntry {
    /// The record as it is written to the file; a missing name is left out.
    pub fn to_json(&self) -> (j: Json)
        ensures
            deps_written(j, self@),
    {
        let mut f: Vec<(String, Json)> = Vec::new();
        match &self.name {
            Some(n) => f.push((owned("name"), Json::Str(n.clone()))),
            None => {},
        }
        f.push((owned("requires"), strings_json(&self.requires)));
        f.push((owned("fetchedAt"), Json::Str(self.fetched_at.clone())));
        Json::Object(f)
    }
}

/// Appending the next key of a sorted key list to a sorted list of keys
/// drawn from the ones before it keeps that list sorted.
proof fn lemma_sorted_push(before: Seq<Seq<char>>, keys: Seq<Seq<char>>, i: int)
    requires
        strictly_sorted(before),
        strictly_sorted(keys),
        0 <= i < keys.len(),
        forall|x: Seq<char>| #[trigger] before.contains(x) ==> keys.take(i).contains(x),
    ensures
        strictly_sorted(before.push(keys[i])),
{
    let after = before.push(keys[i]);
    assert forall|a: int, b: int| 0 <= a < b < after.len() implies crate::map::key_lt(
        #[trigger] after[a],
        #[trigger] after[b],
    ) by {
        if b < before.len() {
            assert(after[a] == before[a] && after[b] == before[b]);
        } else {
            assert(before.contains(before[a]));
            let y = keys.take(i).index_of(before[a]);
            assert(keys[y] == before[a]);
        }
    }
}

impl Cache {
    /// The whole cache in the file's shape, the one map split back into the
    /// two sections the file keeps.
    pub fn to_json(&self) -> (j: Json)
        ensures
            cache_written(self@, j),
    {
        let n = self.records.count();
        let mut ef: Vec<(String, Json)> = Vec::new();
        let mut df: Vec<(String, Json)> = Vec::new();
        let ghost keys = self.records.keys();
        let mut i: usize = 0;
        while i < n
            invariant
                i <= n == keys.len(),
                keys == self.records.keys(),
                keys.no_duplicates(),
                forall|k: Seq<char>| #[trigger] self.records@.contains_key(k) <==> keys.contains(k),
                forall|x: int| 0 <= x < n ==> self.records@[#[trigger] keys[x]] == self.records.values()[x],
                field_keys(ef@).no_duplicates(),
                field_keys(df@).no_duplicates(),
                strictly_sorted(keys),
                strictly_sorted(field_keys(ef@)),
                strictly_sorted(field_keys(df@)),
                forall|k: Seq<char>| #[trigger] field_keys(ef@).contains(k) <==> (keys.take(i as int).contains(k)
                    && self@[k] is NotInstalled),
                forall|k: Seq<char>| #[trigger] field_keys(df@).contains(k) <==> (keys.take(i as int).contains(k)
                    && self@[k] is Installed),
                forall|x: int| 0 <= x < ef@.len() ==> match self@[(#[trigger] ef@[x]).0@] {
                    StatusView::Installed(d) => deps_written(ef@[x].1, d),
                    StatusView::NotInstalled(e) => entry_written(ef@[x].1, e),
                },
                forall|x: int| 0 <= x < df@.len() ==> match self@[(#[trigger] df@[x]).0@] {
                    StatusView::Installed(d) => deps_written(df@[x].1, d),
                    StatusView::NotInstalled(e) => entry_written(df@[x].1, e),
                },
            decreases n - i,
        {
            let (id, status) = self.records.entry(i);
            let ghost k = id@;
            let ghost t0 = keys.take(i as int);
            let ghost t1 = keys.take(i + 1);
            let ghost ef0 = field_keys(ef@);
            let ghost df0 = field_keys(df@);
            proof {
                assert(self@[k] == status@);
                assert(!t0.contains(k)) by {
                    if t0.contains(k) {
                        let y = t0.index_of(k);
                        assert(keys[y] == keys[i as int]);
                    }
                }
                assert forall|x: Seq<char>| t1.contains(x) <==> (t0.contains(x) || x == k) by {
                    if t1.contains(x) {
                        let y = t1.index_of(x);
                        if y < i {
                            assert(t0[y] == x);
                        }
                    }
                    if t0.contains(x) {
                        let y = t0.index_of(x);
                        assert(t1[y] == x);
                    }
                    if x == k {
                        assert(t1[i as int] == k);
                    }
                }
            }
            match status {
                CacheStatus::NotInstalled(e) => {
                    assert(self@[k] is NotInstalled);
                    let ghost before = field_keys(ef@);
                    assert(!before.contains(k));
                    proof {
                        lemma_sorted_push(before, keys, i as int);
                    }
                    ef.push((id.clone(), e.to_json()));
                    assert(field_keys(ef@) =~= before.push(k));
                },
                CacheStatus::Installed(d) => {
                    assert(self@[k] is Installed);
                    let ghost before = field_keys(df@);
                    assert(!before.contains(k));
                    proof {
                        lemma_sorted_push(before, keys, i as int);
                    }
                    df.push((id.clone(), d.to_json()));
                    assert(field_keys(df@) =~= before.push(k));
                },
            }
            proof {
                assert forall|x: Seq<char>| #[trigger] field_keys(ef@).contains(x) <==> (t1.contains(x)
                    && self@[x] is NotInstalled) by {
                    if self@[k] is NotInstalled {
                        assert(field_keys(ef@) == ef0.push(k));
                        if field_keys(ef@).contains(x) {
                            let y = field_keys(ef@).index_of(x);
                            if y < ef0.len() {
                                assert(ef0[y] == x);
                            }
                        }
                        if ef0.contains(x) {
                            let y = ef0.index_of(x);
                            assert(field_keys(ef@)[y] == x);
                        }
                        if x == k {
                            assert(field_keys(ef@)[ef0.len() as int] == k);
                        }
                    } else {
                        assert(field_keys(ef@) == ef0);
                    }
                }
                assert forall|x: Seq<char>| #[trigger] field_keys(df@).contains(x) <==> (t1.contains(x)
                    && self@[x] is Installed) by {
                    if self@[k] is Installed {
                        assert(field_keys(df@) == df0.push(k));
                        if field_keys(df@).contains(x) {
                            let y = field_keys(df@).index_of(x);
                            if y < df0.len() {
                                assert(df0[y] == x);
                            }
                        }
                        if df0.contains(x) {
                            let y = df0.index_of(x);
                            assert(field_keys(df@)[y] == x);
                        }
                        if x == k {
                            assert(field_keys(df@)[df0.len() as int] == k);
                        }
                    } else {
                        assert(field_keys(df@) == df0);
                    }
                }
            }
            i += 1;
        }
        proof {
            assert(keys.take(n as int) =~= keys);
        }
        let mut top: Vec<(String, Json)> = Vec::new();
        top.push((owned("version"), Json::Number(owned("2"))));
        top.push((owned("entries"), Json::Object(ef)));
        top.push((owned("installedDeps"), Json::Object(df)));
        Json::Object(top)
    }
}

proof fn lemma_strings_written(items: Seq<Json>, strs: Seq<Seq<char>>)
    requires
        strings_written(items, strs),
    ensures
        strings_of(items) == strs,
    decreases items.len(),
{
    if items.len() > 0 {
        lemma_strings_written(items.drop_last(), strs.drop_last());
        assert(items.last() == items[items.len() - 1]);
        assert(strs =~= strs.drop_last().push(strs.last()));
    }
}

/// With distinct keys, each field is what the object holds under its key.
proof fn lemma_object_map_distinct(f: Seq<(String, Json)>)
    requires
        field_keys(f).no_duplicates(),
    ensures
        forall|i: int|
            0 <= i < f.len() ==> object_map(f).contains_key(#[trigger] f[i].0@) && object_map(f)[f[i].0@]
                == f[i].1,
        forall|k: Seq<char>| #[trigger] object_map(f).contains_key(k) ==> field_keys(f).contains(k),
    decreases f.len(),
{
    if f.len() > 0 {
        let init = f.drop_last();
        assert(field_keys(init) =~= field_keys(f).drop_last());
        lemma_object_map_distinct(init);
        assert forall|i: int| 0 <= i < f.len() implies object_map(f).contains_key(#[trigger] f[i].0@)
            && object_map(f)[f[i].0@] == f[i].1 by {
            if i < f.len() - 1 {
                assert(init[i] == f[i]);
                assert(field_keys(f)[i] != field_keys(f)[f.len() - 1]);
            }
        }
        assert forall|k: Seq<char>| #[trigger] object_map(f).contains_key(k) implies field_keys(f).contains(k) by {
            if k != f.last().0@ {
                assert(object_map(init).contains_key(k));
                let y = field_keys(init).index_of(k);
                assert(field_keys(f)[y] == k);
            } else {
                assert(field_keys(f)[f.len() - 1] == k);
            }
        }
    }
}

/// The keys of the file format differ from one another.
proof fn lemma_field_names_differ()
    ensures
        "name"@ != "requires"@,
        "name"@ != "fetchedAt"@,
        "requires"@ != "fetchedAt"@,
        "version"@ != "entries"@,
        "version"@ != "installedDeps"@,
        "entries"@ != "installedDeps"@,
{
    reveal_strlit("name");
    reveal_strlit("requires");
    reveal_strlit("fetchedAt");
    reveal_strlit("version");
    reveal_strlit("entries");
    reveal_strlit("installedDeps");
    assert("name"@.len() == 4);
    assert("requires"@.len() == 8);
    assert("fetchedAt"@.len() == 9);
    assert("version"@.len() == 7);
    assert("entries"@.len() == 7);
    assert("installedDeps"@.len() == 13);
    assert("version"@[0] != "entries"@[0]);
}

proof fn lemma_entry_written(j: Json, e: EntryView)
    requires
        entry_written(j, e),
    ensures
        entry_of(j) == Some(e),
{
    reveal_strlit("name");
    reveal_strlit("requires");
    reveal_strlit("fetchedAt");
    if let Json::Object(f) = j {
        let fs = f@;
        assert(fs.drop_first()[0] == fs[1]);
        assert(fs.drop_first().drop_first()[0] == fs[2]);
        lemma_field_names_differ();
        reveal_with_fuel(crate::json::field, 4);
        assert(get(j, "name"@) == Some(fs[0].1));
        assert(get(j, "requires"@) == Some(fs[1].1));
        assert(get(j, "fetchedAt"@) == Some(fs[2].1));
        match e.requires {
            Some(r) => {
                if let Json::Array(items) = fs[1].1 {
                    lemma_strings_written(items@, r);
                }
            },
            None => {},
        }
    }
}

proof fn lemma_deps_written(j: Json, d: DepsView)
    requires
        deps_written(j, d),
    ensures
        deps_of(j) == Some(d),
{
    reveal_strlit("name");
    reveal_strlit("requires");
    reveal_strlit("fetchedAt");
    if let Json::Object(f) = j {
        let fs = f@;
        match d.name {
            Some(_) => {
                assert(fs.drop_first()[0] == fs[1]);
                assert(fs.drop_first().drop_first()[0] == fs[2]);
                lemma_field_names_differ();
                reveal_with_fuel(crate::json::field, 4);
                assert(get(j, "name"@) == Some(fs[0].1));
                assert(get(j, "requires"@) == Some(fs[1].1));
                assert(get(j, "fetchedAt"@) == Some(fs[2].1));
                if let Json::Array(items) = fs[1].1 {
                    lemma_strings_written(items@, d.requires);
                }
            },
            None => {
                assert(fs.drop_first()[0] == fs[1]);
                lemma_field_names_differ();
                reveal_with_fuel(crate::json::field, 4);
                assert(fs.drop_first().drop_first().len() == 0);
                assert(get(j, "name"@) is None);
                assert(get(j, "requires"@) == Some(fs[0].1));
                assert(get(j, "fetchedAt"@) == Some(fs[1].1));
                if let Json::Array(items) = fs[0].1 {
                    lemma_strings_written(items@, d.requires);
                }
            },
        }
    }
}

/// Reading back the file written for a cache, against installed ids that
/// agree with it (installed records exactly for installed ids), gives back
/// exactly the same records.
pub proof fn lemma_written_cache_reads_back(
    view: Map<Seq<char>, StatusView>,
    j: Json,
    installed: Set<Seq<char>>,
)
    requires
        cache_written(view, j),
        forall|k: Seq<char>|
            #[trigger] view.contains_key(k) ==> ((view[k] is Installed) == installed.contains(k)),
    ensures
        spec_merge(j, installed) == view,
{
    reveal_strlit("version");
    reveal_strlit("entries");
    reveal_strlit("installedDeps");
    if let Json::Object(top) = j {
        let t = top@;
        assert(t.drop_first()[0] == t[1]);
        assert(t.drop_first().drop_first()[0] == t[2]);
        lemma_field_names_differ();
        reveal_with_fuel(crate::json::field, 4);
        assert(get(j, "entries"@) == Some(t[1].1));
        assert(get(j, "installedDeps"@) == Some(t[2].1));
        if let (Json::Object(ef), Json::Object(df)) = (t[1].1, t[2].1) {
            assert(sections(j) == (ef@, df@));
            lemma_object_map_distinct(ef@);
            lemma_object_map_distinct(df@);
            let em = object_map(ef@);
            let dm = object_map(df@);
            assert forall|k: Seq<char>| #[trigger] spec_merge(j, installed).contains_key(k) <==> view.contains_key(k) by {
                if view.contains_key(k) {
                    if view[k] is Installed {
                        assert(field_keys(df@).contains(k));
                        let y = field_keys(df@).index_of(k);
                        assert(df@[y].0@ == k);
                        lemma_deps_written(df@[y].1, view[k]->Installed_0);
                        assert(kept_deps(j, installed, k));
                    } else {
                        assert(field_keys(ef@).contains(k));
                        let y = field_keys(ef@).index_of(k);
                        assert(ef@[y].0@ == k);
                        lemma_entry_written(ef@[y].1, view[k]->NotInstalled_0);
                        assert(kept_entry(j, installed, k));
                    }
                } else {
                    assert(!field_keys(ef@).contains(k));
                    assert(!field_keys(df@).contains(k));
                }
            }
            assert forall|k: Seq<char>| #[trigger] view.contains_key(k) implies spec_merge(j, installed)[k] == view[k] by {
                if view[k] is Installed {
                    assert(field_keys(df@).contains(k));
                    let y = field_keys(df@).index_of(k);
                    assert(df@[y].0@ == k);
                    lemma_deps_written(df@[y].1, view[k]->Installed_0);
                    assert(kept_deps(j, installed, k));
                } else {
                    assert(field_keys(ef@).contains(k));
                    let y = field_keys(ef@).index_of(k);
                    assert(ef@[y].0@ == k);
                    lemma_entry_written(ef@[y].1, view[k]->NotInstalled_0);
                    assert(!dm.contains_key(k));
                    assert(!kept_deps(j, installed, k));
                    assert(kept_entry(j, installed, k));
                }
            }
            assert(spec_merge(j, installed) =~= view);
        }
    }
}

} // verus!
