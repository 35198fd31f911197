//! The state of the desktop interface, and every change a message makes to
//! it.
//!
//! Nothing here draws. The interface hands each message to `UiState::update`,
//! performs the effect it asks for (a request to the operation set, a file
//! dialog, a confirmation) and hands the outcome back as the next message.

use vstd::prelude::*;
use crate::cache::texts;
use crate::launch::{join_strings, join_with, LaunchOptions};
use crate::map::StrMap;
use crate::profiles::{Profile, Profiles};
use crate::resolve::{Resolved, ResolvedView, Source};
use crate::service::{Snapshot, WalkSummary};
use crate::session::{Event, Launched};
use crate::find::{matches_at, occurs_at};
use crate::text::{concat, decimal, decimal_string, owned, push_all};

verus! {

/// One startup parameter. The header carries the two platform switches, the
/// body carries the command-line flags.
#[derive(Debug, Clone, Copy, PartialEq, Eq)]
pub enum Flag {
    NoSplash,
    SkipIntro,
    EmptyWorld,
    IntelMode,
    SteamOverlay,
}

/// What a flag puts on the command line, or what it does when it puts
/// nothing there.
pub open spec fn flag_label(flag: Flag) -> Seq<char> {
    match flag {
        Flag::NoSplash => "-noSplash"@,
        Flag::SkipIntro => "-skipIntro"@,
        Flag::EmptyWorld => "-world=empty"@,
        Flag::IntelMode => "Intel Mode"@,
        Flag::SteamOverlay => "Steam Overlay"@,
    }
}

/// Whether a flag is on in a set of options.
pub open spec fn flag_value(flag: Flag, options: LaunchOptions) -> bool {
    match flag {
        Flag::NoSplash => options.no_splash,
        Flag::SkipIntro => options.skip_intro,
        Flag::EmptyWorld => options.empty_world,
        Flag::IntelMode => options.intel_mode,
        Flag::SteamOverlay => options.steam_overlay,
    }
}

/// A set of options with one flag changed.
pub open spec fn with_flag(flag: Flag, options: LaunchOptions, value: bool) -> LaunchOptions {
    match flag {
        Flag::NoSplash => LaunchOptions { no_splash: value, ..options },
        Flag::SkipIntro => LaunchOptions { skip_intro: value, ..options },
        Flag::EmptyWorld => LaunchOptions { empty_world: value, ..options },
        Flag::IntelMode => LaunchOptions { intel_mode: value, ..options },
        Flag::SteamOverlay => LaunchOptions { steam_overlay: value, ..options },
    }
}

impl Flag {
    /// What the flag puts on the command line, or what it does.
    pub fn label(self) -> (r: &'static str)
        ensures
            r@ == flag_label(self),
    {
        match self {
            Flag::NoSplash => "-noSplash",
            Flag::SkipIntro => "-skipIntro",
            Flag::EmptyWorld => "-world=empty",
            Flag::IntelMode => "Intel Mode",
            Flag::SteamOverlay => "Steam Overlay",
        }
    }

    /// Whether the flag is on.
    pub fn get(self, options: &LaunchOptions) -> (r: bool)
        ensures
            r == flag_value(self, *options),
    {
        match self {
            Flag::NoSplash => options.no_splash,
            Flag::SkipIntro => options.skip_intro,
            Flag::EmptyWorld => options.empty_world,
            Flag::IntelMode => options.intel_mode,
            Flag::SteamOverlay => options.steam_overlay,
        }
    }

    /// Turn the flag on or off.
    pub fn set(self, options: &mut LaunchOptions, value: bool)
        ensures
            *final(options) == with_flag(self, *old(options), value),
    {
        match self {
            Flag::NoSplash => options.no_splash = value,
            Flag::SkipIntro => options.skip_intro = value,
            Flag::EmptyWorld => options.empty_world = value,
            Flag::IntelMode => options.intel_mode = value,
            Flag::SteamOverlay => options.steam_overlay = value,
        }
    }
}

/// Which screen is showing.
#[derive(Debug, Clone, Copy, PartialEq, Eq, Structural)]
pub enum Screen {
    Launch,
    Profiles,
}

/// What a mod's row has to say about itself.
#[derive(Debug, Clone, Copy, PartialEq, Eq, Structural)]
pub enum Status {
    Pending,
    Failed,
    Unknown,
    Ready,
    Unmet,
    /// Nothing worth saying: unselected, with requirements already known.
    Quiet,
}

/// What the interface knows and shows.
pub struct UiState {
    /// Installed mods, in the order the snapshot listed them.
    pub mod_ids: Vec<String>,
    /// Everything known about any id, installed or merely referenced.
    pub items: StrMap<Resolved>,
    /// Which mods to launch with. Order comes from `mod_ids`, not from here.
    pub selected: StrMap<()>,
    /// Ids with a lookup in flight, so a second click cannot pile on.
    pub busy: StrMap<()>,
    /// Last failure per id, cleared when that id is retried.
    pub errors: StrMap<String>,
    /// Startup parameters, handed to the core on launch.
    pub options: LaunchOptions,
    /// Per-mod replacement directories, keyed by workshop id.
    pub overrides: StrMap<String>,
    pub show_preview: bool,
    pub api_available: bool,
    pub load_error: String,
    pub rescanning: bool,
    pub rescan_note: String,
    pub walking: bool,
    pub walk_note: String,
    /// The status line.
    pub status: String,
    pub pid: Option<u32>,
    /// Comes from the session's events, so an exit nobody asked for lands.
    pub running: bool,
    pub launch_error: String,
    pub screen: Screen,
    pub store: Profiles,
    pub profile_name: String,
    pub profile_error: String,
    /// What the last applied profile did.
    pub apply_note: String,
}

/// The interface state as values.
pub struct UiView {
    pub mod_ids: Seq<Seq<char>>,
    pub items: Map<Seq<char>, ResolvedView>,
    pub selected: Set<Seq<char>>,
    pub busy: Set<Seq<char>>,
    pub errors: Map<Seq<char>, Seq<char>>,
    pub options: LaunchOptions,
    pub overrides: Map<Seq<char>, Seq<char>>,
    pub show_preview: bool,
    pub api_available: bool,
    pub load_error: Seq<char>,
    pub rescanning: bool,
    pub rescan_note: Seq<char>,
    pub walking: bool,
    pub walk_note: Seq<char>,
    pub status: Seq<char>,
    pub pid: Option<u32>,
    pub running: bool,
    pub launch_error: Seq<char>,
    pub screen: Screen,
    pub store: Profiles,
    pub profile_name: Seq<char>,
    pub profile_error: Seq<char>,
    pub apply_note: Seq<char>,
}

/// A map of strings as text.
pub open spec fn texts_of(m: StrMap<String>) -> Map<Seq<char>, Seq<char>> {
    Map::new(|k: Seq<char>| m@.contains_key(k), |k: Seq<char>| m@[k]@)
}

impl UiState {
    pub open spec fn view(&self) -> UiView {
        UiView {
            mod_ids: texts(self.mod_ids@),
            items: self.items@.map_values(|r: Resolved| r@),
            selected: self.selected@.dom(),
            busy: self.busy@.dom(),
            errors: texts_of(self.errors),
            options: self.options,
            overrides: texts_of(self.overrides),
            show_preview: self.show_preview,
            api_available: self.api_available,
            load_error: self.load_error@,
            rescanning: self.rescanning,
            rescan_note: self.rescan_note@,
            walking: self.walking,
            walk_note: self.walk_note@,
            status: self.status@,
            pid: self.pid,
            running: self.running,
            launch_error: self.launch_error@,
            screen: self.screen,
            store: self.store,
            profile_name: self.profile_name@,
            profile_error: self.profile_error@,
            apply_note: self.apply_note@,
        }
    }

    /// The state at startup: nothing loaded, nothing selected, idle.
    pub fn new() -> (s: UiState)
        ensures
            s@.mod_ids.len() == 0,
            s@.items == Map::<Seq<char>, ResolvedView>::empty(),
            s@.selected == Set::<Seq<char>>::empty(),
            s@.busy == Set::<Seq<char>>::empty(),
            s@.errors == Map::<Seq<char>, Seq<char>>::empty(),
            s@.overrides == Map::<Seq<char>, Seq<char>>::empty(),
            s@.options == (LaunchOptions {
                no_splash: false,
                skip_intro: false,
                empty_world: false,
                intel_mode: false,
                steam_overlay: false,
            }),
            s@.status == "idle"@,
            s@.screen == Screen::Launch,
            !s@.running && s@.pid is None,
            !s@.show_preview && !s@.api_available && !s@.rescanning && !s@.walking,
            s@.store.last_launch is None && s@.store.profiles@.len() == 0,
            s@.load_error.len() == 0 && s@.rescan_note.len() == 0 && s@.walk_note.len() == 0,
            s@.launch_error.len() == 0 && s@.profile_name.len() == 0,
            s@.profile_error.len() == 0 && s@.apply_note.len() == 0,
    {
        let s = UiState {
            mod_ids: Vec::new(),
            items: StrMap::new(),
            selected: StrMap::new(),
            busy: StrMap::new(),
            errors: StrMap::new(),
            options: LaunchOptions::default(),
            overrides: StrMap::new(),
            show_preview: false,
            api_available: false,
            load_error: String::new(),
            rescanning: false,
            rescan_note: String::new(),
            walking: false,
            walk_note: String::new(),
            status: owned("idle"),
            pid: None,
            running: false,
            launch_error: String::new(),
            screen: Screen::Launch,
            store: Profiles::new(),
            profile_name: String::new(),
            profile_error: String::new(),
            apply_note: String::new(),
        };
        assert(s@.errors =~= Map::<Seq<char>, Seq<char>>::empty());
        assert(s@.items =~= Map::<Seq<char>, ResolvedView>::empty());
        assert(s@.overrides =~= Map::<Seq<char>, Seq<char>>::empty());
        assert(s@.selected =~= Set::<Seq<char>>::empty());
        assert(s@.busy =~= Set::<Seq<char>>::empty());
        s
    }
}

/// The ids among `ids` that are in `chosen`, in order.
pub open spec fn picked(ids: Seq<Seq<char>>, chosen: Set<Seq<char>>) -> Seq<Seq<char>>
    decreases ids.len(),
{
    if ids.len() == 0 {
        Seq::empty()
    } else if chosen.contains(ids.last()) {
        picked(ids.drop_last(), chosen).push(ids.last())
    } else {
        picked(ids.drop_last(), chosen)
    }
}

/// What is known about an id, claiming nothing unresolved.
pub open spec fn known_item(items: Map<Seq<char>, ResolvedView>, id: Seq<char>) -> ResolvedView {
    if items.contains_key(id) {
        items[id]
    } else {
        ResolvedView {
            id,
            name: None,
            installed: false,
            requires: None,
            source: Source::Unknown,
            fetched_at: Seq::empty(),
        }
    }
}

impl UiState {
    /// The selection in `mod_ids` order, which is the order `-mod=` gets.
    /// An id left over from an uninstalled mod is not part of it.
    pub fn selected_ids(&self) -> (r: Vec<String>)
        ensures
            texts(r@) == picked(self@.mod_ids, self@.selected),
    {
        let mut r: Vec<String> = Vec::new();
        let mut i: usize = 0;
        while i < self.mod_ids.len()
            invariant
                i <= self.mod_ids.len(),
                texts(r@) == picked(texts(self.mod_ids@.take(i as int)), self@.selected),
            decreases self.mod_ids.len() - i,
        {
            assert(texts(self.mod_ids@.take(i + 1)).drop_last() =~= texts(self.mod_ids@.take(i as int)));
            assert(texts(self.mod_ids@.take(i + 1)).last() == self.mod_ids@[i as int]@);
            if self.selected.contains_key(self.mod_ids[i].as_str()) {
                let ghost before = r@;
                r.push(self.mod_ids[i].clone());
                assert(texts(r@) =~= texts(before).push(self.mod_ids@[i as int]@));
            }
            i += 1;
        }
        assert(self.mod_ids@.take(self.mod_ids.len() as int) =~= self.mod_ids@);
        r
    }

    /// How many installed mods are selected.
    pub fn selected_count(&self) -> (n: usize)
        ensures
            n == picked(self@.mod_ids, self@.selected).len(),
    {
        self.selected_ids().len()
    }

    /// Current knowledge about an id, without claiming anything unresolved.
    pub fn item(&self, id: &str) -> (r: Resolved)
        ensures
            r@ == known_item(self@.items, id@),
    {
        match self.items.get(id) {
            Some(found) => found.copy(),
            None => Resolved {
                id: owned(id),
                name: None,
                installed: false,
                requires: None,
                source: Source::Unknown,
                fetched_at: String::new(),
            },
        }
    }
}

/// The command-line flags a set of options turns on, in order.
pub open spec fn flag_words(o: LaunchOptions) -> Seq<Seq<char>> {
    let a: Seq<Seq<char>> = if o.no_splash { seq![flag_label(Flag::NoSplash)] } else { Seq::empty() };
    let b: Seq<Seq<char>> = if o.skip_intro { seq![flag_label(Flag::SkipIntro)] } else { Seq::empty() };
    let c: Seq<Seq<char>> = if o.empty_world { seq![flag_label(Flag::EmptyWorld)] } else { Seq::empty() };
    a + b + c
}

/// One-line summary of a saved launch: how many mods, then the flags it
/// turns on, if any.
pub open spec fn summary_text(n: nat, o: LaunchOptions) -> Seq<char> {
    let words = flag_words(o);
    if words.len() == 0 {
        decimal(n) + " mod(s)"@
    } else {
        decimal(n) + " mod(s), "@ + join_with(words, " "@)
    }
}

/// One-line summary of a saved launch.
pub fn describe(ids: &[String], options: &LaunchOptions) -> (r: String)
    ensures
        r@ == summary_text(ids@.len() as nat, *options),
{
    let mut words: Vec<String> = Vec::new();
    if options.no_splash {
        words.push(owned(Flag::NoSplash.label()));
    }
    if options.skip_intro {
        words.push(owned(Flag::SkipIntro.label()));
    }
    if options.empty_world {
        words.push(owned(Flag::EmptyWorld.label()));
    }
    assert(texts(words@) =~= flag_words(*options));
    let count = decimal_string(ids.len() as u64);
    if words.len() == 0 {
        concat(count.as_str(), " mod(s)")
    } else {
        let head = concat(count.as_str(), " mod(s), ");
        let tail = join_strings(&words, " ");
        concat(head.as_str(), tail.as_str())
    }
}

/// The name shown for an item: its own, or its id.
pub open spec fn shown_name(item: ResolvedView, id: Seq<char>) -> Seq<char> {
    match item.name {
        Some(n) => n,
        None => id,
    }
}

/// The line for one requirement that will not be loaded.
pub open spec fn unmet_line(parent_name: Seq<char>, child: ResolvedView, child_id: Seq<char>) -> Seq<char> {
    parent_name + " requires "@ + shown_name(child, child_id) + ", "@ + if child.installed {
        "installed but not selected"@
    } else {
        "not installed"@
    }
}

/// The lines for the requirements of one mod that are not selected.
pub open spec fn child_lines(v: UiView, parent_name: Seq<char>, reqs: Seq<Seq<char>>) -> Seq<Seq<char>>
    decreases reqs.len(),
{
    if reqs.len() == 0 {
        Seq::empty()
    } else {
        let rest = child_lines(v, parent_name, reqs.drop_last());
        let c = reqs.last();
        if v.selected.contains(c) {
            rest
        } else {
            rest.push(unmet_line(parent_name, known_item(v.items, c), c))
        }
    }
}

/// The lines for every requirement of the given mods that will not be
/// loaded, mods whose requirements are unknown saying nothing.
pub open spec fn unmet_lines(v: UiView, ids: Seq<Seq<char>>) -> Seq<Seq<char>>
    decreases ids.len(),
{
    if ids.len() == 0 {
        Seq::empty()
    } else {
        let rest = unmet_lines(v, ids.drop_last());
        let p = ids.last();
        let parent = known_item(v.items, p);
        match parent.requires {
            None => rest,
            Some(r) => rest + child_lines(v, shown_name(parent, p), r),
        }
    }
}

/// The lines a mod contributes: when its requirements are known, one line
/// per requirement that is not selected, in the order it lists them.
pub open spec fn requirement_lines(v: UiView, p: Seq<char>) -> Seq<Seq<char>> {
    let parent = known_item(v.items, p);
    match parent.requires {
        None => Seq::empty(),
        Some(r) => r.filter(|c: Seq<char>| !v.selected.contains(c)).map_values(
            |c: Seq<char>| unmet_line(shown_name(parent, p), known_item(v.items, c), c),
        ),
    }
}

/// The requirements of an id as far as they are known; none when unknown.
pub open spec fn known_reqs(v: UiView, p: Seq<char>) -> Seq<Seq<char>> {
    match known_item(v.items, p).requires {
        Some(r) => r,
        None => Seq::empty(),
    }
}

/// A mod's lines are its unselected requirements, each described once, in
/// its own order.
pub proof fn lemma_child_lines(v: UiView, parent_name: Seq<char>, reqs: Seq<Seq<char>>)
    ensures
        child_lines(v, parent_name, reqs) == reqs.filter(|c: Seq<char>| !v.selected.contains(c)).map_values(
            |c: Seq<char>| unmet_line(parent_name, known_item(v.items, c), c),
        ),
    decreases reqs.len(),
{
    let pred = |c: Seq<char>| !v.selected.contains(c);
    let f = |c: Seq<char>| unmet_line(parent_name, known_item(v.items, c), c);
    if reqs.len() == 0 {
        assert(reqs.filter(pred) =~= Seq::<Seq<char>>::empty()) by {
            reveal(Seq::filter);
        }
        assert(reqs.filter(pred).map_values(f) =~= Seq::<Seq<char>>::empty());
    } else {
        let init = reqs.drop_last();
        let c = reqs.last();
        lemma_child_lines(v, parent_name, init);
        assert(reqs =~= init.push(c));
        init.lemma_filter_push(c, pred);
        if pred(c) {
            assert(init.filter(pred).push(c).map_values(f) =~= init.filter(pred).map_values(f).push(f(c)));
        }
    }
}

/// The unmet requirements of a list of mods are every mod's lines, mod by
/// mod in list order, each mod's lines whatever the other mods contribute.
pub proof fn lemma_unmet_lines(v: UiView, ids: Seq<Seq<char>>)
    ensures
        unmet_lines(v, ids) == ids.map_values(|p: Seq<char>| requirement_lines(v, p)).flatten(),
        forall|i: int, j: int|
            0 <= i < ids.len() && known_item(v.items, ids[i]).requires is Some && 0 <= j < known_reqs(
                v,
                ids[i],
            ).len() && !v.selected.contains(#[trigger] known_reqs(v, ids[i])[j]) ==> unmet_lines(
                v,
                ids,
            ).contains(
                unmet_line(
                    shown_name(known_item(v.items, ids[i]), ids[i]),
                    known_item(v.items, known_reqs(v, ids[i])[j]),
                    known_reqs(v, ids[i])[j],
                ),
            ),
    decreases ids.len(),
{
    let g = |p: Seq<char>| requirement_lines(v, p);
    let all = ids.map_values(g);
    all.lemma_flatten_and_flatten_alt_are_equivalent();
    if ids.len() == 0 {
        assert(all.flatten_alt() =~= Seq::<Seq<char>>::empty());
    } else {
        let init = ids.drop_last();
        let p = ids.last();
        lemma_unmet_lines(v, init);
        init.map_values(g).lemma_flatten_and_flatten_alt_are_equivalent();
        assert(all.drop_last() =~= init.map_values(g));
        assert(all.last() == requirement_lines(v, p));
        let parent = known_item(v.items, p);
        match parent.requires {
            None => {
                assert(unmet_lines(v, ids) == unmet_lines(v, init));
                assert(unmet_lines(v, init) + Seq::<Seq<char>>::empty() =~= unmet_lines(v, init));
            },
            Some(r) => {
                lemma_child_lines(v, shown_name(parent, p), r);
            },
        }
        let whole = unmet_lines(v, ids);
        let rest = unmet_lines(v, init);
        assert forall|i: int, j: int|
            0 <= i < ids.len() && known_item(v.items, ids[i]).requires is Some && 0 <= j < known_reqs(
                v,
                ids[i],
            ).len() && !v.selected.contains(#[trigger] known_reqs(v, ids[i])[j]) implies whole.contains(
                unmet_line(
                    shown_name(known_item(v.items, ids[i]), ids[i]),
                    known_item(v.items, known_reqs(v, ids[i])[j]),
                    known_reqs(v, ids[i])[j],
                ),
            ) by {
            let r = known_reqs(v, ids[i]);
            let line = unmet_line(shown_name(known_item(v.items, ids[i]), ids[i]), known_item(v.items, r[j]), r[j]);
            if i < init.len() {
                assert(init[i] == ids[i]);
                assert(rest.contains(line));
                let k = rest.index_of(line);
                assert(whole[k] == line);
            } else {
                assert(ids[i] == p);
                let pred = |c: Seq<char>| !v.selected.contains(c);
                let f = |c: Seq<char>| unmet_line(shown_name(parent, p), known_item(v.items, c), c);
                r.filter_lemma(pred);
                assert(r.filter(pred).contains(r[j]));
                let k = r.filter(pred).index_of(r[j]);
                let mine = r.filter(pred).map_values(f);
                assert(mine[k] == line);
                assert(whole == rest + mine);
                assert(whole[rest.len() + k] == line);
            }
        }
    }
}

/// What one row reports. The first match wins: a lookup in flight outranks
/// a stale failure, a failure outranks not knowing, and whether a launch will
/// work is only said of a selected mod.
pub open spec fn row_status(v: UiView, id: Seq<char>) -> Status {
    let item = known_item(v.items, id);
    if v.busy.contains(id) {
        Status::Pending
    } else if v.errors.contains_key(id) {
        Status::Failed
    } else if item.requires is None {
        Status::Unknown
    } else if !v.selected.contains(id) {
        Status::Quiet
    } else if forall|i: int| 0 <= i < item.requires->0.len() ==> v.selected.contains(#[trigger] item.requires->0[i]) {
        Status::Ready
    } else {
        Status::Unmet
    }
}

impl UiState {
    /// Requirements of the selected mods that will not be loaded as things
    /// stand. Only what has been resolved is reported: an unresolved mod
    /// says nothing rather than claiming it has no requirements.
    pub fn unmet(&self) -> (r: Vec<String>)
        ensures
            texts(r@) == unmet_lines(self@, picked(self@.mod_ids, self@.selected)),
            texts(r@) == picked(self@.mod_ids, self@.selected).map_values(
                |p: Seq<char>| requirement_lines(self@, p),
            ).flatten(),
    {
        proof {
            lemma_unmet_lines(self@, picked(self@.mod_ids, self@.selected));
        }
        let ids = self.selected_ids();
        let ghost all = texts(ids@);
        let mut list: Vec<String> = Vec::new();
        let mut i: usize = 0;
        while i < ids.len()
            invariant
                i <= ids.len(),
                all == texts(ids@),
                texts(list@) == unmet_lines(self@, all.take(i as int)),
            decreases ids.len() - i,
        {
            let id = &ids[i];
            assert(all.take(i + 1).drop_last() =~= all.take(i as int));
            assert(all.take(i + 1).last() == id@);
            let parent = self.item(id.as_str());
            match &parent.requires {
                None => {},
                Some(reqs) => {
                    let parent_name = match &parent.name {
                        Some(n) => n.clone(),
                        None => id.clone(),
                    };
                    let ghost base = list@;
                    let ghost rv = texts(reqs@);
                    let mut j: usize = 0;
                    while j < reqs.len()
                        invariant
                            j <= reqs.len(),
                            rv == texts(reqs@),
                            texts(list@) == texts(base) + child_lines(self@, parent_name@, rv.take(j as int)),
                        decreases reqs.len() - j,
                    {
                        let c = &reqs[j];
                        assert(rv.take(j + 1).drop_last() =~= rv.take(j as int));
                        assert(rv.take(j + 1).last() == c@);
                        if !self.selected.contains_key(c.as_str()) {
                            let child = self.item(c.as_str());
                            let cname = match &child.name {
                                Some(n) => n.clone(),
                                None => c.clone(),
                            };
                            let mut line = concat(parent_name.as_str(), " requires ");
                            push_all(&mut line, cname.as_str());
                            push_all(&mut line, ", ");
                            if child.installed {
                                push_all(&mut line, "installed but not selected");
                            } else {
                                push_all(&mut line, "not installed");
                            }
                            let ghost before = list@;
                            let ghost lv = line@;
                            list.push(line);
                            assert(texts(list@) =~= texts(before).push(lv));
                        }
                        j += 1;
                    }
                    assert(rv.take(reqs.len() as int) =~= rv);
                },
            }
            i += 1;
        }
        assert(all.take(ids.len() as int) =~= all);
        list
    }

    /// What one row reports.
    pub fn status_of(&self, id: &str) -> (r: Status)
        ensures
            r == row_status(self@, id@),
    {
        if self.busy.contains_key(id) {
            return Status::Pending;
        }
        if self.errors.contains_key(id) {
            assert(self@.errors.contains_key(id@));
            return Status::Failed;
        }
        proof {
            assert(!self@.errors.contains_key(id@));
        }
        let item = self.item(id);
        let reqs = match &item.requires {
            None => {
                return Status::Unknown;
            },
            Some(r) => r,
        };
        if !self.selected.contains_key(id) {
            return Status::Quiet;
        }
        let mut k: usize = 0;
        while k < reqs.len()
            invariant
                k <= reqs.len(),
                forall|j: int| 0 <= j < k ==> self@.selected.contains(#[trigger] reqs@[j]@),
                !self@.busy.contains(id@),
                !self@.errors.contains_key(id@),
                self@.selected.contains(id@),
                item@ == known_item(self@.items, id@),
                item@.requires == Some(texts(reqs@)),
            decreases reqs.len() - k,
        {
            if !self.selected.contains_key(reqs[k].as_str()) {
                assert(texts(reqs@)[k as int] == reqs@[k as int]@);
                return Status::Unmet;
            }
            k += 1;
        }
        proof {
            assert forall|i: int| 0 <= i < texts(reqs@).len() implies self@.selected.contains(
                #[trigger] texts(reqs@)[i],
            ) by {
                assert(texts(reqs@)[i] == reqs@[i]@);
            }
        }
        Status::Ready
    }
}

/// A number in decimal, with a minus sign when it is negative.
pub open spec fn signed_decimal(n: int) -> Seq<char> {
    if n < 0 {
        seq!['-'] + decimal((-n) as nat)
    } else {
        decimal(n as nat)
    }
}

fn signed_decimal_string(n: i32) -> (r: String)
    ensures
        r@ == signed_decimal(n as int),
{
    proof {
        reveal_strlit("-");
    }
    if n < 0 {
        let m: i64 = -(n as i64);
        let digits = decimal_string(m as u64);
        concat("-", digits.as_str())
    } else {
        decimal_string(n as u64)
    }
}

/// The status line after an event. A stop or an exit puts a running line
/// back to idle; anything else said stays until the next event says more.
pub open spec fn event_status(status: Seq<char>, e: Event) -> Seq<char> {
    match e {
        Event::State { running, pid } => if !running && occurs_at(status, "running"@, 0) {
            "idle"@
        } else {
            status
        },
        Event::Linked { removed, created } => "linked "@ + decimal(created as nat) + " mod(s), removed "@
            + decimal(removed as nat) + " stale link(s)"@,
        Event::Spawned { pid } => "running as pid "@ + decimal(pid as nat),
        Event::Exited { code } => match code {
            Some(c) => "exited with code "@ + signed_decimal(c as int),
            None => "exited with code none"@,
        },
        Event::Error { message } => "error: "@ + message@,
    }
}

/// The status line after an event.
fn event_line(status: &str, event: &Event) -> (r: String)
    ensures
        r@ == event_status(status@, *event),
{
    match event {
        Event::State { running, pid: _ } => {
            let chars = crate::text::chars_of(status);
            let word = crate::text::chars_of("running");
            if !*running && matches_at(&chars, &word, 0) {
                owned("idle")
            } else {
                owned(status)
            }
        },
        Event::Linked { removed, created } => {
            let mut line = concat("linked ", decimal_string(*created as u64).as_str());
            push_all(&mut line, " mod(s), removed ");
            push_all(&mut line, decimal_string(*removed as u64).as_str());
            push_all(&mut line, " stale link(s)");
            line
        },
        Event::Spawned { pid } => concat("running as pid ", decimal_string(*pid as u64).as_str()),
        Event::Exited { code } => match code {
            Some(c) => concat("exited with code ", signed_decimal_string(*c).as_str()),
            None => owned("exited with code none"),
        },
        Event::Error { message } => concat("error: ", message.as_str()),
    }
}

/// The state after an event from the running game.
pub open spec fn after_event(v: UiView, e: Event) -> UiView {
    match e {
        Event::State { running, pid } => UiView { running, pid, status: event_status(v.status, e), ..v },
        _ => UiView { status: event_status(v.status, e), ..v },
    }
}

/// `items` with each of `list` recorded under its id, a later one winning.
pub open spec fn with_items(items: Map<Seq<char>, ResolvedView>, list: Seq<Resolved>) -> Map<Seq<char>, ResolvedView>
    decreases list.len(),
{
    if list.len() == 0 {
        items
    } else {
        with_items(items, list.drop_last()).insert(list.last().id@, list.last()@)
    }
}

/// The ids of a list of answers.
pub open spec fn ids_of(list: Seq<Resolved>) -> Seq<Seq<char>> {
    list.map_values(|r: Resolved| r.id@)
}

/// The state after a snapshot is folded in: the installed mods as listed,
/// and every item it names recorded, referenced ones alongside installed
/// ones, so a dependency that is not installed can still be named.
pub open spec fn absorbed(v: UiView, snap: Snapshot) -> UiView {
    UiView {
        mod_ids: ids_of(snap.mods@),
        api_available: snap.api_available,
        items: with_items(with_items(v.items, snap.mods@), snap.referenced@),
        ..v
    }
}

/// The state after a rescan's snapshot replaces what is known: anything no
/// longer installed drops out of the selection, and the items are rebuilt
/// rather than added to.
pub open spec fn resynced(v: UiView, snap: Snapshot) -> UiView {
    let fresh = UiView {
        selected: v.selected.filter(|id: Seq<char>| ids_of(snap.mods@).contains(id)),
        items: Map::empty(),
        ..v
    };
    absorbed(fresh, snap)
}

/// After a rescan only installed mods stay selected: every selected id is
/// one of the mods the snapshot lists, and those are the mods shown.
pub proof fn lemma_rescan_keeps_only_installed(v: UiView, snap: Snapshot)
    ensures
        resynced(v, snap).mod_ids == ids_of(snap.mods@),
        forall|id: Seq<char>| #[trigger] resynced(v, snap).selected.contains(id) ==> ids_of(snap.mods@).contains(id)
            && v.selected.contains(id),
{
}

/// The first saved profile with a name, if any.
pub open spec fn profile_index(profiles: Seq<Profile>, name: Seq<char>) -> Option<int>
    decreases profiles.len(),
{
    if profiles.len() == 0 {
        None
    } else {
        match profile_index(profiles.drop_last(), name) {
            Some(i) => Some(i),
            None => if profiles.last().name@ == name {
                Some(profiles.len() - 1)
            } else {
                None
            },
        }
    }
}

/// The ids of `ids` that are among `installed`, and those that are not, each
/// in order.
pub open spec fn split_installed(ids: Seq<Seq<char>>, installed: Seq<Seq<char>>) -> (Seq<Seq<char>>, Seq<Seq<char>>)
    decreases ids.len(),
{
    if ids.len() == 0 {
        (Seq::empty(), Seq::empty())
    } else {
        let (a, b) = split_installed(ids.drop_last(), installed);
        if installed.contains(ids.last()) {
            (a.push(ids.last()), b)
        } else {
            (a, b.push(ids.last()))
        }
    }
}

/// The note shown after a profile is applied.
pub open spec fn applied_note(name: Seq<char>, missing: Seq<Seq<char>>) -> Seq<char> {
    if missing.len() == 0 {
        "Loaded \""@ + name + "\"."@
    } else {
        "Loaded \""@ + name + "\". Not installed, skipped: "@ + join_with(missing, ", "@)
    }
}

/// The state after the profile at `i` is applied: what it selects that is
/// still installed is selected, what is not is named in the note, its
/// options and overrides take over, and the launch screen shows. The saved
/// profile is left alone.
pub open spec fn applied(v: UiView, p: Profile) -> UiView {
    let (known, missing) = split_installed(texts(p.ids@), v.mod_ids);
    UiView {
        selected: known.to_set(),
        options: p.options,
        overrides: texts_of(p.overrides),
        apply_note: applied_note(p.name@, missing),
        screen: Screen::Launch,
        ..v
    }
}

impl UiState {
    /// Take in an event from the running game.
    pub fn absorb_event(&mut self, event: Event)
        ensures
            final(self)@ == after_event(old(self)@, event),
    {
        let line = event_line(self.status.as_str(), &event);
        self.status = line;
        match event {
            Event::State { running, pid } => {
                self.running = running;
                self.pid = pid;
            },
            _ => {},
        }
    }

    fn record_items(&mut self, list: &Vec<Resolved>)
        ensures
            final(self)@ == (UiView { items: with_items(old(self)@.items, list@), ..old(self)@ }),
    {
        let mut i: usize = 0;
        while i < list.len()
            invariant
                i <= list.len(),
                self@ == (UiView { items: with_items(old(self)@.items, list@.take(i as int)), ..old(self)@ }),
            decreases list.len() - i,
        {
            assert(list@.take(i + 1).drop_last() =~= list@.take(i as int));
            assert(list@.take(i + 1).last() == list@[i as int]);
            let ghost before = self.items@;
            self.items.insert(list[i].id.clone(), list[i].copy());
            assert(self.items@.map_values(|r: Resolved| r@) =~= before.map_values(|r: Resolved| r@).insert(
                list@[i as int].id@,
                list@[i as int]@,
            ));
            i += 1;
        }
        assert(list@.take(list.len() as int) =~= list@);
    }

    /// Fold a snapshot in.
    pub fn absorb_snapshot(&mut self, snapshot: Snapshot)
        ensures
            final(self)@ == absorbed(old(self)@, snapshot),
    {
        let mut ids: Vec<String> = Vec::new();
        let mut i: usize = 0;
        while i < snapshot.mods.len()
            invariant
                i <= snapshot.mods.len(),
                texts(ids@) == ids_of(snapshot.mods@.take(i as int)),
            decreases snapshot.mods.len() - i,
        {
            let ghost before = ids@;
            ids.push(snapshot.mods[i].id.clone());
            assert(texts(ids@) =~= texts(before).push(snapshot.mods@[i as int].id@));
            assert(ids_of(snapshot.mods@.take(i + 1)) =~= ids_of(snapshot.mods@.take(i as int)).push(
                snapshot.mods@[i as int].id@,
            ));
            i += 1;
        }
        assert(snapshot.mods@.take(snapshot.mods.len() as int) =~= snapshot.mods@);
        self.mod_ids = ids;
        self.api_available = snapshot.api_available;
        self.record_items(&snapshot.mods);
        self.record_items(&snapshot.referenced);
    }

    /// Replace what is known with a rescan's snapshot.
    pub fn resync(&mut self, snapshot: Snapshot)
        ensures
            final(self)@ == resynced(old(self)@, snapshot),
    {
        let ghost keep = ids_of(snapshot.mods@);
        let mut kept: StrMap<()> = StrMap::new();
        let mut i: usize = 0;
        while i < snapshot.mods.len()
            invariant
                i <= snapshot.mods.len(),
                keep == ids_of(snapshot.mods@),
                kept@.dom() == self@.selected.filter(|id: Seq<char>| keep.take(i as int).contains(id)),
            decreases snapshot.mods.len() - i,
        {
            let id = &snapshot.mods[i].id;
            assert(keep[i as int] == id@);
            if self.selected.contains_key(id.as_str()) {
                kept.insert(id.clone(), ());
            }
            proof {
                assert forall|x: Seq<char>| #[trigger] keep.take(i + 1).contains(x) <==> (keep.take(
                    i as int,
                ).contains(x) || x == keep[i as int]) by {
                    if keep.take(i + 1).contains(x) {
                        let y = keep.take(i + 1).index_of(x);
                        if y < i {
                            assert(keep.take(i as int)[y] == x);
                        }
                    }
                    if keep.take(i as int).contains(x) {
                        let y = keep.take(i as int).index_of(x);
                        assert(keep.take(i + 1)[y] == x);
                    }
                    if x == keep[i as int] {
                        assert(keep.take(i + 1)[i as int] == x);
                    }
                }
            }
            assert(kept@.dom() =~= self@.selected.filter(|id: Seq<char>| keep.take(i + 1).contains(id)));
            i += 1;
        }
        assert(keep.take(snapshot.mods.len() as int) =~= keep);
        self.selected = kept;
        self.items = StrMap::new();
        assert(self@.items =~= Map::<Seq<char>, ResolvedView>::empty());
        self.absorb_snapshot(snapshot);
    }

    /// Apply the first saved profile called `name`, if there is one; says
    /// whether there was.
    pub fn apply_profile(&mut self, name: &str) -> (found: bool)
        ensures
            match profile_index(old(self)@.store.profiles@, name@) {
                Some(i) => found && final(self)@ == applied(old(self)@, old(self)@.store.profiles@[i]),
                None => !found && final(self)@ == old(self)@,
            },
    {
        let ghost profiles = self.store.profiles@;
        let mut k: usize = 0;
        while k < self.store.profiles.len() && !crate::text::same(self.store.profiles[k].name.as_str(), name)
            invariant
                k <= self.store.profiles.len(),
                profiles == self.store.profiles@,
                self@ == old(self)@,
                profile_index(profiles.take(k as int), name@) is None,
            decreases self.store.profiles.len() - k,
        {
            assert(profiles.take(k + 1).drop_last() =~= profiles.take(k as int));
            assert(profiles.take(k + 1).last() == profiles[k as int]);
            k += 1;
        }
        if k == self.store.profiles.len() {
            assert(profiles.take(k as int) =~= profiles);
            return false;
        }
        proof {
            lemma_profile_index_first(profiles, name@, k as int);
        }
        let p = self.store.profiles[k].copy();
        let ghost mods = texts(self.mod_ids@);
        let ghost pids = texts(p.ids@);
        let mut known: StrMap<()> = StrMap::new();
        let mut missing: Vec<String> = Vec::new();
        let mut j: usize = 0;
        while j < p.ids.len()
            invariant
                j <= p.ids.len(),
                pids == texts(p.ids@),
                mods == texts(self.mod_ids@),
                known@.dom() == split_installed(pids.take(j as int), mods).0.to_set(),
                texts(missing@) == split_installed(pids.take(j as int), mods).1,
            decreases p.ids.len() - j,
        {
            let id = &p.ids[j];
            assert(pids.take(j + 1).drop_last() =~= pids.take(j as int));
            assert(pids.take(j + 1).last() == id@);
            let ghost (a, b) = split_installed(pids.take(j as int), mods);
            if crate::cache::listed_id(self.mod_ids.as_slice(), id.as_str()) {
                assert(crate::cache::id_set(self.mod_ids@) == mods.to_set());
                known.insert(id.clone(), ());
                proof {
                    a.lemma_push_to_set_commute(id@);
                }
                assert(known@.dom() =~= a.push(id@).to_set());
            } else {
                assert(crate::cache::id_set(self.mod_ids@) == mods.to_set());
                let ghost before = missing@;
                missing.push(id.clone());
                assert(texts(missing@) =~= texts(before).push(id@));
            }
            j += 1;
        }
        assert(pids.take(p.ids.len() as int) =~= pids);
        let note = if missing.len() == 0 {
            let a = concat("Loaded \"", p.name.as_str());
            concat(a.as_str(), "\".")
        } else {
            let a = concat("Loaded \"", p.name.as_str());
            let b = concat(a.as_str(), "\". Not installed, skipped: ");
            let c = join_strings(&missing, ", ");
            concat(b.as_str(), c.as_str())
        };
        self.selected = known;
        self.options = p.options;
        self.overrides = p.overrides.copy();
        self.apply_note = note;
        self.screen = Screen::Launch;
        proof {
            assert(texts_of(self.overrides) =~= texts_of(p.overrides));
        }
        assert(self@ =~= applied(old(self)@, old(self)@.store.profiles@[k as int]));
        true
    }
}

proof fn lemma_profile_index_first(profiles: Seq<Profile>, name: Seq<char>, k: int)
    requires
        0 <= k < profiles.len(),
        profile_index(profiles.take(k), name) is None,
        profiles[k].name@ == name,
    ensures
        profile_index(profiles, name) == Some(k),
    decreases profiles.len(),
{
    if k < profiles.len() - 1 {
        let init = profiles.drop_last();
        assert(init.take(k) =~= profiles.take(k));
        assert(init[k] == profiles[k]);
        lemma_profile_index_first(init, name, k);
    } else {
        assert(profiles.drop_last() =~= profiles.take(k));
    }
}

/// Everything that can happen to the interface.
#[derive(Debug)]
pub enum UiMessage {
    Loaded(Snapshot),
    Toggled(String, bool),
    Flagged(Flag, bool),
    /// Ask about one id. `true` re-fetches something already known.
    Resolve(String, bool),
    Resolved(String, Result<Resolved, String>),
    TogglePreview,
    Launch,
    Launched(Result<Launched, String>),
    Stop,
    Stopped(Result<(), String>),
    Recheck,
    ResetCache,
    ResetConfirmed(bool),
    /// A rescan replaces what is known rather than adding to it, so it is
    /// kept apart from `Loaded`. Carries the note to show alongside it.
    Rescanned(Snapshot, String),
    Walk,
    Walked(Result<WalkSummary, String>),
    PickOverride(String),
    OverridePicked(String, Option<String>),
    ClearOverride(String),
    Show(Screen),
    ProfileName(String),
    SaveProfile,
    DeleteProfile(String),
    ApplyProfile(String),
    /// List and delete answer with the whole store.
    Stored(Result<Profiles, String>),
    /// Save answers the same way, kept apart because only a save that went
    /// through clears the name field.
    Saved(Result<Profiles, String>),
    Session(Event),
}

/// What the interface has to do after a message.
#[derive(Debug)]
pub enum Effect {
    Nothing,
    /// Take a fresh snapshot.
    Reload,
    /// Link the mods in and start the game.
    Launch(Vec<String>, LaunchOptions, StrMap<String>),
    Stop,
    /// Rescan the workshop directory.
    Rescan,
    /// Ask whether to discard every cached lookup.
    ConfirmReset,
    ResetCache,
    /// Walk the Steam Web API.
    Walk,
    /// Ask for a directory to use in place of the workshop copy.
    PickOverride(String),
    ListProfiles,
    SaveProfile(String),
    DeleteProfile(String),
    Resolve(String, bool),
}

/// What a message asks for: whether the launch plan is to be rebuilt from
/// the new state, and the effect to carry out.
#[derive(Debug)]
pub struct UiStep {
    pub replan: bool,
    pub effect: Effect,
}

/// The note after a walk went through.
pub open spec fn walk_note_text(s: WalkSummary) -> Seq<char> {
    "Resolved "@ + decimal(s.resolved as nat) + " items in "@ + decimal(s.calls as nat) + " API call(s)."@
}

/// The state after a message.
pub open spec fn next_view(v: UiView, m: UiMessage) -> UiView {
    match m {
        UiMessage::Loaded(snap) => absorbed(v, snap),
        UiMessage::Toggled(id, checked) => UiView {
            selected: if checked { v.selected.insert(id@) } else { v.selected.remove(id@) },
            ..v
        },
        UiMessage::Flagged(flag, value) => UiView { options: with_flag(flag, v.options, value), ..v },
        UiMessage::TogglePreview => UiView { show_preview: !v.show_preview, ..v },
        UiMessage::Launch => UiView { launch_error: Seq::empty(), ..v },
        UiMessage::Stop => UiView { launch_error: Seq::empty(), ..v },
        UiMessage::Launched(r) => match r {
            Err(e) => UiView { launch_error: e@, ..v },
            Ok(_) => v,
        },
        UiMessage::Stopped(r) => match r {
            Err(e) => UiView { launch_error: e@, ..v },
            Ok(_) => v,
        },
        UiMessage::Recheck => UiView { rescanning: true, rescan_note: Seq::empty(), ..v },
        UiMessage::ResetCache => v,
        UiMessage::ResetConfirmed(yes) => if yes {
            UiView { rescanning: true, rescan_note: Seq::empty(), ..v }
        } else {
            v
        },
        UiMessage::Rescanned(snap, note) => resynced(
            UiView { rescanning: false, rescan_note: note@, ..v },
            snap,
        ),
        UiMessage::Walk => UiView { walking: true, walk_note: Seq::empty(), ..v },
        UiMessage::Walked(r) => match r {
            Ok(summary) => UiView { walking: false, walk_note: walk_note_text(summary), ..v },
            Err(e) => UiView { walking: false, walk_note: e@, ..v },
        },
        UiMessage::PickOverride(_) => v,
        UiMessage::OverridePicked(id, path) => match path {
            Some(p) => UiView { overrides: v.overrides.insert(id@, p@), ..v },
            None => v,
        },
        UiMessage::ClearOverride(id) => UiView { overrides: v.overrides.remove(id@), ..v },
        UiMessage::Show(screen) => if screen == Screen::Profiles {
            UiView { screen, profile_error: Seq::empty(), ..v }
        } else {
            UiView { screen, ..v }
        },
        UiMessage::ProfileName(name) => UiView { profile_name: name@, ..v },
        UiMessage::SaveProfile => UiView { profile_error: Seq::empty(), ..v },
        UiMessage::DeleteProfile(_) => UiView { profile_error: Seq::empty(), ..v },
        UiMessage::Saved(r) => match r {
            Ok(store) => UiView { profile_name: Seq::empty(), store, ..v },
            Err(e) => UiView { profile_error: e@, ..v },
        },
        UiMessage::Stored(r) => match r {
            Ok(store) => UiView { store, ..v },
            Err(e) => UiView { profile_error: e@, ..v },
        },
        UiMessage::ApplyProfile(name) => match profile_index(v.store.profiles@, name@) {
            Some(i) => applied(v, v.store.profiles@[i]),
            None => v,
        },
        UiMessage::Resolve(id, _) => UiView { busy: v.busy.insert(id@), errors: v.errors.remove(id@), ..v },
        UiMessage::Resolved(id, r) => match r {
            Ok(item) => UiView { busy: v.busy.remove(id@), items: v.items.insert(item.id@, item@), ..v },
            Err(e) => UiView { busy: v.busy.remove(id@), errors: v.errors.insert(id@, e@), ..v },
        },
        UiMessage::Session(event) => after_event(v, event),
    }
}

/// Whether a message changes what the launch plan is built from.
pub open spec fn replans(v: UiView, m: UiMessage) -> bool {
    match m {
        UiMessage::Loaded(_) => true,
        UiMessage::Toggled(_, _) => true,
        UiMessage::Flagged(_, _) => true,
        UiMessage::Rescanned(_, _) => true,
        UiMessage::OverridePicked(_, path) => path is Some,
        UiMessage::ClearOverride(_) => true,
        UiMessage::ApplyProfile(name) => profile_index(v.store.profiles@, name@) is Some,
        _ => false,
    }
}

/// The effect a message asks for, given the state it arrived in.
pub open spec fn effect_for(v: UiView, m: UiMessage, e: Effect) -> bool {
    match m {
        UiMessage::Launch => e matches Effect::Launch(ids, o, ov) && texts(ids@) == picked(
            v.mod_ids,
            v.selected,
        ) && o == v.options && texts_of(ov) == v.overrides,
        UiMessage::Stop => e is Stop,
        UiMessage::Recheck => e is Rescan,
        UiMessage::ResetCache => e is ConfirmReset,
        UiMessage::ResetConfirmed(yes) => if yes {
            e is ResetCache
        } else {
            e is Nothing
        },
        UiMessage::Walk => e is Walk,
        UiMessage::Walked(r) => if r is Ok {
            e is Reload
        } else {
            e is Nothing
        },
        UiMessage::PickOverride(id) => e matches Effect::PickOverride(x) && x@ == id@,
        UiMessage::Show(screen) => if screen == Screen::Profiles {
            e is ListProfiles
        } else {
            e is Nothing
        },
        UiMessage::SaveProfile => e matches Effect::SaveProfile(n) && n@ == v.profile_name,
        UiMessage::DeleteProfile(name) => e matches Effect::DeleteProfile(n) && n@ == name@,
        UiMessage::Resolve(id, refresh) => e matches Effect::Resolve(x, r) && x@ == id@ && r == refresh,
        UiMessage::Resolved(_, r) => if r is Ok {
            e is Reload
        } else {
            e is Nothing
        },
        _ => e is Nothing,
    }
}

impl UiState {
    fn toggled(&mut self, id: String, checked: bool)
        ensures
            final(self)@ == (UiView {
                selected: if checked { old(self)@.selected.insert(id@) } else { old(self)@.selected.remove(id@) },
                ..old(self)@
            }),
    {
        let ghost k = id@;
        if checked {
            self.selected.insert(id, ());
        } else {
            self.selected.remove(id.as_str());
        }
        assert(self@.selected =~= (if checked { old(self)@.selected.insert(k) } else { old(self)@.selected.remove(k) }));
    }

    fn launch_step(&mut self) -> (e: Effect)
        ensures
            final(self)@ == (UiView { launch_error: Seq::empty(), ..old(self)@ }),
            e matches Effect::Launch(ids, o, ov) && texts(ids@) == picked(old(self)@.mod_ids, old(self)@.selected)
                && o == old(self)@.options && texts_of(ov) == old(self)@.overrides,
    {
        self.launch_error = String::new();
        let ids = self.selected_ids();
        let overrides = self.overrides.copy();
        assert(texts_of(overrides) =~= texts_of(self.overrides));
        Effect::Launch(ids, self.options, overrides)
    }

    fn walked(&mut self, r: Result<WalkSummary, String>) -> (e: Effect)
        ensures
            final(self)@ == match r {
                Ok(summary) => UiView { walking: false, walk_note: walk_note_text(summary), ..old(self)@ },
                Err(m) => UiView { walking: false, walk_note: m@, ..old(self)@ },
            },
            if r is Ok { e is Reload } else { e is Nothing },
    {
        self.walking = false;
        match r {
            Ok(summary) => {
                let mut note = concat("Resolved ", decimal_string(summary.resolved as u64).as_str());
                push_all(&mut note, " items in ");
                push_all(&mut note, decimal_string(summary.calls as u64).as_str());
                push_all(&mut note, " API call(s).");
                self.walk_note = note;
                Effect::Reload
            },
            Err(m) => {
                self.walk_note = m;
                Effect::Nothing
            },
        }
    }

    fn override_picked(&mut self, id: String, path: String)
        ensures
            final(self)@ == (UiView { overrides: old(self)@.overrides.insert(id@, path@), ..old(self)@ }),
    {
        let ghost (k, x) = (id@, path@);
        self.overrides.insert(id, path);
        assert(texts_of(self.overrides) =~= texts_of(old(self).overrides).insert(k, x));
    }

    fn clear_override(&mut self, id: &str)
        ensures
            final(self)@ == (UiView { overrides: old(self)@.overrides.remove(id@), ..old(self)@ }),
    {
        self.overrides.remove(id);
        assert(texts_of(self.overrides) =~= texts_of(old(self).overrides).remove(id@));
    }

    fn resolve_asked(&mut self, id: &str)
        ensures
            final(self)@ == (UiView {
                busy: old(self)@.busy.insert(id@),
                errors: old(self)@.errors.remove(id@),
                ..old(self)@
            }),
    {
        self.busy.insert(owned(id), ());
        self.errors.remove(id);
        assert(texts_of(self.errors) =~= texts_of(old(self).errors).remove(id@));
        assert(self@.busy =~= old(self)@.busy.insert(id@));
    }

    fn resolved(&mut self, id: String, r: Result<Resolved, String>) -> (e: Effect)
        ensures
            final(self)@ == match r {
                Ok(item) => UiView {
                    busy: old(self)@.busy.remove(id@),
                    items: old(self)@.items.insert(item.id@, item@),
                    ..old(self)@
                },
                Err(m) => UiView {
                    busy: old(self)@.busy.remove(id@),
                    errors: old(self)@.errors.insert(id@, m@),
                    ..old(self)@
                },
            },
            if r is Ok { e is Reload } else { e is Nothing },
    {
        self.busy.remove(id.as_str());
        assert(self@.busy =~= old(self)@.busy.remove(id@));
        match r {
            Ok(item) => {
                let ghost iv = item@;
                let ghost before = self.items@;
                self.items.insert(item.id.clone(), item);
                assert(self.items@.map_values(|x: Resolved| x@) =~= before.map_values(|x: Resolved| x@).insert(
                    iv.id,
                    iv,
                ));
                Effect::Reload
            },
            Err(m) => {
                let ghost (k, x) = (id@, m@);
                self.errors.insert(id, m);
                assert(texts_of(self.errors) =~= texts_of(old(self).errors).insert(k, x));
                Effect::Nothing
            },
        }
    }

    fn profiles_answer(&mut self, r: Result<Profiles, String>, saved: bool)
        ensures
            final(self)@ == match r {
                Ok(store) => if saved {
                    UiView { profile_name: Seq::empty(), store, ..old(self)@ }
                } else {
                    UiView { store, ..old(self)@ }
                },
                Err(m) => UiView { profile_error: m@, ..old(self)@ },
            },
    {
        match r {
            Ok(store) => {
                if saved {
                    self.profile_name = String::new();
                }
                self.store = store;
            },
            Err(m) => {
                self.profile_error = m;
            },
        }
    }

    fn launch_answer(&mut self, failure: Option<String>)
        ensures
            final(self)@ == match failure {
                Some(m) => UiView { launch_error: m@, ..old(self)@ },
                None => old(self)@,
            },
    {
        match failure {
            Some(m) => {
                self.launch_error = m;
            },
            None => {},
        }
    }

    /// The group a message's transition is worked out in.
    spec fn group_of(m: UiMessage) -> int {
        match m {
            UiMessage::Loaded(..) => 0,
            UiMessage::Toggled(..) => 0,
            UiMessage::Flagged(..) => 0,
            UiMessage::TogglePreview => 0,
            UiMessage::Launch => 0,
            UiMessage::Stop => 0,
            UiMessage::Launched(..) => 0,
            UiMessage::Stopped(..) => 0,
            UiMessage::Recheck => 1,
            UiMessage::ResetCache => 1,
            UiMessage::ResetConfirmed(..) => 1,
            UiMessage::Rescanned(..) => 1,
            UiMessage::Walk => 1,
            UiMessage::Walked(..) => 1,
            UiMessage::PickOverride(..) => 2,
            UiMessage::OverridePicked(..) => 2,
            UiMessage::ClearOverride(..) => 2,
            UiMessage::Show(..) => 2,
            UiMessage::ProfileName(..) => 2,
            UiMessage::SaveProfile => 3,
            UiMessage::DeleteProfile(..) => 3,
            UiMessage::Saved(..) => 3,
            UiMessage::Stored(..) => 3,
            UiMessage::ApplyProfile(..) => 3,
            UiMessage::Resolve(..) => 4,
            UiMessage::Resolved(..) => 4,
            UiMessage::Session(..) => 4,
        }
    }

    fn step_a(&mut self, message: UiMessage) -> (step: UiStep)
        requires
            Self::group_of(message) == 0,
        ensures
            final(self)@ == next_view(old(self)@, message),
            step.replan == replans(old(self)@, message),
            effect_for(old(self)@, message, step.effect),
    {
        match message {
            UiMessage::Loaded(snap) => {
                self.absorb_snapshot(snap);
                UiStep { replan: true, effect: Effect::Nothing }
            },
            UiMessage::Toggled(id, checked) => {
                self.toggled(id, checked);
                UiStep { replan: true, effect: Effect::Nothing }
            },
            UiMessage::Flagged(flag, value) => {
                flag.set(&mut self.options, value);
                UiStep { replan: true, effect: Effect::Nothing }
            },
            UiMessage::TogglePreview => {
                self.show_preview = !self.show_preview;
                UiStep { replan: false, effect: Effect::Nothing }
            },
            UiMessage::Launch => {
                let effect = self.launch_step();
                UiStep { replan: false, effect }
            },
            UiMessage::Stop => {
                self.launch_error = String::new();
                UiStep { replan: false, effect: Effect::Stop }
            },
            UiMessage::Launched(r) => {
                self.launch_answer(
                    match r {
                        Err(e) => Some(e),
                        Ok(_) => None,
                    },
                );
                UiStep { replan: false, effect: Effect::Nothing }
            },
            UiMessage::Stopped(r) => {
                self.launch_answer(
                    match r {
                        Err(e) => Some(e),
                        Ok(_) => None,
                    },
                );
                UiStep { replan: false, effect: Effect::Nothing }
            },
            _ => UiStep { replan: false, effect: Effect::Nothing },
        }
    }

    fn step_b(&mut self, message: UiMessage) -> (step: UiStep)
        requires
            Self::group_of(message) == 1,
        ensures
            final(self)@ == next_view(old(self)@, message),
            step.replan == replans(old(self)@, message),
            effect_for(old(self)@, message, step.effect),
    {
        match message {
            UiMessage::Recheck => {
                self.rescanning = true;
                self.rescan_note = String::new();
                UiStep { replan: false, effect: Effect::Rescan }
            },
            UiMessage::ResetCache => UiStep { replan: false, effect: Effect::ConfirmReset },
            UiMessage::ResetConfirmed(yes) => {
                if yes {
                    self.rescanning = true;
                    self.rescan_note = String::new();
                    UiStep { replan: false, effect: Effect::ResetCache }
                } else {
                    UiStep { replan: false, effect: Effect::Nothing }
                }
            },
            UiMessage::Rescanned(snap, note) => {
                self.rescanning = false;
                self.rescan_note = note;
                self.resync(snap);
                UiStep { replan: true, effect: Effect::Nothing }
            },
            UiMessage::Walk => {
                self.walking = true;
                self.walk_note = String::new();
                UiStep { replan: false, effect: Effect::Walk }
            },
            UiMessage::Walked(r) => {
                let effect = self.walked(r);
                UiStep { replan: false, effect }
            },
            _ => UiStep { replan: false, effect: Effect::Nothing },
        }
    }

    fn step_c(&mut self, message: UiMessage) -> (step: UiStep)
        requires
            Self::group_of(message) == 2,
        ensures
            final(self)@ == next_view(old(self)@, message),
            step.replan == replans(old(self)@, message),
            effect_for(old(self)@, message, step.effect),
    {
        match message {
            UiMessage::PickOverride(id) => UiStep { replan: false, effect: Effect::PickOverride(id) },
            UiMessage::OverridePicked(id, path) => match path {
                Some(p) => {
                    self.override_picked(id, p);
                    UiStep { replan: true, effect: Effect::Nothing }
                },
                None => UiStep { replan: false, effect: Effect::Nothing },
            },
            UiMessage::ClearOverride(id) => {
                self.clear_override(id.as_str());
                UiStep { replan: true, effect: Effect::Nothing }
            },
            UiMessage::Show(screen) => {
                self.screen = screen;
                match screen {
                    Screen::Profiles => {
                        self.profile_error = String::new();
                        UiStep { replan: false, effect: Effect::ListProfiles }
                    },
                    Screen::Launch => UiStep { replan: false, effect: Effect::Nothing },
                }
            },
            UiMessage::ProfileName(name) => {
                self.profile_name = name;
                UiStep { replan: false, effect: Effect::Nothing }
            },
            _ => UiStep { replan: false, effect: Effect::Nothing },
        }
    }

    fn step_d(&mut self, message: UiMessage) -> (step: UiStep)
        requires
            Self::group_of(message) == 3,
        ensures
            final(self)@ == next_view(old(self)@, message),
            step.replan == replans(old(self)@, message),
            effect_for(old(self)@, message, step.effect),
    {
        match message {
            UiMessage::SaveProfile => {
                self.profile_error = String::new();
                UiStep { replan: false, effect: Effect::SaveProfile(self.profile_name.clone()) }
            },
            UiMessage::DeleteProfile(name) => {
                self.profile_error = String::new();
                UiStep { replan: false, effect: Effect::DeleteProfile(name) }
            },
            UiMessage::Saved(r) => {
                self.profiles_answer(r, true);
                UiStep { replan: false, effect: Effect::Nothing }
            },
            UiMessage::Stored(r) => {
                self.profiles_answer(r, false);
                UiStep { replan: false, effect: Effect::Nothing }
            },
            UiMessage::ApplyProfile(name) => {
                let found = self.apply_profile(name.as_str());
                UiStep { replan: found, effect: Effect::Nothing }
            },
            _ => UiStep { replan: false, effect: Effect::Nothing },
        }
    }

    fn step_e(&mut self, message: UiMessage) -> (step: UiStep)
        requires
            Self::group_of(message) == 4,
        ensures
            final(self)@ == next_view(old(self)@, message),
            step.replan == replans(old(self)@, message),
            effect_for(old(self)@, message, step.effect),
    {
        match message {
            UiMessage::Resolve(id, refresh) => {
                self.resolve_asked(id.as_str());
                UiStep { replan: false, effect: Effect::Resolve(id, refresh) }
            },
            UiMessage::Resolved(id, r) => {
                let effect = self.resolved(id, r);
                UiStep { replan: false, effect }
            },
            UiMessage::Session(event) => {
                self.absorb_event(event);
                UiStep { replan: false, effect: Effect::Nothing }
            },
            _ => UiStep { replan: false, effect: Effect::Nothing },
        }
    }

    /// Every state transition, one arm per message.
    pub fn update(&mut self, message: UiMessage) -> (step: UiStep)
        ensures
            final(self)@ == next_view(old(self)@, message),
            step.replan == replans(old(self)@, message),
            effect_for(old(self)@, message, step.effect),
    {
        let group: u8 = match &message {
            UiMessage::Loaded(..) | UiMessage::Toggled(..) | UiMessage::Flagged(..) | UiMessage::TogglePreview | UiMessage::Launch | UiMessage::Stop | UiMessage::Launched(..) | UiMessage::Stopped(..) => 0,
            UiMessage::Recheck | UiMessage::ResetCache | UiMessage::ResetConfirmed(..) | UiMessage::Rescanned(..) | UiMessage::Walk | UiMessage::Walked(..) => 1,
            UiMessage::PickOverride(..) | UiMessage::OverridePicked(..) | UiMessage::ClearOverride(..) | UiMessage::Show(..) | UiMessage::ProfileName(..) => 2,
            UiMessage::SaveProfile | UiMessage::DeleteProfile(..) | UiMessage::Saved(..) | UiMessage::Stored(..) | UiMessage::ApplyProfile(..) => 3,
            UiMessage::Resolve(..) | UiMessage::Resolved(..) | UiMessage::Session(..) => 4,
        };
        if group == 0 {
            self.step_a(message)
        } else if group == 1 {
            self.step_b(message)
        } else if group == 2 {
            self.step_c(message)
        } else if group == 3 {
            self.step_d(message)
        } else {
            self.step_e(message)
        }
    }
}

/// What a control asks for when it is pressed.
#[derive(Debug, Clone, PartialEq, Eq)]
pub enum Ask {
    Resolve(String, bool),
    PickOverride(String),
    ClearOverride(String),
}

/// One piece of a mod's dependency line: muted text, a button, or a button
/// drawn as a link. A control with nothing to ask for is disabled, which is
/// how a lookup in flight stops a second click.
#[derive(Debug, Clone, PartialEq, Eq)]
pub enum Part {
    Hint(String),
    Action(String, Option<Ask>),
    Link(String, Option<Ask>),
}

/// A request as values.
pub enum AskView {
    Resolve(Seq<char>, bool),
    PickOverride(Seq<char>),
    ClearOverride(Seq<char>),
}

/// A piece of the line as values.
pub enum PartView {
    Hint(Seq<char>),
    Action(Seq<char>, Option<AskView>),
    Link(Seq<char>, Option<AskView>),
}

pub open spec fn ask_view(a: Ask) -> AskView {
    match a {
        Ask::Resolve(id, refresh) => AskView::Resolve(id@, refresh),
        Ask::PickOverride(id) => AskView::PickOverride(id@),
        Ask::ClearOverride(id) => AskView::ClearOverride(id@),
    }
}

pub open spec fn opt_ask_view(a: Option<Ask>) -> Option<AskView> {
    match a {
        Some(x) => Some(ask_view(x)),
        None => None,
    }
}

pub open spec fn part_view(p: Part) -> PartView {
    match p {
        Part::Hint(t) => PartView::Hint(t@),
        Part::Action(t, a) => PartView::Action(t@, opt_ask_view(a)),
        Part::Link(t, a) => PartView::Link(t@, opt_ask_view(a)),
    }
}

/// A list of pieces as values.
pub open spec fn parts_view(parts: Seq<Part>) -> Seq<PartView> {
    parts.map_values(|p: Part| part_view(p))
}

/// A lookup of `id`, unless one is already in flight.
pub open spec fn lookup(busy: bool, id: Seq<char>, refresh: bool) -> Option<AskView> {
    if busy {
        None
    } else {
        Some(AskView::Resolve(id, refresh))
    }
}

/// The pieces for one requirement: a lookup for an unnamed one, the name of
/// an installed one, and for one that is not installed its name, marked so,
/// with a lookup of its own requirements while those are unknown.
pub open spec fn child_parts(v: UiView, c: Seq<char>) -> Seq<PartView> {
    let child = known_item(v.items, c);
    let cb = v.busy.contains(c);
    match child.name {
        None => seq![PartView::Action(if cb { "fetching..."@ } else { c }, lookup(cb, c, false))],
        Some(name) => if child.installed {
            seq![PartView::Hint(name)]
        } else if child.requires is None {
            seq![
                PartView::Hint(name + " (not installed)"@),
                PartView::Action(if cb { "fetching..."@ } else { "its dependencies"@ }, lookup(cb, c, false)),
            ]
        } else {
            seq![PartView::Hint(name + " (not installed)"@)]
        },
    }
}

/// The pieces for a list of requirements, in order.
pub open spec fn children_parts(v: UiView, reqs: Seq<Seq<char>>) -> Seq<PartView>
    decreases reqs.len(),
{
    if reqs.len() == 0 {
        Seq::empty()
    } else {
        children_parts(v, reqs.drop_last()) + child_parts(v, reqs.last())
    }
}

/// The dependency line under one mod. An unresolved mod offers a lookup
/// rather than claiming it has no requirements; a failed lookup shows its
/// error and a retry; and the mod's override, if any, can be cleared, or one
/// picked.
pub open spec fn dependency_parts(v: UiView, id: Seq<char>) -> Seq<PartView> {
    let item = known_item(v.items, id);
    let busy = v.busy.contains(id);
    let deps: Seq<PartView> = match item.requires {
        None => seq![PartView::Action(
            if busy { "checking..."@ } else { "check dependencies"@ },
            lookup(busy, id, false),
        )],
        Some(r) => if r.len() == 0 {
            seq![PartView::Hint("no dependencies"@), PartView::Link("refresh"@, lookup(busy, id, true))]
        } else {
            seq![PartView::Hint("requires:"@)] + children_parts(v, r) + seq![
                PartView::Link("refresh"@, lookup(busy, id, true)),
            ]
        },
    };
    let errors: Seq<PartView> = if v.errors.contains_key(id) {
        seq![
            PartView::Hint(v.errors[id]),
            PartView::Action("retry"@, Some(AskView::Resolve(id, true))),
        ]
    } else {
        Seq::empty()
    };
    let over: Seq<PartView> = if v.overrides.contains_key(id) {
        seq![
            PartView::Hint("override: "@ + v.overrides[id]),
            PartView::Link("clear override"@, Some(AskView::ClearOverride(id))),
        ]
    } else {
        seq![PartView::Link("override"@, Some(AskView::PickOverride(id)))]
    };
    deps + errors + over
}

fn lookup_of(busy: bool, id: &str, refresh: bool) -> (r: Option<Ask>)
    ensures
        opt_ask_view(r) == lookup(busy, id@, refresh),
{
    if busy {
        None
    } else {
        Some(Ask::Resolve(owned(id), refresh))
    }
}

fn push_part(parts: &mut Vec<Part>, p: Part)
    ensures
        parts_view(final(parts)@) == parts_view(old(parts)@).push(part_view(p)),
{
    let ghost pv = part_view(p);
    parts.push(p);
    assert(parts_view(parts@) =~= parts_view(old(parts)@).push(pv));
}

impl UiState {
    fn push_child_parts(&self, parts: &mut Vec<Part>, c: &str)
        ensures
            parts_view(final(parts)@) == parts_view(old(parts)@) + child_parts(self@, c@),
    {
        let child = self.item(c);
        let cb = self.busy.contains_key(c);
        let ghost start = parts_view(parts@);
        match &child.name {
            None => {
                let label = if cb {
                    owned("fetching...")
                } else {
                    owned(c)
                };
                push_part(parts, Part::Action(label, lookup_of(cb, c, false)));
            },
            Some(name) => {
                if child.installed {
                    push_part(parts, Part::Hint(name.clone()));
                } else {
                    push_part(parts, Part::Hint(concat(name.as_str(), " (not installed)")));
                    if child.requires.is_none() {
                        let label = if cb {
                            owned("fetching...")
                        } else {
                            owned("its dependencies")
                        };
                        push_part(parts, Part::Action(label, lookup_of(cb, c, false)));
                    }
                }
            },
        }
        assert(parts_view(parts@) =~= start + child_parts(self@, c@));
    }

    /// The dependency line under one mod.
    pub fn dependency_line(&self, id: &str) -> (parts: Vec<Part>)
        ensures
            parts_view(parts@) == dependency_parts(self@, id@),
    {
        let item = self.item(id);
        let busy = self.busy.contains_key(id);
        let mut parts: Vec<Part> = Vec::new();
        let ghost v = self@;
        match &item.requires {
            None => {
                let label = if busy {
                    owned("checking...")
                } else {
                    owned("check dependencies")
                };
                push_part(&mut parts, Part::Action(label, lookup_of(busy, id, false)));
            },
            Some(reqs) => {
                if reqs.len() == 0 {
                    push_part(&mut parts, Part::Hint(owned("no dependencies")));
                    push_part(&mut parts, Part::Link(owned("refresh"), lookup_of(busy, id, true)));
                } else {
                    push_part(&mut parts, Part::Hint(owned("requires:")));
                    let ghost head = parts_view(parts@);
                    let ghost rv = texts(reqs@);
                    let mut j: usize = 0;
                    while j < reqs.len()
                        invariant
                            j <= reqs.len(),
                            rv == texts(reqs@),
                            v == self@,
                            parts_view(parts@) == head + children_parts(v, rv.take(j as int)),
                        decreases reqs.len() - j,
                    {
                        assert(rv.take(j + 1).drop_last() =~= rv.take(j as int));
                        assert(rv.take(j + 1).last() == reqs@[j as int]@);
                        self.push_child_parts(&mut parts, reqs[j].as_str());
                        assert(head + children_parts(v, rv.take(j + 1)) =~= head + children_parts(v, rv.take(j as int)) + child_parts(v, reqs@[j as int]@));
                        j += 1;
                    }
                    assert(rv.take(reqs.len() as int) =~= rv);
                    push_part(&mut parts, Part::Link(owned("refresh"), lookup_of(busy, id, true)));
                }
            },
        }
        let ghost deps = parts_view(parts@);
        match self.errors.get(id) {
            Some(e) => {
                push_part(&mut parts, Part::Hint(e.clone()));
                push_part(&mut parts, Part::Action(owned("retry"), Some(Ask::Resolve(owned(id), true))));
            },
            None => {},
        }
        let ghost with_errors = parts_view(parts@);
        match self.overrides.get(id) {
            Some(path) => {
                push_part(&mut parts, Part::Hint(concat("override: ", path.as_str())));
                push_part(
                    &mut parts,
                    Part::Link(owned("clear override"), Some(Ask::ClearOverride(owned(id)))),
                );
            },
            None => {
                push_part(&mut parts, Part::Link(owned("override"), Some(Ask::PickOverride(owned(id)))));
            },
        }
        proof {
            let d = dependency_parts(v, id@);
            assert(parts_view(parts@) =~= d);
        }
        parts
    }
}

/// One line of the mod table.
#[derive(Debug, Clone, PartialEq, Eq)]
pub struct Row {
    pub id: String,
    pub name: String,
    pub selected: bool,
    pub status: Status,
    pub over: Option<String>,
}

/// The line of the mod table for one id.
pub open spec fn row_for(v: UiView, id: Seq<char>, r: Row) -> bool {
    &&& r.id@ == id
    &&& r.name@ == shown_name(known_item(v.items, id), id)
    &&& r.selected == v.selected.contains(id)
    &&& r.status == row_status(v, id)
    &&& match r.over {
        Some(p) => v.overrides.contains_key(id) && p@ == v.overrides[id],
        None => !v.overrides.contains_key(id),
    }
}

impl UiState {
    /// The table's rows, in `mod_ids` order.
    pub fn rows(&self) -> (r: Vec<Row>)
        ensures
            r@.len() == self@.mod_ids.len(),
            forall|i: int| 0 <= i < r@.len() ==> row_for(self@, self@.mod_ids[i], #[trigger] r@[i]),
    {
        let mut out: Vec<Row> = Vec::new();
        let mut i: usize = 0;
        while i < self.mod_ids.len()
            invariant
                i <= self.mod_ids.len(),
                out@.len() == i,
                forall|j: int| 0 <= j < i ==> row_for(self@, self@.mod_ids[j], #[trigger] out@[j]),
            decreases self.mod_ids.len() - i,
        {
            let id = &self.mod_ids[i];
            assert(self@.mod_ids[i as int] == id@);
            let item = self.item(id.as_str());
            let name = match item.name {
                Some(n) => n,
                None => id.clone(),
            };
            let over = match self.overrides.get(id.as_str()) {
                Some(p) => Some(p.clone()),
                None => None,
            };
            out.push(Row {
                id: id.clone(),
                name,
                selected: self.selected.contains_key(id.as_str()),
                status: self.status_of(id.as_str()),
                over,
            });
            i += 1;
        }
        out
    }
}

} // verus!
