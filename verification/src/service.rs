//! The operation set every frontend talks to.
//!
//! One place that owns the pieces a frontend would otherwise assemble for
//! itself: the discovered Steam paths, the resolver, the profile store and
//! the settings. The caller owns the outside world: it reads and writes the
//! files, makes the network requests and runs the game, and hands what came
//! back to the matching operation here.

use vstd::prelude::*;
use crate::api::{opt_view, steam_key_from, usable_key, WalkResult, items_view, KEY_VAR};
use crate::json::Json;
use crate::launch::{build_launch_plan, describes_launch, LaunchOptions, LaunchPlan};
use crate::map::{strictly_sorted, StrMap};
use crate::mods::Mod;
use crate::profiles::{named_outcome, removed_outcome, same_store, ProfileStore, Profiles};
use crate::resolve::{
    after_fetch, after_walk, sorted_by_name, spec_view, step_for, ResolveStep, Resolved,
    ResolvedView, Resolver,
};
use crate::scrape::{spec_scrape_message, PageInfo, ScrapeError};
use crate::session::Launched;
use crate::settings::{spec_stored_key, stored_steam_key, with_key, without_key, Settings,
    SettingsStore, SettingsView};
use crate::steam::{Platform, SteamPaths};
use crate::text::{concat, is_digit, owned};
use crate::cache::texts;

verus! {

/// Everything the UI needs to draw itself, with no network access at all.
#[derive(Debug, Clone, PartialEq, Eq)]
pub struct Snapshot {
    pub mods: Vec<Resolved>,
    pub referenced: Vec<Resolved>,
    pub api_available: bool,
    /// False when a path was guessed rather than confirmed on disk.
    pub game_verified: bool,
    pub workshop_verified: bool,
}

/// What a batched walk did.
#[derive(Debug, Clone, PartialEq, Eq)]
pub struct WalkSummary {
    pub calls: usize,
    pub resolved: usize,
}

/// What is known about each of a list of mods.
pub open spec fn views_of(
    installed: Map<Seq<char>, Mod>,
    known: Map<Seq<char>, crate::cache::StatusView>,
    mods: Seq<Mod>,
) -> Seq<ResolvedView> {
    mods.map_values(|m: Mod| spec_view(installed, known, m.id@))
}

/// The views of a list of answers.
pub open spec fn resolved_views(v: Seq<Resolved>) -> Seq<ResolvedView> {
    v.map_values(|r: Resolved| r@)
}

/// Every id some view lists among its known dependencies.
pub open spec fn required_ids(views: Seq<ResolvedView>) -> Set<Seq<char>>
    decreases views.len(),
{
    if views.len() == 0 {
        Set::empty()
    } else {
        required_ids(views.drop_last()) + match views.last().requires {
            Some(r) => r.to_set(),
            None => Set::empty(),
        }
    }
}

/// A snapshot of what a resolver knows: the installed mods in name order,
/// then every id they require, each once and in id order, each as it
/// currently resolves.
pub open spec fn is_snapshot(s: Snapshot, r: Resolver, paths: SteamPaths, api: bool) -> bool {
    let mods = views_of(r.installed_mods(), r.known(), sorted_by_name(r.mods_in_id_order()));
    let refs = resolved_views(s.referenced@);
    let ids = refs.map_values(|v: ResolvedView| v.id);
    &&& resolved_views(s.mods@) == mods
    &&& strictly_sorted(ids)
    &&& ids.to_set() == required_ids(mods)
    &&& forall|i: int|
        0 <= i < refs.len() ==> #[trigger] refs[i] == spec_view(r.installed_mods(), r.known(), ids[i])
    &&& s.api_available == api
    &&& s.game_verified == paths.game.verified
    &&& s.workshop_verified == paths.workshop.verified
}

/// An id made of ASCII digits only, and at least one.
pub open spec fn numeric_id(id: Seq<char>) -> bool {
    id.len() > 0 && forall|i: int| 0 <= i < id.len() ==> is_digit(#[trigger] id[i])
}

/// The Steam Web API key in use: the saved one first, the environment's
/// second.
pub open spec fn key_in_use(settings: SettingsView, env: Option<Seq<char>>) -> Option<Seq<char>> {
    match spec_stored_key(settings) {
        Some(k) => Some(k),
        None => usable_key(env),
    }
}

/// The message for a walk asked for without any key.
pub open spec fn no_key_message() -> Seq<char> {
    "no Steam Web API key is saved or set in "@ + KEY_VAR@ + ", the batched walk is unavailable"@
}

/// The paths, the resolver, the profiles and the settings of one running
/// application.
pub struct Core {
    resolver: Resolver,
    paths: SteamPaths,
    profiles: ProfileStore,
    settings: SettingsStore,
    env_key: Option<String>,
    platform: Platform,
}

impl Core {
    /// The resolver held.
    pub closed spec fn resolver_state(&self) -> Resolver {
        self.resolver
    }

    /// The discovered paths.
    pub closed spec fn paths_state(&self) -> SteamPaths {
        self.paths
    }

    /// The profile store held.
    pub closed spec fn profile_state(&self) -> ProfileStore {
        self.profiles
    }

    /// The settings store held.
    pub closed spec fn settings_state(&self) -> SettingsStore {
        self.settings
    }

    /// The value of the key's environment variable, as read at startup.
    pub closed spec fn env_value(&self) -> Option<Seq<char>> {
        opt_view(self.env_key)
    }

    /// The platform launches are described for.
    pub closed spec fn platform_state(&self) -> Platform {
        self.platform
    }

    /// Put together the parts the caller discovered and read: the Steam
    /// paths, a resolver over the workshop directory and the cache file, the
    /// profile and settings stores, and the key variable's value.
    pub fn new(
        paths: SteamPaths,
        resolver: Resolver,
        profiles: ProfileStore,
        settings: SettingsStore,
        env_key: Option<String>,
        platform: Platform,
    ) -> (c: Core)
        ensures
            c.paths_state() == paths,
            c.resolver_state() == resolver,
            c.profile_state() == profiles,
            c.settings_state() == settings,
            c.env_value() == opt_view(env_key),
            c.platform_state() == platform,
    {
        Core { resolver, paths, profiles, settings, env_key, platform }
    }

    /// The discovered paths, for a frontend that wants to show them.
    pub fn paths(&self) -> (r: &SteamPaths)
        ensures
            *r == self.paths_state(),
    {
        &self.paths
    }

    /// The resolver, for the caller to persist its cache.
    pub fn resolver(&self) -> (r: &Resolver)
        ensures
            *r == self.resolver_state(),
    {
        &self.resolver
    }

    /// The profile store, for the caller to persist it.
    pub fn profile_store(&self) -> (r: &ProfileStore)
        ensures
            *r == self.profile_state(),
    {
        &self.profiles
    }

    /// The settings store, for the caller to persist it.
    pub fn settings_store(&self) -> (r: &SettingsStore)
        ensures
            *r == self.settings_state(),
    {
        &self.settings
    }

    /// The Steam Web API key, saved settings first and the environment second.
    pub fn steam_key(&self) -> (r: Option<String>)
        ensures
            opt_view(r) == key_in_use(self.settings_state().data(), self.env_value()),
    {
        let saved = self.settings.view();
        match stored_steam_key(&saved) {
            Some(k) => Some(k),
            None => {
                let env = match &self.env_key {
                    Some(v) => Some(owned(v.as_str())),
                    None => None,
                };
                steam_key_from(env)
            },
        }
    }

    /// Everything the UI needs to draw itself, with no network access.
    pub fn snapshot(&self) -> (s: Snapshot)
        ensures
            is_snapshot(
                s,
                self.resolver_state(),
                self.paths_state(),
                key_in_use(self.settings_state().data(), self.env_value()) is Some,
            ),
    {
        let ghost inst = self.resolver.installed_mods();
        let ghost known = self.resolver.known();
        let list = self.resolver.mods();
        let mut mods: Vec<Resolved> = Vec::new();
        let mut i: usize = 0;
        while i < list.len()
            invariant
                i <= list.len(),
                inst == self.resolver.installed_mods(),
                known == self.resolver.known(),
                resolved_views(mods@) == views_of(inst, known, list@.take(i as int)),
            decreases list.len() - i,
        {
            let v = self.resolver.view(list[i].id.as_str());
            let ghost before = mods@;
            mods.push(v);
            assert(resolved_views(mods@) =~= resolved_views(before).push(v@));
            assert(views_of(inst, known, list@.take(i + 1)) =~= views_of(inst, known, list@.take(i as int)).push(
                spec_view(inst, known, list@[i as int].id@),
            ));
            i += 1;
        }
        assert(list@.take(list.len() as int) =~= list@);
        let ghost mv = resolved_views(mods@);
        let mut seen: StrMap<bool> = StrMap::new();
        let mut k: usize = 0;
        assert(seen@.dom() =~= required_ids(mv.take(0)));
        while k < mods.len()
            invariant
                k <= mods.len(),
                mv == resolved_views(mods@),
                seen@.dom() == required_ids(mv.take(k as int)),
            decreases mods.len() - k,
        {
            assert(mv.take(k + 1).drop_last() =~= mv.take(k as int));
            assert(mv.take(k + 1).last() == mods@[k as int]@);
            let ghost base = seen@.dom();
            match &mods[k].requires {
                Some(r) => {
                    let mut j: usize = 0;
                    assert(texts(r@).take(0).to_set() =~= Set::<Seq<char>>::empty());
                    while j < r.len()
                        invariant
                            j <= r.len(),
                            seen@.dom() == base + texts(r@).take(j as int).to_set(),
                        decreases r.len() - j,
                    {
                        seen.insert(r[j].clone(), true);
                        proof {
                            texts(r@).take(j as int).lemma_push_to_set_commute(r@[j as int]@);
                            assert(texts(r@).take(j + 1) =~= texts(r@).take(j as int).push(r@[j as int]@));
                        }
                        assert(seen@.dom() =~= base + texts(r@).take(j + 1).to_set());
                        j += 1;
                    }
                    assert(texts(r@).take(r.len() as int) =~= texts(r@));
                },
                None => {
                    assert(seen@.dom() =~= base + Set::<Seq<char>>::empty());
                },
            }
            k += 1;
        }
        assert(mv.take(mods.len() as int) =~= mv);
        let _ = seen.count();
        let ids = seen.key_list();
        let mut referenced: Vec<Resolved> = Vec::new();
        let mut m: usize = 0;
        while m < ids.len()
            invariant
                m <= ids.len(),
                inst == self.resolver.installed_mods(),
                known == self.resolver.known(),
                referenced@.len() == m,
                forall|x: int|
                    0 <= x < m ==> #[trigger] referenced@[x]@ == spec_view(inst, known, ids@[x]@),
            decreases ids.len() - m,
        {
            let v = self.resolver.view(ids[m].as_str());
            referenced.push(v);
            m += 1;
        }
        let api_available = self.steam_key().is_some();
        let s = Snapshot {
            mods,
            referenced,
            api_available,
            game_verified: self.paths.game.verified,
            workshop_verified: self.paths.workshop.verified,
        };
        proof {
            let refs = resolved_views(s.referenced@);
            let rids = refs.map_values(|v: ResolvedView| v.id);
            assert(rids =~= texts(ids@));
            assert(texts(ids@) == seen.keys());
            assert(rids.to_set() =~= seen@.dom()) by {
                assert forall|x: Seq<char>| #[trigger] rids.to_set().contains(x) <==> seen@.dom().contains(x) by {
                    if seen@.dom().contains(x) {
                        assert(seen.keys().contains(x));
                    }
                }
            }
        }
        s
    }

    /// Take in a fresh reading of the workshop directory and the cache file,
    /// picking up installs and removals.
    pub fn rescan(&mut self, mods: Vec<Mod>, raw_cache: &Json) -> (s: Snapshot)
        ensures
            final(self).resolver_state().installed_mods() == crate::resolve::mods_by_id(mods@),
            final(self).resolver_state().known() == crate::cache::spec_merge(
                *raw_cache,
                crate::resolve::mods_by_id(mods@).dom(),
            ),
            final(self).paths_state() == old(self).paths_state(),
            final(self).profile_state() == old(self).profile_state(),
            final(self).settings_state() == old(self).settings_state(),
            final(self).env_value() == old(self).env_value(),
            final(self).platform_state() == old(self).platform_state(),
            is_snapshot(
                s,
                final(self).resolver_state(),
                final(self).paths_state(),
                key_in_use(final(self).settings_state().data(), final(self).env_value()) is Some,
            ),
    {
        self.resolver.rescan(mods, raw_cache);
        self.snapshot()
    }

    /// Discard every cached dependency lookup. Installed names come from
    /// disk, so they are unaffected.
    pub fn reset_cache(&mut self) -> (s: Snapshot)
        ensures
            final(self).resolver_state().known() == Map::<Seq<char>, crate::cache::StatusView>::empty(),
            final(self).resolver_state().installed_mods() == old(self).resolver_state().installed_mods(),
            final(self).resolver_state().mods_in_id_order() == old(
                self,
            ).resolver_state().mods_in_id_order(),
            final(self).paths_state() == old(self).paths_state(),
            final(self).profile_state() == old(self).profile_state(),
            final(self).settings_state() == old(self).settings_state(),
            final(self).env_value() == old(self).env_value(),
            final(self).platform_state() == old(self).platform_state(),
            is_snapshot(
                s,
                final(self).resolver_state(),
                final(self).paths_state(),
                key_in_use(final(self).settings_state().data(), final(self).env_value()) is Some,
            ),
    {
        self.resolver.reset_cache();
        self.snapshot()
    }

    /// Answer for one id from what is known, or ask for its Workshop page to
    /// be fetched. Call only in response to a user action. Anything but a
    /// numeric workshop id is refused.
    pub fn resolve_item(&self, id: &str, refresh: bool) -> (r: Result<ResolveStep, String>)
        ensures
            !numeric_id(id@) ==> (r matches Err(m) && m@ == "id must be a numeric workshop id"@),
            numeric_id(id@) ==> (r matches Ok(step) && step_for(self.resolver_state(), id@, refresh, step)),
    {
        let chars = crate::text::chars_of(id);
        let mut ok = chars.len() > 0;
        let mut i: usize = 0;
        while i < chars.len()
            invariant
                i <= chars.len(),
                chars@ == id@,
                ok == (chars.len() > 0 && forall|j: int| 0 <= j < i ==> is_digit(#[trigger] id@[j])),
            decreases chars.len() - i,
        {
            if !('0' <= chars[i] && chars[i] <= '9') {
                ok = false;
            }
            i += 1;
        }
        if !ok {
            return Err(owned("id must be a numeric workshop id"));
        }
        Ok(self.resolver.resolve(id, refresh))
    }

    /// Record what the fetch of an id's page came back with, and answer with
    /// what is known afterwards; a failed fetch is reported by its message.
    pub fn record_item(&mut self, id: &str, page: Result<PageInfo, ScrapeError>, fetched_at: String) -> (r:
        Result<Resolved, String>)
        ensures
            final(self).resolver_state().installed_mods() == old(self).resolver_state().installed_mods(),
            final(self).resolver_state().mods_in_id_order() == old(
                self,
            ).resolver_state().mods_in_id_order(),
            final(self).resolver_state().cache_file() == old(self).resolver_state().cache_file(),
            final(self).resolver_state().workshop() == old(self).resolver_state().workshop(),
            match page {
                Err(e) => final(self).resolver_state().known() == old(self).resolver_state().known()
                    && (r matches Err(m) && m@ == spec_scrape_message(e)),
                Ok(info) => {
                    &&& final(self).resolver_state().known() == after_fetch(
                        old(self).resolver_state().installed_mods(),
                        old(self).resolver_state().known(),
                        id@,
                        crate::cache::opt_text(info.name),
                        texts(info.requires@),
                        crate::mods::text_map(info.required_names),
                        fetched_at@,
                    )
                    &&& r matches Ok(v) && v@ == spec_view(
                        final(self).resolver_state().installed_mods(),
                        final(self).resolver_state().known(),
                        id@,
                    )
                },
            },
            final(self).paths_state() == old(self).paths_state(),
            final(self).profile_state() == old(self).profile_state(),
            final(self).settings_state() == old(self).settings_state(),
            final(self).env_value() == old(self).env_value(),
            final(self).platform_state() == old(self).platform_state(),
    {
        match self.resolver.record_fetch(id, page, fetched_at) {
            Ok(v) => Ok(v),
            Err(e) => Err(e.message()),
        }
    }

    /// The key a batched walk would use, or why there is none.
    pub fn walk_key(&self) -> (r: Result<String, String>)
        ensures
            match key_in_use(self.settings_state().data(), self.env_value()) {
                Some(k) => r matches Ok(x) && x@ == k,
                None => r matches Err(m) && m@ == no_key_message(),
            },
    {
        match self.steam_key() {
            Some(k) => Ok(k),
            None => {
                let a = concat("no Steam Web API key is saved or set in ", KEY_VAR);
                Err(concat(a.as_str(), ", the batched walk is unavailable"))
            },
        }
    }

    /// Record what a batched walk over the Steam Web API reached, and say
    /// what it cost and how many items it resolved. A failed walk records
    /// nothing and is passed on.
    pub fn walk_all(&mut self, walked: Result<WalkResult, String>, fetched_at: &str) -> (r: Result<
        WalkSummary,
        String,
    >)
        ensures
            final(self).paths_state() == old(self).paths_state(),
            final(self).profile_state() == old(self).profile_state(),
            final(self).settings_state() == old(self).settings_state(),
            final(self).env_value() == old(self).env_value(),
            final(self).platform_state() == old(self).platform_state(),
            final(self).resolver_state().installed_mods() == old(self).resolver_state().installed_mods(),
            final(self).resolver_state().mods_in_id_order() == old(
                self,
            ).resolver_state().mods_in_id_order(),
            match walked {
                Err(e) => r == Err::<WalkSummary, String>(e) && final(self).resolver_state().known()
                    == old(self).resolver_state().known(),
                Ok(w) => {
                    &&& final(self).resolver_state().known() == after_walk(
                        old(self).resolver_state().installed_mods(),
                        old(self).resolver_state().known(),
                        items_view(w.items@),
                        fetched_at@,
                    )
                    &&& r matches Ok(summary) && summary.calls == w.calls && summary.resolved
                        == w.items@.dom().len()
                },
            },
    {
        match walked {
            Err(e) => Err(e),
            Ok(w) => {
                self.resolver.prefill_from_api(&w, fetched_at);
                let resolved = w.items.count();
                Ok(WalkSummary { calls: w.calls, resolved })
            },
        }
    }

    /// Describe a launch without performing one.
    pub fn preview(&self, ids: &[String], options: LaunchOptions, overrides: &StrMap<String>) -> (plan:
        LaunchPlan)
        ensures
            describes_launch(self.paths_state(), ids@, options, *overrides, self.platform_state(), plan),
    {
        build_launch_plan(&self.paths, ids, options, overrides, self.platform)
    }

    /// Take in the outcome of linking the mods in and spawning the game. The
    /// launch is recorded only once the game is actually running, so a
    /// rejected launch leaves the previous record alone.
    pub fn launch(
        &mut self,
        ids: &[String],
        options: LaunchOptions,
        overrides: &StrMap<String>,
        outcome: Result<Launched, String>,
    ) -> (r: Result<Launched, String>)
        ensures
            r == outcome,
            final(self).resolver_state() == old(self).resolver_state(),
            final(self).paths_state() == old(self).paths_state(),
            final(self).settings_state() == old(self).settings_state(),
            final(self).env_value() == old(self).env_value(),
            final(self).platform_state() == old(self).platform_state(),
            final(self).profile_state().file() == old(self).profile_state().file(),
            outcome is Err ==> final(self).profile_state() == old(self).profile_state(),
            outcome is Ok ==> {
                &&& final(self).profile_state().data().profiles@ == old(
                    self,
                ).profile_state().data().profiles@
                &&& final(self).profile_state().data().last_launch matches Some(l) && l.ids@
                    == ids@ && l.options == options && l.overrides@ == overrides@
            },
    {
        match outcome {
            Ok(launched) => {
                self.profiles.record_launch(ids, options, overrides);
                Ok(launched)
            },
            Err(e) => Err(e),
        }
    }

    /// The saved profiles and the last launch.
    pub fn list_profiles(&self) -> (r: Profiles)
        ensures
            same_store(r, self.profile_state().data()),
    {
        self.profiles.view()
    }

    /// The saved settings.
    pub fn settings(&self) -> (r: Settings)
        ensures
            r@ == self.settings_state().data(),
    {
        self.settings.view()
    }

    /// Save a Steam Web API key, and give back the whole settings.
    pub fn save_steam_key(&mut self, key: &str) -> (r: Result<Settings, String>)
        ensures
            final(self).settings_state().data() == (SettingsView {
                steam_keys: with_key(old(self).settings_state().data().steam_keys, 0, key@),
                ..old(self).settings_state().data()
            }),
            final(self).settings_state().file() == old(self).settings_state().file(),
            r matches Ok(s) && s@ == final(self).settings_state().data(),
            final(self).resolver_state() == old(self).resolver_state(),
            final(self).profile_state() == old(self).profile_state(),
            final(self).paths_state() == old(self).paths_state(),
            final(self).env_value() == old(self).env_value(),
            final(self).platform_state() == old(self).platform_state(),
    {
        let _ = self.settings.save_steam_key(0, owned(key));
        Ok(self.settings.view())
    }

    /// Forget the saved Steam Web API key, and give back the whole settings.
    pub fn clear_steam_key(&mut self) -> (r: Result<Settings, String>)
        ensures
            final(self).settings_state().data() == (SettingsView {
                steam_keys: without_key(old(self).settings_state().data().steam_keys, 0),
                ..old(self).settings_state().data()
            }),
            final(self).settings_state().file() == old(self).settings_state().file(),
            r matches Ok(s) && s@ == final(self).settings_state().data(),
            final(self).resolver_state() == old(self).resolver_state(),
            final(self).profile_state() == old(self).profile_state(),
            final(self).paths_state() == old(self).paths_state(),
            final(self).env_value() == old(self).env_value(),
            final(self).platform_state() == old(self).platform_state(),
    {
        let _ = self.settings.clear_steam_key(0);
        Ok(self.settings.view())
    }

    /// Keep the last launch under a name, and give back all the profiles, or
    /// say why it was refused.
    pub fn save_profile(&mut self, name: &str) -> (r: Result<Profiles, String>)
        ensures
            exists|rr: Result<(), crate::profiles::ProfileError>|
                named_outcome(old(self).profile_state().data(), final(self).profile_state().data(), name@, rr)
                    && match rr {
                    Ok(_) => r matches Ok(p) && same_store(p, final(self).profile_state().data()),
                    Err(e) => r matches Err(m) && m@ == crate::profiles::spec_profile_message(e),
                },
            final(self).profile_state().file() == old(self).profile_state().file(),
            final(self).resolver_state() == old(self).resolver_state(),
            final(self).settings_state() == old(self).settings_state(),
            final(self).paths_state() == old(self).paths_state(),
            final(self).env_value() == old(self).env_value(),
            final(self).platform_state() == old(self).platform_state(),
    {
        match self.profiles.save_named(name) {
            Ok(()) => Ok(self.profiles.view()),
            Err(e) => Err(e.message()),
        }
    }

    /// Forget the profiles called `name`, and give back all the profiles, or
    /// say why nothing was removed.
    pub fn delete_profile(&mut self, name: &str) -> (r: Result<Profiles, String>)
        ensures
            exists|rr: Result<(), crate::profiles::ProfileError>|
                removed_outcome(old(self).profile_state().data(), final(self).profile_state().data(), name@, rr)
                    && match rr {
                    Ok(_) => r matches Ok(p) && same_store(p, final(self).profile_state().data()),
                    Err(e) => r matches Err(m) && m@ == crate::profiles::spec_profile_message(e),
                },
            final(self).profile_state().file() == old(self).profile_state().file(),
            final(self).resolver_state() == old(self).resolver_state(),
            final(self).settings_state() == old(self).settings_state(),
            final(self).paths_state() == old(self).paths_state(),
            final(self).env_value() == old(self).env_value(),
            final(self).platform_state() == old(self).platform_state(),
    {
        match self.profiles.delete(name) {
            Ok(()) => Ok(self.profiles.view()),
            Err(e) => Err(e.message()),
        }
    }
}

} // verus!
