//! Application settings: which discovered paths the user has confirmed, and
//! the Steam Web API keys they saved. Kept apart from the profiles, since
//! they belong to the application rather than to the services it uses.
//! Reading and writing the file is the caller's part.

use vstd::prelude::*;
use crate::config::{opt_str, spec_config_dir, config_dir};
use crate::path::{join, path_join};
use crate::text::owned;

verus! {

/// One saved Steam Web API key and the account it belongs to.
#[derive(Debug, Clone, PartialEq, Eq)]
pub struct SteamApiKey {
    pub steam_id: i64,
    pub steam_key: String,
}

/// The settings as saved.
#[derive(Debug, Clone, PartialEq, Eq)]
pub struct Settings {
    pub game_verified: bool,
    pub workshop_verified: bool,
    pub steam_keys: Vec<SteamApiKey>,
}

/// Settings as values.
pub struct SettingsView {
    pub game_verified: bool,
    pub workshop_verified: bool,
    pub steam_keys: Seq<(i64, Seq<char>)>,
}

/// The saved keys as values.
pub open spec fn keys_view(keys: Seq<SteamApiKey>) -> Seq<(i64, Seq<char>)> {
    keys.map_values(|k: SteamApiKey| (k.steam_id, k.steam_key@))
}

impl Settings {
    pub open spec fn view(&self) -> SettingsView {
        SettingsView {
            game_verified: self.game_verified,
            workshop_verified: self.workshop_verified,
            steam_keys: keys_view(self.steam_keys@),
        }
    }

    /// A copy of the settings.
    pub fn copy(&self) -> (r: Settings)
        ensures
            r@ == self@,
    {
        let mut keys: Vec<SteamApiKey> = Vec::new();
        let mut i: usize = 0;
        while i < self.steam_keys.len()
            invariant
                i <= self.steam_keys.len(),
                keys_view(keys@) == keys_view(self.steam_keys@.take(i as int)),
            decreases self.steam_keys.len() - i,
        {
            let k = &self.steam_keys[i];
            let ghost before = keys@;
            keys.push(SteamApiKey { steam_id: k.steam_id, steam_key: owned(k.steam_key.as_str()) });
            assert(keys_view(keys@) =~= keys_view(before).push((k.steam_id, k.steam_key@)));
            assert(keys_view(self.steam_keys@.take(i + 1)) =~= keys_view(
                self.steam_keys@.take(i as int),
            ).push((k.steam_id, k.steam_key@)));
            i += 1;
        }
        assert(self.steam_keys@.take(self.steam_keys.len() as int) =~= self.steam_keys@);
        Settings {
            game_verified: self.game_verified,
            workshop_verified: self.workshop_verified,
            steam_keys: keys,
        }
    }
}

impl Default for Settings {
    fn default() -> (r: Settings)
        ensures
            !r.game_verified,
            !r.workshop_verified,
            r.steam_keys@.len() == 0,
    {
        Settings { game_verified: false, workshop_verified: false, steam_keys: Vec::new() }
    }
}

/// Why settings could not be read or written.
#[derive(Debug, Clone, PartialEq, Eq)]
pub enum SettingsError {
    Io(String),
    Json(String),
}

impl SettingsError {
    /// The message shown for this error.
    pub fn message(&self) -> (m: String)
        ensures
            m@ == match *self {
                SettingsError::Io(e) => "IO error: "@ + e@,
                SettingsError::Json(e) => "JSON error: "@ + e@,
            },
    {
        match self {
            SettingsError::Io(e) => crate::text::concat("IO error: ", e.as_str()),
            SettingsError::Json(e) => crate::text::concat("JSON error: ", e.as_str()),
        }
    }
}

/// Saved application settings, in our own config directory.
pub fn settings_file(xdg: Option<&str>, home: &str) -> (r: String)
    ensures
        r@ == join(spec_config_dir(opt_str(xdg), home@), "settings.json"@),
{
    let dir = config_dir(xdg, home);
    path_join(dir.as_str(), "settings.json")
}

/// Record whether the game path is confirmed.
pub fn set_game_verified(store: &mut Settings, verified: bool) -> (r: Result<(), SettingsError>)
    ensures
        r is Ok,
        final(store)@ == (SettingsView { game_verified: verified, ..old(store)@ }),
{
    store.game_verified = verified;
    Ok(())
}

/// Record whether the workshop path is confirmed.
pub fn set_workshop_verified(store: &mut Settings, verified: bool) -> (r: Result<(), SettingsError>)
    ensures
        r is Ok,
        final(store)@ == (SettingsView { workshop_verified: verified, ..old(store)@ }),
{
    store.workshop_verified = verified;
    Ok(())
}

/// Where the key of an account is saved, if anywhere: the first entry for it.
pub open spec fn key_index(keys: Seq<(i64, Seq<char>)>, steam_id: i64) -> Option<int>
    decreases keys.len(),
{
    if keys.len() == 0 {
        None
    } else {
        match key_index(keys.drop_last(), steam_id) {
            Some(i) => Some(i),
            None => if keys.last().0 == steam_id {
                Some(keys.len() - 1)
            } else {
                None
            },
        }
    }
}

proof fn lemma_key_index(keys: Seq<(i64, Seq<char>)>, steam_id: i64)
    ensures
        match key_index(keys, steam_id) {
            Some(i) => 0 <= i < keys.len() && keys[i].0 == steam_id && forall|j: int|
                0 <= j < i ==> #[trigger] keys[j].0 != steam_id,
            None => forall|j: int| 0 <= j < keys.len() ==> #[trigger] keys[j].0 != steam_id,
        },
    decreases keys.len(),
{
    if keys.len() > 0 {
        lemma_key_index(keys.drop_last(), steam_id);
        assert forall|j: int| 0 <= j < keys.len() - 1 implies #[trigger] keys[j] == keys.drop_last()[j] by {}
    }
}

/// The saved keys after saving `key` for an account: it replaces the
/// account's first entry, or is added at the end when there is none.
pub open spec fn with_key(keys: Seq<(i64, Seq<char>)>, steam_id: i64, key: Seq<char>) -> Seq<(i64, Seq<char>)> {
    match key_index(keys, steam_id) {
        Some(i) => keys.update(i, (steam_id, key)),
        None => keys.push((steam_id, key)),
    }
}

/// Save `key` for an account, replacing the key it had.
pub fn set_steam_key(store: &mut Settings, steam_id: i64, key: String) -> (r: Result<(), SettingsError>)
    ensures
        r is Ok,
        final(store)@ == (SettingsView { steam_keys: with_key(old(store)@.steam_keys, steam_id, key@), ..old(store)@ }),
{
    let ghost keys = old(store)@.steam_keys;
    let mut i: usize = 0;
    while i < store.steam_keys.len()
        invariant
            i <= store.steam_keys.len(),
            store@ == old(store)@,
            store@.steam_keys == keys,
            forall|j: int| 0 <= j < i ==> #[trigger] keys[j].0 != steam_id,
        decreases store.steam_keys.len() - i,
    {
        if store.steam_keys[i].steam_id == steam_id {
            assert(keys[i as int].0 == steam_id);
            proof {
                lemma_key_index(keys, steam_id);
                match key_index(keys, steam_id) {
                    Some(k) => {
                        if k < i {
                            assert(keys[k].0 != steam_id);
                        } else if k > i {
                            assert(keys[i as int].0 != steam_id);
                        }
                    },
                    None => {
                        assert(keys[i as int].0 != steam_id);
                    },
                }
            }
            let ghost before = store.steam_keys@;
            store.steam_keys.set(i, SteamApiKey { steam_id, steam_key: key });
            assert(keys_view(store.steam_keys@) =~= keys_view(before).update(i as int, (steam_id, key@)));
            return Ok(());
        }
        assert(keys[i as int].0 == store.steam_keys@[i as int].steam_id);
        i += 1;
    }
    proof {
        lemma_key_index(keys, steam_id);
        if let Some(k) = key_index(keys, steam_id) {
            assert(keys[k].0 != steam_id);
        }
    }
    let ghost before = store.steam_keys@;
    let ghost kv = key@;
    store.steam_keys.push(SteamApiKey { steam_id, steam_key: key });
    assert(keys_view(store.steam_keys@) =~= keys_view(before).push((steam_id, kv)));
    Ok(())
}

/// The saved keys with every entry for an account removed.
pub open spec fn without_key(keys: Seq<(i64, Seq<char>)>, steam_id: i64) -> Seq<(i64, Seq<char>)>
    decreases keys.len(),
{
    if keys.len() == 0 {
        Seq::empty()
    } else if keys.last().0 == steam_id {
        without_key(keys.drop_last(), steam_id)
    } else {
        without_key(keys.drop_last(), steam_id).push(keys.last())
    }
}

/// Forget every key saved for an account.
pub fn clear_steam_key(store: &mut Settings, steam_id: i64) -> (r: Result<(), SettingsError>)
    ensures
        r is Ok,
        final(store)@ == (SettingsView { steam_keys: without_key(old(store)@.steam_keys, steam_id), ..old(store)@ }),
{
    let ghost keys = old(store)@.steam_keys;
    let mut kept: Vec<SteamApiKey> = Vec::new();
    let mut i: usize = 0;
    while i < store.steam_keys.len()
        invariant
            i <= store.steam_keys.len(),
            store@ == old(store)@,
            store@.steam_keys == keys,
            keys_view(kept@) == without_key(keys.take(i as int), steam_id),
        decreases store.steam_keys.len() - i,
    {
        let k = &store.steam_keys[i];
        assert(keys.take(i + 1).drop_last() =~= keys.take(i as int));
        assert(keys[i as int] == (k.steam_id, k.steam_key@));
        if k.steam_id != steam_id {
            let ghost before = kept@;
            kept.push(SteamApiKey { steam_id: k.steam_id, steam_key: owned(k.steam_key.as_str()) });
            assert(keys_view(kept@) =~= keys_view(before).push((k.steam_id, k.steam_key@)));
        }
        i += 1;
    }
    assert(keys.take(keys.len() as int) =~= keys);
    store.steam_keys = kept;
    Ok(())
}

/// The saved key in use: the one saved for account 0, the account this
/// application saves under, and failing that the first one saved for any
/// account.
pub open spec fn spec_stored_key(s: SettingsView) -> Option<Seq<char>> {
    match key_index(s.steam_keys, 0) {
        Some(i) => Some(s.steam_keys[i].1),
        None => if s.steam_keys.len() > 0 {
            Some(s.steam_keys[0].1)
        } else {
            None
        },
    }
}

/// The saved Steam Web API key, if any key is saved: account 0's first, else
/// the first saved.
pub fn stored_steam_key(settings: &Settings) -> (r: Option<String>)
    ensures
        match r {
            Some(k) => spec_stored_key(settings@) == Some(k@),
            None => spec_stored_key(settings@) is None,
        },
{
    let mut i: usize = 0;
    while i < settings.steam_keys.len()
        invariant
            i <= settings.steam_keys.len(),
            forall|j: int| 0 <= j < i ==> #[trigger] settings@.steam_keys[j].0 != 0,
        decreases settings.steam_keys.len() - i,
    {
        assert(settings@.steam_keys[i as int] == (settings.steam_keys@[i as int].steam_id, settings.steam_keys@[i as int].steam_key@));
        if settings.steam_keys[i].steam_id == 0 {
            proof {
                let keys = settings@.steam_keys;
                lemma_key_index(keys, 0);
                match key_index(keys, 0) {
                    Some(k) => {
                        if k < i {
                            assert(keys[k].0 != 0);
                        } else if k > i {
                            assert(keys[i as int].0 != 0);
                        }
                    },
                    None => {
                        assert(keys[i as int].0 != 0);
                    },
                }
            }
            return Some(owned(settings.steam_keys[i].steam_key.as_str()));
        }
        i += 1;
    }
    proof {
        lemma_key_index(settings@.steam_keys, 0);
        if let Some(k) = key_index(settings@.steam_keys, 0) {
            assert(settings@.steam_keys[k].0 != 0);
        }
    }
    if settings.steam_keys.len() > 0 {
        assert(settings@.steam_keys[0] == (settings.steam_keys@[0].steam_id, settings.steam_keys@[0].steam_key@));
        Some(owned(settings.steam_keys[0].steam_key.as_str()))
    } else {
        None
    }
}

/// The settings and the file they are kept in. Changes are made here; the
/// caller writes the file after each one.
pub struct SettingsStore {
    path: String,
    data: Settings,
}

impl SettingsStore {
    /// The settings held.
    pub closed spec fn data(&self) -> SettingsView {
        self.data@
    }

    /// The file the settings are kept in.
    pub closed spec fn file(&self) -> Seq<char> {
        self.path@
    }

    /// A store for the settings read from `path`.
    pub fn new(path: String, data: Settings) -> (s: SettingsStore)
        ensures
            s.data() == data@,
            s.file() == path@,
    {
        SettingsStore { path, data }
    }

    /// The file the settings are kept in.
    pub fn path(&self) -> (r: &String)
        ensures
            r@ == self.file(),
    {
        &self.path
    }

    /// A copy of the settings.
    pub fn view(&self) -> (r: Settings)
        ensures
            r@ == self.data(),
    {
        self.data.copy()
    }

    /// Record whether the game path is confirmed.
    pub fn save_game_verified(&mut self, verified: bool) -> (r: Result<(), SettingsError>)
        ensures
            r is Ok,
            final(self).data() == (SettingsView { game_verified: verified, ..old(self).data() }),
            final(self).file() == old(self).file(),
    {
        set_game_verified(&mut self.data, verified)
    }

    /// Record whether the workshop path is confirmed.
    pub fn save_workshop_verified(&mut self, verified: bool) -> (r: Result<(), SettingsError>)
        ensures
            r is Ok,
            final(self).data() == (SettingsView { workshop_verified: verified, ..old(self).data() }),
            final(self).file() == old(self).file(),
    {
        set_workshop_verified(&mut self.data, verified)
    }

    /// Save a key. Keys are kept for one account, whichever id is given.
    pub fn save_steam_key(&mut self, _steam_id: i64, key: String) -> (r: Result<(), SettingsError>)
        ensures
            r is Ok,
            final(self).data() == (SettingsView {
                steam_keys: with_key(old(self).data().steam_keys, 0, key@),
                ..old(self).data()
            }),
            final(self).file() == old(self).file(),
    {
        set_steam_key(&mut self.data, 0, key)
    }

    /// Forget the saved key. Keys are kept for one account, whichever id is
    /// given.
    pub fn clear_steam_key(&mut self, _steam_id: i64) -> (r: Result<(), SettingsError>)
        ensures
            r is Ok,
            final(self).data() == (SettingsView {
                steam_keys: without_key(old(self).data().steam_keys, 0),
                ..old(self).data()
            }),
            final(self).file() == old(self).file(),
    {
        clear_steam_key(&mut self.data, 0)
    }
}

} // verus!
