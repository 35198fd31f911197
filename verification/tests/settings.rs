use brhap::settings::{
    clear_steam_key, set_game_verified, set_steam_key, set_workshop_verified, stored_steam_key, Settings,
    SettingsError, SettingsStore, SteamApiKey,
};

#[test]
fn flags_are_set_one_at_a_time() {
    let mut s = Settings::default();
    set_game_verified(&mut s, true).expect("ok");
    assert!(s.game_verified && !s.workshop_verified);
    set_workshop_verified(&mut s, true).expect("ok");
    assert!(s.workshop_verified);
}

#[test]
fn a_key_replaces_the_one_saved_for_the_same_account() {
    let mut s = Settings::default();
    set_steam_key(&mut s, 0, "first".to_string()).expect("ok");
    set_steam_key(&mut s, 5, "other".to_string()).expect("ok");
    set_steam_key(&mut s, 0, "second".to_string()).expect("ok");
    assert_eq!(
        s.steam_keys,
        vec![
            SteamApiKey { steam_id: 0, steam_key: "second".to_string() },
            SteamApiKey { steam_id: 5, steam_key: "other".to_string() },
        ]
    );
    assert_eq!(stored_steam_key(&s), Some("second".to_string()));
    clear_steam_key(&mut s, 0).expect("ok");
    assert_eq!(stored_steam_key(&s), Some("other".to_string()));
    assert_eq!(s.steam_keys.len(), 1);
    clear_steam_key(&mut s, 5).expect("ok");
    assert_eq!(stored_steam_key(&s), None);
}

#[test]
fn the_store_keeps_keys_for_one_account() {
    let mut store = SettingsStore::new("/c/settings.json".to_string(), Settings::default());
    store.save_steam_key(99, "k".to_string()).expect("ok");
    assert_eq!(store.view().steam_keys, vec![SteamApiKey { steam_id: 0, steam_key: "k".to_string() }]);
    store.save_game_verified(true).expect("ok");
    store.save_workshop_verified(true).expect("ok");
    assert!(store.view().game_verified && store.view().workshop_verified);
    store.clear_steam_key(99).expect("ok");
    assert!(store.view().steam_keys.is_empty());
    assert_eq!(store.path(), "/c/settings.json");
}

#[test]
fn error_messages_say_what_failed() {
    assert_eq!(SettingsError::Io("x".to_string()).message(), "IO error: x");
    assert_eq!(SettingsError::Json("y".to_string()).message(), "JSON error: y");
}
