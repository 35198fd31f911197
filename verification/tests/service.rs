use brhap::api::{ApiItem, WalkResult};
use brhap::json::Json;
use brhap::launch::LaunchOptions;
use brhap::map::StrMap;
use brhap::mods::{ItemKind, Mod};
use brhap::profiles::{ProfileStore, Profiles};
use brhap::resolve::{ResolveStep, Resolver, Source};
use brhap::scrape::{PageInfo, ScrapeError};
use brhap::service::Core;
use brhap::session::Launched;
use brhap::settings::{Settings, SettingsStore};
use brhap::steam::{Located, Platform, SteamPaths};

fn item(id: &str, name: &str) -> Mod {
    Mod { id: id.to_string(), name: name.to_string(), path: format!("/w/{id}"), kind: ItemKind::Mod, folder_name: None }
}

fn strings(list: &[&str]) -> Vec<String> {
    list.iter().map(|s| s.to_string()).collect()
}

fn make_core(env_key: Option<&str>) -> Core {
    let paths = SteamPaths {
        steam_dir: "/steam".to_string(),
        game: Located { path: "/steam/steamapps/common/Arma 3".to_string(), verified: true },
        workshop: Located { path: "/w".to_string(), verified: false },
    };
    let resolver = Resolver::new(
        "/w".to_string(),
        "/c/cache.json".to_string(),
        vec![item("10", "Zeta"), item("20", "alpha")],
        &Json::Null,
    );
    Core::new(
        paths,
        resolver,
        ProfileStore::new("/c/profiles.json".to_string(), Profiles::default()),
        SettingsStore::new("/c/settings.json".to_string(), Settings::default()),
        env_key.map(str::to_string),
        Platform::Other,
    )
}

fn page(name: &str, requires: &[&str], names: &[(&str, &str)]) -> PageInfo {
    let mut required_names = StrMap::new();
    for (id, n) in names {
        required_names.insert(id.to_string(), n.to_string());
    }
    PageInfo { name: Some(name.to_string()), requires: strings(requires), required_names }
}

#[test]
fn a_snapshot_lists_mods_by_name_and_names_their_requirements() {
    let mut hub = make_core(None);
    hub.record_item("10", Ok(page("Z", &["99", "20", "98"], &[("99", "Ninety-nine"), ("98", "Ninety-eight")])), "t".to_string())
        .expect("recorded");
    let snap = hub.snapshot();
    let ids: Vec<String> = snap.mods.iter().map(|m| m.id.clone()).collect();
    assert_eq!(ids, strings(&["20", "10"]));
    let refs: Vec<String> = snap.referenced.iter().map(|m| m.id.clone()).collect();
    assert_eq!(refs, strings(&["20", "98", "99"]));
    assert_eq!(snap.referenced[2].name.as_deref(), Some("Ninety-nine"));
    assert_eq!(snap.referenced[0].source, Source::Disk);
    assert!(!snap.api_available);
    assert!(snap.game_verified);
    assert!(!snap.workshop_verified);
}

#[test]
fn only_numeric_ids_are_resolved() {
    let hub = make_core(None);
    assert_eq!(hub.resolve_item("", false), Err("id must be a numeric workshop id".to_string()));
    assert_eq!(hub.resolve_item("12a", false), Err("id must be a numeric workshop id".to_string()));
    assert!(matches!(hub.resolve_item("12", false), Ok(ResolveStep::Fetch(_))));
}

#[test]
fn a_failed_fetch_is_reported_by_its_message() {
    let mut hub = make_core(None);
    assert_eq!(
        hub.record_item("12", Err(ScrapeError::RateLimited("12".to_string())), "t".to_string()),
        Err("Steam rate limited the request for 12".to_string())
    );
}

#[test]
fn the_saved_key_comes_before_the_environment() {
    let mut hub = make_core(Some("from-env"));
    assert_eq!(hub.steam_key(), Some("from-env".to_string()));
    hub.save_steam_key("saved").expect("ok");
    assert_eq!(hub.steam_key(), Some("saved".to_string()));
    assert_eq!(hub.walk_key(), Ok("saved".to_string()));
    let settings = hub.clear_steam_key().expect("ok");
    assert!(settings.steam_keys.is_empty());
    assert_eq!(hub.steam_key(), Some("from-env".to_string()));
    assert!(hub.snapshot().api_available);
}

#[test]
fn a_key_saved_for_any_account_is_used_without_the_environment() {
    let mut settings = Settings::default();
    brhap::settings::set_steam_key(&mut settings, 5, "account-five".to_string()).expect("ok");
    let paths = SteamPaths {
        steam_dir: "/steam".to_string(),
        game: Located { path: "/g".to_string(), verified: true },
        workshop: Located { path: "/w".to_string(), verified: true },
    };
    let hub = Core::new(
        paths,
        Resolver::new("/w".to_string(), "/c/cache.json".to_string(), Vec::new(), &Json::Null),
        ProfileStore::new("/c/profiles.json".to_string(), Profiles::default()),
        SettingsStore::new("/c/settings.json".to_string(), settings),
        None,
        Platform::Other,
    );
    assert_eq!(hub.steam_key(), Some("account-five".to_string()));
    assert!(hub.snapshot().api_available);
}

#[test]
fn a_walk_without_any_key_says_where_to_put_one() {
    let hub = make_core(Some("  "));
    assert_eq!(
        hub.walk_key(),
        Err("no Steam Web API key is saved or set in STEAM_KEY, the batched walk is unavailable".to_string())
    );
}

#[test]
fn a_walk_is_recorded_and_summarised() {
    let mut hub = make_core(None);
    let mut items = StrMap::new();
    items.insert("10".to_string(), ApiItem { name: "x".to_string(), requires: strings(&["30"]) });
    items.insert("30".to_string(), ApiItem { name: "Thirty".to_string(), requires: Vec::new() });
    let summary = hub.walk_all(Ok(WalkResult { items, calls: 2 }), "t").expect("ok");
    assert_eq!((summary.calls, summary.resolved), (2, 2));
    let snap = hub.snapshot();
    assert_eq!(snap.referenced.len(), 1);
    assert_eq!(snap.referenced[0].name.as_deref(), Some("Thirty"));
    assert_eq!(hub.walk_all(Err("offline".to_string()), "t"), Err("offline".to_string()));
}

#[test]
fn only_a_launch_that_ran_is_recorded() {
    let mut hub = make_core(None);
    let ids = strings(&["10"]);
    let overrides = StrMap::new();
    assert_eq!(
        hub.launch(&ids, LaunchOptions::default(), &overrides, Err("a game is already running".to_string())),
        Err("a game is already running".to_string())
    );
    assert!(hub.list_profiles().last_launch.is_none());
    assert_eq!(hub.save_profile("x"), Err("nothing has been launched yet".to_string()));
    let launched = Launched { pid: 1, removed: 0, created: 1 };
    assert_eq!(hub.launch(&ids, LaunchOptions::default(), &overrides, Ok(launched.clone())), Ok(launched));
    let profiles = hub.save_profile(" x ").expect("saved");
    assert_eq!(profiles.profiles[0].name, "x");
    assert_eq!(hub.delete_profile("y"), Err("no profile named \"y\"".to_string()));
    assert!(hub.delete_profile("x").expect("deleted").profiles.is_empty());
}

#[test]
fn the_preview_is_the_plan_for_the_discovered_paths() {
    let hub = make_core(None);
    let plan = hub.preview(&strings(&["10"]), LaunchOptions::default(), &StrMap::new());
    assert_eq!(plan.args, strings(&["-mod=10"]));
    assert_eq!(plan.cwd, hub.paths().game.path);
}

#[test]
fn a_rescan_replaces_the_installed_mods() {
    let mut hub = make_core(None);
    let snap = hub.rescan(vec![item("30", "Thirty")], &Json::Null);
    assert_eq!(snap.mods.len(), 1);
    assert_eq!(snap.mods[0].id, "30");
    let snap = hub.reset_cache();
    assert_eq!(snap.mods.len(), 1);
    assert!(snap.referenced.is_empty());
}
