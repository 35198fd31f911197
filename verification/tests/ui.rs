use brhap::launch::LaunchOptions;
use brhap::map::StrMap;
use brhap::profiles::{LastLaunch, Profile, Profiles};
use brhap::resolve::{Resolved, Source};
use brhap::service::{Snapshot, WalkSummary};
use brhap::session::Event;
use brhap::ui::{describe, Ask, Effect, Flag, Part, Screen, Status, UiMessage, UiState};

fn resolved(id: &str, name: Option<&str>, installed: bool, requires: Option<&[&str]>) -> Resolved {
    Resolved {
        id: id.to_string(),
        name: name.map(str::to_string),
        installed,
        requires: requires.map(|r| r.iter().map(|s| s.to_string()).collect()),
        source: if installed { Source::Disk } else { Source::Cache },
        fetched_at: String::new(),
    }
}

fn snapshot() -> Snapshot {
    Snapshot {
        mods: vec![
            resolved("1", Some("Alpha"), true, Some(&["2", "9"])),
            resolved("2", Some("Beta"), true, None),
            resolved("3", None, true, Some(&[])),
        ],
        referenced: vec![resolved("9", Some("Nine"), false, None)],
        api_available: true,
        game_verified: true,
        workshop_verified: true,
    }
}

fn strings(list: &[&str]) -> Vec<String> {
    list.iter().map(|s| s.to_string()).collect()
}

fn loaded() -> UiState {
    let mut ui = UiState::new();
    let step = ui.update(UiMessage::Loaded(snapshot()));
    assert!(step.replan);
    ui
}

#[test]
fn flags_read_and_write_their_option() {
    let mut options = LaunchOptions::default();
    Flag::SkipIntro.set(&mut options, true);
    assert!(Flag::SkipIntro.get(&options));
    assert!(!Flag::NoSplash.get(&options));
    assert_eq!(Flag::EmptyWorld.label(), "-world=empty");
    assert_eq!(Flag::SteamOverlay.label(), "Steam Overlay");
}

#[test]
fn a_saved_launch_is_summarised_in_one_line() {
    let mut options = LaunchOptions::default();
    assert_eq!(describe(&strings(&["1", "2"]), &options), "2 mod(s)");
    options.no_splash = true;
    options.empty_world = true;
    options.intel_mode = true;
    assert_eq!(describe(&strings(&["1"]), &options), "1 mod(s), -noSplash -world=empty");
}

#[test]
fn the_selection_follows_the_mod_order() {
    let mut ui = loaded();
    ui.update(UiMessage::Toggled("3".to_string(), true));
    ui.update(UiMessage::Toggled("1".to_string(), true));
    ui.update(UiMessage::Toggled("404".to_string(), true));
    assert_eq!(ui.selected_ids(), strings(&["1", "3"]));
    assert_eq!(ui.selected_count(), 2);
    ui.update(UiMessage::Toggled("3".to_string(), false));
    assert_eq!(ui.selected_ids(), strings(&["1"]));
}

#[test]
fn unmet_requirements_say_why() {
    let mut ui = loaded();
    ui.update(UiMessage::Toggled("1".to_string(), true));
    assert_eq!(
        ui.unmet(),
        strings(&["Alpha requires Beta, installed but not selected", "Alpha requires Nine, not installed"])
    );
    ui.update(UiMessage::Toggled("2".to_string(), true));
    assert_eq!(ui.unmet(), strings(&["Alpha requires Nine, not installed"]));
}

#[test]
fn each_row_reports_its_status() {
    let mut ui = loaded();
    assert_eq!(ui.status_of("1"), Status::Quiet);
    assert_eq!(ui.status_of("2"), Status::Unknown);
    ui.update(UiMessage::Toggled("3".to_string(), true));
    assert_eq!(ui.status_of("3"), Status::Ready);
    ui.update(UiMessage::Toggled("1".to_string(), true));
    assert_eq!(ui.status_of("1"), Status::Unmet);
    ui.update(UiMessage::Resolve("1".to_string(), true));
    assert_eq!(ui.status_of("1"), Status::Pending);
    ui.update(UiMessage::Resolved("1".to_string(), Err("offline".to_string())));
    assert_eq!(ui.status_of("1"), Status::Failed);
}

#[test]
fn a_resolved_item_is_recorded_and_a_snapshot_asked_for() {
    let mut ui = loaded();
    let step = ui.update(UiMessage::Resolve("2".to_string(), false));
    assert!(matches!(step.effect, Effect::Resolve(ref id, false) if id == "2"));
    let step = ui.update(UiMessage::Resolved(
        "2".to_string(),
        Ok(resolved("2", Some("Beta"), true, Some(&[]))),
    ));
    assert!(matches!(step.effect, Effect::Reload));
    assert_eq!(ui.item("2").requires, Some(Vec::new()));
    assert_eq!(ui.item("77").source, Source::Unknown);
}

#[test]
fn session_events_drive_the_status_line() {
    let mut ui = UiState::new();
    ui.update(UiMessage::Session(Event::Linked { removed: 1, created: 2 }));
    assert_eq!(ui.status, "linked 2 mod(s), removed 1 stale link(s)");
    ui.update(UiMessage::Session(Event::Spawned { pid: 42 }));
    assert_eq!(ui.status, "running as pid 42");
    ui.update(UiMessage::Session(Event::State { running: true, pid: Some(42) }));
    assert!(ui.running);
    ui.update(UiMessage::Session(Event::State { running: false, pid: None }));
    assert_eq!(ui.status, "idle");
    ui.update(UiMessage::Session(Event::Exited { code: Some(-1) }));
    assert_eq!(ui.status, "exited with code -1");
    ui.update(UiMessage::Session(Event::State { running: false, pid: None }));
    assert_eq!(ui.status, "exited with code -1");
    ui.update(UiMessage::Session(Event::Exited { code: None }));
    assert_eq!(ui.status, "exited with code none");
    ui.update(UiMessage::Session(Event::Error { message: "gone".to_string() }));
    assert_eq!(ui.status, "error: gone");
}

#[test]
fn a_rescan_drops_what_is_no_longer_installed() {
    let mut ui = loaded();
    ui.update(UiMessage::Toggled("1".to_string(), true));
    ui.update(UiMessage::Toggled("3".to_string(), true));
    let mut next = snapshot();
    next.mods.pop();
    next.referenced.clear();
    ui.update(UiMessage::Recheck);
    assert!(ui.rescanning);
    ui.update(UiMessage::Rescanned(next, "2 mod(s) installed.".to_string()));
    assert!(!ui.rescanning);
    assert_eq!(ui.selected_ids(), strings(&["1"]));
    assert_eq!(ui.mod_ids, strings(&["1", "2"]));
    assert_eq!(ui.item("9").source, Source::Unknown);
    assert_eq!(ui.rescan_note, "2 mod(s) installed.");
}

#[test]
fn applying_a_profile_selects_what_is_installed_and_names_the_rest() {
    let mut ui = loaded();
    let mut overrides = StrMap::new();
    overrides.insert("1".to_string(), "/my/mod".to_string());
    let store = Profiles {
        last_launch: Some(LastLaunch { ids: Vec::new(), options: LaunchOptions::default(), overrides: StrMap::new() }),
        profiles: vec![Profile {
            name: "night".to_string(),
            ids: strings(&["1", "55", "3", "66"]),
            options: LaunchOptions { no_splash: true, ..LaunchOptions::default() },
            overrides,
        }],
    };
    ui.update(UiMessage::Stored(Ok(store)));
    ui.update(UiMessage::Show(Screen::Profiles));
    let step = ui.update(UiMessage::ApplyProfile("night".to_string()));
    assert!(step.replan);
    assert_eq!(ui.selected_ids(), strings(&["1", "3"]));
    assert!(ui.options.no_splash);
    assert_eq!(ui.overrides.get("1").map(String::as_str), Some("/my/mod"));
    assert_eq!(ui.apply_note, "Loaded \"night\". Not installed, skipped: 55, 66");
    assert_eq!(ui.screen, Screen::Launch);
    let step = ui.update(UiMessage::ApplyProfile("nobody".to_string()));
    assert!(!step.replan);
}

#[test]
fn a_launch_asks_for_the_selection_in_order() {
    let mut ui = loaded();
    ui.update(UiMessage::Toggled("3".to_string(), true));
    ui.update(UiMessage::Toggled("1".to_string(), true));
    ui.update(UiMessage::Flagged(Flag::NoSplash, true));
    ui.update(UiMessage::OverridePicked("3".to_string(), Some("/x".to_string())));
    match ui.update(UiMessage::Launch).effect {
        Effect::Launch(ids, options, overrides) => {
            assert_eq!(ids, strings(&["1", "3"]));
            assert!(options.no_splash);
            assert_eq!(overrides.get("3").map(String::as_str), Some("/x"));
        }
        other => panic!("expected a launch, got {other:?}"),
    }
    ui.update(UiMessage::Launched(Err("a game is already running".to_string())));
    assert_eq!(ui.launch_error, "a game is already running");
    ui.update(UiMessage::ClearOverride("3".to_string()));
    assert_eq!(ui.overrides.len(), 0);
}

#[test]
fn a_walk_reports_what_it_did() {
    let mut ui = UiState::new();
    assert!(matches!(ui.update(UiMessage::Walk).effect, Effect::Walk));
    assert!(ui.walking);
    let step = ui.update(UiMessage::Walked(Ok(WalkSummary { calls: 3, resolved: 17 })));
    assert!(matches!(step.effect, Effect::Reload));
    assert_eq!(ui.walk_note, "Resolved 17 items in 3 API call(s).");
    assert!(!ui.walking);
}

#[test]
fn resetting_the_cache_asks_first() {
    let mut ui = UiState::new();
    assert!(matches!(ui.update(UiMessage::ResetCache).effect, Effect::ConfirmReset));
    assert!(matches!(ui.update(UiMessage::ResetConfirmed(false)).effect, Effect::Nothing));
    assert!(!ui.rescanning);
    assert!(matches!(ui.update(UiMessage::ResetConfirmed(true)).effect, Effect::ResetCache));
    assert!(ui.rescanning);
}

#[test]
fn only_a_save_that_went_through_clears_the_name() {
    let mut ui = UiState::new();
    ui.update(UiMessage::ProfileName("night".to_string()));
    assert!(matches!(ui.update(UiMessage::SaveProfile).effect, Effect::SaveProfile(ref n) if n == "night"));
    ui.update(UiMessage::Saved(Err("give the profile a name".to_string())));
    assert_eq!(ui.profile_name, "night");
    assert_eq!(ui.profile_error, "give the profile a name");
    ui.update(UiMessage::Saved(Ok(Profiles::default())));
    assert_eq!(ui.profile_name, "");
}

#[test]
fn the_dependency_line_offers_what_is_left_to_learn() {
    let mut ui = loaded();
    assert_eq!(
        ui.dependency_line("1"),
        vec![
            Part::Hint("requires:".to_string()),
            Part::Hint("Beta".to_string()),
            Part::Hint("Nine (not installed)".to_string()),
            Part::Action("its dependencies".to_string(), Some(Ask::Resolve("9".to_string(), false))),
            Part::Link("refresh".to_string(), Some(Ask::Resolve("1".to_string(), true))),
            Part::Link("override".to_string(), Some(Ask::PickOverride("1".to_string()))),
        ]
    );
    ui.update(UiMessage::Resolve("2".to_string(), false));
    ui.update(UiMessage::Resolved("2".to_string(), Err("offline".to_string())));
    ui.update(UiMessage::OverridePicked("2".to_string(), Some("/m".to_string())));
    assert_eq!(
        ui.dependency_line("2"),
        vec![
            Part::Action("check dependencies".to_string(), Some(Ask::Resolve("2".to_string(), false))),
            Part::Hint("offline".to_string()),
            Part::Action("retry".to_string(), Some(Ask::Resolve("2".to_string(), true))),
            Part::Hint("override: /m".to_string()),
            Part::Link("clear override".to_string(), Some(Ask::ClearOverride("2".to_string()))),
        ]
    );
    ui.update(UiMessage::Resolve("3".to_string(), false));
    assert_eq!(
        ui.dependency_line("3"),
        vec![
            Part::Hint("no dependencies".to_string()),
            Part::Link("refresh".to_string(), None),
            Part::Link("override".to_string(), Some(Ask::PickOverride("3".to_string()))),
        ]
    );
}

#[test]
fn each_installed_mod_has_a_row() {
    let mut ui = loaded();
    ui.update(UiMessage::Toggled("3".to_string(), true));
    ui.update(UiMessage::OverridePicked("1".to_string(), Some("/src/alpha".to_string())));
    let rows = ui.rows();
    assert_eq!(rows.len(), 3);
    assert_eq!(rows[0].name, "Alpha");
    assert_eq!(rows[0].over.as_deref(), Some("/src/alpha"));
    assert_eq!(rows[0].status, Status::Quiet);
    assert_eq!(rows[2].name, "3");
    assert!(rows[2].selected);
    assert_eq!(rows[2].status, Status::Ready);
}
