use brhap::launch::{LaunchOptions, LaunchPlan, Symlink};
use brhap::map::StrMap;
use brhap::profiles::{LastLaunch, Profile, Profiles};
use brhap::resolve::{Resolved, Source};
use brhap::service::Snapshot;
use brhap::ui::{Flag, Screen, UiMessage, UiState};

fn resolved(id: &str, name: &str, requires: &[&str]) -> Resolved {
    Resolved {
        id: id.to_string(),
        name: Some(name.to_string()),
        installed: true,
        requires: Some(requires.iter().map(|s| s.to_string()).collect()),
        source: Source::Disk,
        fetched_at: String::new(),
    }
}

fn loaded() -> UiState {
    let mut ui = UiState::new();
    ui.update(UiMessage::Loaded(Snapshot {
        mods: vec![resolved("1", "Alpha", &["9"]), resolved("2", "Beta", &[])],
        referenced: Vec::new(),
        api_available: false,
        game_verified: true,
        workshop_verified: true,
    }));
    ui
}

fn plan(links: usize) -> LaunchPlan {
    LaunchPlan {
        executable: "/g/arma3".to_string(),
        cwd: "/g".to_string(),
        args: Vec::new(),
        env: StrMap::new(),
        symlinks: (0..links)
            .map(|i| Symlink { target: format!("/w/{i}"), link: format!("/g/@{i}") })
            .collect(),
        preview: "cd /g && ./arma3".to_string(),
    }
}

fn options(no_splash: bool, empty_world: bool) -> LaunchOptions {
    LaunchOptions { no_splash, skip_intro: false, empty_world, intel_mode: false, steam_overlay: false }
}

#[test]
fn the_header_says_none_until_a_profile_is_applied() {
    let mut ui = UiState::new();
    ui.options.steam_overlay = true;
    let header = ui.header();
    assert_eq!(header.loaded, "Loaded: none");
    assert_eq!(header.home.label, "home");
    assert!(matches!(header.home.press, Some(UiMessage::Show(Screen::Launch))));
    assert!(matches!(header.profiles.press, Some(UiMessage::Show(Screen::Profiles))));
    assert_eq!(header.switches, vec![(Flag::IntelMode, false), (Flag::SteamOverlay, true)]);

    ui.apply_note = "Applied raid.".to_string();
    assert_eq!(ui.header().loaded, "Loaded: Applied raid.");
}

#[test]
fn the_launch_screen_counts_the_selection_and_offers_the_idle_actions() {
    let mut ui = loaded();
    ui.update(UiMessage::Toggled("1".to_string(), true));
    let screen = ui.launch_screen(None);
    assert!(screen.load_error.is_none());
    assert_eq!(screen.counts, "1 of 2 selected. Dependency lookups happen only when you click.");
    assert_eq!(screen.recheck.label, "recheck installed mods");
    assert!(matches!(screen.recheck.press, Some(UiMessage::Recheck)));
    assert!(matches!(screen.reset.press, Some(UiMessage::ResetCache)));
    assert!(screen.walk.is_none());
    assert_eq!(screen.unmet, vec!["Alpha requires 9, not installed".to_string()]);
    assert_eq!(
        screen.switches,
        vec![(Flag::NoSplash, false), (Flag::SkipIntro, false), (Flag::EmptyWorld, false)]
    );
    assert!(screen.launch.is_none());
}

#[test]
fn a_rescan_in_flight_disables_the_toolbar() {
    let mut ui = loaded();
    ui.rescanning = true;
    ui.api_available = true;
    ui.walking = true;
    ui.walk_note = "walking".to_string();
    ui.load_error = "no workshop".to_string();
    let screen = ui.launch_screen(None);
    assert_eq!(screen.load_error.as_deref(), Some("Could not load: no workshop"));
    assert_eq!(screen.recheck.label, "rechecking...");
    assert!(screen.recheck.press.is_none());
    assert!(screen.reset.press.is_none());
    let (walk, note) = screen.walk.expect("the walk is offered with a key");
    assert_eq!(walk.label, "resolving...");
    assert!(walk.press.is_none());
    assert_eq!(note, "walking");
}

#[test]
fn the_launch_section_follows_the_plan_and_the_session() {
    let mut ui = loaded();
    let screen = ui.launch_screen(Some(&plan(2)));
    let panel = screen.launch.expect("a plan gives a launch section");
    assert_eq!(panel.line, "2 symlink(s) will be created in the game directory. Status: idle");
    assert!(matches!(panel.launch.press, Some(UiMessage::Launch)));
    assert!(panel.stop.press.is_none());
    assert_eq!(panel.details.label, "details");
    assert!(panel.error.is_none());
    assert!(panel.preview.is_none());

    ui.running = true;
    ui.pid = Some(4242);
    ui.status = "running".to_string();
    ui.show_preview = true;
    ui.launch_error = "could not link".to_string();
    let panel = ui.launch_screen(Some(&plan(1))).launch.expect("a plan gives a launch section");
    assert_eq!(panel.line, "1 symlink(s) will be created in the game directory. Status: running (pid 4242)");
    assert!(panel.launch.press.is_none());
    assert!(matches!(panel.stop.press, Some(UiMessage::Stop)));
    assert_eq!(panel.details.label, "hide details");
    assert_eq!(panel.error.as_deref(), Some("could not link"));
    assert_eq!(panel.preview.as_deref(), Some("cd /g && ./arma3"));
}

#[test]
fn the_profiles_screen_invites_a_launch_first() {
    let ui = UiState::new();
    let screen = ui.profiles_screen();
    assert!(screen.last.is_none());
    assert!(screen.error.is_none());
    assert!(screen.saved.is_empty());
}

#[test]
fn a_blank_name_cannot_be_saved_and_saved_profiles_are_listed() {
    let mut ui = UiState::new();
    ui.store = Profiles {
        last_launch: Some(LastLaunch {
            ids: vec!["1".to_string(), "2".to_string()],
            options: options(true, false),
            overrides: StrMap::new(),
        }),
        profiles: vec![Profile {
            name: "raid".to_string(),
            ids: vec!["1".to_string()],
            options: options(false, true),
            overrides: StrMap::new(),
        }],
    };
    ui.profile_name = "  ".to_string();
    let screen = ui.profiles_screen();
    let last = screen.last.expect("a last launch is offered for naming");
    assert_eq!(last.line, "Last launched: 2 mod(s), -noSplash");
    assert!(last.save.press.is_none());
    assert_eq!(screen.saved.len(), 1);
    let row = &screen.saved[0];
    assert_eq!(row.apply.label, "raid");
    assert!(matches!(&row.apply.press, Some(UiMessage::ApplyProfile(n)) if n == "raid"));
    assert_eq!(row.summary, "1 mod(s), -world=empty");
    assert_eq!(row.delete.label, "delete");
    assert!(matches!(&row.delete.press, Some(UiMessage::DeleteProfile(n)) if n == "raid"));

    ui.profile_name = "raid two".to_string();
    ui.profile_error = "name taken".to_string();
    let screen = ui.profiles_screen();
    assert!(matches!(screen.last.expect("still offered").save.press, Some(UiMessage::SaveProfile)));
    assert_eq!(screen.error.as_deref(), Some("name taken"));
}
