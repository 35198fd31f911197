use brhap::launch::{build_launch_plan, executable_for, overlay_dylib, LaunchOptions, Symlink};
use brhap::map::StrMap;
use brhap::steam::{Located, Platform, SteamPaths};

fn paths() -> SteamPaths {
    SteamPaths {
        steam_dir: "/steam".to_string(),
        game: Located { path: "/steam/steamapps/common/Arma 3".to_string(), verified: true },
        workshop: Located {
            path: "/steam/steamapps/workshop/content/107410".to_string(),
            verified: true,
        },
    }
}

fn ids(list: &[&str]) -> Vec<String> {
    list.iter().map(|id| id.to_string()).collect()
}

fn no_overrides() -> StrMap<String> {
    StrMap::new()
}

fn options(no_splash: bool, skip_intro: bool, empty_world: bool) -> LaunchOptions {
    LaunchOptions { no_splash, skip_intro, empty_world, intel_mode: false, steam_overlay: false }
}

#[test]
fn joins_mod_ids_with_semicolons_in_one_argument() {
    let plan = build_launch_plan(
        &paths(),
        &ids(&["450814997", "463939057"]),
        LaunchOptions::default(),
        &no_overrides(),
        Platform::Other,
    );
    assert_eq!(plan.args, vec!["-mod=450814997;463939057"]);
}

#[test]
fn adds_no_mod_argument_when_nothing_is_selected() {
    let plan = build_launch_plan(&paths(), &[], LaunchOptions::default(), &no_overrides(), Platform::Other);
    assert!(plan.args.is_empty());
}

#[test]
fn deduplicates_ids_without_reordering_them() {
    let plan = build_launch_plan(
        &paths(),
        &ids(&["463939057", "450814997", "463939057"]),
        LaunchOptions::default(),
        &no_overrides(),
        Platform::Other,
    );
    assert_eq!(plan.args, vec!["-mod=463939057;450814997"]);
}

#[test]
fn appends_only_the_options_that_are_enabled() {
    let plan = build_launch_plan(
        &paths(),
        &ids(&["450814997"]),
        options(true, false, true),
        &no_overrides(),
        Platform::Other,
    );
    assert_eq!(plan.args, vec!["-mod=450814997", "-noSplash", "-world=empty"]);
}

#[test]
fn runs_from_the_game_directory_so_bare_ids_resolve() {
    let plan = build_launch_plan(
        &paths(),
        &ids(&["450814997"]),
        LaunchOptions::default(),
        &no_overrides(),
        Platform::Other,
    );
    assert_eq!(plan.cwd, "/steam/steamapps/common/Arma 3");
}

#[test]
fn links_each_workshop_directory_in_under_its_id() {
    let plan = build_launch_plan(
        &paths(),
        &ids(&["450814997"]),
        LaunchOptions::default(),
        &no_overrides(),
        Platform::Other,
    );
    assert_eq!(
        plan.symlinks,
        vec![Symlink {
            target: "/steam/steamapps/workshop/content/107410/450814997".to_string(),
            link: "/steam/steamapps/common/Arma 3/450814997".to_string(),
        }]
    );
}

#[test]
fn never_puts_quotes_inside_the_mod_argument_itself() {
    let plan = build_launch_plan(
        &paths(),
        &ids(&["450814997", "463939057"]),
        LaunchOptions::default(),
        &no_overrides(),
        Platform::Other,
    );
    assert!(!plan.args[0].contains('"'));
    assert!(!plan.args[0].contains('\''));
}

#[test]
fn quotes_the_game_path_in_the_display_preview_only() {
    let plan = build_launch_plan(
        &paths(),
        &ids(&["450814997"]),
        LaunchOptions::default(),
        &no_overrides(),
        Platform::Other,
    );
    assert!(plan.preview.contains("'/steam/steamapps/common/Arma 3'"));
    assert!(plan.preview.contains("-mod=450814997"));
}

#[test]
fn an_override_replaces_the_workshop_target() {
    let mut overrides = StrMap::new();
    overrides.insert("450814997".to_string(), "/Users/tester/mymod".to_string());
    let plan = build_launch_plan(
        &paths(),
        &ids(&["450814997", "463939057"]),
        LaunchOptions::default(),
        &overrides,
        Platform::Other,
    );
    assert_eq!(plan.symlinks[0].target, "/Users/tester/mymod");
    assert_eq!(plan.symlinks[0].link, "/steam/steamapps/common/Arma 3/450814997");
    assert_eq!(plan.symlinks[1].target, "/steam/steamapps/workshop/content/107410/463939057");
}

#[test]
fn the_full_preview_for_one_mod_on_linux() {
    let plan = build_launch_plan(
        &paths(),
        &ids(&["450814997"]),
        options(true, false, false),
        &no_overrides(),
        Platform::Other,
    );
    assert_eq!(
        plan.preview,
        "cd '/steam/steamapps/common/Arma 3' && SteamAppId=107410 '/steam/steamapps/common/Arma 3/arma3_x64' -mod=450814997 -noSplash"
    );
    assert_eq!(plan.executable, "/steam/steamapps/common/Arma 3/arma3_x64");
}

#[test]
fn macos_injects_the_overlay_and_runs_the_bundle_binary() {
    let plan = build_launch_plan(&paths(), &[], LaunchOptions::default(), &no_overrides(), Platform::MacOs);
    assert_eq!(
        plan.executable,
        "/steam/steamapps/common/Arma 3/ArmA3 AS Native.app/Contents/MacOS/ArmA3 AS Native"
    );
    assert_eq!(plan.env.get("DYLD_FORCE_FLAT_NAMESPACE").map(String::as_str), Some("1"));
    assert_eq!(
        plan.env.get("DYLD_INSERT_LIBRARIES").map(String::as_str),
        Some("/steam/Steam.AppBundle/Steam/Contents/MacOS/gameoverlayrenderer.dylib")
    );
    assert_eq!(plan.env.get("SteamAppId").map(String::as_str), Some("107410"));
    assert_eq!(plan.env.len(), 3);
}

#[test]
fn executable_and_overlay_paths() {
    assert_eq!(executable_for("/g", Platform::Other), "/g/arma3_x64");
    assert_eq!(
        executable_for("/g", Platform::MacOs),
        "/g/ArmA3 AS Native.app/Contents/MacOS/ArmA3 AS Native"
    );
    assert_eq!(
        overlay_dylib("/s"),
        "/s/Steam.AppBundle/Steam/Contents/MacOS/gameoverlayrenderer.dylib"
    );
}

#[test]
fn a_quote_in_the_game_path_is_escaped_in_the_preview() {
    let mut p = paths();
    p.game.path = "/games/it's here".to_string();
    let plan = build_launch_plan(&p, &[], LaunchOptions::default(), &no_overrides(), Platform::Other);
    assert!(plan.preview.starts_with("cd '/games/it'\\''s here' && "));
}
