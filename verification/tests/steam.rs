use brhap::steam::{
    default_steam_dir, discover_in, game_path, library_candidates, manifest_path, parse_install_dir,
    parse_library_paths, workshop_path, LibraryProbe, Platform,
};

const VDF: &str = r#"
"libraryfolders"
{
	"0"
	{
		"path"		"/Users/tester/Library/Application Support/Steam"
		"apps"
		{
			"8930"		"7418944313"
		}
	}
	"1"
	{
		"path"		"/Volumes/STICK/SteamLibrary"
		"apps"
		{
			"107410"		"92790810357"
		}
	}
}
"#;

#[test]
fn parses_every_library_path_in_order() {
    assert_eq!(
        parse_library_paths(VDF),
        vec![
            "/Users/tester/Library/Application Support/Steam".to_string(),
            "/Volumes/STICK/SteamLibrary".to_string(),
        ]
    );
}

#[test]
fn ignores_the_apps_index_even_when_it_claims_the_game() {
    let paths = parse_library_paths(VDF);
    assert!(!paths.iter().any(|path| path.contains("107410")));
}

#[test]
fn deduplicates_repeated_paths() {
    let vdf = r#""path" "/a" "path" "/a" "path" "/b""#;
    assert_eq!(parse_library_paths(vdf), vec!["/a".to_string(), "/b".to_string()]);
}

#[test]
fn empty_or_unparsable_vdf_yields_nothing() {
    assert!(parse_library_paths("").is_empty());
    assert!(parse_library_paths("not a vdf at all").is_empty());
}

#[test]
fn reads_the_install_dir_from_a_manifest() {
    let manifest = "\"AppState\"\n{\n\t\"appid\"\t\"107410\"\n\t\"installdir\"\t\"Arma 3\"\n}";
    assert_eq!(parse_install_dir(manifest).as_deref(), Some("Arma 3"));
}

#[test]
fn missing_install_dir_is_none() {
    assert_eq!(parse_install_dir("\"AppState\" { \"appid\" \"107410\" }"), None);
}

#[test]
fn falls_back_to_an_unverified_guess_when_nothing_confirms() {
    let steam = "/nonexistent/Steam";
    let paths = discover_in(&[LibraryProbe { game: None, workshop: None }], steam);
    assert!(!paths.game.verified);
    assert!(!paths.workshop.verified);
    assert_eq!(paths.game.path, "/nonexistent/Steam/steamapps/common/Arma 3");
    assert_eq!(paths.workshop.path, "/nonexistent/Steam/steamapps/workshop/content/107410");
    assert_eq!(paths.steam_dir, steam);
}

#[test]
fn the_first_confirmation_wins_for_each_location_on_its_own() {
    let probes = [
        LibraryProbe { game: None, workshop: Some("/a/workshop".to_string()) },
        LibraryProbe { game: Some("/b/game".to_string()), workshop: Some("/b/workshop".to_string()) },
        LibraryProbe { game: Some("/c/game".to_string()), workshop: None },
    ];
    let paths = discover_in(&probes, "/steam");
    assert_eq!(paths.game.path, "/b/game");
    assert!(paths.game.verified);
    assert_eq!(paths.workshop.path, "/a/workshop");
    assert!(paths.workshop.verified);
}

#[test]
fn paths_that_name_the_same_directory_count_once() {
    let vdf = r#""path" "/a/" "path" "/a//b" "path" "/a" "path" "/a/b""#;
    assert_eq!(parse_library_paths(vdf), vec!["/a/".to_string(), "/a//b".to_string()]);
}

#[test]
fn a_value_needs_whitespace_before_it_and_a_closing_quote() {
    assert!(parse_library_paths(r#""path""/glued""#).is_empty());
    assert!(parse_library_paths(r#""path" "unterminated"#).is_empty());
    assert!(parse_library_paths(r#""path" """#).is_empty());
}

#[test]
fn the_default_library_comes_first_and_is_not_repeated() {
    let steam = "/Users/tester/Library/Application Support/Steam";
    assert_eq!(
        library_candidates(steam, Some(VDF)),
        vec![steam.to_string(), "/Volumes/STICK/SteamLibrary".to_string()]
    );
    assert_eq!(library_candidates("/s", None), vec!["/s".to_string()]);
}

#[test]
fn library_locations() {
    assert_eq!(manifest_path("/lib"), "/lib/steamapps/appmanifest_107410.acf");
    assert_eq!(workshop_path("/lib"), "/lib/steamapps/workshop/content/107410");
    assert_eq!(
        game_path("/lib", "\"installdir\"\t\"Arma 3 Beta\""),
        "/lib/steamapps/common/Arma 3 Beta"
    );
    assert_eq!(game_path("/lib", "{}"), "/lib/steamapps/common/Arma 3");
}

#[test]
fn default_steam_directories() {
    assert_eq!(default_steam_dir("/home/t", Platform::Other), "/home/t/.local/share/Steam");
    assert_eq!(
        default_steam_dir("/Users/t", Platform::MacOs),
        "/Users/t/Library/Application Support/Steam"
    );
}
