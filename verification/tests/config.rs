use brhap::config::{cache_file, config_base, config_dir, profiles_file};
use brhap::settings::settings_file;

#[test]
fn empty_xdg_value_falls_back_to_home() {
    assert_eq!(config_dir(Some(""), "/home/tester"), "/home/tester/.config/brhap");
}

#[test]
fn whitespace_xdg_value_falls_back_to_home() {
    assert_eq!(config_dir(Some("   "), "/home/tester"), "/home/tester/.config/brhap");
}

#[test]
fn unset_xdg_value_falls_back_to_home() {
    assert_eq!(config_dir(None, "/home/tester"), "/home/tester/.config/brhap");
}

#[test]
fn set_xdg_value_wins() {
    assert_eq!(cache_file(Some("/elsewhere"), "/home/tester"), "/elsewhere/brhap/cache.json");
}

#[test]
fn every_file_lives_in_the_config_directory() {
    assert_eq!(profiles_file(None, "/h"), "/h/.config/brhap/profiles.json");
    assert_eq!(settings_file(None, "/h"), "/h/.config/brhap/settings.json");
    assert_eq!(config_base(Some("/x/"), "/h"), "/x/");
    assert_eq!(config_dir(Some("/x/"), "/h"), "/x/brhap");
}

#[test]
fn an_unset_home_gives_a_relative_directory() {
    assert_eq!(config_dir(None, ""), ".config/brhap");
}
