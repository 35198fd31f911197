use brhap::map::StrMap;
use brhap::mods::{find_case_insensitive, parse_config, to_mod, ItemKind};

#[test]
fn unquotes_strings_and_keeps_numbers_verbatim() {
    let parsed = parse_config("protocol = 1;\npublishedid = 450814997;\nname = \"CBA_A3\";\n");
    assert_eq!(parsed.get("protocol").map(String::as_str), Some("1"));
    assert_eq!(parsed.get("publishedid").map(String::as_str), Some("450814997"));
    assert_eq!(parsed.get("name").map(String::as_str), Some("CBA_A3"));
}

#[test]
fn skips_blank_and_malformed_lines() {
    let parsed = parse_config("\nnot a config line\n  name = \"Misery\";\n");
    assert_eq!(parsed.len(), 1);
    assert_eq!(parsed.get("name").map(String::as_str), Some("Misery"));
}

#[test]
fn handles_windows_line_endings() {
    let parsed = parse_config("name = \"Zeus Enhanced\";\r\npublishedid = 1779063631;\r\n");
    assert_eq!(parsed.get("name").map(String::as_str), Some("Zeus Enhanced"));
    assert_eq!(parsed.get("publishedid").map(String::as_str), Some("1779063631"));
}

#[test]
fn prefers_meta_values_over_the_directory_name() {
    let mut meta = StrMap::new();
    meta.insert("publishedid".to_string(), "450814997".to_string());
    meta.insert("name".to_string(), "CBA_A3".to_string());
    let item = to_mod("450814997", "/mods/450814997".to_string(), &meta);
    assert_eq!(item.id, "450814997");
    assert_eq!(item.name, "CBA_A3");
}

#[test]
fn falls_back_to_the_directory_name_when_meta_is_unreadable() {
    let item = to_mod("2738615029", "/mods/2738615029".to_string(), &StrMap::new());
    assert_eq!(item.id, "2738615029");
    assert_eq!(item.name, "2738615029");
    assert_eq!(item.kind, ItemKind::Mod);
    assert_eq!(item.folder_name, None);
    assert_eq!(item.path, "/mods/2738615029");
}

#[test]
fn a_later_line_for_the_same_key_wins() {
    let parsed = parse_config("name = \"first\";\nname = \"second\";\n");
    assert_eq!(parsed.get("name").map(String::as_str), Some("second"));
}

#[test]
fn the_value_runs_to_the_last_semicolon_of_the_line() {
    let parsed = parse_config("tags = a;b;  \n");
    assert_eq!(parsed.get("tags").map(String::as_str), Some("a;b"));
}

#[test]
fn a_key_must_start_with_a_letter_or_underscore() {
    let parsed = parse_config("1abc = 2;\n_ok = \"yes\";\n");
    assert_eq!(parsed.len(), 1);
    assert_eq!(parsed.get("_ok").map(String::as_str), Some("yes"));
}

#[test]
fn finds_a_file_whatever_its_case() {
    let names = vec!["Addons".to_string(), "META.CPP".to_string(), "meta.cpp.bak".to_string()];
    assert_eq!(find_case_insensitive(&names, "meta.cpp"), Some(1));
    assert_eq!(find_case_insensitive(&names, "mod.cpp"), None);
}
