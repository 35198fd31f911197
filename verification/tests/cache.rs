use brhap::cache::{merge_cache, Cache, CacheEntry, CacheStatus, DepsEntry};
use brhap::json::Json;

fn json(text: &str) -> Json {
    fn convert(v: &serde_json::Value) -> Json {
        match v {
            serde_json::Value::Null => Json::Null,
            serde_json::Value::Bool(b) => Json::Bool(*b),
            serde_json::Value::Number(n) => Json::Number(n.to_string()),
            serde_json::Value::String(s) => Json::Str(s.clone()),
            serde_json::Value::Array(items) => Json::Array(items.iter().map(convert).collect()),
            serde_json::Value::Object(fields) => {
                Json::Object(fields.iter().map(|(k, v)| (k.clone(), convert(v))).collect())
            }
        }
    }
    convert(&serde_json::from_str(text).expect("test JSON parses"))
}

fn sample() -> Json {
    json(
        r#"{
            "version": 2,
            "entries": {
                "2888888564": {
                    "name": "Advanced Equipment",
                    "requires": ["450814997"],
                    "fetchedAt": "2026-08-13T00:00:00.000Z"
                },
                "450814997": { "name": "CBA_A3", "requires": null, "fetchedAt": "" }
            },
            "installedDeps": {
                "463939057": {
                    "name": "ace",
                    "requires": ["450814997"],
                    "fetchedAt": "2026-08-13T00:00:00.000Z"
                },
                "999999999": { "requires": ["450814997"], "fetchedAt": "2026-08-13T00:00:00.000Z" }
            }
        }"#,
    )
}

fn ids(list: &[&str]) -> Vec<String> {
    list.iter().map(|id| id.to_string()).collect()
}

#[test]
fn drops_entries_for_ids_that_are_now_installed() {
    let cache = merge_cache(&sample(), &ids(&["450814997"]));
    assert_eq!(cache.status("450814997"), None, "installed ids lose their cached name");
    assert!(cache.status("2888888564").is_some(), "uninstalled ids keep theirs");
}

#[test]
fn keeps_a_null_requires_meaning_name_known_deps_unknown() {
    let cache = merge_cache(&sample(), &ids(&[]));
    match cache.status("450814997") {
        Some(CacheStatus::NotInstalled(entry)) => {
            assert_eq!(entry.name, "CBA_A3");
            assert_eq!(entry.requires, None);
        }
        other => panic!("expected a not-installed record, got {other:?}"),
    }
}

#[test]
fn keeps_installed_dependency_lists_across_a_restart() {
    let cache = merge_cache(&sample(), &ids(&["463939057"]));
    match cache.status("463939057") {
        Some(CacheStatus::Installed(entry)) => {
            assert_eq!(entry.requires, vec!["450814997".to_string()]);
        }
        other => panic!("expected an installed record, got {other:?}"),
    }
}

#[test]
fn drops_installed_deps_for_mods_no_longer_installed() {
    let cache = merge_cache(&sample(), &ids(&["463939057"]));
    assert!(!matches!(cache.status("999999999"), Some(CacheStatus::Installed(_))));
}

#[test]
fn demotes_a_name_into_entries_when_the_mod_is_uninstalled() {
    let cache = merge_cache(&sample(), &ids(&[]));
    match cache.status("463939057") {
        Some(CacheStatus::NotInstalled(entry)) => {
            assert_eq!(entry.name, "ace");
            assert_eq!(entry.requires, Some(vec!["450814997".to_string()]));
        }
        other => panic!("expected demotion into a not-installed record, got {other:?}"),
    }
}

#[test]
fn a_nameless_deps_record_is_dropped_rather_than_invented() {
    let cache = merge_cache(&sample(), &ids(&[]));
    assert_eq!(cache.status("999999999"), None);
}

#[test]
fn demotion_does_not_overwrite_an_existing_entry() {
    let raw = json(
        r#"{
            "entries": { "463939057": { "name": "from entries", "requires": null, "fetchedAt": "" } },
            "installedDeps": { "463939057": { "name": "ace", "requires": [], "fetchedAt": "" } }
        }"#,
    );
    let cache = merge_cache(&raw, &ids(&[]));
    match cache.status("463939057") {
        Some(CacheStatus::NotInstalled(entry)) => assert_eq!(entry.name, "from entries"),
        other => panic!("expected the existing entries record, got {other:?}"),
    }
}

#[test]
fn ignores_malformed_entries_rather_than_failing() {
    let raw = json(
        r#"{
            "version": 2,
            "entries": {
                "a": { "name": 5 },
                "b": { "name": "ok", "requires": "nope" },
                "c": { "name": "fine", "requires": [] }
            }
        }"#,
    );
    let cache = merge_cache(&raw, &ids(&[]));
    assert_eq!(cache.ids(), vec!["c".to_string()]);
}

#[test]
fn treats_a_missing_or_unparsable_file_as_empty() {
    let cache = merge_cache(&Json::Null, &ids(&[]));
    assert_eq!(cache.ids().len(), 0);
    assert_eq!(cache, Cache::default());
}

#[test]
fn status_reports_installed_or_not_installed_without_naming_a_field() {
    let cache = merge_cache(&sample(), &ids(&["463939057"]));

    match cache.status("463939057") {
        Some(CacheStatus::Installed(entry)) => {
            assert_eq!(entry.requires, vec!["450814997".to_string()]);
        }
        other => panic!("expected an installed record, got {other:?}"),
    }

    match cache.status("2888888564") {
        Some(CacheStatus::NotInstalled(entry)) => {
            assert_eq!(entry.name, "Advanced Equipment");
        }
        other => panic!("expected a not-installed record, got {other:?}"),
    }

    assert_eq!(cache.status("nonexistent"), None);
}

#[test]
fn the_written_file_reads_back_the_same() {
    let cache = merge_cache(&sample(), &ids(&["463939057"]));
    let written = cache.to_json();
    let reloaded = merge_cache(&written, &ids(&["463939057"]));
    assert_eq!(reloaded, cache);
    match &written {
        Json::Object(fields) => {
            let keys: Vec<&str> = fields.iter().map(|(k, _)| k.as_str()).collect();
            assert_eq!(keys, vec!["version", "entries", "installedDeps"]);
            assert_eq!(fields[0].1, Json::Number("2".to_string()));
        }
        other => panic!("expected an object, got {other:?}"),
    }
}

#[test]
fn the_two_section_array_shape_is_read_too() {
    let raw = json(r#"[ { "1": { "name": "one" } }, { "2": { "requires": ["1"] } } ]"#);
    let cache = merge_cache(&raw, &ids(&["2"]));
    assert_eq!(cache.ids(), vec!["1".to_string(), "2".to_string()]);
    match cache.status("2") {
        Some(CacheStatus::Installed(entry)) => {
            assert_eq!(entry.name, None);
            assert_eq!(entry.fetched_at, "");
        }
        other => panic!("expected an installed record, got {other:?}"),
    }
}

#[test]
fn a_section_of_the_wrong_shape_empties_the_file() {
    let raw = json(r#"{ "entries": [], "installedDeps": { "1": { "requires": [] } } }"#);
    let cache = merge_cache(&raw, &ids(&["1"]));
    assert_eq!(cache.ids().len(), 0);
}

#[test]
fn records_can_be_added_and_looked_up() {
    let mut cache = Cache::new();
    cache.insert(
        "5".to_string(),
        CacheStatus::Installed(DepsEntry { name: None, requires: Vec::new(), fetched_at: String::new() }),
    );
    cache.insert(
        "4".to_string(),
        CacheStatus::NotInstalled(CacheEntry { name: "four".to_string(), requires: None, fetched_at: String::new() }),
    );
    assert!(cache.contains("5"));
    assert!(!cache.contains("6"));
    assert_eq!(cache.ids(), vec!["4".to_string(), "5".to_string()]);
}

#[test]
fn each_section_is_written_in_id_order() {
    let mut cache = Cache::new();
    for id in ["9", "b", "10", "a"] {
        cache.insert(
            id.to_string(),
            CacheStatus::NotInstalled(CacheEntry { name: id.to_string(), requires: None, fetched_at: String::new() }),
        );
    }
    cache.insert(
        "2".to_string(),
        CacheStatus::Installed(DepsEntry { name: None, requires: Vec::new(), fetched_at: String::new() }),
    );
    cache.insert(
        "1".to_string(),
        CacheStatus::Installed(DepsEntry { name: None, requires: Vec::new(), fetched_at: String::new() }),
    );
    match cache.to_json() {
        Json::Object(fields) => {
            let keys_of = |section: &Json| -> Vec<String> {
                match section {
                    Json::Object(records) => records.iter().map(|(k, _)| k.clone()).collect(),
                    other => panic!("expected an object, got {other:?}"),
                }
            };
            assert_eq!(keys_of(&fields[1].1), vec!["10", "9", "a", "b"]);
            assert_eq!(keys_of(&fields[2].1), vec!["1", "2"]);
        }
        other => panic!("expected an object, got {other:?}"),
    }
}
