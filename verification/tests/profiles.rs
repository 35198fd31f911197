use brhap::launch::LaunchOptions;
use brhap::map::StrMap;
use brhap::profiles::{add_named, record_launch, remove, ProfileError, ProfileStore, Profiles};

fn ids(list: &[&str]) -> Vec<String> {
    list.iter().map(|id| id.to_string()).collect()
}

fn no_overrides() -> StrMap<String> {
    StrMap::new()
}

fn launched() -> Profiles {
    let mut store = Profiles::default();
    record_launch(
        &mut store,
        &ids(&["450814997", "463939057"]),
        LaunchOptions {
            no_splash: true,
            skip_intro: false,
            empty_world: false,
            intel_mode: false,
            steam_overlay: false,
        },
        &no_overrides(),
    );
    store
}

#[test]
fn a_new_launch_replaces_the_previous_record() {
    let mut store = launched();
    record_launch(&mut store, &ids(&["111"]), LaunchOptions::default(), &no_overrides());
    assert_eq!(store.last_launch.map(|last| last.ids), Some(ids(&["111"])));
}

#[test]
fn naming_copies_the_last_launch() {
    let mut store = launched();
    add_named(&mut store, "night ops").expect("saves");
    let profile = store.profiles.first().expect("one profile");
    assert_eq!(profile.name, "night ops");
    assert_eq!(profile.ids, ids(&["450814997", "463939057"]));
    assert!(profile.options.no_splash);
}

#[test]
fn naming_copies_overrides_from_the_last_launch() {
    let mut store = Profiles::default();
    let mut overrides = StrMap::new();
    overrides.insert("450814997".to_string(), "/Users/tester/mymod".to_string());
    record_launch(&mut store, &ids(&["450814997"]), LaunchOptions::default(), &overrides);
    add_named(&mut store, "night ops").expect("saves");
    assert_eq!(store.profiles[0].overrides, overrides);
}

#[test]
fn a_saved_profile_does_not_follow_later_launches() {
    let mut store = launched();
    add_named(&mut store, "night ops").expect("saves");
    record_launch(&mut store, &ids(&["111"]), LaunchOptions::default(), &no_overrides());
    assert_eq!(store.profiles[0].ids, ids(&["450814997", "463939057"]));
}

#[test]
fn a_name_is_trimmed_before_it_is_used() {
    let mut store = launched();
    add_named(&mut store, "  night ops  ").expect("saves");
    assert_eq!(store.profiles[0].name, "night ops");
}

#[test]
fn refuses_a_blank_name() {
    let mut store = launched();
    assert!(matches!(add_named(&mut store, "   "), Err(ProfileError::EmptyName)));
    assert!(store.profiles.is_empty());
}

#[test]
fn refuses_a_name_already_in_use() {
    let mut store = launched();
    add_named(&mut store, "night ops").expect("saves");
    assert!(matches!(add_named(&mut store, "night ops"), Err(ProfileError::DuplicateName(_))));
    assert_eq!(store.profiles.len(), 1);
}

#[test]
fn refuses_to_name_a_launch_that_never_happened() {
    let mut store = Profiles::default();
    assert!(matches!(add_named(&mut store, "night ops"), Err(ProfileError::NoLastLaunch)));
}

#[test]
fn removing_drops_only_the_named_profile() {
    let mut store = launched();
    add_named(&mut store, "night ops").expect("saves");
    add_named(&mut store, "daytime").expect("saves");
    remove(&mut store, "night ops").expect("removes");
    assert_eq!(store.profiles.len(), 1);
    assert_eq!(store.profiles[0].name, "daytime");
    assert!(store.last_launch.is_some(), "deleting a profile leaves the last launch alone");
}

#[test]
fn removing_an_unknown_name_is_an_error() {
    let mut store = launched();
    assert!(matches!(remove(&mut store, "nope"), Err(ProfileError::UnknownName(_))));
}

#[test]
fn a_blank_name_is_checked_before_the_launch_is() {
    let mut store = Profiles::default();
    assert!(matches!(add_named(&mut store, ""), Err(ProfileError::EmptyName)));
}

#[test]
fn the_duplicate_error_names_the_trimmed_name() {
    let mut store = launched();
    add_named(&mut store, "night ops").expect("saves");
    match add_named(&mut store, " night ops ") {
        Err(ProfileError::DuplicateName(name)) => assert_eq!(name, "night ops"),
        other => panic!("expected a duplicate, got {other:?}"),
    }
}

#[test]
fn error_messages_read_as_sentences() {
    assert_eq!(ProfileError::NoLastLaunch.message(), "nothing has been launched yet");
    assert_eq!(ProfileError::EmptyName.message(), "give the profile a name");
    assert_eq!(
        ProfileError::DuplicateName("a".to_string()).message(),
        "a profile named \"a\" already exists"
    );
    assert_eq!(ProfileError::UnknownName("b".to_string()).message(), "no profile named \"b\"");
    assert_eq!(ProfileError::Io("disk full".to_string()).message(), "disk full");
}

#[test]
fn the_store_keeps_its_file_and_forwards_each_change() {
    let mut store = ProfileStore::new("/tmp/profiles.json".to_string(), Profiles::default());
    assert_eq!(store.path(), "/tmp/profiles.json");
    assert!(matches!(store.save_named("x"), Err(ProfileError::NoLastLaunch)));
    store.record_launch(&ids(&["1"]), LaunchOptions::default(), &no_overrides());
    store.save_named("x").expect("saves");
    assert_eq!(store.view().profiles.len(), 1);
    store.delete("x").expect("deletes");
    assert!(store.view().profiles.is_empty());
    assert!(store.view().last_launch.is_some());
}
