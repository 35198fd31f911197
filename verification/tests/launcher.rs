use brhap::launcher::{is_managed_link, managed_links, DirEntry};

fn workshop() -> String {
    "/steam/steamapps/workshop/content/107410".to_string()
}

#[test]
fn accepts_links_into_the_workshop_content_directory() {
    assert!(is_managed_link(&format!("{}/450814997", workshop()), &workshop()));
}

#[test]
fn rejects_links_elsewhere_in_the_game_directory() {
    assert!(!is_managed_link("/Users/someone/mods/@custom", &workshop()));
    assert!(!is_managed_link("/usr/local/lib/whatever", &workshop()));
}

#[test]
fn rejects_a_path_that_only_shares_the_prefix_string() {
    let sibling = "/steam/steamapps/workshop/content/107410-elsewhere/450814997";
    assert!(!is_managed_link(sibling, &workshop()));
}

#[test]
fn rejects_the_workshop_directory_itself() {
    assert!(!is_managed_link(&workshop(), &workshop()));
}

#[test]
fn a_trailing_slash_does_not_change_the_answer() {
    assert!(is_managed_link("/steam/steamapps/workshop/content/107410//450814997/", &workshop()));
    assert!(!is_managed_link("/steam/steamapps/workshop/content/107410/", &workshop()));
}

#[test]
fn only_links_into_the_workshop_are_swept() {
    let entries = vec![
        DirEntry { path: "/game/450814997".to_string(), link_target: Some(format!("{}/450814997", workshop())) },
        DirEntry { path: "/game/@custom".to_string(), link_target: Some("/Users/me/mods/custom".to_string()) },
        DirEntry { path: "/game/addons".to_string(), link_target: None },
    ];
    assert_eq!(managed_links(&entries, &workshop()), vec!["/game/450814997".to_string()]);
}
