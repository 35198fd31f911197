use brhap::api::{ApiItem, WalkResult};
use brhap::json::Json;
use brhap::map::StrMap;
use brhap::mods::{ItemKind, Mod};
use brhap::resolve::{format_iso, ResolveStep, Resolver, Source};
use brhap::scrape::{PageInfo, ScrapeError};

fn item(id: &str, name: &str) -> Mod {
    Mod {
        id: id.to_string(),
        name: name.to_string(),
        path: format!("/w/{id}"),
        kind: ItemKind::Mod,
        folder_name: None,
    }
}

fn strings(list: &[&str]) -> Vec<String> {
    list.iter().map(|s| s.to_string()).collect()
}

fn page(name: Option<&str>, requires: &[&str], names: &[(&str, &str)]) -> PageInfo {
    let mut required_names = StrMap::new();
    for (id, n) in names {
        required_names.insert(id.to_string(), n.to_string());
    }
    PageInfo { name: name.map(str::to_string), requires: strings(requires), required_names }
}

#[test]
fn unknown_ids_report_nothing_rather_than_guessing() {
    let resolver = Resolver::new(
        "/nonexistent/workshop".to_string(),
        "/nonexistent/cache.json".to_string(),
        Vec::new(),
        &Json::Null,
    );
    let view = resolver.view("2888888564");
    assert_eq!(view.name, None);
    assert_eq!(view.requires, None);
    assert_eq!(view.source, Source::Unknown);
    assert!(!view.installed);
}

#[test]
fn timestamps_match_the_iso_shape_node_writes() {
    assert_eq!(format_iso(0), "1970-01-01T00:00:00.000Z");
    assert_eq!(format_iso(1_000_000_000), "2001-09-09T01:46:40.000Z");
}

#[test]
fn leap_years_do_not_shift_the_date() {
    assert_eq!(format_iso(1_709_164_800), "2024-02-29T00:00:00.000Z");
}

#[test]
fn the_last_second_of_a_century_leap_year() {
    assert_eq!(format_iso(951_868_799), "2000-02-29T23:59:59.000Z");
    assert_eq!(format_iso(4_102_444_800), "2100-01-01T00:00:00.000Z");
    assert_eq!(format_iso(4_107_542_400), "2100-03-01T00:00:00.000Z");
}

#[test]
fn consecutive_days_step_through_the_calendar() {
    assert_eq!(format_iso(946_684_799), "1999-12-31T23:59:59.000Z");
    assert_eq!(format_iso(946_684_800), "2000-01-01T00:00:00.000Z");
    assert_eq!(format_iso(1_709_251_199), "2024-02-29T23:59:59.000Z");
    assert_eq!(format_iso(1_709_251_200), "2024-03-01T00:00:00.000Z");
    assert_eq!(format_iso(1_677_628_799), "2023-02-28T23:59:59.000Z");
    assert_eq!(format_iso(1_677_628_800), "2023-03-01T00:00:00.000Z");
}

#[test]
fn installed_mods_are_named_by_disk_and_listed_by_name() {
    let resolver = Resolver::new(
        "/w".to_string(),
        "/c.json".to_string(),
        vec![item("2", "beta"), item("1", "Alpha"), item("3", "alpha")],
        &Json::Null,
    );
    let listed: Vec<String> = resolver.mods().iter().map(|m| m.id.clone()).collect();
    assert_eq!(listed, strings(&["1", "3", "2"]));
    let view = resolver.view("2");
    assert_eq!(view.name.as_deref(), Some("beta"));
    assert_eq!(view.source, Source::Disk);
    assert!(view.installed);
    assert_eq!(view.requires, None);
    assert_eq!(view.fetched_at, "");
}

#[test]
fn an_unknown_id_asks_for_its_page() {
    let resolver = Resolver::new("/w".to_string(), "/c.json".to_string(), Vec::new(), &Json::Null);
    match resolver.resolve("42", false) {
        ResolveStep::Fetch(url) => {
            assert_eq!(url, "https://steamcommunity.com/sharedfiles/filedetails/?id=42")
        }
        other => panic!("expected a fetch, got {other:?}"),
    }
}

#[test]
fn a_recorded_page_is_answered_from_the_cache_until_refreshed() {
    let mut resolver = Resolver::new("/w".to_string(), "/c.json".to_string(), Vec::new(), &Json::Null);
    let answer = resolver
        .record_fetch(
            "10",
            Ok(page(Some("Misery"), &["20", "30"], &[("20", "CBA_A3"), ("30", "ACE")])),
            "2026-01-01T00:00:00.000Z".to_string(),
        )
        .expect("recorded");
    assert_eq!(answer.name.as_deref(), Some("Misery"));
    assert_eq!(answer.requires, Some(strings(&["20", "30"])));
    assert_eq!(answer.source, Source::Cache);
    assert_eq!(answer.fetched_at, "2026-01-01T00:00:00.000Z");

    match resolver.resolve("10", false) {
        ResolveStep::Done(known) => assert_eq!(known, answer),
        other => panic!("expected the cached answer, got {other:?}"),
    }
    assert!(matches!(resolver.resolve("10", true), ResolveStep::Fetch(_)));

    let child = resolver.view("20");
    assert_eq!(child.name.as_deref(), Some("CBA_A3"));
    assert_eq!(child.requires, None);
    assert_eq!(child.fetched_at, "");
}

#[test]
fn a_page_for_an_installed_mod_keeps_the_disk_name() {
    let mut resolver =
        Resolver::new("/w".to_string(), "/c.json".to_string(), vec![item("10", "On Disk")], &Json::Null);
    let answer = resolver
        .record_fetch("10", Ok(page(Some("From Page"), &["20"], &[("20", "Child")])), "t".to_string())
        .expect("recorded");
    assert_eq!(answer.name.as_deref(), Some("On Disk"));
    assert_eq!(answer.requires, Some(strings(&["20"])));
    assert_eq!(answer.source, Source::Disk);
    assert_eq!(answer.fetched_at, "t");
}

#[test]
fn a_page_without_a_title_names_the_item_by_its_id() {
    let mut resolver = Resolver::new("/w".to_string(), "/c.json".to_string(), Vec::new(), &Json::Null);
    let answer = resolver.record_fetch("77", Ok(page(None, &[], &[])), "t".to_string()).expect("recorded");
    assert_eq!(answer.name.as_deref(), Some("77"));
    assert_eq!(answer.requires, Some(Vec::new()));
}

#[test]
fn a_required_name_does_not_replace_what_is_known() {
    let mut resolver = Resolver::new("/w".to_string(), "/c.json".to_string(), vec![item("5", "Disk Five")], &Json::Null);
    resolver
        .record_fetch("20", Ok(page(Some("Twenty"), &["30"], &[("30", "Thirty")])), "t1".to_string())
        .expect("recorded");
    resolver
        .record_fetch("10", Ok(page(Some("Ten"), &["20", "5"], &[("20", "Other Name"), ("5", "Page Five")])), "t2".to_string())
        .expect("recorded");
    assert_eq!(resolver.view("20").name.as_deref(), Some("Twenty"));
    assert_eq!(resolver.view("20").requires, Some(strings(&["30"])));
    assert_eq!(resolver.view("5").name.as_deref(), Some("Disk Five"));
    assert_eq!(resolver.view("5").requires, None);
}

#[test]
fn a_failed_fetch_records_nothing() {
    let mut resolver = Resolver::new("/w".to_string(), "/c.json".to_string(), Vec::new(), &Json::Null);
    let outcome = resolver.record_fetch("9", Err(ScrapeError::RateLimited("9".to_string())), "t".to_string());
    assert_eq!(outcome, Err(ScrapeError::RateLimited("9".to_string())));
    assert_eq!(resolver.view("9").source, Source::Unknown);
}

#[test]
fn resetting_forgets_the_network_but_not_the_disk() {
    let mut resolver =
        Resolver::new("/w".to_string(), "/c.json".to_string(), vec![item("10", "On Disk")], &Json::Null);
    resolver.record_fetch("10", Ok(page(Some("x"), &["20"], &[("20", "Child")])), "t".to_string()).expect("ok");
    resolver.reset_cache();
    assert_eq!(resolver.view("10").name.as_deref(), Some("On Disk"));
    assert_eq!(resolver.view("10").requires, None);
    assert_eq!(resolver.view("20").source, Source::Unknown);
}

#[test]
fn a_walk_fills_installed_and_referenced_items() {
    let mut resolver =
        Resolver::new("/w".to_string(), "/c.json".to_string(), vec![item("10", "On Disk")], &Json::Null);
    let mut items = StrMap::new();
    items.insert("10".to_string(), ApiItem { name: "Api Ten".to_string(), requires: strings(&["20"]) });
    items.insert("20".to_string(), ApiItem { name: "Api Twenty".to_string(), requires: Vec::new() });
    resolver.prefill_from_api(&WalkResult { items, calls: 2 }, "t");
    let ten = resolver.view("10");
    assert_eq!(ten.name.as_deref(), Some("On Disk"));
    assert_eq!(ten.requires, Some(strings(&["20"])));
    let twenty = resolver.view("20");
    assert_eq!(twenty.name.as_deref(), Some("Api Twenty"));
    assert_eq!(twenty.requires, Some(Vec::new()));
    assert_eq!(twenty.fetched_at, "t");
    assert_eq!(resolver.installed_ids(), strings(&["10"]));
}

#[test]
fn the_saved_cache_reads_back_the_same() {
    let mut resolver =
        Resolver::new("/w".to_string(), "/c.json".to_string(), vec![item("10", "On Disk")], &Json::Null);
    resolver.record_fetch("10", Ok(page(Some("x"), &["20"], &[("20", "Child")])), "t".to_string()).expect("ok");
    let saved = resolver.cache_json();
    let reloaded = Resolver::new("/w".to_string(), "/c.json".to_string(), vec![item("10", "On Disk")], &saved);
    assert_eq!(reloaded.view("10"), resolver.view("10"));
    assert_eq!(reloaded.view("20"), resolver.view("20"));
    assert_eq!(reloaded.cache_path(), "/c.json");
    assert_eq!(reloaded.workshop_dir(), "/w");
}
