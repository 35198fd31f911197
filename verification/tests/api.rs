use brhap::api::{parse_details, steam_key_from, ApiItem, Walk};
use brhap::json::Json;
use brhap::map::StrMap;

fn json(text: &str) -> Json {
    fn convert(v: &serde_json::Value) -> Json {
        match v {
            serde_json::Value::Null => Json::Null,
            serde_json::Value::Bool(b) => Json::Bool(*b),
            serde_json::Value::Number(n) => Json::Number(n.to_string()),
            serde_json::Value::String(s) => Json::Str(s.clone()),
            serde_json::Value::Array(items) => Json::Array(items.iter().map(convert).collect()),
            serde_json::Value::Object(fields) => {
                Json::Object(fields.iter().map(|(k, v)| (k.clone(), convert(v))).collect())
            }
        }
    }
    convert(&serde_json::from_str(text).expect("test JSON parses"))
}

fn sample() -> Json {
    json(
        r#"{
            "response": {
                "publishedfiledetails": [
                    { "publishedfileid": "450814997", "title": "CBA_A3", "num_children": 0 },
                    {
                        "publishedfileid": "2738615029",
                        "title": "Misery",
                        "num_children": 3,
                        "children": [
                            { "publishedfileid": "450814997" },
                            { "publishedfileid": "463939057" },
                            { "publishedfileid": "2888888564" }
                        ]
                    }
                ]
            }
        }"#,
    )
}

fn strings(list: &[&str]) -> Vec<String> {
    list.iter().map(|s| s.to_string()).collect()
}

#[test]
fn reads_titles_and_children() {
    let items = parse_details(&sample());
    assert_eq!(items.get("450814997").map(|item| item.name.clone()), Some("CBA_A3".to_string()));
    assert_eq!(
        items.get("2738615029").map(|item| item.requires.clone()),
        Some(strings(&["450814997", "463939057", "2888888564"]))
    );
}

#[test]
fn a_missing_children_key_means_no_requirements() {
    let items = parse_details(&sample());
    assert_eq!(items.get("450814997").map(|item| item.requires.len()), Some(0));
}

#[test]
fn an_unexpected_body_yields_nothing() {
    assert_eq!(parse_details(&json("{}")).len(), 0);
    assert_eq!(parse_details(&json(r#"{ "response": { "publishedfiledetails": "nope" } }"#)).len(), 0);
}

#[test]
fn an_untitled_item_is_named_by_its_id_and_idless_entries_are_skipped() {
    let body = json(
        r#"{ "response": { "publishedfiledetails": [
            { "publishedfileid": "7" },
            { "title": "no id" },
            { "publishedfileid": "8", "children": [ { "x": 1 }, { "publishedfileid": "7" } ] }
        ] } }"#,
    );
    let items = parse_details(&body);
    assert_eq!(items.len(), 2);
    assert_eq!(items.get("7").map(|i| i.name.clone()), Some("7".to_string()));
    assert_eq!(items.get("8").map(|i| i.requires.clone()), Some(strings(&["7"])));
}

#[test]
fn a_blank_key_is_no_key() {
    assert_eq!(steam_key_from(None), None);
    assert_eq!(steam_key_from(Some("   ".to_string())), None);
    assert_eq!(steam_key_from(Some(String::new())), None);
    assert_eq!(steam_key_from(Some(" abc ".to_string())), Some(" abc ".to_string()));
}

fn answer(pairs: &[(&str, &[&str])]) -> StrMap<ApiItem> {
    let mut items = StrMap::new();
    for (id, reqs) in pairs {
        items.insert(id.to_string(), ApiItem { name: format!("item {id}"), requires: strings(reqs) });
    }
    items
}

#[test]
fn a_walk_asks_each_level_once_and_never_repeats_an_id() {
    let mut walk = Walk::start(&strings(&["1", "2", "1"]));
    assert_eq!(walk.next_batch(), Some(strings(&["1", "2"])));
    walk.record(answer(&[("1", &["3", "2"]), ("2", &["3", "4"])]));
    assert_eq!(walk.next_batch(), Some(strings(&["3", "4"])));
    walk.record(answer(&[("3", &["1"]), ("4", &[])]));
    assert_eq!(walk.next_batch(), None);
    let result = walk.finish();
    assert_eq!(result.calls, 2);
    assert_eq!(result.items.len(), 4);
    assert_eq!(result.items.get("4").map(|i| i.name.clone()), Some("item 4".to_string()));
}

#[test]
fn a_walk_stops_after_the_round_limit() {
    let mut walk = Walk::start(&strings(&["0"]));
    let mut rounds = 0;
    while let Some(batch) = walk.next_batch() {
        let id: u32 = batch[0].parse().expect("numeric");
        let next = (id + 1).to_string();
        walk.record(answer(&[(batch[0].as_str(), &[next.as_str()])]));
        rounds += 1;
    }
    assert_eq!(rounds, 10);
    assert_eq!(walk.finish().calls, 10);
}

#[test]
fn a_walk_of_nothing_makes_no_call() {
    let walk = Walk::start(&[]);
    assert_eq!(walk.next_batch(), None);
    assert_eq!(walk.finish().calls, 0);
}
