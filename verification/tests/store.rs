use brhap::json::Json;
use brhap::store::{details_url, parse_name};

fn json(text: &str) -> Json {
    fn convert(v: &serde_json::Value) -> Json {
        match v {
            serde_json::Value::Null => Json::Null,
            serde_json::Value::Bool(b) => Json::Bool(*b),
            serde_json::Value::Number(n) => Json::Number(n.to_string()),
            serde_json::Value::String(s) => Json::Str(s.clone()),
            serde_json::Value::Array(items) => Json::Array(items.iter().map(convert).collect()),
            serde_json::Value::Object(fields) => {
                Json::Object(fields.iter().map(|(k, v)| (k.clone(), convert(v))).collect())
            }
        }
    }
    convert(&serde_json::from_str(text).expect("test JSON parses"))
}

#[test]
fn reads_the_name_from_a_successful_entry() {
    let body = json(r#"{ "395180": { "success": true, "data": { "name": "Arma 3 Apex" } } }"#);
    assert_eq!(parse_name(&body, 395180), Some("Arma 3 Apex".to_string()));
}

#[test]
fn an_unsuccessful_entry_yields_none() {
    let body = json(r#"{ "249861": { "success": false } }"#);
    assert_eq!(parse_name(&body, 249861), None);
}

#[test]
fn a_missing_entry_yields_none() {
    assert_eq!(parse_name(&json("{}"), 1), None);
}

#[test]
fn only_the_entry_for_the_asked_id_counts() {
    let body = json(r#"{ "1": { "success": true, "data": { "name": "One" } } }"#);
    assert_eq!(parse_name(&body, 10), None);
    assert_eq!(parse_name(&body, 1), Some("One".to_string()));
}

#[test]
fn the_request_asks_for_one_app() {
    assert_eq!(details_url(395180), "https://store.steampowered.com/api/appdetails?appids=395180");
}
