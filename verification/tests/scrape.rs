use brhap::scrape::{is_item_page, page_from_response, page_url, parse_workshop_page, ScrapeError};

/// A trimmed Workshop item page with a Required Items block.
const MISERY: &str = r#"<!DOCTYPE html>
<html>
<body>
<div class="workshopItemDetailsHeader">
    <div class="workshopItemTitle">Misery</div>
</div>
<div class="requiredItemsContainer" id="RequiredItems">
    <a href="https://steamcommunity.com/workshop/filedetails/?id=450814997" target="_blank">
        <div class="requiredItem">
            CBA_A3
        </div>
    </a>
    <a href="https://steamcommunity.com/workshop/filedetails/?id=463939057" target="_blank">
        <div class="requiredItem">
            ace
        </div>
    </a>
    <a href="https://steamcommunity.com/workshop/filedetails/?id=2888888564" target="_blank">
        <div class="requiredItem">
            Advanced Equipment
        </div>
    </a>
</div>
</body>
</html>
"#;

/// A trimmed Workshop item page without a Required Items block.
const NO_REQUIRED: &str = r#"<!DOCTYPE html>
<html>
<body>
<div class="workshopItemDetailsHeader">
    <div class="workshopItemTitle">CBA_A3</div>
</div>
<div class="workshopItemDescription">Community Base Addons.</div>
</body>
</html>
"#;

#[test]
fn reads_the_title_and_every_required_item() {
    let info = parse_workshop_page(MISERY);
    assert_eq!(info.name.as_deref(), Some("Misery"));
    assert_eq!(info.requires, vec!["450814997", "463939057", "2888888564"]);
    assert_eq!(info.required_names.get("450814997").map(String::as_str), Some("CBA_A3"));
    assert_eq!(info.required_names.get("2888888564").map(String::as_str), Some("Advanced Equipment"));
}

#[test]
fn returns_no_requirements_when_the_block_is_absent() {
    let info = parse_workshop_page(NO_REQUIRED);
    assert_eq!(info.name.as_deref(), Some("CBA_A3"));
    assert!(info.requires.is_empty());
}

#[test]
fn decodes_html_entities_in_names() {
    let info = parse_workshop_page(r#"<div class="workshopItemTitle">Guns &amp; Ammo</div>"#);
    assert_eq!(info.name.as_deref(), Some("Guns & Ammo"));
}

#[test]
fn recognizes_a_real_item_page() {
    assert!(is_item_page(MISERY));
    assert!(is_item_page(NO_REQUIRED));
}

#[test]
fn does_not_recognize_an_error_or_interstitial_page() {
    assert!(!is_item_page("<html><body>Too Many Requests</body></html>"));
    assert!(!is_item_page("<html><body><div class=\"error_ctn\">Oops</div></body></html>"));
    assert!(!is_item_page(""));
}

#[test]
fn survives_a_page_with_no_title_block() {
    let info = parse_workshop_page("<html><body>nothing useful</body></html>");
    assert_eq!(info.name, None);
    assert!(info.requires.is_empty());
}

#[test]
fn a_repeated_required_item_is_listed_once_with_its_first_name() {
    let html = r#"<div class="workshopItemTitle">X</div>
<a href="?id=1" x><div class="requiredItem">One</div></a>
<a href="?id=2"><div class="requiredItem">Two &quot;2&quot;</div></a>
<a href="?id=1"><div class="requiredItem">Again</div></a>"#;
    let info = parse_workshop_page(html);
    assert_eq!(info.requires, vec!["1", "2"]);
    assert_eq!(info.required_names.get("1").map(String::as_str), Some("One"));
    assert_eq!(info.required_names.get("2").map(String::as_str), Some("Two \"2\""));
}

#[test]
fn entities_decode_once_with_the_ampersand_last() {
    let info = parse_workshop_page(r#"<div class="workshopItemTitle"> &lt;b&gt; &amp;lt; &#39;q&#039; </div>"#);
    assert_eq!(info.name.as_deref(), Some("<b> &lt; 'q'"));
}

#[test]
fn every_response_status_has_its_outcome() {
    assert_eq!(
        page_from_response("5", 429, MISERY),
        Err(ScrapeError::RateLimited("5".to_string()))
    );
    assert_eq!(
        page_from_response("5", 503, MISERY),
        Err(ScrapeError::Http("Workshop page for 5 returned HTTP 503".to_string()))
    );
    assert_eq!(
        page_from_response("5", 200, "<html>interstitial</html>"),
        Err(ScrapeError::Unrecognized("5".to_string()))
    );
    let info = page_from_response("5", 200, MISERY).expect("an item page");
    assert_eq!(info.name.as_deref(), Some("Misery"));
    assert_eq!(info.requires.len(), 3);
}

#[test]
fn the_page_address_ends_with_the_id() {
    assert_eq!(page_url("450814997"), "https://steamcommunity.com/sharedfiles/filedetails/?id=450814997");
}

#[test]
fn error_messages_name_the_id() {
    assert_eq!(ScrapeError::RateLimited("7".to_string()).message(), "Steam rate limited the request for 7");
    assert_eq!(ScrapeError::Http("boom".to_string()).message(), "boom");
    assert_eq!(
        ScrapeError::Unrecognized("7".to_string()).message(),
        "the page returned for 7 was not a Workshop item page, so nothing was recorded"
    );
}
