//! Resolving DLC names through the Store's public appdetails endpoint.
//!
//! No API key needed for this lookup, unlike the official partner Web API in
//! the api module: this is the same endpoint the store website itself uses.
//! The caller makes one request per id and hands each parsed body here.

use vstd::prelude::*;
use std::collections::HashMap;
use crate::json::{as_str, get, json_get, json_str, Json};
use crate::text::{decimal, decimal_string, owned};

verus! {

/// The appdetails endpoint, without its query.
pub const ENDPOINT: &'static str = "https://store.steampowered.com/api/appdetails";

/// App ids mapped to their Store name, or None when the id has no store page.
/// Not every id in a DLC list resolves one; some are unrelated ids.
pub struct AvailableDlc {
    pub names: HashMap<u64, Option<String>>,
}

/// The name one appdetails body gives for the id it was fetched for: the
/// entry under the id's decimal text must say `"success": true`, and its
/// `data.name` must be a string.
pub open spec fn spec_store_name(body: Json, id: nat) -> Option<Seq<char>> {
    match get(body, decimal(id)) {
        Some(entry) => if get(entry, "success"@) == Some(Json::Bool(true)) {
            match get(entry, "data"@) {
                Some(data) => as_str(get(data, "name"@)),
                None => None,
            }
        } else {
            None
        },
        None => None,
    }
}

/// Pull the name out of one appdetails response body for the id it was
/// fetched for. A missing or unsuccessful entry yields None rather than an
/// error, since that is Steam's own signal that the id has no store page.
pub fn parse_name(body: &Json, id: u64) -> (r: Option<String>)
    ensures
        match r {
            Some(n) => spec_store_name(*body, id as nat) == Some(n@),
            None => spec_store_name(*body, id as nat) is None,
        },
{
    let key = decimal_string(id);
    let entry = match json_get(body, key.as_str()) {
        Some(e) => e,
        None => {
            return None;
        },
    };
    let ok = match json_get(entry, "success") {
        Some(Json::Bool(b)) => *b,
        _ => false,
    };
    if !ok {
        return None;
    }
    let data = match json_get(entry, "data") {
        Some(d) => d,
        None => {
            return None;
        },
    };
    match json_str(json_get(data, "name")) {
        Some(n) => Some(owned(n.as_str())),
        None => None,
    }
}

/// The address that asks for one id's details.
pub fn details_url(id: u64) -> (r: String)
    ensures
        r@ == ENDPOINT@ + "?appids="@ + decimal(id as nat),
{
    let a = crate::text::concat(ENDPOINT, "?appids=");
    let d = decimal_string(id);
    crate::text::concat(a.as_str(), d.as_str())
}

} // verus!
