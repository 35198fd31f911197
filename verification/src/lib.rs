//! brhap: the logic of an Arma 3 mod launcher.

pub mod map;
pub mod mods;
pub mod path;
pub mod profiles;
pub mod resolve;
pub mod scrape;
pub mod screen;
pub mod session;
pub mod settings;
pub mod text;
pub mod ui;
pub mod api;
pub mod cache;
pub mod config;
pub mod service;
pub mod find;
pub mod json;
pub mod launch;
pub mod launcher;
pub mod steam;
pub mod store;
pub mod unicode;

use vstd::prelude::*;

verus! {

/// Steam Workshop app id for Arma 3.
pub const ARMA_APP_ID: &'static str = "107410";

} // verus!
