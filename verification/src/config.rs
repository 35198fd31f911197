//! Where brhap keeps its own files.
//!
//! The `~/.config/brhap/` directory and the files in it, with
//! `XDG_CONFIG_HOME` honored only when it is set and non-empty, since an
//! exported-but-empty value would otherwise resolve to the filesystem root.
//! The caller reads the two environment variables and passes their values.

use vstd::prelude::*;
use crate::path::{join, path_join};
use crate::text::{all_ws, is_blank, owned};

verus! {

/// Application name, and the directory it keeps its files in.
pub const APP_NAME: &'static str = "brhap";

/// The base config directory: `XDG_CONFIG_HOME` when it holds more than
/// whitespace, otherwise `.config` under the home directory.
pub open spec fn spec_config_base(xdg: Option<Seq<char>>, home: Seq<char>) -> Seq<char> {
    match xdg {
        Some(v) => if all_ws(v) { join(home, ".config"@) } else { v },
        None => join(home, ".config"@),
    }
}

/// Our own config directory.
pub open spec fn spec_config_dir(xdg: Option<Seq<char>>, home: Seq<char>) -> Seq<char> {
    join(spec_config_base(xdg, home), APP_NAME@)
}

/// The text of an optional string slice.
pub open spec fn opt_str(v: Option<&str>) -> Option<Seq<char>> {
    match v {
        Some(s) => Some(s@),
        None => None,
    }
}

/// Base config directory, honoring a set and non-empty `XDG_CONFIG_HOME`.
pub fn config_base(xdg: Option<&str>, home: &str) -> (r: String)
    ensures
        r@ == spec_config_base(opt_str(xdg), home@),
{
    match xdg {
        Some(v) => if is_blank(v) {
            path_join(home, ".config")
        } else {
            owned(v)
        },
        None => path_join(home, ".config"),
    }
}

/// Our own config directory, normally `~/.config/brhap`.
pub fn config_dir(xdg: Option<&str>, home: &str) -> (r: String)
    ensures
        r@ == spec_config_dir(opt_str(xdg), home@),
{
    let base = config_base(xdg, home);
    path_join(base.as_str(), APP_NAME)
}

/// The persisted dependency cache.
pub fn cache_file(xdg: Option<&str>, home: &str) -> (r: String)
    ensures
        r@ == join(spec_config_dir(opt_str(xdg), home@), "cache.json"@),
{
    let dir = config_dir(xdg, home);
    path_join(dir.as_str(), "cache.json")
}

/// Saved launch profiles and the last launch.
pub fn profiles_file(xdg: Option<&str>, home: &str) -> (r: String)
    ensures
        r@ == join(spec_config_dir(opt_str(xdg), home@), "profiles.json"@),
{
    let dir = config_dir(xdg, home);
    path_join(dir.as_str(), "profiles.json")
}

/// An empty or blank `XDG_CONFIG_HOME` never leads to the filesystem root:
/// it counts as unset, and the directory is the one under the home directory.
pub proof fn lemma_blank_xdg_is_unset(v: Seq<char>, home: Seq<char>)
    requires
        all_ws(v),
    ensures
        spec_config_dir(Some(v), home) == spec_config_dir(None, home),
{
}

} // verus!
