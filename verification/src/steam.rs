//! Finding the Steam install, the game, and the workshop content.
//!
//! Two-step resolution: the default Steam directory is the fallback guess,
//! `steamapps/libraryfolders.vdf` supplies further candidates, and each
//! candidate is confirmed by the presence of
//! `steamapps/appmanifest_107410.acf`. Confirmed beats guessed. An
//! unconfirmed guess is returned marked unverified rather than failing, since
//! the vdf's own `apps` index has been observed to be stale.
//!
//! Workshop content resolves independently against
//! `steamapps/workshop/content/107410`, because the two can live in different
//! libraries. What is on disk is looked at by the caller; this module decides
//! what it amounts to.

use vstd::prelude::*;
use crate::cache::texts;
use crate::path::{join, path_eq, path_join, same_path};
use crate::text::{chars_of, concat, is_whitespace, is_ws, lead_ws, lemma_lead_ws,
    lemma_lead_ws_unique, owned, string_of_range};
use crate::ARMA_APP_ID;

verus! {

/// The platform a launch is described for. The game binary and the Steam
/// overlay differ between macOS and everything else.
#[derive(Debug, Clone, Copy, PartialEq, Eq)]
pub enum Platform {
    MacOs,
    Other,
}

/// A resolved path, and whether anything on disk actually confirmed it.
#[derive(Debug, Clone, PartialEq, Eq)]
pub struct Located {
    pub path: String,
    /// False means this is the fallback guess, not a confirmed location.
    pub verified: bool,
}

/// Where the game and the workshop content live. Resolved independently.
#[derive(Debug, Clone, PartialEq, Eq)]
pub struct SteamPaths {
    /// The Steam install itself, which is where the overlay library lives.
    pub steam_dir: String,
    pub game: Located,
    pub workshop: Located,
}

/// Where Steam installs itself by default, under the home directory.
pub open spec fn steam_home(platform: Platform) -> Seq<char> {
    match platform {
        Platform::MacOs => "Library/Application Support/Steam"@,
        Platform::Other => ".local/share/Steam"@,
    }
}

/// Default Steam directory for a platform, given the home directory.
pub fn default_steam_dir(home: &str, platform: Platform) -> (r: String)
    ensures
        r@ == join(home@, steam_home(platform)),
{
    match platform {
        Platform::MacOs => path_join(home, "Library/Application Support/Steam"),
        Platform::Other => path_join(home, ".local/share/Steam"),
    }
}

/// The number of leading characters of `s` that are not a double quote.
pub open spec fn quote_free(s: Seq<char>) -> nat
    decreases s.len(),
{
    if s.len() > 0 && s[0] != '"' {
        1 + quote_free(s.drop_first())
    } else {
        0
    }
}

proof fn lemma_quote_free(s: Seq<char>)
    ensures
        quote_free(s) <= s.len(),
        forall|i: int| 0 <= i < quote_free(s) ==> #[trigger] s[i] != '"',
        quote_free(s) < s.len() ==> s[quote_free(s) as int] == '"',
    decreases s.len(),
{
    if s.len() > 0 && s[0] != '"' {
        lemma_quote_free(s.drop_first());
        assert forall|i: int| 0 <= i < quote_free(s) implies #[trigger] s[i] != '"' by {
            if i > 0 {
                assert(s[i] == s.drop_first()[i - 1]);
            }
        }
    }
}

proof fn lemma_quote_free_unique(s: Seq<char>, k: int)
    requires
        0 <= k <= s.len(),
        forall|i: int| 0 <= i < k ==> #[trigger] s[i] != '"',
        k < s.len() ==> s[k] == '"',
    ensures
        quote_free(s) == k,
{
    lemma_quote_free(s);
    if quote_free(s) < k {
        assert(s[quote_free(s) as int] != '"');
    } else if quote_free(s) > k {
        assert(s[k] != '"');
    }
}

/// A match of `"key"`, whitespace, then a quoted value of at least one
/// character, starting at `p`, as the pattern `"key"\s+"([^"]+)"` matches:
/// the value and where the match ends.
pub open spec fn value_at(t: Seq<char>, key: Seq<char>, p: int) -> Option<(Seq<char>, int)> {
    let kq = seq!['"'] + key + seq!['"'];
    let a = p + kq.len();
    if 0 <= p && a <= t.len() && t.subrange(p, a) == kq {
        let w = lead_ws(t.skip(a));
        let b = a + w + 1;
        if w >= 1 && a + w < t.len() && t[a + w] == '"' {
            let q = quote_free(t.skip(b));
            if q >= 1 && b + q < t.len() {
                Some((t.subrange(b, b + q), b + q + 1))
            } else {
                None
            }
        } else {
            None
        }
    } else {
        None
    }
}

/// The values of every match from `p` on, leftmost first, each search
/// resuming where the previous match ended.
pub open spec fn values_from(t: Seq<char>, key: Seq<char>, p: int) -> Seq<Seq<char>>
    decreases t.len() - p,
{
    if p < 0 || p >= t.len() {
        Seq::empty()
    } else {
        match value_at(t, key, p) {
            Some((v, e)) => if e > p {
                seq![v] + values_from(t, key, e)
            } else {
                Seq::empty()
            },
            None => values_from(t, key, p + 1),
        }
    }
}

fn count_quote_free(t: &Vec<char>, from: usize) -> (n: usize)
    requires
        from <= t.len(),
    ensures
        n == quote_free(t@.skip(from as int)),
        from + n <= t.len(),
{
    let mut i = from;
    while i < t.len() && t[i] != '"'
        invariant
            from <= i <= t.len(),
            forall|j: int| from <= j < i ==> #[trigger] t@[j] != '"',
        decreases t.len() - i,
    {
        i += 1;
    }
    proof {
        let s = t@.skip(from as int);
        assert forall|j: int| 0 <= j < i - from implies #[trigger] s[j] != '"' by {
            assert(s[j] == t@[j + from]);
        }
        if i < t.len() {
            assert(s[i - from] == t@[i as int]);
        }
        lemma_quote_free_unique(s, (i - from) as int);
    }
    i - from
}

fn count_ws(t: &Vec<char>, from: usize) -> (n: usize)
    requires
        from <= t.len(),
    ensures
        n == lead_ws(t@.skip(from as int)),
        from + n <= t.len(),
{
    let mut i = from;
    while i < t.len() && is_whitespace(t[i])
        invariant
            from <= i <= t.len(),
            forall|j: int| from <= j < i ==> is_ws(#[trigger] t@[j]),
        decreases t.len() - i,
    {
        i += 1;
    }
    proof {
        let s = t@.skip(from as int);
        assert forall|j: int| 0 <= j < i - from implies is_ws(#[trigger] s[j]) by {
            assert(s[j] == t@[j + from]);
        }
        if i < t.len() {
            assert(s[i - from] == t@[i as int]);
        }
        lemma_lead_ws_unique(s, (i - from) as int);
    }
    i - from
}

/// Whether `"key"` stands at `p`.
fn quoted_key_at(t: &Vec<char>, key: &Vec<char>, p: usize) -> (r: bool)
    requires
        p <= t.len(),
    ensures
        r == (p + key.len() + 2 <= t.len() && t@.subrange(p as int, p + key.len() + 2) == seq!['"']
            + key@ + seq!['"']),
{
    let ghost kq = seq!['"'] + key@ + seq!['"'];
    if key.len() > t.len() || p > t.len() - key.len() || t.len() - key.len() - p < 2 {
        return false;
    }
    if t[p] != '"' || t[p + key.len() + 1] != '"' {
        proof {
            if t@.subrange(p as int, p + key.len() + 2) == kq {
                assert(t@.subrange(p as int, p + key.len() + 2)[0] == kq[0]);
                assert(t@.subrange(p as int, p + key.len() + 2)[key.len() + 1] == kq[key.len() + 1]);
            }
        }
        return false;
    }
    let mut i: usize = 0;
    while i < key.len()
        invariant
            i <= key.len(),
            p + key.len() + 2 <= t.len(),
            forall|j: int| 0 <= j < i ==> t@[p + 1 + j] == key@[j],
        decreases key.len() - i,
    {
        if t[p + 1 + i] != key[i] {
            proof {
                if t@.subrange(p as int, p + key.len() + 2) == kq {
                    assert(t@.subrange(p as int, p + key.len() + 2)[i + 1] == kq[i + 1]);
                }
            }
            return false;
        }
        i += 1;
    }
    assert(t@.subrange(p as int, p + key.len() + 2) =~= kq);
    true
}

/// The match at `p`, as the start and end of its value and the end of the
/// match.
fn match_at(t: &Vec<char>, key: &Vec<char>, p: usize) -> (r: Option<(usize, usize, usize)>)
    requires
        p < t.len(),
    ensures
        match r {
            Some((b, c, e)) => b <= c <= t.len() && p < e <= t.len() && value_at(t@, key@, p as int)
                == Some((t@.subrange(b as int, c as int), e as int)),
            None => value_at(t@, key@, p as int) is None,
        },
{
    let ghost kq = seq!['"'] + key@ + seq!['"'];
    if !quoted_key_at(t, key, p) {
        return None;
    }
    let a = p + key.len() + 2;
    let w = count_ws(t, a);
    if w < 1 || a + w >= t.len() || t[a + w] != '"' {
        return None;
    }
    let b = a + w + 1;
    let q = count_quote_free(t, b);
    if q < 1 || b + q >= t.len() {
        return None;
    }
    Some((b, b + q, b + q + 1))
}

/// The values of every match of `"key"\s+"([^"]+)"` in `text`, in order.
fn values_of(text: &str, key: &str) -> (r: Vec<String>)
    ensures
        texts(r@) == values_from(text@, key@, 0),
{
    let t = chars_of(text);
    let k = chars_of(key);
    let mut out: Vec<String> = Vec::new();
    let mut p: usize = 0;
    while p < t.len()
        invariant
            p <= t.len(),
            t@ == text@,
            k@ == key@,
            values_from(text@, key@, 0) == texts(out@) + values_from(text@, key@, p as int),
        decreases t.len() - p,
    {
        match match_at(&t, &k, p) {
            Some((b, c, e)) => {
                let v = string_of_range(&t, b, c);
                let ghost before = out@;
                out.push(v);
                assert(texts(out@) =~= texts(before).push(v@));
                assert(texts(out@) + values_from(text@, key@, e as int) =~= texts(before) + (seq![v@]
                    + values_from(text@, key@, e as int)));
                p = e;
            },
            None => {
                p += 1;
            },
        }
    }
    assert(texts(out@) + Seq::<Seq<char>>::empty() =~= texts(out@));
    out
}

/// Whether one of `paths` names the same path as `p`.
pub open spec fn has_path(paths: Seq<Seq<char>>, p: Seq<char>) -> bool {
    exists|i: int| 0 <= i < paths.len() && same_path(#[trigger] paths[i], p)
}

/// `paths` with each path kept only where it first occurs, paths that name
/// the same components counting as one.
pub open spec fn distinct_paths(paths: Seq<Seq<char>>) -> Seq<Seq<char>>
    decreases paths.len(),
{
    if paths.len() == 0 {
        Seq::empty()
    } else {
        let rest = distinct_paths(paths.drop_last());
        if has_path(rest, paths.last()) {
            rest
        } else {
            rest.push(paths.last())
        }
    }
}

/// `first` followed by each of `more` that it does not already name.
pub open spec fn merged_paths(first: Seq<Seq<char>>, more: Seq<Seq<char>>) -> Seq<Seq<char>>
    decreases more.len(),
{
    if more.len() == 0 {
        first
    } else {
        let rest = merged_paths(first, more.drop_last());
        if has_path(rest, more.last()) {
            rest
        } else {
            rest.push(more.last())
        }
    }
}

/// Whether `paths` names `p`.
fn holds_path(paths: &Vec<String>, p: &str) -> (r: bool)
    ensures
        r == has_path(texts(paths@), p@),
{
    let mut i: usize = 0;
    while i < paths.len()
        invariant
            i <= paths.len(),
            forall|j: int| 0 <= j < i ==> !same_path(#[trigger] texts(paths@)[j], p@),
        decreases paths.len() - i,
    {
        if path_eq(paths[i].as_str(), p) {
            assert(same_path(texts(paths@)[i as int], p@));
            return true;
        }
        i += 1;
    }
    false
}

/// `base` with each of `more` appended that it does not already name.
fn append_new_paths(base: Vec<String>, more: &Vec<String>) -> (r: Vec<String>)
    ensures
        texts(r@) == merged_paths(texts(base@), texts(more@)),
{
    let mut out = base;
    let ghost first = texts(out@);
    let mut i: usize = 0;
    while i < more.len()
        invariant
            i <= more.len(),
            texts(out@) == merged_paths(first, texts(more@.take(i as int))),
        decreases more.len() - i,
    {
        assert(texts(more@.take(i + 1)).drop_last() =~= texts(more@.take(i as int)));
        assert(texts(more@.take(i + 1)).last() == more@[i as int]@);
        if !holds_path(&out, more[i].as_str()) {
            let ghost before = out@;
            out.push(owned(more[i].as_str()));
            assert(texts(out@) =~= texts(before).push(more@[i as int]@));
        }
        i += 1;
    }
    assert(more@.take(more.len() as int) =~= more@);
    out
}

/// Paths kept only where they first occur, by the same rule.
proof fn lemma_distinct_is_merged(paths: Seq<Seq<char>>)
    ensures
        distinct_paths(paths) == merged_paths(Seq::empty(), paths),
    decreases paths.len(),
{
    if paths.len() > 0 {
        lemma_distinct_is_merged(paths.drop_last());
    }
}

/// Every `path` entry in a libraryfolders.vdf, in file order, with paths
/// that name the same directory kept once. The `apps` index inside the file
/// is deliberately ignored.
pub fn parse_library_paths(vdf: &str) -> (r: Vec<String>)
    ensures
        texts(r@) == distinct_paths(values_from(vdf@, "path"@, 0)),
{
    let all = values_of(vdf, "path");
    let r = append_new_paths(Vec::new(), &all);
    proof {
        assert(texts(Seq::<String>::empty()) =~= Seq::<Seq<char>>::empty());
        lemma_distinct_is_merged(texts(all@));
    }
    r
}

/// The first value a pattern finds, if any.
pub open spec fn first_value(vs: Seq<Seq<char>>) -> Option<Seq<char>> {
    if vs.len() > 0 {
        Some(vs[0])
    } else {
        None
    }
}

/// The `installdir` recorded in an appmanifest, which names the folder under
/// `steamapps/common` rather than assuming it is called "Arma 3".
pub fn parse_install_dir(manifest: &str) -> (r: Option<String>)
    ensures
        match r {
            Some(d) => first_value(values_from(manifest@, "installdir"@, 0)) == Some(d@),
            None => first_value(values_from(manifest@, "installdir"@, 0)) is None,
        },
{
    let vs = values_of(manifest, "installdir");
    if vs.len() > 0 {
        assert(texts(vs@)[0] == vs@[0]@);
        Some(owned(vs[0].as_str()))
    } else {
        None
    }
}

/// `steamapps` under a library.
pub open spec fn steamapps(library: Seq<char>) -> Seq<char> {
    join(library, "steamapps"@)
}

/// The appmanifest that confirms the game is installed in a library.
pub open spec fn spec_manifest_path(library: Seq<char>) -> Seq<char> {
    join(steamapps(library), "appmanifest_"@ + ARMA_APP_ID@ + ".acf"@)
}

/// Where a library keeps the game's workshop content.
pub open spec fn spec_workshop_path(library: Seq<char>) -> Seq<char> {
    join(join(join(steamapps(library), "workshop"@), "content"@), ARMA_APP_ID@)
}

/// The game directory a library would hold, under `steamapps/common`.
pub open spec fn spec_game_path(library: Seq<char>, install_dir: Seq<char>) -> Seq<char> {
    join(join(steamapps(library), "common"@), install_dir)
}

/// The appmanifest whose presence confirms the game in a library.
pub fn manifest_path(library: &str) -> (r: String)
    ensures
        r@ == spec_manifest_path(library@),
{
    let apps = path_join(library, "steamapps");
    let name = concat("appmanifest_", ARMA_APP_ID);
    let file = concat(name.as_str(), ".acf");
    path_join(apps.as_str(), file.as_str())
}

/// Where a library keeps the game's workshop content.
pub fn workshop_path(library: &str) -> (r: String)
    ensures
        r@ == spec_workshop_path(library@),
{
    let apps = path_join(library, "steamapps");
    let w = path_join(apps.as_str(), "workshop");
    let c = path_join(w.as_str(), "content");
    path_join(c.as_str(), ARMA_APP_ID)
}

/// The game directory a library's appmanifest points at: its `installdir`,
/// or "Arma 3" when the manifest records none.
pub fn game_path(library: &str, manifest: &str) -> (r: String)
    ensures
        r@ == spec_game_path(
            library@,
            match first_value(values_from(manifest@, "installdir"@, 0)) {
                Some(d) => d,
                None => "Arma 3"@,
            },
        ),
{
    let install_dir = match parse_install_dir(manifest) {
        Some(d) => d,
        None => owned("Arma 3"),
    };
    let apps = path_join(library, "steamapps");
    let common = path_join(apps.as_str(), "common");
    path_join(common.as_str(), install_dir.as_str())
}

/// Candidate libraries: the default directory first, then whatever the vdf
/// lists that is not already a candidate. The default is included even when
/// the vdf omits it, or when there is no readable vdf at all.
pub fn library_candidates(steam_dir: &str, vdf: Option<&str>) -> (r: Vec<String>)
    ensures
        texts(r@) == match vdf {
            Some(text) => merged_paths(seq![steam_dir@], distinct_paths(values_from(text@, "path"@, 0))),
            None => seq![steam_dir@],
        },
{
    let mut first: Vec<String> = Vec::new();
    first.push(owned(steam_dir));
    assert(texts(first@) =~= seq![steam_dir@]);
    match vdf {
        Some(text) => {
            let listed = parse_library_paths(text);
            append_new_paths(first, &listed)
        },
        None => first,
    }
}

/// What looking at one library found: the game directory its appmanifest
/// points at, when that exists, and its workshop content directory, when
/// that exists.
#[derive(Debug, Clone, PartialEq, Eq)]
pub struct LibraryProbe {
    pub game: Option<String>,
    pub workshop: Option<String>,
}

/// The first confirmed game directory among the probes.
pub open spec fn first_game(probes: Seq<LibraryProbe>) -> Option<Seq<char>>
    decreases probes.len(),
{
    if probes.len() == 0 {
        None
    } else {
        match probes[0].game {
            Some(g) => Some(g@),
            None => first_game(probes.drop_first()),
        }
    }
}

/// The first confirmed workshop directory among the probes.
pub open spec fn first_workshop(probes: Seq<LibraryProbe>) -> Option<Seq<char>>
    decreases probes.len(),
{
    if probes.len() == 0 {
        None
    } else {
        match probes[0].workshop {
            Some(w) => Some(w@),
            None => first_workshop(probes.drop_first()),
        }
    }
}

/// Resolve the game and workshop directories from what each library, in
/// candidate order, was found to hold: the first confirmation wins, and
/// without one the location is a guess rooted at `steam_dir`, marked
/// unverified.
pub fn discover_in(probes: &[LibraryProbe], steam_dir: &str) -> (r: SteamPaths)
    ensures
        r.steam_dir@ == steam_dir@,
        r.game.verified == first_game(probes@) is Some,
        r.game.path@ == match first_game(probes@) {
            Some(g) => g,
            None => spec_game_path(steam_dir@, "Arma 3"@),
        },
        r.workshop.verified == first_workshop(probes@) is Some,
        r.workshop.path@ == match first_workshop(probes@) {
            Some(w) => w,
            None => spec_workshop_path(steam_dir@),
        },
{
    let mut game: Option<String> = None;
    let mut workshop: Option<String> = None;
    let mut i: usize = 0;
    assert(probes@.skip(0) =~= probes@);
    while i < probes.len()
        invariant
            i <= probes.len(),
            first_game(probes@) == match game {
                Some(g) => Some(g@),
                None => first_game(probes@.skip(i as int)),
            },
            first_workshop(probes@) == match workshop {
                Some(w) => Some(w@),
                None => first_workshop(probes@.skip(i as int)),
            },
        decreases probes.len() - i,
    {
        assert(probes@.skip(i as int).drop_first() =~= probes@.skip(i + 1));
        assert(probes@.skip(i as int)[0] == probes@[i as int]);
        if game.is_none() {
            match &probes[i].game {
                Some(g) => {
                    game = Some(owned(g.as_str()));
                },
                None => {},
            }
        }
        if workshop.is_none() {
            match &probes[i].workshop {
                Some(w) => {
                    workshop = Some(owned(w.as_str()));
                },
                None => {},
            }
        }
        i += 1;
    }
    let game_loc = match game {
        Some(path) => Located { path, verified: true },
        None => {
            let apps = path_join(steam_dir, "steamapps");
            let common = path_join(apps.as_str(), "common");
            Located { path: path_join(common.as_str(), "Arma 3"), verified: false }
        },
    };
    let workshop_loc = match workshop {
        Some(path) => Located { path, verified: true },
        None => Located { path: workshop_path(steam_dir), verified: false },
    };
    SteamPaths { steam_dir: owned(steam_dir), game: game_loc, workshop: workshop_loc }
}

} // verus!
