//! Describing a launch without performing one.
//!
//! The `-mod=` value is a single argument of bare workshop ids joined by
//! semicolons, with no quoting. Bare ids work because each mod is linked into
//! the game directory and the process runs with that directory as its working
//! directory. No shell is involved, so literal quotes would end up inside the
//! value rather than being stripped.

use vstd::prelude::*;
use crate::map::{key_lt, StrMap};
use crate::path::{join, path_join};
use crate::steam::{Platform, SteamPaths};
use crate::text::{chars_of, concat, owned, push_all, push_char, trim_end};
use crate::unicode::{alphanumeric, is_alphanumeric};
use crate::ARMA_APP_ID;

verus! {

/// Startup parameters the UI can toggle.
#[derive(Debug, Clone, Copy, PartialEq, Eq)]
pub struct LaunchOptions {
    pub no_splash: bool,
    pub skip_intro: bool,
    pub empty_world: bool,
    pub intel_mode: bool,
    pub steam_overlay: bool,
}

impl Default for LaunchOptions {
    fn default() -> (o: Self)
        ensures
            !o.no_splash && !o.skip_intro && !o.empty_world && !o.intel_mode && !o.steam_overlay,
    {
        LaunchOptions {
            no_splash: false,
            skip_intro: false,
            empty_world: false,
            intel_mode: false,
            steam_overlay: false,
        }
    }
}

/// One link to create inside the game directory.
#[derive(Debug, Clone, PartialEq, Eq)]
pub struct Symlink {
    /// Directory being linked.
    pub target: String,
    /// Link inside the game directory, named for the workshop id.
    pub link: String,
}

/// Exactly what a launch would do.
#[derive(Debug, PartialEq, Eq)]
pub struct LaunchPlan {
    pub executable: String,
    /// Relative `-mod=` entries resolve against this, so it is the game directory.
    pub cwd: String,
    pub args: Vec<String>,
    pub env: StrMap<String>,
    pub symlinks: Vec<Symlink>,
    /// A shell-quoted rendering of the same thing, for display only.
    pub preview: String,
}

/// The game binary inside the macOS app bundle, or the bare binary elsewhere.
pub open spec fn spec_executable_for(game_dir: Seq<char>, platform: Platform) -> Seq<char> {
    match platform {
        Platform::MacOs => join(
            join(join(join(game_dir, "ArmA3 AS Native.app"@), "Contents"@), "MacOS"@),
            "ArmA3 AS Native"@,
        ),
        Platform::Other => join(game_dir, "arma3_x64"@),
    }
}

/// The game binary inside the macOS app bundle, or the bare binary elsewhere.
pub fn executable_for(game_dir: &str, platform: Platform) -> (r: String)
    ensures
        r@ == spec_executable_for(game_dir@, platform),
{
    match platform {
        Platform::MacOs => {
            let a = path_join(game_dir, "ArmA3 AS Native.app");
            let b = path_join(a.as_str(), "Contents");
            let c = path_join(b.as_str(), "MacOS");
            path_join(c.as_str(), "ArmA3 AS Native")
        },
        Platform::Other => path_join(game_dir, "arma3_x64"),
    }
}

/// The overlay library inside the Steam install.
pub open spec fn spec_overlay_dylib(steam_dir: Seq<char>) -> Seq<char> {
    join(
        join(join(join(join(steam_dir, "Steam.AppBundle"@), "Steam"@), "Contents"@), "MacOS"@),
        "gameoverlayrenderer.dylib"@,
    )
}

/// Injecting this is what lets the Steam overlay attach to a direct spawn.
pub fn overlay_dylib(steam_dir: &str) -> (r: String)
    ensures
        r@ == spec_overlay_dylib(steam_dir@),
{
    let a = path_join(steam_dir, "Steam.AppBundle");
    let b = path_join(a.as_str(), "Steam");
    let c = path_join(b.as_str(), "Contents");
    let d = path_join(c.as_str(), "MacOS");
    path_join(d.as_str(), "gameoverlayrenderer.dylib")
}

/// A character that a shell takes literally outside quotes.
pub open spec fn shell_safe(c: char) -> bool {
    alphanumeric(c) || c == '@' || c == '%' || c == '+' || c == '=' || c == ':' || c == ','
        || c == '.' || c == '/' || c == '-' || c == '_'
}

/// Whether a value has to be quoted to reach a shell intact.
pub open spec fn spec_needs_quoting(s: Seq<char>) -> bool {
    exists|i: int| 0 <= i < s.len() && !shell_safe(#[trigger] s[i])
}

/// `s` with every `'` written as `'\''`.
pub open spec fn escape_quotes(s: Seq<char>) -> Seq<char>
    decreases s.len(),
{
    if s.len() == 0 {
        Seq::empty()
    } else {
        let rest = escape_quotes(s.drop_last());
        if s.last() == '\'' {
            rest + seq!['\'', '\\', '\'', '\'']
        } else {
            rest.push(s.last())
        }
    }
}

/// `s` as a shell word.
pub open spec fn spec_quote(s: Seq<char>) -> Seq<char> {
    if spec_needs_quoting(s) {
        seq!['\''] + escape_quotes(s) + seq!['\'']
    } else {
        s
    }
}

fn needs_quoting(value: &str) -> (r: bool)
    ensures
        r == spec_needs_quoting(value@),
{
    let v = chars_of(value);
    let mut i: usize = 0;
    while i < v.len()
        invariant
            i <= v.len(),
            v@ == value@,
            forall|j: int| 0 <= j < i ==> shell_safe(#[trigger] v@[j]),
        decreases v.len() - i,
    {
        let c = v[i];
        let safe = is_alphanumeric(c) || c == '@' || c == '%' || c == '+' || c == '=' || c == ':'
            || c == ',' || c == '.' || c == '/' || c == '-' || c == '_';
        if !safe {
            assert(!shell_safe(v@[i as int]));
            return true;
        }
        i += 1;
    }
    false
}

/// `value` as a single shell word: unchanged when it is safe, otherwise
/// single quoted with embedded quotes escaped.
fn quote(value: &str) -> (r: String)
    ensures
        r@ == spec_quote(value@),
{
    if !needs_quoting(value) {
        return owned(value);
    }
    let v = chars_of(value);
    let mut r = String::new();
    push_char(&mut r, '\'');
    let mut i: usize = 0;
    while i < v.len()
        invariant
            i <= v.len(),
            v@ == value@,
            r@ == seq!['\''] + escape_quotes(v@.take(i as int)),
        decreases v.len() - i,
    {
        assert(v@.take(i + 1).drop_last() =~= v@.take(i as int));
        if v[i] == '\'' {
            push_char(&mut r, '\'');
            push_char(&mut r, '\\');
            push_char(&mut r, '\'');
            push_char(&mut r, '\'');
        } else {
            push_char(&mut r, v[i]);
        }
        assert(r@ =~= seq!['\''] + escape_quotes(v@.take(i + 1)));
        i += 1;
    }
    push_char(&mut r, '\'');
    assert(v@.take(v.len() as int) =~= v@);
    assert(r@ =~= seq!['\''] + escape_quotes(value@) + seq!['\'']);
    r
}

/// The ids in order of first appearance, each once.
pub open spec fn dedup(ids: Seq<Seq<char>>) -> Seq<Seq<char>>
    decreases ids.len(),
{
    if ids.len() == 0 {
        Seq::empty()
    } else {
        let d = dedup(ids.drop_last());
        if d.contains(ids.last()) {
            d
        } else {
            d.push(ids.last())
        }
    }
}

/// Deduplicating keeps every id and drops only repeats: the result names
/// exactly the given ids, each once.
pub proof fn lemma_dedup(ids: Seq<Seq<char>>)
    ensures
        dedup(ids).no_duplicates(),
        forall|x: Seq<char>| #[trigger] dedup(ids).contains(x) <==> ids.contains(x),
    decreases ids.len(),
{
    if ids.len() > 0 {
        let init = ids.drop_last();
        lemma_dedup(init);
        assert forall|x: Seq<char>| #[trigger] dedup(ids).contains(x) <==> ids.contains(x) by {
            if ids.contains(x) && x != ids.last() {
                let i = ids.index_of(x);
                assert(init[i] == x);
            }
            if init.contains(x) {
                let i = init.index_of(x);
                assert(ids[i] == x);
            }
            if x == ids.last() {
                assert(ids[ids.len() - 1] == x);
                if !dedup(init).contains(x) {
                    assert(dedup(ids)[dedup(init).len() as int] == x);
                }
            }
            if dedup(ids).contains(x) && !dedup(init).contains(x) {
                let i = dedup(ids).index_of(x);
                if i < dedup(init).len() {
                    assert(dedup(init)[i] == x);
                }
            }
            if dedup(init).contains(x) {
                let i = dedup(init).index_of(x);
                assert(dedup(ids)[i] == x);
            }
        }
    }
}

/// The parts joined with `sep` between each neighbouring pair.
pub open spec fn join_with(parts: Seq<Seq<char>>, sep: Seq<char>) -> Seq<char>
    decreases parts.len(),
{
    if parts.len() == 0 {
        Seq::empty()
    } else if parts.len() == 1 {
        parts[0]
    } else {
        join_with(parts.drop_last(), sep) + sep + parts.last()
    }
}

/// The command-line arguments for a set of mods and options.
pub open spec fn spec_args(unique: Seq<Seq<char>>, options: LaunchOptions) -> Seq<Seq<char>> {
    let mods: Seq<Seq<char>> = if unique.len() > 0 {
        seq!["-mod="@ + join_with(unique, ";"@)]
    } else {
        Seq::empty()
    };
    let a: Seq<Seq<char>> = if options.no_splash {
        seq!["-noSplash"@]
    } else {
        Seq::empty()
    };
    let b: Seq<Seq<char>> = if options.skip_intro {
        seq!["-skipIntro"@]
    } else {
        Seq::empty()
    };
    let c: Seq<Seq<char>> = if options.empty_world {
        seq!["-world=empty"@]
    } else {
        Seq::empty()
    };
    mods + a + b + c
}

/// Where a launch argument stands among the arguments: the mod list first,
/// then `-noSplash`, `-skipIntro` and `-world=empty`.
pub open spec fn arg_rank(a: Seq<char>) -> int {
    if a == "-noSplash"@ {
        1
    } else if a == "-skipIntro"@ {
        2
    } else if a == "-world=empty"@ {
        3
    } else {
        0
    }
}

/// The arguments of every launch plan: the `-mod=` list of the ids, each
/// once in first order, exactly when there are ids, and then each enabled
/// startup flag, once, in the order `-noSplash`, `-skipIntro`,
/// `-world=empty`; a flag that is off is not passed.
pub proof fn lemma_launch_arguments(
    paths: SteamPaths,
    ids: Seq<String>,
    options: LaunchOptions,
    overrides: StrMap<String>,
    platform: Platform,
    plan: LaunchPlan,
)
    requires
        describes_launch(paths, ids, options, overrides, platform, plan),
    ensures
        plan.args@.map_values(|s: String| s@).contains("-noSplash"@) <==> options.no_splash,
        plan.args@.map_values(|s: String| s@).contains("-skipIntro"@) <==> options.skip_intro,
        plan.args@.map_values(|s: String| s@).contains("-world=empty"@) <==> options.empty_world,
        ids.len() > 0 <==> (plan.args@.len() > 0 && plan.args@[0]@ == "-mod="@ + join_with(
            dedup(ids.map_values(|s: String| s@)),
            ";"@,
        )),
        forall|i: int, j: int|
            0 <= i < j < plan.args@.len() ==> arg_rank(#[trigger] plan.args@[i]@) < arg_rank(
                #[trigger] plan.args@[j]@,
            ),
        forall|i: int| 0 < i < plan.args@.len() ==> arg_rank(#[trigger] plan.args@[i]@) > 0,
{
    reveal_strlit("-noSplash");
    reveal_strlit("-skipIntro");
    reveal_strlit("-world=empty");
    reveal_strlit("-mod=");
    let texts_of_ids = ids.map_values(|s: String| s@);
    let u = dedup(texts_of_ids);
    lemma_dedup(texts_of_ids);
    if ids.len() > 0 {
        assert(texts_of_ids.contains(texts_of_ids[0]));
        assert(u.contains(texts_of_ids[0]));
    }
    if u.len() > 0 {
        assert(u.contains(u[0]));
    }
    let args = plan.args@.map_values(|s: String| s@);
    assert(args == spec_args(u, options));
    let ma = "-mod="@ + join_with(u, ";"@);
    assert(ma[1] == 'm');
    assert(("-noSplash"@)[1] == 'n');
    assert(("-skipIntro"@)[1] == 's');
    assert(("-world=empty"@)[1] == 'w');
    assert(arg_rank(ma) == 0);
    assert(args.len() == plan.args@.len());
    assert forall|i: int| 0 <= i < args.len() implies #[trigger] args[i] == plan.args@[i]@ by {}
    let mods: Seq<Seq<char>> = if u.len() > 0 {
        seq![ma]
    } else {
        Seq::empty()
    };
    let a: Seq<Seq<char>> = if options.no_splash {
        seq!["-noSplash"@]
    } else {
        Seq::empty()
    };
    let b: Seq<Seq<char>> = if options.skip_intro {
        seq!["-skipIntro"@]
    } else {
        Seq::empty()
    };
    let c: Seq<Seq<char>> = if options.empty_world {
        seq!["-world=empty"@]
    } else {
        Seq::empty()
    };
    assert(args =~= mods + a + b + c);
    let e1 = mods.len() as int;
    let e2 = e1 + a.len();
    let e3 = e2 + b.len();
    assert(args.len() == e3 + c.len());
    assert forall|k: int| 0 <= k < args.len() implies #[trigger] arg_rank(args[k]) == (if k < e1 {
        0int
    } else if k < e2 {
        1int
    } else if k < e3 {
        2int
    } else {
        3int
    }) by {
        if k < e1 {
            assert(args[k] == ma);
        } else if k < e2 {
            assert(args[k] == "-noSplash"@);
        } else if k < e3 {
            assert(args[k] == "-skipIntro"@);
        } else {
            assert(args[k] == "-world=empty"@);
        }
    }
    assert forall|i: int, j: int| 0 <= i < j < plan.args@.len() implies arg_rank(
        #[trigger] plan.args@[i]@,
    ) < arg_rank(#[trigger] plan.args@[j]@) by {
        assert(args[i] == plan.args@[i]@);
        assert(args[j] == plan.args@[j]@);
        assert(arg_rank(args[i]) < arg_rank(args[j]));
    }
    assert(args.contains("-noSplash"@) <==> options.no_splash) by {
        if options.no_splash {
            assert(args[e1] == "-noSplash"@);
        }
        if args.contains("-noSplash"@) {
            let k = args.index_of("-noSplash"@);
            assert(arg_rank(args[k]) == 1);
        }
    }
    assert(args.contains("-skipIntro"@) <==> options.skip_intro) by {
        if options.skip_intro {
            assert(args[e2] == "-skipIntro"@);
        }
        if args.contains("-skipIntro"@) {
            let k = args.index_of("-skipIntro"@);
            assert(arg_rank(args[k]) == 2);
        }
    }
    assert(args.contains("-world=empty"@) <==> options.empty_world) by {
        if options.empty_world {
            assert(args[e3] == "-world=empty"@);
        }
        if args.contains("-world=empty"@) {
            let k = args.index_of("-world=empty"@);
            assert(arg_rank(args[k]) == 3);
        }
    }
    if ids.len() > 0 {
        assert(u.len() > 0);
        assert(args[0] == ma);
        assert(plan.args@[0]@ == args[0]);
    } else {
        assert(texts_of_ids.len() == 0);
        assert(u.len() == 0);
        if args.len() > 0 {
            assert(arg_rank(args[0]) > 0);
            assert(args[0] != ma);
            assert(plan.args@[0]@ == args[0]);
        }
    }
}

/// The environment of a launch, in key order: the overlay injection on macOS,
/// and the app id everywhere.
pub open spec fn spec_env(steam_dir: Seq<char>, platform: Platform) -> Seq<(Seq<char>, Seq<char>)> {
    match platform {
        Platform::MacOs => seq![
            ("DYLD_FORCE_FLAT_NAMESPACE"@, "1"@),
            ("DYLD_INSERT_LIBRARIES"@, spec_overlay_dylib(steam_dir)),
            ("SteamAppId"@, ARMA_APP_ID@),
        ],
        Platform::Other => seq![("SteamAppId"@, ARMA_APP_ID@)],
    }
}

/// A map of strings as its entries, in key order.
pub open spec fn text_entries(m: StrMap<String>) -> Seq<(Seq<char>, Seq<char>)> {
    Seq::new(m.keys().len(), |i: int| (m.keys()[i], m.values()[i]@))
}

/// Where the link for one id points: its override if it has one, otherwise
/// its directory under the workshop content directory.
pub open spec fn spec_target(
    workshop_dir: Seq<char>,
    overrides: StrMap<String>,
    id: Seq<char>,
) -> Seq<char> {
    if overrides@.contains_key(id) {
        overrides@[id]@
    } else {
        join(workshop_dir, id)
    }
}

/// The display rendering of a launch.
pub open spec fn spec_preview(
    cwd: Seq<char>,
    env: Seq<(Seq<char>, Seq<char>)>,
    executable: Seq<char>,
    args: Seq<Seq<char>>,
) -> Seq<char> {
    let env_text = join_with(
        Seq::new(env.len(), |i: int| env[i].0 + "="@ + spec_quote(env[i].1)),
        " "@,
    );
    let args_text = join_with(Seq::new(args.len(), |i: int| spec_quote(args[i])), " "@);
    trim_end(
        "cd "@ + spec_quote(cwd) + " && "@ + env_text + " "@ + spec_quote(executable) + " "@
            + args_text,
    )
}

/// Whether `ids` occurs in `v`, comparing text.
fn contains_text(v: &Vec<String>, id: &String) -> (r: bool)
    ensures
        r == v@.map_values(|s: String| s@).contains(id@),
{
    let mut i: usize = 0;
    while i < v.len()
        invariant
            i <= v.len(),
            forall|j: int| 0 <= j < i ==> v@[j]@ != id@,
        decreases v.len() - i,
    {
        if v[i] == *id {
            assert(v@.map_values(|s: String| s@)[i as int] == id@);
            return true;
        }
        i += 1;
    }
    proof {
        let m = v@.map_values(|s: String| s@);
        if m.contains(id@) {
            let j = m.index_of(id@);
            assert(m[j] == v@[j]@);
        }
    }
    false
}

/// Join strings with a separator.
pub(crate) fn join_strings(parts: &Vec<String>, sep: &str) -> (r: String)
    ensures
        r@ == join_with(parts@.map_values(|s: String| s@), sep@),
{
    let ghost all = parts@.map_values(|s: String| s@);
    let mut r = String::new();
    let mut i: usize = 0;
    while i < parts.len()
        invariant
            i <= parts.len(),
            all == parts@.map_values(|s: String| s@),
            r@ == join_with(all.take(i as int), sep@),
        decreases parts.len() - i,
    {
        assert(all.take(i + 1).drop_last() =~= all.take(i as int));
        assert(all[i as int] == parts@[i as int]@);
        if i > 0 {
            push_all(&mut r, sep);
        } else {
            assert(r@ =~= Seq::<char>::empty());
        }
        push_all(&mut r, parts[i].as_str());
        proof {
            if i == 0 {
                assert(all.take(1) =~= seq![all[0]]);
                assert(r@ =~= all[0]);
            }
        }
        i += 1;
    }
    assert(all.take(parts.len() as int) =~= all);
    r
}

/// Strip trailing whitespace.
fn without_trailing_ws(s: &str) -> (r: String)
    ensures
        r@ == trim_end(s@),
{
    let v = chars_of(s);
    let mut hi = v.len();
    while hi > 0 && crate::text::is_whitespace(v[hi - 1])
        invariant
            hi <= v.len(),
            v@ == s@,
            forall|i: int| hi <= i < v.len() ==> crate::text::is_ws(#[trigger] v@[i]),
        decreases hi,
    {
        hi -= 1;
    }
    proof {
        crate::text::lemma_trail_ws_unique(s@, (v.len() - hi) as int);
    }
    crate::text::string_of_range(&v, 0, hi)
}

/// The ids in order of first appearance, each once.
fn unique_ids(ids: &[String]) -> (unique: Vec<String>)
    ensures
        unique@.map_values(|s: String| s@) == dedup(ids@.map_values(|s: String| s@)),
{
    let ghost all = ids@.map_values(|s: String| s@);
    let mut unique: Vec<String> = Vec::new();
    let mut i: usize = 0;
    while i < ids.len()
        invariant
            i <= ids.len(),
            all == ids@.map_values(|s: String| s@),
            unique@.map_values(|s: String| s@) == dedup(all.take(i as int)),
        decreases ids.len() - i,
    {
        assert(all.take(i + 1).drop_last() =~= all.take(i as int));
        assert(all[i as int] == ids@[i as int]@);
        if !contains_text(&unique, &ids[i]) {
            let ghost before = unique@;
            unique.push(ids[i].clone());
            assert(unique@.map_values(|s: String| s@) =~= before.map_values(|s: String| s@).push(
                all[i as int],
            ));
        }
        i += 1;
    }
    assert(all.take(ids.len() as int) =~= all);
    unique
}

/// The command-line arguments for the deduplicated ids and the options.
fn launch_args(unique: &Vec<String>, options: LaunchOptions) -> (args: Vec<String>)
    ensures
        args@.map_values(|s: String| s@) == spec_args(unique@.map_values(|s: String| s@), options),
{
    let ghost u = unique@.map_values(|s: String| s@);
    let mut args: Vec<String> = Vec::new();
    if unique.len() > 0 {
        let joined = join_strings(unique, ";");
        args.push(concat("-mod=", joined.as_str()));
    }
    if options.no_splash {
        args.push(owned("-noSplash"));
    }
    if options.skip_intro {
        args.push(owned("-skipIntro"));
    }
    if options.empty_world {
        args.push(owned("-world=empty"));
    }
    assert(args@.map_values(|s: String| s@) =~= spec_args(u, options));
    args
}

/// The environment of a launch.
fn launch_env(steam_dir: &str, platform: Platform) -> (env: StrMap<String>)
    ensures
        text_entries(env) == spec_env(steam_dir@, platform),
{
    let mut env: StrMap<String> = StrMap::new();
    match platform {
        Platform::MacOs => {
            proof {
                reveal_strlit("DYLD_FORCE_FLAT_NAMESPACE");
                reveal_strlit("DYLD_INSERT_LIBRARIES");
                reveal_strlit("SteamAppId");
                reveal_with_fuel(crate::map::common, 8);
                assert(key_lt("DYLD_FORCE_FLAT_NAMESPACE"@, "DYLD_INSERT_LIBRARIES"@));
                assert(key_lt("DYLD_FORCE_FLAT_NAMESPACE"@, "SteamAppId"@));
                assert(key_lt("DYLD_INSERT_LIBRARIES"@, "SteamAppId"@));
            }
            let v1 = owned("1");
            let v2 = overlay_dylib(steam_dir);
            let v3 = owned(ARMA_APP_ID);
            let ghost (g1, g2, g3) = (v1@, v2@, v3@);
            env.insert(owned("DYLD_FORCE_FLAT_NAMESPACE"), v1);
            assert(env.values()[0]@ == g1);
            env.insert(owned("DYLD_INSERT_LIBRARIES"), v2);
            assert(env.values()[0]@ == g1 && env.values()[1]@ == g2);
            env.insert(owned("SteamAppId"), v3);
            proof {
                let t = text_entries(env);
                let w = spec_env(steam_dir@, platform);
                assert(env.values()[0]@ == g1);
                assert(env.values()[1]@ == g2);
                assert(env.values()[2]@ == g3);
                assert(t.len() == w.len());
                assert(t[0] == w[0]);
                assert(t[1] == w[1]);
                assert(t[2] == w[2]);
                assert(t =~= w);
            }
        },
        Platform::Other => {
            let v3 = owned(ARMA_APP_ID);
            let ghost g3 = v3@;
            env.insert(owned("SteamAppId"), v3);
            proof {
                let t = text_entries(env);
                let w = spec_env(steam_dir@, platform);
                assert(env.values()[0]@ == g3);
                assert(t[0] == w[0]);
                assert(t =~= w);
            }
        },
    }
    env
}

/// One link per id: into the game directory, pointing at the override or the
/// workshop directory.
fn plan_links(
    unique: &Vec<String>,
    game_dir: &str,
    workshop_dir: &str,
    overrides: &StrMap<String>,
) -> (symlinks: Vec<Symlink>)
    ensures
        symlinks@.len() == unique@.len(),
        forall|i: int|
            0 <= i < unique@.len() ==> {
                &&& (#[trigger] symlinks@[i]).target@ == spec_target(
                    workshop_dir@,
                    *overrides,
                    unique@[i]@,
                )
                &&& symlinks@[i].link@ == join(game_dir@, unique@[i]@)
            },
{
    let mut symlinks: Vec<Symlink> = Vec::new();
    let mut k: usize = 0;
    while k < unique.len()
        invariant
            k <= unique.len(),
            symlinks@.len() == k,
            forall|i: int|
                0 <= i < k ==> {
                    &&& (#[trigger] symlinks@[i]).target@ == spec_target(
                        workshop_dir@,
                        *overrides,
                        unique@[i]@,
                    )
                    &&& symlinks@[i].link@ == join(game_dir@, unique@[i]@)
                },
        decreases unique.len() - k,
    {
        let id = &unique[k];
        let target = match overrides.get(id.as_str()) {
            Some(path) => owned(path.as_str()),
            None => path_join(workshop_dir, id.as_str()),
        };
        let link = path_join(game_dir, id.as_str());
        symlinks.push(Symlink { target, link });
        k += 1;
    }
    symlinks
}

/// The display rendering of a launch.
fn render_preview(cwd: &str, env: &StrMap<String>, executable: &str, args: &Vec<String>) -> (r: String)
    ensures
        r@ == spec_preview(cwd@, text_entries(*env), executable@, args@.map_values(|s: String| s@)),
{
    let mut env_words: Vec<String> = Vec::new();
    let mut e: usize = 0;
    while e < env.len()
        invariant
            e <= env.keys().len(),
            env_words@.len() == e,
            forall|i: int|
                0 <= i < e ==> (#[trigger] env_words@[i])@ == text_entries(*env)[i].0 + "="@
                    + spec_quote(text_entries(*env)[i].1),
        decreases env.keys().len() - e,
    {
        let (key, value) = env.entry(e);
        let q = quote(value.as_str());
        let kv = concat(key.as_str(), "=");
        env_words.push(concat(kv.as_str(), q.as_str()));
        e += 1;
    }
    let mut arg_words: Vec<String> = Vec::new();
    let mut a: usize = 0;
    while a < args.len()
        invariant
            a <= args.len(),
            arg_words@.len() == a,
            forall|i: int| 0 <= i < a ==> (#[trigger] arg_words@[i])@ == spec_quote(args@[i]@),
        decreases args.len() - a,
    {
        arg_words.push(quote(args[a].as_str()));
        a += 1;
    }
    let env_text = join_strings(&env_words, " ");
    let args_text = join_strings(&arg_words, " ");

    let mut text = owned("cd ");
    push_all(&mut text, quote(cwd).as_str());
    push_all(&mut text, " && ");
    push_all(&mut text, env_text.as_str());
    push_all(&mut text, " ");
    push_all(&mut text, quote(executable).as_str());
    push_all(&mut text, " ");
    push_all(&mut text, args_text.as_str());
    proof {
        let ents = text_entries(*env);
        assert(env_words@.map_values(|s: String| s@) =~= Seq::new(
            ents.len(),
            |i: int| ents[i].0 + "="@ + spec_quote(ents[i].1),
        ));
        let av = args@.map_values(|s: String| s@);
        assert(arg_words@.map_values(|s: String| s@) =~= Seq::new(
            av.len(),
            |i: int| spec_quote(av[i]),
        ));
    }
    without_trailing_ws(text.as_str())
}

/// What a launch description holds: the game directory as working
/// directory, the platform's game binary, the arguments for the ids without
/// repeats (first occurrence kept), the platform's environment, one link per
/// id from the game directory to its override or workshop directory, and a
/// preview that renders the same command.
pub open spec fn describes_launch(
    paths: SteamPaths,
    ids: Seq<String>,
    options: LaunchOptions,
    overrides: StrMap<String>,
    platform: Platform,
    plan: LaunchPlan,
) -> bool {
    let unique = dedup(ids.map_values(|s: String| s@));
    &&& plan.cwd@ == paths.game.path@
    &&& plan.executable@ == spec_executable_for(paths.game.path@, platform)
    &&& plan.args@.map_values(|s: String| s@) == spec_args(unique, options)
    &&& text_entries(plan.env) == spec_env(paths.steam_dir@, platform)
    &&& plan.symlinks@.len() == unique.len()
    &&& forall|i: int|
        0 <= i < unique.len() ==> {
            &&& (#[trigger] plan.symlinks@[i]).target@ == spec_target(
                paths.workshop.path@,
                overrides,
                unique[i],
            )
            &&& plan.symlinks@[i].link@ == join(paths.game.path@, unique[i])
        }
    &&& plan.preview@ == spec_preview(
        plan.cwd@,
        text_entries(plan.env),
        plan.executable@,
        plan.args@.map_values(|s: String| s@),
    )
}

/// Describe a launch. Performs nothing.
///
/// Ids are deduplicated, keeping the first occurrence of each. Each mod is
/// linked into the game directory under its id, pointing at its override if
/// it has one and at its workshop directory otherwise.
pub fn build_launch_plan(
    paths: &SteamPaths,
    ids: &[String],
    options: LaunchOptions,
    overrides: &StrMap<String>,
    platform: Platform,
) -> (plan: LaunchPlan)
    ensures
        describes_launch(*paths, ids@, options, *overrides, platform, plan),
{
    let unique = unique_ids(ids);
    let args = launch_args(&unique, options);
    let env = launch_env(paths.steam_dir.as_str(), platform);
    let cwd = owned(paths.game.path.as_str());
    let executable = executable_for(cwd.as_str(), platform);
    let symlinks = plan_links(&unique, cwd.as_str(), paths.workshop.path.as_str(), overrides);
    let preview = render_preview(cwd.as_str(), &env, executable.as_str(), &args);
    LaunchPlan { executable, cwd, args, env, symlinks, preview }
}

} // verus!
