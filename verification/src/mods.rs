//! Installed mods, as read from disk.
//!
//! Each mod directory carries a `meta.cpp` of simple `key = value;` lines.
//! Disk owns mod names; it does not carry dependencies.

use vstd::prelude::*;
use crate::map::StrMap;
use crate::text::{
    all_ws, chars_of, is_whitespace, is_ws, lead_ws, lemma_lead_ws, lemma_lead_ws_unique, owned,
    split, split_chars, string_of_range,
};
use crate::unicode::{lowercase, to_lowercase};

verus! {

/// Whether an id is a Workshop mod or a DLC entry, and which kind of DLC.
#[derive(Debug, Clone, Copy, PartialEq, Eq)]
pub enum ItemKind {
    Mod,
    Cdlc,
    Contact,
}

/// One installed mod, or one installed DLC represented the same way.
#[derive(Debug, Clone, PartialEq, Eq)]
pub struct Mod {
    /// Workshop published id for a mod, or the DLC's app id, as a string.
    pub id: String,
    /// Display name.
    pub name: String,
    /// Absolute path to the mod or DLC directory.
    pub path: String,
    pub kind: ItemKind,
    /// What a `-mod=` entry uses. Only ever set for DLC.
    pub folder_name: Option<String>,
}

impl Mod {
    /// A copy of the mod.
    pub fn copy(&self) -> (r: Mod)
        ensures
            r == *self,
    {
        Mod {
            id: self.id.clone(),
            name: self.name.clone(),
            path: self.path.clone(),
            kind: self.kind,
            folder_name: match &self.folder_name {
                Some(f) => Some(f.clone()),
                None => None,
            },
        }
    }
}

/// A character that may start a config key.
pub open spec fn key_start(c: char) -> bool {
    ('A' <= c <= 'Z') || ('a' <= c <= 'z') || c == '_'
}

/// A character that may continue a config key.
pub open spec fn key_char(c: char) -> bool {
    key_start(c) || ('0' <= c <= '9')
}

/// Length of the run of key characters at the start of `s`.
pub open spec fn key_run(s: Seq<char>) -> nat
    decreases s.len(),
{
    if s.len() > 0 && key_char(s[0]) {
        1 + key_run(s.drop_first())
    } else {
        0
    }
}

proof fn lemma_key_run(s: Seq<char>)
    ensures
        key_run(s) <= s.len(),
        forall|i: int| 0 <= i < key_run(s) ==> key_char(#[trigger] s[i]),
        key_run(s) < s.len() ==> !key_char(s[key_run(s) as int]),
    decreases s.len(),
{
    if s.len() > 0 && key_char(s[0]) {
        lemma_key_run(s.drop_first());
        assert forall|i: int| 0 <= i < key_run(s) implies key_char(#[trigger] s[i]) by {
            if i > 0 {
                assert(s[i] == s.drop_first()[i - 1]);
            }
        }
    }
}

proof fn lemma_key_run_unique(s: Seq<char>, k: int)
    requires
        0 <= k <= s.len(),
        forall|i: int| 0 <= i < k ==> key_char(#[trigger] s[i]),
        k < s.len() ==> !key_char(s[k]),
    ensures
        key_run(s) == k,
{
    lemma_key_run(s);
    if key_run(s) < k {
        assert(key_char(s[key_run(s) as int]));
    } else if key_run(s) > k {
        assert(key_char(s[k]));
    }
}

/// Index of the last `;` in `s`, or -1.
pub open spec fn last_semicolon(s: Seq<char>) -> int
    decreases s.len(),
{
    if s.len() == 0 {
        -1
    } else if s.last() == ';' {
        s.len() - 1
    } else {
        last_semicolon(s.drop_last())
    }
}

proof fn lemma_last_semicolon(s: Seq<char>)
    ensures
        -1 <= last_semicolon(s) < s.len(),
        last_semicolon(s) >= 0 ==> s[last_semicolon(s)] == ';',
        forall|i: int| last_semicolon(s) < i < s.len() ==> #[trigger] s[i] != ';',
    decreases s.len(),
{
    if s.len() > 0 && s.last() != ';' {
        lemma_last_semicolon(s.drop_last());
        assert forall|i: int| last_semicolon(s) < i < s.len() implies #[trigger] s[i] != ';' by {
            if i < s.len() - 1 {
                assert(s[i] == s.drop_last()[i]);
            }
        }
    }
}

proof fn lemma_last_semicolon_unique(s: Seq<char>, k: int)
    requires
        -1 <= k < s.len(),
        k >= 0 ==> s[k] == ';',
        forall|i: int| k < i < s.len() ==> #[trigger] s[i] != ';',
    ensures
        last_semicolon(s) == k,
{
    lemma_last_semicolon(s);
    if last_semicolon(s) < k {
        assert(s[k] != ';');
    } else if last_semicolon(s) > k {
        assert(s[last_semicolon(s)] != ';');
    }
}

/// Where the value sits in the text after `=`: it runs to the last `;`, only
/// whitespace may follow that `;`, and at least one character of the value is
/// kept even when it is whitespace.
pub open spec fn value_span(r: Seq<char>) -> Option<(int, int)> {
    let semi = last_semicolon(r);
    if semi >= 1 && all_ws(r.skip(semi + 1)) {
        let w = if (lead_ws(r) as int) < semi - 1 {
            lead_ws(r) as int
        } else {
            semi - 1
        };
        Some((w, semi))
    } else {
        None
    }
}

/// Where the key sits in a line, and where its `=` is: the key follows
/// leading whitespace, and only whitespace lies between the key and `=`.
pub open spec fn key_span(l: Seq<char>) -> Option<(int, int, int)> {
    let k0 = lead_ws(l) as int;
    if k0 < l.len() && key_start(l[k0]) {
        let k1 = k0 + key_run(l.skip(k0)) as int;
        let k2 = k1 + lead_ws(l.skip(k1)) as int;
        if k2 < l.len() && l[k2] == '=' {
            Some((k0, k1, k2))
        } else {
            None
        }
    } else {
        None
    }
}

/// The key and raw value of one line, when the whole line has the shape
/// `key = value;` with optional whitespace around each part.
pub open spec fn line_entry(l: Seq<char>) -> Option<(Seq<char>, Seq<char>)> {
    match key_span(l) {
        Some((k0, k1, k2)) => {
            let r = l.skip(k2 + 1);
            match value_span(r) {
                Some((w, semi)) => Some((l.subrange(k0, k1), r.subrange(w, semi))),
                None => None,
            }
        },
        None => None,
    }
}

/// `s` without any trailing carriage returns.
pub open spec fn strip_cr(s: Seq<char>) -> Seq<char>
    decreases s.len(),
{
    if s.len() > 0 && s.last() == '\r' {
        strip_cr(s.drop_last())
    } else {
        s
    }
}

/// A double-quoted value without its quotes; anything else as it is.
pub open spec fn unquote(s: Seq<char>) -> Seq<char> {
    if s.len() >= 2 && s[0] == '"' && s.last() == '"' {
        s.subrange(1, s.len() - 1)
    } else {
        s
    }
}

/// The entries of a sequence of lines; a later line wins over an earlier one
/// with the same key.
pub open spec fn config_of_lines(lines: Seq<Seq<char>>) -> Map<Seq<char>, Seq<char>>
    decreases lines.len(),
{
    if lines.len() == 0 {
        Map::empty()
    } else {
        let m = config_of_lines(lines.drop_last());
        match line_entry(lines.last()) {
            Some((k, v)) => m.insert(k, unquote(strip_cr(v))),
            None => m,
        }
    }
}

/// The entries of a config text.
pub open spec fn spec_parse_config(text: Seq<char>) -> Map<Seq<char>, Seq<char>> {
    config_of_lines(split(text, '\n'))
}

/// A map of strings viewed as text to text.
pub open spec fn text_map(m: StrMap<String>) -> Map<Seq<char>, Seq<char>> {
    Map::new(|k: Seq<char>| m@.contains_key(k), |k: Seq<char>| m@[k]@)
}

/// Number of whitespace characters at `v[from..]`, and its characterisation.
fn count_ws(v: &Vec<char>, from: usize) -> (n: usize)
    requires
        from <= v.len(),
    ensures
        n == lead_ws(v@.skip(from as int)),
        from + n <= v.len(),
{
    let mut i = from;
    while i < v.len() && is_whitespace(v[i])
        invariant
            from <= i <= v.len(),
            forall|j: int| from <= j < i ==> is_ws(#[trigger] v@[j]),
        decreases v.len() - i,
    {
        i += 1;
    }
    proof {
        let s = v@.skip(from as int);
        assert forall|j: int| 0 <= j < i - from implies is_ws(#[trigger] s[j]) by {
            assert(s[j] == v@[j + from]);
        }
        if i < v.len() {
            assert(s[i - from] == v@[i as int]);
        }
        lemma_lead_ws_unique(s, (i - from) as int);
    }
    i - from
}

/// Where the key of a line sits, if the line has one.
fn find_key(l: &Vec<char>) -> (r: Option<(usize, usize, usize)>)
    ensures
        match r {
            Some((k0, k1, k2)) => key_span(l@) == Some((k0 as int, k1 as int, k2 as int)) && k0
                <= k1 <= k2 < l.len(),
            None => key_span(l@) is None,
        },
{
    let k0 = count_ws(l, 0);
    assert(l@.skip(0) =~= l@);
    if k0 >= l.len() || !(('A' <= l[k0] && l[k0] <= 'Z') || ('a' <= l[k0] && l[k0] <= 'z')
        || l[k0] == '_') {
        return None;
    }
    let mut k1 = k0;
    while k1 < l.len() && (('A' <= l[k1] && l[k1] <= 'Z') || ('a' <= l[k1] && l[k1] <= 'z') || l[k1]
        == '_' || ('0' <= l[k1] && l[k1] <= '9'))
        invariant
            k0 <= k1 <= l.len(),
            forall|j: int| k0 <= j < k1 ==> key_char(#[trigger] l@[j]),
        decreases l.len() - k1,
    {
        k1 += 1;
    }
    proof {
        let s = l@.skip(k0 as int);
        assert forall|j: int| 0 <= j < k1 - k0 implies key_char(#[trigger] s[j]) by {
            assert(s[j] == l@[j + k0]);
        }
        if k1 < l.len() {
            assert(s[k1 - k0] == l@[k1 as int]);
        }
        lemma_key_run_unique(s, (k1 - k0) as int);
    }
    let k2 = k1 + count_ws(l, k1);
    if k2 >= l.len() || l[k2] != '=' {
        return None;
    }
    Some((k0, k1, k2))
}

/// The entry of one line, if it has one.
fn parse_line(l: &Vec<char>) -> (r: Option<(String, String)>)
    ensures
        match r {
            Some((k, v)) => line_entry(l@) == Some((k@, v@)),
            None => line_entry(l@) is None,
        },
{
    let (k0, k1, k2) = match find_key(l) {
        Some(t) => t,
        None => return None,
    };
    let start = k2 + 1;
    match find_value(l, start) {
        Some((w, semi)) => {
            let key = string_of_range(l, k0, k1);
            let value = string_of_range(l, start + w, start + semi);
            proof {
                let r = l@.skip(start as int);
                assert(r.subrange(w as int, semi as int) =~= l@.subrange(start + w, start + semi));
            }
            Some((key, value))
        },
        None => None,
    }
}

/// Where the value of a line sits, counted from `start`.
fn find_value(l: &Vec<char>, start: usize) -> (r: Option<(usize, usize)>)
    requires
        start <= l.len(),
    ensures
        match r {
            Some((w, semi)) => value_span(l@.skip(start as int)) == Some((w as int, semi as int))
                && start + semi <= l.len(),
            None => value_span(l@.skip(start as int)) is None,
        },
{
    let ghost r = l@.skip(start as int);
    let mut j = l.len();
    while j > start && l[j - 1] != ';'
        invariant
            start <= j <= l.len(),
            r == l@.skip(start as int),
            forall|i: int| j <= i < l.len() ==> #[trigger] l@[i] != ';',
        decreases j,
    {
        j -= 1;
    }
    if j <= start {
        proof {
            assert forall|i: int| -1 < i < r.len() implies #[trigger] r[i] != ';' by {
                assert(r[i] == l@[i + start]);
            }
            lemma_last_semicolon_unique(r, -1);
        }
        return None;
    }
    let semi = j - 1;
    proof {
        assert forall|i: int| semi - start < i < r.len() implies #[trigger] r[i] != ';' by {
            assert(r[i] == l@[i + start]);
        }
        assert(r[semi - start] == l@[semi as int]);
        lemma_last_semicolon_unique(r, semi - start);
    }
    if semi < start + 1 {
        return None;
    }
    let mut t = semi + 1;
    while t < l.len()
        invariant
            start + 1 <= semi,
            semi + 1 <= t <= l.len(),
            r == l@.skip(start as int),
            last_semicolon(r) == semi - start,
            forall|i: int| semi + 1 <= i < t ==> is_ws(#[trigger] l@[i]),
        decreases l.len() - t,
    {
        if !is_whitespace(l[t]) {
            proof {
                let tail = r.skip(semi - start + 1);
                assert(tail[t - semi - 1] == l@[t as int]);
                assert(!is_ws(tail[t - semi - 1]));
                assert(!all_ws(tail));
            }
            return None;
        }
        t += 1;
    }
    proof {
        let tail = r.skip(semi - start + 1);
        assert forall|i: int| 0 <= i < tail.len() implies is_ws(#[trigger] tail[i]) by {
            assert(tail[i] == l@[i + semi + 1]);
        }
    }
    let lw = count_ws(l, start);
    let w = if lw < semi - start - 1 { lw } else { semi - start - 1 };
    Some((w, semi - start))
}

/// Drop trailing carriage returns, then one pair of surrounding double quotes.
fn clean_value(v: &Vec<char>) -> (r: String)
    ensures
        r@ == unquote(strip_cr(v@)),
{
    let mut hi = v.len();
    assert(v@.take(hi as int) =~= v@);
    while hi > 0 && v[hi - 1] == '\r'
        invariant
            hi <= v.len(),
            strip_cr(v@.take(hi as int)) == strip_cr(v@),
        decreases hi,
    {
        assert(v@.take(hi - 1) =~= v@.take(hi as int).drop_last());
        hi -= 1;
    }
    assert(strip_cr(v@.take(hi as int)) == v@.take(hi as int));
    if hi >= 2 && v[0] == '"' && v[hi - 1] == '"' {
        let r = string_of_range(v, 1, hi - 1);
        assert(r@ =~= v@.take(hi as int).subrange(1, hi - 1));
        r
    } else {
        string_of_range(v, 0, hi)
    }
}

/// Parse an Arma config file of simple `key = value;` lines, as found in
/// `meta.cpp`. Quoted values are unquoted, everything else is kept verbatim.
pub fn parse_config(text: &str) -> (r: StrMap<String>)
    ensures
        text_map(r) == spec_parse_config(text@),
{
    let v = chars_of(text);
    let lines = split_chars(&v, '\n');
    let ghost ls = lines@.map_values(|p: Vec<char>| p@);
    let mut result: StrMap<String> = StrMap::new();
    let mut i: usize = 0;
    while i < lines.len()
        invariant
            i <= lines.len(),
            ls == lines@.map_values(|p: Vec<char>| p@),
            ls == split(text@, '\n'),
            text_map(result) == config_of_lines(ls.take(i as int)),
        decreases lines.len() - i,
    {
        assert(ls.take(i + 1).drop_last() =~= ls.take(i as int));
        assert(ls[i as int] == lines@[i as int]@);
        match parse_line(&lines[i]) {
            Some((key, raw)) => {
                let rv = chars_of(raw.as_str());
                let value = clean_value(&rv);
                let ghost (k, val) = (key@, value@);
                let ghost before = text_map(result);
                result.insert(key, value);
                assert(text_map(result) =~= before.insert(k, val));
            },
            None => {},
        }
        i += 1;
    }
    assert(ls.take(lines.len() as int) =~= ls);
    result
}

/// A mod built from its directory name and its `meta.cpp` contents: the
/// recorded `publishedid` and `name` win, the directory name fills in.
pub open spec fn spec_to_mod(dir_name: Seq<char>, path: Seq<char>, meta: Map<Seq<char>, Seq<char>>, m: Mod) -> bool {
    &&& m.id@ == (if meta.contains_key("publishedid"@) { meta["publishedid"@] } else { dir_name })
    &&& m.name@ == (if meta.contains_key("name"@) { meta["name"@] } else { dir_name })
    &&& m.path@ == path
    &&& m.kind == ItemKind::Mod
    &&& m.folder_name is None
}

/// Turn a directory name and its `meta.cpp` contents into a mod.
pub fn to_mod(dir_name: &str, path: String, meta: &StrMap<String>) -> (m: Mod)
    ensures
        spec_to_mod(dir_name@, path@, text_map(*meta), m),
{
    let id = match meta.get("publishedid") {
        Some(v) => v.clone(),
        None => owned(dir_name),
    };
    let name = match meta.get("name") {
        Some(v) => v.clone(),
        None => owned(dir_name),
    };
    Mod { id, name, path, kind: ItemKind::Mod, folder_name: None }
}

/// Whether two names agree when ASCII letters are compared without case.
pub open spec fn ascii_fold(c: char) -> int {
    if 'A' <= c <= 'Z' {
        (c as int) + 32
    } else {
        c as int
    }
}

/// Equal ignoring ASCII case, as `str::eq_ignore_ascii_case` decides.
pub open spec fn eq_ignore_ascii_case(a: Seq<char>, b: Seq<char>) -> bool {
    a.len() == b.len() && forall|i: int| 0 <= i < a.len() ==> ascii_fold(#[trigger] a[i])
        == ascii_fold(b[i])
}

fn fold_char(c: char) -> (r: u32)
    ensures
        r == ascii_fold(c),
{
    if 'A' <= c && c <= 'Z' {
        (c as u32) + 32
    } else {
        c as u32
    }
}

fn same_ignoring_ascii_case(a: &str, b: &str) -> (r: bool)
    ensures
        r == eq_ignore_ascii_case(a@, b@),
{
    let x = chars_of(a);
    let y = chars_of(b);
    if x.len() != y.len() {
        return false;
    }
    let mut i: usize = 0;
    while i < x.len()
        invariant
            i <= x.len() == y.len(),
            x@ == a@,
            y@ == b@,
            forall|j: int| 0 <= j < i ==> ascii_fold(#[trigger] x@[j]) == ascii_fold(y@[j]),
        decreases x.len() - i,
    {
        if fold_char(x[i]) != fold_char(y[i]) {
            return false;
        }
        i += 1;
    }
    true
}

/// The first of `names` equal to `name` ignoring ASCII case, as the directory
/// lookup for `meta.cpp` picks it.
pub fn find_case_insensitive(names: &Vec<String>, name: &str) -> (r: Option<usize>)
    ensures
        match r {
            Some(i) => i < names.len() && eq_ignore_ascii_case(names@[i as int]@, name@) && forall|
                j: int,
            |
                0 <= j < i ==> !eq_ignore_ascii_case(#[trigger] names@[j]@, name@),
            None => forall|j: int|
                0 <= j < names.len() ==> !eq_ignore_ascii_case(#[trigger] names@[j]@, name@),
        },
{
    let mut i: usize = 0;
    while i < names.len()
        invariant
            i <= names.len(),
            forall|j: int| 0 <= j < i ==> !eq_ignore_ascii_case(#[trigger] names@[j]@, name@),
        decreases names.len() - i,
    {
        if same_ignoring_ascii_case(names[i].as_str(), name) {
            return Some(i);
        }
        i += 1;
    }
    None
}

} // verus!
