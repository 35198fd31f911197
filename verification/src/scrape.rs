//! Reading Required Items off a Workshop page.
//!
//! One page yields both the item's name and its requirements, which is what
//! lets the UI expand the chain one click at a time. Fetching the page is the
//! caller's part; this reads what came back.

use vstd::prelude::*;
use crate::find::{find, find_from, lemma_find, matches_at, occurs_at, replace, replace_all};
use crate::api::{lemma_new_ids_fresh, new_ids};
use crate::map::StrMap;
use crate::text::{
    chars_of, concat, decimal, decimal_string, is_digit, is_whitespace, is_ws, lead_ws,
    lemma_lead_ws_unique, owned, string_of_range, trim, trimmed,
};

verus! {

/// Identifies the tool honestly rather than posing as a browser.
pub const USER_AGENT: &'static str = "brhap/0.1.0 (+arma3 mod launcher)";

/// The address of an item's Workshop page, without the id.
pub const PAGE: &'static str = "https://steamcommunity.com/sharedfiles/filedetails/?id=";

/// What one Workshop page told us.
#[derive(Debug, PartialEq, Eq)]
pub struct PageInfo {
    /// Display name of the item, or none when the page has no title block.
    pub name: Option<String>,
    /// Ids this item declares as Required Items, in page order, each once.
    pub requires: Vec<String>,
    /// Names of those required items, free with the same fetch.
    pub required_names: StrMap<String>,
}

/// Why a page lookup produced nothing.
#[derive(Debug, Clone, PartialEq, Eq)]
pub enum ScrapeError {
    /// Steam rate limited us. Retryable after a wait.
    RateLimited(String),
    Http(String),
    /// The response was not a Workshop item page. Recording "no dependencies"
    /// from a page we cannot identify would poison the cache with a fact we
    /// never learned, so this is an error rather than an empty result.
    Unrecognized(String),
}

/// The message shown for a scrape error.
pub open spec fn spec_scrape_message(e: ScrapeError) -> Seq<char> {
    match e {
        ScrapeError::RateLimited(id) => "Steam rate limited the request for "@ + id@,
        ScrapeError::Http(message) => message@,
        ScrapeError::Unrecognized(id) => "the page returned for "@ + id@
            + " was not a Workshop item page, so nothing was recorded"@,
    }
}

impl ScrapeError {
    /// The message shown for this error.
    pub fn message(&self) -> (m: String)
        ensures
            m@ == spec_scrape_message(*self),
    {
        match self {
            ScrapeError::RateLimited(id) => concat("Steam rate limited the request for ", id.as_str()),
            ScrapeError::Http(message) => owned(message.as_str()),
            ScrapeError::Unrecognized(id) => {
                let a = concat("the page returned for ", id.as_str());
                concat(a.as_str(), " was not a Workshop item page, so nothing was recorded")
            },
        }
    }
}

/// HTML entities decoded one kind after another, `&amp;` last.
pub open spec fn spec_decode(s: Seq<char>) -> Seq<char> {
    let a = replace(s, "&quot;"@, "\""@);
    let b = replace(a, "&#39;"@, "'"@);
    let c = replace(b, "&#039;"@, "'"@);
    let d = replace(c, "&lt;"@, "<"@);
    let e = replace(d, "&gt;"@, ">"@);
    replace(e, "&amp;"@, "&"@)
}

fn decode(text: &str) -> (r: String)
    ensures
        r@ == spec_decode(text@),
{
    proof {
        reveal_strlit("&quot;");
        reveal_strlit("&#39;");
        reveal_strlit("&#039;");
        reveal_strlit("&lt;");
        reveal_strlit("&gt;");
        reveal_strlit("&amp;");
    }
    let a = replace_all(text, "&quot;", "\"");
    let b = replace_all(a.as_str(), "&#39;", "'");
    let c = replace_all(b.as_str(), "&#039;", "'");
    let d = replace_all(c.as_str(), "&lt;", "<");
    let e = replace_all(d.as_str(), "&gt;", ">");
    replace_all(e.as_str(), "&amp;", "&")
}

/// The title block's text, trimmed: what follows the first
/// `<div class="workshopItemTitle"` tag up to the next `</div>`.
pub open spec fn spec_title(t: Seq<char>) -> Option<Seq<char>> {
    let open_tag = "<div class=\"workshopItemTitle\""@;
    match find(t, open_tag, 0) {
        Some(i) => match find(t, ">"@, i + open_tag.len()) {
            Some(g) => match find(t, "</div>"@, g + 1) {
                Some(e) => Some(trim(t.subrange(g + 1, e))),
                None => None,
            },
            None => None,
        },
        None => None,
    }
}

/// Where the title text sits in the page.
fn title_span(t: &Vec<char>) -> (r: Option<(usize, usize)>)
    ensures
        match r {
            Some((a, b)) => a <= b <= t.len() && spec_title(t@) == Some(trim(t@.subrange(a as int, b as int))),
            None => spec_title(t@) is None,
        },
{
    proof {
        reveal_strlit("<div class=\"workshopItemTitle\"");
        reveal_strlit(">");
        reveal_strlit("</div>");
    }
    let open_tag = chars_of("<div class=\"workshopItemTitle\"");
    let gt = chars_of(">");
    let close = chars_of("</div>");
    match find_from(t, &open_tag, 0) {
        Some(i) => match find_from(t, &gt, i + open_tag.len()) {
            Some(g) => match find_from(t, &close, g + 1) {
                Some(e) => {
                    proof {
                        lemma_find(t@, close@, g + 1);
                    }
                    Some((g + 1, e))
                },
                None => None,
            },
            None => None,
        },
        None => None,
    }
}

/// The first Workshop page title, decoded.
fn title_of(t: &Vec<char>) -> (r: Option<String>)
    ensures
        match spec_title(t@) {
            Some(n) => r matches Some(s) && s@ == spec_decode(n),
            None => r is None,
        },
{
    match title_span(t) {
        Some((a, b)) => {
            let raw = string_of_range(t, a, b);
            let name = trimmed(raw.as_str());
            Some(decode(name.as_str()))
        },
        None => None,
    }
}

/// Does this look like a Workshop item page at all? A real item page always
/// carries the title block.
pub open spec fn spec_is_item_page(t: Seq<char>) -> bool {
    spec_title(t) is Some
}

/// Does this look like a Workshop item page at all?
///
/// A real item page always carries the title block. Without it we are looking
/// at an error page, an interstitial, or something else entirely, and an empty
/// requirements list would be a conclusion we did not earn.
pub fn is_item_page(html: &str) -> (r: bool)
    ensures
        r == spec_is_item_page(html@),
{
    let t = chars_of(html);
    title_span(&t).is_some()
}

/// Length of the run of digits at the start of `s`.
pub open spec fn digit_run(s: Seq<char>) -> nat
    decreases s.len(),
{
    if s.len() > 0 && is_digit(s[0]) {
        1 + digit_run(s.drop_first())
    } else {
        0
    }
}

proof fn lemma_digit_run(s: Seq<char>)
    ensures
        digit_run(s) <= s.len(),
        forall|i: int| 0 <= i < digit_run(s) ==> is_digit(#[trigger] s[i]),
        digit_run(s) < s.len() ==> !is_digit(s[digit_run(s) as int]),
    decreases s.len(),
{
    if s.len() > 0 && is_digit(s[0]) {
        lemma_digit_run(s.drop_first());
        assert forall|i: int| 0 <= i < digit_run(s) implies is_digit(#[trigger] s[i]) by {
            if i > 0 {
                assert(s[i] == s.drop_first()[i - 1]);
            }
        }
    }
}

proof fn lemma_digit_run_unique(s: Seq<char>, k: int)
    requires
        0 <= k <= s.len(),
        forall|i: int| 0 <= i < k ==> is_digit(#[trigger] s[i]),
        k < s.len() ==> !is_digit(s[k]),
    ensures
        digit_run(s) == k,
{
    lemma_digit_run(s);
    if digit_run(s) < k {
        assert(is_digit(s[digit_run(s) as int]));
    } else if digit_run(s) > k {
        assert(is_digit(s[k]));
    }
}

/// At `k` sits `id=`, one or more digits, then `"`; the digits end at the
/// returned index.
pub open spec fn id_at(t: Seq<char>, k: int) -> Option<int> {
    let d = k + 3 + digit_run(t.skip(k + 3)) as int;
    if occurs_at(t, "id="@, k) && d > k + 3 && d < t.len() && t[d] == '"' {
        Some(d)
    } else {
        None
    }
}

/// The last position in `[lo, hi)` holding an `id=<digits>"`, searching down from `hi`.
pub open spec fn last_id(t: Seq<char>, lo: int, hi: int) -> Option<int>
    decreases hi - lo,
{
    if hi <= lo {
        None
    } else if id_at(t, hi - 1) is Some {
        Some(hi - 1)
    } else {
        last_id(t, lo, hi - 1)
    }
}

proof fn lemma_last_id(t: Seq<char>, lo: int, hi: int)
    ensures
        last_id(t, lo, hi) matches Some(k) ==> lo <= k < hi && id_at(t, k) is Some,
    decreases hi - lo,
{
    if hi > lo && id_at(t, hi - 1) is None {
        lemma_last_id(t, lo, hi - 1);
    }
}

/// One Required Items link starting at `p`: `<a`, a tag whose last `id=<digits>"`
/// names the item, then optional whitespace, the `<div class="requiredItem">`
/// tag, and the item's name up to the next `</div>`. Gives where the match
/// ends, the id, and the trimmed name.
pub open spec fn required_at(t: Seq<char>, p: int) -> Option<(int, Seq<char>, Seq<char>)> {
    let item = "<div class=\"requiredItem\">"@;
    if !occurs_at(t, "<a"@, p) {
        None
    } else {
        match find(t, ">"@, p + 2) {
            None => None,
            Some(g) => match last_id(t, p + 3, g) {
                None => None,
                Some(k) => {
                    let j = g + 1 + lead_ws(t.skip(g + 1)) as int;
                    if !occurs_at(t, item, j) {
                        None
                    } else {
                        match find(t, "</div>"@, j + item.len()) {
                            None => None,
                            Some(e) => Some(
                                (
                                    e + 6,
                                    t.subrange(k + 3, id_at(t, k)->0),
                                    trim(t.subrange(j + item.len(), e)),
                                ),
                            ),
                        }
                    }
                },
            },
        }
    }
}

/// Every Required Items link from `p` on, leftmost first, each search
/// resuming where the previous match ended.
pub open spec fn required_from(t: Seq<char>, p: int) -> Seq<(Seq<char>, Seq<char>)>
    decreases t.len() - p,
{
    if p < 0 || p >= t.len() {
        Seq::empty()
    } else {
        match required_at(t, p) {
            Some((end, id, name)) => if p < end <= t.len() {
                seq![(id, name)] + required_from(t, end)
            } else {
                Seq::empty()
            },
            None => required_from(t, p + 1),
        }
    }
}

/// Digits at `from`, as a count.
fn count_digits(t: &Vec<char>, from: usize) -> (n: usize)
    requires
        from <= t.len(),
    ensures
        n == digit_run(t@.skip(from as int)),
        from + n <= t.len(),
{
    let mut i = from;
    while i < t.len() && '0' <= t[i] && t[i] <= '9'
        invariant
            from <= i <= t.len(),
            forall|j: int| from <= j < i ==> is_digit(#[trigger] t@[j]),
        decreases t.len() - i,
    {
        i += 1;
    }
    proof {
        let s = t@.skip(from as int);
        assert forall|j: int| 0 <= j < i - from implies is_digit(#[trigger] s[j]) by {
            assert(s[j] == t@[j + from]);
        }
        if i < t.len() {
            assert(s[i - from] == t@[i as int]);
        }
        lemma_digit_run_unique(s, (i - from) as int);
    }
    i - from
}

/// Whitespace at `from`, as a count.
fn count_ws_at(t: &Vec<char>, from: usize) -> (n: usize)
    requires
        from <= t.len(),
    ensures
        n == lead_ws(t@.skip(from as int)),
        from + n <= t.len(),
{
    let mut i = from;
    while i < t.len() && is_whitespace(t[i])
        invariant
            from <= i <= t.len(),
            forall|j: int| from <= j < i ==> is_ws(#[trigger] t@[j]),
        decreases t.len() - i,
    {
        i += 1;
    }
    proof {
        let s = t@.skip(from as int);
        assert forall|j: int| 0 <= j < i - from implies is_ws(#[trigger] s[j]) by {
            assert(s[j] == t@[j + from]);
        }
        if i < t.len() {
            assert(s[i - from] == t@[i as int]);
        }
        lemma_lead_ws_unique(s, (i - from) as int);
    }
    i - from
}

/// The end of the digits of an `id=<digits>"` at `k`.
fn id_here(t: &Vec<char>, idq: &Vec<char>, k: usize) -> (r: Option<usize>)
    requires
        idq@ == "id="@,
        k <= t.len(),
    ensures
        match r {
            Some(d) => id_at(t@, k as int) == Some(d as int) && d < t.len(),
            None => id_at(t@, k as int) is None,
        },
{
    proof {
        reveal_strlit("id=");
    }
    if !matches_at(t, idq, k) {
        return None;
    }
    let d = k + 3 + count_digits(t, k + 3);
    if d > k + 3 && d < t.len() && t[d] == '"' {
        Some(d)
    } else {
        None
    }
}

/// The last `id=<digits>"` in `[lo, hi)`.
fn find_last_id(t: &Vec<char>, lo: usize, hi: usize) -> (r: Option<usize>)
    requires
        hi <= t.len(),
    ensures
        match r {
            Some(k) => last_id(t@, lo as int, hi as int) == Some(k as int) && lo <= k < hi,
            None => last_id(t@, lo as int, hi as int) is None,
        },
{
    let idq = chars_of("id=");
    let mut h = hi;
    while h > lo
        invariant
            h <= hi <= t.len(),
            idq@ == "id="@,
            last_id(t@, lo as int, hi as int) == last_id(t@, lo as int, h as int),
        decreases h,
    {
        match id_here(t, &idq, h - 1) {
            Some(_) => {
                return Some(h - 1);
            },
            None => {},
        }
        h -= 1;
    }
    None
}

/// One Required Items link at `p`, if there is one.
fn required_here(t: &Vec<char>, p: usize) -> (r: Option<(usize, String, String)>)
    requires
        p <= t.len(),
    ensures
        match r {
            Some((end, id, name)) => required_at(t@, p as int) == Some((end as int, id@, name@))
                && p < end <= t.len(),
            None => required_at(t@, p as int) is None,
        },
{
    let open_a = chars_of("<a");
    let gt = chars_of(">");
    let item = chars_of("<div class=\"requiredItem\">");
    let close = chars_of("</div>");
    proof {
        reveal_strlit("</div>");
        reveal_strlit("<a");
        reveal_strlit(">");
        reveal_strlit("<div class=\"requiredItem\">");
    }
    if !matches_at(t, &open_a, p) {
        return None;
    }
    let g = match find_from(t, &gt, p + 2) {
        Some(g) => g,
        None => return None,
    };
    let k = match find_last_id(t, p + 3, g) {
        Some(k) => k,
        None => return None,
    };
    let idq = chars_of("id=");
    proof {
        lemma_last_id(t@, p + 3, g as int);
    }
    let d = match id_here(t, &idq, k) {
        Some(d) => d,
        None => return None,
    };
    let j = g + 1 + count_ws_at(t, g + 1);
    if !matches_at(t, &item, j) {
        return None;
    }
    let e = match find_from(t, &close, j + item.len()) {
        Some(e) => e,
        None => return None,
    };
    proof {
        lemma_find(t@, close@, (j + item.len()) as int);
    }
    let id = string_of_range(t, k + 3, d);
    let raw = string_of_range(t, j + item.len(), e);
    let name = trimmed(raw.as_str());
    Some((e + 6, id, name))
}

/// Whether `id` is among `v`.
fn listed(v: &Vec<String>, id: &String) -> (r: bool)
    ensures
        r == v@.map_values(|s: String| s@).contains(id@),
{
    let mut i: usize = 0;
    while i < v.len()
        invariant
            i <= v.len(),
            forall|j: int| 0 <= j < i ==> v@[j]@ != id@,
        decreases v.len() - i,
    {
        if v[i] == *id {
            assert(v@.map_values(|s: String| s@)[i as int] == id@);
            return true;
        }
        i += 1;
    }
    proof {
        let m = v@.map_values(|s: String| s@);
        if m.contains(id@) {
            let j = m.index_of(id@);
            assert(m[j] == v@[j]@);
        }
    }
    false
}

/// The required items read in page order: ids each once, in order of first
/// appearance, and each id's name as its first appearance gives it.
pub open spec fn collect_required(links: Seq<(Seq<char>, Seq<char>)>) -> (Seq<Seq<char>>, Map<Seq<char>, Seq<char>>)
    decreases links.len(),
{
    if links.len() == 0 {
        (Seq::empty(), Map::empty())
    } else {
        let (ids, names) = collect_required(links.drop_last());
        let (id, name) = links.last();
        if ids.contains(id) {
            (ids, names)
        } else {
            (ids.push(id), names.insert(id, spec_decode(name)))
        }
    }
}

/// What a page says: its decoded title, and its required items.
pub open spec fn spec_page(t: Seq<char>) -> (Option<Seq<char>>, Seq<Seq<char>>, Map<Seq<char>, Seq<char>>) {
    let name = match spec_title(t) {
        Some(n) => Some(spec_decode(n)),
        None => None,
    };
    let (ids, names) = collect_required(required_from(t, 0));
    (name, ids, names)
}

/// The ids of a list of required-item links, in page order.
pub open spec fn link_ids(links: Seq<(Seq<char>, Seq<char>)>) -> Seq<Seq<char>> {
    links.map_values(|l: (Seq<char>, Seq<char>)| l.0)
}

/// Reading required items keeps each id once, at its first appearance and
/// in order of first appearance, loses none, and names each by the decoded
/// text of its first appearance.
pub proof fn lemma_required_ids(links: Seq<(Seq<char>, Seq<char>)>)
    ensures
        collect_required(links).0 == new_ids(link_ids(links), Set::empty()),
        collect_required(links).0.no_duplicates(),
        forall|x: Seq<char>|
            #[trigger] collect_required(links).0.contains(x) <==> link_ids(links).contains(x),
        collect_required(links).1.dom() == collect_required(links).0.to_set(),
        forall|x: Seq<char>|
            #[trigger] collect_required(links).1.contains_key(x) ==> exists|j: int|
                0 <= j < links.len() && (#[trigger] links[j]).0 == x && !link_ids(links.take(j)).contains(
                    x,
                ) && collect_required(links).1[x] == spec_decode(links[j].1),
    decreases links.len(),
{
    let (ids, names) = collect_required(links);
    if links.len() == 0 {
        assert(link_ids(links) =~= Seq::<Seq<char>>::empty());
        assert(names.dom() =~= ids.to_set());
    } else {
        let p = links.drop_last();
        lemma_required_ids(p);
        let (ids0, names0) = collect_required(p);
        let (id, name) = links.last();
        assert(link_ids(links).drop_last() =~= link_ids(p));
        assert(link_ids(links).last() == id);
        lemma_new_ids_fresh(link_ids(links), Set::empty());
        assert forall|x: Seq<char>| #[trigger] ids.contains(x) <==> link_ids(links).contains(x) by {
            if link_ids(links).contains(x) {
                let k = link_ids(links).index_of(x);
                if k < p.len() {
                    assert(link_ids(p)[k] == x);
                    assert(link_ids(p).contains(x));
                }
            }
            if link_ids(p).contains(x) {
                let k = link_ids(p).index_of(x);
                assert(link_ids(links)[k] == x);
            }
            if ids0.contains(x) {
                assert(link_ids(p).contains(x));
            }
            if x == id {
                assert(link_ids(links)[links.len() - 1] == x);
            }
            if ids0.contains(id) {
                assert(ids == ids0);
                if x == id {
                    assert(ids0.contains(x));
                }
            } else {
                assert(ids == ids0.push(id));
                if ids.contains(x) && x != id {
                    let k = ids.index_of(x);
                    assert(ids0[k] == x);
                    assert(ids0.contains(x));
                }
                if ids0.contains(x) {
                    let k = ids0.index_of(x);
                    assert(ids[k] == x);
                }
                if x == id {
                    assert(ids[ids0.len() as int] == x);
                }
            }
        }
        assert(names.dom() =~= ids.to_set());
        assert forall|x: Seq<char>| #[trigger] names.contains_key(x) implies exists|j: int|
            0 <= j < links.len() && (#[trigger] links[j]).0 == x && !link_ids(links.take(j)).contains(x)
                && names[x] == spec_decode(links[j].1) by {
            if names0.contains_key(x) {
                let j = choose|j: int|
                    0 <= j < p.len() && (#[trigger] p[j]).0 == x && !link_ids(p.take(j)).contains(x)
                        && names0[x] == spec_decode(p[j].1);
                assert(links.take(j) =~= p.take(j));
                assert(links[j] == p[j]);
            } else {
                let j = links.len() - 1;
                assert(links.take(j) =~= p);
                assert(links[j] == links.last());
                assert(!ids0.contains(id));
            }
        }
    }
}

/// What a page gives: a name exactly when it is an item page, and its
/// required ids each once, in order of first appearance, each named.
pub proof fn lemma_page_required(t: Seq<char>)
    ensures
        spec_page(t).0 is Some <==> spec_is_item_page(t),
        spec_page(t).1 == new_ids(link_ids(required_from(t, 0)), Set::empty()),
        spec_page(t).1.no_duplicates(),
        spec_page(t).2.dom() == spec_page(t).1.to_set(),
{
    lemma_required_ids(required_from(t, 0));
}

/// Pull the item name and its Required Items out of a Workshop page.
pub fn parse_workshop_page(html: &str) -> (info: PageInfo)
    ensures
        ({
            let (name, ids, names) = spec_page(html@);
            &&& match name {
                Some(n) => info.name matches Some(s) && s@ == n,
                None => info.name is None,
            }
            &&& info.requires@.map_values(|s: String| s@) == ids
            &&& crate::mods::text_map(info.required_names) == names
        }),
{
    let t = chars_of(html);
    let name = title_of(&t);
    let mut req: Vec<String> = Vec::new();
    let mut required_names: StrMap<String> = StrMap::new();
    let mut p: usize = 0;
    let ghost mut seen: Seq<(Seq<char>, Seq<char>)> = Seq::empty();
    while p < t.len()
        invariant
            p <= t.len(),
            t@ == html@,
            seen + required_from(t@, p as int) == required_from(t@, 0),
            req@.map_values(|s: String| s@) == collect_required(seen).0,
            crate::mods::text_map(required_names) == collect_required(seen).1,
        decreases t.len() - p,
    {
        match required_here(&t, p) {
            Some((end, id, raw_name)) => {
                let ghost link = (id@, raw_name@);
                proof {
                    assert(required_from(t@, p as int) =~= seq![link] + required_from(t@, end as int));
                    assert(seen.push(link) + required_from(t@, end as int) =~= seen + required_from(t@, p as int));
                    assert(seen.push(link).drop_last() =~= seen);
                }
                if !listed(&req, &id) {
                    let decoded = decode(raw_name.as_str());
                    let ghost before = crate::mods::text_map(required_names);
                    let ghost (ik, dv) = (id@, decoded@);
                    required_names.insert(id.clone(), decoded);
                    assert(crate::mods::text_map(required_names) =~= before.insert(ik, dv));
                    let ghost old_req = req@;
                    req.push(id);
                    assert(req@.map_values(|s: String| s@) =~= old_req.map_values(|s: String| s@).push(ik));
                }
                proof {
                    seen = seen.push(link);
                }
                p = end;
            },
            None => {
                p += 1;
            },
        }
    }
    assert(required_from(t@, p as int) =~= Seq::<(Seq<char>, Seq<char>)>::empty());
    assert(seen =~= required_from(t@, 0));
    PageInfo { name, requires: req, required_names }
}

/// The Workshop page address for an id.
pub fn page_url(id: &str) -> (r: String)
    ensures
        r@ == PAGE@ + id@,
{
    concat(PAGE, id)
}

/// What a fetched Workshop page amounts to, given the HTTP status and body
/// that came back for `id`: rate limited on 429, an HTTP error on any other
/// status outside 200..=299, unrecognized when the body is not an item page,
/// and otherwise what the page says.
pub fn page_from_response(id: &str, status: u16, body: &str) -> (r: Result<PageInfo, ScrapeError>)
    ensures
        status == 429 ==> (r matches Err(ScrapeError::RateLimited(x)) && x@ == id@),
        status != 429 && !(200 <= status <= 299) ==> (r matches Err(ScrapeError::Http(m)) && m@
            == "Workshop page for "@ + id@ + " returned HTTP "@ + decimal(status as nat)),
        200 <= status <= 299 && !spec_is_item_page(body@) ==> (r matches Err(
            ScrapeError::Unrecognized(x),
        ) && x@ == id@),
        200 <= status <= 299 && spec_is_item_page(body@) ==> (r matches Ok(info) && ({
            let (name, ids, names) = spec_page(body@);
            &&& match name {
                Some(n) => info.name matches Some(s) && s@ == n,
                None => info.name is None,
            }
            &&& info.requires@.map_values(|s: String| s@) == ids
            &&& crate::mods::text_map(info.required_names) == names
        })),
{
    if status == 429 {
        return Err(ScrapeError::RateLimited(owned(id)));
    }
    if !(200 <= status && status <= 299) {
        let a = concat("Workshop page for ", id);
        let b = concat(a.as_str(), " returned HTTP ");
        let n = decimal_string(status as u64);
        return Err(ScrapeError::Http(concat(b.as_str(), n.as_str())));
    }
    let info = parse_workshop_page(body);
    if !is_item_page(body) {
        return Err(ScrapeError::Unrecognized(owned(id)));
    }
    Ok(info)
}

} // verus!
