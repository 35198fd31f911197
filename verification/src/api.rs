//! The optional Steam Web API path.
//!
//! When a key is present, `IPublishedFileService/GetDetails` resolves the
//! whole tree in one batched call per level, filling the cache in a single
//! deliberate action. An addition to the click-driven scrape, not a
//! replacement, since the key is optional.
//!
//! The walk here decides which ids each call asks for and what the answers
//! add up to; the caller makes each call and hands its parsed body back.

use vstd::prelude::*;
use crate::cache::{listed_id, texts};
use crate::profiles::copy_strings;
use crate::json::{as_str, get, json_get, json_str, Json};
use crate::map::StrMap;
use crate::text::{all_ws, is_blank, owned};

verus! {

/// Stop runaway walks if the graph is deeper or more tangled than expected.
pub const MAX_ROUNDS: usize = 10;

/// The batched details endpoint.
pub const ENDPOINT: &'static str = "https://api.steampowered.com/IPublishedFileService/GetDetails/v1/";

/// Environment variable holding the optional Steam Web API key.
pub const KEY_VAR: &'static str = "STEAM_KEY";

/// One item as the API describes it.
#[derive(Debug, Clone, PartialEq, Eq)]
pub struct ApiItem {
    pub name: String,
    pub requires: Vec<String>,
}

/// An item as values.
pub struct ApiItemView {
    pub name: Seq<char>,
    pub requires: Seq<Seq<char>>,
}

impl ApiItem {
    pub open spec fn view(&self) -> ApiItemView {
        ApiItemView { name: self.name@, requires: texts(self.requires@) }
    }
}

/// A map of items as values.
pub open spec fn items_view(m: Map<Seq<char>, ApiItem>) -> Map<Seq<char>, ApiItemView> {
    m.map_values(|a: ApiItem| a@)
}

/// Everything a walk reached, and what it cost.
#[derive(Debug, PartialEq, Eq)]
pub struct WalkResult {
    pub items: StrMap<ApiItem>,
    /// Number of API calls made, which equals the depth of the tree.
    pub calls: usize,
}

impl Default for WalkResult {
    fn default() -> (r: WalkResult)
        ensures
            r.items@ == Map::<Seq<char>, ApiItem>::empty(),
            r.calls == 0,
    {
        WalkResult { items: StrMap::new(), calls: 0 }
    }
}

/// The key a value gives, when it holds one: set and not only whitespace.
pub open spec fn usable_key(value: Option<Seq<char>>) -> Option<Seq<char>> {
    match value {
        Some(k) => if all_ws(k) { None } else { Some(k) },
        None => None,
    }
}

/// The Steam Web API key held by the environment variable's value, if any.
/// The environment, and only the environment, supplies it.
pub fn steam_key_from(value: Option<String>) -> (r: Option<String>)
    ensures
        match r {
            Some(k) => usable_key(opt_view(value)) == Some(k@),
            None => usable_key(opt_view(value)) is None,
        },
{
    match value {
        Some(k) => if is_blank(k.as_str()) {
            None
        } else {
            Some(k)
        },
        None => None,
    }
}

/// The text of an optional string.
pub open spec fn opt_view(v: Option<String>) -> Option<Seq<char>> {
    match v {
        Some(s) => Some(s@),
        None => None,
    }
}

/// The ids a `children` array lists, in order, entries without a string
/// `publishedfileid` skipped.
pub open spec fn child_ids(children: Seq<Json>) -> Seq<Seq<char>>
    decreases children.len(),
{
    if children.len() == 0 {
        Seq::empty()
    } else {
        let rest = child_ids(children.drop_last());
        match as_str(get(children.last(), "publishedfileid"@)) {
            Some(c) => rest.push(c),
            None => rest,
        }
    }
}

/// One entry of `publishedfiledetails`: its id and item, or nothing when it
/// has no string id. The title defaults to the id, and an absent or
/// non-array `children` means no requirements.
pub open spec fn detail_item(detail: Json) -> Option<(Seq<char>, ApiItemView)> {
    match as_str(get(detail, "publishedfileid"@)) {
        None => None,
        Some(id) => Some(
            (
                id,
                ApiItemView {
                    name: match as_str(get(detail, "title"@)) {
                        Some(t) => t,
                        None => id,
                    },
                    requires: match get(detail, "children"@) {
                        Some(Json::Array(children)) => child_ids(children@),
                        _ => Seq::empty(),
                    },
                },
            ),
        ),
    }
}

/// The items of a list of entries, a later entry for an id replacing an
/// earlier one.
pub open spec fn details_map(details: Seq<Json>) -> Map<Seq<char>, ApiItemView>
    decreases details.len(),
{
    if details.len() == 0 {
        Map::empty()
    } else {
        let m = details_map(details.drop_last());
        match detail_item(details.last()) {
            Some((id, item)) => m.insert(id, item),
            None => m,
        }
    }
}

/// The items of a GetDetails response body: those of
/// `response.publishedfiledetails` when that is an array, none otherwise.
pub open spec fn spec_parse_details(body: Json) -> Map<Seq<char>, ApiItemView> {
    match get(body, "response"@) {
        Some(r) => match get(r, "publishedfiledetails"@) {
            Some(Json::Array(details)) => details_map(details@),
            _ => Map::empty(),
        },
        None => Map::empty(),
    }
}

fn read_child_ids(children: &Vec<Json>) -> (r: Vec<String>)
    ensures
        texts(r@) == child_ids(children@),
{
    let mut r: Vec<String> = Vec::new();
    let mut i: usize = 0;
    while i < children.len()
        invariant
            i <= children.len(),
            texts(r@) == child_ids(children@.take(i as int)),
        decreases children.len() - i,
    {
        assert(children@.take(i + 1).drop_last() =~= children@.take(i as int));
        assert(children@.take(i + 1).last() == children@[i as int]);
        match json_str(json_get(&children[i], "publishedfileid")) {
            Some(c) => {
                let ghost before = r@;
                r.push(owned(c.as_str()));
                assert(texts(r@) =~= texts(before).push(c@));
            },
            None => {},
        }
        i += 1;
    }
    assert(children@.take(children.len() as int) =~= children@);
    r
}

fn read_detail(detail: &Json) -> (r: Option<(String, ApiItem)>)
    ensures
        match r {
            Some((id, item)) => detail_item(*detail) == Some((id@, item@)),
            None => detail_item(*detail) is None,
        },
{
    let id = match json_str(json_get(detail, "publishedfileid")) {
        Some(id) => id,
        None => {
            return None;
        },
    };
    let name = match json_str(json_get(detail, "title")) {
        Some(t) => owned(t.as_str()),
        None => owned(id.as_str()),
    };
    let needs = match json_get(detail, "children") {
        Some(Json::Array(children)) => read_child_ids(children),
        _ => Vec::new(),
    };
    proof {
        assert(texts(Seq::<String>::empty()) =~= Seq::<Seq<char>>::empty());
    }
    Some((owned(id.as_str()), ApiItem { name, requires: needs }))
}

/// Pull items and their children out of a GetDetails response body.
pub fn parse_details(body: &Json) -> (r: StrMap<ApiItem>)
    ensures
        items_view(r@) == spec_parse_details(*body),
{
    let mut items: StrMap<ApiItem> = StrMap::new();
    let details = match json_get(body, "response") {
        Some(resp) => match json_get(resp, "publishedfiledetails") {
            Some(Json::Array(details)) => details,
            _ => {
                assert(items_view(items@) =~= spec_parse_details(*body));
                return items;
            },
        },
        None => {
            assert(items_view(items@) =~= spec_parse_details(*body));
            return items;
        },
    };
    let mut i: usize = 0;
    while i < details.len()
        invariant
            i <= details.len(),
            items_view(items@) == details_map(details@.take(i as int)),
        decreases details.len() - i,
    {
        assert(details@.take(i + 1).drop_last() =~= details@.take(i as int));
        assert(details@.take(i + 1).last() == details@[i as int]);
        match read_detail(&details[i]) {
            Some((id, item)) => {
                let ghost (k, v) = (id@, item@);
                let ghost before = items@;
                items.insert(id, item);
                assert(items_view(items@) =~= items_view(before).insert(k, v));
            },
            None => {},
        }
        i += 1;
    }
    assert(details@.take(details.len() as int) =~= details@);
    items
}

impl ApiItem {
    /// A copy of the item.
    pub fn copy(&self) -> (r: ApiItem)
        ensures
            r@ == self@,
    {
        ApiItem { name: owned(self.name.as_str()), requires: copy_strings(self.requires.as_slice()) }
    }
}

/// The ids of a list that are not in `seen`, each kept at its first
/// occurrence, in order.
pub open spec fn new_ids(ids: Seq<Seq<char>>, seen: Set<Seq<char>>) -> Seq<Seq<char>>
    decreases ids.len(),
{
    if ids.len() == 0 {
        Seq::empty()
    } else {
        let rest = new_ids(ids.drop_last(), seen);
        if seen.contains(ids.last()) || rest.contains(ids.last()) {
            rest
        } else {
            rest.push(ids.last())
        }
    }
}

/// What a walk asks for next is fresh: no id twice, none already asked for,
/// and each one a requirement that was listed.
pub proof fn lemma_new_ids_fresh(ids: Seq<Seq<char>>, seen: Set<Seq<char>>)
    ensures
        new_ids(ids, seen).no_duplicates(),
        forall|i: int|
            0 <= i < new_ids(ids, seen).len() ==> !seen.contains(#[trigger] new_ids(ids, seen)[i])
                && ids.contains(new_ids(ids, seen)[i]),
    decreases ids.len(),
{
    if ids.len() > 0 {
        let rest = new_ids(ids.drop_last(), seen);
        lemma_new_ids_fresh(ids.drop_last(), seen);
        assert forall|i: int| 0 <= i < rest.len() implies ids.contains(#[trigger] rest[i]) by {
            let y = ids.drop_last().index_of(rest[i]);
            assert(ids[y] == rest[i]);
        }
        if !(seen.contains(ids.last()) || rest.contains(ids.last())) {
            assert(ids[ids.len() - 1] == ids.last());
        }
    }
}

/// Every requirement of the items under `keys`, key by key, each list in
/// its own order.
pub open spec fn all_requirements(keys: Seq<Seq<char>>, items: Map<Seq<char>, ApiItemView>) -> Seq<
    Seq<char>,
>
    decreases keys.len(),
{
    if keys.len() == 0 {
        Seq::empty()
    } else {
        all_requirements(keys.drop_last(), items) + items[keys.last()].requires
    }
}

/// Where a walk stands: the ids the next call asks for, the ids already
/// asked for, the items gathered, and the calls made.
pub struct WalkModel {
    pub frontier: Seq<Seq<char>>,
    pub seen: Set<Seq<char>>,
    pub items: Map<Seq<char>, ApiItemView>,
    pub rounds: nat,
}

/// One answer of the API as values: the ids it returned items for, in the
/// order it lists them, and those items.
pub type ResponseView = (Seq<Seq<char>>, Map<Seq<char>, ApiItemView>);

/// An answer as values.
pub open spec fn response_view(parsed: StrMap<ApiItem>) -> ResponseView {
    (parsed.keys(), items_view(parsed@))
}

/// A walk from the given roots before any call: the roots, each once.
pub open spec fn walk_begin(ids: Seq<Seq<char>>) -> WalkModel {
    WalkModel {
        frontier: new_ids(ids, Set::empty()),
        seen: Set::empty(),
        items: Map::empty(),
        rounds: 0,
    }
}

/// A walk after one more answer: what was asked counts as seen, the items
/// join what was gathered, and the next call asks for each requirement not
/// asked for yet.
pub open spec fn walk_step(w: WalkModel, r: ResponseView) -> WalkModel {
    let seen = w.seen + w.frontier.to_set();
    WalkModel {
        frontier: new_ids(all_requirements(r.0, r.1), seen),
        seen,
        items: w.items.union_prefer_right(r.1),
        rounds: w.rounds + 1,
    }
}

/// A walk from the given roots after the given answers, one per call.
pub open spec fn walk_run(ids: Seq<Seq<char>>, rs: Seq<ResponseView>) -> WalkModel
    decreases rs.len(),
{
    if rs.len() == 0 {
        walk_begin(ids)
    } else {
        walk_step(walk_run(ids, rs.drop_last()), rs.last())
    }
}

/// The ids the call after the first `i` answers asks for.
pub open spec fn batch(ids: Seq<Seq<char>>, rs: Seq<ResponseView>, i: int) -> Seq<Seq<char>> {
    walk_run(ids, rs.take(i)).frontier
}

/// The ids asked for by the first `n` calls.
pub open spec fn asked(ids: Seq<Seq<char>>, rs: Seq<ResponseView>, n: int) -> Set<Seq<char>> {
    Set::new(|x: Seq<char>| exists|i: int| 0 <= i < n && #[trigger] batch(ids, rs, i).contains(x))
}

/// Every item of the answers, a later answer for an id replacing an earlier
/// one.
pub open spec fn gathered(rs: Seq<ResponseView>) -> Map<Seq<char>, ApiItemView>
    decreases rs.len(),
{
    if rs.len() == 0 {
        Map::empty()
    } else {
        gathered(rs.drop_last()).union_prefer_right(rs.last().1)
    }
}

/// The state after the answers: what was seen is what the calls asked for,
/// and the next call asks for ids not seen, each once.
proof fn lemma_walk_seen(ids: Seq<Seq<char>>, rs: Seq<ResponseView>)
    ensures
        walk_run(ids, rs).seen == asked(ids, rs, rs.len() as int),
        walk_run(ids, rs).frontier.no_duplicates(),
        forall|x: Seq<char>|
            #[trigger] walk_run(ids, rs).frontier.contains(x) ==> !walk_run(ids, rs).seen.contains(x),
        walk_run(ids, rs).items == gathered(rs),
        walk_run(ids, rs).rounds == rs.len(),
    decreases rs.len(),
{
    let w = walk_run(ids, rs);
    if rs.len() == 0 {
        lemma_new_ids_fresh(ids, Set::empty());
        assert(w.seen =~= asked(ids, rs, 0));
    } else {
        let n = rs.len() - 1;
        let prev = rs.drop_last();
        lemma_walk_seen(ids, prev);
        let p = walk_run(ids, prev);
        assert forall|i: int| 0 <= i <= n implies #[trigger] batch(ids, rs, i) == batch(ids, prev, i) by {
            assert(rs.take(i) =~= prev.take(i));
        }
        assert(prev.take(n) =~= prev);
        assert(batch(ids, prev, n) == p.frontier);
        assert forall|x: Seq<char>| #[trigger] w.seen.contains(x) <==> asked(ids, rs, rs.len() as int).contains(x) by {
            if p.seen.contains(x) {
                let i = choose|i: int| 0 <= i < n && #[trigger] batch(ids, prev, i).contains(x);
                assert(batch(ids, rs, i) == batch(ids, prev, i));
            }
            if p.frontier.contains(x) {
                assert(batch(ids, rs, n) == batch(ids, prev, n));
            }
            if asked(ids, rs, rs.len() as int).contains(x) {
                let i = choose|i: int| 0 <= i < n + 1 && #[trigger] batch(ids, rs, i).contains(x);
                assert(batch(ids, rs, i) == batch(ids, prev, i));
                if i < n {
                    assert(asked(ids, prev, n).contains(x));
                }
            }
        }
        assert(w.seen =~= asked(ids, rs, rs.len() as int));
        lemma_new_ids_fresh(all_requirements(rs.last().0, rs.last().1), w.seen);
    }
}

/// A whole walk from `ids` through the answers `rs`, one answer per call:
/// no call asks for an id twice or for one an earlier call asked for; the
/// first asks for the roots, each once, in order; each later one asks for
/// the requirements of the previous answer that were not asked for yet,
/// each once, in order; and the items are every answer's, a later answer
/// replacing an earlier one.
pub proof fn lemma_walk(ids: Seq<Seq<char>>, rs: Seq<ResponseView>)
    ensures
        walk_run(ids, rs).rounds == rs.len(),
        walk_run(ids, rs).items == gathered(rs),
        batch(ids, rs, 0) == new_ids(ids, Set::empty()),
        forall|i: int| 0 <= i <= rs.len() ==> (#[trigger] batch(ids, rs, i)).no_duplicates(),
        forall|i: int, j: int, x: Seq<char>|
            0 <= i < j <= rs.len() && #[trigger] batch(ids, rs, j).contains(x) ==> !(
            #[trigger] batch(ids, rs, i)).contains(x),
        forall|i: int|
            0 <= i < rs.len() ==> #[trigger] batch(ids, rs, i + 1) == new_ids(
                all_requirements(rs[i].0, rs[i].1),
                asked(ids, rs, i + 1),
            ),
{
    lemma_walk_seen(ids, rs);
    assert(rs.take(0) =~= Seq::<ResponseView>::empty());
    assert(rs.take(rs.len() as int) =~= rs);
    assert forall|i: int| 0 <= i <= rs.len() implies (#[trigger] batch(ids, rs, i)).no_duplicates() by {
        lemma_walk_seen(ids, rs.take(i));
    }
    assert forall|i: int, j: int, x: Seq<char>|
        0 <= i < j <= rs.len() && #[trigger] batch(ids, rs, j).contains(x) implies !(
        #[trigger] batch(ids, rs, i)).contains(x) by {
        let t = rs.take(j);
        lemma_walk_seen(ids, t);
        assert(t.take(j) =~= t);
        assert(t.take(i) =~= rs.take(i));
        assert(batch(ids, t, i) == batch(ids, rs, i));
        if batch(ids, rs, i).contains(x) {
            assert(asked(ids, t, j).contains(x));
        }
    }
    assert forall|i: int| 0 <= i < rs.len() implies #[trigger] batch(ids, rs, i + 1) == new_ids(
        all_requirements(rs[i].0, rs[i].1),
        asked(ids, rs, i + 1),
    ) by {
        let t = rs.take(i + 1);
        lemma_walk_seen(ids, t);
        assert(t.drop_last() =~= rs.take(i));
        assert(t.last() == rs[i]);
        assert(t.take(i + 1) =~= t);
        assert forall|k: int| 0 <= k <= i + 1 implies #[trigger] batch(ids, t, k) == batch(ids, rs, k) by {
            assert(t.take(k) =~= rs.take(k));
        }
        assert(asked(ids, t, i + 1) =~= asked(ids, rs, i + 1)) by {
            assert forall|x: Seq<char>| #[trigger] asked(ids, t, i + 1).contains(x) <==> asked(ids, rs, i + 1).contains(x) by {
                if asked(ids, t, i + 1).contains(x) {
                    let k = choose|k: int| 0 <= k < i + 1 && #[trigger] batch(ids, t, k).contains(x);
                    assert(batch(ids, rs, k) == batch(ids, t, k));
                }
                if asked(ids, rs, i + 1).contains(x) {
                    let k = choose|k: int| 0 <= k < i + 1 && #[trigger] batch(ids, rs, k).contains(x);
                    assert(batch(ids, rs, k) == batch(ids, t, k));
                }
            }
        }
    }
}

/// A breadth-first walk of the dependency tree, one batched call per level,
/// so the call count follows the depth of the tree rather than the number of
/// items. Each id is asked for at most once per walk, and no walk makes more
/// than `MAX_ROUNDS` calls.
pub struct Walk {
    result: WalkResult,
    seen: Vec<String>,
    frontier: Vec<String>,
    round: usize,
}

impl Walk {
    #[verifier::type_invariant]
    spec fn counted(&self) -> bool {
        self.result.calls == self.round && self.round <= MAX_ROUNDS
    }

    /// The items gathered so far.
    pub closed spec fn items(&self) -> Map<Seq<char>, ApiItemView> {
        items_view(self.result.items@)
    }

    /// The calls made so far.
    pub closed spec fn calls(&self) -> nat {
        self.result.calls as nat
    }

    /// The rounds completed so far.
    pub closed spec fn rounds(&self) -> nat {
        self.round as nat
    }

    /// The ids already asked for.
    pub closed spec fn seen_ids(&self) -> Set<Seq<char>> {
        texts(self.seen@).to_set()
    }

    /// The ids the next call asks for.
    pub closed spec fn frontier(&self) -> Seq<Seq<char>> {
        texts(self.frontier@)
    }

    /// Where the walk stands.
    pub open spec fn model(&self) -> WalkModel {
        WalkModel {
            frontier: self.frontier(),
            seen: self.seen_ids(),
            items: self.items(),
            rounds: self.rounds(),
        }
    }

    /// A walk from the given roots, each asked for once.
    pub fn start(ids: &[String]) -> (w: Walk)
        ensures
            w.frontier() == new_ids(texts(ids@), Set::empty()),
            w.seen_ids() == Set::<Seq<char>>::empty(),
            w.rounds() == 0,
            w.calls() == 0,
            w.items() == Map::<Seq<char>, ApiItemView>::empty(),
            w.model() == walk_begin(texts(ids@)),
    {
        let mut frontier: Vec<String> = Vec::new();
        let mut i: usize = 0;
        while i < ids.len()
            invariant
                i <= ids.len(),
                texts(frontier@) == new_ids(texts(ids@.take(i as int)), Set::empty()),
            decreases ids.len() - i,
        {
            assert(texts(ids@.take(i + 1)).drop_last() =~= texts(ids@.take(i as int)));
            assert(texts(ids@.take(i + 1)).last() == ids@[i as int]@);
            if !listed_id(frontier.as_slice(), ids[i].as_str()) {
                let ghost before = frontier@;
                frontier.push(owned(ids[i].as_str()));
                assert(texts(frontier@) =~= texts(before).push(ids@[i as int]@));
            }
            i += 1;
        }
        assert(ids@.take(ids.len() as int) =~= ids@);
        let w = Walk {
            result: WalkResult { items: StrMap::new(), calls: 0 },
            seen: Vec::new(),
            frontier,
            round: 0,
        };
        assert(w.seen_ids() =~= Set::<Seq<char>>::empty());
        assert(w.items() =~= Map::<Seq<char>, ApiItemView>::empty());
        w
    }

    /// The ids the next call should ask for, or nothing when the walk is
    /// over: nothing is left to ask for, or the round limit is reached.
    pub fn next_batch(&self) -> (r: Option<Vec<String>>)
        ensures
            r is Some <==> (self.frontier().len() > 0 && self.rounds() < MAX_ROUNDS),
            r matches Some(v) ==> texts(v@) == self.frontier(),
    {
        if self.frontier.len() > 0 && self.round < MAX_ROUNDS {
            let v = copy_strings(self.frontier.as_slice());
            Some(v)
        } else {
            None
        }
    }

    /// Take in the items one call returned: the asked ids count as seen,
    /// the items join what was gathered, a later answer for an id replacing
    /// an earlier one, and the next call asks for each requirement that has
    /// not been asked for yet.
    pub fn record(&mut self, parsed: StrMap<ApiItem>)
        requires
            old(self).rounds() < MAX_ROUNDS,
        ensures
            final(self).rounds() == old(self).rounds() + 1,
            final(self).calls() == old(self).calls() + 1,
            final(self).seen_ids() == old(self).seen_ids() + old(self).frontier().to_set(),
            final(self).items() == old(self).items().union_prefer_right(items_view(parsed@)),
            final(self).frontier() == new_ids(
                all_requirements(parsed.keys(), items_view(parsed@)),
                final(self).seen_ids(),
            ),
            final(self).model() == walk_step(old(self).model(), response_view(parsed)),
    {
        proof {
            use_type_invariant(&*self);
        }
        let mut seen = copy_strings(self.seen.as_slice());
        let mut k: usize = 0;
        while k < self.frontier.len()
            invariant
                k <= self.frontier.len(),
                texts(seen@).to_set() == texts(self.seen@).to_set() + texts(
                    self.frontier@.take(k as int),
                ).to_set(),
            decreases self.frontier.len() - k,
        {
            let ghost before = seen@;
            seen.push(owned(self.frontier[k].as_str()));
            assert(texts(seen@) =~= texts(before).push(self.frontier@[k as int]@));
            assert(texts(self.frontier@.take(k + 1)) =~= texts(self.frontier@.take(k as int)).push(
                self.frontier@[k as int]@,
            ));
            proof {
                texts(before).lemma_push_to_set_commute(self.frontier@[k as int]@);
                texts(self.frontier@.take(k as int)).lemma_push_to_set_commute(
                    self.frontier@[k as int]@,
                );
            }
            assert(texts(seen@).to_set() =~= texts(self.seen@).to_set() + texts(
                self.frontier@.take(k + 1),
            ).to_set());
            k += 1;
        }
        assert(self.frontier@.take(self.frontier.len() as int) =~= self.frontier@);
        let ghost seen_set = texts(seen@).to_set();
        let ghost pv = items_view(parsed@);
        let ghost keys = parsed.keys();
        let ghost old_items = items_view(self.result.items@);
        let n = parsed.count();
        let mut next: Vec<String> = Vec::new();
        let mut items = StrMap::new();
        std::mem::swap(&mut items, &mut self.result.items);
        let mut i: usize = 0;
        while i < n
            invariant
                n == keys.len(),
                i <= n,
                keys == parsed.keys(),
                pv == items_view(parsed@),
                forall|x: Seq<char>| #[trigger] parsed@.contains_key(x) <==> keys.contains(x),
                forall|j: int| 0 <= j < n ==> parsed@[#[trigger] keys[j]] == parsed.values()[j],
                keys.no_duplicates(),
                seen_set == texts(seen@).to_set(),
                texts(next@) == new_ids(all_requirements(keys.take(i as int), pv), seen_set),
                forall|x: Seq<char>|
                    #[trigger] items_view(items@).contains_key(x) <==> (old_items.contains_key(x)
                        || keys.take(i as int).contains(x)),
                forall|x: Seq<char>|
                    #[trigger] items_view(items@).contains_key(x) ==> items_view(items@)[x] == (if keys.take(
                        i as int,
                    ).contains(x) {
                        pv[x]
                    } else {
                        old_items[x]
                    }),
            decreases n - i,
        {
            let (id, item) = parsed.entry(i);
            let ghost reqs = texts(item.requires@);
            let ghost base = all_requirements(keys.take(i as int), pv);
            assert(keys.take(i + 1).drop_last() =~= keys.take(i as int));
            assert(keys.take(i + 1).last() == keys[i as int]);
            assert(pv[keys[i as int]] == item@);
            assert(all_requirements(keys.take(i + 1), pv) == base + reqs);
            let mut j: usize = 0;
            assert(base + reqs.take(0) =~= base);
            while j < item.requires.len()
                invariant
                    j <= item.requires.len(),
                    reqs == texts(item.requires@),
                    seen_set == texts(seen@).to_set(),
                    texts(next@) == new_ids(base + reqs.take(j as int), seen_set),
                decreases item.requires.len() - j,
            {
                let c = item.requires[j].as_str();
                assert((base + reqs.take(j + 1)).drop_last() =~= base + reqs.take(j as int));
                assert((base + reqs.take(j + 1)).last() == c@);
                if !listed_id(seen.as_slice(), c) && !listed_id(next.as_slice(), c) {
                    let ghost before = next@;
                    next.push(owned(c));
                    assert(texts(next@) =~= texts(before).push(c@));
                }
                j += 1;
            }
            assert(reqs.take(j as int) =~= reqs);
            let ghost before_items = items@;
            items.insert(owned(id.as_str()), item.copy());
            proof {
                assert(items_view(items@) =~= items_view(before_items).insert(keys[i as int], item@));
                assert forall|x: Seq<char>| #[trigger] items_view(items@).contains_key(x) <==> (
                old_items.contains_key(x) || keys.take(i + 1).contains(x)) by {
                    if keys.take(i + 1).contains(x) && x != keys[i as int] {
                        let y = keys.take(i + 1).index_of(x);
                        assert(keys.take(i as int)[y] == x);
                    }
                    if keys.take(i as int).contains(x) {
                        let y = keys.take(i as int).index_of(x);
                        assert(keys.take(i + 1)[y] == x);
                    }
                    assert(keys.take(i + 1)[i as int] == keys[i as int]);
                }
                assert forall|x: Seq<char>| #[trigger] items_view(items@).contains_key(x) implies items_view(
                    items@,
                )[x] == (if keys.take(i + 1).contains(x) {
                    pv[x]
                } else {
                    old_items[x]
                }) by {
                    if keys.take(i + 1).contains(x) && x != keys[i as int] {
                        let y = keys.take(i + 1).index_of(x);
                        assert(keys.take(i as int)[y] == x);
                    }
                    if keys.take(i as int).contains(x) {
                        let y = keys.take(i as int).index_of(x);
                        assert(keys.take(i + 1)[y] == x);
                    }
                    assert(keys.take(i + 1)[i as int] == keys[i as int]);
                }
            }
            i += 1;
        }
        assert(keys.take(n as int) =~= keys);
        let calls = self.result.calls + 1;
        let round = self.round + 1;
        *self = Walk { result: WalkResult { items, calls }, seen, frontier: next, round };
        assert(self.items() =~= old_items.union_prefer_right(pv));
    }

    /// What the walk gathered. No walk makes more than `MAX_ROUNDS` calls.
    pub fn finish(self) -> (r: WalkResult)
        ensures
            items_view(r.items@) == self.items(),
            r.calls == self.calls(),
            r.calls <= MAX_ROUNDS,
    {
        proof {
            use_type_invariant(&self);
        }
        self.result
    }
}

} // verus!
