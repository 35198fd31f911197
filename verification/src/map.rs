//! A map keyed by strings that keeps its keys in sorted order, the order in
//! which a `BTreeMap<String, _>` walks them.

use vstd::prelude::*;
use crate::text::chars_of;

verus! {

/// Length of the longest common prefix of `a` and `b`.
pub open spec fn common(a: Seq<char>, b: Seq<char>) -> nat
    decreases a.len(),
{
    if a.len() > 0 && b.len() > 0 && a[0] == b[0] {
        1 + common(a.drop_first(), b.drop_first())
    } else {
        0
    }
}

/// `a` sorts strictly before `b`, comparing code points left to right, which
/// is how `String`'s `Ord` orders them.
pub open spec fn key_lt(a: Seq<char>, b: Seq<char>) -> bool {
    let k = common(a, b);
    ||| (k == a.len() && k < b.len())
    ||| (k < a.len() && k < b.len() && a[k as int] < b[k as int])
}

pub proof fn lemma_common(a: Seq<char>, b: Seq<char>)
    ensures
        common(a, b) <= a.len(),
        common(a, b) <= b.len(),
        forall|j: int| 0 <= j < common(a, b) ==> a[j] == b[j],
        common(a, b) < a.len() && common(a, b) < b.len() ==> a[common(a, b) as int] != b[common(
            a,
            b,
        ) as int],
    decreases a.len(),
{
    if a.len() > 0 && b.len() > 0 && a[0] == b[0] {
        lemma_common(a.drop_first(), b.drop_first());
        assert forall|j: int| 0 <= j < common(a, b) implies a[j] == b[j] by {
            if j > 0 {
                assert(a[j] == a.drop_first()[j - 1]);
                assert(b[j] == b.drop_first()[j - 1]);
            }
        }
    }
}

pub proof fn lemma_common_unique(a: Seq<char>, b: Seq<char>, k: int)
    requires
        0 <= k <= a.len(),
        k <= b.len(),
        forall|j: int| 0 <= j < k ==> a[j] == b[j],
        k < a.len() && k < b.len() ==> a[k] != b[k],
    ensures
        common(a, b) == k,
{
    lemma_common(a, b);
    if common(a, b) < k {
        assert(a[common(a, b) as int] == b[common(a, b) as int]);
    } else if common(a, b) > k {
        assert(a[k] == b[k]);
    }
}

pub proof fn lemma_key_lt_irreflexive(a: Seq<char>)
    ensures
        !key_lt(a, a),
{
    lemma_common(a, a);
    lemma_common_unique(a, a, a.len() as int);
}

pub proof fn lemma_key_lt_total(a: Seq<char>, b: Seq<char>)
    ensures
        a == b || key_lt(a, b) || key_lt(b, a),
{
    lemma_common(a, b);
    lemma_common(b, a);
    let k = common(a, b);
    lemma_common_unique(b, a, k as int);
    if k == a.len() && k == b.len() {
        assert(a =~= b);
    } else if k < a.len() && k < b.len() {

    }
}

pub proof fn lemma_key_lt_asym(a: Seq<char>, b: Seq<char>)
    ensures
        !(key_lt(a, b) && key_lt(b, a)),
{
    lemma_common(a, b);
    let k = common(a, b);
    lemma_common_unique(b, a, k as int);
}

pub proof fn lemma_key_lt_trans(a: Seq<char>, b: Seq<char>, c: Seq<char>)
    requires
        key_lt(a, b),
        key_lt(b, c),
    ensures
        key_lt(a, c),
{
    lemma_common(a, b);
    lemma_common(b, c);
    lemma_common(a, c);
    let i = common(a, b);
    let j = common(b, c);
    let m = if i < j { i } else { j };
    if i < j {
        lemma_common_unique(a, c, i as int);
    } else if j < i {
        lemma_common_unique(a, c, j as int);
    } else {
        lemma_common_unique(a, c, i as int);
    }
}

/// How two keys compare.
#[derive(Debug, Clone, Copy, PartialEq, Eq)]
pub enum Order {
    Less,
    Equal,
    Greater,
}

/// Compare two keys the way `String`'s `Ord` does.
pub fn compare_keys(a: &str, b: &str) -> (r: Order)
    ensures
        r == Order::Less <==> key_lt(a@, b@),
        r == Order::Equal <==> a@ == b@,
        r == Order::Greater <==> key_lt(b@, a@),
{
    let x = chars_of(a);
    let y = chars_of(b);
    let mut k: usize = 0;
    while k < x.len() && k < y.len() && x[k] == y[k]
        invariant
            k <= x.len(),
            k <= y.len(),
            x@ == a@,
            y@ == b@,
            forall|j: int| 0 <= j < k ==> x@[j] == y@[j],
        decreases x.len() - k,
    {
        k += 1;
    }
    proof {
        lemma_common_unique(a@, b@, k as int);
        lemma_common_unique(b@, a@, k as int);
        lemma_key_lt_asym(a@, b@);
        lemma_key_lt_irreflexive(a@);
        lemma_key_lt_total(a@, b@);
    }
    if k == x.len() && k == y.len() {
        assert(a@ =~= b@);
        Order::Equal
    } else if k == x.len() {
        Order::Less
    } else if k == y.len() {
        Order::Greater
    } else if x[k] < y[k] {
        Order::Less
    } else {
        Order::Greater
    }
}

/// Whether `a` sorts strictly before `b`.
pub fn key_below(a: &str, b: &str) -> (r: bool)
    ensures
        r == key_lt(a@, b@),
{
    match compare_keys(a, b) {
        Order::Less => true,
        _ => false,
    }
}

/// The keys of a sequence of entries are strictly increasing.
pub open spec fn strictly_sorted(keys: Seq<Seq<char>>) -> bool {
    forall|i: int, j: int| 0 <= i < j < keys.len() ==> key_lt(#[trigger] keys[i], #[trigger] keys[j])
}

/// A string-keyed map whose keys stay in sorted order.
#[derive(Debug, PartialEq, Eq)]
pub struct StrMap<V> {
    entries: Vec<(String, V)>,
}

impl<V> StrMap<V> {
    /// The keys, in the order the map walks them.
    pub closed spec fn keys(&self) -> Seq<Seq<char>> {
        self.entries@.map_values(|e: (String, V)| e.0@)
    }

    /// The values, in key order.
    pub closed spec fn values(&self) -> Seq<V> {
        self.entries@.map_values(|e: (String, V)| e.1)
    }

    #[verifier::type_invariant]
    closed spec fn sorted(&self) -> bool {
        strictly_sorted(self.keys())
    }

    /// The map as key to value.
    pub open spec fn view(&self) -> Map<Seq<char>, V> {
        Map::new(
            |k: Seq<char>| self.keys().contains(k),
            |k: Seq<char>| self.values()[self.keys().index_of(k)],
        )
    }

    /// Keys are strictly increasing, so each occurs once.
    proof fn lemma_sorted(&self)
        requires
            strictly_sorted(self.keys()),
        ensures
            strictly_sorted(self.keys()),
            self.keys().len() == self.values().len(),
            self.keys().no_duplicates(),
            forall|i: int|
                0 <= i < self.keys().len() ==> self.keys().index_of(#[trigger] self.keys()[i]) == i,
    {
        assert forall|i: int, j: int| 0 <= i < self.keys().len() && 0 <= j < self.keys().len() && i
            != j implies self.keys()[i] != self.keys()[j] by {
            if i < j {
                lemma_key_lt_irreflexive(self.keys()[i]);
            } else {
                lemma_key_lt_irreflexive(self.keys()[j]);
            }
        }
        assert forall|i: int| 0 <= i < self.keys().len() implies self.keys().index_of(
            #[trigger] self.keys()[i],
        ) == i by {
            let k = self.keys()[i];
            assert(self.keys().contains(k));
            let j = self.keys().index_of(k);
            assert(self.keys()[j] == k);
        }
    }

    /// An empty map.
    pub fn new() -> (m: Self)
        ensures
            m@ == Map::<Seq<char>, V>::empty(),
            m.keys() == Seq::<Seq<char>>::empty(),
            m.values() == Seq::<V>::empty(),
    {
        let m = StrMap { entries: Vec::new() };
        assert(m@ =~= Map::<Seq<char>, V>::empty());
        m
    }

    /// Number of keys.
    pub fn len(&self) -> (n: usize)
        ensures
            n == self.keys().len(),
            n == self.values().len(),
    {
        self.entries.len()
    }

    /// Number of keys, together with how the keys, the values and the map
    /// view relate.
    pub fn count(&self) -> (n: usize)
        ensures
            n == self.keys().len(),
            n == self.values().len(),
            n == self@.dom().len(),
            self.keys().no_duplicates(),
            strictly_sorted(self.keys()),
            forall|k: Seq<char>| #[trigger] self@.contains_key(k) <==> self.keys().contains(k),
            forall|i: int|
                0 <= i < n ==> self@[#[trigger] self.keys()[i]] == self.values()[i],
    {
        proof {
            use_type_invariant(self);
            self.lemma_sorted();
            self.keys().unique_seq_to_set();
            assert(self@.dom() =~= self.keys().to_set());
            assert forall|i: int| 0 <= i < self.keys().len() implies self@[#[trigger] self.keys()[i]]
                == self.values()[i] by {
                assert(self.keys().contains(self.keys()[i]));
            }
        }
        self.entries.len()
    }

    /// The key and value at a position in key order.
    pub fn entry(&self, i: usize) -> (r: (&String, &V))
        requires
            i < self.keys().len(),
        ensures
            r.0@ == self.keys()[i as int],
            *r.1 == self.values()[i as int],
            self@.contains_key(r.0@),
            self@[r.0@] == *r.1,
    {
        proof {
            use_type_invariant(self);
            self.lemma_sorted();
            assert(self.keys().contains(self.keys()[i as int]));
        }
        let e = &self.entries[i];
        (&e.0, &e.1)
    }

    /// Position of the first key not below `key`.
    fn position(&self, key: &str) -> (p: usize)
        ensures
            p <= self.keys().len(),
            forall|i: int| 0 <= i < p ==> key_lt(#[trigger] self.keys()[i], key@),
            p < self.keys().len() ==> !key_lt(self.keys()[p as int], key@),
    {
        proof {
            use_type_invariant(self);
        }
        let mut p: usize = 0;
        while p < self.entries.len()
            invariant
                p <= self.entries.len(),
                self.keys().len() == self.entries.len(),
                strictly_sorted(self.keys()),
                forall|i: int| 0 <= i < p ==> key_lt(#[trigger] self.keys()[i], key@),
            decreases self.entries.len() - p,
        {
            match compare_keys(self.entries[p].0.as_str(), key) {
                Order::Less => {
                    assert(self.keys()[p as int] == self.entries@[p as int].0@);
                    p += 1;
                },
                _ => {
                    assert(self.keys()[p as int] == self.entries@[p as int].0@);
                    return p;
                },
            }
        }
        p
    }

    /// Where `key` sits, if it is present.
    fn find(&self, key: &str) -> (r: Option<usize>)
        ensures
            match r {
                Some(i) => i < self.keys().len() && self.keys()[i as int] == key@,
                None => !self.keys().contains(key@),
            },
    {
        proof {
            use_type_invariant(self);
            self.lemma_sorted();
        }
        let p = self.position(key);
        if p < self.entries.len() {
            assert(self.keys()[p as int] == self.entries@[p as int].0@);
            match compare_keys(self.entries[p].0.as_str(), key) {
                Order::Equal => {
                    return Some(p);
                },
                _ => {},
            }
        }
        proof {
            if self.keys().contains(key@) {
                let j = self.keys().index_of(key@);
                if j < p {
                    lemma_key_lt_irreflexive(key@);
                } else if j > p {
                    lemma_key_lt_asym(self.keys()[p as int], key@);
                    lemma_key_lt_total(self.keys()[p as int], key@);
                }
            }
        }
        None
    }

    /// Whether `key` is present.
    pub fn contains_key(&self, key: &str) -> (r: bool)
        ensures
            r == self@.contains_key(key@),
    {
        self.find(key).is_some()
    }

    /// The value stored under `key`.
    pub fn get(&self, key: &str) -> (r: Option<&V>)
        ensures
            match r {
                Some(v) => self@.contains_key(key@) && *v == self@[key@],
                None => !self@.contains_key(key@),
            },
    {
        proof {
            use_type_invariant(self);
            self.lemma_sorted();
        }
        match self.find(key) {
            Some(i) => {
                assert(self.values()[i as int] == self.entries@[i as int].1);
                Some(&self.entries[i].1)
            },
            None => None,
        }
    }

    /// Store `value` under `key`, replacing whatever was there.
    pub fn insert(&mut self, key: String, value: V)
        ensures
            final(self)@ == old(self)@.insert(key@, value),
            (forall|i: int|
                0 <= i < old(self).keys().len() ==> key_lt(#[trigger] old(self).keys()[i], key@))
                ==> final(self).keys() == old(self).keys().push(key@) && final(self).values()
                == old(self).values().push(value),
    {
        proof {
            use_type_invariant(&*self);
            self.lemma_sorted();
        }
        let ghost old_keys = self.keys();
        let ghost old_values = self.values();
        let ghost k = key@;
        let p = self.position(key.as_str());
        let mut present = false;
        if p < self.entries.len() {
            assert(self.keys()[p as int] == self.entries@[p as int].0@);
            match compare_keys(self.entries[p].0.as_str(), key.as_str()) {
                Order::Equal => {
                    present = true;
                },
                _ => {},
            }
        }
        let ghost entries_before = self.entries@;
        if present {
            let mut entries: Vec<(String, V)> = Vec::new();
            std::mem::swap(&mut entries, &mut self.entries);
            entries.set(p, (key, value));
            proof {
                if forall|i: int| 0 <= i < old_keys.len() ==> key_lt(#[trigger] old_keys[i], k) {
                    assert(key_lt(old_keys[p as int], k));
                    lemma_key_lt_irreflexive(k);
                }
            }
            assert(entries@.map_values(|e: (String, V)| e.0@) =~= old_keys);
            self.entries = entries;
            proof {
                use_type_invariant(&*self);
                self.lemma_sorted();
                assert(self.values() =~= old_values.update(p as int, value));
                assert(self@ =~= old(self)@.insert(k, value)) by {
                    assert forall|x: Seq<char>| #[trigger] self@.contains_key(x) implies old(
                        self,
                    )@.insert(k, value).contains_key(x) && self@[x] == old(self)@.insert(
                        k,
                        value,
                    )[x] by {
                        let j = self.keys().index_of(x);
                        assert(self.keys()[j] == x);
                        assert(old_keys.contains(x));
                        if x != k {
                            assert(old_keys.index_of(x) == j);
                        }
                    }
                    assert forall|x: Seq<char>| #[trigger] old(self)@.insert(k, value).contains_key(
                        x,
                    ) implies self@.contains_key(x) by {
                        if x != k {
                            assert(old_keys.contains(x));
                        } else {
                            assert(self.keys()[p as int] == x);
                        }
                    }
                }
            }
        } else {
            proof {
                if p < old_keys.len() {
                    lemma_key_lt_total(old_keys[p as int], k);
                }
            }
            let mut entries: Vec<(String, V)> = Vec::new();
            std::mem::swap(&mut entries, &mut self.entries);
            entries.insert(p, (key, value));
            let ghost new_keys = entries@.map_values(|e: (String, V)| e.0@);
            assert(new_keys =~= old_keys.insert(p as int, k));
            assert(strictly_sorted(new_keys)) by {
                assert forall|i: int, j: int| 0 <= i < j < new_keys.len() implies key_lt(
                    #[trigger] new_keys[i],
                    #[trigger] new_keys[j],
                ) by {
                    if j < p {
                    } else if i < p && j == p {
                    } else if i < p && j > p {
                        assert(new_keys[j] == old_keys[j - 1]);
                        if j - 1 > p {
                            lemma_key_lt_trans(k, old_keys[p as int], old_keys[j - 1]);
                        }
                        lemma_key_lt_trans(new_keys[i], k, new_keys[j]);
                    } else if i == p {
                        assert(new_keys[j] == old_keys[j - 1]);
                        if j - 1 > p {
                            lemma_key_lt_trans(k, old_keys[p as int], old_keys[j - 1]);
                        }
                    } else {
                        assert(new_keys[i] == old_keys[i - 1]);
                        assert(new_keys[j] == old_keys[j - 1]);
                    }
                }
            }
            self.entries = entries;
            proof {
                use_type_invariant(&*self);
                self.lemma_sorted();
                assert(self.keys() =~= new_keys);
                assert(self.values() =~= old_values.insert(p as int, value));
                if forall|i: int| 0 <= i < old_keys.len() ==> key_lt(#[trigger] old_keys[i], k) {
                    if p < old_keys.len() {
                        assert(key_lt(old_keys[p as int], k));
                    }
                    assert(self.keys() =~= old_keys.push(k));
                    assert(self.values() =~= old_values.push(value));
                }
                assert(!old_keys.contains(k)) by {
                    if old_keys.contains(k) {
                        let j = old_keys.index_of(k);
                        if j < p {
                            lemma_key_lt_irreflexive(k);
                        } else {
                            assert(old_keys[j] == k);
                            if j > p {
                                assert(key_lt(old_keys[p as int], old_keys[j]));
                            }
                            lemma_key_lt_irreflexive(k);
                        }
                    }
                }
                assert(self@ =~= old(self)@.insert(k, value)) by {
                    assert forall|x: Seq<char>| #[trigger] self@.contains_key(x) implies old(
                        self,
                    )@.insert(k, value).contains_key(x) && self@[x] == old(self)@.insert(
                        k,
                        value,
                    )[x] by {
                        let j = self.keys().index_of(x);
                        assert(self.keys()[j] == x);
                        if x != k {
                            if j < p {
                                assert(old_keys[j] == x);
                                assert(old_keys.index_of(x) == j);
                            } else {
                                assert(j != p);
                                assert(old_keys[j - 1] == x);
                                assert(old_keys.index_of(x) == j - 1);
                            }
                        } else {
                            assert(j == p);
                        }
                    }
                    assert forall|x: Seq<char>| #[trigger] old(self)@.insert(k, value).contains_key(
                        x,
                    ) implies self@.contains_key(x) by {
                        if x != k {
                            let j = old_keys.index_of(x);
                            if j < p {
                                assert(self.keys()[j] == x);
                            } else {
                                assert(self.keys()[j + 1] == x);
                            }
                        } else {
                            assert(self.keys()[p as int] == x);
                        }
                    }
                }
            }
        }
    }

    /// Forget `key` and its value, if present.
    pub fn remove(&mut self, key: &str)
        ensures
            final(self)@ == old(self)@.remove(key@),
    {
        proof {
            use_type_invariant(&*self);
            self.lemma_sorted();
        }
        let ghost old_keys = self.keys();
        let ghost old_values = self.values();
        match self.find(key) {
            None => {
                assert(self@ =~= old(self)@.remove(key@));
            },
            Some(p) => {
                let mut entries: Vec<(String, V)> = Vec::new();
                std::mem::swap(&mut entries, &mut self.entries);
                let ghost before = entries@;
                let _ = entries.remove(p);
                let ghost new_keys = entries@.map_values(|e: (String, V)| e.0@);
                assert(new_keys =~= old_keys.remove(p as int));
                assert(strictly_sorted(new_keys)) by {
                    assert forall|i: int, j: int| 0 <= i < j < new_keys.len() implies key_lt(
                        #[trigger] new_keys[i],
                        #[trigger] new_keys[j],
                    ) by {
                        if j < p {
                            assert(new_keys[i] == old_keys[i] && new_keys[j] == old_keys[j]);
                        } else if i < p {
                            assert(new_keys[i] == old_keys[i] && new_keys[j] == old_keys[j + 1]);
                        } else {
                            assert(new_keys[i] == old_keys[i + 1] && new_keys[j] == old_keys[j + 1]);
                        }
                    }
                }
                self.entries = entries;
                proof {
                    use_type_invariant(&*self);
                    self.lemma_sorted();
                    assert(self.keys() =~= new_keys);
                    assert(self.values() =~= old_values.remove(p as int));
                    assert(self@ =~= old(self)@.remove(key@)) by {
                        assert forall|x: Seq<char>| #[trigger] self@.contains_key(x) implies old(
                            self,
                        )@.remove(key@).contains_key(x) && self@[x] == old(self)@.remove(key@)[x] by {
                            let j = self.keys().index_of(x);
                            assert(self.keys()[j] == x);
                            if j < p {
                                assert(old_keys[j] == x);
                                assert(old_keys.index_of(x) == j);
                            } else {
                                assert(old_keys[j + 1] == x);
                                assert(old_keys.index_of(x) == j + 1);
                            }
                        }
                        assert forall|x: Seq<char>| #[trigger] old(self)@.remove(key@).contains_key(
                            x,
                        ) implies self@.contains_key(x) by {
                            let j = old_keys.index_of(x);
                            assert(old_keys[j] == x);
                            if j < p {
                                assert(self.keys()[j] == x);
                            } else {
                                assert(j != p);
                                assert(self.keys()[j - 1] == x);
                            }
                        }
                    }
                }
            },
        }
    }

    /// The keys, in sorted order.
    pub fn key_list(&self) -> (r: Vec<String>)
        ensures
            r@.map_values(|s: String| s@) == self.keys(),
    {
        let mut r: Vec<String> = Vec::new();
        let mut i: usize = 0;
        while i < self.entries.len()
            invariant
                i <= self.entries.len(),
                r@.map_values(|s: String| s@) == self.keys().take(i as int),
            decreases self.entries.len() - i,
        {
            let ghost before = r@;
            r.push(self.entries[i].0.clone());
            assert(self.keys()[i as int] == self.entries@[i as int].0@);
            assert(r@ == before.push(self.entries@[i as int].0));
            assert(r@.map_values(|s: String| s@) =~= before.map_values(|s: String| s@).push(self.keys()[i as int]));
            assert(self.keys().take(i + 1) =~= self.keys().take(i as int).push(self.keys()[i as int]));
            i += 1;
        }
        assert(self.keys().take(i as int) =~= self.keys());
        r
    }
}

impl StrMap<String> {
    /// A copy of the map.
    pub fn copy(&self) -> (r: StrMap<String>)
        ensures
            r@ == self@,
            r.keys() == self.keys(),
            r.values() == self.values(),
    {
        proof {
            use_type_invariant(self);
        }
        let mut entries: Vec<(String, String)> = Vec::new();
        let mut i: usize = 0;
        while i < self.entries.len()
            invariant
                i <= self.entries.len(),
                entries@ == self.entries@.take(i as int),
            decreases self.entries.len() - i,
        {
            let k = self.entries[i].0.clone();
            let v = self.entries[i].1.clone();
            entries.push((k, v));
            assert(entries@ =~= self.entries@.take(i + 1));
            i += 1;
        }
        assert(self.entries@.take(i as int) =~= self.entries@);
        StrMap { entries }
    }
}

} // verus!
