//! Searching for and replacing substrings.

use vstd::prelude::*;
use crate::text::{chars_of, push_char, string_of};

verus! {

/// `pat` occurs in `t` at `k`.
pub open spec fn occurs_at(t: Seq<char>, pat: Seq<char>, k: int) -> bool {
    0 <= k && k + pat.len() <= t.len() && t.subrange(k, k + pat.len()) == pat
}

/// The first index at or after `from` where `pat` occurs in `t`.
pub open spec fn find(t: Seq<char>, pat: Seq<char>, from: int) -> Option<int>
    decreases t.len() + 1 - from,
{
    if from < 0 || from + pat.len() > t.len() {
        None
    } else if t.subrange(from, from + pat.len()) == pat {
        Some(from)
    } else {
        find(t, pat, from + 1)
    }
}

pub proof fn lemma_find(t: Seq<char>, pat: Seq<char>, from: int)
    requires
        0 <= from,
    ensures
        match find(t, pat, from) {
            Some(k) => from <= k && occurs_at(t, pat, k) && forall|j: int|
                from <= j < k ==> !occurs_at(t, pat, j),
            None => forall|j: int| from <= j ==> !occurs_at(t, pat, j),
        },
    decreases t.len() + 1 - from,
{
    if from + pat.len() > t.len() {
    } else if t.subrange(from, from + pat.len()) == pat {
    } else {
        lemma_find(t, pat, from + 1);
    }
}

pub proof fn lemma_find_unique(t: Seq<char>, pat: Seq<char>, from: int, r: Option<int>)
    requires
        0 <= from,
        match r {
            Some(k) => from <= k && occurs_at(t, pat, k) && forall|j: int|
                from <= j < k ==> !occurs_at(t, pat, j),
            None => forall|j: int| from <= j ==> !occurs_at(t, pat, j),
        },
    ensures
        find(t, pat, from) == r,
{
    lemma_find(t, pat, from);
    match find(t, pat, from) {
        Some(k) => match r {
            Some(k2) => {
                if k < k2 {
                    assert(!occurs_at(t, pat, k));
                } else if k2 < k {
                    assert(!occurs_at(t, pat, k2));
                }
            },
            None => {
                assert(!occurs_at(t, pat, k));
            },
        },
        None => match r {
            Some(k2) => {
                assert(!occurs_at(t, pat, k2));
            },
            None => {},
        },
    }
}

/// Whether `pat` occurs in `t` at `k`.
pub fn matches_at(t: &Vec<char>, pat: &Vec<char>, k: usize) -> (r: bool)
    ensures
        r == occurs_at(t@, pat@, k as int),
{
    if k > t.len() || pat.len() > t.len() - k {
        return false;
    }
    let mut i: usize = 0;
    while i < pat.len()
        invariant
            i <= pat.len(),
            k + pat.len() <= t.len(),
            forall|j: int| 0 <= j < i ==> t@[k + j] == pat@[j],
        decreases pat.len() - i,
    {
        if t[k + i] != pat[i] {
            assert(t@.subrange(k as int, k + pat.len())[i as int] != pat@[i as int]);
            return false;
        }
        i += 1;
    }
    assert(t@.subrange(k as int, k + pat.len()) =~= pat@);
    true
}

/// The first index at or after `from` where `pat` occurs in `t`.
pub fn find_from(t: &Vec<char>, pat: &Vec<char>, from: usize) -> (r: Option<usize>)
    ensures
        match r {
            Some(k) => find(t@, pat@, from as int) == Some(k as int) && k + pat.len() <= t.len(),
            None => find(t@, pat@, from as int) is None,
        },
{
    if from > t.len() {
        proof {
            lemma_find_unique(t@, pat@, from as int, None);
        }
        return None;
    }
    let mut k = from;
    loop
        invariant
            from <= k <= t.len(),
            forall|j: int| from <= j < k ==> !occurs_at(t@, pat@, j),
        decreases t.len() - k,
    {
        if matches_at(t, pat, k) {
            proof {
                lemma_find_unique(t@, pat@, from as int, Some(k as int));
            }
            return Some(k);
        }
        if k >= t.len() {
            proof {
                assert forall|j: int| from <= j implies !occurs_at(t@, pat@, j) by {
                    if j > k {
                        assert(j > t@.len());
                    }
                }
                lemma_find_unique(t@, pat@, from as int, None);
            }
            return None;
        }
        k += 1;
    }
}

/// `s` with every non-overlapping occurrence of `pat`, taken left to right,
/// replaced by `rep`, as `str::replace` does.
pub open spec fn replace(s: Seq<char>, pat: Seq<char>, rep: Seq<char>) -> Seq<char>
    decreases s.len(),
{
    if s.len() == 0 || pat.len() == 0 {
        s
    } else if pat.len() <= s.len() && s.take(pat.len() as int) == pat {
        rep + replace(s.skip(pat.len() as int), pat, rep)
    } else {
        seq![s[0]] + replace(s.drop_first(), pat, rep)
    }
}

/// Replace each occurrence of `pat` in `s` by `rep`.
pub fn replace_all(s: &str, pat: &str, rep: &str) -> (r: String)
    requires
        pat@.len() > 0,
    ensures
        r@ == replace(s@, pat@, rep@),
{
    let v = chars_of(s);
    let p = chars_of(pat);
    let q = chars_of(rep);
    let mut out: Vec<char> = Vec::new();
    let mut i: usize = 0;
    assert(v@.skip(0) =~= v@);
    assert(out@ + v@ =~= v@);
    while i < v.len()
        invariant
            i <= v.len(),
            v@ == s@,
            p@ == pat@,
            q@ == rep@,
            p@.len() > 0,
            out@ + replace(v@.skip(i as int), p@, q@) == replace(s@, pat@, rep@),
        decreases v.len() - i,
    {
        let ghost rest = v@.skip(i as int);
        if matches_at(&v, &p, i) {
            proof {
                assert(rest.take(p@.len() as int) =~= v@.subrange(i as int, i + p@.len()));
                assert(rest.skip(p@.len() as int) =~= v@.skip(i + p@.len()));
            }
            let mut j: usize = 0;
            let ghost before = out@;
            while j < q.len()
                invariant
                    j <= q.len(),
                    out@ == before + q@.take(j as int),
                decreases q.len() - j,
            {
                out.push(q[j]);
                assert(q@.take(j + 1) =~= q@.take(j as int).push(q@[j as int]));
                j += 1;
            }
            assert(q@.take(q.len() as int) =~= q@);
            assert(out@ + replace(v@.skip(i + p@.len()), p@, q@) =~= before + replace(rest, p@, q@));
            i += p.len();
        } else {
            proof {
                if p@.len() <= rest.len() {
                    assert(rest.take(p@.len() as int) =~= v@.subrange(i as int, i + p@.len()));
                }
                assert(rest.drop_first() =~= v@.skip(i + 1));
            }
            let ghost before = out@;
            out.push(v[i]);
            assert(out@ + replace(v@.skip(i + 1), p@, q@) =~= before + replace(rest, p@, q@));
            i += 1;
        }
    }
    assert(v@.skip(i as int) =~= Seq::<char>::empty());
    assert(out@ =~= replace(s@, pat@, rep@));
    string_of(&out)
}

} // verus!
