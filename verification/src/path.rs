//! Unix paths held as strings, with the joining and component rules of
//! `std::path`.

use vstd::prelude::*;
use crate::text::{chars_of, concat, lemma_split_nonempty, owned, push_char, split, split_chars, string_of};

verus! {

/// `base` joined with `part`, as `Path::join` does on Unix: an absolute
/// `part` replaces `base`, otherwise one separator goes between them.
pub open spec fn join(base: Seq<char>, part: Seq<char>) -> Seq<char> {
    if part.len() > 0 && part[0] == '/' {
        part
    } else if base.len() == 0 {
        part
    } else if base.last() == '/' {
        base + part
    } else {
        base + seq!['/'] + part
    }
}

/// Join a path with a further piece.
pub fn path_join(base: &str, part: &str) -> (r: String)
    ensures
        r@ == join(base@, part@),
{
    let b = chars_of(base);
    let p = chars_of(part);
    if p.len() > 0 && p[0] == '/' {
        owned(part)
    } else if b.len() == 0 {
        owned(part)
    } else if b[b.len() - 1] == '/' {
        concat(base, part)
    } else {
        let mut r = owned(base);
        push_char(&mut r, '/');
        let tail = string_of(&p);
        let out = concat(r.as_str(), tail.as_str());
        assert(out@ =~= join(base@, part@));
        out
    }
}

/// A piece that names something, as opposed to an empty or `.` piece.
pub open spec fn named(p: Seq<char>) -> bool {
    p.len() > 0 && p != seq!['.']
}

/// The named pieces of a sequence of pieces.
pub open spec fn named_pieces(ps: Seq<Seq<char>>) -> Seq<Seq<char>>
    decreases ps.len(),
{
    if ps.len() == 0 {
        Seq::empty()
    } else if named(ps.last()) {
        named_pieces(ps.drop_last()).push(ps.last())
    } else {
        named_pieces(ps.drop_last())
    }
}

/// The components `Path::components` yields for `s`: the root as `/`, a
/// leading `.` of a relative path, then every piece that names something.
pub open spec fn components(s: Seq<char>) -> Seq<Seq<char>> {
    let ps = split(s, '/');
    let root: Seq<Seq<char>> = if s.len() > 0 && s[0] == '/' {
        seq![seq!['/']]
    } else {
        Seq::empty()
    };
    let cur: Seq<Seq<char>> = if !(s.len() > 0 && s[0] == '/') && ps[0] == seq!['.'] && ps.len()
        > 1 {
        seq![seq!['.']]
    } else if !(s.len() > 0 && s[0] == '/') && s == seq!['.'] {
        seq![seq!['.']]
    } else {
        Seq::empty()
    };
    root + cur + named_pieces(ps)
}

/// The components of a path, as `Path::components` yields them.
pub fn path_components(path: &str) -> (r: Vec<String>)
    ensures
        r@.map_values(|c: String| c@) == components(path@),
{
    let v = chars_of(path);
    let ps = split_chars(&v, '/');
    let ghost pv = ps@.map_values(|p: Vec<char>| p@);
    proof {
        lemma_split_nonempty(path@, '/');
    }
    let mut r: Vec<String> = Vec::new();
    let absolute = v.len() > 0 && v[0] == '/';
    if absolute {
        let mut root = String::new();
        push_char(&mut root, '/');
        r.push(root);
    } else {
        let first = &ps[0];
        assert(first@ == pv[0]);
        if first.len() == 1 && first[0] == '.' && (ps.len() > 1 || v.len() == 1) {
            let mut dot = String::new();
            push_char(&mut dot, '.');
            r.push(dot);
            proof {
                assert(first@ =~= seq!['.']);
                if v.len() == 1 {
                    assert(path@.drop_last() =~= Seq::<char>::empty());
                    assert(split(Seq::<char>::empty(), '/') =~= seq![Seq::<char>::empty()]);
                    assert(Seq::<char>::empty().push(path@[0]) =~= seq![path@[0]]);
                    assert(split(path@, '/') =~= seq![seq![path@[0]]]);
                    assert(path@ =~= seq!['.']);
                }
            }
        } else {
            proof {
                if pv[0] == seq!['.'] {
                    assert(first@.len() == 1 && first@[0] == '.');
                    if path@ == seq!['.'] {
                        assert(v.len() == 1);
                    }
                }
                if path@ == seq!['.'] {
                    assert(v.len() == 1 && v@[0] == '.');
                    assert(path@.drop_last() =~= Seq::<char>::empty());
                    assert(split(Seq::<char>::empty(), '/') =~= seq![Seq::<char>::empty()]);
                    assert(Seq::<char>::empty().push(path@[0]) =~= seq![path@[0]]);
                    assert(split(path@, '/') =~= seq![seq![path@[0]]]);
                }
            }
        }
    }
    let ghost prefix = r@.map_values(|c: String| c@);
    let mut i: usize = 0;
    while i < ps.len()
        invariant
            i <= ps.len(),
            pv == ps@.map_values(|p: Vec<char>| p@),
            r@.map_values(|c: String| c@) == prefix + named_pieces(pv.take(i as int)),
        decreases ps.len() - i,
    {
        assert(pv.take(i + 1).drop_last() =~= pv.take(i as int));
        let piece = &ps[i];
        assert(piece@ == pv[i as int]);
        let dot = piece.len() == 1 && piece[0] == '.';
        if piece.len() > 0 && !dot {
            proof {
                if piece@ == seq!['.'] {
                    assert(piece@[0] == '.');
                }
            }
            let ghost before = r@;
            r.push(string_of(piece));
            assert(r@.map_values(|c: String| c@) =~= before.map_values(|c: String| c@).push(
                piece@,
            ));
        } else {
            proof {
                if piece.len() > 0 {
                    assert(piece@ =~= seq!['.']);
                }
            }
        }
        i += 1;
    }
    assert(pv.take(ps.len() as int) =~= pv);
    r
}

/// Whether `p` begins with every component of `base`, as `Path::starts_with` decides.
pub open spec fn starts_with(p: Seq<char>, base: Seq<char>) -> bool {
    let a = components(p);
    let b = components(base);
    b.len() <= a.len() && a.take(b.len() as int) == b
}

/// Whether two paths name the same components, as `Path`'s `==` decides.
pub open spec fn same_path(p: Seq<char>, q: Seq<char>) -> bool {
    components(p) == components(q)
}

/// Whether `a` begins with all of `b`.
fn prefix_of(a: &Vec<String>, b: &Vec<String>) -> (r: bool)
    ensures
        r == (b@.len() <= a@.len() && a@.map_values(|c: String| c@).take(b@.len() as int)
            == b@.map_values(|c: String| c@)),
{
    if b.len() > a.len() {
        return false;
    }
    let mut i: usize = 0;
    while i < b.len()
        invariant
            i <= b.len() <= a.len(),
            forall|j: int| 0 <= j < i ==> a@[j]@ == b@[j]@,
        decreases b.len() - i,
    {
        if !(a[i] == b[i]) {
            assert(a@.map_values(|c: String| c@).take(b@.len() as int)[i as int] != b@.map_values(
                |c: String| c@,
            )[i as int]);
            return false;
        }
        i += 1;
    }
    assert(a@.map_values(|c: String| c@).take(b@.len() as int) =~= b@.map_values(
        |c: String| c@,
    ));
    true
}

/// Whether `p` begins with the components of `base`.
pub fn path_starts_with(p: &str, base: &str) -> (r: bool)
    ensures
        r == starts_with(p@, base@),
{
    let a = path_components(p);
    let b = path_components(base);
    prefix_of(&a, &b)
}

/// Whether two paths have the same components.
pub fn path_eq(p: &str, q: &str) -> (r: bool)
    ensures
        r == same_path(p@, q@),
{
    let a = path_components(p);
    let b = path_components(q);
    let r = a.len() == b.len() && prefix_of(&a, &b);
    proof {
        let x = a@.map_values(|c: String| c@);
        let y = b@.map_values(|c: String| c@);
        if a.len() == b.len() {
            assert(x.take(y.len() as int) =~= x);
        } else {
            assert(x.len() != y.len());
        }
    }
    r
}

} // verus!
