//! Which links in the game directory a launch owns.
//!
//! Only symlinks pointing into the workshop content directory are ours to
//! remove. Anything else in the game directory is left alone, since this
//! writes inside the user's Steam install.

use vstd::prelude::*;
use crate::path::{path_eq, path_starts_with, same_path, starts_with};

verus! {

/// What applying a plan changed on disk.
#[derive(Debug, Clone, Default, PartialEq, Eq)]
pub struct Applied {
    pub removed: Vec<String>,
    pub created: Vec<String>,
}

/// A link target inside the workshop content directory, other than that
/// directory itself.
pub open spec fn spec_is_managed_link(target: Seq<char>, workshop_dir: Seq<char>) -> bool {
    starts_with(target, workshop_dir) && !same_path(target, workshop_dir)
}

/// Only links pointing into the workshop content directory are ours to
/// remove. A path that merely shares the prefix string is not a match.
pub fn is_managed_link(target: &str, workshop_dir: &str) -> (r: bool)
    ensures
        r == spec_is_managed_link(target@, workshop_dir@),
{
    path_starts_with(target, workshop_dir) && !path_eq(target, workshop_dir)
}

/// One entry of the game directory: its path, and where it points when it
/// is a symlink whose target could be read.
#[derive(Debug, Clone, PartialEq, Eq)]
pub struct DirEntry {
    pub path: String,
    pub link_target: Option<String>,
}

/// The entries a previous launch created: symlinks pointing into the workshop
/// content directory, in directory order.
pub open spec fn spec_managed(entries: Seq<DirEntry>, workshop_dir: Seq<char>) -> Seq<Seq<char>>
    decreases entries.len(),
{
    if entries.len() == 0 {
        Seq::empty()
    } else {
        let rest = spec_managed(entries.drop_last(), workshop_dir);
        match entries.last().link_target {
            Some(t) if spec_is_managed_link(t@, workshop_dir) => rest.push(entries.last().path@),
            _ => rest,
        }
    }
}

/// An entry a launch owns: a symlink whose target is a managed link into
/// the workshop content directory.
pub open spec fn is_managed_entry(e: DirEntry, workshop_dir: Seq<char>) -> bool {
    match e.link_target {
        Some(t) => spec_is_managed_link(t@, workshop_dir),
        None => false,
    }
}

/// The links a previous launch left are every entry the launch owns, each
/// in directory order, and nothing else: the paths of the owned entries
/// among `entries`, in order, and a path is listed exactly when some owned
/// entry has it.
pub proof fn lemma_managed_entries(entries: Seq<DirEntry>, workshop_dir: Seq<char>)
    ensures
        spec_managed(entries, workshop_dir) == entries.filter(
            |e: DirEntry| is_managed_entry(e, workshop_dir),
        ).map_values(|e: DirEntry| e.path@),
        forall|x: Seq<char>|
            #[trigger] spec_managed(entries, workshop_dir).contains(x) <==> exists|i: int|
                0 <= i < entries.len() && (#[trigger] entries[i]).path@ == x && is_managed_entry(
                    entries[i],
                    workshop_dir,
                ),
    decreases entries.len(),
{
    let pred = |e: DirEntry| is_managed_entry(e, workshop_dir);
    let f = |e: DirEntry| e.path@;
    let r = spec_managed(entries, workshop_dir);
    if entries.len() == 0 {
        assert(entries.filter(pred) =~= Seq::<DirEntry>::empty()) by {
            reveal(Seq::filter);
        }
        assert(entries.filter(pred).map_values(f) =~= Seq::<Seq<char>>::empty());
    } else {
        let init = entries.drop_last();
        let last = entries.last();
        lemma_managed_entries(init, workshop_dir);
        assert(entries =~= init.push(last));
        init.lemma_filter_push(last, pred);
        if pred(last) {
            assert(init.filter(pred).push(last).map_values(f) =~= init.filter(pred).map_values(f).push(
                last.path@,
            ));
        }
        assert forall|x: Seq<char>| #[trigger] r.contains(x) <==> exists|i: int|
            0 <= i < entries.len() && (#[trigger] entries[i]).path@ == x && is_managed_entry(
                entries[i],
                workshop_dir,
            ) by {
            let rest = spec_managed(init, workshop_dir);
            if rest.contains(x) {
                let i = choose|i: int|
                    0 <= i < init.len() && (#[trigger] init[i]).path@ == x && is_managed_entry(
                        init[i],
                        workshop_dir,
                    );
                assert(entries[i] == init[i]);
            }
            if r.contains(x) && !rest.contains(x) {
                let k = r.index_of(x);
                assert(pred(last));
                assert(r == rest.push(last.path@));
                assert(k == rest.len());
                assert(entries[entries.len() - 1] == last);
            }
            if exists|i: int|
                0 <= i < entries.len() && (#[trigger] entries[i]).path@ == x && is_managed_entry(
                    entries[i],
                    workshop_dir,
                ) {
                let i = choose|i: int|
                    0 <= i < entries.len() && (#[trigger] entries[i]).path@ == x && is_managed_entry(
                        entries[i],
                        workshop_dir,
                    );
                if i < init.len() {
                    assert(init[i] == entries[i]);
                    assert(rest.contains(x));
                    let k = rest.index_of(x);
                    if pred(last) {
                        assert(r[k] == x);
                    }
                } else {
                    assert(entries[i] == last);
                    assert(r[rest.len() as int] == x);
                }
            }
        }
    }
}

/// The paths among `entries` that `clear_managed_links` removes.
pub fn managed_links(entries: &Vec<DirEntry>, workshop_dir: &str) -> (r: Vec<String>)
    ensures
        r@.map_values(|s: String| s@) == spec_managed(entries@, workshop_dir@),
        r@.map_values(|s: String| s@) == entries@.filter(
            |e: DirEntry| is_managed_entry(e, workshop_dir@),
        ).map_values(|e: DirEntry| e.path@),
{
    let mut r: Vec<String> = Vec::new();
    let mut i: usize = 0;
    while i < entries.len()
        invariant
            i <= entries.len(),
            r@.map_values(|s: String| s@) == spec_managed(entries@.take(i as int), workshop_dir@),
        decreases entries.len() - i,
    {
        assert(entries@.take(i + 1).drop_last() =~= entries@.take(i as int));
        let e = &entries[i];
        match &e.link_target {
            Some(t) => {
                if is_managed_link(t.as_str(), workshop_dir) {
                    let ghost before = r@;
                    r.push(e.path.clone());
                    assert(r@.map_values(|s: String| s@) =~= before.map_values(|s: String| s@).push(
                        e.path@,
                    ));
                }
            },
            None => {},
        }
        i += 1;
    }
    assert(entries@.take(entries.len() as int) =~= entries@);
    proof {
        lemma_managed_entries(entries@, workshop_dir@);
    }
    r
}

} // verus!
