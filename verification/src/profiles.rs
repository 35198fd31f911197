//! Saved launch profiles.
//!
//! Two things are kept: `last_launch`, overwritten every time a launch
//! actually succeeds, and `profiles`, the named copies the user chose to keep.
//! Naming a profile always copies the last launch, so the name is the only
//! thing the user types.

use vstd::prelude::*;
use crate::launch::LaunchOptions;
use crate::map::StrMap;
use crate::text::{concat, owned, trim, trimmed};

verus! {

/// What was selected the last time a launch succeeded.
#[derive(Debug, PartialEq, Eq)]
pub struct LastLaunch {
    pub ids: Vec<String>,
    pub options: LaunchOptions,
    pub overrides: StrMap<String>,
}

/// A named launch, kept until the user deletes it.
#[derive(Debug, PartialEq, Eq)]
pub struct Profile {
    pub name: String,
    pub ids: Vec<String>,
    pub options: LaunchOptions,
    pub overrides: StrMap<String>,
}

/// Everything saved. A list rather than a map, so the profiles keep the
/// order they were saved in.
#[derive(Debug, PartialEq, Eq)]
pub struct Profiles {
    pub last_launch: Option<LastLaunch>,
    pub profiles: Vec<Profile>,
}

/// Why a change to the profiles was refused.
#[derive(Debug, Clone, PartialEq, Eq)]
pub enum ProfileError {
    /// Nothing has been launched yet, so there is nothing to name.
    NoLastLaunch,
    EmptyName,
    DuplicateName(String),
    UnknownName(String),
    /// Writing the profiles out failed; carries the system's message.
    Io(String),
}

impl ProfileError {
    /// The message shown for this error.
    pub fn message(&self) -> (m: String)
        ensures
            m@ == spec_profile_message(*self),
    {
        match self {
            ProfileError::NoLastLaunch => owned("nothing has been launched yet"),
            ProfileError::EmptyName => owned("give the profile a name"),
            ProfileError::DuplicateName(name) => {
                let a = concat("a profile named \"", name.as_str());
                concat(a.as_str(), "\" already exists")
            },
            ProfileError::UnknownName(name) => {
                let a = concat("no profile named \"", name.as_str());
                concat(a.as_str(), "\"")
            },
            ProfileError::Io(message) => owned(message.as_str()),
        }
    }
}

/// The message shown for a profile error.
pub open spec fn spec_profile_message(e: ProfileError) -> Seq<char> {
    match e {
        ProfileError::NoLastLaunch => "nothing has been launched yet"@,
        ProfileError::EmptyName => "give the profile a name"@,
        ProfileError::DuplicateName(name) => "a profile named \""@ + name@ + "\" already exists"@,
        ProfileError::UnknownName(name) => "no profile named \""@ + name@ + "\""@,
        ProfileError::Io(message) => message@,
    }
}

/// A copy of a list of strings.
pub fn copy_strings(v: &[String]) -> (r: Vec<String>)
    ensures
        r@ == v@,
{
    let mut r: Vec<String> = Vec::new();
    let mut i: usize = 0;
    while i < v.len()
        invariant
            i <= v.len(),
            r@ == v@.take(i as int),
        decreases v.len() - i,
    {
        r.push(v[i].clone());
        assert(r@ =~= v@.take(i + 1));
        i += 1;
    }
    assert(v@.take(i as int) =~= v@);
    r
}

impl LastLaunch {
    /// A copy of the record.
    pub fn copy(&self) -> (r: LastLaunch)
        ensures
            same_launch(r, *self),
    {
        LastLaunch {
            ids: copy_strings(self.ids.as_slice()),
            options: self.options,
            overrides: self.overrides.copy(),
        }
    }
}

impl Profile {
    /// A copy of the profile.
    pub fn copy(&self) -> (r: Profile)
        ensures
            same_profile(r, *self),
    {
        Profile {
            name: self.name.clone(),
            ids: copy_strings(self.ids.as_slice()),
            options: self.options,
            overrides: self.overrides.copy(),
        }
    }
}

/// Two launch records hold the same selection.
pub open spec fn same_launch(a: LastLaunch, b: LastLaunch) -> bool {
    a.ids@ == b.ids@ && a.options == b.options && a.overrides@ == b.overrides@
}

/// Two profiles hold the same name and selection.
pub open spec fn same_profile(a: Profile, b: Profile) -> bool {
    a.name@ == b.name@ && a.ids@ == b.ids@ && a.options == b.options && a.overrides@
        == b.overrides@
}

/// Two lists of profiles agree entry by entry.
pub open spec fn same_profile_list(a: Seq<Profile>, b: Seq<Profile>) -> bool {
    a.len() == b.len() && forall|i: int| 0 <= i < a.len() ==> same_profile(#[trigger] a[i], b[i])
}

/// Two stores hold the same launch record and profiles.
pub open spec fn same_store(a: Profiles, b: Profiles) -> bool {
    &&& same_profile_list(a.profiles@, b.profiles@)
    &&& match (a.last_launch, b.last_launch) {
        (Some(x), Some(y)) => same_launch(x, y),
        (None, None) => true,
        _ => false,
    }
}

impl Profiles {
    /// A store with no launch recorded and no profiles.
    pub fn new() -> (p: Profiles)
        ensures
            p.last_launch is None,
            p.profiles@.len() == 0,
    {
        Profiles { last_launch: None, profiles: Vec::new() }
    }

    /// A copy of the whole store.
    pub fn copy(&self) -> (r: Profiles)
        ensures
            same_store(r, *self),
    {
        let last_launch = match &self.last_launch {
            Some(l) => Some(l.copy()),
            None => None,
        };
        let mut profiles: Vec<Profile> = Vec::new();
        let mut i: usize = 0;
        while i < self.profiles.len()
            invariant
                i <= self.profiles.len(),
                profiles@.len() == i,
                forall|j: int| 0 <= j < i ==> same_profile(#[trigger] profiles@[j], self.profiles@[j]),
            decreases self.profiles.len() - i,
        {
            profiles.push(self.profiles[i].copy());
            i += 1;
        }
        Profiles { last_launch, profiles }
    }
}

impl Default for Profiles {
    fn default() -> (p: Profiles)
        ensures
            p.last_launch is None,
            p.profiles@.len() == 0,
    {
        Profiles::new()
    }
}

/// Record a successful launch, replacing whatever was there before.
pub fn record_launch(
    store: &mut Profiles,
    ids: &[String],
    options: LaunchOptions,
    overrides: &StrMap<String>,
)
    ensures
        final(store).profiles@ == old(store).profiles@,
        final(store).last_launch matches Some(l) && l.ids@ == ids@ && l.options == options
            && l.overrides@ == overrides@,
{
    store.last_launch = Some(
        LastLaunch { ids: copy_strings(ids), options, overrides: overrides.copy() },
    );
}

/// Some saved profile already has this name.
pub open spec fn name_taken(profiles: Seq<Profile>, name: Seq<char>) -> bool {
    exists|i: int| 0 <= i < profiles.len() && (#[trigger] profiles[i]).name@ == name
}

/// Whether any profile in the list is called `name`.
fn has_name(profiles: &Vec<Profile>, name: &String) -> (r: bool)
    ensures
        r == name_taken(profiles@, name@),
{
    let mut i: usize = 0;
    while i < profiles.len()
        invariant
            i <= profiles.len(),
            forall|j: int| 0 <= j < i ==> (#[trigger] profiles@[j]).name@ != name@,
        decreases profiles.len() - i,
    {
        if profiles[i].name == *name {
            return true;
        }
        i += 1;
    }
    false
}

/// What naming the last launch `name` does: the name is trimmed first; a
/// blank name, a name already in use, or a store with no launch yet is
/// refused, in that order of checking, and a refusal changes nothing;
/// otherwise a copy of the last launch is added at the end under the name.
pub open spec fn named_outcome(old: Profiles, new: Profiles, name: Seq<char>, r: Result<(), ProfileError>) -> bool {
    let n = trim(name);
    &&& n.len() == 0 ==> r == Err::<(), ProfileError>(ProfileError::EmptyName)
    &&& n.len() > 0 && name_taken(old.profiles@, n) ==> (r matches Err(
        ProfileError::DuplicateName(d),
    ) && d@ == n)
    &&& n.len() > 0 && !name_taken(old.profiles@, n) && old.last_launch is None
        ==> r == Err::<(), ProfileError>(ProfileError::NoLastLaunch)
    &&& r is Err ==> new == old
    &&& r is Ok <==> (n.len() > 0 && !name_taken(old.profiles@, n) && old.last_launch is Some)
    &&& r is Ok ==> ({
        let last = old.last_launch->0;
        let p = new.profiles@.last();
        &&& new.profiles@.len() == old.profiles@.len() + 1
        &&& new.profiles@.drop_last() == old.profiles@
        &&& new.last_launch == old.last_launch
        &&& p.name@ == n
        &&& p.ids@ == last.ids@
        &&& p.options == last.options
        &&& p.overrides@ == last.overrides@
    })
}

/// Keep the last launch under a name. The name is trimmed first. A blank
/// name, a name already in use, or a store with no launch yet is refused,
/// in that order of checking, and a refusal changes nothing.
pub fn add_named(store: &mut Profiles, name: &str) -> (r: Result<(), ProfileError>)
    ensures
        named_outcome(*old(store), *final(store), name@, r),
{
    let n = trimmed(name);
    if n.as_str().is_empty() {
        return Err(ProfileError::EmptyName);
    }
    if has_name(&store.profiles, &n) {
        return Err(ProfileError::DuplicateName(n));
    }
    let profile = match &store.last_launch {
        None => {
            return Err(ProfileError::NoLastLaunch);
        },
        Some(last) => Profile {
            name: n,
            ids: copy_strings(last.ids.as_slice()),
            options: last.options,
            overrides: last.overrides.copy(),
        },
    };
    store.profiles.push(profile);
    assert(store.profiles@.drop_last() =~= old(store).profiles@);
    Ok(())
}

/// The profiles not called `name`, in their order.
pub open spec fn without_name(profiles: Seq<Profile>, name: Seq<char>) -> Seq<Profile>
    decreases profiles.len(),
{
    if profiles.len() == 0 {
        Seq::empty()
    } else {
        let rest = without_name(profiles.drop_last(), name);
        if profiles.last().name@ == name {
            rest
        } else {
            rest.push(profiles.last())
        }
    }
}

/// Forgetting a name only ever shortens the list, and shortens it exactly
/// when some profile has the name: forgetting an unknown name changes nothing.
pub proof fn lemma_without_name_len(profiles: Seq<Profile>, name: Seq<char>)
    ensures
        without_name(profiles, name).len() <= profiles.len(),
        without_name(profiles, name).len() == profiles.len() <==> !name_taken(profiles, name),
        !name_taken(profiles, name) ==> without_name(profiles, name) == profiles,
    decreases profiles.len(),
{
    if profiles.len() > 0 {
        let init = profiles.drop_last();
        lemma_without_name_len(init, name);
        if name_taken(init, name) {
            let i = choose|i: int| 0 <= i < init.len() && (#[trigger] init[i]).name@ == name;
            assert(profiles[i] == init[i]);
        }
        if name_taken(profiles, name) && !name_taken(init, name) {
            let i = choose|i: int| 0 <= i < profiles.len() && (#[trigger] profiles[i]).name@ == name;
            if i < profiles.len() - 1 {
                assert(init[i] == profiles[i]);
            }
        }
        if !name_taken(profiles, name) {
            assert(profiles.last() == profiles[profiles.len() - 1]);
            assert(init.push(profiles.last()) =~= profiles);
        }
    }
}

/// What forgetting the profiles called `name` does: every one of them goes,
/// the rest keep their order, the last launch is untouched, and an unknown
/// name is an error that changes nothing.
pub open spec fn removed_outcome(old: Profiles, new: Profiles, name: Seq<char>, r: Result<(), ProfileError>) -> bool {
    &&& new.last_launch == old.last_launch
    &&& new.profiles@ == without_name(old.profiles@, name)
    &&& r is Ok <==> name_taken(old.profiles@, name)
    &&& r is Err ==> (r matches Err(ProfileError::UnknownName(u)) && u@ == name)
}

/// Forget every saved profile called `name`. The last launch is untouched.
/// An unknown name is an error and changes nothing.
pub fn remove(store: &mut Profiles, name: &str) -> (r: Result<(), ProfileError>)
    ensures
        removed_outcome(*old(store), *final(store), name@, r),
{
    let key = owned(name);
    let mut rest: Vec<Profile> = Vec::new();
    std::mem::swap(&mut rest, &mut store.profiles);
    let ghost all = rest@;
    let total = rest.len();
    assert(all.len() == total);
    let mut kept: Vec<Profile> = Vec::new();
    let mut found = false;
    let mut n: usize = 0;
    while rest.len() > 0
        invariant
            n + rest@.len() == all.len(),
            all.len() <= usize::MAX,
            rest@ == all.skip(n as int),
            kept@ == without_name(all.take(n as int), name@),
            found == name_taken(all.take(n as int), name@),
            key@ == name@,
        decreases rest.len(),
    {
        let p = rest.remove(0);
        assert(p == all[n as int]);
        assert(all.take(n + 1).drop_last() =~= all.take(n as int));
        assert(all.take(n + 1).last() == p);
        if p.name == key {
            found = true;
            assert(all.take(n + 1)[n as int] == p);
        } else {
            proof {
                if name_taken(all.take(n + 1), name@) {
                    let i = choose|i: int| 0 <= i < n + 1 && (#[trigger] all.take(n + 1)[i]).name@ == name@;
                    if i < n {
                        assert(all.take(n as int)[i] == all.take(n + 1)[i]);
                    }
                }
            }
            kept.push(p);
        }
        proof {
            if found && !name_taken(all.take(n as int), name@) {
                assert(all.take(n + 1)[n as int].name@ == name@);
            }
            if name_taken(all.take(n as int), name@) {
                let i = choose|i: int| 0 <= i < n && (#[trigger] all.take(n as int)[i]).name@ == name@;
                assert(all.take(n + 1)[i] == all.take(n as int)[i]);
            }
        }
        assert(rest@ =~= all.skip(n + 1));
        n += 1;
    }
    assert(all.take(n as int) =~= all);
    store.profiles = kept;
    if !found {
        return Err(ProfileError::UnknownName(key));
    }
    Ok(())
}

/// The profiles as held by a running app: the file they live in and the data
/// read from it. Reading and writing the file is the caller's part; every
/// change here is one the caller then writes out.
#[derive(Debug)]
pub struct ProfileStore {
    path: String,
    data: Profiles,
}

impl ProfileStore {
    /// The data held.
    pub closed spec fn data(&self) -> Profiles {
        self.data
    }

    /// The file the data belongs in.
    pub closed spec fn file(&self) -> Seq<char> {
        self.path@
    }

    /// A store for the file at `path`, holding what was read from it.
    pub fn new(path: String, data: Profiles) -> (r: Self)
        ensures
            r.file() == path@,
            r.data() == data,
    {
        ProfileStore { path, data }
    }

    /// The file the data belongs in.
    pub fn path(&self) -> (r: &String)
        ensures
            r@ == self.file(),
    {
        &self.path
    }

    /// A copy for the frontend.
    pub fn view(&self) -> (r: Profiles)
        ensures
            same_store(r, self.data()),
    {
        self.data.copy()
    }

    /// Record a successful launch, replacing the previous record.
    pub fn record_launch(&mut self, ids: &[String], options: LaunchOptions, overrides: &StrMap<String>)
        ensures
            final(self).file() == old(self).file(),
            final(self).data().profiles@ == old(self).data().profiles@,
            final(self).data().last_launch matches Some(l) && l.ids@ == ids@ && l.options == options
                && l.overrides@ == overrides@,
    {
        record_launch(&mut self.data, ids, options, overrides);
    }

    /// Keep the last launch under a name, as `add_named` does.
    pub fn save_named(&mut self, name: &str) -> (r: Result<(), ProfileError>)
        ensures
            final(self).file() == old(self).file(),
            named_outcome(old(self).data(), final(self).data(), name@, r),
    {
        add_named(&mut self.data, name)
    }

    /// Forget a saved profile, as `remove` does.
    pub fn delete(&mut self, name: &str) -> (r: Result<(), ProfileError>)
        ensures
            final(self).file() == old(self).file(),
            removed_outcome(old(self).data(), final(self).data(), name@, r),
    {
        remove(&mut self.data, name)
    }
}

} // verus!
