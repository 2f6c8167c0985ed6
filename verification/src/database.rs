//! The store of launch profiles and persisted workspaces, and the
//! deterministic snapshot order.
//!
//! A persisted workspace is a named, ordered sequence of session
//! descriptors, held as its encoded payload exactly as a durable backing
//! store would hold it; every stored payload decodes, and loading decodes
//! what saving encoded. The reserved last-session name is kept out of the
//! user's namespace: a user-chosen workspace name never collides with it.
//! An empty last-session snapshot is represented by deleting the record,
//! never by storing an empty sequence.

use vstd::prelude::*;

use crate::codec;
use crate::config::{ConfigProfile, ProfileView};
use crate::errors::TerminalError;
use crate::session::{ConfigView, TerminalConfig};
use crate::strutil;
use crate::terminal::TerminalManager;
use vstd::multiset::Multiset;
use vstd::seq_lib::group_to_multiset_ensures;
use vstd::string::StrSliceExecFns;

verus! {

/// Descriptors in ascending creation-timestamp order.
pub open spec fn sorted_by_created(s: Seq<ConfigView>) -> bool {
    forall|i: int, j: int| 0 <= i < j < s.len() ==> s[i].created_at <= s[j].created_at
}

/// No two descriptors share a creation timestamp.
pub open spec fn distinct_created(s: Seq<ConfigView>) -> bool {
    forall|i: int, j: int| 0 <= i < j < s.len() ==> s[i].created_at != s[j].created_at
}

/// The reserved name under which the last-session snapshot is stored.
pub open spec fn reserved_session_name() -> Seq<char> {
    "__last_session__"@
}

/// A name is in the reserved internal namespace: it starts with two
/// underscores.
pub open spec fn is_reserved_name(n: Seq<char>) -> bool {
    n.len() >= 2 && n[0] == '_' && n[1] == '_'
}

/// A user-chosen workspace name: one to 255 characters, outside the
/// reserved namespace, so it can never collide with the last-session
/// name.
pub open spec fn valid_user_workspace_name(n: Seq<char>) -> bool {
    1 <= n.len() <= 255 && !is_reserved_name(n)
}

/// The store: persisted workspaces (each as its encoded payload) and
/// launch profiles. The durable backing engine is the caller's concern;
/// this type carries the save/load contract it must satisfy.
pub struct Database {
    workspaces: Vec<(String, Vec<char>)>,
    profiles: Vec<ConfigProfile>,
}

impl Database {
    /// The names of the persisted workspaces.
    pub closed spec fn ws_names(self) -> Seq<Seq<char>> {
        self.workspaces@.map_values(|e: (String, Vec<char>)| e.0@)
    }

    /// A workspace with this name is persisted.
    pub open spec fn has_workspace(self, name: Seq<char>) -> bool {
        self.ws_names().contains(name)
    }

    /// The descriptor list persisted under this name.
    pub closed spec fn workspace_at(self, name: Seq<char>) -> Seq<ConfigView> {
        let i = choose|i: int| 0 <= i < self.ws_names().len() && self.ws_names()[i] == name;
        codec::dec_configs(self.workspaces@[i].1@).unwrap()
    }

    /// The stored launch profiles, in storage order.
    pub closed spec fn profiles_view(self) -> Seq<ProfileView> {
        self.profiles@.map_values(|p: ConfigProfile| p@)
    }

    /// Well-formed: workspace names are pairwise distinct, every stored
    /// payload decodes, and profile identifiers are pairwise distinct.
    pub closed spec fn wf(self) -> bool {
        &&& forall|i: int, j: int|
            0 <= i < j < self.ws_names().len() ==> self.ws_names()[i] != self.ws_names()[j]
        &&& forall|i: int|
            0 <= i < self.workspaces@.len() ==> codec::dec_configs(
                #[trigger] self.workspaces@[i].1@,
            ) is Some
        &&& forall|i: int, j: int|
            0 <= i < j < self.profiles_view().len() ==> #[trigger] self.profiles_view()[i].id
                != #[trigger] self.profiles_view()[j].id
    }

    /// An empty store.
    pub fn new() -> (r: Self)
        ensures
            r.wf(),
            r.ws_names() == Seq::<Seq<char>>::empty(),
            r.profiles_view() == Seq::<ProfileView>::empty(),
    {
        let r = Database { workspaces: Vec::new(), profiles: Vec::new() };
        proof {
            assert(r.ws_names() =~= Seq::<Seq<char>>::empty());
            assert(r.profiles_view() =~= Seq::<ProfileView>::empty());
        }
        r
    }

    /// The index of the workspace with this name, if one is persisted.
    fn find_workspace(&self, name: &str) -> (r: Option<usize>)
        ensures
            r matches Some(i) ==> i < self.ws_names().len() && self.ws_names()[i as int] == name@,
            r is None ==> !self.has_workspace(name@),
    {
        let n = self.workspaces.len();
        let mut i: usize = 0;
        while i < n
            invariant
                n == self.workspaces@.len(),
                i <= n,
                forall|j: int| 0 <= j < i ==> #[trigger] self.ws_names()[j] != name@,
            decreases n - i,
        {
            if strutil::str_eq(self.workspaces[i].0.as_str(), name) {
                return Some(i);
            }
            i = i + 1;
        }
        None
    }

    /// Under well-formedness, the workspace persisted at a found index is
    /// the one `workspace_at` denotes.
    proof fn lemma_workspace_at(self, name: Seq<char>, i: int)
        requires
            self.wf(),
            0 <= i < self.ws_names().len(),
            self.ws_names()[i] == name,
        ensures
            self.workspace_at(name) == codec::dec_configs(self.workspaces@[i].1@).unwrap(),
    {
        let j = choose|j: int| 0 <= j < self.ws_names().len() && self.ws_names()[j] == name;
        assert(0 <= j < self.ws_names().len() && self.ws_names()[j] == name);
        if i != j {
            assert(self.ws_names()[i] != self.ws_names()[j]);
        }
    }

    /// Stores the payload under the name, replacing any previous payload
    /// under it.
    fn store_entry(&mut self, name: String, payload: Vec<char>)
        requires
            (*old(self)).wf(),
            codec::dec_configs(payload@) is Some,
        ensures
            (*final(self)).wf(),
            (*final(self)).has_workspace(name@),
            (*final(self)).workspace_at(name@) == codec::dec_configs(payload@).unwrap(),
            forall|n: Seq<char>|
                n != name@ ==> (*final(self)).has_workspace(n) == (*old(self)).has_workspace(n),
            forall|n: Seq<char>|
                n != name@ && (*old(self)).has_workspace(n) ==> (*final(self)).workspace_at(n) == (
                *old(self)).workspace_at(n),
            (*final(self)).profiles_view() == (*old(self)).profiles_view(),
    {
        let ghost old_names = self.ws_names();
        let found = self.find_workspace(name.as_str());
        match found {
            Some(i) => {
                let _prev = self.workspaces.remove(i);
                self.workspaces.insert(i, (name, payload));
                proof {
                    assert(self.ws_names() =~= old_names);
                    assert forall|n: Seq<char>|
                        n != old_names[i as int] && (*old(self)).has_workspace(n) implies (
                    *final(self)).workspace_at(n) == (*old(self)).workspace_at(n) by {
                        let j = choose|j: int|
                            0 <= j < old_names.len() && old_names[j] == n;
                        (*old(self)).lemma_workspace_at(n, j);
                        self.lemma_workspace_at(n, j);
                    }
                    self.lemma_workspace_at(name@, i as int);
                }
            },
            None => {
                let ghost nm = name@;
                self.workspaces.push((name, payload));
                proof {
                    assert(self.ws_names() =~= old_names.push(nm));
                    assert forall|n: Seq<char>| n != nm implies (*final(self)).has_workspace(n)
                        == (*old(self)).has_workspace(n) by {
                        if (*final(self)).has_workspace(n) {
                            let j = choose|j: int|
                                0 <= j < self.ws_names().len() && self.ws_names()[j] == n;
                            assert(j < old_names.len());
                            assert(old_names[j] == n);
                        }
                        if (*old(self)).has_workspace(n) {
                            let j = choose|j: int|
                                0 <= j < old_names.len() && old_names[j] == n;
                            assert(self.ws_names()[j] == n);
                        }
                    }
                    assert forall|n: Seq<char>|
                        n != nm && (*old(self)).has_workspace(n) implies (*final(self)).workspace_at(n) == (*old(self)).workspace_at(n) by {
                        let j = choose|j: int|
                            0 <= j < old_names.len() && old_names[j] == n;
                        (*old(self)).lemma_workspace_at(n, j);
                        self.lemma_workspace_at(n, j);
                    }
                    assert(self.ws_names()[old_names.len() as int] == nm);
                    self.lemma_workspace_at(nm, old_names.len() as int);
                    assert((*final(self)).has_workspace(nm));
                }
            },
        }
    }

    /// Removes the workspace with this name, if one is persisted; every
    /// other workspace is untouched.
    fn remove_entry(&mut self, name: &str)
        requires
            (*old(self)).wf(),
        ensures
            (*final(self)).wf(),
            !(*final(self)).has_workspace(name@),
            forall|n: Seq<char>|
                n != name@ ==> (*final(self)).has_workspace(n) == (*old(self)).has_workspace(n),
            forall|n: Seq<char>|
                n != name@ && (*old(self)).has_workspace(n) ==> (*final(self)).workspace_at(n) == (
                *old(self)).workspace_at(n),
            (*final(self)).profiles_view() == (*old(self)).profiles_view(),
    {
        let ghost old_names = self.ws_names();
        let found = self.find_workspace(name);
        match found {
            Some(i) => {
                let _prev = self.workspaces.remove(i);
                proof {
                    assert(self.ws_names() =~= old_names.remove(i as int));
                    assert forall|j: int|
                        0 <= j < self.ws_names().len() implies #[trigger] self.ws_names()[j]
                        != name@ by {
                        if j < i {
                            assert(old_names[j] != old_names[i as int]);
                        } else {
                            assert(self.ws_names()[j] == old_names[j + 1]);
                            assert(old_names[i as int] != old_names[j + 1]);
                        }
                    }
                    assert forall|n: Seq<char>| n != name@ implies (*final(self)).has_workspace(n)
                        == (*old(self)).has_workspace(n) by {
                        if (*final(self)).has_workspace(n) {
                            let j = choose|j: int|
                                0 <= j < self.ws_names().len() && self.ws_names()[j] == n;
                            if j < i {
                                assert(old_names[j] == n);
                            } else {
                                assert(old_names[j + 1] == n);
                            }
                        }
                        if (*old(self)).has_workspace(n) {
                            let j = choose|j: int|
                                0 <= j < old_names.len() && old_names[j] == n;
                            if j < i {
                                assert(self.ws_names()[j] == n);
                            } else {
                                assert(j != i);
                                assert(self.ws_names()[j - 1] == n);
                            }
                        }
                    }
                    assert forall|n: Seq<char>|
                        n != name@ && (*old(self)).has_workspace(n) implies (*final(self)).workspace_at(n) == (*old(self)).workspace_at(n) by {
                        let j = choose|j: int|
                            0 <= j < old_names.len() && old_names[j] == n;
                        (*old(self)).lemma_workspace_at(n, j);
                        if j < i {
                            self.lemma_workspace_at(n, j);
                        } else {
                            assert(j != i);
                            assert(self.ws_names()[j - 1] == n);
                            assert(self.workspaces@[j - 1] == (*old(self)).workspaces@[j]);
                            self.lemma_workspace_at(n, j - 1);
                        }
                    }
                }
            },
            None => {},
        }
    }

    /// Persists a user-named workspace: the descriptor list, in the order
    /// given, under the name. A name outside the user-valid shape (see
    /// [`validate_workspace_name`]) is rejected before anything changes.
    pub fn save_workspace(&mut self, name: &str, terminals: &Vec<TerminalConfig>) -> (r: Result<
        (),
        TerminalError,
    >)
        requires
            (*old(self)).wf(),
        ensures
            (*final(self)).wf(),
            r is Err <==> !valid_user_workspace_name(name@),
            r matches Err(e) ==> e is ValidationFailure && *final(self) == *old(self),
            r is Ok ==> ({
                &&& (*final(self)).has_workspace(name@)
                &&& (*final(self)).workspace_at(name@) == terminals.deep_view()
                &&& (forall|n: Seq<char>|
                    n != name@ ==> (*final(self)).has_workspace(n) == (*old(self)).has_workspace(
                        n,
                    ))
                &&& (forall|n: Seq<char>|
                    n != name@ && (*old(self)).has_workspace(n) ==> (*final(self)).workspace_at(n)
                        == (*old(self)).workspace_at(n))
                &&& (*final(self)).profiles_view() == (*old(self)).profiles_view()
            }),
    {
        if let Err(e) = validate_workspace_name(name) {
            return Err(e);
        }
        let payload = codec::encode_configs(terminals);
        proof {
            codec::lemma_round_trip_configs(terminals.deep_view());
        }
        self.store_entry(name.to_owned(), payload);
        Ok(())
    }

    /// Restores the descriptor list persisted under this user-visible
    /// name, exactly as it was saved. Fails with `NotFound` exactly when
    /// no workspace has this name.
    pub fn load_workspace(&self, name: &str) -> (r: Result<Vec<TerminalConfig>, TerminalError>)
        requires
            self.wf(),
        ensures
            r is Err <==> !self.has_workspace(name@),
            r matches Err(e) ==> e is NotFound,
            r matches Ok(out) ==> out.deep_view() == self.workspace_at(name@),
    {
        let i = match self.find_workspace(name) {
            Some(i) => i,
            None => {
                return Err(TerminalError::NotFound);
            },
        };
        proof {
            self.lemma_workspace_at(name@, i as int);
        }
        match codec::decode_configs(&self.workspaces[i].1) {
            Ok(out) => Ok(out),
            Err(_) => {
                proof {
                    assert(false);
                }
                Err(TerminalError::NotFound)
            },
        }
    }

    /// Persists the last-session snapshot: the descriptors reordered by
    /// ascending creation timestamp under the reserved name — or, for an
    /// empty list, deletes any existing record, so that "ran and exited
    /// with nothing open" and "never ran" are indistinguishable.
    pub fn save_last_session(&mut self, terminals: &Vec<TerminalConfig>) -> (r: Result<
        (),
        TerminalError,
    >)
        requires
            (*old(self)).wf(),
        ensures
            (*final(self)).wf(),
            r is Ok,
            terminals.deep_view().len() == 0 ==> !(*final(self)).has_workspace(
                reserved_session_name(),
            ),
            terminals.deep_view().len() > 0 ==> ({
                &&& (*final(self)).has_workspace(reserved_session_name())
                &&& sorted_by_created((*final(self)).workspace_at(reserved_session_name()))
                &&& (*final(self)).workspace_at(reserved_session_name()).to_multiset()
                    == terminals.deep_view().to_multiset()
            }),
            forall|n: Seq<char>|
                n != reserved_session_name() ==> (*final(self)).has_workspace(n) == (*old(self)).has_workspace(n),
            forall|n: Seq<char>|
                n != reserved_session_name() && (*old(self)).has_workspace(n) ==> (*final(self)).workspace_at(n) == (*old(self)).workspace_at(n),
            (*final(self)).profiles_view() == (*old(self)).profiles_view(),
    {
        if terminals.len() == 0 {
            self.remove_entry("__last_session__");
            return Ok(());
        }
        let sorted = sort_by_created(terminals);
        let payload = codec::encode_configs(&sorted);
        proof {
            codec::lemma_round_trip_configs(sorted.deep_view());
        }
        self.store_entry("__last_session__".to_owned(), payload);
        Ok(())
    }

    /// Restores the last-session snapshot; a missing record is not an
    /// error, it means there is nothing to restore.
    pub fn load_last_session(&self) -> (r: Result<Option<Vec<TerminalConfig>>, TerminalError>)
        requires
            self.wf(),
        ensures
            r is Ok,
            !self.has_workspace(reserved_session_name()) <==> (r matches Ok(o) && o is None),
            self.has_workspace(reserved_session_name()) ==> (r matches Ok(o) && o matches Some(
                out,
            ) && out.deep_view() == self.workspace_at(reserved_session_name())),
    {
        let i = match self.find_workspace("__last_session__") {
            Some(i) => i,
            None => {
                return Ok(None);
            },
        };
        proof {
            self.lemma_workspace_at("__last_session__"@, i as int);
        }
        match codec::decode_configs(&self.workspaces[i].1) {
            Ok(out) => Ok(Some(out)),
            Err(_) => {
                proof {
                    assert(false);
                }
                Ok(None)
            },
        }
    }

    /// Deletes the last-session record, if any; every other workspace is
    /// untouched.
    pub fn clear_last_session(&mut self) -> (r: Result<(), TerminalError>)
        requires
            (*old(self)).wf(),
        ensures
            (*final(self)).wf(),
            r is Ok,
            !(*final(self)).has_workspace(reserved_session_name()),
            forall|n: Seq<char>|
                n != reserved_session_name() ==> (*final(self)).has_workspace(n) == (*old(self)).has_workspace(n),
            forall|n: Seq<char>|
                n != reserved_session_name() && (*old(self)).has_workspace(n) ==> (*final(self)).workspace_at(n) == (*old(self)).workspace_at(n),
            (*final(self)).profiles_view() == (*old(self)).profiles_view(),
    {
        self.remove_entry("__last_session__");
        Ok(())
    }

    /// Stores the profile: a profile with the same identifier is replaced
    /// in place, a new identifier is appended. A name outside one to 255
    /// characters is rejected before anything changes.
    pub fn save_profile(&mut self, profile: &ConfigProfile) -> (r: Result<(), TerminalError>)
        requires
            (*old(self)).wf(),
        ensures
            (*final(self)).wf(),
            r is Err <==> !(1 <= profile.name@.len() <= 255),
            r matches Err(e) ==> e is ValidationFailure && *final(self) == *old(self),
            r is Ok ==> ({
                ||| (exists|i: int|
                    0 <= i < (*old(self)).profiles_view().len() && (*old(self)).profiles_view()[i].id == profile@.id && (*final(self)).profiles_view() == (
                    *old(self)).profiles_view().update(i, profile@))
                ||| (!(exists|i: int|
                    0 <= i < (*old(self)).profiles_view().len()
                        && #[trigger] (*old(self)).profiles_view()[i].id == profile@.id) && (
                *final(self)).profiles_view() == (*old(self)).profiles_view().push(profile@))
            }),
            r is Ok ==> (forall|n: Seq<char>|
                (*final(self)).has_workspace(n) == (*old(self)).has_workspace(n) && ((*old(self)).has_workspace(n) ==> (*final(self)).workspace_at(n) == (*old(self)).workspace_at(n))),
    {
        if let Err(e) = validate_profile_name(profile.name.as_str()) {
            return Err(e);
        }
        let ghost old_profiles = self.profiles_view();
        let n = self.profiles.len();
        let mut i: usize = 0;
        while i < n
            invariant
                n == self.profiles@.len(),
                i <= n,
                *self == *old(self),
                old_profiles == self.profiles_view(),
                self.wf(),
                1 <= profile.name@.len() <= 255,
                forall|j: int| 0 <= j < i ==> #[trigger] self.profiles_view()[j].id != profile@.id,
            decreases n - i,
        {
            if strutil::str_eq(self.profiles[i].id.as_str(), profile.id.as_str()) {
                proof {
                    assert((*old(self)).wf());
                    assert(forall|a: int, b: int|
                        0 <= a < b < old_profiles.len() ==> #[trigger] old_profiles[a].id
                            != #[trigger] old_profiles[b].id);
                    assert(old_profiles[i as int].id == profile@.id);
                }
                let _prev = self.profiles.remove(i);
                self.profiles.insert(i, profile.clone());
                proof {
                    assert(self.workspaces == (*old(self)).workspaces);
                    assert(self.ws_names() =~= (*old(self)).ws_names());
                    assert(self.profiles_view() =~= old_profiles.update(i as int, profile@));
                    assert forall|a: int, b: int|
                        0 <= a < b < self.profiles_view().len() implies #[trigger] self.profiles_view()[a].id
                        != #[trigger] self.profiles_view()[b].id by {
                        assert(old_profiles[a].id != old_profiles[b].id);
                    }
                }
                return Ok(());
            }
            i = i + 1;
        }
        proof {
            assert(forall|a: int, b: int|
                0 <= a < b < old_profiles.len() ==> #[trigger] old_profiles[a].id
                    != #[trigger] old_profiles[b].id);
        }
        self.profiles.push(profile.clone());
        proof {
            assert(self.workspaces == (*old(self)).workspaces);
            assert(self.ws_names() =~= (*old(self)).ws_names());
            assert(self.profiles_view() =~= old_profiles.push(profile@));
            assert forall|a: int, b: int|
                0 <= a < b < self.profiles_view().len() implies #[trigger] self.profiles_view()[a].id
                != #[trigger] self.profiles_view()[b].id by {
                if b < old_profiles.len() {
                    assert(old_profiles[a].id != old_profiles[b].id);
                } else {
                    assert(self.profiles_view()[a].id == old_profiles[a].id);
                }
            }
        }
        Ok(())
    }

    /// A snapshot, by value, of every stored profile, in storage order.
    pub fn get_profiles(&self) -> (r: Vec<ConfigProfile>)
        ensures
            r.deep_view() == self.profiles_view(),
    {
        let n = self.profiles.len();
        let mut out: Vec<ConfigProfile> = Vec::new();
        let mut i: usize = 0;
        while i < n
            invariant
                n == self.profiles@.len(),
                i <= n,
                out@.len() == i,
                forall|j: int| 0 <= j < i ==> #[trigger] out@[j]@ == self.profiles_view()[j],
            decreases n - i,
        {
            out.push(self.profiles[i].clone());
            i = i + 1;
        }
        proof {
            assert(out.deep_view() =~= self.profiles_view());
        }
        out
    }

    /// Removes the profile with this identifier, if one is stored; a
    /// missing identifier is not an error.
    pub fn delete_profile(&mut self, id: &str) -> (r: Result<(), TerminalError>)
        requires
            (*old(self)).wf(),
        ensures
            (*final(self)).wf(),
            r is Ok,
            !(*old(self)).has_profile(id@) ==> *final(self) == *old(self),
            (*old(self)).has_profile(id@) ==> (exists|i: int|
                0 <= i < (*old(self)).profiles_view().len() && (*old(self)).profiles_view()[i].id
                    == id@ && (*final(self)).profiles_view() == (*old(self)).profiles_view().remove(i)),
            !(*final(self)).has_profile(id@),
            forall|n: Seq<char>|
                (*final(self)).has_workspace(n) == (*old(self)).has_workspace(n) && ((*old(self)).has_workspace(n) ==> (*final(self)).workspace_at(n) == (*old(self)).workspace_at(n)),
    {
        let ghost old_profiles = self.profiles_view();
        let n = self.profiles.len();
        let mut i: usize = 0;
        while i < n
            invariant
                n == self.profiles@.len(),
                i <= n,
                *self == *old(self),
                old_profiles == self.profiles_view(),
                self.wf(),
                forall|j: int| 0 <= j < i ==> #[trigger] self.profiles_view()[j].id != id@,
            decreases n - i,
        {
            if strutil::str_eq(self.profiles[i].id.as_str(), id) {
                proof {
                    assert((*old(self)).wf());
                    assert((*old(self)).profiles_view()[i as int].id == id@);
                    assert((*old(self)).has_profile(id@));
                    assert(forall|a: int, b: int|
                        0 <= a < b < old_profiles.len() ==> #[trigger] old_profiles[a].id
                            != #[trigger] old_profiles[b].id);
                }
                let _prev = self.profiles.remove(i);
                proof {
                    assert(self.workspaces == (*old(self)).workspaces);
                    assert(self.ws_names() =~= (*old(self)).ws_names());
                    assert(self.profiles_view() =~= old_profiles.remove(i as int));
                    assert forall|j: int|
                        0 <= j < self.profiles_view().len() implies #[trigger] self.profiles_view()[j].id
                        != id@ by {
                        if j < i {
                            assert(old_profiles[j].id != old_profiles[i as int].id);
                        } else {
                            assert(self.profiles_view()[j] == old_profiles[j + 1]);
                            assert(old_profiles[i as int].id != old_profiles[j + 1].id);
                        }
                    }
                }
                return Ok(());
            }
            i = i + 1;
        }
        Ok(())
    }

    /// Some stored profile has this identifier.
    pub open spec fn has_profile(self, id: Seq<char>) -> bool {
        exists|i: int|
            0 <= i < self.profiles_view().len() && #[trigger] self.profiles_view()[i].id == id
    }
}

/// Checks a user-chosen workspace name: one to 255 characters, outside
/// the reserved namespace, so it can never collide with the reserved
/// last-session name.
pub fn validate_workspace_name(name: &str) -> (r: Result<(), TerminalError>)
    ensures
        r is Ok <==> valid_user_workspace_name(name@),
        r matches Err(e) ==> e is ValidationFailure,
{
    let len = name.unicode_len();
    if len == 0 || len > 255 {
        return Err(TerminalError::ValidationFailure(
            "Workspace name must be 1-255 characters".to_owned(),
        ));
    }
    if len >= 2 && name.get_char(0) == '_' && name.get_char(1) == '_' {
        return Err(TerminalError::ValidationFailure(
            "Workspace name must not use the reserved prefix".to_owned(),
        ));
    }
    Ok(())
}

/// Checks a profile name: one to 255 characters.
pub fn validate_profile_name(name: &str) -> (r: Result<(), TerminalError>)
    ensures
        r is Ok <==> 1 <= name@.len() <= 255,
        r matches Err(e) ==> e is ValidationFailure,
{
    let len = name.unicode_len();
    if len == 0 || len > 255 {
        return Err(TerminalError::ValidationFailure(
            "Profile name must be 1-255 characters".to_owned(),
        ));
    }
    Ok(())
}

/// The descriptors reordered by ascending creation timestamp: a sorted
/// permutation of the input, computed with a stable scan for the least
/// remaining timestamp.
pub fn sort_by_created(v: &Vec<TerminalConfig>) -> (r: Vec<TerminalConfig>)
    ensures
        sorted_by_created(r.deep_view()),
        r.deep_view().to_multiset() == v.deep_view().to_multiset(),
{
    broadcast use group_to_multiset_ensures;

    let mut rest: Vec<TerminalConfig> = Vec::new();
    let mut i: usize = 0;
    while i < v.len()
        invariant
            i <= v@.len(),
            rest@.len() == i,
            forall|j: int| 0 <= j < i ==> #[trigger] rest@[j]@ == v.deep_view()[j],
        decreases v@.len() - i,
    {
        rest.push(v[i].clone());
        i = i + 1;
    }
    proof {
        assert(rest.deep_view() =~= v.deep_view());
    }

    let mut out: Vec<TerminalConfig> = Vec::new();
    while rest.len() > 0
        invariant
            sorted_by_created(out.deep_view()),
            out.deep_view().to_multiset().add(rest.deep_view().to_multiset()) == v.deep_view()
                .to_multiset(),
            forall|a: int, b: int|
                0 <= a < out.deep_view().len() && 0 <= b < rest.deep_view().len()
                    ==> #[trigger] out.deep_view()[a].created_at
                    <= #[trigger] rest.deep_view()[b].created_at,
        decreases rest@.len(),
    {
        let mut min: usize = 0;
        let mut k: usize = 1;
        while k < rest.len()
            invariant
                rest@.len() > 0,
                min < k <= rest@.len() || (k <= rest@.len() && min == 0),
                min < rest@.len(),
                forall|j: int|
                    0 <= j < k ==> rest.deep_view()[min as int].created_at
                        <= #[trigger] rest.deep_view()[j].created_at,
            decreases rest@.len() - k,
        {
            if rest[k].created_at < rest[min].created_at {
                min = k;
            }
            k = k + 1;
        }
        let ghost rest_before = rest.deep_view();
        let ghost out_before = out.deep_view();
        let picked = rest.remove(min);
        out.push(picked);
        proof {
            assert(rest.deep_view() =~= rest_before.remove(min as int));
            assert(out.deep_view() =~= out_before.push(picked@));
            assert(picked@ == rest_before[min as int]);
            assert(rest_before.contains(rest_before[min as int]));
            rest_before.to_multiset_ensures();
            out_before.to_multiset_ensures();
            assert(rest_before.remove(min as int).to_multiset() =~= rest_before.to_multiset()
                .remove(rest_before[min as int]));
            assert(out_before.push(picked@).to_multiset() =~= out_before.to_multiset().insert(
                picked@,
            ));
            assert(rest.deep_view().to_multiset() == rest_before.to_multiset().remove(
                rest_before[min as int],
            ));
            assert(out.deep_view().to_multiset() == out_before.to_multiset().insert(picked@));
            assert(out.deep_view().to_multiset().add(rest.deep_view().to_multiset())
                =~= out_before.to_multiset().add(rest_before.to_multiset()));
            assert forall|b: int| 0 <= b < rest.deep_view().len() implies picked@.created_at
                <= #[trigger] rest.deep_view()[b].created_at by {
                if b < min {
                    assert(rest.deep_view()[b] == rest_before[b]);
                } else {
                    assert(rest.deep_view()[b] == rest_before[b + 1]);
                }
            }
        }
    }
    proof {
        assert(rest.deep_view() =~= Seq::<ConfigView>::empty());
        assert(rest.deep_view().to_multiset() =~= Multiset::<ConfigView>::empty());
        assert(out.deep_view().to_multiset() =~= v.deep_view().to_multiset());
    }
    out
}

/// The deterministic snapshot of the registry: every registered
/// descriptor, reordered by ascending creation timestamp, independent of
/// the registry's own order.
pub fn snapshot(manager: &TerminalManager) -> (r: Vec<TerminalConfig>)
    ensures
        sorted_by_created(r.deep_view()),
        r.deep_view().to_multiset() == manager.configs().to_multiset(),
{
    let configs = manager.get_all_configs();
    sort_by_created(&configs)
}

/// The persist-then-restore round trip is deterministic: when no two
/// descriptors share a creation timestamp, there is exactly one
/// reordering of the list by ascending timestamp. So the sequence
/// `load_last_session` returns after `save_last_session(d)` — sorted, and
/// a permutation of `d`, by their contracts — is precisely `d` reordered
/// by ascending creation timestamp.
pub proof fn lemma_sorted_permutation_unique(s1: Seq<ConfigView>, s2: Seq<ConfigView>)
    requires
        sorted_by_created(s1),
        sorted_by_created(s2),
        s1.to_multiset() == s2.to_multiset(),
        distinct_created(s1),
    ensures
        s1 == s2,
    decreases s1.len(),
{
    broadcast use group_to_multiset_ensures;

    if s1.len() == 0 {
        assert(s1.to_multiset().len() == 0);
        assert(s2.len() == 0);
        assert(s1 =~= s2);
    } else {
        assert(s1.len() == s1.to_multiset().len());
        assert(s2.len() == s2.to_multiset().len());
        assert(s2.len() == s1.len());
        let a = s1[0];
        let b = s2[0];
        assert(s1.contains(a));
        assert(s2.to_multiset().count(a) > 0);
        assert(s2.contains(a));
        let j = choose|j: int| 0 <= j < s2.len() && s2[j] == a;
        assert(s2.contains(b));
        assert(s1.to_multiset().count(b) > 0);
        assert(s1.contains(b));
        let i = choose|i: int| 0 <= i < s1.len() && s1[i] == b;
        assert(a.created_at <= s1[i].created_at);
        assert(b.created_at <= s2[j].created_at);
        assert(a.created_at == b.created_at);
        assert(s1[0] == s2[0]) by {
            if i != 0 {
                assert(s1[0].created_at != s1[i].created_at);
            }
        }
        assert(s1.remove(0) =~= s1.drop_first());
        assert(s2.remove(0) =~= s2.drop_first());
        assert(s1.remove(0).to_multiset() =~= s1.to_multiset().remove(a));
        assert(s2.remove(0).to_multiset() =~= s2.to_multiset().remove(b));
        assert(s1.drop_first().to_multiset() == s2.drop_first().to_multiset());
        assert(sorted_by_created(s1.drop_first()));
        assert(sorted_by_created(s2.drop_first()));
        assert(distinct_created(s1.drop_first()));
        lemma_sorted_permutation_unique(s1.drop_first(), s2.drop_first());
        assert forall|k: int| 0 <= k < s1.len() implies s1[k] == s2[k] by {
            if k > 0 {
                assert(s1[k] == s1.drop_first()[k - 1]);
                assert(s2[k] == s2.drop_first()[k - 1]);
            }
        }
        assert(s1 =~= s2);
    }
}

} // verus!
