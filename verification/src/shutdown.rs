//! The shutdown coordinator: invoked once when the application is asked to
//! terminate.
//!
//! Strict order: first the registry is snapshotted without mutating it,
//! then the snapshot is persisted as the last-session record, and only
//! then is every live session terminated. A persistence failure must never
//! block the exit: the sessions are closed regardless.

use vstd::prelude::*;

use crate::database::{
    distinct_created, reserved_session_name, sorted_by_created, snapshot, Database,
};
use crate::session::ConfigView;
use crate::terminal::TerminalManager;
use vstd::seq_lib::group_to_multiset_ensures;

verus! {

/// Persists the registry's snapshot as the last-session record, then
/// terminates every live session. After the call the registry is empty,
/// and the last-session record holds exactly the sessions that were open,
/// in ascending creation-timestamp order — or is deleted when none were.
pub fn shutdown(manager: &mut TerminalManager, db: &mut Database)
    requires
        (*old(manager)).wf(),
        (*old(db)).wf(),
    ensures
        (*final(manager)).wf(),
        (*final(manager)).configs() == Seq::<ConfigView>::empty(),
        (*final(db)).wf(),
        (*old(manager)).configs().len() == 0 ==> !(*final(db)).has_workspace(
            reserved_session_name(),
        ),
        (*old(manager)).configs().len() > 0 ==> ({
            &&& (*final(db)).has_workspace(reserved_session_name())
            &&& sorted_by_created((*final(db)).workspace_at(reserved_session_name()))
            &&& (*final(db)).workspace_at(reserved_session_name()).to_multiset() == (*old(manager)).configs().to_multiset()
        }),
        forall|n: Seq<char>|
            n != reserved_session_name() ==> (*final(db)).has_workspace(n) == (*old(db)).has_workspace(n),
        forall|n: Seq<char>|
            n != reserved_session_name() && (*old(db)).has_workspace(n) ==> (*final(db)).workspace_at(n) == (*old(db)).workspace_at(n),
        (*final(db)).profiles_view() == (*old(db)).profiles_view(),
{
    let configs = manager.get_all_configs();
    proof {
        broadcast use group_to_multiset_ensures;

        if (*old(manager)).configs().len() == 0 {
            assert(configs.deep_view() =~= Seq::<ConfigView>::empty());
        }
    }
    let _persisted = db.save_last_session(&configs);
    manager.close_all();
}

} // verus!
