//! The registry of bound target windows: each bind gets a fresh target id, and a target is
//! found by its id until it is unbound.

use vstd::prelude::*;
use std::collections::HashMap;

verus! {

broadcast use vstd::std_specs::hash::group_hash_axioms;

/// A bound target window.
#[derive(Debug)]
pub struct TargetSession {
    /// The target id this tool assigned.
    pub target_id: u64,
    /// The SDK's window session id.
    pub session_id: u64,
    /// The window handle.
    pub hwnd: usize,
    /// The window title when it was bound, for display.
    pub title: String,
}

/// The bound targets and the last target id handed out.
#[derive(Debug)]
pub struct AppState {
    /// Target id to bound session.
    pub targets: HashMap<u64, TargetSession>,
    /// The last target id handed out (ids start at 1).
    pub next_target_id: u64,
}

pub open spec fn e2001() -> Seq<char> {
    "E2001: 目标未绑定或已释放"@
}

impl AppState {
    /// Every bound target is filed under its own id, and no id above the last one handed out
    /// is in use.
    pub open spec fn well_formed(&self) -> bool {
        forall|k: u64| #[trigger]
            self.targets@.contains_key(k) ==> 1 <= k <= self.next_target_id && self.targets@[k].target_id == k
    }

    /// No target is bound and no id was handed out.
    pub fn new() -> (state: AppState)
        ensures
            state.well_formed(),
            state.targets@ == Map::<u64, TargetSession>::empty(),
            state.next_target_id == 0,
    {
        AppState { targets: HashMap::new(), next_target_id: 0 }
    }

    /// Files a newly bound window under a fresh id, one above the last id handed out.
    pub fn register(&mut self, session_id: u64, hwnd: usize, title: String) -> (target_id: u64)
        requires
            old(self).well_formed(),
            old(self).next_target_id < u64::MAX,
        ensures
            final(self).well_formed(),
            target_id == old(self).next_target_id + 1,
            final(self).next_target_id == target_id,
            !old(self).targets@.contains_key(target_id),
            final(self).targets@ == old(self).targets@.insert(
                target_id,
                TargetSession { target_id, session_id, hwnd, title },
            ),
    {
        self.next_target_id = self.next_target_id + 1;
        let target_id = self.next_target_id;
        self.targets.insert(target_id, TargetSession { target_id, session_id, hwnd, title });
        target_id
    }

    /// The bound target with this id.
    pub fn lookup(&self, target_id: u64) -> (res: Result<&TargetSession, String>)
        ensures
            res is Ok <==> self.targets@.contains_key(target_id),
            res matches Ok(s) ==> *s == self.targets@[target_id],
            res matches Err(t) ==> t@ == e2001(),
    {
        match self.targets.get(&target_id) {
            Some(session) => Ok(session),
            None => Err(String::from_str("E2001: 目标未绑定或已释放")),
        }
    }

    /// Removes the bound target with this id and hands it back, for its session to be released.
    pub fn unbind(&mut self, target_id: u64) -> (res: Result<TargetSession, String>)
        requires
            old(self).well_formed(),
        ensures
            final(self).well_formed(),
            res is Ok <==> old(self).targets@.contains_key(target_id),
            res matches Ok(s) ==> s == old(self).targets@[target_id],
            res matches Err(t) ==> t@ == e2001(),
            final(self).targets@ == old(self).targets@.remove(target_id),
            final(self).next_target_id == old(self).next_target_id,
    {
        match self.targets.remove(&target_id) {
            Some(session) => Ok(session),
            None => {
                assert(self.targets@ =~= old(self).targets@.remove(target_id));
                Err(String::from_str("E2001: 目标未绑定或已释放"))
            },
        }
    }
}

impl Default for AppState {
    fn default() -> (state: AppState)
        ensures
            state.well_formed(),
            state.targets@ == Map::<u64, TargetSession>::empty(),
            state.next_target_id == 0,
    {
        AppState::new()
    }
}

/// Law: a target registered in a well-formed registry is found under the id it was given, with
/// the session it was registered with, and every target bound before stays as it was.
pub proof fn registered_target_is_found(before: AppState, after: AppState, target_id: u64, session: TargetSession)
    requires
        before.well_formed(),
        before.next_target_id < u64::MAX,
        target_id == before.next_target_id + 1,
        session.target_id == target_id,
        after.next_target_id == target_id,
        after.targets@ == before.targets@.insert(target_id, session),
    ensures
        after.well_formed(),
        after.targets@.contains_key(target_id),
        after.targets@[target_id] == session,
        forall|k: u64| #[trigger]
            before.targets@.contains_key(k) ==> after.targets@.contains_key(k) && after.targets@[k]
                == before.targets@[k],
{
    assert(!before.targets@.contains_key(target_id));
}

/// Law: once unbound, a target id is not found again, and a later registration never reuses
/// it (new ids exceed every id handed out so far).
pub proof fn unbound_target_stays_unbound(
    before: AppState,
    after: AppState,
    target_id: u64,
    later_id: u64,
)
    requires
        before.well_formed(),
        after.targets@ == before.targets@.remove(target_id),
        after.next_target_id == before.next_target_id,
        later_id == after.next_target_id + 1,
    ensures
        !after.targets@.contains_key(target_id),
        before.targets@.contains_key(target_id) ==> later_id != target_id,
{
}

} // verus!
