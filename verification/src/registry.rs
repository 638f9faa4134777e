//! The map that a server keeps its sessions in: `dashmap::DashMap`, and what is taken on trust of
//! it.
//!
//! A `DashMap` can be changed through a shared reference. What a map holds is spoken of here only
//! where it is borrowed exclusively, so that nothing else can change it meanwhile, and no reference
//! into it is held that a call could wait for.

use crate::server::{Session, Sessions};
use crate::session::ID;
use dashmap::DashMap;
use vstd::prelude::*;

verus! {

/// `dashmap::DashMap`, of which nothing is known but what the functions below say.
#[verifier::external_type_specification]
#[verifier::external_body]
#[verifier::reject_recursive_types(K)]
#[verifier::reject_recursive_types(V)]
#[verifier::reject_recursive_types(S)]
pub struct ExDashMap<K, V, S>(DashMap<K, V, S>);

/// The sessions that a `DashMap` holds, by their identifiers.
pub uninterp spec fn sessions_of(sessions: DashMap<ID, Session>) -> Sessions;

/// `DashMap::new`: the map that it makes holds nothing.
#[verifier::external_body]
pub(crate) fn no_sessions() -> (made: DashMap<ID, Session>)
    ensures
        sessions_of(made) == Sessions::empty(),
{
    DashMap::new()
}

/// `DashMap::remove`: takes the session under `id` out of the map and hands it over, if there is
/// one, and leaves the others where they are.
#[verifier::external_body]
pub(crate) fn take_session(sessions: &mut DashMap<ID, Session>, id: ID) -> (found: Option<Session>)
    ensures
        sessions_of(*final(sessions)) == sessions_of(*old(sessions)).remove(id),
        match found {
            Some(session) => {
                &&& sessions_of(*old(sessions)).contains_key(id)
                &&& session@ == sessions_of(*old(sessions))[id]
            },
            None => !sessions_of(*old(sessions)).contains_key(id),
        },
{
    match sessions.remove(&id) {
        Some((_, session)) => Some(session),
        None => None,
    }
}

/// `DashMap::insert`: puts a session under `id`, hands over the one that was there, if there was
/// one, and leaves the others where they are.
#[verifier::external_body]
pub(crate) fn put_session(
    sessions: &mut DashMap<ID, Session>,
    id: ID,
    session: Session,
) -> (replaced: Option<Session>)
    ensures
        sessions_of(*final(sessions)) == sessions_of(*old(sessions)).insert(id, session@),
        match replaced {
            Some(before) => {
                &&& sessions_of(*old(sessions)).contains_key(id)
                &&& before@ == sessions_of(*old(sessions))[id]
            },
            None => !sessions_of(*old(sessions)).contains_key(id),
        },
{
    sessions.insert(id, session)
}

} // verus!
