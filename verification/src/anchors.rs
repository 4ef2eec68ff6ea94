use vstd::prelude::*;

use crate::errors::SocialContextError;

verus! {

/// The well-known anchor classes of the communication layer built around
/// this store.
#[derive(Clone, Copy, Debug, PartialEq, Eq, Structural)]
pub enum AnchorTypes {
    /// Points to a collection address record.
    DNA,
    /// Points to a peer identity.
    User,
    /// Points to a communication reference.
    CommunicationReference,
}

/// An anchor entry for store-wide linking.
#[derive(Clone, Copy, Debug, PartialEq, Eq, Structural)]
pub struct Anchor {
    pub anchor_type: AnchorTypes,
}

/// Initialization hook run by the host environment; this store needs no
/// setup of its own.
pub fn init() -> (r: Result<(), SocialContextError>)
    ensures
        r is Ok,
{
    Ok(())
}

/// Peer admission policy: every peer may join an open store.
pub fn validate_agent(agent: &String) -> (r: Result<(), SocialContextError>)
    ensures
        r is Ok,
{
    let _ = agent;
    Ok(())
}

/// Whether the local peer may write; an open store always permits it.
pub fn writable() -> (r: bool)
    ensures
        r == true,
{
    true
}

} // verus!
