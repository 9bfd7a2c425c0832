//! Strongly typed identifiers.
//!
//! Entity ids, player-account ids and client identities are kept as distinct
//! newtypes so that the different id spaces cannot be mixed up at compile
//! time.

use vstd::prelude::*;

verus! {

/// Identifier of a world entity (player avatar, NPC or world object).
#[derive(Clone, Copy, Debug, PartialEq, Eq, Structural)]
pub struct EntityId(pub u32);

/// Identifier of a player account. The value 0 marks an unowned entity.
#[derive(Clone, Copy, Debug, PartialEq, Eq, Structural)]
pub struct PlayerAccountId(pub u32);

/// Transport-level identity of a connected client, as handed to the core by
/// the hosting runtime.
#[derive(Clone, Copy, Debug, PartialEq, Eq, Structural)]
pub struct Identity(pub u64);

impl PlayerAccountId {
    /// The sentinel owner of entities that belong to no player account.
    pub fn unowned() -> (r: PlayerAccountId)
        ensures
            r == PlayerAccountId(0u32),
    {
        PlayerAccountId(0)
    }
}

} // verus!
