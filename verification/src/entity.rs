//! Row types of the canonical entity tables.
//!
//! Every entity owns exactly one position, one rotation and one chunk row;
//! the store keeps the three together with the entity in a single aggregate
//! record, so that creation and deletion of the triad are atomic by
//! construction.

use vstd::prelude::*;
use crate::ids::{EntityId, PlayerAccountId};

verus! {

/// What kind of entity it is.
#[derive(Clone, Copy, Debug, PartialEq, Eq, Structural)]
pub enum EntityType {
    Player,
    NonPlayer,
    World,
}

/// A world entity, optionally owned by a player account
/// (`PlayerAccountId(0)` marks an unowned entity).
#[derive(Clone, Copy, Debug, PartialEq, Eq, Structural)]
pub struct Entity {
    pub id: EntityId,
    pub owner_id: PlayerAccountId,
    pub entity_type: EntityType,
}

/// Canonical position of an entity.
#[derive(Clone, Copy, Debug, PartialEq, Eq, Structural)]
pub struct EntityPosition {
    pub id: EntityId,
    pub x: i32,
    pub y: i32,
    pub z: i32,
}

/// Canonical rotation of an entity.
#[derive(Clone, Copy, Debug, PartialEq, Eq, Structural)]
pub struct EntityRotation {
    pub id: EntityId,
    pub rot_x: i16,
    pub rot_y: i16,
    pub rot_z: i16,
}

/// Derived spatial-partition cell of an entity, recomputed from its
/// canonical position and never written by clients.
#[derive(Clone, Copy, Debug, PartialEq, Eq, Structural)]
pub struct EntityChunk {
    pub id: EntityId,
    pub chunk_x: u32,
    pub chunk_z: u32,
    /// When the chunk was last changed, in milliseconds.
    pub modified_at: u64,
}

/// The full aggregate state of one entity: the entity row together with its
/// position, rotation and chunk triad.
#[derive(Clone, Copy, Debug, PartialEq, Eq, Structural)]
pub struct EntityRecord {
    pub entity: Entity,
    pub position: EntityPosition,
    pub rotation: EntityRotation,
    pub chunk: EntityChunk,
}

impl EntityRecord {
    /// The triad rows all carry the id of their entity.
    pub open spec fn ids_consistent(self) -> bool {
        &&& self.position.id == self.entity.id
        &&& self.rotation.id == self.entity.id
        &&& self.chunk.id == self.entity.id
    }

    /// The freshly created state of an entity: position and rotation at
    /// zero, chunk seeded at the origin cell.
    pub open spec fn is_fresh(self, id: EntityId, entity_type: EntityType, owner_id: PlayerAccountId, now: u64) -> bool {
        &&& self.entity == (Entity { id, owner_id, entity_type })
        &&& self.position == (EntityPosition { id, x: 0i32, y: 0i32, z: 0i32 })
        &&& self.rotation == (EntityRotation { id, rot_x: 0i16, rot_y: 0i16, rot_z: 0i16 })
        &&& self.chunk == (EntityChunk { id, chunk_x: 0u32, chunk_z: 0u32, modified_at: now })
    }
}

} // verus!
