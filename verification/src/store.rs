//! The canonical entity store.
//!
//! Owns the entity records and their referential integrity: an entity is
//! created together with its position, rotation and chunk rows in one atomic
//! step, and deleting it removes the whole triad.

use vstd::prelude::*;
use crate::ids::{EntityId, PlayerAccountId};
use crate::entity::{EntityType, Entity, EntityPosition, EntityRotation, EntityChunk, EntityRecord};

verus! {

/// Every record carries the id of its entity in all triad rows.
pub open spec fn ids_consistent(s: Seq<EntityRecord>) -> bool {
    forall|i: int| 0 <= i < s.len() ==> (#[trigger] s[i]).ids_consistent()
}

/// No two records share an entity id.
pub open spec fn ids_unique(s: Seq<EntityRecord>) -> bool {
    forall|i: int, j: int|
        0 <= i < s.len() && 0 <= j < s.len() && i != j
            ==> (#[trigger] s[i]).entity.id != (#[trigger] s[j]).entity.id
}

/// Some record of `s` has entity id `id`.
pub open spec fn contains_id(s: Seq<EntityRecord>, id: EntityId) -> bool {
    exists|i: int| 0 <= i < s.len() && (#[trigger] s[i]).entity.id == id
}

/// The index of the record with entity id `id`; meaningful only when
/// `contains_id(s, id)` holds and ids are unique.
pub open spec fn idx_of(s: Seq<EntityRecord>, id: EntityId) -> int {
    choose|i: int| 0 <= i < s.len() && (#[trigger] s[i]).entity.id == id
}

/// The record with entity id `id`.
pub open spec fn record_of(s: Seq<EntityRecord>, id: EntityId) -> EntityRecord {
    s[idx_of(s, id)]
}

/// When ids are unique, the record found at index `i` is the record of its
/// own id.
pub proof fn lemma_idx_of_at(s: Seq<EntityRecord>, i: int, id: EntityId)
    requires
        ids_unique(s),
        0 <= i < s.len(),
        s[i].entity.id == id,
    ensures
        contains_id(s, id),
        idx_of(s, id) == i,
        record_of(s, id) == s[i],
{
    assert(contains_id(s, id));
    let j = idx_of(s, id);
    assert(0 <= j < s.len() && s[j].entity.id == id);
}

/// The canonical entity table with its dependent triad rows.
pub struct EntityStore {
    pub records: Vec<EntityRecord>,
    /// Next auto-incremented entity id; ids start at 1.
    pub next_id: u32,
}

impl EntityStore {
    /// Internal consistency of the store: triad rows carry their entity's
    /// id, ids are unique, and all ids are older than `next_id`.
    pub open spec fn wf(self) -> bool {
        &&& ids_consistent(self.records@)
        &&& ids_unique(self.records@)
        &&& forall|i: int| 0 <= i < self.records@.len()
                ==> (#[trigger] self.records@[i]).entity.id.0 < self.next_id
        &&& self.next_id >= 1
    }

    pub open spec fn contains(self, id: EntityId) -> bool {
        contains_id(self.records@, id)
    }

    pub open spec fn record(self, id: EntityId) -> EntityRecord {
        record_of(self.records@, id)
    }

    /// An empty store.
    pub fn new() -> (r: EntityStore)
        ensures
            r.wf(),
            r.records@.len() == 0,
            r.next_id == 1u32,
    {
        EntityStore { records: Vec::new(), next_id: 1 }
    }

    /// Creates a new entity together with its position, rotation and chunk
    /// rows in one step: position and rotation start at zero and the chunk
    /// is seeded at the origin cell. Returns the fresh entity id.
    pub fn create_entity_tree(&mut self, entity_type: EntityType, owner_id: PlayerAccountId, now: u64) -> (id: EntityId)
        requires
            old(self).wf(),
            old(self).next_id < u32::MAX,
        ensures
            final(self).wf(),
            id == EntityId(old(self).next_id),
            !old(self).contains(id),
            final(self).contains(id),
            final(self).next_id == old(self).next_id + 1,
            final(self).records@.len() == old(self).records@.len() + 1,
            final(self).records@ == old(self).records@.push(final(self).records@.last()),
            final(self).records@.last().is_fresh(id, entity_type, owner_id, now),
            final(self).record(id) == final(self).records@.last(),
    {
        let id = EntityId(self.next_id);
        let rec = EntityRecord {
            entity: Entity { id, owner_id, entity_type },
            position: EntityPosition { id, x: 0, y: 0, z: 0 },
            rotation: EntityRotation { id, rot_x: 0, rot_y: 0, rot_z: 0 },
            chunk: EntityChunk { id, chunk_x: 0, chunk_z: 0, modified_at: now },
        };
        self.records.push(rec);
        self.next_id = self.next_id + 1;
        proof {
            let s = self.records@;
            assert(s[s.len() - 1].entity.id == id);
            lemma_idx_of_at(s, s.len() - 1, id);
        }
        id
    }

    /// Finds the index of the record for `id`, if the entity exists.
    pub fn find_index(&self, id: EntityId) -> (r: Option<usize>)
        ensures
            match r {
                Some(i) => i < self.records@.len() && self.records@[i as int].entity.id == id,
                None => !self.contains(id),
            },
    {
        let n = self.records.len();
        let mut i: usize = 0;
        while i < n
            invariant
                i <= n,
                n == self.records@.len(),
                forall|k: int| 0 <= k < i ==> (#[trigger] self.records@[k]).entity.id != id,
            decreases n - i,
        {
            if self.records[i].entity.id == id {
                return Some(i);
            }
            i = i + 1;
        }
        None
    }

    /// Deletes the entity and, with it, its position, rotation and chunk
    /// rows. Returns whether the entity existed; deleting an absent entity
    /// is a no-op.
    pub fn delete_entity(&mut self, id: EntityId) -> (found: bool)
        requires
            old(self).wf(),
        ensures
            final(self).wf(),
            found == old(self).contains(id),
            final(self).next_id == old(self).next_id,
            !final(self).contains(id),
            found ==> final(self).records@
                == old(self).records@.remove(idx_of(old(self).records@, id)),
            !found ==> *final(self) == *old(self),
    {
        match self.find_index(id) {
            Some(i) => {
                proof {
                    lemma_idx_of_at(self.records@, i as int, id);
                }
                self.records.remove(i);
                proof {
                    let pre = old(self).records@;
                    let post = self.records@;
                    assert forall|k: int| 0 <= k < post.len()
                        implies (#[trigger] post[k]).entity.id != id by {
                        if k < i as int {
                            assert(post[k] == pre[k]);
                        } else {
                            assert(post[k] == pre[k + 1]);
                        }
                    }
                }
                true
            }
            None => false,
        }
    }

    /// Looks up the full record of an entity.
    pub fn get_record(&self, id: EntityId) -> (r: Option<EntityRecord>)
        requires
            self.wf(),
        ensures
            match r {
                Some(rec) => self.contains(id) && rec == self.record(id),
                None => !self.contains(id),
            },
    {
        match self.find_index(id) {
            Some(i) => {
                proof {
                    lemma_idx_of_at(self.records@, i as int, id);
                }
                Some(self.records[i])
            }
            None => None,
        }
    }

    /// The canonical position of an entity, if it exists.
    pub fn get_position(&self, id: EntityId) -> (r: Option<EntityPosition>)
        requires
            self.wf(),
        ensures
            match r {
                Some(p) => self.contains(id) && p == self.record(id).position,
                None => !self.contains(id),
            },
    {
        match self.get_record(id) {
            Some(rec) => Some(rec.position),
            None => None,
        }
    }

    /// The canonical rotation of an entity, if it exists.
    pub fn get_rotation(&self, id: EntityId) -> (r: Option<EntityRotation>)
        requires
            self.wf(),
        ensures
            match r {
                Some(p) => self.contains(id) && p == self.record(id).rotation,
                None => !self.contains(id),
            },
    {
        match self.get_record(id) {
            Some(rec) => Some(rec.rotation),
            None => None,
        }
    }

    /// The derived chunk row of an entity, if it exists.
    pub fn get_chunk(&self, id: EntityId) -> (r: Option<EntityChunk>)
        requires
            self.wf(),
        ensures
            match r {
                Some(p) => self.contains(id) && p == self.record(id).chunk,
                None => !self.contains(id),
            },
    {
        match self.get_record(id) {
            Some(rec) => Some(rec.chunk),
            None => None,
        }
    }

    /// How many entities exist.
    pub fn entity_count(&self) -> (n: usize)
        ensures
            n == self.records@.len(),
    {
        self.records.len()
    }
}

} // verus!
