//! The append-only ingest buffer.
//!
//! Incoming position and rotation updates are staged here, each stamped with
//! a fresh strictly increasing sequence number, and applied to canonical
//! state only by the periodic reconciliation jobs. Submitting never mutates
//! canonical state.

use vstd::prelude::*;
use crate::ids::EntityId;

verus! {

/// A buffered position update, write-once and deleted when consumed.
#[derive(Clone, Copy, Debug, PartialEq, Eq, Structural)]
pub struct IncomingPositionUpdate {
    /// Monotonically increasing arrival sequence number.
    pub seq: u64,
    pub entity_id: EntityId,
    pub x: i32,
    pub y: i32,
    pub z: i32,
    pub created_at: u64,
}

/// A buffered rotation update, write-once and deleted when consumed.
#[derive(Clone, Copy, Debug, PartialEq, Eq, Structural)]
pub struct IncomingRotationUpdate {
    /// Monotonically increasing arrival sequence number.
    pub seq: u64,
    pub entity_id: EntityId,
    pub rot_x: i16,
    pub rot_y: i16,
    pub rot_z: i16,
    pub created_at: u64,
}

/// Sequence numbers grow strictly along the buffer.
pub open spec fn pos_seqs_increasing(s: Seq<IncomingPositionUpdate>) -> bool {
    forall|i: int, j: int| 0 <= i < j < s.len() ==> s[i].seq < s[j].seq
}

/// Sequence numbers grow strictly along the buffer.
pub open spec fn rot_seqs_increasing(s: Seq<IncomingRotationUpdate>) -> bool {
    forall|i: int, j: int| 0 <= i < j < s.len() ==> s[i].seq < s[j].seq
}

/// Some buffered position update references entity `id`.
pub open spec fn has_pos_update(s: Seq<IncomingPositionUpdate>, id: EntityId) -> bool {
    exists|i: int| 0 <= i < s.len() && (#[trigger] s[i]).entity_id == id
}

/// Some buffered rotation update references entity `id`.
pub open spec fn has_rot_update(s: Seq<IncomingRotationUpdate>, id: EntityId) -> bool {
    exists|i: int| 0 <= i < s.len() && (#[trigger] s[i]).entity_id == id
}

/// The buffered position update for entity `id` that arrived last.
pub open spec fn last_pos_update(s: Seq<IncomingPositionUpdate>, id: EntityId) -> IncomingPositionUpdate
    decreases s.len(),
{
    if s.len() == 0 {
        arbitrary()
    } else if s.last().entity_id == id {
        s.last()
    } else {
        last_pos_update(s.drop_last(), id)
    }
}

/// The buffered rotation update for entity `id` that arrived last.
pub open spec fn last_rot_update(s: Seq<IncomingRotationUpdate>, id: EntityId) -> IncomingRotationUpdate
    decreases s.len(),
{
    if s.len() == 0 {
        arbitrary()
    } else if s.last().entity_id == id {
        s.last()
    } else {
        last_rot_update(s.drop_last(), id)
    }
}

/// The buffer with the position updates for entity `id` removed.
pub open spec fn pos_without(s: Seq<IncomingPositionUpdate>, id: EntityId) -> Seq<IncomingPositionUpdate>
    decreases s.len(),
{
    if s.len() == 0 {
        Seq::empty()
    } else if s.last().entity_id == id {
        pos_without(s.drop_last(), id)
    } else {
        pos_without(s.drop_last(), id).push(s.last())
    }
}

/// The buffer with the rotation updates for entity `id` removed.
pub open spec fn rot_without(s: Seq<IncomingRotationUpdate>, id: EntityId) -> Seq<IncomingRotationUpdate>
    decreases s.len(),
{
    if s.len() == 0 {
        Seq::empty()
    } else if s.last().entity_id == id {
        rot_without(s.drop_last(), id)
    } else {
        rot_without(s.drop_last(), id).push(s.last())
    }
}

/// The last-arrived update is also the one with the highest sequence
/// number: last-writer-wins by arrival order agrees with max-sequence
/// selection.
pub proof fn lemma_last_pos_update_is_latest(s: Seq<IncomingPositionUpdate>, id: EntityId)
    requires
        pos_seqs_increasing(s),
        has_pos_update(s, id),
    ensures
        last_pos_update(s, id).entity_id == id,
        exists|i: int| 0 <= i < s.len() && s[i] == last_pos_update(s, id),
        forall|k: int| 0 <= k < s.len() && (#[trigger] s[k]).entity_id == id
            ==> s[k].seq <= last_pos_update(s, id).seq,
    decreases s.len(),
{
    if s.last().entity_id == id {
        assert(s[s.len() - 1] == last_pos_update(s, id));
        assert forall|k: int| 0 <= k < s.len() && (#[trigger] s[k]).entity_id == id
            implies s[k].seq <= last_pos_update(s, id).seq by {
            if k < s.len() - 1 {
                assert(s[k].seq < s[s.len() - 1].seq);
            }
        }
    } else {
        let t = s.drop_last();
        let w = choose|i: int| 0 <= i < s.len() && (#[trigger] s[i]).entity_id == id;
        assert(w < s.len() - 1);
        assert(t[w] == s[w]);
        assert(has_pos_update(t, id));
        lemma_last_pos_update_is_latest(t, id);
        let i = choose|i: int| 0 <= i < t.len() && t[i] == last_pos_update(t, id);
        assert(s[i] == t[i]);
        assert forall|k: int| 0 <= k < s.len() && (#[trigger] s[k]).entity_id == id
            implies s[k].seq <= last_pos_update(s, id).seq by {
            assert(k < s.len() - 1);
            assert(t[k] == s[k]);
        }
    }
}

/// Rotation analogue of `lemma_last_pos_update_is_latest`.
pub proof fn lemma_last_rot_update_is_latest(s: Seq<IncomingRotationUpdate>, id: EntityId)
    requires
        rot_seqs_increasing(s),
        has_rot_update(s, id),
    ensures
        last_rot_update(s, id).entity_id == id,
        exists|i: int| 0 <= i < s.len() && s[i] == last_rot_update(s, id),
        forall|k: int| 0 <= k < s.len() && (#[trigger] s[k]).entity_id == id
            ==> s[k].seq <= last_rot_update(s, id).seq,
    decreases s.len(),
{
    if s.last().entity_id == id {
        assert(s[s.len() - 1] == last_rot_update(s, id));
        assert forall|k: int| 0 <= k < s.len() && (#[trigger] s[k]).entity_id == id
            implies s[k].seq <= last_rot_update(s, id).seq by {
            if k < s.len() - 1 {
                assert(s[k].seq < s[s.len() - 1].seq);
            }
        }
    } else {
        let t = s.drop_last();
        let w = choose|i: int| 0 <= i < s.len() && (#[trigger] s[i]).entity_id == id;
        assert(w < s.len() - 1);
        assert(t[w] == s[w]);
        assert(has_rot_update(t, id));
        lemma_last_rot_update_is_latest(t, id);
        let i = choose|i: int| 0 <= i < t.len() && t[i] == last_rot_update(t, id);
        assert(s[i] == t[i]);
        assert forall|k: int| 0 <= k < s.len() && (#[trigger] s[k]).entity_id == id
            implies s[k].seq <= last_rot_update(s, id).seq by {
            assert(k < s.len() - 1);
            assert(t[k] == s[k]);
        }
    }
}

/// The staging tables for incoming movement updates.
pub struct IngestBuffer {
    pub position_updates: Vec<IncomingPositionUpdate>,
    pub rotation_updates: Vec<IncomingRotationUpdate>,
    /// Next sequence number handed to a position update; starts at 1.
    pub next_position_seq: u64,
    /// Next sequence number handed to a rotation update; starts at 1.
    pub next_rotation_seq: u64,
}

impl IngestBuffer {
    /// Buffered sequence numbers are strictly increasing and below the next
    /// fresh sequence number.
    pub open spec fn wf(self) -> bool {
        &&& pos_seqs_increasing(self.position_updates@)
        &&& rot_seqs_increasing(self.rotation_updates@)
        &&& forall|i: int| 0 <= i < self.position_updates@.len()
                ==> (#[trigger] self.position_updates@[i]).seq < self.next_position_seq
        &&& forall|i: int| 0 <= i < self.rotation_updates@.len()
                ==> (#[trigger] self.rotation_updates@[i]).seq < self.next_rotation_seq
        &&& self.next_position_seq >= 1
        &&& self.next_rotation_seq >= 1
    }

    /// An empty buffer.
    pub fn new() -> (r: IngestBuffer)
        ensures
            r.wf(),
            r.position_updates@.len() == 0,
            r.rotation_updates@.len() == 0,
            r.next_position_seq == 1u64,
            r.next_rotation_seq == 1u64,
    {
        IngestBuffer {
            position_updates: Vec::new(),
            rotation_updates: Vec::new(),
            next_position_seq: 1,
            next_rotation_seq: 1,
        }
    }

    /// Appends a position update under a fresh sequence number.
    pub fn append_position(&mut self, entity_id: EntityId, x: i32, y: i32, z: i32, now: u64)
        requires
            old(self).wf(),
            old(self).next_position_seq < u64::MAX,
        ensures
            final(self).wf(),
            final(self).position_updates@ == old(self).position_updates@.push(
                IncomingPositionUpdate {
                    seq: old(self).next_position_seq,
                    entity_id,
                    x,
                    y,
                    z,
                    created_at: now,
                },
            ),
            final(self).next_position_seq == old(self).next_position_seq + 1,
            final(self).rotation_updates == old(self).rotation_updates,
            final(self).next_rotation_seq == old(self).next_rotation_seq,
    {
        let upd = IncomingPositionUpdate {
            seq: self.next_position_seq,
            entity_id,
            x,
            y,
            z,
            created_at: now,
        };
        self.position_updates.push(upd);
        self.next_position_seq = self.next_position_seq + 1;
    }

    /// Appends a rotation update under a fresh sequence number.
    pub fn append_rotation(&mut self, entity_id: EntityId, rot_x: i16, rot_y: i16, rot_z: i16, now: u64)
        requires
            old(self).wf(),
            old(self).next_rotation_seq < u64::MAX,
        ensures
            final(self).wf(),
            final(self).rotation_updates@ == old(self).rotation_updates@.push(
                IncomingRotationUpdate {
                    seq: old(self).next_rotation_seq,
                    entity_id,
                    rot_x,
                    rot_y,
                    rot_z,
                    created_at: now,
                },
            ),
            final(self).next_rotation_seq == old(self).next_rotation_seq + 1,
            final(self).position_updates == old(self).position_updates,
            final(self).next_position_seq == old(self).next_position_seq,
    {
        let upd = IncomingRotationUpdate {
            seq: self.next_rotation_seq,
            entity_id,
            rot_x,
            rot_y,
            rot_z,
            created_at: now,
        };
        self.rotation_updates.push(upd);
        self.next_rotation_seq = self.next_rotation_seq + 1;
    }

    /// Removes every buffered update, of either kind, that references
    /// entity `id`; part of the cascade when an entity is deleted.
    pub fn purge_entity(&mut self, id: EntityId)
        requires
            old(self).wf(),
        ensures
            final(self).wf(),
            final(self).position_updates@ == pos_without(old(self).position_updates@, id),
            final(self).rotation_updates@ == rot_without(old(self).rotation_updates@, id),
            final(self).next_position_seq == old(self).next_position_seq,
            final(self).next_rotation_seq == old(self).next_rotation_seq,
            !has_pos_update(final(self).position_updates@, id),
            !has_rot_update(final(self).rotation_updates@, id),
    {
        let mut kept_pos: Vec<IncomingPositionUpdate> = Vec::new();
        let n = self.position_updates.len();
        let mut i: usize = 0;
        while i < n
            invariant
                i <= n,
                n == self.position_updates@.len(),
                self.position_updates == old(self).position_updates,
                kept_pos@ == pos_without(self.position_updates@.subrange(0, i as int), id),
            decreases n - i,
        {
            let upd = self.position_updates[i];
            proof {
                let pre = self.position_updates@.subrange(0, i as int);
                let cur = self.position_updates@.subrange(0, i as int + 1);
                assert(cur.drop_last() =~= pre);
                assert(cur.last() == self.position_updates@[i as int]);
            }
            if upd.entity_id.0 != id.0 {
                kept_pos.push(upd);
            }
            i = i + 1;
        }
        proof {
            assert(self.position_updates@.subrange(0, n as int) =~= self.position_updates@);
        }
        self.position_updates = kept_pos;

        let mut kept_rot: Vec<IncomingRotationUpdate> = Vec::new();
        let m = self.rotation_updates.len();
        let mut j: usize = 0;
        while j < m
            invariant
                j <= m,
                m == self.rotation_updates@.len(),
                self.rotation_updates == old(self).rotation_updates,
                kept_rot@ == rot_without(self.rotation_updates@.subrange(0, j as int), id),
            decreases m - j,
        {
            let upd = self.rotation_updates[j];
            proof {
                let pre = self.rotation_updates@.subrange(0, j as int);
                let cur = self.rotation_updates@.subrange(0, j as int + 1);
                assert(cur.drop_last() =~= pre);
                assert(cur.last() == self.rotation_updates@[j as int]);
            }
            if upd.entity_id.0 != id.0 {
                kept_rot.push(upd);
            }
            j = j + 1;
        }
        proof {
            assert(self.rotation_updates@.subrange(0, m as int) =~= self.rotation_updates@);
        }
        self.rotation_updates = kept_rot;

        proof {
            lemma_pos_without_ok(old(self).position_updates@, id);
            lemma_rot_without_ok(old(self).rotation_updates@, id);
        }
    }

    /// How many position updates are buffered for entity `id`.
    pub fn buffered_position_count(&self, id: EntityId) -> (n: usize)
        ensures
            n == pos_count_for(self.position_updates@, id),
    {
        let len = self.position_updates.len();
        let mut n: usize = 0;
        let mut i: usize = 0;
        while i < len
            invariant
                i <= len,
                len == self.position_updates@.len(),
                n == pos_count_for(self.position_updates@.subrange(0, i as int), id),
                n <= i,
            decreases len - i,
        {
            proof {
                let pre = self.position_updates@.subrange(0, i as int);
                let cur = self.position_updates@.subrange(0, i as int + 1);
                assert(cur.drop_last() =~= pre);
                assert(cur.last() == self.position_updates@[i as int]);
            }
            if self.position_updates[i].entity_id.0 == id.0 {
                n = n + 1;
            }
            i = i + 1;
        }
        proof {
            assert(self.position_updates@.subrange(0, len as int) =~= self.position_updates@);
        }
        n
    }

    /// How many rotation updates are buffered for entity `id`.
    pub fn buffered_rotation_count(&self, id: EntityId) -> (n: usize)
        ensures
            n == rot_count_for(self.rotation_updates@, id),
    {
        let len = self.rotation_updates.len();
        let mut n: usize = 0;
        let mut i: usize = 0;
        while i < len
            invariant
                i <= len,
                len == self.rotation_updates@.len(),
                n == rot_count_for(self.rotation_updates@.subrange(0, i as int), id),
                n <= i,
            decreases len - i,
        {
            proof {
                let pre = self.rotation_updates@.subrange(0, i as int);
                let cur = self.rotation_updates@.subrange(0, i as int + 1);
                assert(cur.drop_last() =~= pre);
                assert(cur.last() == self.rotation_updates@[i as int]);
            }
            if self.rotation_updates[i].entity_id.0 == id.0 {
                n = n + 1;
            }
            i = i + 1;
        }
        proof {
            assert(self.rotation_updates@.subrange(0, len as int) =~= self.rotation_updates@);
        }
        n
    }
}

/// How many position updates in `s` reference entity `id`.
pub open spec fn pos_count_for(s: Seq<IncomingPositionUpdate>, id: EntityId) -> nat
    decreases s.len(),
{
    if s.len() == 0 {
        0
    } else {
        pos_count_for(s.drop_last(), id) + (if s.last().entity_id == id { 1nat } else { 0nat })
    }
}

/// How many rotation updates in `s` reference entity `id`.
pub open spec fn rot_count_for(s: Seq<IncomingRotationUpdate>, id: EntityId) -> nat
    decreases s.len(),
{
    if s.len() == 0 {
        0
    } else {
        rot_count_for(s.drop_last(), id) + (if s.last().entity_id == id { 1nat } else { 0nat })
    }
}

/// What `pos_without` keeps: the updates of other entities, in order, and
/// nothing of `id`.
pub proof fn lemma_pos_without_ok(s: Seq<IncomingPositionUpdate>, id: EntityId)
    ensures
        !has_pos_update(pos_without(s, id), id),
        pos_seqs_increasing(s) ==> pos_seqs_increasing(pos_without(s, id)),
        forall|k: int| 0 <= k < pos_without(s, id).len()
            ==> exists|i: int| 0 <= i < s.len() && s[i] == #[trigger] pos_without(s, id)[k],
    decreases s.len(),
{
    if s.len() > 0 {
        let t = s.drop_last();
        assert(pos_seqs_increasing(s) ==> pos_seqs_increasing(t));
        lemma_pos_without_ok(t, id);
        let w = pos_without(s, id);
        let wt = pos_without(t, id);
        assert forall|k: int| 0 <= k < w.len()
            implies exists|i: int| 0 <= i < s.len() && s[i] == #[trigger] w[k] by {
            if s.last().entity_id == id {
                let i = choose|i: int| 0 <= i < t.len() && t[i] == wt[k];
                assert(s[i] == w[k]);
            } else {
                if k < w.len() - 1 {
                    let i = choose|i: int| 0 <= i < t.len() && t[i] == wt[k];
                    assert(s[i] == w[k]);
                } else {
                    assert(s[s.len() - 1] == w[k]);
                }
            }
        }
        if pos_seqs_increasing(s) && s.last().entity_id != id {
            assert forall|i: int, j: int| 0 <= i < j < w.len() implies w[i].seq < w[j].seq by {
                if j < w.len() - 1 {
                    assert(wt[i].seq < wt[j].seq);
                } else {
                    let a = choose|a: int| 0 <= a < t.len() && t[a] == wt[i];
                    assert(s[a].seq < s.last().seq);
                }
            }
        }
    }
}

/// Rotation analogue of `lemma_pos_without_ok`.
pub proof fn lemma_rot_without_ok(s: Seq<IncomingRotationUpdate>, id: EntityId)
    ensures
        !has_rot_update(rot_without(s, id), id),
        rot_seqs_increasing(s) ==> rot_seqs_increasing(rot_without(s, id)),
        forall|k: int| 0 <= k < rot_without(s, id).len()
            ==> exists|i: int| 0 <= i < s.len() && s[i] == #[trigger] rot_without(s, id)[k],
    decreases s.len(),
{
    if s.len() > 0 {
        let t = s.drop_last();
        assert(rot_seqs_increasing(s) ==> rot_seqs_increasing(t));
        lemma_rot_without_ok(t, id);
        let w = rot_without(s, id);
        let wt = rot_without(t, id);
        assert forall|k: int| 0 <= k < w.len()
            implies exists|i: int| 0 <= i < s.len() && s[i] == #[trigger] w[k] by {
            if s.last().entity_id == id {
                let i = choose|i: int| 0 <= i < t.len() && t[i] == wt[k];
                assert(s[i] == w[k]);
            } else {
                if k < w.len() - 1 {
                    let i = choose|i: int| 0 <= i < t.len() && t[i] == wt[k];
                    assert(s[i] == w[k]);
                } else {
                    assert(s[s.len() - 1] == w[k]);
                }
            }
        }
        if rot_seqs_increasing(s) && s.last().entity_id != id {
            assert forall|i: int, j: int| 0 <= i < j < w.len() implies w[i].seq < w[j].seq by {
                if j < w.len() - 1 {
                    assert(wt[i].seq < wt[j].seq);
                } else {
                    let a = choose|a: int| 0 <= a < t.len() && t[a] == wt[i];
                    assert(s[a].seq < s.last().seq);
                }
            }
        }
    }
}

} // verus!
