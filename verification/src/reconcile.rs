//! The reconciliation jobs.
//!
//! Two independent periodic jobs drain the ingest buffer: each groups the
//! buffered updates by entity, keeps only the one with the highest sequence
//! number per entity (last-writer-wins by arrival order), applies it to the
//! canonical record when any field differs, and empties the buffer. An
//! update referencing an entity that was deleted mid-flight is dropped
//! without aborting the tick, and the tick reports exactly the entities
//! whose canonical record actually changed, so that downstream subscribers
//! are notified once per actual change and never for a no-op write.

use vstd::prelude::*;
use crate::ids::EntityId;
use crate::entity::{EntityPosition, EntityRotation, EntityRecord};
use crate::store::{EntityStore, contains_id, record_of, idx_of, ids_unique, lemma_idx_of_at};
use crate::buffer::{
    IngestBuffer, IncomingPositionUpdate, IncomingRotationUpdate,
    has_pos_update, has_rot_update, last_pos_update, last_rot_update,
    lemma_last_pos_update_is_latest, lemma_last_rot_update_is_latest,
};

verus! {

/// The canonical position row that applying update `u` to entity `id`
/// produces.
pub open spec fn applied_pos(id: EntityId, u: IncomingPositionUpdate) -> EntityPosition {
    EntityPosition { id, x: u.x, y: u.y, z: u.z }
}

/// The canonical rotation row that applying update `u` to entity `id`
/// produces.
pub open spec fn applied_rot(id: EntityId, u: IncomingRotationUpdate) -> EntityRotation {
    EntityRotation { id, rot_x: u.rot_x, rot_y: u.rot_y, rot_z: u.rot_z }
}

/// Whether the last buffered position update for `r`'s entity differs from
/// its canonical position, i.e. whether applying it is an effective write.
pub open spec fn pos_write_effective(r: EntityRecord, buf: Seq<IncomingPositionUpdate>) -> bool {
    &&& has_pos_update(buf, r.entity.id)
    &&& r.position != applied_pos(r.entity.id, last_pos_update(buf, r.entity.id))
}

/// Whether the last buffered rotation update for `r`'s entity differs from
/// its canonical rotation.
pub open spec fn rot_write_effective(r: EntityRecord, buf: Seq<IncomingRotationUpdate>) -> bool {
    &&& has_rot_update(buf, r.entity.id)
    &&& r.rotation != applied_rot(r.entity.id, last_rot_update(buf, r.entity.id))
}

/// Row-for-row outcome of a position tick: every entity with at least one
/// buffered update carries the coordinates of its last buffered update, all
/// other rows and all non-position state are untouched.
pub open spec fn pos_rows_reconciled(
    pre: Seq<EntityRecord>,
    post: Seq<EntityRecord>,
    buf: Seq<IncomingPositionUpdate>,
) -> bool {
    &&& post.len() == pre.len()
    &&& forall|i: int| 0 <= i < pre.len() ==> (#[trigger] post[i]).entity == pre[i].entity
    &&& forall|i: int| 0 <= i < pre.len() ==> (#[trigger] post[i]).rotation == pre[i].rotation
    &&& forall|i: int| 0 <= i < pre.len() ==> (#[trigger] post[i]).chunk == pre[i].chunk
    &&& forall|i: int| 0 <= i < pre.len() ==> (#[trigger] post[i]).position == (
            if has_pos_update(buf, pre[i].entity.id) {
                applied_pos(pre[i].entity.id, last_pos_update(buf, pre[i].entity.id))
            } else {
                pre[i].position
            })
}

/// Row-for-row outcome of a rotation tick.
pub open spec fn rot_rows_reconciled(
    pre: Seq<EntityRecord>,
    post: Seq<EntityRecord>,
    buf: Seq<IncomingRotationUpdate>,
) -> bool {
    &&& post.len() == pre.len()
    &&& forall|i: int| 0 <= i < pre.len() ==> (#[trigger] post[i]).entity == pre[i].entity
    &&& forall|i: int| 0 <= i < pre.len() ==> (#[trigger] post[i]).position == pre[i].position
    &&& forall|i: int| 0 <= i < pre.len() ==> (#[trigger] post[i]).chunk == pre[i].chunk
    &&& forall|i: int| 0 <= i < pre.len() ==> (#[trigger] post[i]).rotation == (
            if has_rot_update(buf, pre[i].entity.id) {
                applied_rot(pre[i].entity.id, last_rot_update(buf, pre[i].entity.id))
            } else {
                pre[i].rotation
            })
}

/// The full contract of a position tick, relating the store and buffer
/// before and after and the list of entities whose canonical record
/// changed.
pub open spec fn position_tick_post(
    store0: EntityStore,
    buf0: IngestBuffer,
    store1: EntityStore,
    buf1: IngestBuffer,
    events: Seq<EntityId>,
) -> bool {
    &&& store1.next_id == store0.next_id
    &&& pos_rows_reconciled(store0.records@, store1.records@, buf0.position_updates@)
    &&& buf1.position_updates@.len() == 0
    &&& buf1.rotation_updates == buf0.rotation_updates
    &&& buf1.next_position_seq == buf0.next_position_seq
    &&& buf1.next_rotation_seq == buf0.next_rotation_seq
    &&& forall|id: EntityId| #[trigger] events.contains(id)
            <==> contains_id(store0.records@, id)
                && pos_write_effective(record_of(store0.records@, id), buf0.position_updates@)
    &&& forall|a: int, b: int| 0 <= a < b < events.len() ==> events[a] != events[b]
}

/// The full contract of a rotation tick.
pub open spec fn rotation_tick_post(
    store0: EntityStore,
    buf0: IngestBuffer,
    store1: EntityStore,
    buf1: IngestBuffer,
    events: Seq<EntityId>,
) -> bool {
    &&& store1.next_id == store0.next_id
    &&& rot_rows_reconciled(store0.records@, store1.records@, buf0.rotation_updates@)
    &&& buf1.rotation_updates@.len() == 0
    &&& buf1.position_updates == buf0.position_updates
    &&& buf1.next_position_seq == buf0.next_position_seq
    &&& buf1.next_rotation_seq == buf0.next_rotation_seq
    &&& forall|id: EntityId| #[trigger] events.contains(id)
            <==> contains_id(store0.records@, id)
                && rot_write_effective(record_of(store0.records@, id), buf0.rotation_updates@)
    &&& forall|a: int, b: int| 0 <= a < b < events.len() ==> events[a] != events[b]
}

/// Appending an update moves the last-update-per-entity map pointwise.
proof fn lemma_pos_last_push(s: Seq<IncomingPositionUpdate>, u: IncomingPositionUpdate)
    ensures
        forall|id: EntityId| #![trigger has_pos_update(s.push(u), id)]
            has_pos_update(s.push(u), id) <==> (u.entity_id == id || has_pos_update(s, id)),
        forall|id: EntityId| #![trigger last_pos_update(s.push(u), id)]
            last_pos_update(s.push(u), id)
                == if u.entity_id == id { u } else { last_pos_update(s, id) },
{
    assert(s.push(u).drop_last() =~= s);
    assert(s.push(u).last() == u);
    assert forall|id: EntityId| #![trigger has_pos_update(s.push(u), id)]
        has_pos_update(s.push(u), id) <==> (u.entity_id == id || has_pos_update(s, id)) by {
        if has_pos_update(s.push(u), id) {
            let i = choose|i: int|
                0 <= i < s.push(u).len() && (#[trigger] s.push(u)[i]).entity_id == id;
            if i < s.len() {
                assert(s[i] == s.push(u)[i]);
                assert(has_pos_update(s, id));
            }
        }
        if has_pos_update(s, id) {
            let i = choose|i: int| 0 <= i < s.len() && (#[trigger] s[i]).entity_id == id;
            assert(s.push(u)[i] == s[i]);
        }
        if u.entity_id == id {
            assert(s.push(u)[s.len() as int].entity_id == id);
        }
    }
}

/// Rotation analogue of `lemma_pos_last_push`.
proof fn lemma_rot_last_push(s: Seq<IncomingRotationUpdate>, u: IncomingRotationUpdate)
    ensures
        forall|id: EntityId| #![trigger has_rot_update(s.push(u), id)]
            has_rot_update(s.push(u), id) <==> (u.entity_id == id || has_rot_update(s, id)),
        forall|id: EntityId| #![trigger last_rot_update(s.push(u), id)]
            last_rot_update(s.push(u), id)
                == if u.entity_id == id { u } else { last_rot_update(s, id) },
{
    assert(s.push(u).drop_last() =~= s);
    assert(s.push(u).last() == u);
    assert forall|id: EntityId| #![trigger has_rot_update(s.push(u), id)]
        has_rot_update(s.push(u), id) <==> (u.entity_id == id || has_rot_update(s, id)) by {
        if has_rot_update(s.push(u), id) {
            let i = choose|i: int|
                0 <= i < s.push(u).len() && (#[trigger] s.push(u)[i]).entity_id == id;
            if i < s.len() {
                assert(s[i] == s.push(u)[i]);
                assert(has_rot_update(s, id));
            }
        }
        if has_rot_update(s, id) {
            let i = choose|i: int| 0 <= i < s.len() && (#[trigger] s[i]).entity_id == id;
            assert(s.push(u)[i] == s[i]);
        }
        if u.entity_id == id {
            assert(s.push(u)[s.len() as int].entity_id == id);
        }
    }
}

/// Finds the buffered winner already recorded for entity `id`, if any.
fn find_pos_winner(winners: &Vec<IncomingPositionUpdate>, id: EntityId) -> (r: Option<usize>)
    ensures
        match r {
            Some(j) => j < winners@.len() && winners@[j as int].entity_id == id,
            None => !has_pos_update(winners@, id),
        },
{
    let n = winners.len();
    let mut i: usize = 0;
    while i < n
        invariant
            i <= n,
            n == winners@.len(),
            forall|k: int| 0 <= k < i ==> (#[trigger] winners@[k]).entity_id != id,
        decreases n - i,
    {
        if winners[i].entity_id.0 == id.0 {
            return Some(i);
        }
        i = i + 1;
    }
    None
}

/// Rotation analogue of `find_pos_winner`.
fn find_rot_winner(winners: &Vec<IncomingRotationUpdate>, id: EntityId) -> (r: Option<usize>)
    ensures
        match r {
            Some(j) => j < winners@.len() && winners@[j as int].entity_id == id,
            None => !has_rot_update(winners@, id),
        },
{
    let n = winners.len();
    let mut i: usize = 0;
    while i < n
        invariant
            i <= n,
            n == winners@.len(),
            forall|k: int| 0 <= k < i ==> (#[trigger] winners@[k]).entity_id != id,
        decreases n - i,
    {
        if winners[i].entity_id.0 == id.0 {
            return Some(i);
        }
        i = i + 1;
    }
    None
}

/// Groups the buffered position updates by entity, keeping per entity only
/// the update that arrived last.
#[verifier::loop_isolation(false)]
#[verifier::rlimit(30)]
fn collect_pos_winners(buf: &Vec<IncomingPositionUpdate>) -> (winners: Vec<IncomingPositionUpdate>)
    ensures
        forall|id: EntityId| #![trigger has_pos_update(winners@, id)]
            has_pos_update(winners@, id) <==> has_pos_update(buf@, id),
        forall|k: int| 0 <= k < winners@.len()
            ==> (#[trigger] winners@[k]) == last_pos_update(buf@, winners@[k].entity_id),
        forall|k: int, l: int| 0 <= k < l < winners@.len()
            ==> winners@[k].entity_id != winners@[l].entity_id,
{
    let mut winners: Vec<IncomingPositionUpdate> = Vec::new();
    let n = buf.len();
    let mut i: usize = 0;
    while i < n
        invariant
            i <= n,
            forall|id: EntityId| #![trigger has_pos_update(winners@, id)]
                has_pos_update(winners@, id) <==> has_pos_update(buf@.subrange(0, i as int), id),
            forall|k: int| 0 <= k < winners@.len()
                ==> (#[trigger] winners@[k])
                    == last_pos_update(buf@.subrange(0, i as int), winners@[k].entity_id),
            forall|k: int, l: int| 0 <= k < l < winners@.len()
                ==> winners@[k].entity_id != winners@[l].entity_id,
        decreases n - i,
    {
        let ghost w0 = winners@;
        let ghost p = buf@.subrange(0, i as int);
        let u = buf[i];
        proof {
            assert(buf@.subrange(0, i as int + 1) =~= p.push(u));
            lemma_pos_last_push(p, u);
        }
        match find_pos_winner(&winners, u.entity_id) {
            Some(j) => {
                winners[j] = u;
                proof {
                    let w1 = winners@;
                    assert(w1 == w0.update(j as int, u));
                    assert forall|id: EntityId| #![trigger has_pos_update(w1, id)]
                        has_pos_update(w1, id) <==> has_pos_update(p.push(u), id) by {
                        if has_pos_update(w1, id) {
                            let k = choose|k: int|
                                0 <= k < w1.len() && (#[trigger] w1[k]).entity_id == id;
                            if k != j {
                                assert(w0[k] == w1[k]);
                                assert(has_pos_update(w0, id));
                            }
                        }
                        if has_pos_update(p.push(u), id) {
                            if u.entity_id == id {
                                assert(w1[j as int].entity_id == id);
                            } else {
                                assert(has_pos_update(w0, id));
                                let k = choose|k: int|
                                    0 <= k < w0.len() && (#[trigger] w0[k]).entity_id == id;
                                assert(k != j);
                                assert(w1[k].entity_id == id);
                            }
                        }
                    }
                    assert forall|k: int| 0 <= k < w1.len()
                        implies (#[trigger] w1[k])
                            == last_pos_update(p.push(u), w1[k].entity_id) by {
                        if k != j {
                            assert(w0[k] == w1[k]);
                            assert(w0[k].entity_id != w0[j as int].entity_id);
                        }
                    }
                }
            }
            None => {
                winners.push(u);
                proof {
                    let w1 = winners@;
                    lemma_pos_last_push(w0, u);
                    assert forall|k: int| 0 <= k < w1.len()
                        implies (#[trigger] w1[k])
                            == last_pos_update(p.push(u), w1[k].entity_id) by {
                        if k < w0.len() {
                            assert(w0[k] == w1[k]);
                            assert(w0[k].entity_id != u.entity_id);
                        } else {
                            assert(w1[k] == u);
                        }
                    }
                    assert forall|k: int, l: int| 0 <= k < l < w1.len()
                        implies w1[k].entity_id != w1[l].entity_id by {
                        if l == w1.len() - 1 {
                            assert(w0[k] == w1[k]);
                            assert(!has_pos_update(w0, u.entity_id));
                        }
                    }
                }
            }
        }
        i = i + 1;
    }
    proof {
        assert(buf@.subrange(0, n as int) =~= buf@);
    }
    winners
}

/// Rotation analogue of `collect_pos_winners`.
#[verifier::loop_isolation(false)]
#[verifier::rlimit(30)]
fn collect_rot_winners(buf: &Vec<IncomingRotationUpdate>) -> (winners: Vec<IncomingRotationUpdate>)
    ensures
        forall|id: EntityId| #![trigger has_rot_update(winners@, id)]
            has_rot_update(winners@, id) <==> has_rot_update(buf@, id),
        forall|k: int| 0 <= k < winners@.len()
            ==> (#[trigger] winners@[k]) == last_rot_update(buf@, winners@[k].entity_id),
        forall|k: int, l: int| 0 <= k < l < winners@.len()
            ==> winners@[k].entity_id != winners@[l].entity_id,
{
    let mut winners: Vec<IncomingRotationUpdate> = Vec::new();
    let n = buf.len();
    let mut i: usize = 0;
    while i < n
        invariant
            i <= n,
            forall|id: EntityId| #![trigger has_rot_update(winners@, id)]
                has_rot_update(winners@, id) <==> has_rot_update(buf@.subrange(0, i as int), id),
            forall|k: int| 0 <= k < winners@.len()
                ==> (#[trigger] winners@[k])
                    == last_rot_update(buf@.subrange(0, i as int), winners@[k].entity_id),
            forall|k: int, l: int| 0 <= k < l < winners@.len()
                ==> winners@[k].entity_id != winners@[l].entity_id,
        decreases n - i,
    {
        let ghost w0 = winners@;
        let ghost p = buf@.subrange(0, i as int);
        let u = buf[i];
        proof {
            assert(buf@.subrange(0, i as int + 1) =~= p.push(u));
            lemma_rot_last_push(p, u);
        }
        match find_rot_winner(&winners, u.entity_id) {
            Some(j) => {
                winners[j] = u;
                proof {
                    let w1 = winners@;
                    assert(w1 == w0.update(j as int, u));
                    assert forall|id: EntityId| #![trigger has_rot_update(w1, id)]
                        has_rot_update(w1, id) <==> has_rot_update(p.push(u), id) by {
                        if has_rot_update(w1, id) {
                            let k = choose|k: int|
                                0 <= k < w1.len() && (#[trigger] w1[k]).entity_id == id;
                            if k != j {
                                assert(w0[k] == w1[k]);
                                assert(has_rot_update(w0, id));
                            }
                        }
                        if has_rot_update(p.push(u), id) {
                            if u.entity_id == id {
                                assert(w1[j as int].entity_id == id);
                            } else {
                                assert(has_rot_update(w0, id));
                                let k = choose|k: int|
                                    0 <= k < w0.len() && (#[trigger] w0[k]).entity_id == id;
                                assert(k != j);
                                assert(w1[k].entity_id == id);
                            }
                        }
                    }
                    assert forall|k: int| 0 <= k < w1.len()
                        implies (#[trigger] w1[k])
                            == last_rot_update(p.push(u), w1[k].entity_id) by {
                        if k != j {
                            assert(w0[k] == w1[k]);
                            assert(w0[k].entity_id != w0[j as int].entity_id);
                        }
                    }
                }
            }
            None => {
                winners.push(u);
                proof {
                    let w1 = winners@;
                    lemma_rot_last_push(w0, u);
                    assert forall|k: int| 0 <= k < w1.len()
                        implies (#[trigger] w1[k])
                            == last_rot_update(p.push(u), w1[k].entity_id) by {
                        if k < w0.len() {
                            assert(w0[k] == w1[k]);
                            assert(w0[k].entity_id != u.entity_id);
                        } else {
                            assert(w1[k] == u);
                        }
                    }
                    assert forall|k: int, l: int| 0 <= k < l < w1.len()
                        implies w1[k].entity_id != w1[l].entity_id by {
                        if l == w1.len() - 1 {
                            assert(w0[k] == w1[k]);
                            assert(!has_rot_update(w0, u.entity_id));
                        }
                    }
                }
            }
        }
        i = i + 1;
    }
    proof {
        assert(buf@.subrange(0, n as int) =~= buf@);
    }
    winners
}

/// One position tick: drains the position buffer, keeps only the
/// highest-sequence update per entity, writes each winner to the canonical
/// record when it differs, deletes all buffered position rows, and returns
/// the entities whose canonical position actually changed.
#[verifier::loop_isolation(false)]
#[verifier::rlimit(60)]
pub fn process_position_updates(store: &mut EntityStore, buffer: &mut IngestBuffer) -> (events: Vec<EntityId>)
    requires
        old(store).wf(),
        old(buffer).wf(),
    ensures
        final(store).wf(),
        final(buffer).wf(),
        position_tick_post(*old(store), *old(buffer), *final(store), *final(buffer), events@),
{
    let ghost buf0 = buffer.position_updates@;
    let ghost pre = store.records@;

    let winners = collect_pos_winners(&buffer.position_updates);

    // Apply each winner to the canonical record, skipping entities deleted
    // mid-flight and avoiding no-op writes.
    let mut events: Vec<EntityId> = Vec::new();
    let m = winners.len();
    let mut j: usize = 0;
    while j < m
        invariant
            j <= m,
            m == winners@.len(),
            store.next_id == old(store).next_id,
            store.records@.len() == pre.len(),
            forall|i2: int| 0 <= i2 < pre.len()
                ==> (#[trigger] store.records@[i2]).entity == pre[i2].entity,
            forall|i2: int| 0 <= i2 < pre.len()
                ==> (#[trigger] store.records@[i2]).rotation == pre[i2].rotation,
            forall|i2: int| 0 <= i2 < pre.len()
                ==> (#[trigger] store.records@[i2]).chunk == pre[i2].chunk,
            forall|i2: int| 0 <= i2 < pre.len()
                ==> (#[trigger] store.records@[i2]).position == (
                    if exists|k: int| 0 <= k < j && (#[trigger] winners@[k]).entity_id == pre[i2].entity.id {
                        applied_pos(pre[i2].entity.id, last_pos_update(buf0, pre[i2].entity.id))
                    } else {
                        pre[i2].position
                    }),
            forall|id: EntityId| #[trigger] events@.contains(id)
                <==> (exists|k: int| 0 <= k < j && (#[trigger] winners@[k]).entity_id == id)
                    && contains_id(pre, id)
                    && pos_write_effective(record_of(pre, id), buf0),
            forall|a: int, b: int| 0 <= a < b < events@.len() ==> events@[a] != events@[b],
            store.wf(),
        decreases m - j,
    {
        let u = winners[j];
        proof {
            assert(has_pos_update(winners@, u.entity_id));
            assert(u == last_pos_update(buf0, u.entity_id));
            assert(forall|k: int| 0 <= k < j ==> (#[trigger] winners@[k]).entity_id != u.entity_id);
        }
        match store.find_index(u.entity_id) {
            Some(idx) => {
                proof {
                    lemma_idx_of_at(pre, idx as int, u.entity_id);
                    lemma_idx_of_at(store.records@, idx as int, u.entity_id);
                    assert(store.records@[idx as int].position == pre[idx as int].position);
                }
                let r = store.records[idx];
                if r.position.x != u.x || r.position.y != u.y || r.position.z != u.z {
                    let nr = EntityRecord {
                        position: EntityPosition { id: r.entity.id, x: u.x, y: u.y, z: u.z },
                        ..r
                    };
                    let ghost ev0 = events@;
                    store.records[idx] = nr;
                    events.push(u.entity_id);
                    proof {
                        let ev1 = events@;
                        assert(ev1 == ev0.push(u.entity_id));
                        assert(record_of(pre, u.entity_id) == pre[idx as int]);
                        assert(pos_write_effective(record_of(pre, u.entity_id), buf0));
                        assert forall|id: EntityId| #[trigger] ev1.contains(id)
                            implies (exists|k: int|
                                0 <= k < j + 1 && (#[trigger] winners@[k]).entity_id == id)
                                && contains_id(pre, id)
                                && pos_write_effective(record_of(pre, id), buf0) by {
                            let ii = choose|ii: int| 0 <= ii < ev1.len() && ev1[ii] == id;
                            if ii < ev0.len() {
                                assert(ev0[ii] == id);
                                assert(ev0.contains(id));
                            } else {
                                assert(id == u.entity_id);
                                assert(winners@[j as int].entity_id == id);
                            }
                        }
                        assert forall|id: EntityId|
                            (exists|k: int|
                                0 <= k < j + 1 && (#[trigger] winners@[k]).entity_id == id)
                                && contains_id(pre, id)
                                && pos_write_effective(record_of(pre, id), buf0)
                            implies #[trigger] ev1.contains(id) by {
                            let k = choose|k: int|
                                0 <= k < j + 1 && (#[trigger] winners@[k]).entity_id == id;
                            if k < j {
                                assert(ev0.contains(id));
                                let ii = choose|ii: int| 0 <= ii < ev0.len() && ev0[ii] == id;
                                assert(ev1[ii] == id);
                            } else {
                                assert(ev1[ev1.len() - 1] == id);
                            }
                        }
                        assert forall|a: int, b: int| 0 <= a < b < ev1.len()
                            implies ev1[a] != ev1[b] by {
                            if b == ev1.len() - 1 {
                                assert(ev1[a] == ev0[a]);
                                if ev0[a] == u.entity_id {
                                    assert(ev0.contains(u.entity_id));
                                }
                            }
                        }
                    }
                } else {
                    proof {
                        assert(r.position.id == u.entity_id);
                        assert(r.position == applied_pos(u.entity_id, u));
                        assert(!pos_write_effective(record_of(pre, u.entity_id), buf0));
                    }
                }
            }
            None => {
                proof {
                    assert forall|i2: int| 0 <= i2 < pre.len()
                        implies (#[trigger] pre[i2]).entity.id != u.entity_id by {
                        assert(store.records@[i2].entity == pre[i2].entity);
                    }
                    assert(!contains_id(pre, u.entity_id));
                }
            }
        }
        proof {
            assert forall|i2: int| 0 <= i2 < pre.len()
                implies (#[trigger] store.records@[i2]).position == (
                    if exists|k: int|
                        0 <= k < j + 1 && (#[trigger] winners@[k]).entity_id == pre[i2].entity.id {
                        applied_pos(pre[i2].entity.id, last_pos_update(buf0, pre[i2].entity.id))
                    } else {
                        pre[i2].position
                    }) by {
                if pre[i2].entity.id == u.entity_id {
                    assert(winners@[j as int].entity_id == pre[i2].entity.id);
                } else {
                    if exists|k: int|
                        0 <= k < j + 1 && (#[trigger] winners@[k]).entity_id == pre[i2].entity.id {
                        let k = choose|k: int|
                            0 <= k < j + 1 && (#[trigger] winners@[k]).entity_id == pre[i2].entity.id;
                        assert(k < j);
                    }
                }
            }
        }
        j = j + 1;
    }

    buffer.position_updates.clear();

    proof {
        assert forall|id: EntityId| #[trigger] events@.contains(id)
            <==> contains_id(pre, id) && pos_write_effective(record_of(pre, id), buf0) by {
            if contains_id(pre, id) && pos_write_effective(record_of(pre, id), buf0) {
                assert(has_pos_update(buf0, id));
                assert(has_pos_update(winners@, id));
            }
        }
        assert forall|i2: int| 0 <= i2 < pre.len()
            implies (#[trigger] store.records@[i2]).position == (
                if has_pos_update(buf0, pre[i2].entity.id) {
                    applied_pos(pre[i2].entity.id, last_pos_update(buf0, pre[i2].entity.id))
                } else {
                    pre[i2].position
                }) by {
            if has_pos_update(buf0, pre[i2].entity.id) {
                assert(has_pos_update(winners@, pre[i2].entity.id));
                let k = choose|k: int|
                    0 <= k < winners@.len() && (#[trigger] winners@[k]).entity_id == pre[i2].entity.id;
                assert(0 <= k < m && winners@[k].entity_id == pre[i2].entity.id);
            } else {
                assert(!has_pos_update(winners@, pre[i2].entity.id));
                if exists|k: int|
                    0 <= k < m && (#[trigger] winners@[k]).entity_id == pre[i2].entity.id {
                    let k = choose|k: int|
                        0 <= k < m && (#[trigger] winners@[k]).entity_id == pre[i2].entity.id;
                    assert(has_pos_update(winners@, pre[i2].entity.id));
                }
            }
        }
    }
    events
}

/// One rotation tick; the rotation mirror of `process_position_updates`.
#[verifier::loop_isolation(false)]
#[verifier::rlimit(60)]
pub fn process_rotation_updates(store: &mut EntityStore, buffer: &mut IngestBuffer) -> (events: Vec<EntityId>)
    requires
        old(store).wf(),
        old(buffer).wf(),
    ensures
        final(store).wf(),
        final(buffer).wf(),
        rotation_tick_post(*old(store), *old(buffer), *final(store), *final(buffer), events@),
{
    let ghost buf0 = buffer.rotation_updates@;
    let ghost pre = store.records@;

    let winners = collect_rot_winners(&buffer.rotation_updates);

    let mut events: Vec<EntityId> = Vec::new();
    let m = winners.len();
    let mut j: usize = 0;
    while j < m
        invariant
            j <= m,
            m == winners@.len(),
            store.next_id == old(store).next_id,
            store.records@.len() == pre.len(),
            forall|i2: int| 0 <= i2 < pre.len()
                ==> (#[trigger] store.records@[i2]).entity == pre[i2].entity,
            forall|i2: int| 0 <= i2 < pre.len()
                ==> (#[trigger] store.records@[i2]).position == pre[i2].position,
            forall|i2: int| 0 <= i2 < pre.len()
                ==> (#[trigger] store.records@[i2]).chunk == pre[i2].chunk,
            forall|i2: int| 0 <= i2 < pre.len()
                ==> (#[trigger] store.records@[i2]).rotation == (
                    if exists|k: int| 0 <= k < j && (#[trigger] winners@[k]).entity_id == pre[i2].entity.id {
                        applied_rot(pre[i2].entity.id, last_rot_update(buf0, pre[i2].entity.id))
                    } else {
                        pre[i2].rotation
                    }),
            forall|id: EntityId| #[trigger] events@.contains(id)
                <==> (exists|k: int| 0 <= k < j && (#[trigger] winners@[k]).entity_id == id)
                    && contains_id(pre, id)
                    && rot_write_effective(record_of(pre, id), buf0),
            forall|a: int, b: int| 0 <= a < b < events@.len() ==> events@[a] != events@[b],
            store.wf(),
        decreases m - j,
    {
        let u = winners[j];
        proof {
            assert(has_rot_update(winners@, u.entity_id));
            assert(u == last_rot_update(buf0, u.entity_id));
            assert(forall|k: int| 0 <= k < j ==> (#[trigger] winners@[k]).entity_id != u.entity_id);
        }
        match store.find_index(u.entity_id) {
            Some(idx) => {
                proof {
                    lemma_idx_of_at(pre, idx as int, u.entity_id);
                    lemma_idx_of_at(store.records@, idx as int, u.entity_id);
                    assert(store.records@[idx as int].rotation == pre[idx as int].rotation);
                }
                let r = store.records[idx];
                if r.rotation.rot_x != u.rot_x || r.rotation.rot_y != u.rot_y
                    || r.rotation.rot_z != u.rot_z {
                    let nr = EntityRecord {
                        rotation: EntityRotation {
                            id: r.entity.id,
                            rot_x: u.rot_x,
                            rot_y: u.rot_y,
                            rot_z: u.rot_z,
                        },
                        ..r
                    };
                    let ghost ev0 = events@;
                    store.records[idx] = nr;
                    events.push(u.entity_id);
                    proof {
                        let ev1 = events@;
                        assert(ev1 == ev0.push(u.entity_id));
                        assert(record_of(pre, u.entity_id) == pre[idx as int]);
                        assert(rot_write_effective(record_of(pre, u.entity_id), buf0));
                        assert forall|id: EntityId| #[trigger] ev1.contains(id)
                            implies (exists|k: int|
                                0 <= k < j + 1 && (#[trigger] winners@[k]).entity_id == id)
                                && contains_id(pre, id)
                                && rot_write_effective(record_of(pre, id), buf0) by {
                            let ii = choose|ii: int| 0 <= ii < ev1.len() && ev1[ii] == id;
                            if ii < ev0.len() {
                                assert(ev0[ii] == id);
                                assert(ev0.contains(id));
                            } else {
                                assert(id == u.entity_id);
                                assert(winners@[j as int].entity_id == id);
                            }
                        }
                        assert forall|id: EntityId|
                            (exists|k: int|
                                0 <= k < j + 1 && (#[trigger] winners@[k]).entity_id == id)
                                && contains_id(pre, id)
                                && rot_write_effective(record_of(pre, id), buf0)
                            implies #[trigger] ev1.contains(id) by {
                            let k = choose|k: int|
                                0 <= k < j + 1 && (#[trigger] winners@[k]).entity_id == id;
                            if k < j {
                                assert(ev0.contains(id));
                                let ii = choose|ii: int| 0 <= ii < ev0.len() && ev0[ii] == id;
                                assert(ev1[ii] == id);
                            } else {
                                assert(ev1[ev1.len() - 1] == id);
                            }
                        }
                        assert forall|a: int, b: int| 0 <= a < b < ev1.len()
                            implies ev1[a] != ev1[b] by {
                            if b == ev1.len() - 1 {
                                assert(ev1[a] == ev0[a]);
                                if ev0[a] == u.entity_id {
                                    assert(ev0.contains(u.entity_id));
                                }
                            }
                        }
                    }
                } else {
                    proof {
                        assert(r.rotation.id == u.entity_id);
                        assert(r.rotation == applied_rot(u.entity_id, u));
                        assert(!rot_write_effective(record_of(pre, u.entity_id), buf0));
                    }
                }
            }
            None => {
                proof {
                    assert forall|i2: int| 0 <= i2 < pre.len()
                        implies (#[trigger] pre[i2]).entity.id != u.entity_id by {
                        assert(store.records@[i2].entity == pre[i2].entity);
                    }
                    assert(!contains_id(pre, u.entity_id));
                }
            }
        }
        proof {
            assert forall|i2: int| 0 <= i2 < pre.len()
                implies (#[trigger] store.records@[i2]).rotation == (
                    if exists|k: int|
                        0 <= k < j + 1 && (#[trigger] winners@[k]).entity_id == pre[i2].entity.id {
                        applied_rot(pre[i2].entity.id, last_rot_update(buf0, pre[i2].entity.id))
                    } else {
                        pre[i2].rotation
                    }) by {
                if pre[i2].entity.id == u.entity_id {
                    assert(winners@[j as int].entity_id == pre[i2].entity.id);
                } else {
                    if exists|k: int|
                        0 <= k < j + 1 && (#[trigger] winners@[k]).entity_id == pre[i2].entity.id {
                        let k = choose|k: int|
                            0 <= k < j + 1 && (#[trigger] winners@[k]).entity_id == pre[i2].entity.id;
                        assert(k < j);
                    }
                }
            }
        }
        j = j + 1;
    }

    buffer.rotation_updates.clear();

    proof {
        assert forall|id: EntityId| #[trigger] events@.contains(id)
            <==> contains_id(pre, id) && rot_write_effective(record_of(pre, id), buf0) by {
            if contains_id(pre, id) && rot_write_effective(record_of(pre, id), buf0) {
                assert(has_rot_update(buf0, id));
                assert(has_rot_update(winners@, id));
            }
        }
        assert forall|i2: int| 0 <= i2 < pre.len()
            implies (#[trigger] store.records@[i2]).rotation == (
                if has_rot_update(buf0, pre[i2].entity.id) {
                    applied_rot(pre[i2].entity.id, last_rot_update(buf0, pre[i2].entity.id))
                } else {
                    pre[i2].rotation
                }) by {
            if has_rot_update(buf0, pre[i2].entity.id) {
                assert(has_rot_update(winners@, pre[i2].entity.id));
                let k = choose|k: int|
                    0 <= k < winners@.len() && (#[trigger] winners@[k]).entity_id == pre[i2].entity.id;
                assert(0 <= k < m && winners@[k].entity_id == pre[i2].entity.id);
            } else {
                assert(!has_rot_update(winners@, pre[i2].entity.id));
                if exists|k: int|
                    0 <= k < m && (#[trigger] winners@[k]).entity_id == pre[i2].entity.id {
                    let k = choose|k: int|
                        0 <= k < m && (#[trigger] winners@[k]).entity_id == pre[i2].entity.id;
                    assert(has_rot_update(winners@, pre[i2].entity.id));
                }
            }
        }
    }
    events
}

/// After a position tick the rows carrying `id` still carry it, at the
/// same index, and rows stay unique; the reconciled record of `id` is the
/// row at its old index.
proof fn lemma_tick_keeps_ids(store0: EntityStore, store1: EntityStore, buf: Seq<IncomingPositionUpdate>, id: EntityId)
    requires
        store0.wf(),
        pos_rows_reconciled(store0.records@, store1.records@, buf),
        contains_id(store0.records@, id),
    ensures
        ids_unique(store1.records@),
        0 <= idx_of(store0.records@, id) < store1.records@.len(),
        store1.records@[idx_of(store0.records@, id)].entity.id == id,
        record_of(store1.records@, id) == store1.records@[idx_of(store0.records@, id)],
        record_of(store0.records@, id) == store0.records@[idx_of(store0.records@, id)],
        record_of(store0.records@, id).entity.id == id,
{
    let s0 = store0.records@;
    let s1 = store1.records@;
    let i = idx_of(s0, id);
    assert(0 <= i < s0.len() && s0[i].entity.id == id);
    assert forall|a: int, b: int| 0 <= a < b < s1.len()
        implies (#[trigger] s1[a]).entity.id != (#[trigger] s1[b]).entity.id by {
        assert(s1[a].entity == s0[a].entity);
        assert(s1[b].entity == s0[b].entity);
    }
    assert(s1[i].entity == s0[i].entity);
    lemma_idx_of_at(s1, i, id);
}

/// Idempotence of a no-op submission: when every buffered position update
/// for an entity equals its canonical position, the tick writes nothing
/// for it — the entity is absent from the change events and its canonical
/// position is untouched.
pub proof fn lemma_noop_submission_no_write(
    store0: EntityStore,
    buf0: IngestBuffer,
    store1: EntityStore,
    buf1: IngestBuffer,
    events: Seq<EntityId>,
    id: EntityId,
)
    requires
        store0.wf(),
        buf0.wf(),
        position_tick_post(store0, buf0, store1, buf1, events),
        contains_id(store0.records@, id),
        forall|k: int| 0 <= k < buf0.position_updates@.len()
            && (#[trigger] buf0.position_updates@[k]).entity_id == id
            ==> applied_pos(id, buf0.position_updates@[k])
                == record_of(store0.records@, id).position,
    ensures
        !events.contains(id),
        record_of(store1.records@, id).position == record_of(store0.records@, id).position,
{
    let buf = buf0.position_updates@;
    lemma_tick_keeps_ids(store0, store1, buf, id);
    let i = idx_of(store0.records@, id);
    let r = record_of(store0.records@, id);
    if has_pos_update(buf, id) {
        lemma_last_pos_update_is_latest(buf, id);
        let u = last_pos_update(buf, id);
        let k = choose|k: int| 0 <= k < buf.len() && buf[k] == u;
        assert(buf[k].entity_id == id);
        assert(applied_pos(id, buf[k]) == r.position);
        assert(!pos_write_effective(r, buf));
        assert(store1.records@[i].position == applied_pos(id, u));
    } else {
        assert(!pos_write_effective(r, buf));
        assert(store1.records@[i].position == store0.records@[i].position);
    }
}

/// Last-writer-wins: after a position tick, an entity with at least one
/// buffered update carries exactly the update with the highest sequence
/// number — that update is buffered for it and no buffered update for it
/// has a higher sequence number — and no buffered position rows survive.
pub proof fn lemma_latest_wins(
    store0: EntityStore,
    buf0: IngestBuffer,
    store1: EntityStore,
    buf1: IngestBuffer,
    events: Seq<EntityId>,
    id: EntityId,
)
    requires
        store0.wf(),
        buf0.wf(),
        position_tick_post(store0, buf0, store1, buf1, events),
        contains_id(store0.records@, id),
        has_pos_update(buf0.position_updates@, id),
    ensures
        last_pos_update(buf0.position_updates@, id).entity_id == id,
        exists|k: int| 0 <= k < buf0.position_updates@.len()
            && buf0.position_updates@[k] == last_pos_update(buf0.position_updates@, id),
        forall|k: int| 0 <= k < buf0.position_updates@.len()
            && (#[trigger] buf0.position_updates@[k]).entity_id == id
            ==> buf0.position_updates@[k].seq <= last_pos_update(buf0.position_updates@, id).seq,
        record_of(store1.records@, id).position
            == applied_pos(id, last_pos_update(buf0.position_updates@, id)),
        !has_pos_update(buf1.position_updates@, id),
        buf1.position_updates@.len() == 0,
{
    let buf = buf0.position_updates@;
    lemma_last_pos_update_is_latest(buf, id);
    lemma_tick_keeps_ids(store0, store1, buf, id);
    let i = idx_of(store0.records@, id);
    assert(store1.records@[i].position == applied_pos(id, last_pos_update(buf, id)));
}

/// Last-writer-wins for rotations; the rotation mirror of
/// `lemma_latest_wins`.
pub proof fn lemma_latest_wins_rotation(
    store0: EntityStore,
    buf0: IngestBuffer,
    store1: EntityStore,
    buf1: IngestBuffer,
    events: Seq<EntityId>,
    id: EntityId,
)
    requires
        store0.wf(),
        buf0.wf(),
        rotation_tick_post(store0, buf0, store1, buf1, events),
        contains_id(store0.records@, id),
        has_rot_update(buf0.rotation_updates@, id),
    ensures
        last_rot_update(buf0.rotation_updates@, id).entity_id == id,
        exists|k: int| 0 <= k < buf0.rotation_updates@.len()
            && buf0.rotation_updates@[k] == last_rot_update(buf0.rotation_updates@, id),
        forall|k: int| 0 <= k < buf0.rotation_updates@.len()
            && (#[trigger] buf0.rotation_updates@[k]).entity_id == id
            ==> buf0.rotation_updates@[k].seq <= last_rot_update(buf0.rotation_updates@, id).seq,
        record_of(store1.records@, id).rotation
            == applied_rot(id, last_rot_update(buf0.rotation_updates@, id)),
        !has_rot_update(buf1.rotation_updates@, id),
        buf1.rotation_updates@.len() == 0,
{
    let buf = buf0.rotation_updates@;
    lemma_last_rot_update_is_latest(buf, id);
    let s0 = store0.records@;
    let s1 = store1.records@;
    let i = idx_of(s0, id);
    assert(0 <= i < s0.len() && s0[i].entity.id == id);
    assert forall|a: int, b: int| 0 <= a < b < s1.len()
        implies (#[trigger] s1[a]).entity.id != (#[trigger] s1[b]).entity.id by {
        assert(s1[a].entity == s0[a].entity);
        assert(s1[b].entity == s0[b].entity);
    }
    assert(s1[i].entity == s0[i].entity);
    lemma_idx_of_at(s1, i, id);
    assert(s1[i].rotation == applied_rot(id, last_rot_update(buf, id)));
}

/// Buffer drain completeness: one position tick empties the position
/// buffer, so no entity has a buffered position row left afterwards,
/// whether or not its canonical record could be updated.
pub proof fn lemma_buffer_drain_complete(
    store0: EntityStore,
    buf0: IngestBuffer,
    store1: EntityStore,
    buf1: IngestBuffer,
    events: Seq<EntityId>,
    id: EntityId,
)
    requires
        position_tick_post(store0, buf0, store1, buf1, events),
    ensures
        buf1.position_updates@.len() == 0,
        !has_pos_update(buf1.position_updates@, id),
{
}

} // verus!
