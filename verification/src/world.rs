//! The composed synchronization core.
//!
//! A `World` owns the canonical entity store, the ingest buffer, the
//! connection lifecycle, the periodic-job registry and the scheduler
//! configuration, and exposes the operations of the service: the
//! client-facing submissions and lifecycle events, the scheduled ticks,
//! and the proximity query. Every operation is one atomic step; the
//! hosting runtime serializes them.

use vstd::prelude::*;
use crate::WorldError;
use crate::ids::{EntityId, Identity, PlayerAccountId};
use crate::entity::{EntityType, EntityPosition, EntityRotation, EntityChunk, EntityRecord};
use crate::store::{EntityStore, idx_of};
use crate::buffer::{IngestBuffer, IncomingPositionUpdate, IncomingRotationUpdate, pos_without, rot_without};
use crate::lifecycle::{
    ConnectionLifecycle, Membership, PlayerAccount,
    connect_rel, disconnect_rel, authenticate_rel, admit_identity, has_account,
    lemma_ident_without, lemma_push_contains, lemma_account_push_contains,
};
use crate::scheduler::{Scheduler, JobKind, PeriodicJob, has_job, spec_start_job, spec_stop_job};
use crate::config::SchedulerConfig;
use crate::reconcile;
use crate::reconcile::{position_tick_post, rotation_tick_post};
use crate::chunks;
use crate::chunks::{chunk_tick_post, nearby_post};

verus! {

/// One fresh account admitted by an authentication tick, paired with the
/// entity record created for it: the `t`-th new account got the `t`-th new
/// record, a fresh triad owned by it.
pub open spec fn admitted_pair_ok(
    accounts0: Seq<PlayerAccount>,
    records0: Seq<EntityRecord>,
    pend: Seq<Identity>,
    accounts1: Seq<PlayerAccount>,
    records1: Seq<EntityRecord>,
    now: u64,
    t: int,
) -> bool {
    let acct = accounts1[accounts0.len() + t];
    let rec = records1[records0.len() + t];
    &&& !has_account(accounts0, acct.identity)
    &&& pend.contains(acct.identity)
    &&& rec.is_fresh(rec.entity.id, EntityType::Player, acct.id, now)
}

/// The full contract of an authentication tick.
///
/// The pending queue is drained; every queued identity leaves guests and
/// offline and ends up online; identities without an account get one,
/// together with a fresh entity triad owned by it; everyone else is
/// untouched; and processing anyone (re)starts the chunk job.
pub open spec fn auth_tick_rel(pre: World, post: World, now: u64) -> bool {
    let pend = pre.lifecycle.pending_auth@;
    &&& post.lifecycle.pending_auth@.len() == 0
    &&& post.lifecycle.auth_key == pre.lifecycle.auth_key
    &&& post.buffer == pre.buffer
    &&& post.config == pre.config
    &&& post.server_identity == pre.server_identity
    &&& forall|x: Identity| #[trigger] post.lifecycle.online@.contains(x)
            <==> pre.lifecycle.online@.contains(x) || pend.contains(x)
    &&& forall|x: Identity| #[trigger] post.lifecycle.guests@.contains(x)
            <==> pre.lifecycle.guests@.contains(x) && !pend.contains(x)
    &&& forall|x: Identity| #[trigger] post.lifecycle.offline@.contains(x)
            <==> pre.lifecycle.offline@.contains(x) && !pend.contains(x)
    &&& forall|x: Identity| #[trigger] has_account(post.lifecycle.accounts@, x)
            <==> has_account(pre.lifecycle.accounts@, x) || pend.contains(x)
    &&& post.lifecycle.accounts@.len() >= pre.lifecycle.accounts@.len()
    &&& post.lifecycle.accounts@.subrange(0, pre.lifecycle.accounts@.len() as int)
            == pre.lifecycle.accounts@
    &&& post.store.records@.len() - pre.store.records@.len()
            == post.lifecycle.accounts@.len() - pre.lifecycle.accounts@.len()
    &&& post.store.records@.subrange(0, pre.store.records@.len() as int) == pre.store.records@
    &&& post.store.next_id as int <= pre.store.next_id as int + pend.len()
    &&& post.lifecycle.next_account_id as int
            <= pre.lifecycle.next_account_id as int + pend.len()
    &&& forall|t: int| 0 <= t < post.lifecycle.accounts@.len() - pre.lifecycle.accounts@.len()
            ==> #[trigger] admitted_pair_ok(
                pre.lifecycle.accounts@,
                pre.store.records@,
                pend,
                post.lifecycle.accounts@,
                post.store.records@,
                now,
                t,
            )
    &&& post.scheduler.jobs@ == (if pend.len() > 0 {
            spec_start_job(
                pre.scheduler.jobs@,
                JobKind::ChunkRecompute,
                pre.config.chunk_update_interval_ms,
            )
        } else {
            pre.scheduler.jobs@
        })
}

/// The entity-state synchronization core.
pub struct World {
    pub store: EntityStore,
    pub buffer: IngestBuffer,
    pub lifecycle: ConnectionLifecycle,
    pub scheduler: Scheduler,
    pub config: SchedulerConfig,
    /// The identity of the hosting runtime itself; only it may invoke the
    /// reconciliation ticks.
    pub server_identity: Identity,
}

impl World {
    /// Every component is internally consistent.
    pub open spec fn wf(self) -> bool {
        &&& self.store.wf()
        &&& self.buffer.wf()
        &&& self.lifecycle.wf()
        &&& self.scheduler.wf()
        &&& self.config.wf()
    }

    /// A world with no entities and no known identities; the two
    /// reconciliation jobs are registered from the start.
    pub fn new(server_identity: Identity, auth_key: String, config: SchedulerConfig) -> (w: World)
        requires
            config.wf(),
        ensures
            w.wf(),
            w.store.records@.len() == 0,
            w.store.next_id == 1u32,
            w.buffer.position_updates@.len() == 0,
            w.buffer.rotation_updates@.len() == 0,
            w.buffer.next_position_seq == 1u64,
            w.buffer.next_rotation_seq == 1u64,
            w.lifecycle.next_account_id == 1u32,
            w.lifecycle.accounts@.len() == 0,
            w.lifecycle.guests@.len() == 0,
            w.lifecycle.online@.len() == 0,
            w.lifecycle.offline@.len() == 0,
            w.lifecycle.pending_auth@.len() == 0,
            w.lifecycle.auth_key == auth_key,
            w.config == config,
            w.server_identity == server_identity,
            has_job(w.scheduler.jobs@, JobKind::PositionUpdates),
            has_job(w.scheduler.jobs@, JobKind::RotationUpdates),
            !has_job(w.scheduler.jobs@, JobKind::ChunkRecompute),
    {
        let mut scheduler = Scheduler::new();
        scheduler.start_job(JobKind::PositionUpdates, config.position_update_interval_ms);
        let ghost s1 = scheduler.jobs@;
        scheduler.start_job(JobKind::RotationUpdates, config.rotation_update_interval_ms);
        proof {
            let s2 = scheduler.jobs@;
            assert(s1.len() == 1);
            assert(s1[0].kind == JobKind::PositionUpdates);
            assert(s2 == s1.push(PeriodicJob {
                kind: JobKind::RotationUpdates,
                interval_ms: config.rotation_update_interval_ms,
            }));
            assert(s2[0].kind == JobKind::PositionUpdates);
            assert(has_job(s2, JobKind::PositionUpdates));
            assert forall|i: int| 0 <= i < s2.len()
                implies (#[trigger] s2[i]).kind != JobKind::ChunkRecompute by {
                if i == 0 {
                } else {
                    assert(s2[i].kind == JobKind::RotationUpdates);
                }
            }
        }
        World {
            store: EntityStore::new(),
            buffer: IngestBuffer::new(),
            lifecycle: ConnectionLifecycle::new(auth_key),
            scheduler,
            config,
            server_identity,
        }
    }

    /// Creates an entity with its position, rotation and chunk triad in
    /// one atomic step.
    pub fn create_entity_tree(&mut self, entity_type: EntityType, owner_id: PlayerAccountId, now: u64) -> (id: EntityId)
        requires
            old(self).wf(),
            old(self).store.next_id < u32::MAX,
        ensures
            final(self).wf(),
            id == EntityId(old(self).store.next_id),
            !old(self).store.contains(id),
            final(self).store.contains(id),
            final(self).store.next_id == old(self).store.next_id + 1,
            final(self).store.records@ == old(self).store.records@.push(final(self).store.records@.last()),
            final(self).store.records@.last().is_fresh(id, entity_type, owner_id, now),
            final(self).store.record(id) == final(self).store.records@.last(),
            final(self).buffer == old(self).buffer,
            final(self).lifecycle == old(self).lifecycle,
            final(self).scheduler == old(self).scheduler,
            final(self).config == old(self).config,
            final(self).server_identity == old(self).server_identity,
    {
        self.store.create_entity_tree(entity_type, owner_id, now)
    }

    /// Deletes an entity, cascading to its triad rows and to every
    /// buffered update that references it; deleting an absent entity is a
    /// no-op on the store.
    pub fn delete_entity(&mut self, id: EntityId) -> (found: bool)
        requires
            old(self).wf(),
        ensures
            final(self).wf(),
            found == old(self).store.contains(id),
            !final(self).store.contains(id),
            found ==> final(self).store.records@
                == old(self).store.records@.remove(idx_of(old(self).store.records@, id)),
            !found ==> final(self).store == old(self).store,
            final(self).buffer.position_updates@ == pos_without(old(self).buffer.position_updates@, id),
            final(self).buffer.rotation_updates@ == rot_without(old(self).buffer.rotation_updates@, id),
            final(self).lifecycle == old(self).lifecycle,
            final(self).scheduler == old(self).scheduler,
            final(self).config == old(self).config,
            final(self).server_identity == old(self).server_identity,
    {
        let found = self.store.delete_entity(id);
        self.buffer.purge_entity(id);
        found
    }

    /// Buffers a position update for an existing entity under a fresh
    /// sequence number; canonical state is not touched. Submitting for an
    /// unknown entity returns `EntityNotFound` and changes nothing.
    pub fn submit_position(&mut self, entity_id: EntityId, x: i32, y: i32, z: i32, now: u64) -> (r: Result<(), WorldError>)
        requires
            old(self).wf(),
            old(self).buffer.next_position_seq < u64::MAX,
        ensures
            final(self).wf(),
            final(self).store == old(self).store,
            final(self).lifecycle == old(self).lifecycle,
            final(self).scheduler == old(self).scheduler,
            final(self).config == old(self).config,
            final(self).server_identity == old(self).server_identity,
            match r {
                Ok(()) => {
                    &&& old(self).store.contains(entity_id)
                    &&& final(self).buffer.position_updates@
                        == old(self).buffer.position_updates@.push(IncomingPositionUpdate {
                            seq: old(self).buffer.next_position_seq,
                            entity_id,
                            x,
                            y,
                            z,
                            created_at: now,
                        })
                    &&& final(self).buffer.next_position_seq == old(self).buffer.next_position_seq + 1
                    &&& final(self).buffer.rotation_updates == old(self).buffer.rotation_updates
                    &&& final(self).buffer.next_rotation_seq == old(self).buffer.next_rotation_seq
                },
                Err(e) => {
                    &&& e == WorldError::EntityNotFound
                    &&& !old(self).store.contains(entity_id)
                    &&& *final(self) == *old(self)
                },
            },
    {
        match self.store.find_index(entity_id) {
            Some(_) => {
                self.buffer.append_position(entity_id, x, y, z, now);
                Ok(())
            }
            None => Err(WorldError::EntityNotFound),
        }
    }

    /// Buffers a rotation update for an existing entity under a fresh
    /// sequence number; the rotation mirror of `submit_position`.
    pub fn submit_rotation(&mut self, entity_id: EntityId, rot_x: i16, rot_y: i16, rot_z: i16, now: u64) -> (r: Result<(), WorldError>)
        requires
            old(self).wf(),
            old(self).buffer.next_rotation_seq < u64::MAX,
        ensures
            final(self).wf(),
            final(self).store == old(self).store,
            final(self).lifecycle == old(self).lifecycle,
            final(self).scheduler == old(self).scheduler,
            final(self).config == old(self).config,
            final(self).server_identity == old(self).server_identity,
            match r {
                Ok(()) => {
                    &&& old(self).store.contains(entity_id)
                    &&& final(self).buffer.rotation_updates@
                        == old(self).buffer.rotation_updates@.push(IncomingRotationUpdate {
                            seq: old(self).buffer.next_rotation_seq,
                            entity_id,
                            rot_x,
                            rot_y,
                            rot_z,
                            created_at: now,
                        })
                    &&& final(self).buffer.next_rotation_seq == old(self).buffer.next_rotation_seq + 1
                    &&& final(self).buffer.position_updates == old(self).buffer.position_updates
                    &&& final(self).buffer.next_position_seq == old(self).buffer.next_position_seq
                },
                Err(e) => {
                    &&& e == WorldError::EntityNotFound
                    &&& !old(self).store.contains(entity_id)
                    &&& *final(self) == *old(self)
                },
            },
    {
        match self.store.find_index(entity_id) {
            Some(_) => {
                self.buffer.append_rotation(entity_id, rot_x, rot_y, rot_z, now);
                Ok(())
            }
            None => Err(WorldError::EntityNotFound),
        }
    }

    /// Transport-level connect.
    pub fn on_connect(&mut self, identity: Identity)
        requires
            old(self).wf(),
        ensures
            final(self).wf(),
            connect_rel(old(self).lifecycle, final(self).lifecycle, identity),
            final(self).store == old(self).store,
            final(self).buffer == old(self).buffer,
            final(self).scheduler == old(self).scheduler,
            final(self).config == old(self).config,
            final(self).server_identity == old(self).server_identity,
    {
        self.lifecycle.on_connect(identity);
    }

    /// Transport-level disconnect; when the last online identity leaves,
    /// the chunk job is torn down (stopping an absent job is a no-op).
    pub fn on_disconnect(&mut self, identity: Identity)
        requires
            old(self).wf(),
        ensures
            final(self).wf(),
            disconnect_rel(old(self).lifecycle, final(self).lifecycle, identity),
            final(self).store == old(self).store,
            final(self).buffer == old(self).buffer,
            final(self).config == old(self).config,
            final(self).server_identity == old(self).server_identity,
            final(self).scheduler.jobs@ == (if final(self).lifecycle.online@.len() == 0 {
                spec_stop_job(old(self).scheduler.jobs@, JobKind::ChunkRecompute)
            } else {
                old(self).scheduler.jobs@
            }),
    {
        self.lifecycle.on_disconnect(identity);
        if self.lifecycle.online.len() == 0 {
            self.scheduler.stop_job(JobKind::ChunkRecompute);
        }
    }

    /// Fire-and-forget authentication: enqueues a connected caller with
    /// the right key for the next authentication tick; no reply either
    /// way.
    pub fn private_authenticate(&mut self, identity: Identity, key: String)
        requires
            old(self).wf(),
        ensures
            final(self).wf(),
            authenticate_rel(old(self).lifecycle, final(self).lifecycle, identity, key@),
            final(self).store == old(self).store,
            final(self).buffer == old(self).buffer,
            final(self).scheduler == old(self).scheduler,
            final(self).config == old(self).config,
            final(self).server_identity == old(self).server_identity,
    {
        self.lifecycle.private_authenticate(identity, key);
    }

    /// The authentication tick: drains the pending queue and, for each
    /// queued identity, removes it from guests, creates an account and its
    /// entity triad when none exists, and moves it to online. Having
    /// processed anyone, it makes sure the chunk job runs.
    #[verifier::loop_isolation(false)]
    #[verifier::rlimit(60)]
    pub fn process_auth_tick(&mut self, now: u64)
        requires
            old(self).wf(),
            old(self).store.next_id as int + old(self).lifecycle.pending_auth@.len()
                <= u32::MAX as int,
            old(self).lifecycle.next_account_id as int + old(self).lifecycle.pending_auth@.len()
                <= u32::MAX as int,
        ensures
            final(self).wf(),
            auth_tick_rel(*old(self), *final(self), now),
    {
        let ghost pre = *old(self);
        let ghost pend = pre.lifecycle.pending_auth@;
        let p = self.lifecycle.take_pending();
        let n = p.len();
        let mut t: usize = 0;
        while t < n
            invariant
                t <= n,
                n == pend.len(),
                p@ == pend,
                self.lifecycle.pending_auth@.len() == 0,
                self.lifecycle.auth_key == pre.lifecycle.auth_key,
                self.buffer == pre.buffer,
                self.scheduler == pre.scheduler,
                self.config == pre.config,
                self.server_identity == pre.server_identity,
                self.store.wf(),
                self.lifecycle.wf(),
                self.store.next_id as int <= pre.store.next_id as int + t,
                self.lifecycle.next_account_id as int
                    <= pre.lifecycle.next_account_id as int + t,
                forall|x: Identity| #[trigger] self.lifecycle.online@.contains(x)
                    <==> pre.lifecycle.online@.contains(x)
                        || pend.subrange(0, t as int).contains(x),
                forall|x: Identity| #[trigger] self.lifecycle.guests@.contains(x)
                    <==> pre.lifecycle.guests@.contains(x)
                        && !pend.subrange(0, t as int).contains(x),
                forall|x: Identity| #[trigger] self.lifecycle.offline@.contains(x)
                    <==> pre.lifecycle.offline@.contains(x)
                        && !pend.subrange(0, t as int).contains(x),
                forall|x: Identity| #[trigger] has_account(self.lifecycle.accounts@, x)
                    <==> has_account(pre.lifecycle.accounts@, x)
                        || pend.subrange(0, t as int).contains(x),
                self.lifecycle.accounts@.len() >= pre.lifecycle.accounts@.len(),
                self.lifecycle.accounts@.subrange(0, pre.lifecycle.accounts@.len() as int)
                    == pre.lifecycle.accounts@,
                self.store.records@.len() - pre.store.records@.len()
                    == self.lifecycle.accounts@.len() - pre.lifecycle.accounts@.len(),
                self.store.records@.subrange(0, pre.store.records@.len() as int)
                    == pre.store.records@,
                forall|t2: int|
                    0 <= t2 < self.lifecycle.accounts@.len() - pre.lifecycle.accounts@.len()
                        ==> #[trigger] admitted_pair_ok(
                            pre.lifecycle.accounts@,
                            pre.store.records@,
                            pend,
                            self.lifecycle.accounts@,
                            self.store.records@,
                            now,
                            t2,
                        ),
            decreases n - t,
        {
            let x = p[t];
            let ghost lc_a = self.lifecycle;
            let ghost st_a = self.store;
            proof {
                assert(pend[t as int] == x);
                assert(pend.contains(x));
                assert(pend.subrange(0, t as int + 1) =~= pend.subrange(0, t as int).push(x));
                lemma_push_contains(pend.subrange(0, t as int), x);
            }
            admit_identity(&mut self.store, &mut self.lifecycle, x, now);
            proof {
                let lc_b = self.lifecycle;
                let st_b = self.store;
                lemma_ident_without(lc_a.guests@, x);
                lemma_ident_without(lc_a.offline@, x);
                lemma_push_contains(lc_a.online@, x);
                if !has_account(lc_a.accounts@, x) {
                    let newacct = PlayerAccount {
                        id: PlayerAccountId(lc_a.next_account_id),
                        identity: x,
                    };
                    lemma_account_push_contains(lc_a.accounts@, newacct);
                    assert(lc_b.accounts@.subrange(0, pre.lifecycle.accounts@.len() as int)
                        =~= lc_a.accounts@.subrange(0, pre.lifecycle.accounts@.len() as int));
                    assert(st_b.records@.subrange(0, pre.store.records@.len() as int)
                        =~= st_a.records@.subrange(0, pre.store.records@.len() as int));
                    assert forall|t2: int|
                        0 <= t2 < lc_b.accounts@.len() - pre.lifecycle.accounts@.len()
                            implies #[trigger] admitted_pair_ok(
                                pre.lifecycle.accounts@,
                                pre.store.records@,
                                pend,
                                lc_b.accounts@,
                                st_b.records@,
                                now,
                                t2,
                            ) by {
                        let na = pre.lifecycle.accounts@.len() as int;
                        let nr = pre.store.records@.len() as int;
                        if t2 < lc_a.accounts@.len() - na {
                            assert(lc_b.accounts@[na + t2] == lc_a.accounts@[na + t2]);
                            assert(st_b.records@[nr + t2] == st_a.records@[nr + t2]);
                            assert(admitted_pair_ok(
                                pre.lifecycle.accounts@,
                                pre.store.records@,
                                pend,
                                lc_a.accounts@,
                                st_a.records@,
                                now,
                                t2,
                            ));
                        } else {
                            assert(lc_b.accounts@[na + t2] == newacct);
                            assert(st_b.records@[nr + t2] == st_b.records@.last());
                        }
                    }
                }
            }
            t = t + 1;
        }
        proof {
            assert(pend.subrange(0, n as int) =~= pend);
        }
        if n > 0 {
            let interval = self.config.chunk_update_interval_ms;
            self.scheduler.start_job(JobKind::ChunkRecompute, interval);
        }
    }

    /// The position reconciliation tick; only the scheduler (the hosting
    /// runtime itself) may invoke it. Returns the entities whose canonical
    /// position changed, for change notification.
    pub fn process_position_updates(&mut self, sender: Identity) -> (r: Result<Vec<EntityId>, WorldError>)
        requires
            old(self).wf(),
        ensures
            final(self).wf(),
            final(self).lifecycle == old(self).lifecycle,
            final(self).scheduler == old(self).scheduler,
            final(self).config == old(self).config,
            final(self).server_identity == old(self).server_identity,
            match r {
                Ok(events) => {
                    &&& sender == old(self).server_identity
                    &&& position_tick_post(
                            old(self).store,
                            old(self).buffer,
                            final(self).store,
                            final(self).buffer,
                            events@,
                        )
                },
                Err(e) => {
                    &&& e == WorldError::Unauthorized
                    &&& sender != old(self).server_identity
                    &&& *final(self) == *old(self)
                },
            },
    {
        if sender.0 != self.server_identity.0 {
            return Err(WorldError::Unauthorized);
        }
        assert(sender == self.server_identity);
        Ok(reconcile::process_position_updates(&mut self.store, &mut self.buffer))
    }

    /// The rotation reconciliation tick; the rotation mirror of
    /// `process_position_updates`.
    pub fn process_rotation_updates(&mut self, sender: Identity) -> (r: Result<Vec<EntityId>, WorldError>)
        requires
            old(self).wf(),
        ensures
            final(self).wf(),
            final(self).lifecycle == old(self).lifecycle,
            final(self).scheduler == old(self).scheduler,
            final(self).config == old(self).config,
            final(self).server_identity == old(self).server_identity,
            match r {
                Ok(events) => {
                    &&& sender == old(self).server_identity
                    &&& rotation_tick_post(
                            old(self).store,
                            old(self).buffer,
                            final(self).store,
                            final(self).buffer,
                            events@,
                        )
                },
                Err(e) => {
                    &&& e == WorldError::Unauthorized
                    &&& sender != old(self).server_identity
                    &&& *final(self) == *old(self)
                },
            },
    {
        if sender.0 != self.server_identity.0 {
            return Err(WorldError::Unauthorized);
        }
        assert(sender == self.server_identity);
        Ok(reconcile::process_rotation_updates(&mut self.store, &mut self.buffer))
    }

    /// The chunk recomputation tick: recomputes the chunk cell of every
    /// entity owned by an online account from its canonical position.
    /// Returns the entities whose chunk row changed.
    pub fn calculate_current_chunks(&mut self, now: u64) -> (events: Vec<EntityId>)
        requires
            old(self).wf(),
        ensures
            final(self).wf(),
            final(self).buffer == old(self).buffer,
            final(self).lifecycle == old(self).lifecycle,
            final(self).scheduler == old(self).scheduler,
            final(self).config == old(self).config,
            final(self).server_identity == old(self).server_identity,
            final(self).store.next_id == old(self).store.next_id,
            chunk_tick_post(
                old(self).store.records@,
                final(self).store.records@,
                old(self).lifecycle.accounts@,
                old(self).lifecycle.online@,
                old(self).config.chunk_cell_size as int,
                now,
                events@,
            ),
    {
        let cell = self.config.chunk_cell_size;
        chunks::calculate_current_chunks(&mut self.store, &self.lifecycle, cell, now)
    }

    /// The proximity query: the chunk rows within `radius` cells of the
    /// viewer's own chunk. Read-only; returns an empty result for a viewer
    /// without an account or an owned entity.
    pub fn nearby_entity_chunks(&self, viewer: Identity, radius: u32) -> (r: Vec<EntityChunk>)
        requires
            self.wf(),
        ensures
            nearby_post(self.store.records@, self.lifecycle.accounts@, viewer, radius, r@),
    {
        chunks::nearby_entity_chunks(&self.store, &self.lifecycle, viewer, radius)
    }

    /// The canonical position of an entity, if it exists.
    pub fn get_position(&self, id: EntityId) -> (r: Option<EntityPosition>)
        requires
            self.wf(),
        ensures
            match r {
                Some(p) => self.store.contains(id) && p == self.store.record(id).position,
                None => !self.store.contains(id),
            },
    {
        self.store.get_position(id)
    }

    /// The canonical rotation of an entity, if it exists.
    pub fn get_rotation(&self, id: EntityId) -> (r: Option<EntityRotation>)
        requires
            self.wf(),
        ensures
            match r {
                Some(p) => self.store.contains(id) && p == self.store.record(id).rotation,
                None => !self.store.contains(id),
            },
    {
        self.store.get_rotation(id)
    }

    /// The derived chunk row of an entity, if it exists.
    pub fn get_chunk(&self, id: EntityId) -> (r: Option<EntityChunk>)
        requires
            self.wf(),
        ensures
            match r {
                Some(p) => self.store.contains(id) && p == self.store.record(id).chunk,
                None => !self.store.contains(id),
            },
    {
        self.store.get_chunk(id)
    }

    /// Which membership set an identity is in.
    pub fn membership_of(&self, identity: Identity) -> (m: Membership)
        ensures
            m == (if self.lifecycle.guests@.contains(identity) {
                Membership::Guest
            } else if self.lifecycle.online@.contains(identity) {
                Membership::Online
            } else if self.lifecycle.offline@.contains(identity) {
                Membership::Offline
            } else {
                Membership::Disconnected
            }),
    {
        self.lifecycle.membership_of(identity)
    }
}

/// An identity that authenticates and then disconnects before the next
/// authentication tick is never revived by that tick: it is neither
/// online afterwards nor left dangling in the pending queue. The
/// hypotheses chain the contracts of `private_authenticate`,
/// `on_disconnect` and `process_auth_tick`.
pub proof fn lemma_auth_disconnect_race(
    lc0: ConnectionLifecycle,
    lc1: ConnectionLifecycle,
    lc2: ConnectionLifecycle,
    pre: World,
    post: World,
    x: Identity,
    key: Seq<char>,
    now: u64,
)
    requires
        authenticate_rel(lc0, lc1, x, key),
        disconnect_rel(lc1, lc2, x),
        pre.lifecycle == lc2,
        auth_tick_rel(pre, post, now),
    ensures
        !post.lifecycle.online@.contains(x),
        !post.lifecycle.pending_auth@.contains(x),
{
    lemma_ident_without(lc1.pending_auth@, x);
    assert(!lc2.pending_auth@.contains(x));
    if lc1.online@.contains(x) {
        lemma_ident_without(lc1.online@, x);
        assert(!lc2.online@.contains(x));
    } else if lc1.guests@.contains(x) {
        assert(!lc2.online@.contains(x));
    } else {
        assert(!lc2.online@.contains(x));
    }
    assert(!post.lifecycle.online@.contains(x));
}

} // verus!
