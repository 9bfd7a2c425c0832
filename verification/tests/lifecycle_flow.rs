//! Connection lifecycle behaviour: the guest/online/offline membership
//! machine, the fire-and-forget authentication queue, the
//! disconnect-versus-tick race, and scheduler idempotence.

use entity_sync::config::SchedulerConfig;
use entity_sync::ids::Identity;
use entity_sync::lifecycle::Membership;
use entity_sync::scheduler::{JobKind, Scheduler};
use entity_sync::world::World;

const SERVER: Identity = Identity(999);
const KEY: &str = "test_auth_key";

fn new_world() -> World {
    World::new(SERVER, KEY.to_string(), SchedulerConfig::standard())
}

fn sets_containing(w: &World, x: Identity) -> usize {
    let mut n = 0;
    if w.lifecycle.guests.iter().any(|y| *y == x) {
        n += 1;
    }
    if w.lifecycle.online.iter().any(|y| *y == x) {
        n += 1;
    }
    if w.lifecycle.offline.iter().any(|y| *y == x) {
        n += 1;
    }
    n
}

#[test]
fn connect_authenticate_creates_account_and_entity() {
    let mut w = new_world();
    let x = Identity(1);

    w.on_connect(x);
    assert_eq!(w.membership_of(x), Membership::Guest);
    assert_eq!(w.store.entity_count(), 0);

    w.private_authenticate(x, KEY.to_string());
    // Fire-and-forget: nothing visible until the tick.
    assert_eq!(w.membership_of(x), Membership::Guest);
    assert_eq!(w.lifecycle.pending_auth.len(), 1);

    w.process_auth_tick(5);
    assert_eq!(w.membership_of(x), Membership::Online);
    assert_eq!(w.lifecycle.pending_auth.len(), 0);
    assert_eq!(w.lifecycle.accounts.len(), 1);
    // The new account owns a freshly created entity triad.
    assert_eq!(w.store.entity_count(), 1);
    let account = w.lifecycle.find_account(x).unwrap();
    let rec = w.store.get_record(w.store.records[0].entity.id).unwrap();
    assert_eq!(rec.entity.owner_id, account.id);
    assert_eq!((rec.position.x, rec.position.y, rec.position.z), (0, 0, 0));
}

#[test]
fn wrong_key_is_silently_ignored() {
    let mut w = new_world();
    let x = Identity(2);
    w.on_connect(x);
    w.private_authenticate(x, "wrong_key".to_string());
    assert_eq!(w.lifecycle.pending_auth.len(), 0);
    w.process_auth_tick(1);
    assert_eq!(w.membership_of(x), Membership::Guest);
    assert_eq!(w.lifecycle.accounts.len(), 0);
}

#[test]
fn authenticate_then_disconnect_never_goes_online() {
    let mut w = new_world();
    let x = Identity(3);
    w.on_connect(x);
    w.private_authenticate(x, KEY.to_string());
    assert_eq!(w.lifecycle.pending_auth.len(), 1);

    // The disconnect races ahead of the authentication tick.
    w.on_disconnect(x);
    assert_eq!(w.lifecycle.pending_auth.len(), 0);

    w.process_auth_tick(9);
    assert_ne!(w.membership_of(x), Membership::Online);
    assert_eq!(w.membership_of(x), Membership::Disconnected);
    assert_eq!(w.lifecycle.pending_auth.len(), 0);
    assert_eq!(w.lifecycle.accounts.len(), 0);
}

#[test]
fn membership_sets_stay_exclusive() {
    let mut w = new_world();
    let x = Identity(4);

    assert_eq!(sets_containing(&w, x), 0);
    w.on_connect(x);
    assert_eq!(sets_containing(&w, x), 1);
    w.private_authenticate(x, KEY.to_string());
    assert_eq!(sets_containing(&w, x), 1);
    w.process_auth_tick(1);
    assert_eq!(sets_containing(&w, x), 1);
    assert_eq!(w.membership_of(x), Membership::Online);
    w.on_disconnect(x);
    assert_eq!(sets_containing(&w, x), 1);
    assert_eq!(w.membership_of(x), Membership::Offline);
    // Reconnecting as a guest leaves the offline set.
    w.on_connect(x);
    assert_eq!(sets_containing(&w, x), 1);
    assert_eq!(w.membership_of(x), Membership::Guest);
    // A second authentication reuses the account.
    w.private_authenticate(x, KEY.to_string());
    w.process_auth_tick(2);
    assert_eq!(sets_containing(&w, x), 1);
    assert_eq!(w.membership_of(x), Membership::Online);
    assert_eq!(w.lifecycle.accounts.len(), 1);
    assert_eq!(w.store.entity_count(), 1);
}

#[test]
fn guest_with_account_moves_offline_on_disconnect() {
    let mut w = new_world();
    let x = Identity(5);
    w.on_connect(x);
    w.private_authenticate(x, KEY.to_string());
    w.process_auth_tick(1);
    w.on_disconnect(x);
    w.on_connect(x);
    assert_eq!(w.membership_of(x), Membership::Guest);
    // Disconnecting while still a guest keeps the account tracked.
    w.on_disconnect(x);
    assert_eq!(w.membership_of(x), Membership::Offline);
    assert_eq!(sets_containing(&w, x), 1);
}

#[test]
fn double_connect_is_a_noop() {
    let mut w = new_world();
    let x = Identity(6);
    w.on_connect(x);
    w.on_connect(x);
    assert_eq!(w.lifecycle.guests.len(), 1);
    // Disconnecting an unknown identity is harmless too.
    w.on_disconnect(Identity(7));
    assert_eq!(w.lifecycle.guests.len(), 1);
}

#[test]
fn chunk_job_starts_and_stops_with_online_population() {
    let mut w = new_world();
    assert!(!w.scheduler.is_running(JobKind::ChunkRecompute));
    assert!(w.scheduler.is_running(JobKind::PositionUpdates));
    assert!(w.scheduler.is_running(JobKind::RotationUpdates));

    let x = Identity(8);
    w.on_connect(x);
    w.private_authenticate(x, KEY.to_string());
    w.process_auth_tick(1);
    assert!(w.scheduler.is_running(JobKind::ChunkRecompute));

    // Last online identity leaving tears the chunk job down.
    w.on_disconnect(x);
    assert!(!w.scheduler.is_running(JobKind::ChunkRecompute));
}

#[test]
fn scheduler_start_and_stop_are_idempotent() {
    let mut s = Scheduler::new();
    assert!(s.start_job(JobKind::ChunkRecompute, 5000));
    assert!(!s.start_job(JobKind::ChunkRecompute, 1234));
    assert_eq!(s.jobs.len(), 1);
    // The interval of the running job is kept by the second start.
    assert_eq!(s.jobs[0].interval_ms, 5000);

    assert!(s.stop_job(JobKind::ChunkRecompute));
    assert!(!s.stop_job(JobKind::ChunkRecompute));
    assert_eq!(s.jobs.len(), 0);
}

#[test]
fn two_clients_get_distinct_accounts() {
    let mut w = new_world();
    let a = Identity(10);
    let b = Identity(11);
    w.on_connect(a);
    w.on_connect(b);
    w.private_authenticate(a, KEY.to_string());
    w.private_authenticate(b, KEY.to_string());
    w.process_auth_tick(1);
    assert_eq!(w.lifecycle.accounts.len(), 2);
    assert_eq!(w.store.entity_count(), 2);
    let acc_a = w.lifecycle.find_account(a).unwrap();
    let acc_b = w.lifecycle.find_account(b).unwrap();
    assert_ne!(acc_a.id, acc_b.id);
    assert_eq!(w.membership_of(a), Membership::Online);
    assert_eq!(w.membership_of(b), Membership::Online);
}
