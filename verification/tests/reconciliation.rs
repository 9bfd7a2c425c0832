//! Reconciliation behaviour: last-writer-wins, buffer draining, no-op
//! write avoidance, and the submission errors.

use entity_sync::WorldError;
use entity_sync::config::SchedulerConfig;
use entity_sync::entity::EntityType;
use entity_sync::ids::{EntityId, Identity, PlayerAccountId};
use entity_sync::world::World;

const SERVER: Identity = Identity(999);

fn world_with_cell(cell: u32) -> World {
    let mut config = SchedulerConfig::standard();
    config.chunk_cell_size = cell;
    World::new(SERVER, "test_auth_key".to_string(), config)
}

#[test]
fn latest_buffered_update_wins() {
    let mut w = world_with_cell(50);
    let id = w.create_entity_tree(EntityType::NonPlayer, PlayerAccountId(0), 0);

    assert!(w.submit_position(id, 1, 1, 1, 10).is_ok());
    assert!(w.submit_position(id, 2, 2, 2, 11).is_ok());
    assert!(w.submit_position(id, 30, 40, 50, 12).is_ok());
    assert_eq!(w.buffer.position_updates.len(), 3);

    let events = w.process_position_updates(SERVER).unwrap();
    assert_eq!(events, vec![id]);

    let pos = w.get_position(id).unwrap();
    assert_eq!((pos.x, pos.y, pos.z), (30, 40, 50));
    assert_eq!(w.buffer.position_updates.len(), 0);
    assert_eq!(w.buffer.buffered_position_count(id), 0);
}

#[test]
fn rotation_latest_update_wins() {
    let mut w = world_with_cell(50);
    let id = w.create_entity_tree(EntityType::Player, PlayerAccountId(0), 0);

    assert!(w.submit_rotation(id, 10, 20, 30, 1).is_ok());
    assert!(w.submit_rotation(id, 45, 90, 0, 2).is_ok());

    let events = w.process_rotation_updates(SERVER).unwrap();
    assert_eq!(events, vec![id]);

    let rot = w.get_rotation(id).unwrap();
    assert_eq!((rot.rot_x, rot.rot_y, rot.rot_z), (45, 90, 0));
    assert_eq!(w.buffer.rotation_updates.len(), 0);
}

#[test]
fn noop_submission_writes_nothing() {
    let mut w = world_with_cell(50);
    let id = w.create_entity_tree(EntityType::Player, PlayerAccountId(0), 0);

    assert!(w.submit_position(id, 100, 0, 200, 1).is_ok());
    let first = w.process_position_updates(SERVER).unwrap();
    assert_eq!(first, vec![id]);

    // Submitting the canonical value again is drained without a write.
    assert!(w.submit_position(id, 100, 0, 200, 2).is_ok());
    assert!(w.submit_position(id, 100, 0, 200, 3).is_ok());
    let second = w.process_position_updates(SERVER).unwrap();
    assert!(second.is_empty());

    let pos = w.get_position(id).unwrap();
    assert_eq!((pos.x, pos.y, pos.z), (100, 0, 200));
}

#[test]
fn buffer_drains_even_for_deleted_entity() {
    let mut w = world_with_cell(50);
    let kept = w.create_entity_tree(EntityType::NonPlayer, PlayerAccountId(0), 0);
    let doomed = w.create_entity_tree(EntityType::NonPlayer, PlayerAccountId(0), 0);

    assert!(w.submit_position(kept, 5, 6, 7, 1).is_ok());
    assert!(w.submit_position(doomed, 8, 9, 10, 2).is_ok());

    // The entity disappears between submission and the tick; its update
    // is dropped, the rest of the batch still applies.
    assert!(w.store.delete_entity(doomed));

    let events = w.process_position_updates(SERVER).unwrap();
    assert_eq!(events, vec![kept]);
    assert_eq!(w.buffer.position_updates.len(), 0);

    let pos = w.get_position(kept).unwrap();
    assert_eq!((pos.x, pos.y, pos.z), (5, 6, 7));
    assert!(w.get_position(doomed).is_none());
}

#[test]
fn submit_unknown_entity_is_rejected() {
    let mut w = world_with_cell(50);
    let r = w.submit_position(EntityId(77), 1, 2, 3, 0);
    assert_eq!(r, Err(WorldError::EntityNotFound));
    let r = w.submit_rotation(EntityId(77), 1, 2, 3, 0);
    assert_eq!(r, Err(WorldError::EntityNotFound));
    assert_eq!(w.buffer.position_updates.len(), 0);
    assert_eq!(w.buffer.rotation_updates.len(), 0);
}

#[test]
fn ticks_reject_non_scheduler_callers() {
    let mut w = world_with_cell(50);
    let id = w.create_entity_tree(EntityType::Player, PlayerAccountId(0), 0);
    assert!(w.submit_position(id, 1, 2, 3, 0).is_ok());

    let r = w.process_position_updates(Identity(5));
    assert_eq!(r, Err(WorldError::Unauthorized));
    // The rejected call had no partial effect.
    assert_eq!(w.buffer.position_updates.len(), 1);

    let r = w.process_rotation_updates(Identity(5));
    assert_eq!(r, Err(WorldError::Unauthorized));

    assert!(w.process_position_updates(SERVER).is_ok());
    assert_eq!(w.buffer.position_updates.len(), 0);
}

#[test]
fn delete_cascades_to_buffered_updates() {
    let mut w = world_with_cell(50);
    let id = w.create_entity_tree(EntityType::World, PlayerAccountId(0), 0);
    assert!(w.submit_position(id, 1, 2, 3, 0).is_ok());
    assert!(w.submit_rotation(id, 4, 5, 6, 0).is_ok());

    assert!(w.delete_entity(id));

    assert!(w.get_position(id).is_none());
    assert!(w.get_rotation(id).is_none());
    assert!(w.get_chunk(id).is_none());
    assert_eq!(w.buffer.buffered_position_count(id), 0);
    assert_eq!(w.buffer.buffered_rotation_count(id), 0);
    // Deleting again is a no-op, not an error.
    assert!(!w.delete_entity(id));
}

#[test]
fn entity_triad_is_created_atomically() {
    let mut w = world_with_cell(50);
    let id = w.create_entity_tree(EntityType::Player, PlayerAccountId(3), 42);

    let pos = w.get_position(id).unwrap();
    assert_eq!((pos.x, pos.y, pos.z), (0, 0, 0));
    let rot = w.get_rotation(id).unwrap();
    assert_eq!((rot.rot_x, rot.rot_y, rot.rot_z), (0, 0, 0));
    let chunk = w.get_chunk(id).unwrap();
    assert_eq!((chunk.chunk_x, chunk.chunk_z), (0, 0));
    assert_eq!(chunk.modified_at, 42);
    assert_eq!(w.store.entity_count(), 1);
}
