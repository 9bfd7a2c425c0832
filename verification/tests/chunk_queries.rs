//! Chunk math, the chunk recomputation tick, and the proximity query.

use entity_sync::chunks::{chunk_coord, chunk_of};
use entity_sync::config::SchedulerConfig;
use entity_sync::ids::{EntityId, Identity};
use entity_sync::world::World;

const SERVER: Identity = Identity(999);
const KEY: &str = "test_auth_key";

fn world_with_cell(cell: u32) -> World {
    let mut config = SchedulerConfig::standard();
    config.chunk_cell_size = cell;
    World::new(SERVER, KEY.to_string(), config)
}

/// Connects and authenticates an identity, returning its entity id.
fn join(w: &mut World, x: Identity, now: u64) -> EntityId {
    w.on_connect(x);
    w.private_authenticate(x, KEY.to_string());
    let before = w.store.entity_count();
    w.process_auth_tick(now);
    assert_eq!(w.store.entity_count(), before + 1);
    w.store.records[before].entity.id
}

#[test]
fn chunk_uses_floor_division() {
    assert_eq!(chunk_of(125, -10, 50), (2, -1));
    assert_eq!(chunk_of(-1, 0, 50), (-1, 0));
    assert_eq!(chunk_coord(0, 50), 0);
    assert_eq!(chunk_coord(49, 50), 0);
    assert_eq!(chunk_coord(50, 50), 1);
    assert_eq!(chunk_coord(-50, 50), -1);
    assert_eq!(chunk_coord(-51, 50), -2);
    assert_eq!(chunk_coord(100, 16), 6);
    assert_eq!(chunk_coord(i32::MIN, 1), i32::MIN);
    assert_eq!(chunk_coord(i32::MAX, 1), i32::MAX);
}

#[test]
fn submitted_position_becomes_chunk() {
    let mut w = world_with_cell(50);
    let x = Identity(1);
    let id = join(&mut w, x, 0);

    assert!(w.submit_position(id, 100, 0, 200, 1).is_ok());
    let moved = w.process_position_updates(SERVER).unwrap();
    assert_eq!(moved, vec![id]);
    let pos = w.get_position(id).unwrap();
    assert_eq!((pos.x, pos.y, pos.z), (100, 0, 200));

    let changed = w.calculate_current_chunks(7);
    assert_eq!(changed, vec![id]);
    let chunk = w.get_chunk(id).unwrap();
    assert_eq!((chunk.chunk_x, chunk.chunk_z), (2, 4));
    assert_eq!(chunk.modified_at, 7);
}

#[test]
fn unchanged_cell_keeps_modified_at() {
    let mut w = world_with_cell(50);
    let x = Identity(1);
    let id = join(&mut w, x, 0);

    assert!(w.submit_position(id, 60, 0, 60, 1).is_ok());
    w.process_position_updates(SERVER).unwrap();
    let first = w.calculate_current_chunks(5);
    assert_eq!(first, vec![id]);

    // Moving within the same cell triggers no chunk write at all.
    assert!(w.submit_position(id, 99, 0, 99, 2).is_ok());
    w.process_position_updates(SERVER).unwrap();
    let second = w.calculate_current_chunks(9);
    assert!(second.is_empty());
    let chunk = w.get_chunk(id).unwrap();
    assert_eq!((chunk.chunk_x, chunk.chunk_z), (1, 1));
    assert_eq!(chunk.modified_at, 5);
}

#[test]
fn offline_owners_are_not_reindexed() {
    let mut w = world_with_cell(50);
    let x = Identity(1);
    let id = join(&mut w, x, 0);

    assert!(w.submit_position(id, 500, 0, 500, 1).is_ok());
    w.process_position_updates(SERVER).unwrap();

    w.on_disconnect(x);
    let changed = w.calculate_current_chunks(3);
    assert!(changed.is_empty());
    let chunk = w.get_chunk(id).unwrap();
    assert_eq!((chunk.chunk_x, chunk.chunk_z), (0, 0));
}

#[test]
fn nearby_chunks_clamp_at_zero() {
    let mut w = world_with_cell(50);
    let viewer = Identity(1);
    let near = Identity(2);
    let far = Identity(3);
    let negative = Identity(4);

    let viewer_id = join(&mut w, viewer, 0);
    let near_id = join(&mut w, near, 0);
    let far_id = join(&mut w, far, 0);
    let negative_id = join(&mut w, negative, 0);

    // Viewer stays at the origin cell (0, 0).
    assert!(w.submit_position(near_id, 150, 0, 150, 1).is_ok()); // cell (3, 3)
    assert!(w.submit_position(far_id, 200, 0, 0, 1).is_ok()); // cell (4, 0)
    assert!(w.submit_position(negative_id, -1, 0, 0, 1).is_ok()); // cell (-1, 0), stored far outside
    w.process_position_updates(SERVER).unwrap();
    w.calculate_current_chunks(2);

    let nearby = w.nearby_entity_chunks(viewer, 3);
    let mut ids: Vec<u32> = nearby.iter().map(|c| c.id.0).collect();
    ids.sort();
    // Bounds are [0, 3] in both axes: the viewer and the (3, 3) neighbour
    // qualify; the (4, 0) cell is out of range, and the negative cell is
    // stored as a huge unsigned value, not folded back under the clamped
    // lower bound.
    assert_eq!(ids, vec![viewer_id.0, near_id.0]);
}

#[test]
fn nearby_chunks_for_unknown_viewer_is_empty() {
    let mut w = world_with_cell(50);
    let x = Identity(1);
    join(&mut w, x, 0);
    let nearby = w.nearby_entity_chunks(Identity(55), 3);
    assert!(nearby.is_empty());
}

#[test]
fn nearby_radius_saturates_at_word_edges() {
    let mut w = world_with_cell(50);
    let viewer = Identity(1);
    let other = Identity(2);
    let viewer_id = join(&mut w, viewer, 0);
    let other_id = join(&mut w, other, 0);

    assert!(w.submit_position(other_id, 150, 0, 0, 1).is_ok()); // cell (3, 0)
    w.process_position_updates(SERVER).unwrap();
    w.calculate_current_chunks(2);

    // A saturating radius takes in every stored cell.
    let all = w.nearby_entity_chunks(viewer, u32::MAX);
    assert_eq!(all.len(), 2);
    let mut ids: Vec<u32> = all.iter().map(|c| c.id.0).collect();
    ids.sort();
    assert_eq!(ids, vec![viewer_id.0, other_id.0]);

    // Radius zero sees only cells equal to the viewer's own.
    let own = w.nearby_entity_chunks(viewer, 0);
    assert_eq!(own.len(), 1);
    assert_eq!(own[0].id, viewer_id);
}
