use core_sim::chunking::{
    extract_chunk_from_world, ChunkConfig, ChunkId, ChunkManager, DEFAULT_CHUNK_SIZE_IN_TILES,
};
use core_sim::civ::{CivId, EntityId};
use core_sim::position::Position;
use core_sim::terrain::TerrainType;
use core_sim::world_map::WorldMap;

#[test]
fn test_chunk_id_from_position() {
    let pos = Position::new(15, 15);
    let chunk_id = ChunkId::from_position(pos, 8);
    assert_eq!(chunk_id, ChunkId::new(1, 1));
}

#[test]
fn test_chunks_in_radius() {
    let manager = ChunkManager::new(ChunkConfig {
        chunk_size: DEFAULT_CHUNK_SIZE_IN_TILES,
        load_radius: 1,
    });

    let camera = (4.0f32, 4.0f32);
    let chunks = manager.get_chunks_in_radius(Position::new(camera.0 as i32, camera.1 as i32));
    assert_eq!(chunks.len(), 9);
}

#[test]
fn chunk_of_negative_position_rounds_toward_zero() {
    assert_eq!(ChunkId::from_position(Position::new(-1, -9), 8), ChunkId::new(0, -1));
    assert_eq!(ChunkId::from_position(Position::new(-16, 7), 8), ChunkId::new(-2, 0));
}

#[test]
fn chunk_of_position_with_huge_chunk_size() {
    // A size above i32::MAX is taken as a negative i32, as `as` does.
    assert_eq!(ChunkId::from_position(Position::new(10, -10), u32::MAX - 1), ChunkId::new(-5, 5));
}

#[test]
fn chunks_in_radius_are_listed_column_after_column() {
    let manager = ChunkManager::new(ChunkConfig { chunk_size: 8, load_radius: 1 });
    let chunks = manager.get_chunks_in_radius(Position::new(17, 9));
    let expected = vec![
        ChunkId::new(1, 0), ChunkId::new(1, 1), ChunkId::new(1, 2),
        ChunkId::new(2, 0), ChunkId::new(2, 1), ChunkId::new(2, 2),
        ChunkId::new(3, 0), ChunkId::new(3, 1), ChunkId::new(3, 2),
    ];
    assert_eq!(chunks, expected);
}

#[test]
fn default_radius_square_has_forty_nine_chunks() {
    let manager = ChunkManager::default();
    assert_eq!(manager.get_chunks_in_radius(Position::new(100, 100)).len(), 49);
}

#[test]
fn chunk_updates_bring_loaded_set_to_square() {
    let mut manager = ChunkManager::new(ChunkConfig { chunk_size: 8, load_radius: 0 });
    manager.mark_chunk_loaded(ChunkId::new(5, 5), EntityId(50));
    manager.mark_chunk_loaded(ChunkId::new(0, 0), EntityId(1));
    let (to_load, to_unload) = manager.get_chunk_updates(Position::new(3, 3));
    assert!(to_load.is_empty());
    assert_eq!(to_unload, vec![ChunkId::new(5, 5)]);

    let (to_load, to_unload) = manager.get_chunk_updates(Position::new(9, 1));
    assert_eq!(to_load, vec![ChunkId::new(1, 0)]);
    assert_eq!(to_unload, vec![ChunkId::new(5, 5), ChunkId::new(0, 0)]);
}

#[test]
fn marking_chunks_loaded_and_unloaded() {
    let mut manager = ChunkManager::default();
    let id = ChunkId::new(2, 3);
    assert!(!manager.is_chunk_loaded(id));
    manager.mark_chunk_loaded(id, EntityId(7));
    assert!(manager.is_chunk_loaded(id));
    assert_eq!(manager.get_chunk_entity(id), Some(EntityId(7)));
    manager.mark_chunk_loaded(id, EntityId(8));
    assert_eq!(manager.get_loaded_chunks(), vec![id]);
    assert_eq!(manager.get_chunk_entity(id), Some(EntityId(8)));
    manager.mark_chunk_unloaded(id);
    assert!(!manager.is_chunk_loaded(id));
    assert_eq!(manager.get_chunk_entity(id), None);
    assert!(manager.is_position_in_loaded_chunk(Position::new(20, 30)) == false);
}

#[test]
fn update_chunks_despawns_far_chunks_with_entities() {
    let mut manager = ChunkManager::new(ChunkConfig { chunk_size: 8, load_radius: 0 });
    assert!(manager.update_chunks().is_empty());
    manager.mark_chunk_loaded(ChunkId::new(0, 0), EntityId(10));
    manager.mark_chunk_loaded(ChunkId::new(4, 4), EntityId(44));
    manager.mark_chunk_loaded(ChunkId::new(6, 6), EntityId(66));
    manager.mark_chunk_unloaded(ChunkId::new(6, 6));
    manager.loaded_chunks.push(ChunkId::new(6, 6));
    manager.last_camera_pos = Some(Position::new(1, 1));
    let despawn = manager.update_chunks();
    assert_eq!(despawn, vec![EntityId(44)]);
    assert!(manager.is_chunk_loaded(ChunkId::new(0, 0)));
    assert!(!manager.is_chunk_loaded(ChunkId::new(4, 4)));
    // A chunk without an entity stays loaded.
    assert!(manager.is_chunk_loaded(ChunkId::new(6, 6)));
}

#[test]
fn extracting_a_chunk_reads_terrain_and_owner() {
    let mut map = WorldMap::new(4, 4);
    map.set_terrain(Position::new(2, 3), TerrainType::Forest);
    map.tiles[3][2].owner = Some(CivId(5));
    let data = extract_chunk_from_world(&map, ChunkId::new(1, 1), 2);
    assert_eq!(data.id, ChunkId::new(1, 1));
    assert_eq!(data.tiles.len(), 2);
    assert_eq!(data.tiles[0][1].terrain, "Forest");
    assert_eq!(data.tiles[1][0].owner, Some(5));
    assert_eq!(data.tiles[0][0].terrain, "Plains");
    let outside = extract_chunk_from_world(&map, ChunkId::new(2, 0), 2);
    assert_eq!(outside.tiles[0][0].terrain, "Unknown");
    assert_eq!(outside.tiles[1][1].owner, None);
}
