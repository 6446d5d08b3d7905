use bevy::ecs::entity::Entity;
use chunky_bevy::coords::{ChunkPos, ChunkSize, WorldPos};
use chunky_bevy::loader::{
    chunks_in_box, loader_pass, spawn_chunks_rect, spawn_chunks_rect_from_world_pos, ChunkLoader,
    ChunkLoaderSettings, LoadRadius, LoadRequest,
};
use chunky_bevy::registry::ChunkManager;

fn manager() -> ChunkManager {
    ChunkManager::new(ChunkSize::new(10, 10, 10).expect("positive components"))
}

fn assert_distinct(coords: &[ChunkPos]) {
    for (i, a) in coords.iter().enumerate() {
        for b in coords.iter().skip(i + 1) {
            assert_ne!(a, b);
        }
    }
}

#[test]
fn box_enumeration_exact() {
    let m = manager();
    let requests = vec![LoadRequest {
        pos: WorldPos { x: 0, y: 0, z: 0 },
        radius: LoadRadius { x: 1, y: 0, z: 1 },
    }];
    let missing = loader_pass(&m, &requests);
    assert_eq!(missing.len(), 9);
    assert_distinct(&missing);
    for x in [-1, 0, 1] {
        for z in [-1, 0, 1] {
            assert!(missing.contains(&ChunkPos { x, y: 0, z }));
        }
    }
}

#[test]
fn box_enumeration_excludes_loaded() {
    let mut m = manager();
    m.insert(ChunkPos { x: 0, y: 0, z: 0 }, Entity::from_bits(1));
    m.insert(ChunkPos { x: 1, y: 0, z: 1 }, Entity::from_bits(2));
    let requests = vec![LoadRequest {
        pos: WorldPos { x: 0, y: 0, z: 0 },
        radius: LoadRadius { x: 1, y: 0, z: 1 },
    }];
    let missing = loader_pass(&m, &requests);
    assert_eq!(missing.len(), 7);
    assert!(!missing.contains(&ChunkPos { x: 0, y: 0, z: 0 }));
    assert!(!missing.contains(&ChunkPos { x: 1, y: 0, z: 1 }));
    assert!(missing.contains(&ChunkPos { x: -1, y: 0, z: -1 }));
}

#[test]
fn no_duplicate_requests_within_one_pass() {
    let m = manager();
    let requests = vec![
        LoadRequest {
            pos: WorldPos { x: 0, y: 0, z: 0 },
            radius: LoadRadius { x: 1, y: 0, z: 0 },
        },
        LoadRequest {
            pos: WorldPos { x: 10, y: 0, z: 0 },
            radius: LoadRadius { x: 1, y: 0, z: 0 },
        },
    ];
    let missing = loader_pass(&m, &requests);
    // boxes {-1,0,1} and {0,1,2} on the x axis overlap in {0,1}
    assert_eq!(missing.len(), 4);
    assert_distinct(&missing);
    for x in [-1, 0, 1, 2] {
        assert!(missing.contains(&ChunkPos { x, y: 0, z: 0 }));
    }
}

#[test]
fn zero_radius_loads_exactly_one_chunk() {
    let m = manager();
    let requests = vec![LoadRequest {
        pos: WorldPos { x: 15, y: 5, z: 23 },
        radius: LoadRadius { x: 0, y: 0, z: 0 },
    }];
    let missing = loader_pass(&m, &requests);
    assert_eq!(missing, vec![ChunkPos { x: 1, y: 0, z: 2 }]);
}

#[test]
fn end_to_end_scenario() {
    let mut m = manager();
    let requests = vec![LoadRequest {
        pos: WorldPos { x: 15, y: 5, z: 23 },
        radius: LoadRadius { x: 0, y: 0, z: 0 },
    }];
    let missing = loader_pass(&m, &requests);
    assert_eq!(missing, vec![ChunkPos { x: 1, y: 0, z: 2 }]);

    // the host materializes a chunk object for the missing coordinate
    let occupant = Entity::from_bits(42);
    for c in &missing {
        assert_eq!(m.insert(*c, occupant), None);
        assert_eq!(
            m.chunk_to_world_origin(c),
            WorldPos { x: 10, y: 0, z: 20 }
        );
    }

    assert_eq!(m.get_chunk_form_pos(&WorldPos { x: 15, y: 5, z: 23 }), Some(occupant));

    // the pass is idempotent once the chunk exists
    let missing_again = loader_pass(&m, &requests);
    assert!(missing_again.is_empty());
}

#[test]
fn chunks_in_box_counts() {
    let coords = chunks_in_box(
        ChunkPos { x: 0, y: 0, z: 0 },
        LoadRadius { x: 2, y: 1, z: 0 },
    );
    assert_eq!(coords.len(), 15);
    assert_distinct(&coords);
    for c in &coords {
        assert!((-2..=2).contains(&c.x));
        assert!((-1..=1).contains(&c.y));
        assert_eq!(c.z, 0);
    }
}

#[test]
fn observer_radius_from_chunk_loader() {
    let observer = ChunkLoader(LoadRadius { x: 1, y: 1, z: 1 });
    let m = manager();
    let requests = vec![LoadRequest {
        pos: WorldPos { x: 100, y: 100, z: 100 },
        radius: observer.0,
    }];
    let missing = loader_pass(&m, &requests);
    assert_eq!(missing.len(), 27);
    assert!(missing.contains(&ChunkPos { x: 10, y: 10, z: 10 }));
    assert!(missing.contains(&ChunkPos { x: 9, y: 11, z: 9 }));
}

#[test]
fn rect_spawning_normalizes_corners() {
    let a = spawn_chunks_rect(ChunkPos { x: 0, y: 0, z: 0 }, ChunkPos { x: 1, y: 1, z: 1 });
    let b = spawn_chunks_rect(ChunkPos { x: 1, y: 1, z: 1 }, ChunkPos { x: 0, y: 0, z: 0 });
    assert_eq!(a.len(), 8);
    assert_eq!(b.len(), 8);
    assert_distinct(&a);
    for c in &a {
        assert!(b.contains(c));
    }
}

#[test]
fn rect_spawning_from_world_positions() {
    // corners (25, 0, -1) and (0, 0, 0) with 10x10x10 chunks map through the
    // coordinate mapper to chunk corners (2, 0, -1) and (0, 0, 0)
    let size = ChunkSize::new(10, 10, 10).expect("positive components");
    let coords = spawn_chunks_rect_from_world_pos(
        WorldPos { x: 25, y: 0, z: -1 },
        WorldPos { x: 0, y: 0, z: 0 },
        &size,
    );
    assert_eq!(coords.len(), 6);
    assert_distinct(&coords);
    for x in 0..=2 {
        for z in -1..=0 {
            assert!(coords.contains(&ChunkPos { x, y: 0, z }));
        }
    }
}

#[test]
fn loader_settings_hold_bound() {
    let settings = ChunkLoaderSettings { max_loaded: 0 };
    assert_eq!(settings.max_loaded, 0);
    let bounded = ChunkLoaderSettings { max_loaded: 128 };
    assert_eq!(bounded.max_loaded, 128);
}
