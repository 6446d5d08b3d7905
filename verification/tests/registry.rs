use bevy::ecs::entity::Entity;
use chunky_bevy::coords::{ChunkPos, ChunkSize, WorldPos};
use chunky_bevy::registry::ChunkManager;

fn manager() -> ChunkManager {
    ChunkManager::new(ChunkSize::new(10, 10, 10).expect("positive components"))
}

fn entity(n: u64) -> Entity {
    Entity::from_bits(n)
}

#[test]
fn new_registry_is_empty() {
    let m = manager();
    assert!(!m.is_loaded(&ChunkPos { x: 0, y: 0, z: 0 }));
    assert!(m.get_chunk(&ChunkPos { x: 1, y: 2, z: 3 }).is_none());
    assert_eq!(m.get_size().x(), 10);
    assert_eq!(m.get_size().y(), 10);
    assert_eq!(m.get_size().z(), 10);
}

#[test]
fn insert_then_lookup() {
    let mut m = manager();
    let c = ChunkPos { x: 3, y: -2, z: 0 };
    let a = entity(1);
    assert_eq!(m.insert(c, a), None);
    assert!(m.is_loaded(&c));
    assert_eq!(m.get_chunk(&c), Some(a));
    assert!(!m.is_loaded(&ChunkPos { x: 3, y: -2, z: 1 }));
}

#[test]
fn conflict_detection() {
    let mut m = manager();
    let c = ChunkPos { x: 0, y: 0, z: 0 };
    let a = entity(1);
    let b = entity(2);
    assert_eq!(m.insert(c, a), None);
    assert_eq!(m.insert(c, b), Some(a));
    assert_eq!(m.get_chunk(&c), Some(b));
}

#[test]
fn idempotent_removal() {
    let mut m = manager();
    let c = ChunkPos { x: 5, y: 5, z: 5 };
    assert_eq!(m.remove(&c), None);
    assert!(!m.is_loaded(&c));
    let a = entity(7);
    m.insert(c, a);
    assert_eq!(m.remove(&c), Some(a));
    assert_eq!(m.remove(&c), None);
    assert!(!m.is_loaded(&c));
}

#[test]
fn uniqueness_over_operation_sequences() {
    let mut m = manager();
    let c1 = ChunkPos { x: 1, y: 0, z: 0 };
    let c2 = ChunkPos { x: -1, y: 0, z: 0 };
    m.insert(c1, entity(1));
    m.insert(c2, entity(2));
    assert!(m.is_loaded(&c1));
    assert!(m.is_loaded(&c2));
    m.remove(&c1);
    assert!(!m.is_loaded(&c1));
    assert!(m.is_loaded(&c2));
    m.insert(c1, entity(3));
    assert!(m.is_loaded(&c1));
    m.remove(&c2);
    m.remove(&c1);
    assert!(!m.is_loaded(&c1));
    assert!(!m.is_loaded(&c2));
}

#[test]
fn get_chunk_form_pos_uses_containing_chunk() {
    let mut m = manager();
    let a = entity(9);
    m.insert(ChunkPos { x: 1, y: 0, z: 2 }, a);
    assert_eq!(m.get_chunk_form_pos(&WorldPos { x: 15, y: 5, z: 23 }), Some(a));
    assert_eq!(m.get_chunk_form_pos(&WorldPos { x: 15, y: 5, z: 33 }), None);
    assert_eq!(m.get_chunk_form_pos(&WorldPos { x: -15, y: 5, z: 23 }), None);
}

#[test]
fn get_chunk_pos_method_floors() {
    let m = manager();
    assert_eq!(
        m.get_chunk_pos(&WorldPos { x: -1, y: 15, z: 23 }),
        ChunkPos { x: -1, y: 1, z: 2 }
    );
}

#[test]
fn chunk_to_world_origin_method() {
    let m = manager();
    assert_eq!(
        m.chunk_to_world_origin(&ChunkPos { x: 1, y: 0, z: 2 }),
        WorldPos { x: 10, y: 0, z: 20 }
    );
}
