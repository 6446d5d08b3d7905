use chunky_bevy::coords::{to_chunk_coord, to_world_origin, ChunkPos, ChunkSize, WorldPos};

fn size(x: i64, y: i64, z: i64) -> ChunkSize {
    ChunkSize::new(x, y, z).expect("positive components")
}

#[test]
fn floor_semantics_negative_unit() {
    let s = size(10, 10, 10);
    let c = to_chunk_coord(WorldPos { x: -1, y: -1, z: -1 }, &s);
    assert_eq!(c, ChunkPos { x: -1, y: -1, z: -1 });
}

#[test]
fn floor_semantics_negative_boundary() {
    let s = size(10, 10, 10);
    let c = to_chunk_coord(WorldPos { x: -10, y: 0, z: 0 }, &s);
    assert_eq!(c, ChunkPos { x: -1, y: 0, z: 0 });
}

#[test]
fn floor_semantics_positive() {
    let s = size(10, 10, 10);
    let c = to_chunk_coord(WorldPos { x: 15, y: 5, z: 23 }, &s);
    assert_eq!(c, ChunkPos { x: 1, y: 0, z: 2 });
    let c2 = to_chunk_coord(WorldPos { x: 9, y: 10, z: 19 }, &s);
    assert_eq!(c2, ChunkPos { x: 0, y: 1, z: 1 });
}

#[test]
fn world_origin_is_minimum_corner() {
    let s = size(10, 10, 10);
    let o = to_world_origin(ChunkPos { x: 1, y: 0, z: 2 }, &s);
    assert_eq!(o, WorldPos { x: 10, y: 0, z: 20 });
    let o2 = to_world_origin(ChunkPos { x: -1, y: -2, z: 0 }, &s);
    assert_eq!(o2, WorldPos { x: -10, y: -20, z: 0 });
}

#[test]
fn round_trip_near_inverse() {
    let sizes = [(10, 10, 10), (1, 1, 1), (3, 7, 16), (5, 2, 9)];
    let coords = [
        (0, 0, 0),
        (1, 0, 2),
        (-1, -1, -1),
        (7, -13, 100),
        (-50, 42, -3),
    ];
    for &(sx, sy, sz) in sizes.iter() {
        let s = size(sx, sy, sz);
        for &(cx, cy, cz) in coords.iter() {
            let c = ChunkPos { x: cx, y: cy, z: cz };
            let back = to_chunk_coord(to_world_origin(c, &s), &s);
            assert_eq!(back, c);
        }
    }
}

#[test]
fn chunk_size_refuses_nonpositive_components() {
    assert!(ChunkSize::new(0, 10, 10).is_none());
    assert!(ChunkSize::new(10, 0, 10).is_none());
    assert!(ChunkSize::new(10, 10, 0).is_none());
    assert!(ChunkSize::new(-5, 10, 10).is_none());
    assert!(ChunkSize::new(10, 10, 10).is_some());
    assert!(ChunkSize::new(1, 1, 1).is_some());
}

#[test]
fn chunk_size_components() {
    let s = size(3, 7, 16);
    assert_eq!(s.x(), 3);
    assert_eq!(s.y(), 7);
    assert_eq!(s.z(), 16);
}
