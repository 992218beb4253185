use std::collections::HashSet;
use world_pumpkin::geometry::{local_chunk_pos, BlockPos, Cuboid};
use world_pumpkin::pattern::{parse_block_pattern, parse_block_state, BlockStateTable};

fn pos(x: i32, y: i32, z: i32) -> BlockPos {
    BlockPos { x, y, z }
}

fn assert_unique(positions: &[BlockPos]) {
    let unique: HashSet<_> = positions.iter().copied().collect();
    assert_eq!(unique.len(), positions.len());
}

fn blocks() -> BlockStateTable {
    let mut table = BlockStateTable::new();
    table.insert_state("stone", 1).unwrap();
    table.insert_state("grass_block", 9).unwrap();
    table.insert_state("dirt", 10).unwrap();
    table.insert_state("oak_log[axis=x]", 136).unwrap();
    table.insert_state("oak_log[axis=y]", 137).unwrap();
    table
}

#[test]
fn cuboid_normalizes_and_counts_volume() {
    let cuboid = Cuboid::new(BlockPos { x: 2, y: 4, z: 6 }, BlockPos { x: 1, y: 3, z: 5 });

    assert_eq!(cuboid.volume(), 8);
}

#[test]
fn cuboid_iterates_x_then_z_then_y() {
    let cuboid = Cuboid::new(BlockPos { x: 0, y: 0, z: 0 }, BlockPos { x: 1, y: 0, z: 1 });
    let mut iter = cuboid.iter();
    let mut positions = Vec::new();
    while let Some(p) = iter.next() {
        positions.push(p);
    }

    assert_eq!(
        positions,
        vec![
            BlockPos { x: 0, y: 0, z: 0 },
            BlockPos { x: 1, y: 0, z: 0 },
            BlockPos { x: 0, y: 0, z: 1 },
            BlockPos { x: 1, y: 0, z: 1 },
        ]
    );
}

#[test]
fn wall_positions_only_include_vertical_faces() {
    let cuboid = Cuboid::new(pos(0, 0, 0), pos(2, 2, 2));
    let positions = cuboid.wall_positions();

    assert_eq!(positions.len(), 24);
    assert!(positions.contains(&pos(0, 1, 1)));
    assert!(positions.contains(&pos(2, 1, 1)));
    assert!(positions.contains(&pos(1, 1, 0)));
    assert!(positions.contains(&pos(1, 1, 2)));
    assert!(!positions.contains(&pos(1, 0, 1)));
    assert!(!positions.contains(&pos(1, 2, 1)));
    assert_unique(&positions);
}

#[test]
fn wall_positions_do_not_duplicate_thin_selections() {
    let cuboid = Cuboid::new(pos(0, 0, 0), pos(0, 2, 2));
    let positions = cuboid.wall_positions();

    assert_eq!(positions.len(), 9);
    assert_unique(&positions);
}

#[test]
fn wall_positions_include_one_block_tall_perimeter() {
    let cuboid = Cuboid::new(pos(0, 5, 0), pos(2, 5, 2));
    let positions = cuboid.wall_positions();

    assert_eq!(positions.len(), 8);
    assert!(positions.contains(&pos(0, 5, 0)));
    assert!(positions.contains(&pos(1, 5, 0)));
    assert!(positions.contains(&pos(2, 5, 2)));
    assert!(!positions.contains(&pos(1, 5, 1)));
    assert_unique(&positions);
}

#[test]
fn block_parser_resolves_namespaced_default_state() {
    assert_eq!(parse_block_state("minecraft:stone", &blocks()).unwrap(), 1);
}

#[test]
fn block_parser_resolves_generated_property_state() {
    assert!(parse_block_state("oak_log[axis=x]", &blocks()).is_ok());
}

#[test]
fn block_parser_resolves_namespaced_property_state() {
    let table = blocks();
    assert_eq!(
        parse_block_state("minecraft:oak_log[axis=x]", &table).unwrap(),
        parse_block_state("oak_log[axis=x]", &table).unwrap()
    );
}

#[test]
fn block_parser_keeps_numeric_state_ids_available() {
    assert_eq!(parse_block_state("42", &blocks()).unwrap(), 42);
}

#[test]
fn block_pattern_accepts_weighted_entries() {
    let pattern = parse_block_pattern("50%dirt,50%grass_block", &blocks()).unwrap();

    assert_eq!(pattern.total_weight(), 100);
    assert_eq!(pattern.choice_count(), 2);
}

#[test]
fn block_pattern_keeps_single_blocks_available() {
    let pattern = parse_block_pattern("stone", &blocks()).unwrap();

    assert_eq!(pattern.total_weight(), 1);
    assert_eq!(pattern.pick_state(BlockPos { x: 0, y: 0, z: 0 }, 0), 1);
}

#[test]
fn block_pattern_rejects_zero_weight() {
    assert!(parse_block_pattern("0%dirt,100%grass_block", &blocks()).is_err());
}

#[test]
fn local_chunk_pos_handles_negative_coordinates() {
    let pos = local_chunk_pos(BlockPos {
        x: -1,
        y: 64,
        z: -17,
    });

    assert_eq!(pos.x, 15);
    assert_eq!(pos.y, 64);
    assert_eq!(pos.z, 15);
}

#[test]
fn cuboid_corner_order_does_not_matter() {
    let a = pos(5, -3, 2);
    let b = pos(-1, 7, 2);
    assert_eq!(Cuboid::new(a, b), Cuboid::new(b, a));
    assert_eq!(Cuboid::new(a, b).volume(), 7 * 11 * 1);
}
