use std::collections::HashMap;
use world_pumpkin::commands::{
    parse_double_slash, parse_replace_args, parse_required_pattern, queue_edit, queue_replay,
    selection_cuboid, EditCommand, PatternSeeds, WorldCommand,
};
use world_pumpkin::config::Config;
use world_pumpkin::engine::{EditQueue, TickStep};
use world_pumpkin::geometry::BlockPos;
use world_pumpkin::history::ReplayDirection;
use world_pumpkin::pattern::BlockStateTable;
use world_pumpkin::state::{PluginState, SelectionSlot};

fn blocks() -> BlockStateTable {
    let mut table = BlockStateTable::new();
    table.insert_state("stone", 1).unwrap();
    table.insert_state("grass_block", 9).unwrap();
    table.insert_state("dirt", 10).unwrap();
    table
}

fn pos(x: i32, y: i32, z: i32) -> BlockPos {
    BlockPos { x, y, z }
}

/// Runs ticks until the queue is empty, reading and writing `world`
/// (missing blocks read as air, 0).
fn run_queue(
    queue: &mut EditQueue<String>,
    state: &mut PluginState,
    world: &mut HashMap<BlockPos, u16>,
    config: &Config,
) -> usize {
    let mut ticks = 0;
    while queue.len() > 0 {
        ticks += 1;
        let mut step = queue.begin_tick(config);
        loop {
            match step {
                TickStep::Read { pos } => {
                    let old = *world.get(&pos).unwrap_or(&0);
                    step = queue.after_read(old, config);
                }
                TickStep::Write { pos, state: s } => {
                    world.insert(pos, s);
                    step = queue.after_write();
                }
                TickStep::Idle => break,
                TickStep::Finished(f) => {
                    state.apply_finished(f);
                    break;
                }
            }
        }
        assert!(ticks < 1000);
    }
    ticks
}

fn selected_state(config: Config) -> PluginState {
    let mut state = PluginState::new(config);
    state.set_position("alex".to_owned(), SelectionSlot::Pos1, pos(0, 0, 0));
    state.set_position("alex".to_owned(), SelectionSlot::Pos2, pos(2, 1, 2));
    state
}

#[test]
fn set_then_undo_then_redo_round_trips_the_world() {
    let config = Config {
        blocks_per_tick: 5,
        ..Config::default()
    };
    let mut state = selected_state(config);
    let mut queue: EditQueue<String> = EditQueue::new();
    let mut seeds = PatternSeeds::new();
    let mut world: HashMap<BlockPos, u16> = HashMap::new();
    world.insert(pos(1, 0, 1), 10);

    let (command, args) = parse_double_slash("/set stone").unwrap();
    assert_eq!(command, WorldCommand::Fill);
    let to = parse_required_pattern(&args, "Usage: //set <block>", &blocks()).unwrap();
    let cuboid = selection_cuboid(&state, "alex").unwrap();
    let message = queue_edit(
        &state,
        &mut queue,
        &mut seeds,
        "alex".to_owned(),
        "overworld".to_owned(),
        "overworld".to_owned(),
        cuboid,
        EditCommand::Fill { to },
        false,
    )
    .unwrap();
    assert_eq!(message, "Queued 18 blocks.");
    assert_eq!(queue.queued_blocks(), 18);

    let ticks = run_queue(&mut queue, &mut state, &mut world, &config);
    assert_eq!(ticks, 4);
    assert_eq!(queue.queued_blocks(), 0);
    for x in 0..=2 {
        for y in 0..=1 {
            for z in 0..=2 {
                assert_eq!(world.get(&pos(x, y, z)), Some(&1));
            }
        }
    }

    let message = queue_replay(
        &mut state,
        &mut queue,
        "alex".to_owned(),
        "overworld".to_owned(),
        "overworld".to_owned(),
        ReplayDirection::Undo,
    )
    .unwrap();
    assert_eq!(message, "Undo queued (18 blocks).");
    run_queue(&mut queue, &mut state, &mut world, &config);
    assert_eq!(world.get(&pos(1, 0, 1)), Some(&10));
    assert_eq!(world.get(&pos(0, 0, 0)), Some(&0));

    let message = queue_replay(
        &mut state,
        &mut queue,
        "alex".to_owned(),
        "overworld".to_owned(),
        "overworld".to_owned(),
        ReplayDirection::Redo,
    )
    .unwrap();
    assert_eq!(message, "Redo queued (18 blocks).");
    run_queue(&mut queue, &mut state, &mut world, &config);
    assert_eq!(world.get(&pos(1, 0, 1)), Some(&1));
    assert_eq!(world.get(&pos(0, 0, 0)), Some(&1));
}

#[test]
fn replace_only_touches_matching_blocks() {
    let config = Config::default();
    let mut state = selected_state(config);
    let mut queue: EditQueue<String> = EditQueue::new();
    let mut seeds = PatternSeeds::new();
    let mut world: HashMap<BlockPos, u16> = HashMap::new();
    world.insert(pos(0, 0, 0), 10);
    world.insert(pos(2, 1, 2), 10);
    world.insert(pos(1, 1, 1), 9);

    let (command, args) = parse_double_slash("/replace dirt stone").unwrap();
    assert_eq!(command, WorldCommand::Replace);
    let (from, to) = parse_replace_args(&args, &blocks()).unwrap();
    assert_eq!(from, 10);
    let cuboid = selection_cuboid(&state, "alex").unwrap();
    queue_edit(
        &state,
        &mut queue,
        &mut seeds,
        "alex".to_owned(),
        "overworld".to_owned(),
        "overworld".to_owned(),
        cuboid,
        EditCommand::Replace { from, to },
        false,
    )
    .unwrap();
    run_queue(&mut queue, &mut state, &mut world, &config);
    assert_eq!(world.get(&pos(0, 0, 0)), Some(&1));
    assert_eq!(world.get(&pos(2, 1, 2)), Some(&1));
    assert_eq!(world.get(&pos(1, 1, 1)), Some(&9));
    assert_eq!(world.get(&pos(1, 0, 1)), None);
}

#[test]
fn walls_leave_the_inside_alone() {
    let config = Config::default();
    let mut state = PluginState::new(config);
    state.set_position("alex".to_owned(), SelectionSlot::Pos1, pos(0, 0, 0));
    state.set_position("alex".to_owned(), SelectionSlot::Pos2, pos(2, 2, 2));
    let mut queue: EditQueue<String> = EditQueue::new();
    let mut seeds = PatternSeeds::new();
    let mut world: HashMap<BlockPos, u16> = HashMap::new();
    let to = parse_required_pattern(&["stone".to_owned()], "Usage: //walls <block>", &blocks()).unwrap();
    let cuboid = selection_cuboid(&state, "alex").unwrap();
    let message = queue_edit(
        &state,
        &mut queue,
        &mut seeds,
        "alex".to_owned(),
        "w".to_owned(),
        "w".to_owned(),
        cuboid,
        EditCommand::Walls { to },
        false,
    )
    .unwrap();
    assert_eq!(message, "Queued 24 blocks.");
    run_queue(&mut queue, &mut state, &mut world, &config);
    assert_eq!(world.len(), 24);
    assert_eq!(world.get(&pos(1, 1, 1)), None);
}

#[test]
fn edits_are_refused_before_they_queue() {
    let config = Config {
        max_blocks_per_operation: 10,
        max_queued_operations: 1,
        ..Config::default()
    };
    let state = selected_state(config);
    let mut queue: EditQueue<String> = EditQueue::new();
    let mut seeds = PatternSeeds::new();
    let cuboid = selection_cuboid(&state, "alex").unwrap();
    let to = parse_required_pattern(&["stone".to_owned()], "u", &blocks()).unwrap();
    let err = queue_edit(
        &state,
        &mut queue,
        &mut seeds,
        "alex".to_owned(),
        "w".to_owned(),
        "w".to_owned(),
        cuboid,
        EditCommand::Fill { to },
        false,
    )
    .unwrap_err();
    assert_eq!(err, "Selection is too large: 18 blocks, limit is 10.");
    assert_eq!(queue.len(), 0);

    let to = parse_required_pattern(&["stone".to_owned()], "u", &blocks()).unwrap();
    queue_edit(
        &state,
        &mut queue,
        &mut seeds,
        "alex".to_owned(),
        "w".to_owned(),
        "w".to_owned(),
        cuboid,
        EditCommand::Fill { to },
        true,
    )
    .unwrap();
    let to = parse_required_pattern(&["stone".to_owned()], "u", &blocks()).unwrap();
    let err = queue_edit(
        &state,
        &mut queue,
        &mut seeds,
        "alex".to_owned(),
        "w".to_owned(),
        "w".to_owned(),
        cuboid,
        EditCommand::Fill { to },
        true,
    )
    .unwrap_err();
    assert_eq!(err, "Too many edits are already queued (1/1).");
}

#[test]
fn queued_blocks_limit_is_reported() {
    let config = Config {
        max_queued_blocks: 20,
        ..Config::default()
    };
    let state = selected_state(config);
    let mut queue: EditQueue<String> = EditQueue::new();
    let mut seeds = PatternSeeds::new();
    let cuboid = selection_cuboid(&state, "alex").unwrap();
    for expected in [Ok(()), Err("Too many blocks are already queued: 18 queued, 18 new, limit is 20.")] {
        let to = parse_required_pattern(&["stone".to_owned()], "u", &blocks()).unwrap();
        let r = queue_edit(
            &state,
            &mut queue,
            &mut seeds,
            "alex".to_owned(),
            "w".to_owned(),
            "w".to_owned(),
            cuboid,
            EditCommand::Fill { to },
            false,
        );
        match expected {
            Ok(()) => assert!(r.is_ok()),
            Err(m) => assert_eq!(r.unwrap_err(), m),
        }
    }
}

#[test]
fn undo_needs_history_in_the_same_world() {
    let config = Config::default();
    let mut state = selected_state(config);
    let mut queue: EditQueue<String> = EditQueue::new();
    let mut seeds = PatternSeeds::new();
    let mut world: HashMap<BlockPos, u16> = HashMap::new();
    let err = queue_replay(
        &mut state,
        &mut queue,
        "alex".to_owned(),
        "w".to_owned(),
        "w".to_owned(),
        ReplayDirection::Undo,
    )
    .unwrap_err();
    assert_eq!(err, "Nothing to undo.");
    let err = queue_replay(
        &mut state,
        &mut queue,
        "alex".to_owned(),
        "w".to_owned(),
        "w".to_owned(),
        ReplayDirection::Redo,
    )
    .unwrap_err();
    assert_eq!(err, "Nothing to redo.");

    let cuboid = selection_cuboid(&state, "alex").unwrap();
    let to = parse_required_pattern(&["stone".to_owned()], "u", &blocks()).unwrap();
    queue_edit(
        &state,
        &mut queue,
        &mut seeds,
        "alex".to_owned(),
        "w".to_owned(),
        "w".to_owned(),
        cuboid,
        EditCommand::Fill { to },
        false,
    )
    .unwrap();
    run_queue(&mut queue, &mut state, &mut world, &config);
    let err = queue_replay(
        &mut state,
        &mut queue,
        "alex".to_owned(),
        "nether".to_owned(),
        "nether".to_owned(),
        ReplayDirection::Undo,
    )
    .unwrap_err();
    assert_eq!(err, "That edit was made in another world.");
    assert!(state.latest_undo_history("alex").is_some());
}

#[test]
fn missing_selection_is_reported() {
    let state = PluginState::new(Config::default());
    assert_eq!(
        selection_cuboid(&state, "nobody").unwrap_err(),
        "Select two positions first."
    );
    let mut state = PluginState::new(Config::default());
    state.set_position("alex".to_owned(), SelectionSlot::Pos2, pos(1, 2, 3));
    assert_eq!(
        selection_cuboid(&state, "alex").unwrap_err(),
        "Select two positions first."
    );
}

#[test]
fn pattern_seeds_count_up() {
    let mut seeds = PatternSeeds::new();
    assert_eq!(seeds.next_pattern_seed(), 1);
    assert_eq!(seeds.next_pattern_seed(), 2);
}

#[test]
fn history_keeps_only_the_newest_entries() {
    let config = Config {
        max_history_entries: 2,
        ..Config::default()
    };
    let mut state = selected_state(config);
    let mut queue: EditQueue<String> = EditQueue::new();
    let mut seeds = PatternSeeds::new();
    let mut world: HashMap<BlockPos, u16> = HashMap::new();
    for block in ["stone", "dirt", "grass_block"] {
        let to = parse_required_pattern(&[block.to_owned()], "u", &blocks()).unwrap();
        let cuboid = selection_cuboid(&state, "alex").unwrap();
        queue_edit(
            &state,
            &mut queue,
            &mut seeds,
            "alex".to_owned(),
            "w".to_owned(),
            "w".to_owned(),
            cuboid,
            EditCommand::Fill { to },
            false,
        )
        .unwrap();
        run_queue(&mut queue, &mut state, &mut world, &config);
    }
    for _ in 0..2 {
        queue_replay(
            &mut state,
            &mut queue,
            "alex".to_owned(),
            "w".to_owned(),
            "w".to_owned(),
            ReplayDirection::Undo,
        )
        .unwrap();
        run_queue(&mut queue, &mut state, &mut world, &config);
    }
    assert_eq!(world.get(&pos(0, 0, 0)), Some(&1));
    assert_eq!(
        queue_replay(
            &mut state,
            &mut queue,
            "alex".to_owned(),
            "w".to_owned(),
            "w".to_owned(),
            ReplayDirection::Undo,
        )
        .unwrap_err(),
        "Nothing to undo."
    );
}

#[test]
fn a_new_edit_clears_the_redo_history() {
    let config = Config::default();
    let mut state = selected_state(config);
    let mut queue: EditQueue<String> = EditQueue::new();
    let mut seeds = PatternSeeds::new();
    let mut world: HashMap<BlockPos, u16> = HashMap::new();
    let cuboid = selection_cuboid(&state, "alex").unwrap();
    for block in ["stone", "dirt"] {
        let to = parse_required_pattern(&[block.to_owned()], "u", &blocks()).unwrap();
        queue_edit(
            &state, &mut queue, &mut seeds, "alex".to_owned(), "w".to_owned(), "w".to_owned(),
            cuboid, EditCommand::Fill { to }, false,
        )
        .unwrap();
        run_queue(&mut queue, &mut state, &mut world, &config);
        if block == "stone" {
            queue_replay(
                &mut state, &mut queue, "alex".to_owned(), "w".to_owned(), "w".to_owned(),
                ReplayDirection::Undo,
            )
            .unwrap();
            run_queue(&mut queue, &mut state, &mut world, &config);
            assert!(state.latest_redo_history("alex").is_some());
        }
    }
    assert!(state.latest_redo_history("alex").is_none());
}

/// Runs one tick, reading and writing `world`; answers whether an edit finished.
fn run_one_tick(
    queue: &mut EditQueue<String>,
    state: &mut PluginState,
    world: &mut HashMap<BlockPos, u16>,
    config: &Config,
) -> bool {
    let mut step = queue.begin_tick(config);
    loop {
        match step {
            TickStep::Read { pos } => {
                let old = *world.get(&pos).unwrap_or(&0);
                step = queue.after_read(old, config);
            }
            TickStep::Write { pos, state: s } => {
                world.insert(pos, s);
                step = queue.after_write();
            }
            TickStep::Idle => return false,
            TickStep::Finished(f) => {
                state.apply_finished(f);
                return true;
            }
        }
    }
}

#[test]
fn queued_count_is_the_blocks_the_queued_edits_have_left() {
    let config = Config {
        blocks_per_tick: 5,
        ..Config::default()
    };
    let mut state = selected_state(config);
    let mut queue: EditQueue<String> = EditQueue::new();
    let mut seeds = PatternSeeds::new();
    let mut world: HashMap<BlockPos, u16> = HashMap::new();
    let cuboid = selection_cuboid(&state, "alex").unwrap();
    let args = vec!["stone".to_owned()];
    let to = parse_required_pattern(&args, "Usage: //set <block>", &blocks()).unwrap();
    let walls_to = parse_required_pattern(&args, "Usage: //walls <block>", &blocks()).unwrap();
    queue_edit(
        &state,
        &mut queue,
        &mut seeds,
        "alex".to_owned(),
        "overworld".to_owned(),
        "overworld".to_owned(),
        cuboid,
        EditCommand::Fill { to },
        false,
    )
    .unwrap();
    queue_edit(
        &state,
        &mut queue,
        &mut seeds,
        "alex".to_owned(),
        "overworld".to_owned(),
        "overworld".to_owned(),
        cuboid,
        EditCommand::Walls { to: walls_to },
        false,
    )
    .unwrap();
    assert_eq!(queue.queued_blocks(), 18 + 16);

    let mut expected = vec![29, 24, 19, 16];
    for count in expected.drain(..) {
        run_one_tick(&mut queue, &mut state, &mut world, &config);
        assert_eq!(queue.queued_blocks(), count);
    }
    assert_eq!(queue.len(), 1);
    run_queue(&mut queue, &mut state, &mut world, &config);
    assert_eq!(queue.queued_blocks(), 0);
}
