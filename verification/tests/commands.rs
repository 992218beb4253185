use world_pumpkin::commands::{
    check_limit, command_permission, ensure_no_extra_args, is_worldpumpkin_command,
    parse_double_slash, parse_replace_args, parse_required_pattern, queued_message,
    queued_redo_message, queued_undo_message, require_permission, WorldCommand,
};
use world_pumpkin::config::{PERM_MOVE, PERM_POS, PERM_SET};
use world_pumpkin::pattern::BlockStateTable;
use world_pumpkin::suggestions::pattern_suggestions;
use world_pumpkin::writes::{block_flags, ChunkAccess, WriteStrategy};
use world_pumpkin::config::Config;
use world_pumpkin::geometry::BlockPos;

fn blocks() -> BlockStateTable {
    let mut table = BlockStateTable::new();
    table.insert_state("stone", 1).unwrap();
    table.insert_state("dirt", 10).unwrap();
    table
}

#[test]
fn double_slash_commands_are_recognised() {
    assert!(is_worldpumpkin_command("set stone"));
    assert!(is_worldpumpkin_command("  undo"));
    assert!(is_worldpumpkin_command("expand 5 up"));
    assert!(!is_worldpumpkin_command("gamemode creative"));
    assert!(!is_worldpumpkin_command(""));
    assert!(!is_worldpumpkin_command("SET stone"));
}

#[test]
fn double_slash_message_yields_command_and_arguments() {
    let (command, args) = parse_double_slash("/replace  dirt stone").unwrap();
    assert_eq!(command, WorldCommand::Replace);
    assert_eq!(args, vec!["dirt".to_owned(), "stone".to_owned()]);
    assert!(parse_double_slash("replace dirt stone").is_none());
    assert!(parse_double_slash("/tp 1 2 3").is_none());
    assert!(parse_double_slash("/").is_none());
    let (command, args) = parse_double_slash("/pos1").unwrap();
    assert_eq!(command, WorldCommand::Pos1);
    assert!(args.is_empty());
}

#[test]
fn each_command_needs_its_permission() {
    assert_eq!(command_permission(WorldCommand::Fill), PERM_SET);
    assert_eq!(command_permission(WorldCommand::Hpos2), PERM_POS);
    assert_eq!(command_permission(WorldCommand::Move), PERM_MOVE);
    assert_eq!(require_permission(false).unwrap_err(), "You don't have permission for that.");
    assert!(require_permission(true).is_ok());
}

#[test]
fn pattern_arguments_are_counted() {
    let table = blocks();
    assert_eq!(
        parse_required_pattern(&[], "Usage: //set <block>", &table).err().unwrap(),
        "Usage: //set <block>"
    );
    assert_eq!(
        parse_required_pattern(&["stone".to_owned(), "dirt".to_owned()], "u", &table).err().unwrap(),
        "Too many arguments."
    );
    assert_eq!(
        parse_required_pattern(&["granite".to_owned()], "u", &table).err().unwrap(),
        "unknown block state `granite`"
    );
    assert_eq!(ensure_no_extra_args(&["x".to_owned()]).unwrap_err(), "Too many arguments.");
    assert!(ensure_no_extra_args(&[]).is_ok());
}

#[test]
fn replace_arguments_need_both_blocks() {
    let table = blocks();
    let usage = "Usage: //replace <from> <to>";
    assert_eq!(parse_replace_args(&[], &table).err().unwrap(), usage);
    assert_eq!(parse_replace_args(&["dirt".to_owned()], &table).err().unwrap(), usage);
    assert_eq!(
        parse_replace_args(&["lava".to_owned(), "stone".to_owned()], &table).err().unwrap(),
        "unknown block state `lava`"
    );
    let (from, to) = parse_replace_args(&["dirt".to_owned(), "stone".to_owned()], &table).unwrap();
    assert_eq!(from, 10);
    assert_eq!(to.total_weight(), 1);
}

#[test]
fn limits_and_queue_messages() {
    assert!(check_limit(5, 5, false).is_ok());
    assert!(check_limit(6, 5, true).is_ok());
    assert_eq!(
        check_limit(6, 5, false).unwrap_err(),
        "Selection is too large: 6 blocks, limit is 5."
    );
    assert_eq!(queued_message(12), "Queued 12 blocks.");
    assert_eq!(queued_undo_message(3), "Undo queued (3 blocks).");
    assert_eq!(queued_redo_message(0), "Redo queued (0 blocks).");
}

#[test]
fn suggestions_complete_the_block_being_typed() {
    let names = vec![
        "stone".to_owned(),
        "stone_bricks".to_owned(),
        "dirt".to_owned(),
        "stripped_oak_log".to_owned(),
    ];
    let s = pattern_suggestions("//set 50%dirt,20%st", 6, &names);
    assert_eq!(s.start, 17);
    assert_eq!(s.length, 2);
    assert_eq!(s.values, vec!["stone".to_owned(), "stone_bricks".to_owned(), "stripped_oak_log".to_owned()]);

    let s = pattern_suggestions("minecraft:sto", 0, &names);
    assert_eq!(s.start, 10);
    assert_eq!(s.length, 3);
    assert_eq!(s.values, vec!["stone".to_owned(), "stone_bricks".to_owned()]);

    let s = pattern_suggestions("//set d", 6, &names);
    assert_eq!(s.start, 6);
    assert_eq!(s.values, vec!["dirt".to_owned()]);
}

#[test]
fn suggestions_stop_at_one_hundred() {
    let names: Vec<String> = (0..150).map(|i| format!("block_{i}")).collect();
    let s = pattern_suggestions("b", 0, &names);
    assert_eq!(s.values.len(), 100);
    assert_eq!(s.values[99], "block_99");
}

#[test]
fn write_flags_follow_the_configuration() {
    let fast = block_flags(&Config::default());
    assert!(fast.notify_listeners);
    assert!(!fast.notify_neighbors);
    assert!(fast.skip_drops && fast.skip_block_added_callback);
    let slow = block_flags(&Config { fast_mode: false, notify_clients: false, ..Config::default() });
    assert!(slow.notify_neighbors);
    assert!(!slow.notify_listeners);
    assert!(!slow.skip_drops);
}

#[test]
fn fast_mode_writes_through_the_chunk_at_hand() {
    let strategy = WriteStrategy::new(&Config::default());
    assert!(strategy.direct_chunk_writes);
    let p = BlockPos { x: -1, y: 70, z: 33 };
    assert_eq!(strategy.chunk_access(None, p), ChunkAccess::Load { x: -1, z: 2 });
    assert_eq!(strategy.chunk_access(Some((-1, 2)), p), ChunkAccess::Cached);
    assert_eq!(strategy.chunk_access(Some((0, 2)), p), ChunkAccess::Load { x: -1, z: 2 });
    let slow = WriteStrategy::new(&Config { fast_mode: false, ..Config::default() });
    assert_eq!(slow.chunk_access(None, p), ChunkAccess::World);
}
