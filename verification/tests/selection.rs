use world_pumpkin::config::Config;
use world_pumpkin::geometry::{BlockPos, Selection};
use world_pumpkin::selection::{
    chunk_corners, chunk_top_y, expand_selection, format_selection_pos, parse_direction, parse_pos_args,
    parse_expand, parse_expand_amount, parse_request, selection_message, world_max_y, checked_selection_message,
    Direction,
    ExpandRequest, ExpandedCuboid, MoveRequest,
};
use world_pumpkin::state::{PluginState, SelectionSlot};

fn pos(x: i32, y: i32, z: i32) -> BlockPos {
    BlockPos { x, y, z }
}

fn chars(s: &str) -> Vec<char> {
    s.chars().collect()
}

#[test]
fn directions_accept_names_and_initials_in_any_case() {
    assert_eq!(parse_direction("north").unwrap(), Direction::North);
    assert_eq!(parse_direction("N").unwrap(), Direction::North);
    assert_eq!(parse_direction("South").unwrap(), Direction::South);
    assert_eq!(parse_direction("e").unwrap(), Direction::East);
    assert_eq!(parse_direction("WEST").unwrap(), Direction::West);
    assert_eq!(parse_direction("u").unwrap(), Direction::Up);
    assert_eq!(parse_direction("down").unwrap(), Direction::Down);
    assert_eq!(parse_direction("sideways").unwrap_err(), "unknown direction `sideways`");
}

#[test]
fn offsets_point_the_right_way_and_saturate() {
    assert_eq!(Direction::North.offset(3), pos(0, 0, -3));
    assert_eq!(Direction::South.offset(3), pos(0, 0, 3));
    assert_eq!(Direction::East.offset(3), pos(3, 0, 0));
    assert_eq!(Direction::West.offset(3), pos(-3, 0, 0));
    assert_eq!(Direction::Up.offset(3), pos(0, 3, 0));
    assert_eq!(Direction::Down.offset(3), pos(0, -3, 0));
    assert_eq!(Direction::Down.offset(i32::MIN), pos(0, i32::MAX, 0));
}

#[test]
fn opposites_pair_up() {
    for d in [
        Direction::North,
        Direction::South,
        Direction::East,
        Direction::West,
        Direction::Up,
        Direction::Down,
    ] {
        assert_ne!(d.opposite(), d);
        assert_eq!(d.opposite().opposite(), d);
    }
    assert_eq!(Direction::North.opposite(), Direction::South);
    assert_eq!(Direction::Up.opposite(), Direction::Down);
}

#[test]
fn expand_amounts_must_be_non_negative_integers() {
    assert_eq!(parse_expand_amount(&chars("12")).unwrap(), 12);
    assert_eq!(
        parse_expand_amount(&chars("-1")).unwrap_err(),
        "Expand amount must not be negative."
    );
    assert_eq!(
        parse_expand_amount(&chars("ten")).unwrap_err(),
        "failed to parse expand amount `ten`: invalid digit found in string"
    );
}

#[test]
fn expand_arguments_follow_the_documented_forms() {
    let usage = "Usage: //expand <amount> [reverseAmount] [direction] or //expand vert";
    assert_eq!(parse_expand("", Direction::Up).unwrap_err(), usage);
    assert_eq!(parse_expand("VERT", Direction::Up).unwrap(), ExpandRequest::Vertical);
    assert_eq!(
        parse_expand("5", Direction::East).unwrap(),
        ExpandRequest::Directional { amount: 5, reverse_amount: 0, direction: Direction::East }
    );
    assert_eq!(
        parse_expand("5 n", Direction::East).unwrap(),
        ExpandRequest::Directional { amount: 5, reverse_amount: 0, direction: Direction::North }
    );
    assert_eq!(
        parse_expand("5 2", Direction::East).unwrap(),
        ExpandRequest::Directional { amount: 5, reverse_amount: 2, direction: Direction::East }
    );
    assert_eq!(
        parse_expand(" 5  2  down ", Direction::East).unwrap(),
        ExpandRequest::Directional { amount: 5, reverse_amount: 2, direction: Direction::Down }
    );
    assert_eq!(
        parse_expand("5 2 nowhere", Direction::East).unwrap_err(),
        "unknown direction `nowhere`"
    );
    assert_eq!(parse_expand("1 2 3 4", Direction::East).unwrap_err(), usage);
    assert_eq!(
        parse_expand("x 2 3 4", Direction::East).unwrap_err(),
        "failed to parse expand amount `x`: invalid digit found in string"
    );
}

#[test]
fn expanding_grows_the_selection() {
    let mut state = PluginState::new(Config::default());
    state.set_position("alex".to_owned(), SelectionSlot::Pos1, pos(5, 10, 5));
    state.set_position("alex".to_owned(), SelectionSlot::Pos2, pos(0, 0, 0));
    let sel = expand_selection(
        &mut state,
        "alex".to_owned(),
        ExpandRequest::Directional { amount: 3, reverse_amount: 2, direction: Direction::Up },
        None,
    )
    .unwrap();
    assert_eq!(sel.pos1, Some(pos(0, -2, 0)));
    assert_eq!(sel.pos2, Some(pos(5, 13, 5)));
    assert_eq!(state.selection("alex"), Some(sel));

    let sel = expand_selection(
        &mut state,
        "alex".to_owned(),
        ExpandRequest::Directional { amount: 4, reverse_amount: 0, direction: Direction::West },
        None,
    )
    .unwrap();
    assert_eq!(sel.pos1, Some(pos(-4, -2, 0)));
}

#[test]
fn vertical_expansion_spans_the_world() {
    let mut state = PluginState::new(Config::default());
    state.set_position("alex".to_owned(), SelectionSlot::Pos1, pos(1, 60, 1));
    state.set_position("alex".to_owned(), SelectionSlot::Pos2, pos(3, 70, 3));
    assert_eq!(
        expand_selection(&mut state, "alex".to_owned(), ExpandRequest::Vertical, None).unwrap_err(),
        "Only players in a world can expand vertically."
    );
    let sel = expand_selection(&mut state, "alex".to_owned(), ExpandRequest::Vertical, Some(-64)).unwrap();
    assert_eq!(sel.pos1, Some(pos(1, -64, 1)));
    assert_eq!(sel.pos2, Some(pos(3, 319, 3)));
    assert_eq!(world_max_y(-64), 319);
    assert_eq!(world_max_y(0), 255);
}

#[test]
fn expanding_without_a_selection_fails() {
    let mut state = PluginState::new(Config::default());
    assert_eq!(
        expand_selection(&mut state, "alex".to_owned(), ExpandRequest::Vertical, Some(0)).unwrap_err(),
        "Select two positions first."
    );
    assert_eq!(
        ExpandedCuboid::from_selection(Selection { pos1: Some(pos(0, 0, 0)), pos2: None }).unwrap_err(),
        "Select two positions first."
    );
}

#[test]
fn expansion_saturates_at_the_coordinate_range() {
    let mut c = ExpandedCuboid { min: pos(0, 0, i32::MIN + 1), max: pos(0, 0, 0) };
    c.expand(Direction::North, 5);
    assert_eq!(c.min.z, i32::MIN);
}

#[test]
fn chunk_selection_uses_the_column_and_the_highest_block() {
    let (min, max) = chunk_corners(-1, 33, -64, 80);
    assert_eq!(min, pos(-16, -64, 32));
    assert_eq!(max, pos(-1, 80, 47));
    assert_eq!(chunk_top_y(-64, &[3, 90, -70, 12]), 90);
    assert_eq!(chunk_top_y(-64, &[-70]), -64);
    assert_eq!(chunk_top_y(5, &[]), 5);
}

#[test]
fn move_arguments_are_checked() {
    let usage = "Usage: //move <amount> [direction]";
    assert_eq!(parse_request("", Direction::Up).unwrap_err(), usage);
    assert_eq!(parse_request("1 up 2", Direction::Up).unwrap_err(), usage);
    assert_eq!(
        parse_request("4", Direction::East).unwrap(),
        MoveRequest { amount: 4, direction: Direction::East }
    );
    assert_eq!(
        parse_request("4 s", Direction::East).unwrap(),
        MoveRequest { amount: 4, direction: Direction::South }
    );
    assert_eq!(
        parse_request("-4", Direction::East).unwrap_err(),
        "Move amount must not be negative."
    );
    assert_eq!(
        parse_request("99999999999", Direction::East).unwrap_err(),
        "failed to parse move amount `99999999999`: number too large to fit in target type"
    );
}

#[test]
fn selection_summary_shows_corners_and_size() {
    assert_eq!(
        selection_message(Selection { pos1: Some(pos(1, -2, 3)), pos2: None }),
        "Selection: 1, -2, 3 -> -"
    );
    assert_eq!(
        selection_message(Selection { pos1: Some(pos(0, 0, 0)), pos2: Some(pos(1, 1, 1)) }),
        "Selection: 0, 0, 0 -> 1, 1, 1 (8 blocks)"
    );
    assert_eq!(format_selection_pos(None), "-");
}

#[test]
fn explicit_corner_coordinates_are_read() {
    let usage = "Usage: //pos1 <x y z>";
    assert_eq!(parse_pos_args(&[], usage).unwrap(), None);
    let args: Vec<String> = ["10", "-64", "3"].iter().map(|s| s.to_string()).collect();
    assert_eq!(parse_pos_args(&args, usage).unwrap(), Some(pos(10, -64, 3)));
    let args: Vec<String> = ["10", "-64"].iter().map(|s| s.to_string()).collect();
    assert_eq!(parse_pos_args(&args, usage).unwrap_err(), usage);
    let args: Vec<String> = ["10", "up", "3"].iter().map(|s| s.to_string()).collect();
    assert_eq!(
        parse_pos_args(&args, usage).unwrap_err(),
        "failed to parse coordinate `up`: invalid digit found in string"
    );
}

#[test]
fn checked_selection_message_refuses_a_selection_too_large_to_count() {
    let huge = Selection {
        pos1: Some(pos(i32::MIN, i32::MIN, i32::MIN)),
        pos2: Some(pos(i32::MAX, i32::MAX, i32::MAX)),
    };
    assert_eq!(checked_selection_message(huge).unwrap_err(), "Selection is too large.");
    let small = Selection { pos1: Some(pos(0, 0, 0)), pos2: Some(pos(1, 1, 1)) };
    assert_eq!(
        checked_selection_message(small).unwrap(),
        "Selection: 0, 0, 0 -> 1, 1, 1 (8 blocks)"
    );
    let half = Selection { pos1: None, pos2: Some(pos(4, 5, 6)) };
    assert_eq!(checked_selection_message(half).unwrap(), "Selection: - -> 4, 5, 6");
}
