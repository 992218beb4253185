//! Selection commands: directions, expanding a selection, selecting a chunk
//! column, the arguments of `//move`, and the selection summary players see.

use vstd::prelude::*;
use crate::geometry::{BlockPos, Cuboid, Selection, max_i32, min_i32};
use crate::numbers::{
    decimal,
    decimal_chars,
    int_error_message,
    int_error_text,
    parse_i32_chars,
    parse_i32_spec,
    signed_decimal,
    signed_decimal_chars,
};
use crate::state::{PluginState, SessionView};
use crate::text::{
    chars_eq_str,
    chars_of,
    lower,
    lower_chars,
    push_all,
    push_str,
    split_words,
    string_of,
    words,
};

verus! {

/// A direction a selection can grow or move in.
#[derive(Clone, Copy, Debug, PartialEq, Eq, Structural)]
pub enum Direction {
    North,
    South,
    East,
    West,
    Up,
    Down,
}

/// The direction a word names, ignoring ASCII case: the full name or its
/// first letter.
pub open spec fn direction_of(word: Seq<char>) -> Option<Direction> {
    let l = lower(word);
    if l == "n"@ || l == "north"@ {
        Some(Direction::North)
    } else if l == "s"@ || l == "south"@ {
        Some(Direction::South)
    } else if l == "e"@ || l == "east"@ {
        Some(Direction::East)
    } else if l == "w"@ || l == "west"@ {
        Some(Direction::West)
    } else if l == "u"@ || l == "up"@ {
        Some(Direction::Up)
    } else if l == "d"@ || l == "down"@ {
        Some(Direction::Down)
    } else {
        None
    }
}

pub open spec fn spec_parse_direction(input: Seq<char>) -> Result<Direction, Seq<char>> {
    match direction_of(input) {
        Some(d) => Ok(d),
        None => Err("unknown direction `"@ + input + "`"@),
    }
}

fn direction_of_chars(word: &[char]) -> (r: Option<Direction>)
    ensures
        r == direction_of(word@),
{
    let l = lower_chars(word);
    let s = l.as_slice();
    if chars_eq_str(s, "n") || chars_eq_str(s, "north") {
        Some(Direction::North)
    } else if chars_eq_str(s, "s") || chars_eq_str(s, "south") {
        Some(Direction::South)
    } else if chars_eq_str(s, "e") || chars_eq_str(s, "east") {
        Some(Direction::East)
    } else if chars_eq_str(s, "w") || chars_eq_str(s, "west") {
        Some(Direction::West)
    } else if chars_eq_str(s, "u") || chars_eq_str(s, "up") {
        Some(Direction::Up)
    } else if chars_eq_str(s, "d") || chars_eq_str(s, "down") {
        Some(Direction::Down)
    } else {
        None
    }
}

fn parse_direction_chars(input: &[char]) -> (r: Result<Direction, String>)
    ensures
        match spec_parse_direction(input@) {
            Ok(d) => r == Ok::<Direction, String>(d),
            Err(e) => r matches Err(m) && m@ == e,
        },
{
    match direction_of_chars(input) {
        Some(d) => Ok(d),
        None => {
            let mut v: Vec<char> = Vec::new();
            push_str(&mut v, "unknown direction `");
            push_all(&mut v, input);
            push_str(&mut v, "`");
            Err(string_of(v.as_slice()))
        },
    }
}

/// Reads a direction name.
pub fn parse_direction(input: &str) -> (r: Result<Direction, String>)
    ensures
        match spec_parse_direction(input@) {
            Ok(d) => r == Ok::<Direction, String>(d),
            Err(e) => r matches Err(m) && m@ == e,
        },
{
    let cs = chars_of(input);
    parse_direction_chars(cs.as_slice())
}

/// `i32::saturating_neg`.
pub open spec fn sat_neg(a: i32) -> i32 {
    if a == i32::MIN {
        i32::MAX
    } else {
        (-a) as i32
    }
}

/// An `i32` result clamped to the type's range, as the saturating
/// operations give it.
pub open spec fn clamp_i32(v: int) -> i32 {
    if v > i32::MAX {
        i32::MAX
    } else if v < i32::MIN {
        i32::MIN
    } else {
        v as i32
    }
}

fn saturating_neg(a: i32) -> (r: i32)
    ensures
        r == sat_neg(a),
{
    if a == i32::MIN {
        i32::MAX
    } else {
        -a
    }
}

fn saturating_add(a: i32, b: i32) -> (r: i32)
    ensures
        r == clamp_i32(a + b),
{
    let s = a as i64 + b as i64;
    if s > i32::MAX as i64 {
        i32::MAX
    } else if s < i32::MIN as i64 {
        i32::MIN
    } else {
        s as i32
    }
}

fn saturating_sub(a: i32, b: i32) -> (r: i32)
    ensures
        r == clamp_i32(a - b),
{
    let s = a as i64 - b as i64;
    if s > i32::MAX as i64 {
        i32::MAX
    } else if s < i32::MIN as i64 {
        i32::MIN
    } else {
        s as i32
    }
}

impl Direction {
    /// The displacement of `amount` blocks in this direction; north, west and
    /// down negate it, saturating at the `i32` range.
    pub open spec fn spec_offset(self, amount: i32) -> BlockPos {
        match self {
            Direction::North => BlockPos { x: 0, y: 0, z: sat_neg(amount) },
            Direction::South => BlockPos { x: 0, y: 0, z: amount },
            Direction::East => BlockPos { x: amount, y: 0, z: 0 },
            Direction::West => BlockPos { x: sat_neg(amount), y: 0, z: 0 },
            Direction::Up => BlockPos { x: 0, y: amount, z: 0 },
            Direction::Down => BlockPos { x: 0, y: sat_neg(amount), z: 0 },
        }
    }

    pub fn offset(self, amount: i32) -> (p: BlockPos)
        ensures
            p == self.spec_offset(amount),
    {
        match self {
            Direction::North => BlockPos { x: 0, y: 0, z: saturating_neg(amount) },
            Direction::South => BlockPos { x: 0, y: 0, z: amount },
            Direction::East => BlockPos { x: amount, y: 0, z: 0 },
            Direction::West => BlockPos { x: saturating_neg(amount), y: 0, z: 0 },
            Direction::Up => BlockPos { x: 0, y: amount, z: 0 },
            Direction::Down => BlockPos { x: 0, y: saturating_neg(amount), z: 0 },
        }
    }

    pub open spec fn spec_opposite(self) -> Direction {
        match self {
            Direction::North => Direction::South,
            Direction::South => Direction::North,
            Direction::East => Direction::West,
            Direction::West => Direction::East,
            Direction::Up => Direction::Down,
            Direction::Down => Direction::Up,
        }
    }

    pub fn opposite(self) -> (d: Direction)
        ensures
            d == self.spec_opposite(),
    {
        match self {
            Direction::North => Direction::South,
            Direction::South => Direction::North,
            Direction::East => Direction::West,
            Direction::West => Direction::East,
            Direction::Up => Direction::Down,
            Direction::Down => Direction::Up,
        }
    }
}

/// Turning around twice faces the same way again, and no direction is its
/// own opposite.
pub proof fn lemma_opposite_involution(d: Direction)
    ensures
        d.spec_opposite().spec_opposite() == d,
        d.spec_opposite() != d,
{
}

// ---------------------------------------------------------------------
// Expanding a selection
// ---------------------------------------------------------------------

/// What `//expand` was asked to do.
#[derive(Clone, Copy, Debug, PartialEq, Eq, Structural)]
pub enum ExpandRequest {
    /// Grow by `amount` towards `direction` and by `reverse_amount` the
    /// other way.
    Directional { amount: i32, reverse_amount: i32, direction: Direction },
    /// Span the world's whole height.
    Vertical,
}

pub open spec fn expand_usage() -> Seq<char> {
    "Usage: //expand <amount> [reverseAmount] [direction] or //expand vert"@
}

pub open spec fn spec_parse_expand_amount(input: Seq<char>) -> Result<i32, Seq<char>> {
    match parse_i32_spec(input) {
        Err(e) => Err("failed to parse expand amount `"@ + input + "`: "@ + int_error_text(e)),
        Ok(v) => if v < 0 {
            Err("Expand amount must not be negative."@)
        } else {
            Ok(v as i32)
        },
    }
}

/// Reads an expansion amount: a non-negative `i32`.
pub fn parse_expand_amount(input: &[char]) -> (r: Result<i32, String>)
    ensures
        match spec_parse_expand_amount(input@) {
            Ok(v) => r == Ok::<i32, String>(v),
            Err(e) => r matches Err(m) && m@ == e,
        },
{
    match parse_i32_chars(input) {
        Err(e) => {
            let mut v: Vec<char> = Vec::new();
            push_str(&mut v, "failed to parse expand amount `");
            push_all(&mut v, input);
            push_str(&mut v, "`: ");
            let t = int_error_message(e);
            push_all(&mut v, t.as_slice());
            Err(string_of(v.as_slice()))
        },
        Ok(a) => {
            if a < 0 {
                Err("Expand amount must not be negative.".to_owned())
            } else {
                Ok(a)
            }
        },
    }
}

/// What `//expand` makes of its arguments; `default_direction` is where the
/// player looks.
pub open spec fn spec_parse_expand(args: Seq<char>, default_direction: Direction) -> Result<
    ExpandRequest,
    Seq<char>,
> {
    let parts = words(args);
    if parts.len() == 0 {
        Err(expand_usage())
    } else if parts.len() == 1 && lower(parts[0]) == "vert"@ {
        Ok(ExpandRequest::Vertical)
    } else {
        match spec_parse_expand_amount(parts[0]) {
            Err(e) => Err(e),
            Ok(amount) => if parts.len() == 1 {
                Ok(
                    ExpandRequest::Directional {
                        amount,
                        reverse_amount: 0,
                        direction: default_direction,
                    },
                )
            } else if parts.len() == 2 {
                match direction_of(parts[1]) {
                    Some(d) => Ok(
                        ExpandRequest::Directional { amount, reverse_amount: 0, direction: d },
                    ),
                    None => match spec_parse_expand_amount(parts[1]) {
                        Err(e) => Err(e),
                        Ok(r) => Ok(
                            ExpandRequest::Directional {
                                amount,
                                reverse_amount: r,
                                direction: default_direction,
                            },
                        ),
                    },
                }
            } else if parts.len() == 3 {
                match spec_parse_expand_amount(parts[1]) {
                    Err(e) => Err(e),
                    Ok(r) => match spec_parse_direction(parts[2]) {
                        Err(e) => Err(e),
                        Ok(d) => Ok(
                            ExpandRequest::Directional { amount, reverse_amount: r, direction: d },
                        ),
                    },
                }
            } else {
                Err(expand_usage())
            },
        }
    }
}

/// Reads the arguments of `//expand`.
pub fn parse_expand(args: &str, default_direction: Direction) -> (r: Result<ExpandRequest, String>)
    ensures
        match spec_parse_expand(args@, default_direction) {
            Ok(q) => r == Ok::<ExpandRequest, String>(q),
            Err(e) => r matches Err(m) && m@ == e,
        },
{
    let cs = chars_of(args);
    let parts = split_words(cs.as_slice());
    let ghost ws = words(args@);
    assert(parts@.len() == ws.len());
    if parts.len() == 0 {
        return Err(
            "Usage: //expand <amount> [reverseAmount] [direction] or //expand vert".to_owned(),
        );
    }
    assert(parts@[0]@ == ws[0]);
    if parts.len() == 1 {
        let l = lower_chars(parts[0].as_slice());
        if chars_eq_str(l.as_slice(), "vert") {
            return Ok(ExpandRequest::Vertical);
        }
    }
    let amount = match parse_expand_amount(parts[0].as_slice()) {
        Ok(a) => a,
        Err(e) => {
            return Err(e);
        },
    };
    if parts.len() == 1 {
        Ok(ExpandRequest::Directional { amount, reverse_amount: 0, direction: default_direction })
    } else if parts.len() == 2 {
        assert(parts@[1]@ == ws[1]);
        match direction_of_chars(parts[1].as_slice()) {
            Some(d) => Ok(ExpandRequest::Directional { amount, reverse_amount: 0, direction: d }),
            None => match parse_expand_amount(parts[1].as_slice()) {
                Err(e) => Err(e),
                Ok(r) => Ok(
                    ExpandRequest::Directional {
                        amount,
                        reverse_amount: r,
                        direction: default_direction,
                    },
                ),
            },
        }
    } else if parts.len() == 3 {
        assert(parts@[1]@ == ws[1]);
        assert(parts@[2]@ == ws[2]);
        match parse_expand_amount(parts[1].as_slice()) {
            Err(e) => Err(e),
            Ok(r) => match parse_direction_chars(parts[2].as_slice()) {
                Err(e) => Err(e),
                Ok(d) => Ok(ExpandRequest::Directional { amount, reverse_amount: r, direction: d }),
            },
        }
    } else {
        Err("Usage: //expand <amount> [reverseAmount] [direction] or //expand vert".to_owned())
    }
}

/// A selection's least and greatest corner while it is being expanded.
#[derive(Clone, Copy, Debug, PartialEq, Eq, Structural)]
pub struct ExpandedCuboid {
    pub min: BlockPos,
    pub max: BlockPos,
}

pub open spec fn spec_from_selection(selection: Selection) -> Result<ExpandedCuboid, Seq<char>> {
    match (selection.pos1, selection.pos2) {
        (Some(a), Some(b)) => Ok(
            ExpandedCuboid {
                min: BlockPos { x: min_i32(a.x, b.x), y: min_i32(a.y, b.y), z: min_i32(a.z, b.z) },
                max: BlockPos { x: max_i32(a.x, b.x), y: max_i32(a.y, b.y), z: max_i32(a.z, b.z) },
            },
        ),
        _ => Err("Select two positions first."@),
    }
}

/// The corners grown by `amount` towards `direction`, saturating at the
/// `i32` range.
pub open spec fn spec_expand(c: ExpandedCuboid, direction: Direction, amount: i32) -> ExpandedCuboid {
    match direction {
        Direction::North => ExpandedCuboid {
            min: BlockPos { z: clamp_i32(c.min.z - amount), ..c.min },
            ..c
        },
        Direction::South => ExpandedCuboid {
            max: BlockPos { z: clamp_i32(c.max.z + amount), ..c.max },
            ..c
        },
        Direction::East => ExpandedCuboid {
            max: BlockPos { x: clamp_i32(c.max.x + amount), ..c.max },
            ..c
        },
        Direction::West => ExpandedCuboid {
            min: BlockPos { x: clamp_i32(c.min.x - amount), ..c.min },
            ..c
        },
        Direction::Up => ExpandedCuboid {
            max: BlockPos { y: clamp_i32(c.max.y + amount), ..c.max },
            ..c
        },
        Direction::Down => ExpandedCuboid {
            min: BlockPos { y: clamp_i32(c.min.y - amount), ..c.min },
            ..c
        },
    }
}

impl ExpandedCuboid {
    /// The corners of a selection whose two positions are set.
    pub fn from_selection(selection: Selection) -> (r: Result<ExpandedCuboid, String>)
        ensures
            match spec_from_selection(selection) {
                Ok(c) => r == Ok::<ExpandedCuboid, String>(c),
                Err(e) => r matches Err(m) && m@ == e,
            },
    {
        match (selection.pos1, selection.pos2) {
            (Some(a), Some(b)) => {
                let min = BlockPos {
                    x: if a.x <= b.x {
                        a.x
                    } else {
                        b.x
                    },
                    y: if a.y <= b.y {
                        a.y
                    } else {
                        b.y
                    },
                    z: if a.z <= b.z {
                        a.z
                    } else {
                        b.z
                    },
                };
                let max = BlockPos {
                    x: if a.x >= b.x {
                        a.x
                    } else {
                        b.x
                    },
                    y: if a.y >= b.y {
                        a.y
                    } else {
                        b.y
                    },
                    z: if a.z >= b.z {
                        a.z
                    } else {
                        b.z
                    },
                };
                Ok(ExpandedCuboid { min, max })
            },
            _ => Err("Select two positions first.".to_owned()),
        }
    }

    /// Grows the corners by `amount` towards `direction`.
    pub fn expand(&mut self, direction: Direction, amount: i32)
        ensures
            *final(self) == spec_expand(*old(self), direction, amount),
            amount >= 0 ==> (if points_up_axis(direction) {
                final(self).min == old(self).min && final(self).max == shifted(
                    old(self).max,
                    direction.spec_offset(amount),
                )
            } else {
                final(self).max == old(self).max && final(self).min == shifted(
                    old(self).min,
                    direction.spec_offset(amount),
                )
            }),
    {
        proof {
            if amount >= 0 {
                lemma_expand_moves_face(*self, direction, amount);
            }
        }
        match direction {
            Direction::North => {
                self.min.z = saturating_sub(self.min.z, amount);
            },
            Direction::South => {
                self.max.z = saturating_add(self.max.z, amount);
            },
            Direction::East => {
                self.max.x = saturating_add(self.max.x, amount);
            },
            Direction::West => {
                self.min.x = saturating_sub(self.min.x, amount);
            },
            Direction::Up => {
                self.max.y = saturating_add(self.max.y, amount);
            },
            Direction::Down => {
                self.min.y = saturating_sub(self.min.y, amount);
            },
        }
    }
}

/// The top of a world whose bottom is `min_y`.
pub open spec fn spec_world_max_y(min_y: i32) -> i32 {
    if min_y < 0 {
        319
    } else {
        255
    }
}

pub fn world_max_y(min_y: i32) -> (r: i32)
    ensures
        r == spec_world_max_y(min_y),
{
    if min_y < 0 {
        319
    } else {
        255
    }
}

/// The corners an expansion request gives a selection; `world_min_y` is the
/// bottom of the player's world, when there is one.
pub open spec fn spec_expanded(
    selection: Selection,
    request: ExpandRequest,
    world_min_y: Option<i32>,
) -> Result<ExpandedCuboid, Seq<char>> {
    match spec_from_selection(selection) {
        Err(e) => Err(e),
        Ok(c) => match request {
            ExpandRequest::Directional { amount, reverse_amount, direction } => {
                let c1 = spec_expand(c, direction, amount);
                if reverse_amount != 0 {
                    Ok(spec_expand(c1, direction.spec_opposite(), reverse_amount))
                } else {
                    Ok(c1)
                }
            },
            ExpandRequest::Vertical => match world_min_y {
                None => Err("Only players in a world can expand vertically."@),
                Some(min_y) => Ok(
                    ExpandedCuboid {
                        min: BlockPos { y: min_y, ..c.min },
                        max: BlockPos { y: spec_world_max_y(min_y), ..c.max },
                    },
                ),
            },
        },
    }
}

/// What expanding `owner`'s selection answers.
pub open spec fn spec_expand_selection(
    session: Option<SessionView>,
    request: ExpandRequest,
    world_min_y: Option<i32>,
) -> Result<ExpandedCuboid, Seq<char>> {
    match session {
        None => Err("Select two positions first."@),
        Some(s) => spec_expanded(s.selection, request, world_min_y),
    }
}

/// Expands `owner`'s selection and stores the new corners as its first and
/// second position; on an error nothing changes.
pub fn expand_selection(
    state: &mut PluginState,
    owner: String,
    request: ExpandRequest,
    world_min_y: Option<i32>,
) -> (r: Result<Selection, String>)
    requires
        old(state).wf(),
    ensures
        final(state).wf(),
        final(state).spec_config() == old(state).spec_config(),
        match spec_expand_selection(old(state).lookup(owner@), request, world_min_y) {
            Ok(c) => {
                &&& r == Ok::<Selection, String>(
                    Selection { pos1: Some(c.min), pos2: Some(c.max) },
                )
                &&& final(state).lookup(owner@) == Some(
                    SessionView {
                        selection: Selection { pos1: Some(c.min), pos2: Some(c.max) },
                        ..old(state).session_or_empty(owner@)
                    },
                )
                &&& forall|o: Seq<char>|
                    o != owner@ ==> #[trigger] final(state).lookup(o) == old(state).lookup(o)
            },
            Err(e) => {
                &&& r matches Err(m) && m@ == e
                &&& *final(state) == *old(state)
            },
        },
{
    let selection = match state.selection(owner.as_str()) {
        Some(s) => s,
        None => {
            return Err("Select two positions first.".to_owned());
        },
    };
    let mut cuboid = match ExpandedCuboid::from_selection(selection) {
        Ok(c) => c,
        Err(e) => {
            return Err(e);
        },
    };
    match request {
        ExpandRequest::Directional { amount, reverse_amount, direction } => {
            cuboid.expand(direction, amount);
            if reverse_amount != 0 {
                cuboid.expand(direction.opposite(), reverse_amount);
            }
        },
        ExpandRequest::Vertical => {
            match world_min_y {
                None => {
                    return Err("Only players in a world can expand vertically.".to_owned());
                },
                Some(min_y) => {
                    cuboid.min.y = min_y;
                    cuboid.max.y = world_max_y(min_y);
                },
            }
        },
    }
    Ok(state.set_selection(owner, cuboid.min, cuboid.max))
}

// ---------------------------------------------------------------------
// Selecting a chunk column
// ---------------------------------------------------------------------

/// The highest of `floor` and the given block heights.
pub open spec fn highest(floor: i32, heights: Seq<i32>) -> i32
    decreases heights.len(),
{
    if heights.len() == 0 {
        floor
    } else {
        max_i32(highest(floor, heights.drop_last()), heights.last())
    }
}

/// The top of a chunk column: the highest of the world's bottom and the top
/// block heights of its columns.
pub fn chunk_top_y(min_y: i32, heights: &[i32]) -> (top: i32)
    ensures
        top == highest(min_y, heights@),
{
    let mut top = min_y;
    let mut i: usize = 0;
    while i < heights.len()
        invariant
            i <= heights@.len(),
            top == highest(min_y, heights@.subrange(0, i as int)),
        decreases heights@.len() - i,
    {
        assert(heights@.subrange(0, i + 1).drop_last() =~= heights@.subrange(0, i as int));
        if heights[i] > top {
            top = heights[i];
        }
        i += 1;
    }
    assert(heights@.subrange(0, heights@.len() as int) =~= heights@);
    top
}

/// The corners of the chunk column holding block column (`x`, `z`), from
/// `min_y` up to `top_y`.
pub open spec fn spec_chunk_corners(x: i32, z: i32, min_y: i32, top_y: i32) -> (BlockPos, BlockPos) {
    let ox = (x / 16) * 16;
    let oz = (z / 16) * 16;
    (
        BlockPos { x: ox as i32, y: min_y, z: oz as i32 },
        BlockPos { x: (ox + 15) as i32, y: top_y, z: (oz + 15) as i32 },
    )
}

/// The chunk column selected holds the column the player stands in: its
/// corners lie on the 16-block chunk grid, span 16 blocks on x and z, contain
/// `x` and `z`, and reach from `min_y` to `top_y`.
pub proof fn lemma_chunk_contains(x: i32, z: i32, min_y: i32, top_y: i32)
    ensures
        ({
            let (lo, hi) = spec_chunk_corners(x, z, min_y, top_y);
            &&& lo.x <= x <= hi.x
            &&& lo.z <= z <= hi.z
            &&& lo.x % 16 == 0 && lo.z % 16 == 0
            &&& hi.x == lo.x + 15 && hi.z == lo.z + 15
            &&& lo.y == min_y && hi.y == top_y
        }),
{
    vstd::arithmetic::div_mod::lemma_fundamental_div_mod(x as int, 16);
    vstd::arithmetic::div_mod::lemma_fundamental_div_mod(z as int, 16);
    let ox = (x / 16) * 16;
    let oz = (z / 16) * 16;
    assert(ox % 16 == 0) by {
        vstd::arithmetic::div_mod::lemma_mod_multiples_basic(x / 16, 16);
    }
    assert(oz % 16 == 0) by {
        vstd::arithmetic::div_mod::lemma_mod_multiples_basic(z / 16, 16);
    }
    assert(i32::MIN <= ox && ox + 15 <= i32::MAX);
    assert(i32::MIN <= oz && oz + 15 <= i32::MAX);
}

fn chunk_origin(v: i32) -> (r: i32)
    ensures
        r == (v / 16) * 16,
        r <= v <= r + 15,
{
    let m = ((v as i64 % 16) + 16) % 16;
    assert(m == v % 16);
    assert(v == (v / 16) * 16 + v % 16) by {
        vstd::arithmetic::div_mod::lemma_fundamental_div_mod(v as int, 16);
    }
    (v as i64 - m) as i32
}

/// The corners of a chunk column selection.
pub fn chunk_corners(x: i32, z: i32, min_y: i32, top_y: i32) -> (r: (BlockPos, BlockPos))
    ensures
        r == spec_chunk_corners(x, z, min_y, top_y),
        r.0.x <= x <= r.1.x && r.0.z <= z <= r.1.z,
        r.0.x % 16 == 0 && r.0.z % 16 == 0,
        r.1.x == r.0.x + 15 && r.1.z == r.0.z + 15,
        r.0.y == min_y && r.1.y == top_y,
{
    proof {
        lemma_chunk_contains(x, z, min_y, top_y);
    }
    let ox = chunk_origin(x);
    let oz = chunk_origin(z);
    (BlockPos { x: ox, y: min_y, z: oz }, BlockPos { x: ox + 15, y: top_y, z: oz + 15 })
}

// ---------------------------------------------------------------------
// `//move` arguments
// ---------------------------------------------------------------------

/// What `//move` was asked to do.
#[derive(Clone, Copy, Debug, PartialEq, Eq, Structural)]
pub struct MoveRequest {
    pub amount: i32,
    pub direction: Direction,
}

pub open spec fn move_usage() -> Seq<char> {
    "Usage: //move <amount> [direction]"@
}

pub open spec fn spec_parse_request(args: Seq<char>, default_direction: Direction) -> Result<
    MoveRequest,
    Seq<char>,
> {
    let parts = words(args);
    if parts.len() == 0 || parts.len() > 2 {
        Err(move_usage())
    } else {
        match parse_i32_spec(parts[0]) {
            Err(e) => Err(
                "failed to parse move amount `"@ + parts[0] + "`: "@ + int_error_text(e),
            ),
            Ok(a) => if a < 0 {
                Err("Move amount must not be negative."@)
            } else if parts.len() == 1 {
                Ok(MoveRequest { amount: a as i32, direction: default_direction })
            } else {
                match spec_parse_direction(parts[1]) {
                    Err(e) => Err(e),
                    Ok(d) => Ok(MoveRequest { amount: a as i32, direction: d }),
                }
            },
        }
    }
}

/// Reads the arguments of `//move`; `default_direction` is where the player
/// looks.
pub fn parse_request(args: &str, default_direction: Direction) -> (r: Result<MoveRequest, String>)
    ensures
        match spec_parse_request(args@, default_direction) {
            Ok(q) => r == Ok::<MoveRequest, String>(q),
            Err(e) => r matches Err(m) && m@ == e,
        },
{
    let cs = chars_of(args);
    let parts = split_words(cs.as_slice());
    let ghost ws = words(args@);
    if parts.len() == 0 || parts.len() > 2 {
        return Err("Usage: //move <amount> [direction]".to_owned());
    }
    assert(parts@[0]@ == ws[0]);
    let amount = match parse_i32_chars(parts[0].as_slice()) {
        Ok(a) => a,
        Err(e) => {
            let mut v: Vec<char> = Vec::new();
            push_str(&mut v, "failed to parse move amount `");
            push_all(&mut v, parts[0].as_slice());
            push_str(&mut v, "`: ");
            let t = int_error_message(e);
            push_all(&mut v, t.as_slice());
            return Err(string_of(v.as_slice()));
        },
    };
    if amount < 0 {
        return Err("Move amount must not be negative.".to_owned());
    }
    if parts.len() == 1 {
        Ok(MoveRequest { amount, direction: default_direction })
    } else {
        assert(parts@[1]@ == ws[1]);
        match parse_direction_chars(parts[1].as_slice()) {
            Err(e) => Err(e),
            Ok(d) => Ok(MoveRequest { amount, direction: d }),
        }
    }
}

// ---------------------------------------------------------------------
// The selection summary
// ---------------------------------------------------------------------

/// A corner as `x, y, z`, or `-` while it is unset.
pub open spec fn pos_text(pos: Option<BlockPos>) -> Seq<char> {
    match pos {
        None => "-"@,
        Some(p) => signed_decimal(p.x as int) + ", "@ + signed_decimal(p.y as int) + ", "@
            + signed_decimal(p.z as int),
    }
}

/// The summary of a selection: both corners, and the block count once both
/// are set.
pub open spec fn spec_selection_message(selection: Selection) -> Seq<char> {
    match selection.spec_cuboid() {
        Some(c) => "Selection: "@ + pos_text(selection.pos1) + " -> "@ + pos_text(selection.pos2)
            + " ("@ + decimal(c.spec_volume() as nat) + " blocks)"@,
        None => "Selection: "@ + pos_text(selection.pos1) + " -> "@ + pos_text(selection.pos2),
    }
}

fn push_pos(out: &mut Vec<char>, pos: Option<BlockPos>)
    ensures
        final(out)@ == old(out)@ + pos_text(pos),
{
    match pos {
        None => push_str(out, "-"),
        Some(p) => {
            let x = signed_decimal_chars(p.x);
            push_all(out, x.as_slice());
            push_str(out, ", ");
            let y = signed_decimal_chars(p.y);
            push_all(out, y.as_slice());
            push_str(out, ", ");
            let z = signed_decimal_chars(p.z);
            push_all(out, z.as_slice());
            assert(final(out)@ =~= old(out)@ + pos_text(pos));
        },
    }
}

/// Formats one corner.
pub fn format_selection_pos(pos: Option<BlockPos>) -> (s: String)
    ensures
        s@ == pos_text(pos),
{
    let mut v: Vec<char> = Vec::new();
    push_pos(&mut v, pos);
    assert(v@ =~= pos_text(pos));
    string_of(v.as_slice())
}

/// The summary players see after changing their selection.
pub fn selection_message(selection: Selection) -> (s: String)
    requires
        selection.spec_cuboid() matches Some(c) ==> c.volume_fits(),
    ensures
        s@ == spec_selection_message(selection),
{
    let mut v: Vec<char> = Vec::new();
    push_str(&mut v, "Selection: ");
    push_pos(&mut v, selection.pos1);
    push_str(&mut v, " -> ");
    push_pos(&mut v, selection.pos2);
    match selection.cuboid() {
        Some(c) => {
            push_str(&mut v, " (");
            let n = decimal_chars(c.volume());
            push_all(&mut v, n.as_slice());
            push_str(&mut v, " blocks)");
        },
        None => {},
    }
    assert(v@ =~= spec_selection_message(selection));
    string_of(v.as_slice())
}


/// Expanding by a non-negative amount never shrinks the corners: the least
/// corner moves down or stays, the greatest moves up or stays.
pub proof fn lemma_expand_grows(c: ExpandedCuboid, direction: Direction, amount: i32)
    requires
        amount >= 0,
    ensures
        spec_expand(c, direction, amount).min.x <= c.min.x,
        spec_expand(c, direction, amount).min.y <= c.min.y,
        spec_expand(c, direction, amount).min.z <= c.min.z,
        spec_expand(c, direction, amount).max.x >= c.max.x,
        spec_expand(c, direction, amount).max.y >= c.max.y,
        spec_expand(c, direction, amount).max.z >= c.max.z,
{
}

/// `p` moved by `o`, each coordinate saturating at the `i32` range.
pub open spec fn shifted(p: BlockPos, o: BlockPos) -> BlockPos {
    BlockPos { x: clamp_i32(p.x + o.x), y: clamp_i32(p.y + o.y), z: clamp_i32(p.z + o.z) }
}

/// Whether `direction` points towards growing coordinates (east, south, up).
pub open spec fn points_up_axis(direction: Direction) -> bool {
    let o = direction.spec_offset(1);
    o.x + o.y + o.z > 0
}

/// Expanding by a non-negative amount moves only the face on the side of the
/// direction, by that direction's offset: towards east, south or up the
/// greatest corner moves and the least stays; towards west, north or down the
/// least corner moves and the greatest stays.
pub proof fn lemma_expand_moves_face(c: ExpandedCuboid, direction: Direction, amount: i32)
    requires
        amount >= 0,
    ensures
        ({
            let e = spec_expand(c, direction, amount);
            let o = direction.spec_offset(amount);
            if points_up_axis(direction) {
                e.min == c.min && e.max == shifted(c.max, o)
            } else {
                e.max == c.max && e.min == shifted(c.min, o)
            }
        }),
{
    let o = direction.spec_offset(amount);
    assert(clamp_i32(c.min.x + 0) == c.min.x);
    assert(clamp_i32(c.min.y + 0) == c.min.y);
    assert(clamp_i32(c.min.z + 0) == c.min.z);
    assert(clamp_i32(c.max.x + 0) == c.max.x);
    assert(clamp_i32(c.max.y + 0) == c.max.y);
    assert(clamp_i32(c.max.z + 0) == c.max.z);
}

/// Every directional expansion keeps the old corners inside the new ones.
pub proof fn lemma_expanded_contains(
    selection: Selection,
    amount: i32,
    reverse_amount: i32,
    direction: Direction,
)
    requires
        amount >= 0,
        reverse_amount >= 0,
        spec_from_selection(selection) is Ok,
    ensures
        ({
            let c = spec_from_selection(selection)->Ok_0;
            let e = spec_expanded(
                selection,
                ExpandRequest::Directional { amount, reverse_amount, direction },
                None,
            )->Ok_0;
            &&& e.min.x <= c.min.x && e.min.y <= c.min.y && e.min.z <= c.min.z
            &&& e.max.x >= c.max.x && e.max.y >= c.max.y && e.max.z >= c.max.z
        }),
{
    let c = spec_from_selection(selection)->Ok_0;
    lemma_expand_grows(c, direction, amount);
    lemma_expand_grows(spec_expand(c, direction, amount), direction.spec_opposite(), reverse_amount);
}


// ---------------------------------------------------------------------
// Explicit corner coordinates
// ---------------------------------------------------------------------

pub open spec fn spec_parse_coordinate(input: Seq<char>) -> Result<i32, Seq<char>> {
    match parse_i32_spec(input) {
        Ok(v) => Ok(v as i32),
        Err(e) => Err("failed to parse coordinate `"@ + input + "`: "@ + int_error_text(e)),
    }
}

/// The corner a `//pos1` or `//pos2` command names: none without
/// arguments (the player's own position is meant), or the block at three
/// integer coordinates; `usage` answers any other number of arguments.
pub open spec fn spec_parse_pos_args(args: Seq<Seq<char>>, usage: Seq<char>) -> Result<
    Option<BlockPos>,
    Seq<char>,
> {
    if args.len() == 0 {
        Ok(None)
    } else if args.len() != 3 {
        Err(usage)
    } else {
        match spec_parse_coordinate(args[0]) {
            Err(e) => Err(e),
            Ok(x) => match spec_parse_coordinate(args[1]) {
                Err(e) => Err(e),
                Ok(y) => match spec_parse_coordinate(args[2]) {
                    Err(e) => Err(e),
                    Ok(z) => Ok(Some(BlockPos { x, y, z })),
                },
            },
        }
    }
}

fn parse_coordinate(input: &str) -> (r: Result<i32, String>)
    ensures
        match spec_parse_coordinate(input@) {
            Ok(v) => r == Ok::<i32, String>(v),
            Err(e) => r matches Err(m) && m@ == e,
        },
{
    let cs = chars_of(input);
    match parse_i32_chars(cs.as_slice()) {
        Ok(v) => Ok(v),
        Err(e) => {
            let mut v: Vec<char> = Vec::new();
            push_str(&mut v, "failed to parse coordinate `");
            push_str(&mut v, input);
            push_str(&mut v, "`: ");
            let t = int_error_message(e);
            push_all(&mut v, t.as_slice());
            Err(string_of(v.as_slice()))
        },
    }
}

/// Reads the optional coordinates of `//pos1` and `//pos2`.
pub fn parse_pos_args(args: &[String], usage: &str) -> (r: Result<Option<BlockPos>, String>)
    ensures
        match spec_parse_pos_args(args@.map_values(|s: String| s@), usage@) {
            Ok(p) => r == Ok::<Option<BlockPos>, String>(p),
            Err(e) => r matches Err(m) && m@ == e,
        },
{
    let ghost views = args@.map_values(|s: String| s@);
    if args.len() == 0 {
        return Ok(None);
    }
    if args.len() != 3 {
        return Err(usage.to_owned());
    }
    assert(views[0] == args@[0]@ && views[1] == args@[1]@ && views[2] == args@[2]@);
    let x = match parse_coordinate(args[0].as_str()) {
        Ok(v) => v,
        Err(e) => {
            return Err(e);
        },
    };
    let y = match parse_coordinate(args[1].as_str()) {
        Ok(v) => v,
        Err(e) => {
            return Err(e);
        },
    };
    let z = match parse_coordinate(args[2].as_str()) {
        Ok(v) => v,
        Err(e) => {
            return Err(e);
        },
    };
    Ok(Some(BlockPos { x, y, z }))
}


/// The summary of a selection, or an error when its block count does not fit
/// a `u64`.
pub open spec fn spec_checked_selection_message(selection: Selection) -> Result<Seq<char>, Seq<char>> {
    match selection.spec_cuboid() {
        Some(c) => if c.volume_fits() {
            Ok(spec_selection_message(selection))
        } else {
            Err("Selection is too large."@)
        },
        None => Ok(spec_selection_message(selection)),
    }
}

/// The summary players see after changing their selection, refusing a
/// selection too large to count.
pub fn checked_selection_message(selection: Selection) -> (r: Result<String, String>)
    ensures
        match spec_checked_selection_message(selection) {
            Ok(m) => r matches Ok(s) && s@ == m,
            Err(e) => r matches Err(s) && s@ == e,
        },
{
    match selection.cuboid() {
        Some(c) => match c.checked_volume() {
            Some(_) => Ok(selection_message(selection)),
            None => Err("Selection is too large.".to_owned()),
        },
        None => Ok(selection_message(selection)),
    }
}

} // verus!
