//! The commands players type: which double-slash commands the plugin
//! answers and the permission each needs, their arguments, the checks an
//! edit passes before it joins the queue, and the messages players see.

use vstd::prelude::*;
use crate::config::{
    Config,
    PERM_MOVE,
    PERM_POS,
    PERM_REDO,
    PERM_REPLACE,
    PERM_SET,
    PERM_UNDO,
    PERM_WALLS,
};
use crate::engine::{
    EditOperation, EditQueue, KindView, OpView, QueueView, op_counted, queue_counted, spec_can_enqueue,
    spec_pending,
};
use crate::geometry::{BlockPos, Cuboid};
use crate::history::{BlockChange, HistoryView, ReplayDirection};
use crate::numbers::{decimal, decimal_chars};
use crate::pattern::{
    BlockPattern,
    BlockStateTable,
    WeightedBlock,
    parse_block_pattern,
    parse_block_state,
    spec_parse_block_pattern,
    spec_parse_block_state,
};
use crate::selection::MoveRequest;
use crate::state::{PluginState, SessionView};
use crate::text::{char_utf8_len, chars_eq_str, chars_of, push_all, push_str, split_words, string_of, utf8_len, words};

verus! {

// ---------------------------------------------------------------------
// Double-slash commands
// ---------------------------------------------------------------------

/// A command the plugin answers when typed with two slashes.
#[derive(Clone, Copy, Debug, PartialEq, Eq, Structural)]
pub enum WorldCommand {
    Pos1,
    Pos2,
    Hpos1,
    Hpos2,
    Chunk,
    Expand,
    Fill,
    Replace,
    Walls,
    Move,
    Undo,
    Redo,
}

/// The command a word names.
pub open spec fn command_of(word: Seq<char>) -> Option<WorldCommand> {
    if word == "pos1"@ {
        Some(WorldCommand::Pos1)
    } else if word == "pos2"@ {
        Some(WorldCommand::Pos2)
    } else if word == "hpos1"@ {
        Some(WorldCommand::Hpos1)
    } else if word == "hpos2"@ {
        Some(WorldCommand::Hpos2)
    } else if word == "chunk"@ {
        Some(WorldCommand::Chunk)
    } else if word == "expand"@ {
        Some(WorldCommand::Expand)
    } else if word == "set"@ {
        Some(WorldCommand::Fill)
    } else if word == "replace"@ {
        Some(WorldCommand::Replace)
    } else if word == "walls"@ {
        Some(WorldCommand::Walls)
    } else if word == "move"@ {
        Some(WorldCommand::Move)
    } else if word == "undo"@ {
        Some(WorldCommand::Undo)
    } else if word == "redo"@ {
        Some(WorldCommand::Redo)
    } else {
        None
    }
}

fn command_of_chars(word: &[char]) -> (r: Option<WorldCommand>)
    ensures
        r == command_of(word@),
{
    if chars_eq_str(word, "pos1") {
        Some(WorldCommand::Pos1)
    } else if chars_eq_str(word, "pos2") {
        Some(WorldCommand::Pos2)
    } else if chars_eq_str(word, "hpos1") {
        Some(WorldCommand::Hpos1)
    } else if chars_eq_str(word, "hpos2") {
        Some(WorldCommand::Hpos2)
    } else if chars_eq_str(word, "chunk") {
        Some(WorldCommand::Chunk)
    } else if chars_eq_str(word, "expand") {
        Some(WorldCommand::Expand)
    } else if chars_eq_str(word, "set") {
        Some(WorldCommand::Fill)
    } else if chars_eq_str(word, "replace") {
        Some(WorldCommand::Replace)
    } else if chars_eq_str(word, "walls") {
        Some(WorldCommand::Walls)
    } else if chars_eq_str(word, "move") {
        Some(WorldCommand::Move)
    } else if chars_eq_str(word, "undo") {
        Some(WorldCommand::Undo)
    } else if chars_eq_str(word, "redo") {
        Some(WorldCommand::Redo)
    } else {
        None
    }
}

/// Whether the first word of a command (typed after its first slash) is one
/// of the plugin's commands.
pub fn is_worldpumpkin_command(command: &str) -> (r: bool)
    ensures
        r == (words(command@).len() > 0 && command_of(words(command@)[0]) is Some),
{
    let cs = chars_of(command);
    let ws = split_words(cs.as_slice());
    if ws.len() == 0 {
        return false;
    }
    assert(ws@[0]@ == words(command@)[0]);
    command_of_chars(ws[0].as_slice()).is_some()
}

/// What a command sent by a player means to the plugin: for a message that
/// starts with `/` and whose first word after it is one of the plugin's
/// commands, the command and the words after it.
pub open spec fn spec_double_slash(message: Seq<char>) -> Option<(WorldCommand, Seq<Seq<char>>)> {
    if message.len() > 0 && message[0] == '/' {
        let ws = words(message.drop_first());
        if ws.len() > 0 {
            match command_of(ws[0]) {
                Some(c) => Some((c, ws.drop_first())),
                None => None,
            }
        } else {
            None
        }
    } else {
        None
    }
}

/// Recognises a double-slash command in the command text a player sent
/// (the text after the first slash).
pub fn parse_double_slash(message: &str) -> (r: Option<(WorldCommand, Vec<String>)>)
    ensures
        match spec_double_slash(message@) {
            Some(p) => r matches Some(q) && q.0 == p.0 && q.1@.len() == p.1.len() && forall|i: int|
                0 <= i < p.1.len() ==> #[trigger] q.1@[i]@ == p.1[i],
            None => r is None,
        },
{
    let cs = chars_of(message);
    if cs.len() == 0 || cs[0] != '/' {
        return None;
    }
    let mut rest: Vec<char> = Vec::new();
    let mut i: usize = 1;
    while i < cs.len()
        invariant
            1 <= i <= cs@.len(),
            rest@ == cs@.subrange(1, i as int),
        decreases cs@.len() - i,
    {
        rest.push(cs[i]);
        i += 1;
    }
    assert(rest@ =~= message@.drop_first());
    let ws = split_words(rest.as_slice());
    if ws.len() == 0 {
        return None;
    }
    assert(ws@[0]@ == words(message@.drop_first())[0]);
    let command = match command_of_chars(ws[0].as_slice()) {
        Some(c) => c,
        None => {
            return None;
        },
    };
    let ghost tail = words(message@.drop_first()).drop_first();
    let mut args: Vec<String> = Vec::new();
    let mut k: usize = 1;
    while k < ws.len()
        invariant
            1 <= k <= ws@.len(),
            ws@.len() == words(message@.drop_first()).len(),
            forall|j: int| 0 <= j < ws@.len() ==> #[trigger] ws@[j]@ == words(message@.drop_first())[j],
            tail == words(message@.drop_first()).drop_first(),
            args@.len() == k - 1,
            forall|j: int| 0 <= j < args@.len() ==> #[trigger] args@[j]@ == tail[j],
        decreases ws@.len() - k,
    {
        let s = string_of(ws[k].as_slice());
        args.push(s);
        assert(args@[k - 1]@ == tail[k - 1]);
        k += 1;
    }
    Some((command, args))
}

/// The permission each command needs.
pub open spec fn spec_command_permission(command: WorldCommand) -> Seq<char> {
    match command {
        WorldCommand::Pos1 | WorldCommand::Pos2 | WorldCommand::Hpos1 | WorldCommand::Hpos2
        | WorldCommand::Chunk | WorldCommand::Expand => PERM_POS@,
        WorldCommand::Fill => PERM_SET@,
        WorldCommand::Replace => PERM_REPLACE@,
        WorldCommand::Walls => PERM_WALLS@,
        WorldCommand::Move => PERM_MOVE@,
        WorldCommand::Undo => PERM_UNDO@,
        WorldCommand::Redo => PERM_REDO@,
    }
}

pub fn command_permission(command: WorldCommand) -> (p: &'static str)
    ensures
        p@ == spec_command_permission(command),
{
    match command {
        WorldCommand::Pos1 | WorldCommand::Pos2 | WorldCommand::Hpos1 | WorldCommand::Hpos2
        | WorldCommand::Chunk | WorldCommand::Expand => PERM_POS,
        WorldCommand::Fill => PERM_SET,
        WorldCommand::Replace => PERM_REPLACE,
        WorldCommand::Walls => PERM_WALLS,
        WorldCommand::Move => PERM_MOVE,
        WorldCommand::Undo => PERM_UNDO,
        WorldCommand::Redo => PERM_REDO,
    }
}

/// Refuses a command the player has no permission for.
pub fn require_permission(granted: bool) -> (r: Result<(), String>)
    ensures
        granted ==> r is Ok,
        !granted ==> (r matches Err(m) && m@ == "You don't have permission for that."@),
{
    if granted {
        Ok(())
    } else {
        Err("You don't have permission for that.".to_owned())
    }
}

// ---------------------------------------------------------------------
// Arguments
// ---------------------------------------------------------------------

/// Refuses arguments left over after a command's last one.
pub fn ensure_no_extra_args(rest: &[String]) -> (r: Result<(), String>)
    ensures
        rest@.len() == 0 ==> r is Ok,
        rest@.len() > 0 ==> (r matches Err(m) && m@ == "Too many arguments."@),
{
    if rest.len() > 0 {
        Err("Too many arguments.".to_owned())
    } else {
        Ok(())
    }
}

/// What a command that takes exactly one block pattern makes of its
/// arguments.
pub open spec fn spec_required_pattern(
    args: Seq<Seq<char>>,
    usage: Seq<char>,
    table: Seq<(u64, Seq<char>, u16)>,
) -> Result<(Seq<WeightedBlock>, nat), Seq<char>> {
    if args.len() == 0 {
        Err(usage)
    } else if args.len() > 1 {
        Err("Too many arguments."@)
    } else {
        spec_parse_block_pattern(args[0], table)
    }
}

pub open spec fn views(args: Seq<String>) -> Seq<Seq<char>> {
    args.map_values(|s: String| s@)
}

/// Reads the single block pattern a command takes; `usage` answers a
/// missing one.
pub fn parse_required_pattern(args: &[String], usage: &str, table: &BlockStateTable) -> (r: Result<
    BlockPattern,
    String,
>)
    ensures
        match spec_required_pattern(views(args@), usage@, table@) {
            Ok(acc) => r matches Ok(p) && p@ == acc.0 && p.total() == acc.1,
            Err(e) => r matches Err(m) && m@ == e,
        },
{
    if args.len() == 0 {
        return Err(usage.to_owned());
    }
    if args.len() > 1 {
        return Err("Too many arguments.".to_owned());
    }
    assert(views(args@)[0] == args@[0]@);
    parse_block_pattern(args[0].as_str(), table)
}

/// What `//replace <from> <to>` makes of its arguments.
pub open spec fn spec_replace_args(args: Seq<Seq<char>>, table: Seq<(u64, Seq<char>, u16)>) -> Result<
    (u16, (Seq<WeightedBlock>, nat)),
    Seq<char>,
> {
    if args.len() == 0 {
        Err("Usage: //replace <from> <to>"@)
    } else {
        match spec_parse_block_state(args[0], table) {
            Err(e) => Err(e),
            Ok(from) => match spec_required_pattern(
                args.drop_first(),
                "Usage: //replace <from> <to>"@,
                table,
            ) {
                Err(e) => Err(e),
                Ok(acc) => Ok((from, acc)),
            },
        }
    }
}

/// Reads the block state to replace and the pattern to replace it with.
pub fn parse_replace_args(args: &[String], table: &BlockStateTable) -> (r: Result<(u16, BlockPattern), String>)
    ensures
        match spec_replace_args(views(args@), table@) {
            Ok(p) => r matches Ok(q) && q.0 == p.0 && q.1@ == p.1.0 && q.1.total() == p.1.1,
            Err(e) => r matches Err(m) && m@ == e,
        },
{
    if args.len() == 0 {
        return Err("Usage: //replace <from> <to>".to_owned());
    }
    assert(views(args@)[0] == args@[0]@);
    let from = match parse_block_state(args[0].as_str(), table) {
        Ok(v) => v,
        Err(e) => {
            return Err(e);
        },
    };
    let rest = vstd::slice::slice_subrange(args, 1, args.len());
    assert(views(rest@) =~= views(args@).drop_first());
    match parse_required_pattern(rest, "Usage: //replace <from> <to>", table) {
        Ok(p) => Ok((from, p)),
        Err(e) => Err(e),
    }
}

// ---------------------------------------------------------------------
// Admitting an edit
// ---------------------------------------------------------------------

/// Whether an edit of `volume` blocks passes the per-edit limit; players
/// with the bypass permission pass any size.
pub open spec fn spec_limit(volume: u64, max: u64, bypass: bool) -> Result<(), Seq<char>> {
    if volume <= max || bypass {
        Ok(())
    } else {
        Err(
            "Selection is too large: "@ + decimal(volume as nat) + " blocks, limit is "@ + decimal(
                max as nat,
            ) + "."@,
        )
    }
}

pub fn check_limit(volume: u64, max: u64, bypass: bool) -> (r: Result<(), String>)
    ensures
        match spec_limit(volume, max, bypass) {
            Ok(()) => r is Ok,
            Err(e) => r matches Err(m) && m@ == e,
        },
{
    if volume <= max || bypass {
        return Ok(());
    }
    let mut v: Vec<char> = Vec::new();
    push_str(&mut v, "Selection is too large: ");
    let a = decimal_chars(volume);
    push_all(&mut v, a.as_slice());
    push_str(&mut v, " blocks, limit is ");
    let b = decimal_chars(max);
    push_all(&mut v, b.as_slice());
    push_str(&mut v, ".");
    Err(string_of(v.as_slice()))
}

/// Whether an edit of `blocks` blocks may join the queue: first the
/// per-edit limit, then the queue's limits.
pub open spec fn spec_admit<W>(q: QueueView<W>, blocks: u64, config: Config, bypass: bool) -> Result<
    (),
    Seq<char>,
> {
    match spec_limit(blocks, config.max_blocks_per_operation, bypass) {
        Err(e) => Err(e),
        Ok(()) => spec_can_enqueue(q.ops.len(), q.queued_blocks, blocks, config),
    }
}

/// The queue after an edit joins at the back.
pub open spec fn enqueued<W>(q: QueueView<W>, op: OpView, target: W) -> QueueView<W> {
    QueueView {
        ops: q.ops.push(op),
        targets: q.targets.push(target),
        queued_blocks: if q.queued_blocks + spec_pending(op) > u64::MAX {
            u64::MAX
        } else {
            (q.queued_blocks + spec_pending(op)) as u64
        },
        tick: q.tick,
    }
}

pub open spec fn queued_text(blocks: u64) -> Seq<char> {
    "Queued "@ + decimal(blocks as nat) + " blocks."@
}

pub open spec fn queued_undo_text(blocks: u64) -> Seq<char> {
    "Undo queued ("@ + decimal(blocks as nat) + " blocks)."@
}

pub open spec fn queued_redo_text(blocks: u64) -> Seq<char> {
    "Redo queued ("@ + decimal(blocks as nat) + " blocks)."@
}

fn count_message(prefix: &str, blocks: u64, suffix: &str) -> (m: String)
    ensures
        m@ == prefix@ + decimal(blocks as nat) + suffix@,
{
    let mut v: Vec<char> = Vec::new();
    push_str(&mut v, prefix);
    let d = decimal_chars(blocks);
    push_all(&mut v, d.as_slice());
    push_str(&mut v, suffix);
    string_of(v.as_slice())
}

pub fn queued_message(blocks: u64) -> (m: String)
    ensures
        m@ == queued_text(blocks),
{
    count_message("Queued ", blocks, " blocks.")
}

pub fn queued_undo_message(blocks: u64) -> (m: String)
    ensures
        m@ == queued_undo_text(blocks),
{
    count_message("Undo queued (", blocks, " blocks).")
}

pub fn queued_redo_message(blocks: u64) -> (m: String)
    ensures
        m@ == queued_redo_text(blocks),
{
    count_message("Redo queued (", blocks, " blocks).")
}

/// The seeds that make each queued edit's pattern distribution differ; the
/// counter wraps around.
pub struct PatternSeeds {
    next: u64,
}

impl PatternSeeds {
    pub closed spec fn spec_next(&self) -> u64 {
        self.next
    }

    /// Seeds start at 1.
    pub fn new() -> (s: PatternSeeds)
        ensures
            s.spec_next() == 1,
    {
        PatternSeeds { next: 1 }
    }

    /// Hands out the next seed.
    pub fn next_pattern_seed(&mut self) -> (seed: u64)
        ensures
            seed == old(self).spec_next(),
            final(self).spec_next() == (if old(self).spec_next() == u64::MAX {
                0
            } else {
                (old(self).spec_next() + 1) as u64
            }),
    {
        let seed = self.next;
        self.next = if self.next == u64::MAX {
            0
        } else {
            self.next + 1
        };
        seed
    }
}

/// The cuboid of `owner`'s selection once both corners are set and its
/// block count fits a `u64`.
pub open spec fn spec_selection_cuboid(session: Option<SessionView>) -> Result<Cuboid, Seq<char>> {
    match session {
        Some(s) => match s.selection.spec_cuboid() {
            Some(c) => if c.volume_fits() {
                Ok(c)
            } else {
                Err("Selection is too large."@)
            },
            None => Err("Select two positions first."@),
        },
        None => Err("Select two positions first."@),
    }
}

pub fn selection_cuboid(state: &PluginState, owner: &str) -> (r: Result<Cuboid, String>)
    requires
        state.wf(),
    ensures
        match spec_selection_cuboid(state.lookup(owner@)) {
            Ok(c) => r == Ok::<Cuboid, String>(c),
            Err(e) => r matches Err(m) && m@ == e,
        },
{
    match state.selection(owner) {
        Some(s) => match s.cuboid() {
            Some(c) => match c.checked_volume() {
                Some(_) => Ok(c),
                None => Err("Selection is too large.".to_owned()),
            },
            None => Err("Select two positions first.".to_owned()),
        },
        None => Err("Select two positions first.".to_owned()),
    }
}

/// The edit that fills `positions` with a pattern, or replaces `from` in them.
pub open spec fn forward_view(
    owner: Seq<char>,
    world_id: Seq<char>,
    positions: Seq<BlockPos>,
    from: Option<u16>,
    pattern: Seq<WeightedBlock>,
    total: u32,
    seed: u64,
) -> OpView {
    OpView {
        owner,
        world_id,
        kind: match from {
            None => KindView::Fill { pattern, total },
            Some(f) => KindView::Replace { from: f, pattern, total },
        },
        positions,
        history: Seq::<BlockChange>::empty(),
        remaining: positions.len() as u64,
        seed,
    }
}

/// An edit command with its block arguments.
pub enum EditCommand {
    /// `//set`: fill the selection.
    Fill { to: BlockPattern },
    /// `//replace`: replace `from` in the selection.
    Replace { from: u16, to: BlockPattern },
    /// `//walls`: fill the selection's four vertical faces.
    Walls { to: BlockPattern },
}

impl EditCommand {
    /// The blocks the command covers.
    pub open spec fn positions(&self, cuboid: Cuboid) -> Seq<BlockPos> {
        match self {
            EditCommand::Walls { .. } => cuboid.wall_seq(),
            _ => cuboid.positions(),
        }
    }

    /// The edit it queues.
    pub open spec fn op_view(&self, owner: Seq<char>, world_id: Seq<char>, cuboid: Cuboid, seed: u64) -> OpView {
        match self {
            EditCommand::Fill { to } => forward_view(owner, world_id, cuboid.positions(), None, to@, to.total(), seed),
            EditCommand::Replace { from, to } => forward_view(
                owner,
                world_id,
                cuboid.positions(),
                Some(*from),
                to@,
                to.total(),
                seed,
            ),
            EditCommand::Walls { to } => forward_view(owner, world_id, cuboid.wall_seq(), None, to@, to.total(), seed),
        }
    }
}

/// Queues `//set`, `//replace` or `//walls` on `cuboid` for `owner` in
/// `world_id`: the edit passes the per-edit limit (unless `bypass`) and the
/// queue's limits, takes the next pattern seed and joins the queue; the
/// answer is the message for the player.
pub fn queue_edit<W>(
    state: &PluginState,
    queue: &mut EditQueue<W>,
    seeds: &mut PatternSeeds,
    owner: String,
    world_id: String,
    target: W,
    cuboid: Cuboid,
    command: EditCommand,
    bypass: bool,
) -> (r: Result<String, String>)
    requires
        old(queue).wf(),
        cuboid.volume_fits(),
    ensures
        final(queue).wf(),
        ({
            let blocks = command.positions(cuboid).len() as u64;
            match spec_admit(old(queue).view(), blocks, state.spec_config(), bypass) {
                Err(e) => {
                    &&& r matches Err(m) && m@ == e
                    &&& final(queue).view() == old(queue).view()
                    &&& *final(seeds) == *old(seeds)
                },
                Ok(()) => {
                    &&& r matches Ok(m) && m@ == queued_text(blocks)
                    &&& final(queue).view() == enqueued(
                        old(queue).view(),
                        command.op_view(owner@, world_id@, cuboid, old(seeds).spec_next()),
                        target,
                    )
                    &&& final(seeds).spec_next() == (if old(seeds).spec_next() == u64::MAX {
                        0
                    } else {
                        (old(seeds).spec_next() + 1) as u64
                    })
                },
            }
        }),
        queue_counted(old(queue).view()) ==> queue_counted(final(queue).view()),
{
    let blocks = match &command {
        EditCommand::Walls { .. } => cuboid.wall_volume(),
        _ => cuboid.volume(),
    };
    let config = state.config();
    match check_limit(blocks, config.max_blocks_per_operation, bypass) {
        Ok(()) => {},
        Err(e) => {
            return Err(e);
        },
    }
    match queue.can_enqueue(blocks, config) {
        Ok(()) => {},
        Err(e) => {
            return Err(e);
        },
    }
    let seed = seeds.next_pattern_seed();
    let op = match command {
        EditCommand::Fill { to } => EditOperation::set(owner, world_id, cuboid, to, seed),
        EditCommand::Replace { from, to } => EditOperation::replace(owner, world_id, cuboid, from, to, seed),
        EditCommand::Walls { to } => EditOperation::walls(owner, world_id, cuboid, to, seed),
    };
    assert(op_counted(op.view()));
    queue.enqueue(op, target);
    Ok(queued_message(blocks))
}

// ---------------------------------------------------------------------
// Undo and redo
// ---------------------------------------------------------------------

/// The newest entry of the history a replay takes from.
pub open spec fn latest_entry(session: Option<SessionView>, direction: ReplayDirection) -> Option<
    HistoryView,
> {
    match session {
        Some(s) => {
            let l = match direction {
                ReplayDirection::Undo => s.undo,
                ReplayDirection::Redo => s.redo,
            };
            if l.len() > 0 {
                Some(l[0])
            } else {
                None
            }
        },
        None => None,
    }
}

pub open spec fn nothing_text(direction: ReplayDirection) -> Seq<char> {
    match direction {
        ReplayDirection::Undo => "Nothing to undo."@,
        ReplayDirection::Redo => "Nothing to redo."@,
    }
}

/// Whether the newest entry may be replayed in `world_id`: it must exist,
/// come from that world, and fit in the queue.
pub open spec fn spec_replay_admit<W>(
    latest: Option<HistoryView>,
    world_id: Seq<char>,
    direction: ReplayDirection,
    q: QueueView<W>,
    config: Config,
) -> Result<HistoryView, Seq<char>> {
    match latest {
        None => Err(nothing_text(direction)),
        Some(e) => if e.world_id != world_id {
            Err("That edit was made in another world."@)
        } else {
            match spec_can_enqueue(q.ops.len(), q.queued_blocks, e.changes.len() as u64, config) {
                Err(m) => Err(m),
                Ok(()) => Ok(e),
            }
        },
    }
}

/// Undo and redo stay in the world an edit was made in: a replay is admitted
/// only for the newest entry of that history, and only when that entry was
/// recorded in the player's current world; in any other world it is refused
/// with the same answer, whichever way it replays.
pub proof fn lemma_replay_same_world<W>(
    latest: Option<HistoryView>,
    world_id: Seq<char>,
    direction: ReplayDirection,
    q: QueueView<W>,
    config: Config,
)
    ensures
        spec_replay_admit(latest, world_id, direction, q, config) matches Ok(e) ==> latest == Some(e)
            && e.world_id == world_id,
        latest matches Some(e) && e.world_id != world_id ==> spec_replay_admit(
            latest,
            world_id,
            direction,
            q,
            config,
        ) == Err::<HistoryView, Seq<char>>("That edit was made in another world."@),
        latest is None ==> spec_replay_admit(latest, world_id, direction, q, config) is Err,
{
}

/// The edit that replays `entry`.
pub open spec fn replay_view(
    owner: Seq<char>,
    world_id: Seq<char>,
    entry: HistoryView,
    direction: ReplayDirection,
) -> OpView {
    OpView {
        owner,
        world_id,
        kind: KindView::Replay {
            entry,
            direction,
            next_index: match direction {
                ReplayDirection::Undo => entry.changes.len() as int,
                ReplayDirection::Redo => 0,
            },
        },
        positions: Seq::<BlockPos>::empty(),
        history: Seq::<BlockChange>::empty(),
        remaining: entry.changes.len() as u64,
        seed: 0,
    }
}

/// The session after its newest undo (or redo) entry is taken.
pub open spec fn without_latest(s: SessionView, direction: ReplayDirection) -> SessionView {
    match direction {
        ReplayDirection::Undo => SessionView { undo: s.undo.drop_first(), ..s },
        ReplayDirection::Redo => SessionView { redo: s.redo.drop_first(), ..s },
    }
}

pub open spec fn replay_queued_text(direction: ReplayDirection, blocks: u64) -> Seq<char> {
    match direction {
        ReplayDirection::Undo => queued_undo_text(blocks),
        ReplayDirection::Redo => queued_redo_text(blocks),
    }
}

/// Queues `//undo` (or `//redo`) for `owner`, who is in `world_id`: the
/// newest undo (redo) entry leaves the history and is replayed; on an error
/// nothing changes.
pub fn queue_replay<W>(
    state: &mut PluginState,
    queue: &mut EditQueue<W>,
    owner: String,
    world_id: String,
    target: W,
    direction: ReplayDirection,
) -> (r: Result<String, String>)
    requires
        old(state).wf(),
        old(queue).wf(),
    ensures
        final(state).wf(),
        final(queue).wf(),
        final(state).spec_config() == old(state).spec_config(),
        match spec_replay_admit(
            latest_entry(old(state).lookup(owner@), direction),
            world_id@,
            direction,
            old(queue).view(),
            old(state).spec_config(),
        ) {
            Err(e) => {
                &&& r matches Err(m) && m@ == e
                &&& *final(state) == *old(state)
                &&& final(queue).view() == old(queue).view()
            },
            Ok(entry) => {
                &&& r matches Ok(m) && m@ == replay_queued_text(
                    direction,
                    entry.changes.len() as u64,
                )
                &&& final(state).lookup(owner@) == Some(
                    without_latest(old(state).lookup(owner@)->0, direction),
                )
                &&& forall|o: Seq<char>|
                    o != owner@ ==> #[trigger] final(state).lookup(o) == old(state).lookup(o)
                &&& final(queue).view() == enqueued(
                    old(queue).view(),
                    replay_view(owner@, world_id@, entry, direction),
                    target,
                )
            },
        },
        queue_counted(old(queue).view()) ==> queue_counted(final(queue).view()),
        r is Ok ==> (latest_entry(old(state).lookup(owner@), direction) matches Some(e)
            && e.world_id == world_id@),
{
    let info = match direction {
        ReplayDirection::Undo => state.latest_undo_history(owner.as_str()),
        ReplayDirection::Redo => state.latest_redo_history(owner.as_str()),
    };
    let info = match info {
        Some(i) => i,
        None => {
            return match direction {
                ReplayDirection::Undo => Err("Nothing to undo.".to_owned()),
                ReplayDirection::Redo => Err("Nothing to redo.".to_owned()),
            };
        },
    };
    let wa = chars_of(world_id.as_str());
    if !chars_eq_str(wa.as_slice(), info.world_id.as_str()) {
        return Err("That edit was made in another world.".to_owned());
    }
    let blocks = info.blocks as u64;
    match queue.can_enqueue(blocks, state.config()) {
        Ok(()) => {},
        Err(e) => {
            return Err(e);
        },
    }
    let history = match direction {
        ReplayDirection::Undo => state.pop_undo_history(owner.as_str()),
        ReplayDirection::Redo => state.pop_redo_history(owner.as_str()),
    };
    let history = match history {
        Some(h) => h,
        None => {
            return Err("Nothing to undo.".to_owned());
        },
    };
    let op = match direction {
        ReplayDirection::Undo => EditOperation::undo(owner, world_id, history),
        ReplayDirection::Redo => EditOperation::redo(owner, world_id, history),
    };
    assert(op_counted(op.view()));
    queue.enqueue(op, target);
    match direction {
        ReplayDirection::Undo => Ok(queued_undo_message(blocks)),
        ReplayDirection::Redo => Ok(queued_redo_message(blocks)),
    }
}

// ---------------------------------------------------------------------
// Administration messages
// ---------------------------------------------------------------------

pub open spec fn spec_enabled_text(enabled: bool) -> Seq<char> {
    if enabled {
        "on"@
    } else {
        "off"@
    }
}

pub fn enabled_text(enabled: bool) -> (t: &'static str)
    ensures
        t@ == spec_enabled_text(enabled),
{
    if enabled {
        "on"
    } else {
        "off"
    }
}

/// The `/worldpumpkin status` report; `tps` is the server's ticks per
/// second, already formatted.
pub open spec fn spec_status_text(config: Config, queued: nat, queued_blocks: u64, tps: Seq<char>) -> Seq<
    char,
> {
    let work = if queued == 0 {
        "Idle"@
    } else {
        decimal(queued) + " edits waiting ("@ + decimal(queued_blocks as nat) + " blocks)"@
    };
    "\nWork: "@ + work + "\nLimit: "@ + decimal(config.max_blocks_per_operation as nat)
        + " blocks\nSpeed: "@ + decimal(config.blocks_per_tick as nat) + " blocks/tick\nFast edits: "@
        + spec_enabled_text(config.fast_mode) + "\nServer: "@ + tps + " TPS"@
}

pub fn status_message<W>(config: &Config, queue: &EditQueue<W>, tps: &str) -> (m: String)
    ensures
        m@ == spec_status_text(*config, queue.view().ops.len(), queue.view().queued_blocks, tps@),
{
    let queued = queue.len();
    let queued_blocks = queue.queued_blocks();
    let mut v: Vec<char> = Vec::new();
    push_str(&mut v, "\nWork: ");
    if queued == 0 {
        push_str(&mut v, "Idle");
    } else {
        let a = decimal_chars(queued as u64);
        push_all(&mut v, a.as_slice());
        push_str(&mut v, " edits waiting (");
        let b = decimal_chars(queued_blocks);
        push_all(&mut v, b.as_slice());
        push_str(&mut v, " blocks)");
    }
    push_str(&mut v, "\nLimit: ");
    let c = decimal_chars(config.max_blocks_per_operation);
    push_all(&mut v, c.as_slice());
    push_str(&mut v, " blocks\nSpeed: ");
    let d = decimal_chars(config.blocks_per_tick as u64);
    push_all(&mut v, d.as_slice());
    push_str(&mut v, " blocks/tick\nFast edits: ");
    push_str(&mut v, enabled_text(config.fast_mode));
    push_str(&mut v, "\nServer: ");
    push_str(&mut v, tps);
    push_str(&mut v, " TPS");
    assert(v@ =~= spec_status_text(*config, queued as nat, queued_blocks, tps@));
    string_of(v.as_slice())
}

/// The characters that make up exactly the first `n` bytes of `s`, if the
/// `n`-th byte ends a character.
pub open spec fn byte_prefix(s: Seq<char>, n: int) -> Option<Seq<char>>
    decreases s.len(),
{
    if n <= 0 {
        Some(Seq::<char>::empty())
    } else if s.len() == 0 || utf8_len(s[0]) > n {
        None
    } else {
        match byte_prefix(s.drop_first(), n - utf8_len(s[0])) {
            Some(p) => Some(seq![s[0]] + p),
            None => None,
        }
    }
}

/// A revision cut to its first 8 bytes, or left whole where it is shorter
/// or the cut would split a character.
pub open spec fn spec_short_rev(rev: Seq<char>) -> Seq<char> {
    match byte_prefix(rev, 8) {
        Some(p) => p,
        None => rev,
    }
}

proof fn lemma_byte_prefix_step(s: Seq<char>, i: int, n: int)
    requires
        0 <= i < s.len(),
        0 < n,
        utf8_len(s[i]) <= n,
    ensures
        byte_prefix(s.subrange(i, s.len() as int), n) == match byte_prefix(
            s.subrange(i + 1, s.len() as int),
            n - utf8_len(s[i]),
        ) {
            Some(p) => Some(seq![s[i]] + p),
            None => None::<Seq<char>>,
        },
{
    assert(s.subrange(i, s.len() as int).drop_first() =~= s.subrange(i + 1, s.len() as int));
}

pub fn short_rev(rev: &str) -> (r: String)
    ensures
        r@ == spec_short_rev(rev@),
{
    let cs = chars_of(rev);
    let mut out: Vec<char> = Vec::new();
    let mut left: usize = 8;
    let mut i: usize = 0;
    assert(cs@.subrange(0, cs@.len() as int) =~= rev@);
    while left > 0 && i < cs.len() && char_utf8_len(cs[i]) <= left
        invariant
            cs@ == rev@,
            i <= cs@.len(),
            left <= 8,
            out@ == cs@.subrange(0, i as int),
            byte_prefix(rev@, 8) == match byte_prefix(cs@.subrange(i as int, cs@.len() as int), left as int) {
                Some(p) => Some(out@ + p),
                None => None::<Seq<char>>,
            },
        decreases cs@.len() - i,
    {
        let n = char_utf8_len(cs[i]);
        proof {
            lemma_byte_prefix_step(cs@, i as int, left as int);
            assert(cs@.subrange(0, i as int + 1) =~= cs@.subrange(0, i as int).push(cs@[i as int]));
            assert forall|p: Seq<char>| out@ + (seq![cs@[i as int]] + p) =~= cs@.subrange(0, i as int + 1) + p by {}
        }
        out.push(cs[i]);
        left = left - n;
        i += 1;
    }
    if left == 0 {
        assert(out@ + Seq::<char>::empty() =~= out@);
        string_of(out.as_slice())
    } else {
        rev.to_owned()
    }
}

/// Joins `parts` with `sep` between them.
pub open spec fn join_with(parts: Seq<Seq<char>>, sep: Seq<char>) -> Seq<char>
    decreases parts.len(),
{
    if parts.len() == 0 {
        Seq::<char>::empty()
    } else if parts.len() == 1 {
        parts[0]
    } else {
        join_with(parts.drop_last(), sep) + sep + parts.last()
    }
}

/// The `/worldpumpkin info` report.
pub open spec fn spec_info_text(
    version: Seq<char>,
    authors: Seq<Seq<char>>,
    api_version: Seq<char>,
    api_rev: Seq<char>,
    api_source: Seq<char>,
) -> Seq<char> {
    "\nVersion: "@ + version + "\nAuthors: "@ + join_with(authors, ", "@) + "\nPumpkin API: "@
        + api_version + " ("@ + spec_short_rev(api_rev) + ")\nSource: "@ + api_source
}

pub fn info_message(
    version: &str,
    authors: &[String],
    api_version: &str,
    api_rev: &str,
    api_source: &str,
) -> (m: String)
    ensures
        m@ == spec_info_text(version@, views(authors@), api_version@, api_rev@, api_source@),
{
    let mut v: Vec<char> = Vec::new();
    push_str(&mut v, "\nVersion: ");
    push_str(&mut v, version);
    push_str(&mut v, "\nAuthors: ");
    let ghost start = v@;
    let mut i: usize = 0;
    while i < authors.len()
        invariant
            i <= authors@.len(),
            v@ == start + join_with(views(authors@).take(i as int), ", "@),
        decreases authors@.len() - i,
    {
        let ghost before = v@;
        if i > 0 {
            push_str(&mut v, ", ");
        }
        push_str(&mut v, authors[i].as_str());
        proof {
            let t = views(authors@).take(i as int + 1);
            assert(t.drop_last() =~= views(authors@).take(i as int));
            assert(t.last() == authors@[i as int]@);
            if i == 0 {
                assert(views(authors@).take(0) =~= Seq::<Seq<char>>::empty());
                assert(v@ =~= start + join_with(t, ", "@));
            } else {
                assert(v@ =~= start + join_with(t, ", "@));
            }
        }
        i += 1;
    }
    assert(views(authors@).take(authors@.len() as int) =~= views(authors@));
    push_str(&mut v, "\nPumpkin API: ");
    push_str(&mut v, api_version);
    push_str(&mut v, " (");
    let sr = short_rev(api_rev);
    push_str(&mut v, sr.as_str());
    push_str(&mut v, ")\nSource: ");
    push_str(&mut v, api_source);
    assert(v@ =~= spec_info_text(version@, views(authors@), api_version@, api_rev@, api_source@));
    string_of(v.as_slice())
}


// ---------------------------------------------------------------------
// `//move`
// ---------------------------------------------------------------------

/// The checks a move of `cuboid` passes: its destination must stay within
/// the coordinate range, then the edit must pass the per-edit limit (unless
/// `bypass`) and the queue's limits. The answer is the destination.
pub open spec fn spec_plan_move<W>(
    cuboid: Cuboid,
    request: MoveRequest,
    q: QueueView<W>,
    config: Config,
    bypass: bool,
) -> Result<Cuboid, Seq<char>> {
    match cuboid.spec_translated(request.direction.spec_offset(request.amount)) {
        None => Err("Move destination is outside the supported coordinate range."@),
        Some(dest) => match spec_admit(q, cuboid.spec_volume() as u64, config, bypass) {
            Err(e) => Err(e),
            Ok(()) => Ok(dest),
        },
    }
}

/// Checks a move of `cuboid` for `owner`'s request.
pub fn plan_move<W>(
    state: &PluginState,
    queue: &EditQueue<W>,
    cuboid: Cuboid,
    request: MoveRequest,
    bypass: bool,
) -> (r: Result<Cuboid, String>)
    requires
        cuboid.volume_fits(),
    ensures
        match spec_plan_move(cuboid, request, queue.view(), state.spec_config(), bypass) {
            Ok(d) => r == Ok::<Cuboid, String>(d),
            Err(e) => r matches Err(m) && m@ == e,
        },
{
    let offset = request.direction.offset(request.amount);
    let dest = match cuboid.translated(offset) {
        Some(d) => d,
        None => {
            return Err("Move destination is outside the supported coordinate range.".to_owned());
        },
    };
    let blocks = cuboid.volume();
    let config = state.config();
    match check_limit(blocks, config.max_blocks_per_operation, bypass) {
        Ok(()) => {},
        Err(e) => {
            return Err(e);
        },
    }
    match queue.can_enqueue(blocks, config) {
        Ok(()) => {},
        Err(e) => {
            return Err(e);
        },
    }
    Ok(dest)
}

} // verus!
