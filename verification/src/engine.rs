//! Queued edits: what each edit reads and writes, block by block, the
//! history it records, and the queue that runs a bounded number of blocks
//! per server tick.
//!
//! World access stays with the caller: a tick is driven step by step, each
//! step telling the caller which block to read or write next.

use vstd::prelude::*;
use crate::config::Config;
use crate::geometry::{BlockPos, Cuboid, CuboidIter};
use crate::history::{BlockChange, HistoryEntry, HistoryView, ReplayDirection, WorldModel, replay_writes};
use crate::pattern::{BlockPattern, WeightedBlock, spec_pick_state};
use crate::numbers::{decimal, decimal_chars};
use crate::text::{push_all, push_str, string_of};
use std::collections::VecDeque;

verus! {

/// The blocks an edit has still to visit.
enum EditPositions {
    Walk(CuboidIter),
    Listed(Vec<BlockPos>, usize),
}

impl EditPositions {
    closed spec fn wf(&self) -> bool {
        match self {
            EditPositions::Walk(_) => true,
            EditPositions::Listed(v, i) => *i <= v@.len(),
        }
    }

    closed spec fn remaining(&self) -> Seq<BlockPos> {
        match self {
            EditPositions::Walk(it) => it.remaining(),
            EditPositions::Listed(v, i) => v@.subrange(*i as int, v@.len() as int),
        }
    }

    fn cuboid(cuboid: Cuboid) -> (p: EditPositions)
        ensures
            p.wf(),
            p.remaining() == cuboid.positions(),
    {
        EditPositions::Walk(cuboid.iter())
    }

    fn vec(positions: Vec<BlockPos>) -> (p: EditPositions)
        ensures
            p.wf(),
            p.remaining() == positions@,
    {
        let p = EditPositions::Listed(positions, 0);
        assert(p.remaining() =~= positions@);
        p
    }

    fn empty() -> (p: EditPositions)
        ensures
            p.wf(),
            p.remaining() == Seq::<BlockPos>::empty(),
    {
        EditPositions::vec(Vec::new())
    }

    fn next(&mut self) -> (r: Option<BlockPos>)
        requires
            old(self).wf(),
        ensures
            final(self).wf(),
            old(self).remaining().len() > 0 ==> {
                &&& r == Some(old(self).remaining()[0])
                &&& final(self).remaining() == old(self).remaining().drop_first()
            },
            old(self).remaining().len() == 0 ==> {
                &&& r is None
                &&& final(self).remaining() == old(self).remaining()
            },
    {
        match self {
            EditPositions::Walk(it) => it.next(),
            EditPositions::Listed(v, i) => {
                if *i < v.len() {
                    let p = v[*i];
                    *i = *i + 1;
                    assert(v@.subrange(*i - 1, v@.len() as int).drop_first() =~= v@.subrange(
                        *i as int,
                        v@.len() as int,
                    ));
                    Some(p)
                } else {
                    None
                }
            },
        }
    }
}

/// What an edit does to the blocks it visits.
pub enum EditKind {
    Fill { to: BlockPattern },
    Replace { from: u16, to: BlockPattern },
    Replay { history: HistoryEntry, direction: ReplayDirection, next_index: usize },
}

/// The spec form of an edit's kind.
pub enum KindView {
    Fill { pattern: Seq<WeightedBlock>, total: u32 },
    Replace { from: u16, pattern: Seq<WeightedBlock>, total: u32 },
    Replay { entry: HistoryView, direction: ReplayDirection, next_index: int },
}

/// The spec form of an edit.
pub struct OpView {
    pub owner: Seq<char>,
    pub world_id: Seq<char>,
    pub kind: KindView,
    /// Blocks still to visit, in order (set, replace and walls edits).
    pub positions: Seq<BlockPos>,
    /// Changes recorded so far (set, replace and walls edits).
    pub history: Seq<BlockChange>,
    /// Blocks still to visit, as counted for the queue (set, replace and walls edits).
    pub remaining: u64,
    pub seed: u64,
}

/// One queued edit of one player in one world.
pub struct EditOperation {
    owner: String,
    world_id: String,
    kind: EditKind,
    positions: EditPositions,
    history: Vec<BlockChange>,
    remaining: u64,
    pattern_seed: u64,
}

/// What an edit asks for next.
#[derive(Clone, Copy, Debug, PartialEq, Eq, Structural)]
pub enum OpAction {
    /// Read the block at `pos`; the edit would place `to` there.
    Inspect { pos: BlockPos, to: u16 },
    /// Write `state` at `pos`.
    Place { pos: BlockPos, state: u16 },
    /// Nothing is left to do.
    Exhausted,
}

/// A finished edit, handed to the player's history.
pub enum FinishedEdit {
    /// A set, replace or walls edit with the changes it recorded.
    Edited { owner: String, entry: HistoryEntry },
    /// An undo replay of `entry`.
    Undone { owner: String, entry: HistoryEntry },
    /// A redo replay of `entry`.
    Redone { owner: String, entry: HistoryEntry },
}

/// The spec form of a finished edit.
pub enum FinishedView {
    Edited { owner: Seq<char>, entry: HistoryView },
    Undone { owner: Seq<char>, entry: HistoryView },
    Redone { owner: Seq<char>, entry: HistoryView },
}

impl FinishedEdit {
    pub open spec fn view(&self) -> FinishedView {
        match self {
            FinishedEdit::Edited { owner, entry } => FinishedView::Edited {
                owner: owner@,
                entry: entry@,
            },
            FinishedEdit::Undone { owner, entry } => FinishedView::Undone {
                owner: owner@,
                entry: entry@,
            },
            FinishedEdit::Redone { owner, entry } => FinishedView::Redone {
                owner: owner@,
                entry: entry@,
            },
        }
    }
}

/// The blocks an edit still has to visit, as the queue counts them.
pub open spec fn spec_pending(v: OpView) -> u64 {
    match v.kind {
        KindView::Fill { .. } => v.remaining,
        KindView::Replace { .. } => v.remaining,
        KindView::Replay { entry, direction, next_index } => match direction {
            ReplayDirection::Undo => next_index as u64,
            ReplayDirection::Redo => (entry.changes.len() - next_index) as u64,
        },
    }
}

/// One step of an edit: what it asks for and how it moves on.
pub open spec fn spec_next_action(v: OpView) -> (OpView, OpAction) {
    match v.kind {
        KindView::Fill { pattern, total } => if v.positions.len() == 0 {
            (v, OpAction::Exhausted)
        } else {
            let pos = v.positions[0];
            (
                OpView { positions: v.positions.drop_first(), ..v },
                OpAction::Inspect { pos, to: spec_pick_state(pattern, total, pos, v.seed) },
            )
        },
        KindView::Replace { from, pattern, total } => if v.positions.len() == 0 {
            (v, OpAction::Exhausted)
        } else {
            let pos = v.positions[0];
            (
                OpView { positions: v.positions.drop_first(), ..v },
                OpAction::Inspect { pos, to: spec_pick_state(pattern, total, pos, v.seed) },
            )
        },
        KindView::Replay { entry, direction, next_index } => match direction {
            ReplayDirection::Undo => if next_index == 0 {
                (v, OpAction::Exhausted)
            } else {
                let c = entry.changes[next_index - 1];
                (
                    OpView {
                        kind: KindView::Replay { entry, direction, next_index: next_index - 1 },
                        ..v
                    },
                    OpAction::Place { pos: c.pos, state: c.old_state },
                )
            },
            ReplayDirection::Redo => if next_index >= entry.changes.len() {
                (v, OpAction::Exhausted)
            } else {
                let c = entry.changes[next_index];
                (
                    OpView {
                        kind: KindView::Replay { entry, direction, next_index: next_index + 1 },
                        ..v
                    },
                    OpAction::Place { pos: c.pos, state: c.new_state },
                )
            },
        },
    }
}

/// Whether a set or replace edit writes `to` over a block that held `old`:
/// the block must differ, and for replace it must hold the `from` state.
pub open spec fn spec_should_write(kind: KindView, old: u16, to: u16) -> bool {
    match kind {
        KindView::Fill { .. } => old != to,
        KindView::Replace { from, .. } => from == old && old != to,
        KindView::Replay { .. } => false,
    }
}

/// An edit after learning that the block at `pos` holds `old`: the change is
/// recorded when it is written and the history has room.
pub open spec fn spec_record(v: OpView, pos: BlockPos, old: u16, to: u16, max_history: usize) -> OpView {
    match v.kind {
        KindView::Replay { .. } => v,
        _ => {
            let write = spec_should_write(v.kind, old, to);
            OpView {
                history: if write && v.history.len() < max_history {
                    v.history.push(BlockChange { pos, old_state: old, new_state: to })
                } else {
                    v.history
                },
                remaining: if v.remaining == 0 {
                    0
                } else {
                    (v.remaining - 1) as u64
                },
                ..v
            }
        },
    }
}

/// What a finished edit hands to the player's history.
pub open spec fn spec_finish(v: OpView) -> FinishedView {
    match v.kind {
        KindView::Replay { entry, direction, .. } => match direction {
            ReplayDirection::Undo => FinishedView::Undone { owner: v.owner, entry },
            ReplayDirection::Redo => FinishedView::Redone { owner: v.owner, entry },
        },
        _ => FinishedView::Edited {
            owner: v.owner,
            entry: HistoryView { world_id: v.world_id, changes: v.history },
        },
    }
}

impl EditOperation {
    pub closed spec fn view(&self) -> OpView {
        OpView {
            owner: self.owner@,
            world_id: self.world_id@,
            kind: match self.kind {
                EditKind::Fill { to } => KindView::Fill { pattern: to@, total: to.total() },
                EditKind::Replace { from, to } => KindView::Replace {
                    from,
                    pattern: to@,
                    total: to.total(),
                },
                EditKind::Replay { history, direction, next_index } => KindView::Replay {
                    entry: history@,
                    direction,
                    next_index: next_index as int,
                },
            },
            positions: self.positions.remaining(),
            history: self.history@,
            remaining: self.remaining,
            seed: self.pattern_seed,
        }
    }

    /// The positions are consistent and a replay's next index is within its entry.
    pub closed spec fn wf(&self) -> bool {
        &&& self.positions.wf()
        &&& match self.kind {
            EditKind::Replay { history, next_index, .. } => next_index <= history@.changes.len(),
            _ => true,
        }
    }

    /// Fills `cuboid` with `to`.
    pub fn set(owner: String, world_id: String, cuboid: Cuboid, to: BlockPattern, seed: u64) -> (op:
        EditOperation)
        requires
            cuboid.volume_fits(),
        ensures
            op.wf(),
            op.view() == (OpView {
                owner: owner@,
                world_id: world_id@,
                kind: KindView::Fill { pattern: to@, total: to.total() },
                positions: cuboid.positions(),
                history: Seq::<BlockChange>::empty(),
                remaining: cuboid.spec_volume() as u64,
                seed,
            }),
    {
        let remaining = cuboid.volume();
        EditOperation {
            owner,
            world_id,
            kind: EditKind::Fill { to },
            positions: EditPositions::cuboid(cuboid),
            history: Vec::new(),
            remaining,
            pattern_seed: seed,
        }
    }

    /// Replaces the blocks of `cuboid` that hold `from` with `to`.
    pub fn replace(
        owner: String,
        world_id: String,
        cuboid: Cuboid,
        from: u16,
        to: BlockPattern,
        seed: u64,
    ) -> (op: EditOperation)
        requires
            cuboid.volume_fits(),
        ensures
            op.wf(),
            op.view() == (OpView {
                owner: owner@,
                world_id: world_id@,
                kind: KindView::Replace { from, pattern: to@, total: to.total() },
                positions: cuboid.positions(),
                history: Seq::<BlockChange>::empty(),
                remaining: cuboid.spec_volume() as u64,
                seed,
            }),
    {
        let remaining = cuboid.volume();
        EditOperation {
            owner,
            world_id,
            kind: EditKind::Replace { from, to },
            positions: EditPositions::cuboid(cuboid),
            history: Vec::new(),
            remaining,
            pattern_seed: seed,
        }
    }

    /// Fills the four vertical faces of `cuboid` with `to`.
    pub fn walls(owner: String, world_id: String, cuboid: Cuboid, to: BlockPattern, seed: u64) -> (op:
        EditOperation)
        ensures
            op.wf(),
            op.view() == (OpView {
                owner: owner@,
                world_id: world_id@,
                kind: KindView::Fill { pattern: to@, total: to.total() },
                positions: cuboid.wall_seq(),
                history: Seq::<BlockChange>::empty(),
                remaining: cuboid.wall_seq().len() as u64,
                seed,
            }),
    {
        let positions = cuboid.wall_positions();
        let remaining = positions.len() as u64;
        EditOperation {
            owner,
            world_id,
            kind: EditKind::Fill { to },
            positions: EditPositions::vec(positions),
            history: Vec::new(),
            remaining,
            pattern_seed: seed,
        }
    }

    /// Replays `history` backwards, restoring the old states.
    pub fn undo(owner: String, world_id: String, history: HistoryEntry) -> (op: EditOperation)
        ensures
            op.wf(),
            op.view() == (OpView {
                owner: owner@,
                world_id: world_id@,
                kind: KindView::Replay {
                    entry: history@,
                    direction: ReplayDirection::Undo,
                    next_index: history@.changes.len() as int,
                },
                positions: Seq::<BlockPos>::empty(),
                history: Seq::<BlockChange>::empty(),
                remaining: history@.changes.len() as u64,
                seed: 0,
            }),
    {
        let remaining = history.len() as u64;
        let next_index = history.len();
        EditOperation {
            owner,
            world_id,
            kind: EditKind::Replay { next_index, history, direction: ReplayDirection::Undo },
            positions: EditPositions::empty(),
            history: Vec::new(),
            remaining,
            pattern_seed: 0,
        }
    }

    /// Replays `history` forwards, setting the new states again.
    pub fn redo(owner: String, world_id: String, history: HistoryEntry) -> (op: EditOperation)
        ensures
            op.wf(),
            op.view() == (OpView {
                owner: owner@,
                world_id: world_id@,
                kind: KindView::Replay {
                    entry: history@,
                    direction: ReplayDirection::Redo,
                    next_index: 0,
                },
                positions: Seq::<BlockPos>::empty(),
                history: Seq::<BlockChange>::empty(),
                remaining: history@.changes.len() as u64,
                seed: 0,
            }),
    {
        let remaining = history.len() as u64;
        EditOperation {
            owner,
            world_id,
            kind: EditKind::Replay { history, direction: ReplayDirection::Redo, next_index: 0 },
            positions: EditPositions::empty(),
            history: Vec::new(),
            remaining,
            pattern_seed: 0,
        }
    }

    /// The owner of the edit.
    pub fn owner(&self) -> (o: &str)
        ensures
            o@ == self.view().owner,
    {
        self.owner.as_str()
    }

    /// The world the edit runs in.
    pub fn world_id(&self) -> (w: &str)
        ensures
            w@ == self.view().world_id,
    {
        self.world_id.as_str()
    }

    /// The blocks still to visit, as the queue counts them.
    pub fn pending_blocks(&self) -> (n: u64)
        requires
            self.wf(),
        ensures
            n == spec_pending(self.view()),
    {
        match &self.kind {
            EditKind::Fill { .. } => self.remaining,
            EditKind::Replace { .. } => self.remaining,
            EditKind::Replay { history, direction, next_index } => match direction {
                ReplayDirection::Undo => *next_index as u64,
                ReplayDirection::Redo => history.len().saturating_sub(*next_index) as u64,
            },
        }
    }

    /// Moves the edit one block on and says what it needs.
    pub fn next_action(&mut self) -> (a: OpAction)
        requires
            old(self).wf(),
        ensures
            final(self).wf(),
            (final(self).view(), a) == spec_next_action(old(self).view()),
    {
        let ghost v = self.view();
        match &mut self.kind {
            EditKind::Fill { to } => {
                match self.positions.next() {
                    None => OpAction::Exhausted,
                    Some(pos) => {
                        let state = to.pick_state(pos, self.pattern_seed);
                        OpAction::Inspect { pos, to: state }
                    },
                }
            },
            EditKind::Replace { to, .. } => {
                match self.positions.next() {
                    None => OpAction::Exhausted,
                    Some(pos) => {
                        let state = to.pick_state(pos, self.pattern_seed);
                        OpAction::Inspect { pos, to: state }
                    },
                }
            },
            EditKind::Replay { history, direction, next_index } => {
                match direction {
                    ReplayDirection::Undo => {
                        if *next_index == 0 {
                            OpAction::Exhausted
                        } else {
                            *next_index = *next_index - 1;
                            let c = history.change(*next_index);
                            OpAction::Place { pos: c.pos, state: c.old_state }
                        }
                    },
                    ReplayDirection::Redo => {
                        if *next_index >= history.len() {
                            OpAction::Exhausted
                        } else {
                            let c = history.change(*next_index);
                            *next_index = *next_index + 1;
                            OpAction::Place { pos: c.pos, state: c.new_state }
                        }
                    },
                }
            },
        }
    }

    /// Takes in the state read at `pos` for an `Inspect` step and says
    /// whether `to` is to be written there.
    pub fn record_inspection(&mut self, pos: BlockPos, old_state: u16, to: u16, max_history_blocks: usize) -> (write: bool)
        requires
            old(self).wf(),
        ensures
            final(self).wf(),
            write == spec_should_write(old(self).view().kind, old_state, to),
            final(self).view() == spec_record(old(self).view(), pos, old_state, to, max_history_blocks),
            old(self).view().kind is Fill ==> (write <==> old_state != to),
            old(self).view().kind matches KindView::Replace { from, .. } ==> (write <==> (
            old_state == from && old_state != to)),
            old(self).view().kind is Replay ==> !write,
    {
        let write = match &self.kind {
            EditKind::Fill { .. } => old_state != to,
            EditKind::Replace { from, .. } => *from == old_state && old_state != to,
            EditKind::Replay { .. } => {
                return false;
            },
        };
        if write && self.history.len() < max_history_blocks {
            self.history.push(BlockChange { pos, old_state, new_state: to });
        }
        self.remaining = self.remaining.saturating_sub(1);
        write
    }

    /// Ends the edit and hands over what goes into the player's history.
    pub fn finish(self) -> (f: FinishedEdit)
        ensures
            f.view() == spec_finish(self.view()),
    {
        match self.kind {
            EditKind::Replay { history, direction, .. } => match direction {
                ReplayDirection::Undo => FinishedEdit::Undone { owner: self.owner, entry: history },
                ReplayDirection::Redo => FinishedEdit::Redone { owner: self.owner, entry: history },
            },
            _ => FinishedEdit::Edited {
                owner: self.owner,
                entry: HistoryEntry::new(self.world_id, self.history),
            },
        }
    }
}


// ---------------------------------------------------------------------
// The queue
// ---------------------------------------------------------------------

/// A queued edit and the world handle it writes through.
pub struct QueuedEdit<W> {
    pub op: EditOperation,
    pub target: W,
}

/// What a tick in progress waits for.
#[derive(Clone, Copy, Debug, PartialEq, Eq, Structural)]
pub enum Waiting {
    /// The state of the block at `pos`, which would become `to`.
    Read { pos: BlockPos, to: u16 },
    /// Notice that the last write is done.
    Write,
}

/// A tick in progress.
#[derive(Clone, Copy, Debug, PartialEq, Eq, Structural)]
pub struct TickView {
    pub budget: usize,
    pub visited: usize,
    pub waiting: Waiting,
}

/// What the caller does next during a tick.
pub enum TickStep {
    /// Read the block at `pos` in the current edit's world and report it.
    Read { pos: BlockPos },
    /// Write `state` at `pos` in the current edit's world and report it.
    Write { pos: BlockPos, state: u16 },
    /// The tick is over; the current edit goes on next tick.
    Idle,
    /// The tick is over and the front edit is done; it leaves the queue.
    Finished(FinishedEdit),
}

/// The spec form of a tick step.
pub enum StepView {
    Read { pos: BlockPos },
    Write { pos: BlockPos, state: u16 },
    Idle,
    Finished(FinishedView),
}

impl TickStep {
    pub open spec fn view(&self) -> StepView {
        match self {
            TickStep::Read { pos } => StepView::Read { pos: *pos },
            TickStep::Write { pos, state } => StepView::Write { pos: *pos, state: *state },
            TickStep::Idle => StepView::Idle,
            TickStep::Finished(f) => StepView::Finished(f.view()),
        }
    }
}

/// The spec form of the queue.
pub struct QueueView<W> {
    pub ops: Seq<OpView>,
    pub targets: Seq<W>,
    pub queued_blocks: u64,
    pub tick: Option<TickView>,
}

/// The edits waiting to run, oldest first; a tick works on the front one.
pub struct EditQueue<W> {
    queue: VecDeque<QueuedEdit<W>>,
    queued_blocks: u64,
    tick: Option<TickView>,
}

pub open spec fn sat_sub(a: u64, b: int) -> u64 {
    if a - b < 0 {
        0
    } else {
        (a - b) as u64
    }
}

/// The loop head of a tick: with budget left, the front edit takes its next
/// step; otherwise the tick ends with the blocks it visited taken off the
/// queued count.
pub open spec fn spec_advance<W>(q: QueueView<W>) -> (QueueView<W>, StepView) {
    let t = q.tick->0;
    if t.visited < t.budget {
        let (op, action) = spec_next_action(q.ops[0]);
        match action {
            OpAction::Exhausted => (
                QueueView {
                    ops: q.ops.drop_first(),
                    targets: q.targets.drop_first(),
                    queued_blocks: sat_sub(q.queued_blocks, t.visited as int),
                    tick: None,
                },
                StepView::Finished(spec_finish(op)),
            ),
            OpAction::Inspect { pos, to } => (
                QueueView {
                    ops: q.ops.update(0, op),
                    tick: Some(
                        TickView {
                            visited: (t.visited + 1) as usize,
                            waiting: Waiting::Read { pos, to },
                            ..t
                        },
                    ),
                    ..q
                },
                StepView::Read { pos },
            ),
            OpAction::Place { pos, state } => (
                QueueView {
                    ops: q.ops.update(0, op),
                    tick: Some(
                        TickView { visited: (t.visited + 1) as usize, waiting: Waiting::Write, ..t },
                    ),
                    ..q
                },
                StepView::Write { pos, state },
            ),
        }
    } else {
        (
            QueueView {
                queued_blocks: sat_sub(q.queued_blocks, t.visited as int),
                tick: None,
                ..q
            },
            StepView::Idle,
        )
    }
}

/// Starting a tick: nothing happens with a zero budget or an empty queue.
pub open spec fn spec_begin_tick<W>(q: QueueView<W>, config: Config) -> (QueueView<W>, StepView) {
    if config.blocks_per_tick == 0 || q.ops.len() == 0 {
        (QueueView { tick: None, ..q }, StepView::Idle)
    } else {
        spec_advance(
            QueueView {
                tick: Some(
                    TickView { budget: config.blocks_per_tick, visited: 0, waiting: Waiting::Write },
                ),
                ..q
            },
        )
    }
}

/// The read of the awaited block came back as `old`.
pub open spec fn spec_after_read<W>(q: QueueView<W>, old: u16, config: Config) -> (QueueView<W>, StepView) {
    match q.tick {
        Some(t) => match t.waiting {
            Waiting::Read { pos, to } => {
                let op = spec_record(q.ops[0], pos, old, to, config.max_history_blocks);
                let q2 = QueueView { ops: q.ops.update(0, op), ..q };
                if spec_should_write(q.ops[0].kind, old, to) {
                    (
                        QueueView { tick: Some(TickView { waiting: Waiting::Write, ..t }), ..q2 },
                        StepView::Write { pos, state: to },
                    )
                } else {
                    spec_advance(q2)
                }
            },
            Waiting::Write => (q, StepView::Idle),
        },
        None => (q, StepView::Idle),
    }
}

/// The awaited write is done.
pub open spec fn spec_after_write<W>(q: QueueView<W>) -> (QueueView<W>, StepView) {
    match q.tick {
        Some(t) => match t.waiting {
            Waiting::Write => spec_advance(q),
            Waiting::Read { .. } => (q, StepView::Idle),
        },
        None => (q, StepView::Idle),
    }
}

/// What `can_enqueue` answers for an edit of `blocks` blocks.
pub open spec fn spec_can_enqueue(len: nat, queued_blocks: u64, blocks: u64, config: Config) -> Result<
    (),
    Seq<char>,
> {
    if len >= config.max_queued_operations {
        Err(
            "Too many edits are already queued ("@ + decimal(len) + "/"@ + decimal(
                config.max_queued_operations as nat,
            ) + ")."@,
        )
    } else if queued_blocks + blocks > u64::MAX {
        Err("Too many blocks are queued."@)
    } else if queued_blocks + blocks > config.max_queued_blocks {
        Err(
            "Too many blocks are already queued: "@ + decimal(queued_blocks as nat) + " queued, "@
                + decimal(blocks as nat) + " new, limit is "@ + decimal(
                config.max_queued_blocks as nat,
            ) + "."@,
        )
    } else {
        Ok(())
    }
}

impl<W> EditQueue<W> {
    pub closed spec fn view(&self) -> QueueView<W> {
        QueueView {
            ops: self.queue@.map_values(|e: QueuedEdit<W>| e.op.view()),
            targets: self.queue@.map_values(|e: QueuedEdit<W>| e.target),
            queued_blocks: self.queued_blocks,
            tick: self.tick,
        }
    }

    /// Every edit is well formed, and a tick in progress has an edit to
    /// work on and has not passed its budget.
    pub closed spec fn wf(&self) -> bool {
        &&& forall|i: int| 0 <= i < self.queue@.len() ==> (#[trigger] self.queue@[i]).op.wf()
        &&& match self.tick {
            Some(t) => self.queue@.len() > 0 && t.visited <= t.budget,
            None => true,
        }
    }

    pub fn new() -> (q: EditQueue<W>)
        ensures
            q.wf(),
            q.view().ops == Seq::<OpView>::empty(),
            q.view().queued_blocks == 0,
            q.view().tick is None,
            queue_counted(q.view()),
    {
        let q = EditQueue { queue: VecDeque::new(), queued_blocks: 0, tick: None };
        assert(q.view().ops =~= Seq::<OpView>::empty());
        proof {
            lemma_empty_counted(q.view());
        }
        q
    }

    /// The number of queued edits.
    pub fn len(&self) -> (n: usize)
        ensures
            n == self.view().ops.len(),
    {
        self.queue.len()
    }

    /// The blocks the queued edits have still to visit.
    pub fn queued_blocks(&self) -> (n: u64)
        ensures
            n == self.view().queued_blocks,
    {
        self.queued_blocks
    }

    /// The world handle of the edit a tick works on.
    pub fn current_target(&self) -> (t: Option<&W>)
        ensures
            self.view().ops.len() == 0 ==> t is None,
            self.view().ops.len() > 0 ==> t == Some(&self.view().targets[0]),
    {
        if self.queue.len() == 0 {
            None
        } else {
            Some(&self.queue[0].target)
        }
    }

    /// Whether an edit of `blocks` blocks may join the queue.
    pub fn can_enqueue(&self, blocks: u64, config: &Config) -> (r: Result<(), String>)
        ensures
            match spec_can_enqueue(self.view().ops.len(), self.view().queued_blocks, blocks, *config) {
                Ok(()) => r is Ok,
                Err(e) => r matches Err(m) && m@ == e,
            },
    {
        if self.queue.len() >= config.max_queued_operations {
            let mut msg: Vec<char> = Vec::new();
            push_str(&mut msg, "Too many edits are already queued (");
            let a = decimal_chars(self.queue.len() as u64);
            push_all(&mut msg, a.as_slice());
            push_str(&mut msg, "/");
            let b = decimal_chars(config.max_queued_operations as u64);
            push_all(&mut msg, b.as_slice());
            push_str(&mut msg, ").");
            return Err(string_of(msg.as_slice()));
        }
        let total = match self.queued_blocks.checked_add(blocks) {
            Some(t) => t,
            None => {
                return Err("Too many blocks are queued.".to_owned());
            },
        };
        if total > config.max_queued_blocks {
            let mut msg: Vec<char> = Vec::new();
            push_str(&mut msg, "Too many blocks are already queued: ");
            let a = decimal_chars(self.queued_blocks);
            push_all(&mut msg, a.as_slice());
            push_str(&mut msg, " queued, ");
            let b = decimal_chars(blocks);
            push_all(&mut msg, b.as_slice());
            push_str(&mut msg, " new, limit is ");
            let c = decimal_chars(config.max_queued_blocks);
            push_all(&mut msg, c.as_slice());
            push_str(&mut msg, ".");
            return Err(string_of(msg.as_slice()));
        }
        Ok(())
    }

    /// Adds an edit at the back and counts its blocks as queued.
    pub fn enqueue(&mut self, operation: EditOperation, target: W)
        requires
            old(self).wf(),
            operation.wf(),
        ensures
            final(self).wf(),
            final(self).view().ops == old(self).view().ops.push(operation.view()),
            final(self).view().targets == old(self).view().targets.push(target),
            final(self).view().queued_blocks == (if old(self).view().queued_blocks + spec_pending(
                operation.view(),
            ) > u64::MAX {
                u64::MAX
            } else {
                (old(self).view().queued_blocks + spec_pending(operation.view())) as u64
            }),
            final(self).view().tick == old(self).view().tick,
            queue_counted(old(self).view()) && op_counted(operation.view())
                && old(self).view().queued_blocks + spec_pending(operation.view()) <= u64::MAX
                ==> queue_counted(final(self).view()),
    {
        proof {
            if queue_counted(self.view()) && op_counted(operation.view())
                && self.view().queued_blocks + spec_pending(operation.view()) <= u64::MAX {
                lemma_enqueue_counted(self.view(), operation.view(), target);
            }
        }
        let pending = operation.pending_blocks();
        self.queued_blocks = self.queued_blocks.saturating_add(pending);
        self.queue.push_back(QueuedEdit { op: operation, target });
        assert(self.view().ops =~= old(self).view().ops.push(operation.view()));
        assert(self.view().targets =~= old(self).view().targets.push(target));
    }

    /// Runs the loop head of a tick.
    fn advance(&mut self) -> (step: TickStep)
        requires
            old(self).wf(),
            old(self).view().tick is Some,
        ensures
            final(self).wf(),
            (final(self).view(), step.view()) == spec_advance(old(self).view()),
    {
        let t = match self.tick {
            Some(t) => t,
            None => {
                return TickStep::Idle;
            },
        };
        if t.visited < t.budget {
            let ghost old_q = self.queue@;
            let mut front = match self.queue.pop_front() {
                Some(f) => f,
                None => {
                    return TickStep::Idle;
                },
            };
            assert(old_q[0].op.wf());
            let action = front.op.next_action();
            match action {
                OpAction::Exhausted => {
                    self.queued_blocks = self.queued_blocks.saturating_sub(t.visited as u64);
                    self.tick = None;
                    proof {
                        assert(self.view().ops =~= old(self).view().ops.drop_first());
                        assert(self.view().targets =~= old(self).view().targets.drop_first());
                        assert forall|i: int| 0 <= i < self.queue@.len() implies (#[trigger] self.queue@[i]).op.wf() by {
                            assert(self.queue@[i] == old_q[i + 1]);
                        }
                    }
                    TickStep::Finished(front.op.finish())
                },
                OpAction::Inspect { pos, to } => {
                    self.queue.push_front(front);
                    self.tick = Some(TickView { visited: t.visited + 1, waiting: Waiting::Read { pos, to }, ..t });
                    proof {
                        assert(self.view().ops =~= old(self).view().ops.update(0, front.op.view()));
                        assert(self.view().targets =~= old(self).view().targets);
                        assert forall|i: int| 0 <= i < self.queue@.len() implies (#[trigger] self.queue@[i]).op.wf() by {
                            if i > 0 {
                                assert(self.queue@[i] == old_q[i]);
                            }
                        }
                    }
                    TickStep::Read { pos }
                },
                OpAction::Place { pos, state } => {
                    self.queue.push_front(front);
                    self.tick = Some(TickView { visited: t.visited + 1, waiting: Waiting::Write, ..t });
                    proof {
                        assert(self.view().ops =~= old(self).view().ops.update(0, front.op.view()));
                        assert(self.view().targets =~= old(self).view().targets);
                        assert forall|i: int| 0 <= i < self.queue@.len() implies (#[trigger] self.queue@[i]).op.wf() by {
                            if i > 0 {
                                assert(self.queue@[i] == old_q[i]);
                            }
                        }
                    }
                    TickStep::Write { pos, state }
                },
            }
        } else {
            self.queued_blocks = self.queued_blocks.saturating_sub(t.visited as u64);
            self.tick = None;
            TickStep::Idle
        }
    }

    /// Starts a server tick with the budget `config.blocks_per_tick`
    /// (a tick left unfinished before is dropped).
    pub fn begin_tick(&mut self, config: &Config) -> (step: TickStep)
        requires
            old(self).wf(),
        ensures
            final(self).wf(),
            (final(self).view(), step.view()) == spec_begin_tick(old(self).view(), *config),
            queue_counted(old(self).view()) && old(self).view().tick is None ==> queue_counted(
                final(self).view(),
            ),
    {
        proof {
            if queue_counted(self.view()) && self.view().tick is None {
                lemma_begin_tick_counted(self.view(), *config);
            }
        }
        if config.blocks_per_tick == 0 || self.queue.len() == 0 {
            self.tick = None;
            return TickStep::Idle;
        }
        self.tick = Some(TickView { budget: config.blocks_per_tick, visited: 0, waiting: Waiting::Write });
        self.advance()
    }

    /// Reports the state read for a `Read` step.
    pub fn after_read(&mut self, old_state: u16, config: &Config) -> (step: TickStep)
        requires
            old(self).wf(),
        ensures
            final(self).wf(),
            (final(self).view(), step.view()) == spec_after_read(old(self).view(), old_state, *config),
            queue_counted(old(self).view()) ==> queue_counted(final(self).view()),
    {
        proof {
            if queue_counted(self.view()) {
                lemma_after_read_counted(self.view(), old_state, *config);
            }
        }
        let t = match self.tick {
            Some(t) => t,
            None => {
                return TickStep::Idle;
            },
        };
        match t.waiting {
            Waiting::Write => TickStep::Idle,
            Waiting::Read { pos, to } => {
                let ghost old_q = self.queue@;
                let mut front = match self.queue.pop_front() {
                    Some(f) => f,
                    None => {
                        return TickStep::Idle;
                    },
                };
                assert(old_q[0].op.wf());
                let write = front.op.record_inspection(pos, old_state, to, config.max_history_blocks);
                self.queue.push_front(front);
                proof {
                    assert(self.view().ops =~= old(self).view().ops.update(0, front.op.view()));
                    assert(self.view().targets =~= old(self).view().targets);
                    assert forall|i: int| 0 <= i < self.queue@.len() implies (#[trigger] self.queue@[i]).op.wf() by {
                        if i > 0 {
                            assert(self.queue@[i] == old_q[i]);
                        }
                    }
                }
                if write {
                    self.tick = Some(TickView { waiting: Waiting::Write, ..t });
                    TickStep::Write { pos, state: to }
                } else {
                    self.advance()
                }
            },
        }
    }

    /// Reports that the write of a `Write` step is done.
    pub fn after_write(&mut self) -> (step: TickStep)
        requires
            old(self).wf(),
        ensures
            final(self).wf(),
            (final(self).view(), step.view()) == spec_after_write(old(self).view()),
            queue_counted(old(self).view()) ==> queue_counted(final(self).view()),
    {
        proof {
            if queue_counted(self.view()) {
                lemma_after_write_counted(self.view());
            }
        }
        match self.tick {
            Some(t) => match t.waiting {
                Waiting::Write => self.advance(),
                Waiting::Read { .. } => TickStep::Idle,
            },
            None => TickStep::Idle,
        }
    }
}


/// A replay writes exactly `replay_writes` of its entry, in order: the step
/// taken with `next_index` left is the write at position
/// `len - next_index` (undo) or `next_index` (redo) of that sequence, and the
/// replay is exhausted after the last one.
pub proof fn lemma_replay_order(v: OpView)
    requires
        v.kind is Replay,
        0 <= v.kind->Replay_next_index <= v.kind->Replay_entry.changes.len(),
    ensures
        ({
            let changes = v.kind->Replay_entry.changes;
            let n = changes.len() as int;
            let i = v.kind->Replay_next_index;
            let dir = v.kind->Replay_direction;
            let ws = replay_writes(changes, dir);
            let k = if dir == ReplayDirection::Undo { n - i } else { i };
            if k < n {
                spec_next_action(v).1 == OpAction::Place { pos: ws[k].0, state: ws[k].1 }
            } else {
                spec_next_action(v).1 == OpAction::Exhausted
            }
        }),
{
}

/// The edit after `k` successive steps that each write a block, stopping at
/// the first step that does not, with the writes those steps place in order.
pub open spec fn run_places(v: OpView, k: nat) -> (OpView, Seq<(BlockPos, u16)>)
    decreases k,
{
    if k == 0 {
        (v, Seq::empty())
    } else {
        match spec_next_action(v).1 {
            OpAction::Place { pos, state } => {
                let rest = run_places(spec_next_action(v).0, (k - 1) as nat);
                (rest.0, seq![(pos, state)] + rest.1)
            },
            _ => (v, Seq::empty()),
        }
    }
}

/// From any point of a replay, the steps left place the rest of
/// `replay_writes`, in order, and the replay is then exhausted.
proof fn lemma_replay_rest(v: OpView)
    requires
        v.kind is Replay,
        0 <= v.kind->Replay_next_index <= v.kind->Replay_entry.changes.len(),
    ensures
        ({
            let changes = v.kind->Replay_entry.changes;
            let n = changes.len() as int;
            let i = v.kind->Replay_next_index;
            let k = if v.kind->Replay_direction == ReplayDirection::Undo { n - i } else { i };
            let r = run_places(v, (n - k) as nat);
            &&& r.1 == replay_writes(changes, v.kind->Replay_direction).subrange(k, n)
            &&& spec_next_action(r.0).1 == OpAction::Exhausted
        }),
    decreases (if v.kind->Replay_direction == ReplayDirection::Undo {
        v.kind->Replay_next_index
    } else {
        v.kind->Replay_entry.changes.len() - v.kind->Replay_next_index
    }),
{
    let changes = v.kind->Replay_entry.changes;
    let n = changes.len() as int;
    let i = v.kind->Replay_next_index;
    let dir = v.kind->Replay_direction;
    let ws = replay_writes(changes, dir);
    let k = if dir == ReplayDirection::Undo { n - i } else { i };
    lemma_replay_order(v);
    if k < n {
        let v2 = spec_next_action(v).0;
        lemma_replay_rest(v2);
        let r2 = run_places(v2, (n - k - 1) as nat);
        assert(run_places(v, (n - k) as nat).1 == seq![ws[k]] + r2.1);
        assert(seq![ws[k]] + ws.subrange(k + 1, n) =~= ws.subrange(k, n));
    } else {
        assert(ws.subrange(k, n) =~= Seq::<(BlockPos, u16)>::empty());
    }
}

/// A replay started where a fresh one starts (the end of its entry for undo,
/// the start for redo) places exactly `replay_writes` of the entry, one write
/// per step, and is then exhausted: the queue hands on these writes, in this
/// order, as the replay's write steps.
pub proof fn lemma_replay_run(v: OpView)
    requires
        v.kind is Replay,
        v.kind->Replay_next_index == (if v.kind->Replay_direction == ReplayDirection::Undo {
            v.kind->Replay_entry.changes.len() as int
        } else {
            0
        }),
    ensures
        ({
            let changes = v.kind->Replay_entry.changes;
            let r = run_places(v, changes.len());
            &&& r.1 == replay_writes(changes, v.kind->Replay_direction)
            &&& spec_next_action(r.0).1 == OpAction::Exhausted
        }),
{
    let changes = v.kind->Replay_entry.changes;
    lemma_replay_rest(v);
    assert(replay_writes(changes, v.kind->Replay_direction).subrange(0, changes.len() as int)
        =~= replay_writes(changes, v.kind->Replay_direction));
}

/// With budget left, a tick takes the front edit's next step: a write of that
/// edit becomes the tick's write step, and the front edit moves on while the
/// edits behind it stay as they are.
pub proof fn lemma_advance_place<W>(q: QueueView<W>)
    requires
        q.tick is Some,
        q.tick->0.visited < q.tick->0.budget,
        q.ops.len() > 0,
        spec_next_action(q.ops[0]).1 is Place,
    ensures
        spec_advance(q).1 == (StepView::Write {
            pos: spec_next_action(q.ops[0]).1->Place_pos,
            state: spec_next_action(q.ops[0]).1->Place_state,
        }),
        spec_advance(q).0.ops == q.ops.update(0, spec_next_action(q.ops[0]).0),
        spec_advance(q).0.tick->0.waiting == Waiting::Write,
{
}

/// What an edit writes over the block it read: a set or walls edit writes
/// whenever the block differs from the state to place; a replace edit writes
/// exactly when the block holds its `from` state (whatever state that is,
/// air included) and differs from the state to place; a replay never reads.
/// A write is recorded as the change from the state read to the state placed,
/// as long as the history has room.
pub proof fn lemma_write_decision(v: OpView, pos: BlockPos, old_state: u16, to: u16, max_history: usize)
    ensures
        v.kind is Fill ==> (spec_should_write(v.kind, old_state, to) <==> old_state != to),
        v.kind matches KindView::Replace { from, .. } ==> (spec_should_write(v.kind, old_state, to)
            <==> (old_state == from && old_state != to)),
        v.kind is Replay ==> !spec_should_write(v.kind, old_state, to),
        !(v.kind is Replay) && spec_should_write(v.kind, old_state, to) && v.history.len()
            < max_history ==> spec_record(v, pos, old_state, to, max_history).history == v.history.push(
            BlockChange { pos, old_state, new_state: to },
        ),
        !(v.kind is Replay) && !spec_should_write(v.kind, old_state, to) ==> spec_record(
            v,
            pos,
            old_state,
            to,
            max_history,
        ).history == v.history,
{
}

/// An edit admitted by `can_enqueue` whose pending blocks are the blocks
/// asked for keeps the queue within both configured limits.
pub proof fn lemma_admission(len: nat, queued_blocks: u64, blocks: u64, config: Config)
    requires
        spec_can_enqueue(len, queued_blocks, blocks, config) is Ok,
    ensures
        len + 1 <= config.max_queued_operations,
        queued_blocks + blocks <= config.max_queued_blocks,
        queued_blocks + blocks <= u64::MAX,
{
}

/// A tick never goes past its budget: each read or write step visits one
/// more block and needs budget left, and a tick that ends takes exactly the
/// blocks it visited off the queued count.
pub proof fn lemma_tick_budget<W>(q: QueueView<W>)
    requires
        q.tick is Some,
        q.tick->0.visited <= q.tick->0.budget,
        q.ops.len() > 0,
    ensures
        ({
            let t = q.tick->0;
            let (q2, step) = spec_advance(q);
            match step {
                StepView::Read { .. } => q2.tick is Some && q2.tick->0.visited == t.visited + 1
                    && q2.tick->0.visited <= t.budget,
                StepView::Write { .. } => q2.tick is Some && q2.tick->0.visited == t.visited + 1
                    && q2.tick->0.visited <= t.budget,
                _ => q2.tick is None && q2.queued_blocks == sat_sub(q.queued_blocks, t.visited as int),
            }
        }),
{
}


// ---------------------------------------------------------------------
// The queued count
// ---------------------------------------------------------------------

/// The blocks the edits `ops` have still to visit.
pub open spec fn sum_pending(ops: Seq<OpView>) -> int
    decreases ops.len(),
{
    if ops.len() == 0 {
        0
    } else {
        spec_pending(ops[0]) + sum_pending(ops.drop_first())
    }
}

/// An edit whose pending count matches what it has left: a set, replace or
/// walls edit has as many blocks to count as positions to visit; a replay's
/// next index lies within its entry.
pub open spec fn op_counted(v: OpView) -> bool {
    match v.kind {
        KindView::Replay { entry, next_index, .. } => 0 <= next_index <= entry.changes.len()
            <= u64::MAX,
        _ => v.remaining == v.positions.len(),
    }
}

/// The queued count is the sum of the queued edits' pending blocks; during a
/// tick it also holds the blocks the tick has visited so far, which come off
/// when the tick ends (while a read is awaited, the block being read is
/// counted by the tick and not yet taken off its edit).
pub open spec fn queue_counted<W>(q: QueueView<W>) -> bool {
    match q.tick {
        None => {
            &&& forall|i: int| 0 <= i < q.ops.len() ==> op_counted(#[trigger] q.ops[i])
            &&& q.queued_blocks == sum_pending(q.ops)
        },
        Some(t) => {
            &&& q.ops.len() > 0
            &&& forall|i: int| 1 <= i < q.ops.len() ==> op_counted(#[trigger] q.ops[i])
            &&& match t.waiting {
                Waiting::Write => {
                    &&& op_counted(q.ops[0])
                    &&& q.queued_blocks == sum_pending(q.ops) + t.visited
                },
                Waiting::Read { .. } => {
                    &&& !(q.ops[0].kind is Replay)
                    &&& q.ops[0].remaining == q.ops[0].positions.len() + 1
                    &&& t.visited >= 1
                    &&& q.queued_blocks == sum_pending(q.ops) + t.visited - 1
                },
            }
        },
    }
}

proof fn lemma_sum_push(ops: Seq<OpView>, v: OpView)
    ensures
        sum_pending(ops.push(v)) == sum_pending(ops) + spec_pending(v),
    decreases ops.len(),
{
    let s = ops.push(v);
    assert(s.len() > 0);
    assert(sum_pending(s) == spec_pending(s[0]) + sum_pending(s.drop_first()));
    if ops.len() == 0 {
        assert(s.drop_first() =~= Seq::<OpView>::empty());
        assert(sum_pending(s.drop_first()) == 0);
        assert(s[0] == v);
    } else {
        lemma_sum_push(ops.drop_first(), v);
        assert(s.drop_first() =~= ops.drop_first().push(v));
        assert(s[0] == ops[0]);
        assert(sum_pending(ops) == spec_pending(ops[0]) + sum_pending(ops.drop_first()));
    }
}

proof fn lemma_sum_nonneg(ops: Seq<OpView>)
    ensures
        sum_pending(ops) >= 0,
    decreases ops.len(),
{
    if ops.len() > 0 {
        lemma_sum_nonneg(ops.drop_first());
    }
}

proof fn lemma_sum_front(ops: Seq<OpView>, v: OpView)
    requires
        ops.len() > 0,
    ensures
        sum_pending(ops.update(0, v)) == sum_pending(ops) - spec_pending(ops[0]) + spec_pending(v),
{
    assert(ops.update(0, v).drop_first() =~= ops.drop_first());
}

/// The loop head of a tick keeps the count: only the front edit moves on,
/// the others stay as they were, and a tick that ends leaves the count equal
/// to the queued edits' pending blocks.
pub proof fn lemma_advance_counted<W>(q: QueueView<W>)
    requires
        q.tick is Some,
        q.ops.len() > 0,
        forall|i: int| 0 <= i < q.ops.len() ==> op_counted(#[trigger] q.ops[i]),
        q.queued_blocks == sum_pending(q.ops) + q.tick->0.visited,
    ensures
        queue_counted(spec_advance(q).0),
        spec_advance(q).0.ops == q.ops.drop_first() || (spec_advance(q).0.ops.len()
            == q.ops.len() && spec_advance(q).0.ops.drop_first() == q.ops.drop_first()),
{
    let t = q.tick->0;
    let v = q.ops[0];
    let (v2, action) = spec_next_action(v);
    assert(op_counted(v));
    lemma_sum_nonneg(q.ops);
    lemma_sum_nonneg(q.ops.drop_first());
    assert(sum_pending(q.ops) == spec_pending(v) + sum_pending(q.ops.drop_first()));
    if t.visited < t.budget {
        match action {
            OpAction::Exhausted => {
                assert(spec_pending(v) == 0);
                let r = q.ops.drop_first();
                assert forall|i: int| 0 <= i < r.len() implies op_counted(#[trigger] r[i]) by {
                    assert(r[i] == q.ops[i + 1]);
                }
            },
            OpAction::Inspect { .. } => {
                lemma_sum_front(q.ops, v2);
                let r = q.ops.update(0, v2);
                assert(r.drop_first() =~= q.ops.drop_first());
                assert forall|i: int| 1 <= i < r.len() implies op_counted(#[trigger] r[i]) by {
                    assert(r[i] == q.ops[i]);
                }
            },
            OpAction::Place { .. } => {
                lemma_sum_front(q.ops, v2);
                let r = q.ops.update(0, v2);
                assert(r.drop_first() =~= q.ops.drop_first());
                assert(spec_pending(v2) + 1 == spec_pending(v));
                assert forall|i: int| 1 <= i < r.len() implies op_counted(#[trigger] r[i]) by {
                    assert(r[i] == q.ops[i]);
                }
            },
        }
    }
}

/// Starting a tick keeps the count.
pub proof fn lemma_begin_tick_counted<W>(q: QueueView<W>, config: Config)
    requires
        queue_counted(q),
        q.tick is None,
    ensures
        queue_counted(spec_begin_tick(q, config).0),
{
    if !(config.blocks_per_tick == 0 || q.ops.len() == 0) {
        let q1 = QueueView {
            tick: Some(TickView { budget: config.blocks_per_tick, visited: 0, waiting: Waiting::Write }),
            ..q
        };
        lemma_advance_counted(q1);
    }
}

/// Reporting a read keeps the count: the block read comes off its edit.
pub proof fn lemma_after_read_counted<W>(q: QueueView<W>, read: u16, config: Config)
    requires
        queue_counted(q),
    ensures
        queue_counted(spec_after_read(q, read, config).0),
{
    match q.tick {
        Some(t) => match t.waiting {
            Waiting::Read { pos, to } => {
                let v = q.ops[0];
                let v2 = spec_record(v, pos, read, to, config.max_history_blocks);
                assert(v2.remaining == v.positions.len());
                assert(op_counted(v2));
                assert(spec_pending(v2) + 1 == spec_pending(v));
                lemma_sum_front(q.ops, v2);
                let r = q.ops.update(0, v2);
                assert forall|i: int| 0 <= i < r.len() implies op_counted(#[trigger] r[i]) by {
                    if i > 0 {
                        assert(r[i] == q.ops[i]);
                    }
                }
                if !spec_should_write(v.kind, read, to) {
                    let q2 = QueueView { ops: r, ..q };
                    lemma_advance_counted(q2);
                }
            },
            Waiting::Write => {},
        },
        None => {},
    }
}

/// Reporting a write keeps the count.
pub proof fn lemma_after_write_counted<W>(q: QueueView<W>)
    requires
        queue_counted(q),
    ensures
        queue_counted(spec_after_write(q).0),
{
    match q.tick {
        Some(t) => match t.waiting {
            Waiting::Write => {
                assert forall|i: int| 0 <= i < q.ops.len() implies op_counted(#[trigger] q.ops[i]) by {
                }
                lemma_advance_counted(q);
            },
            Waiting::Read { .. } => {},
        },
        None => {},
    }
}

/// Adding a counted edit keeps the count, as long as the sum fits a `u64`
/// (which admission guarantees).
pub proof fn lemma_enqueue_counted<W>(q: QueueView<W>, op: OpView, target: W)
    requires
        queue_counted(q),
        op_counted(op),
        q.queued_blocks + spec_pending(op) <= u64::MAX,
    ensures
        queue_counted(
            QueueView {
                ops: q.ops.push(op),
                targets: q.targets.push(target),
                queued_blocks: (q.queued_blocks + spec_pending(op)) as u64,
                tick: q.tick,
            },
        ),
{
    lemma_sum_push(q.ops, op);
    let r = q.ops.push(op);
    assert forall|i: int| 0 <= i < r.len() - 1 implies r[i] == q.ops[i] by {}
    assert(r[r.len() - 1] == op);
    match q.tick {
        Some(t) => {
            assert(r[0] == q.ops[0]);
        },
        None => {},
    }
}

/// Carries on a tick from `step` against `world`, for at most `fuel` more
/// steps: a read is answered with what the world holds, a write is applied to
/// the world and reported done. The result is the queue, the world and the
/// step the tick stopped at.
pub open spec fn spec_continue<W>(
    q: QueueView<W>,
    step: StepView,
    world: WorldModel,
    config: Config,
    fuel: nat,
) -> (QueueView<W>, WorldModel, StepView)
    decreases fuel,
{
    if fuel == 0 {
        (q, world, step)
    } else {
        match step {
            StepView::Read { pos } => {
                let next = spec_after_read(q, world(pos), config);
                spec_continue(next.0, next.1, world, config, (fuel - 1) as nat)
            },
            StepView::Write { pos, state } => {
                let w2 = |p: BlockPos| if p == pos {
                    state
                } else {
                    world(p)
                };
                let next = spec_after_write(q);
                spec_continue(next.0, next.1, w2, config, (fuel - 1) as nat)
            },
            _ => (q, world, step),
        }
    }
}

/// A whole server tick against `world`: it is started and carried on until
/// it stops (two steps per block of budget are always enough).
pub open spec fn spec_tick<W>(q: QueueView<W>, world: WorldModel, config: Config) -> (
    QueueView<W>,
    WorldModel,
    StepView,
) {
    let start = spec_begin_tick(q, config);
    spec_continue(start.0, start.1, world, config, (2 * config.blocks_per_tick + 2) as nat)
}

/// What holds of a tick started on `q0` that has reached `(q, step)` with
/// `fuel` steps left.
pub open spec fn tick_progress<W>(q0: QueueView<W>, q: QueueView<W>, step: StepView, config: Config, fuel: nat) -> bool {
    let b = config.blocks_per_tick;
    &&& queue_counted(q)
    &&& match step {
        StepView::Read { .. } => {
            &&& q.tick matches Some(t) && t.waiting is Read && t.budget == b && t.visited <= b
                && fuel >= 2 * (b - t.visited) + 2
            &&& q.queued_blocks == q0.queued_blocks
            &&& q.ops.len() == q0.ops.len()
            &&& q.ops.drop_first() == q0.ops.drop_first()
            &&& q.targets == q0.targets
        },
        StepView::Write { .. } => {
            &&& q.tick matches Some(t) && t.waiting is Write && t.budget == b && t.visited <= b
                && fuel >= 2 * (b - t.visited) + 1
            &&& q.queued_blocks == q0.queued_blocks
            &&& q.ops.len() == q0.ops.len()
            &&& q.ops.drop_first() == q0.ops.drop_first()
            &&& q.targets == q0.targets
        },
        StepView::Idle => {
            &&& q.tick is None
            &&& q.queued_blocks <= q0.queued_blocks <= q.queued_blocks + b
            &&& q.ops.len() == q0.ops.len()
            &&& q.ops.drop_first() == q0.ops.drop_first()
            &&& q.targets == q0.targets
        },
        StepView::Finished(_) => {
            &&& q.tick is None
            &&& q.queued_blocks <= q0.queued_blocks <= q.queued_blocks + b
            &&& q.ops == q0.ops.drop_first()
            &&& q.targets == q0.targets.drop_first()
        },
    }
}

/// A tick that has made progress stops, idle or finished, within its fuel,
/// and its progress still holds where it stops.
proof fn lemma_continue<W>(
    q0: QueueView<W>,
    q: QueueView<W>,
    step: StepView,
    world: WorldModel,
    config: Config,
    fuel: nat,
)
    requires
        q0.ops.len() > 0,
        tick_progress(q0, q, step, config, fuel),
    ensures
        ({
            let r = spec_continue(q, step, world, config, fuel);
            &&& r.2 is Idle || r.2 is Finished
            &&& tick_progress(q0, r.0, r.2, config, 0)
        }),
    decreases fuel,
{
    let b = config.blocks_per_tick;
    match step {
        StepView::Read { pos } => {
            let t = q.tick->0;
            lemma_after_read_counted(q, world(pos), config);
            let next = spec_after_read(q, world(pos), config);
            let rp = t.waiting->Read_pos;
            let to = t.waiting->Read_to;
            let v = q.ops[0];
            let v2 = spec_record(v, rp, world(pos), to, config.max_history_blocks);
            let r = q.ops.update(0, v2);
            assert(r.drop_first() =~= q.ops.drop_first());
            if !spec_should_write(v.kind, world(pos), to) {
                let q2 = QueueView { ops: r, ..q };
                lemma_sum_nonneg(r);
                lemma_sum_nonneg(r.drop_first());
                assert(sum_pending(r) == spec_pending(r[0]) + sum_pending(r.drop_first()));
                lemma_sum_nonneg(q.ops.drop_first());
                assert(sum_pending(q.ops) == spec_pending(v) + sum_pending(q.ops.drop_first()));
                if t.visited < t.budget {
                    let v3 = spec_next_action(r[0]).0;
                    assert(r.update(0, v3).drop_first() =~= q.ops.drop_first());
                }
            }
            lemma_continue(q0, next.0, next.1, world, config, (fuel - 1) as nat);
        },
        StepView::Write { pos, state } => {
            let t = q.tick->0;
            let w2 = |p: BlockPos| if p == pos {
                state
            } else {
                world(p)
            };
            lemma_after_write_counted(q);
            let next = spec_after_write(q);
            lemma_sum_nonneg(q.ops);
            lemma_sum_nonneg(q.ops.drop_first());
            assert(sum_pending(q.ops) == spec_pending(q.ops[0]) + sum_pending(q.ops.drop_first()));
            if t.visited < t.budget {
                let v2 = spec_next_action(q.ops[0]).0;
                assert(q.ops.update(0, v2).drop_first() =~= q.ops.drop_first());
            }
            lemma_continue(q0, next.0, next.1, w2, config, (fuel - 1) as nat);
        },
        _ => {},
    }
}

/// A whole tick on a counted queue with no tick under way. With a zero budget
/// or an empty queue nothing changes. Otherwise only the front edit moves on:
/// the tick stops either idle, with the front edit still first and the edits
/// behind it as they were, or finished, with the front edit gone and handed
/// on once. The queued count drops by exactly the `k <= blocks_per_tick`
/// blocks the tick visited, which is what the front edit's pending blocks
/// dropped by, and it still equals the queued edits' pending blocks.
pub proof fn lemma_tick<W>(q: QueueView<W>, world: WorldModel, config: Config)
    requires
        queue_counted(q),
        q.tick is None,
    ensures
        ({
            let (q2, w2, s) = spec_tick(q, world, config);
            let b = config.blocks_per_tick;
            &&& q2.tick is None
            &&& queue_counted(q2)
            &&& (b == 0 || q.ops.len() == 0) ==> q2 == q && w2 == world && s == StepView::Idle
            &&& q2.queued_blocks <= q.queued_blocks <= q2.queued_blocks + b
            &&& match s {
                StepView::Finished(_) => {
                    &&& q.ops.len() > 0
                    &&& q2.ops == q.ops.drop_first()
                    &&& q2.targets == q.targets.drop_first()
                    &&& q.queued_blocks - q2.queued_blocks == spec_pending(q.ops[0])
                },
                StepView::Idle => {
                    &&& q2.ops.len() == q.ops.len()
                    &&& q2.targets == q.targets
                    &&& q.ops.len() > 0 ==> q2.ops.drop_first() == q.ops.drop_first()
                        && q.queued_blocks - q2.queued_blocks == spec_pending(q.ops[0])
                        - spec_pending(q2.ops[0])
                },
                _ => false,
            }
        }),
{
    let b = config.blocks_per_tick;
    let fuel = (2 * b + 2) as nat;
    if b == 0 || q.ops.len() == 0 {
        assert(QueueView { tick: None, ..q } == q);
    } else {
        let q1 = QueueView {
            tick: Some(TickView { budget: b, visited: 0, waiting: Waiting::Write }),
            ..q
        };
        lemma_advance_counted(q1);
        let start = spec_advance(q1);
        let v = q.ops[0];
        let v2 = spec_next_action(v).0;
        assert(q.ops.update(0, v2).drop_first() =~= q.ops.drop_first());
        lemma_sum_nonneg(q.ops.drop_first());
        assert(sum_pending(q.ops) == spec_pending(v) + sum_pending(q.ops.drop_first()));
        assert(tick_progress(q, start.0, start.1, config, fuel));
        lemma_continue(q, start.0, start.1, world, config, fuel);
        let (q2, w2, s) = spec_tick(q, world, config);
        lemma_sum_nonneg(q2.ops);
        if q2.ops.len() > 0 {
            assert(sum_pending(q2.ops) == spec_pending(q2.ops[0]) + sum_pending(q2.ops.drop_first()));
        }
    }
}

/// An empty queue is counted.
pub proof fn lemma_empty_counted<W>(q: QueueView<W>)
    requires
        q.ops.len() == 0,
        q.queued_blocks == 0,
        q.tick is None,
    ensures
        queue_counted(q),
{
}

} // verus!
