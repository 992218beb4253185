//! Recorded block changes, the history entries that group them, and what
//! replaying an entry writes back into a world.

use vstd::prelude::*;
use crate::geometry::BlockPos;

verus! {

/// One block that an edit changed: where, from which state, to which.
#[derive(Clone, Copy, Debug, PartialEq, Eq, Structural)]
pub struct BlockChange {
    pub pos: BlockPos,
    pub old_state: u16,
    pub new_state: u16,
}

/// Which way a history entry is replayed.
#[derive(Clone, Copy, Debug, PartialEq, Eq, Structural)]
pub enum ReplayDirection {
    Undo,
    Redo,
}

/// The changes of one edit in one world, in the order they were made.
pub struct HistoryEntry {
    world_id: String,
    changes: Vec<BlockChange>,
}

/// The spec form of a history entry.
pub struct HistoryView {
    pub world_id: Seq<char>,
    pub changes: Seq<BlockChange>,
}

impl View for HistoryEntry {
    type V = HistoryView;

    closed spec fn view(&self) -> HistoryView {
        HistoryView { world_id: self.world_id@, changes: self.changes@ }
    }
}

impl HistoryEntry {
    pub fn new(world_id: String, changes: Vec<BlockChange>) -> (e: HistoryEntry)
        ensures
            e@.world_id == world_id@,
            e@.changes == changes@,
    {
        HistoryEntry { world_id, changes }
    }

    /// The number of changed blocks.
    pub fn len(&self) -> (n: usize)
        ensures
            n == self@.changes.len(),
    {
        self.changes.len()
    }

    /// The world the edit was made in.
    pub fn world_id(&self) -> (w: &str)
        ensures
            w@ == self@.world_id,
    {
        self.world_id.as_str()
    }

    /// The `i`-th change.
    pub fn change(&self, i: usize) -> (c: BlockChange)
        requires
            i < self@.changes.len(),
        ensures
            c == self@.changes[i as int],
    {
        self.changes[i]
    }

    /// A copy of the entry.
    pub fn duplicate(&self) -> (e: HistoryEntry)
        ensures
            e@ == self@,
    {
        let mut changes: Vec<BlockChange> = Vec::new();
        let mut i: usize = 0;
        while i < self.changes.len()
            invariant
                i <= self.changes@.len(),
                changes@ == self.changes@.subrange(0, i as int),
            decreases self.changes@.len() - i,
        {
            changes.push(self.changes[i]);
            i += 1;
        }
        assert(changes@ =~= self.changes@);
        HistoryEntry { world_id: self.world_id.clone(), changes }
    }
}

/// The writes that replaying `changes` performs, in order: undo restores the
/// old states from the last change back to the first; redo sets the new
/// states from the first change on.
pub open spec fn replay_writes(changes: Seq<BlockChange>, direction: ReplayDirection) -> Seq<
    (BlockPos, u16),
> {
    let n = changes.len() as int;
    match direction {
        ReplayDirection::Undo => Seq::new(
            n as nat,
            |k: int| (changes[n - 1 - k].pos, changes[n - 1 - k].old_state),
        ),
        ReplayDirection::Redo => Seq::new(
            n as nat,
            |k: int| (changes[k].pos, changes[k].new_state),
        ),
    }
}

/// The block states of a world, as a function of position.
pub type WorldModel = spec_fn(BlockPos) -> u16;

/// The world after the writes `ws`, applied in order.
pub open spec fn apply_writes(w: WorldModel, ws: Seq<(BlockPos, u16)>) -> WorldModel
    decreases ws.len(),
{
    if ws.len() == 0 {
        w
    } else {
        let before = apply_writes(w, ws.drop_last());
        let last = ws.last();
        |p: BlockPos| if p == last.0 {
            last.1
        } else {
            before(p)
        }
    }
}

/// No two changes touch the same block.
pub open spec fn distinct_positions(changes: Seq<BlockChange>) -> bool {
    forall|i: int, j: int|
        0 <= i < changes.len() && 0 <= j < changes.len() && i != j ==> changes[i].pos
            != changes[j].pos
}

/// After writes that touch distinct blocks, each touched block holds its
/// write and every other block is unchanged.
pub proof fn lemma_apply_distinct(w: WorldModel, ws: Seq<(BlockPos, u16)>, p: BlockPos)
    requires
        forall|i: int, j: int| 0 <= i < ws.len() && 0 <= j < ws.len() && i != j ==> ws[i].0 != ws[j].0,
    ensures
        forall|i: int| 0 <= i < ws.len() && ws[i].0 == p ==> apply_writes(w, ws)(p) == ws[i].1,
        (forall|i: int| 0 <= i < ws.len() ==> ws[i].0 != p) ==> apply_writes(w, ws)(p) == w(p),
    decreases ws.len(),
{
    if ws.len() > 0 {
        let rest = ws.drop_last();
        lemma_apply_distinct(w, rest, p);
        assert forall|i: int| 0 <= i < ws.len() && ws[i].0 == p implies apply_writes(w, ws)(p)
            == ws[i].1 by {
            if i < ws.len() - 1 {
                assert(rest[i] == ws[i]);
            }
        }
        if forall|i: int| 0 <= i < ws.len() ==> ws[i].0 != p {
            assert forall|i: int| 0 <= i < rest.len() implies rest[i].0 != p by {
                assert(rest[i] == ws[i]);
            }
        }
    }
}

/// Undoing an edit whose changes touch distinct blocks, right after the edit,
/// gives back the world as it was before the edit, provided the recorded old
/// states are what the world held.
pub proof fn lemma_undo_restores(w: WorldModel, changes: Seq<BlockChange>)
    requires
        distinct_positions(changes),
        forall|i: int| 0 <= i < changes.len() ==> w(#[trigger] changes[i].pos) == changes[i].old_state,
    ensures
        apply_writes(
            apply_writes(w, replay_writes(changes, ReplayDirection::Redo)),
            replay_writes(changes, ReplayDirection::Undo),
        ) == w,
{
    let n = changes.len() as int;
    let redo = replay_writes(changes, ReplayDirection::Redo);
    let undo = replay_writes(changes, ReplayDirection::Undo);
    let edited = apply_writes(w, redo);
    let restored = apply_writes(edited, undo);
    assert forall|p: BlockPos| #[trigger] restored(p) == w(p) by {
        lemma_apply_distinct(w, redo, p);
        lemma_apply_distinct(edited, undo, p);
        if exists|i: int| 0 <= i < n && changes[i].pos == p {
            let i = choose|i: int| 0 <= i < n && changes[i].pos == p;
            assert(undo[n - 1 - i].0 == p);
        } else {
            assert forall|k: int| 0 <= k < n implies undo[k].0 != p by {
                assert(undo[k].0 == changes[n - 1 - k].pos);
            }
            assert forall|k: int| 0 <= k < n implies redo[k].0 != p by {
                assert(redo[k].0 == changes[k].pos);
            }
        }
    }
    assert(restored =~= w);
}

/// Redoing an undone edit gives back the world the edit made.
pub proof fn lemma_redo_reapplies(w: WorldModel, changes: Seq<BlockChange>)
    requires
        distinct_positions(changes),
    ensures
        apply_writes(
            apply_writes(w, replay_writes(changes, ReplayDirection::Undo)),
            replay_writes(changes, ReplayDirection::Redo),
        ) == apply_writes(w, replay_writes(changes, ReplayDirection::Redo)),
{
    let n = changes.len() as int;
    let redo = replay_writes(changes, ReplayDirection::Redo);
    let undo = replay_writes(changes, ReplayDirection::Undo);
    let undone = apply_writes(w, undo);
    let lhs = apply_writes(undone, redo);
    let rhs = apply_writes(w, redo);
    assert forall|p: BlockPos| #[trigger] lhs(p) == rhs(p) by {
        lemma_apply_distinct(undone, redo, p);
        lemma_apply_distinct(w, redo, p);
        lemma_apply_distinct(w, undo, p);
        if !(exists|i: int| 0 <= i < n && changes[i].pos == p) {
            assert forall|k: int| 0 <= k < n implies undo[k].0 != p by {
                assert(undo[k].0 == changes[n - 1 - k].pos);
            }
            assert forall|k: int| 0 <= k < n implies redo[k].0 != p by {
                assert(redo[k].0 == changes[k].pos);
            }
        } else {
            let i = choose|i: int| 0 <= i < n && changes[i].pos == p;
            assert(redo[i].0 == p);
        }
    }
    assert(lhs =~= rhs);
}

} // verus!
