//! Per-player state: selections and the undo and redo histories, kept
//! within the configured limits.

use vstd::prelude::*;
use crate::config::Config;
use crate::engine::{FinishedEdit, FinishedView};
use crate::geometry::{BlockPos, Selection};
use crate::history::{HistoryEntry, HistoryView};
use std::collections::VecDeque;

verus! {

/// Which selection corner to set.
#[derive(Clone, Copy, Debug, PartialEq, Eq, Structural)]
pub enum SelectionSlot {
    Pos1,
    Pos2,
}

/// A player's selection and histories, newest history entry first.
struct PlayerSession {
    owner: String,
    selection: Selection,
    undo: VecDeque<HistoryEntry>,
    redo: VecDeque<HistoryEntry>,
}

/// The spec form of a player's session.
pub struct SessionView {
    pub selection: Selection,
    pub undo: Seq<HistoryView>,
    pub redo: Seq<HistoryView>,
}

/// A session as it starts: no corners and no history.
pub open spec fn empty_session() -> SessionView {
    SessionView {
        selection: Selection { pos1: None, pos2: None },
        undo: Seq::<HistoryView>::empty(),
        redo: Seq::<HistoryView>::empty(),
    }
}

/// The number of blocks recorded in `l`.
pub open spec fn history_blocks(l: Seq<HistoryView>) -> nat
    decreases l.len(),
{
    if l.len() == 0 {
        0
    } else {
        history_blocks(l.drop_last()) + l.last().changes.len()
    }
}

/// Drops the oldest entries until at most `max_blocks` blocks are recorded.
pub open spec fn prune_blocks(l: Seq<HistoryView>, max_blocks: nat) -> Seq<HistoryView>
    decreases l.len(),
{
    if l.len() > 0 && history_blocks(l) > max_blocks {
        prune_blocks(l.drop_last(), max_blocks)
    } else {
        l
    }
}

/// Keeps at most `max_entries` entries, then drops the oldest until at most
/// `max_blocks` blocks are recorded.
pub open spec fn prune(l: Seq<HistoryView>, max_entries: nat, max_blocks: nat) -> Seq<HistoryView> {
    prune_blocks(
        if l.len() > max_entries {
            l.take(max_entries as int)
        } else {
            l
        },
        max_blocks,
    )
}

/// What is known of the latest history entry without taking it.
pub struct HistoryInfo {
    pub world_id: String,
    pub blocks: usize,
}

/// Selections and histories of all players, and the configuration that
/// limits the histories.
pub struct PluginState {
    config: Config,
    sessions: Vec<PlayerSession>,
}

impl PlayerSession {
    closed spec fn view(&self) -> SessionView {
        SessionView {
            selection: self.selection,
            undo: self.undo@.map_values(|e: HistoryEntry| e@),
            redo: self.redo@.map_values(|e: HistoryEntry| e@),
        }
    }
}

/// Pruning keeps a prefix of the list and stays within the limits.
pub proof fn lemma_prune_blocks(l: Seq<HistoryView>, max_blocks: nat)
    ensures
        history_blocks(prune_blocks(l, max_blocks)) <= max_blocks,
        prune_blocks(l, max_blocks).len() <= l.len(),
        prune_blocks(l, max_blocks) == l.take(prune_blocks(l, max_blocks).len() as int),
        l.len() > 0 && l[0].changes.len() <= max_blocks ==> prune_blocks(l, max_blocks).len() > 0,
    decreases l.len(),
{
    if l.len() > 0 && history_blocks(l) > max_blocks {
        lemma_prune_blocks(l.drop_last(), max_blocks);
        let r = prune_blocks(l.drop_last(), max_blocks);
        assert(l.drop_last().take(r.len() as int) =~= l.take(r.len() as int));
        if l.len() == 1 {
            assert(l.drop_last() =~= Seq::<HistoryView>::empty());
            assert(history_blocks(l) == l[0].changes.len());
        } else {
            assert(l.drop_last()[0] == l[0]);
        }
    } else {
        assert(l.take(l.len() as int) =~= l);
        if l.len() == 0 {
        }
    }
}

/// After pruning, at most `max_entries` entries and `max_blocks` blocks are
/// kept, newest first; a newest entry that fits by itself is kept.
pub proof fn lemma_prune(l: Seq<HistoryView>, max_entries: nat, max_blocks: nat)
    ensures
        prune(l, max_entries, max_blocks).len() <= max_entries,
        prune(l, max_entries, max_blocks).len() <= l.len(),
        history_blocks(prune(l, max_entries, max_blocks)) <= max_blocks,
        prune(l, max_entries, max_blocks) == l.take(prune(l, max_entries, max_blocks).len() as int),
        l.len() > 0 && max_entries > 0 && l[0].changes.len() <= max_blocks ==> prune(
            l,
            max_entries,
            max_blocks,
        ).len() > 0,
{
    let t = if l.len() > max_entries {
        l.take(max_entries as int)
    } else {
        l
    };
    lemma_prune_blocks(t, max_blocks);
    let r = prune_blocks(t, max_blocks);
    assert(t.take(r.len() as int) =~= l.take(r.len() as int));
}


pub open spec fn list_view(l: Seq<HistoryEntry>) -> Seq<HistoryView> {
    l.map_values(|e: HistoryEntry| e@)
}

/// Whether the entries of `list` record more than `max` blocks.
fn blocks_exceed(list: &VecDeque<HistoryEntry>, max: usize) -> (r: bool)
    ensures
        r == (history_blocks(list_view(list@)) > max),
{
    let ghost l = list_view(list@);
    let mut acc: u128 = 0;
    let mut i: usize = 0;
    while i < list.len()
        invariant
            l == list_view(list@),
            i <= list@.len(),
            acc == history_blocks(l.take(i as int)),
            acc <= max,
        decreases list@.len() - i,
    {
        assert(l.take(i + 1).drop_last() =~= l.take(i as int));
        assert(l.take(i + 1).last() == list@[i as int]@);
        let n = list[i].len();
        acc = acc + n as u128;
        if acc > max as u128 {
            proof {
                lemma_blocks_grow(l, i as int + 1);
            }
            return true;
        }
        i += 1;
    }
    assert(l.take(i as int) =~= l);
    false
}

/// Recorded blocks only grow as more entries are counted.
proof fn lemma_blocks_grow(l: Seq<HistoryView>, k: int)
    requires
        0 <= k <= l.len(),
    ensures
        history_blocks(l.take(k)) <= history_blocks(l),
    decreases l.len() - k,
{
    if k < l.len() {
        assert(l.take(k + 1).drop_last() =~= l.take(k));
        lemma_blocks_grow(l, k + 1);
    } else {
        assert(l.take(k) =~= l);
    }
}

/// Prunes `list` to the limits.
fn prune_list(list: &mut VecDeque<HistoryEntry>, max_entries: usize, max_blocks: usize)
    ensures
        list_view(final(list)@) == prune(list_view(old(list)@), max_entries as nat, max_blocks as nat),
{
    let ghost l0 = list_view(list@);
    while list.len() > max_entries
        invariant
            list_view(list@) == l0.take(list@.len() as int),
            l0.len() > max_entries ==> list@.len() >= max_entries,
            l0.len() <= max_entries ==> list_view(list@) == l0,
            list@.len() <= l0.len(),
        decreases list@.len(),
    {
        let ghost before = list@;
        list.pop_back();
        assert(list_view(list@) =~= l0.take(list@.len() as int));
    }
    let ghost t = list_view(list@);
    assert(l0.len() > max_entries ==> t =~= l0.take(max_entries as int));
    assert(l0.len() <= max_entries ==> t =~= l0);
    while blocks_exceed(list, max_blocks)
        invariant
            prune_blocks(list_view(list@), max_blocks as nat) == prune_blocks(t, max_blocks as nat),
        decreases list@.len(),
    {
        let ghost before = list_view(list@);
        assert(before.len() > 0) by {
            if before.len() == 0 {
                assert(history_blocks(before) == 0);
            }
        }
        list.pop_back();
        assert(list_view(list@) =~= before.drop_last());
    }
}

/// The value stored under `k` in a list of pairs with distinct keys.
pub open spec fn pairs_lookup<K, V>(s: Seq<(K, V)>, k: K) -> Option<V> {
    if exists|i: int| 0 <= i < s.len() && s[i].0 == k {
        let i = choose|i: int| 0 <= i < s.len() && s[i].0 == k;
        Some(s[i].1)
    } else {
        None
    }
}

pub open spec fn keys_distinct<K, V>(s: Seq<(K, V)>) -> bool {
    forall|i: int, j: int| 0 <= i < s.len() && 0 <= j < s.len() && i != j ==> s[i].0 != s[j].0
}

proof fn lemma_pairs_at<K, V>(s: Seq<(K, V)>, i: int)
    requires
        keys_distinct(s),
        0 <= i < s.len(),
    ensures
        pairs_lookup(s, s[i].0) == Some(s[i].1),
{
    let c = choose|j: int| 0 <= j < s.len() && s[j].0 == s[i].0;
    assert(c == i);
}

proof fn lemma_pairs_remove<K, V>(s: Seq<(K, V)>, i: int)
    requires
        keys_distinct(s),
        0 <= i < s.len(),
    ensures
        keys_distinct(s.remove(i)),
        forall|j: int| 0 <= j < s.remove(i).len() ==> s.remove(i)[j].0 != s[i].0,
        forall|k: K| k != s[i].0 ==> #[trigger] pairs_lookup(s.remove(i), k) == pairs_lookup(s, k),
{
    let r = s.remove(i);
    assert forall|a: int, b: int| 0 <= a < r.len() && 0 <= b < r.len() && a != b implies r[a].0 != r[b].0 by {
        let aa = if a < i { a } else { a + 1 };
        let bb = if b < i { b } else { b + 1 };
        assert(r[a] == s[aa] && r[b] == s[bb]);
    }
    assert forall|j: int| 0 <= j < r.len() implies r[j].0 != s[i].0 by {
        let jj = if j < i { j } else { j + 1 };
        assert(r[j] == s[jj]);
    }
    assert forall|k: K| k != s[i].0 implies #[trigger] pairs_lookup(r, k) == pairs_lookup(s, k) by {
        if exists|j: int| 0 <= j < s.len() && s[j].0 == k {
            let j = choose|j: int| 0 <= j < s.len() && s[j].0 == k;
            lemma_pairs_at(s, j);
            let jj = if j < i { j } else { j - 1 };
            assert(r[jj] == s[j]);
            lemma_pairs_at(r, jj);
        } else {
            assert forall|j: int| 0 <= j < r.len() implies r[j].0 != k by {
                let jj = if j < i { j } else { j + 1 };
                assert(r[j] == s[jj]);
            }
        }
    }
}

proof fn lemma_pairs_insert<K, V>(s: Seq<(K, V)>, i: int, kv: (K, V))
    requires
        keys_distinct(s),
        0 <= i <= s.len(),
        forall|j: int| 0 <= j < s.len() ==> s[j].0 != kv.0,
    ensures
        keys_distinct(s.insert(i, kv)),
        pairs_lookup(s.insert(i, kv), kv.0) == Some(kv.1),
        forall|k: K| k != kv.0 ==> #[trigger] pairs_lookup(s.insert(i, kv), k) == pairs_lookup(s, k),
{
    let r = s.insert(i, kv);
    assert forall|a: int, b: int| 0 <= a < r.len() && 0 <= b < r.len() && a != b implies r[a].0 != r[b].0 by {
        if a != i {
            let aa = if a < i { a } else { a - 1 };
            assert(r[a] == s[aa]);
        }
        if b != i {
            let bb = if b < i { b } else { b - 1 };
            assert(r[b] == s[bb]);
        }
    }
    lemma_pairs_at(r, i);
    assert forall|k: K| k != kv.0 implies #[trigger] pairs_lookup(r, k) == pairs_lookup(s, k) by {
        if exists|j: int| 0 <= j < s.len() && s[j].0 == k {
            let j = choose|j: int| 0 <= j < s.len() && s[j].0 == k;
            lemma_pairs_at(s, j);
            let jj = if j < i { j } else { j + 1 };
            assert(r[jj] == s[j]);
            lemma_pairs_at(r, jj);
        } else {
            assert forall|j: int| 0 <= j < r.len() implies r[j].0 != k by {
                if j != i {
                    let jj = if j < i { j } else { j - 1 };
                    assert(r[j] == s[jj]);
                }
            }
        }
    }
}

spec fn session_pair(s: PlayerSession) -> (Seq<char>, SessionView) {
    (s.owner@, s.view())
}

impl PluginState {
    closed spec fn pairs(&self) -> Seq<(Seq<char>, SessionView)> {
        self.sessions@.map_values(|s: PlayerSession| session_pair(s))
    }

    /// No two sessions have the same owner.
    pub closed spec fn wf(&self) -> bool {
        keys_distinct(self.pairs())
    }

    /// The session of `owner`, if the player has one.
    pub closed spec fn lookup(&self, owner: Seq<char>) -> Option<SessionView> {
        pairs_lookup(self.pairs(), owner)
    }

    /// The session of `owner`, or a fresh one.
    pub open spec fn session_or_empty(&self, owner: Seq<char>) -> SessionView {
        match self.lookup(owner) {
            Some(s) => s,
            None => empty_session(),
        }
    }

    pub closed spec fn spec_config(&self) -> Config {
        self.config
    }

    pub fn new(config: Config) -> (s: PluginState)
        ensures
            s.wf(),
            s.spec_config() == config,
            forall|o: Seq<char>| #[trigger] s.lookup(o) is None,
    {
        let s = PluginState { config, sessions: Vec::new() };
        assert(s.pairs() =~= Seq::<(Seq<char>, SessionView)>::empty());
        s
    }

    pub fn config(&self) -> (c: &Config)
        ensures
            *c == self.spec_config(),
    {
        &self.config
    }

    /// Finds the session of `owner`.
    fn find(&self, owner: &String) -> (r: Option<usize>)
        requires
            self.wf(),
        ensures
            match r {
                Some(i) => i < self.sessions@.len() && self.pairs()[i as int].0 == owner@,
                None => forall|j: int| 0 <= j < self.pairs().len() ==> self.pairs()[j].0 != owner@,
            },
    {
        let mut i: usize = 0;
        while i < self.sessions.len()
            invariant
                i <= self.sessions@.len(),
                forall|j: int| 0 <= j < i ==> self.pairs()[j].0 != owner@,
            decreases self.sessions@.len() - i,
        {
            if self.sessions[i].owner == *owner {
                return Some(i);
            }
            i += 1;
        }
        None
    }

    /// Takes the session of `owner` out (a fresh one when there is none);
    /// `put_back` returns it.
    fn take_session(&mut self, owner: String) -> (r: (usize, PlayerSession))
        requires
            old(self).wf(),
        ensures
            final(self).spec_config() == old(self).spec_config(),
            r.0 <= final(self).sessions@.len(),
            r.1.owner@ == owner@,
            r.1.view() == old(self).session_or_empty(owner@),
            keys_distinct(final(self).pairs()),
            forall|j: int| 0 <= j < final(self).pairs().len() ==> final(self).pairs()[j].0 != owner@,
            forall|o: Seq<char>| o != owner@ ==> #[trigger] pairs_lookup(final(self).pairs(), o)
                == old(self).lookup(o),
    {
        match self.find(&owner) {
            Some(i) => {
                let ghost p0 = self.pairs();
                proof {
                    lemma_pairs_at(p0, i as int);
                    lemma_pairs_remove(p0, i as int);
                }
                let s = self.sessions.remove(i);
                assert(self.pairs() =~= p0.remove(i as int));
                (i, s)
            },
            None => {
                let s = PlayerSession {
                    owner,
                    selection: Selection { pos1: None, pos2: None },
                    undo: VecDeque::new(),
                    redo: VecDeque::new(),
                };
                proof {
                    assert(s.view().undo =~= Seq::<HistoryView>::empty());
                    assert(s.view().redo =~= Seq::<HistoryView>::empty());
                }
                (self.sessions.len(), s)
            },
        }
    }

    /// Returns a session taken out by `take_session`.
    fn put_back(&mut self, i: usize, s: PlayerSession)
        requires
            i <= old(self).sessions@.len(),
            keys_distinct(old(self).pairs()),
            forall|j: int| 0 <= j < old(self).pairs().len() ==> old(self).pairs()[j].0 != s.owner@,
        ensures
            final(self).wf(),
            final(self).spec_config() == old(self).spec_config(),
            final(self).lookup(s.owner@) == Some(s.view()),
            forall|o: Seq<char>| o != s.owner@ ==> #[trigger] final(self).lookup(o) == pairs_lookup(
                old(self).pairs(),
                o,
            ),
    {
        let ghost p0 = self.pairs();
        proof {
            lemma_pairs_insert(p0, i as int, session_pair(s));
        }
        self.sessions.insert(i, s);
        assert(self.pairs() =~= p0.insert(i as int, session_pair(s)));
    }
}


/// The selection with one corner set.
pub open spec fn with_slot(sel: Selection, slot: SelectionSlot, pos: BlockPos) -> Selection {
    match slot {
        SelectionSlot::Pos1 => Selection { pos1: Some(pos), ..sel },
        SelectionSlot::Pos2 => Selection { pos2: Some(pos), ..sel },
    }
}

/// A history list with `entry` added as the newest, within the limits.
pub open spec fn pushed(l: Seq<HistoryView>, entry: HistoryView, config: Config) -> Seq<HistoryView> {
    prune(
        seq![entry] + l,
        config.max_history_entries as nat,
        config.max_history_blocks as nat,
    )
}

/// A session pruned to the limits of `config`.
pub open spec fn pruned_session(s: SessionView, config: Config) -> SessionView {
    SessionView {
        undo: prune(s.undo, config.max_history_entries as nat, config.max_history_blocks as nat),
        redo: prune(s.redo, config.max_history_entries as nat, config.max_history_blocks as nat),
        ..s
    }
}

proof fn lemma_pairs_map(
    s1: Seq<(Seq<char>, SessionView)>,
    s2: Seq<(Seq<char>, SessionView)>,
    config: Config,
)
    requires
        keys_distinct(s1),
        s1.len() == s2.len(),
        forall|j: int| 0 <= j < s1.len() ==> (#[trigger] s2[j]).0 == s1[j].0 && s2[j].1 == pruned_session(s1[j].1, config),
    ensures
        forall|k: Seq<char>| #[trigger] pairs_lookup(s2, k) == match pairs_lookup(s1, k) {
            Some(v) => Some(pruned_session(v, config)),
            None => None,
        },
{
    assert forall|k: Seq<char>| #[trigger] pairs_lookup(s2, k) == match pairs_lookup(s1, k) {
        Some(v) => Some(pruned_session(v, config)),
        None => None,
    } by {
        if exists|i: int| 0 <= i < s1.len() && s1[i].0 == k {
            let i = choose|i: int| 0 <= i < s1.len() && s1[i].0 == k;
            assert(s2[i].0 == k);
            let c = choose|c: int| 0 <= c < s2.len() && s2[c].0 == k;
            assert(s1[c].0 == k);
            assert(c == i);
        } else {
            assert forall|i: int| 0 <= i < s2.len() implies s2[i].0 != k by {
                assert(s2[i].0 == s1[i].0);
            }
        }
    }
}

impl PluginState {
    /// Sets one selection corner of `owner` and returns the selection.
    pub fn set_position(&mut self, owner: String, slot: SelectionSlot, pos: BlockPos) -> (sel: Selection)
        requires
            old(self).wf(),
        ensures
            final(self).wf(),
            final(self).spec_config() == old(self).spec_config(),
            sel == with_slot(old(self).session_or_empty(owner@).selection, slot, pos),
            final(self).lookup(owner@) == Some(
                SessionView { selection: sel, ..old(self).session_or_empty(owner@) },
            ),
            forall|o: Seq<char>| o != owner@ ==> #[trigger] final(self).lookup(o) == old(self).lookup(o),
    {
        let (i, mut session) = self.take_session(owner);
        match slot {
            SelectionSlot::Pos1 => {
                session.selection.pos1 = Some(pos);
            },
            SelectionSlot::Pos2 => {
                session.selection.pos2 = Some(pos);
            },
        }
        let sel = session.selection;
        self.put_back(i, session);
        sel
    }

    /// Sets both corners of `owner`'s selection (first `pos1`, then `pos2`)
    /// and returns the selection.
    pub fn set_selection(&mut self, owner: String, pos1: BlockPos, pos2: BlockPos) -> (sel: Selection)
        requires
            old(self).wf(),
        ensures
            final(self).wf(),
            final(self).spec_config() == old(self).spec_config(),
            sel == (Selection { pos1: Some(pos1), pos2: Some(pos2) }),
            final(self).lookup(owner@) == Some(
                SessionView { selection: sel, ..old(self).session_or_empty(owner@) },
            ),
            forall|o: Seq<char>| o != owner@ ==> #[trigger] final(self).lookup(o) == old(self).lookup(o),
    {
        let owner2 = owner.clone();
        self.set_position(owner, SelectionSlot::Pos1, pos1);
        self.set_position(owner2, SelectionSlot::Pos2, pos2)
    }

    /// `owner`'s selection, if the player has a session.
    pub fn selection(&self, owner: &str) -> (r: Option<Selection>)
        requires
            self.wf(),
        ensures
            r == match self.lookup(owner@) {
                Some(s) => Some(s.selection),
                None => None,
            },
    {
        let key = owner.to_owned();
        match self.find(&key) {
            Some(i) => {
                proof {
                    lemma_pairs_at(self.pairs(), i as int);
                }
                Some(self.sessions[i].selection)
            },
            None => None,
        }
    }

    /// Adds `entry` as `owner`'s newest undo entry, then drops the oldest
    /// entries beyond the configured entry and block limits.
    pub fn push_history(&mut self, owner: String, entry: HistoryEntry)
        requires
            old(self).wf(),
        ensures
            final(self).wf(),
            final(self).spec_config() == old(self).spec_config(),
            final(self).lookup(owner@) == Some(
                SessionView {
                    undo: pushed(old(self).session_or_empty(owner@).undo, entry@, old(self).spec_config()),
                    ..old(self).session_or_empty(owner@)
                },
            ),
            forall|o: Seq<char>| o != owner@ ==> #[trigger] final(self).lookup(o) == old(self).lookup(o),
    {
        let (i, mut session) = self.take_session(owner);
        let ghost before = list_view(session.undo@);
        session.undo.push_front(entry);
        assert(list_view(session.undo@) =~= seq![entry@] + before);
        prune_list(&mut session.undo, self.config.max_history_entries, self.config.max_history_blocks);
        self.put_back(i, session);
    }

    /// Adds `entry` as `owner`'s newest redo entry, within the limits.
    pub fn push_redo_history(&mut self, owner: String, entry: HistoryEntry)
        requires
            old(self).wf(),
        ensures
            final(self).wf(),
            final(self).spec_config() == old(self).spec_config(),
            final(self).lookup(owner@) == Some(
                SessionView {
                    redo: pushed(old(self).session_or_empty(owner@).redo, entry@, old(self).spec_config()),
                    ..old(self).session_or_empty(owner@)
                },
            ),
            forall|o: Seq<char>| o != owner@ ==> #[trigger] final(self).lookup(o) == old(self).lookup(o),
    {
        let (i, mut session) = self.take_session(owner);
        let ghost before = list_view(session.redo@);
        session.redo.push_front(entry);
        assert(list_view(session.redo@) =~= seq![entry@] + before);
        prune_list(&mut session.redo, self.config.max_history_entries, self.config.max_history_blocks);
        self.put_back(i, session);
    }

    /// Records a new edit: the redo entries are dropped and `entry` becomes
    /// the newest undo entry.
    pub fn push_undo_history(&mut self, owner: String, entry: HistoryEntry)
        requires
            old(self).wf(),
        ensures
            final(self).wf(),
            final(self).spec_config() == old(self).spec_config(),
            final(self).lookup(owner@) == Some(
                SessionView {
                    undo: pushed(old(self).session_or_empty(owner@).undo, entry@, old(self).spec_config()),
                    redo: Seq::<HistoryView>::empty(),
                    ..old(self).session_or_empty(owner@)
                },
            ),
            forall|o: Seq<char>| o != owner@ ==> #[trigger] final(self).lookup(o) == old(self).lookup(o),
    {
        let (i, mut session) = self.take_session(owner);
        session.redo.clear();
        assert(list_view(session.redo@) =~= Seq::<HistoryView>::empty());
        let ghost before = list_view(session.undo@);
        session.undo.push_front(entry);
        assert(list_view(session.undo@) =~= seq![entry@] + before);
        prune_list(&mut session.undo, self.config.max_history_entries, self.config.max_history_blocks);
        self.put_back(i, session);
    }

    /// Records a redone edit as the newest undo entry; the remaining redo
    /// entries stay.
    pub fn push_replayed_undo_history(&mut self, owner: String, entry: HistoryEntry)
        requires
            old(self).wf(),
        ensures
            final(self).wf(),
            final(self).spec_config() == old(self).spec_config(),
            final(self).lookup(owner@) == Some(
                SessionView {
                    undo: pushed(old(self).session_or_empty(owner@).undo, entry@, old(self).spec_config()),
                    ..old(self).session_or_empty(owner@)
                },
            ),
            forall|o: Seq<char>| o != owner@ ==> #[trigger] final(self).lookup(o) == old(self).lookup(o),
    {
        self.push_history(owner, entry)
    }

    /// Takes `owner`'s newest undo entry.
    pub fn pop_history(&mut self, owner: &str) -> (r: Option<HistoryEntry>)
        requires
            old(self).wf(),
        ensures
            final(self).wf(),
            final(self).spec_config() == old(self).spec_config(),
            match old(self).lookup(owner@) {
                Some(s) => if s.undo.len() > 0 {
                    &&& r matches Some(e) && e@ == s.undo[0]
                    &&& final(self).lookup(owner@) == Some(SessionView { undo: s.undo.drop_first(), ..s })
                } else {
                    &&& r is None
                    &&& final(self).lookup(owner@) == Some(s)
                },
                None => r is None && final(self).lookup(owner@) is None,
            },
            forall|o: Seq<char>| o != owner@ ==> #[trigger] final(self).lookup(o) == old(self).lookup(o),
    {
        let key = owner.to_owned();
        match self.find(&key) {
            None => None,
            Some(_) => {
                let (i, mut session) = self.take_session(key);
                let ghost before = list_view(session.undo@);
                let r = session.undo.pop_front();
                assert(list_view(session.undo@) =~= if before.len() > 0 { before.drop_first() } else { before });
                self.put_back(i, session);
                r
            },
        }
    }

    /// Takes `owner`'s newest undo entry.
    pub fn pop_undo_history(&mut self, owner: &str) -> (r: Option<HistoryEntry>)
        requires
            old(self).wf(),
        ensures
            final(self).wf(),
            final(self).spec_config() == old(self).spec_config(),
            match old(self).lookup(owner@) {
                Some(s) => if s.undo.len() > 0 {
                    &&& r matches Some(e) && e@ == s.undo[0]
                    &&& final(self).lookup(owner@) == Some(SessionView { undo: s.undo.drop_first(), ..s })
                } else {
                    &&& r is None
                    &&& final(self).lookup(owner@) == Some(s)
                },
                None => r is None && final(self).lookup(owner@) is None,
            },
            forall|o: Seq<char>| o != owner@ ==> #[trigger] final(self).lookup(o) == old(self).lookup(o),
    {
        self.pop_history(owner)
    }

    /// Takes `owner`'s newest redo entry.
    pub fn pop_redo_history(&mut self, owner: &str) -> (r: Option<HistoryEntry>)
        requires
            old(self).wf(),
        ensures
            final(self).wf(),
            final(self).spec_config() == old(self).spec_config(),
            match old(self).lookup(owner@) {
                Some(s) => if s.redo.len() > 0 {
                    &&& r matches Some(e) && e@ == s.redo[0]
                    &&& final(self).lookup(owner@) == Some(SessionView { redo: s.redo.drop_first(), ..s })
                } else {
                    &&& r is None
                    &&& final(self).lookup(owner@) == Some(s)
                },
                None => r is None && final(self).lookup(owner@) is None,
            },
            forall|o: Seq<char>| o != owner@ ==> #[trigger] final(self).lookup(o) == old(self).lookup(o),
    {
        let key = owner.to_owned();
        match self.find(&key) {
            None => None,
            Some(_) => {
                let (i, mut session) = self.take_session(key);
                let ghost before = list_view(session.redo@);
                let r = session.redo.pop_front();
                assert(list_view(session.redo@) =~= if before.len() > 0 { before.drop_first() } else { before });
                self.put_back(i, session);
                r
            },
        }
    }

    /// The world and size of `owner`'s newest undo entry.
    pub fn latest_undo_history(&self, owner: &str) -> (r: Option<HistoryInfo>)
        requires
            self.wf(),
        ensures
            match self.lookup(owner@) {
                Some(s) => if s.undo.len() > 0 {
                    r matches Some(info) && info.world_id@ == s.undo[0].world_id && info.blocks
                        == s.undo[0].changes.len()
                } else {
                    r is None
                },
                None => r is None,
            },
    {
        let key = owner.to_owned();
        match self.find(&key) {
            None => None,
            Some(i) => {
                proof {
                    lemma_pairs_at(self.pairs(), i as int);
                }
                let session = &self.sessions[i];
                if session.undo.len() == 0 {
                    None
                } else {
                    let e = &session.undo[0];
                    Some(HistoryInfo { world_id: e.world_id().to_owned(), blocks: e.len() })
                }
            },
        }
    }

    /// The world and size of `owner`'s newest redo entry.
    pub fn latest_redo_history(&self, owner: &str) -> (r: Option<HistoryInfo>)
        requires
            self.wf(),
        ensures
            match self.lookup(owner@) {
                Some(s) => if s.redo.len() > 0 {
                    r matches Some(info) && info.world_id@ == s.redo[0].world_id && info.blocks
                        == s.redo[0].changes.len()
                } else {
                    r is None
                },
                None => r is None,
            },
    {
        let key = owner.to_owned();
        match self.find(&key) {
            None => None,
            Some(i) => {
                proof {
                    lemma_pairs_at(self.pairs(), i as int);
                }
                let session = &self.sessions[i];
                if session.redo.len() == 0 {
                    None
                } else {
                    let e = &session.redo[0];
                    Some(HistoryInfo { world_id: e.world_id().to_owned(), blocks: e.len() })
                }
            },
        }
    }

    /// Puts a finished edit into its owner's history: a new edit that
    /// changed blocks becomes the newest undo entry (dropping the redo
    /// entries); an undone entry becomes the newest redo entry; a redone
    /// entry becomes the newest undo entry again.
    pub fn apply_finished(&mut self, finished: FinishedEdit)
        requires
            old(self).wf(),
        ensures
            final(self).wf(),
            final(self).spec_config() == old(self).spec_config(),
            match finished.view() {
                FinishedView::Edited { owner, entry } => if entry.changes.len() > 0 {
                    &&& final(self).lookup(owner) == Some(
                        SessionView {
                            undo: pushed(old(self).session_or_empty(owner).undo, entry, old(self).spec_config()),
                            redo: Seq::<HistoryView>::empty(),
                            ..old(self).session_or_empty(owner)
                        },
                    )
                    &&& forall|o: Seq<char>| o != owner ==> #[trigger] final(self).lookup(o) == old(self).lookup(o)
                } else {
                    forall|o: Seq<char>| #[trigger] final(self).lookup(o) == old(self).lookup(o)
                },
                FinishedView::Undone { owner, entry } => {
                    &&& final(self).lookup(owner) == Some(
                        SessionView {
                            redo: pushed(old(self).session_or_empty(owner).redo, entry, old(self).spec_config()),
                            ..old(self).session_or_empty(owner)
                        },
                    )
                    &&& forall|o: Seq<char>| o != owner ==> #[trigger] final(self).lookup(o) == old(self).lookup(o)
                },
                FinishedView::Redone { owner, entry } => {
                    &&& final(self).lookup(owner) == Some(
                        SessionView {
                            undo: pushed(old(self).session_or_empty(owner).undo, entry, old(self).spec_config()),
                            ..old(self).session_or_empty(owner)
                        },
                    )
                    &&& forall|o: Seq<char>| o != owner ==> #[trigger] final(self).lookup(o) == old(self).lookup(o)
                },
            },
    {
        match finished {
            FinishedEdit::Edited { owner, entry } => {
                if entry.len() > 0 {
                    self.push_undo_history(owner, entry);
                }
            },
            FinishedEdit::Undone { owner, entry } => {
                self.push_redo_history(owner, entry);
            },
            FinishedEdit::Redone { owner, entry } => {
                self.push_replayed_undo_history(owner, entry);
            },
        }
    }

    /// Installs a new configuration and prunes every history to its limits.
    pub fn replace_config(&mut self, config: Config)
        requires
            old(self).wf(),
        ensures
            final(self).wf(),
            final(self).spec_config() == config,
            forall|o: Seq<char>| #[trigger] final(self).lookup(o) == match old(self).lookup(o) {
                Some(s) => Some(pruned_session(s, config)),
                None => None,
            },
    {
        self.config = config;
        self.prune_all_history();
    }

    /// Prunes every history to the limits of the current configuration.
    fn prune_all_history(&mut self)
        requires
            old(self).wf(),
        ensures
            final(self).wf(),
            final(self).spec_config() == old(self).spec_config(),
            forall|o: Seq<char>| #[trigger] final(self).lookup(o) == match old(self).lookup(o) {
                Some(s) => Some(pruned_session(s, old(self).spec_config())),
                None => None,
            },
    {
        let ghost p0 = self.pairs();
        let max_entries = self.config.max_history_entries;
        let max_blocks = self.config.max_history_blocks;
        let mut i: usize = 0;
        while i < self.sessions.len()
            invariant
                self.config == old(self).spec_config(),
                max_entries == self.config.max_history_entries,
                max_blocks == self.config.max_history_blocks,
                i <= self.sessions@.len(),
                self.pairs().len() == p0.len(),
                forall|j: int| 0 <= j < p0.len() ==> (#[trigger] self.pairs()[j]).0 == p0[j].0,
                forall|j: int| 0 <= j < i ==> (#[trigger] self.pairs()[j]).1 == pruned_session(p0[j].1, self.config),
                forall|j: int| i <= j < p0.len() ==> (#[trigger] self.pairs()[j]).1 == p0[j].1,
            decreases p0.len() - i,
        {
            let ghost before = self.pairs();
            let ghost old_sessions = self.sessions@;
            let mut session = self.sessions.remove(i);
            assert(session_pair(session) == before[i as int]);
            prune_list(&mut session.undo, max_entries, max_blocks);
            prune_list(&mut session.redo, max_entries, max_blocks);
            let ghost np = session_pair(session);
            assert(np.0 == before[i as int].0);
            assert(np.1 == pruned_session(before[i as int].1, self.config));
            self.sessions.insert(i, session);
            assert(self.sessions@ =~= old_sessions.update(i as int, session));
            assert(self.pairs() =~= before.update(i as int, np));
            i += 1;
        }
        proof {
            lemma_pairs_map(p0, self.pairs(), self.config);
            assert forall|a: int, b: int| 0 <= a < self.pairs().len() && 0 <= b < self.pairs().len() && a != b implies self.pairs()[a].0 != self.pairs()[b].0 by {
                assert(self.pairs()[a].0 == p0[a].0);
                assert(self.pairs()[b].0 == p0[b].0);
            }
        }
    }
}


/// Pushing into a history keeps it within the configured number of entries
/// and of blocks, and keeps a prefix of the newest entries.
pub proof fn lemma_history_limits(l: Seq<HistoryView>, entry: HistoryView, config: Config)
    ensures
        pushed(l, entry, config).len() <= config.max_history_entries,
        history_blocks(pushed(l, entry, config)) <= config.max_history_blocks,
        pushed(l, entry, config) == (seq![entry] + l).take(pushed(l, entry, config).len() as int),
{
    lemma_prune(seq![entry] + l, config.max_history_entries as nat, config.max_history_blocks as nat);
}

/// The entry just pushed is the one taken next, when it fits the limits by
/// itself: undo takes back the latest edit.
pub proof fn lemma_latest_is_pushed(l: Seq<HistoryView>, entry: HistoryView, config: Config)
    requires
        config.max_history_entries >= 1,
        entry.changes.len() <= config.max_history_blocks,
    ensures
        pushed(l, entry, config).len() > 0,
        pushed(l, entry, config)[0] == entry,
{
    let full = seq![entry] + l;
    assert(full[0] == entry);
    assert(full.len() > 0);
    lemma_prune(full, config.max_history_entries as nat, config.max_history_blocks as nat);
    let r = pushed(l, entry, config);
    assert(r.len() > 0);
    assert(r == full.take(r.len() as int));
    assert(full.take(r.len() as int)[0] == full[0]);
}

} // verus!
