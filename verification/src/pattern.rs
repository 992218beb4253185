//! Block-state names, their FNV-1a keys, the table that resolves them, and
//! weighted block patterns (`50%dirt,50%grass_block`).

use vstd::prelude::*;
use vstd::utf8::encode_utf8;
use crate::geometry::BlockPos;
use crate::numbers::{
    fold_digits,
    int_error_message,
    int_error_text,
    is_digit,
    parse_unsigned,
    parse_unsigned_chars,
    IntErrorKind,
};
use crate::text::{
    chars_of,
    has_prefix,
    is_ws,
    trim_end,
    trim_start,
    push_all,
    push_str,
    split_chars,
    split_on,
    split_once,
    split_once_chars,
    string_of,
    strip_prefix_chars,
    strip_prefix_or_keep,
    trim,
    trim_chars,
};

verus! {

pub const FNV_OFFSET: u64 = 0xcbf29ce484222325;

pub const FNV_PRIME: u64 = 0x100000001b3;

/// One FNV-1a step.
pub open spec fn fnv_step(h: u64, b: u8) -> u64 {
    (h ^ (b as u64)).wrapping_mul(FNV_PRIME)
}

/// FNV-1a over `bytes`, starting from `h`.
pub open spec fn fnv_fold(h: u64, bytes: Seq<u8>) -> u64
    decreases bytes.len(),
{
    if bytes.len() == 0 {
        h
    } else {
        fnv_step(fnv_fold(h, bytes.drop_last()), bytes.last())
    }
}

/// The key of a block-state name: FNV-1a over its UTF-8 bytes.
pub open spec fn spec_block_state_key(name: Seq<char>) -> u64 {
    fnv_fold(FNV_OFFSET, encode_utf8(name))
}

fn fnv_bytes(start: u64, bytes: &[u8]) -> (h: u64)
    ensures
        h == fnv_fold(start, bytes@),
{
    let mut h = start;
    let mut i: usize = 0;
    while i < bytes.len()
        invariant
            i <= bytes@.len(),
            h == fnv_fold(start, bytes@.subrange(0, i as int)),
        decreases bytes@.len() - i,
    {
        assert(bytes@.subrange(0, i + 1).drop_last() =~= bytes@.subrange(0, i as int));
        h = (h ^ (bytes[i] as u64)).wrapping_mul(FNV_PRIME);
        i += 1;
    }
    assert(bytes@.subrange(0, bytes@.len() as int) =~= bytes@);
    h
}

/// The key under which a block-state name is stored.
pub fn block_state_key(input: &str) -> (k: u64)
    ensures
        k == spec_block_state_key(input@),
{
    fnv_bytes(FNV_OFFSET, input.as_bytes())
}

/// The `k`-th little-endian byte of `v`.
pub open spec fn le_byte(v: i32, k: nat) -> u8 {
    ((v as u32) >> (8 * k) as u32) as u8
}

pub open spec fn le_bytes(v: i32) -> Seq<u8> {
    seq![le_byte(v, 0), le_byte(v, 1), le_byte(v, 2), le_byte(v, 3)]
}

/// FNV-1a, seeded, over the little-endian bytes of x, y and z.
pub open spec fn spec_position_hash(pos: BlockPos, seed: u64) -> u64 {
    fnv_fold(FNV_OFFSET ^ seed, le_bytes(pos.x) + le_bytes(pos.y) + le_bytes(pos.z))
}

fn push_le_bytes(out: &mut Vec<u8>, v: i32)
    ensures
        final(out)@ == old(out)@ + le_bytes(v),
{
    let u = v as u32;
    out.push((u >> 0u32) as u8);
    out.push((u >> 8u32) as u8);
    out.push((u >> 16u32) as u8);
    out.push((u >> 24u32) as u8);
    assert(out@ =~= old(out)@ + le_bytes(v));
}

/// The hash that picks a pattern entry for a block.
pub fn position_hash(pos: BlockPos, seed: u64) -> (h: u64)
    ensures
        h == spec_position_hash(pos, seed),
{
    let mut bytes: Vec<u8> = Vec::new();
    push_le_bytes(&mut bytes, pos.x);
    push_le_bytes(&mut bytes, pos.y);
    push_le_bytes(&mut bytes, pos.z);
    assert(bytes@ =~= le_bytes(pos.x) + le_bytes(pos.y) + le_bytes(pos.z));
    fnv_bytes(FNV_OFFSET ^ seed, bytes.as_slice())
}

// ---------------------------------------------------------------------
// The table of known block states
// ---------------------------------------------------------------------

/// A named block state in the lookup table.
pub struct StateEntry {
    pub key: u64,
    pub name: String,
    pub state: u16,
}

/// The spec form of a table entry: key, name and state id.
pub open spec fn entry_view(e: StateEntry) -> (u64, Seq<char>, u16) {
    (e.key, e.name@, e.state)
}

/// Block-state names resolved by key, kept sorted by key with no key twice.
pub struct BlockStateTable {
    entries: Vec<StateEntry>,
}

pub open spec fn sorted_keys(s: Seq<(u64, Seq<char>, u16)>) -> bool {
    forall|i: int, j: int| 0 <= i < j < s.len() ==> s[i].0 < s[j].0
}

pub open spec fn keyed_by_name(s: Seq<(u64, Seq<char>, u16)>) -> bool {
    forall|i: int| 0 <= i < s.len() ==> (#[trigger] s[i]).0 == spec_block_state_key(s[i].1)
}

/// The entry stored under `key`, if any.
pub open spec fn table_find(s: Seq<(u64, Seq<char>, u16)>, key: u64) -> Option<(Seq<char>, u16)> {
    if exists|i: int| 0 <= i < s.len() && s[i].0 == key {
        let i = choose|i: int| 0 <= i < s.len() && s[i].0 == key;
        Some((s[i].1, s[i].2))
    } else {
        None
    }
}

impl View for BlockStateTable {
    type V = Seq<(u64, Seq<char>, u16)>;

    closed spec fn view(&self) -> Seq<(u64, Seq<char>, u16)> {
        self.entries@.map_values(|e: StateEntry| entry_view(e))
    }
}

impl BlockStateTable {
    #[verifier::type_invariant]
    closed spec fn well_formed(self) -> bool {
        &&& sorted_keys(self@)
        &&& keyed_by_name(self@)
    }

    /// The table is sorted by key and every key is its name's key.
    pub open spec fn wf(&self) -> bool {
        &&& sorted_keys(self@)
        &&& keyed_by_name(self@)
    }

    /// The state stored under `key`.
    pub open spec fn spec_get(&self, key: u64) -> Option<u16> {
        match table_find(self@, key) {
            Some(p) => Some(p.1),
            None => None,
        }
    }

    pub fn new() -> (t: BlockStateTable)
        ensures
            t@ == Seq::<(u64, Seq<char>, u16)>::empty(),
    {
        let t = BlockStateTable { entries: Vec::new() };
        assert(t@ =~= Seq::<(u64, Seq<char>, u16)>::empty());
        t
    }

    pub fn len(&self) -> (n: usize)
        ensures
            n == self@.len(),
    {
        self.entries.len()
    }

    /// The stored names, in key order.
    pub fn names(&self) -> (out: Vec<String>)
        ensures
            out@.len() == self@.len(),
            forall|i: int| 0 <= i < out@.len() ==> #[trigger] out@[i]@ == self@[i].1,
    {
        let mut out: Vec<String> = Vec::new();
        let mut i: usize = 0;
        while i < self.entries.len()
            invariant
                i <= self.entries@.len(),
                self@.len() == self.entries@.len(),
                out@.len() == i,
                forall|j: int| 0 <= j < i ==> #[trigger] out@[j]@ == self@[j].1,
            decreases self.entries@.len() - i,
        {
            let name = self.entries[i].name.clone();
            out.push(name);
            i += 1;
        }
        out
    }

    /// Binary search: `Ok(i)` when entry `i` has `key`, else `Err(i)` with
    /// `i` the place where `key` belongs.
    fn search(&self, key: u64) -> (r: Result<usize, usize>)
        ensures
            self.wf(),
            match r {
                Ok(i) => i < self@.len() && self@[i as int].0 == key,
                Err(i) => {
                    &&& i <= self@.len()
                    &&& forall|j: int| 0 <= j < i ==> self@[j].0 < key
                    &&& forall|j: int| i <= j < self@.len() ==> self@[j].0 > key
                },
            },
    {
        proof {
            use_type_invariant(self);
        }
        let mut lo: usize = 0;
        let mut hi: usize = self.entries.len();
        while lo < hi
            invariant
                self.wf(),
                self@.len() == self.entries@.len(),
                lo <= hi <= self@.len(),
                forall|j: int| 0 <= j < lo ==> self@[j].0 < key,
                forall|j: int| hi <= j < self@.len() ==> self@[j].0 > key,
            decreases hi - lo,
        {
            let mid = lo + (hi - lo) / 2;
            let k = self.entries[mid].key;
            assert(self@[mid as int].0 == k);
            if k == key {
                return Ok(mid);
            } else if k < key {
                lo = mid + 1;
            } else {
                hi = mid;
            }
        }
        Err(lo)
    }

    /// The state stored under `key`.
    pub fn get(&self, key: u64) -> (r: Option<u16>)
        ensures
            r == self.spec_get(key),
    {
        match self.search(key) {
            Ok(i) => {
                let s = self.entries[i].state;
                proof {
                    let c = choose|j: int| 0 <= j < self@.len() && self@[j].0 == key;
                    assert(c == i as int) by {
                        if c < i {
                            assert(self@[c].0 < self@[i as int].0);
                        } else if c > i {
                            assert(self@[i as int].0 < self@[c].0);
                        }
                    }
                }
                Some(s)
            },
            Err(_) => None,
        }
    }

    /// Adds a name under its key. A name already present is kept as it is;
    /// a different name with the same key is refused.
    pub fn insert_state(&mut self, name: &str, state_id: u16) -> (r: Result<(), String>)
        ensures
            match table_find(old(self)@, spec_block_state_key(name@)) {
                None => {
                    &&& r is Ok
                    &&& forall|k: u64| #[trigger]
                        table_find(final(self)@, k) == if k == spec_block_state_key(name@) {
                            Some((name@, state_id))
                        } else {
                            table_find(old(self)@, k)
                        }
                    &&& final(self)@.len() == old(self)@.len() + 1
                },
                Some(p) => {
                    &&& final(self)@ == old(self)@
                    &&& p.0 == name@ ==> r is Ok
                    &&& p.0 != name@ ==> (r matches Err(e) && e@ == "block state hash collision between `"@
                        + p.0 + "` and `"@ + name@ + "`"@)
                },
            },
    {
        proof {
            use_type_invariant(&*self);
        }
        let key = block_state_key(name);
        match self.search(key) {
            Ok(i) => {
                let existing = &self.entries[i].name;
                proof {
                    let c = choose|j: int| 0 <= j < self@.len() && self@[j].0 == key;
                    assert(c == i as int) by {
                        if c < i {
                            assert(self@[c].0 < self@[i as int].0);
                        } else if c > i {
                            assert(self@[i as int].0 < self@[c].0);
                        }
                    }
                    assert(self@[i as int].1 == existing@);
                }
                let ex = chars_of(existing.as_str());
                let nm = chars_of(name);
                if crate::text::chars_eq(ex.as_slice(), nm.as_slice()) {
                    Ok(())
                } else {
                    let mut msg: Vec<char> = Vec::new();
                    push_str(&mut msg, "block state hash collision between `");
                    push_all(&mut msg, ex.as_slice());
                    push_str(&mut msg, "` and `");
                    push_all(&mut msg, nm.as_slice());
                    push_str(&mut msg, "`");
                    Err(string_of(msg.as_slice()))
                }
            },
            Err(i) => {
                let ghost old_view = self@;
                let entry = StateEntry { key, name: name.to_owned(), state: state_id };
                let mut entries: Vec<StateEntry> = Vec::new();
                std::mem::swap(&mut entries, &mut self.entries);
                assert(entries@.map_values(|e: StateEntry| entry_view(e)) == old_view);
                entries.insert(i, entry);
                let ghost nv = entries@.map_values(|e: StateEntry| entry_view(e));
                proof {
                    assert(nv =~= old_view.insert(i as int, (key, name@, state_id)));
                    assert forall|k: u64| #[trigger]
                        table_find(nv, k) == if k == key {
                            Some((name@, state_id))
                        } else {
                            table_find(old_view, k)
                        } by {
                        if k == key {
                            assert(nv[i as int].0 == key);
                            let c = choose|j: int| 0 <= j < nv.len() && nv[j].0 == k;
                            assert(c == i as int) by {
                                if c < i {
                                    assert(nv[c] == old_view[c]);
                                } else if c > i {
                                    assert(nv[c] == old_view[c - 1]);
                                }
                            }
                        } else {
                            if exists|j: int| 0 <= j < old_view.len() && old_view[j].0 == k {
                                let c = choose|j: int| 0 <= j < old_view.len() && old_view[j].0 == k;
                                let d = if c < i { c } else { c + 1 };
                                assert(nv[d] == old_view[c]);
                                let e = choose|j: int| 0 <= j < nv.len() && nv[j].0 == k;
                                assert(e == d) by {
                                    if e != d {
                                        if e < i {
                                            assert(nv[e] == old_view[e]);
                                        } else if e > i {
                                            assert(nv[e] == old_view[e - 1]);
                                        }
                                    }
                                }
                            } else {
                                assert forall|j: int| 0 <= j < nv.len() implies nv[j].0 != k by {
                                    if j < i {
                                        assert(nv[j] == old_view[j]);
                                    } else if j > i {
                                        assert(nv[j] == old_view[j - 1]);
                                    }
                                }
                            }
                        }
                    }
                    assert(sorted_keys(nv)) by {
                        assert forall|a: int, b: int| 0 <= a < b < nv.len() implies nv[a].0
                            < nv[b].0 by {
                            if a < i && b < i {
                                assert(nv[a] == old_view[a] && nv[b] == old_view[b]);
                            } else if a < i && b == i {
                                assert(nv[a] == old_view[a]);
                            } else if a < i {
                                assert(nv[a] == old_view[a] && nv[b] == old_view[b - 1]);
                            } else if a == i {
                                assert(nv[b] == old_view[b - 1]);
                            } else {
                                assert(nv[a] == old_view[a - 1] && nv[b] == old_view[b - 1]);
                            }
                        }
                    }
                    assert(keyed_by_name(nv)) by {
                        assert forall|a: int| 0 <= a < nv.len() implies (#[trigger] nv[a]).0
                            == spec_block_state_key(nv[a].1) by {
                            if a < i {
                                assert(nv[a] == old_view[a]);
                            } else if a > i {
                                assert(nv[a] == old_view[a - 1]);
                            }
                        }
                    }
                }
                self.entries = entries;
                assert(self@ == nv);
                Ok(())
            },
        }
    }
}


// ---------------------------------------------------------------------
// Resolving one block state
// ---------------------------------------------------------------------

/// What `parse_block_state` gives for `input`: a numeric state id as it is,
/// else the state stored for the name (with an optional `minecraft:`).
pub open spec fn spec_parse_block_state(input: Seq<char>, table: Seq<(u64, Seq<char>, u16)>) -> Result<
    u16,
    Seq<char>,
> {
    let t = trim(input);
    match parse_unsigned(t, 65535) {
        Ok(v) => Ok(v as u16),
        Err(_) => {
            let name = strip_prefix_or_keep(t, "minecraft:"@);
            match table_find(table, spec_block_state_key(name)) {
                Some(p) => Ok(p.1),
                None => Err("unknown block state `"@ + input + "`"@),
            }
        },
    }
}

/// Resolves a block state given as characters.
pub fn parse_block_state_chars(input: &[char], table: &BlockStateTable) -> (r: Result<u16, String>)
    ensures
        match spec_parse_block_state(input@, table@) {
            Ok(v) => r == Ok::<u16, String>(v),
            Err(e) => r matches Err(m) && m@ == e,
        },
{
    let t = trim_chars(input);
    match parse_unsigned_chars(t.as_slice(), 65535) {
        Ok(v) => {
            return Ok(v as u16);
        },
        Err(_) => {},
    }
    let name = strip_prefix_chars(t.as_slice(), "minecraft:");
    let name_string = string_of(name.as_slice());
    let key = block_state_key(name_string.as_str());
    match table.get(key) {
        Some(state) => Ok(state),
        None => {
            let mut msg: Vec<char> = Vec::new();
            push_str(&mut msg, "unknown block state `");
            push_all(&mut msg, input);
            push_str(&mut msg, "`");
            Err(string_of(msg.as_slice()))
        },
    }
}

/// Resolves a block state: a numeric state id, or a block-state name such as
/// `stone`, `minecraft:stone` or `oak_log[axis=x]` looked up in `table`.
pub fn parse_block_state(input: &str, table: &BlockStateTable) -> (r: Result<u16, String>)
    ensures
        match spec_parse_block_state(input@, table@) {
            Ok(v) => r == Ok::<u16, String>(v),
            Err(e) => r matches Err(m) && m@ == e,
        },
{
    let cs = chars_of(input);
    parse_block_state_chars(cs.as_slice(), table)
}

// ---------------------------------------------------------------------
// Weighted patterns
// ---------------------------------------------------------------------

/// A block state with the relative weight of picking it.
#[derive(Clone, Copy, Debug, PartialEq, Eq, Structural)]
pub struct WeightedBlock {
    pub state: u16,
    pub weight: u32,
}

/// The sum of the weights.
pub open spec fn weight_sum(s: Seq<WeightedBlock>) -> nat
    decreases s.len(),
{
    if s.len() == 0 {
        0
    } else {
        s[0].weight as nat + weight_sum(s.drop_first())
    }
}

pub proof fn lemma_weight_sum_push(s: Seq<WeightedBlock>, b: WeightedBlock)
    ensures
        weight_sum(s.push(b)) == weight_sum(s) + b.weight,
    decreases s.len(),
{
    if s.len() > 0 {
        lemma_weight_sum_push(s.drop_first(), b);
        assert(s.push(b).drop_first() =~= s.drop_first().push(b));
    } else {
        assert(s.push(b).drop_first() =~= Seq::<WeightedBlock>::empty());
        assert(weight_sum(Seq::<WeightedBlock>::empty()) == 0);
    }
}

/// The entry whose share of `0 .. weight_sum(s)` holds `cursor`.
pub open spec fn pick(s: Seq<WeightedBlock>, cursor: int) -> Option<u16>
    decreases s.len(),
{
    if s.len() == 0 {
        None
    } else if cursor < s[0].weight {
        Some(s[0].state)
    } else {
        pick(s.drop_first(), cursor - s[0].weight)
    }
}

/// A cursor below the total weight always lands on one of the entries.
pub proof fn lemma_pick_member(s: Seq<WeightedBlock>, cursor: int)
    requires
        0 <= cursor < weight_sum(s),
    ensures
        pick(s, cursor) matches Some(st) && exists|i: int| 0 <= i < s.len() && s[i].state == st,
    decreases s.len(),
{
    if cursor >= s[0].weight {
        lemma_pick_member(s.drop_first(), cursor - s[0].weight);
        let st = pick(s, cursor)->0;
        let i = choose|i: int| 0 <= i < s.len() - 1 && s.drop_first()[i].state == st;
        assert(s[i + 1].state == st);
    } else {
        assert(s[0].state == pick(s, cursor)->0);
    }
}

/// Each entry's share of the cursor range is its own weight, after the
/// weights of the entries before it: a cursor in
/// `[weight_sum(s.take(i)), weight_sum(s.take(i)) + s[i].weight)` lands on entry `i`.
pub proof fn lemma_pick_interval(s: Seq<WeightedBlock>, i: int, cursor: int)
    requires
        0 <= i < s.len(),
        weight_sum(s.take(i)) <= cursor < weight_sum(s.take(i)) + s[i].weight,
    ensures
        pick(s, cursor) == Some(s[i].state),
    decreases i,
{
    if i > 0 {
        let t = s.take(i);
        assert(t.drop_first() =~= s.drop_first().take(i - 1));
        assert(t[0] == s[0]);
        assert(weight_sum(t) == s[0].weight + weight_sum(t.drop_first()));
        assert(s.drop_first()[i - 1] == s[i]);
        lemma_pick_interval(s.drop_first(), i - 1, cursor - s[0].weight);
    } else {
        assert(s.take(0) =~= Seq::<WeightedBlock>::empty());
        assert(weight_sum(s.take(0)) == 0);
    }
}

/// The state placed at a block is the entry whose share of the total weight
/// holds the block's position hash taken modulo the total: entry `i` is
/// placed exactly where that cursor falls in
/// `[weight_sum(s.take(i)), weight_sum(s.take(i)) + s[i].weight)`.
pub proof fn lemma_pick_state_share(s: Seq<WeightedBlock>, total: u32, pos: BlockPos, seed: u64, i: int)
    requires
        total > 0,
        total == weight_sum(s),
        0 <= i < s.len(),
        weight_sum(s.take(i)) <= spec_position_hash(pos, seed) % (total as u64) < weight_sum(
            s.take(i),
        ) + s[i].weight,
    ensures
        spec_pick_state(s, total, pos, seed) == s[i].state,
{
    lemma_pick_interval(s, i, (spec_position_hash(pos, seed) % (total as u64)) as int);
}

/// A weighted choice of block states.
pub struct BlockPattern {
    choices: Vec<WeightedBlock>,
    total_weight: u32,
}

impl View for BlockPattern {
    type V = Seq<WeightedBlock>;

    closed spec fn view(&self) -> Seq<WeightedBlock> {
        self.choices@
    }
}

/// The state a pattern with entries `s` and total weight `total` gives for a
/// block.
pub open spec fn spec_pick_state(s: Seq<WeightedBlock>, total: u32, pos: BlockPos, seed: u64) -> u16 {
    match pick(s, (spec_position_hash(pos, seed) % (total as u64)) as int) {
        Some(st) => st,
        None => if s.len() > 0 {
            s.last().state
        } else {
            0
        },
    }
}

impl BlockPattern {
    #[verifier::type_invariant]
    closed spec fn valid(self) -> bool {
        &&& self.choices@.len() > 0
        &&& forall|i: int| 0 <= i < self.choices@.len() ==> (#[trigger] self.choices@[i]).weight > 0
        &&& weight_sum(self.choices@) == self.total_weight
    }

    /// The sum of the weights.
    pub closed spec fn total(&self) -> u32 {
        self.total_weight
    }

    /// At least one entry, every weight positive, and the total is their sum.
    pub open spec fn wf(&self) -> bool {
        &&& self@.len() > 0
        &&& forall|i: int| 0 <= i < self@.len() ==> (#[trigger] self@[i]).weight > 0
        &&& weight_sum(self@) == self.total()
    }

    pub fn total_weight(&self) -> (t: u32)
        ensures
            t == self.total(),
            self.wf(),
    {
        proof {
            use_type_invariant(self);
        }
        self.total_weight
    }

    pub fn choice_count(&self) -> (n: usize)
        ensures
            n == self@.len(),
    {
        self.choices.len()
    }

    pub fn choice(&self, i: usize) -> (b: WeightedBlock)
        requires
            i < self@.len(),
        ensures
            b == self@[i as int],
    {
        self.choices[i]
    }

    /// A copy of the pattern.
    pub fn duplicate(&self) -> (p: BlockPattern)
        ensures
            p@ == self@,
            p.total() == self.total(),
    {
        proof {
            use_type_invariant(self);
        }
        let mut choices: Vec<WeightedBlock> = Vec::new();
        let mut i: usize = 0;
        while i < self.choices.len()
            invariant
                i <= self.choices@.len(),
                choices@ == self.choices@.subrange(0, i as int),
            decreases self.choices@.len() - i,
        {
            choices.push(self.choices[i]);
            i += 1;
        }
        assert(choices@ =~= self.choices@);
        BlockPattern { choices, total_weight: self.total_weight }
    }

    /// The state this pattern places at `pos`: the hash of the position
    /// (under `seed`) modulo the total weight picks an entry by weight.
    pub fn pick_state(&self, pos: BlockPos, seed: u64) -> (state: u16)
        ensures
            state == spec_pick_state(self@, self.total(), pos, seed),
            exists|i: int| 0 <= i < self@.len() && self@[i].state == state,
            self.wf(),
            forall|i: int|
                0 <= i < self@.len() && weight_sum(self@.take(i)) <= spec_position_hash(pos, seed)
                    % (self.total() as u64) < weight_sum(self@.take(i)) + self@[i].weight
                    ==> state == #[trigger] self@[i].state,
    {
        proof {
            use_type_invariant(self);
            assert forall|i: int|
                0 <= i < self@.len() && weight_sum(self@.take(i)) <= spec_position_hash(pos, seed)
                    % (self.total() as u64) < weight_sum(self@.take(i)) + self@[i].weight
                    implies spec_pick_state(self@, self.total(), pos, seed)
                    == #[trigger] self@[i].state by {
                lemma_pick_state_share(self@, self.total(), pos, seed, i);
            }
        }
        let ghost s = self.choices@;
        let ghost start = (spec_position_hash(pos, seed) % (self.total_weight as u64)) as int;
        let mut cursor = position_hash(pos, seed) % (self.total_weight as u64);
        proof {
            lemma_pick_member(s, start);
            assert(s.subrange(0, s.len() as int) =~= s);
        }
        let mut i: usize = 0;
        while i < self.choices.len()
            invariant
                s == self.choices@,
                i <= s.len(),
                pick(s, start) == pick(s.subrange(i as int, s.len() as int), cursor as int),
                pick(s, start) is Some,
                exists|j: int| 0 <= j < s.len() && s[j].state == pick(s, start)->0,
                start == (spec_position_hash(pos, seed) % (self.total() as u64)) as int,
                self.wf(),
                forall|k: int|
                    0 <= k < self@.len() && weight_sum(self@.take(k)) <= spec_position_hash(pos, seed)
                        % (self.total() as u64) < weight_sum(self@.take(k)) + self@[k].weight
                        ==> spec_pick_state(self@, self.total(), pos, seed)
                        == #[trigger] self@[k].state,
            decreases s.len() - i,
        {
            let choice = self.choices[i];
            let weight = choice.weight as u64;
            let ghost rest = s.subrange(i as int, s.len() as int);
            assert(rest.drop_first() =~= s.subrange(i + 1, s.len() as int));
            if cursor < weight {
                assert(rest[0] == choice);
                assert(pick(rest, cursor as int) == Some(choice.state));
                return choice.state;
            }
            cursor = cursor - weight;
            i += 1;
        }
        assert(false);
        self.choices[self.choices.len() - 1].state
    }
}

/// What `parse_weighted_block` gives for a trimmed entry: `weight%block` or a
/// bare block of weight 1.
pub open spec fn spec_parse_weighted(part: Seq<char>) -> Result<(u32, Seq<char>), Seq<char>> {
    match split_once(part, '%') {
        None => Ok((1, part)),
        Some(p) => {
            let wt = trim(p.0);
            match parse_unsigned(wt, 4294967295) {
                Err(e) => Err("invalid pattern weight `"@ + wt + "`: "@ + int_error_text(e)),
                Ok(n) => if n == 0 {
                    Err("pattern weights must be greater than 0"@)
                } else if trim(p.1).len() == 0 {
                    Err("missing block after pattern weight"@)
                } else {
                    Ok((n as u32, trim(p.1)))
                },
            }
        },
    }
}

/// Splits an entry into its weight and its block.
pub fn parse_weighted_block(input: &[char]) -> (r: Result<(u32, Vec<char>), String>)
    ensures
        match spec_parse_weighted(input@) {
            Ok(p) => r matches Ok(q) && q.0 == p.0 && q.1@ == p.1,
            Err(e) => r matches Err(m) && m@ == e,
        },
{
    match split_once_chars(input, '%') {
        None => Ok((1, crate::text::copy_range(input, 0, input.len()))),
        Some((w, b)) => {
            let wt = trim_chars(w.as_slice());
            match parse_unsigned_chars(wt.as_slice(), 4294967295) {
                Err(e) => {
                    let mut msg: Vec<char> = Vec::new();
                    push_str(&mut msg, "invalid pattern weight `");
                    push_all(&mut msg, wt.as_slice());
                    push_str(&mut msg, "`: ");
                    let et = int_error_message(e);
                    push_all(&mut msg, et.as_slice());
                    Err(string_of(msg.as_slice()))
                },
                Ok(n) => {
                    if n == 0 {
                        return Err("pattern weights must be greater than 0".to_owned());
                    }
                    let block = trim_chars(b.as_slice());
                    if block.len() == 0 {
                        return Err("missing block after pattern weight".to_owned());
                    }
                    Ok((n as u32, block))
                },
            }
        },
    }
}

/// Reads the comma-separated entries of a pattern, left to right.
pub open spec fn pattern_fold(parts: Seq<Seq<char>>, table: Seq<(u64, Seq<char>, u16)>) -> Result<
    (Seq<WeightedBlock>, nat),
    Seq<char>,
>
    decreases parts.len(),
{
    if parts.len() == 0 {
        Ok((Seq::<WeightedBlock>::empty(), 0))
    } else {
        match pattern_fold(parts.drop_last(), table) {
            Err(e) => Err(e),
            Ok(acc) => {
                let part = trim(parts.last());
                if part.len() == 0 {
                    Err("empty block in pattern"@)
                } else {
                    match spec_parse_weighted(part) {
                        Err(e) => Err(e),
                        Ok(wb) => match spec_parse_block_state(wb.1, table) {
                            Err(e) => Err(e),
                            Ok(st) => if acc.1 + wb.0 > u32::MAX {
                                Err("pattern weights are too large"@)
                            } else {
                                Ok(
                                    (
                                        acc.0.push(WeightedBlock { state: st, weight: wb.0 }),
                                        acc.1 + wb.0 as nat,
                                    ),
                                )
                            },
                        },
                    }
                }
            },
        }
    }
}

/// What `parse_block_pattern` gives: the entries and their total weight.
pub open spec fn spec_parse_block_pattern(input: Seq<char>, table: Seq<(u64, Seq<char>, u16)>) -> Result<
    (Seq<WeightedBlock>, nat),
    Seq<char>,
> {
    match pattern_fold(split_on(input, ','), table) {
        Err(e) => Err(e),
        Ok(acc) => if acc.0.len() == 0 {
            Err("empty block pattern"@)
        } else {
            Ok(acc)
        },
    }
}

proof fn lemma_fold_weights(parts: Seq<Seq<char>>, table: Seq<(u64, Seq<char>, u16)>)
    ensures
        pattern_fold(parts, table) matches Ok(acc) ==> {
            &&& weight_sum(acc.0) == acc.1
            &&& forall|i: int| 0 <= i < acc.0.len() ==> (#[trigger] acc.0[i]).weight > 0
            &&& acc.1 <= u32::MAX
        },
    decreases parts.len(),
{
    if parts.len() > 0 {
        lemma_fold_weights(parts.drop_last(), table);
        if let Ok(acc) = pattern_fold(parts.drop_last(), table) {
            let part = trim(parts.last());
            if let Ok(wb) = spec_parse_weighted(part) {
                if let Ok(st) = spec_parse_block_state(wb.1, table) {
                    lemma_weight_sum_push(acc.0, WeightedBlock { state: st, weight: wb.0 });
                }
            }
        }
    }
}

/// Parses a pattern such as `stone`, `50%dirt,50%grass_block` or
/// `3%stone, 1%minecraft:andesite`, resolving each block in `table`.
pub fn parse_block_pattern(input: &str, table: &BlockStateTable) -> (r: Result<BlockPattern, String>)
    ensures
        match spec_parse_block_pattern(input@, table@) {
            Ok(acc) => r matches Ok(p) && p@ == acc.0 && p.total() == acc.1,
            Err(e) => r matches Err(m) && m@ == e,
        },
{
    let cs = chars_of(input);
    let parts = split_chars(cs.as_slice(), ',');
    let ghost sparts = split_on(input@, ',');
    let mut choices: Vec<WeightedBlock> = Vec::new();
    let mut total_weight: u32 = 0;
    let mut i: usize = 0;
    assert(sparts.subrange(0, 0) =~= Seq::<Seq<char>>::empty());
    while i < parts.len()
        invariant
            sparts == split_on(input@, ','),
            parts@.len() == sparts.len(),
            forall|k: int| 0 <= k < parts@.len() ==> #[trigger] parts@[k]@ == sparts[k],
            i <= parts@.len(),
            pattern_fold(sparts.subrange(0, i as int), table@) == Ok::<
                (Seq<WeightedBlock>, nat),
                Seq<char>,
            >((choices@, total_weight as nat)),
        decreases parts@.len() - i,
    {
        assert(sparts.subrange(0, i + 1).drop_last() =~= sparts.subrange(0, i as int));
        assert(sparts.subrange(0, i + 1).last() == parts@[i as int]@);
        let part = trim_chars(parts[i].as_slice());
        if part.len() == 0 {
            proof {
                lemma_pattern_error_sticks(sparts, i as int + 1, table@);
            }
            return Err("empty block in pattern".to_owned());
        }
        let weighted = parse_weighted_block(part.as_slice());
        let (weight, block) = match weighted {
            Ok(wb) => wb,
            Err(e) => {
                proof {
                    lemma_pattern_error_sticks(sparts, i as int + 1, table@);
                }
                return Err(e);
            },
        };
        let state = match parse_block_state_chars(block.as_slice(), table) {
            Ok(st) => st,
            Err(e) => {
                proof {
                    lemma_pattern_error_sticks(sparts, i as int + 1, table@);
                }
                return Err(e);
            },
        };
        match total_weight.checked_add(weight) {
            Some(t) => {
                total_weight = t;
            },
            None => {
                proof {
                    lemma_pattern_error_sticks(sparts, i as int + 1, table@);
                }
                return Err("pattern weights are too large".to_owned());
            },
        }
        choices.push(WeightedBlock { state, weight });
        i += 1;
    }
    assert(sparts.subrange(0, sparts.len() as int) =~= sparts);
    if choices.len() == 0 {
        return Err("empty block pattern".to_owned());
    }
    proof {
        lemma_fold_weights(sparts, table@);
    }
    Ok(BlockPattern { choices, total_weight })
}

/// A pattern entry that fails makes the whole pattern fail with its error.
proof fn lemma_pattern_error_sticks(
    parts: Seq<Seq<char>>,
    j: int,
    table: Seq<(u64, Seq<char>, u16)>,
)
    requires
        0 <= j <= parts.len(),
        pattern_fold(parts.subrange(0, j), table) is Err,
    ensures
        pattern_fold(parts, table) == pattern_fold(parts.subrange(0, j), table),
    decreases parts.len() - j,
{
    if j < parts.len() {
        assert(parts.subrange(0, j + 1).drop_last() =~= parts.subrange(0, j));
        lemma_pattern_error_sticks(parts, j + 1, table);
    } else {
        assert(parts.subrange(0, j) =~= parts);
    }
}


// ---------------------------------------------------------------------
// Naming block states
// ---------------------------------------------------------------------

/// `key=value` pairs joined with commas.
pub open spec fn properties_text(props: Seq<(Seq<char>, Seq<char>)>) -> Seq<char>
    decreases props.len(),
{
    if props.len() == 0 {
        Seq::<char>::empty()
    } else if props.len() == 1 {
        props[0].0 + "="@ + props[0].1
    } else {
        properties_text(props.drop_last()) + ","@ + props.last().0 + "="@ + props.last().1
    }
}

pub open spec fn pair_views(props: Seq<(String, String)>) -> Seq<(Seq<char>, Seq<char>)> {
    props.map_values(|p: (String, String)| (p.0@, p.1@))
}

/// The name a block state is looked up by: the block's name followed by its
/// properties in brackets, as in `oak_log[axis=x]`.
pub open spec fn spec_state_name(block: Seq<char>, props: Seq<(Seq<char>, Seq<char>)>) -> Seq<char> {
    block + "["@ + properties_text(props) + "]"@
}

pub fn state_name(block: &str, properties: &[(String, String)]) -> (name: String)
    ensures
        name@ == spec_state_name(block@, pair_views(properties@)),
{
    let mut v: Vec<char> = Vec::new();
    push_str(&mut v, block);
    push_str(&mut v, "[");
    let ghost start = v@;
    let ghost ps = pair_views(properties@);
    let mut i: usize = 0;
    while i < properties.len()
        invariant
            i <= properties@.len(),
            ps == pair_views(properties@),
            v@ == start + properties_text(ps.take(i as int)),
        decreases properties@.len() - i,
    {
        if i > 0 {
            push_str(&mut v, ",");
        }
        push_str(&mut v, properties[i].0.as_str());
        push_str(&mut v, "=");
        push_str(&mut v, properties[i].1.as_str());
        proof {
            let t = ps.take(i as int + 1);
            assert(t.drop_last() =~= ps.take(i as int));
            assert(t.last() == (properties@[i as int].0@, properties@[i as int].1@));
            if i == 0 {
                assert(ps.take(0) =~= Seq::<(Seq<char>, Seq<char>)>::empty());
            }
            assert(v@ =~= start + properties_text(t));
        }
        i += 1;
    }
    assert(ps.take(properties@.len() as int) =~= ps);
    push_str(&mut v, "]");
    assert(v@ =~= spec_state_name(block@, ps));
    string_of(v.as_slice())
}


proof fn lemma_fold_ok_digits(s: Seq<char>, bound: nat)
    requires
        fold_digits(s, bound) is Ok,
    ensures
        forall|i: int| 0 <= i < s.len() ==> is_digit(#[trigger] s[i]),
    decreases s.len(),
{
    if s.len() > 0 {
        lemma_fold_ok_digits(s.drop_last(), bound);
        assert forall|i: int| 0 <= i < s.len() implies is_digit(#[trigger] s[i]) by {
            if i < s.len() - 1 {
                assert(s[i] == s.drop_last()[i]);
            }
        }
    }
}

/// The `minecraft:` namespace is optional: a block name resolves to the same
/// state with or without it.
pub proof fn lemma_namespace_optional(name: Seq<char>, table: Seq<(u64, Seq<char>, u16)>)
    requires
        name.len() > 0,
        !is_ws(name[0]),
        !is_ws(name.last()),
        !has_prefix(name, "minecraft:"@),
        parse_unsigned(name, 65535) is Err,
    ensures
        spec_parse_block_state("minecraft:"@ + name, table) is Ok <==> spec_parse_block_state(
            name,
            table,
        ) is Ok,
        spec_parse_block_state(name, table) is Ok ==> spec_parse_block_state(
            "minecraft:"@ + name,
            table,
        ) == spec_parse_block_state(name, table),
{
    reveal_strlit("minecraft:");
    let full = "minecraft:"@ + name;
    assert(full[0] == 'm');
    assert(full.last() == name.last());
    assert(trim_start(full) == full);
    assert(trim_end(full) == full);
    assert(trim(full) == full);
    assert(trim_start(name) == name);
    assert(trim_end(name) == name);
    assert(trim(name) == name);
    if parse_unsigned(full, 65535) is Ok {
        lemma_fold_ok_digits(full, 65535);
        assert(is_digit(full[0]));
        assert(false);
    }
    assert(full.subrange(0, 10) =~= "minecraft:"@);
    assert(full.subrange(10, full.len() as int) =~= name);
    assert(strip_prefix_or_keep(full, "minecraft:"@) == name);
    assert(strip_prefix_or_keep(name, "minecraft:"@) == name);
}

} // verus!
