//! Block positions, two-corner selections, and the cuboids they span: the
//! order in which a cuboid is walked and the blocks on its vertical faces.

use vstd::prelude::*;
use vstd::arithmetic::div_mod::{
    lemma_fundamental_div_mod,
    lemma_fundamental_div_mod_converse,
    lemma_mod_pos_bound,
    lemma_div_pos_is_pos,
};

verus! {

/// A block position in a world.
#[derive(Clone, Copy, Debug, PartialEq, Eq, Hash, Structural)]
pub struct BlockPos {
    pub x: i32,
    pub y: i32,
    pub z: i32,
}

/// A player's two selection corners; either may still be unset.
#[derive(Clone, Copy, Debug, Default, PartialEq, Eq)]
pub struct Selection {
    pub pos1: Option<BlockPos>,
    pub pos2: Option<BlockPos>,
}

/// An axis-aligned box of blocks, stored by its least and greatest corner.
#[derive(Clone, Copy, Debug, PartialEq, Eq, Structural)]
pub struct Cuboid {
    min: BlockPos,
    max: BlockPos,
}

pub open spec fn min_i32(a: i32, b: i32) -> i32 {
    if a <= b {
        a
    } else {
        b
    }
}

pub open spec fn max_i32(a: i32, b: i32) -> i32 {
    if a >= b {
        a
    } else {
        b
    }
}

impl Selection {
    /// The cuboid spanned by both corners, once both are set.
    pub open spec fn spec_cuboid(self) -> Option<Cuboid> {
        match (self.pos1, self.pos2) {
            (Some(a), Some(b)) => Some(Cuboid::spec_new(a, b)),
            _ => None,
        }
    }

    pub fn cuboid(self) -> (r: Option<Cuboid>)
        ensures
            r == self.spec_cuboid(),
    {
        match (self.pos1, self.pos2) {
            (Some(a), Some(b)) => Some(Cuboid::new(a, b)),
            _ => None,
        }
    }
}

impl Cuboid {
    #[verifier::type_invariant]
    closed spec fn ordered(self) -> bool {
        &&& self.min.x <= self.max.x
        &&& self.min.y <= self.max.y
        &&& self.min.z <= self.max.z
    }

    /// The least corner.
    pub closed spec fn lo(self) -> BlockPos {
        self.min
    }

    /// The greatest corner.
    pub closed spec fn hi(self) -> BlockPos {
        self.max
    }

    /// The cuboid with corners `a` and `b`, whatever their order.
    pub closed spec fn spec_new(a: BlockPos, b: BlockPos) -> Cuboid {
        Cuboid {
            min: BlockPos { x: min_i32(a.x, b.x), y: min_i32(a.y, b.y), z: min_i32(a.z, b.z) },
            max: BlockPos { x: max_i32(a.x, b.x), y: max_i32(a.y, b.y), z: max_i32(a.z, b.z) },
        }
    }

    pub proof fn lemma_spec_new(a: BlockPos, b: BlockPos)
        ensures
            Cuboid::spec_new(a, b).lo() == (BlockPos {
                x: min_i32(a.x, b.x),
                y: min_i32(a.y, b.y),
                z: min_i32(a.z, b.z),
            }),
            Cuboid::spec_new(a, b).hi() == (BlockPos {
                x: max_i32(a.x, b.x),
                y: max_i32(a.y, b.y),
                z: max_i32(a.z, b.z),
            }),
            Cuboid::spec_new(a, b).wf(),
    {
    }

    /// A cuboid is determined by its corners.
    pub proof fn lemma_corners_determine(c: Cuboid, d: Cuboid)
        requires
            c.lo() == d.lo(),
            c.hi() == d.hi(),
        ensures
            c == d,
    {
    }

    /// The order in which the two corners are given does not matter.
    pub proof fn lemma_spec_new_symmetric(a: BlockPos, b: BlockPos)
        ensures
            Cuboid::spec_new(a, b) == Cuboid::spec_new(b, a),
    {
    }

    /// The corners are ordered on every axis.
    pub open spec fn wf(self) -> bool {
        &&& self.lo().x <= self.hi().x
        &&& self.lo().y <= self.hi().y
        &&& self.lo().z <= self.hi().z
    }

    pub open spec fn size_x(self) -> int {
        self.hi().x - self.lo().x + 1
    }

    pub open spec fn size_y(self) -> int {
        self.hi().y - self.lo().y + 1
    }

    pub open spec fn size_z(self) -> int {
        self.hi().z - self.lo().z + 1
    }

    /// The number of blocks in the cuboid.
    pub open spec fn spec_volume(self) -> int {
        self.size_x() * self.size_y() * self.size_z()
    }

    /// Whether `volume` can compute the volume: each edge length fits an
    /// `i32` and the product fits a `u64`.
    pub open spec fn volume_fits(self) -> bool {
        &&& self.size_x() <= i32::MAX
        &&& self.size_y() <= i32::MAX
        &&& self.size_z() <= i32::MAX
        &&& self.spec_volume() <= u64::MAX
    }

    pub open spec fn contains(self, p: BlockPos) -> bool {
        &&& self.lo().x <= p.x <= self.hi().x
        &&& self.lo().y <= p.y <= self.hi().y
        &&& self.lo().z <= p.z <= self.hi().z
    }

    /// The `i`-th block in walking order: x fastest, then z, then y.
    pub open spec fn nth(self, i: int) -> BlockPos {
        BlockPos {
            x: (self.lo().x + i % self.size_x()) as i32,
            y: (self.lo().y + (i / self.size_x()) / self.size_z()) as i32,
            z: (self.lo().z + (i / self.size_x()) % self.size_z()) as i32,
        }
    }

    /// The place of `p` in walking order.
    pub open spec fn index_of(self, p: BlockPos) -> int {
        (p.x - self.lo().x) + self.size_x() * ((p.z - self.lo().z) + self.size_z() * (p.y
            - self.lo().y))
    }

    /// Every block of the cuboid, in walking order.
    pub open spec fn positions(self) -> Seq<BlockPos> {
        Seq::new(self.spec_volume() as nat, |i: int| self.nth(i))
    }

    /// Whether `p` lies on one of the four vertical faces.
    pub open spec fn is_wall(self, p: BlockPos) -> bool {
        p.x == self.lo().x || p.x == self.hi().x || p.z == self.lo().z || p.z == self.hi().z
    }

    /// `is_wall` as a predicate value.
    pub open spec fn wall_pred(self) -> spec_fn(BlockPos) -> bool {
        |p: BlockPos| self.is_wall(p)
    }

    /// The blocks on the vertical faces, in walking order.
    pub open spec fn wall_seq(self) -> Seq<BlockPos> {
        self.positions().filter(self.wall_pred())
    }

    /// The cuboid moved by `offset`, when every corner coordinate stays an `i32`.
    pub open spec fn spec_translated(self, offset: BlockPos) -> Option<Cuboid> {
        let lo = self.lo();
        let hi = self.hi();
        if i32::MIN <= lo.x + offset.x <= i32::MAX && i32::MIN <= lo.y + offset.y <= i32::MAX
            && i32::MIN <= lo.z + offset.z <= i32::MAX && i32::MIN <= hi.x + offset.x
            <= i32::MAX && i32::MIN <= hi.y + offset.y <= i32::MAX && i32::MIN <= hi.z
            + offset.z <= i32::MAX {
            Some(
                Cuboid::spec_new(
                    BlockPos {
                        x: (lo.x + offset.x) as i32,
                        y: (lo.y + offset.y) as i32,
                        z: (lo.z + offset.z) as i32,
                    },
                    BlockPos {
                        x: (hi.x + offset.x) as i32,
                        y: (hi.y + offset.y) as i32,
                        z: (hi.z + offset.z) as i32,
                    },
                ),
            )
        } else {
            None
        }
    }

    /// The cuboid with corners `a` and `b`.
    pub fn new(a: BlockPos, b: BlockPos) -> (c: Cuboid)
        ensures
            c == Cuboid::spec_new(a, b),
            c == Cuboid::spec_new(b, a),
            c.lo() == (BlockPos {
                x: min_i32(a.x, b.x),
                y: min_i32(a.y, b.y),
                z: min_i32(a.z, b.z),
            }),
            c.hi() == (BlockPos {
                x: max_i32(a.x, b.x),
                y: max_i32(a.y, b.y),
                z: max_i32(a.z, b.z),
            }),
            c.wf(),
    {
        Cuboid {
            min: BlockPos {
                x: if a.x <= b.x {
                    a.x
                } else {
                    b.x
                },
                y: if a.y <= b.y {
                    a.y
                } else {
                    b.y
                },
                z: if a.z <= b.z {
                    a.z
                } else {
                    b.z
                },
            },
            max: BlockPos {
                x: if a.x >= b.x {
                    a.x
                } else {
                    b.x
                },
                y: if a.y >= b.y {
                    a.y
                } else {
                    b.y
                },
                z: if a.z >= b.z {
                    a.z
                } else {
                    b.z
                },
            },
        }
    }

    /// The least corner.
    pub fn min_corner(self) -> (p: BlockPos)
        ensures
            p == self.lo(),
            self.wf(),
    {
        proof {
            use_type_invariant(&self);
        }
        self.min
    }

    /// The greatest corner.
    pub fn max_corner(self) -> (p: BlockPos)
        ensures
            p == self.hi(),
            self.wf(),
    {
        proof {
            use_type_invariant(&self);
        }
        self.max
    }

    /// The number of blocks, or `None` when `volume` cannot compute it.
    pub fn checked_volume(self) -> (r: Option<u64>)
        ensures
            self.wf(),
            r == (if self.volume_fits() {
                Some(self.spec_volume() as u64)
            } else {
                None
            }),
    {
        proof {
            use_type_invariant(&self);
        }
        let x = self.max.x as i64 - self.min.x as i64 + 1;
        let y = self.max.y as i64 - self.min.y as i64 + 1;
        let z = self.max.z as i64 - self.min.z as i64 + 1;
        if x > i32::MAX as i64 || y > i32::MAX as i64 || z > i32::MAX as i64 {
            return None;
        }
        let xu = x as u128;
        let yu = y as u128;
        let zu = z as u128;
        assert(xu * yu <= 0x4000_0000_0000_0000) by (nonlinear_arith)
            requires
                1 <= xu <= 0x8000_0000,
                1 <= yu <= 0x8000_0000,
        ;
        let xy = xu * yu;
        assert(xy * zu <= 0x2000_0000_0000_0000_0000_0000) by (nonlinear_arith)
            requires
                xy <= 0x4000_0000_0000_0000,
                1 <= zu <= 0x8000_0000,
        ;
        let xyz = xy * zu;
        assert(xyz == self.spec_volume());
        if xyz > u64::MAX as u128 {
            None
        } else {
            Some(xyz as u64)
        }
    }

    /// The number of blocks in the cuboid.
    pub fn volume(self) -> (v: u64)
        requires
            self.volume_fits(),
        ensures
            v == self.spec_volume(),
    {
        proof {
            use_type_invariant(&self);
        }
        let x = (self.max.x - self.min.x + 1) as u64;
        let y = (self.max.y - self.min.y + 1) as u64;
        let z = (self.max.z - self.min.z + 1) as u64;
        assert(x * y <= x * y * z) by (nonlinear_arith)
            requires
                z >= 1,
                x >= 1,
                y >= 1,
        ;
        x * y * z
    }

    /// The cuboid moved by `offset`, or `None` when a corner would leave the
    /// `i32` range.
    pub fn translated(self, offset: BlockPos) -> (r: Option<Cuboid>)
        ensures
            r == self.spec_translated(offset),
    {
        let lx = self.min.x.checked_add(offset.x);
        let ly = self.min.y.checked_add(offset.y);
        let lz = self.min.z.checked_add(offset.z);
        let hx = self.max.x.checked_add(offset.x);
        let hy = self.max.y.checked_add(offset.y);
        let hz = self.max.z.checked_add(offset.z);
        match (lx, ly, lz, hx, hy, hz) {
            (Some(lx), Some(ly), Some(lz), Some(hx), Some(hy), Some(hz)) => Some(
                Cuboid::new(BlockPos { x: lx, y: ly, z: lz }, BlockPos { x: hx, y: hy, z: hz }),
            ),
            _ => None,
        }
    }
}


/// Walking-order index arithmetic: index `i` and the block `nth(i)` name
/// each other.
impl Cuboid {
    pub proof fn lemma_volume_positive(self)
        requires
            self.wf(),
        ensures
            self.spec_volume() >= 1,
    {
        let sx = self.size_x();
        let sy = self.size_y();
        let sz = self.size_z();
        assert(sx * sy * sz >= 1) by (nonlinear_arith)
            requires
                sx >= 1,
                sy >= 1,
                sz >= 1,
        ;
    }

    pub proof fn lemma_nth_index(self, i: int)
        requires
            self.wf(),
            0 <= i < self.spec_volume(),
        ensures
            self.contains(self.nth(i)),
            self.index_of(self.nth(i)) == i,
    {
        let sx = self.size_x();
        let sy = self.size_y();
        let sz = self.size_z();
        let a = i % sx;
        let q = i / sx;
        let b = q % sz;
        let c = q / sz;
        lemma_fundamental_div_mod(i, sx);
        lemma_mod_pos_bound(i, sx);
        lemma_div_pos_is_pos(i, sx);
        lemma_fundamental_div_mod(q, sz);
        lemma_mod_pos_bound(q, sz);
        lemma_div_pos_is_pos(q, sz);
        assert(q < sy * sz) by (nonlinear_arith)
            requires
                i == sx * q + a,
                0 <= a,
                i < sx * sy * sz,
                sx >= 1,
        ;
        assert(c < sy) by (nonlinear_arith)
            requires
                q == sz * c + b,
                0 <= b,
                q < sy * sz,
                sz >= 1,
        ;
        assert(self.index_of(self.nth(i)) == a + sx * (b + sz * c));
        assert(a + sx * (b + sz * c) == i) by (nonlinear_arith)
            requires
                i == sx * q + a,
                q == sz * c + b,
        ;
    }

    pub proof fn lemma_index_nth(self, p: BlockPos)
        requires
            self.wf(),
            self.contains(p),
        ensures
            0 <= self.index_of(p) < self.spec_volume(),
            self.nth(self.index_of(p)) == p,
    {
        let sx = self.size_x();
        let sy = self.size_y();
        let sz = self.size_z();
        let a = p.x - self.lo().x;
        let b = p.z - self.lo().z;
        let c = p.y - self.lo().y;
        let q = b + sz * c;
        let i = a + sx * q;
        assert(i == sx * q + a) by (nonlinear_arith)
            requires
                i == a + sx * q,
        ;
        assert(q >= 0) by (nonlinear_arith)
            requires
                q == b + sz * c,
                b >= 0,
                c >= 0,
                sz >= 1,
        ;
        lemma_fundamental_div_mod_converse(i, sx, q, a);
        lemma_fundamental_div_mod_converse(q, sz, c, b);
        assert(0 <= i) by (nonlinear_arith)
            requires
                i == sx * q + a,
                q >= 0,
                a >= 0,
                sx >= 1,
        ;
        assert(i < sx * sy * sz) by (nonlinear_arith)
            requires
                i == sx * q + a,
                q == sz * c + b,
                0 <= a < sx,
                0 <= b < sz,
                0 <= c < sy,
        ;
    }

    /// Different indices name different blocks.
    pub proof fn lemma_nth_injective(self, i: int, j: int)
        requires
            self.wf(),
            0 <= i < self.spec_volume(),
            0 <= j < self.spec_volume(),
            i != j,
        ensures
            self.nth(i) != self.nth(j),
    {
        self.lemma_nth_index(i);
        self.lemma_nth_index(j);
    }

    /// `positions` lists every block of the cuboid exactly once.
    pub proof fn lemma_positions(self)
        requires
            self.wf(),
        ensures
            self.positions().no_duplicates(),
            forall|p: BlockPos| #[trigger] self.positions().contains(p) <==> self.contains(p),
    {
        assert forall|i: int, j: int|
            0 <= i < self.positions().len() && 0 <= j < self.positions().len() && i != j implies
            self.positions()[i] != self.positions()[j] by {
            self.lemma_nth_injective(i, j);
        }
        assert forall|p: BlockPos| #[trigger] self.positions().contains(p) <==> self.contains(p) by {
            if self.contains(p) {
                self.lemma_index_nth(p);
                assert(self.positions()[self.index_of(p)] == p);
            }
            if self.positions().contains(p) {
                let i = choose|i: int| 0 <= i < self.positions().len() && self.positions()[i] == p;
                self.lemma_nth_index(i);
            }
        }
    }

    /// The spec of one step of the walk: the block after `cur`, or `None`
    /// after the last block.
    pub open spec fn spec_advance(self, cur: BlockPos) -> Option<BlockPos> {
        if cur.x < self.hi().x {
            Some(BlockPos { x: (cur.x + 1) as i32, ..cur })
        } else if cur.z < self.hi().z {
            Some(BlockPos { x: self.lo().x, z: (cur.z + 1) as i32, ..cur })
        } else if cur.y < self.hi().y {
            Some(BlockPos { x: self.lo().x, y: (cur.y + 1) as i32, z: self.lo().z })
        } else {
            None
        }
    }

    /// A step of the walk moves from index `k` to index `k + 1`.
    pub proof fn lemma_advance_index(self, cur: BlockPos)
        requires
            self.wf(),
            self.contains(cur),
        ensures
            match self.spec_advance(cur) {
                Some(n) => {
                    &&& self.contains(n)
                    &&& self.index_of(cur) + 1 < self.spec_volume()
                    &&& n == self.nth(self.index_of(cur) + 1)
                },
                None => self.index_of(cur) + 1 == self.spec_volume(),
            },
    {
        let sx = self.size_x();
        let sy = self.size_y();
        let sz = self.size_z();
        let a = cur.x - self.lo().x;
        let b = cur.z - self.lo().z;
        let c = cur.y - self.lo().y;
        self.lemma_index_nth(cur);
        match self.spec_advance(cur) {
            Some(n) => {
                if cur.x < self.hi().x {
                    assert(self.index_of(n) == self.index_of(cur) + 1);
                } else if cur.z < self.hi().z {
                    assert(a == sx - 1);
                    assert(sx * ((b + 1) + sz * c) == (sx - 1 + sx * (b + sz * c)) + 1)
                        by (nonlinear_arith)
                        requires
                            a == sx - 1,
                    ;
                    assert(self.index_of(n) == self.index_of(cur) + 1);
                } else {
                    assert(a == sx - 1 && b == sz - 1);
                    assert(sx * (0 + sz * (c + 1)) == (sx - 1 + sx * (sz - 1 + sz * c)) + 1)
                        by (nonlinear_arith)
                    ;
                    assert(self.index_of(n) == self.index_of(cur) + 1);
                }
                self.lemma_index_nth(n);
            },
            None => {
                assert(a == sx - 1 && b == sz - 1 && c == sy - 1);
                assert(sx - 1 + sx * (sz - 1 + sz * (sy - 1)) + 1 == sx * sy * sz)
                    by (nonlinear_arith)
                ;
            },
        }
    }

    /// The first block of the walk is the least corner.
    pub proof fn lemma_lo_first(self)
        requires
            self.wf(),
        ensures
            self.index_of(self.lo()) == 0,
            self.contains(self.lo()),
    {
        let sx = self.size_x();
        let sz = self.size_z();
        assert(sx * (0 + sz * 0) == 0) by (nonlinear_arith);
    }
}

/// The next block after `current` in walking order (x fastest, then z,
/// then y), or `None` after the greatest corner.
pub fn advance_position(cuboid: Cuboid, current: BlockPos) -> (r: Option<BlockPos>)
    requires
        cuboid.contains(current),
    ensures
        r == cuboid.spec_advance(current),
{
    proof {
        use_type_invariant(&cuboid);
    }
    if current.x < cuboid.max.x {
        return Some(BlockPos { x: current.x + 1, ..current });
    }
    if current.z < cuboid.max.z {
        return Some(BlockPos { x: cuboid.min.x, z: current.z + 1, ..current });
    }
    if current.y < cuboid.max.y {
        return Some(BlockPos { x: cuboid.min.x, y: current.y + 1, z: cuboid.min.z });
    }
    None
}

/// A walk over the blocks of a cuboid.
pub struct CuboidIter {
    cuboid: Cuboid,
    next: Option<BlockPos>,
}

impl CuboidIter {
    #[verifier::type_invariant]
    closed spec fn inside(self) -> bool {
        match self.next {
            Some(p) => self.cuboid.contains(p),
            None => true,
        }
    }

    /// The cuboid being walked.
    pub closed spec fn source(self) -> Cuboid {
        self.cuboid
    }

    /// The blocks the walk has still to give, in order.
    pub closed spec fn remaining(self) -> Seq<BlockPos> {
        match self.next {
            Some(p) => self.cuboid.positions().subrange(
                self.cuboid.index_of(p),
                self.cuboid.spec_volume(),
            ),
            None => Seq::<BlockPos>::empty(),
        }
    }

    /// Gives the next block of the walk.
    pub fn next(&mut self) -> (r: Option<BlockPos>)
        ensures
            final(self).source() == old(self).source(),
            old(self).remaining().len() > 0 ==> {
                &&& r == Some(old(self).remaining()[0])
                &&& final(self).remaining() == old(self).remaining().drop_first()
            },
            old(self).remaining().len() == 0 ==> {
                &&& r is None
                &&& final(self).remaining() == old(self).remaining()
            },
    {
        proof {
            use_type_invariant(&*self);
            use_type_invariant(&self.cuboid);
        }
        match self.next {
            None => {
                assert(old(self).remaining().len() == 0);
                None
            },
            Some(current) => {
                let c = self.cuboid;
                proof {
                    c.lemma_index_nth(current);
                    c.lemma_advance_index(current);
                }
                let following = advance_position(c, current);
                self.next = following;
                assert(self.cuboid == c);
                proof {
                    let k = c.index_of(current);
                    let v = c.spec_volume();
                    let old_rem = c.positions().subrange(k, v);
                    assert(old_rem[0] == current);
                    match following {
                        Some(n) => {
                            c.lemma_index_nth(n);
                            c.lemma_nth_index(k + 1);
                            assert(c.positions().subrange(k + 1, v) =~= old_rem.drop_first());
                        },
                        None => {
                            assert(old_rem.drop_first() =~= Seq::<BlockPos>::empty());
                        },
                    }
                }
                Some(current)
            },
        }
    }
}

/// Facts about filtering a sequence without duplicates.
pub proof fn lemma_filter_no_duplicates<A>(s: Seq<A>, pred: spec_fn(A) -> bool)
    requires
        s.no_duplicates(),
    ensures
        s.filter(pred).no_duplicates(),
    decreases s.len(),
{
    reveal(Seq::filter);
    if s.len() > 0 {
        let rest = s.drop_last();
        assert(rest.no_duplicates());
        lemma_filter_no_duplicates(rest, pred);
        if pred(s.last()) {
            if rest.filter(pred).contains(s.last()) {
                rest.lemma_filter_contains_rev(pred, s.last());
                let i = choose|i: int| 0 <= i < rest.len() && rest[i] == s.last();
                assert(s[i] == s[s.len() - 1]);
            }
        }
    }
}

impl Cuboid {
    /// Starts a walk over the cuboid.
    pub fn iter(self) -> (it: CuboidIter)
        ensures
            it.source() == self,
            it.remaining() == self.positions(),
    {
        proof {
            use_type_invariant(&self);
            self.lemma_volume_positive();
            self.lemma_lo_first();
            assert(self.positions().subrange(0, self.spec_volume()) =~= self.positions());
        }
        CuboidIter { cuboid: self, next: Some(self.min) }
    }

    /// The blocks on the four vertical faces, in walking order.
    pub fn wall_positions(self) -> (out: Vec<BlockPos>)
        ensures
            out@ == self.wall_seq(),
    {
        proof {
            use_type_invariant(&self);
        }
        let ghost pred = self.wall_pred();
        let ghost all = self.positions();
        let mut it = self.iter();
        let mut out: Vec<BlockPos> = Vec::new();
        let ghost mut k: int = 0;
        loop
            invariant
                pred == self.wall_pred(),
                all == self.positions(),
                0 <= k <= all.len(),
                it.source() == self,
                it.remaining() == all.subrange(k, all.len() as int),
                out@ == all.subrange(0, k).filter(pred),
            ensures
                out@ == self.wall_seq(),
            decreases all.len() - k,
        {
            let next = it.next();
            match next {
                None => {
                    assert(k == all.len());
                    assert(all.subrange(0, k) =~= all);
                    assert(out@ == all.filter(pred));
                    break;
                },
                Some(p) => {
                    proof {
                        assert(p == all[k]);
                        assert(all.subrange(0, k + 1) =~= all.subrange(0, k).push(p));
                        all.subrange(0, k).lemma_filter_push(p, pred);
                        assert(all.subrange(k, all.len() as int).drop_first() =~= all.subrange(
                            k + 1,
                            all.len() as int,
                        ));
                    }
                    let ghost before = out@;
                    if p.x == self.min.x || p.x == self.max.x || p.z == self.min.z || p.z
                        == self.max.z {
                        out.push(p);
                        assert(pred(p));
                        assert(out@ == before.push(p));
                    } else {
                        assert(!pred(p));
                    }
                    assert(out@ == all.subrange(0, k + 1).filter(pred));
                    proof {
                        k = k + 1;
                    }
                },
            }
        }
        out
    }

    /// The number of blocks on the four vertical faces.
    pub fn wall_volume(self) -> (v: u64)
        ensures
            v == self.wall_seq().len(),
    {
        let walls = self.wall_positions();
        walls.len() as u64
    }

    /// The wall blocks are exactly the blocks of the cuboid that lie on a
    /// vertical face, each listed once.
    pub proof fn lemma_walls(self)
        requires
            self.wf(),
        ensures
            self.wall_seq().no_duplicates(),
            forall|p: BlockPos| #[trigger]
                self.wall_seq().contains(p) <==> (self.contains(p) && self.is_wall(p)),
    {
        let pred = self.wall_pred();
        self.lemma_positions();
        lemma_filter_no_duplicates(self.positions(), pred);
        assert forall|p: BlockPos| #[trigger]
            self.wall_seq().contains(p) <==> (self.contains(p) && self.is_wall(p)) by {
            if self.wall_seq().contains(p) {
                self.positions().lemma_filter_contains_rev(pred, p);
                let i = choose|i: int| 0 <= i < self.wall_seq().len() && self.wall_seq()[i] == p;
                self.positions().lemma_filter_pred(pred, i);
            }
            if self.contains(p) && self.is_wall(p) {
                self.lemma_index_nth(p);
                let i = self.index_of(p);
                assert(self.positions()[i] == p);
                self.positions().lemma_filter_contains(pred, i);
            }
        }
    }
}

/// The position of a block inside its 16 x 16 chunk column.
pub open spec fn spec_local_chunk_pos(pos: BlockPos) -> BlockPos {
    BlockPos { x: (pos.x % 16) as i32, y: pos.y, z: (pos.z % 16) as i32 }
}

/// The index of the chunk column holding a block coordinate.
pub open spec fn spec_chunk_index(v: i32) -> int {
    v / 16
}

fn floor_mod_16(v: i32) -> (r: i32)
    ensures
        r == v % 16,
        0 <= r < 16,
{
    let r = ((v as i64 % 16) + 16) % 16;
    r as i32
}

/// The position of a block inside its chunk column (x and z taken modulo 16,
/// rounding toward negative infinity).
pub fn local_chunk_pos(pos: BlockPos) -> (r: BlockPos)
    ensures
        r == spec_local_chunk_pos(pos),
{
    BlockPos { x: floor_mod_16(pos.x), y: pos.y, z: floor_mod_16(pos.z) }
}

/// The chunk column index of a block coordinate (division by 16 rounding
/// toward negative infinity).
pub fn chunk_index(v: i32) -> (r: i32)
    ensures
        r == spec_chunk_index(v),
{
    let m = floor_mod_16(v);
    assert((v - m) % 16 == 0 && v / 16 == (v - m) / 16) by {
        lemma_fundamental_div_mod(v as int, 16);
    }
    ((v as i64 - m as i64) / 16) as i32
}

} // verus!
