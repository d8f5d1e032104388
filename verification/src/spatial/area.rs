use super::vec3::Vec3;
use vstd::prelude::*;
use vstd::std_specs::ops::AddSpecImpl;
use vstd::std_specs::ops::SubSpecImpl;

verus! {

/// An axis-aligned box of nodes or blocks; both corners belong to it.
#[derive(Clone, Copy, Debug, PartialEq, Eq, Structural)]
pub struct Area {
    pub min: Vec3,
    pub max: Vec3,
}

/// Whether the block `b` lies wholly within `[lo, hi]` along one axis.
pub open spec fn axis_contains_block(lo: int, hi: int, b: int) -> bool {
    lo <= 16 * b && 16 * b + 15 <= hi
}

/// Whether the block `b` meets `[lo, hi]` along one axis.
pub open spec fn axis_touches_block(lo: int, hi: int, b: int) -> bool {
    lo <= 16 * b + 15 && 16 * b <= hi
}

/// The larger of two numbers.
pub open spec fn upper(a: int, b: int) -> int {
    if a >= b {
        a
    } else {
        b
    }
}

/// The smaller of two numbers.
pub open spec fn lower(a: int, b: int) -> int {
    if a <= b {
        a
    } else {
        b
    }
}

fn upper_of(a: i64, b: i64) -> (r: i64)
    ensures
        r == upper(a as int, b as int),
{
    if a >= b {
        a
    } else {
        b
    }
}

fn lower_of(a: i64, b: i64) -> (r: i64)
    ensures
        r == lower(a as int, b as int),
{
    if a <= b {
        a
    } else {
        b
    }
}

fn floor_div_16(v: i64) -> (r: i64)
    ensures
        r == v / 16,
{
    v.checked_div_euclid(16).unwrap()
}

impl Area {
    pub open spec fn spec_is_valid(&self) -> bool {
        &&& self.min.x <= self.max.x
        &&& self.min.y <= self.max.y
        &&& self.min.z <= self.max.z
    }

    /// Whether no corner lies beyond the other on any axis.
    #[verifier::when_used_as_spec(spec_is_valid)]
    pub fn is_valid(&self) -> (b: bool)
        ensures
            b == self.spec_is_valid(),
    {
        self.min.x <= self.max.x && self.min.y <= self.max.y && self.min.z <= self.max.z
    }

    pub fn new(min: Vec3, max: Vec3) -> (r: Self)
        requires
            (Area { min, max }).is_valid(),
        ensures
            r == (Area { min, max }),
    {
        Self { min, max }
    }

    /// The smallest area that holds both `a` and `b`.
    pub fn from_unsorted(a: Vec3, b: Vec3) -> (r: Self)
        ensures
            r.is_valid(),
            r.min.x == lower(a.x as int, b.x as int),
            r.min.y == lower(a.y as int, b.y as int),
            r.min.z == lower(a.z as int, b.z as int),
            r.max.x == upper(a.x as int, b.x as int),
            r.max.y == upper(a.y as int, b.y as int),
            r.max.z == upper(a.z as int, b.z as int),
    {
        Self {
            min: Vec3 {
                x: if a.x <= b.x { a.x } else { b.x },
                y: if a.y <= b.y { a.y } else { b.y },
                z: if a.z <= b.z { a.z } else { b.z },
            },
            max: Vec3 {
                x: if a.x >= b.x { a.x } else { b.x },
                y: if a.y >= b.y { a.y } else { b.y },
                z: if a.z >= b.z { a.z } else { b.z },
            },
        }
    }

    /// The number of positions in the area.
    pub open spec fn spec_volume(&self) -> int {
        (self.max.x - self.min.x + 1) * (self.max.y - self.min.y + 1) * (self.max.z - self.min.z
            + 1)
    }

    pub fn volume(&self) -> (v: u64)
        requires
            self.is_valid(),
            self.spec_volume() <= u64::MAX,
        ensures
            v == self.spec_volume(),
    {
        let w: u128 = (self.max.x as i64 - self.min.x as i64 + 1) as u128;
        let h: u128 = (self.max.y as i64 - self.min.y as i64 + 1) as u128;
        let d: u128 = (self.max.z as i64 - self.min.z as i64 + 1) as u128;
        assert(w * h <= 0x1_0000_0000 * 0x1_0000_0000) by (nonlinear_arith)
            requires
                0 < w <= 0x1_0000_0000,
                0 < h <= 0x1_0000_0000,
        ;
        let wh: u128 = w * h;
        assert(wh <= 0x1_0000_0000_0000_0000);
        assert(wh * d <= 0x1_0000_0000_0000_0000 * 0x1_0000_0000) by (nonlinear_arith)
            requires
                0 <= wh <= 0x1_0000_0000_0000_0000,
                0 < d <= 0x1_0000_0000,
        ;
        (wh * d) as u64
    }

    pub open spec fn spec_contains(&self, pos: Vec3) -> bool {
        &&& self.min.x <= pos.x <= self.max.x
        &&& self.min.y <= pos.y <= self.max.y
        &&& self.min.z <= pos.z <= self.max.z
    }

    /// Whether `pos` lies within the area.
    #[verifier::when_used_as_spec(spec_contains)]
    pub fn contains(&self, pos: Vec3) -> (b: bool)
        ensures
            b == self.spec_contains(pos),
    {
        self.min.x <= pos.x && pos.x <= self.max.x && self.min.y <= pos.y && pos.y <= self.max.y
            && self.min.z <= pos.z && pos.z <= self.max.z
    }

    pub open spec fn spec_contains_block(&self, block_pos: Vec3) -> bool {
        &&& axis_contains_block(self.min.x as int, self.max.x as int, block_pos.x as int)
        &&& axis_contains_block(self.min.y as int, self.max.y as int, block_pos.y as int)
        &&& axis_contains_block(self.min.z as int, self.max.z as int, block_pos.z as int)
    }

    /// Whether all 16 x 16 x 16 nodes of the block at `block_pos` lie within
    /// this area of nodes.
    #[verifier::when_used_as_spec(spec_contains_block)]
    pub fn contains_block(&self, block_pos: Vec3) -> (b: bool)
        ensures
            b == self.spec_contains_block(block_pos),
    {
        let cx: i64 = block_pos.x as i64 * 16;
        let cy: i64 = block_pos.y as i64 * 16;
        let cz: i64 = block_pos.z as i64 * 16;
        self.min.x as i64 <= cx && cx + 15 <= self.max.x as i64 && self.min.y as i64 <= cy && cy
            + 15 <= self.max.y as i64 && self.min.z as i64 <= cz && cz + 15 <= self.max.z as i64
    }

    pub open spec fn spec_touches_block(&self, block_pos: Vec3) -> bool {
        &&& axis_touches_block(self.min.x as int, self.max.x as int, block_pos.x as int)
        &&& axis_touches_block(self.min.y as int, self.max.y as int, block_pos.y as int)
        &&& axis_touches_block(self.min.z as int, self.max.z as int, block_pos.z as int)
    }

    /// Whether at least one node of the block at `block_pos` lies within
    /// this area of nodes.
    #[verifier::when_used_as_spec(spec_touches_block)]
    pub fn touches_block(&self, block_pos: Vec3) -> (b: bool)
        ensures
            b == self.spec_touches_block(block_pos),
    {
        let cx: i64 = block_pos.x as i64 * 16;
        let cy: i64 = block_pos.y as i64 * 16;
        let cz: i64 = block_pos.z as i64 * 16;
        self.min.x as i64 <= cx + 15 && cx <= self.max.x as i64 && self.min.y as i64 <= cy + 15
            && cy <= self.max.y as i64 && self.min.z as i64 <= cz + 15 && cz <= self.max.z as i64
    }

    /// The box of block positions from the first block that starts at or
    /// after `min` to the last block that ends at or before `max`. It holds
    /// no block where it is not valid.
    pub open spec fn contained_blocks(&self) -> Area {
        Area {
            min: Vec3 {
                x: ((self.min.x + 15) / 16) as i32,
                y: ((self.min.y + 15) / 16) as i32,
                z: ((self.min.z + 15) / 16) as i32,
            },
            max: Vec3 {
                x: ((self.max.x - 15) / 16) as i32,
                y: ((self.max.y - 15) / 16) as i32,
                z: ((self.max.z - 15) / 16) as i32,
            },
        }
    }

    /// The positions of the blocks that lie wholly within this area of
    /// nodes, or `None` if there is no such block.
    pub fn to_contained_block_area(&self) -> (r: Option<Self>)
        ensures
            r == if self.contained_blocks().is_valid() {
                Some(self.contained_blocks())
            } else {
                None
            },
    {
        let contained = Self {
            min: Vec3 {
                x: floor_div_16(self.min.x as i64 + 15) as i32,
                y: floor_div_16(self.min.y as i64 + 15) as i32,
                z: floor_div_16(self.min.z as i64 + 15) as i32,
            },
            max: Vec3 {
                x: floor_div_16(self.max.x as i64 - 15) as i32,
                y: floor_div_16(self.max.y as i64 - 15) as i32,
                z: floor_div_16(self.max.z as i64 - 15) as i32,
            },
        };
        if contained.is_valid() {
            Some(contained)
        } else {
            None
        }
    }

    /// The box of block positions from the block of `min` to the block of
    /// `max`.
    pub open spec fn touching_blocks(&self) -> Area {
        Area {
            min: Vec3 {
                x: (self.min.x / 16) as i32,
                y: (self.min.y / 16) as i32,
                z: (self.min.z / 16) as i32,
            },
            max: Vec3 {
                x: (self.max.x / 16) as i32,
                y: (self.max.y / 16) as i32,
                z: (self.max.z / 16) as i32,
            },
        }
    }

    /// The positions of the blocks that hold at least one node of this area.
    pub fn to_touching_block_area(&self) -> (r: Self)
        ensures
            r == self.touching_blocks(),
    {
        Self {
            min: Vec3 {
                x: floor_div_16(self.min.x as i64) as i32,
                y: floor_div_16(self.min.y as i64) as i32,
                z: floor_div_16(self.min.z as i64) as i32,
            },
            max: Vec3 {
                x: floor_div_16(self.max.x as i64) as i32,
                y: floor_div_16(self.max.y as i64) as i32,
                z: floor_div_16(self.max.z as i64) as i32,
            },
        }
    }

    /// Whether this area and the block at `block_pos` share a node.
    pub open spec fn overlaps_block(&self, block_pos: Vec3) -> bool {
        &&& upper(self.min.x as int, 16 * block_pos.x) <= lower(
            self.max.x as int,
            16 * block_pos.x + 15,
        )
        &&& upper(self.min.y as int, 16 * block_pos.y) <= lower(
            self.max.y as int,
            16 * block_pos.y + 15,
        )
        &&& upper(self.min.z as int, 16 * block_pos.z) <= lower(
            self.max.z as int,
            16 * block_pos.z + 15,
        )
    }

    /// The nodes that this area shares with the block at `block_pos`, in
    /// map coordinates; `None` if they share none.
    pub fn abs_block_overlap(&self, block_pos: Vec3) -> (r: Option<Self>)
        ensures
            r is Some <==> self.overlaps_block(block_pos),
            r matches Some(a) ==> {
                &&& a.is_valid()
                &&& a.min.x == upper(self.min.x as int, 16 * block_pos.x)
                &&& a.min.y == upper(self.min.y as int, 16 * block_pos.y)
                &&& a.min.z == upper(self.min.z as int, 16 * block_pos.z)
                &&& a.max.x == lower(self.max.x as int, 16 * block_pos.x + 15)
                &&& a.max.y == lower(self.max.y as int, 16 * block_pos.y + 15)
                &&& a.max.z == lower(self.max.z as int, 16 * block_pos.z + 15)
            },
    {
        let bx: i64 = block_pos.x as i64 * 16;
        let by: i64 = block_pos.y as i64 * 16;
        let bz: i64 = block_pos.z as i64 * 16;
        let min_x: i64 = upper_of(self.min.x as i64, bx);
        let min_y: i64 = upper_of(self.min.y as i64, by);
        let min_z: i64 = upper_of(self.min.z as i64, bz);
        let max_x: i64 = lower_of(self.max.x as i64, bx + 15);
        let max_y: i64 = lower_of(self.max.y as i64, by + 15);
        let max_z: i64 = lower_of(self.max.z as i64, bz + 15);
        if min_x <= max_x && min_y <= max_y && min_z <= max_z {
            Some(
                Self {
                    min: Vec3 { x: min_x as i32, y: min_y as i32, z: min_z as i32 },
                    max: Vec3 { x: max_x as i32, y: max_y as i32, z: max_z as i32 },
                },
            )
        } else {
            None
        }
    }

    /// The nodes that this area shares with the block at `block_pos`, each
    /// coordinate counted from the block's lowest corner, so within 0 to 15;
    /// `None` if they share none.
    pub fn rel_block_overlap(&self, block_pos: Vec3) -> (r: Option<Self>)
        ensures
            r is Some <==> self.overlaps_block(block_pos),
            r matches Some(a) ==> {
                &&& a.is_valid()
                &&& a.is_block_part()
                &&& a.min.x == upper(self.min.x as int, 16 * block_pos.x) - 16 * block_pos.x
                &&& a.min.y == upper(self.min.y as int, 16 * block_pos.y) - 16 * block_pos.y
                &&& a.min.z == upper(self.min.z as int, 16 * block_pos.z) - 16 * block_pos.z
                &&& a.max.x == lower(self.max.x as int, 16 * block_pos.x + 15) - 16 * block_pos.x
                &&& a.max.y == lower(self.max.y as int, 16 * block_pos.y + 15) - 16 * block_pos.y
                &&& a.max.z == lower(self.max.z as int, 16 * block_pos.z + 15) - 16 * block_pos.z
            },
    {
        let bx: i64 = block_pos.x as i64 * 16;
        let by: i64 = block_pos.y as i64 * 16;
        let bz: i64 = block_pos.z as i64 * 16;
        let min_x: i64 = upper_of(self.min.x as i64 - bx, 0);
        let min_y: i64 = upper_of(self.min.y as i64 - by, 0);
        let min_z: i64 = upper_of(self.min.z as i64 - bz, 0);
        let max_x: i64 = lower_of(self.max.x as i64 - bx, 15);
        let max_y: i64 = lower_of(self.max.y as i64 - by, 15);
        let max_z: i64 = lower_of(self.max.z as i64 - bz, 15);
        if min_x <= max_x && min_y <= max_y && min_z <= max_z {
            Some(
                Self {
                    min: Vec3 { x: min_x as i32, y: min_y as i32, z: min_z as i32 },
                    max: Vec3 { x: max_x as i32, y: max_y as i32, z: max_z as i32 },
                },
            )
        } else {
            None
        }
    }

    /// Whether the area is valid and lies within one block, counted from the
    /// block's lowest corner.
    pub open spec fn is_block_part(&self) -> bool {
        &&& 0 <= self.min.x <= self.max.x < 16
        &&& 0 <= self.min.y <= self.max.y < 16
        &&& 0 <= self.min.z <= self.max.z < 16
    }

    /// The first position of an iteration over the area.
    pub fn iter(&self) -> (it: AreaIterator)
        requires
            self.is_valid(),
        ensures
            it.area() == *self,
            it.upcoming() == Some(self.min),
    {
        AreaIterator::new(self.min, self.max)
    }
}

/// The position that follows `pos` in `area`: x runs fastest, z slowest.
/// `None` after the last one.
pub open spec fn successor(area: Area, pos: Vec3) -> Option<Vec3> {
    if pos.x < area.max.x {
        Some(Vec3 { x: (pos.x + 1) as i32, y: pos.y, z: pos.z })
    } else if pos.y < area.max.y {
        Some(Vec3 { x: area.min.x, y: (pos.y + 1) as i32, z: pos.z })
    } else if pos.z < area.max.z {
        Some(Vec3 { x: area.min.x, y: area.min.y, z: (pos.z + 1) as i32 })
    } else {
        None
    }
}

/// Walks the positions of an area, x fastest and z slowest.
pub struct AreaIterator {
    min: Vec3,
    max: Vec3,
    pos: Vec3,
    done: bool,
}

impl AreaIterator {
    #[verifier::type_invariant]
    spec fn well_formed(&self) -> bool {
        &&& (Area { min: self.min, max: self.max }).is_valid()
        &&& self.done || (Area { min: self.min, max: self.max }).contains(self.pos)
    }

    /// The area that is walked.
    pub closed spec fn area(&self) -> Area {
        Area { min: self.min, max: self.max }
    }

    /// The position that the next call of `next` returns.
    pub closed spec fn upcoming(&self) -> Option<Vec3> {
        if self.done {
            None
        } else {
            Some(self.pos)
        }
    }

    pub fn new(min: Vec3, max: Vec3) -> (it: Self)
        requires
            (Area { min, max }).is_valid(),
        ensures
            it.area() == (Area { min, max }),
            it.upcoming() == Some(min),
    {
        Self { min, max, pos: min, done: false }
    }

    /// Returns the upcoming position and moves on to its successor.
    pub fn next(&mut self) -> (r: Option<Vec3>)
        ensures
            r == old(self).upcoming(),
            r matches Some(p) ==> old(self).area().contains(p),
            final(self).area() == old(self).area(),
            final(self).upcoming() == match old(self).upcoming() {
                Some(p) => successor(old(self).area(), p),
                None => None,
            },
    {
        proof {
            use_type_invariant(&*self);
        }
        if self.done {
            None
        } else {
            let last_pos = self.pos;
            if self.pos.x < self.max.x {
                self.pos.x = self.pos.x + 1;
            } else if self.pos.y < self.max.y {
                self.pos.x = self.min.x;
                self.pos.y = self.pos.y + 1;
            } else if self.pos.z < self.max.z {
                self.pos.x = self.min.x;
                self.pos.y = self.min.y;
                self.pos.z = self.pos.z + 1;
            } else {
                self.done = true;
            }
            Some(last_pos)
        }
    }
}

/// Whether `area` moved by `(dx, dy, dz)` keeps its corners within `i32`.
pub open spec fn moved_fits(area: Area, dx: int, dy: int, dz: int) -> bool {
    &&& i32::MIN <= area.min.x + dx && area.max.x + dx <= i32::MAX
    &&& i32::MIN <= area.min.y + dy && area.max.y + dy <= i32::MAX
    &&& i32::MIN <= area.min.z + dz && area.max.z + dz <= i32::MAX
    &&& i32::MIN <= area.max.x + dx && area.min.x + dx <= i32::MAX
    &&& i32::MIN <= area.max.y + dy && area.min.y + dy <= i32::MAX
    &&& i32::MIN <= area.max.z + dz && area.min.z + dz <= i32::MAX
}

/// `area` moved by `(dx, dy, dz)`.
pub open spec fn moved(area: Area, dx: int, dy: int, dz: int) -> Area {
    Area {
        min: Vec3 {
            x: (area.min.x + dx) as i32,
            y: (area.min.y + dy) as i32,
            z: (area.min.z + dz) as i32,
        },
        max: Vec3 {
            x: (area.max.x + dx) as i32,
            y: (area.max.y + dy) as i32,
            z: (area.max.z + dz) as i32,
        },
    }
}

/// The area moved by `rhs`. The operands are left out for which a corner
/// would leave the range of `i32`.
impl core::ops::Add<Vec3> for Area {
    type Output = Area;

    fn add(self, rhs: Vec3) -> (r: Area) {
        Area { min: self.min + rhs, max: self.max + rhs }
    }
}

impl AddSpecImpl<Vec3> for Area {
    open spec fn obeys_add_spec() -> bool {
        true
    }

    open spec fn add_req(self, rhs: Vec3) -> bool {
        moved_fits(self, rhs.x as int, rhs.y as int, rhs.z as int)
    }

    open spec fn add_spec(self, rhs: Vec3) -> Area {
        moved(self, rhs.x as int, rhs.y as int, rhs.z as int)
    }
}

/// The area moved back by `rhs`. The operands are left out for which a
/// corner would leave the range of `i32`.
impl core::ops::Sub<Vec3> for Area {
    type Output = Area;

    fn sub(self, rhs: Vec3) -> (r: Area) {
        Area { min: self.min - rhs, max: self.max - rhs }
    }
}

impl SubSpecImpl<Vec3> for Area {
    open spec fn obeys_sub_spec() -> bool {
        true
    }

    open spec fn sub_req(self, rhs: Vec3) -> bool {
        moved_fits(self, -rhs.x, -rhs.y, -rhs.z)
    }

    open spec fn sub_spec(self, rhs: Vec3) -> Area {
        moved(self, -rhs.x, -rhs.y, -rhs.z)
    }
}

/// A part of a block holds between 1 and 4096 nodes.
pub proof fn lemma_block_part_volume(a: Area)
    requires
        a.is_block_part(),
    ensures
        1 <= a.spec_volume() <= 4096,
{
    let w = a.max.x - a.min.x + 1;
    let h = a.max.y - a.min.y + 1;
    let d = a.max.z - a.min.z + 1;
    assert(1 <= w * h <= 256) by (nonlinear_arith)
        requires
            1 <= w <= 16,
            1 <= h <= 16,
    ;
    assert(1 <= (w * h) * d <= 4096) by (nonlinear_arith)
        requires
            1 <= w * h <= 256,
            1 <= d <= 16,
    ;
}

/// A block that lies wholly within a valid area also touches it.
pub proof fn lemma_contained_block_touches(a: Area, block_pos: Vec3)
    requires
        a.is_valid(),
        a.contains_block(block_pos),
    ensures
        a.touches_block(block_pos),
{
}

/// The box of touching blocks holds exactly the blocks that touch a valid
/// area.
pub proof fn lemma_touching_blocks_exact(a: Area, block_pos: Vec3)
    requires
        a.is_valid(),
    ensures
        a.touching_blocks().contains(block_pos) <==> a.touches_block(block_pos),
{
}

/// The box of contained blocks holds exactly the blocks that lie wholly
/// within a valid area; where the box is not valid, no block does.
pub proof fn lemma_contained_blocks_exact(a: Area, block_pos: Vec3)
    requires
        a.is_valid(),
    ensures
        a.contained_blocks().contains(block_pos) <==> a.contains_block(block_pos),
        !a.contained_blocks().is_valid() ==> !a.contains_block(block_pos),
{
}

/// Every block position of the box of contained blocks lies in the box of
/// touching blocks.
pub proof fn lemma_contained_blocks_within_touching(a: Area, block_pos: Vec3)
    requires
        a.is_valid(),
        a.contained_blocks().contains(block_pos),
    ensures
        a.touching_blocks().contains(block_pos),
{
}

} // verus!
