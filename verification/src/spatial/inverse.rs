use super::area::Area;
use super::vec3::Vec3;
use vstd::prelude::*;

verus! {

pub use crate::map_block::node_data::NODE_COUNT;

/// The position within its block of the node with index `i`.
pub open spec fn index_pos(i: int) -> Vec3 {
    Vec3 { x: (i % 16) as i32, y: ((i / 16) % 16) as i32, z: (i / 256) as i32 }
}

/// Whether the node with index `i` lies in the part `area` of its block.
pub open spec fn index_in_area(area: Area, i: int) -> bool {
    area.contains(index_pos(i))
}

/// Walks, in rising order, the indices of the nodes of a block that lie
/// outside a part of it.
pub struct InverseBlockIterator {
    area: Area,
    idx: usize,
}

impl InverseBlockIterator {
    #[verifier::type_invariant]
    spec fn well_formed(&self) -> bool {
        self.area.is_block_part() && self.idx <= NODE_COUNT
    }

    /// The part of the block that is left out.
    pub closed spec fn area(&self) -> Area {
        self.area
    }

    /// The index from which the search for the next node goes on.
    pub closed spec fn position(&self) -> int {
        self.idx as int
    }

    pub fn new(area: Area) -> (it: Self)
        requires
            area.is_block_part(),
        ensures
            it.area() == area,
            it.position() == 0,
    {
        Self { area, idx: 0 }
    }

    /// Returns the first index at or after the position that lies outside
    /// the area, and moves the position behind it; `None`, with the
    /// position at the end, when no such index is left.
    pub fn next(&mut self) -> (r: Option<usize>)
        ensures
            final(self).area() == old(self).area(),
            match r {
                Some(i) => {
                    &&& old(self).position() <= i < NODE_COUNT
                    &&& !index_in_area(old(self).area(), i as int)
                    &&& forall|j: int|
                        old(self).position() <= j < i ==> index_in_area(old(self).area(), j)
                    &&& final(self).position() == i + 1
                },
                None => {
                    &&& forall|j: int|
                        old(self).position() <= j < NODE_COUNT ==> index_in_area(
                            old(self).area(),
                            j,
                        )
                    &&& final(self).position() == NODE_COUNT
                },
            },
    {
        proof {
            use_type_invariant(&*self);
        }
        let area = self.area;
        let mut idx: usize = self.idx;
        while idx < NODE_COUNT
            invariant
                area.is_block_part(),
                *self == *old(self),
                self.area == area,
                self.idx <= idx <= NODE_COUNT,
                forall|j: int| self.idx <= j < idx ==> index_in_area(area, j),
            decreases NODE_COUNT - idx,
        {
            let x: i32 = (idx % 16) as i32;
            let y: i32 = ((idx / 16) % 16) as i32;
            let z: i32 = (idx / 256) as i32;
            if area.contains(Vec3 { x, y, z }) {
                // The rest of this row, up to the area's edge, lies inside too.
                let row_end: usize = idx + (area.max.x - x) as usize + 1;
                assert forall|j: int| idx <= j < row_end implies index_in_area(area, j) by {
                    assert(j % 16 == x + (j - idx));
                    assert((j / 16) % 16 == y);
                    assert(j / 256 == z);
                }
                idx = row_end;
            } else {
                self.idx = idx + 1;
                return Some(idx);
            }
        }
        self.idx = NODE_COUNT;
        None
    }
}

} // verus!
