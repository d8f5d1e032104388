pub use crate::spatial::vec3::key_pos;

use crate::block_utils::clean_name_id_map;
use crate::block_utils::cleaned;
use crate::block_utils::cleaned_by;
use crate::block_utils::is_max_id;
use crate::block_utils::lemma_max_id;
use crate::block_utils::max_id;
use crate::map_block::ZlibContainer;
use crate::map_block::map_block::MapBlock;
use crate::map_block::map_block::MapBlockView;
use crate::map_block::map_block::parse_block;
use crate::map_block::node_data::NODE_COUNT;
use crate::map_block::node_data::NodeData;
use crate::map_block::node_data::NodeDataView;
use crate::map_block::wire::MapBlockError;
use crate::spatial::area::Area;
use crate::spatial::area::lemma_block_part_volume;
use crate::spatial::area::lower;
use crate::spatial::area::upper;
use crate::spatial::vec3::Vec3;
use super::BlockEdit;
use super::BlockEditView;
use super::finish_block;
use super::in_region;
use super::name_at;
use super::written;
use vstd::prelude::*;
use vstd::slice::slice_to_vec;

verus! {

/// The IDs of a block after the nodes that the edit reaches got the ID
/// `id`.
pub open spec fn filled_ids(nodes: Seq<u16>, id: u16, area: Area, invert: bool) -> Seq<u16> {
    Seq::new(
        nodes.len(),
        |i: int|
            if in_region(area, invert, i) {
                id
            } else {
                nodes[i]
            },
    )
}

/// Gives the ID `id` to every node in the part `area` of the block, or to
/// every node outside it where `invert` is set. The parameters of the
/// nodes stay as they are.
pub fn fill_area(block: &mut MapBlock, id: u16, area: Area, invert: bool)
    requires
        area.is_block_part(),
        old(block)@.node_data.nodes.len() == NODE_COUNT,
    ensures
        final(block)@ == (MapBlockView {
            node_data: NodeDataView {
                nodes: filled_ids(old(block)@.node_data.nodes, id, area, invert),
                ..old(block)@.node_data
            },
            node_frame: None,
            ..old(block)@
        }),
{
    let ghost before = block@;
    let mut container = ZlibContainer::new(
        NodeData { nodes: Vec::new(), param1: Vec::new(), param2: Vec::new() },
    );
    core::mem::swap(&mut block.node_data, &mut container);
    let mut nd = container.into_inner();
    let mut idx: usize = 0;
    while idx < NODE_COUNT
        invariant
            idx <= NODE_COUNT,
            nd@.nodes.len() == NODE_COUNT,
            before.node_data.nodes.len() == NODE_COUNT,
            nd@.param1 == before.node_data.param1,
            nd@.param2 == before.node_data.param2,
            forall|j: int|
                0 <= j < idx ==> #[trigger] nd@.nodes[j] == filled_ids(
                    before.node_data.nodes,
                    id,
                    area,
                    invert,
                )[j],
            forall|j: int| idx <= j < NODE_COUNT ==> #[trigger] nd@.nodes[j] == before.node_data.nodes[j],
        decreases NODE_COUNT - idx,
    {
        let x: i32 = (idx % 16) as i32;
        let y: i32 = ((idx / 16) % 16) as i32;
        let z: i32 = (idx / 256) as i32;
        if area.contains(Vec3 { x, y, z }) != invert {
            nd.nodes.set(idx, id);
        }
        idx = idx + 1;
    }
    proof {
        assert(nd@.nodes =~= filled_ids(before.node_data.nodes, id, area, invert));
    }
    block.node_data = ZlibContainer::new(nd);
}

/// The block `b` with every node named `node`, under the ID 0.
pub open spec fn filled_whole(b: MapBlockView, node: Seq<u8>) -> MapBlockView {
    MapBlockView {
        node_data: NodeDataView {
            nodes: Seq::new(b.node_data.nodes.len(), |i: int| 0u16),
            ..b.node_data
        },
        node_frame: None,
        nimap: Map::<u16, Seq<u8>>::empty().insert(0u16, node),
        ..b
    }
}

/// Gives every node of the block the name `node`.
pub fn fill_whole(block: &mut MapBlock, node: &[u8])
    ensures
        final(block)@ == filled_whole(old(block)@, node@),
{
    let ghost before = block@;
    let mut container = ZlibContainer::new(
        NodeData { nodes: Vec::new(), param1: Vec::new(), param2: Vec::new() },
    );
    core::mem::swap(&mut block.node_data, &mut container);
    let mut nd = container.into_inner();
    let mut idx: usize = 0;
    while idx < nd.nodes.len()
        invariant
            idx <= nd@.nodes.len(),
            nd@.nodes.len() == before.node_data.nodes.len(),
            nd@.param1 == before.node_data.param1,
            nd@.param2 == before.node_data.param2,
            forall|j: int| 0 <= j < idx ==> #[trigger] nd@.nodes[j] == 0,
        decreases nd@.nodes.len() - idx,
    {
        nd.nodes.set(idx, 0);
        idx = idx + 1;
    }
    proof {
        assert(nd@.nodes =~= Seq::new(before.node_data.nodes.len(), |i: int| 0u16));
    }
    block.node_data = ZlibContainer::new(nd);
    block.nimap.clear();
    block.nimap.insert(0, slice_to_vec(node));
}

/// The part of the block at `pos` that `area` covers, counted from the
/// block's lowest corner.
pub open spec fn block_part(area: Area, pos: Vec3) -> Area {
    Area {
        min: Vec3 {
            x: (upper(area.min.x as int, 16 * pos.x) - 16 * pos.x) as i32,
            y: (upper(area.min.y as int, 16 * pos.y) - 16 * pos.y) as i32,
            z: (upper(area.min.z as int, 16 * pos.z) - 16 * pos.z) as i32,
        },
        max: Vec3 {
            x: (lower(area.max.x as int, 16 * pos.x + 15) - 16 * pos.x) as i32,
            y: (lower(area.max.y as int, 16 * pos.y + 15) - 16 * pos.y) as i32,
            z: (lower(area.max.z as int, 16 * pos.z + 15) - 16 * pos.z) as i32,
        },
    }
}

/// Whether `area` covers a part of the block at `pos`, but not all of it.
pub open spec fn covers_partly(area: Area, pos: Vec3) -> bool {
    area.contains_block(pos) != area.touches_block(pos)
}

/// Whether one of the IDs of `m` has the name `name`.
pub open spec fn has_name(m: Map<u16, Seq<u8>>, name: Seq<u8>) -> bool {
    exists|k: u16| m.contains_key(k) && m[k] == name
}

/// Whether `id` is the lowest ID of `m` with the name `name`.
pub open spec fn is_id_of(m: Map<u16, Seq<u8>>, name: Seq<u8>, id: u16) -> bool {
    &&& m.contains_key(id)
    &&& m[id] == name
    &&& forall|k: u16| k < id && m.contains_key(k) ==> m[k] != name
}

/// Whether the nodes of a part of the block `b` can be given the name
/// `node`: the block has all its nodes, each with a name, and the name is
/// among the block's names or there is an ID left for it.
pub open spec fn can_fill_part(b: MapBlockView, node: Seq<u8>) -> bool {
    &&& b.node_data.nodes.len() == NODE_COUNT
    &&& b.ids_valid()
    &&& max_id(b.nimap) >= 0
    &&& has_name(b.nimap, node) || max_id(b.nimap) < u16::MAX
}

/// Whether `after` is the block `b` after the nodes that the edit reaches
/// in its part `part` got the name `node`, and the names were tidied. The
/// name gets the ID that it has in the block, or else the next one.
pub open spec fn filled_part(
    b: MapBlockView,
    part: Area,
    invert: bool,
    node: Seq<u8>,
    after: MapBlockView,
) -> bool {
    exists|id: u16| #[trigger] filled_part_with(b, part, invert, node, after, id)
}

/// Whether `after` is the block `b` after a fill of a part in which the
/// name `node` got the ID `id`.
pub open spec fn filled_part_with(
    b: MapBlockView,
    part: Area,
    invert: bool,
    node: Seq<u8>,
    after: MapBlockView,
    id: u16,
) -> bool {
    &&& if has_name(b.nimap, node) {
        is_id_of(b.nimap, node, id)
    } else {
        id == max_id(b.nimap) + 1
    }
    &&& cleaned(
        MapBlockView {
            nimap: b.nimap.insert(id, node),
            node_data: NodeDataView {
                nodes: filled_ids(b.node_data.nodes, id, part, invert),
                ..b.node_data
            },
            node_frame: None,
            ..b
        },
        after,
    )
}

/// Whether `after` is the block `b`, at `pos`, after a fill: where `area`
/// covers the block partly, the nodes that the fill reaches have the name
/// `node` and the names are tidied; else every node has the name.
pub open spec fn filled(
    b: MapBlockView,
    pos: Vec3,
    area: Area,
    invert: bool,
    node: Seq<u8>,
    after: MapBlockView,
) -> bool {
    if covers_partly(area, pos) {
        filled_part(b, block_part(area, pos), invert, node, after)
    } else {
        after == filled_whole(b, node)
    }
}

/// How many nodes a fill counts for the block at `pos`: those that `area`
/// covers of it where it covers the block partly, else all 4096.
pub open spec fn fill_count(pos: Vec3, area: Area) -> int {
    if covers_partly(area, pos) {
        block_part(area, pos).spec_volume()
    } else {
        NODE_COUNT as int
    }
}

/// Gives the name `node` to the nodes that the edit reaches in the part
/// `part` of the block, and tidies the names. Returns whether that could
/// be done; the block is left as it was where not.
pub fn fill_part(block: &mut MapBlock, part: Area, invert: bool, node: &[u8]) -> (ok: bool)
    requires
        part.is_block_part(),
    ensures
        ok == can_fill_part(old(block)@, node@),
        ok ==> filled_part(old(block)@, part, invert, node@, final(block)@),
        !ok ==> final(block)@ == old(block)@,
{
    let ghost b = block@;
    if block.node_data.get_ref().nodes.len() != NODE_COUNT || !block.has_valid_ids() {
        return false;
    }
    let next: u32 = match block.nimap.get_max_id() {
        Some(k) => {
            proof {
                lemma_max_id(b.nimap, k);
            }
            k as u32 + 1
        },
        None => {
            proof {
                assert(!(exists|k: u16| is_max_id(b.nimap, k)));
            }
            return false;
        },
    };
    let fill_id: u16 = match block.nimap.get_id(node) {
        Some(id) => {
            proof {
                assert(has_name(b.nimap, node@));
                assert(b.nimap.insert(id, node@) =~= b.nimap);
            }
            id
        },
        None => {
            if next > 0xFFFF {
                return false;
            }
            block.nimap.insert(next as u16, slice_to_vec(node));
            next as u16
        },
    };
    fill_area(block, fill_id, part, invert);
    let ghost mid = block@;
    proof {
        assert(mid.nimap.contains_key(fill_id));
        assert forall|i: int| 0 <= i < mid.node_data.nodes.len() implies mid.nimap.contains_key(
            #[trigger] mid.node_data.nodes[i],
        ) by {
            assert(b.nimap.contains_key(b.node_data.nodes[i]));
        }
        let top: u16 = if mid.nimap.contains_key(next as u16) && next <= 0xFFFF {
            next as u16
        } else {
            (next - 1) as u16
        };
        assert(is_max_id(mid.nimap, top));
        lemma_max_id(mid.nimap, top);
    }
    clean_name_id_map(block);
    proof {
        assert(filled_part_with(b, part, invert, node@, block@, fill_id));
    }
    true
}

/// Fills the nodes of the stored block `data`, which has the key `key`,
/// with the node `node`: those within `area`, or those outside it where
/// `invert` is set.
///
/// The block fails where it cannot be read, where a part of it is to be
/// filled and `can_fill_part` does not hold of it, or where it cannot be
/// written afterwards.
pub fn fill_block(data: &[u8], key: i64, area: Area, invert: bool, node: &[u8]) -> (r: BlockEdit)
    requires
        area.is_valid(),
    ensures
        match parse_block(data@) {
            Ok(b) => if covers_partly(area, key_pos(key)) && !can_fill_part(b, node@) {
                r@ == BlockEditView::Failed
            } else {
                exists|after: MapBlockView| #[trigger]
                    filled(b, key_pos(key), area, invert, node@, after) && r@ == written(
                        after,
                        fill_count(key_pos(key), area) as u64,
                    )
            },
            Err(e) => r@ == BlockEditView::Failed,
        },
{
    let pos = Vec3::from_block_key(key);
    let mut block = match MapBlock::deserialize(data) {
        Ok(block) => block,
        Err(_) => {
            return BlockEdit::Failed;
        },
    };
    let ghost b = block@;
    assert(pos == key_pos(key));
    assert(parse_block(data@) == Ok::<MapBlockView, MapBlockError>(b));
    if area.contains_block(pos) != area.touches_block(pos) {
        // Fill part of the block.
        let part = match area.rel_block_overlap(pos) {
            Some(part) => part,
            None => {
                assert(false);
                return BlockEdit::Failed;
            },
        };
        assert(part == block_part(area, pos));
        if !fill_part(&mut block, part, invert, node) {
            return BlockEdit::Failed;
        }
        proof {
            lemma_block_part_volume(part);
            assert(filled(b, pos, area, invert, node@, block@));
        }
        let count: u64 = part.volume();
        let r = finish_block(&block, count);
        assert(r@ == written(block@, fill_count(pos, area) as u64));
        r
    } else {
        // Fill the entire block.
        fill_whole(&mut block, node);
        proof {
            assert(filled(b, pos, area, invert, node@, block@));
        }
        let r = finish_block(&block, NODE_COUNT as u64);
        assert(r@ == written(block@, fill_count(pos, area) as u64));
        r
    }
}

/// After a fill each node that the fill reaches has the name `node`, and
/// each other node has the name that it had.
pub proof fn lemma_filled_names(
    b: MapBlockView,
    pos: Vec3,
    area: Area,
    invert: bool,
    node: Seq<u8>,
    after: MapBlockView,
    i: int,
)
    requires
        b.node_data.nodes.len() == NODE_COUNT,
        covers_partly(area, pos) ==> can_fill_part(b, node),
        filled(b, pos, area, invert, node, after),
        0 <= i < NODE_COUNT,
    ensures
        after.nimap.contains_key(after.node_data.nodes[i]),
        name_at(after, i) == if !covers_partly(area, pos) || in_region(
            block_part(area, pos),
            invert,
            i,
        ) {
            node
        } else {
            name_at(b, i)
        },
{
    if covers_partly(area, pos) {
        let part = block_part(area, pos);
        let id = choose|id: u16| #[trigger] filled_part_with(b, part, invert, node, after, id);
        let mid = MapBlockView {
            nimap: b.nimap.insert(id, node),
            node_data: NodeDataView {
                nodes: filled_ids(b.node_data.nodes, id, part, invert),
                ..b.node_data
            },
            node_frame: None,
            ..b
        };
        let reps = choose|reps: Seq<u16>| cleaned_by(mid, after, reps);
        assert(after.node_data.nodes[i] < reps.len());
        assert(after.nimap[after.node_data.nodes[i]] == mid.nimap[mid.node_data.nodes[i]]);
        if in_region(part, invert, i) {
            assert(mid.node_data.nodes[i] == id);
        } else {
            assert(mid.node_data.nodes[i] == b.node_data.nodes[i]);
            assert(b.nimap.contains_key(b.node_data.nodes[i]));
            if b.node_data.nodes[i] == id && !has_name(b.nimap, node) {
                let m = choose|k: u16| is_max_id(b.nimap, k);
                assert(id <= m);
            }
        }
    } else {
        assert(after.nimap.contains_key(0u16));
    }
}

} // verus!
