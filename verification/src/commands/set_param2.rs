use crate::instance::InstArgs;
use crate::map_block::ZlibContainer;
use crate::map_block::map_block::MapBlock;
use crate::map_block::map_block::MapBlockView;
use crate::map_block::map_block::parse_block;
use crate::map_block::node_data::NODE_COUNT;
use crate::map_block::node_data::NodeData;
use crate::map_block::node_data::NodeDataView;
use crate::map_block::wire::MapBlockError;
use crate::spatial::area::Area;
use crate::spatial::vec3::Vec3;
use super::ArgResult;
use super::ArgResultView;
use super::BlockEdit;
use super::BlockEditView;
use super::fill::has_name;
use super::fill::key_pos;
use super::finish_block;
use super::node_matches;
use super::replace_nodes::edit_part;
use super::replace_nodes::find_edit_part;
use super::replace_nodes::id_of;
use super::replace_nodes::lemma_id_of;
use super::replace_nodes::reaches;
use super::written;
use vstd::prelude::*;

verus! {

/// Whether the edit sets the second parameter of the node `i`: it reaches
/// the node, and the node has the ID `node_id` where one is asked for.
pub open spec fn param2_hit(
    nodes: Seq<u16>,
    part: Option<Area>,
    invert: bool,
    node_id: Option<u16>,
    i: int,
) -> bool {
    reaches(part, invert, i) && node_matches(nodes, node_id, i)
}

/// How many of the first `n` nodes the edit sets the second parameter of.
pub open spec fn count_param2_hits(
    nodes: Seq<u16>,
    part: Option<Area>,
    invert: bool,
    node_id: Option<u16>,
    n: nat,
) -> nat
    decreases n,
{
    if n == 0 {
        0
    } else {
        count_param2_hits(nodes, part, invert, node_id, (n - 1) as nat) + if param2_hit(
            nodes,
            part,
            invert,
            node_id,
            n - 1,
        ) {
            1nat
        } else {
            0nat
        }
    }
}

/// The block `b` with the second parameter `val` at the nodes that the
/// edit sets it of. The stream that the nodes were read from is no longer
/// kept.
pub open spec fn param2_set(
    b: MapBlockView,
    part: Option<Area>,
    invert: bool,
    node_id: Option<u16>,
    val: u8,
) -> MapBlockView {
    MapBlockView {
        node_data: NodeDataView {
            param2: Seq::new(
                b.node_data.param2.len(),
                |i: int|
                    if param2_hit(b.node_data.nodes, part, invert, node_id, i) {
                        val
                    } else {
                        b.node_data.param2[i]
                    },
            ),
            ..b.node_data
        },
        node_frame: None,
        ..b
    }
}

fn set_param2_in(
    block: &mut MapBlock,
    part: Option<Area>,
    invert: bool,
    node_id: Option<u16>,
    val: u8,
) -> (count: u64)
    requires
        old(block)@.node_data.is_complete(),
    ensures
        final(block)@ == param2_set(old(block)@, part, invert, node_id, val),
        count == count_param2_hits(
            old(block)@.node_data.nodes,
            part,
            invert,
            node_id,
            NODE_COUNT as nat,
        ),
{
    let ghost b = block@;
    let mut container = ZlibContainer::new(
        NodeData { nodes: Vec::new(), param1: Vec::new(), param2: Vec::new() },
    );
    core::mem::swap(&mut block.node_data, &mut container);
    let mut nd = container.into_inner();
    let mut count: u64 = 0;
    let mut idx: usize = 0;
    while idx < NODE_COUNT
        invariant
            idx <= NODE_COUNT,
            nd@.nodes == b.node_data.nodes,
            nd@.param1 == b.node_data.param1,
            nd@.param2.len() == NODE_COUNT,
            b.node_data.is_complete(),
            count == count_param2_hits(b.node_data.nodes, part, invert, node_id, idx as nat),
            count <= idx,
            forall|j: int|
                0 <= j < idx ==> #[trigger] nd@.param2[j] == param2_set(
                    b,
                    part,
                    invert,
                    node_id,
                    val,
                ).node_data.param2[j],
            forall|j: int| idx <= j < NODE_COUNT ==> #[trigger] nd@.param2[j] == b.node_data.param2[j],
        decreases NODE_COUNT - idx,
    {
        let reached: bool = match part {
            Some(a) => {
                let x: i32 = (idx % 16) as i32;
                let y: i32 = ((idx / 16) % 16) as i32;
                let z: i32 = (idx / 256) as i32;
                a.contains(Vec3 { x, y, z }) != invert
            },
            None => true,
        };
        let matched: bool = match node_id {
            Some(id) => nd.nodes[idx] == id,
            None => true,
        };
        if reached && matched {
            nd.param2.set(idx, val);
            count = count + 1;
        }
        idx = idx + 1;
    }
    proof {
        assert(nd@.param2 =~= param2_set(b, part, invert, node_id, val).node_data.param2);
    }
    block.node_data = ZlibContainer::new(nd);
    count
}

/// Sets the second parameter of the nodes in the part `area` of the block,
/// or outside it where `invert` is set; only of those with the ID
/// `node_id` where one is given. Returns the number of nodes changed.
pub fn set_param2_partial(
    block: &mut MapBlock,
    area: Area,
    invert: bool,
    node_id: Option<u16>,
    val: u8,
) -> (count: u64)
    requires
        area.is_block_part(),
        old(block)@.node_data.is_complete(),
    ensures
        final(block)@ == param2_set(old(block)@, Some(area), invert, node_id, val),
        count == count_param2_hits(
            old(block)@.node_data.nodes,
            Some(area),
            invert,
            node_id,
            NODE_COUNT as nat,
        ),
{
    set_param2_in(block, Some(area), invert, node_id, val)
}

/// What setting the second parameter makes of the stored block `b` at
/// `pos`: nothing where a node is asked for that the block does not have;
/// else the block with the parameter set, written.
pub open spec fn set_param2_outcome(
    b: MapBlockView,
    pos: Vec3,
    node: Option<Seq<u8>>,
    area: Option<Area>,
    invert: bool,
    val: u8,
) -> BlockEditView {
    if node matches Some(name) && !has_name(b.nimap, name) {
        BlockEditView::Skipped
    } else {
        let node_id = match node {
            Some(name) => Some(id_of(b.nimap, name)),
            None => None,
        };
        written(
            param2_set(b, edit_part(area, pos), invert, node_id, val),
            count_param2_hits(
                b.node_data.nodes,
                edit_part(area, pos),
                invert,
                node_id,
                NODE_COUNT as nat,
            ) as u64,
        )
    }
}

/// Sets the second parameter of nodes of the stored block `data`, which
/// has the key `key`: of those within `area`, or outside it where `invert`
/// is set, or of all where no area is given; only of the nodes named
/// `node` where a name is given.
pub fn set_param2_block(
    data: &[u8],
    key: i64,
    node: Option<&[u8]>,
    area: Option<Area>,
    invert: bool,
    val: u8,
) -> (r: BlockEdit)
    requires
        area matches Some(a) ==> a.is_valid(),
    ensures
        match parse_block(data@) {
            Ok(b) => r@ == set_param2_outcome(
                b,
                key_pos(key),
                match node {
                    Some(name) => Some(name@),
                    None => None,
                },
                area,
                invert,
                val,
            ),
            Err(e) => r@ == BlockEditView::Failed,
        },
{
    let pos = Vec3::from_block_key(key);
    let mut block = match MapBlock::deserialize(data) {
        Ok(block) => block,
        Err(_) => {
            return BlockEdit::Failed;
        },
    };
    let ghost b = block@;
    assert(pos == key_pos(key));
    assert(parse_block(data@) == Ok::<MapBlockView, MapBlockError>(b));
    let node_id: Option<u16> = match node {
        Some(name) => match block.nimap.get_id(name) {
            Some(id) => {
                proof {
                    lemma_id_of(b.nimap, name@, id);
                }
                Some(id)
            },
            None => {
                // Node not found in this mapblock.
                return BlockEdit::Skipped;
            },
        },
        None => None,
    };
    let part = find_edit_part(area, pos);
    let count = set_param2_in(&mut block, part, invert, node_id, val);
    finish_block(&block, count)
}

/// What the check of the arguments for setting the second parameter
/// comes to: an area or a node must be given.
pub open spec fn args_checked(args: InstArgs) -> ArgResultView {
    if args.area is None && args.node is None {
        ArgResultView::Error("An area and/or node is required."@)
    } else {
        ArgResultView::Okay
    }
}

/// Checks the arguments for setting the second parameter.
pub fn verify_args(args: &InstArgs) -> (r: ArgResult)
    ensures
        r@ == args_checked(*args),
{
    if args.area.is_none() && args.node.is_none() {
        return ArgResult::error("An area and/or node is required.");
    }
    ArgResult::Okay
}

} // verus!
