use crate::block_utils::is_max_id;
use crate::block_utils::lemma_max_id;
use crate::block_utils::max_id;
use crate::block_utils::names_distinct;
use crate::instance::InstArgs;
use crate::map_block::ZlibContainer;
use crate::map_block::map_block::MapBlock;
use crate::map_block::map_block::MapBlockView;
use crate::map_block::map_block::parse_block;
use crate::map_block::name_id_map::removed_shifted;
use crate::map_block::node_data::NODE_COUNT;
use crate::map_block::node_data::NodeData;
use crate::map_block::node_data::NodeDataView;
use crate::map_block::wire::MapBlockError;
use crate::map_block::wire::bytes_eq;
use crate::spatial::area::Area;
use crate::spatial::vec3::Vec3;
use super::ArgResult;
use super::ArgResultView;
use super::BlockEdit;
use super::BlockEditView;
use super::fill::block_part;
use super::fill::covers_partly;
use super::fill::has_name;
use super::fill::is_id_of;
use super::fill::key_pos;
use super::finish_block;
use super::in_region;
use super::name_at;
use super::written;
use vstd::prelude::*;
use vstd::slice::slice_to_vec;

verus! {

/// Whether an edit reaches the node `i` of a block: any node where the
/// whole block is edited, else the nodes of `in_region`.
pub open spec fn reaches(part: Option<Area>, invert: bool, i: int) -> bool {
    match part {
        Some(a) => in_region(a, invert, i),
        None => true,
    }
}

/// How many of the first `n` nodes the edit reaches that have the ID `id`.
pub open spec fn count_ids(nodes: Seq<u16>, part: Option<Area>, invert: bool, id: u16, n: nat) -> nat
    decreases n,
{
    if n == 0 {
        0
    } else {
        count_ids(nodes, part, invert, id, (n - 1) as nat) + if reaches(part, invert, n - 1)
            && nodes[n - 1] == id {
            1nat
        } else {
            0nat
        }
    }
}

/// The lowest ID of `m` with the name `name`.
pub open spec fn id_of(m: Map<u16, Seq<u8>>, name: Seq<u8>) -> u16 {
    choose|id: u16| is_id_of(m, name, id)
}

/// A name has one lowest ID at most.
pub proof fn lemma_id_of(m: Map<u16, Seq<u8>>, name: Seq<u8>, id: u16)
    requires
        is_id_of(m, name, id),
    ensures
        has_name(m, name),
        id_of(m, name) == id,
{
    let c = id_of(m, name);
    if c < id {
        assert(m[c] != name);
    } else if id < c {
        assert(m[id] != name);
    }
}

/// The IDs `nodes` with `to` in place of `from` at the nodes that the edit
/// reaches.
pub open spec fn swapped_ids(
    nodes: Seq<u16>,
    part: Option<Area>,
    invert: bool,
    from: u16,
    to: u16,
) -> Seq<u16> {
    Seq::new(
        nodes.len(),
        |i: int|
            if reaches(part, invert, i) && nodes[i] == from {
                to
            } else {
                nodes[i]
            },
    )
}

/// The IDs `nodes` with each ID above `id` lowered by one.
pub open spec fn lowered_ids(nodes: Seq<u16>, id: u16) -> Seq<u16> {
    Seq::new(
        nodes.len(),
        |i: int|
            if nodes[i] > id {
                (nodes[i] - 1) as u16
            } else {
                nodes[i]
            },
    )
}

/// The IDs `nodes` with `new_id` in place of `old_id`, and each ID above
/// `old_id` lowered by one.
pub open spec fn merged_ids(nodes: Seq<u16>, old_id: u16, new_id: u16) -> Seq<u16> {
    Seq::new(
        nodes.len(),
        |i: int|
            if nodes[i] == old_id {
                new_id
            } else if nodes[i] > old_id {
                (nodes[i] - 1) as u16
            } else {
                nodes[i]
            },
    )
}

/// The block `b` with the names `names` and the IDs `nodes`, and without
/// the stream that its nodes were read from.
pub open spec fn with_nodes(b: MapBlockView, names: Map<u16, Seq<u8>>, nodes: Seq<u16>) -> MapBlockView {
    MapBlockView {
        nimap: names,
        node_data: NodeDataView { nodes, ..b.node_data },
        node_frame: None,
        ..b
    }
}

/// What replacing the node with the ID `old_id` by the node `new_node`
/// makes of the block `b`, and how many nodes it replaces.
///
/// In a part of the block (`part` is given) the nodes get the ID of
/// `new_node`, which is the next free one if the block does not have the
/// name and then is only entered if a node was replaced; if no node is
/// left with `old_id`, the ID is removed and the IDs above it move down.
/// In the whole block, if the block has `new_node`, the nodes get its ID
/// and `old_id` is removed; if not, the name of `old_id` becomes
/// `new_node` and the nodes stay as they are.
pub open spec fn replaced_block(
    b: MapBlockView,
    part: Option<Area>,
    invert: bool,
    old_id: u16,
    new_node: Seq<u8>,
) -> (MapBlockView, nat) {
    let nodes = b.node_data.nodes;
    let replaced = count_ids(nodes, part, invert, old_id, nodes.len());
    let known = has_name(b.nimap, new_node);
    if part is Some {
        let new_id = if known {
            id_of(b.nimap, new_node)
        } else {
            (max_id(b.nimap) + 1) as u16
        };
        let nodes1 = swapped_ids(nodes, part, invert, old_id, new_id);
        let names1 = if !known && replaced > 0 {
            b.nimap.insert(new_id, new_node)
        } else {
            b.nimap
        };
        if nodes1.contains(old_id) {
            (with_nodes(b, names1, nodes1), replaced)
        } else {
            (with_nodes(b, removed_shifted(names1, old_id), lowered_ids(nodes1, old_id)), replaced)
        }
    } else if known {
        let found = id_of(b.nimap, new_node);
        let new_id = if found > old_id {
            (found - 1) as u16
        } else {
            found
        };
        (
            with_nodes(b, removed_shifted(b.nimap, old_id), merged_ids(nodes, old_id, new_id)),
            replaced,
        )
    } else {
        (MapBlockView { nimap: b.nimap.insert(old_id, new_node), ..b }, replaced)
    }
}

/// Whether the node with the ID `old_id` can be replaced by `new_node` in
/// the block `b`: the block has all its nodes, `old_id` does not have the
/// name `new_node`, and, where a part of the block is edited, the block
/// has the name `new_node` or an ID left for it.
pub open spec fn can_replace(
    b: MapBlockView,
    part: Option<Area>,
    old_id: u16,
    new_node: Seq<u8>,
) -> bool {
    &&& b.node_data.nodes.len() == NODE_COUNT
    &&& !is_id_of(b.nimap, new_node, old_id)
    &&& part is Some ==> has_name(b.nimap, new_node) || 0 <= max_id(b.nimap) < u16::MAX
}

/// The part of the block at `pos` that an edit within `area` works on, or
/// `None` where it works on the whole block: where no area is given, or
/// the area covers all of the block or none of it.
pub open spec fn edit_part(area: Option<Area>, pos: Vec3) -> Option<Area> {
    match area {
        Some(a) => if covers_partly(a, pos) {
            Some(block_part(a, pos))
        } else {
            None
        },
        None => None,
    }
}

/// The part of the block at `pos` that an edit within `area` works on.
pub fn find_edit_part(area: Option<Area>, pos: Vec3) -> (r: Option<Area>)
    requires
        area matches Some(a) ==> a.is_valid(),
    ensures
        r == edit_part(area, pos),
        r matches Some(p) ==> p.is_block_part(),
{
    match area {
        Some(a) => {
            if a.contains_block(pos) != a.touches_block(pos) {
                let part = a.rel_block_overlap(pos);
                assert(part is Some);
                part
            } else {
                None
            }
        },
        None => None,
    }
}

fn reaches_index(part: &Option<Area>, invert: bool, idx: usize) -> (r: bool)
    requires
        idx < NODE_COUNT,
    ensures
        r == reaches(*part, invert, idx as int),
{
    match part {
        Some(a) => {
            let x: i32 = (idx % 16) as i32;
            let y: i32 = ((idx / 16) % 16) as i32;
            let z: i32 = (idx / 256) as i32;
            a.contains(Vec3 { x, y, z }) != invert
        },
        None => true,
    }
}

/// Puts `to` in place of `from` at the nodes that the edit reaches, and
/// counts them.
fn swap_ids(nodes: &mut Vec<u16>, part: &Option<Area>, invert: bool, from: u16, to: u16) -> (n: u64)
    requires
        old(nodes)@.len() == NODE_COUNT,
    ensures
        final(nodes)@ == swapped_ids(old(nodes)@, *part, invert, from, to),
        n == count_ids(old(nodes)@, *part, invert, from, NODE_COUNT as nat),
{
    let ghost before = nodes@;
    let mut n: u64 = 0;
    let mut idx: usize = 0;
    while idx < NODE_COUNT
        invariant
            idx <= NODE_COUNT,
            nodes@.len() == NODE_COUNT,
            before.len() == NODE_COUNT,
            n == count_ids(before, *part, invert, from, idx as nat),
            n <= idx,
            forall|j: int|
                0 <= j < idx ==> #[trigger] nodes@[j] == swapped_ids(before, *part, invert, from, to)[j],
            forall|j: int| idx <= j < NODE_COUNT ==> #[trigger] nodes@[j] == before[j],
        decreases NODE_COUNT - idx,
    {
        if reaches_index(part, invert, idx) && nodes[idx] == from {
            nodes.set(idx, to);
            n = n + 1;
        }
        idx = idx + 1;
    }
    proof {
        assert(nodes@ =~= swapped_ids(before, *part, invert, from, to));
    }
    n
}

/// Counts the nodes with the ID `id`.
fn count_id(nodes: &Vec<u16>, id: u16, Ghost(invert): Ghost<bool>) -> (n: u64)
    requires
        nodes@.len() == NODE_COUNT,
    ensures
        n == count_ids(nodes@, None, invert, id, NODE_COUNT as nat),
{
    let mut n: u64 = 0;
    let mut idx: usize = 0;
    while idx < NODE_COUNT
        invariant
            idx <= NODE_COUNT,
            nodes@.len() == NODE_COUNT,
            n == count_ids(nodes@, None, invert, id, idx as nat),
            n <= idx,
        decreases NODE_COUNT - idx,
    {
        if nodes[idx] == id {
            n = n + 1;
        }
        idx = idx + 1;
    }
    n
}

fn contains_id(nodes: &Vec<u16>, id: u16) -> (r: bool)
    ensures
        r == nodes@.contains(id),
{
    let mut idx: usize = 0;
    while idx < nodes.len()
        invariant
            idx <= nodes@.len(),
            forall|j: int| 0 <= j < idx ==> nodes@[j] != id,
        decreases nodes@.len() - idx,
    {
        if nodes[idx] == id {
            return true;
        }
        idx = idx + 1;
    }
    false
}

/// Lowers each ID above `id` by one.
fn lower_ids(nodes: &mut Vec<u16>, id: u16)
    ensures
        final(nodes)@ == lowered_ids(old(nodes)@, id),
{
    let ghost before = nodes@;
    let mut idx: usize = 0;
    while idx < nodes.len()
        invariant
            idx <= nodes@.len(),
            nodes@.len() == before.len(),
            forall|j: int| 0 <= j < idx ==> #[trigger] nodes@[j] == lowered_ids(before, id)[j],
            forall|j: int| idx <= j < before.len() ==> #[trigger] nodes@[j] == before[j],
        decreases nodes@.len() - idx,
    {
        let v = nodes[idx];
        if v > id {
            nodes.set(idx, v - 1);
        }
        idx = idx + 1;
    }
    proof {
        assert(nodes@ =~= lowered_ids(before, id));
    }
}

/// Puts `new_id` in place of `old_id` and lowers each ID above `old_id`.
fn merge_ids(nodes: &mut Vec<u16>, old_id: u16, new_id: u16)
    ensures
        final(nodes)@ == merged_ids(old(nodes)@, old_id, new_id),
{
    let ghost before = nodes@;
    let mut idx: usize = 0;
    while idx < nodes.len()
        invariant
            idx <= nodes@.len(),
            nodes@.len() == before.len(),
            forall|j: int| 0 <= j < idx ==> #[trigger] nodes@[j] == merged_ids(before, old_id, new_id)[j],
            forall|j: int| idx <= j < before.len() ==> #[trigger] nodes@[j] == before[j],
        decreases nodes@.len() - idx,
    {
        let v = nodes[idx];
        if v == old_id {
            nodes.set(idx, new_id);
        } else if v > old_id {
            nodes.set(idx, v - 1);
        }
        idx = idx + 1;
    }
    proof {
        assert(nodes@ =~= merged_ids(before, old_id, new_id));
    }
}

/// Takes the nodes out of a block, to change them and put them back.
fn take_nodes(block: &mut MapBlock) -> (nd: NodeData)
    ensures
        nd@ == old(block)@.node_data,
        *final(block) == (MapBlock { node_data: final(block).node_data, ..*old(block) }),
{
    let mut container = ZlibContainer::new(
        NodeData { nodes: Vec::new(), param1: Vec::new(), param2: Vec::new() },
    );
    core::mem::swap(&mut block.node_data, &mut container);
    container.into_inner()
}

/// Replaces the node with the ID `old_id` by the node `new_node`: in the
/// part `part` of the block, or outside it where `invert` is set, or in
/// the whole block where no part is given. Returns the number of nodes
/// replaced.
pub fn do_replace(
    block: &mut MapBlock,
    part: Option<Area>,
    invert: bool,
    old_id: u16,
    new_node: &[u8],
) -> (count: u64)
    requires
        can_replace(old(block)@, part, old_id, new_node@),
        part matches Some(a) ==> a.is_block_part(),
    ensures
        final(block)@ == replaced_block(old(block)@, part, invert, old_id, new_node@).0,
        count == replaced_block(old(block)@, part, invert, old_id, new_node@).1,
{
    let ghost b = block@;
    let found = block.nimap.get_id(new_node);
    proof {
        if let Some(id) = found {
            lemma_id_of(b.nimap, new_node@, id);
        } else {
            assert(!has_name(b.nimap, new_node@));
        }
    }
    let ghost want = replaced_block(b, part, invert, old_id, new_node@);
    if part.is_some() {
        // Replace nodes in a portion of the mapblock.
        let (new_id, new_id_needed): (u16, bool) = match found {
            Some(id) => (id, false),
            None => match block.nimap.get_max_id() {
                Some(k) => {
                    proof {
                        lemma_max_id(b.nimap, k);
                    }
                    (k + 1, true)
                },
                None => {
                    proof {
                        assert(!(exists|k: u16| is_max_id(b.nimap, k)));
                    }
                    (0, true)
                },
            },
        };
        let mut nd = take_nodes(block);
        let replaced = swap_ids(&mut nd.nodes, &part, invert, old_id, new_id);
        let ghost nodes1 = nd.nodes@;
        // If the replacement ID is not in the name-ID map but was used, add it.
        if new_id_needed && replaced > 0 {
            block.nimap.insert(new_id, slice_to_vec(new_node));
        }
        let ghost names1 = block.nimap@;
        // If all instances of the old ID were replaced, remove the old ID.
        if !contains_id(&nd.nodes, old_id) {
            lower_ids(&mut nd.nodes, old_id);
            block.nimap.remove_shift(old_id);
        }
        block.node_data = ZlibContainer::new(nd);
        proof {
            assert(nodes1 == swapped_ids(b.node_data.nodes, part, invert, old_id, new_id));
            if nodes1.contains(old_id) {
                assert(block@ == with_nodes(b, names1, nodes1));
            } else {
                assert(block@ == with_nodes(
                    b,
                    removed_shifted(names1, old_id),
                    lowered_ids(nodes1, old_id),
                ));
            }
            assert(block@ == want.0);
        }
        replaced
    } else {
        // Replace nodes in the whole mapblock.
        match found {
            Some(found_id) => {
                // The block holds the replacement node already: the old ID
                // leaves the name-ID map, and the IDs above it move down.
                block.nimap.remove_shift(old_id);
                let new_id: u16 = if found_id > old_id {
                    found_id - 1
                } else {
                    found_id
                };
                let mut nd = take_nodes(block);
                let replaced = count_id(&nd.nodes, old_id, Ghost(invert));
                merge_ids(&mut nd.nodes, old_id, new_id);
                block.node_data = ZlibContainer::new(nd);
                proof {
                    assert(block@ == with_nodes(b, removed_shifted(b.nimap, old_id), nd.nodes@));
                    assert(block@ == want.0);
                }
                replaced
            },
            None => {
                // The block does not hold the replacement node: the name
                // of the old ID is changed.
                let replaced = count_id(&block.node_data.get_ref().nodes, old_id, Ghost(invert));
                block.nimap.insert(old_id, slice_to_vec(new_node));
                proof {
                    assert(block@ == (MapBlockView {
                        nimap: b.nimap.insert(old_id, new_node@),
                        ..b
                    }));
                    assert(block@ == want.0);
                }
                replaced
            },
        }
    }
}

/// What replacing the node `old_node` by `new_node` makes of the stored
/// block `b` at `pos`: nothing where the block does not have the name
/// `old_node` or both names are the same; a failure where `can_replace`
/// does not hold; else the block with the nodes replaced, written.
pub open spec fn replace_outcome(
    b: MapBlockView,
    pos: Vec3,
    old_node: Seq<u8>,
    new_node: Seq<u8>,
    area: Option<Area>,
    invert: bool,
) -> BlockEditView {
    if !has_name(b.nimap, old_node) || old_node == new_node {
        BlockEditView::Skipped
    } else if !can_replace(b, edit_part(area, pos), id_of(b.nimap, old_node), new_node) {
        BlockEditView::Failed
    } else {
        let done = replaced_block(
            b,
            edit_part(area, pos),
            invert,
            id_of(b.nimap, old_node),
            new_node,
        );
        written(done.0, done.1 as u64)
    }
}

/// Replaces the node `old_node` by the node `new_node` in the stored block
/// `data`, which has the key `key`: within `area`, or outside it where
/// `invert` is set, or everywhere where no area is given.
pub fn replace_block(
    data: &[u8],
    key: i64,
    old_node: &[u8],
    new_node: &[u8],
    area: Option<Area>,
    invert: bool,
) -> (r: BlockEdit)
    requires
        area matches Some(a) ==> a.is_valid(),
    ensures
        match parse_block(data@) {
            Ok(b) => r@ == replace_outcome(b, key_pos(key), old_node@, new_node@, area, invert),
            Err(e) => r@ == BlockEditView::Failed,
        },
{
    let pos = Vec3::from_block_key(key);
    let mut block = match MapBlock::deserialize(data) {
        Ok(block) => block,
        Err(_) => {
            return BlockEdit::Failed;
        },
    };
    let ghost b = block@;
    assert(pos == key_pos(key));
    assert(parse_block(data@) == Ok::<MapBlockView, MapBlockError>(b));
    let old_id: u16 = match block.nimap.get_id(old_node) {
        Some(id) => {
            proof {
                lemma_id_of(b.nimap, old_node@, id);
            }
            id
        },
        None => {
            return BlockEdit::Skipped;
        },
    };
    if bytes_eq(old_node, new_node) {
        return BlockEdit::Skipped;
    }
    let known = block.nimap.get_id(new_node);
    proof {
        if let Some(id) = known {
            lemma_id_of(b.nimap, new_node@, id);
        }
    }
    let room: bool = match block.nimap.get_max_id() {
        Some(k) => {
            proof {
                lemma_max_id(b.nimap, k);
            }
            k < 0xFFFF
        },
        None => {
            proof {
                assert(!(exists|k: u16| is_max_id(b.nimap, k)));
            }
            false
        },
    };
    let part = find_edit_part(area, pos);
    if block.node_data.get_ref().nodes.len() != NODE_COUNT || (part.is_some() && known.is_none()
        && !room) {
        return BlockEdit::Failed;
    }
    let count = do_replace(&mut block, part, invert, old_id, new_node);
    finish_block(&block, count)
}

/// Whether two texts are both missing or both given and the same.
pub open spec fn same_text(a: Option<String>, b: Option<String>) -> bool {
    match (a, b) {
        (Some(x), Some(y)) => x@ == y@,
        (None, None) => true,
        _ => false,
    }
}

/// What the check of the arguments of a replacement of nodes comes to:
/// the node that is replaced and the node that replaces it must differ.
pub open spec fn args_checked(args: InstArgs) -> ArgResultView {
    if same_text(args.node, args.new_node) {
        ArgResultView::Error("node and new_node must be different."@)
    } else {
        ArgResultView::Okay
    }
}

/// Checks the arguments of a replacement of nodes.
pub fn verify_args(args: &InstArgs) -> (r: ArgResult)
    ensures
        r@ == args_checked(*args),
{
    let same: bool = match (&args.node, &args.new_node) {
        (Some(x), Some(y)) => *x == *y,
        (None, None) => true,
        _ => false,
    };
    if same {
        return ArgResult::error("node and new_node must be different.");
    }
    ArgResult::Okay
}

} // verus!
