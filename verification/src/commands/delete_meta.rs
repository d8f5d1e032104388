use crate::instance::InstArgs;
use crate::map_block::ZlibContainer;
use crate::map_block::id_map::IdMap;
use crate::map_block::id_map::lemma_sorted_keys;
use crate::map_block::id_map::sorted_keys;
use crate::map_block::map_block::MapBlock;
use crate::map_block::map_block::MapBlockView;
use crate::map_block::map_block::parse_block;
use crate::map_block::metadata::NodeMetadataList;
use crate::map_block::metadata::NodeMetadataView;
use crate::map_block::wire::MapBlockError;
use crate::spatial::area::Area;
use crate::spatial::vec3::Vec3;
use super::ArgResult;
use super::ArgResultView;
use super::BlockEdit;
use super::BlockEditView;
use super::area_reaches;
use super::fill::has_name;
use super::fill::key_pos;
use super::finish_block;
use super::node_has_id;
use super::node_matches;
use super::reaches_key;
use super::replace_nodes::id_of;
use super::replace_nodes::lemma_id_of;
use super::written;
use vstd::prelude::*;

verus! {

/// Whether the edit works on the metadata with the key `k` of the block
/// `b` at `pos`: it reaches the node, and the node has the ID `node_id`
/// where one is asked for.
pub open spec fn meta_hit(
    b: MapBlockView,
    pos: Vec3,
    area: Option<Area>,
    invert: bool,
    node_id: Option<u16>,
    k: u16,
) -> bool {
    area_reaches(area, invert, pos, k as int) && node_matches(b.node_data.nodes, node_id, k as int)
}

/// The metadata of the block `b` without the metadata that the edit works
/// on.
pub open spec fn kept_metadata(
    b: MapBlockView,
    pos: Vec3,
    area: Option<Area>,
    invert: bool,
    node_id: Option<u16>,
) -> Map<u16, NodeMetadataView> {
    Map::new(
        |k: u16| b.metadata.contains_key(k) && !meta_hit(b, pos, area, invert, node_id, k),
        |k: u16| b.metadata[k],
    )
}

/// How many of the first `n` of `keys` the edit works on.
pub open spec fn count_meta_hits(
    b: MapBlockView,
    pos: Vec3,
    area: Option<Area>,
    invert: bool,
    node_id: Option<u16>,
    keys: Seq<u16>,
    n: nat,
) -> nat
    decreases n,
{
    if n == 0 {
        0
    } else {
        count_meta_hits(b, pos, area, invert, node_id, keys, (n - 1) as nat) + if meta_hit(
            b,
            pos,
            area,
            invert,
            node_id,
            keys[n - 1],
        ) {
            1nat
        } else {
            0nat
        }
    }
}

/// How many nodes of the block `b` have metadata that the edit works on.
pub open spec fn meta_hits(
    b: MapBlockView,
    pos: Vec3,
    area: Option<Area>,
    invert: bool,
    node_id: Option<u16>,
) -> nat {
    let keys = sorted_keys(b.metadata.dom());
    count_meta_hits(b, pos, area, invert, node_id, keys, keys.len())
}

/// Takes the metadata out of a block, to change it and put it back.
pub fn take_metadata(block: &mut MapBlock) -> (list: NodeMetadataList)
    ensures
        list@ == old(block)@.metadata,
        *final(block) == (MapBlock { metadata: final(block).metadata, ..*old(block) }),
{
    let mut container: ZlibContainer<NodeMetadataList> = ZlibContainer::new(IdMap::new());
    core::mem::swap(&mut block.metadata, &mut container);
    container.into_inner()
}

/// Deletes the metadata of the nodes that the edit reaches in the block at
/// `pos`; only that of nodes with the ID `node_id` where one is given.
/// Returns the number of nodes whose metadata was deleted.
pub fn delete_metadata_in(
    block: &mut MapBlock,
    pos: Vec3,
    area: Option<Area>,
    invert: bool,
    node_id: Option<u16>,
) -> (count: u64)
    ensures
        count == meta_hits(old(block)@, pos, area, invert, node_id),
        count == 0 ==> final(block)@ == old(block)@,
        count > 0 ==> final(block)@ == (MapBlockView {
            metadata: kept_metadata(old(block)@, pos, area, invert, node_id),
            metadata_frame: None,
            ..old(block)@
        }),
{
    let ghost b = block@;
    let ghost keys = sorted_keys(b.metadata.dom());
    proof {
        lemma_sorted_keys(b.metadata.dom());
    }
    let n = block.metadata.get_ref().len();
    let mut to_delete: Vec<u16> = Vec::new();
    let mut i: usize = 0;
    while i < n
        invariant
            i <= n,
            n == keys.len(),
            n <= 65536,
            keys == sorted_keys(b.metadata.dom()),
            block@ == b,
            to_delete@.len() == count_meta_hits(b, pos, area, invert, node_id, keys, i as nat),
            to_delete@.len() <= i,
            forall|c: int|
                0 <= c < i && meta_hit(b, pos, area, invert, node_id, keys[c])
                    ==> to_delete@.contains(#[trigger] keys[c]),
            forall|t: int|
                0 <= t < to_delete@.len() ==> meta_hit(
                    b,
                    pos,
                    area,
                    invert,
                    node_id,
                    #[trigger] to_delete@[t],
                ),
        decreases n - i,
    {
        let idx = block.metadata.get_ref().key_at(i);
        if reaches_key(&area, invert, pos, idx) && node_has_id(
            &block.node_data.get_ref().nodes,
            node_id,
            idx as usize,
        ) {
            let ghost before = to_delete@;
            to_delete.push(idx);
            proof {
                assert(to_delete@[before.len() as int] == idx);
                assert forall|c: int|
                    0 <= c < i + 1 && meta_hit(
                        b,
                        pos,
                        area,
                        invert,
                        node_id,
                        keys[c],
                    ) implies to_delete@.contains(#[trigger] keys[c]) by {
                    if c < i {
                        assert(before.contains(keys[c]));
                        let t = choose|t: int| 0 <= t < before.len() && before[t] == keys[c];
                        assert(to_delete@[t] == keys[c]);
                    }
                }
            }
        }
        i = i + 1;
    }
    if to_delete.len() == 0 {
        return 0;
    }
    let mut list = take_metadata(block);
    let mut t: usize = 0;
    while t < to_delete.len()
        invariant
            t <= to_delete@.len(),
            list@ == Map::<u16, NodeMetadataView>::new(
                |j: u16|
                    b.metadata.contains_key(j) && !(exists|c: int| 0 <= c < t && to_delete@[c] == j),
                |j: u16| b.metadata[j],
            ),
        decreases to_delete@.len() - t,
    {
        list.remove(to_delete[t]);
        proof {
            let want = Map::<u16, NodeMetadataView>::new(
                |j: u16|
                    b.metadata.contains_key(j) && !(exists|c: int|
                        0 <= c < t + 1 && to_delete@[c] == j),
                |j: u16| b.metadata[j],
            );
            assert forall|j: u16| want.contains_key(j) <==> list@.contains_key(j) by {
                if b.metadata.contains_key(j) && j != to_delete@[t as int] {
                    if exists|c: int| 0 <= c < t + 1 && to_delete@[c] == j {
                        let c = choose|c: int| 0 <= c < t + 1 && to_delete@[c] == j;
                        assert(0 <= c < t && to_delete@[c] == j);
                    }
                }
            }
            assert(list@ =~= want);
        }
        t = t + 1;
    }
    proof {
        let want = kept_metadata(b, pos, area, invert, node_id);
        assert(t == to_delete@.len());
        assert(i == n);
        assert forall|j: u16| want.contains_key(j) <==> list@.contains_key(j) by {
            if b.metadata.contains_key(j) && meta_hit(b, pos, area, invert, node_id, j) {
                assert(keys.contains(j));
                let c = choose|c: int| 0 <= c < keys.len() && keys[c] == j;
                assert(meta_hit(b, pos, area, invert, node_id, keys[c]));
                assert(to_delete@.contains(keys[c]));
                let d = choose|d: int| 0 <= d < to_delete@.len() && to_delete@[d] == j;
                assert(0 <= d < t && to_delete@[d] == j);
                assert(!list@.contains_key(j));
            }
            if b.metadata.contains_key(j) && !meta_hit(b, pos, area, invert, node_id, j) {
                if exists|c: int| 0 <= c < to_delete@.len() && to_delete@[c] == j {
                    let c = choose|c: int| 0 <= c < to_delete@.len() && to_delete@[c] == j;
                    assert(meta_hit(b, pos, area, invert, node_id, to_delete@[c]));
                }
            }
        }
        assert forall|j: u16| list@.contains_key(j) implies list@[j] == want[j] by {
            assert(list@[j] == b.metadata[j]);
            assert(want.contains_key(j));
            assert(want.dom().contains(j));
            assert(want[j] == b.metadata[j]);
        }
        assert(list@.dom() =~= want.dom());
        assert(list@ =~= want);
    }
    block.metadata = ZlibContainer::new(list);
    to_delete.len() as u64
}

/// What deleting metadata makes of the stored block `b` at `pos`: nothing
/// where a node is asked for that the block does not have, or where no
/// metadata is deleted; else the block without the metadata, written.
pub open spec fn delete_meta_outcome(
    b: MapBlockView,
    pos: Vec3,
    node: Option<Seq<u8>>,
    area: Option<Area>,
    invert: bool,
) -> BlockEditView {
    if node matches Some(name) && !has_name(b.nimap, name) {
        BlockEditView::Skipped
    } else {
        let node_id = match node {
            Some(name) => Some(id_of(b.nimap, name)),
            None => None,
        };
        let count = meta_hits(b, pos, area, invert, node_id);
        if count == 0 {
            BlockEditView::Skipped
        } else {
            written(
                MapBlockView {
                    metadata: kept_metadata(b, pos, area, invert, node_id),
                    metadata_frame: None,
                    ..b
                },
                count as u64,
            )
        }
    }
}

/// Deletes metadata from the stored block `data`, which has the key `key`:
/// that of the nodes within `area`, or outside it where `invert` is set,
/// or all where no area is given; only that of the nodes named `node`
/// where a name is given.
pub fn delete_meta_block(
    data: &[u8],
    key: i64,
    node: Option<&[u8]>,
    area: Option<Area>,
    invert: bool,
) -> (r: BlockEdit)
    ensures
        match parse_block(data@) {
            Ok(b) => r@ == delete_meta_outcome(
                b,
                key_pos(key),
                match node {
                    Some(name) => Some(name@),
                    None => None,
                },
                area,
                invert,
            ),
            Err(e) => r@ == BlockEditView::Failed,
        },
{
    let pos = Vec3::from_block_key(key);
    let mut block = match MapBlock::deserialize(data) {
        Ok(block) => block,
        Err(_) => {
            return BlockEdit::Failed;
        },
    };
    let ghost b = block@;
    assert(pos == key_pos(key));
    assert(parse_block(data@) == Ok::<MapBlockView, MapBlockError>(b));
    let node_id: Option<u16> = match node {
        Some(name) => match block.nimap.get_id(name) {
            Some(id) => {
                proof {
                    lemma_id_of(b.nimap, name@, id);
                }
                Some(id)
            },
            None => {
                // The block doesn't contain the required node.
                return BlockEdit::Skipped;
            },
        },
        None => None,
    };
    let count = delete_metadata_in(&mut block, pos, area, invert, node_id);
    if count == 0 {
        return BlockEdit::Skipped;
    }
    finish_block(&block, count)
}

/// What the check of the arguments for deleting metadata comes to:
/// without an area and a node all metadata is deleted, which is worth a
/// warning.
pub open spec fn args_checked(args: InstArgs) -> ArgResultView {
    if args.area is None && args.node is None {
        ArgResultView::Warning("No area or node specified. ALL metadata will be deleted!"@)
    } else {
        ArgResultView::Okay
    }
}

/// Checks the arguments for deleting metadata.
pub fn verify_args(args: &InstArgs) -> (r: ArgResult)
    ensures
        r@ == args_checked(*args),
{
    if !args.area.is_some() && !args.node.is_some() {
        return ArgResult::warning("No area or node specified. ALL metadata will be deleted!");
    }
    ArgResult::Okay
}

} // verus!
