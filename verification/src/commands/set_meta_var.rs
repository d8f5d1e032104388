use crate::instance::InstArgs;
use crate::map_block::ZlibContainer;
use crate::map_block::id_map::increasing;
use crate::map_block::id_map::lemma_sorted_keys;
use crate::map_block::id_map::sorted_keys;
use crate::map_block::map_block::MapBlock;
use crate::map_block::map_block::MapBlockView;
use crate::map_block::map_block::parse_block;
use crate::map_block::metadata::MetaVarView;
use crate::map_block::metadata::NodeMetadataView;
use crate::map_block::metadata::has_var;
use crate::map_block::metadata::var_index;
use crate::map_block::metadata::vars_with;
use crate::map_block::metadata::vars_without;
use crate::map_block::wire::MapBlockError;
use crate::spatial::area::Area;
use crate::spatial::vec3::Vec3;
use super::ArgResult;
use super::ArgResultView;
use super::BlockEdit;
use super::BlockEditView;
use super::area_reaches;
use super::delete_meta::take_metadata;
use super::fill::key_pos;
use super::find_node_ids;
use super::finish_block;
use super::named_ids;
use super::names_view;
use super::node_among;
use super::node_is_among;
use super::reaches_key;
use super::written;
use vstd::prelude::*;
use vstd::slice::slice_to_vec;

verus! {

/// The metadata `v` with the variable `key` set to `value`, or deleted
/// where `delete` is set. Metadata without the variable stays as it is; a
/// variable that is set stays private if it was.
pub open spec fn with_var_set(
    v: NodeMetadataView,
    key: Seq<u8>,
    value: Seq<u8>,
    delete: bool,
) -> NodeMetadataView {
    if !has_var(v.vars, key) {
        v
    } else if delete {
        NodeMetadataView { vars: vars_without(v.vars, key), ..v }
    } else {
        NodeMetadataView {
            vars: vars_with(
                v.vars,
                MetaVarView { name: key, value, private: v.vars[var_index(v.vars, key)].private },
            ),
            ..v
        }
    }
}

/// Whether the edit works on the metadata with the key `k` of the block
/// `b` at `pos`: it reaches the node, the node has one of the IDs
/// `node_ids` where any are asked for, and the metadata has the variable
/// `key`.
pub open spec fn var_hit(
    b: MapBlockView,
    pos: Vec3,
    area: Option<Area>,
    invert: bool,
    node_ids: Seq<u16>,
    key: Seq<u8>,
    k: u16,
) -> bool {
    &&& area_reaches(area, invert, pos, k as int)
    &&& node_among(b.node_data.nodes, node_ids, k as int)
    &&& has_var(b.metadata[k].vars, key)
}

/// The metadata of the block `b` with the variable set or deleted where
/// the edit works on it.
pub open spec fn metadata_with_var(
    b: MapBlockView,
    pos: Vec3,
    area: Option<Area>,
    invert: bool,
    node_ids: Seq<u16>,
    key: Seq<u8>,
    value: Seq<u8>,
    delete: bool,
) -> Map<u16, NodeMetadataView> {
    Map::new(
        |k: u16| b.metadata.contains_key(k),
        |k: u16|
            if var_hit(b, pos, area, invert, node_ids, key, k) {
                with_var_set(b.metadata[k], key, value, delete)
            } else {
                b.metadata[k]
            },
    )
}

/// How many of the first `n` of `keys` the edit works on.
pub open spec fn count_var_hits(
    b: MapBlockView,
    pos: Vec3,
    area: Option<Area>,
    invert: bool,
    node_ids: Seq<u16>,
    key: Seq<u8>,
    keys: Seq<u16>,
    n: nat,
) -> nat
    decreases n,
{
    if n == 0 {
        0
    } else {
        count_var_hits(b, pos, area, invert, node_ids, key, keys, (n - 1) as nat) + if var_hit(
            b,
            pos,
            area,
            invert,
            node_ids,
            key,
            keys[n - 1],
        ) {
            1nat
        } else {
            0nat
        }
    }
}

/// How many nodes of the block `b` have metadata that the edit works on.
pub open spec fn var_hits(
    b: MapBlockView,
    pos: Vec3,
    area: Option<Area>,
    invert: bool,
    node_ids: Seq<u16>,
    key: Seq<u8>,
) -> nat {
    let keys = sorted_keys(b.metadata.dom());
    count_var_hits(b, pos, area, invert, node_ids, key, keys, keys.len())
}

/// Sets the variable `key` to `value`, or deletes it where `delete` is
/// set, in the metadata of the nodes that the edit reaches in the block at
/// `pos`; only of nodes with one of the IDs `node_ids` where any are
/// given, and only where the metadata has the variable. Returns the number
/// of nodes whose metadata was changed.
pub fn set_meta_var_in(
    block: &mut MapBlock,
    pos: Vec3,
    area: Option<Area>,
    invert: bool,
    node_ids: &Vec<u16>,
    key: &[u8],
    value: &[u8],
    delete: bool,
) -> (count: u64)
    ensures
        count == var_hits(old(block)@, pos, area, invert, node_ids@, key@),
        count == 0 ==> final(block)@ == old(block)@,
        count > 0 ==> final(block)@ == (MapBlockView {
            metadata: metadata_with_var(
                old(block)@,
                pos,
                area,
                invert,
                node_ids@,
                key@,
                value@,
                delete,
            ),
            metadata_frame: None,
            ..old(block)@
        }),
{
    let ghost b = block@;
    let ghost keys = sorted_keys(b.metadata.dom());
    proof {
        lemma_sorted_keys(b.metadata.dom());
    }
    let n = block.metadata.get_ref().len();
    // Find the metadata to change.
    let mut hits: Vec<u16> = Vec::new();
    let mut i: usize = 0;
    while i < n
        invariant
            i <= n,
            n == keys.len(),
            n <= 65536,
            keys == sorted_keys(b.metadata.dom()),
            block@ == b,
            hits@.len() == count_var_hits(b, pos, area, invert, node_ids@, key@, keys, i as nat),
            hits@.len() <= i,
            increasing(keys),
            increasing(hits@),
            forall|t: int|
                0 <= t < hits@.len() ==> exists|c: int| 0 <= c < i && keys[c] == #[trigger] hits@[t],
            forall|c: int|
                0 <= c < i && var_hit(b, pos, area, invert, node_ids@, key@, keys[c])
                    ==> hits@.contains(#[trigger] keys[c]),
            forall|t: int|
                0 <= t < hits@.len() ==> b.metadata.contains_key(#[trigger] hits@[t]) && var_hit(
                    b,
                    pos,
                    area,
                    invert,
                    node_ids@,
                    key@,
                    hits@[t],
                ),
        decreases n - i,
    {
        let idx = block.metadata.get_ref().key_at(i);
        if reaches_key(&area, invert, pos, idx) && node_is_among(
            &block.node_data.get_ref().nodes,
            node_ids,
            idx as usize,
        ) && block.metadata.get_ref().value_at(i).contains_var(key) {
            let ghost before = hits@;
            hits.push(idx);
            proof {
                assert(hits@[before.len() as int] == idx);
                assert forall|x: int, y: int| 0 <= x < y < hits@.len() implies hits@[x]
                    < hits@[y] by {
                    if y == before.len() {
                        let c = choose|c: int| 0 <= c < i && keys[c] == before[x];
                        assert(keys[c] < keys[i as int]);
                    } else {
                        assert(before[x] < before[y]);
                    }
                }
                assert forall|t: int| 0 <= t < hits@.len() implies exists|c: int|
                    0 <= c < i + 1 && keys[c] == #[trigger] hits@[t] by {
                    if t < before.len() {
                        let c = choose|c: int| 0 <= c < i && keys[c] == before[t];
                        assert(0 <= c < i + 1 && keys[c] == hits@[t]);
                    } else {
                        assert(keys[i as int] == hits@[t]);
                    }
                }
                assert forall|c: int|
                    0 <= c < i + 1 && var_hit(
                        b,
                        pos,
                        area,
                        invert,
                        node_ids@,
                        key@,
                        keys[c],
                    ) implies hits@.contains(#[trigger] keys[c]) by {
                    if c < i {
                        assert(before.contains(keys[c]));
                        let t = choose|t: int| 0 <= t < before.len() && before[t] == keys[c];
                        assert(hits@[t] == keys[c]);
                    }
                }
            }
        }
        else {
            proof {
                assert forall|t: int| 0 <= t < hits@.len() implies exists|c: int|
                    0 <= c < i + 1 && keys[c] == #[trigger] hits@[t] by {
                    let c = choose|c: int| 0 <= c < i && keys[c] == hits@[t];
                    assert(0 <= c < i + 1 && keys[c] == hits@[t]);
                }
            }
        }
        i = i + 1;
    }
    if hits.len() == 0 {
        return 0;
    }
    let mut list = take_metadata(block);
    let mut t: usize = 0;
    while t < hits.len()
        invariant
            t <= hits@.len(),
            forall|c: int| 0 <= c < hits@.len() ==> b.metadata.contains_key(#[trigger] hits@[c]),
            increasing(hits@),
            list@ == Map::<u16, NodeMetadataView>::new(
                |j: u16| b.metadata.contains_key(j),
                |j: u16|
                    if exists|c: int| 0 <= c < t && hits@[c] == j {
                        with_var_set(b.metadata[j], key@, value@, delete)
                    } else {
                        b.metadata[j]
                    },
            ),
        decreases hits@.len() - t,
    {
        let idx = hits[t];
        let ghost cur = list@;
        assert(b.metadata.contains_key(hits@[t as int]));
        match list.remove(idx) {
            Some(mut meta) => {
                let ghost before = meta@;
                if delete {
                    // Writing the block leaves out metadata that is empty.
                    meta.remove_var(key);
                } else {
                    let private: bool = match meta.get_var(key) {
                        Some(var) => var.private,
                        None => false,
                    };
                    if meta.contains_var(key) {
                        meta.set_var(slice_to_vec(key), slice_to_vec(value), private);
                    }
                }
                proof {
                    assert(meta@ == with_var_set(before, key@, value@, delete));
                    assert(before == b.metadata[idx]) by {
                        if exists|c: int| 0 <= c < t && hits@[c] == idx {
                            let c = choose|c: int| 0 <= c < t && hits@[c] == idx;
                            assert(hits@[c] < hits@[t as int]);
                        }
                    }
                }
                list.insert(idx, meta);
            },
            None => {},
        }
        proof {
            let want = Map::<u16, NodeMetadataView>::new(
                |j: u16| b.metadata.contains_key(j),
                |j: u16|
                    if exists|c: int| 0 <= c < t + 1 && hits@[c] == j {
                        with_var_set(b.metadata[j], key@, value@, delete)
                    } else {
                        b.metadata[j]
                    },
            );
            assert forall|j: u16| want.contains_key(j) implies list@.contains_key(j) && list@[j]
                == want[j] by {
                if j == idx {
                    assert(0 <= t < t + 1 && hits@[t as int] == j);
                } else {
                    if exists|c: int| 0 <= c < t + 1 && hits@[c] == j {
                        let c = choose|c: int| 0 <= c < t + 1 && hits@[c] == j;
                        assert(0 <= c < t && hits@[c] == j);
                    }
                    if exists|c: int| 0 <= c < t && hits@[c] == j {
                        let c = choose|c: int| 0 <= c < t && hits@[c] == j;
                        assert(0 <= c < t + 1 && hits@[c] == j);
                    }
                }
            }
            assert(list@ =~= want);
        }
        t = t + 1;
    }
    proof {
        let want = metadata_with_var(b, pos, area, invert, node_ids@, key@, value@, delete);
        assert forall|j: u16| want.contains_key(j) implies list@.contains_key(j) && list@[j]
            == want[j] by {
            if var_hit(b, pos, area, invert, node_ids@, key@, j) {
                assert(keys.contains(j));
                let c = choose|c: int| 0 <= c < keys.len() && keys[c] == j;
                assert(var_hit(b, pos, area, invert, node_ids@, key@, keys[c]));
                assert(hits@.contains(keys[c]));
                let d = choose|d: int| 0 <= d < hits@.len() && hits@[d] == j;
                assert(0 <= d < t && hits@[d] == j);
            } else {
                if exists|c: int| 0 <= c < t && hits@[c] == j {
                    let c = choose|c: int| 0 <= c < t && hits@[c] == j;
                    assert(var_hit(b, pos, area, invert, node_ids@, key@, hits@[c]));
                }
            }
        }
        assert(list@ =~= want);
    }
    block.metadata = ZlibContainer::new(list);
    hits.len() as u64
}

/// What setting a variable makes of the stored block `b` at `pos`: nothing
/// where nodes are asked for of which the block has none, or where no
/// metadata is changed; else the block with the variable set or deleted,
/// written.
pub open spec fn set_meta_var_outcome(
    b: MapBlockView,
    pos: Vec3,
    nodes: Seq<Seq<u8>>,
    area: Option<Area>,
    invert: bool,
    key: Seq<u8>,
    value: Seq<u8>,
    delete: bool,
) -> BlockEditView {
    let node_ids = named_ids(b.nimap, nodes, nodes.len());
    if nodes.len() > 0 && node_ids.len() == 0 {
        BlockEditView::Skipped
    } else {
        let count = var_hits(b, pos, area, invert, node_ids, key);
        if count == 0 {
            BlockEditView::Skipped
        } else {
            written(
                MapBlockView {
                    metadata: metadata_with_var(b, pos, area, invert, node_ids, key, value, delete),
                    metadata_frame: None,
                    ..b
                },
                count as u64,
            )
        }
    }
}

/// Sets the variable `key` to `value`, or deletes it where `delete` is
/// set, in the metadata of the stored block `data`, which has the key
/// `block_key`: in that of the nodes within `area`, or outside it where
/// `invert` is set, or in all where no area is given; only in that of
/// nodes with one of the names `nodes` where any are given.
pub fn set_meta_var_block(
    data: &[u8],
    block_key: i64,
    nodes: &Vec<Vec<u8>>,
    area: Option<Area>,
    invert: bool,
    key: &[u8],
    value: &[u8],
    delete: bool,
) -> (r: BlockEdit)
    ensures
        match parse_block(data@) {
            Ok(b) => r@ == set_meta_var_outcome(
                b,
                key_pos(block_key),
                names_view(nodes@),
                area,
                invert,
                key@,
                value@,
                delete,
            ),
            Err(e) => r@ == BlockEditView::Failed,
        },
{
    let pos = Vec3::from_block_key(block_key);
    let mut block = match MapBlock::deserialize(data) {
        Ok(block) => block,
        Err(_) => {
            return BlockEdit::Failed;
        },
    };
    let ghost b = block@;
    assert(pos == key_pos(block_key));
    assert(parse_block(data@) == Ok::<MapBlockView, MapBlockError>(b));
    let node_ids = find_node_ids(&block.nimap, nodes);
    if nodes.len() > 0 && node_ids.len() == 0 {
        // The block doesn't contain any of the required nodes.
        return BlockEdit::Skipped;
    }
    let count = set_meta_var_in(&mut block, pos, area, invert, &node_ids, key, value, delete);
    if count == 0 {
        return BlockEdit::Skipped;
    }
    finish_block(&block, count)
}

/// Whether a text is given and is empty.
pub open spec fn is_empty_text(value: Option<String>) -> bool {
    value matches Some(v) && v@.len() == 0
}

/// What the check of the arguments for setting a variable comes to: a
/// value must be given unless the variable is deleted, must not be given
/// where it is, and must not be empty.
pub open spec fn args_checked(args: InstArgs) -> ArgResultView {
    if args.value is None && !args.delete {
        ArgResultView::Error("value is required unless deleting the variable."@)
    } else if args.value is Some && args.delete {
        ArgResultView::Error("value cannot be used when deleting the variable."@)
    } else if is_empty_text(args.value) {
        ArgResultView::Error("Metadata value cannot be empty."@)
    } else {
        ArgResultView::Okay
    }
}

/// Checks the arguments for setting a variable.
pub fn verify_args(args: &InstArgs) -> (r: ArgResult)
    ensures
        r@ == args_checked(*args),
{
    match &args.value {
        None => {
            if !args.delete {
                return ArgResult::error("value is required unless deleting the variable.");
            }
        },
        Some(v) => {
            if args.delete {
                return ArgResult::error("value cannot be used when deleting the variable.");
            }
            let empty = String::new();
            if *v == empty {
                assert(v@.len() == 0);
                return ArgResult::error("Metadata value cannot be empty.");
            }
            assert(v@ != empty@);
            assert(v@.len() != 0) by {
                if v@.len() == 0 {
                    assert(v@ =~= empty@);
                }
            }
        },
    }
    ArgResult::Okay
}

} // verus!
