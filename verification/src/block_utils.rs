//! Copying parts of one block into another, and tidying the names of a
//! block.

use crate::map_block::ZlibContainer;
use crate::map_block::id_map::increasing;
use crate::map_block::id_map::lemma_sorted_keys;
use crate::map_block::id_map::sorted_keys;
use crate::map_block::map_block::MapBlock;
use crate::map_block::map_block::MapBlockView;
use crate::map_block::metadata::NodeMetadataList;
use crate::map_block::metadata::NodeMetadataView;
use crate::map_block::name_id_map::NameIdMap;
use crate::map_block::node_data::NODE_COUNT;
use crate::map_block::node_data::NodeData;
use crate::map_block::node_data::NodeDataView;
use crate::spatial::area::Area;
use crate::spatial::inverse::index_in_area;
use crate::spatial::vec3::Vec3;
use vstd::arithmetic::div_mod::lemma_fundamental_div_mod_converse;
use vstd::prelude::*;
use vstd::slice::slice_to_vec;

verus! {

/// Whether `a` and `b` are parts of a block of the same extent.
pub open spec fn spec_block_parts_valid(a: &Area, b: &Area) -> bool {
    &&& a.is_block_part()
    &&& b.is_block_part()
    &&& a.max.x - a.min.x == b.max.x - b.min.x
    &&& a.max.y - a.min.y == b.max.y - b.min.y
    &&& a.max.z - a.min.z == b.max.z - b.min.z
}

fn part_valid(a: &Area) -> (r: bool)
    ensures
        r == a.is_block_part(),
{
    0 <= a.min.x && a.min.x <= a.max.x && a.max.x < 16 && 0 <= a.min.y && a.min.y <= a.max.y
        && a.max.y < 16 && 0 <= a.min.z && a.min.z <= a.max.z && a.max.z < 16
}

/// Whether `a` and `b` are parts of a block of the same extent.
#[verifier::when_used_as_spec(spec_block_parts_valid)]
pub fn block_parts_valid(a: &Area, b: &Area) -> (r: bool)
    ensures
        r == spec_block_parts_valid(a, b),
{
    part_valid(a) && part_valid(b) && a.max.x - a.min.x == b.max.x - b.min.x && a.max.y - a.min.y
        == b.max.y - b.min.y && a.max.z - a.min.z == b.max.z - b.min.z
}

/// By how much the index of a node grows when it is moved from its place
/// in `src_area` to the same place in `dst_area`.
pub open spec fn index_shift(src_area: Area, dst_area: Area) -> int {
    (dst_area.min.x - src_area.min.x) + 16 * (dst_area.min.y - src_area.min.y) + 256 * (
    dst_area.min.z - src_area.min.z)
}

/// The greatest ID of a map of names, or -1 if it has none.
pub open spec fn max_id(m: Map<u16, Seq<u8>>) -> int
    decreases 0nat,
{
    if exists|k: u16| is_max_id(m, k) {
        (choose|k: u16| is_max_id(m, k)) as int
    } else {
        -1
    }
}

/// Whether `k` is the greatest ID of `m`.
pub open spec fn is_max_id(m: Map<u16, Seq<u8>>, k: u16) -> bool {
    m.contains_key(k) && forall|j: u16| m.contains_key(j) ==> j <= k
}

/// A map has one greatest ID at most.
pub proof fn lemma_max_id(m: Map<u16, Seq<u8>>, k: u16)
    requires
        is_max_id(m, k),
    ensures
        max_id(m) == k,
{
    let c = choose|c: u16| is_max_id(m, c);
    assert(c <= k && k <= c);
}

/// The names of `dst` with those of `src` added at IDs raised by `shift`.
pub open spec fn merged_names(src: Map<u16, Seq<u8>>, dst: Map<u16, Seq<u8>>, shift: int) -> Map<
    u16,
    Seq<u8>,
> {
    Map::new(
        |k: u16| dst.contains_key(k) || (k >= shift && src.contains_key((k - shift) as u16)),
        |k: u16|
            if k >= shift && src.contains_key((k - shift) as u16) {
                src[(k - shift) as u16]
            } else {
                dst[k]
            },
    )
}

/// The ID of the node `i` after the merge: that of the node which is moved
/// there, raised by `shift`, or the one it had.
pub open spec fn merged_id(
    src: Seq<u16>,
    dst: Seq<u16>,
    dst_area: Area,
    diff: int,
    shift: int,
    i: int,
) -> u16 {
    if index_in_area(dst_area, i) {
        (src[i - diff] + shift) as u16
    } else {
        dst[i]
    }
}

/// A parameter of the node `i` after the merge: that of the node which is
/// moved there, or the one it had.
pub open spec fn merged_param(src: Seq<u8>, dst: Seq<u8>, dst_area: Area, diff: int, i: int) -> u8 {
    if index_in_area(dst_area, i) {
        src[i - diff]
    } else {
        dst[i]
    }
}

/// The nodes of `dst` with the part `src_area` of `src` copied to
/// `dst_area`, the IDs of the copied nodes raised by `shift`.
pub open spec fn merged_nodes(
    src: NodeDataView,
    dst: NodeDataView,
    src_area: Area,
    dst_area: Area,
    shift: int,
) -> NodeDataView {
    let diff = index_shift(src_area, dst_area);
    NodeDataView {
        nodes: Seq::new(
            NODE_COUNT as nat,
            |i: int| merged_id(src.nodes, dst.nodes, dst_area, diff, shift, i),
        ),
        param1: Seq::new(
            NODE_COUNT as nat,
            |i: int| merged_param(src.param1, dst.param1, dst_area, diff, i),
        ),
        param2: Seq::new(
            NODE_COUNT as nat,
            |i: int| merged_param(src.param2, dst.param2, dst_area, diff, i),
        ),
    }
}

/// A node of the part `dst_area` comes from a node of the part `src_area`.
pub proof fn lemma_index_shift(src_area: Area, dst_area: Area, i: int)
    requires
        block_parts_valid(&src_area, &dst_area),
        0 <= i < NODE_COUNT,
        index_in_area(dst_area, i),
    ensures
        0 <= i - index_shift(src_area, dst_area) < NODE_COUNT,
        index_in_area(src_area, i - index_shift(src_area, dst_area)),
{
    let x = i % 16;
    let y = (i / 16) % 16;
    let z = i / 256;
    assert(i == x + 16 * y + 256 * z);
    let sx = x - (dst_area.min.x - src_area.min.x);
    let sy = y - (dst_area.min.y - src_area.min.y);
    let sz = z - (dst_area.min.z - src_area.min.z);
    let k = i - index_shift(src_area, dst_area);
    assert(k == sx + 16 * sy + 256 * sz);
    assert(0 <= sx < 16 && 0 <= sy < 16 && 0 <= sz < 16);
    assert(k % 16 == sx);
    assert((k / 16) % 16 == sy);
    assert(k / 256 == sz);
}

/// The block `dst` after the part `src_area` of `src` has been copied to
/// its part `dst_area`. The names of `src` stand behind those of `dst`;
/// names that are then double or unused are left in. The stream that the
/// nodes were read from is no longer kept.
pub open spec fn merged_blocks(
    src: MapBlockView,
    dst: MapBlockView,
    src_area: Area,
    dst_area: Area,
) -> MapBlockView {
    let shift = max_id(dst.nimap) + 1;
    MapBlockView {
        node_data: merged_nodes(src.node_data, dst.node_data, src_area, dst_area, shift),
        node_frame: None,
        nimap: merged_names(src.nimap, dst.nimap, shift),
        ..dst
    }
}

/// Whether the names and nodes of `src` can be merged into `dst`: both
/// have all their nodes, every node of `src` has a name, `dst` has a name,
/// and the IDs of `src` still fit behind those of `dst`.
pub open spec fn spec_can_merge(src: MapBlockView, dst: MapBlockView) -> bool {
    &&& src.node_data.is_complete()
    &&& dst.node_data.is_complete()
    &&& src.ids_valid()
    &&& max_id(dst.nimap) >= 0
    &&& max_id(dst.nimap) + 1 + max_id(src.nimap) <= u16::MAX
}

/// Whether `merge_blocks` can copy from `src` to `dst`.
pub fn can_merge(src: &MapBlock, dst: &MapBlock) -> (r: bool)
    ensures
        r == spec_can_merge(src@, dst@),
{
    let src_nd = src.node_data.get_ref();
    let dst_nd = dst.node_data.get_ref();
    if src_nd.nodes.len() != NODE_COUNT || src_nd.param1.len() != NODE_COUNT || src_nd.param2.len()
        != NODE_COUNT || dst_nd.nodes.len() != NODE_COUNT || dst_nd.param1.len() != NODE_COUNT
        || dst_nd.param2.len() != NODE_COUNT {
        return false;
    }
    if !src.has_valid_ids() {
        return false;
    }
    let dst_max: u16 = match dst.nimap.get_max_id() {
        Some(k) => {
            proof {
                lemma_max_id(dst@.nimap, k);
            }
            k
        },
        None => {
            return false;
        },
    };
    match src.nimap.get_max_id() {
        Some(k) => {
            proof {
                lemma_max_id(src@.nimap, k);
            }
            dst_max as u32 + 1 + k as u32 <= 0xFFFF
        },
        None => true,
    }
}

/// Copies the part `src_area` of one block to the part `dst_area` of
/// another: the IDs with their names, and both parameters.
///
/// Names that are then double or unused are left in.
pub fn merge_blocks(src_block: &MapBlock, dst_block: &mut MapBlock, src_area: Area, dst_area: Area)
    requires
        block_parts_valid(&src_area, &dst_area),
        spec_can_merge(src_block@, old(dst_block)@),
    ensures
        final(dst_block)@ == merged_blocks(src_block@, old(dst_block)@, src_area, dst_area),
{
    let ghost src = src_block@;
    let ghost dst = dst_block@;
    let src_nd = src_block.node_data.get_ref();
    let diff: i32 = (dst_area.min.x - src_area.min.x) + (dst_area.min.y - src_area.min.y) * 16 + (
    dst_area.min.z - src_area.min.z) * 256;
    match src_block.nimap.get_max_id() {
        Some(k) => {
            proof {
                lemma_max_id(src.nimap, k);
            }
        },
        None => {
            proof {
                assert(src.nimap.contains_key(src.node_data.nodes[0]));
            }
        },
    }
    let nimap_diff: u16 = match dst_block.nimap.get_max_id() {
        Some(k) => {
            proof {
                lemma_max_id(dst.nimap, k);
            }
            k + 1
        },
        None => {
            proof {
                assert(!(exists|k: u16| is_max_id(dst.nimap, k)));
            }
            0
        },
    };
    // Copy the names.
    let n = src_block.nimap.len();
    let ghost keys = sorted_keys(src.nimap.dom());
    proof {
        lemma_sorted_keys(src.nimap.dom());
    }
    let mut i: usize = 0;
    while i < n
        invariant
            i <= n,
            n == keys.len(),
            keys == sorted_keys(src.nimap.dom()),
            src == src_block@,
            nimap_diff == max_id(dst.nimap) + 1,
            forall|k: u16| dst.nimap.contains_key(k) ==> k < nimap_diff,
            forall|k: u16| src.nimap.contains_key(k) ==> k <= max_id(src.nimap),
            max_id(dst.nimap) + 1 + max_id(src.nimap) <= u16::MAX,
            *dst_block == (MapBlock { nimap: dst_block.nimap, ..*old(dst_block) }),
            dst_block.nimap@ == Map::<u16, Seq<u8>>::new(
                |k: u16|
                    dst.nimap.contains_key(k) || (k >= nimap_diff && src.nimap.contains_key(
                        (k - nimap_diff) as u16,
                    ) && exists|c: int| 0 <= c < i && keys[c] == (k - nimap_diff) as u16),
                |k: u16|
                    if k >= nimap_diff && src.nimap.contains_key((k - nimap_diff) as u16) {
                        src.nimap[(k - nimap_diff) as u16]
                    } else {
                        dst.nimap[k]
                    },
            ),
        decreases n - i,
    {
        let id = src_block.nimap.0.key_at(i);
        let name = slice_to_vec(src_block.nimap.0.value_at(i).as_slice());
        let ghost cur = dst_block.nimap@;
        proof {
            assert(src.nimap.contains_key(id));
        }
        dst_block.nimap.insert(id + nimap_diff, name);
        proof {
            let want = Map::<u16, Seq<u8>>::new(
                |k: u16|
                    dst.nimap.contains_key(k) || (k >= nimap_diff && src.nimap.contains_key(
                        (k - nimap_diff) as u16,
                    ) && exists|c: int| 0 <= c < i + 1 && keys[c] == (k - nimap_diff) as u16),
                |k: u16|
                    if k >= nimap_diff && src.nimap.contains_key((k - nimap_diff) as u16) {
                        src.nimap[(k - nimap_diff) as u16]
                    } else {
                        dst.nimap[k]
                    },
            );
            assert forall|k: u16| want.contains_key(k) <==> dst_block.nimap@.contains_key(k) by {
                if k == id + nimap_diff {
                    assert(keys[i as int] == (k - nimap_diff) as u16);
                }
                if want.contains_key(k) && !dst.nimap.contains_key(k) {
                    let c = choose|c: int| 0 <= c < i + 1 && keys[c] == (k - nimap_diff) as u16;
                    if c < i {
                        assert(cur.contains_key(k));
                    }
                }
                if cur.contains_key(k) && !dst.nimap.contains_key(k) {
                    let c = choose|c: int| 0 <= c < i && keys[c] == (k - nimap_diff) as u16;
                    assert(0 <= c < i + 1 && keys[c] == (k - nimap_diff) as u16);
                }
            }
            assert(dst_block.nimap@ =~= want);
        }
        i = i + 1;
    }
    proof {
        assert forall|k: u16|
            merged_names(src.nimap, dst.nimap, nimap_diff as int).contains_key(k)
                <==> dst_block.nimap@.contains_key(k) by {
            if k >= nimap_diff && src.nimap.contains_key((k - nimap_diff) as u16) {
                assert(keys.contains((k - nimap_diff) as u16));
            }
        }
        assert(dst_block.nimap@ =~= merged_names(src.nimap, dst.nimap, nimap_diff as int));
    }
    // Copy the nodes.
    let mut container = ZlibContainer::new(
        NodeData { nodes: Vec::new(), param1: Vec::new(), param2: Vec::new() },
    );
    core::mem::swap(&mut dst_block.node_data, &mut container);
    let mut nd = container.into_inner();
    let ghost shift = nimap_diff as int;
    let mut idx: usize = 0;
    while idx < NODE_COUNT
        invariant
            idx <= NODE_COUNT,
            block_parts_valid(&src_area, &dst_area),
            diff == index_shift(src_area, dst_area),
            src_nd@ == src.node_data,
            src.node_data.is_complete(),
            dst.node_data.is_complete(),
            src.ids_valid(),
            shift == nimap_diff,
            forall|k: u16| src.nimap.contains_key(k) ==> k <= max_id(src.nimap),
            nimap_diff + max_id(src.nimap) <= u16::MAX,
            nd@.is_complete(),
            forall|j: int|
                0 <= j < idx ==> #[trigger] nd@.nodes[j] == merged_id(
                    src.node_data.nodes,
                    dst.node_data.nodes,
                    dst_area,
                    diff as int,
                    shift,
                    j,
                ),
            forall|j: int|
                0 <= j < idx ==> #[trigger] nd@.param1[j] == merged_param(
                    src.node_data.param1,
                    dst.node_data.param1,
                    dst_area,
                    diff as int,
                    j,
                ),
            forall|j: int|
                0 <= j < idx ==> #[trigger] nd@.param2[j] == merged_param(
                    src.node_data.param2,
                    dst.node_data.param2,
                    dst_area,
                    diff as int,
                    j,
                ),
            forall|j: int| idx <= j < NODE_COUNT ==> #[trigger] nd@.nodes[j] == dst.node_data.nodes[j],
            forall|j: int|
                idx <= j < NODE_COUNT ==> #[trigger] nd@.param1[j] == dst.node_data.param1[j],
            forall|j: int|
                idx <= j < NODE_COUNT ==> #[trigger] nd@.param2[j] == dst.node_data.param2[j],
        decreases NODE_COUNT - idx,
    {
        let x: i32 = (idx % 16) as i32;
        let y: i32 = ((idx / 16) % 16) as i32;
        let z: i32 = (idx / 256) as i32;
        if dst_area.contains(Vec3 { x, y, z }) {
            proof {
                lemma_index_shift(src_area, dst_area, idx as int);
            }
            let from: usize = (idx as i32 - diff) as usize;
            proof {
                assert(src.nimap.contains_key(src.node_data.nodes[from as int]));
            }
            nd.nodes.set(idx, src_nd.nodes[from] + nimap_diff);
            nd.param1.set(idx, src_nd.param1[from]);
            nd.param2.set(idx, src_nd.param2[from]);
        }
        idx = idx + 1;
    }
    proof {
        let want = merged_nodes(src.node_data, dst.node_data, src_area, dst_area, shift);
        assert(nd@.nodes =~= want.nodes);
        assert(nd@.param1 =~= want.param1);
        assert(nd@.param2 =~= want.param2);
    }
    dst_block.node_data = ZlibContainer::new(nd);
}

/// The position in its block of the node that the metadata with the key
/// `k` belongs to. Bits above the twelfth are ignored.
pub open spec fn key_pos(k: int) -> Vec3 {
    Vec3 { x: (k % 16) as i32, y: ((k / 16) % 16) as i32, z: ((k / 256) % 16) as i32 }
}

/// Whether the node with the key `k` lies in the part `area` of its block.
pub open spec fn key_in_area(area: Area, k: int) -> bool {
    area.contains(key_pos(k))
}

/// The digits of a number to the base 16.
proof fn lemma_digits(k: int, x: int, y: int, z: int, h: int)
    requires
        0 <= x < 16,
        0 <= y < 16,
        0 <= z < 16,
        k == x + 16 * y + 256 * z + 4096 * h,
    ensures
        k % 16 == x,
        (k / 16) % 16 == y,
        (k / 256) % 16 == z,
        k / 256 == z + 16 * h,
{
    lemma_fundamental_div_mod_converse(k, 16, y + 16 * z + 256 * h, x);
    lemma_fundamental_div_mod_converse(y + 16 * z + 256 * h, 16, z + 16 * h, y);
    lemma_fundamental_div_mod_converse(k, 256, z + 16 * h, x + 16 * y);
    lemma_fundamental_div_mod_converse(z + 16 * h, 16, h, z);
}

/// A key of the part `a` moves to a key of the part `b`.
pub proof fn lemma_key_shift(a: Area, b: Area, k: int)
    requires
        block_parts_valid(&a, &b),
        0 <= k <= u16::MAX,
        key_in_area(a, k),
    ensures
        0 <= k + index_shift(a, b) <= u16::MAX,
        key_in_area(b, k + index_shift(a, b)),
        index_shift(b, a) == -index_shift(a, b),
{
    let q = k / 256;
    let r = k % 256;
    let x = r % 16;
    let y = r / 16;
    let z = q % 16;
    let h = q / 16;
    assert(k == x + 16 * y + 256 * z + 4096 * h);
    lemma_digits(k, x, y, z, h);
    let tx = x + (b.min.x - a.min.x);
    let ty = y + (b.min.y - a.min.y);
    let tz = z + (b.min.z - a.min.z);
    let j = k + index_shift(a, b);
    assert(j == tx + 16 * ty + 256 * tz + 4096 * h);
    assert(0 <= h < 16);
    lemma_digits(j, tx, ty, tz, h);
}

/// The metadata of `dst` after the part `src_area` of `src` has been
/// copied to its part `dst_area`: within that part only what was copied,
/// elsewhere what there was.
pub open spec fn merged_metadata(
    src: Map<u16, NodeMetadataView>,
    dst: Map<u16, NodeMetadataView>,
    src_area: Area,
    dst_area: Area,
) -> Map<u16, NodeMetadataView> {
    let diff = index_shift(src_area, dst_area);
    Map::new(
        |j: u16|
            if key_in_area(dst_area, j as int) {
                src.contains_key((j - diff) as u16)
            } else {
                dst.contains_key(j)
            },
        |j: u16|
            if key_in_area(dst_area, j as int) {
                src[(j - diff) as u16]
            } else {
                dst[j]
            },
    )
}

fn key_is_in_area(area: &Area, k: u16) -> (r: bool)
    ensures
        r == key_in_area(*area, k as int),
{
    area.contains(Vec3::from_u16_key(k))
}

/// Copies the metadata of the part `src_area` of one block to the part
/// `dst_area` of another, in place of the metadata that was there.
pub fn merge_metadata(
    src_meta: &NodeMetadataList,
    dst_meta: &mut NodeMetadataList,
    src_area: Area,
    dst_area: Area,
)
    requires
        block_parts_valid(&src_area, &dst_area),
    ensures
        final(dst_meta)@ == merged_metadata(src_meta@, old(dst_meta)@, src_area, dst_area),
{
    let ghost src = src_meta@;
    let ghost dst = dst_meta@;
    let diff: i32 = (dst_area.min.x - src_area.min.x) + (dst_area.min.y - src_area.min.y) * 16 + (
    dst_area.min.z - src_area.min.z) * 256;
    // Delete any existing metadata in the destination area.
    let n = dst_meta.len();
    let ghost dkeys = sorted_keys(dst.dom());
    proof {
        lemma_sorted_keys(dst.dom());
    }
    let mut to_delete: Vec<u16> = Vec::new();
    let mut i: usize = 0;
    while i < n
        invariant
            i <= n,
            n == dkeys.len(),
            dkeys == sorted_keys(dst.dom()),
            dst_meta@ == dst,
            forall|c: int|
                0 <= c < i && key_in_area(dst_area, dkeys[c] as int) ==> to_delete@.contains(
                    #[trigger] dkeys[c],
                ),
            forall|t: int|
                0 <= t < to_delete@.len() ==> key_in_area(dst_area, #[trigger] to_delete@[t] as int),
        decreases n - i,
    {
        let idx = dst_meta.key_at(i);
        if key_is_in_area(&dst_area, idx) {
            let ghost before = to_delete@;
            to_delete.push(idx);
            proof {
                assert(to_delete@[before.len() as int] == idx);
                assert forall|c: int|
                    0 <= c < i + 1 && key_in_area(dst_area, dkeys[c] as int) implies to_delete@.contains(
                    #[trigger] dkeys[c],
                ) by {
                    if c < i {
                        assert(before.contains(dkeys[c]));
                        let t = choose|t: int| 0 <= t < before.len() && before[t] == dkeys[c];
                        assert(to_delete@[t] == dkeys[c]);
                    }
                }
            }
        }
        i = i + 1;
    }
    let mut t: usize = 0;
    while t < to_delete.len()
        invariant
            t <= to_delete@.len(),
            dst_meta@ == Map::<u16, NodeMetadataView>::new(
                |j: u16|
                    dst.contains_key(j) && !(exists|c: int| 0 <= c < t && to_delete@[c] == j),
                |j: u16| dst[j],
            ),
        decreases to_delete@.len() - t,
    {
        let ghost cur = dst_meta@;
        dst_meta.remove(to_delete[t]);
        proof {
            let want = Map::<u16, NodeMetadataView>::new(
                |j: u16|
                    dst.contains_key(j) && !(exists|c: int| 0 <= c < t + 1 && to_delete@[c] == j),
                |j: u16| dst[j],
            );
            assert forall|j: u16| want.contains_key(j) <==> dst_meta@.contains_key(j) by {
                if dst.contains_key(j) && j != to_delete@[t as int] {
                    if exists|c: int| 0 <= c < t + 1 && to_delete@[c] == j {
                        let c = choose|c: int| 0 <= c < t + 1 && to_delete@[c] == j;
                        assert(0 <= c < t && to_delete@[c] == j);
                    }
                }
            }
            assert(dst_meta@ =~= want);
        }
        t = t + 1;
    }
    let ghost base = dst_meta@;
    proof {
        assert forall|j: u16| base.contains_key(j) <==> dst.contains_key(j) && !key_in_area(
            dst_area,
            j as int,
        ) by {
            if dst.contains_key(j) && key_in_area(dst_area, j as int) {
                assert(dkeys.contains(j));
                let c = choose|c: int| 0 <= c < dkeys.len() && dkeys[c] == j;
                assert(to_delete@.contains(dkeys[c]));
                let d = choose|d: int| 0 <= d < to_delete@.len() && to_delete@[d] == j;
                assert(0 <= d < to_delete@.len() && to_delete@[d] == j);
            }
            if base.contains_key(j) && key_in_area(dst_area, j as int) {
            }
            if dst.contains_key(j) && !key_in_area(dst_area, j as int) {
                if exists|c: int| 0 <= c < to_delete@.len() && to_delete@[c] == j {
                    let c = choose|c: int| 0 <= c < to_delete@.len() && to_delete@[c] == j;
                    assert(key_in_area(dst_area, to_delete@[c] as int));
                }
            }
        }
    }
    // Copy new metadata.
    let m = src_meta.len();
    let ghost skeys = sorted_keys(src.dom());
    proof {
        lemma_sorted_keys(src.dom());
    }
    let mut i: usize = 0;
    while i < m
        invariant
            i <= m,
            m == skeys.len(),
            skeys == sorted_keys(src.dom()),
            src == src_meta@,
            block_parts_valid(&src_area, &dst_area),
            diff == index_shift(src_area, dst_area),
            forall|j: u16| base.contains_key(j) ==> !key_in_area(dst_area, j as int),
            dst_meta@ == Map::<u16, NodeMetadataView>::new(
                |j: u16|
                    if key_in_area(dst_area, j as int) {
                        src.contains_key((j - diff) as u16) && exists|c: int|
                            0 <= c < i && skeys[c] == (j - diff) as u16
                    } else {
                        base.contains_key(j)
                    },
                |j: u16|
                    if key_in_area(dst_area, j as int) {
                        src[(j - diff) as u16]
                    } else {
                        base[j]
                    },
            ),
        decreases m - i,
    {
        let idx = src_meta.key_at(i);
        if key_is_in_area(&src_area, idx) {
            proof {
                lemma_key_shift(src_area, dst_area, idx as int);
            }
            let meta = src_meta.value_at(i).clone();
            let ghost cur = dst_meta@;
            let to: u16 = (idx as i32 + diff) as u16;
            dst_meta.insert(to, meta);
            proof {
                let want = Map::<u16, NodeMetadataView>::new(
                    |j: u16|
                        if key_in_area(dst_area, j as int) {
                            src.contains_key((j - diff) as u16) && exists|c: int|
                                0 <= c < i + 1 && skeys[c] == (j - diff) as u16
                        } else {
                            base.contains_key(j)
                        },
                    |j: u16|
                        if key_in_area(dst_area, j as int) {
                            src[(j - diff) as u16]
                        } else {
                            base[j]
                        },
                );
                assert forall|j: u16| want.contains_key(j) <==> dst_meta@.contains_key(j) by {
                    if key_in_area(dst_area, j as int) {
                        lemma_key_shift(dst_area, src_area, j as int);
                        if j == to {
                            assert(skeys[i as int] == (j - diff) as u16);
                        }
                        if want.contains_key(j) {
                            let c = choose|c: int| 0 <= c < i + 1 && skeys[c] == (j - diff) as u16;
                            if c < i {
                                assert(cur.contains_key(j));
                            }
                        }
                        if cur.contains_key(j) {
                            let c = choose|c: int| 0 <= c < i && skeys[c] == (j - diff) as u16;
                            assert(0 <= c < i + 1 && skeys[c] == (j - diff) as u16);
                        }
                    }
                }
                assert forall|j: u16| want.contains_key(j) implies want[j] == dst_meta@[j] by {
                    if key_in_area(dst_area, j as int) {
                        lemma_key_shift(dst_area, src_area, j as int);
                    }
                }
                assert(dst_meta@ =~= want);
            }
        } else {
            proof {
                let cur = dst_meta@;
                assert forall|j: u16|
                    key_in_area(dst_area, j as int) && src.contains_key((j - diff) as u16) && (
                    exists|c: int| 0 <= c < i + 1 && skeys[c] == (j - diff) as u16)
                        implies (exists|c: int| 0 <= c < i && skeys[c] == (j - diff) as u16) by {
                    lemma_key_shift(dst_area, src_area, j as int);
                    let c = choose|c: int| 0 <= c < i + 1 && skeys[c] == (j - diff) as u16;
                    assert(c != i);
                }
                let want = Map::<u16, NodeMetadataView>::new(
                    |j: u16|
                        if key_in_area(dst_area, j as int) {
                            src.contains_key((j - diff) as u16) && exists|c: int|
                                0 <= c < i + 1 && skeys[c] == (j - diff) as u16
                        } else {
                            base.contains_key(j)
                        },
                    |j: u16|
                        if key_in_area(dst_area, j as int) {
                            src[(j - diff) as u16]
                        } else {
                            base[j]
                        },
                );
                assert forall|j: u16| want.contains_key(j) <==> cur.contains_key(j) by {
                    if cur.contains_key(j) && key_in_area(dst_area, j as int) {
                        let c = choose|c: int| 0 <= c < i && skeys[c] == (j - diff) as u16;
                        assert(0 <= c < i + 1 && skeys[c] == (j - diff) as u16);
                    }
                }
                assert(cur =~= want);
            }
        }
        i = i + 1;
    }
    proof {
        let want = merged_metadata(src, dst, src_area, dst_area);
        assert forall|j: u16| want.contains_key(j) <==> dst_meta@.contains_key(j) by {
            if key_in_area(dst_area, j as int) && src.contains_key((j - diff) as u16) {
                assert(skeys.contains((j - diff) as u16));
            }
        }
        assert(dst_meta@ =~= want);
    }
}

/// Whether a node of the block has the ID `id`.
pub open spec fn id_used(b: MapBlockView, id: u16) -> bool {
    exists|i: int| 0 <= i < b.node_data.nodes.len() && b.node_data.nodes[i] == id
}

/// Whether the IDs of `m` are exactly those below `w`.
pub open spec fn names_dense(m: Map<u16, Seq<u8>>, w: int) -> bool {
    forall|k: u16| m.contains_key(k) <==> k < w
}

/// Whether no two IDs of `m` have the same name.
pub open spec fn names_distinct(m: Map<u16, Seq<u8>>) -> bool {
    forall|a: u16, b: u16| m.contains_key(a) && m.contains_key(b) && a != b ==> m[a] != m[b]
}

/// Whether the names of a block are tidy: the IDs run from 0 on without a
/// gap, no name stands twice, every ID is that of some node, and every
/// node's ID has a name.
pub open spec fn is_clean(b: MapBlockView) -> bool {
    &&& forall|k: u16, j: u16| b.nimap.contains_key(k) && j < k ==> b.nimap.contains_key(j)
    &&& names_distinct(b.nimap)
    &&& forall|k: u16| b.nimap.contains_key(k) ==> id_used(b, k)
    &&& b.ids_valid()
}

/// Whether `after` is `before` with its names tidied, where `reps` gives
/// for each new ID the lowest old ID in use that had its name. New IDs are
/// given out in the order of those old IDs; each node keeps its name.
pub open spec fn cleaned_by(before: MapBlockView, after: MapBlockView, reps: Seq<u16>) -> bool {
    &&& after == (MapBlockView {
        nimap: after.nimap,
        node_data: NodeDataView { nodes: after.node_data.nodes, ..before.node_data },
        node_frame: None,
        ..before
    })
    &&& after.node_data.nodes.len() == before.node_data.nodes.len()
    &&& reps.len() <= 65536
    &&& names_dense(after.nimap, reps.len() as int)
    &&& names_distinct(after.nimap)
    &&& increasing(reps)
    &&& forall|a: int|
        0 <= a < reps.len() ==> id_used(before, #[trigger] reps[a]) && before.nimap.contains_key(
            reps[a],
        ) && before.nimap[reps[a]] == after.nimap[a as u16]
    &&& forall|i: int|
        0 <= i < after.node_data.nodes.len() ==> (#[trigger] after.node_data.nodes[i]) < reps.len()
            && after.nimap[after.node_data.nodes[i]] == before.nimap[before.node_data.nodes[i]]
            && reps[after.node_data.nodes[i] as int] <= before.node_data.nodes[i]
}

/// Whether `after` is `before` with its names tidied.
pub open spec fn cleaned(before: MapBlockView, after: MapBlockView) -> bool {
    exists|reps: Seq<u16>| cleaned_by(before, after, reps)
}

/// A block whose names were tidied is clean.
pub proof fn lemma_cleaned_is_clean(before: MapBlockView, after: MapBlockView)
    requires
        cleaned(before, after),
    ensures
        is_clean(after),
{
    let reps = choose|reps: Seq<u16>| cleaned_by(before, after, reps);
    assert forall|k: u16| after.nimap.contains_key(k) implies id_used(after, k) by {
        let o = reps[k as int];
        assert(id_used(before, o));
        let i = choose|i: int|
            0 <= i < before.node_data.nodes.len() && before.node_data.nodes[i] == o;
        let a = after.node_data.nodes[i];
        assert(after.nimap.contains_key(a));
        assert(after.nimap[a] == after.nimap[k]);
    }
    assert forall|i: int| 0 <= i < after.node_data.nodes.len() implies after.nimap.contains_key(
        #[trigger] after.node_data.nodes[i],
    ) by {}
}

/// Whether `o` stands in `reps`.
spec fn stands_in(reps: Seq<u16>, o: int) -> bool {
    exists|c: int| 0 <= c < reps.len() && reps[c] == o
}

/// A rising sequence that holds every number below `w`, and no other,
/// counts from 0.
proof fn lemma_rising_onto(reps: Seq<u16>, w: int, a: int)
    requires
        increasing(reps),
        forall|c: int| 0 <= c < reps.len() ==> #[trigger] reps[c] < w,
        forall|o: int| 0 <= o < w ==> #[trigger] stands_in(reps, o),
        0 <= a < reps.len(),
    ensures
        reps[a] == a,
    decreases a,
{
    if a > 0 {
        lemma_rising_onto(reps, w, a - 1);
        assert(reps[a - 1] < reps[a]);
    }
    // reps[a] >= a; the value a is taken at some index, which must be a.
    assert(reps[a] < w);
    assert(stands_in(reps, a));
    let c = choose|c: int| 0 <= c < reps.len() && reps[c] == a;
    if c < a {
        lemma_rising_onto(reps, w, c);
    } else if c > a {
        assert(reps[a] < reps[c]);
    }
}

/// Tidying the names of a block twice gives what tidying them once gives.
pub proof fn lemma_clean_idempotent(b0: MapBlockView, b1: MapBlockView, b2: MapBlockView)
    requires
        cleaned(b0, b1),
        cleaned(b1, b2),
    ensures
        b2 == b1,
{
    lemma_cleaned_is_clean(b0, b1);
    let reps1 = choose|reps: Seq<u16>| cleaned_by(b0, b1, reps);
    let reps = choose|reps: Seq<u16>| cleaned_by(b1, b2, reps);
    let w1 = reps1.len() as int;
    // Every ID of b1 stands in reps.
    assert forall|o: int| 0 <= o < w1 implies #[trigger] stands_in(reps, o) by {
        assert(b1.nimap.contains_key(o as u16));
        assert(id_used(b1, o as u16));
        let i = choose|i: int| 0 <= i < b1.node_data.nodes.len() && b1.node_data.nodes[i] == o as u16;
        let a = b2.node_data.nodes[i];
        assert(b1.nimap.contains_key(reps[a as int]));
        assert(b1.nimap[reps[a as int]] == b1.nimap[o as u16]);
        assert(reps[a as int] == o);
    }
    assert forall|c: int| 0 <= c < reps.len() implies #[trigger] reps[c] < w1 by {
        assert(b1.nimap.contains_key(reps[c]));
    }
    assert forall|a: int| 0 <= a < reps.len() implies #[trigger] reps[a] == a by {
        lemma_rising_onto(reps, w1, a);
    }
    if reps.len() < w1 {
        assert(stands_in(reps, w1 - 1));
        let c = choose|c: int| 0 <= c < reps.len() && reps[c] == w1 - 1;
        assert(reps[c] == c);
    }
    if reps.len() > w1 {
        assert(reps[w1] == w1);
    }
    assert(reps.len() == w1);
    assert forall|k: u16| b2.nimap.contains_key(k) implies b2.nimap[k] == b1.nimap[k] by {
        assert(reps[k as int] == k);
    }
    assert(b2.nimap =~= b1.nimap);
    assert forall|i: int| 0 <= i < b2.node_data.nodes.len() implies b2.node_data.nodes[i]
        == b1.node_data.nodes[i] by {
        let a = b2.node_data.nodes[i];
        let o = b1.node_data.nodes[i];
        assert(reps[a as int] == a);
        assert(b1.nimap.contains_key(o));
        assert(b1.nimap.contains_key(a));
        assert(b1.nimap[a] == b1.nimap[o]);
    }
    assert(b2.node_data.nodes =~= b1.node_data.nodes);
}

/// Removes the names that stand twice and those that no node has, and
/// gives the others the IDs from 0 on.
pub fn clean_name_id_map(block: &mut MapBlock)
    requires
        old(block)@.ids_valid(),
        max_id(old(block)@.nimap) >= 0,
    ensures
        cleaned(old(block)@, final(block)@),
        is_clean(final(block)@),
{
    let ghost before = block@;
    let ghost names = before.nimap;
    let ghost cells = before.node_data.nodes;
    let id_count: usize = match block.nimap.get_max_id() {
        Some(k) => {
            proof {
                lemma_max_id(names, k);
            }
            k as usize + 1
        },
        None => {
            proof {
                assert(!(exists|k: u16| is_max_id(names, k)));
            }
            0
        },
    };
    let mut container = ZlibContainer::new(
        NodeData { nodes: Vec::new(), param1: Vec::new(), param2: Vec::new() },
    );
    core::mem::swap(&mut block.node_data, &mut container);
    let mut nd = container.into_inner();
    assert(nd@ == before.node_data);

    // Determine which IDs are used.
    let mut used: Vec<bool> = vec![false; id_count];
    let mut i: usize = 0;
    while i < nd.nodes.len()
        invariant
            i <= cells.len(),
            nd@.nodes == cells,
            before.ids_valid(),
            names == before.nimap,
            cells == before.node_data.nodes,
            forall|k: u16| names.contains_key(k) ==> k < id_count,
            used@.len() == id_count,
            forall|o: int|
                0 <= o < id_count ==> (#[trigger] used@[o] <==> exists|c: int|
                    0 <= c < i && cells[c] == o),
        decreases cells.len() - i,
    {
        let id = nd.nodes[i];
        proof {
            assert(names.contains_key(cells[i as int]));
        }
        let ghost prev = used@;
        used.set(id as usize, true);
        proof {
            assert forall|o: int| 0 <= o < id_count implies (#[trigger] used@[o] <==> exists|c: int|
                0 <= c < i + 1 && cells[c] == o) by {
                if o == id {
                    assert(cells[i as int] == o);
                } else {
                    if prev[o] {
                        let c = choose|c: int| 0 <= c < i && cells[c] == o;
                        assert(0 <= c < i + 1 && cells[c] == o);
                    }
                    if exists|c: int| 0 <= c < i + 1 && cells[c] == o {
                        let c = choose|c: int| 0 <= c < i + 1 && cells[c] == o;
                        assert(0 <= c < i && cells[c] == o);
                    }
                }
            }
        }
        i = i + 1;
    }
    proof {
        assert forall|o: int| 0 <= o < id_count implies (#[trigger] used@[o] <==> id_used(
            before,
            o as u16,
        )) by {
            if used@[o] {
                let c = choose|c: int| 0 <= c < cells.len() && cells[c] == o;
                assert(0 <= c < before.node_data.nodes.len() && before.node_data.nodes[c] == o as u16);
            }
            if id_used(before, o as u16) {
                let c = choose|c: int|
                    0 <= c < before.node_data.nodes.len() && before.node_data.nodes[c] == o as u16;
                assert(0 <= c < cells.len() && cells[c] == o);
            }
        }
    }

    // Rebuild the name-ID map.
    let mut new_nimap = NameIdMap::new();
    let mut table: Vec<u16> = vec![0u16; id_count];
    let ghost mut reps: Seq<u16> = Seq::empty();
    let mut w: usize = 0;
    let n = block.nimap.len();
    let ghost keys = sorted_keys(names.dom());
    proof {
        lemma_sorted_keys(names.dom());
    }
    let mut e: usize = 0;
    while e < n
        invariant
            e <= n,
            n == keys.len(),
            n <= 65536,
            keys == sorted_keys(names.dom()),
            increasing(keys),
            forall|c: int| 0 <= c < keys.len() ==> names.contains_key(#[trigger] keys[c]),
            block.nimap@ == names,
            names == before.nimap,
            forall|k: u16| names.contains_key(k) ==> k < id_count,
            used@.len() == id_count,
            table@.len() == id_count,
            forall|o: int| 0 <= o < id_count ==> (#[trigger] used@[o] <==> id_used(before, o as u16)),
            w == reps.len(),
            w <= e,
            names_dense(new_nimap@, w as int),
            names_distinct(new_nimap@),
            increasing(reps),
            forall|a: int|
                0 <= a < w ==> id_used(before, #[trigger] reps[a]) && names.contains_key(reps[a])
                    && names[reps[a]] == new_nimap@[a as u16] && exists|c: int|
                    0 <= c < e && keys[c] == reps[a],
            forall|c: int|
                0 <= c < e && id_used(before, keys[c]) ==> (#[trigger] table@[keys[c] as int]) < w
                    && new_nimap@[table@[keys[c] as int]] == names[keys[c]] && reps[table@[keys[c] as int] as int]
                    <= keys[c],
        decreases n - e,
    {
        let id = block.nimap.0.key_at(e);
        proof {
            assert(names.contains_key(keys[e as int]));
        }
        if used[id as usize] {
            let name = block.nimap.0.value_at(e);
            let ghost old_table = table@;
            let ghost old_new = new_nimap@;
            match new_nimap.get_id(name.as_slice()) {
                Some(first_id) => {
                    // The name is in the map already: the old ID goes to
                    // the ID that the name has there.
                    table.set(id as usize, first_id);
                    proof {
                        let c0 = choose|c: int| 0 <= c < e && keys[c] == reps[first_id as int];
                        assert(keys[c0] < keys[e as int]);
                        assert forall|c: int| 0 <= c < e + 1 && id_used(before, keys[c]) implies (
                        #[trigger] table@[keys[c] as int]) < w && new_nimap@[table@[keys[c] as int]]
                            == names[keys[c]] && reps[table@[keys[c] as int] as int] <= keys[c] by {
                            if c < e {
                                assert(keys[c] < keys[e as int]);
                                assert(table@[keys[c] as int] == old_table[keys[c] as int]);
                            }
                        }
                        assert forall|a: int| 0 <= a < w implies exists|c: int|
                            0 <= c < e + 1 && keys[c] == #[trigger] reps[a] by {
                            let c = choose|c: int| 0 <= c < e && keys[c] == reps[a];
                            assert(0 <= c < e + 1 && keys[c] == reps[a]);
                        }
                    }
                },
                None => {
                    // The name is new: it gets the next ID.
                    let ghost old_reps = reps;
                    new_nimap.insert(w as u16, slice_to_vec(name.as_slice()));
                    table.set(id as usize, w as u16);
                    proof {
                        reps = reps.push(id);
                        assert forall|a: int, b: int| 0 <= a < b < reps.len() implies reps[a]
                            < reps[b] by {
                            if b == w {
                                let c = choose|c: int| 0 <= c < e && keys[c] == old_reps[a];
                                assert(keys[c] < keys[e as int]);
                            } else {
                                assert(old_reps[a] < old_reps[b]);
                            }
                        }
                        assert forall|a: int| 0 <= a < w + 1 implies id_used(
                            before,
                            #[trigger] reps[a],
                        ) && names.contains_key(reps[a]) && names[reps[a]] == new_nimap@[a as u16]
                            && exists|c: int| 0 <= c < e + 1 && keys[c] == reps[a] by {
                            if a < w {
                                assert(reps[a] == old_reps[a]);
                                let c = choose|c: int| 0 <= c < e && keys[c] == old_reps[a];
                                assert(0 <= c < e + 1 && keys[c] == reps[a]);
                            } else {
                                assert(keys[e as int] == reps[a]);
                            }
                        }
                        assert forall|c: int| 0 <= c < e + 1 && id_used(before, keys[c]) implies (
                        #[trigger] table@[keys[c] as int]) < w + 1 && new_nimap@[table@[keys[c] as int]]
                            == names[keys[c]] && reps[table@[keys[c] as int] as int] <= keys[c] by {
                            if c < e {
                                assert(keys[c] < keys[e as int]);
                                assert(table@[keys[c] as int] == old_table[keys[c] as int]);
                                assert(old_reps[old_table[keys[c] as int] as int] <= keys[c]);
                            }
                        }
                        assert forall|a: u16, b: u16|
                            new_nimap@.contains_key(a) && new_nimap@.contains_key(b) && a
                                != b implies new_nimap@[a] != new_nimap@[b] by {
                            if a == w {
                                assert(old_new.contains_key(b));
                            } else if b == w {
                                assert(old_new.contains_key(a));
                            }
                        }
                    }
                    w = w + 1;
                },
            }
        } else {
            proof {
                assert forall|a: int| 0 <= a < w implies exists|c: int|
                    0 <= c < e + 1 && keys[c] == #[trigger] reps[a] by {
                    let c = choose|c: int| 0 <= c < e && keys[c] == reps[a];
                    assert(0 <= c < e + 1 && keys[c] == reps[a]);
                }
            }
        }
        e = e + 1;
    }
    block.nimap = new_nimap;

    // Re-assign node IDs.
    let mut i: usize = 0;
    while i < nd.nodes.len()
        invariant
            i <= cells.len(),
            nd@.nodes.len() == cells.len(),
            nd@.param1 == before.node_data.param1,
            nd@.param2 == before.node_data.param2,
            before.ids_valid(),
            cells == before.node_data.nodes,
            names == before.nimap,
            keys == sorted_keys(names.dom()),
            forall|k: u16| names.contains_key(k) ==> k < id_count,
            forall|k: u16| names.contains_key(k) ==> keys.contains(k),
            table@.len() == id_count,
            forall|c: int|
                0 <= c < keys.len() && id_used(before, keys[c]) ==> (#[trigger] table@[keys[c] as int])
                    < w && block.nimap@[table@[keys[c] as int]] == names[keys[c]] && reps[table@[keys[c] as int] as int]
                    <= keys[c],
            forall|j: int| 0 <= j < i ==> #[trigger] nd@.nodes[j] == table@[cells[j] as int],
            forall|j: int| i <= j < cells.len() ==> #[trigger] nd@.nodes[j] == cells[j],
        decreases cells.len() - i,
    {
        let id = nd.nodes[i];
        proof {
            assert(names.contains_key(cells[i as int]));
        }
        nd.nodes.set(i, table[id as usize]);
        i = i + 1;
    }
    block.node_data = ZlibContainer::new(nd);
    proof {
        let after = block@;
        assert forall|i: int| 0 <= i < after.node_data.nodes.len() implies (
        #[trigger] after.node_data.nodes[i]) < reps.len() && after.nimap[after.node_data.nodes[i]]
            == before.nimap[before.node_data.nodes[i]] && reps[after.node_data.nodes[i] as int]
            <= before.node_data.nodes[i] by {
            let o = cells[i];
            assert(names.contains_key(o));
            assert(keys.contains(o));
            let c = choose|c: int| 0 <= c < keys.len() && keys[c] == o;
            assert(id_used(before, keys[c]));
            assert(table@[keys[c] as int] < w);
        }
        assert(after.node_data == (NodeDataView {
            nodes: after.node_data.nodes,
            ..before.node_data
        }));
        assert(cleaned_by(before, after, reps));
        lemma_cleaned_is_clean(before, after);
    }
}

} // verus!
