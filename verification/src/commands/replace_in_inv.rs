use crate::instance::InstArgs;
use crate::map_block::ZlibContainer;
use crate::map_block::id_map::IdMap;
use crate::map_block::id_map::increasing;
use crate::map_block::id_map::lemma_sorted_keys;
use crate::map_block::id_map::sorted_keys;
use crate::map_block::map_block::MapBlock;
use crate::map_block::map_block::MapBlockView;
use crate::map_block::map_block::parse_block;
use crate::map_block::metadata::NodeMetadataList;
use crate::map_block::metadata::NodeMetadataView;
use crate::map_block::wire::MapBlockError;
use crate::map_block::wire::bytes_eq;
use crate::spatial::area::Area;
use crate::spatial::vec3::Vec3;
use super::ArgResult;
use super::ArgResultView;
use super::BlockEdit;
use super::BlockEditView;
use super::area_reaches;
use super::fill::key_pos;
use super::find_node_ids;
use super::finish_block;
use super::named_ids;
use super::names_view;
use super::node_among;
use super::node_is_among;
use super::reaches_key;
use super::written;
use vstd::prelude::*;
use vstd::slice::slice_subrange;
use vstd::slice::slice_to_vec;

verus! {

pub const NEWLINE: u8 = 10;

pub const SPACE: u8 = 32;

/// The index of the first `b` in `s` at or after `from`, or the length of
/// `s` if there is none.
pub open spec fn find_byte(s: Seq<u8>, b: u8, from: int) -> int
    decreases s.len() - from,
{
    if from < 0 || from >= s.len() {
        s.len() as int
    } else if s[from] == b {
        from
    } else {
        find_byte(s, b, from + 1)
    }
}

/// Where a byte is found lies between the start and the end.
pub proof fn lemma_find_byte(s: Seq<u8>, b: u8, from: int)
    requires
        0 <= from <= s.len(),
    ensures
        from <= find_byte(s, b, from) <= s.len(),
    decreases s.len() - from,
{
    if from < s.len() && s[from] != b {
        lemma_find_byte(s, b, from + 1);
    }
}

/// The word `Item`.
pub open spec fn item_word() -> Seq<u8> {
    seq![73u8, 116u8, 101u8, 109u8]
}

/// The word `Empty`.
pub open spec fn empty_word() -> Seq<u8> {
    seq![69u8, 109u8, 112u8, 116u8, 121u8]
}

/// The text `1`, the count of a stack that does not state one.
pub open spec fn one_text() -> Seq<u8> {
    seq![49u8]
}

/// The text `0`, the wear of a stack that does not state one.
pub open spec fn zero_text() -> Seq<u8> {
    seq![48u8]
}

/// Whether a line of an inventory holds a stack of the item `item`: it is
/// the word `Item`, a space, and the item's name up to a space or the end
/// of the line.
pub open spec fn line_has_item(line: Seq<u8>, item: Seq<u8>) -> bool {
    let e1 = find_byte(line, SPACE, 0);
    let e2 = find_byte(line, SPACE, e1 + 1);
    e1 < line.len() && line.subrange(0, e1) == item_word() && line.subrange(e1 + 1, e2) == item
}

/// The count that a line with a stack states, or `1`.
pub open spec fn line_count(line: Seq<u8>) -> Seq<u8> {
    let e1 = find_byte(line, SPACE, 0);
    let e2 = find_byte(line, SPACE, e1 + 1);
    let e3 = find_byte(line, SPACE, e2 + 1);
    if e2 < line.len() {
        line.subrange(e2 + 1, e3)
    } else {
        one_text()
    }
}

/// The wear that a line with a stack states, or `0`.
pub open spec fn line_wear(line: Seq<u8>) -> Seq<u8> {
    let e1 = find_byte(line, SPACE, 0);
    let e2 = find_byte(line, SPACE, e1 + 1);
    let e3 = find_byte(line, SPACE, e2 + 1);
    let e4 = find_byte(line, SPACE, e3 + 1);
    if e2 < line.len() && e3 < line.len() {
        line.subrange(e3 + 1, e4)
    } else {
        zero_text()
    }
}

/// What a line with a stack of the item becomes: `Empty` where the new
/// name is empty; else the stack with the new name, and behind it what
/// stood behind the old name, or, where the item's metadata is deleted,
/// only the count and the wear as far as they are not 1 and 0.
pub open spec fn line_replaced(
    line: Seq<u8>,
    item: Seq<u8>,
    new_item: Seq<u8>,
    del_meta: bool,
) -> Seq<u8> {
    let e1 = find_byte(line, SPACE, 0);
    let e2 = find_byte(line, SPACE, e1 + 1);
    if new_item.len() == 0 {
        empty_word()
    } else if del_meta {
        let count = line_count(line);
        let wear = line_wear(line);
        item_word() + seq![SPACE] + new_item + (if count != one_text() || wear != zero_text() {
            seq![SPACE] + count
        } else {
            Seq::<u8>::empty()
        }) + (if wear != zero_text() {
            seq![SPACE] + wear
        } else {
            Seq::<u8>::empty()
        })
    } else {
        item_word() + seq![SPACE] + new_item + line.subrange(e2, line.len() as int)
    }
}

/// What a line of an inventory becomes.
pub open spec fn line_out(line: Seq<u8>, item: Seq<u8>, new_item: Seq<u8>, del_meta: bool) -> Seq<
    u8,
> {
    if line_has_item(line, item) {
        line_replaced(line, item, new_item, del_meta)
    } else {
        line
    }
}

/// What the lines of the inventory `inv` from the index `from` on become,
/// and how many of them held a stack of the item. Each line that is not
/// empty is followed by a newline; empty lines are left out.
pub open spec fn replaced_lines(
    inv: Seq<u8>,
    item: Seq<u8>,
    new_item: Seq<u8>,
    del_meta: bool,
    from: int,
) -> (Seq<u8>, nat)
    decreases inv.len() + 1 - from,
{
    if from < 0 || from >= inv.len() {
        (Seq::empty(), 0)
    } else {
        let e = find_byte(inv, NEWLINE, from);
        let line = inv.subrange(from, e);
        let rest = if from <= e <= inv.len() {
            replaced_lines(inv, item, new_item, del_meta, e + 1)
        } else {
            (Seq::<u8>::empty(), 0nat)
        };
        if line.len() == 0 {
            rest
        } else {
            (
                line_out(line, item, new_item, del_meta) + seq![NEWLINE] + rest.0,
                rest.1 + if line_has_item(line, item) {
                    1nat
                } else {
                    0nat
                },
            )
        }
    }
}

/// The inventory `inv` with the stacks of the item `item` replaced by
/// stacks of `new_item`, or emptied where `new_item` is empty. An
/// inventory without such a stack stays as it is.
pub open spec fn replaced_inv(inv: Seq<u8>, item: Seq<u8>, new_item: Seq<u8>, del_meta: bool) -> Seq<
    u8,
> {
    if replaced_lines(inv, item, new_item, del_meta, 0).1 > 0 {
        replaced_lines(inv, item, new_item, del_meta, 0).0
    } else {
        inv
    }
}

/// How many stacks of the item `item` the inventory `inv` holds.
pub open spec fn count_stacks(inv: Seq<u8>, item: Seq<u8>) -> nat {
    replaced_lines(inv, item, Seq::empty(), false, 0).1
}

/// The count of stacks does not depend on what they are replaced by, and
/// is no more than the length of the inventory behind `from`.
pub proof fn lemma_count_stacks(
    inv: Seq<u8>,
    item: Seq<u8>,
    new_item: Seq<u8>,
    del_meta: bool,
    from: int,
)
    requires
        0 <= from,
    ensures
        replaced_lines(inv, item, new_item, del_meta, from).1 == replaced_lines(
            inv,
            item,
            Seq::empty(),
            false,
            from,
        ).1,
        from <= inv.len() ==> replaced_lines(inv, item, new_item, del_meta, from).1 <= inv.len()
            - from,
    decreases inv.len() + 1 - from,
{
    if from < inv.len() {
        lemma_find_byte(inv, NEWLINE, from);
        let e = find_byte(inv, NEWLINE, from);
        lemma_count_stacks(inv, item, new_item, del_meta, e + 1);
    }
}

fn find_from(s: &[u8], b: u8, from: usize) -> (e: usize)
    requires
        from <= s@.len(),
    ensures
        e == find_byte(s@, b, from as int),
        from <= e <= s@.len(),
{
    let mut e: usize = from;
    while e < s.len() && s[e] != b
        invariant
            from <= e <= s@.len(),
            find_byte(s@, b, from as int) == find_byte(s@, b, e as int),
        decreases s@.len() - e,
    {
        e = e + 1;
    }
    e
}

/// The end of the word that starts behind the space at `e`, if there is
/// one; else the end of the line.
fn next_end(line: &[u8], e: usize) -> (r: usize)
    requires
        e <= line@.len(),
    ensures
        r == find_byte(line@, SPACE, e + 1),
        e <= r <= line@.len(),
        e < line@.len() ==> e + 1 <= r,
{
    if e < line.len() {
        find_from(line, SPACE, e + 1)
    } else {
        e
    }
}

/// Writes what the line `line` of an inventory becomes, and says whether
/// it held a stack of the item.
fn replace_line(line: &[u8], item: &[u8], new_item: &[u8], del_meta: bool, out: &mut Vec<u8>) -> (hit:
    bool)
    ensures
        hit == line_has_item(line@, item@),
        final(out)@ == old(out)@ + line_out(line@, item@, new_item@, del_meta),
{
    let ghost before = out@;
    let e1 = find_from(line, SPACE, 0);
    let e2 = next_end(line, e1);
    let item_bytes = vec![73u8, 116u8, 101u8, 109u8];
    assert(item_bytes@ =~= item_word());
    if !(e1 < line.len() && bytes_eq(slice_subrange(line, 0, e1), item_bytes.as_slice()) && bytes_eq(
        slice_subrange(line, e1 + 1, e2),
        item,
    )) {
        out.extend_from_slice(line);
        return false;
    }
    if new_item.len() == 0 {
        let empty_bytes = vec![69u8, 109u8, 112u8, 116u8, 121u8];
        assert(empty_bytes@ =~= empty_word());
        out.extend_from_slice(empty_bytes.as_slice());
        return true;
    }
    out.extend_from_slice(item_bytes.as_slice());
    out.push(SPACE);
    out.extend_from_slice(new_item);
    let ghost head = out@;
    assert(head =~= before + (item_word() + seq![SPACE] + new_item@));
    if del_meta {
        // Only the parts that are needed are written again.
        let e3 = next_end(line, e2);
        let e4 = next_end(line, e3);
        let one = vec![49u8];
        let zero = vec![48u8];
        assert(one@ =~= one_text());
        assert(zero@ =~= zero_text());
        let count: &[u8] = if e2 < line.len() {
            slice_subrange(line, e2 + 1, e3)
        } else {
            one.as_slice()
        };
        let wear: &[u8] = if e2 < line.len() && e3 < line.len() {
            slice_subrange(line, e3 + 1, e4)
        } else {
            zero.as_slice()
        };
        assert(count@ == line_count(line@));
        assert(wear@ == line_wear(line@));
        let plain_wear = bytes_eq(wear, zero.as_slice());
        if !bytes_eq(count, one.as_slice()) || !plain_wear {
            out.push(SPACE);
            out.extend_from_slice(count);
        }
        let ghost mid = out@;
        assert(mid =~= head + (if count@ != one_text() || wear@ != zero_text() {
            seq![SPACE] + count@
        } else {
            Seq::<u8>::empty()
        }));
        if !plain_wear {
            out.push(SPACE);
            out.extend_from_slice(wear);
        }
        assert(out@ =~= mid + (if wear@ != zero_text() {
            seq![SPACE] + wear@
        } else {
            Seq::<u8>::empty()
        }));
        assert(out@ =~= before + line_replaced(line@, item@, new_item@, del_meta));
    } else {
        out.extend_from_slice(slice_subrange(line, e2, line.len()));
        assert(out@ =~= before + line_replaced(line@, item@, new_item@, del_meta));
    }
    true
}

/// Replaces the stacks of the item `item` in the inventory `inv` by stacks
/// of `new_item`, or empties their places where `new_item` is empty; where
/// `del_meta` is set, the metadata of the replaced stacks is left out.
/// Returns the number of stacks replaced.
pub fn do_replace(inv: &mut Vec<u8>, item: &[u8], new_item: &[u8], del_meta: bool) -> (mods: u64)
    ensures
        final(inv)@ == replaced_inv(old(inv)@, item@, new_item@, del_meta),
        mods == count_stacks(old(inv)@, item@),
{
    let ghost before = inv@;
    let ghost total = replaced_lines(before, item@, new_item@, del_meta, 0);
    let mut new_inv: Vec<u8> = Vec::with_capacity(inv.len());
    let mut mods: u64 = 0;
    let n: usize = inv.len();
    let mut from: usize = 0;
    proof {
        lemma_count_stacks(before, item@, new_item@, del_meta, 0);
    }
    while from < n
        invariant
            from <= n,
            n == before.len(),
            inv@ == before,
            total == replaced_lines(before, item@, new_item@, del_meta, 0),
            new_inv@ + replaced_lines(before, item@, new_item@, del_meta, from as int).0 == total.0,
            mods + replaced_lines(before, item@, new_item@, del_meta, from as int).1 == total.1,
            total.1 <= n,
        decreases n - from,
    {
        let e = find_from(inv.as_slice(), NEWLINE, from);
        let ghost sofar = new_inv@;
        let ghost rest = replaced_lines(before, item@, new_item@, del_meta, e + 1);
        if e > from {
            let line = slice_subrange(inv.as_slice(), from, e);
            let hit = replace_line(line, item, new_item, del_meta, &mut new_inv);
            new_inv.push(NEWLINE);
            if hit {
                mods = mods + 1;
            }
            proof {
                assert(new_inv@ + rest.0 =~= sofar + (line_out(line@, item@, new_item@, del_meta)
                    + seq![NEWLINE] + rest.0));
            }
        }
        proof {
            lemma_find_byte(before, NEWLINE, from as int);
        }
        from = if e < n {
            e + 1
        } else {
            n
        };
    }
    proof {
        assert(new_inv@ + Seq::<u8>::empty() =~= new_inv@);
    }
    if mods > 0 {
        *inv = new_inv;
    }
    mods
}

/// Whether the edit works on the inventory of the metadata with the key
/// `k`: it reaches the node, and the node has one of the IDs `node_ids`
/// where any are asked for.
pub open spec fn inv_hit(
    b: MapBlockView,
    pos: Vec3,
    area: Option<Area>,
    invert: bool,
    node_ids: Seq<u16>,
    k: u16,
) -> bool {
    area_reaches(area, invert, pos, k as int) && node_among(b.node_data.nodes, node_ids, k as int)
}

/// The metadata of the block `b` with the stacks replaced in the
/// inventories that the edit works on.
pub open spec fn metadata_replaced(
    b: MapBlockView,
    pos: Vec3,
    area: Option<Area>,
    invert: bool,
    node_ids: Seq<u16>,
    item: Seq<u8>,
    new_item: Seq<u8>,
    del_meta: bool,
) -> Map<u16, NodeMetadataView> {
    Map::new(
        |k: u16| b.metadata.contains_key(k),
        |k: u16|
            if inv_hit(b, pos, area, invert, node_ids, k) {
                NodeMetadataView {
                    inv: replaced_inv(b.metadata[k].inv, item, new_item, del_meta),
                    ..b.metadata[k]
                }
            } else {
                b.metadata[k]
            },
    )
}

/// How many stacks the edit replaces at the first `n` of `keys`, and in
/// how many inventories.
pub open spec fn count_inv_mods(
    b: MapBlockView,
    pos: Vec3,
    area: Option<Area>,
    invert: bool,
    node_ids: Seq<u16>,
    item: Seq<u8>,
    keys: Seq<u16>,
    n: nat,
) -> (nat, nat)
    decreases n,
{
    if n == 0 {
        (0, 0)
    } else {
        let before = count_inv_mods(b, pos, area, invert, node_ids, item, keys, (n - 1) as nat);
        let stacks = if inv_hit(b, pos, area, invert, node_ids, keys[n - 1]) {
            count_stacks(b.metadata[keys[n - 1]].inv, item)
        } else {
            0nat
        };
        (
            before.0 + stacks,
            before.1 + if stacks > 0 {
                1nat
            } else {
                0nat
            },
        )
    }
}

/// How many stacks the edit replaces in the block `b`, and in how many
/// inventories.
pub open spec fn inv_mods(
    b: MapBlockView,
    pos: Vec3,
    area: Option<Area>,
    invert: bool,
    node_ids: Seq<u16>,
    item: Seq<u8>,
) -> (nat, nat) {
    let keys = sorted_keys(b.metadata.dom());
    count_inv_mods(b, pos, area, invert, node_ids, item, keys, keys.len())
}

/// `v`, or the greatest `u64` if `v` is greater.
pub open spec fn capped(v: nat) -> u64 {
    if v > u64::MAX {
        u64::MAX
    } else {
        v as u64
    }
}

/// Replaces the stacks of the item `item` in the inventories of the nodes
/// that the edit reaches in the block at `pos`; only of nodes with one of
/// the IDs `node_ids` where any are given. Returns the number of stacks
/// replaced, which stops at the greatest `u64`, and the number of nodes
/// whose inventory was changed.
pub fn replace_in_inv_in(
    block: &mut MapBlock,
    pos: Vec3,
    area: Option<Area>,
    invert: bool,
    node_ids: &Vec<u16>,
    item: &[u8],
    new_item: &[u8],
    del_meta: bool,
) -> (r: (u64, u64))
    ensures
        r.0 == capped(inv_mods(old(block)@, pos, area, invert, node_ids@, item@).0),
        r.1 == inv_mods(old(block)@, pos, area, invert, node_ids@, item@).1,
        r.1 == 0 ==> final(block)@ == old(block)@,
        r.1 > 0 ==> final(block)@ == (MapBlockView {
            metadata: metadata_replaced(
                old(block)@,
                pos,
                area,
                invert,
                node_ids@,
                item@,
                new_item@,
                del_meta,
            ),
            metadata_frame: None,
            ..old(block)@
        }),
{
    let ghost b = block@;
    let ghost keys = sorted_keys(b.metadata.dom());
    proof {
        lemma_sorted_keys(b.metadata.dom());
    }
    let n = block.metadata.get_ref().len();
    let mut container: ZlibContainer<NodeMetadataList> = ZlibContainer::new(IdMap::new());
    core::mem::swap(&mut block.metadata, &mut container);
    let (mut list, frame) = container.into_parts();
    let ghost taken = *block;
    let mut item_mods: u64 = 0;
    let mut node_mods: u64 = 0;
    let mut i: usize = 0;
    while i < n
        invariant
            i <= n,
            n == keys.len(),
            n <= 65536,
            keys == sorted_keys(b.metadata.dom()),
            increasing(keys),
            forall|c: int| 0 <= c < keys.len() ==> b.metadata.contains_key(#[trigger] keys[c]),
            *block == taken,
            block.node_data.value()@ == b.node_data,
            list@.dom() == b.metadata.dom(),
            item_mods == capped(
                count_inv_mods(b, pos, area, invert, node_ids@, item@, keys, i as nat).0,
            ),
            node_mods == count_inv_mods(b, pos, area, invert, node_ids@, item@, keys, i as nat).1,
            node_mods <= i,
            forall|j: u16|
                b.metadata.contains_key(j) ==> #[trigger] list@[j] == if exists|c: int|
                    0 <= c < i && keys[c] == j {
                    metadata_replaced(b, pos, area, invert, node_ids@, item@, new_item@, del_meta)[j]
                } else {
                    b.metadata[j]
                },
        decreases n - i,
    {
        let idx = list.key_at(i);
        let ghost cur = list@;
        proof {
            assert(keys[i as int] == idx);
            assert(!(exists|c: int| 0 <= c < i && keys[c] == idx)) by {
                if exists|c: int| 0 <= c < i && keys[c] == idx {
                    let c = choose|c: int| 0 <= c < i && keys[c] == idx;
                    assert(keys[c] < keys[i as int]);
                }
            }
            assert(cur[idx] == b.metadata[idx]);
        }
        if reaches_key(&area, invert, pos, idx) && node_is_among(
            &block.node_data.get_ref().nodes,
            node_ids,
            idx as usize,
        ) {
            match list.remove(idx) {
                Some(mut meta) => {
                    let mut inv: Vec<u8> = vstd::slice::slice_to_vec(meta.inv().as_slice());
                    proof {
                        lemma_count_stacks(b.metadata[idx].inv, item@, new_item@, del_meta, 0);
                    }
                    let i_mods = do_replace(&mut inv, item, new_item, del_meta);
                    if i_mods > 0 {
                        meta.set_inv(inv);
                        node_mods = node_mods + 1;
                    }
                    item_mods = match item_mods.checked_add(i_mods) {
                        Some(sum) => sum,
                        None => u64::MAX,
                    };
                    list.insert(idx, meta);
                },
                None => {},
            }
        }
        proof {
            assert(list@.dom() =~= b.metadata.dom());
            assert forall|j: u16| b.metadata.contains_key(j) implies #[trigger] list@[j]
                == if exists|c: int| 0 <= c < i + 1 && keys[c] == j {
                metadata_replaced(b, pos, area, invert, node_ids@, item@, new_item@, del_meta)[j]
            } else {
                b.metadata[j]
            } by {
                if j == idx {
                    assert(0 <= i < i + 1 && keys[i as int] == j);
                    assert(b.metadata.contains_key(idx));
                    lemma_count_stacks(b.metadata[idx].inv, item@, new_item@, del_meta, 0);
                } else {
                    assert(list@[j] == cur[j]);
                    if exists|c: int| 0 <= c < i + 1 && keys[c] == j {
                        let c = choose|c: int| 0 <= c < i + 1 && keys[c] == j;
                        assert(0 <= c < i && keys[c] == j);
                    }
                    if exists|c: int| 0 <= c < i && keys[c] == j {
                        let c = choose|c: int| 0 <= c < i && keys[c] == j;
                        assert(0 <= c < i + 1 && keys[c] == j);
                    }
                }
            }
        }
        i = i + 1;
    }
    if node_mods > 0 {
        proof {
            let want = metadata_replaced(
                b,
                pos,
                area,
                invert,
                node_ids@,
                item@,
                new_item@,
                del_meta,
            );
            assert forall|j: u16| want.contains_key(j) implies list@.contains_key(j) && list@[j]
                == want[j] by {
                assert(list@.dom().contains(j));
                assert(keys.contains(j));
                let c = choose|c: int| 0 <= c < keys.len() && keys[c] == j;
                assert(0 <= c < i && keys[c] == j);
            }
            assert(list@ =~= want);
        }
        block.metadata = ZlibContainer::new(list);
    } else {
        proof {
            lemma_no_mods(b, pos, area, invert, node_ids@, item@, new_item@, del_meta, keys, n as nat);
            assert forall|j: u16| b.metadata.contains_key(j) implies list@.contains_key(j)
                && list@[j] == b.metadata[j] by {
                assert(list@.dom().contains(j));
                assert(keys.contains(j));
                let c = choose|c: int| 0 <= c < keys.len() && keys[c] == j;
                assert(0 <= c < i && keys[c] == j);
            }
            assert(list@ =~= b.metadata);
        }
        // Nothing was changed: the metadata goes back as it was read.
        block.metadata = ZlibContainer::from_parts(list, frame);
    }
    (item_mods, node_mods)
}

/// Where no inventory was changed, each is what it was.
proof fn lemma_no_mods(
    b: MapBlockView,
    pos: Vec3,
    area: Option<Area>,
    invert: bool,
    node_ids: Seq<u16>,
    item: Seq<u8>,
    new_item: Seq<u8>,
    del_meta: bool,
    keys: Seq<u16>,
    n: nat,
)
    requires
        n <= keys.len(),
        forall|c: int| 0 <= c < keys.len() ==> b.metadata.contains_key(#[trigger] keys[c]),
        count_inv_mods(b, pos, area, invert, node_ids, item, keys, n).1 == 0,
    ensures
        forall|c: int|
            0 <= c < n ==> metadata_replaced(
                b,
                pos,
                area,
                invert,
                node_ids,
                item,
                new_item,
                del_meta,
            )[#[trigger] keys[c]] == b.metadata[keys[c]],
    decreases n,
{
    if n > 0 {
        lemma_no_mods(b, pos, area, invert, node_ids, item, new_item, del_meta, keys, (n - 1) as nat);
        let k = keys[n - 1];
        assert(b.metadata.contains_key(k));
        if inv_hit(b, pos, area, invert, node_ids, k) {
            lemma_count_stacks(b.metadata[k].inv, item, new_item, del_meta, 0);
            assert(replaced_inv(b.metadata[k].inv, item, new_item, del_meta) == b.metadata[k].inv);
        }
    }
}

/// What the check of the arguments for replacing items comes to: a new
/// item must be given unless items or their metadata are deleted, and
/// must not be given where items are deleted.
pub open spec fn args_checked(args: InstArgs) -> ArgResultView {
    if args.new_item is None && !args.delete && !args.delete_meta {
        ArgResultView::Error("new_item is required unless --delete or --deletemeta is used."@)
    } else if args.new_item is Some && args.delete {
        ArgResultView::Error("Cannot delete items if new_item is specified."@)
    } else {
        ArgResultView::Okay
    }
}

/// Checks the arguments for replacing items.
pub fn verify_args(args: &InstArgs) -> (r: ArgResult)
    ensures
        r@ == args_checked(*args),
{
    if args.new_item.is_none() && !args.delete && !args.delete_meta {
        return ArgResult::error("new_item is required unless --delete or --deletemeta is used.");
    } else if args.new_item.is_some() && args.delete {
        return ArgResult::error("Cannot delete items if new_item is specified.");
    }
    ArgResult::Okay
}

/// What replacing items made of one stored block: the block, with the
/// number of stacks replaced as its count, and the number of nodes whose
/// inventory was changed.
#[derive(Clone, Debug)]
pub struct InvEdit {
    pub edit: BlockEdit,
    pub nodes: u64,
}

/// What replacing items makes of the stored block `b` at `pos`: nothing
/// where nodes are asked for of which the block has none, or where no
/// stack is replaced; else the block with the stacks replaced, written.
pub open spec fn replace_in_inv_outcome(
    b: MapBlockView,
    pos: Vec3,
    nodes: Seq<Seq<u8>>,
    area: Option<Area>,
    invert: bool,
    item: Seq<u8>,
    new_item: Seq<u8>,
    del_meta: bool,
) -> (BlockEditView, nat) {
    let node_ids = named_ids(b.nimap, nodes, nodes.len());
    if nodes.len() > 0 && node_ids.len() == 0 {
        (BlockEditView::Skipped, 0)
    } else {
        let mods = inv_mods(b, pos, area, invert, node_ids, item);
        if mods.1 == 0 {
            (BlockEditView::Skipped, 0)
        } else {
            (
                written(
                    MapBlockView {
                        metadata: metadata_replaced(
                            b,
                            pos,
                            area,
                            invert,
                            node_ids,
                            item,
                            new_item,
                            del_meta,
                        ),
                        metadata_frame: None,
                        ..b
                    },
                    capped(mods.0),
                ),
                mods.1,
            )
        }
    }
}

/// Replaces the stacks of the item `item` by stacks of `new_item`, or
/// empties their places where `new_item` is empty, in the inventories of
/// the stored block `data`, which has the key `key`: in those of the
/// nodes within `area`, or outside it where `invert` is set, or in all
/// where no area is given; only in those of nodes with one of the names
/// `nodes` where any are given.
pub fn replace_in_inv_block(
    data: &[u8],
    key: i64,
    nodes: &Vec<Vec<u8>>,
    area: Option<Area>,
    invert: bool,
    item: &[u8],
    new_item: &[u8],
    del_meta: bool,
) -> (r: InvEdit)
    ensures
        match parse_block(data@) {
            Ok(b) => r.edit@ == replace_in_inv_outcome(
                b,
                key_pos(key),
                names_view(nodes@),
                area,
                invert,
                item@,
                new_item@,
                del_meta,
            ).0 && r.nodes == replace_in_inv_outcome(
                b,
                key_pos(key),
                names_view(nodes@),
                area,
                invert,
                item@,
                new_item@,
                del_meta,
            ).1,
            Err(e) => r.edit@ == BlockEditView::Failed && r.nodes == 0,
        },
{
    let pos = Vec3::from_block_key(key);
    let mut block = match MapBlock::deserialize(data) {
        Ok(block) => block,
        Err(_) => {
            return InvEdit { edit: BlockEdit::Failed, nodes: 0 };
        },
    };
    let ghost b = block@;
    assert(pos == key_pos(key));
    assert(parse_block(data@) == Ok::<MapBlockView, MapBlockError>(b));
    let node_ids = find_node_ids(&block.nimap, nodes);
    if nodes.len() > 0 && node_ids.len() == 0 {
        // The block doesn't contain any of the required nodes.
        return InvEdit { edit: BlockEdit::Skipped, nodes: 0 };
    }
    let (item_mods, node_mods) = replace_in_inv_in(
        &mut block,
        pos,
        area,
        invert,
        &node_ids,
        item,
        new_item,
        del_meta,
    );
    if node_mods == 0 {
        return InvEdit { edit: BlockEdit::Skipped, nodes: 0 };
    }
    InvEdit { edit: finish_block(&block, item_mods), nodes: node_mods }
}

/// The name that replaces an item: the new name where one is given; else
/// nothing where items are deleted, and the item's own name where only
/// their metadata is.
pub fn replacement_item(item: &[u8], new_item: Option<&[u8]>, delete: bool) -> (r: Vec<u8>)
    ensures
        r@ == match new_item {
            Some(n) => n@,
            None => if delete {
                Seq::<u8>::empty()
            } else {
                item@
            },
        },
{
    match new_item {
        Some(n) => slice_to_vec(n),
        None => if delete {
            Vec::new()
        } else {
            slice_to_vec(item)
        },
    }
}

} // verus!
