use crate::block_utils::block_parts_valid;
use crate::block_utils::can_merge;
use crate::block_utils::clean_name_id_map;
use crate::block_utils::cleaned;
use crate::block_utils::is_max_id;
use crate::block_utils::lemma_max_id;
use crate::block_utils::max_id;
use crate::block_utils::merge_blocks;
use crate::block_utils::merge_metadata;
use crate::block_utils::merged_blocks;
use crate::block_utils::merged_metadata;
use crate::block_utils::spec_block_parts_valid;
use crate::block_utils::spec_can_merge;
use crate::instance::InstArgs;
use crate::map_block::ZlibContainer;
use crate::map_block::map_block::MapBlock;
use crate::map_block::map_block::MapBlockView;
use crate::spatial::area::Area;
use crate::spatial::area::lower;
use crate::spatial::area::upper;
use crate::spatial::vec3::BLOCK_LIMIT;
use crate::spatial::vec3::MAP_LIMIT;
use crate::spatial::vec3::Vec3;
use crate::spatial::vec3::block_key_of;
use super::ArgResult;
use super::ArgResultView;
use super::BlockEdit;
use super::BlockEditView;
use super::delete_meta::take_metadata;
use super::finish_block;
use super::written;
use vstd::prelude::*;

verus! {

/// The greatest distance from the origin, along an axis, of a corner or
/// an offset that the edits which copy between blocks take.
pub const REACH_LIMIT: i32 = 1000000;

/// Whether no coordinate of `v` is further than `REACH_LIMIT` from the
/// origin.
pub open spec fn within_reach(v: Vec3) -> bool {
    &&& -REACH_LIMIT <= v.x <= REACH_LIMIT
    &&& -REACH_LIMIT <= v.y <= REACH_LIMIT
    &&& -REACH_LIMIT <= v.z <= REACH_LIMIT
}

/// Whether `area` moved by `offset` shares a node with the map.
pub open spec fn lands_in_map(area: Area, offset: Vec3) -> bool {
    &&& area.min.x + offset.x <= MAP_LIMIT && area.max.x + offset.x >= -MAP_LIMIT
    &&& area.min.y + offset.y <= MAP_LIMIT && area.max.y + offset.y >= -MAP_LIMIT
    &&& area.min.z + offset.z <= MAP_LIMIT && area.max.z + offset.z >= -MAP_LIMIT
}

/// Whether `area` moved by `offset` shares a node with the map.
pub fn check_lands_in_map(area: Area, offset: Vec3) -> (r: bool)
    ensures
        r == lands_in_map(area, offset),
{
    let limit: i64 = MAP_LIMIT as i64;
    area.min.x as i64 + offset.x as i64 <= limit && area.max.x as i64 + offset.x as i64 >= -limit
        && area.min.y as i64 + offset.y as i64 <= limit && area.max.y as i64 + offset.y as i64
        >= -limit && area.min.z as i64 + offset.z as i64 <= limit && area.max.z as i64
        + offset.z as i64 >= -limit
}

/// What the check of the arguments of a clone comes to: the area moved
/// by the offset must share a node with the map.
pub open spec fn args_checked(args: InstArgs) -> ArgResultView {
    if lands_in_map(args.area->0, args.offset->0) {
        ArgResultView::Okay
    } else {
        ArgResultView::Error("Destination area is outside map bounds."@)
    }
}

/// Checks the arguments of a clone, of which the area and the offset
/// must be given.
pub fn verify_args(args: &InstArgs) -> (r: ArgResult)
    requires
        args.area is Some,
        args.offset is Some,
    ensures
        r@ == args_checked(*args),
{
    match (args.area, args.offset) {
        (Some(area), Some(offset)) => {
            if !check_lands_in_map(area, offset) {
                return ArgResult::error("Destination area is outside map bounds.");
            }
            ArgResult::Okay
        },
        _ => ArgResult::Okay,
    }
}

/// The coordinate by which blocks are put in order along an axis: the
/// block's own where the offset does not point up the axis, else its
/// mirror image, lowered by one to stay within the keys.
pub open spec fn sort_coord(c: int, offset: int) -> int {
    if offset > 0 {
        -c - 1
    } else {
        c
    }
}

/// The number by which the block at `pos` is put in order for a copy by
/// `offset`: the key of its position, mirrored along the axes that the
/// offset points up.
pub open spec fn sort_key_of(pos: Vec3, offset: Vec3) -> int {
    block_key_of(
        sort_coord(pos.x as int, offset.x as int),
        sort_coord(pos.y as int, offset.y as int),
        sort_coord(pos.z as int, offset.z as int),
    )
}

/// The number by which the block with the key `key` is put in order for a
/// copy by `offset`. Blocks are written in the rising order of this
/// number, so that no block is read after it was written.
pub fn sort_key(key: i64, offset: Vec3) -> (r: i64)
    ensures
        r == sort_key_of(super::fill::key_pos(key), offset),
{
    let pos = Vec3::from_block_key(key);
    let x: i64 = if offset.x > 0 { -(pos.x as i64) - 1 } else { pos.x as i64 };
    let y: i64 = if offset.y > 0 { -(pos.y as i64) - 1 } else { pos.y as i64 };
    let z: i64 = if offset.z > 0 { -(pos.z as i64) - 1 } else { pos.z as i64 };
    x + y * 4096 + z * 16777216
}

/// One piece of a copy into a block: the part `src_area` of the block at
/// `src_pos`, which has the key `src_key`, goes to the part `dst_area` of
/// the block that is written.
#[derive(Clone, Copy, Debug, PartialEq, Eq, Structural)]
pub struct ClonePart {
    pub src_key: i64,
    pub src_pos: Vec3,
    pub src_area: Area,
    pub dst_area: Area,
}

/// Whether `part` is a part of the block at `pos`, in map coordinates.
pub open spec fn part_of_block(part: Area, pos: Vec3) -> bool {
    &&& 16 * pos.x <= part.min.x <= part.max.x <= 16 * pos.x + 15
    &&& 16 * pos.y <= part.min.y <= part.max.y <= 16 * pos.y + 15
    &&& 16 * pos.z <= part.min.z <= part.max.z <= 16 * pos.z + 15
}

/// The blocks that hold the nodes which a copy by `offset` brings to the
/// part `dst_part` of a block.
pub open spec fn source_blocks(dst_part: Area, offset: Vec3) -> Area {
    Area {
        min: Vec3 {
            x: ((dst_part.min.x - offset.x) / 16) as i32,
            y: ((dst_part.min.y - offset.y) / 16) as i32,
            z: ((dst_part.min.z - offset.z) / 16) as i32,
        },
        max: Vec3 {
            x: ((dst_part.max.x - offset.x) / 16) as i32,
            y: ((dst_part.max.y - offset.y) / 16) as i32,
            z: ((dst_part.max.z - offset.z) / 16) as i32,
        },
    }
}

/// The `n`-th of the up to eight blocks around the lowest of
/// `source_blocks`, x counted fastest and z slowest.
pub open spec fn nth_source(dst_part: Area, offset: Vec3, n: int) -> Vec3 {
    let first = source_blocks(dst_part, offset).min;
    Vec3 {
        x: (first.x + n % 2) as i32,
        y: (first.y + (n / 2) % 2) as i32,
        z: (first.z + n / 4) as i32,
    }
}

/// Whether the `n`-th block is a source of the copy: it is one of
/// `source_blocks`, and lies within the map.
pub open spec fn source_counts(dst_part: Area, offset: Vec3, n: int) -> bool {
    source_blocks(dst_part, offset).contains(nth_source(dst_part, offset, n)) && nth_source(
        dst_part,
        offset,
        n,
    ).is_valid_block_pos()
}

/// The piece of the copy that comes from the block at `src_pos`: of the
/// nodes that go to `dst_part`, those that the block holds.
pub open spec fn part_from(dst_part: Area, offset: Vec3, dst_pos: Vec3, src_pos: Vec3) -> ClonePart {
    let min_x = upper(dst_part.min.x - offset.x, 16 * src_pos.x);
    let min_y = upper(dst_part.min.y - offset.y, 16 * src_pos.y);
    let min_z = upper(dst_part.min.z - offset.z, 16 * src_pos.z);
    let max_x = lower(dst_part.max.x - offset.x, 16 * src_pos.x + 15);
    let max_y = lower(dst_part.max.y - offset.y, 16 * src_pos.y + 15);
    let max_z = lower(dst_part.max.z - offset.z, 16 * src_pos.z + 15);
    ClonePart {
        src_key: block_key_of(src_pos.x as int, src_pos.y as int, src_pos.z as int) as i64,
        src_pos,
        src_area: Area {
            min: Vec3 {
                x: (min_x - 16 * src_pos.x) as i32,
                y: (min_y - 16 * src_pos.y) as i32,
                z: (min_z - 16 * src_pos.z) as i32,
            },
            max: Vec3 {
                x: (max_x - 16 * src_pos.x) as i32,
                y: (max_y - 16 * src_pos.y) as i32,
                z: (max_z - 16 * src_pos.z) as i32,
            },
        },
        dst_area: Area {
            min: Vec3 {
                x: (min_x + offset.x - 16 * dst_pos.x) as i32,
                y: (min_y + offset.y - 16 * dst_pos.y) as i32,
                z: (min_z + offset.z - 16 * dst_pos.z) as i32,
            },
            max: Vec3 {
                x: (max_x + offset.x - 16 * dst_pos.x) as i32,
                y: (max_y + offset.y - 16 * dst_pos.y) as i32,
                z: (max_z + offset.z - 16 * dst_pos.z) as i32,
            },
        },
    }
}

/// The pieces of the copy that come from the first `n` of the up to
/// eight source blocks.
pub open spec fn parts_upto(dst_part: Area, offset: Vec3, dst_pos: Vec3, n: nat) -> Seq<ClonePart>
    decreases n,
{
    if n == 0 {
        Seq::empty()
    } else if source_counts(dst_part, offset, n - 1) {
        parts_upto(dst_part, offset, dst_pos, (n - 1) as nat).push(
            part_from(dst_part, offset, dst_pos, nth_source(dst_part, offset, n - 1)),
        )
    } else {
        parts_upto(dst_part, offset, dst_pos, (n - 1) as nat)
    }
}

/// The pieces of which a copy by `offset` into the part `dst_part` of the
/// block at `dst_pos` is made: one for each block within the map that
/// holds some of the nodes that are copied, in the order of x, then y,
/// then z.
pub fn source_parts(dst_part: Area, offset: Vec3, dst_pos: Vec3) -> (parts: Vec<ClonePart>)
    requires
        part_of_block(dst_part, dst_pos),
        within_reach(dst_part.min),
        within_reach(dst_part.max),
        within_reach(offset),
    ensures
        parts@ == parts_upto(dst_part, offset, dst_pos, 8),
        forall|i: int|
            0 <= i < parts@.len() ==> block_parts_valid(
                &(#[trigger] parts@[i]).src_area,
                &parts@[i].dst_area,
            ),
{
    let src_part = Area {
        min: Vec3 {
            x: dst_part.min.x - offset.x,
            y: dst_part.min.y - offset.y,
            z: dst_part.min.z - offset.z,
        },
        max: Vec3 {
            x: dst_part.max.x - offset.x,
            y: dst_part.max.y - offset.y,
            z: dst_part.max.z - offset.z,
        },
    };
    let needed = src_part.to_touching_block_area();
    assert(needed == source_blocks(dst_part, offset));
    let mut parts: Vec<ClonePart> = Vec::new();
    let mut n: i32 = 0;
    while n < 8
        invariant
            0 <= n <= 8,
            part_of_block(dst_part, dst_pos),
            within_reach(dst_part.min),
            within_reach(dst_part.max),
            within_reach(offset),
            src_part.min.x == dst_part.min.x - offset.x,
            src_part.min.y == dst_part.min.y - offset.y,
            src_part.min.z == dst_part.min.z - offset.z,
            src_part.max.x == dst_part.max.x - offset.x,
            src_part.max.y == dst_part.max.y - offset.y,
            src_part.max.z == dst_part.max.z - offset.z,
            needed == source_blocks(dst_part, offset),
            parts@ == parts_upto(dst_part, offset, dst_pos, n as nat),
            forall|i: int|
                0 <= i < parts@.len() ==> block_parts_valid(
                    &(#[trigger] parts@[i]).src_area,
                    &parts@[i].dst_area,
                ),
        decreases 8 - n,
    {
        let src_pos = Vec3 {
            x: needed.min.x + n % 2,
            y: needed.min.y + (n / 2) % 2,
            z: needed.min.z + n / 4,
        };
        assert(src_pos == nth_source(dst_part, offset, n as int));
        if needed.contains(src_pos) && src_pos.is_valid_block_pos() {
            let src_key = src_pos.to_block_key();
            match src_part.abs_block_overlap(src_pos) {
                Some(frag) => {
                    let part = ClonePart {
                        src_key,
                        src_pos,
                        src_area: Area {
                            min: Vec3 {
                                x: frag.min.x - src_pos.x * 16,
                                y: frag.min.y - src_pos.y * 16,
                                z: frag.min.z - src_pos.z * 16,
                            },
                            max: Vec3 {
                                x: frag.max.x - src_pos.x * 16,
                                y: frag.max.y - src_pos.y * 16,
                                z: frag.max.z - src_pos.z * 16,
                            },
                        },
                        dst_area: Area {
                            min: Vec3 {
                                x: frag.min.x + offset.x - dst_pos.x * 16,
                                y: frag.min.y + offset.y - dst_pos.y * 16,
                                z: frag.min.z + offset.z - dst_pos.z * 16,
                            },
                            max: Vec3 {
                                x: frag.max.x + offset.x - dst_pos.x * 16,
                                y: frag.max.y + offset.y - dst_pos.y * 16,
                                z: frag.max.z + offset.z - dst_pos.z * 16,
                            },
                        },
                    };
                    assert(part == part_from(dst_part, offset, dst_pos, src_pos));
                    parts.push(part);
                },
                None => {
                    assert(false);
                },
            }
        }
        n = n + 1;
    }
    parts
}

/// A block from which a copy by `offset` into a block takes nodes does
/// not come before that block in the order of writing: so it is not yet
/// written when it is read.
pub proof fn lemma_sources_sort_later(dst_part: Area, offset: Vec3, dst_pos: Vec3, src_pos: Vec3)
    requires
        part_of_block(dst_part, dst_pos),
        source_blocks(dst_part, offset).contains(src_pos),
        within_reach(dst_part.min),
        within_reach(dst_part.max),
        within_reach(offset),
    ensures
        sort_key_of(src_pos, offset) >= sort_key_of(dst_pos, offset),
{
    assert(sort_coord(src_pos.x as int, offset.x as int) >= sort_coord(
        dst_pos.x as int,
        offset.x as int,
    ));
    assert(sort_coord(src_pos.y as int, offset.y as int) >= sort_coord(
        dst_pos.y as int,
        offset.y as int,
    ));
    assert(sort_coord(src_pos.z as int, offset.z as int) >= sort_coord(
        dst_pos.z as int,
        offset.z as int,
    ));
}

/// The pieces of which a clone into the block with the key `dst_key` is
/// made, where `dst_area` is the area that the clone writes to; none
/// where the area does not reach the block.
pub fn clone_parts(dst_area: Area, offset: Vec3, dst_key: i64) -> (parts: Vec<ClonePart>)
    requires
        dst_area.is_valid(),
        within_reach(dst_area.min),
        within_reach(dst_area.max),
        within_reach(offset),
    ensures
        forall|i: int|
            0 <= i < parts@.len() ==> block_parts_valid(
                &(#[trigger] parts@[i]).src_area,
                &parts@[i].dst_area,
            ),
        match block_overlap(dst_area, super::fill::key_pos(dst_key)) {
            Some(dst_part) => parts@ == parts_upto(
                dst_part,
                offset,
                super::fill::key_pos(dst_key),
                8,
            ),
            None => parts@ == Seq::<ClonePart>::empty(),
        },
{
    let dst_pos = Vec3::from_block_key(dst_key);
    assert(dst_pos == super::fill::key_pos(dst_key));
    match dst_area.abs_block_overlap(dst_pos) {
        Some(dst_part) => {
            assert(Some(dst_part) == block_overlap(dst_area, dst_pos));
            source_parts(dst_part, offset, dst_pos)
        },
        None => Vec::new(),
    }
}

/// The nodes that `area` shares with the block at `pos`, in map
/// coordinates.
pub open spec fn block_overlap(area: Area, pos: Vec3) -> Option<Area> {
    if area.overlaps_block(pos) {
        Some(
            Area {
                min: Vec3 {
                    x: upper(area.min.x as int, 16 * pos.x) as i32,
                    y: upper(area.min.y as int, 16 * pos.y) as i32,
                    z: upper(area.min.z as int, 16 * pos.z) as i32,
                },
                max: Vec3 {
                    x: lower(area.max.x as int, 16 * pos.x + 15) as i32,
                    y: lower(area.max.y as int, 16 * pos.y + 15) as i32,
                    z: lower(area.max.z as int, 16 * pos.z + 15) as i32,
                },
            },
        )
    } else {
        None
    }
}

/// The block `dst` after one piece of a copy from the block `src`: the
/// nodes, their names and their metadata.
pub open spec fn part_applied(src: MapBlockView, dst: MapBlockView, part: ClonePart) -> MapBlockView {
    MapBlockView {
        metadata: merged_metadata(src.metadata, dst.metadata, part.src_area, part.dst_area),
        metadata_frame: None,
        ..merged_blocks(src, dst, part.src_area, part.dst_area)
    }
}

/// Copies one piece from the block `src` into the block `dst`. Returns
/// whether that could be done; `dst` is left as it was where not.
pub fn apply_part(src: &MapBlock, dst: &mut MapBlock, part: &ClonePart) -> (ok: bool)
    requires
        block_parts_valid(&part.src_area, &part.dst_area),
    ensures
        ok == spec_can_merge(src@, old(dst)@),
        ok ==> final(dst)@ == part_applied(src@, old(dst)@, *part),
        !ok ==> final(dst)@ == old(dst)@,
{
    if !can_merge(src, dst) {
        return false;
    }
    merge_blocks(src, dst, part.src_area, part.dst_area);
    let mut list = take_metadata(dst);
    merge_metadata(src.metadata.get_ref(), &mut list, part.src_area, part.dst_area);
    dst.metadata = ZlibContainer::new(list);
    true
}

/// Whether the names of the block `b` can be tidied: every node's ID has
/// a name, and there is a name.
pub open spec fn can_clean(b: MapBlockView) -> bool {
    b.ids_valid() && max_id(b.nimap) >= 0
}

/// Tidies the names of a block that was copied into, and writes it. The
/// block fails where its names cannot be tidied or it cannot be written.
pub fn finish_copy(dst: &mut MapBlock) -> (r: BlockEdit)
    ensures
        !can_clean(old(dst)@) ==> r@ == BlockEditView::Failed && final(dst)@ == old(dst)@,
        can_clean(old(dst)@) ==> cleaned(old(dst)@, final(dst)@) && r@ == written(final(dst)@, 0),
{
    let ghost b = dst@;
    if !dst.has_valid_ids() {
        return BlockEdit::Failed;
    }
    match dst.nimap.get_max_id() {
        Some(k) => {
            proof {
                lemma_max_id(b.nimap, k);
            }
        },
        None => {
            proof {
                assert(!(exists|k: u16| is_max_id(b.nimap, k)));
            }
            return BlockEdit::Failed;
        },
    }
    clean_name_id_map(dst);
    finish_block(dst, 0)
}

/// The views of blocks that were read, or not.
pub open spec fn sources_view(sources: Seq<Option<MapBlock>>) -> Seq<Option<MapBlockView>> {
    Seq::new(sources.len(), |i: int| source_view(sources[i]))
}

/// The view of a block that was read, or not.
pub open spec fn source_view(source: Option<MapBlock>) -> Option<MapBlockView> {
    match source {
        Some(b) => Some(b@),
        None => None,
    }
}

/// The block `dst` after one piece of a copy from the block `src`, if it
/// could be read; a piece whose block could not be read is passed over.
/// `None` where the piece cannot be copied.
#[verifier::opaque]
pub open spec fn step_applied(
    src: Option<MapBlockView>,
    dst: MapBlockView,
    part: ClonePart,
) -> Option<MapBlockView> {
    match src {
        Some(s) => if spec_can_merge(s, dst) {
            Some(part_applied(s, dst, part))
        } else {
            None
        },
        None => Some(dst),
    }
}

/// The block `dst` after the first `n` pieces of a copy, where
/// `sources[i]` is the block that the piece `parts[i]` reads from, if it
/// could be read. `None` where one of the pieces cannot be copied.
#[verifier::opaque]
pub open spec fn parts_applied(
    sources: Seq<Option<MapBlockView>>,
    dst: MapBlockView,
    parts: Seq<ClonePart>,
    n: nat,
) -> Option<MapBlockView>
    decreases n,
{
    if n == 0 {
        Some(dst)
    } else {
        match parts_applied(sources, dst, parts, (n - 1) as nat) {
            Some(b) => step_applied(sources[n - 1], b, parts[n - 1]),
            None => None,
        }
    }
}

/// Copies one piece into the block `dst` from the block `src`, if it could
/// be read. Returns whether the copy can go on.
fn apply_step(src: &Option<MapBlock>, dst: &mut MapBlock, part: &ClonePart) -> (ok: bool)
    requires
        block_parts_valid(&part.src_area, &part.dst_area),
    ensures
        match step_applied(source_view(*src), old(dst)@, *part) {
            Some(b) => ok && final(dst)@ == b,
            None => !ok,
        },
{
    reveal(step_applied);
    match src {
        Some(block) => apply_part(block, dst, part),
        None => true,
    }
}

/// Copies the pieces `parts` into the block `dst`, tidies its names and
/// writes it. `sources[i]` is the block that the piece `parts[i]` reads
/// from, if it could be read. The block fails where a piece cannot be
/// copied, the names cannot be tidied, or the block cannot be written.
pub fn copy_parts(dst: MapBlock, parts: &Vec<ClonePart>, sources: &Vec<Option<MapBlock>>) -> (r:
    BlockEdit)
    requires
        parts@.len() == sources@.len(),
        forall|i: int|
            0 <= i < parts@.len() ==> block_parts_valid(
                &(#[trigger] parts@[i]).src_area,
                &parts@[i].dst_area,
            ),
    ensures
        match parts_applied(sources_view(sources@), dst@, parts@, parts@.len()) {
            Some(b) => if can_clean(b) {
                exists|after: MapBlockView| #[trigger] cleaned(b, after) && r@ == written(after, 0)
            } else {
                r@ == BlockEditView::Failed
            },
            None => r@ == BlockEditView::Failed,
        },
{
    let mut block = dst;
    let ghost before = block@;
    let ghost views = sources_view(sources@);
    let ghost mut acc: Option<MapBlockView> = Some(before);
    proof {
        lemma_parts_start(views, before, parts@);
    }
    let mut i: usize = 0;
    while i < parts.len()
        invariant
            i <= parts@.len(),
            parts@.len() == sources@.len(),
            views == sources_view(sources@),
            forall|j: int|
                0 <= j < parts@.len() ==> block_parts_valid(
                    &(#[trigger] parts@[j]).src_area,
                    &parts@[j].dst_area,
                ),
            before == dst@,
            acc == parts_applied(views, before, parts@, i as nat),
            acc == Some(block@),
        decreases parts@.len() - i,
    {
        assert(views[i as int] == source_view(sources@[i as int]));
        let ghost cur = block@;
        proof {
            lemma_parts_step(views, before, parts@, i as nat);
            assert(parts_applied(views, before, parts@, (i + 1) as nat) == step_applied(
                views[i as int],
                cur,
                parts@[i as int],
            ));
            acc = parts_applied(views, before, parts@, (i + 1) as nat);
        }
        let ok = apply_step(&sources[i], &mut block, &parts[i]);
        if !ok {
            proof {
                assert(step_applied(views[i as int], cur, parts@[i as int]) is None);
                lemma_parts_stay_failed(views, before, parts@, (i + 1) as nat, parts@.len());
                assert(parts_applied(sources_view(sources@), dst@, parts@, parts@.len()) is None);
            }
            return BlockEdit::Failed;
        }
        i = i + 1;
    }
    let ghost done = block@;
    let r = finish_copy(&mut block);
    proof {
        if can_clean(done) {
            assert(cleaned(done, block@));
        }
    }
    r
}

/// Before any piece the block is as it was.
proof fn lemma_parts_start(
    sources: Seq<Option<MapBlockView>>,
    dst: MapBlockView,
    parts: Seq<ClonePart>,
)
    ensures
        parts_applied(sources, dst, parts, 0) == Some(dst),
{
    reveal_with_fuel(parts_applied, 1);
}

/// Each piece is copied into what the pieces before it made.
proof fn lemma_parts_step(
    sources: Seq<Option<MapBlockView>>,
    dst: MapBlockView,
    parts: Seq<ClonePart>,
    i: nat,
)
    ensures
        parts_applied(sources, dst, parts, i + 1) == match parts_applied(sources, dst, parts, i) {
            Some(b) => step_applied(sources[i as int], b, parts[i as int]),
            None => None,
        },
{
    reveal_with_fuel(parts_applied, 2);
}

/// A copy that failed at a piece stays failed.
proof fn lemma_parts_stay_failed(
    sources: Seq<Option<MapBlockView>>,
    dst: MapBlockView,
    parts: Seq<ClonePart>,
    i: nat,
    n: nat,
)
    requires
        i <= n,
        parts_applied(sources, dst, parts, i) is None,
    ensures
        parts_applied(sources, dst, parts, n) is None,
    decreases n,
{
    if i < n {
        lemma_parts_stay_failed(sources, dst, parts, i, (n - 1) as nat);
        lemma_parts_step(sources, dst, parts, (n - 1) as nat);
    }
}

} // verus!
