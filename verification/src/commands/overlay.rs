use crate::block_utils::block_parts_valid;
use crate::block_utils::cleaned;
use crate::block_utils::spec_block_parts_valid;
use crate::block_utils::spec_can_merge;
use crate::instance::InstArgs;
use crate::map_block::map_block::MapBlock;
use crate::map_block::map_block::MapBlockView;
use crate::map_block::map_block::is_valid_generated;
use crate::map_block::map_block::parse_block;
use crate::map_block::map_block::valid_generated;
use crate::map_block::wire::MapBlockError;
use crate::spatial::area::Area;
use crate::spatial::vec3::MAP_LIMIT;
use crate::spatial::vec3::Vec3;
use super::ArgResult;
use super::ArgResultView;
use super::BlockEdit;
use super::BlockEditView;
use super::clone::ClonePart;
use super::clone::apply_part;
use super::clone::block_overlap;
use super::clone::can_clean;
use super::clone::check_lands_in_map;
use super::clone::finish_copy;
use super::clone::lands_in_map;
use super::clone::part_applied;
use super::clone::part_of_block;
use super::clone::parts_upto;
use super::clone::source_parts;
use super::clone::within_reach;
use super::fill::block_part;
use super::fill::key_pos;
use super::written;
use vstd::prelude::*;
use vstd::slice::slice_to_vec;

verus! {

/// All of the map.
pub open spec fn map_area() -> Area {
    Area {
        min: Vec3 { x: -31000i32, y: -31000i32, z: -31000i32 },
        max: Vec3 { x: 31000i32, y: 31000i32, z: 31000i32 },
    }
}

/// The offset of an overlay: none counts as no move.
pub open spec fn offset_or_zero(offset: Option<Vec3>) -> Vec3 {
    match offset {
        Some(o) => o,
        None => Vec3 { x: 0, y: 0, z: 0 },
    }
}

/// The area of an overlay: none counts as all of the map.
pub open spec fn area_or_map(area: Option<Area>) -> Area {
    match area {
        Some(a) => a,
        None => map_area(),
    }
}

/// What the check of the arguments of an overlay comes to: an inverted
/// selection must not be moved, and the area moved by the offset must
/// share a node with the map.
pub open spec fn args_checked(args: InstArgs) -> ArgResultView {
    if args.invert && offset_or_zero(args.offset) != (Vec3 { x: 0, y: 0, z: 0 }) {
        ArgResultView::Error("Inverted selections cannot be offset."@)
    } else if !lands_in_map(area_or_map(args.area), offset_or_zero(args.offset)) {
        ArgResultView::Error("Destination area is outside map bounds."@)
    } else {
        ArgResultView::Okay
    }
}

/// Checks the arguments of an overlay.
pub fn verify_args(args: &InstArgs) -> (r: ArgResult)
    ensures
        r@ == args_checked(*args),
{
    let offset: Vec3 = match args.offset {
        Some(o) => o,
        None => Vec3 { x: 0, y: 0, z: 0 },
    };
    if args.invert && (offset.x != 0 || offset.y != 0 || offset.z != 0) {
        return ArgResult::error("Inverted selections cannot be offset.");
    }
    let area: Area = match args.area {
        Some(a) => a,
        None => Area {
            min: Vec3 { x: -MAP_LIMIT, y: -MAP_LIMIT, z: -MAP_LIMIT },
            max: Vec3 { x: MAP_LIMIT, y: MAP_LIMIT, z: MAP_LIMIT },
        },
    };
    if !check_lands_in_map(area, offset) {
        return ArgResult::error("Destination area is outside map bounds.");
    }
    ArgResult::Okay
}

/// Whether an overlay without an offset copies the whole block at `pos`:
/// where no area is given; where the area holds all of the block; or,
/// with the selection inverted, where the area holds none of it.
pub open spec fn copies_whole(area: Option<Area>, invert: bool, pos: Vec3) -> bool {
    match area {
        Some(a) => (!invert && a.contains_block(pos)) || (invert && !a.touches_block(pos)),
        None => true,
    }
}

/// Whether `after` is what an overlay of a part of a block gives: the
/// part `part` of `from` copied into `into`, and the names tidied.
pub open spec fn overlaid(
    from: MapBlockView,
    into: MapBlockView,
    part: Area,
    after: MapBlockView,
) -> bool {
    cleaned(
        part_applied(
            from,
            into,
            ClonePart { src_key: 0, src_pos: Vec3 { x: 0, y: 0, z: 0 }, src_area: part, dst_area: part },
        ),
        after,
    )
}

/// Whether the part `part` of `from` can be copied into `into` and the
/// names tidied.
pub open spec fn can_overlay(from: MapBlockView, into: MapBlockView, part: Area) -> bool {
    spec_can_merge(from, into) && can_clean(
        part_applied(
            from,
            into,
            ClonePart { src_key: 0, src_pos: Vec3 { x: 0, y: 0, z: 0 }, src_area: part, dst_area: part },
        ),
    )
}

/// What overlaying a part of a block comes to: the part `part` of the
/// block `from` is copied into the block `into`, the names are tidied, and
/// the block is written. A block that cannot be read, copied into or
/// tidied fails.
pub open spec fn overlay_part_outcome(
    from: Result<MapBlockView, MapBlockError>,
    into: Result<MapBlockView, MapBlockError>,
    part: Area,
    r: BlockEditView,
) -> bool {
    match (from, into) {
        (Ok(f), Ok(t)) => if can_overlay(f, t, part) {
            exists|after: MapBlockView| #[trigger] overlaid(f, t, part, after) && r == written(after, 0)
        } else {
            r == BlockEditView::Failed
        },
        _ => r == BlockEditView::Failed,
    }
}

/// Copies the part `part` of the stored block `from_data` into the stored
/// block `into_data`, and writes the block.
pub fn overlay_part(from_data: &[u8], into_data: &[u8], part: Area) -> (r: BlockEdit)
    requires
        part.is_block_part(),
    ensures
        overlay_part_outcome(parse_block(from_data@), parse_block(into_data@), part, r@),
{
    let from_block = match MapBlock::deserialize(from_data) {
        Ok(block) => block,
        Err(_) => {
            return BlockEdit::Failed;
        },
    };
    let mut into_block = match MapBlock::deserialize(into_data) {
        Ok(block) => block,
        Err(_) => {
            return BlockEdit::Failed;
        },
    };
    let ghost f = from_block@;
    let ghost t = into_block@;
    assert(parse_block(from_data@) == Ok::<MapBlockView, MapBlockError>(f));
    assert(parse_block(into_data@) == Ok::<MapBlockView, MapBlockError>(t));
    let piece = ClonePart {
        src_key: 0,
        src_pos: Vec3 { x: 0, y: 0, z: 0 },
        src_area: part,
        dst_area: part,
    };
    if !apply_part(&from_block, &mut into_block, &piece) {
        return BlockEdit::Failed;
    }
    let r = finish_copy(&mut into_block);
    proof {
        if can_overlay(f, t, part) {
            assert(overlaid(f, t, part, into_block@));
        }
    }
    r
}

/// What an overlay without an offset makes of the block at `pos`.
///
/// Where the whole block is copied, a block that is valid and generated
/// is stored as it is read, and any other block is passed over. Where a
/// part is copied, a block that the area does not touch, or that the
/// written map does not have as a valid and generated block, is passed
/// over; else the part of the read block that lies within `area` is
/// copied into the written block, or, with the selection inverted, the
/// part of the written block that lies within `area` into the read block,
/// and that block is stored.
pub open spec fn overlay_outcome(
    src_data: Seq<u8>,
    dst_data: Option<Seq<u8>>,
    pos: Vec3,
    area: Option<Area>,
    invert: bool,
    r: BlockEditView,
) -> bool {
    if copies_whole(area, invert, pos) {
        r == if valid_generated(src_data) {
            BlockEditView::Changed { data: src_data, count: 0 }
        } else {
            BlockEditView::Skipped
        }
    } else if !(area->0).touches_block(pos) || dst_data is None || !valid_generated(dst_data->0) {
        r == BlockEditView::Skipped
    } else if invert {
        overlay_part_outcome(
            parse_block(dst_data->0),
            parse_block(src_data),
            block_part(area->0, pos),
            r,
        )
    } else {
        overlay_part_outcome(
            parse_block(src_data),
            parse_block(dst_data->0),
            block_part(area->0, pos),
            r,
        )
    }
}

/// Overlays the stored block `src_data` of the map that is read from on
/// the block `dst_data` of the map that is written to, if there is one;
/// both have the key `key`. There is no offset.
pub fn overlay_block(
    src_data: &[u8],
    dst_data: Option<&[u8]>,
    key: i64,
    area: Option<Area>,
    invert: bool,
) -> (r: BlockEdit)
    requires
        area matches Some(a) ==> a.is_valid(),
    ensures
        overlay_outcome(
            src_data@,
            match dst_data {
                Some(d) => Some(d@),
                None => None,
            },
            key_pos(key),
            area,
            invert,
            r@,
        ),
{
    let pos = Vec3::from_block_key(key);
    assert(pos == key_pos(key));
    let whole: bool = match area {
        Some(a) => (!invert && a.contains_block(pos)) || (invert && !a.touches_block(pos)),
        None => true,
    };
    if whole {
        // If possible, copy the whole mapblock.
        if is_valid_generated(src_data) {
            return BlockEdit::Changed { data: slice_to_vec(src_data), count: 0 };
        }
        return BlockEdit::Skipped;
    }
    // Copy a part of the mapblock.
    let a: Area = match area {
        Some(a) => a,
        None => {
            return BlockEdit::Skipped;
        },
    };
    let part = match a.rel_block_overlap(pos) {
        Some(part) => part,
        None => {
            return BlockEdit::Skipped;
        },
    };
    assert(part == block_part(a, pos));
    let dst_bytes: &[u8] = match dst_data {
        Some(d) => d,
        None => {
            return BlockEdit::Skipped;
        },
    };
    if !is_valid_generated(dst_bytes) {
        return BlockEdit::Skipped;
    }
    if invert {
        // For inverted selections, the order of the overlay is reversed.
        overlay_part(dst_bytes, src_data, part)
    } else {
        overlay_part(src_data, dst_bytes, part)
    }
}

/// Whether the block at `pos` lies near enough for a copy with an offset.
pub open spec fn block_within_reach(pos: Vec3) -> bool {
    &&& -62000 <= pos.x <= 62000
    &&& -62000 <= pos.y <= 62000
    &&& -62000 <= pos.z <= 62000
}

/// The part of the block at `pos` that an overlay with an offset writes
/// to: what `dst_area` holds of the block, or all of the block where no
/// area is given and the block lies within reach.
pub open spec fn overlay_target(dst_area: Option<Area>, pos: Vec3) -> Option<Area> {
    match dst_area {
        Some(a) => block_overlap(a, pos),
        None => if block_within_reach(pos) {
            Some(
                Area {
                    min: Vec3 {
                        x: (16 * pos.x) as i32,
                        y: (16 * pos.y) as i32,
                        z: (16 * pos.z) as i32,
                    },
                    max: Vec3 {
                        x: (16 * pos.x + 15) as i32,
                        y: (16 * pos.y + 15) as i32,
                        z: (16 * pos.z + 15) as i32,
                    },
                },
            )
        } else {
            None
        },
    }
}

/// The pieces of which an overlay by `offset` into the block with the key
/// `dst_key` is made, where `dst_area` is the area that the overlay
/// writes to, if one is given; none where there is nothing to write to in
/// the block.
pub fn overlay_parts(dst_area: Option<Area>, offset: Vec3, dst_key: i64) -> (parts: Vec<ClonePart>)
    requires
        dst_area matches Some(a) ==> a.is_valid() && within_reach(a.min) && within_reach(a.max),
        within_reach(offset),
    ensures
        forall|i: int|
            0 <= i < parts@.len() ==> block_parts_valid(
                &(#[trigger] parts@[i]).src_area,
                &parts@[i].dst_area,
            ),
        match overlay_target(dst_area, key_pos(dst_key)) {
            Some(dst_part) => parts@ == parts_upto(dst_part, offset, key_pos(dst_key), 8),
            None => parts@ == Seq::<ClonePart>::empty(),
        },
{
    let dst_pos = Vec3::from_block_key(dst_key);
    assert(dst_pos == key_pos(dst_key));
    let target: Option<Area> = match dst_area {
        Some(a) => a.abs_block_overlap(dst_pos),
        None => {
            if dst_pos.x < -62000 || dst_pos.x > 62000 || dst_pos.y < -62000 || dst_pos.y > 62000
                || dst_pos.z < -62000 || dst_pos.z > 62000 {
                None
            } else {
                Some(
                    Area {
                        min: Vec3 { x: dst_pos.x * 16, y: dst_pos.y * 16, z: dst_pos.z * 16 },
                        max: Vec3 {
                            x: dst_pos.x * 16 + 15,
                            y: dst_pos.y * 16 + 15,
                            z: dst_pos.z * 16 + 15,
                        },
                    },
                )
            }
        },
    };
    assert(target == overlay_target(dst_area, dst_pos));
    match target {
        Some(dst_part) => source_parts(dst_part, offset, dst_pos),
        None => Vec::new(),
    }
}

} // verus!
