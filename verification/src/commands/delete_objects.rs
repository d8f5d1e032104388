use crate::instance::InstArgs;
use crate::map_block::map_block::MapBlock;
use crate::map_block::map_block::MapBlockView;
use crate::map_block::map_block::parse_block;
use crate::map_block::static_object::LuaEntityData;
use crate::map_block::static_object::StaticObject;
use crate::map_block::static_object::StaticObjectView;
use crate::map_block::static_object::parse_lua_entity;
use crate::map_block::wire::MapBlockError;
use crate::map_block::wire::bytes_eq;
use crate::search::find_bytes;
use crate::search::first_occurrence;
use crate::spatial::area::Area;
use crate::utils::to_bytes;
use super::ArgResult;
use super::ArgResultView;
use super::BlockEdit;
use super::BlockEditView;
use super::finish_block;
use super::names_view;
use super::written;
use vstd::prelude::*;
use vstd::slice::slice_subrange;
use vstd::utf8::encode_utf8;

verus! {

/// The name of the entity that stands for a dropped item:
/// `__builtin:item`.
pub open spec fn item_entity_name() -> Seq<u8> {
    seq![
        95u8, 95u8, 98u8, 117u8, 105u8, 108u8, 116u8, 105u8, 110u8, 58u8, 105u8, 116u8, 101u8, 109u8,
    ]
}

/// The name of the entity that stands for a dropped item.
pub fn item_entity_name_bytes() -> (r: Vec<u8>)
    ensures
        r@ == item_entity_name(),
{
    let r = vec![
        95u8, 95u8, 98u8, 117u8, 105u8, 108u8, 116u8, 105u8, 110u8, 58u8, 105u8, 116u8, 101u8, 109u8,
    ];
    assert(r@ =~= item_entity_name());
    r
}

/// What the data of an item entity begins with where it is a table:
/// `return`.
pub open spec fn table_prefix() -> Seq<u8> {
    seq![114u8, 101u8, 116u8, 117u8, 114u8, 110u8]
}

/// What stands before the item's name in a table of the newer form:
/// `itemstring="`.
pub open spec fn name_pattern_new() -> Seq<u8> {
    seq![105u8, 116u8, 101u8, 109u8, 115u8, 116u8, 114u8, 105u8, 110u8, 103u8, 61u8, 34u8]
}

/// What stands before the item's name in a table of the older form:
/// `["itemstring"] = "`.
pub open spec fn name_pattern_old() -> Seq<u8> {
    seq![
        91u8, 34u8, 105u8, 116u8, 101u8, 109u8, 115u8, 116u8, 114u8, 105u8, 110u8, 103u8, 34u8, 93u8,
        32u8, 61u8, 32u8, 34u8,
    ]
}

/// The index at which the item's name starts in the table `data`: behind
/// the first pattern of the newer form, or else of the older form.
pub open spec fn item_name_start(data: Seq<u8>) -> Option<int> {
    match first_occurrence(data, name_pattern_new()) {
        Some(i) => Some(i + 12),
        None => match first_occurrence(data, name_pattern_old()) {
            Some(i) => Some(i + 18),
            None => None,
        },
    }
}

/// The index of the first space or double quote of `s` at or after
/// `from`, or the length of `s` if there is none.
pub open spec fn name_end(s: Seq<u8>, from: int) -> int
    decreases s.len() - from,
{
    if from >= s.len() {
        s.len() as int
    } else if s[from] == 32u8 || s[from] == 34u8 {
        from
    } else {
        name_end(s, from + 1)
    }
}

/// The name of the item in the data of an item entity: where the data is
/// a table, what stands behind the pattern up to the next space or double
/// quote, or nothing if there is no pattern; else the data itself.
pub open spec fn item_name(data: Seq<u8>) -> Seq<u8> {
    if table_prefix().is_prefix_of(data) {
        match item_name_start(data) {
            Some(idx) => data.subrange(idx, name_end(data, idx)),
            None => Seq::empty(),
        }
    } else {
        data
    }
}

/// The node that an object at the coordinate `v`, in ten-thousandths of a
/// node, counts as being in: the nearest one, the upper one at a tie.
pub open spec fn rounded_coord(v: int) -> int {
    (v + 5000) / 10000
}

/// Whether the object lies in the area.
pub open spec fn object_in_area(obj: StaticObjectView, a: Area) -> bool {
    &&& a.min.x <= rounded_coord(obj.f_pos.x as int) <= a.max.x
    &&& a.min.y <= rounded_coord(obj.f_pos.y as int) <= a.max.y
    &&& a.min.z <= rounded_coord(obj.f_pos.z as int) <= a.max.z
}

/// Whether the edit deletes the object: it lies within the area, or
/// outside it where `invert` is set; and, where a name is asked for, it
/// is a Lua entity of that name, and, where item names are asked for, an
/// entity of one of those items. An object that cannot be read is kept.
pub open spec fn object_hit(
    obj: StaticObjectView,
    area: Option<Area>,
    invert: bool,
    obj_name: Option<Seq<u8>>,
    item_names: Seq<Seq<u8>>,
) -> bool {
    &&& area matches Some(a) ==> object_in_area(obj, a) != invert
    &&& obj_name matches Some(name) ==> match parse_lua_entity(obj) {
        Ok((entity_name, data)) => entity_name == name && (item_names.len() == 0
            || item_names.contains(item_name(data))),
        Err(e) => false,
    }
}

fn starts_with(data: &[u8], prefix: &[u8]) -> (r: bool)
    ensures
        r == prefix@.is_prefix_of(data@),
{
    if data.len() < prefix.len() {
        return false;
    }
    bytes_eq(slice_subrange(data, 0, prefix.len()), prefix)
}

/// The index at which the item's name starts in a table.
pub fn get_item_name_start(data: &[u8]) -> (r: Option<usize>)
    ensures
        match r {
            Some(i) => item_name_start(data@) == Some(i as int) && i <= data@.len(),
            None => item_name_start(data@) is None,
        },
{
    let pattern_new = vec![
        105u8, 116u8, 101u8, 109u8, 115u8, 116u8, 114u8, 105u8, 110u8, 103u8, 61u8, 34u8,
    ];
    assert(pattern_new@ =~= name_pattern_new());
    assert(pattern_new@.len() == 12);
    let total: usize = data.len();
    match find_bytes(data, pattern_new.as_slice()) {
        Some(idx) => Some(idx + 12),
        None => {
            let pattern_old = vec![
                91u8, 34u8, 105u8, 116u8, 101u8, 109u8, 115u8, 116u8, 114u8, 105u8, 110u8, 103u8, 34u8,
                93u8, 32u8, 61u8, 32u8, 34u8,
            ];
            assert(pattern_old@ =~= name_pattern_old());
            assert(pattern_old@.len() == 18);
            match find_bytes(data, pattern_old.as_slice()) {
                Some(idx) => Some(idx + 18),
                None => None,
            }
        },
    }
}

/// The name of the item in the data of an item entity.
pub fn get_item_name<'a>(data: &'a [u8]) -> (r: &'a [u8])
    ensures
        r@ == item_name(data@),
{
    let prefix = vec![114u8, 101u8, 116u8, 117u8, 114u8, 110u8];
    assert(prefix@ =~= table_prefix());
    if starts_with(data, prefix.as_slice()) {
        match get_item_name_start(data) {
            Some(idx) => {
                let mut end: usize = idx;
                while end < data.len() && data[end] != 32 && data[end] != 34
                    invariant
                        idx <= end <= data@.len(),
                        name_end(data@, idx as int) == name_end(data@, end as int),
                    decreases data@.len() - end,
                {
                    end = end + 1;
                }
                slice_subrange(data, idx, end)
            },
            None => {
                let r = slice_subrange(data, 0, 0);
                assert(r@ =~= Seq::<u8>::empty());
                r
            },
        }
    } else {
        data
    }
}

fn round_coord(v: i32) -> (r: i64)
    ensures
        r == rounded_coord(v as int),
{
    (v as i64 + 5000).checked_div_euclid(10000).unwrap()
}

fn contains_name(names: &[Vec<u8>], name: &[u8]) -> (r: bool)
    ensures
        r == names_view(names@).contains(name@),
{
    let mut i: usize = 0;
    while i < names.len()
        invariant
            i <= names@.len(),
            forall|j: int| 0 <= j < i ==> names_view(names@)[j] != name@,
        decreases names@.len() - i,
    {
        assert(names_view(names@)[i as int] == names@[i as int]@);
        if bytes_eq(names[i].as_slice(), name) {
            return true;
        }
        i = i + 1;
    }
    false
}

/// The name of an object that is asked for, as a value of the logic.
pub open spec fn name_view(name: Option<Vec<u8>>) -> Option<Seq<u8>> {
    match name {
        Some(n) => Some(n@),
        None => None,
    }
}

/// Whether the edit deletes the object.
pub fn can_delete(
    obj: &StaticObject,
    area: &Option<Area>,
    invert: bool,
    obj_name: &Option<Vec<u8>>,
    item_names: &[Vec<u8>],
) -> (r: bool)
    ensures
        r == object_hit(obj@, *area, invert, name_view(*obj_name), names_view(item_names@)),
{
    // Check area requirement
    if let Some(a) = area {
        let x = round_coord(obj.f_pos.x);
        let y = round_coord(obj.f_pos.y);
        let z = round_coord(obj.f_pos.z);
        let held = a.min.x as i64 <= x && x <= a.max.x as i64 && a.min.y as i64 <= y && y
            <= a.max.y as i64 && a.min.z as i64 <= z && z <= a.max.z as i64;
        if held == invert {
            return false;  // Object not included in area.
        }
    }
    // Check name requirements
    if let Some(name) = obj_name {
        match LuaEntityData::deserialize(obj) {
            Ok(le_data) => {
                if !bytes_eq(le_data.name.as_slice(), name.as_slice()) {
                    return false;  // Object name does not match.
                }
                if item_names.len() != 0 {
                    let item_name = get_item_name(le_data.data.as_slice());
                    if !contains_name(item_names, item_name) {
                        // Item entity's item name does not match.
                        return false;
                    }
                }
            },
            Err(_) => {
                return false;  // Keep invalid or unsupported objects.
            },
        }
    }
    true  // Delete if all tests pass.
}

/// Those of the objects from the index `from` on that the edit leaves, in
/// their order.
pub open spec fn kept_from(
    objects: Seq<StaticObjectView>,
    area: Option<Area>,
    invert: bool,
    obj_name: Option<Seq<u8>>,
    item_names: Seq<Seq<u8>>,
    from: int,
) -> Seq<StaticObjectView>
    decreases objects.len() - from,
{
    if from >= objects.len() || from < 0 {
        Seq::empty()
    } else if object_hit(objects[from], area, invert, obj_name, item_names) {
        kept_from(objects, area, invert, obj_name, item_names, from + 1)
    } else {
        seq![objects[from]] + kept_from(objects, area, invert, obj_name, item_names, from + 1)
    }
}

/// The objects that the edit leaves, in their order.
pub open spec fn kept_objects(
    objects: Seq<StaticObjectView>,
    area: Option<Area>,
    invert: bool,
    obj_name: Option<Seq<u8>>,
    item_names: Seq<Seq<u8>>,
) -> Seq<StaticObjectView> {
    kept_from(objects, area, invert, obj_name, item_names, 0)
}

/// Deletes the objects of a block that lie within `area`, or outside it
/// where `invert` is set; only Lua entities of the name `obj_name` where
/// one is given, and only entities of one of the items `item_names` where
/// any are given. Returns the number of objects deleted.
pub fn delete_objects_in(
    block: &mut MapBlock,
    area: &Option<Area>,
    invert: bool,
    obj_name: &Option<Vec<u8>>,
    item_names: &[Vec<u8>],
) -> (count: u64)
    ensures
        final(block)@ == (MapBlockView {
            static_objects: kept_objects(
                old(block)@.static_objects,
                *area,
                invert,
                name_view(*obj_name),
                names_view(item_names@),
            ),
            ..old(block)@
        }),
        count == old(block)@.static_objects.len() - final(block)@.static_objects.len(),
{
    let ghost b = block@;
    let mut objects: Vec<StaticObject> = Vec::new();
    core::mem::swap(&mut block.static_objects, &mut objects);
    let ghost all = objects.deep_view();
    let n = objects.len();
    let mut count: usize = 0;
    let mut i: usize = n;
    proof {
        assert(objects.deep_view() =~= all.subrange(0, n as int) + kept_from(
            all,
            *area,
            invert,
            name_view(*obj_name),
            names_view(item_names@),
            n as int,
        ));
    }
    while i > 0
        invariant
            i <= n,
            n == all.len(),
            count + objects@.len() == n,
            i <= objects@.len(),
            objects.deep_view().len() == objects@.len(),
            objects.deep_view() == all.subrange(0, i as int) + kept_from(
                all,
                *area,
                invert,
                name_view(*obj_name),
                names_view(item_names@),
                i as int,
            ),
        decreases i,
    {
        i = i - 1;
        let ghost tail = kept_from(
            all,
            *area,
            invert,
            name_view(*obj_name),
            names_view(item_names@),
            i + 1,
        );
        let ghost cur = objects.deep_view();
        assert(all.subrange(0, (i + 1) as int).len() == i + 1);
        assert(cur[i as int] == all[i as int]);
        assert(cur[i as int] == objects@[i as int]@);
        if can_delete(&objects[i], area, invert, obj_name, item_names) {
            objects.remove(i);
            count = count + 1;
            proof {
                assert(objects.deep_view() =~= cur.remove(i as int));
                assert(cur.remove(i as int) =~= all.subrange(0, i as int) + tail);
            }
        } else {
            proof {
                assert(cur =~= all.subrange(0, i as int) + (seq![all[i as int]] + tail));
            }
        }
    }
    proof {
        assert(all.subrange(0, 0) + kept_from(
            all,
            *area,
            invert,
            name_view(*obj_name),
            names_view(item_names@),
            0,
        ) =~= kept_from(all, *area, invert, name_view(*obj_name), names_view(item_names@), 0));
    }
    block.static_objects = objects;
    count as u64
}

/// What deleting objects makes of the stored block `b`: nothing where no
/// object is deleted; else the block without the objects, written.
pub open spec fn delete_objects_outcome(
    b: MapBlockView,
    area: Option<Area>,
    invert: bool,
    obj_name: Option<Seq<u8>>,
    item_names: Seq<Seq<u8>>,
) -> BlockEditView {
    let kept = kept_objects(b.static_objects, area, invert, obj_name, item_names);
    if kept.len() == b.static_objects.len() {
        BlockEditView::Skipped
    } else {
        written(
            MapBlockView { static_objects: kept, ..b },
            (b.static_objects.len() - kept.len()) as u64,
        )
    }
}

/// Deletes objects from the stored block `data`: those within `area`, or
/// outside it where `invert` is set, or all where no area is given; only
/// Lua entities of the name `obj_name` where one is given, and only
/// entities of one of the items `item_names` where any are given.
pub fn delete_objects_block(
    data: &[u8],
    area: &Option<Area>,
    invert: bool,
    obj_name: &Option<Vec<u8>>,
    item_names: &[Vec<u8>],
) -> (r: BlockEdit)
    ensures
        match parse_block(data@) {
            Ok(b) => r@ == delete_objects_outcome(
                b,
                *area,
                invert,
                name_view(*obj_name),
                names_view(item_names@),
            ),
            Err(e) => r@ == BlockEditView::Failed,
        },
{
    let mut block = match MapBlock::deserialize(data) {
        Ok(block) => block,
        Err(_) => {
            return BlockEdit::Failed;
        },
    };
    let ghost b = block@;
    assert(parse_block(data@) == Ok::<MapBlockView, MapBlockError>(b));
    let count = delete_objects_in(&mut block, area, invert, obj_name, item_names);
    if count == 0 {
        return BlockEdit::Skipped;
    }
    finish_block(&block, count)
}

/// What the check of the arguments for deleting objects comes to: an
/// object name and item names exclude each other.
pub open spec fn args_checked(args: InstArgs) -> ArgResultView {
    if args.object is Some && args.items is Some {
        ArgResultView::Error("Cannot use both --obj and --items."@)
    } else {
        ArgResultView::Okay
    }
}

/// Checks the arguments for deleting objects.
pub fn verify_args(args: &InstArgs) -> (r: ArgResult)
    ensures
        r@ == args_checked(*args),
{
    if args.object.is_some() && args.items.is_some() {
        return ArgResult::error("Cannot use both --obj and --items.");
    }
    ArgResult::Okay
}

/// The bytes of a text, where one is given.
pub open spec fn text_bytes(text: Option<String>) -> Option<Seq<u8>> {
    match text {
        Some(t) => Some(encode_utf8(t@)),
        None => None,
    }
}

/// The name of the objects that are deleted: that of the entity which
/// stands for a dropped item where items are asked for, else the name
/// that is asked for, if any.
pub fn target_name(object: &Option<String>, items: &Option<Vec<String>>) -> (r: Option<Vec<u8>>)
    ensures
        name_view(r) == if items is Some {
            Some(item_entity_name())
        } else {
            text_bytes(*object)
        },
{
    if items.is_some() {
        Some(item_entity_name_bytes())
    } else {
        match object {
            Some(name) => Some(to_bytes(name)),
            None => None,
        }
    }
}

} // verus!
