use mapeditr::block_utils::block_parts_valid;
use mapeditr::block_utils::can_merge;
use mapeditr::block_utils::clean_name_id_map;
use mapeditr::block_utils::merge_blocks;
use mapeditr::block_utils::merge_metadata;
use mapeditr::commands::clone::apply_part;
use mapeditr::commands::clone::clone_parts;
use mapeditr::commands::clone::copy_parts;
use mapeditr::commands::clone::finish_copy;
use mapeditr::commands::clone::sort_key;
use mapeditr::commands::delete_meta::delete_meta_block;
use mapeditr::commands::delete_objects::can_delete;
use mapeditr::commands::delete_objects::delete_objects_block;
use mapeditr::commands::delete_objects::get_item_name;
use mapeditr::commands::delete_objects::get_item_name_start;
use mapeditr::commands::delete_objects::item_entity_name_bytes;
use mapeditr::commands::delete_objects::target_name;
use mapeditr::commands::delete_timers::delete_timers_block;
use mapeditr::commands::fill::fill_block;
use mapeditr::commands::overlay::overlay_block;
use mapeditr::commands::overlay::overlay_parts;
use mapeditr::commands::replace_in_inv::do_replace;
use mapeditr::commands::replace_in_inv::replace_in_inv_block;
use mapeditr::commands::replace_in_inv::replacement_item;
use mapeditr::commands::replace_nodes::replace_block;
use mapeditr::commands::set_meta_var::set_meta_var_block;
use mapeditr::commands::set_param2::set_param2_block;
use mapeditr::commands::set_param2::set_param2_partial;
use mapeditr::commands;
use mapeditr::commands::ArgResult;
use mapeditr::commands::BlockEdit;
use mapeditr::commands::CommandKind;
use mapeditr::instance::InstArgs;
use mapeditr::map_block::map_block::decode_generated;
use mapeditr::map_block::metadata::end_marker_bytes;
use mapeditr::map_block::MapBlock;
use mapeditr::map_block::NameIdMap;
use mapeditr::map_block::NodeData;
use mapeditr::map_block::NodeMetadata;
use mapeditr::map_block::NodeMetadataList;
use mapeditr::map_block::NodeTimer;
use mapeditr::map_block::StaticObject;
use mapeditr::map_block::ZlibContainer;
use mapeditr::spatial::Area;
use mapeditr::spatial::Vec3;
use mapeditr::utils::query_keys;
use mapeditr::utils::KeyQuery;

#[test]
fn test_delete_objects() {
    let pairs: &[(&[u8], &[u8])] = &[
        (b"default:glass", b"default:glass"),
        (b"return {}", b""),
        (b"return {[\"itemstring\"] = \"\", [\"age\"] = 100}", b""),
        (b"return {[\"itemstring\"] = \"mod:item\"}", b"mod:item"),
        (b"return {[\"age\"] = 400, [\"itemstring\"] = \"one:two 99 32\"}", b"one:two"),
        (b"return {itemstring=\"\",age=100}", b""),
        (b"return {itemstring=\"mod:item\"}", b"mod:item"),
        (b"return {age=400,itemstring=\"one:two 99 32\"}", b"one:two"),
    ];
    for &(data, name) in pairs {
        assert_eq!(get_item_name(data), name);
    }
}

#[test]
fn item_names_at_the_edges() {
    assert_eq!(get_item_name_start(b"return {itemstring=\"a\"}"), Some(20));
    assert_eq!(get_item_name_start(b"return {[\"itemstring\"] = \"a\"}"), Some(26));
    assert_eq!(get_item_name_start(b"return {}"), None);
    // The newer form goes first where both stand.
    assert_eq!(get_item_name(b"return {[\"itemstring\"] = \"old\", itemstring=\"new\"}"), b"new");
    // A name that is not closed reaches to the end.
    assert_eq!(get_item_name(b"return {itemstring=\"open"), b"open");
    assert_eq!(get_item_name(b""), b"");
    assert_eq!(get_item_name(b"retur"), b"retur");
}

#[test]
fn test_replace_in_inv() {
    let before = b"\
        List main 10\n\
        Width 5\n\
        Item tools:pickaxe 1 300\n\
        Item test:foo\n\
        Item test:foo 3\n\
        Item test:foo 10 32768\n\
        Empty\n\
        Item test:foo 1 0 \x01some variable\x02some value\x03\n\
        Item test:foo 1 1234 \x01color\x02#FF00FF\x03\n\
        Item test:bar 20\n\
        Item test:foo 42 0 \x01random_number\x02892\x03\n\
        Item test:foo 99 100 \x01description\x02test metadata\x03\n\
        EndInventoryList\n\
        EndInventory\n";
    let replace = b"\
        List main 10\n\
        Width 5\n\
        Item tools:pickaxe 1 300\n\
        Item test:bar\n\
        Item test:bar 3\n\
        Item test:bar 10 32768\n\
        Empty\n\
        Item test:bar 1 0 \x01some variable\x02some value\x03\n\
        Item test:bar 1 1234 \x01color\x02#FF00FF\x03\n\
        Item test:bar 20\n\
        Item test:bar 42 0 \x01random_number\x02892\x03\n\
        Item test:bar 99 100 \x01description\x02test metadata\x03\n\
        EndInventoryList\n\
        EndInventory\n";
    let delete = b"\
        List main 10\n\
        Width 5\n\
        Item tools:pickaxe 1 300\n\
        Empty\n\
        Empty\n\
        Empty\n\
        Empty\n\
        Empty\n\
        Empty\n\
        Item test:bar 20\n\
        Empty\n\
        Empty\n\
        EndInventoryList\n\
        EndInventory\n";
    let replace_delete_meta = b"\
        List main 10\n\
        Width 5\n\
        Item tools:pickaxe 1 300\n\
        Item test:bar\n\
        Item test:bar 3\n\
        Item test:bar 10 32768\n\
        Empty\n\
        Item test:bar\n\
        Item test:bar 1 1234\n\
        Item test:bar 20\n\
        Item test:bar 42\n\
        Item test:bar 99 100\n\
        EndInventoryList\n\
        EndInventory\n";

    let mut inv = before.to_vec();
    do_replace(&mut inv, b"test:foo", b"test:bar", false);
    assert_eq!(&inv, replace);

    let mut inv = before.to_vec();
    do_replace(&mut inv, b"test:foo", b"", false);
    assert_eq!(&inv, delete);

    let mut inv = before.to_vec();
    do_replace(&mut inv, b"test:foo", b"test:bar", true);
    assert_eq!(&inv, replace_delete_meta);
}

#[test]
fn replacing_in_an_inventory_counts_the_stacks() {
    let mut inv = b"Item a:b 2\n\nItem a:bc\nItem a:b\nEndInventory".to_vec();
    assert_eq!(do_replace(&mut inv, b"a:b", b"x:y", false), 2);
    // Empty lines are left out, and the last line gets its newline.
    assert_eq!(inv, b"Item x:y 2\nItem a:bc\nItem x:y\nEndInventory\n");
    // An inventory without the item stays as it is, empty lines and all.
    let mut inv = b"Empty\n\nEndInventory".to_vec();
    assert_eq!(do_replace(&mut inv, b"a:b", b"x:y", true), 0);
    assert_eq!(inv, b"Empty\n\nEndInventory");
    // The word Item alone, or another word before the name, is no stack.
    let mut inv = b"Item\nItems a:b\nItem  a:b\n".to_vec();
    assert_eq!(do_replace(&mut inv, b"a:b", b"", false), 0);
    // Count and wear are left out only where they are 1 and 0.
    let mut inv = b"Item a:b 1 0 meta\nItem a:b 2 0 meta\nItem a:b 1 5 more words\n".to_vec();
    assert_eq!(do_replace(&mut inv, b"a:b", b"c:d", true), 3);
    assert_eq!(inv, b"Item c:d\nItem c:d 2\nItem c:d 1 5\n");
}

fn names(list: &[(u16, &[u8])]) -> NameIdMap {
    let mut nimap = NameIdMap::new();
    for &(id, name) in list {
        nimap.insert(id, name.to_vec());
    }
    nimap
}

fn block_of(nodes: Vec<u16>, nimap: NameIdMap) -> MapBlock {
    MapBlock {
        version: 28,
        flags: 0,
        lighting_complete: 0xFFFF,
        content_width: 2,
        params_width: 2,
        node_data: ZlibContainer::new(NodeData {
            nodes,
            param1: vec![0; 4096],
            param2: vec![0; 4096],
        }),
        metadata: ZlibContainer::new(NodeMetadataList::new()),
        static_objects: Vec::new(),
        timestamp: 0,
        nimap,
        node_timers: Vec::new(),
    }
}

fn stored(block: &MapBlock) -> Vec<u8> {
    assert!(block.encodable());
    block.serialize().unwrap()
}

fn changed(edit: BlockEdit) -> (MapBlock, u64) {
    match edit {
        BlockEdit::Changed { data, count } => (MapBlock::deserialize(&data).unwrap(), count),
        BlockEdit::Failed => panic!("the block failed"),
        BlockEdit::Skipped => panic!("the block was passed over"),
    }
}

fn name_at(block: &MapBlock, idx: usize) -> Vec<u8> {
    block.nimap.get_name(block.node_data.get_ref().nodes[idx]).unwrap().clone()
}

fn index(x: usize, y: usize, z: usize) -> usize {
    x + 16 * y + 256 * z
}

fn is_clean(block: &MapBlock) -> bool {
    let n = block.nimap.len();
    let nodes = &block.node_data.get_ref().nodes;
    (0..n).all(|i| {
        block.nimap.0.key_at(i) as usize == i
            && nodes.contains(&(i as u16))
            && (0..i).all(|j| block.nimap.0.value_at(j) != block.nimap.0.value_at(i))
    }) && nodes.iter().all(|&id| (id as usize) < n)
}

#[test]
fn clone_within_one_db_positive_offset() {
    // A single block at (0, 0, 0) with node A at index 0 and air elsewhere;
    // the block at (1, 0, 0) is there, all air.
    let mut nodes = vec![0u16; 4096];
    nodes[0] = 1;
    let src_block = block_of(nodes, names(&[(0, b"air"), (1, b"mod:a")]));
    let dst_block = block_of(vec![0u16; 4096], names(&[(0, b"air")]));
    let src_key = Vec3::new(0, 0, 0).to_block_key();
    let dst_key = Vec3::new(1, 0, 0).to_block_key();
    let src_data = stored(&src_block);

    let src_area = Area::new(Vec3::new(0, 0, 0), Vec3::new(0, 0, 0));
    let offset = Vec3::new(16, 0, 0);
    let dst_area = src_area + offset;
    let rows = vec![(src_key, src_data.clone()), (dst_key, stored(&dst_block))];
    let mut dst_keys = query_keys(&rows, &Vec::new(), Some(dst_area), false, true);
    dst_keys.sort_unstable_by_key(|k| sort_key(*k, offset));
    assert_eq!(dst_keys, vec![dst_key]);

    let mut dst = MapBlock::deserialize(&rows[1].1).unwrap();
    let parts = clone_parts(dst_area, offset, dst_key);
    assert_eq!(parts.len(), 1);
    assert_eq!(parts[0].src_key, src_key);
    assert_eq!(parts[0].src_area, src_area);
    assert_eq!(parts[0].dst_area, src_area);
    let src = MapBlock::deserialize(&src_data).unwrap();
    assert!(apply_part(&src, &mut dst, &parts[0]));
    let (after, _) = changed(finish_copy(&mut dst));

    assert_eq!(name_at(&after, 0), b"mod:a");
    assert!((1..4096).all(|i| name_at(&after, i) == b"air"));
    assert_eq!(after.nimap.len(), 2);
    assert_eq!(after.nimap.get_name(0).unwrap(), b"air");
    assert_eq!(after.nimap.get_name(1).unwrap(), b"mod:a");
    assert!(is_clean(&after));
    // The block that was read from is as it was.
    assert_eq!(stored(&src), src_data);
}

#[test]
fn clone_order_reads_before_it_writes() {
    let offset = Vec3::new(16, -16, 0);
    let a = Vec3::new(0, 0, 0).to_block_key();
    let b = Vec3::new(1, 0, 0).to_block_key();
    let c = Vec3::new(0, -1, 0).to_block_key();
    // Up the x axis the block that is further goes first; down the y axis
    // the block that is less far.
    assert!(sort_key(b, offset) < sort_key(a, offset));
    assert!(sort_key(c, offset) < sort_key(a, offset));
    assert_eq!(sort_key(a, Vec3::new(0, 0, 0)), a);
    assert_eq!(sort_key(b, Vec3::new(1, 1, 1)), Vec3::new(-2, -1, -1).to_block_key());
}

#[test]
fn clone_across_block_borders_takes_from_eight_blocks() {
    let dst_area = Area::new(Vec3::new(0, 0, 0), Vec3::new(15, 15, 15));
    let parts = clone_parts(dst_area, Vec3::new(8, 8, 8), 0);
    assert_eq!(parts.len(), 8);
    let mut covered = 0;
    for part in &parts {
        assert!(block_parts_valid(&part.src_area, &part.dst_area));
        covered += part.dst_area.volume();
    }
    assert_eq!(covered, 4096);
    assert_eq!(parts[0].src_pos, Vec3::new(-1, -1, -1));
    assert_eq!(parts[0].src_area, Area::new(Vec3::new(8, 8, 8), Vec3::new(15, 15, 15)));
    assert_eq!(parts[0].dst_area, Area::new(Vec3::new(0, 0, 0), Vec3::new(7, 7, 7)));
    assert_eq!(parts[1].src_pos, Vec3::new(0, -1, -1));
    assert_eq!(parts[7].src_pos, Vec3::new(0, 0, 0));
    // Blocks beyond the map are no source.
    let edge = Vec3::new(-1937, 0, 0);
    let parts = clone_parts(
        Area::new(edge * 16, edge * 16 + 15),
        Vec3::new(8, 0, 0),
        edge.to_block_key(),
    );
    assert_eq!(parts.len(), 1);
    assert_eq!(parts[0].src_pos, edge);
    // An area that does not reach the block gives nothing to do.
    assert_eq!(clone_parts(dst_area, Vec3::new(1, 0, 0), 5).len(), 0);
    assert_eq!(overlay_parts(None, Vec3::new(0, 16, 0), 0).len(), 1);
    assert_eq!(overlay_parts(Some(dst_area), Vec3::new(0, 1, 0), 0).len(), 2);
}

#[test]
fn fill_with_invert() {
    let block = block_of(vec![0u16; 4096], names(&[(0, b"stone")]));
    let area = Area::new(Vec3::new(4, 4, 4), Vec3::new(11, 11, 11));
    let (after, _) = changed(fill_block(&stored(&block), 0, area, true, b"air"));
    for z in 0..16 {
        for y in 0..16 {
            for x in 0..16 {
                let core = (4..12).contains(&x) && (4..12).contains(&y) && (4..12).contains(&z);
                let want: &[u8] = if core { b"stone" } else { b"air" };
                assert_eq!(name_at(&after, index(x, y, z)), want);
            }
        }
    }
    assert_eq!(after.nimap.len(), 2);
    assert!(is_clean(&after));
}

#[test]
fn fill_within_an_area() {
    let mut nodes = vec![0u16; 4096];
    nodes[index(15, 15, 15)] = 1;
    let block = block_of(nodes, names(&[(0, b"stone"), (1, b"air"), (5, b"unused")]));
    let area = Area::new(Vec3::new(-100, 0, 0), Vec3::new(1, 0, 0));
    let (after, count) = changed(fill_block(&stored(&block), 0, area, false, b"mod:new"));
    assert_eq!(count, 2);
    assert_eq!(name_at(&after, 0), b"mod:new");
    assert_eq!(name_at(&after, 1), b"mod:new");
    assert_eq!(name_at(&after, 2), b"stone");
    assert_eq!(name_at(&after, index(15, 15, 15)), b"air");
    assert_eq!(after.nimap.len(), 3);
    assert!(is_clean(&after));
    assert_eq!(after.node_data.get_ref().param1, vec![0; 4096]);

    // An area that holds all of the block leaves no other name in it.
    let aligned = Area::new(Vec3::new(0, 0, 0), Vec3::new(31, 15, 15));
    let (after, count) = changed(fill_block(&stored(&block), 0, aligned, false, b"mod:new"));
    assert_eq!(count, 4096);
    assert!((0..4096).all(|i| name_at(&after, i) == b"mod:new"));
    assert_eq!(after.nimap.len(), 1);
    assert_eq!(after.nimap.get_name(0).unwrap(), b"mod:new");
}

#[test]
fn fill_fails_where_the_block_cannot_be_edited() {
    let area = Area::new(Vec3::new(0, 0, 0), Vec3::new(3, 3, 3));
    assert!(matches!(fill_block(b"\x1c\x00", 0, area, false, b"air"), BlockEdit::Failed));
    // A node without a name.
    let mut nodes = vec![0u16; 4096];
    nodes[100] = 9;
    let block = block_of(nodes, names(&[(0, b"stone")]));
    assert!(matches!(fill_block(&stored(&block), 0, area, false, b"air"), BlockEdit::Failed));
    // No ID is left for a new name.
    let block = block_of(vec![65535u16; 4096], names(&[(65535, b"stone")]));
    assert!(matches!(fill_block(&stored(&block), 0, area, false, b"air"), BlockEdit::Failed));
    assert!(matches!(fill_block(&stored(&block), 0, area, false, b"stone"), BlockEdit::Changed { .. }));
}

#[test]
fn replace_eliminating_old_id() {
    let mut nodes = vec![0u16; 4096];
    nodes[17] = 1;
    nodes[18] = 2;
    nodes[4000] = 2;
    let block = block_of(nodes, names(&[(0, b"stone"), (1, b"dirt"), (2, b"grass")]));
    let (after, count) = changed(replace_block(&stored(&block), 0, b"dirt", b"stone", None, false));
    assert_eq!(count, 1);
    assert_eq!(after.nimap.len(), 2);
    assert_eq!(after.nimap.get_id(b"dirt"), None);
    assert_eq!(after.nimap.get_name(0).unwrap(), b"stone");
    assert_eq!(after.nimap.get_name(1).unwrap(), b"grass");
    let nodes = &after.node_data.get_ref().nodes;
    assert_eq!(nodes[17], 0);
    assert_eq!(nodes[18], 1);
    assert_eq!(nodes[4000], 1);
    assert!((0..4096).all(|i| i == 18 || i == 4000 || nodes[i] == 0));
}

#[test]
fn replace_in_the_three_cases() {
    let mut nodes = vec![0u16; 4096];
    nodes[0] = 1;
    nodes[index(8, 0, 0)] = 1;
    let block = block_of(nodes, names(&[(0, b"air"), (1, b"dirt")]));
    let data = stored(&block);
    // The whole block, the new name not there: the name is changed.
    let (after, count) = changed(replace_block(&data, 0, b"dirt", b"sand", None, false));
    assert_eq!(count, 2);
    assert_eq!(after.nimap.get_name(1).unwrap(), b"sand");
    assert_eq!(after.node_data.get_ref().nodes, block.node_data.get_ref().nodes);
    // A part of the block, the new name not there: it gets the next ID.
    let area = Some(Area::new(Vec3::new(0, 0, 0), Vec3::new(7, 15, 15)));
    let (after, count) = changed(replace_block(&data, 0, b"dirt", b"sand", area, false));
    assert_eq!(count, 1);
    assert_eq!(name_at(&after, 0), b"sand");
    assert_eq!(name_at(&after, index(8, 0, 0)), b"dirt");
    assert_eq!(after.nimap.len(), 3);
    // Outside that part.
    let (after, count) = changed(replace_block(&data, 0, b"dirt", b"sand", area, true));
    assert_eq!(count, 1);
    assert_eq!(name_at(&after, 0), b"dirt");
    assert_eq!(name_at(&after, index(8, 0, 0)), b"sand");
    // A part of the block from which the old node goes altogether.
    let all_but = Some(Area::new(Vec3::new(0, 0, 0), Vec3::new(8, 15, 15)));
    let (after, count) = changed(replace_block(&data, 0, b"dirt", b"air", all_but, false));
    assert_eq!(count, 2);
    assert_eq!(after.nimap.len(), 1);
    assert!((0..4096).all(|i| name_at(&after, i) == b"air"));
    // A block without the old node is passed over, as is a replacement by itself.
    assert!(matches!(replace_block(&data, 0, b"sand", b"air", None, false), BlockEdit::Skipped));
    assert!(matches!(replace_block(&data, 0, b"dirt", b"dirt", None, false), BlockEdit::Skipped));
    assert!(matches!(replace_block(b"\x00", 0, b"dirt", b"air", None, false), BlockEdit::Failed));
}

#[test]
fn replace_there_and_back_restores_the_names() {
    let mut nodes = vec![0u16; 4096];
    for i in 0..4096 {
        nodes[i] = (i % 3) as u16;
    }
    let block = block_of(nodes, names(&[(0, b"air"), (1, b"m:a"), (2, b"m:c")]));
    let data = stored(&block);
    for area in [None, Some(Area::new(Vec3::new(3, 0, 0), Vec3::new(40, 9, 15)))] {
        for invert in [false, true] {
            if area.is_none() && invert {
                continue;
            }
            let (there, _) = changed(replace_block(&data, 0, b"m:a", b"m:b", area, invert));
            let (back, _) = changed(replace_block(&stored(&there), 0, b"m:b", b"m:a", area, invert));
            assert!((0..4096).all(|i| name_at(&back, i) == name_at(&block, i)));
        }
    }
}

#[test]
fn overlay_with_partial_block() {
    let src = block_of(vec![0u16; 4096], names(&[(0, b"mod:a")]));
    let mut dst = block_of(vec![0u16; 4096], names(&[(0, b"mod:b")]));
    dst.node_timers.push(NodeTimer { pos: 1, timeout: 2, elapsed: 3 });
    dst.static_objects.push(StaticObject { obj_type: 1, f_pos: Vec3::new(1, 2, 3), data: Vec::new() });
    let area = Some(Area::new(Vec3::new(0, 0, 0), Vec3::new(7, 7, 7)));
    let (after, _) =
        changed(overlay_block(&stored(&src), Some(&stored(&dst)), 0, area, false));
    for z in 0..16 {
        for y in 0..16 {
            for x in 0..16 {
                let low = x < 8 && y < 8 && z < 8;
                let want: &[u8] = if low { b"mod:a" } else { b"mod:b" };
                assert_eq!(name_at(&after, index(x, y, z)), want);
            }
        }
    }
    assert!(after.metadata.get_ref().is_empty());
    assert_eq!(after.node_timers, dst.node_timers);
    assert_eq!(after.static_objects.len(), 1);
    assert!(is_clean(&after));

    // Inverted: what lies outside the area comes from the block that is read.
    let (after, _) = changed(overlay_block(&stored(&src), Some(&stored(&dst)), 0, area, true));
    assert_eq!(name_at(&after, 0), b"mod:b");
    assert_eq!(name_at(&after, index(8, 0, 0)), b"mod:a");
    assert_eq!(after.node_timers.len(), 0);
}

#[test]
fn overlay_of_whole_blocks_copies_the_bytes() {
    let src = stored(&block_of(vec![0u16; 4096], names(&[(0, b"mod:a")])));
    match overlay_block(&src, None, 0, None, false) {
        BlockEdit::Changed { data, .. } => assert_eq!(data, src),
        _ => panic!("the block was not copied"),
    }
    let all = Some(Area::new(Vec3::new(0, 0, 0), Vec3::new(15, 15, 15)));
    assert!(matches!(overlay_block(&src, None, 0, all, false), BlockEdit::Changed { .. }));
    // A block that is not generated is passed over.
    assert!(matches!(overlay_block(b"\x1c\x08", None, 0, None, false), BlockEdit::Skipped));
    // A part is only copied into a block that is there.
    let part = Some(Area::new(Vec3::new(0, 0, 0), Vec3::new(3, 3, 3)));
    assert!(matches!(overlay_block(&src, None, 0, part, false), BlockEdit::Skipped));
    assert!(matches!(overlay_block(&src, Some(b"\x1c\x00"), 0, part, false), BlockEdit::Failed));
}

fn item_entity(item: &[u8]) -> StaticObject {
    let mut table = b"return {itemstring=\"".to_vec();
    table.extend_from_slice(item);
    table.extend_from_slice(b" 2\",age=1}");
    let mut data = vec![1u8, 0, 14];
    data.extend_from_slice(b"__builtin:item");
    data.extend_from_slice(&(table.len() as u32).to_be_bytes());
    data.extend_from_slice(&table);
    StaticObject { obj_type: 7, f_pos: Vec3::new(15000, 0, 0), data }
}

#[test]
fn delete_items_by_name() {
    let mut block = block_of(vec![0u16; 4096], names(&[(0, b"air")]));
    block.static_objects.push(item_entity(b"mod:a"));
    block.static_objects.push(StaticObject {
        obj_type: 7,
        f_pos: Vec3::new(0, 0, 0),
        data: b"\x01\x00\x05mob:x\x00\x00\x00\x00".to_vec(),
    });
    block.static_objects.push(item_entity(b"mod:b"));
    let (after, count) = changed(delete_objects_block(
        &stored(&block),
        &None,
        false,
        &Some(item_entity_name_bytes()),
        &[b"mod:a".to_vec()],
    ));
    assert_eq!(count, 1);
    assert_eq!(after.static_objects.len(), 2);
    assert_eq!(after.static_objects[0].data, block.static_objects[1].data);
    assert_eq!(after.static_objects[1].data, block.static_objects[2].data);
    // Without a name all objects go; without a match the block stays.
    let (after, count) =
        changed(delete_objects_block(&stored(&block), &None, false, &None, &[]));
    assert_eq!((after.static_objects.len(), count), (0, 3));
    assert!(matches!(
        delete_objects_block(&stored(&block), &None, false, &Some(b"mob:y".to_vec()), &[]),
        BlockEdit::Skipped
    ));
}

#[test]
fn objects_are_placed_at_the_nearest_node() {
    let here = Some(Area::new(Vec3::new(2, 0, 0), Vec3::new(2, 0, 0)));
    let obj = |x: i32| StaticObject { obj_type: 1, f_pos: Vec3::new(x, 0, -4999), data: Vec::new() };
    assert!(can_delete(&obj(15000), &here, false, &None, &[]));
    assert!(can_delete(&obj(24999), &here, false, &None, &[]));
    assert!(!can_delete(&obj(14999), &here, false, &None, &[]));
    assert!(!can_delete(&obj(25000), &here, false, &None, &[]));
    assert!(can_delete(&obj(25000), &here, true, &None, &[]));
    assert!(!can_delete(&obj(i32::MAX), &here, false, &None, &[]));
    // An object that is no Lua entity has no name to match.
    assert!(!can_delete(&obj(15000), &here, false, &Some(b"x:y".to_vec()), &[]));
}

#[test]
fn query_key_prefilter() {
    let with = block_of(vec![0u16; 4096], names(&[(0, b"air"), (1, b"mod:x")]));
    let without = block_of(vec![0u16; 4096], names(&[(0, b"air")]));
    let rows = vec![(7i64, stored(&with)), (8i64, stored(&without))];
    assert_eq!(query_keys(&rows, &vec![b"mod:x".to_vec()], None, false, true), vec![7]);
    assert_eq!(query_keys(&rows, &Vec::new(), None, false, true), vec![7, 8]);
    assert_eq!(
        query_keys(&rows, &vec![b"mod:y".to_vec(), b"air".to_vec()], None, false, true),
        vec![7, 8]
    );
    // The name must stand behind its length: a part of a name is not found.
    assert_eq!(query_keys(&rows, &vec![b"mod:".to_vec()], None, false, true), Vec::<i64>::new());
    // A block from version 29 on is packed as a whole and always passes.
    let mut packed = block_of(vec![0u16; 4096], names(&[(0, b"air")]));
    packed.version = 29;
    let rows = vec![(1i64, stored(&packed)), (2i64, Vec::new())];
    assert_eq!(query_keys(&rows, &vec![b"mod:x".to_vec()], None, false, true), vec![1, 2]);
}

#[test]
fn query_by_area() {
    let area = Some(Area::new(Vec3::new(-1, 0, 0), Vec3::new(31, 15, 15)));
    let keys: Vec<i64> = vec![
        Vec3::new(-1, 0, 0).to_block_key(),
        Vec3::new(0, 0, 0).to_block_key(),
        Vec3::new(1, 0, 0).to_block_key(),
        Vec3::new(2, 0, 0).to_block_key(),
        Vec3::new(0, 1, 0).to_block_key(),
    ];
    let rows: Vec<(i64, Vec<u8>)> = keys.iter().map(|&k| (k, vec![28u8, 0])).collect();
    let none = Vec::new();
    // Blocks that touch the area; blocks that lie within it.
    assert_eq!(query_keys(&rows, &none, area, false, true), keys[0..3].to_vec());
    assert_eq!(query_keys(&rows, &none, area, false, false), keys[1..3].to_vec());
    // Inverted: blocks not wholly within; blocks wholly outside.
    assert_eq!(query_keys(&rows, &none, area, true, true), vec![keys[0], keys[3], keys[4]]);
    assert_eq!(query_keys(&rows, &none, area, true, false), vec![keys[3], keys[4]]);
    // An area that holds no block selects nothing, or everything inverted.
    let small = Some(Area::new(Vec3::new(1, 1, 1), Vec3::new(2, 2, 2)));
    assert_eq!(query_keys(&rows, &none, small, false, false), Vec::<i64>::new());
    assert!(!KeyQuery::new(&none, small, false, false).scans());
    assert_eq!(query_keys(&rows, &none, small, true, true), keys);
    for (key, data) in &rows {
        let pos = Vec3::from_block_key(*key);
        let a = area.unwrap();
        assert_eq!(KeyQuery::new(&none, area, false, true).selects(*key, data), a.touches_block(pos));
        assert_eq!(KeyQuery::new(&none, area, false, false).selects(*key, data), a.contains_block(pos));
    }
}

#[test]
fn merging_blocks_and_cleaning_names() {
    let mut src_nodes = vec![0u16; 4096];
    src_nodes[index(15, 15, 15)] = 1;
    let mut src = block_of(src_nodes, names(&[(0, b"air"), (1, b"m:x")]));
    src.node_data.get_mut().param1[index(15, 15, 15)] = 7;
    src.node_data.get_mut().param2[index(15, 15, 15)] = 9;
    let mut meta = NodeMetadataList::new();
    meta.insert(0xFFF, NodeMetadata::new(b"List a 1\nEmpty\nEndInventoryList\nEndInventory\n".to_vec()));
    meta.insert(0x000, NodeMetadata::new(end_marker_bytes()));
    src.metadata = ZlibContainer::new(meta);
    let mut dst = block_of(vec![3u16; 4096], names(&[(3, b"air"), (4, b"unused")]));
    let mut dst_meta = NodeMetadataList::new();
    dst_meta.insert(0x000, NodeMetadata::new(b"old".to_vec()));
    dst_meta.insert(0x001, NodeMetadata::new(b"kept".to_vec()));

    let src_area = Area::new(Vec3::new(15, 15, 15), Vec3::new(15, 15, 15));
    let dst_area = Area::new(Vec3::new(0, 0, 0), Vec3::new(0, 0, 0));
    assert!(block_parts_valid(&src_area, &dst_area));
    assert!(!block_parts_valid(&src_area, &Area::new(Vec3::new(0, 0, 0), Vec3::new(1, 0, 0))));
    assert!(!block_parts_valid(&src_area, &Area::new(Vec3::new(16, 0, 0), Vec3::new(16, 0, 0))));
    assert!(can_merge(&src, &dst));
    merge_blocks(&src, &mut dst, src_area, dst_area);
    merge_metadata(src.metadata.get_ref(), &mut dst_meta, src_area, dst_area);

    // The names of the source stand behind those of the destination.
    assert_eq!(dst.nimap.len(), 4);
    assert_eq!(dst.nimap.get_name(5).unwrap(), b"air");
    assert_eq!(dst.nimap.get_name(6).unwrap(), b"m:x");
    let nd = dst.node_data.get_ref();
    assert_eq!((nd.nodes[0], nd.param1[0], nd.param2[0]), (6, 7, 9));
    assert_eq!((nd.nodes[1], nd.param1[1], nd.param2[1]), (3, 0, 0));
    assert_eq!(dst_meta.len(), 2);
    assert_eq!(
        dst_meta.get(0).unwrap().inv(),
        b"List a 1\nEmpty\nEndInventoryList\nEndInventory\n"
    );
    assert_eq!(dst_meta.get(1).unwrap().inv(), b"kept");

    clean_name_id_map(&mut dst);
    assert!(is_clean(&dst));
    assert_eq!(dst.nimap.len(), 2);
    assert_eq!(dst.nimap.get_name(0).unwrap(), b"air");
    assert_eq!(dst.nimap.get_name(1).unwrap(), b"m:x");
    assert_eq!(name_at(&dst, 0), b"m:x");
    assert_eq!(name_at(&dst, 1), b"air");
    // Cleaning a second time changes nothing.
    let once = stored(&dst);
    clean_name_id_map(&mut dst);
    assert_eq!(stored(&dst), once);

    // IDs that would not fit stop a merge.
    let full = block_of(vec![65535u16; 4096], names(&[(65535, b"air")]));
    assert!(!can_merge(&src, &full));
}

#[test]
fn cleaning_names_drops_doubles_and_unused_ones() {
    let mut nodes = vec![7u16; 4096];
    nodes[1] = 2;
    nodes[2] = 9;
    let mut block = block_of(
        nodes,
        names(&[(0, b"never"), (2, b"air"), (7, b"stone"), (9, b"air"), (12, b"never")]),
    );
    clean_name_id_map(&mut block);
    assert_eq!(block.nimap.len(), 2);
    assert_eq!(block.nimap.get_name(0).unwrap(), b"air");
    assert_eq!(block.nimap.get_name(1).unwrap(), b"stone");
    let nodes = &block.node_data.get_ref().nodes;
    assert_eq!((nodes[0], nodes[1], nodes[2]), (1, 0, 0));
}

#[test]
fn param2_timers_and_metadata_by_node_and_area() {
    let mut nodes = vec![0u16; 4096];
    nodes[5] = 1;
    nodes[index(0, 1, 0)] = 1;
    let mut block = block_of(nodes, names(&[(0, b"air"), (1, b"m:chest")]));
    block.node_timers = vec![
        NodeTimer { pos: 5, timeout: 1, elapsed: 0 },
        NodeTimer { pos: 6, timeout: 2, elapsed: 0 },
        NodeTimer { pos: 16, timeout: 3, elapsed: 0 },
    ];
    let mut meta = NodeMetadataList::new();
    let mut chest = NodeMetadata::new(b"List main 1\nItem m:coin 5\nEndInventoryList\nEndInventory\n".to_vec());
    chest.set_var(b"owner".to_vec(), b"ann".to_vec(), true);
    meta.insert(5, chest);
    let mut sign = NodeMetadata::new(end_marker_bytes());
    sign.set_var(b"text".to_vec(), b"hello".to_vec(), false);
    meta.insert(6, sign);
    block.metadata = ZlibContainer::new(meta);
    let data = stored(&block);
    let row = Some(Area::new(Vec3::new(16, 0, 0), Vec3::new(31, 0, 0)));
    let key = Vec3::new(1, 0, 0).to_block_key();

    // The second parameter.
    let (after, count) = changed(set_param2_block(&data, key, Some(b"m:chest"), None, false, 4));
    assert_eq!(count, 2);
    assert_eq!(after.node_data.get_ref().param2[5], 4);
    assert_eq!(after.node_data.get_ref().param2[16], 4);
    assert_eq!(after.node_data.get_ref().param2[6], 0);
    let (after, count) = changed(set_param2_block(&data, key, None, row, false, 4));
    assert_eq!(count, 16);
    assert_eq!(after.node_data.get_ref().param2[15], 4);
    assert_eq!(after.node_data.get_ref().param2[16], 0);
    let (_, count) = changed(set_param2_block(&data, key, Some(b"m:chest"), row, true, 4));
    assert_eq!(count, 1);
    assert!(matches!(set_param2_block(&data, key, Some(b"m:none"), None, false, 4), BlockEdit::Skipped));

    // Timers.
    let (after, count) = changed(delete_timers_block(&data, key, Some(b"m:chest"), None, false));
    assert_eq!(count, 2);
    assert_eq!(after.node_timers, vec![NodeTimer { pos: 6, timeout: 2, elapsed: 0 }]);
    let (after, count) = changed(delete_timers_block(&data, key, None, row, true));
    assert_eq!(count, 1);
    assert_eq!(after.node_timers.len(), 2);
    assert!(matches!(delete_timers_block(&data, 0, None, row, false), BlockEdit::Skipped));

    // Metadata.
    let (after, count) = changed(delete_meta_block(&data, key, Some(b"m:chest"), None, false));
    assert_eq!(count, 1);
    assert!(after.metadata.get_ref().get(5).is_none());
    assert!(after.metadata.get_ref().get(6).is_some());
    let (after, count) = changed(delete_meta_block(&data, key, None, None, false));
    assert_eq!(count, 2);
    assert!(after.metadata.get_ref().is_empty());
    assert!(matches!(delete_meta_block(&data, 0, None, row, false), BlockEdit::Skipped));

    // A variable.
    let none: Vec<Vec<u8>> = Vec::new();
    let (after, count) =
        changed(set_meta_var_block(&data, key, &none, None, false, b"owner", b"bob", false));
    assert_eq!(count, 1);
    let var = after.metadata.get_ref().get(5).unwrap().get_var(b"owner").unwrap().clone();
    assert_eq!((var.value, var.private), (b"bob".to_vec(), true));
    let (after, count) =
        changed(set_meta_var_block(&data, key, &none, None, false, b"text", b"", true));
    assert_eq!(count, 1);
    // The metadata of the sign is empty now, and is left out when written.
    assert!(after.metadata.get_ref().get(6).is_none());
    assert!(matches!(
        set_meta_var_block(&data, key, &vec![b"m:none".to_vec()], None, false, b"owner", b"x", false),
        BlockEdit::Skipped
    ));
    assert!(matches!(
        set_meta_var_block(&data, key, &vec![b"air".to_vec()], None, false, b"owner", b"x", false),
        BlockEdit::Skipped
    ));

    // Items in inventories.
    let r = replace_in_inv_block(&data, key, &none, None, false, b"m:coin", b"m:gem", false);
    assert_eq!(r.nodes, 1);
    let (after, count) = changed(r.edit);
    assert_eq!(count, 1);
    assert_eq!(
        after.metadata.get_ref().get(5).unwrap().inv(),
        b"List main 1\nItem m:gem 5\nEndInventoryList\nEndInventory\n"
    );
    let r = replace_in_inv_block(&data, key, &none, row, true, b"m:coin", b"m:gem", false);
    assert!(matches!(r.edit, BlockEdit::Skipped));
    assert_eq!(r.nodes, 0);
}

fn plain_args() -> InstArgs {
    InstArgs {
        do_confirmation: false,
        command: String::new(),
        map_path: String::new(),
        input_map_path: None,
        area: None,
        invert: false,
        offset: None,
        node: None,
        nodes: Vec::new(),
        new_node: None,
        object: None,
        item: None,
        items: None,
        new_item: None,
        delete: false,
        delete_meta: false,
        key: None,
        value: None,
        param2: None,
    }
}

fn error_of(r: ArgResult) -> String {
    match r {
        ArgResult::Error(text) => text,
        _ => panic!("no error"),
    }
}

#[test]
fn arguments_of_the_commands() {
    // replace_nodes(node, node) is rejected.
    let mut args = plain_args();
    args.node = Some("m:a".to_string());
    args.new_node = Some("m:a".to_string());
    assert_eq!(
        error_of(commands::replace_nodes::verify_args(&args)),
        "node and new_node must be different."
    );
    args.new_node = Some("m:b".to_string());
    assert!(matches!(commands::replace_nodes::verify_args(&args), ArgResult::Okay));

    let mut args = plain_args();
    args.area = Some(Area::new(Vec3::new(0, 0, 0), Vec3::new(5, 5, 5)));
    args.offset = Some(Vec3::new(31001, 0, 0));
    assert_eq!(
        error_of(commands::clone::verify_args(&args)),
        "Destination area is outside map bounds."
    );
    args.offset = Some(Vec3::new(31000, 0, 0));
    assert!(matches!(commands::clone::verify_args(&args), ArgResult::Okay));
    args.invert = true;
    assert_eq!(
        error_of(commands::overlay::verify_args(&args)),
        "Inverted selections cannot be offset."
    );
    args.offset = None;
    assert!(matches!(commands::overlay::verify_args(&args), ArgResult::Okay));

    assert_eq!(
        error_of(commands::set_param2::verify_args(&plain_args())),
        "An area and/or node is required."
    );
    assert!(matches!(
        commands::delete_meta::verify_args(&plain_args()),
        ArgResult::Warning(text) if text == "No area or node specified. ALL metadata will be deleted!"
    ));
    let mut args = plain_args();
    args.object = Some("m:a".to_string());
    args.items = Some(Vec::new());
    assert_eq!(
        error_of(commands::delete_objects::verify_args(&args)),
        "Cannot use both --obj and --items."
    );
    assert_eq!(
        error_of(commands::replace_in_inv::verify_args(&plain_args())),
        "new_item is required unless --delete or --deletemeta is used."
    );
    let mut args = plain_args();
    args.new_item = Some("m:a".to_string());
    args.delete = true;
    assert_eq!(
        error_of(commands::replace_in_inv::verify_args(&args)),
        "Cannot delete items if new_item is specified."
    );
    assert_eq!(
        error_of(commands::set_meta_var::verify_args(&plain_args())),
        "value is required unless deleting the variable."
    );
    let mut args = plain_args();
    args.value = Some(String::new());
    assert_eq!(
        error_of(commands::set_meta_var::verify_args(&args)),
        "Metadata value cannot be empty."
    );
    args.delete = true;
    assert_eq!(
        error_of(commands::set_meta_var::verify_args(&args)),
        "value cannot be used when deleting the variable."
    );
    assert!(matches!(ArgResult::warning("w"), ArgResult::Warning(text) if text == "w"));
    assert!(matches!(ArgResult::error("e"), ArgResult::Error(text) if text == "e"));
}

#[test]
fn copying_pieces_into_a_block() {
    let mut nodes = vec![0u16; 4096];
    nodes[0] = 1;
    let src = block_of(nodes, names(&[(0, b"air"), (1, b"mod:a")]));
    let dst = block_of(vec![0u16; 4096], names(&[(0, b"stone")]));
    let dst_area = Area::new(Vec3::new(16, 0, 0), Vec3::new(17, 0, 0));
    let parts = clone_parts(dst_area, Vec3::new(16, 0, 0), 1);
    assert_eq!(parts.len(), 1);
    // A block that could not be read is passed over.
    let (after, _) = changed(copy_parts(dst.clone(), &parts, &vec![None]));
    assert!((0..4096).all(|i| name_at(&after, i) == b"stone"));
    let (after, _) = changed(copy_parts(dst.clone(), &parts, &vec![Some(src.clone())]));
    assert_eq!(name_at(&after, 0), b"mod:a");
    assert_eq!(name_at(&after, 1), b"air");
    assert_eq!(name_at(&after, 2), b"stone");
    assert!(is_clean(&after));
    // A block with a node without a name cannot be copied from.
    let mut broken = src.clone();
    broken.node_data.get_mut().nodes[9] = 77;
    assert!(matches!(copy_parts(dst, &parts, &vec![Some(broken)]), BlockEdit::Failed));
}

#[test]
fn blocks_are_read_for_an_edit_only_if_generated() {
    let block = block_of(vec![0u16; 4096], names(&[(0, b"air")]));
    let data = stored(&block);
    assert!(matches!(decode_generated(&data), Some(Ok(_))));
    let mut not_generated = data.clone();
    not_generated[1] |= 0x08;
    assert!(decode_generated(&not_generated).is_none());
    assert!(decode_generated(b"\x18\x00").is_none());
    assert!(matches!(decode_generated(b"\x1c\x00"), Some(Err(_))));
}

#[test]
fn names_that_the_commands_settle() {
    assert_eq!(target_name(&None, &None), None);
    assert_eq!(target_name(&Some("m:a".to_string()), &None), Some(b"m:a".to_vec()));
    assert_eq!(
        target_name(&Some("m:a".to_string()), &Some(Vec::new())),
        Some(item_entity_name_bytes())
    );
    assert_eq!(item_entity_name_bytes(), b"__builtin:item");
    assert_eq!(replacement_item(b"m:a", Some(b"m:b"), false), b"m:b");
    assert_eq!(replacement_item(b"m:a", None, true), b"");
    assert_eq!(replacement_item(b"m:a", None, false), b"m:a");
}

#[test]
fn commands_by_name() {
    assert_eq!(CommandKind::ReplaceInInv.name(), "replaceininv");
    assert_eq!(CommandKind::Vacuum.name(), "vacuum");
    let args = plain_args();
    assert!(matches!(CommandKind::Fill.verify_args(&args), ArgResult::Okay));
    assert_eq!(
        error_of(CommandKind::Clone.verify_args(&args)),
        "An area and an offset are required."
    );
    assert_eq!(
        error_of(CommandKind::SetParam2.verify_args(&args)),
        "An area and/or node is required."
    );
    assert!(matches!(CommandKind::DeleteMeta.verify_args(&args), ArgResult::Warning(_)));
}

#[test]
fn param2_of_a_part_of_a_block() {
    let mut nodes = vec![0u16; 4096];
    nodes[1] = 1;
    let mut block = block_of(nodes, names(&[(0, b"air"), (1, b"m:x")]));
    let part = Area::new(Vec3::new(0, 0, 0), Vec3::new(1, 0, 0));
    assert_eq!(set_param2_partial(&mut block, part, false, None, 9), 2);
    assert_eq!(&block.node_data.get_ref().param2[0..3], &[9, 9, 0]);
    assert_eq!(set_param2_partial(&mut block, part, false, Some(1), 8), 1);
    assert_eq!(&block.node_data.get_ref().param2[0..3], &[9, 8, 0]);
    assert_eq!(set_param2_partial(&mut block, part, true, None, 7), 4094);
    assert_eq!(&block.node_data.get_ref().param2[0..3], &[9, 8, 7]);
}
