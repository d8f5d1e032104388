use mapeditr::map_block::is_valid_generated;
use mapeditr::map_block::metadata::end_marker_bytes;
use mapeditr::map_block::wire::read_string16;
use mapeditr::map_block::wire::read_string32;
use mapeditr::map_block::wire::try_read_n;
use mapeditr::map_block::wire::write_string16;
use mapeditr::map_block::wire::write_string32;
use mapeditr::map_block::wire::write_u16;
use mapeditr::map_block::wire::write_u32;
use mapeditr::map_block::wire::write_i32;
use mapeditr::map_block::deserialize_objects;
use mapeditr::map_block::deserialize_timers;
use mapeditr::map_block::serialize_objects;
use mapeditr::map_block::serialize_timers;
use mapeditr::map_block::ByteReader;
use mapeditr::map_block::IdMap;
use mapeditr::map_block::LuaEntityData;
use mapeditr::map_block::MapBlock;
use mapeditr::map_block::MapBlockError;
use mapeditr::map_block::NameIdMap;
use mapeditr::map_block::NodeData;
use mapeditr::map_block::NodeMetadata;
use mapeditr::map_block::NodeMetadataList;
use mapeditr::map_block::NodeTimer;
use mapeditr::map_block::StaticObject;
use mapeditr::map_block::ZlibContainer;
use mapeditr::spatial::Vec3;

#[test]
fn test_is_valid_generated() {
    let ivg = is_valid_generated;

    // Too short
    assert_eq!(ivg(b""), false);
    assert_eq!(ivg(b"\x18"), false); // v24
    assert_eq!(ivg(b"\x1D"), false); // v29
    // Invalid version
    assert_eq!(ivg(b"\x18\x00\x00\x00"), false); // v24
    assert_eq!(ivg(b"\x1E\x00\x00\x00"), false); // v30
    // v28, "not generated" flag set
    assert_eq!(ivg(b"\x1C\x08"), false);
    // v29, zstd compressed data is unreadable
    assert_eq!(ivg(b"\x1D\x00\xFF"), false);
    // v29, "not generated" flag set
    assert_eq!(ivg(b"\x1D\x28\xB5\x2F\xFD\x00\x58\x19\x00\x00\x08\xFF\xFF"), false);
    // v28, good
    assert_eq!(ivg(b"\x1C\x00"), true);
    // v29, good
    assert_eq!(ivg(b"\x1D\x28\xB5\x2F\xFD\x00\x58\x19\x00\x00\x00\xFF\xFF"), true);
}

#[test]
fn is_valid_generated_looks_at_bit_three_only() {
    assert_eq!(is_valid_generated(b"\x19\xF7"), true);
    assert_eq!(is_valid_generated(b"\x19\x0F"), false);
    assert_eq!(is_valid_generated(b"\x1B\x00"), true);
}

#[test]
fn test_string_serialization() {
    let mut buf = Vec::new();
    let long_string = b"lorem ipsum dolor sin amet ".repeat(10);
    let huge_string =
        b"There are only so many strings that have exactly 64 characters. ".repeat(1024);

    write_string16(&mut buf, b"");
    write_string16(&mut buf, &long_string);
    write_string32(&mut buf, b"");
    write_string32(&mut buf, &huge_string);

    let mut res = Vec::new();
    res.extend_from_slice(b"\x00\x00");
    res.extend_from_slice(b"\x01\x0E");
    res.extend_from_slice(&long_string);
    res.extend_from_slice(b"\x00\x00\x00\x00");
    res.extend_from_slice(b"\x00\x01\x00\x00");
    res.extend_from_slice(&huge_string);

    assert_eq!(buf, res);
}

fn holds<E>(res: Result<Vec<u8>, E>, val: &[u8]) -> bool {
    if let Ok(inner) = res {
        inner == val
    } else {
        false
    }
}

#[test]
fn test_string_deserialization() {
    let huge_string =
        b"Magic purple goats can eat up to 30 kg of purple hay every day. ".repeat(1024);

    let mut buf = Vec::new();
    buf.extend_from_slice(b"\x00\x00");
    buf.extend_from_slice(b"\x00\x0DHello, world!");
    buf.extend_from_slice(b"\x00\x01\x00\x00");
    buf.extend_from_slice(&huge_string);
    buf.extend_from_slice(b"\x00\x00\x00\x00");

    let mut cursor = ByteReader::new(&buf[..]);

    assert!(holds(read_string16(&mut cursor), b""));
    assert!(holds(read_string16(&mut cursor), b"Hello, world!"));
    assert!(holds(read_string32(&mut cursor), &huge_string));
    assert!(holds(read_string32(&mut cursor), b""));
    assert_eq!(cursor.pos(), buf.len());

    let bad_string16s: &[&[u8]] = &[
        b"",
        b"\xFF",
        b"\x00\x01",
        b"\x00\x2D actual data length < specified data length!",
    ];
    for &bad in bad_string16s {
        assert_eq!(read_string16(&mut ByteReader::new(bad)), Err(MapBlockError::BadData));
    }

    let bad_string32s: &[&[u8]] = &[
        b"",
        b"\x00\x00",
        b"\x00\x00\x00\x01",
        b"\xFF\xFF\xFF\xFF",
        b"\x00\x00\x00\x2D actual data length < specified data length!",
    ];
    for &bad in bad_string32s {
        assert_eq!(read_string32(&mut ByteReader::new(bad)), Err(MapBlockError::BadData));
    }
}

#[test]
fn numbers_are_big_endian() {
    let mut buf = Vec::new();
    write_u16(&mut buf, 0x1234);
    write_u32(&mut buf, 0xDEADBEEF);
    write_i32(&mut buf, -2);
    write_i32(&mut buf, i32::MIN);
    assert_eq!(buf, b"\x12\x34\xDE\xAD\xBE\xEF\xFF\xFF\xFF\xFE\x80\x00\x00\x00");
    let mut r = ByteReader::new(&buf);
    assert_eq!(r.read_u16(), Ok(0x1234));
    assert_eq!(r.read_u32(), Ok(0xDEADBEEF));
    assert_eq!(r.read_i32(), Ok(-2));
    assert_eq!(r.read_i32(), Ok(i32::MIN));
    assert_eq!(r.read_u8(), Err(MapBlockError::BadData));
    assert_eq!(r.pos(), 14);
    assert_eq!(try_read_n(&mut ByteReader::new(b"abc"), 4), Err(MapBlockError::BadData));
    assert_eq!(try_read_n(&mut ByteReader::new(b"abc"), 3), Ok(b"abc".to_vec()));
}

#[test]
fn test_lua_entity() {
    let test_obj = StaticObject {
        obj_type: 7,
        f_pos: Vec3::new(4380, 17279, 32630),
        data: b"\x01\x00\x0e__builtin:item\x00\x00\x00\x6e\
            return {[\"age\"] = 0.91899997927248478, \
            [\"itemstring\"] = \"basenodes:cobble 2\", \
            [\"dropped_by\"] = \"singleplayer\"}\
            \x00\x01\x00\x00\x00\x00\x00\x00\x00\x00\x00\x00\x00\x00\x00\
            \x00\x00\x00\x01\x00\x00\x00\x00\x00\x00\x00\x00"
            .to_vec(),
    };
    let entity = LuaEntityData::deserialize(&test_obj).unwrap();
    assert_eq!(entity.name, b"__builtin:item");
    assert_eq!(
        entity.data,
        b"return {[\"age\"] = 0.91899997927248478, \
        [\"itemstring\"] = \"basenodes:cobble 2\", \
        [\"dropped_by\"] = \"singleplayer\"}"
    );

    let mut wrong_version = test_obj.clone();
    wrong_version.data[0] = 0;
    assert_eq!(
        LuaEntityData::deserialize(&wrong_version).unwrap_err(),
        MapBlockError::InvalidSubVersion
    );

    let wrong_type = StaticObject { obj_type: 6, ..test_obj };
    assert_eq!(
        LuaEntityData::deserialize(&wrong_type).unwrap_err(),
        MapBlockError::InvalidFeature
    );

    let no_data = StaticObject { obj_type: 7, f_pos: Vec3::new(0, 0, 0), data: Vec::new() };
    assert_eq!(LuaEntityData::deserialize(&no_data).unwrap_err(), MapBlockError::BadData);
}

fn meta_deserialize_slice(src: &[u8]) -> Result<NodeMetadataList, MapBlockError> {
    NodeMetadataList::deserialize(&mut ByteReader::new(src))
}

fn meta_serialize_slice(meta: NodeMetadataList, version: u8) -> Vec<u8> {
    let mut out = Vec::new();
    assert!(meta.writable());
    meta.serialize(&mut out, version);
    out
}

#[test]
fn test_meta_serialize() {
    // Test empty metadata lists
    assert!(meta_deserialize_slice(b"\x00").unwrap().is_empty());
    for &ver in &[25, 29] {
        assert_eq!(meta_serialize_slice(NodeMetadataList::new(), ver), b"\x00");
    }

    // Test serialization/deserialization and filtering of empty metadata.
    let meta_in = b"\x02\x00\x04\
        \x00\x10\x00\x00\x00\x01\x00\x08formspec\x00\x00\x00\x24size[4,1]\
            list[context;main;0,0;4,1;]\x00List main 4\nWidth 0\nEmpty\n\
            Empty\nItem basenodes:cobble 1 0 \"\\u0001check\\u0002\
            EndInventory\\n\\u0003\"\nEmpty\nEndInventoryList\n\
            EndInventory\n\
        \x0e\x21\x00\x00\x00\x01\x00\x06secret\x00\x00\x00\x0a\x01pa55w0rd\
            \x02\x01EndInventory\n\
        \x03\x23\x00\x00\x00\x00EndInventory\n\
        \x0f\xff\x00\x00\x00\x00List main 1\nWidth 0\nItem basenodes:dirt_\
            with_grass 10\nEndInventoryList\nEndInventory\n";

    let meta_out = b"\x02\x00\x03\
        \x00\x10\x00\x00\x00\x01\x00\x08formspec\x00\x00\x00\x24size[4,1]\
            list[context;main;0,0;4,1;]\x00List main 4\nWidth 0\nEmpty\n\
            Empty\nItem basenodes:cobble 1 0 \"\\u0001check\\u0002\
            EndInventory\\n\\u0003\"\nEmpty\nEndInventoryList\n\
            EndInventory\n\
        \x0e\x21\x00\x00\x00\x01\x00\x06secret\x00\x00\x00\x0a\x01pa55w0rd\
            \x02\x01EndInventory\n\
        \x0f\xff\x00\x00\x00\x00List main 1\nWidth 0\nItem basenodes:dirt_\
            with_grass 10\nEndInventoryList\nEndInventory\n";

    let meta_list = meta_deserialize_slice(&meta_in[..]).unwrap();
    assert_eq!(meta_list.len(), 4);
    assert_eq!(meta_list.get(0x010).unwrap().get_var(b"formspec").unwrap().private, false);
    assert_eq!(meta_list.get(0xe21).unwrap().get_var(b"secret").unwrap().private, true);
    // There is one empty variable which should be deleted.
    assert_eq!(meta_serialize_slice(meta_list, 29), meta_out);

    // Test currently unsupported version
    let mut meta_future = meta_in.to_vec();
    meta_future[0] = b'\x03';
    assert_eq!(
        meta_deserialize_slice(&meta_future[..]).unwrap_err(),
        MapBlockError::InvalidSubVersion
    );

    // Test old version
    let meta_v1 = b"\x01\x00\x02\
        \x00\x10\x00\x00\x00\x01\x00\x08formspec\x00\x00\x00\x24size[4,1]\
            list[context;main;0,0;4,1;]List main 4\nWidth 0\nEmpty\n\
            Empty\nItem basenodes:cobble\nEmpty\nEndInventoryList\n\
            EndInventory\n\
        \x0d\xb7\x00\x00\x00\x00List main 1\nWidth 0\nItem basenodes:dirt_\
            with_grass 10\nEndInventoryList\nEndInventory\n";

    let meta_list_v1 = meta_deserialize_slice(&meta_v1[..]).unwrap();
    assert_eq!(meta_list_v1.len(), 2);
    assert_eq!(meta_list_v1.get(0x010).unwrap().get_var(b"formspec").unwrap().private, false);
    assert_eq!(meta_serialize_slice(meta_list_v1, 25), meta_v1);

    // Test missing inventory
    let missing_inv = b"\x02\x00\x02\
        \x01\x23\x00\x00\x00\x01\
            \x00\x03foo\x00\x00\x00\x03bar\x00\n\t\t\t\x0f\xed\x00\x00\x00\x01\
            \x00\x0dfake_inv_test\x00\x00\x00\x0cEndInventory\x00";
    assert_eq!(meta_deserialize_slice(missing_inv).unwrap_err(), MapBlockError::BadData);
}

#[test]
fn metadata_keeps_one_variable_of_each_name() {
    let mut meta = NodeMetadata::new(end_marker_bytes());
    assert!(meta.is_empty());
    meta.set_var(b"a".to_vec(), b"1".to_vec(), false);
    meta.set_var(b"b".to_vec(), b"2".to_vec(), true);
    meta.set_var(b"a".to_vec(), b"3".to_vec(), false);
    assert!(!meta.is_empty());
    assert_eq!(meta.var_count(), 2);
    assert_eq!(meta.var_at(0).value, b"3");
    assert_eq!(meta.get_var(b"b").unwrap().private, true);
    assert!(meta.get_var(b"c").is_none());
    assert!(meta.remove_var(b"a"));
    assert!(!meta.remove_var(b"a"));
    assert_eq!(meta.var_count(), 1);
    let copy = meta.clone();
    assert_eq!(copy.var_at(0).name, b"b");
    assert_eq!(copy.inv(), meta.inv());
    // An inventory that only starts like the end marker is not a list.
    let mut listed = NodeMetadata::new(b"List main 1\nEmpty\nEndInventoryList\nEndInventory\n".to_vec());
    assert!(!listed.is_empty());
    listed.set_inv(b"EndInventory\nrest".to_vec());
    assert!(listed.is_empty());
}

#[test]
fn a_later_variable_takes_the_place_of_an_earlier_one() {
    let src = b"\x02\x00\x01\x00\x05\x00\x00\x00\x02\
        \x00\x01k\x00\x00\x00\x01a\x00\
        \x00\x01k\x00\x00\x00\x01b\x01EndInventory\n";
    let list = meta_deserialize_slice(src).unwrap();
    let meta = list.get(5).unwrap();
    assert_eq!(meta.var_count(), 1);
    assert_eq!(meta.get_var(b"k").unwrap().value, b"b");
    assert_eq!(meta.get_var(b"k").unwrap().private, true);
}

#[test]
fn id_map_is_walked_in_the_order_of_its_keys() {
    let mut map: IdMap<Vec<u8>> = IdMap::new();
    assert!(map.is_empty());
    assert_eq!(map.max_key(), None);
    map.insert(7, b"seven".to_vec());
    map.insert(2, b"two".to_vec());
    map.insert(65535, b"last".to_vec());
    map.insert(2, b"zwei".to_vec());
    assert_eq!(map.len(), 3);
    assert_eq!((map.key_at(0), map.key_at(1), map.key_at(2)), (2, 7, 65535));
    assert_eq!(map.value_at(0), b"zwei");
    assert_eq!(map.get(7), Some(&b"seven".to_vec()));
    assert_eq!(map.get(8), None);
    assert!(map.contains_key(65535));
    assert_eq!(map.max_key(), Some(65535));
    assert_eq!(map.remove(7), Some(b"seven".to_vec()));
    assert_eq!(map.remove(7), None);
    assert_eq!(map.len(), 2);
    let copy = map.clone();
    assert_eq!(copy.key_at(1), 65535);
    map.clear();
    assert!(map.is_empty());
}

#[test]
fn name_id_map_reads_writes_and_shifts() {
    let src = b"\x00\x00\x03\x00\x02\x00\x03air\x00\x00\x00\x05stone\x00\x05\x00\x03air";
    let mut reader = ByteReader::new(src);
    let mut map = NameIdMap::deserialize(&mut reader).unwrap();
    assert_eq!(reader.pos(), src.len());
    assert_eq!(map.len(), 3);
    // The lowest of the IDs with a name.
    assert_eq!(map.get_id(b"air"), Some(2));
    assert_eq!(map.get_id(b"stone"), Some(0));
    assert_eq!(map.get_id(b"dirt"), None);
    assert_eq!(map.get_max_id(), Some(5));
    let mut out = Vec::new();
    map.serialize(&mut out);
    assert_eq!(out, b"\x00\x00\x03\x00\x00\x00\x05stone\x00\x02\x00\x03air\x00\x05\x00\x03air");

    map.remove_shift(2);
    assert_eq!(map.len(), 2);
    assert_eq!(map.get_name(0).unwrap(), b"stone");
    assert_eq!(map.get_name(4).unwrap(), b"air");
    assert_eq!(map.get_name(5), None);
    map.remove_shift(65535);
    assert_eq!(map.len(), 2);
    map.remove_shift(1);
    assert_eq!(map.get_name(3).unwrap(), b"air");

    assert_eq!(
        NameIdMap::deserialize(&mut ByteReader::new(b"\x01\x00\x00")).unwrap_err(),
        MapBlockError::InvalidSubVersion
    );
    assert_eq!(
        NameIdMap::deserialize(&mut ByteReader::new(b"\x00\x00\x01\x00\x00\x00\x09short")).unwrap_err(),
        MapBlockError::BadData
    );
    assert_eq!(NameIdMap::new().get_max_id(), None);
}

#[test]
fn timers_and_objects_read_and_write() {
    let timers = vec![
        NodeTimer { pos: 0xFFF, timeout: 1337, elapsed: 600 },
        NodeTimer { pos: 0, timeout: 1, elapsed: u32::MAX },
    ];
    let mut out = Vec::new();
    serialize_timers(&timers, &mut out);
    assert_eq!(
        out,
        b"\x0a\x00\x02\x0f\xff\x00\x00\x05\x39\x00\x00\x02\x58\x00\x00\x00\x00\x00\x01\xff\xff\xff\xff"
    );
    assert_eq!(deserialize_timers(&mut ByteReader::new(&out)), Ok(timers));
    assert_eq!(
        deserialize_timers(&mut ByteReader::new(b"\x0c\x00\x00")),
        Err(MapBlockError::InvalidFeature)
    );
    assert_eq!(
        deserialize_timers(&mut ByteReader::new(b"\x0a\x00\x01\x00\x00")),
        Err(MapBlockError::BadData)
    );

    let objects = vec![
        StaticObject { obj_type: 7, f_pos: Vec3::new(10000, -20000, 5), data: b"xyz".to_vec() },
        StaticObject { obj_type: 1, f_pos: Vec3::new(0, 0, 0), data: Vec::new() },
    ];
    let mut out = Vec::new();
    serialize_objects(&objects, &mut out);
    assert_eq!(
        out,
        b"\x00\x00\x02\x07\x00\x00\x27\x10\xff\xff\xb1\xe0\x00\x00\x00\x05\x00\x03xyz\
        \x01\x00\x00\x00\x00\x00\x00\x00\x00\x00\x00\x00\x00\x00\x00"
    );
    let back = deserialize_objects(&mut ByteReader::new(&out)).unwrap();
    assert_eq!(back.len(), 2);
    assert_eq!(back[0].f_pos, Vec3::new(10000, -20000, 5));
    assert_eq!(back[0].data, b"xyz");
    assert_eq!(back[1].obj_type, 1);
    assert_eq!(
        deserialize_objects(&mut ByteReader::new(b"\x01\x00\x00")).unwrap_err(),
        MapBlockError::InvalidSubVersion
    );
}

fn sample_block(version: u8) -> MapBlock {
    let mut nodes = vec![1u16; 4096];
    nodes[0] = 0;
    nodes[4095] = 2;
    let mut param1 = vec![0u8; 4096];
    param1[0x111] = 0x0F;
    let mut param2 = vec![0u8; 4096];
    param2[0] = 19;
    let mut nimap = NameIdMap::new();
    nimap.insert(0, b"test_mod:timer".to_vec());
    nimap.insert(1, b"air".to_vec());
    nimap.insert(2, b"test_mod:metadata".to_vec());
    let mut metadata = NodeMetadataList::new();
    let mut chest = NodeMetadata::new(
        b"List main 1\nWidth 0\nItem basenodes:cobble 3\nEndInventoryList\nEndInventory\n".to_vec(),
    );
    chest.set_var(b"infotext".to_vec(), b"Test Chest".to_vec(), false);
    chest.set_var(b"owner".to_vec(), b"me".to_vec(), true);
    metadata.insert(4095, chest);
    metadata.insert(7, NodeMetadata::new(end_marker_bytes()));
    MapBlock {
        version,
        flags: 0x03,
        lighting_complete: 0xF1C4,
        content_width: 2,
        params_width: 2,
        node_data: ZlibContainer::new(NodeData { nodes, param1, param2 }),
        metadata: ZlibContainer::new(metadata),
        static_objects: vec![StaticObject {
            obj_type: 7,
            f_pos: Vec3::new(8, 9, 12) * 10_000,
            data: b"\x01\x00\x01e\x00\x00\x00\x00".to_vec(),
        }],
        timestamp: 542,
        nimap,
        node_timers: vec![NodeTimer { pos: 0, timeout: 1337, elapsed: 399 }],
    }
}

fn check_sample(block: &MapBlock, version: u8) {
    assert_eq!(block.version, version);
    assert_eq!(block.flags, 0x03);
    // Before version 27 the lighting is not stored and counts as complete.
    assert_eq!(block.lighting_complete, if version >= 27 { 0xF1C4 } else { 0xFFFF });
    assert_eq!(block.content_width, 2);
    assert_eq!(block.params_width, 2);
    let nd = block.node_data.get_ref();
    assert_eq!(nd.nodes.len(), 4096);
    assert_eq!(nd.param1.len(), 4096);
    assert_eq!(nd.param2.len(), 4096);
    assert_eq!(nd.nodes[0], block.nimap.get_id(b"test_mod:timer").unwrap());
    assert!(nd.nodes[1..=0xFFE].iter().all(|&n| n == block.nimap.get_id(b"air").unwrap()));
    assert_eq!(nd.nodes[0xFFF], block.nimap.get_id(b"test_mod:metadata").unwrap());
    assert_eq!(nd.param1[0x111], 0x0F);
    assert_eq!(nd.param2[0], 19);
    assert!(block.has_valid_ids());
    // Empty metadata is left out when the block is written.
    let meta_list = block.metadata.get_ref();
    assert_eq!(meta_list.len(), 1);
    let meta = meta_list.get(4095).unwrap();
    assert_eq!(meta.var_count(), 2);
    assert_eq!(meta.get_var(b"infotext").unwrap().value, b"Test Chest");
    // Before version 28 the list of metadata has no private flags.
    assert_eq!(meta.get_var(b"owner").unwrap().private, version >= 28);
    assert_eq!(meta.inv().len(), 74);
    assert_eq!(block.static_objects.len(), 1);
    assert_eq!(block.static_objects[0].f_pos, Vec3::new(80000, 90000, 120000));
    assert_eq!(block.timestamp, 542);
    assert_eq!(block.nimap.get_name(1).unwrap(), b"air");
    assert_eq!(block.node_timers, vec![NodeTimer { pos: 0, timeout: 1337, elapsed: 399 }]);
}

#[test]
fn blocks_of_each_version_come_back_as_they_were_written() {
    for &version in &[25u8, 27, 28, 29] {
        let block = sample_block(version);
        assert!(block.encodable());
        let data1 = block.serialize().unwrap();
        assert_eq!(data1[0], version);
        assert!(is_valid_generated(&data1));
        let block1 = MapBlock::deserialize(&data1).unwrap();
        check_sample(&block1, version);
        // Decoding, encoding and decoding again gives the same block.
        let data2 = block1.serialize().unwrap();
        let block2 = MapBlock::deserialize(&data2).unwrap();
        check_sample(&block2, version);
        if version < 29 {
            // What was not changed is written as it was read.
            assert_eq!(data1, data2);
            assert!(block1.node_data.cached().is_some());
            assert!(block1.metadata.cached().is_some());
        } else {
            assert!(block1.node_data.cached().is_none());
        }
    }
}

#[test]
fn changing_a_value_forgets_its_stream() {
    let data = sample_block(28).serialize().unwrap();
    let mut block = MapBlock::deserialize(&data).unwrap();
    assert!(block.node_data.cached().is_some());
    block.node_data.get_mut().param2[5] = 77;
    assert!(block.node_data.cached().is_none());
    assert!(block.metadata.cached().is_some());
    let again = MapBlock::deserialize(&block.serialize().unwrap()).unwrap();
    assert_eq!(again.node_data.get_ref().param2[5], 77);
    assert_eq!(again.node_data.get_ref().param2[0], 19);
}

fn offset_of(data: &[u8], needle: &[u8]) -> usize {
    data.windows(needle.len()).position(|w| w == needle).unwrap()
}

fn check_error(data: &[u8], at: usize, byte: u8, expected_error: MapBlockError) {
    let mut copy = data.to_vec();
    copy[at] = byte;
    assert_eq!(MapBlock::deserialize(&copy).unwrap_err(), expected_error);
}

#[test]
fn test_failures() {
    let data = sample_block(28).serialize().unwrap();
    // The block starts with the version, the flags, the lighting and the
    // two widths; behind the two zlib streams stand the objects, the
    // timestamp, the names and the timers.
    let objects_at = offset_of(&data, b"\x00\x00\x01\x07\x00\x01\x38\x80");
    let names_at = offset_of(&data, b"\x00\x00\x03\x00\x00\x00\x0etest_mod:timer");
    let timers_at = offset_of(&data, b"\x0a\x00\x01\x00\x00\x00\x00\x05\x39");

    // Invalid versions
    check_error(&data, 0x0, 24, MapBlockError::InvalidBlockVersion);
    check_error(&data, 0x0, 30, MapBlockError::InvalidBlockVersion);
    // Invalid content width
    check_error(&data, 0x4, 1, MapBlockError::InvalidFeature);
    // Invalid parameter width
    check_error(&data, 0x5, 3, MapBlockError::InvalidFeature);
    // Invalid static object version
    check_error(&data, objects_at, 1, MapBlockError::InvalidSubVersion);
    // Invalid name-ID map version
    check_error(&data, names_at, 1, MapBlockError::InvalidSubVersion);
    // Invalid node timer data length
    check_error(&data, timers_at, 12, MapBlockError::InvalidFeature);

    {
        // Invalid node data size
        let mut block = MapBlock::deserialize(&data).unwrap();
        block.node_data.get_mut().param1.push(0);
        let new_data = block.serialize().unwrap();
        assert_eq!(MapBlock::deserialize(&new_data).unwrap_err(), MapBlockError::BadData);

        block.node_data.get_mut().param1.truncate(4095);
        let new_data = block.serialize().unwrap();
        assert_eq!(MapBlock::deserialize(&new_data).unwrap_err(), MapBlockError::BadData);
    }
}

#[test]
fn broken_blocks_are_bad_data() {
    assert_eq!(MapBlock::deserialize(b"").unwrap_err(), MapBlockError::BadData);
    assert_eq!(MapBlock::deserialize(b"\x1c").unwrap_err(), MapBlockError::BadData);
    // A block of version 29 whose frame does not unpack.
    assert_eq!(MapBlock::deserialize(b"\x1d\x00\xff").unwrap_err(), MapBlockError::BadData);
    let data = sample_block(29).serialize().unwrap();
    assert_eq!(
        MapBlock::deserialize(&data[..data.len() - 4]).unwrap_err(),
        MapBlockError::BadData
    );
    let data = sample_block(25).serialize().unwrap();
    assert_eq!(MapBlock::deserialize(&data[..20]).unwrap_err(), MapBlockError::BadData);
    assert_eq!(
        MapBlock::deserialize(&data[..data.len() - 1]).unwrap_err(),
        MapBlockError::BadData
    );
}

#[test]
fn a_node_without_a_name_is_told() {
    let mut block = sample_block(28);
    assert!(block.has_valid_ids());
    block.node_data.get_mut().nodes[9] = 3;
    assert!(!block.has_valid_ids());
    // The codec does not ask for names: such a block is read back as it is.
    let back = MapBlock::deserialize(&block.serialize().unwrap()).unwrap();
    assert_eq!(back.node_data.get_ref().nodes[9], 3);
    assert!(!back.has_valid_ids());
}

#[test]
fn what_cannot_be_written_is_told() {
    let mut block = sample_block(28);
    block.version = 30;
    assert!(!block.encodable());
    let mut block = sample_block(28);
    block.content_width = 1;
    assert!(!block.encodable());
    let mut block = sample_block(28);
    block.node_data.get_mut().nodes.pop();
    assert!(!block.encodable());
    let mut block = sample_block(28);
    block.nimap.insert(9, vec![b'x'; 65536]);
    assert!(!block.encodable());
    let mut block = sample_block(28);
    block.static_objects[0].data = vec![0; 65536];
    assert!(!block.encodable());
}
