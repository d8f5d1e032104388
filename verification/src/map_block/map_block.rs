use super::compression::ZlibContainer;
use super::compression::zlib_inflate;
use super::compression::zstd_compress;
use super::compression::zstd_decode;
use super::compression::zstd_decompress;
use super::compression::zstd_encode;
use super::compression::zstd_first_byte;
use super::compression::zstd_peek;
use super::id_map::sorted_keys;
use super::metadata::NodeMetadataList;
use super::metadata::NodeMetadataView;
use super::metadata::lemma_metadata_list_written_is_read;
use super::metadata::metadata_list_bytes;
use super::metadata::metadata_list_fits;
use super::metadata::metadata_list_plain;
use super::metadata::parse_metadata_list;
use super::metadata::parse_zlib_metadata_list;
use super::metadata::zlib_metadata_list_bytes;
use super::name_id_map::NameIdMap;
use super::name_id_map::lemma_names_written_are_read;
use super::name_id_map::name_id_map_bytes;
use super::name_id_map::names_fit;
use super::name_id_map::parse_name_id_map;
use super::node_data::NODE_COUNT;
use super::node_data::NodeData;
use super::node_data::NodeDataView;
use super::node_data::lemma_node_data_bytes_len;
use super::node_data::lemma_node_data_written_is_read;
use super::node_data::node_data_at;
use super::node_data::node_data_bytes;
use super::node_data::parse_node_data;
use super::node_data::parse_zlib_node_data;
use super::node_data::zlib_node_data_bytes;
use super::node_timer::NodeTimer;
use super::node_timer::NodeTimerList;
use super::node_timer::deserialize_timers;
use super::node_timer::lemma_timers_written_are_read;
use super::node_timer::parse_timers;
use super::node_timer::serialize_timers;
use super::node_timer::timers_bytes;
use super::static_object::StaticObjectList;
use super::static_object::StaticObjectView;
use super::static_object::deserialize_objects;
use super::static_object::lemma_objects_written_are_read;
use super::static_object::objects_bytes;
use super::static_object::objects_fit;
use super::static_object::parse_objects;
use super::static_object::serialize_objects;
use super::wire::ByteReader;
use super::wire::MapBlockError;
use super::wire::lemma_u16_written_is_read;
use super::wire::lemma_u32_written_is_read;
use super::wire::parse_u16;
use super::wire::parse_u32;
use super::wire::parse_u8;
use super::wire::u16_bytes;
use super::wire::u32_bytes;
use super::wire::write_u16;
use super::wire::write_u32;
use super::wire::write_u8;
use vstd::prelude::*;
use vstd::slice::slice_subrange;

verus! {

/// The oldest block version that is read. Version 26 was only ever sent
/// over the network.
pub const MIN_BLOCK_VER: u8 = 25;

/// The newest block version that is read. From this version on a block is
/// one zstd frame behind its version byte; before it, the nodes and the
/// metadata are zlib streams of their own.
pub const MAX_BLOCK_VER: u8 = 29;

/// The flag that is set in a block that has not been generated yet.
pub const NOT_GENERATED: u8 = 0x08;

/// One block of the map: 16 x 16 x 16 nodes and what belongs to them.
#[derive(Clone, Debug)]
pub struct MapBlock {
    pub version: u8,
    pub flags: u8,
    pub lighting_complete: u16,
    pub content_width: u8,
    pub params_width: u8,
    pub node_data: ZlibContainer<NodeData>,
    pub metadata: ZlibContainer<NodeMetadataList>,
    pub static_objects: StaticObjectList,
    pub timestamp: u32,
    pub nimap: NameIdMap,
    pub node_timers: NodeTimerList,
}

/// What a block holds.
pub struct MapBlockView {
    pub version: u8,
    pub flags: u8,
    pub lighting_complete: u16,
    pub content_width: u8,
    pub params_width: u8,
    pub node_data: NodeDataView,
    /// The zlib stream that the nodes were read from, while it is kept.
    pub node_frame: Option<Seq<u8>>,
    pub metadata: Map<u16, NodeMetadataView>,
    /// The zlib stream that the metadata was read from, while it is kept.
    pub metadata_frame: Option<Seq<u8>>,
    pub static_objects: Seq<StaticObjectView>,
    pub timestamp: u32,
    pub nimap: Map<u16, Seq<u8>>,
    pub node_timers: Seq<NodeTimer>,
}

impl View for MapBlock {
    type V = MapBlockView;

    open spec fn view(&self) -> MapBlockView {
        MapBlockView {
            version: self.version,
            flags: self.flags,
            lighting_complete: self.lighting_complete,
            content_width: self.content_width,
            params_width: self.params_width,
            node_data: self.node_data.value()@,
            node_frame: self.node_data.frame(),
            metadata: self.metadata.value()@,
            metadata_frame: self.metadata.frame(),
            static_objects: self.static_objects.deep_view(),
            timestamp: self.timestamp,
            nimap: self.nimap@,
            node_timers: self.node_timers@,
        }
    }
}

impl MapBlockView {
    /// Whether the ID of every node has a name.
    pub open spec fn ids_valid(&self) -> bool {
        forall|i: int|
            0 <= i < self.node_data.nodes.len() ==> self.nimap.contains_key(
                #[trigger] self.node_data.nodes[i],
            )
    }

    /// Whether the block can be written: its version is one of those that
    /// are read, both widths are 2, there is one ID for each node, and
    /// every name, object and variable fits the length that is written
    /// before it.
    pub open spec fn encodable(&self) -> bool {
        &&& MIN_BLOCK_VER <= self.version <= MAX_BLOCK_VER
        &&& self.content_width == 2
        &&& self.params_width == 2
        &&& self.node_data.nodes.len() == NODE_COUNT
        &&& names_fit(self.nimap)
        &&& objects_fit(self.static_objects)
        &&& metadata_list_fits(self.metadata)
    }
}

/// What reading the two widths at `pos` gives. Both must be 2.
pub open spec fn parse_widths(s: Seq<u8>, pos: int) -> Result<((u8, u8), int), MapBlockError> {
    match parse_u8(s, pos) {
        Ok((content_width, p)) => match parse_u8(s, p) {
            Ok((params_width, p1)) => if content_width != 2 || params_width != 2 {
                Err(MapBlockError::InvalidFeature)
            } else {
                Ok(((content_width, params_width), p1))
            },
            Err(e) => Err(e),
        },
        Err(e) => Err(e),
    }
}

/// What reading the part of a block of version 29 gives that stands behind
/// the version byte, unpacked: flags, lighting, timestamp, names, widths,
/// nodes, metadata, objects, timers.
#[verifier::opaque]
pub open spec fn parse_block_v29(t: Seq<u8>, version: u8) -> Result<MapBlockView, MapBlockError> {
    match parse_u8(t, 0) {
        Ok((flags, p1)) => match parse_u16(t, p1) {
            Ok((lighting_complete, p2)) => match parse_u32(t, p2) {
                Ok((timestamp, p3)) => match parse_name_id_map(t, p3) {
                    Ok((nimap, p4)) => match parse_widths(t, p4) {
                        Ok((widths, p5)) => match parse_node_data(t, p5) {
                            Ok((node_data, p6)) => match parse_metadata_list(t, p6) {
                                Ok((metadata, p7)) => match parse_objects(t, p7) {
                                    Ok((static_objects, p8)) => match parse_timers(t, p8) {
                                        Ok((node_timers, p9)) => Ok(
                                            MapBlockView {
                                                version,
                                                flags,
                                                lighting_complete,
                                                content_width: widths.0,
                                                params_width: widths.1,
                                                node_data,
                                                node_frame: None,
                                                metadata,
                                                metadata_frame: None,
                                                static_objects,
                                                timestamp,
                                                nimap,
                                                node_timers,
                                            },
                                        ),
                                        Err(e) => Err(e),
                                    },
                                    Err(e) => Err(e),
                                },
                                Err(e) => Err(e),
                            },
                            Err(e) => Err(e),
                        },
                        Err(e) => Err(e),
                    },
                    Err(e) => Err(e),
                },
                Err(e) => Err(e),
            },
            Err(e) => Err(e),
        },
        Err(e) => Err(e),
    }
}

/// What reading the lighting of a block of the version `version` at `pos`
/// gives. Before version 27 it is not stored and counts as complete.
pub open spec fn parse_lighting(s: Seq<u8>, pos: int, version: u8) -> Result<
    (u16, int),
    MapBlockError,
> {
    if version >= 27 {
        parse_u16(s, pos)
    } else {
        Ok((0xFFFFu16, pos))
    }
}

/// What reading a block of a version before 29 gives, from behind the
/// version byte: flags, lighting, widths, nodes, metadata, objects,
/// timestamp, names, timers.
#[verifier::opaque]
pub open spec fn parse_block_legacy(s: Seq<u8>, pos: int, version: u8) -> Result<
    MapBlockView,
    MapBlockError,
> {
    match parse_u8(s, pos) {
        Ok((flags, p1)) => match parse_lighting(s, p1, version) {
            Ok((lighting_complete, p2)) => match parse_widths(s, p2) {
                Ok((widths, p3)) => match parse_zlib_node_data(s, p3) {
                    Ok((nodes, p4)) => match parse_zlib_metadata_list(s, p4) {
                        Ok((meta, p5)) => match parse_objects(s, p5) {
                            Ok((static_objects, p6)) => match parse_u32(s, p6) {
                                Ok((timestamp, p7)) => match parse_name_id_map(s, p7) {
                                    Ok((nimap, p8)) => match parse_timers(s, p8) {
                                        Ok((node_timers, p9)) => Ok(
                                            MapBlockView {
                                                version,
                                                flags,
                                                lighting_complete,
                                                content_width: widths.0,
                                                params_width: widths.1,
                                                node_data: nodes.0,
                                                node_frame: Some(nodes.1),
                                                metadata: meta.0,
                                                metadata_frame: Some(meta.1),
                                                static_objects,
                                                timestamp,
                                                nimap,
                                                node_timers,
                                            },
                                        ),
                                        Err(e) => Err(e),
                                    },
                                    Err(e) => Err(e),
                                },
                                Err(e) => Err(e),
                            },
                            Err(e) => Err(e),
                        },
                        Err(e) => Err(e),
                    },
                    Err(e) => Err(e),
                },
                Err(e) => Err(e),
            },
            Err(e) => Err(e),
        },
        Err(e) => Err(e),
    }
}

/// What reading a block gives.
pub open spec fn parse_block(s: Seq<u8>) -> Result<MapBlockView, MapBlockError> {
    match parse_u8(s, 0) {
        Ok((version, p)) => if version < MIN_BLOCK_VER || version > MAX_BLOCK_VER {
            Err(MapBlockError::InvalidBlockVersion)
        } else if version >= 29 {
            match zstd_decode(s.subrange(1, s.len() as int)) {
                Some(plain) => parse_block_v29(plain, version),
                None => Err(MapBlockError::BadData),
            }
        } else {
            parse_block_legacy(s, p, version)
        },
        Err(e) => Err(e),
    }
}

/// The front of a block of version 29 behind its version byte: flags,
/// lighting, timestamp, names and widths.
#[verifier::opaque]
pub open spec fn payload_head(b: MapBlockView) -> Seq<u8> {
    seq![b.flags] + u16_bytes(b.lighting_complete) + u32_bytes(b.timestamp) + name_id_map_bytes(
        b.nimap,
    ) + seq![b.content_width, b.params_width]
}

/// The rest of a block of version 29: nodes, metadata, objects and timers.
#[verifier::opaque]
pub open spec fn payload_body(b: MapBlockView) -> Seq<u8> {
    node_data_bytes(b.node_data) + metadata_list_bytes(b.metadata, b.version) + objects_bytes(
        b.static_objects,
    ) + timers_bytes(b.node_timers)
}

/// The bytes of a block of version 29 behind its version byte, before they
/// are packed.
#[verifier::opaque]
pub open spec fn block_payload(b: MapBlockView) -> Seq<u8> {
    payload_head(b) + payload_body(b)
}

/// The front of a block of a version before 29: version, flags, lighting
/// from version 27 on, and widths.
#[verifier::opaque]
pub open spec fn legacy_head(b: MapBlockView) -> Seq<u8> {
    seq![b.version, b.flags] + (if b.version >= 27 {
        u16_bytes(b.lighting_complete)
    } else {
        Seq::<u8>::empty()
    }) + seq![b.content_width, b.params_width]
}

/// The end of a block of a version before 29: objects, timestamp, names
/// and timers.
#[verifier::opaque]
pub open spec fn legacy_tail(b: MapBlockView) -> Seq<u8> {
    objects_bytes(b.static_objects) + u32_bytes(b.timestamp) + name_id_map_bytes(b.nimap)
        + timers_bytes(b.node_timers)
}

/// The bytes of a block of a version before 29 around its two zlib
/// streams.
#[verifier::opaque]
pub open spec fn legacy_block_bytes(b: MapBlockView, nodes: Seq<u8>, metadata: Seq<u8>) -> Seq<u8> {
    legacy_head(b) + nodes + metadata + legacy_tail(b)
}

/// The bytes that a block is written as; `None` where an encoder fails.
pub open spec fn encode_block(b: MapBlockView) -> Option<Seq<u8>> {
    if b.version >= 29 {
        match zstd_encode(block_payload(b)) {
            Some(packed) => Some(seq![b.version] + packed),
            None => None,
        }
    } else {
        match zlib_node_data_bytes(b.node_data, b.node_frame) {
            Some(nodes) => match zlib_metadata_list_bytes(b.metadata, b.metadata_frame, b.version) {
                Some(metadata) => Some(legacy_block_bytes(b, nodes, metadata)),
                None => None,
            },
            None => None,
        }
    }
}

/// Whether a stored block is of a version that is read and has been
/// generated. Of a block of version 29 the first packed byte must unpack.
pub open spec fn valid_generated(s: Seq<u8>) -> bool {
    &&& s.len() >= 2
    &&& MIN_BLOCK_VER <= s[0] <= MAX_BLOCK_VER
    &&& match if s[0] >= 29 {
        zstd_first_byte(s.subrange(1, s.len() as int))
    } else {
        Some(s[1])
    } {
        Some(flags) => flags & NOT_GENERATED == 0,
        None => false,
    }
}

/// Tells cheaply whether a stored block can be edited.
pub fn is_valid_generated(src: &[u8]) -> (b: bool)
    ensures
        b == valid_generated(src@),
{
    if src.len() < 2 {
        return false;
    }
    let version: u8 = src[0];
    if version < MIN_BLOCK_VER || version > MAX_BLOCK_VER {
        return false;
    }
    let flags: u8 = if version >= 29 {
        match zstd_peek(slice_subrange(src, 1, src.len())) {
            Some(f) => f,
            None => {
                return false;
            },
        }
    } else {
        src[1]
    };
    flags & NOT_GENERATED == 0
}

fn read_widths(src: &mut ByteReader) -> (r: Result<(u8, u8), MapBlockError>)
    ensures
        final(src).bytes() == old(src).bytes(),
        match parse_widths(old(src).bytes(), old(src).position()) {
            Ok((m, p)) => r matches Ok(got) && got == m && final(src).position() == p,
            Err(e) => r matches Err(got) && got == e,
        },
{
    let content_width = src.read_u8()?;
    let params_width = src.read_u8()?;
    if content_width != 2 || params_width != 2 {
        return Err(MapBlockError::InvalidFeature);
    }
    Ok((content_width, params_width))
}

fn deserialize_v29(plain: &[u8], version: u8) -> (r: Result<MapBlock, MapBlockError>)
    ensures
        match parse_block_v29(plain@, version) {
            Ok(m) => r matches Ok(got) && got@ == m,
            Err(e) => r matches Err(got) && got == e,
        },
{
    reveal(parse_block_v29);
    let mut crs = ByteReader::new(plain);
    let flags = crs.read_u8()?;
    let lighting_complete = crs.read_u16()?;
    let timestamp = crs.read_u32()?;
    let nimap = NameIdMap::deserialize(&mut crs)?;
    let (content_width, params_width) = read_widths(&mut crs)?;
    let node_data = NodeData::deserialize(&mut crs)?;
    let metadata = NodeMetadataList::deserialize(&mut crs)?;
    let static_objects = deserialize_objects(&mut crs)?;
    let node_timers = deserialize_timers(&mut crs)?;
    Ok(
        MapBlock {
            version,
            flags,
            lighting_complete,
            content_width,
            params_width,
            node_data: ZlibContainer::new(node_data),
            metadata: ZlibContainer::new(metadata),
            static_objects,
            timestamp,
            nimap,
            node_timers,
        },
    )
}

fn deserialize_legacy(crs: &mut ByteReader, version: u8) -> (r: Result<MapBlock, MapBlockError>)
    ensures
        match parse_block_legacy(old(crs).bytes(), old(crs).position(), version) {
            Ok(m) => r matches Ok(got) && got@ == m,
            Err(e) => r matches Err(got) && got == e,
        },
{
    reveal(parse_block_legacy);
    let flags = crs.read_u8()?;
    let lighting_complete = if version >= 27 {
        crs.read_u16()?
    } else {
        0xFFFF
    };
    let (content_width, params_width) = read_widths(crs)?;
    let node_data = ZlibContainer::<NodeData>::read(crs)?;
    let metadata = ZlibContainer::<NodeMetadataList>::read(crs)?;
    let static_objects = deserialize_objects(crs)?;
    let timestamp = crs.read_u32()?;
    let nimap = NameIdMap::deserialize(crs)?;
    let node_timers = deserialize_timers(crs)?;
    Ok(
        MapBlock {
            version,
            flags,
            lighting_complete,
            content_width,
            params_width,
            node_data,
            metadata,
            static_objects,
            timestamp,
            nimap,
            node_timers,
        },
    )
}

impl MapBlock {
    /// Reads a block as it is stored in a map database.
    pub fn deserialize(src: &[u8]) -> (r: Result<Self, MapBlockError>)
        ensures
            match parse_block(src@) {
                Ok(m) => r matches Ok(got) && got@ == m,
                Err(e) => r matches Err(got) && got == e,
            },
            r matches Ok(got) ==> {
                &&& MIN_BLOCK_VER <= got@.version <= MAX_BLOCK_VER
                &&& got@.content_width == 2
                &&& got@.params_width == 2
                &&& got@.node_data.is_complete()
            },
    {
        reveal(parse_block_v29);
        reveal(parse_block_legacy);
        let mut raw_crs = ByteReader::new(src);
        let version = raw_crs.read_u8()?;
        if version < MIN_BLOCK_VER || version > MAX_BLOCK_VER {
            return Err(MapBlockError::InvalidBlockVersion);
        }
        if version >= 29 {
            let plain = match zstd_decompress(raw_crs.rest()) {
                Some(plain) => plain,
                None => {
                    return Err(MapBlockError::BadData);
                },
            };
            deserialize_v29(plain.as_slice(), version)
        } else {
            deserialize_legacy(&mut raw_crs, version)
        }
    }

    pub open spec fn spec_encodable(&self) -> bool {
        self@.encodable()
    }

    /// Whether `serialize` can write the block.
    #[verifier::when_used_as_spec(spec_encodable)]
    pub fn encodable(&self) -> (b: bool)
        ensures
            b == self@.encodable(),
    {
        if self.version < MIN_BLOCK_VER || self.version > MAX_BLOCK_VER || self.content_width != 2
            || self.params_width != 2 || self.node_data.get_ref().nodes.len() != NODE_COUNT {
            return false;
        }
        if !self.nimap.writable() || !self.metadata.get_ref().writable() {
            return false;
        }
        let ghost views = self.static_objects.deep_view();
        let mut i: usize = 0;
        while i < self.static_objects.len()
            invariant
                i <= self.static_objects@.len(),
                views == self.static_objects.deep_view(),
                views.len() == self.static_objects@.len(),
                forall|j: int| 0 <= j < i ==> (#[trigger] views[j]).data.len() <= u16::MAX,
            decreases self.static_objects@.len() - i,
        {
            assert(views[i as int] == self.static_objects@[i as int]@);
            if self.static_objects[i].data.len() > 0xFFFF {
                return false;
            }
            i = i + 1;
        }
        true
    }

    fn write_payload_head(&self, buf: &mut Vec<u8>)
        requires
            self.encodable(),
        ensures
            final(buf)@ == old(buf)@ + payload_head(self@),
    {
        reveal(payload_head);
        let ghost before = buf@;
        write_u8(buf, self.flags);
        write_u16(buf, self.lighting_complete);
        write_u32(buf, self.timestamp);
        self.nimap.serialize(buf);
        write_u8(buf, self.content_width);
        write_u8(buf, self.params_width);
        assert(buf@ =~= before + payload_head(self@));
    }

    fn write_payload_body(&self, buf: &mut Vec<u8>)
        requires
            self.encodable(),
        ensures
            final(buf)@ == old(buf)@ + payload_body(self@),
    {
        reveal(payload_body);
        let ghost before = buf@;
        self.node_data.get_ref().serialize(buf);
        self.metadata.get_ref().serialize(buf, self.version);
        serialize_objects(&self.static_objects, buf);
        serialize_timers(&self.node_timers, buf);
        assert(buf@ =~= before + payload_body(self@));
    }

    fn write_legacy_head(&self, buf: &mut Vec<u8>)
        requires
            self.encodable(),
        ensures
            final(buf)@ == old(buf)@ + legacy_head(self@),
    {
        reveal(legacy_head);
        let ghost before = buf@;
        write_u8(buf, self.version);
        write_u8(buf, self.flags);
        if self.version >= 27 {
            write_u16(buf, self.lighting_complete);
        }
        write_u8(buf, self.content_width);
        write_u8(buf, self.params_width);
        assert(buf@ =~= before + legacy_head(self@));
    }

    fn write_legacy_tail(&self, buf: &mut Vec<u8>)
        requires
            self.encodable(),
        ensures
            final(buf)@ == old(buf)@ + legacy_tail(self@),
    {
        reveal(legacy_tail);
        let ghost before = buf@;
        serialize_objects(&self.static_objects, buf);
        write_u32(buf, self.timestamp);
        self.nimap.serialize(buf);
        serialize_timers(&self.node_timers, buf);
        assert(buf@ =~= before + legacy_tail(self@));
    }

    /// Writes the block as it is stored in a map database. `None` where an
    /// encoder fails.
    pub fn serialize(&self) -> (r: Option<Vec<u8>>)
        requires
            self.encodable(),
        ensures
            match encode_block(self@) {
                Some(bytes) => r matches Some(got) && got@ == bytes,
                None => r is None,
            },
    {
        reveal(block_payload);
        reveal(legacy_block_bytes);
        let mut buf: Vec<u8> = Vec::with_capacity(2048);
        if self.version >= 29 {
            self.write_payload_head(&mut buf);
            self.write_payload_body(&mut buf);
            assert(buf@ =~= block_payload(self@));
            let packed = zstd_compress(buf.as_slice())?;
            let mut out: Vec<u8> = Vec::with_capacity(1);
            out.push(self.version);
            out.extend_from_slice(packed.as_slice());
            assert(out@ =~= seq![self.version] + packed@);
            Some(out)
        } else {
            self.write_legacy_head(&mut buf);
            assert(buf@ =~= legacy_head(self@));
            if !self.node_data.write(&mut buf) {
                return None;
            }
            if !self.metadata.write(&mut buf, self.version) {
                return None;
            }
            self.write_legacy_tail(&mut buf);
            Some(buf)
        }
    }

    /// Whether the ID of every node has a name.
    pub fn has_valid_ids(&self) -> (b: bool)
        ensures
            b == self@.ids_valid(),
    {
        let nodes = &self.node_data.get_ref().nodes;
        let mut i: usize = 0;
        while i < nodes.len()
            invariant
                i <= nodes@.len(),
                nodes@ == self@.node_data.nodes,
                forall|j: int| 0 <= j < i ==> self@.nimap.contains_key(#[trigger] nodes@[j]),
            decreases nodes@.len() - i,
        {
            if !self.nimap.0.contains_key(nodes[i]) {
                return false;
            }
            i = i + 1;
        }
        true
    }
}

/// What reading a stored block for an edit gives: nothing where the
/// block is not of a version that is read or is not generated, else the
/// block or the reason why it cannot be read.
pub open spec fn parse_generated(s: Seq<u8>) -> Option<Result<MapBlockView, MapBlockError>> {
    if valid_generated(s) {
        Some(parse_block(s))
    } else {
        None
    }
}

/// Reads a stored block for an edit, if it can be edited.
pub fn decode_generated(data: &[u8]) -> (r: Option<Result<MapBlock, MapBlockError>>)
    ensures
        match parse_generated(data@) {
            Some(Ok(m)) => r matches Some(Ok(got)) && got@ == m,
            Some(Err(e)) => r matches Some(Err(got)) && got == e,
            None => r is None,
        },
{
    if !is_valid_generated(data) {
        return None;
    }
    Some(MapBlock::deserialize(data))
}

/// Whether a block is read back as it is written behind its version byte
/// before packing: both widths are 2, each array of the nodes holds one
/// entry for each node, no stream is kept, the metadata is plain, and
/// every name, object and number fits where it is written.
pub open spec fn payload_plain(b: MapBlockView) -> bool {
    &&& b.content_width == 2
    &&& b.params_width == 2
    &&& b.node_data.is_complete()
    &&& b.node_frame is None
    &&& b.metadata_frame is None
    &&& sorted_keys(b.nimap.dom()).len() <= u16::MAX
    &&& names_fit(b.nimap)
    &&& metadata_list_plain(b.metadata, b.version)
    &&& b.static_objects.len() <= u16::MAX
    &&& objects_fit(b.static_objects)
    &&& b.node_timers.len() <= u16::MAX
}

/// Where the front parts of a block stand in what was written.
proof fn lemma_payload_head_layout(b: MapBlockView)
    ensures
        ({
            let s = block_payload(b);
            let p4 = 7 + name_id_map_bytes(b.nimap).len() as int;
            &&& s.len() == p4 + 2 + payload_body(b).len()
            &&& s[0] == b.flags
            &&& s.subrange(1, 3) == u16_bytes(b.lighting_complete)
            &&& s.subrange(3, 7) == u32_bytes(b.timestamp)
            &&& s.subrange(7, p4) == name_id_map_bytes(b.nimap)
            &&& s[p4] == b.content_width
            &&& s[p4 + 1] == b.params_width
            &&& s.subrange(p4 + 2, s.len() as int) == payload_body(b)
        }),
{
    reveal(block_payload);
    reveal(payload_head);
    let s = block_payload(b);
    let head = payload_head(b);
    let p4 = 7 + name_id_map_bytes(b.nimap).len() as int;
    assert(head.len() == p4 + 2);
    assert(head[0] == b.flags);
    assert(head.subrange(1, 3) =~= u16_bytes(b.lighting_complete));
    assert(head.subrange(3, 7) =~= u32_bytes(b.timestamp));
    assert(head.subrange(7, p4) =~= name_id_map_bytes(b.nimap));
    assert(head[p4] == b.content_width);
    assert(head[p4 + 1] == b.params_width);
    assert(s.subrange(1, 3) =~= head.subrange(1, 3));
    assert(s.subrange(3, 7) =~= head.subrange(3, 7));
    assert(s.subrange(7, p4) =~= head.subrange(7, p4));
    assert(s.subrange(p4 + 2, s.len() as int) =~= payload_body(b));
}

/// Where the rear parts of a block stand in what was written.
proof fn lemma_payload_body_layout(b: MapBlockView)
    requires
        b.node_data.is_complete(),
    ensures
        ({
            let body = payload_body(b);
            let q7 = 16384 + metadata_list_bytes(b.metadata, b.version).len() as int;
            let q8 = q7 + objects_bytes(b.static_objects).len() as int;
            &&& body.len() == q8 + timers_bytes(b.node_timers).len()
            &&& body.subrange(0, 16384) == node_data_bytes(b.node_data)
            &&& body.subrange(16384, q7) == metadata_list_bytes(b.metadata, b.version)
            &&& body.subrange(q7, q8) == objects_bytes(b.static_objects)
            &&& body.subrange(q8, body.len() as int) == timers_bytes(b.node_timers)
        }),
{
    reveal(payload_body);
    let body = payload_body(b);
    lemma_node_data_bytes_len(b.node_data);
    let q7 = 16384 + metadata_list_bytes(b.metadata, b.version).len() as int;
    let q8 = q7 + objects_bytes(b.static_objects).len() as int;
    assert(body.subrange(0, 16384) =~= node_data_bytes(b.node_data));
    assert(body.subrange(16384, q7) =~= metadata_list_bytes(b.metadata, b.version));
    assert(body.subrange(q7, q8) =~= objects_bytes(b.static_objects));
    assert(body.subrange(q8, body.len() as int) =~= timers_bytes(b.node_timers));
}

/// A part of a part is a part of the whole.
proof fn lemma_part_of_part(s: Seq<u8>, from: int, inner: Seq<u8>, a: int, b: int)
    requires
        0 <= from,
        from + inner.len() <= s.len(),
        s.subrange(from, from + inner.len() as int) == inner,
        0 <= a <= b <= inner.len(),
    ensures
        s.subrange(from + a, from + b) == inner.subrange(a, b),
{
    assert(s.subrange(from + a, from + b) =~= s.subrange(from, from + inner.len() as int).subrange(
        a,
        b,
    ));
}

/// What was written of a block of version 29 behind its version byte,
/// before it was packed, is read back as the block that was written, if
/// the block is plain.
pub proof fn lemma_payload_written_is_read(b: MapBlockView)
    requires
        payload_plain(b),
    ensures
        parse_block_v29(block_payload(b), b.version) == Ok::<MapBlockView, MapBlockError>(b),
{
    let s = block_payload(b);
    let body = payload_body(b);
    lemma_payload_head_layout(b);
    lemma_payload_body_layout(b);
    let p4 = 7 + name_id_map_bytes(b.nimap).len() as int;
    let p5 = p4 + 2;
    let q7 = 16384 + metadata_list_bytes(b.metadata, b.version).len() as int;
    let q8 = q7 + objects_bytes(b.static_objects).len() as int;
    lemma_u16_written_is_read(s, 1, b.lighting_complete);
    lemma_u32_written_is_read(s, 3, b.timestamp);
    lemma_names_written_are_read(s, 7, b.nimap);
    lemma_part_of_part(s, p5, body, 0, 16384);
    lemma_node_data_written_is_read(s, p5, b.node_data);
    lemma_part_of_part(s, p5, body, 16384, q7);
    lemma_metadata_list_written_is_read(s, p5 + 16384, b.metadata, b.version);
    lemma_part_of_part(s, p5, body, q7, q8);
    lemma_objects_written_are_read(s, p5 + q7, b.static_objects);
    lemma_part_of_part(s, p5, body, q8, body.len() as int);
    lemma_timers_written_are_read(s, p5 + q8, b.node_timers);
    lemma_payload_parse(s, b, p4);
}

/// A block is read from parts that are read one behind the other.
proof fn lemma_payload_parse(s: Seq<u8>, b: MapBlockView, p4: int)
    requires
        b.content_width == 2,
        b.params_width == 2,
        b.node_frame is None,
        b.metadata_frame is None,
        4 <= p4,
        p4 + 2 <= s.len(),
        s[0] == b.flags,
        parse_u16(s, 1) == Ok::<(u16, int), MapBlockError>((b.lighting_complete, 3)),
        parse_u32(s, 3) == Ok::<(u32, int), MapBlockError>((b.timestamp, 7)),
        parse_name_id_map(s, 7) == Ok::<(Map<u16, Seq<u8>>, int), MapBlockError>((b.nimap, p4)),
        s[p4] == b.content_width,
        s[p4 + 1] == b.params_width,
        parse_node_data(s, p4 + 2) matches Ok((nd, p6)) && nd == b.node_data && (
        parse_metadata_list(s, p6) matches Ok((md, p7)) && md == b.metadata && (parse_objects(
            s,
            p7,
        ) matches Ok((ob, p8)) && ob == b.static_objects && (parse_timers(s, p8) matches Ok(
            (tm, p9),
        ) && tm == b.node_timers))),
    ensures
        parse_block_v29(s, b.version) == Ok::<MapBlockView, MapBlockError>(b),
{
    reveal(parse_block_v29);
    assert(parse_widths(s, p4) == Ok::<((u8, u8), int), MapBlockError>(
        ((b.content_width, b.params_width), p4 + 2),
    ));
}

/// A block of version 29 that was written is read back as it was, if it
/// is plain and its frame unpacks to what was packed.
pub proof fn lemma_packed_block_is_read(b: MapBlockView, packed: Seq<u8>)
    requires
        b.version == 29,
        payload_plain(b),
        zstd_decode(packed) == Some(block_payload(b)),
    ensures
        parse_block(seq![b.version] + packed) == Ok::<MapBlockView, MapBlockError>(b),
{
    let s = seq![b.version] + packed;
    assert(s.subrange(1, s.len() as int) =~= packed);
    lemma_payload_written_is_read(b);
}

/// Where the parts of a block of a version before 29 stand in what was
/// written.
proof fn lemma_legacy_layout(b: MapBlockView, nodes: Seq<u8>, metadata: Seq<u8>)
    ensures
        ({
            let s = legacy_block_bytes(b, nodes, metadata);
            let p2: int = if b.version >= 27 {
                4
            } else {
                2
            };
            let p4 = p2 + 2 + nodes.len() as int;
            let p5 = p4 + metadata.len() as int;
            let p6 = p5 + objects_bytes(b.static_objects).len() as int;
            let p8 = p6 + 4 + name_id_map_bytes(b.nimap).len() as int;
            &&& s.len() == p8 + timers_bytes(b.node_timers).len()
            &&& s[0] == b.version
            &&& s[1] == b.flags
            &&& b.version >= 27 ==> s.subrange(2, 4) == u16_bytes(b.lighting_complete)
            &&& s[p2] == b.content_width
            &&& s[p2 + 1] == b.params_width
            &&& s.subrange(p2 + 2, p4) == nodes
            &&& s.subrange(p4, p5) == metadata
            &&& s.subrange(p5, p6) == objects_bytes(b.static_objects)
            &&& s.subrange(p6, p6 + 4) == u32_bytes(b.timestamp)
            &&& s.subrange(p6 + 4, p8) == name_id_map_bytes(b.nimap)
            &&& s.subrange(p8, s.len() as int) == timers_bytes(b.node_timers)
        }),
{
    reveal(legacy_block_bytes);
    reveal(legacy_head);
    reveal(legacy_tail);
    let s = legacy_block_bytes(b, nodes, metadata);
    let head = legacy_head(b);
    let tail = legacy_tail(b);
    let p2: int = if b.version >= 27 {
        4
    } else {
        2
    };
    let p3 = p2 + 2;
    let p4 = p3 + nodes.len() as int;
    let p5 = p4 + metadata.len() as int;
    let objects = objects_bytes(b.static_objects);
    let names = name_id_map_bytes(b.nimap);
    let t6 = objects.len() as int;
    let t8 = t6 + 4 + names.len() as int;
    assert(head.len() == p3);
    assert(tail.len() == t8 + timers_bytes(b.node_timers).len());
    if b.version >= 27 {
        assert(head.subrange(2, 4) =~= u16_bytes(b.lighting_complete));
        assert(s.subrange(2, 4) =~= head.subrange(2, 4));
    }
    assert(s[p2] == head[p2]);
    assert(s[p2 + 1] == head[p2 + 1]);
    assert(s.subrange(p3, p4) =~= nodes);
    assert(s.subrange(p4, p5) =~= metadata);
    assert(s.subrange(p5, s.len() as int) =~= tail);
    assert(tail.subrange(0, t6) =~= objects);
    assert(tail.subrange(t6, t6 + 4) =~= u32_bytes(b.timestamp));
    assert(tail.subrange(t6 + 4, t8) =~= names);
    assert(tail.subrange(t8, tail.len() as int) =~= timers_bytes(b.node_timers));
    lemma_part_of_part(s, p5, tail, 0, t6);
    lemma_part_of_part(s, p5, tail, t6, t6 + 4);
    lemma_part_of_part(s, p5, tail, t6 + 4, t8);
    lemma_part_of_part(s, p5, tail, t8, tail.len() as int);
}

/// Whether a block of a version before 29 is read back as it is written:
/// both widths are 2, each array of the nodes holds one entry for each
/// node, the lighting counts as complete where the version does not store
/// it, and every name, object and number fits where it is written.
pub open spec fn legacy_plain(b: MapBlockView) -> bool {
    &&& MIN_BLOCK_VER <= b.version < 29
    &&& b.content_width == 2
    &&& b.params_width == 2
    &&& b.node_data.is_complete()
    &&& b.version < 27 ==> b.lighting_complete == 0xFFFF
    &&& sorted_keys(b.nimap.dom()).len() <= u16::MAX
    &&& names_fit(b.nimap)
    &&& b.static_objects.len() <= u16::MAX
    &&& objects_fit(b.static_objects)
    &&& b.node_timers.len() <= u16::MAX
}

/// A block of a version before 29 that was written around the streams
/// `nodes` and `metadata` is read back as it was, with both streams kept,
/// if it is plain and each stream unpacks, where it stands, to what the
/// block holds: the nodes to their bytes, the metadata to a list that is
/// read as the block's.
pub proof fn lemma_legacy_block_is_read(b: MapBlockView, nodes: Seq<u8>, metadata: Seq<u8>, plain: Seq<u8>)
    requires
        legacy_plain(b),
        b.node_frame == Some(nodes),
        b.metadata_frame == Some(metadata),
        ({
            let s = legacy_block_bytes(b, nodes, metadata);
            let p3: int = if b.version >= 27 {
                6
            } else {
                4
            };
            &&& zlib_inflate(s.subrange(p3, s.len() as int)) == Some(
                (node_data_bytes(b.node_data), nodes.len()),
            )
            &&& zlib_inflate(s.subrange(p3 + nodes.len() as int, s.len() as int)) == Some(
                (plain, metadata.len()),
            )
        }),
        parse_metadata_list(plain, 0) matches Ok((m, p)) && m == b.metadata,
    ensures
        parse_block(legacy_block_bytes(b, nodes, metadata)) == Ok::<MapBlockView, MapBlockError>(b),
{
    reveal(parse_block_legacy);
    let s = legacy_block_bytes(b, nodes, metadata);
    lemma_legacy_layout(b, nodes, metadata);
    lemma_node_data_bytes_len(b.node_data);
    let p2: int = if b.version >= 27 {
        4
    } else {
        2
    };
    let p3 = p2 + 2;
    let p4 = p3 + nodes.len() as int;
    let p5 = p4 + metadata.len() as int;
    let p6 = p5 + objects_bytes(b.static_objects).len() as int;
    let p8 = p6 + 4 + name_id_map_bytes(b.nimap).len() as int;
    if b.version >= 27 {
        lemma_u16_written_is_read(s, 2, b.lighting_complete);
    }
    assert(parse_lighting(s, 2, b.version) == Ok::<(u16, int), MapBlockError>(
        (b.lighting_complete, p2),
    ));
    assert(parse_widths(s, p2) == Ok::<((u8, u8), int), MapBlockError>(
        ((b.content_width, b.params_width), p3),
    ));
    let data = node_data_bytes(b.node_data);
    assert(data.subrange(0, 16384) =~= data);
    lemma_node_data_written_is_read(data, 0, b.node_data);
    assert(parse_zlib_node_data(s, p3) == Ok::<((NodeDataView, Seq<u8>), int), MapBlockError>(
        ((b.node_data, nodes), p4),
    ));
    assert(parse_zlib_metadata_list(s, p4) == Ok::<
        ((Map<u16, NodeMetadataView>, Seq<u8>), int),
        MapBlockError,
    >(((b.metadata, metadata), p5)));
    lemma_objects_written_are_read(s, p5, b.static_objects);
    lemma_u32_written_is_read(s, p6, b.timestamp);
    lemma_names_written_are_read(s, p6 + 4, b.nimap);
    lemma_timers_written_are_read(s, p8, b.node_timers);
}

} // verus!
