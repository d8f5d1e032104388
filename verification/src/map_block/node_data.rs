use super::compression::ZlibContainer;
use super::compression::zlib_compress;
use super::compression::zlib_decompress;
use super::compression::zlib_deflate;
use super::compression::zlib_inflate;
use super::wire::ByteReader;
use super::wire::MapBlockError;
use super::wire::be_u16;
use super::wire::has_bytes;
use super::wire::try_read_n;
use super::wire::u16_bytes;
use super::wire::write_u16;
use vstd::prelude::*;
use vstd::slice::slice_subrange;
use vstd::slice::slice_to_vec;

verus! {

/// The number of nodes in a block.
pub const NODE_COUNT: usize = 4096;

/// The number of bytes that the nodes of a block take on the wire.
pub const NODE_DATA_LENGTH: usize = 16384;

/// The nodes of a block: for each node the ID of its name and two
/// parameters. A node is found at x + 16 y + 256 z.
#[derive(Clone, Debug)]
pub struct NodeData {
    pub nodes: Vec<u16>,
    pub param1: Vec<u8>,
    pub param2: Vec<u8>,
}

/// What the nodes of a block hold.
pub struct NodeDataView {
    pub nodes: Seq<u16>,
    pub param1: Seq<u8>,
    pub param2: Seq<u8>,
}

impl View for NodeData {
    type V = NodeDataView;

    open spec fn view(&self) -> NodeDataView {
        NodeDataView { nodes: self.nodes@, param1: self.param1@, param2: self.param2@ }
    }
}

impl NodeDataView {
    /// Whether each of the three arrays holds one entry for each node.
    pub open spec fn is_complete(&self) -> bool {
        &&& self.nodes.len() == NODE_COUNT
        &&& self.param1.len() == NODE_COUNT
        &&& self.param2.len() == NODE_COUNT
    }
}

/// The node data in the 16384 bytes of `s` at `pos`: the IDs as big-endian
/// numbers, then the first parameters, then the second ones.
pub open spec fn node_data_at(s: Seq<u8>, pos: int) -> NodeDataView {
    NodeDataView {
        nodes: Seq::new(NODE_COUNT as nat, |i: int| be_u16(s, pos + 2 * i) as u16),
        param1: s.subrange(pos + 8192, pos + 12288),
        param2: s.subrange(pos + 12288, pos + 16384),
    }
}

/// What reading plain node data at `pos` gives.
pub open spec fn parse_node_data(s: Seq<u8>, pos: int) -> Result<(NodeDataView, int), MapBlockError> {
    if has_bytes(s, pos, NODE_DATA_LENGTH as int) {
        Ok((node_data_at(s, pos), pos + NODE_DATA_LENGTH))
    } else {
        Err(MapBlockError::BadData)
    }
}

/// What reading node data in a zlib stream at `pos` gives: the node data
/// and the bytes of the stream. The stream must unpack to exactly the
/// bytes of the node data.
pub open spec fn parse_zlib_node_data(s: Seq<u8>, pos: int) -> Result<
    ((NodeDataView, Seq<u8>), int),
    MapBlockError,
> {
    match zlib_inflate(s.subrange(pos, s.len() as int)) {
        Some((plain, used)) => if plain.len() == NODE_DATA_LENGTH {
            Ok(((node_data_at(plain, 0), s.subrange(pos, pos + used)), pos + used))
        } else {
            Err(MapBlockError::BadData)
        },
        None => Err(MapBlockError::BadData),
    }
}

/// The bytes of the first `n` IDs.
pub open spec fn node_ids_bytes(nodes: Seq<u16>, n: nat) -> Seq<u8>
    decreases n,
{
    if n == 0 {
        Seq::empty()
    } else {
        node_ids_bytes(nodes, (n - 1) as nat) + u16_bytes(nodes[n - 1])
    }
}

/// The bytes of node data: the IDs, the first parameters, the second ones.
pub open spec fn node_data_bytes(v: NodeDataView) -> Seq<u8> {
    node_ids_bytes(v.nodes, v.nodes.len()) + v.param1 + v.param2
}

/// The zlib stream that node data is written as: the stream it was read
/// from if that is still kept, or else a new one. `None` where the encoder
/// fails.
pub open spec fn zlib_node_data_bytes(v: NodeDataView, frame: Option<Seq<u8>>) -> Option<Seq<u8>> {
    match frame {
        Some(f) => Some(f),
        None => zlib_deflate(node_data_bytes(v)),
    }
}

/// Reads the IDs of all nodes from the front of `bytes`.
fn read_node_ids(bytes: &Vec<u8>) -> (nodes: Vec<u16>)
    requires
        bytes@.len() >= 2 * NODE_COUNT,
    ensures
        nodes@ == Seq::new(NODE_COUNT as nat, |i: int| be_u16(bytes@, 2 * i) as u16),
{
    let mut src = ByteReader::new(bytes.as_slice());
    let mut nodes: Vec<u16> = Vec::with_capacity(NODE_COUNT);
    let mut i: usize = 0;
    while i < NODE_COUNT
        invariant
            i <= NODE_COUNT,
            bytes@.len() >= 2 * NODE_COUNT,
            src.bytes() == bytes@,
            src.position() == 2 * i,
            nodes@.len() == i,
            forall|j: int| 0 <= j < i ==> nodes@[j] == be_u16(bytes@, 2 * j) as u16,
        decreases NODE_COUNT - i,
    {
        match src.read_u16() {
            Ok(id) => {
                nodes.push(id);
            },
            Err(_) => {
                assert(false);
            },
        }
        i = i + 1;
    }
    assert(nodes@ =~= Seq::new(NODE_COUNT as nat, |i: int| be_u16(bytes@, 2 * i) as u16));
    nodes
}

impl NodeData {
    /// Reads node data that is not compressed.
    pub fn deserialize(src: &mut ByteReader) -> (r: Result<Self, MapBlockError>)
        ensures
            final(src).bytes() == old(src).bytes(),
            match parse_node_data(old(src).bytes(), old(src).position()) {
                Ok((m, p)) => r matches Ok(got) && got@ == m && final(src).position() == p,
                Err(e) => r matches Err(got) && got == e,
            },
    {
        let ghost s = src.bytes();
        let ghost pos = src.position();
        let node_bytes = try_read_n(src, 2 * NODE_COUNT)?;
        let param1 = try_read_n(src, NODE_COUNT)?;
        let param2 = try_read_n(src, NODE_COUNT)?;
        let nodes = read_node_ids(&node_bytes);
        proof {
            assert(nodes@ =~= node_data_at(s, pos).nodes);
        }
        Ok(Self { nodes, param1, param2 })
    }

    /// Writes node data without compressing it.
    pub fn serialize(&self, dst: &mut Vec<u8>)
        ensures
            final(dst)@ == old(dst)@ + node_data_bytes(self@),
    {
        let ghost before = dst@;
        let mut i: usize = 0;
        while i < self.nodes.len()
            invariant
                i <= self.nodes@.len(),
                dst@ == before + node_ids_bytes(self.nodes@, i as nat),
            decreases self.nodes@.len() - i,
        {
            write_u16(dst, self.nodes[i]);
            proof {
                assert(dst@ =~= before + node_ids_bytes(self.nodes@, (i + 1) as nat));
            }
            i = i + 1;
        }
        dst.extend_from_slice(self.param1.as_slice());
        dst.extend_from_slice(self.param2.as_slice());
        proof {
            assert(dst@ =~= before + node_data_bytes(self@));
        }
    }
}

impl ZlibContainer<NodeData> {
    /// Reads node data from a zlib stream and keeps the stream.
    pub fn read(src: &mut ByteReader) -> (r: Result<Self, MapBlockError>)
        ensures
            final(src).bytes() == old(src).bytes(),
            match parse_zlib_node_data(old(src).bytes(), old(src).position()) {
                Ok(((m, f), p)) => r matches Ok(got) && got.value()@ == m && got.frame() == Some(f)
                    && final(src).position() == p,
                Err(e) => r matches Err(got) && got == e,
            },
    {
        let start: usize = src.pos();
        let total: usize = src.get_ref().len();
        let (plain, used) = match zlib_decompress(src.rest()) {
            Some(found) => found,
            None => {
                return Err(MapBlockError::BadData);
            },
        };
        if plain.len() != NODE_DATA_LENGTH {
            return Err(MapBlockError::BadData);
        }
        let mut inner = ByteReader::new(plain.as_slice());
        let data = NodeData::deserialize(&mut inner)?;
        assert(start + used <= total);
        let frame = slice_to_vec(slice_subrange(src.get_ref(), start, start + used));
        src.skip(used);
        Ok(ZlibContainer::with_frame(data, frame))
    }

    /// Writes the stream that the node data was read from, if it is still
    /// kept, or else a new one. Returns whether the encoder succeeded.
    pub fn write(&self, dst: &mut Vec<u8>) -> (ok: bool)
        ensures
            match zlib_node_data_bytes(self.value()@, self.frame()) {
                Some(bytes) => ok && final(dst)@ == old(dst)@ + bytes,
                None => !ok && final(dst)@ == old(dst)@,
            },
    {
        match self.cached() {
            Some(frame) => {
                dst.extend_from_slice(frame.as_slice());
                true
            },
            None => {
                let mut plain: Vec<u8> = Vec::new();
                self.get_ref().serialize(&mut plain);
                assert(plain@ =~= node_data_bytes(self.value()@));
                match zlib_compress(plain.as_slice()) {
                    Some(packed) => {
                        dst.extend_from_slice(packed.as_slice());
                        true
                    },
                    None => false,
                }
            },
        }
    }
}

/// The first `n` IDs take two bytes each, and the bytes of the `k`-th of
/// them stand at `2 k`.
proof fn lemma_node_ids_bytes(nodes: Seq<u16>, n: nat, k: int)
    requires
        n <= nodes.len(),
        0 <= k < n,
    ensures
        node_ids_bytes(nodes, n).len() == 2 * n,
        node_ids_bytes(nodes, n)[2 * k] == u16_bytes(nodes[k])[0],
        node_ids_bytes(nodes, n)[2 * k + 1] == u16_bytes(nodes[k])[1],
    decreases n,
{
    lemma_node_ids_len(nodes, n);
    lemma_node_ids_len(nodes, (n - 1) as nat);
    if k < n - 1 {
        lemma_node_ids_bytes(nodes, (n - 1) as nat, k);
    }
}

proof fn lemma_node_ids_len(nodes: Seq<u16>, n: nat)
    requires
        n <= nodes.len(),
    ensures
        node_ids_bytes(nodes, n).len() == 2 * n,
    decreases n,
{
    if n > 0 {
        lemma_node_ids_len(nodes, (n - 1) as nat);
    }
}

/// Node data that was written without being compressed is read back as
/// it was, wherever it stands, if each of its arrays holds one entry for
/// each node.
pub proof fn lemma_node_data_written_is_read(s: Seq<u8>, p: int, v: NodeDataView)
    requires
        0 <= p,
        v.is_complete(),
        p + NODE_DATA_LENGTH <= s.len(),
        s.subrange(p, p + NODE_DATA_LENGTH) == node_data_bytes(v),
    ensures
        parse_node_data(s, p) == Ok::<(NodeDataView, int), MapBlockError>(
            (v, p + NODE_DATA_LENGTH),
        ),
{
    let all = node_data_bytes(v);
    let ids = node_ids_bytes(v.nodes, v.nodes.len());
    lemma_node_ids_len(v.nodes, v.nodes.len());
    let got = node_data_at(s, p);
    assert forall|i: int| 0 <= i < NODE_COUNT implies got.nodes[i] == v.nodes[i] by {
        lemma_node_ids_bytes(v.nodes, v.nodes.len(), i);
        assert(s[p + 2 * i] == s.subrange(p, p + NODE_DATA_LENGTH)[2 * i]);
        assert(s[p + 2 * i + 1] == s.subrange(p, p + NODE_DATA_LENGTH)[2 * i + 1]);
        assert(all[2 * i] == ids[2 * i]);
        assert(all[2 * i + 1] == ids[2 * i + 1]);
        let n = v.nodes[i];
        assert(n == (n / 256) * 256 + n % 256);
    }
    assert(got.nodes =~= v.nodes);
    assert(got.param1 =~= all.subrange(8192, 12288));
    assert(all.subrange(8192, 12288) =~= v.param1);
    assert(got.param2 =~= all.subrange(12288, 16384));
    assert(all.subrange(12288, 16384) =~= v.param2);
}

/// Complete node data takes 16384 bytes.
pub proof fn lemma_node_data_bytes_len(v: NodeDataView)
    requires
        v.is_complete(),
    ensures
        node_data_bytes(v).len() == NODE_DATA_LENGTH,
{
    lemma_node_ids_len(v.nodes, v.nodes.len());
}

} // verus!
