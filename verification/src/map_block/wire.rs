use byteorder::BigEndian;
use byteorder::ByteOrder;
use vstd::prelude::*;
use vstd::slice::slice_subrange;
use vstd::slice::slice_to_vec;

verus! {

/// Why a block, or a part of one, could not be read.
#[derive(Clone, Copy, Debug, PartialEq, Eq, Structural)]
pub enum MapBlockError {
    /// Block data is malformed or missing.
    BadData,
    /// The block version is unsupported.
    InvalidBlockVersion,
    /// Some data length or other value is unsupported.
    InvalidFeature,
    /// Some content within the mapblock has an unsupported version.
    InvalidSubVersion,
}

/// Whether `s` holds `n` bytes from `pos` on.
pub open spec fn has_bytes(s: Seq<u8>, pos: int, n: int) -> bool {
    0 <= pos && 0 <= n && pos + n <= s.len()
}

/// The big-endian number in the two bytes of `s` at `pos`.
pub open spec fn be_u16(s: Seq<u8>, pos: int) -> int {
    s[pos] * 256 + s[pos + 1]
}

/// The big-endian number in the four bytes of `s` at `pos`.
pub open spec fn be_u32(s: Seq<u8>, pos: int) -> int {
    s[pos] * 16777216 + s[pos + 1] * 65536 + s[pos + 2] * 256 + s[pos + 3]
}

/// The signed number whose two's complement in 32 bits is `v`.
pub open spec fn as_signed_32(v: int) -> int {
    if v >= 0x8000_0000 {
        v - 0x1_0000_0000
    } else {
        v
    }
}

/// The two bytes of `v`, highest first.
pub open spec fn u16_bytes(v: u16) -> Seq<u8> {
    seq![(v / 256) as u8, (v % 256) as u8]
}

/// The four bytes of `v`, highest first.
pub open spec fn u32_bytes(v: u32) -> Seq<u8> {
    seq![
        (v / 16777216) as u8,
        ((v / 65536) % 256) as u8,
        ((v / 256) % 256) as u8,
        (v % 256) as u8,
    ]
}

/// The four bytes of the two's complement of `v`, highest first.
pub open spec fn i32_bytes(v: i32) -> Seq<u8> {
    u32_bytes(
        if v < 0 {
            (v + 0x1_0000_0000) as u32
        } else {
            v as u32
        },
    )
}

/// A byte string behind its length in two bytes.
pub open spec fn string16_bytes(data: Seq<u8>) -> Seq<u8> {
    u16_bytes(data.len() as u16) + data
}

/// A byte string behind its length in four bytes.
pub open spec fn string32_bytes(data: Seq<u8>) -> Seq<u8> {
    u32_bytes(data.len() as u32) + data
}

/// What reading one byte at `pos` gives: the byte and the position behind it.
pub open spec fn parse_u8(s: Seq<u8>, pos: int) -> Result<(u8, int), MapBlockError> {
    if has_bytes(s, pos, 1) {
        Ok((s[pos], pos + 1))
    } else {
        Err(MapBlockError::BadData)
    }
}

/// What reading a big-endian `u16` at `pos` gives.
pub open spec fn parse_u16(s: Seq<u8>, pos: int) -> Result<(u16, int), MapBlockError> {
    if has_bytes(s, pos, 2) {
        Ok((be_u16(s, pos) as u16, pos + 2))
    } else {
        Err(MapBlockError::BadData)
    }
}

/// What reading a big-endian `u32` at `pos` gives.
pub open spec fn parse_u32(s: Seq<u8>, pos: int) -> Result<(u32, int), MapBlockError> {
    if has_bytes(s, pos, 4) {
        Ok((be_u32(s, pos) as u32, pos + 4))
    } else {
        Err(MapBlockError::BadData)
    }
}

/// What reading a big-endian `i32` at `pos` gives.
pub open spec fn parse_i32(s: Seq<u8>, pos: int) -> Result<(i32, int), MapBlockError> {
    if has_bytes(s, pos, 4) {
        Ok((as_signed_32(be_u32(s, pos)) as i32, pos + 4))
    } else {
        Err(MapBlockError::BadData)
    }
}

/// What reading `n` bytes at `pos` gives.
pub open spec fn parse_bytes(s: Seq<u8>, pos: int, n: int) -> Result<(Seq<u8>, int), MapBlockError> {
    if has_bytes(s, pos, n) {
        Ok((s.subrange(pos, pos + n), pos + n))
    } else {
        Err(MapBlockError::BadData)
    }
}

/// What reading a byte string behind a two-byte length gives.
pub open spec fn parse_string16(s: Seq<u8>, pos: int) -> Result<(Seq<u8>, int), MapBlockError> {
    match parse_u16(s, pos) {
        Ok((n, p)) => parse_bytes(s, p, n as int),
        Err(e) => Err(e),
    }
}

/// What reading a byte string behind a four-byte length gives.
pub open spec fn parse_string32(s: Seq<u8>, pos: int) -> Result<(Seq<u8>, int), MapBlockError> {
    match parse_u32(s, pos) {
        Ok((n, p)) => parse_bytes(s, p, n as int),
        Err(e) => Err(e),
    }
}

/// What parsing `n` items in a row gives, where `step` parses one item at a
/// position and adds it to what was gathered before. The first error ends
/// the parse.
pub open spec fn parse_fold<A>(
    s: Seq<u8>,
    pos: int,
    n: nat,
    init: A,
    step: spec_fn(A, Seq<u8>, int) -> Result<(A, int), MapBlockError>,
) -> Result<(A, int), MapBlockError>
    decreases n,
{
    if n == 0 {
        Ok((init, pos))
    } else {
        match parse_fold(s, pos, (n - 1) as nat, init, step) {
            Ok((acc, p)) => step(acc, s, p),
            Err(e) => Err(e),
        }
    }
}

/// An error among the first `i` items is the error of any longer parse.
pub proof fn lemma_parse_fold_err<A>(
    s: Seq<u8>,
    pos: int,
    i: nat,
    n: nat,
    init: A,
    step: spec_fn(A, Seq<u8>, int) -> Result<(A, int), MapBlockError>,
)
    requires
        i <= n,
        parse_fold(s, pos, i, init, step) is Err,
    ensures
        parse_fold(s, pos, n, init, step) == parse_fold(s, pos, i, init, step),
    decreases n,
{
    if i < n {
        lemma_parse_fold_err(s, pos, i, (n - 1) as nat, init, step);
    }
}

/// Whether two byte strings are the same.
pub fn bytes_eq(a: &[u8], b: &[u8]) -> (r: bool)
    ensures
        r == (a@ == b@),
{
    if a.len() != b.len() {
        return false;
    }
    let mut i: usize = 0;
    while i < a.len()
        invariant
            a@.len() == b@.len(),
            i <= a@.len(),
            forall|j: int| 0 <= j < i ==> a@[j] == b@[j],
        decreases a@.len() - i,
    {
        if a[i] != b[i] {
            return false;
        }
        i = i + 1;
    }
    assert(a@ =~= b@);
    true
}

/// `byteorder::BigEndian::read_u16`: the number whose high byte is `buf[0]`
/// and whose low byte is `buf[1]`. It panics on a shorter buffer.
#[verifier::external_body]
fn be_read_u16(buf: &[u8]) -> (v: u16)
    requires
        buf@.len() >= 2,
    ensures
        v == be_u16(buf@, 0),
{
    BigEndian::read_u16(buf)
}

/// `byteorder::BigEndian::read_u32`: the number whose bytes, highest first,
/// are `buf[0]` to `buf[3]`. It panics on a shorter buffer.
#[verifier::external_body]
fn be_read_u32(buf: &[u8]) -> (v: u32)
    requires
        buf@.len() >= 4,
    ensures
        v == be_u32(buf@, 0),
{
    BigEndian::read_u32(buf)
}

/// `byteorder::BigEndian::read_i32`: the number whose two's complement has
/// the bytes `buf[0]` to `buf[3]`, highest first. It panics on a shorter
/// buffer.
#[verifier::external_body]
fn be_read_i32(buf: &[u8]) -> (v: i32)
    requires
        buf@.len() >= 4,
    ensures
        v == as_signed_32(be_u32(buf@, 0)),
{
    BigEndian::read_i32(buf)
}

/// `byteorder::BigEndian::write_u16` into a buffer of two bytes: the high
/// byte of `v`, then the low one.
#[verifier::external_body]
fn be_write_u16(v: u16) -> (b: [u8; 2])
    ensures
        b@ == u16_bytes(v),
{
    let mut b = [0u8; 2];
    BigEndian::write_u16(&mut b, v);
    b
}

/// `byteorder::BigEndian::write_u32` into a buffer of four bytes: the bytes
/// of `v`, highest first.
#[verifier::external_body]
fn be_write_u32(v: u32) -> (b: [u8; 4])
    ensures
        b@ == u32_bytes(v),
{
    let mut b = [0u8; 4];
    BigEndian::write_u32(&mut b, v);
    b
}

/// `byteorder::BigEndian::write_i32` into a buffer of four bytes: the bytes
/// of the two's complement of `v`, highest first.
#[verifier::external_body]
fn be_write_i32(v: i32) -> (b: [u8; 4])
    ensures
        b@ == i32_bytes(v),
{
    let mut b = [0u8; 4];
    BigEndian::write_i32(&mut b, v);
    b
}

/// Reads through a buffer of bytes from front to back.
pub struct ByteReader<'a> {
    data: &'a [u8],
    pos: usize,
}

impl<'a> ByteReader<'a> {
    #[verifier::type_invariant]
    spec fn in_bounds(&self) -> bool {
        self.pos <= self.data@.len()
    }

    /// All the bytes of the buffer.
    pub closed spec fn bytes(&self) -> Seq<u8> {
        self.data@
    }

    /// How many bytes have been read.
    pub closed spec fn position(&self) -> int {
        self.pos as int
    }

    /// A reader at the front of `data`.
    pub fn new(data: &'a [u8]) -> (r: Self)
        ensures
            r.bytes() == data@,
            r.position() == 0,
    {
        Self { data, pos: 0 }
    }

    pub fn pos(&self) -> (p: usize)
        ensures
            p == self.position(),
            p <= self.bytes().len(),
    {
        proof {
            use_type_invariant(self);
        }
        self.pos
    }

    /// The whole buffer, read or not.
    pub fn get_ref(&self) -> (d: &'a [u8])
        ensures
            d@ == self.bytes(),
    {
        self.data
    }

    /// The bytes that have not been read yet.
    pub fn rest(&self) -> (d: &'a [u8])
        ensures
            d@ == self.bytes().subrange(self.position(), self.bytes().len() as int),
    {
        proof {
            use_type_invariant(self);
        }
        slice_subrange(self.data, self.pos, self.data.len())
    }

    /// Moves on by `n` bytes without looking at them.
    pub fn skip(&mut self, n: usize)
        requires
            old(self).position() + n <= old(self).bytes().len(),
        ensures
            final(self).bytes() == old(self).bytes(),
            final(self).position() == old(self).position() + n,
    {
        proof {
            use_type_invariant(&*self);
        }
        let len: usize = self.data.len();
        assert(self.pos + n <= len);
        self.pos = self.pos + n;
    }

    pub fn read_u8(&mut self) -> (r: Result<u8, MapBlockError>)
        ensures
            final(self).bytes() == old(self).bytes(),
            match parse_u8(old(self).bytes(), old(self).position()) {
                Ok((v, p)) => r == Ok::<u8, MapBlockError>(v) && final(self).position() == p,
                Err(e) => r == Err::<u8, MapBlockError>(e),
            },
    {
        proof {
            use_type_invariant(&*self);
        }
        if self.data.len() - self.pos < 1 {
            Err(MapBlockError::BadData)
        } else {
            let v: u8 = self.data[self.pos];
            self.pos = self.pos + 1;
            Ok(v)
        }
    }

    pub fn read_u16(&mut self) -> (r: Result<u16, MapBlockError>)
        ensures
            final(self).bytes() == old(self).bytes(),
            match parse_u16(old(self).bytes(), old(self).position()) {
                Ok((v, p)) => r == Ok::<u16, MapBlockError>(v) && final(self).position() == p,
                Err(e) => r == Err::<u16, MapBlockError>(e),
            },
    {
        proof {
            use_type_invariant(&*self);
        }
        if self.data.len() - self.pos < 2 {
            Err(MapBlockError::BadData)
        } else {
            let v: u16 = be_read_u16(slice_subrange(self.data, self.pos, self.pos + 2));
            self.pos = self.pos + 2;
            Ok(v)
        }
    }

    pub fn read_u32(&mut self) -> (r: Result<u32, MapBlockError>)
        ensures
            final(self).bytes() == old(self).bytes(),
            match parse_u32(old(self).bytes(), old(self).position()) {
                Ok((v, p)) => r == Ok::<u32, MapBlockError>(v) && final(self).position() == p,
                Err(e) => r == Err::<u32, MapBlockError>(e),
            },
    {
        proof {
            use_type_invariant(&*self);
        }
        if self.data.len() - self.pos < 4 {
            Err(MapBlockError::BadData)
        } else {
            let v: u32 = be_read_u32(slice_subrange(self.data, self.pos, self.pos + 4));
            self.pos = self.pos + 4;
            Ok(v)
        }
    }

    pub fn read_i32(&mut self) -> (r: Result<i32, MapBlockError>)
        ensures
            final(self).bytes() == old(self).bytes(),
            match parse_i32(old(self).bytes(), old(self).position()) {
                Ok((v, p)) => r == Ok::<i32, MapBlockError>(v) && final(self).position() == p,
                Err(e) => r == Err::<i32, MapBlockError>(e),
            },
    {
        proof {
            use_type_invariant(&*self);
        }
        if self.data.len() - self.pos < 4 {
            Err(MapBlockError::BadData)
        } else {
            let v: i32 = be_read_i32(slice_subrange(self.data, self.pos, self.pos + 4));
            self.pos = self.pos + 4;
            Ok(v)
        }
    }
}

/// Returns the next `n` bytes of `src`, or `BadData` if fewer are left.
pub fn try_read_n(src: &mut ByteReader, n: usize) -> (r: Result<Vec<u8>, MapBlockError>)
    ensures
        final(src).bytes() == old(src).bytes(),
        match parse_bytes(old(src).bytes(), old(src).position(), n as int) {
            Ok((v, p)) => r matches Ok(got) && got@ == v && final(src).position() == p,
            Err(e) => r == Err::<Vec<u8>, MapBlockError>(e),
        },
{
    let start: usize = src.pos();
    let data = src.get_ref();
    if data.len() - start < n {
        Err(MapBlockError::BadData)
    } else {
        let bytes = slice_to_vec(slice_subrange(data, start, start + n));
        src.skip(n);
        Ok(bytes)
    }
}

/// Reads a byte string that stands behind its length in two bytes.
pub fn read_string16(src: &mut ByteReader) -> (r: Result<Vec<u8>, MapBlockError>)
    ensures
        final(src).bytes() == old(src).bytes(),
        match parse_string16(old(src).bytes(), old(src).position()) {
            Ok((v, p)) => r matches Ok(got) && got@ == v && final(src).position() == p,
            Err(e) => r == Err::<Vec<u8>, MapBlockError>(e),
        },
{
    match src.read_u16() {
        Ok(count) => try_read_n(src, count as usize),
        Err(e) => Err(e),
    }
}

/// Reads a byte string that stands behind its length in four bytes.
pub fn read_string32(src: &mut ByteReader) -> (r: Result<Vec<u8>, MapBlockError>)
    ensures
        final(src).bytes() == old(src).bytes(),
        match parse_string32(old(src).bytes(), old(src).position()) {
            Ok((v, p)) => r matches Ok(got) && got@ == v && final(src).position() == p,
            Err(e) => r == Err::<Vec<u8>, MapBlockError>(e),
        },
{
    match src.read_u32() {
        Ok(count) => try_read_n(src, count as usize),
        Err(e) => Err(e),
    }
}

pub fn write_u8(dst: &mut Vec<u8>, v: u8)
    ensures
        final(dst)@ == old(dst)@.push(v),
{
    dst.push(v);
}

pub fn write_u16(dst: &mut Vec<u8>, v: u16)
    ensures
        final(dst)@ == old(dst)@ + u16_bytes(v),
{
    let b = be_write_u16(v);
    dst.extend_from_slice(b.as_slice());
}

pub fn write_u32(dst: &mut Vec<u8>, v: u32)
    ensures
        final(dst)@ == old(dst)@ + u32_bytes(v),
{
    let b = be_write_u32(v);
    dst.extend_from_slice(b.as_slice());
}

pub fn write_i32(dst: &mut Vec<u8>, v: i32)
    ensures
        final(dst)@ == old(dst)@ + i32_bytes(v),
{
    let b = be_write_i32(v);
    dst.extend_from_slice(b.as_slice());
}

/// Writes `data` behind its length in two bytes.
pub fn write_string16(dst: &mut Vec<u8>, data: &[u8])
    requires
        data@.len() <= u16::MAX,
    ensures
        final(dst)@ == old(dst)@ + string16_bytes(data@),
{
    write_u16(dst, data.len() as u16);
    dst.extend_from_slice(data);
}

/// Writes `data` behind its length in four bytes.
pub fn write_string32(dst: &mut Vec<u8>, data: &[u8])
    requires
        data@.len() <= u32::MAX,
    ensures
        final(dst)@ == old(dst)@ + string32_bytes(data@),
{
    write_u32(dst, data.len() as u32);
    dst.extend_from_slice(data);
}

/// A number that was written in two bytes is read back.
pub proof fn lemma_u16_written_is_read(s: Seq<u8>, pos: int, v: u16)
    requires
        0 <= pos,
        pos + 2 <= s.len(),
        s.subrange(pos, pos + 2) == u16_bytes(v),
    ensures
        parse_u16(s, pos) == Ok::<(u16, int), MapBlockError>((v, pos + 2)),
{
    assert(s[pos] == s.subrange(pos, pos + 2)[0]);
    assert(s[pos + 1] == s.subrange(pos, pos + 2)[1]);
}

/// A number that was written in four bytes is read back.
pub proof fn lemma_u32_written_is_read(s: Seq<u8>, pos: int, v: u32)
    requires
        0 <= pos,
        pos + 4 <= s.len(),
        s.subrange(pos, pos + 4) == u32_bytes(v),
    ensures
        parse_u32(s, pos) == Ok::<(u32, int), MapBlockError>((v, pos + 4)),
{
    assert(s[pos] == s.subrange(pos, pos + 4)[0]);
    assert(s[pos + 1] == s.subrange(pos, pos + 4)[1]);
    assert(s[pos + 2] == s.subrange(pos, pos + 4)[2]);
    assert(s[pos + 3] == s.subrange(pos, pos + 4)[3]);
    let a = (v / 16777216) as int;
    let b = ((v / 65536) % 256) as int;
    let c = ((v / 256) % 256) as int;
    let d = (v % 256) as int;
    assert(v == a * 16777216 + b * 65536 + c * 256 + d);
}

/// A signed number that was written in four bytes is read back.
pub proof fn lemma_i32_written_is_read(s: Seq<u8>, pos: int, v: i32)
    requires
        0 <= pos,
        pos + 4 <= s.len(),
        s.subrange(pos, pos + 4) == i32_bytes(v),
    ensures
        parse_i32(s, pos) == Ok::<(i32, int), MapBlockError>((v, pos + 4)),
{
    let u: u32 = if v < 0 {
        (v + 0x1_0000_0000) as u32
    } else {
        v as u32
    };
    lemma_u32_written_is_read(s, pos, u);
}

/// A byte string that was written behind its length in two bytes is read
/// back, if it is short enough for that.
pub proof fn lemma_string16_written_is_read(s: Seq<u8>, pos: int, data: Seq<u8>)
    requires
        0 <= pos,
        data.len() <= u16::MAX,
        pos + 2 + data.len() <= s.len(),
        s.subrange(pos, pos + 2 + data.len()) == string16_bytes(data),
    ensures
        parse_string16(s, pos) == Ok::<(Seq<u8>, int), MapBlockError>(
            (data, pos + 2 + data.len()),
        ),
{
    let whole = s.subrange(pos, pos + 2 + data.len());
    assert(s.subrange(pos, pos + 2) =~= whole.subrange(0, 2));
    assert(whole.subrange(0, 2) =~= u16_bytes(data.len() as u16));
    lemma_u16_written_is_read(s, pos, data.len() as u16);
    assert(s.subrange(pos + 2, pos + 2 + data.len()) =~= whole.subrange(2, 2 + data.len() as int));
    assert(whole.subrange(2, 2 + data.len() as int) =~= data);
}

} // verus!
