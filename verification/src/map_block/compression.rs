use flate2::Compression;
use flate2::read::ZlibDecoder;
use flate2::write::ZlibEncoder;
use std::io::Read;
use std::io::Write;
use vstd::prelude::*;

verus! {

/// What a zlib decoder makes of a buffer that it reads from the front: the
/// bytes that it hands out until it ends, and how many bytes of the
/// buffer it has taken by then; `None` where it reports an error.
pub uninterp spec fn zlib_inflate(input: Seq<u8>) -> Option<(Seq<u8>, nat)>;

/// The zlib stream that the encoder makes of `data` at its default level;
/// `None` where it reports an error.
pub uninterp spec fn zlib_deflate(data: Seq<u8>) -> Option<Seq<u8>>;

/// What the zstd decoder makes of the whole of `input`; `None` where it
/// reports an error.
pub uninterp spec fn zstd_decode(input: Seq<u8>) -> Option<Seq<u8>>;

/// The zstd frame that the encoder makes of `data` at its default level;
/// `None` where it reports an error.
pub uninterp spec fn zstd_encode(data: Seq<u8>) -> Option<Seq<u8>>;

/// The first byte that a streaming zstd decoder hands out for `input`;
/// `None` where it reports an error before it has one.
pub uninterp spec fn zstd_first_byte(input: Seq<u8>) -> Option<u8>;

/// `flate2::read::ZlibDecoder`, read to its end over `src`, then asked for
/// `total_in`: the unpacked bytes and the number of bytes of `src` that the
/// stream took, which is no more than `src` holds. `None` stands for an
/// error of the decoder.
#[verifier::external_body]
pub(crate) fn zlib_decompress(src: &[u8]) -> (r: Option<(Vec<u8>, usize)>)
    ensures
        match r {
            Some((out, used)) => zlib_inflate(src@) == Some((out@, used as nat)) && used
                <= src@.len(),
            None => zlib_inflate(src@) is None,
        },
{
    let mut decoder = ZlibDecoder::new(src);
    let mut out = Vec::new();
    match decoder.read_to_end(&mut out) {
        Ok(_) => Some((out, decoder.total_in() as usize)),
        Err(_) => None,
    }
}

/// `flate2::write::ZlibEncoder` at `Compression::default()`, given all of
/// `data` and then finished. `None` stands for an error of the encoder.
#[verifier::external_body]
pub(crate) fn zlib_compress(data: &[u8]) -> (r: Option<Vec<u8>>)
    ensures
        match r {
            Some(out) => zlib_deflate(data@) == Some(out@),
            None => zlib_deflate(data@) is None,
        },
{
    let mut encoder = ZlibEncoder::new(Vec::new(), Compression::default());
    match encoder.write_all(data) {
        Ok(_) => encoder.finish().ok(),
        Err(_) => None,
    }
}

/// `zstd::stream::decode_all` over `src`. `None` stands for an error of the
/// decoder.
#[verifier::external_body]
pub(crate) fn zstd_decompress(src: &[u8]) -> (r: Option<Vec<u8>>)
    ensures
        match r {
            Some(out) => zstd_decode(src@) == Some(out@),
            None => zstd_decode(src@) is None,
        },
{
    zstd::stream::decode_all(src).ok()
}

/// `zstd::stream::encode_all` over `data` at level 0, which selects the
/// default level. `None` stands for an error of the encoder.
#[verifier::external_body]
pub(crate) fn zstd_compress(data: &[u8]) -> (r: Option<Vec<u8>>)
    ensures
        match r {
            Some(out) => zstd_encode(data@) == Some(out@),
            None => zstd_encode(data@) is None,
        },
{
    zstd::stream::encode_all(data, 0).ok()
}

/// `zstd::stream::Decoder` over `src`, asked for exactly one byte. `None`
/// stands for an error in making the decoder or in reading the byte.
#[verifier::external_body]
pub(crate) fn zstd_peek(src: &[u8]) -> (r: Option<u8>)
    ensures
        r == zstd_first_byte(src@),
{
    let mut decoder = zstd::stream::Decoder::new(src).ok()?;
    let mut byte = [0u8; 1];
    decoder.read_exact(&mut byte).ok()?;
    Some(byte[0])
}

/// A value next to the zlib stream that it was read from. The stream is
/// kept for as long as the value is not changed, so that writing the value
/// back gives the bytes that were read.
#[derive(Clone, Debug)]
pub struct ZlibContainer<T> {
    compressed: Option<Vec<u8>>,
    data: T,
}

impl<T> ZlibContainer<T> {
    /// The value.
    pub closed spec fn value(&self) -> T {
        self.data
    }

    /// The stream that the value was read from, if it is still kept.
    pub closed spec fn frame(&self) -> Option<Seq<u8>> {
        match self.compressed {
            Some(c) => Some(c@),
            None => None,
        }
    }

    /// A value that was not read from a stream.
    pub fn new(data: T) -> (r: Self)
        ensures
            r.value() == data,
            r.frame() is None,
    {
        Self { compressed: None, data }
    }

    /// A value and the stream that it was read from.
    pub(crate) fn with_frame(data: T, compressed: Vec<u8>) -> (r: Self)
        ensures
            r.value() == data,
            r.frame() == Some(compressed@),
    {
        Self { compressed: Some(compressed), data }
    }

    /// Gives up the value and the stream that is kept with it.
    pub fn into_parts(self) -> (r: (T, Option<Vec<u8>>))
        ensures
            r.0 == self.value(),
            match r.1 {
                Some(c) => self.frame() == Some(c@),
                None => self.frame() is None,
            },
    {
        (self.data, self.compressed)
    }

    /// A value and the stream that is kept with it, if any.
    pub(crate) fn from_parts(data: T, compressed: Option<Vec<u8>>) -> (r: Self)
        ensures
            r.value() == data,
            match compressed {
                Some(c) => r.frame() == Some(c@),
                None => r.frame() is None,
            },
    {
        Self { compressed, data }
    }

    /// Gives the value up, without its stream.
    pub fn into_inner(self) -> (r: T)
        ensures
            r == self.value(),
    {
        self.data
    }

    pub fn get_ref(&self) -> (r: &T)
        ensures
            *r == self.value(),
    {
        &self.data
    }

    /// The kept stream, for writing the value back unchanged.
    pub fn cached(&self) -> (r: Option<&Vec<u8>>)
        ensures
            match r {
                Some(c) => self.frame() == Some(c@),
                None => self.frame() is None,
            },
    {
        self.compressed.as_ref()
    }

    /// Gives the value out for changing, and forgets the stream.
    pub fn get_mut(&mut self) -> (r: &mut T)
        ensures
            *r == old(self).value(),
            final(self).value() == *final(r),
            final(self).frame() is None,
    {
        self.compressed = None;
        &mut self.data
    }
}

} // verus!
