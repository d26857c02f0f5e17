//! Granule compression: LZ4 around the archival encoding, or nothing.

use vstd::prelude::*;

use crate::error::Error;
use crate::value::ValueType;

verus! {

/// How the bytes of one granule are compressed on disk.
#[derive(Clone, Copy, PartialEq, Eq, Structural, Debug)]
pub enum CompressionType {
    Uncompressed,
    LZ4(u8),
}

impl Default for CompressionType {
    /// The default codec: LZ4 at level 3.
    fn default() -> (r: Self)
        ensures
            r == CompressionType::LZ4(3u8),
    {
        CompressionType::LZ4(3)
    }
}

impl ValueType {
    /// The preferred codec for a column of this type.
    pub fn get_optimal_compression(&self) -> (r: CompressionType)
        ensures
            r == CompressionType::LZ4(3u8),
    {
        CompressionType::LZ4(3)
    }
}

/// Relies on `lz4::EncoderBuilder` and `lz4::Encoder`: the LZ4 frame written
/// for given bytes at a given level depends on them alone.
pub uninterp spec fn lz4_compressed(data: Seq<u8>, level: u8) -> Seq<u8>;

/// Relies on `lz4::Decoder`: what an LZ4 frame decodes to depends on its
/// bytes alone; `None` stands for a frame the decoder rejects.
pub uninterp spec fn lz4_decompressed(data: Seq<u8>) -> Option<Seq<u8>>;

/// Relies on lz4's `EncoderBuilder` and `Encoder` writing to an in-memory
/// buffer: writing to a `Vec` cannot fail, building the compression context
/// fails only on allocation failure (treated as fatal, as every allocation
/// is), and the finished frame is never empty (it carries at least its
/// header and end mark) and, LZ4 being lossless, decodes back to the
/// original bytes.
#[verifier::external_body]
fn lz4_compress(bytes: &[u8], level: u8) -> (r: Vec<u8>)
    ensures
        r@ == lz4_compressed(bytes@, level),
        lz4_decompressed(r@) == Some(bytes@),
        r@.len() > 0,
{
    let mut encoder = lz4::EncoderBuilder::new().level(u32::from(level)).build(
        Vec::new(),
    ).expect("could not allocate an LZ4 compression context");
    std::io::Write::write_all(&mut encoder, bytes).expect("writing to a Vec cannot fail");
    let (out, result) = encoder.finish();
    result.expect("finishing an LZ4 frame in a Vec cannot fail");
    out
}

/// Relies on lz4's `Decoder` reading from an in-memory buffer: what a frame
/// decodes to depends on its bytes alone.
#[verifier::external_body]
fn lz4_decompress(bytes: &[u8]) -> (r: Option<Vec<u8>>)
    ensures
        r matches Some(d) ==> lz4_decompressed(bytes@) == Some(d@),
        r is None ==> lz4_decompressed(bytes@) is None,
{
    let mut decoder = lz4::Decoder::new(bytes).ok()?;
    let mut out = Vec::new();
    std::io::Read::read_to_end(&mut decoder, &mut out).ok()?;
    Some(out)
}

/// The bytes stored for `data` under codec `ct`.
pub open spec fn compressed(data: Seq<u8>, ct: CompressionType) -> Seq<u8> {
    match ct {
        CompressionType::Uncompressed => data,
        CompressionType::LZ4(level) => lz4_compressed(data, level),
    }
}

/// The bytes recovered from `data` under codec `ct`; the level plays no part
/// in decoding.
pub open spec fn decompressed(data: Seq<u8>, ct: CompressionType) -> Option<Seq<u8>> {
    match ct {
        CompressionType::Uncompressed => Some(data),
        CompressionType::LZ4(_) => lz4_decompressed(data),
    }
}

/// Compresses bytes using the specified compression type.  Compression into
/// memory always succeeds; the `Result` is kept for the callers' shape.
pub fn compress_bytes(bytes: &[u8], compression_type: &CompressionType) -> (r: Result<
    Vec<u8>,
    Error,
>)
    ensures
        r is Ok,
        r matches Ok(c) ==> c@ == compressed(bytes@, *compression_type) && decompressed(
            c@,
            *compression_type,
        ) == Some(bytes@),
        r matches Ok(c) ==> (bytes@.len() > 0 ==> c@.len() > 0),
{
    match compression_type {
        CompressionType::LZ4(level) => Ok(lz4_compress(bytes, *level)),
        CompressionType::Uncompressed => {
            let c = crate::codec::copy_range(bytes, 0, bytes.len());
            proof {
                assert(bytes@.subrange(0, bytes@.len() as int) =~= bytes@);
            }
            Ok(c)
        },
    }
}

/// Decompresses bytes using the specified compression type.  Together with
/// the contract of [`compress_bytes`] this gives the round trip: what was
/// compressed decompresses back to the original bytes.
pub fn decompress_bytes(compressed_bytes: &[u8], compression_type: &CompressionType) -> (r: Result<
    Vec<u8>,
    Error,
>)
    ensures
        r matches Ok(d) ==> decompressed(compressed_bytes@, *compression_type) == Some(d@),
        r is Err <==> decompressed(compressed_bytes@, *compression_type) is None,
        r matches Err(e) ==> e is CouldNotReadData,
{
    match compression_type {
        CompressionType::LZ4(_) => match lz4_decompress(compressed_bytes) {
            Some(d) => Ok(d),
            None => Err(Error::CouldNotReadData("Failed to decompress LZ4 data".to_owned())),
        },
        CompressionType::Uncompressed => {
            let d = crate::codec::copy_range(compressed_bytes, 0, compressed_bytes.len());
            proof {
                assert(compressed_bytes@.subrange(0, compressed_bytes@.len() as int)
                    =~= compressed_bytes@);
            }
            Ok(d)
        },
    }
}

} // verus!
