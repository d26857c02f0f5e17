//! The per-file envelope: a magic prefix, the payload, a trailing CRC32.

use vstd::prelude::*;

use crate::codec::{copy_range, le_bytes, le_val, lemma_le_bytes_len, lemma_le_roundtrip,
    lemma_pow256_16, push_le_bytes, read_le_bytes};
use crate::error::Error;

verus! {

/// Relies on `crc32fast::hash`: the CRC32 of a byte run depends on the bytes
/// alone.
pub uninterp spec fn crc32_of(data: Seq<u8>) -> u32;

/// Relies on `crc32fast::hash` to compute the CRC32 checksum of `bytes`.
#[verifier::external_body]
pub fn crc32_hash(bytes: &[u8]) -> (r: u32)
    ensures
        r == crc32_of(bytes@),
{
    crc32fast::hash(bytes)
}

/// The magic prefix of a column data file, `THDATA`.
pub open spec fn magic_column() -> Seq<u8> {
    seq![84u8, 72u8, 68u8, 65u8, 84u8, 65u8]
}

/// The magic prefix of a part-info file, `THINDX`.
pub open spec fn magic_info() -> Seq<u8> {
    seq![84u8, 72u8, 73u8, 78u8, 68u8, 88u8]
}

/// The magic prefix of a table-metadata file, `THMETA`.
pub open spec fn magic_meta() -> Seq<u8> {
    seq![84u8, 72u8, 77u8, 69u8, 84u8, 65u8]
}

/// The `THDATA` magic bytes of a column file.
pub fn column_magic() -> (r: Vec<u8>)
    ensures
        r@ == magic_column(),
{
    let mut v: Vec<u8> = Vec::new();
    v.push(84);
    v.push(72);
    v.push(68);
    v.push(65);
    v.push(84);
    v.push(65);
    proof {
        assert(v@ =~= magic_column());
    }
    v
}

/// The `THINDX` magic bytes of a part-info file.
pub fn info_magic() -> (r: Vec<u8>)
    ensures
        r@ == magic_info(),
{
    let mut v: Vec<u8> = Vec::new();
    v.push(84);
    v.push(72);
    v.push(73);
    v.push(78);
    v.push(68);
    v.push(88);
    proof {
        assert(v@ =~= magic_info());
    }
    v
}

/// The `THMETA` magic bytes of a table-metadata file.
pub fn meta_magic() -> (r: Vec<u8>)
    ensures
        r@ == magic_meta(),
{
    let mut v: Vec<u8> = Vec::new();
    v.push(84);
    v.push(72);
    v.push(77);
    v.push(69);
    v.push(84);
    v.push(65);
    proof {
        assert(v@ =~= magic_meta());
    }
    v
}

/// A complete framed file: magic, payload, then the payload's CRC32,
/// little-endian.
pub open spec fn framed(magic: Seq<u8>, payload: Seq<u8>) -> Seq<u8> {
    magic + payload + le_bytes(crc32_of(payload) as nat, 4)
}

/// The payload recovered from a framed file, or `None` where the file is too
/// small, carries the wrong magic, or fails its checksum.
pub open spec fn unframed(magic: Seq<u8>, file: Seq<u8>) -> Option<Seq<u8>> {
    if file.len() <= magic.len() + 4 {
        None
    } else if file.take(magic.len() as int) != magic {
        None
    } else {
        let payload = file.subrange(magic.len() as int, file.len() - 4);
        if le_val(file.skip(file.len() - 4)) == crc32_of(payload) {
            Some(payload)
        } else {
            None
        }
    }
}

/// Frames a payload: magic, payload, trailing CRC32.
pub fn frame_bytes(magic: &[u8], payload: &[u8]) -> (r: Vec<u8>)
    ensures
        r@ == framed(magic@, payload@),
{
    let mut out = copy_range(magic, 0, magic.len());
    proof {
        assert(magic@.subrange(0, magic@.len() as int) =~= magic@);
    }
    let mut i: usize = 0;
    let ghost mid = out@;
    while i < payload.len()
        invariant
            i <= payload@.len(),
            out@ =~= mid + payload@.take(i as int),
        decreases payload@.len() - i,
    {
        out.push(payload[i]);
        proof {
            assert(out@ =~= mid + payload@.take(i + 1));
        }
        i += 1;
    }
    let crc = crc32_hash(payload);
    push_le_bytes(&mut out, crc as u128, 4);
    proof {
        assert(payload@.take(payload@.len() as int) =~= payload@);
        assert(out@ =~= framed(magic@, payload@));
    }
    out
}

/// Strips and checks the frame: verifies the magic prefix, then the CRC32 of
/// the payload, and hands the payload back.
pub fn unframe_bytes(magic: &[u8], file: &[u8]) -> (r: Result<Vec<u8>, Error>)
    ensures
        r matches Ok(p) ==> unframed(magic@, file@) == Some(p@),
        r matches Err(e) ==> unframed(magic@, file@) is None && e matches Error::CouldNotReadData(
            _,
        ),
{
    if file.len() < 5 || file.len() - 4 <= magic.len() {
        return Err(Error::CouldNotReadData("file too small".to_owned()));
    }
    let mut i: usize = 0;
    while i < magic.len()
        invariant
            i <= magic@.len() < file@.len(),
            forall|j: int| 0 <= j < i ==> file@[j] == magic@[j],
        decreases magic@.len() - i,
    {
        if file[i] != magic[i] {
            proof {
                assert(file@.take(magic@.len() as int)[i as int] != magic@[i as int]);
            }
            return Err(Error::CouldNotReadData("invalid magic bytes".to_owned()));
        }
        i += 1;
    }
    proof {
        assert(file@.take(magic@.len() as int) =~= magic@);
    }
    let payload = copy_range(file, magic.len(), file.len() - 4);
    let expected = read_le_bytes(file, file.len() - 4, 4);
    proof {
        assert(file@.skip(file@.len() - 4) =~= file@.subrange(file@.len() - 4, file@.len() as int));
        lemma_pow256_16();
        crate::codec::lemma_le_val_bound(file@.skip(file@.len() - 4));
    }
    let actual = crc32_hash(payload.as_slice());
    if expected == actual as u128 {
        Ok(payload)
    } else {
        Err(Error::CouldNotReadData("CRC mismatch".to_owned()))
    }
}

/// Round trip of the file frame: unframing a framed file yields the payload,
/// and the stored trailer is exactly the payload's CRC32.
pub proof fn lemma_unframe_frame(magic: Seq<u8>, payload: Seq<u8>)
    requires
        payload.len() > 0,
    ensures
        unframed(magic, framed(magic, payload)) == Some(payload),
        framed(magic, payload).skip(magic.len() + payload.len() as int) == le_bytes(
            crc32_of(payload) as nat,
            4,
        ),
{
    let file = framed(magic, payload);
    lemma_le_bytes_len(crc32_of(payload) as nat, 4);
    assert(file.len() == magic.len() + payload.len() + 4);
    assert(file.take(magic.len() as int) =~= magic);
    assert(file.subrange(magic.len() as int, file.len() - 4) =~= payload);
    assert(file.skip(file.len() - 4) =~= le_bytes(crc32_of(payload) as nat, 4));
    lemma_pow256_16();
    lemma_le_roundtrip(crc32_of(payload) as nat, 4);
    assert(file.skip(magic.len() + payload.len() as int) =~= le_bytes(
        crc32_of(payload) as nat,
        4,
    ));
}

} // verus!
