//! The compact binary archival format used for granules and sidecar files.
//!
//! Every number is little-endian; a string is a length-prefixed UTF-8 byte
//! run; a value is a one-byte tag followed by its payload; a vector of values
//! is a count followed by the encoded values.  The encoder and the decoder
//! are both specified as mathematical functions, and decoding an encoding is
//! proved to give the original back.

use vstd::prelude::*;

use crate::value::{Value, ValueV};

verus! {

/// 256 to the `n`-th power: the number of byte strings of length `n`.
pub open spec fn pow256(n: nat) -> nat
    decreases n,
{
    if n == 0 {
        1
    } else {
        256 * pow256((n - 1) as nat)
    }
}

/// The `n` little-endian bytes of `x`.
pub open spec fn le_bytes(x: nat, n: nat) -> Seq<u8>
    decreases n,
{
    if n == 0 {
        Seq::empty()
    } else {
        seq![(x % 256) as u8] + le_bytes(x / 256, (n - 1) as nat)
    }
}

/// The number read little-endian from a byte string.
pub open spec fn le_val(s: Seq<u8>) -> nat
    decreases s.len(),
{
    if s.len() == 0 {
        0
    } else {
        (s[0] + 256 * le_val(s.drop_first())) as nat
    }
}

pub proof fn lemma_le_bytes_len(x: nat, n: nat)
    ensures
        le_bytes(x, n).len() == n,
    decreases n,
{
    if n > 0 {
        lemma_le_bytes_len(x / 256, (n - 1) as nat);
    }
}

pub proof fn lemma_le_val_bound(s: Seq<u8>)
    ensures
        le_val(s) < pow256(s.len()),
    decreases s.len(),
{
    if s.len() > 0 {
        lemma_le_val_bound(s.drop_first());
    }
}

pub proof fn lemma_pow256_pos(n: nat)
    ensures
        pow256(n) >= 1,
    decreases n,
{
    if n > 0 {
        lemma_pow256_pos((n - 1) as nat);
    }
}

/// Reading the little-endian bytes of `x` gives `x` back.
pub proof fn lemma_le_roundtrip(x: nat, n: nat)
    requires
        x < pow256(n),
    ensures
        le_val(le_bytes(x, n)) == x,
    decreases n,
{
    if n == 0 {
    } else {
        let b = le_bytes(x, n);
        assert(b.drop_first() =~= le_bytes(x / 256, (n - 1) as nat));
        assert(x / 256 < pow256((n - 1) as nat)) by {
            lemma_pow256_pos((n - 1) as nat);
            assert(x < 256 * pow256((n - 1) as nat));
            assert(x / 256 < pow256((n - 1) as nat)) by (nonlinear_arith)
                requires
                    x < 256 * pow256((n - 1) as nat),
                    pow256((n - 1) as nat) >= 1,
            ;
        }
        lemma_le_roundtrip(x / 256, (n - 1) as nat);
        assert(x % 256 + 256 * (x / 256) == x) by (nonlinear_arith);
    }
}

pub proof fn lemma_pow256_16()
    ensures
        pow256(1) == 0x100,
        pow256(2) == 0x10000,
        pow256(4) == 0x100000000,
        pow256(8) == 0x10000000000000000,
        pow256(16) == 0x100000000000000000000000000000000,
{
    assert(pow256(0) == 1);
    assert(pow256(1) == 0x100);
    assert(pow256(2) == 0x10000);
    assert(pow256(3) == 0x1000000);
    assert(pow256(4) == 0x100000000);
    assert(pow256(5) == 0x10000000000);
    assert(pow256(6) == 0x1000000000000);
    assert(pow256(7) == 0x100000000000000);
    assert(pow256(8) == 0x10000000000000000);
    assert(pow256(9) == 0x1000000000000000000);
    assert(pow256(10) == 0x100000000000000000000);
    assert(pow256(11) == 0x10000000000000000000000);
    assert(pow256(12) == 0x1000000000000000000000000);
    assert(pow256(13) == 0x100000000000000000000000000);
    assert(pow256(14) == 0x10000000000000000000000000000);
    assert(pow256(15) == 0x1000000000000000000000000000000);
    assert(pow256(16) == 0x100000000000000000000000000000000);
}

/// Appends the `n` little-endian bytes of `x` to `out`.
pub fn push_le_bytes(out: &mut Vec<u8>, x: u128, n: usize)
    requires
        n <= 16,
    ensures
        final(out)@ == old(out)@ + le_bytes(x as nat, n as nat),
    decreases n,
{
    if n == 0 {
        assert(out@ =~= old(out)@ + le_bytes(x as nat, 0));
    } else {
        let b: u8 = (x % 256) as u8;
        out.push(b);
        push_le_bytes(out, x / 256, n - 1);
        assert(out@ =~= old(out)@ + le_bytes(x as nat, n as nat));
    }
}

/// Reads `n` little-endian bytes starting at `pos`.
pub fn read_le_bytes(bytes: &[u8], pos: usize, n: usize) -> (r: u128)
    requires
        pos + n <= bytes@.len(),
        n <= 16,
    ensures
        r as nat == le_val(bytes@.subrange(pos as int, pos + n)),
    decreases n,
{
    proof {
        lemma_pow256_16();
    }
    if n == 0 {
        assert(bytes@.subrange(pos as int, pos as int) =~= Seq::empty());
        0
    } else {
        let lo = bytes[pos];
        let rest = read_le_bytes(bytes, pos + 1, n - 1);
        proof {
            let s = bytes@.subrange(pos as int, pos + n);
            assert(s.drop_first() =~= bytes@.subrange(pos + 1, pos + 1 + (n - 1)));
            lemma_le_val_bound(bytes@.subrange(pos + 1, pos + 1 + (n - 1)));
            lemma_pow256_mono((n - 1) as nat, 15);
            assert(rest < pow256(15));
        }
        lo as u128 + 256 * rest
    }
}

pub proof fn lemma_pow256_mono(a: nat, b: nat)
    requires
        a <= b,
    ensures
        pow256(a) <= pow256(b),
    decreases b,
{
    if a < b && b > 0 {
        lemma_pow256_mono(a, (b - 1) as nat);
        lemma_pow256_pos((b - 1) as nat);
    }
}

/// Copies `bytes[start..end]` into a fresh vector.
pub fn copy_range(bytes: &[u8], start: usize, end: usize) -> (r: Vec<u8>)
    requires
        start <= end <= bytes@.len(),
    ensures
        r@ == bytes@.subrange(start as int, end as int),
{
    let mut out: Vec<u8> = Vec::new();
    let mut i: usize = start;
    while i < end
        invariant
            start <= i <= end <= bytes@.len(),
            out@ =~= bytes@.subrange(start as int, i as int),
        decreases end - i,
    {
        out.push(bytes[i]);
        proof {
            assert(out@ =~= bytes@.subrange(start as int, i + 1));
        }
        i += 1;
    }
    out
}

/// Relies on `String::from_utf8`: it succeeds exactly on valid UTF-8 and
/// decodes the bytes to their character sequence.
#[verifier::external_body]
pub fn string_from_utf8(bytes: Vec<u8>) -> (r: Option<String>)
    ensures
        r is Some <==> vstd::utf8::valid_utf8(bytes@),
        r matches Some(s) ==> s@ == vstd::utf8::decode_utf8(bytes@),
{
    String::from_utf8(bytes).ok()
}

/// The low eight bits of a signed byte, two's complement.
pub open spec fn i8_bits(x: i8) -> u8 {
    #[verifier::truncate] (x as u8)
}

/// The signed reading of a byte, two's complement.
pub open spec fn i8_from_bits(b: u8) -> i8 {
    #[verifier::truncate] (b as i8)
}

pub open spec fn i16_bits(x: i16) -> u16 {
    #[verifier::truncate] (x as u16)
}

pub open spec fn i16_from_bits(b: u16) -> i16 {
    #[verifier::truncate] (b as i16)
}

pub open spec fn i32_bits(x: i32) -> u32 {
    #[verifier::truncate] (x as u32)
}

pub open spec fn i32_from_bits(b: u32) -> i32 {
    #[verifier::truncate] (b as i32)
}

pub open spec fn i64_bits(x: i64) -> u64 {
    #[verifier::truncate] (x as u64)
}

pub open spec fn i64_from_bits(b: u64) -> i64 {
    #[verifier::truncate] (b as i64)
}

/// Whether a value fits the on-disk format: a string's UTF-8 encoding must
/// fit its eight-byte length prefix.
pub open spec fn val_encodable(v: ValueV) -> bool {
    match v {
        ValueV::Str(s) => vstd::utf8::encode_utf8(s).len() < pow256(8),
        _ => true,
    }
}

/// Every value of the run fits the on-disk format.
pub open spec fn vals_encodable(vs: Seq<ValueV>) -> bool {
    forall|i: int| 0 <= i < vs.len() ==> val_encodable(#[trigger] vs[i])
}

/// The encoding of one value: a tag byte and the payload.
pub open spec fn enc_value(v: ValueV) -> Seq<u8> {
    match v {
        ValueV::Null => seq![0u8],
        ValueV::Str(s) => {
            let b = vstd::utf8::encode_utf8(s);
            seq![1u8] + le_bytes(b.len(), 8) + b
        },
        ValueV::Uuid(u) => seq![2u8] + le_bytes(u as nat, 16),
        ValueV::Bool(b) => seq![3u8, (if b { 1u8 } else { 0u8 })],
        ValueV::Int8(x) => seq![4u8] + le_bytes(i8_bits(x) as nat, 1),
        ValueV::Int16(x) => seq![5u8] + le_bytes(i16_bits(x) as nat, 2),
        ValueV::Int32(x) => seq![6u8] + le_bytes(i32_bits(x) as nat, 4),
        ValueV::Int64(x) => seq![7u8] + le_bytes(i64_bits(x) as nat, 8),
        ValueV::UInt8(x) => seq![8u8] + le_bytes(x as nat, 1),
        ValueV::UInt16(x) => seq![9u8] + le_bytes(x as nat, 2),
        ValueV::UInt32(x) => seq![10u8] + le_bytes(x as nat, 4),
        ValueV::UInt64(x) => seq![11u8] + le_bytes(x as nat, 8),
    }
}

/// The decoding of the first value of `s`, with the number of bytes it took,
/// or `None` where `s` starts with no well-formed value.
pub open spec fn dec_value(s: Seq<u8>) -> Option<(ValueV, nat)> {
    if s.len() == 0 {
        None
    } else {
        let tag = s[0];
        let body = s.drop_first();
        if tag == 0 {
            Some((ValueV::Null, 1))
        } else if tag == 1 {
            if body.len() < 8 {
                None
            } else {
                let len = le_val(body.take(8));
                if body.len() < 8 + len {
                    None
                } else {
                    let sb = body.subrange(8, 8 + len as int);
                    if vstd::utf8::valid_utf8(sb) {
                        Some((ValueV::Str(vstd::utf8::decode_utf8(sb)), 9 + len))
                    } else {
                        None
                    }
                }
            }
        } else if tag == 2 {
            if body.len() < 16 {
                None
            } else {
                Some((ValueV::Uuid(le_val(body.take(16)) as u128), 17))
            }
        } else if tag == 3 {
            if body.len() < 1 {
                None
            } else if body[0] == 0 {
                Some((ValueV::Bool(false), 2))
            } else if body[0] == 1 {
                Some((ValueV::Bool(true), 2))
            } else {
                None
            }
        } else if tag == 4 {
            if body.len() < 1 {
                None
            } else {
                Some((ValueV::Int8(i8_from_bits(le_val(body.take(1)) as u8)), 2))
            }
        } else if tag == 5 {
            if body.len() < 2 {
                None
            } else {
                Some((ValueV::Int16(i16_from_bits(le_val(body.take(2)) as u16)), 3))
            }
        } else if tag == 6 {
            if body.len() < 4 {
                None
            } else {
                Some((ValueV::Int32(i32_from_bits(le_val(body.take(4)) as u32)), 5))
            }
        } else if tag == 7 {
            if body.len() < 8 {
                None
            } else {
                Some((ValueV::Int64(i64_from_bits(le_val(body.take(8)) as u64)), 9))
            }
        } else if tag == 8 {
            if body.len() < 1 {
                None
            } else {
                Some((ValueV::UInt8(le_val(body.take(1)) as u8), 2))
            }
        } else if tag == 9 {
            if body.len() < 2 {
                None
            } else {
                Some((ValueV::UInt16(le_val(body.take(2)) as u16), 3))
            }
        } else if tag == 10 {
            if body.len() < 4 {
                None
            } else {
                Some((ValueV::UInt32(le_val(body.take(4)) as u32), 5))
            }
        } else if tag == 11 {
            if body.len() < 8 {
                None
            } else {
                Some((ValueV::UInt64(le_val(body.take(8)) as u64), 9))
            }
        } else {
            None
        }
    }
}

/// The concatenated encodings of a run of values.
pub open spec fn enc_values_rec(vs: Seq<ValueV>) -> Seq<u8>
    decreases vs.len(),
{
    if vs.len() == 0 {
        Seq::empty()
    } else {
        enc_value(vs[0]) + enc_values_rec(vs.drop_first())
    }
}

/// The encoding of a vector of values: a count and the values themselves.
pub open spec fn enc_values(vs: Seq<ValueV>) -> Seq<u8> {
    le_bytes(vs.len(), 8) + enc_values_rec(vs)
}

/// Decodes `count` values from the front of `s`; `None` where `s` is not a
/// well-formed run of at least `count` values.
pub open spec fn dec_values_rec(s: Seq<u8>, count: nat) -> Option<(Seq<ValueV>, nat)>
    decreases count,
{
    if count == 0 {
        Some((Seq::empty(), 0))
    } else {
        match dec_value(s) {
            None => None,
            Some((v, used)) => match dec_values_rec(s.skip(used as int), (count - 1) as nat) {
                None => None,
                Some((rest, used_rest)) => Some((seq![v] + rest, used + used_rest)),
            },
        }
    }
}

/// Decodes a whole buffer as a vector of values; the buffer must be consumed
/// exactly.
pub open spec fn dec_values(s: Seq<u8>) -> Option<Seq<ValueV>> {
    if s.len() < 8 {
        None
    } else {
        let count = le_val(s.take(8));
        match dec_values_rec(s.skip(8), count) {
            None => None,
            Some((vs, used)) => if used + 8 == s.len() {
                Some(vs)
            } else {
                None
            },
        }
    }
}

proof fn lemma_cast_u8(x: i8)
    ensures
        i8_from_bits(i8_bits(x)) == x,
{
    assert((#[verifier::truncate] ((#[verifier::truncate] (x as u8)) as i8)) == x) by (bit_vector);
}

proof fn lemma_cast_u16(x: i16)
    ensures
        i16_from_bits(i16_bits(x)) == x,
{
    assert((#[verifier::truncate] ((#[verifier::truncate] (x as u16)) as i16)) == x) by (bit_vector);
}

proof fn lemma_cast_u32(x: i32)
    ensures
        i32_from_bits(i32_bits(x)) == x,
{
    assert((#[verifier::truncate] ((#[verifier::truncate] (x as u32)) as i32)) == x) by (bit_vector);
}

proof fn lemma_cast_u64(x: i64)
    ensures
        i64_from_bits(i64_bits(x)) == x,
{
    assert((#[verifier::truncate] ((#[verifier::truncate] (x as u64)) as i64)) == x) by (bit_vector);
}

/// Decoding the encoding of one value, with anything after it, gives the
/// value back and consumes exactly its encoding.
pub proof fn lemma_dec_enc_value(w: ValueV, rest: Seq<u8>)
    requires
        val_encodable(w),
    ensures
        dec_value(enc_value(w) + rest) == Some((w, enc_value(w).len())),
{
    let s = enc_value(w) + rest;
    let body = s.drop_first();
    match w {
        ValueV::Null => {
            assert(s[0] == 0);
        },
        ValueV::Str(str_chars) => {
            let b = vstd::utf8::encode_utf8(str_chars);
            lemma_le_bytes_len(b.len(), 8);
            assert(s[0] == 1);
            assert(body =~= le_bytes(b.len(), 8) + b + rest);
            assert(body.take(8) =~= le_bytes(b.len(), 8));
            lemma_le_roundtrip(b.len(), 8);
            assert(le_val(body.take(8)) == b.len());
            assert(body.subrange(8, 8 + b.len() as int) =~= b);
            vstd::utf8::encode_utf8_valid_utf8(str_chars);
            vstd::utf8::encode_utf8_decode_utf8(str_chars);
            assert(enc_value(w).len() == 9 + b.len());
        },
        ValueV::Uuid(u) => {
            lemma_le_bytes_len(u as nat, 16);
            assert(s[0] == 2);
            assert(body.take(16) =~= le_bytes(u as nat, 16));
            lemma_pow256_16();
            lemma_le_roundtrip(u as nat, 16);
        },
        ValueV::Bool(bv) => {
            assert(s[0] == 3);
            assert(body[0] == (if bv { 1u8 } else { 0u8 }));
        },
        ValueV::Int8(x) => {
            lemma_le_bytes_len(i8_bits(x) as nat, 1);
            assert(s[0] == 4);
            assert(body.take(1) =~= le_bytes(i8_bits(x) as nat, 1));
            lemma_pow256_16();
            lemma_le_roundtrip(i8_bits(x) as nat, 1);
            lemma_cast_u8(x);
        },
        ValueV::Int16(x) => {
            lemma_le_bytes_len(i16_bits(x) as nat, 2);
            assert(s[0] == 5);
            assert(body.take(2) =~= le_bytes(i16_bits(x) as nat, 2));
            lemma_pow256_16();
            lemma_le_roundtrip(i16_bits(x) as nat, 2);
            lemma_cast_u16(x);
        },
        ValueV::Int32(x) => {
            lemma_le_bytes_len(i32_bits(x) as nat, 4);
            assert(s[0] == 6);
            assert(body.take(4) =~= le_bytes(i32_bits(x) as nat, 4));
            lemma_pow256_16();
            lemma_le_roundtrip(i32_bits(x) as nat, 4);
            lemma_cast_u32(x);
        },
        ValueV::Int64(x) => {
            lemma_le_bytes_len(i64_bits(x) as nat, 8);
            assert(s[0] == 7);
            assert(body.take(8) =~= le_bytes(i64_bits(x) as nat, 8));
            lemma_pow256_16();
            lemma_le_roundtrip(i64_bits(x) as nat, 8);
            lemma_cast_u64(x);
        },
        ValueV::UInt8(x) => {
            lemma_le_bytes_len(x as nat, 1);
            assert(s[0] == 8);
            assert(body.take(1) =~= le_bytes(x as nat, 1));
            lemma_pow256_16();
            lemma_le_roundtrip(x as nat, 1);
        },
        ValueV::UInt16(x) => {
            lemma_le_bytes_len(x as nat, 2);
            assert(s[0] == 9);
            assert(body.take(2) =~= le_bytes(x as nat, 2));
            lemma_pow256_16();
            lemma_le_roundtrip(x as nat, 2);
        },
        ValueV::UInt32(x) => {
            lemma_le_bytes_len(x as nat, 4);
            assert(s[0] == 10);
            assert(body.take(4) =~= le_bytes(x as nat, 4));
            lemma_pow256_16();
            lemma_le_roundtrip(x as nat, 4);
        },
        ValueV::UInt64(x) => {
            lemma_le_bytes_len(x as nat, 8);
            assert(s[0] == 11);
            assert(body.take(8) =~= le_bytes(x as nat, 8));
            lemma_pow256_16();
            lemma_le_roundtrip(x as nat, 8);
        },
    }
}

/// Decoding the encoding of a run of values gives the run back.
pub proof fn lemma_dec_enc_values_rec(vs: Seq<ValueV>, rest: Seq<u8>)
    requires
        vals_encodable(vs),
    ensures
        dec_values_rec(enc_values_rec(vs) + rest, vs.len()) == Some(
            (vs, enc_values_rec(vs).len()),
        ),
    decreases vs.len(),
{
    if vs.len() == 0 {
        assert(dec_values_rec(enc_values_rec(vs) + rest, 0) == Some(
            (Seq::<ValueV>::empty(), 0nat),
        ));
        assert(vs =~= Seq::<ValueV>::empty());
    } else {
        let s = enc_values_rec(vs) + rest;
        assert(s =~= enc_value(vs[0]) + (enc_values_rec(vs.drop_first()) + rest));
        lemma_dec_enc_value(vs[0], enc_values_rec(vs.drop_first()) + rest);
        let used = enc_value(vs[0]).len();
        assert(s.skip(used as int) =~= enc_values_rec(vs.drop_first()) + rest);
        lemma_dec_enc_values_rec(vs.drop_first(), rest);
        assert(seq![vs[0]] + vs.drop_first() =~= vs);
    }
}

/// Round trip of the vector codec: decoding an encoding gives the original
/// values back.
pub proof fn lemma_dec_enc_values(vs: Seq<ValueV>)
    requires
        vals_encodable(vs),
        vs.len() < pow256(8),
    ensures
        dec_values(enc_values(vs)) == Some(vs),
{
    let s = enc_values(vs);
    lemma_le_bytes_len(vs.len(), 8);
    assert(s.take(8) =~= le_bytes(vs.len(), 8));
    lemma_le_roundtrip(vs.len(), 8);
    assert(s.skip(8) =~= enc_values_rec(vs) + Seq::<u8>::empty());
    lemma_dec_enc_values_rec(vs, Seq::empty());
    assert(enc_values_rec(vs) + Seq::<u8>::empty() =~= enc_values_rec(vs));
    assert(dec_values_rec(s.skip(8), vs.len()) == Some((vs, enc_values_rec(vs).len())));
}

/// `enc_values_rec` grows one encoded value at a time.
pub proof fn lemma_enc_values_rec_push(vs: Seq<ValueV>, x: ValueV)
    ensures
        enc_values_rec(vs.push(x)) == enc_values_rec(vs) + enc_value(x),
    decreases vs.len(),
{
    if vs.len() == 0 {
        assert(vs.push(x)[0] == x);
        assert(vs.push(x).drop_first() =~= Seq::<ValueV>::empty());
        assert(enc_values_rec(vs.push(x)) == enc_value(x) + enc_values_rec(
            Seq::<ValueV>::empty(),
        ));
        assert(enc_value(x) + Seq::<u8>::empty() =~= enc_value(x));
        assert(enc_values_rec(vs) + enc_value(x) =~= enc_value(x));
    } else {
        assert(vs.push(x).drop_first() =~= vs.drop_first().push(x));
        lemma_enc_values_rec_push(vs.drop_first(), x);
        assert(enc_values_rec(vs.push(x)) =~= enc_values_rec(vs) + enc_value(x));
    }
}

/// Appends the encoding of one value to `out`.
pub fn push_value(out: &mut Vec<u8>, v: &Value)
    ensures
        final(out)@ == old(out)@ + enc_value(v@),
        val_encodable(v@),
{
    proof {
        lemma_pow256_16();
    }
    match v {
        Value::Null => {
            out.push(0u8);
            assert(out@ =~= old(out)@ + enc_value(v@));
        },
        Value::String(s) => {
            let b = s.as_str().as_bytes_vec();
            out.push(1u8);
            push_le_bytes(out, b.len() as u128, 8);
            let mut i: usize = 0;
            let ghost mid = out@;
            while i < b.len()
                invariant
                    out@ =~= mid + b@.take(i as int),
                    i <= b@.len(),
                decreases b@.len() - i,
            {
                out.push(b[i]);
                proof {
                    assert(out@ =~= mid + b@.take(i + 1));
                }
                i += 1;
            }
            proof {
                assert(b@.take(b@.len() as int) =~= b@);
                assert(out@ =~= old(out)@ + enc_value(v@));
            }
        },
        Value::Uuid(u) => {
            out.push(2u8);
            push_le_bytes(out, *u, 16);
            assert(out@ =~= old(out)@ + enc_value(v@));
        },
        Value::Bool(bv) => {
            out.push(3u8);
            out.push(if *bv { 1u8 } else { 0u8 });
            assert(out@ =~= old(out)@ + enc_value(v@));
        },
        Value::Int8(x) => {
            out.push(4u8);
            push_le_bytes(out, (#[verifier::truncate] (*x as u8)) as u128, 1);
            assert(out@ =~= old(out)@ + enc_value(v@));
        },
        Value::Int16(x) => {
            out.push(5u8);
            push_le_bytes(out, (#[verifier::truncate] (*x as u16)) as u128, 2);
            assert(out@ =~= old(out)@ + enc_value(v@));
        },
        Value::Int32(x) => {
            out.push(6u8);
            push_le_bytes(out, (#[verifier::truncate] (*x as u32)) as u128, 4);
            assert(out@ =~= old(out)@ + enc_value(v@));
        },
        Value::Int64(x) => {
            out.push(7u8);
            push_le_bytes(out, (#[verifier::truncate] (*x as u64)) as u128, 8);
            assert(out@ =~= old(out)@ + enc_value(v@));
        },
        Value::UInt8(x) => {
            out.push(8u8);
            push_le_bytes(out, *x as u128, 1);
            assert(out@ =~= old(out)@ + enc_value(v@));
        },
        Value::UInt16(x) => {
            out.push(9u8);
            push_le_bytes(out, *x as u128, 2);
            assert(out@ =~= old(out)@ + enc_value(v@));
        },
        Value::UInt32(x) => {
            out.push(10u8);
            push_le_bytes(out, *x as u128, 4);
            assert(out@ =~= old(out)@ + enc_value(v@));
        },
        Value::UInt64(x) => {
            out.push(11u8);
            push_le_bytes(out, *x as u128, 8);
            assert(out@ =~= old(out)@ + enc_value(v@));
        },
    }
}

/// Reads one encoded value starting at `pos`; mirrors [`dec_value`].
pub fn read_value(bytes: &[u8], pos: usize) -> (r: Option<(Value, usize)>)
    requires
        pos <= bytes@.len(),
    ensures
        match r {
            Some((v, next)) => dec_value(bytes@.skip(pos as int)) == Some(
                (v@, (next - pos) as nat),
            ) && pos < next <= bytes@.len(),
            None => dec_value(bytes@.skip(pos as int)) is None,
        },
{
    let ghost s = bytes@.skip(pos as int);
    if pos >= bytes.len() {
        return None;
    }
    let tag = bytes[pos];
    let remaining = bytes.len() - pos - 1;
    proof {
        assert(s[0] == bytes@[pos as int]);
        assert(s.drop_first() =~= bytes@.skip(pos + 1));
        assert(s.drop_first().len() == remaining);
        lemma_pow256_16();
    }
    let ghost body = s.drop_first();
    if tag == 0 {
        Some((Value::Null, pos + 1))
    } else if tag == 1 {
        if remaining < 8 {
            return None;
        }
        let len128 = read_le_bytes(bytes, pos + 1, 8);
        proof {
            assert(body.take(8) =~= bytes@.subrange(pos + 1, pos + 9));
            lemma_le_val_bound(bytes@.subrange(pos + 1, pos + 9));
        }
        if len128 > (remaining - 8) as u128 {
            proof {
                assert(body.len() < 8 + le_val(body.take(8)));
            }
            return None;
        }
        let len = len128 as usize;
        let sb = copy_range(bytes, pos + 9, pos + 9 + len);
        proof {
            assert(sb@ =~= body.subrange(8, 8 + le_val(body.take(8)) as int));
        }
        match string_from_utf8(sb) {
            None => None,
            Some(st) => {
                let v = Value::String(st);
                Some((v, pos + 9 + len))
            },
        }
    } else if tag == 2 {
        if remaining < 16 {
            return None;
        }
        let u = read_le_bytes(bytes, pos + 1, 16);
        proof {
            assert(body.take(16) =~= bytes@.subrange(pos + 1, pos + 17));
            lemma_le_val_bound(bytes@.subrange(pos + 1, pos + 17));
        }
        Some((Value::Uuid(u), pos + 17))
    } else if tag == 3 {
        if remaining < 1 {
            return None;
        }
        let b = bytes[pos + 1];
        proof {
            assert(body[0] == bytes@[pos + 1]);
        }
        if b == 0 {
            Some((Value::Bool(false), pos + 2))
        } else if b == 1 {
            Some((Value::Bool(true), pos + 2))
        } else {
            None
        }
    } else if tag == 4 {
        if remaining < 1 {
            return None;
        }
        let b = bytes[pos + 1];
        proof {
            assert(body.take(1) =~= seq![bytes@[pos + 1]]);
            assert(seq![b].drop_first() =~= Seq::<u8>::empty());
            assert(le_val(Seq::<u8>::empty()) == 0);
            assert(le_val(seq![b]) == b);
        }
        Some((Value::Int8(#[verifier::truncate] (b as i8)), pos + 2))
    } else if tag == 5 {
        if remaining < 2 {
            return None;
        }
        let u = read_le_bytes(bytes, pos + 1, 2);
        proof {
            assert(body.take(2) =~= bytes@.subrange(pos + 1, pos + 3));
            lemma_le_val_bound(bytes@.subrange(pos + 1, pos + 3));
        }
        Some((Value::Int16(#[verifier::truncate] ((u as u16) as i16)), pos + 3))
    } else if tag == 6 {
        if remaining < 4 {
            return None;
        }
        let u = read_le_bytes(bytes, pos + 1, 4);
        proof {
            assert(body.take(4) =~= bytes@.subrange(pos + 1, pos + 5));
            lemma_le_val_bound(bytes@.subrange(pos + 1, pos + 5));
        }
        Some((Value::Int32(#[verifier::truncate] ((u as u32) as i32)), pos + 5))
    } else if tag == 7 {
        if remaining < 8 {
            return None;
        }
        let u = read_le_bytes(bytes, pos + 1, 8);
        proof {
            assert(body.take(8) =~= bytes@.subrange(pos + 1, pos + 9));
            lemma_le_val_bound(bytes@.subrange(pos + 1, pos + 9));
        }
        Some((Value::Int64(#[verifier::truncate] ((u as u64) as i64)), pos + 9))
    } else if tag == 8 {
        if remaining < 1 {
            return None;
        }
        let b = bytes[pos + 1];
        proof {
            assert(body.take(1) =~= seq![bytes@[pos + 1]]);
            assert(seq![b].drop_first() =~= Seq::<u8>::empty());
            assert(le_val(Seq::<u8>::empty()) == 0);
            assert(le_val(seq![b]) == b);
        }
        Some((Value::UInt8(b), pos + 2))
    } else if tag == 9 {
        if remaining < 2 {
            return None;
        }
        let u = read_le_bytes(bytes, pos + 1, 2);
        proof {
            assert(body.take(2) =~= bytes@.subrange(pos + 1, pos + 3));
            lemma_le_val_bound(bytes@.subrange(pos + 1, pos + 3));
        }
        Some((Value::UInt16(u as u16), pos + 3))
    } else if tag == 10 {
        if remaining < 4 {
            return None;
        }
        let u = read_le_bytes(bytes, pos + 1, 4);
        proof {
            assert(body.take(4) =~= bytes@.subrange(pos + 1, pos + 5));
            lemma_le_val_bound(bytes@.subrange(pos + 1, pos + 5));
        }
        Some((Value::UInt32(u as u32), pos + 5))
    } else if tag == 11 {
        if remaining < 8 {
            return None;
        }
        let u = read_le_bytes(bytes, pos + 1, 8);
        proof {
            assert(body.take(8) =~= bytes@.subrange(pos + 1, pos + 9));
            lemma_le_val_bound(bytes@.subrange(pos + 1, pos + 9));
        }
        Some((Value::UInt64(u as u64), pos + 9))
    } else {
        None
    }
}

/// Serializes a vector of values: count first, then each value.
pub fn serialize_values(vals: &Vec<Value>) -> (r: Vec<u8>)
    ensures
        r@ == enc_values(vals.deep_view()),
        vals_encodable(vals.deep_view()),
        vals.deep_view().len() < pow256(8),
{
    proof {
        lemma_pow256_16();
    }
    let mut out: Vec<u8> = Vec::new();
    push_le_bytes(&mut out, vals.len() as u128, 8);
    let mut i: usize = 0;
    proof {
        assert(vals.deep_view().take(0) =~= Seq::<ValueV>::empty());
        assert(out@ =~= le_bytes(vals@.len() as nat, 8) + enc_values_rec(vals.deep_view().take(0)));
    }
    while i < vals.len()
        invariant
            i <= vals@.len(),
            vals.deep_view().len() == vals@.len(),
            out@ =~= le_bytes(vals@.len() as nat, 8) + enc_values_rec(vals.deep_view().take(i as int)),
            forall|j: int| 0 <= j < i ==> val_encodable(#[trigger] vals.deep_view()[j]),
        decreases vals@.len() - i,
    {
        push_value(&mut out, &vals[i]);
        proof {
            assert(vals.deep_view()[i as int] == vals@[i as int]@);
            assert(vals.deep_view().take(i + 1) =~= vals.deep_view().take(i as int).push(
                vals.deep_view()[i as int],
            ));
            lemma_enc_values_rec_push(vals.deep_view().take(i as int), vals.deep_view()[i as int]);
            assert(out@ =~= le_bytes(vals@.len() as nat, 8) + enc_values_rec(
                vals.deep_view().take(i + 1),
            ));
        }
        i += 1;
    }
    proof {
        assert(vals.deep_view().take(vals@.len() as int) =~= vals.deep_view());
    }
    out
}

/// Parses a whole buffer as a vector of values; mirrors [`dec_values`].
pub fn deserialize_values(bytes: &[u8]) -> (r: Option<Vec<Value>>)
    ensures
        match r {
            Some(v) => dec_values(bytes@) == Some(v.deep_view()),
            None => dec_values(bytes@) is None,
        },
{
    if bytes.len() < 8 {
        return None;
    }
    let count = read_le_bytes(bytes, 0, 8);
    proof {
        assert(bytes@.take(8) =~= bytes@.subrange(0, 8));
    }
    let ghost total: nat = count as nat;
    let mut acc: Vec<Value> = Vec::new();
    let mut pos: usize = 8;
    let mut i: u128 = 0;
    while i < count
        invariant
            8 <= pos <= bytes@.len(),
            i <= count,
            count as nat == le_val(bytes@.take(8)),
            acc.deep_view().len() == i,
            ({
                match dec_values_rec(bytes@.skip(pos as int), (count - i) as nat) {
                    None => dec_values_rec(bytes@.skip(8), count as nat) is None,
                    Some((rem, used)) => dec_values_rec(bytes@.skip(8), count as nat) == Some(
                        (acc.deep_view() + rem, ((pos - 8) + used) as nat),
                    ),
                }
            }),
        decreases count - i,
    {
        match read_value(bytes, pos) {
            None => {
                proof {
                    assert(dec_values_rec(bytes@.skip(pos as int), (count - i) as nat) is None);
                }
                return None;
            },
            Some((v, next)) => {
                proof {
                    let used0: nat = (next - pos) as nat;
                    assert(bytes@.skip(pos as int).skip(used0 as int) =~= bytes@.skip(next as int));
                }
                acc.push(v);
                pos = next;
            },
        }
        i += 1;
        proof {
            let c_rem = (count - i) as nat;
            match dec_values_rec(bytes@.skip(pos as int), c_rem) {
                None => {},
                Some((rem, used)) => {
                    assert(acc.deep_view() + rem =~= acc.deep_view().drop_last() + (seq![
                        acc.deep_view().last(),
                    ] + rem));
                },
            }
        }
    }
    proof {
        assert(dec_values_rec(bytes@.skip(pos as int), 0) == Some((Seq::<ValueV>::empty(), 0nat)));
        assert(acc.deep_view() + Seq::<ValueV>::empty() =~= acc.deep_view());
    }
    if pos != bytes.len() {
        return None;
    }
    Some(acc)
}

} // verus!
