//! The framed binary format shared by the schema, metadata, and row payload
//! codecs: little-endian 64-bit lengths and scalars, length-delimited byte
//! strings, UTF-8 strings, and single-byte booleans.

use vstd::bytes::{spec_u64_from_le_bytes, spec_u64_to_le_bytes};
use vstd::prelude::*;
use vstd::utf8::{decode_utf8, encode_utf8, valid_utf8};

verus! {

/// True when a ghost length fits the 64-bit length field of the format.
pub open spec fn fits_u64(n: nat) -> bool {
    n < 0x10000000000000000
}

// ---------------------------------------------------------------------------
// ghost encoders
// ---------------------------------------------------------------------------

/// A 64-bit unsigned scalar: 8 bytes, little endian.
pub open spec fn enc_u64(x: u64) -> Seq<u8> {
    spec_u64_to_le_bytes(x)
}

/// A 64-bit signed scalar: its two's-complement bits, little endian.
pub open spec fn enc_i64(x: i64) -> Seq<u8> {
    enc_u64(x as u64)
}

/// A boolean: one byte, 0 or 1.
pub open spec fn enc_bool(x: bool) -> Seq<u8> {
    seq![if x { 1u8 } else { 0u8 }]
}

/// A byte string: its length, then its bytes.
pub open spec fn enc_bytes(b: Seq<u8>) -> Seq<u8> {
    enc_u64(b.len() as u64) + b
}

/// A string: its UTF-8 encoding as a byte string.
pub open spec fn enc_str(s: Seq<char>) -> Seq<u8> {
    enc_bytes(encode_utf8(s))
}

// ---------------------------------------------------------------------------
// ghost decoders: each reads at a position and yields the value and the
// position after it, or nothing when the input does not parse
// ---------------------------------------------------------------------------

pub open spec fn dec_u64(b: Seq<u8>, i: int) -> Option<(u64, int)> {
    if 0 <= i && i + 8 <= b.len() {
        Some((spec_u64_from_le_bytes(b.subrange(i, i + 8)), i + 8))
    } else {
        None
    }
}

pub open spec fn dec_i64(b: Seq<u8>, i: int) -> Option<(i64, int)> {
    match dec_u64(b, i) {
        Some((x, j)) => Some((x as i64, j)),
        None => None,
    }
}

pub open spec fn dec_bool(b: Seq<u8>, i: int) -> Option<(bool, int)> {
    if 0 <= i && i < b.len() && (b[i] == 0 || b[i] == 1) {
        Some((b[i] == 1, i + 1))
    } else {
        None
    }
}

pub open spec fn dec_bytes(b: Seq<u8>, i: int) -> Option<(Seq<u8>, int)> {
    match dec_u64(b, i) {
        Some((n, j)) => if j + n <= b.len() {
            Some((b.subrange(j, j + n), j + n))
        } else {
            None
        },
        None => None,
    }
}

pub open spec fn dec_str(b: Seq<u8>, i: int) -> Option<(Seq<char>, int)> {
    match dec_bytes(b, i) {
        Some((bs, j)) => if valid_utf8(bs) {
            Some((decode_utf8(bs), j))
        } else {
            None
        },
        None => None,
    }
}

// ---------------------------------------------------------------------------
// decoding what was encoded
// ---------------------------------------------------------------------------

/// The length of an encoded scalar.
pub proof fn lemma_enc_u64_len(x: u64)
    ensures
        enc_u64(x).len() == 8,
{
    vstd::bytes::lemma_auto_spec_u64_to_from_le_bytes();
}

pub proof fn lemma_dec_enc_u64(b: Seq<u8>, i: int, x: u64)
    requires
        0 <= i,
        i + 8 <= b.len(),
        b.subrange(i, i + 8) == enc_u64(x),
    ensures
        dec_u64(b, i) == Some((x, i + 8)),
{
    vstd::bytes::lemma_auto_spec_u64_to_from_le_bytes();
}

pub proof fn lemma_dec_enc_i64(b: Seq<u8>, i: int, x: i64)
    requires
        0 <= i,
        i + 8 <= b.len(),
        b.subrange(i, i + 8) == enc_i64(x),
    ensures
        dec_i64(b, i) == Some((x, i + 8)),
{
    lemma_dec_enc_u64(b, i, x as u64);
    assert(((x as u64) as i64) == x) by (bit_vector);
}

pub proof fn lemma_dec_enc_bool(b: Seq<u8>, i: int, x: bool)
    requires
        0 <= i,
        i + 1 <= b.len(),
        b.subrange(i, i + 1) == enc_bool(x),
    ensures
        dec_bool(b, i) == Some((x, i + 1)),
{
    assert(b[i] == enc_bool(x)[0]);
}

pub proof fn lemma_dec_enc_bytes(b: Seq<u8>, i: int, v: Seq<u8>)
    requires
        0 <= i,
        fits_u64(v.len()),
        i + enc_bytes(v).len() <= b.len(),
        b.subrange(i, i + enc_bytes(v).len()) == enc_bytes(v),
    ensures
        dec_bytes(b, i) == Some((v, i + enc_bytes(v).len())),
{
    lemma_enc_u64_len(v.len() as u64);
    let e = enc_bytes(v);
    assert(e.len() == 8 + v.len());
    assert(b.subrange(i, i + 8) =~= e.subrange(0, 8));
    assert(e.subrange(0, 8) =~= enc_u64(v.len() as u64));
    lemma_dec_enc_u64(b, i, v.len() as u64);
    assert(b.subrange(i + 8, i + 8 + v.len() as int) =~= e.subrange(8, 8 + v.len() as int));
    assert(e.subrange(8, 8 + v.len() as int) =~= v);
}

pub proof fn lemma_dec_enc_str(b: Seq<u8>, i: int, s: Seq<char>)
    requires
        0 <= i,
        fits_u64(encode_utf8(s).len()),
        i + enc_str(s).len() <= b.len(),
        b.subrange(i, i + enc_str(s).len()) == enc_str(s),
    ensures
        dec_str(b, i) == Some((s, i + enc_str(s).len())),
{
    broadcast use vstd::utf8::encode_utf8_valid_utf8, vstd::utf8::encode_utf8_decode_utf8;

    lemma_dec_enc_bytes(b, i, encode_utf8(s));
}

/// Splitting a slice of the input that holds two encodings back into the
/// two encodings.
pub proof fn lemma_subrange_split(b: Seq<u8>, i: int, e1: Seq<u8>, e2: Seq<u8>)
    requires
        0 <= i,
        i + e1.len() + e2.len() <= b.len(),
        b.subrange(i, i + e1.len() + e2.len()) == e1 + e2,
    ensures
        b.subrange(i, i + e1.len() as int) == e1,
        b.subrange(i + e1.len() as int, i + e1.len() + e2.len()) == e2,
{
    assert(b.subrange(i, i + e1.len() as int) =~= (e1 + e2).subrange(0, e1.len() as int));
    assert((e1 + e2).subrange(0, e1.len() as int) =~= e1);
    assert(b.subrange(i + e1.len() as int, i + e1.len() + e2.len()) =~= (e1 + e2).subrange(
        e1.len() as int,
        e1.len() as int + e2.len() as int,
    ));
    assert((e1 + e2).subrange(e1.len() as int, e1.len() as int + e2.len() as int) =~= e2);
}

/// Reassociating segments a writer appends one after the other into the
/// nested shape of the segment encoders.
pub proof fn lemma_concat_assoc2<T>(o: Seq<T>, e1: Seq<T>, e2: Seq<T>)
    ensures
        (o + e1) + e2 == o + (e1 + e2),
{
    assert((o + e1) + e2 =~= o + (e1 + e2));
}

pub proof fn lemma_concat_assoc5<T>(o: Seq<T>, e1: Seq<T>, e2: Seq<T>, e3: Seq<T>, e4: Seq<T>, e5: Seq<T>)
    ensures
        ((((o + e1) + e2) + e3) + e4) + e5 == o + (e1 + (e2 + (e3 + (e4 + e5)))),
{
    assert(((((o + e1) + e2) + e3) + e4) + e5 =~= o + (e1 + (e2 + (e3 + (e4 + e5)))));
}

pub proof fn lemma_concat_assoc6<T>(
    o: Seq<T>,
    e1: Seq<T>,
    e2: Seq<T>,
    e3: Seq<T>,
    e4: Seq<T>,
    e5: Seq<T>,
    e6: Seq<T>,
)
    ensures
        (((((o + e1) + e2) + e3) + e4) + e5) + e6 == o + (e1 + (e2 + (e3 + (e4 + (e5 + e6))))),
{
    assert((((((o + e1) + e2) + e3) + e4) + e5) + e6 =~= o + (e1 + (e2 + (e3 + (e4 + (e5
        + e6))))));
}

// ---------------------------------------------------------------------------
// executable writers
// ---------------------------------------------------------------------------

pub fn write_u64(out: &mut Vec<u8>, x: u64)
    ensures
        final(out)@ == old(out)@ + enc_u64(x),
{
    let mut bs = vstd::bytes::u64_to_le_bytes(x);
    out.append(&mut bs);
}

pub fn write_i64(out: &mut Vec<u8>, x: i64)
    ensures
        final(out)@ == old(out)@ + enc_i64(x),
{
    write_u64(out, x as u64);
}

pub fn write_bool(out: &mut Vec<u8>, x: bool)
    ensures
        final(out)@ == old(out)@ + enc_bool(x),
{
    let ghost prev = out@;
    if x {
        out.push(1);
    } else {
        out.push(0);
    }
    proof {
        assert(out@ =~= prev + enc_bool(x));
    }
}

pub fn write_bytes(out: &mut Vec<u8>, v: &[u8])
    requires
        v@.len() < 0x10000000000000000,
    ensures
        final(out)@ == old(out)@ + enc_bytes(v@),
{
    let n = v.len();
    write_u64(out, n as u64);
    let mut copy = vstd::slice::slice_to_vec(v);
    out.append(&mut copy);
    proof {
        assert(out@ =~= old(out)@ + enc_bytes(v@));
    }
}

pub fn write_str(out: &mut Vec<u8>, s: &str)
    ensures
        final(out)@ == old(out)@ + enc_str(s@),
{
    let bs = s.as_bytes_vec();
    // the UTF-8 encoding sits in a byte vector, so its length is a usize and
    // fits the 64-bit length field
    let n = bs.len();
    proof {
        assert(n < 0x10000000000000000);
    }
    write_bytes(out, bs.as_slice());
}

// ---------------------------------------------------------------------------
// executable readers
// ---------------------------------------------------------------------------

pub fn read_u64(b: &[u8], i: usize) -> (r: Option<(u64, usize)>)
    ensures
        match r {
            Some((x, j)) => dec_u64(b@, i as int) == Some((x, j as int)),
            None => dec_u64(b@, i as int) is None,
        },
{
    if i <= b.len() && b.len() - i >= 8 {
        let s = vstd::slice::slice_subrange(b, i, i + 8);
        let x = vstd::bytes::u64_from_le_bytes(s);
        Some((x, i + 8))
    } else {
        None
    }
}

pub fn read_i64(b: &[u8], i: usize) -> (r: Option<(i64, usize)>)
    ensures
        match r {
            Some((x, j)) => dec_i64(b@, i as int) == Some((x, j as int)),
            None => dec_i64(b@, i as int) is None,
        },
{
    match read_u64(b, i) {
        Some((x, j)) => Some((x as i64, j)),
        None => None,
    }
}

pub fn read_bool(b: &[u8], i: usize) -> (r: Option<(bool, usize)>)
    ensures
        match r {
            Some((x, j)) => dec_bool(b@, i as int) == Some((x, j as int)),
            None => dec_bool(b@, i as int) is None,
        },
{
    if i < b.len() {
        let v = *vstd::slice::slice_index_get(b, i);
        if v == 0 {
            Some((false, i + 1))
        } else if v == 1 {
            Some((true, i + 1))
        } else {
            None
        }
    } else {
        None
    }
}

pub fn read_bytes(b: &[u8], i: usize) -> (r: Option<(Vec<u8>, usize)>)
    ensures
        match r {
            Some((v, j)) => dec_bytes(b@, i as int) == Some((v@, j as int)),
            None => dec_bytes(b@, i as int) is None,
        },
{
    match read_u64(b, i) {
        Some((n, j)) => {
            if n <= (b.len() - j) as u64 {
                let nn = n as usize;
                let s = vstd::slice::slice_subrange(b, j, j + nn);
                Some((vstd::slice::slice_to_vec(s), j + nn))
            } else {
                None
            }
        },
        None => None,
    }
}

pub fn read_str(b: &[u8], i: usize) -> (r: Option<(String, usize)>)
    ensures
        match r {
            Some((s, j)) => dec_str(b@, i as int) == Some((s@, j as int)),
            None => dec_str(b@, i as int) is None,
        },
{
    match read_bytes(b, i) {
        Some((bs, j)) => match string_from_utf8(bs) {
            Some(s) => Some((s, j)),
            None => None,
        },
        None => None,
    }
}

/// Relies on `String::from_utf8`: it returns, exactly for byte vectors that
/// are well-formed UTF-8, the string whose characters are the decoded
/// scalars of those bytes.
#[verifier::external_body]
fn string_from_utf8(bytes: Vec<u8>) -> (r: Option<String>)
    ensures
        match r {
            Some(s) => valid_utf8(bytes@) && s@ == decode_utf8(bytes@),
            None => !valid_utf8(bytes@),
        },
{
    match String::from_utf8(bytes) {
        Ok(s) => Some(s),
        Err(_) => None,
    }
}

} // verus!
