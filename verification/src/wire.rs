//! Little-endian wire encoding of the fixed-width integers and of
//! length-prefixed byte strings, with exact specifications and
//! round-trip lemmas. All protocol messages are laid out with these
//! primitives.

use vstd::prelude::*;

verus! {

// ---------------------------------------------------------------------------
// Specification: encoders
// ---------------------------------------------------------------------------

/// Little-endian image of a `u16`.
#[verifier::opaque]
pub open spec fn enc_u16(v: u16) -> Seq<u8> {
    seq![(v & 0xff) as u8, ((v >> 8) & 0xff) as u8]
}

/// Little-endian image of a `u32`.
#[verifier::opaque]
pub open spec fn enc_u32(v: u32) -> Seq<u8> {
    seq![
        (v & 0xff) as u8,
        ((v >> 8) & 0xff) as u8,
        ((v >> 16) & 0xff) as u8,
        ((v >> 24) & 0xff) as u8,
    ]
}

/// Little-endian image of a `u64`.
#[verifier::opaque]
pub open spec fn enc_u64(v: u64) -> Seq<u8> {
    seq![
        (v & 0xff) as u8,
        ((v >> 8) & 0xff) as u8,
        ((v >> 16) & 0xff) as u8,
        ((v >> 24) & 0xff) as u8,
        ((v >> 32) & 0xff) as u8,
        ((v >> 40) & 0xff) as u8,
        ((v >> 48) & 0xff) as u8,
        ((v >> 56) & 0xff) as u8,
    ]
}

/// The image of a `u16` is two bytes long.
pub broadcast proof fn lemma_enc_u16_len(v: u16)
    ensures
        (#[trigger] enc_u16(v)).len() == 2,
{
    reveal(enc_u16);
}

/// The image of a `u32` is four bytes long.
pub broadcast proof fn lemma_enc_u32_len(v: u32)
    ensures
        (#[trigger] enc_u32(v)).len() == 4,
{
    reveal(enc_u32);
}

/// The image of a `u64` is eight bytes long.
pub broadcast proof fn lemma_enc_u64_len(v: u64)
    ensures
        (#[trigger] enc_u64(v)).len() == 8,
{
    reveal(enc_u64);
}

/// A byte string, prefixed with its length as a `u64`.
pub open spec fn enc_bytes(b: Seq<u8>) -> Seq<u8> {
    enc_u64(b.len() as u64) + b
}

// ---------------------------------------------------------------------------
// Specification: decoders
// ---------------------------------------------------------------------------

/// The `u16` whose little-endian image is the two-byte string `b`.
#[verifier::opaque]
pub open spec fn dec_u16_val(b: Seq<u8>) -> u16 {
    (b[0] as u16) | ((b[1] as u16) << 8)
}

/// The `u32` whose little-endian image is the four-byte string `b`.
#[verifier::opaque]
pub open spec fn dec_u32_val(b: Seq<u8>) -> u32 {
    (b[0] as u32) | ((b[1] as u32) << 8) | ((b[2] as u32) << 16) | ((b[3] as u32) << 24)
}

/// The `u64` whose little-endian image is the eight-byte string `b`.
#[verifier::opaque]
pub open spec fn dec_u64_val(b: Seq<u8>) -> u64 {
    (b[0] as u64) | ((b[1] as u64) << 8) | ((b[2] as u64) << 16) | ((b[3] as u64) << 24)
        | ((b[4] as u64) << 32) | ((b[5] as u64) << 40) | ((b[6] as u64) << 48)
        | ((b[7] as u64) << 56)
}

pub open spec fn dec_u16(s: Seq<u8>, i: int) -> Option<(u16, int)> {
    if 0 <= i && i + 2 <= s.len() {
        Some((dec_u16_val(s.subrange(i, i + 2)), i + 2))
    } else {
        None
    }
}

pub open spec fn dec_u32(s: Seq<u8>, i: int) -> Option<(u32, int)> {
    if 0 <= i && i + 4 <= s.len() {
        Some((dec_u32_val(s.subrange(i, i + 4)), i + 4))
    } else {
        None
    }
}

pub open spec fn dec_u64(s: Seq<u8>, i: int) -> Option<(u64, int)> {
    if 0 <= i && i + 8 <= s.len() {
        Some((dec_u64_val(s.subrange(i, i + 8)), i + 8))
    } else {
        None
    }
}

/// Decodes a length-prefixed byte string.
pub open spec fn dec_bytes(s: Seq<u8>, i: int) -> Option<(Seq<u8>, int)> {
    match dec_u64(s, i) {
        Some((n, j)) => if j + n <= s.len() {
            Some((s.subrange(j, j + n), j + n))
        } else {
            None
        },
        None => None,
    }
}

// ---------------------------------------------------------------------------
// Round-trip lemmas
// ---------------------------------------------------------------------------

pub proof fn lemma_enc_u16_round(v: u16)
    ensures
        dec_u16_val(enc_u16(v)) == v,
{
    reveal(enc_u16);
    reveal(dec_u16_val);
    assert((((v & 0xff) as u8) as u16) | (((((v >> 8) & 0xff) as u8) as u16) << 8) == v)
        by (bit_vector);
}

pub proof fn lemma_enc_u32_round(v: u32)
    ensures
        dec_u32_val(enc_u32(v)) == v,
{
    reveal(enc_u32);
    reveal(dec_u32_val);
    assert((((v & 0xff) as u8) as u32) | (((((v >> 8) & 0xff) as u8) as u32) << 8)
        | (((((v >> 16) & 0xff) as u8) as u32) << 16) | (((((v >> 24) & 0xff) as u8) as u32) << 24)
        == v) by (bit_vector);
}

pub proof fn lemma_enc_u64_round(v: u64)
    ensures
        dec_u64_val(enc_u64(v)) == v,
{
    reveal(enc_u64);
    reveal(dec_u64_val);
    assert((((v & 0xff) as u8) as u64) | (((((v >> 8) & 0xff) as u8) as u64) << 8)
        | (((((v >> 16) & 0xff) as u8) as u64) << 16) | (((((v >> 24) & 0xff) as u8) as u64) << 24)
        | (((((v >> 32) & 0xff) as u8) as u64) << 32) | (((((v >> 40) & 0xff) as u8) as u64) << 40)
        | (((((v >> 48) & 0xff) as u8) as u64) << 48) | (((((v >> 56) & 0xff) as u8) as u64) << 56)
        == v) by (bit_vector);
}

/// When the suffix of `s` at `i` starts with `a`, the bytes of `a` stand at
/// `i`, and what follows them is exactly `rest`.
pub proof fn lemma_prefix_subrange(s: Seq<u8>, i: int, a: Seq<u8>, rest: Seq<u8>)
    requires
        0 <= i <= s.len(),
        s.subrange(i, s.len() as int) == a + rest,
    ensures
        i + a.len() + rest.len() == s.len(),
        s.subrange(i, i + a.len()) == a,
        s.subrange(i + a.len(), s.len() as int) == rest,
{
    let t = s.subrange(i, s.len() as int);
    assert(t.len() == (a + rest).len());
    assert forall|k: int| 0 <= k < a.len() implies s.subrange(i, i + a.len())[k] == a[k] by {
        assert(t[k] == s[i + k]);
        assert(t[k] == (a + rest)[k]);
    }
    assert(s.subrange(i, i + a.len()) =~= a);
    assert forall|k: int| 0 <= k < rest.len() implies s.subrange(
        i + a.len(),
        s.len() as int,
    )[k] == rest[k] by {
        assert(t[a.len() + k] == s[i + a.len() + k]);
        assert(t[a.len() + k] == (a + rest)[a.len() + k]);
    }
    assert(s.subrange(i + a.len(), s.len() as int) =~= rest);
}

/// Decoding a `u16` from the position where one was encoded yields it back.
pub proof fn lemma_dec_u16_round(s: Seq<u8>, i: int, v: u16, rest: Seq<u8>)
    requires
        0 <= i <= s.len(),
        s.subrange(i, s.len() as int) == enc_u16(v) + rest,
    ensures
        dec_u16(s, i) == Some((v, i + 2)),
{
    lemma_enc_u16_len(v);
    lemma_prefix_subrange(s, i, enc_u16(v), rest);
    lemma_enc_u16_round(v);
}

/// Decoding a `u32` from the position where one was encoded yields it back.
pub proof fn lemma_dec_u32_round(s: Seq<u8>, i: int, v: u32, rest: Seq<u8>)
    requires
        0 <= i <= s.len(),
        s.subrange(i, s.len() as int) == enc_u32(v) + rest,
    ensures
        dec_u32(s, i) == Some((v, i + 4)),
{
    lemma_enc_u32_len(v);
    lemma_prefix_subrange(s, i, enc_u32(v), rest);
    lemma_enc_u32_round(v);
}

/// Decoding a `u64` from the position where one was encoded yields it back.
pub proof fn lemma_dec_u64_round(s: Seq<u8>, i: int, v: u64, rest: Seq<u8>)
    requires
        0 <= i <= s.len(),
        s.subrange(i, s.len() as int) == enc_u64(v) + rest,
    ensures
        dec_u64(s, i) == Some((v, i + 8)),
        s.subrange(i + 8, s.len() as int) == rest,
{
    lemma_enc_u64_len(v);
    lemma_prefix_subrange(s, i, enc_u64(v), rest);
    lemma_enc_u64_round(v);
}

/// Decoding a byte string from the position where one was encoded yields it back.
pub proof fn lemma_dec_bytes_round(s: Seq<u8>, i: int, b: Seq<u8>, rest: Seq<u8>)
    requires
        0 <= i <= s.len(),
        s.subrange(i, s.len() as int) == enc_bytes(b) + rest,
        b.len() <= u64::MAX,
    ensures
        dec_bytes(s, i) == Some((b, i + 8 + b.len())),
        s.subrange(i + 8 + b.len(), s.len() as int) == rest,
{
    let n = b.len() as u64;
    lemma_enc_u64_len(n);
    assert(enc_bytes(b) + rest =~= enc_u64(n) + (b + rest));
    lemma_dec_u64_round(s, i, n, b + rest);
    lemma_prefix_subrange(s, i, enc_u64(n), b + rest);
    lemma_prefix_subrange(s, i + 8, b, rest);
}

// ---------------------------------------------------------------------------
// Executable encoders
// ---------------------------------------------------------------------------

/// Appends the little-endian image of `v`.
pub fn write_u16(out: &mut Vec<u8>, v: u16)
    ensures
        final(out)@ == old(out)@ + enc_u16(v),
{
    proof {
        reveal(enc_u16);
    }
    out.push((v & 0xff) as u8);
    out.push(((v >> 8) & 0xff) as u8);
    assert(out@ =~= old(out)@ + enc_u16(v));
}

/// Appends the little-endian image of `v`.
pub fn write_u32(out: &mut Vec<u8>, v: u32)
    ensures
        final(out)@ == old(out)@ + enc_u32(v),
{
    proof {
        reveal(enc_u32);
    }
    out.push((v & 0xff) as u8);
    out.push(((v >> 8) & 0xff) as u8);
    out.push(((v >> 16) & 0xff) as u8);
    out.push(((v >> 24) & 0xff) as u8);
    assert(out@ =~= old(out)@ + enc_u32(v));
}

/// Appends the little-endian image of `v`.
pub fn write_u64(out: &mut Vec<u8>, v: u64)
    ensures
        final(out)@ == old(out)@ + enc_u64(v),
{
    proof {
        reveal(enc_u64);
    }
    out.push((v & 0xff) as u8);
    out.push(((v >> 8) & 0xff) as u8);
    out.push(((v >> 16) & 0xff) as u8);
    out.push(((v >> 24) & 0xff) as u8);
    out.push(((v >> 32) & 0xff) as u8);
    out.push(((v >> 40) & 0xff) as u8);
    out.push(((v >> 48) & 0xff) as u8);
    out.push(((v >> 56) & 0xff) as u8);
    assert(out@ =~= old(out)@ + enc_u64(v));
}

/// Appends `b`, prefixed with its length.
pub fn write_bytes(out: &mut Vec<u8>, b: &Vec<u8>)
    ensures
        final(out)@ == old(out)@ + enc_bytes(b@),
        b@.len() <= u64::MAX,
{
    write_u64(out, b.len() as u64);
    let mut k: usize = 0;
    while k < b.len()
        invariant
            k <= b@.len(),
            out@ == old(out)@ + enc_u64(b@.len() as u64) + b@.subrange(0, k as int),
        decreases b@.len() - k,
    {
        out.push(b[k]);
        assert(out@ =~= old(out)@ + enc_u64(b@.len() as u64) + b@.subrange(0, k + 1 as int));
        k = k + 1;
    }
    assert(b@.subrange(0, b@.len() as int) =~= b@);
    assert(out@ =~= old(out)@ + enc_bytes(b@));
}

// ---------------------------------------------------------------------------
// Executable decoders
// ---------------------------------------------------------------------------

/// Reads a `u16` at position `i`.
pub fn read_u16(buf: &Vec<u8>, i: usize) -> (r: Option<(u16, usize)>)
    ensures
        match r {
            Some((v, j)) => dec_u16(buf@, i as int) == Some((v, j as int)),
            None => dec_u16(buf@, i as int) is None,
        },
{
    if buf.len() >= 2 && i <= buf.len() - 2 {
        let v: u16 = (buf[i] as u16) | ((buf[i + 1] as u16) << 8);
        proof {
            reveal(dec_u16_val);
            let b = buf@.subrange(i as int, i as int + 2);
            assert(b[0] == buf@[i as int] && b[1] == buf@[i as int + 1]);
        }
        Some((v, i + 2))
    } else {
        None
    }
}

/// Reads a `u32` at position `i`.
pub fn read_u32(buf: &Vec<u8>, i: usize) -> (r: Option<(u32, usize)>)
    ensures
        match r {
            Some((v, j)) => dec_u32(buf@, i as int) == Some((v, j as int)),
            None => dec_u32(buf@, i as int) is None,
        },
{
    if buf.len() >= 4 && i <= buf.len() - 4 {
        let v: u32 = (buf[i] as u32) | ((buf[i + 1] as u32) << 8) | ((buf[i + 2] as u32) << 16)
            | ((buf[i + 3] as u32) << 24);
        proof {
            reveal(dec_u32_val);
            let b = buf@.subrange(i as int, i as int + 4);
            assert(forall|k: int| 0 <= k < 4 ==> b[k] == buf@[i + k]);
        }
        Some((v, i + 4))
    } else {
        None
    }
}

/// Reads a `u64` at position `i`.
pub fn read_u64(buf: &Vec<u8>, i: usize) -> (r: Option<(u64, usize)>)
    ensures
        match r {
            Some((v, j)) => dec_u64(buf@, i as int) == Some((v, j as int)),
            None => dec_u64(buf@, i as int) is None,
        },
{
    if buf.len() >= 8 && i <= buf.len() - 8 {
        let v: u64 = (buf[i] as u64) | ((buf[i + 1] as u64) << 8) | ((buf[i + 2] as u64) << 16)
            | ((buf[i + 3] as u64) << 24) | ((buf[i + 4] as u64) << 32)
            | ((buf[i + 5] as u64) << 40) | ((buf[i + 6] as u64) << 48)
            | ((buf[i + 7] as u64) << 56);
        proof {
            reveal(dec_u64_val);
            let b = buf@.subrange(i as int, i as int + 8);
            assert(forall|k: int| 0 <= k < 8 ==> b[k] == buf@[i + k]);
        }
        Some((v, i + 8))
    } else {
        None
    }
}

/// Reads a length-prefixed byte string at position `i`.
pub fn read_bytes(buf: &Vec<u8>, i: usize) -> (r: Option<(Vec<u8>, usize)>)
    ensures
        match r {
            Some((b, j)) => dec_bytes(buf@, i as int) == Some((b@, j as int)),
            None => dec_bytes(buf@, i as int) is None,
        },
{
    match read_u64(buf, i) {
        Some((n, j)) => {
            if n <= (buf.len() - j) as u64 {
                let end: usize = j + (n as usize);
                let mut b: Vec<u8> = Vec::new();
                let mut k: usize = j;
                while k < end
                    invariant
                        j <= k <= end <= buf@.len(),
                        b@ == buf@.subrange(j as int, k as int),
                    decreases end - k,
                {
                    b.push(buf[k]);
                    assert(b@ =~= buf@.subrange(j as int, k + 1 as int));
                    k = k + 1;
                }
                Some((b, end))
            } else {
                None
            }
        },
        None => None,
    }
}

// ---------------------------------------------------------------------------
// Byte-vector utilities
// ---------------------------------------------------------------------------

/// Compares two byte vectors for equality of contents.
pub fn bytes_eq(a: &Vec<u8>, b: &Vec<u8>) -> (r: bool)
    ensures
        r == (a@ == b@),
{
    if a.len() != b.len() {
        return false;
    }
    let mut k: usize = 0;
    while k < a.len()
        invariant
            k <= a@.len(),
            a@.len() == b@.len(),
            forall|j: int| 0 <= j < k ==> a@[j] == b@[j],
        decreases a@.len() - k,
    {
        if a[k] != b[k] {
            return false;
        }
        k = k + 1;
    }
    proof {
        assert(a@ =~= b@);
    }
    true
}

/// Copies a byte vector.
pub fn clone_bytes(v: &Vec<u8>) -> (r: Vec<u8>)
    ensures
        r@ == v@,
{
    let mut out: Vec<u8> = Vec::new();
    let mut k: usize = 0;
    while k < v.len()
        invariant
            k <= v@.len(),
            out@ == v@.subrange(0, k as int),
        decreases v@.len() - k,
    {
        out.push(v[k]);
        assert(out@ =~= v@.subrange(0, k + 1 as int));
        k = k + 1;
    }
    assert(v@.subrange(0, v@.len() as int) =~= v@);
    out
}

/// Copies a byte slice into a vector.
pub fn slice_to_vec(s: &[u8]) -> (r: Vec<u8>)
    ensures
        r@ == s@,
{
    let mut out: Vec<u8> = Vec::new();
    let mut k: usize = 0;
    while k < s.len()
        invariant
            k <= s@.len(),
            out@ == s@.subrange(0, k as int),
        decreases s@.len() - k,
    {
        out.push(s[k]);
        assert(out@ =~= s@.subrange(0, k + 1 as int));
        k = k + 1;
    }
    assert(s@.subrange(0, s@.len() as int) =~= s@);
    out
}

/// Concatenation of sequences is associative.
pub proof fn lemma_concat_assoc<T>(a: Seq<T>, b: Seq<T>, c: Seq<T>)
    ensures
        (a + b) + c == a + (b + c),
{
    assert((a + b) + c =~= a + (b + c));
}

/// The empty sequence is a right identity of concatenation.
pub proof fn lemma_concat_empty<T>(a: Seq<T>)
    ensures
        a + Seq::<T>::empty() == a,
{
    assert(a + Seq::<T>::empty() =~= a);
}

} // verus!
