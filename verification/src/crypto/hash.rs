//! The 32-byte Blake3 content hash that identifies a node. The digest is
//! held as four little-endian 64-bit words, so that equality of hashes is
//! structural equality of plain integers.

use crate::wire::{dec_u64_val, enc_u64, lemma_enc_u64_round, write_u64};
use vstd::string::StringExecFns;
use vstd::prelude::*;

verus! {

broadcast use crate::wire::lemma_enc_u64_len;

/// Representation of a hash: a 32-byte digest as four little-endian words.
#[derive(Clone, Copy, PartialEq, Eq, Structural, Debug)]
pub struct Hash {
    /// Bytes 0 to 7 of the digest, little-endian.
    pub w0: u64,
    /// Bytes 8 to 15 of the digest, little-endian.
    pub w1: u64,
    /// Bytes 16 to 23 of the digest, little-endian.
    pub w2: u64,
    /// Bytes 24 to 31 of the digest, little-endian.
    pub w3: u64,
}

/// The hash whose 32-byte digest is `s`.
pub open spec fn hash_from_seq(s: Seq<u8>) -> Hash {
    Hash {
        w0: dec_u64_val(s.subrange(0, 8)),
        w1: dec_u64_val(s.subrange(8, 16)),
        w2: dec_u64_val(s.subrange(16, 24)),
        w3: dec_u64_val(s.subrange(24, 32)),
    }
}

impl View for Hash {
    type V = Seq<u8>;

    /// The 32-byte digest.
    open spec fn view(&self) -> Seq<u8> {
        enc_u64(self.w0) + enc_u64(self.w1) + enc_u64(self.w2) + enc_u64(self.w3)
    }
}

/// The digest named by the Blake3 hash function.
pub uninterp spec fn blake3_of(data: Seq<u8>) -> Seq<u8>;

/// Relies on `blake3::hash`: a 32-byte digest that depends on the input
/// bytes alone.
#[verifier::external_body]
fn blake3_digest(data: &[u8]) -> (r: Vec<u8>)
    ensures
        r@ == blake3_of(data@),
        r@.len() == 32,
{
    blake3::hash(data).as_bytes().to_vec()
}

/// An eight-byte string is the little-endian image of the word it decodes to.
proof fn lemma_dec_enc_u64(b: Seq<u8>)
    requires
        b.len() == 8,
    ensures
        enc_u64(dec_u64_val(b)) == b,
{
    let x0 = b[0];
    let x1 = b[1];
    let x2 = b[2];
    let x3 = b[3];
    let x4 = b[4];
    let x5 = b[5];
    let x6 = b[6];
    let x7 = b[7];
    reveal(crate::wire::enc_u64);
    reveal(crate::wire::dec_u64_val);
    let v = dec_u64_val(b);
    assert(v == (x0 as u64) | ((x1 as u64) << 8) | ((x2 as u64) << 16) | ((x3 as u64) << 24)
        | ((x4 as u64) << 32) | ((x5 as u64) << 40) | ((x6 as u64) << 48) | ((x7 as u64) << 56));
    assert({
        let v = (x0 as u64) | ((x1 as u64) << 8) | ((x2 as u64) << 16) | ((x3 as u64) << 24)
            | ((x4 as u64) << 32) | ((x5 as u64) << 40) | ((x6 as u64) << 48) | ((x7 as u64) << 56);
        ((v & 0xff) as u8) == x0 && (((v >> 8) & 0xff) as u8) == x1
            && (((v >> 16) & 0xff) as u8) == x2 && (((v >> 24) & 0xff) as u8) == x3
            && (((v >> 32) & 0xff) as u8) == x4 && (((v >> 40) & 0xff) as u8) == x5
            && (((v >> 48) & 0xff) as u8) == x6 && (((v >> 56) & 0xff) as u8) == x7
    }) by (bit_vector);
    assert(enc_u64(v) =~= b);
}

/// A 32-byte string is the digest of the hash built from it.
pub proof fn lemma_hash_from_seq_bytes(s: Seq<u8>)
    requires
        s.len() == 32,
    ensures
        hash_from_seq(s)@ == s,
{
    lemma_dec_enc_u64(s.subrange(0, 8));
    lemma_dec_enc_u64(s.subrange(8, 16));
    lemma_dec_enc_u64(s.subrange(16, 24));
    lemma_dec_enc_u64(s.subrange(24, 32));
    assert(hash_from_seq(s)@ =~= s);
}

/// Hashes with the same digest are the same hash.
pub proof fn lemma_hash_injective(a: Hash, b: Hash)
    requires
        a@ == b@,
    ensures
        a == b,
{
    lemma_enc_u64_round(a.w0);
    lemma_enc_u64_round(b.w0);
    lemma_enc_u64_round(a.w1);
    lemma_enc_u64_round(b.w1);
    lemma_enc_u64_round(a.w2);
    lemma_enc_u64_round(b.w2);
    lemma_enc_u64_round(a.w3);
    lemma_enc_u64_round(b.w3);
    assert(a@.subrange(0, 8) =~= enc_u64(a.w0));
    assert(b@.subrange(0, 8) =~= enc_u64(b.w0));
    assert(a@.subrange(8, 16) =~= enc_u64(a.w1));
    assert(b@.subrange(8, 16) =~= enc_u64(b.w1));
    assert(a@.subrange(16, 24) =~= enc_u64(a.w2));
    assert(b@.subrange(16, 24) =~= enc_u64(b.w2));
    assert(a@.subrange(24, 32) =~= enc_u64(a.w3));
    assert(b@.subrange(24, 32) =~= enc_u64(b.w3));
}

/// Concatenation of a sequence of byte strings.
pub open spec fn concat_bytes(bs: Seq<Seq<u8>>) -> Seq<u8>
    decreases bs.len(),
{
    if bs.len() == 0 {
        Seq::empty()
    } else {
        concat_bytes(bs.drop_last()) + bs.last()
    }
}

/// The hexadecimal digit for a value below 16.
pub open spec fn hex_digit(n: u8) -> char {
    if n == 0 { '0' }
    else if n == 1 { '1' }
    else if n == 2 { '2' }
    else if n == 3 { '3' }
    else if n == 4 { '4' }
    else if n == 5 { '5' }
    else if n == 6 { '6' }
    else if n == 7 { '7' }
    else if n == 8 { '8' }
    else if n == 9 { '9' }
    else if n == 10 { 'a' }
    else if n == 11 { 'b' }
    else if n == 12 { 'c' }
    else if n == 13 { 'd' }
    else if n == 14 { 'e' }
    else { 'f' }
}

/// Lower-case hexadecimal image of a byte string, two digits per byte.
pub open spec fn hex_of(s: Seq<u8>) -> Seq<char>
    decreases s.len(),
{
    if s.len() == 0 {
        Seq::empty()
    } else {
        hex_of(s.drop_last()) + seq![hex_digit(s.last() / 16), hex_digit(s.last() % 16)]
    }
}

/// Appends the hexadecimal digit for `n`.
fn push_hex_digit(out: &mut String, n: u8)
    requires
        n < 16,
    ensures
        final(out)@ == old(out)@ + seq![hex_digit(n)],
{
    proof {
        reveal_strlit("0");
        reveal_strlit("1");
        reveal_strlit("2");
        reveal_strlit("3");
        reveal_strlit("4");
        reveal_strlit("5");
        reveal_strlit("6");
        reveal_strlit("7");
        reveal_strlit("8");
        reveal_strlit("9");
        reveal_strlit("a");
        reveal_strlit("b");
        reveal_strlit("c");
        reveal_strlit("d");
        reveal_strlit("e");
        reveal_strlit("f");
    }
    if n == 0 { out.append("0"); }
    else if n == 1 { out.append("1"); }
    else if n == 2 { out.append("2"); }
    else if n == 3 { out.append("3"); }
    else if n == 4 { out.append("4"); }
    else if n == 5 { out.append("5"); }
    else if n == 6 { out.append("6"); }
    else if n == 7 { out.append("7"); }
    else if n == 8 { out.append("8"); }
    else if n == 9 { out.append("9"); }
    else if n == 10 { out.append("a"); }
    else if n == 11 { out.append("b"); }
    else if n == 12 { out.append("c"); }
    else if n == 13 { out.append("d"); }
    else if n == 14 { out.append("e"); }
    else { out.append("f"); }
    assert(out@ =~= old(out)@ + seq![hex_digit(n)]);
}

/// Appends the two hexadecimal digits of one byte.
fn push_hex_byte(out: &mut String, b: u8)
    ensures
        final(out)@ == old(out)@ + seq![hex_digit(b / 16), hex_digit(b % 16)],
{
    push_hex_digit(out, b / 16);
    push_hex_digit(out, b % 16);
    assert(out@ =~= old(out)@ + seq![hex_digit(b / 16), hex_digit(b % 16)]);
}

/// Hex-encodes a byte string.
pub fn hex_string(bytes: &Vec<u8>) -> (r: String)
    ensures
        r@ == hex_of(bytes@),
{
    let mut out = String::new();
    let mut k: usize = 0;
    while k < bytes.len()
        invariant
            k <= bytes@.len(),
            out@ == hex_of(bytes@.subrange(0, k as int)),
        decreases bytes@.len() - k,
    {
        push_hex_byte(&mut out, bytes[k]);
        proof {
            let pre = bytes@.subrange(0, k + 1 as int);
            assert(pre.drop_last() =~= bytes@.subrange(0, k as int));
            assert(out@ =~= hex_of(pre));
        }
        k = k + 1;
    }
    proof {
        assert(bytes@.subrange(0, bytes@.len() as int) =~= bytes@);
    }
    out
}

impl Hash {
    /// Creates a `Hash` of the given bytes.
    pub fn from_bytes(data: &[u8]) -> (r: Hash)
        ensures
            r == hash_from_seq(blake3_of(data@)),
            r@ == blake3_of(data@),
    {
        let digest = blake3_digest(data);
        let r = Self::from_digest(&digest);
        proof {
            lemma_hash_from_seq_bytes(digest@);
        }
        r
    }

    /// Creates a `Hash` of the concatenation of the given byte strings.
    pub fn from_byte_arrays(ba: &Vec<Vec<u8>>) -> (r: Hash)
        ensures
            r == hash_from_seq(blake3_of(concat_bytes(ba.deep_view()))),
            r@ == blake3_of(concat_bytes(ba.deep_view())),
    {
        let mut buf: Vec<u8> = Vec::new();
        let mut k: usize = 0;
        while k < ba.len()
            invariant
                k <= ba@.len(),
                buf@ == concat_bytes(ba.deep_view().subrange(0, k as int)),
            decreases ba@.len() - k,
        {
            let mut j: usize = 0;
            let inner = &ba[k];
            while j < inner.len()
                invariant
                    j <= inner@.len(),
                    inner == &ba[k as int],
                    k < ba@.len(),
                    buf@ == concat_bytes(ba.deep_view().subrange(0, k as int))
                        + inner@.subrange(0, j as int),
                decreases inner@.len() - j,
            {
                buf.push(inner[j]);
                assert(buf@ =~= concat_bytes(ba.deep_view().subrange(0, k as int))
                    + inner@.subrange(0, j + 1 as int));
                j = j + 1;
            }
            proof {
                let pre = ba.deep_view().subrange(0, k + 1 as int);
                assert(pre.drop_last() =~= ba.deep_view().subrange(0, k as int));
                assert(pre.last() == ba.deep_view()[k as int]);
                assert(inner@.subrange(0, inner@.len() as int) =~= inner@);
                assert(inner@ == ba.deep_view()[k as int]);
                assert(buf@ =~= concat_bytes(pre));
            }
            k = k + 1;
        }
        proof {
            assert(ba.deep_view().subrange(0, ba.deep_view().len() as int) =~= ba.deep_view());
        }
        let digest = blake3_digest(buf.as_slice());
        let r = Self::from_digest(&digest);
        proof {
            lemma_hash_from_seq_bytes(digest@);
        }
        r
    }

    /// Generates a `Hash` of a fresh random buffer.
    pub fn random() -> Hash {
        let buf = crate::crypto::random_bytes(4096);
        let digest = blake3_digest(buf.as_slice());
        Self::from_digest(&digest)
    }

    /// Packs a 32-byte digest into a `Hash`.
    fn from_digest(digest: &Vec<u8>) -> (r: Hash)
        requires
            digest@.len() == 32,
        ensures
            r == hash_from_seq(digest@),
    {
        let w0 = match crate::wire::read_u64(digest, 0) {
            Some((v, _)) => v,
            None => 0,
        };
        let w1 = match crate::wire::read_u64(digest, 8) {
            Some((v, _)) => v,
            None => 0,
        };
        let w2 = match crate::wire::read_u64(digest, 16) {
            Some((v, _)) => v,
            None => 0,
        };
        let w3 = match crate::wire::read_u64(digest, 24) {
            Some((v, _)) => v,
            None => 0,
        };
        Hash { w0, w1, w2, w3 }
    }

    /// Encodes a `Hash` as a lower-case hex string.
    pub fn to_hex_string(&self) -> (r: String)
        ensures
            r@ == hex_of(self@),
    {
        let bytes = self.to_vec();
        hex_string(&bytes)
    }

    /// A short, human-readable form of the hash: the first three and the
    /// last three digest bytes in hex, joined by an ellipsis.
    pub fn to_display_string(&self) -> (r: String)
        ensures
            r@ == hex_of(self@.subrange(0, 3)) + "..."@ + hex_of(self@.subrange(29, 32)),
    {
        let bytes = self.to_vec();
        let mut head: Vec<u8> = Vec::new();
        head.push(bytes[0]);
        head.push(bytes[1]);
        head.push(bytes[2]);
        let mut tail: Vec<u8> = Vec::new();
        tail.push(bytes[29]);
        tail.push(bytes[30]);
        tail.push(bytes[31]);
        proof {
            assert(head@ =~= self@.subrange(0, 3));
            assert(tail@ =~= self@.subrange(29, 32));
        }
        let mut out = hex_string(&head);
        out.append("...");
        let t = hex_string(&tail);
        out.append(t.as_str());
        proof {
            assert(out@ =~= hex_of(self@.subrange(0, 3)) + "..."@ + hex_of(
                self@.subrange(29, 32),
            ));
        }
        out
    }

    /// The digest as a byte vector.
    pub fn to_vec(&self) -> (r: Vec<u8>)
        ensures
            r@ == self@,
    {
        let mut out: Vec<u8> = Vec::new();
        write_u64(&mut out, self.w0);
        write_u64(&mut out, self.w1);
        write_u64(&mut out, self.w2);
        write_u64(&mut out, self.w3);
        assert(out@ =~= self@);
        out
    }
}

} // verus!
