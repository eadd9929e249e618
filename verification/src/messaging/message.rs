//! The wire messages of the protocol and their fixed binary layout: a
//! one-byte variant tag followed by the variant's fields, integers
//! little-endian, byte strings length-prefixed, lists count-prefixed.
//! Encoding and decoding are specified exactly and proved to round-trip.

use crate::connection::connection_types::NetAddr;
use crate::connection::routing::{SharedEntry, SharedRoutingTable};
use crate::crypto::hash;
use crate::crypto::hash::hash_from_seq;
use crate::identity::public_id::{PublicId, PublicIdView};
use crate::wire::{
    clone_bytes, dec_bytes, dec_u16, dec_u32, dec_u64, enc_bytes, enc_u16, enc_u32, enc_u64,
    lemma_dec_bytes_round, lemma_dec_u16_round, lemma_dec_u32_round, lemma_dec_u64_round,
    lemma_prefix_subrange, lemma_concat_assoc, lemma_concat_empty, read_bytes, read_u16, read_u32, read_u64, write_bytes, write_u16,
    write_u32, write_u64,
};
use vstd::prelude::*;

verus! {

broadcast use crate::wire::lemma_enc_u16_len, crate::wire::lemma_enc_u32_len,
    crate::wire::lemma_enc_u64_len;

// ---------------------------------------------------------------------------
// Hashes
// ---------------------------------------------------------------------------

/// Wire image of a hash: its 32 digest bytes.
pub open spec fn enc_hash(h: hash::Hash) -> Seq<u8> {
    h@
}

pub open spec fn dec_hash(s: Seq<u8>, i: int) -> Option<(hash::Hash, int)> {
    if 0 <= i && i + 32 <= s.len() {
        Some((hash_from_seq(s.subrange(i, i + 32)), i + 32))
    } else {
        None
    }
}

/// A hash is 32 bytes on the wire, and is rebuilt from its own digest.
pub proof fn lemma_hash_view_round(h: hash::Hash)
    ensures
        h@.len() == 32,
        hash_from_seq(h@) == h,
{
    hash::lemma_hash_from_seq_bytes(h@);
    hash::lemma_hash_injective(hash_from_seq(h@), h);
}

/// Decoding a hash from the position where one was encoded yields it back.
pub proof fn lemma_dec_hash_round(s: Seq<u8>, i: int, h: hash::Hash, rest: Seq<u8>)
    requires
        0 <= i <= s.len(),
        s.subrange(i, s.len() as int) == enc_hash(h) + rest,
    ensures
        dec_hash(s, i) == Some((h, i + 32)),
        s.subrange(i + 32, s.len() as int) == rest,
{
    lemma_hash_view_round(h);
    lemma_prefix_subrange(s, i, h@, rest);
}

fn write_hash(out: &mut Vec<u8>, h: &hash::Hash)
    ensures
        final(out)@ == old(out)@ + enc_hash(*h),
{
    write_u64(out, h.w0);
    write_u64(out, h.w1);
    write_u64(out, h.w2);
    write_u64(out, h.w3);
    assert(out@ =~= old(out)@ + enc_hash(*h));
}

pub(crate) fn read_hash_at(buf: &Vec<u8>, i: usize) -> (r: Option<(hash::Hash, usize)>)
    ensures
        match r {
            Some((h, j)) => dec_hash(buf@, i as int) == Some((h, j as int)),
            None => dec_hash(buf@, i as int) is None,
        },
{
    if buf.len() >= 32 && i <= buf.len() - 32 {
        let w0 = match read_u64(buf, i) {
            Some((v, _)) => v,
            None => 0,
        };
        let w1 = match read_u64(buf, i + 8) {
            Some((v, _)) => v,
            None => 0,
        };
        let w2 = match read_u64(buf, i + 16) {
            Some((v, _)) => v,
            None => 0,
        };
        let w3 = match read_u64(buf, i + 24) {
            Some((v, _)) => v,
            None => 0,
        };
        let h = hash::Hash { w0, w1, w2, w3 };
        proof {
            let sub = buf@.subrange(i as int, i as int + 32);
            assert(sub.subrange(0, 8) =~= buf@.subrange(i as int, i as int + 8));
            assert(sub.subrange(8, 16) =~= buf@.subrange(i as int + 8, i as int + 16));
            assert(sub.subrange(16, 24) =~= buf@.subrange(i as int + 16, i as int + 24));
            assert(sub.subrange(24, 32) =~= buf@.subrange(i as int + 24, i as int + 32));
        }
        Some((h, i + 32))
    } else {
        None
    }
}

// ---------------------------------------------------------------------------
// Network addresses
// ---------------------------------------------------------------------------

/// Wire image of an address: the IPv4 address, then the port.
pub open spec fn enc_addr(a: NetAddr) -> Seq<u8> {
    enc_u32(a.ip) + enc_u16(a.port)
}

pub open spec fn dec_addr(s: Seq<u8>, i: int) -> Option<(NetAddr, int)> {
    match dec_u32(s, i) {
        Some((ip, j)) => match dec_u16(s, j) {
            Some((port, k)) => Some((NetAddr { ip, port }, k)),
            None => None,
        },
        None => None,
    }
}

/// Decoding an address from the position where one was encoded yields it back.
pub proof fn lemma_dec_addr_round(s: Seq<u8>, i: int, a: NetAddr, rest: Seq<u8>)
    requires
        0 <= i <= s.len(),
        s.subrange(i, s.len() as int) == enc_addr(a) + rest,
    ensures
        dec_addr(s, i) == Some((a, i + 6)),
        s.subrange(i + 6, s.len() as int) == rest,
{
    assert(enc_addr(a) + rest =~= enc_u32(a.ip) + (enc_u16(a.port) + rest));
    lemma_dec_u32_round(s, i, a.ip, enc_u16(a.port) + rest);
    lemma_prefix_subrange(s, i, enc_u32(a.ip), enc_u16(a.port) + rest);
    lemma_dec_u16_round(s, i + 4, a.port, rest);
    lemma_prefix_subrange(s, i + 4, enc_u16(a.port), rest);
}

fn write_addr(out: &mut Vec<u8>, a: &NetAddr)
    ensures
        final(out)@ == old(out)@ + enc_addr(*a),
{
    write_u32(out, a.ip);
    write_u16(out, a.port);
    assert(out@ =~= old(out)@ + enc_addr(*a));
}

fn read_addr(buf: &Vec<u8>, i: usize) -> (r: Option<(NetAddr, usize)>)
    ensures
        match r {
            Some((a, j)) => dec_addr(buf@, i as int) == Some((a, j as int)),
            None => dec_addr(buf@, i as int) is None,
        },
{
    match read_u32(buf, i) {
        Some((ip, j)) => match read_u16(buf, j) {
            Some((port, k)) => Some((NetAddr { ip, port }, k)),
            None => None,
        },
        None => None,
    }
}

// ---------------------------------------------------------------------------
// Public identities
// ---------------------------------------------------------------------------

/// Key material short enough for its length prefixes.
pub open spec fn pid_ok(p: PublicIdView) -> bool {
    &&& p.public_key.len() <= u64::MAX
    &&& p.encryption_public_key.len() <= u64::MAX
    &&& p.signing_public_key.len() <= u64::MAX
}

/// Wire image of a public identity: the identifier, then the three keys.
pub open spec fn enc_pid(p: PublicIdView) -> Seq<u8> {
    enc_hash(p.node_id) + enc_bytes(p.public_key) + enc_bytes(p.encryption_public_key)
        + enc_bytes(p.signing_public_key)
}

pub open spec fn dec_pid(s: Seq<u8>, i: int) -> Option<(PublicIdView, int)> {
    match dec_hash(s, i) {
        Some((node_id, j)) => match dec_bytes(s, j) {
            Some((pk, k)) => match dec_bytes(s, k) {
                Some((epk, l)) => match dec_bytes(s, l) {
                    Some((spk, m)) => Some(
                        (
                            PublicIdView {
                                node_id,
                                public_key: pk,
                                encryption_public_key: epk,
                                signing_public_key: spk,
                            },
                            m,
                        ),
                    ),
                    None => None,
                },
                None => None,
            },
            None => None,
        },
        None => None,
    }
}

/// Decoding a public identity from the position where one was encoded
/// yields it back.
pub proof fn lemma_dec_pid_round(s: Seq<u8>, i: int, p: PublicIdView, rest: Seq<u8>)
    requires
        0 <= i <= s.len(),
        s.subrange(i, s.len() as int) == enc_pid(p) + rest,
        pid_ok(p),
    ensures
        dec_pid(s, i) == Some((p, i + enc_pid(p).len())),
        s.subrange(i + enc_pid(p).len(), s.len() as int) == rest,
{
    let b1 = enc_bytes(p.public_key);
    let b2 = enc_bytes(p.encryption_public_key);
    let b3 = enc_bytes(p.signing_public_key);
    assert(enc_pid(p) + rest =~= enc_hash(p.node_id) + (b1 + (b2 + (b3 + rest))));
    lemma_dec_hash_round(s, i, p.node_id, b1 + (b2 + (b3 + rest)));
    lemma_hash_view_round(p.node_id);
    let i1 = i + 32;
    lemma_dec_bytes_round(s, i1, p.public_key, b2 + (b3 + rest));
    let i2 = i1 + b1.len();
    lemma_dec_bytes_round(s, i2, p.encryption_public_key, b3 + rest);
    let i3 = i2 + b2.len();
    lemma_dec_bytes_round(s, i3, p.signing_public_key, rest);
}

fn write_pid(out: &mut Vec<u8>, p: &PublicId)
    ensures
        final(out)@ == old(out)@ + enc_pid(p@),
        pid_ok(p@),
{
    write_hash(out, &p.node_id);
    write_bytes(out, &p.public_key);
    write_bytes(out, &p.encryption_public_key);
    write_bytes(out, &p.signing_public_key);
    assert(out@ =~= old(out)@ + enc_pid(p@));
}

fn read_pid(buf: &Vec<u8>, i: usize) -> (r: Option<(PublicId, usize)>)
    ensures
        match r {
            Some((p, j)) => dec_pid(buf@, i as int) == Some((p@, j as int)),
            None => dec_pid(buf@, i as int) is None,
        },
{
    let (node_id, j) = match read_hash_at(buf, i) {
        Some(x) => x,
        None => {
            return None;
        },
    };
    let (pk, k) = match read_bytes(buf, j) {
        Some(x) => x,
        None => {
            return None;
        },
    };
    let (epk, l) = match read_bytes(buf, k) {
        Some(x) => x,
        None => {
            return None;
        },
    };
    let (spk, m) = match read_bytes(buf, l) {
        Some(x) => x,
        None => {
            return None;
        },
    };
    Some(
        (
            PublicId {
                node_id,
                public_key: pk,
                encryption_public_key: epk,
                signing_public_key: spk,
            },
            m,
        ),
    )
}

// ---------------------------------------------------------------------------
// Shared routing entries
// ---------------------------------------------------------------------------

/// Wire image of a shared routing entry: the destination, then the hop
/// count as a `u64`.
pub open spec fn enc_sentry(e: SharedEntry) -> Seq<u8> {
    enc_hash(e.node) + enc_u64(e.hops as u64)
}

pub open spec fn dec_sentry(s: Seq<u8>, i: int) -> Option<(SharedEntry, int)> {
    match dec_hash(s, i) {
        Some((node, j)) => match dec_u64(s, j) {
            Some((h, k)) => if h <= usize::MAX as u64 {
                Some((SharedEntry { node, hops: h as usize }, k))
            } else {
                None
            },
            None => None,
        },
        None => None,
    }
}

/// Decoding a shared entry from the position where one was encoded yields
/// it back.
pub proof fn lemma_dec_sentry_round(s: Seq<u8>, i: int, e: SharedEntry, rest: Seq<u8>)
    requires
        0 <= i <= s.len(),
        s.subrange(i, s.len() as int) == enc_sentry(e) + rest,
    ensures
        dec_sentry(s, i) == Some((e, i + 40)),
        s.subrange(i + 40, s.len() as int) == rest,
{
    assert(enc_sentry(e) + rest =~= enc_hash(e.node) + (enc_u64(e.hops as u64) + rest));
    lemma_dec_hash_round(s, i, e.node, enc_u64(e.hops as u64) + rest);
    lemma_hash_view_round(e.node);
    lemma_dec_u64_round(s, i + 32, e.hops as u64, rest);
    lemma_prefix_subrange(s, i + 32, enc_u64(e.hops as u64), rest);
}

fn write_sentry(out: &mut Vec<u8>, e: &SharedEntry)
    ensures
        final(out)@ == old(out)@ + enc_sentry(*e),
{
    write_hash(out, &e.node);
    write_u64(out, e.hops as u64);
    assert(out@ =~= old(out)@ + enc_sentry(*e));
}

fn read_sentry(buf: &Vec<u8>, i: usize) -> (r: Option<(SharedEntry, usize)>)
    ensures
        match r {
            Some((e, j)) => dec_sentry(buf@, i as int) == Some((e, j as int)),
            None => dec_sentry(buf@, i as int) is None,
        },
{
    let (node, j) = match read_hash_at(buf, i) {
        Some(x) => x,
        None => {
            return None;
        },
    };
    let (h, k) = match read_u64(buf, j) {
        Some(x) => x,
        None => {
            return None;
        },
    };
    if h <= usize::MAX as u64 {
        Some((SharedEntry { node, hops: h as usize }, k))
    } else {
        None
    }
}

// ---------------------------------------------------------------------------
// Lists
// ---------------------------------------------------------------------------

/// Wire image of a list of addresses, in order.
pub open spec fn enc_addrs(items: Seq<NetAddr>) -> Seq<u8>
    decreases items.len(),
{
    if items.len() == 0 {
        Seq::empty()
    } else {
        enc_addr(items[0]) + enc_addrs(items.drop_first())
    }
}

pub open spec fn dec_addrs(s: Seq<u8>, i: int, n: nat) -> Option<(Seq<NetAddr>, int)>
    decreases n,
{
    if n == 0 {
        Some((Seq::empty(), i))
    } else {
        match dec_addr(s, i) {
            Some((e, j)) => match dec_addrs(s, j, (n - 1) as nat) {
                Some((es, k)) => Some((seq![e] + es, k)),
                None => None,
            },
            None => None,
        }
    }
}

pub proof fn lemma_enc_addrs_snoc(items: Seq<NetAddr>, e: NetAddr)
    ensures
        enc_addrs(items.push(e)) == enc_addrs(items) + enc_addr(e),
    decreases items.len(),
{
    if items.len() == 0 {
        assert(items.push(e)[0] == e);
        assert(items.push(e).drop_first() =~= Seq::<NetAddr>::empty());
        assert(enc_addrs(Seq::<NetAddr>::empty()) == Seq::<u8>::empty());
        assert(enc_addrs(items.push(e)) == enc_addr(e) + Seq::<u8>::empty());
        assert(enc_addr(e) + Seq::<u8>::empty() =~= Seq::<u8>::empty() + enc_addr(e));
        assert(enc_addrs(items) == Seq::<u8>::empty());
    } else {
        assert(items.push(e)[0] == items[0]);
        assert(items.push(e).drop_first() =~= items.drop_first().push(e));
        assert(enc_addrs(items.push(e)) == enc_addr(items[0]) + enc_addrs(items.drop_first().push(e)));
        lemma_enc_addrs_snoc(items.drop_first(), e);
        assert(enc_addr(items[0]) + (enc_addrs(items.drop_first()) + enc_addr(e)) =~= (enc_addr(items[0])
            + enc_addrs(items.drop_first())) + enc_addr(e));
        assert(enc_addrs(items) == enc_addr(items[0]) + enc_addrs(items.drop_first()));
    }
}

#[verifier::rlimit(60)]
pub proof fn lemma_dec_addrs_round(s: Seq<u8>, i: int, items: Seq<NetAddr>, rest: Seq<u8>)
    requires
        0 <= i <= s.len(),
        s.subrange(i, s.len() as int) == enc_addrs(items) + rest,
    ensures
        dec_addrs(s, i, items.len()) == Some((items, i + enc_addrs(items).len())),
        i + enc_addrs(items).len() <= s.len(),
        s.subrange(i + enc_addrs(items).len(), s.len() as int) == rest,
    decreases items.len(),
{
    if items.len() == 0 {
        assert(enc_addrs(items) =~= Seq::<u8>::empty());
        assert(enc_addrs(items) + rest =~= rest);
    } else {
        let e = items[0];
        let tail = items.drop_first();
        assert(enc_addrs(items) + rest =~= enc_addr(e) + (enc_addrs(tail) + rest));
        lemma_dec_addr_round(s, i, e, enc_addrs(tail) + rest);
        lemma_dec_addrs_round(s, i + 6, tail, rest);
        assert(seq![e] + tail =~= items);
        assert(enc_addrs(items).len() == 6 + enc_addrs(tail).len());
    }
}

fn write_addrs(out: &mut Vec<u8>, items: &Vec<NetAddr>)
    ensures
        final(out)@ == old(out)@ + enc_addrs(items@),
{
    let mut k: usize = 0;
    proof {
        assert(items@.take(0) =~= Seq::<NetAddr>::empty());
        assert(enc_addrs(items@.take(0)) =~= Seq::<u8>::empty());
        assert(out@ =~= out@ + enc_addrs(items@.take(0)));
    }
    while k < items.len()
        invariant
            k <= items@.len(),
            out@ == old(out)@ + enc_addrs(items@.take(k as int)),
        decreases items@.len() - k,
    {
        write_addr(out, &items[k]);
        proof {
            assert(items@.take(k + 1 as int) =~= items@.take(k as int).push(items@[k as int]));
            lemma_enc_addrs_snoc(items@.take(k as int), items@[k as int]);
            assert(out@ =~= old(out)@ + enc_addrs(items@.take(k + 1 as int)));
        }
        k = k + 1;
    }
    proof {
        assert(items@.take(items@.len() as int) =~= items@);
    }
}

fn read_addrs(buf: &Vec<u8>, i: usize, n: u64) -> (r: Option<(Vec<NetAddr>, usize)>)
    ensures
        match r {
            Some((items, j)) => dec_addrs(buf@, i as int, n as nat) == Some((items@, j as int)),
            None => dec_addrs(buf@, i as int, n as nat) is None,
        },
{
    let mut acc: Vec<NetAddr> = Vec::new();
    let mut cur: usize = i;
    let mut t: u64 = 0;
    while t < n
        invariant
            t <= n,
            match dec_addrs(buf@, cur as int, (n - t) as nat) {
                Some((es, j)) => dec_addrs(buf@, i as int, n as nat) == Some((acc@ + es, j)),
                None => dec_addrs(buf@, i as int, n as nat) is None,
            },
        decreases n - t,
    {
        match read_addr(buf, cur) {
            Some((e, j)) => {
                proof {
                    let rem = dec_addrs(buf@, j as int, (n - t - 1) as nat);
                    if rem is Some {
                        let (es, k) = rem.unwrap();
                        assert(dec_addrs(buf@, cur as int, (n - t) as nat) == Some(
                            (seq![e] + es, k),
                        ));
                        assert(acc@ + (seq![e] + es) =~= acc@.push(e) + es);
                    }
                }
                acc.push(e);
                cur = j;
                t = t + 1;
            },
            None => {
                return None;
            },
        }
    }
    proof {
        assert(acc@ + Seq::<NetAddr>::empty() =~= acc@);
    }
    Some((acc, cur))
}

/// Wire image of a list of shared routing entries, in order.
pub open spec fn enc_sentries(items: Seq<SharedEntry>) -> Seq<u8>
    decreases items.len(),
{
    if items.len() == 0 {
        Seq::empty()
    } else {
        enc_sentry(items[0]) + enc_sentries(items.drop_first())
    }
}

pub open spec fn dec_sentries(s: Seq<u8>, i: int, n: nat) -> Option<(Seq<SharedEntry>, int)>
    decreases n,
{
    if n == 0 {
        Some((Seq::empty(), i))
    } else {
        match dec_sentry(s, i) {
            Some((e, j)) => match dec_sentries(s, j, (n - 1) as nat) {
                Some((es, k)) => Some((seq![e] + es, k)),
                None => None,
            },
            None => None,
        }
    }
}

pub proof fn lemma_enc_sentries_snoc(items: Seq<SharedEntry>, e: SharedEntry)
    ensures
        enc_sentries(items.push(e)) == enc_sentries(items) + enc_sentry(e),
    decreases items.len(),
{
    if items.len() == 0 {
        assert(items.push(e)[0] == e);
        assert(items.push(e).drop_first() =~= Seq::<SharedEntry>::empty());
        assert(enc_sentries(Seq::<SharedEntry>::empty()) == Seq::<u8>::empty());
        assert(enc_sentries(items.push(e)) == enc_sentry(e) + Seq::<u8>::empty());
        assert(enc_sentry(e) + Seq::<u8>::empty() =~= Seq::<u8>::empty() + enc_sentry(e));
        assert(enc_sentries(items) == Seq::<u8>::empty());
    } else {
        assert(items.push(e)[0] == items[0]);
        assert(items.push(e).drop_first() =~= items.drop_first().push(e));
        assert(enc_sentries(items.push(e)) == enc_sentry(items[0]) + enc_sentries(items.drop_first().push(e)));
        lemma_enc_sentries_snoc(items.drop_first(), e);
        assert(enc_sentry(items[0]) + (enc_sentries(items.drop_first()) + enc_sentry(e)) =~= (enc_sentry(items[0])
            + enc_sentries(items.drop_first())) + enc_sentry(e));
        assert(enc_sentries(items) == enc_sentry(items[0]) + enc_sentries(items.drop_first()));
    }
}

#[verifier::rlimit(60)]
pub proof fn lemma_dec_sentries_round(s: Seq<u8>, i: int, items: Seq<SharedEntry>, rest: Seq<u8>)
    requires
        0 <= i <= s.len(),
        s.subrange(i, s.len() as int) == enc_sentries(items) + rest,
    ensures
        dec_sentries(s, i, items.len()) == Some((items, i + enc_sentries(items).len())),
        i + enc_sentries(items).len() <= s.len(),
        s.subrange(i + enc_sentries(items).len(), s.len() as int) == rest,
    decreases items.len(),
{
    if items.len() == 0 {
        assert(enc_sentries(items) =~= Seq::<u8>::empty());
        assert(enc_sentries(items) + rest =~= rest);
    } else {
        let e = items[0];
        let tail = items.drop_first();
        assert(enc_sentries(items) + rest =~= enc_sentry(e) + (enc_sentries(tail) + rest));
        lemma_dec_sentry_round(s, i, e, enc_sentries(tail) + rest);
        lemma_dec_sentries_round(s, i + 40, tail, rest);
        assert(seq![e] + tail =~= items);
        assert(enc_sentries(items).len() == 40 + enc_sentries(tail).len());
    }
}

fn write_sentries(out: &mut Vec<u8>, items: &Vec<SharedEntry>)
    ensures
        final(out)@ == old(out)@ + enc_sentries(items@),
{
    let mut k: usize = 0;
    proof {
        assert(items@.take(0) =~= Seq::<SharedEntry>::empty());
        assert(enc_sentries(items@.take(0)) =~= Seq::<u8>::empty());
        assert(out@ =~= out@ + enc_sentries(items@.take(0)));
    }
    while k < items.len()
        invariant
            k <= items@.len(),
            out@ == old(out)@ + enc_sentries(items@.take(k as int)),
        decreases items@.len() - k,
    {
        write_sentry(out, &items[k]);
        proof {
            assert(items@.take(k + 1 as int) =~= items@.take(k as int).push(items@[k as int]));
            lemma_enc_sentries_snoc(items@.take(k as int), items@[k as int]);
            assert(out@ =~= old(out)@ + enc_sentries(items@.take(k + 1 as int)));
        }
        k = k + 1;
    }
    proof {
        assert(items@.take(items@.len() as int) =~= items@);
    }
}

fn read_sentries(buf: &Vec<u8>, i: usize, n: u64) -> (r: Option<(Vec<SharedEntry>, usize)>)
    ensures
        match r {
            Some((items, j)) => dec_sentries(buf@, i as int, n as nat) == Some((items@, j as int)),
            None => dec_sentries(buf@, i as int, n as nat) is None,
        },
{
    let mut acc: Vec<SharedEntry> = Vec::new();
    let mut cur: usize = i;
    let mut t: u64 = 0;
    while t < n
        invariant
            t <= n,
            match dec_sentries(buf@, cur as int, (n - t) as nat) {
                Some((es, j)) => dec_sentries(buf@, i as int, n as nat) == Some((acc@ + es, j)),
                None => dec_sentries(buf@, i as int, n as nat) is None,
            },
        decreases n - t,
    {
        match read_sentry(buf, cur) {
            Some((e, j)) => {
                proof {
                    let rem = dec_sentries(buf@, j as int, (n - t - 1) as nat);
                    if rem is Some {
                        let (es, k) = rem.unwrap();
                        assert(dec_sentries(buf@, cur as int, (n - t) as nat) == Some(
                            (seq![e] + es, k),
                        ));
                        assert(acc@ + (seq![e] + es) =~= acc@.push(e) + es);
                    }
                }
                acc.push(e);
                cur = j;
                t = t + 1;
            },
            None => {
                return None;
            },
        }
    }
    proof {
        assert(acc@ + Seq::<SharedEntry>::empty() =~= acc@);
    }
    Some((acc, cur))
}

/// View of a relay payload: each pair as its identity view and bytes.
pub open spec fn pairs_view(s: Seq<(PublicId, Vec<u8>)>) -> Seq<(PublicIdView, Seq<u8>)> {
    s.map_values(|p: (PublicId, Vec<u8>)| (p.0@, p.1@))
}

/// A relay pair short enough for its length prefixes.
pub open spec fn pair_ok(p: (PublicIdView, Seq<u8>)) -> bool {
    pid_ok(p.0) && p.1.len() <= u64::MAX
}

/// Wire image of one relay pair: the target identity, then the payload.
pub open spec fn enc_pair(p: (PublicIdView, Seq<u8>)) -> Seq<u8> {
    enc_pid(p.0) + enc_bytes(p.1)
}

pub open spec fn dec_pair(s: Seq<u8>, i: int) -> Option<((PublicIdView, Seq<u8>), int)> {
    match dec_pid(s, i) {
        Some((p, j)) => match dec_bytes(s, j) {
            Some((b, k)) => Some(((p, b), k)),
            None => None,
        },
        None => None,
    }
}

#[verifier::rlimit(60)]
pub proof fn lemma_dec_pair_round(s: Seq<u8>, i: int, p: (PublicIdView, Seq<u8>), rest: Seq<u8>)
    requires
        0 <= i <= s.len(),
        s.subrange(i, s.len() as int) == enc_pair(p) + rest,
        pair_ok(p),
    ensures
        dec_pair(s, i) == Some((p, i + enc_pair(p).len())),
        i + enc_pair(p).len() <= s.len(),
        s.subrange(i + enc_pair(p).len(), s.len() as int) == rest,
{
    assert(enc_pair(p) + rest =~= enc_pid(p.0) + (enc_bytes(p.1) + rest));
    lemma_dec_pid_round(s, i, p.0, enc_bytes(p.1) + rest);
    let j = i + enc_pid(p.0).len();
    lemma_dec_bytes_round(s, j, p.1, rest);
    lemma_prefix_subrange(s, j, enc_bytes(p.1), rest);
}

fn write_pair(out: &mut Vec<u8>, p: &(PublicId, Vec<u8>))
    ensures
        final(out)@ == old(out)@ + enc_pair((p.0@, p.1@)),
        pair_ok((p.0@, p.1@)),
{
    write_pid(out, &p.0);
    write_bytes(out, &p.1);
    assert(out@ =~= old(out)@ + enc_pair((p.0@, p.1@)));
}

fn read_pair(buf: &Vec<u8>, i: usize) -> (r: Option<((PublicId, Vec<u8>), usize)>)
    ensures
        match r {
            Some((p, j)) => dec_pair(buf@, i as int) == Some(((p.0@, p.1@), j as int)),
            None => dec_pair(buf@, i as int) is None,
        },
{
    let (p, j) = match read_pid(buf, i) {
        Some(x) => x,
        None => {
            return None;
        },
    };
    let (b, k) = match read_bytes(buf, j) {
        Some(x) => x,
        None => {
            return None;
        },
    };
    Some(((p, b), k))
}

/// Wire image of a list of relay pairs, in order.
pub open spec fn enc_pairs(items: Seq<(PublicIdView, Seq<u8>)>) -> Seq<u8>
    decreases items.len(),
{
    if items.len() == 0 {
        Seq::empty()
    } else {
        enc_pair(items[0]) + enc_pairs(items.drop_first())
    }
}

pub open spec fn dec_pairs(s: Seq<u8>, i: int, n: nat) -> Option<
    (Seq<(PublicIdView, Seq<u8>)>, int),
>
    decreases n,
{
    if n == 0 {
        Some((Seq::empty(), i))
    } else {
        match dec_pair(s, i) {
            Some((e, j)) => match dec_pairs(s, j, (n - 1) as nat) {
                Some((es, k)) => Some((seq![e] + es, k)),
                None => None,
            },
            None => None,
        }
    }
}

#[verifier::rlimit(60)]
pub proof fn lemma_enc_pairs_snoc(items: Seq<(PublicIdView, Seq<u8>)>, e: (PublicIdView, Seq<u8>))
    ensures
        enc_pairs(items.push(e)) == enc_pairs(items) + enc_pair(e),
    decreases items.len(),
{
    if items.len() == 0 {
        assert(items.push(e)[0] == e);
        assert(items.push(e).drop_first() =~= Seq::<(PublicIdView, Seq<u8>)>::empty());
        assert(enc_pairs(Seq::<(PublicIdView, Seq<u8>)>::empty()) == Seq::<u8>::empty());
        assert(enc_pairs(items.push(e)) == enc_pair(e) + Seq::<u8>::empty());
        assert(enc_pair(e) + Seq::<u8>::empty() =~= Seq::<u8>::empty() + enc_pair(e));
        assert(enc_pairs(items) == Seq::<u8>::empty());
    } else {
        assert(items.push(e)[0] == items[0]);
        assert(items.push(e).drop_first() =~= items.drop_first().push(e));
        assert(enc_pairs(items.push(e)) == enc_pair(items[0]) + enc_pairs(items.drop_first().push(e)));
        lemma_enc_pairs_snoc(items.drop_first(), e);
        assert(enc_pair(items[0]) + (enc_pairs(items.drop_first()) + enc_pair(e)) =~= (enc_pair(items[0])
            + enc_pairs(items.drop_first())) + enc_pair(e));
        assert(enc_pairs(items) == enc_pair(items[0]) + enc_pairs(items.drop_first()));
    }
}

#[verifier::rlimit(60)]
pub proof fn lemma_dec_pairs_round(
    s: Seq<u8>,
    i: int,
    items: Seq<(PublicIdView, Seq<u8>)>,
    rest: Seq<u8>,
)
    requires
        0 <= i <= s.len(),
        s.subrange(i, s.len() as int) == enc_pairs(items) + rest,
        forall|idx: int| 0 <= idx < items.len() ==> pair_ok(#[trigger] items[idx]),
    ensures
        dec_pairs(s, i, items.len()) == Some((items, i + enc_pairs(items).len())),
        i + enc_pairs(items).len() <= s.len(),
        s.subrange(i + enc_pairs(items).len(), s.len() as int) == rest,
    decreases items.len(),
{
    if items.len() == 0 {
        assert(enc_pairs(items) =~= Seq::<u8>::empty());
        assert(enc_pairs(items) + rest =~= rest);
    } else {
        let e = items[0];
        let tail = items.drop_first();
        assert(enc_pairs(items) + rest =~= enc_pair(e) + (enc_pairs(tail) + rest));
        lemma_dec_pair_round(s, i, e, enc_pairs(tail) + rest);
        assert(forall|idx: int| 0 <= idx < tail.len() ==> pair_ok(#[trigger] tail[idx])) by {
            assert(forall|idx: int| 0 <= idx < tail.len() ==> tail[idx] == items[idx + 1]);
        }
        lemma_dec_pairs_round(s, i + enc_pair(e).len(), tail, rest);
        assert(seq![e] + tail =~= items);
        assert(enc_pairs(items).len() == enc_pair(e).len() + enc_pairs(tail).len());
    }
}

fn write_pairs(out: &mut Vec<u8>, items: &Vec<(PublicId, Vec<u8>)>)
    ensures
        final(out)@ == old(out)@ + enc_pairs(pairs_view(items@)),
        forall|i: int| 0 <= i < items@.len() ==> pair_ok(#[trigger] pairs_view(items@)[i]),
{
    let mut k: usize = 0;
    proof {
        assert(pairs_view(items@.take(0)) =~= Seq::<(PublicIdView, Seq<u8>)>::empty());
        assert(enc_pairs(pairs_view(items@.take(0))) =~= Seq::<u8>::empty());
        assert(out@ =~= out@ + enc_pairs(pairs_view(items@.take(0))));
    }
    while k < items.len()
        invariant
            k <= items@.len(),
            out@ == old(out)@ + enc_pairs(pairs_view(items@.take(k as int))),
            forall|i: int| 0 <= i < k ==> pair_ok(#[trigger] pairs_view(items@)[i]),
        decreases items@.len() - k,
    {
        write_pair(out, &items[k]);
        proof {
            let e = items@[k as int];
            assert(items@.take(k + 1 as int) =~= items@.take(k as int).push(e));
            assert(pairs_view(items@.take(k as int).push(e)) =~= pairs_view(
                items@.take(k as int),
            ).push((e.0@, e.1@)));
            lemma_enc_pairs_snoc(pairs_view(items@.take(k as int)), (e.0@, e.1@));
            assert(out@ =~= old(out)@ + enc_pairs(pairs_view(items@.take(k + 1 as int))));
        }
        k = k + 1;
    }
    proof {
        assert(items@.take(items@.len() as int) =~= items@);
    }
}

fn read_pairs(buf: &Vec<u8>, i: usize, n: u64) -> (r: Option<(Vec<(PublicId, Vec<u8>)>, usize)>)
    ensures
        match r {
            Some((items, j)) => dec_pairs(buf@, i as int, n as nat) == Some(
                (pairs_view(items@), j as int),
            ),
            None => dec_pairs(buf@, i as int, n as nat) is None,
        },
{
    let mut acc: Vec<(PublicId, Vec<u8>)> = Vec::new();
    let mut cur: usize = i;
    let mut t: u64 = 0;
    proof {
        assert(pairs_view(acc@) =~= Seq::<(PublicIdView, Seq<u8>)>::empty());
    }
    while t < n
        invariant
            t <= n,
            match dec_pairs(buf@, cur as int, (n - t) as nat) {
                Some((es, j)) => dec_pairs(buf@, i as int, n as nat) == Some(
                    (pairs_view(acc@) + es, j),
                ),
                None => dec_pairs(buf@, i as int, n as nat) is None,
            },
        decreases n - t,
    {
        match read_pair(buf, cur) {
            Some((e, j)) => {
                proof {
                    let ev = (e.0@, e.1@);
                    let rem = dec_pairs(buf@, j as int, (n - t - 1) as nat);
                    if rem is Some {
                        let (es, k) = rem.unwrap();
                        assert(dec_pairs(buf@, cur as int, (n - t) as nat) == Some(
                            (seq![ev] + es, k),
                        ));
                        assert(pairs_view(acc@.push(e)) =~= pairs_view(acc@).push(ev));
                        assert(pairs_view(acc@) + (seq![ev] + es) =~= pairs_view(acc@).push(ev)
                            + es);
                    }
                }
                acc.push(e);
                cur = j;
                t = t + 1;
            },
            None => {
                return None;
            },
        }
    }
    proof {
        assert(pairs_view(acc@) + Seq::<(PublicIdView, Seq<u8>)>::empty() =~= pairs_view(acc@));
    }
    Some((acc, cur))
}

// ---------------------------------------------------------------------------
// Messages
// ---------------------------------------------------------------------------

/// Types of peer-to-peer messages
#[derive(Clone, Debug, PartialEq)]
pub enum Message {
    /// Ordinary user message
    UserMessage(Vec<u8>),
    /// Message encrypted to the recipient's BLS public key
    EncryptedMessage(Vec<u8>),
    /// Message encoded using authenticated (sign-then-encrypt) encryption
    AuthenticatedMessage {
        /// Ciphertext
        message: Vec<u8>,
        /// Public identity of the sender
        sender: PublicId,
    },
    /// A signed message
    SignedMessage {
        /// Message
        message: Vec<u8>,
        /// Signature
        signature: Vec<u8>,
        /// Public identity of the sender
        sender: PublicId,
    },
    /// Message regarding the identification of a node
    Identification(PublicId),
    /// Message from contacts
    Contacts(Vec<NetAddr>),
    /// Message from an agent
    AgentMessage {
        /// Agent payload
        payload: Vec<(PublicId, Vec<u8>)>,
    },
    /// Routing information
    RoutingTable {
        /// Shared routing information
        shared_routing_table: SharedRoutingTable,
        /// Source of the message
        source: hash::Hash,
    },
}

/// The mathematical value of a `Message`.
pub enum MessageView {
    /// Ordinary user message
    UserMessage(Seq<u8>),
    /// Message encrypted to the recipient's BLS public key
    EncryptedMessage(Seq<u8>),
    /// Message encoded using authenticated encryption
    AuthenticatedMessage {
        /// Ciphertext
        message: Seq<u8>,
        /// Public identity of the sender
        sender: PublicIdView,
    },
    /// A signed message
    SignedMessage {
        /// Message
        message: Seq<u8>,
        /// Signature
        signature: Seq<u8>,
        /// Public identity of the sender
        sender: PublicIdView,
    },
    /// Message regarding the identification of a node
    Identification(PublicIdView),
    /// Message from contacts
    Contacts(Seq<NetAddr>),
    /// Message from an agent
    AgentMessage {
        /// Agent payload
        payload: Seq<(PublicIdView, Seq<u8>)>,
    },
    /// Routing information
    RoutingTable {
        /// Shared routing information
        shared: Seq<SharedEntry>,
        /// Source of the message
        source: hash::Hash,
    },
}

impl View for Message {
    type V = MessageView;

    open spec fn view(&self) -> MessageView {
        match self {
            Message::UserMessage(b) => MessageView::UserMessage(b@),
            Message::EncryptedMessage(b) => MessageView::EncryptedMessage(b@),
            Message::AuthenticatedMessage { message, sender } => MessageView::AuthenticatedMessage {
                message: message@,
                sender: sender@,
            },
            Message::SignedMessage { message, signature, sender } => MessageView::SignedMessage {
                message: message@,
                signature: signature@,
                sender: sender@,
            },
            Message::Identification(p) => MessageView::Identification(p@),
            Message::Contacts(a) => MessageView::Contacts(a@),
            Message::AgentMessage { payload } => MessageView::AgentMessage {
                payload: pairs_view(payload@),
            },
            Message::RoutingTable { shared_routing_table, source } => MessageView::RoutingTable {
                shared: shared_routing_table.spec_entries(),
                source: *source,
            },
        }
    }
}

/// A message value short enough for every length and count prefix.
pub open spec fn msg_view_ok(v: MessageView) -> bool {
    match v {
        MessageView::UserMessage(b) => b.len() <= u64::MAX,
        MessageView::EncryptedMessage(b) => b.len() <= u64::MAX,
        MessageView::AuthenticatedMessage { message, sender } => message.len() <= u64::MAX
            && pid_ok(sender),
        MessageView::SignedMessage { message, signature, sender } => message.len() <= u64::MAX
            && signature.len() <= u64::MAX && pid_ok(sender),
        MessageView::Identification(p) => pid_ok(p),
        MessageView::Contacts(a) => a.len() <= u64::MAX,
        MessageView::AgentMessage { payload } => payload.len() <= u64::MAX && forall|i: int|
            0 <= i < payload.len() ==> pair_ok(#[trigger] payload[i]),
        MessageView::RoutingTable { shared, source } => shared.len() <= u64::MAX,
    }
}

/// The fixed binary layout of a message: a one-byte variant tag, then the
/// variant's fields.
pub open spec fn enc_message(v: MessageView) -> Seq<u8> {
    match v {
        MessageView::UserMessage(b) => seq![0u8] + enc_bytes(b),
        MessageView::EncryptedMessage(b) => seq![1u8] + enc_bytes(b),
        MessageView::AuthenticatedMessage { message, sender } => seq![2u8] + enc_bytes(message)
            + enc_pid(sender),
        MessageView::SignedMessage { message, signature, sender } => seq![3u8] + enc_bytes(message)
            + enc_bytes(signature) + enc_pid(sender),
        MessageView::Identification(p) => seq![4u8] + enc_pid(p),
        MessageView::Contacts(a) => seq![5u8] + enc_u64(a.len() as u64) + enc_addrs(a),
        MessageView::AgentMessage { payload } => seq![6u8] + enc_u64(payload.len() as u64)
            + enc_pairs(payload),
        MessageView::RoutingTable { shared, source } => seq![7u8] + enc_u64(shared.len() as u64)
            + enc_sentries(shared) + enc_hash(source),
    }
}

/// Decodes a whole message: the tag picks the variant, the fields follow,
/// and every byte of the input must be consumed.
pub open spec fn dec_message(s: Seq<u8>) -> Option<MessageView> {
    if s.len() < 1 {
        None
    } else {
        let tag = s[0];
        if tag == 0 {
            match dec_bytes(s, 1) {
                Some((b, j)) => if j == s.len() {
                    Some(MessageView::UserMessage(b))
                } else {
                    None
                },
                None => None,
            }
        } else if tag == 1 {
            match dec_bytes(s, 1) {
                Some((b, j)) => if j == s.len() {
                    Some(MessageView::EncryptedMessage(b))
                } else {
                    None
                },
                None => None,
            }
        } else if tag == 2 {
            match dec_bytes(s, 1) {
                Some((message, j)) => match dec_pid(s, j) {
                    Some((sender, k)) => if k == s.len() {
                        Some(MessageView::AuthenticatedMessage { message, sender })
                    } else {
                        None
                    },
                    None => None,
                },
                None => None,
            }
        } else if tag == 3 {
            match dec_bytes(s, 1) {
                Some((message, j)) => match dec_bytes(s, j) {
                    Some((signature, k)) => match dec_pid(s, k) {
                        Some((sender, l)) => if l == s.len() {
                            Some(MessageView::SignedMessage { message, signature, sender })
                        } else {
                            None
                        },
                        None => None,
                    },
                    None => None,
                },
                None => None,
            }
        } else if tag == 4 {
            match dec_pid(s, 1) {
                Some((p, j)) => if j == s.len() {
                    Some(MessageView::Identification(p))
                } else {
                    None
                },
                None => None,
            }
        } else if tag == 5 {
            match dec_u64(s, 1) {
                Some((n, j)) => match dec_addrs(s, j, n as nat) {
                    Some((a, k)) => if k == s.len() {
                        Some(MessageView::Contacts(a))
                    } else {
                        None
                    },
                    None => None,
                },
                None => None,
            }
        } else if tag == 6 {
            match dec_u64(s, 1) {
                Some((n, j)) => match dec_pairs(s, j, n as nat) {
                    Some((payload, k)) => if k == s.len() {
                        Some(MessageView::AgentMessage { payload })
                    } else {
                        None
                    },
                    None => None,
                },
                None => None,
            }
        } else if tag == 7 {
            match dec_u64(s, 1) {
                Some((n, j)) => match dec_sentries(s, j, n as nat) {
                    Some((shared, k)) => match dec_hash(s, k) {
                        Some((source, l)) => if l == s.len() {
                            Some(MessageView::RoutingTable { shared, source })
                        } else {
                            None
                        },
                        None => None,
                    },
                    None => None,
                },
                None => None,
            }
        } else {
            None
        }
    }
}

/// Decoding the encoding of any message yields the message back: the wire
/// layout round-trips byte for byte.
pub proof fn lemma_message_round(v: MessageView)
    requires
        msg_view_ok(v),
    ensures
        dec_message(enc_message(v)) == Some(v),
{
    match v {
        MessageView::UserMessage(b) => lemma_message_round_usermessage(v),
        MessageView::EncryptedMessage(b) => lemma_message_round_encryptedmessage(v),
        MessageView::AuthenticatedMessage { message, sender } => lemma_message_round_authenticatedmessage(v),
        MessageView::SignedMessage { message, signature, sender } => lemma_message_round_signedmessage(v),
        MessageView::Identification(p) => lemma_message_round_identification(v),
        MessageView::Contacts(a) => lemma_message_round_contacts(v),
        MessageView::AgentMessage { payload } => lemma_message_round_agentmessage(v),
        MessageView::RoutingTable { shared, source } => lemma_message_round_routingtable(v),
    }
}

#[verifier::spinoff_prover]
#[verifier::rlimit(100)]
proof fn lemma_message_round_usermessage(v: MessageView)
    requires
        msg_view_ok(v),
        v matches MessageView::UserMessage(b),
    ensures
        dec_message(enc_message(v)) == Some(v),
{
    let s = enc_message(v);
    assert(s.subrange(0, s.len() as int) =~= s);
    if let MessageView::UserMessage(b) = v {
        assert(s =~= seq![0u8] + (enc_bytes(b) + Seq::<u8>::empty()));
        lemma_prefix_subrange(s, 0, seq![0u8], enc_bytes(b) + Seq::<u8>::empty());
        assert(s[0] == 0u8);
        assert(enc_bytes(b) + Seq::<u8>::empty() =~= enc_bytes(b));
        lemma_dec_bytes_round(s, 1, b, Seq::<u8>::empty());
        assert(dec_bytes(s, 1) == Some((b, 1 + 8 + b.len() as int)));
        assert(s.len() == 1 + 8 + b.len());
        assert(dec_message(s) == Some(v));
    }
}

#[verifier::spinoff_prover]
#[verifier::rlimit(60)]
proof fn lemma_message_round_encryptedmessage(v: MessageView)
    requires
        msg_view_ok(v),
        v matches MessageView::EncryptedMessage(b),
    ensures
        dec_message(enc_message(v)) == Some(v),
{
    let s = enc_message(v);
    assert(s.subrange(0, s.len() as int) =~= s);
    if let MessageView::EncryptedMessage(b) = v {
        assert(s =~= seq![1u8] + (enc_bytes(b) + Seq::<u8>::empty()));
        lemma_prefix_subrange(s, 0, seq![1u8], enc_bytes(b) + Seq::<u8>::empty());
        assert(s[0] == 1u8);
        assert(enc_bytes(b) + Seq::<u8>::empty() =~= enc_bytes(b));
        lemma_dec_bytes_round(s, 1, b, Seq::<u8>::empty());
    }
}

/// Field-level decoding facts for a tagged body of one byte string
/// followed by a public identity.
#[verifier::spinoff_prover]
#[verifier::rlimit(100)]
proof fn lemma_round_bytes_pid(s: Seq<u8>, tag: u8, a_raw: Seq<u8>, p: PublicIdView)
    requires
        s == seq![tag] + (enc_bytes(a_raw) + (enc_pid(p) + Seq::<u8>::empty())),
        a_raw.len() <= u64::MAX,
        pid_ok(p),
    ensures
        s.len() >= 1,
        s[0] == tag,
        dec_bytes(s, 1) == Some((a_raw, 9 + a_raw.len() as int)),
        dec_pid(s, 9 + a_raw.len() as int) == Some((p, s.len() as int)),
{
    let a = enc_bytes(a_raw);
    let c = enc_pid(p);
    let e = Seq::<u8>::empty();
    assert(s.subrange(0, s.len() as int) =~= s);
    lemma_prefix_subrange(s, 0, seq![tag], a + (c + e));
    lemma_dec_bytes_round(s, 1, a_raw, c + e);
    lemma_dec_pid_round(s, 9 + a_raw.len() as int, p, e);
}

/// Field-level decoding facts for a tagged body of two byte strings
/// followed by a public identity.
#[verifier::spinoff_prover]
#[verifier::rlimit(100)]
proof fn lemma_round_bytes_bytes_pid(s: Seq<u8>, tag: u8, a_raw: Seq<u8>, b_raw: Seq<u8>, p: PublicIdView)
    requires
        s == seq![tag] + (enc_bytes(a_raw) + (enc_bytes(b_raw) + (enc_pid(p)
            + Seq::<u8>::empty()))),
        a_raw.len() <= u64::MAX,
        b_raw.len() <= u64::MAX,
        pid_ok(p),
    ensures
        s.len() >= 1,
        s[0] == tag,
        dec_bytes(s, 1) == Some((a_raw, 9 + a_raw.len() as int)),
        dec_bytes(s, 9 + a_raw.len() as int) == Some((b_raw, 17 + a_raw.len() + b_raw.len() as int)),
        dec_pid(s, 17 + a_raw.len() + b_raw.len() as int) == Some((p, s.len() as int)),
{
    let a = enc_bytes(a_raw);
    let b = enc_bytes(b_raw);
    let c = enc_pid(p);
    let e = Seq::<u8>::empty();
    assert(s.subrange(0, s.len() as int) =~= s);
    lemma_prefix_subrange(s, 0, seq![tag], a + (b + (c + e)));
    lemma_dec_bytes_round(s, 1, a_raw, b + (c + e));
    lemma_dec_bytes_round(s, 9 + a_raw.len() as int, b_raw, c + e);
    lemma_dec_pid_round(s, 17 + a_raw.len() + b_raw.len() as int, p, e);
}

#[verifier::spinoff_prover]
#[verifier::rlimit(100)]
proof fn lemma_message_round_authenticatedmessage(v: MessageView)

    requires
        msg_view_ok(v),
        v matches MessageView::AuthenticatedMessage { message, sender },
    ensures
        dec_message(enc_message(v)) == Some(v),
{
    let s = enc_message(v);
    assert(s.subrange(0, s.len() as int) =~= s);
    if let MessageView::AuthenticatedMessage { message, sender } = v {
        let a = enc_bytes(message);
        let c = enc_pid(sender);
        let e = Seq::<u8>::empty();
        lemma_concat_empty(c);
        lemma_concat_assoc(seq![2u8], a, c);
        assert(s == seq![2u8] + (a + (c + e)));
        lemma_round_bytes_pid(s, 2u8, message, sender);
        assert(dec_message(s) == Some(v));
    }
}

#[verifier::spinoff_prover]
#[verifier::rlimit(100)]
proof fn lemma_message_round_signedmessage(v: MessageView)
    requires
        msg_view_ok(v),
        v matches MessageView::SignedMessage { message, signature, sender },
    ensures
        dec_message(enc_message(v)) == Some(v),
{
    let s = enc_message(v);
    assert(s.subrange(0, s.len() as int) =~= s);
    if let MessageView::SignedMessage { message, signature, sender } = v {
        let a = enc_bytes(message);
        let b = enc_bytes(signature);
        let c = enc_pid(sender);
        let e = Seq::<u8>::empty();
        lemma_concat_empty(c);
        lemma_concat_assoc(seq![3u8] + a, b, c);
        lemma_concat_assoc(seq![3u8], a, b + c);
        assert(s == seq![3u8] + (a + (b + (c + e))));
        lemma_round_bytes_bytes_pid(s, 3u8, message, signature, sender);
        assert(dec_message(s) == Some(v));
    }
}

#[verifier::spinoff_prover]
#[verifier::rlimit(60)]
proof fn lemma_message_round_identification(v: MessageView)
    requires
        msg_view_ok(v),
        v matches MessageView::Identification(p),
    ensures
        dec_message(enc_message(v)) == Some(v),
{
    let s = enc_message(v);
    assert(s.subrange(0, s.len() as int) =~= s);
    if let MessageView::Identification(p) = v {
        assert(s =~= seq![4u8] + (enc_pid(p) + Seq::<u8>::empty()));
        lemma_prefix_subrange(s, 0, seq![4u8], enc_pid(p) + Seq::<u8>::empty());
        assert(s[0] == 4u8);
        assert(enc_pid(p) + Seq::<u8>::empty() =~= enc_pid(p));
        lemma_dec_pid_round(s, 1, p, Seq::<u8>::empty());
    }
}

#[verifier::spinoff_prover]
#[verifier::rlimit(60)]
proof fn lemma_message_round_contacts(v: MessageView)
    requires
        msg_view_ok(v),
        v matches MessageView::Contacts(a),
    ensures
        dec_message(enc_message(v)) == Some(v),
{
    let s = enc_message(v);
    assert(s.subrange(0, s.len() as int) =~= s);
    if let MessageView::Contacts(a) = v {
        let n = a.len() as u64;
        assert(s =~= seq![5u8] + (enc_u64(n) + (enc_addrs(a) + Seq::<u8>::empty())));
        lemma_prefix_subrange(s, 0, seq![5u8], enc_u64(n) + (enc_addrs(a)
            + Seq::<u8>::empty()));
        assert(s[0] == 5u8);
        lemma_dec_u64_round(s, 1, n, enc_addrs(a) + Seq::<u8>::empty());
        lemma_prefix_subrange(s, 1, enc_u64(n), enc_addrs(a) + Seq::<u8>::empty());
        assert(enc_addrs(a) + Seq::<u8>::empty() =~= enc_addrs(a));
        lemma_dec_addrs_round(s, 9, a, Seq::<u8>::empty());
    }
}

#[verifier::spinoff_prover]
#[verifier::rlimit(60)]
proof fn lemma_message_round_agentmessage(v: MessageView)
    requires
        msg_view_ok(v),
        v matches MessageView::AgentMessage { payload },
    ensures
        dec_message(enc_message(v)) == Some(v),
{
    let s = enc_message(v);
    assert(s.subrange(0, s.len() as int) =~= s);
    if let MessageView::AgentMessage { payload } = v {
        let n = payload.len() as u64;
        assert(s =~= seq![6u8] + (enc_u64(n) + (enc_pairs(payload) + Seq::<u8>::empty())));
        lemma_prefix_subrange(s, 0, seq![6u8], enc_u64(n) + (enc_pairs(payload)
            + Seq::<u8>::empty()));
        assert(s[0] == 6u8);
        lemma_dec_u64_round(s, 1, n, enc_pairs(payload) + Seq::<u8>::empty());
        lemma_prefix_subrange(s, 1, enc_u64(n), enc_pairs(payload) + Seq::<u8>::empty());
        assert(enc_pairs(payload) + Seq::<u8>::empty() =~= enc_pairs(payload));
        lemma_dec_pairs_round(s, 9, payload, Seq::<u8>::empty());
    }
}

#[verifier::spinoff_prover]
#[verifier::rlimit(60)]
proof fn lemma_message_round_routingtable(v: MessageView)
    requires
        msg_view_ok(v),
        v matches MessageView::RoutingTable { shared, source },
    ensures
        dec_message(enc_message(v)) == Some(v),
{
    let s = enc_message(v);
    assert(s.subrange(0, s.len() as int) =~= s);
    if let MessageView::RoutingTable { shared, source } = v {
        let n = shared.len() as u64;
        assert(s =~= seq![7u8] + (enc_u64(n) + (enc_sentries(shared) + (enc_hash(source)
            + Seq::<u8>::empty()))));
        lemma_prefix_subrange(s, 0, seq![7u8], enc_u64(n) + (enc_sentries(shared) + (enc_hash(
            source,
        ) + Seq::<u8>::empty())));
        assert(s[0] == 7u8);
        lemma_dec_u64_round(s, 1, n, enc_sentries(shared) + (enc_hash(source)
            + Seq::<u8>::empty()));
        lemma_prefix_subrange(s, 1, enc_u64(n), enc_sentries(shared) + (enc_hash(source)
            + Seq::<u8>::empty()));
        lemma_dec_sentries_round(s, 9, shared, enc_hash(source) + Seq::<u8>::empty());
        let k: int = 9 + enc_sentries(shared).len() as int;
        assert(enc_hash(source) + Seq::<u8>::empty() =~= enc_hash(source));
        lemma_dec_hash_round(s, k, source, Seq::<u8>::empty());
        lemma_hash_view_round(source);
    }
}

impl Message {
    /// Encodes the message in its wire layout.
    #[verifier::rlimit(100)]
    #[verifier::spinoff_prover]
    pub fn encode(&self) -> (out: Vec<u8>)
        ensures
            out@ == enc_message(self@),
            msg_view_ok(self@),
    {
        let mut out: Vec<u8> = Vec::new();
        match self {
            Message::UserMessage(b) => {
                out.push(0);
                write_bytes(&mut out, b);
                assert(out@ =~= enc_message(self@));
            },
            Message::EncryptedMessage(b) => {
                out.push(1);
                write_bytes(&mut out, b);
                assert(out@ =~= enc_message(self@));
            },
            Message::AuthenticatedMessage { message, sender } => {
                out.push(2);
                write_bytes(&mut out, message);
                write_pid(&mut out, sender);
                assert(out@ =~= enc_message(self@));
            },
            Message::SignedMessage { message, signature, sender } => {
                out.push(3);
                write_bytes(&mut out, message);
                write_bytes(&mut out, signature);
                write_pid(&mut out, sender);
                assert(out@ =~= enc_message(self@));
            },
            Message::Identification(p) => {
                out.push(4);
                write_pid(&mut out, p);
                assert(out@ =~= enc_message(self@));
            },
            Message::Contacts(a) => {
                out.push(5);
                let n = a.len();
                assert(n <= u64::MAX);
                write_u64(&mut out, n as u64);
                write_addrs(&mut out, a);
                assert(out@ =~= enc_message(self@));
            },
            Message::AgentMessage { payload } => {
                out.push(6);
                let n = payload.len();
                assert(n <= u64::MAX);
                write_u64(&mut out, n as u64);
                write_pairs(&mut out, payload);
                assert(out@ =~= enc_message(self@));
                assert(pairs_view(payload@).len() == payload@.len());
            },
            Message::RoutingTable { shared_routing_table, source } => {
                out.push(7);
                let rows = shared_routing_table.shared_entries();
                let n = rows.len();
                assert(n <= u64::MAX);
                write_u64(&mut out, n as u64);
                write_sentries(&mut out, rows);
                write_hash(&mut out, source);
                assert(out@ =~= enc_message(self@));
            },
        }
        out
    }

    /// Decodes a message from its wire layout; `None` when the bytes are
    /// not exactly the encoding of one message.
    #[verifier::rlimit(100)]
    #[verifier::spinoff_prover]
    pub fn decode(buf: &Vec<u8>) -> (r: Option<Message>)
        ensures
            (r is Some) == (dec_message(buf@) is Some),
            r matches Some(m) ==> dec_message(buf@) == Some(m@),
    {
        if buf.len() < 1 {
            return None;
        }
        let tag = buf[0];
        if tag == 0 {
            match read_bytes(buf, 1) {
                Some((b, j)) => if j == buf.len() {
                    Some(Message::UserMessage(b))
                } else {
                    None
                },
                None => None,
            }
        } else if tag == 1 {
            match read_bytes(buf, 1) {
                Some((b, j)) => if j == buf.len() {
                    Some(Message::EncryptedMessage(b))
                } else {
                    None
                },
                None => None,
            }
        } else if tag == 2 {
            match read_bytes(buf, 1) {
                Some((message, j)) => match read_pid(buf, j) {
                    Some((sender, k)) => if k == buf.len() {
                        Some(Message::AuthenticatedMessage { message, sender })
                    } else {
                        None
                    },
                    None => None,
                },
                None => None,
            }
        } else if tag == 3 {
            match read_bytes(buf, 1) {
                Some((message, j)) => match read_bytes(buf, j) {
                    Some((signature, k)) => match read_pid(buf, k) {
                        Some((sender, l)) => if l == buf.len() {
                            Some(Message::SignedMessage { message, signature, sender })
                        } else {
                            None
                        },
                        None => None,
                    },
                    None => None,
                },
                None => None,
            }
        } else if tag == 4 {
            match read_pid(buf, 1) {
                Some((p, j)) => if j == buf.len() {
                    Some(Message::Identification(p))
                } else {
                    None
                },
                None => None,
            }
        } else if tag == 5 {
            match read_u64(buf, 1) {
                Some((n, j)) => match read_addrs(buf, j, n) {
                    Some((a, k)) => if k == buf.len() {
                        Some(Message::Contacts(a))
                    } else {
                        None
                    },
                    None => None,
                },
                None => None,
            }
        } else if tag == 6 {
            match read_u64(buf, 1) {
                Some((n, j)) => match read_pairs(buf, j, n) {
                    Some((payload, k)) => if k == buf.len() {
                        Some(Message::AgentMessage { payload })
                    } else {
                        None
                    },
                    None => None,
                },
                None => None,
            }
        } else if tag == 7 {
            match read_u64(buf, 1) {
                Some((n, j)) => match read_sentries(buf, j, n) {
                    Some((shared, k)) => match read_hash_at(buf, k) {
                        Some((source, l)) => if l == buf.len() {
                            Some(
                                Message::RoutingTable {
                                    shared_routing_table: SharedRoutingTable::from_rows(shared),
                                    source,
                                },
                            )
                        } else {
                            None
                        },
                        None => None,
                    },
                    None => None,
                },
                None => None,
            }
        } else {
            None
        }
    }
}

// ---------------------------------------------------------------------------
// Transmissions
// ---------------------------------------------------------------------------

/// The label a transmitted unit carries on the transport framing.
#[derive(Clone, Copy, PartialEq, Eq, Structural, Debug)]
pub enum TransmissionLabel {
    /// An Identification message
    PublicIdentity,
    /// A Contacts message offered to a peer that cannot be tracked
    Contacts,
    /// An agent (relay) message
    AgentMessage,
    /// A shared routing table
    RoutingInformation,
    /// A retried message that previously failed, with its tag
    Pending(u64),
}

/// One outbound unit handed to the transport: a label, the destination
/// address, the serialized message bytes, and the transport priority (zero
/// for ordinary sends, one for the Contacts side channel).
#[derive(Clone, Debug, PartialEq)]
pub struct Transmission {
    /// The label.
    pub label: TransmissionLabel,
    /// The destination address.
    pub dest: NetAddr,
    /// The serialized message.
    pub bytes: Vec<u8>,
    /// The transport priority.
    pub priority: u8,
}

} // verus!
