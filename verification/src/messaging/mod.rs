//! Messaging protocol: point-to-point messages wait in a retry-bounded
//! outbox, previously unsendable payloads wait in a pending queue, and a
//! dissemination cycle forwards everything one random active neighbor at a
//! time. Inbound agent payloads are split between this node and the rest of
//! the random walk.

/// Types of peer-to-peer messages
pub mod message;

use crate::connection::connection_types::NetAddr;
use crate::crypto::hash;
use crate::crypto::keys::{ed25519_accepts, ed25519_pk_of, ed25519_sign_of, KEY_SIZE};
use crate::crypto::signature::{bls_decrypt, bls_encrypt, bls_pk_ok, PK_SIZE};
use crate::error::Error;
use crate::event::Event;
use crate::identity::public_id::{PublicId, PublicIdView};
use crate::identity::{auth_open, Identity};
use crate::wire::{clone_bytes, slice_to_vec};
use message::{
    dec_message, enc_message, pairs_view, Message, MessageView, Transmission, TransmissionLabel,
};
use vstd::prelude::*;

verus! {

/// How many dissemination cycles an outbox entry survives before it is
/// dropped.
pub const OUTBOX_COPIES: usize = 3;

/// One outbox entry: a message awaiting retry-bounded delivery.
#[derive(Debug, Clone)]
pub struct OutboxEntry {
    /// The intended recipient.
    pub recipient: PublicId,
    /// The serialized message.
    pub bytes: Vec<u8>,
    /// How many more dissemination cycles the entry survives.
    pub copies: usize,
}

/// One pending entry: a payload whose earlier transmission failed.
#[derive(Debug, Clone)]
pub struct PendingEntry {
    /// The raw payload.
    pub bytes: Vec<u8>,
    /// The tag the transport handed back with the failure.
    pub token: u64,
}

/// The mathematical value of the outbox: recipient, bytes and remaining
/// copies of each entry.
pub open spec fn obx_view(s: Seq<OutboxEntry>) -> Seq<(PublicIdView, Seq<u8>, usize)> {
    s.map_values(|e: OutboxEntry| (e.recipient@, e.bytes@, e.copies))
}

/// The mathematical value of the pending queue.
pub open spec fn pnd_view(s: Seq<PendingEntry>) -> Seq<(Seq<u8>, u64)> {
    s.map_values(|e: PendingEntry| (e.bytes@, e.token))
}

/// One dissemination cycle of the outbox: every entry loses one copy, and
/// entries with no copies left are dropped.
pub open spec fn cycle_obx(s: Seq<(PublicIdView, Seq<u8>, usize)>) -> Seq<
    (PublicIdView, Seq<u8>, usize),
>
    decreases s.len(),
{
    if s.len() == 0 {
        Seq::empty()
    } else {
        let rest = cycle_obx(s.drop_last());
        let e = s.last();
        if e.2 > 1 {
            rest.push((e.0, e.1, (e.2 - 1) as usize))
        } else {
            rest
        }
    }
}

/// The relay pairs an outbox contributes to an agent payload.
pub open spec fn obx_pairs(s: Seq<(PublicIdView, Seq<u8>, usize)>) -> Seq<(PublicIdView, Seq<u8>)> {
    s.map_values(|e: (PublicIdView, Seq<u8>, usize)| (e.0, e.1))
}

/// Every entry has at most `k` copies left.
pub open spec fn obx_bounded(s: Seq<(PublicIdView, Seq<u8>, usize)>, k: int) -> bool {
    forall|i: int| 0 <= i < s.len() ==> (#[trigger] s[i]).2 <= k
}

/// What a message surfaces to the application when handled by the node
/// whose BLS secret key is `bls_sk`: the payload of a plain user message,
/// the plaintext of a ciphertext that opens under the node's key, the
/// plaintext of an authenticated message whose inner signature verifies
/// under the claimed sender's signing key, or the payload of a signed
/// message whose signature verifies; nothing otherwise.
pub open spec fn surfaced_of(msg: Seq<u8>, bls_sk: Seq<u8>) -> Option<Seq<u8>> {
    match dec_message(msg) {
        Some(MessageView::UserMessage(c)) => Some(c),
        Some(MessageView::EncryptedMessage(ct)) => bls_decrypt(bls_sk, ct),
        Some(MessageView::AuthenticatedMessage { message, sender }) => auth_open(
            bls_sk,
            message,
            sender.signing_public_key,
        ),
        Some(MessageView::SignedMessage { message, signature, sender }) => if ed25519_accepts(
            sender.signing_public_key,
            message,
            signature,
        ) {
            Some(message)
        } else {
            None
        },
        _ => None,
    }
}

/// Whether `e` surfaces the payload `m` to the application.
pub open spec fn is_new_message_event(e: Event, m: Seq<u8>) -> bool {
    match e {
        Event::NewMessage(c) => c@ == m,
        _ => false,
    }
}

/// The payloads surfaced when the relay pairs `p` are handled by the node
/// with identifier `n` and BLS secret key `sk`: locally addressed pairs, in
/// order, whose message surfaces something.
pub open spec fn agent_new_msgs(
    p: Seq<(PublicIdView, Seq<u8>)>,
    n: hash::Hash,
    sk: Seq<u8>,
) -> Seq<Seq<u8>>
    decreases p.len(),
{
    if p.len() == 0 {
        Seq::empty()
    } else {
        let head: Seq<Seq<u8>> = if p[0].0.node_id == n {
            match surfaced_of(p[0].1, sk) {
                Some(m) => seq![m],
                None => Seq::empty(),
            }
        } else {
            Seq::empty()
        };
        head + agent_new_msgs(p.drop_first(), n, sk)
    }
}

/// The relay pairs not addressed to the node with identifier `n`, in order.
pub open spec fn agent_forward(
    p: Seq<(PublicIdView, Seq<u8>)>,
    n: hash::Hash,
) -> Seq<(PublicIdView, Seq<u8>)>
    decreases p.len(),
{
    if p.len() == 0 {
        Seq::empty()
    } else {
        let head: Seq<(PublicIdView, Seq<u8>)> = if p[0].0.node_id != n {
            seq![p[0]]
        } else {
            Seq::empty()
        };
        head + agent_forward(p.drop_first(), n)
    }
}

/// Relies on `rand::thread_rng` and `rand::Rng::gen_range`: some index
/// below `n`. The choice is random; nothing more is promised.
#[verifier::external_body]
fn pick_index(n: usize) -> (r: usize)
    requires
        n > 0,
    ensures
        r < n,
{
    rand::Rng::gen_range(&mut rand::thread_rng(), 0..n)
}

/// Whether `sends` retries exactly the old pending queue, newest first,
/// each against some active connection.
pub open spec fn pending_sends_ok(
    oldp: Seq<(Seq<u8>, u64)>,
    active: Seq<NetAddr>,
    sends: Seq<Transmission>,
) -> bool {
    &&& sends.len() == oldp.len()
    &&& forall|i: int| 0 <= i < sends.len() ==> (#[trigger] sends[i]).label
        == TransmissionLabel::Pending(oldp[oldp.len() - 1 - i].1)
    &&& forall|i: int| 0 <= i < sends.len() ==> (#[trigger] sends[i]).bytes@ == oldp[oldp.len() - 1
        - i].0
    &&& forall|i: int| 0 <= i < sends.len() ==> active.contains((#[trigger] sends[i]).dest)
    &&& forall|i: int| 0 <= i < sends.len() ==> (#[trigger] sends[i]).priority == 0
}

/// The outcome of one dissemination cycle: with no active connection
/// nothing changes and nothing is sent; otherwise the pending queue is
/// drained into retries, the outbox loses one copy per entry, and a single
/// agent message carrying the given payload and every outbox entry goes to
/// some active connection.
pub open spec fn agent_cycle_ok(
    oldm: Messaging,
    newm: Messaging,
    payload: Seq<(PublicIdView, Seq<u8>)>,
    active: Seq<NetAddr>,
    sends: Seq<Transmission>,
) -> bool {
    if active.len() == 0 {
        newm == oldm && sends.len() == 0
    } else {
        &&& newm.spec_pending().len() == 0
        &&& obx_view(newm.spec_outbox()) == cycle_obx(obx_view(oldm.spec_outbox()))
        &&& sends.len() == pnd_view(oldm.spec_pending()).len() + 1
        &&& pending_sends_ok(pnd_view(oldm.spec_pending()), active, sends.take(sends.len() - 1))
        &&& {
            let last = sends.last();
            &&& last.label == TransmissionLabel::AgentMessage
            &&& active.contains(last.dest)
            &&& last.priority == 0
            &&& last.bytes@ == enc_message(
                MessageView::AgentMessage {
                    payload: payload + obx_pairs(obx_view(oldm.spec_outbox())),
                },
            )
        }
    }
}

/// Messaging functionality
#[derive(Debug)]
pub struct Messaging {
    outbox: Vec<OutboxEntry>,
    pending: Vec<PendingEntry>,
}

impl Messaging {
    /// The outbox entries.
    pub closed spec fn spec_outbox(self) -> Seq<OutboxEntry> {
        self.outbox@
    }

    /// The pending entries.
    pub closed spec fn spec_pending(self) -> Seq<PendingEntry> {
        self.pending@
    }

    /// A well-formed messaging state: every outbox entry has between one
    /// and `OUTBOX_COPIES` copies left.
    pub open spec fn wf(self) -> bool {
        forall|i: int| 0 <= i < self.spec_outbox().len() ==> 1 <= (
        #[trigger] self.spec_outbox()[i]).copies <= OUTBOX_COPIES
    }

    /// Creates a new `Messaging` type.
    pub fn new() -> (r: Self)
        ensures
            r.wf(),
            r.spec_outbox() == Seq::<OutboxEntry>::empty(),
            r.spec_pending() == Seq::<PendingEntry>::empty(),
    {
        Messaging { outbox: Vec::new(), pending: Vec::new() }
    }

    /// How many entries wait in the outbox.
    pub fn outbox_len(&self) -> (r: usize)
        ensures
            r == self.spec_outbox().len(),
    {
        self.outbox.len()
    }

    /// How many entries wait in the pending queue.
    pub fn pending_len(&self) -> (r: usize)
        ensures
            r == self.spec_pending().len(),
    {
        self.pending.len()
    }

    /// Queue an ordinary message to a peer for the next dissemination
    /// cycles.
    pub fn send_message(&mut self, dst: &PublicId, message: &[u8]) -> (r: Result<(), Error>)
        requires
            old(self).wf(),
        ensures
            final(self).wf(),
            r is Ok,
            final(self).spec_pending() == old(self).spec_pending(),
            obx_view(final(self).spec_outbox()) == obx_view(old(self).spec_outbox()).push(
                (dst@, enc_message(MessageView::UserMessage(message@)), OUTBOX_COPIES),
            ),
    {
        let msg = Message::UserMessage(slice_to_vec(message));
        let bytes = msg.encode();
        self.outbox.push(OutboxEntry { recipient: dst.clone(), bytes, copies: OUTBOX_COPIES });
        proof {
            assert(obx_view(self.spec_outbox()) =~= obx_view(old(self).spec_outbox()).push(
                (dst@, enc_message(MessageView::UserMessage(message@)), OUTBOX_COPIES),
            ));
        }
        Ok(())
    }

    /// Queue a message encrypted to the peer's BLS public key. Fails only
    /// when the peer's claimed key is not a valid BLS public key.
    pub fn send_encrypted_message(&mut self, dst: &PublicId, message: &[u8]) -> (r: Result<
        (),
        Error,
    >)
        requires
            old(self).wf(),
        ensures
            final(self).wf(),
            (r is Ok) == (dst.public_key@.len() == PK_SIZE && bls_pk_ok(dst.public_key@)),
            final(self).spec_pending() == old(self).spec_pending(),
            r is Ok ==> exists|ct: Seq<u8>|
                obx_view(final(self).spec_outbox()) == obx_view(old(self).spec_outbox()).push(
                    (dst@, enc_message(MessageView::EncryptedMessage(ct)), OUTBOX_COPIES),
                ) && (forall|sk: Seq<u8>|
                    message@.len() > 0 && sk.len() == crate::crypto::signature::SK_SIZE
                        && crate::crypto::signature::bls_sk_ok(sk)
                        && #[trigger] crate::crypto::signature::bls_pk_of(sk) == dst.public_key@
                        ==> bls_decrypt(sk, ct) == Some(message@)),
            r is Err ==> final(self).spec_outbox() == old(self).spec_outbox(),
    {
        let cypher = match bls_encrypt(&dst.public_key, message) {
            Some(c) => c,
            None => {
                return Err(Error::BlsThresholdCryptoError);
            },
        };
        let ghost ct = cypher@;
        let msg = Message::EncryptedMessage(cypher);
        let bytes = msg.encode();
        self.outbox.push(OutboxEntry { recipient: dst.clone(), bytes, copies: OUTBOX_COPIES });
        proof {
            assert(obx_view(self.spec_outbox()) =~= obx_view(old(self).spec_outbox()).push(
                (dst@, enc_message(MessageView::EncryptedMessage(ct)), OUTBOX_COPIES),
            ));
        }
        Ok(())
    }

    /// Queue a message under authenticated (sign-then-encrypt) encryption.
    /// Fails only when this node's signing key is malformed or the peer's
    /// claimed key is not a valid BLS public key.
    pub fn send_authenticated_message(
        &mut self,
        self_id: &Identity,
        dst: &PublicId,
        message: &[u8],
    ) -> (r: Result<(), Error>)
        requires
            old(self).wf(),
        ensures
            final(self).wf(),
            (r is Ok) == (self_id.spec_sign_sk().len() == KEY_SIZE && dst.public_key@.len()
                == PK_SIZE && bls_pk_ok(dst.public_key@)),
            final(self).spec_pending() == old(self).spec_pending(),
            r is Ok ==> exists|ct: Seq<u8>|
                obx_view(final(self).spec_outbox()) == obx_view(old(self).spec_outbox()).push(
                    (
                        dst@,
                        enc_message(
                            MessageView::AuthenticatedMessage {
                                message: ct,
                                sender: self_id.spec_pid(),
                            },
                        ),
                        OUTBOX_COPIES,
                    ),
                ) && (forall|sk: Seq<u8>|
                    sk.len() == crate::crypto::signature::SK_SIZE
                        && crate::crypto::signature::bls_sk_ok(sk)
                        && #[trigger] crate::crypto::signature::bls_pk_of(sk) == dst.public_key@
                        ==> bls_decrypt(sk, ct) == Some(
                        crate::wire::enc_bytes(message@) + crate::wire::enc_bytes(
                            ed25519_sign_of(self_id.spec_sign_sk(), message@),
                        ),
                    )),
            r is Err ==> final(self).spec_outbox() == old(self).spec_outbox(),
    {
        let cypher = match self_id.authenticate_message(dst, message) {
            Ok(c) => c,
            Err(e) => {
                return Err(e);
            },
        };
        let ghost ct = cypher@;
        let msg = Message::AuthenticatedMessage { message: cypher, sender: self_id.public_id() };
        let bytes = msg.encode();
        self.outbox.push(OutboxEntry { recipient: dst.clone(), bytes, copies: OUTBOX_COPIES });
        proof {
            assert(obx_view(self.spec_outbox()) =~= obx_view(old(self).spec_outbox()).push(
                (
                    dst@,
                    enc_message(
                        MessageView::AuthenticatedMessage { message: ct, sender: self_id.spec_pid() },
                    ),
                    OUTBOX_COPIES,
                ),
            ));
        }
        Ok(())
    }

    /// Sign a message with this node's signing key and queue the plaintext
    /// together with the detached signature and the sender's identity.
    /// Fails only when this node's signing key is malformed.
    pub fn send_signed_message(
        &mut self,
        self_id: &Identity,
        dst: &PublicId,
        message: &[u8],
    ) -> (r: Result<(), Error>)
        requires
            old(self).wf(),
        ensures
            final(self).wf(),
            (r is Ok) == (self_id.spec_sign_sk().len() == KEY_SIZE),
            final(self).spec_pending() == old(self).spec_pending(),
            r is Ok ==> obx_view(final(self).spec_outbox()) == obx_view(
                old(self).spec_outbox(),
            ).push(
                (
                    dst@,
                    enc_message(
                        MessageView::SignedMessage {
                            message: message@,
                            signature: ed25519_sign_of(self_id.spec_sign_sk(), message@),
                            sender: self_id.spec_pid(),
                        },
                    ),
                    OUTBOX_COPIES,
                ),
            ),
            r is Err ==> final(self).spec_outbox() == old(self).spec_outbox(),
    {
        let signature = match self_id.sign_message(message) {
            Ok(s) => s,
            Err(e) => {
                return Err(e);
            },
        };
        let msg = Message::SignedMessage {
            message: slice_to_vec(message),
            signature,
            sender: self_id.public_id(),
        };
        let bytes = msg.encode();
        self.outbox.push(OutboxEntry { recipient: dst.clone(), bytes, copies: OUTBOX_COPIES });
        proof {
            assert(obx_view(self.spec_outbox()) =~= obx_view(old(self).spec_outbox()).push(
                (
                    dst@,
                    enc_message(
                        MessageView::SignedMessage {
                            message: message@,
                            signature: ed25519_sign_of(self_id.spec_sign_sk(), message@),
                            sender: self_id.spec_pid(),
                        },
                    ),
                    OUTBOX_COPIES,
                ),
            ));
        }
        Ok(())
    }

    /// Add an unsent message to the list of pending messages.
    pub fn handle_unsent_message(&mut self, msg: Vec<u8>, tag: u64) -> (r: Result<(), Error>)
        requires
            old(self).wf(),
        ensures
            final(self).wf(),
            r is Ok,
            final(self).spec_outbox() == old(self).spec_outbox(),
            pnd_view(final(self).spec_pending()) == pnd_view(old(self).spec_pending()).push(
                (msg@, tag),
            ),
    {
        let ghost m = msg@;
        self.pending.push(PendingEntry { bytes: msg, token: tag });
        proof {
            assert(self.spec_outbox() == old(self).spec_outbox());
            assert(pnd_view(self.spec_pending()) =~= pnd_view(old(self).spec_pending()).push(
                (m, tag),
            ));
        }
        Ok(())
    }

    /// Drain the pending queue, newest first, retrying each payload against
    /// a randomly chosen active connection.
    fn send_pending_messages(&mut self, active_connections: &Vec<NetAddr>) -> (sends: Vec<
        Transmission,
    >)
        requires
            old(self).wf(),
            active_connections@.len() > 0,
        ensures
            final(self).wf(),
            final(self).spec_outbox() == old(self).spec_outbox(),
            final(self).spec_pending().len() == 0,
            pending_sends_ok(pnd_view(old(self).spec_pending()), active_connections@, sends@),
    {
        let ghost oldp = pnd_view(old(self).spec_pending());
        let mut sends: Vec<Transmission> = Vec::new();
        while self.pending.len() > 0
            invariant
                self.wf(),
                active_connections@.len() > 0,
                self.spec_outbox() == old(self).spec_outbox(),
                sends@.len() + self.spec_pending().len() == oldp.len(),
                pnd_view(self.spec_pending()) == oldp.take(self.spec_pending().len() as int),
                forall|i: int| 0 <= i < sends@.len() ==> (#[trigger] sends@[i]).label
                    == TransmissionLabel::Pending(oldp[oldp.len() - 1 - i].1),
                forall|i: int| 0 <= i < sends@.len() ==> (#[trigger] sends@[i]).bytes@
                    == oldp[oldp.len() - 1 - i].0,
                forall|i: int| 0 <= i < sends@.len() ==> active_connections@.contains(
                    (#[trigger] sends@[i]).dest,
                ),
                forall|i: int| 0 <= i < sends@.len() ==> (#[trigger] sends@[i]).priority == 0,
            decreases self.spec_pending().len(),
        {
            let ghost prevp = self.spec_pending();
            let ghost lp = prevp.len() as int;
            let entry = match self.pending.pop() {
                Some(e) => e,
                None => vstd::pervasive::unreached(),
            };
            proof {
                assert(pnd_view(prevp)[lp - 1] == (entry.bytes@, entry.token));
                assert(pnd_view(self.spec_pending()) =~= pnd_view(prevp).drop_last());
                assert(pnd_view(prevp).drop_last() =~= oldp.take(lp - 1));
                assert(oldp.take(lp)[lp - 1] == oldp[lp - 1]);
            }
            let r = pick_index(active_connections.len());
            let dest = active_connections[r];
            sends.push(
                Transmission {
                    label: TransmissionLabel::Pending(entry.token),
                    dest,
                    bytes: entry.bytes,
                    priority: 0,
                },
            );
        }
        proof {
            assert(oldp.take(0) =~= Seq::<(Seq<u8>, u64)>::empty());
        }
        sends
    }

    /// One dissemination cycle: with no active connection nothing happens;
    /// otherwise pending payloads are retried, every outbox entry loses one
    /// copy (entries out of copies are dropped), and one agent message
    /// carrying the given payload and the whole outbox goes to one random
    /// active connection.
    #[allow(unused_variables)]
    pub fn send_agent_message(
        &mut self,
        payload: Vec<(PublicId, Vec<u8>)>,
        active_connections: &Vec<NetAddr>,
        first: bool,
    ) -> (sends: Vec<Transmission>)
        requires
            old(self).wf(),
        ensures
            final(self).wf(),
            agent_cycle_ok(
                *old(self),
                *final(self),
                pairs_view(payload@),
                active_connections@,
                sends@,
            ),
    {
        if active_connections.len() == 0 {
            return Vec::new();
        }
        let mut payload = payload;
        let ghost p0 = pairs_view(payload@);
        let mut sends = self.send_pending_messages(active_connections);
        let ghost pend_sends = sends@;

        let ghost oldbx = obx_view(old(self).spec_outbox());
        let mut new_outbox: Vec<OutboxEntry> = Vec::new();
        let mut j: usize = 0;
        proof {
            assert(oldbx.take(0) =~= Seq::<(PublicIdView, Seq<u8>, usize)>::empty());
            assert(obx_pairs(oldbx.take(0)) =~= Seq::<(PublicIdView, Seq<u8>)>::empty());
            assert(pairs_view(payload@) =~= p0 + obx_pairs(oldbx.take(0)));
        }
        while j < self.outbox.len()
            invariant
                j <= self.spec_outbox().len(),
                self.wf(),
                obx_view(self.spec_outbox()) == oldbx,
                self.spec_pending().len() == 0,
                pairs_view(payload@) == p0 + obx_pairs(oldbx.take(j as int)),
                obx_view(new_outbox@) == cycle_obx(oldbx.take(j as int)),
                forall|i: int| 0 <= i < new_outbox@.len() ==> 1 <= (
                #[trigger] new_outbox@[i]).copies <= OUTBOX_COPIES,
            decreases self.spec_outbox().len() - j,
        {
            let rec = self.outbox[j].recipient.clone();
            let b = clone_bytes(&self.outbox[j].bytes);
            let c = self.outbox[j].copies;
            let ghost prev_pairs = pairs_view(payload@);
            payload.push((rec, b));
            proof {
                let pairj = (oldbx[j as int].0, oldbx[j as int].1);
                assert(oldbx.take(j + 1 as int).drop_last() =~= oldbx.take(j as int));
                assert(oldbx.take(j + 1 as int).last() == oldbx[j as int]);
                assert(pairs_view(payload@) =~= prev_pairs.push(pairj));
                assert(obx_pairs(oldbx.take(j + 1 as int)) =~= obx_pairs(
                    oldbx.take(j as int),
                ).push(pairj));
                assert((p0 + obx_pairs(oldbx.take(j as int))).push(pairj) =~= p0 + obx_pairs(
                    oldbx.take(j as int),
                ).push(pairj));
            }
            if c - 1 > 0 {
                let rec2 = self.outbox[j].recipient.clone();
                let b2 = clone_bytes(&self.outbox[j].bytes);
                new_outbox.push(OutboxEntry { recipient: rec2, bytes: b2, copies: c - 1 });
            }
            proof {
                assert(obx_view(new_outbox@) =~= cycle_obx(oldbx.take(j + 1 as int)));
            }
            j = j + 1;
        }
        proof {
            assert(oldbx.take(oldbx.len() as int) =~= oldbx);
        }
        self.outbox = new_outbox;

        let msg = Message::AgentMessage { payload };
        let bytes = msg.encode();
        let r = pick_index(active_connections.len());
        let dest = active_connections[r];
        sends.push(
            Transmission { label: TransmissionLabel::AgentMessage, dest, bytes, priority: 0 },
        );
        proof {
            assert(sends@.take(sends@.len() - 1) =~= pend_sends);
        }
        sends
    }

    /// Decode one locally addressed message and surface what it yields: a
    /// plain payload as is, an encrypted one if it opens under this node's
    /// key, an authenticated or signed one if the signature verifies under
    /// the claimed sender's signing key. Anything else, and any message
    /// that fails to decode or verify, is dropped.
    pub fn handle_message(&self, msg: &Vec<u8>, self_id: &Identity) -> (events: Vec<Event>)
        ensures
            surfaced_of(msg@, self_id.spec_bls_sk()) matches Some(m) ==> events@.len() == 1
                && is_new_message_event(events@[0], m),
            surfaced_of(msg@, self_id.spec_bls_sk()) is None ==> events@.len() == 0,
            (match dec_message(msg@) {
                Some(MessageView::SignedMessage { message: sm, signature: sg, sender: sd }) => {
                    (exists|sk: Seq<u8>|
                        sk.len() == KEY_SIZE && sd.signing_public_key == ed25519_pk_of(sk) && sg
                            == #[trigger] ed25519_sign_of(sk, sm)) ==> events@.len() == 1
                        && is_new_message_event(events@[0], sm)
                },
                _ => true,
            }),
    {
        let mut events: Vec<Event> = Vec::new();
        let decoded = match Message::decode(msg) {
            Some(m) => m,
            None => {
                return events;
            },
        };
        match decoded {
            Message::UserMessage(content) => {
                events.push(Event::NewMessage(content));
            },
            Message::EncryptedMessage(content) => {
                match self_id.decrypt_message(&content) {
                    Ok(m) => {
                        events.push(Event::NewMessage(m));
                    },
                    Err(_) => {},
                }
            },
            Message::AuthenticatedMessage { message, sender } => {
                match self_id.verify_message(&sender, &message) {
                    Ok(m) => {
                        events.push(Event::NewMessage(m));
                    },
                    Err(_) => {},
                }
            },
            Message::SignedMessage { message, signature, sender } => {
                if crate::crypto::keys::ed_verify(
                    &sender.signing_public_key,
                    message.as_slice(),
                    &signature,
                ) {
                    events.push(Event::NewMessage(message));
                }
            },
            _ => {},
        }
        events
    }

    /// Split an inbound agent payload: what is addressed to this node is
    /// handled and surfaced, everything else is forwarded through another
    /// dissemination cycle.
    pub fn handle_agent_message(
        &mut self,
        self_id: &Identity,
        payload: Vec<(PublicId, Vec<u8>)>,
        active_connections: &Vec<NetAddr>,
    ) -> (r: (Vec<Event>, Vec<Transmission>))
        requires
            old(self).wf(),
        ensures
            final(self).wf(),
            ({
                let (events, sends) = r;
                let msgs = agent_new_msgs(
                    pairs_view(payload@),
                    self_id.spec_node_id(),
                    self_id.spec_bls_sk(),
                );
                &&& events@.len() == msgs.len()
                &&& (forall|i: int| 0 <= i < msgs.len() ==> is_new_message_event(
                    #[trigger] events@[i],
                    msgs[i],
                ))
                &&& agent_cycle_ok(
                    *old(self),
                    *final(self),
                    agent_forward(pairs_view(payload@), self_id.spec_node_id()),
                    active_connections@,
                    sends@,
                )
            }),
    {
        let ghost pv = pairs_view(payload@);
        let ghost n = self_id.spec_node_id();
        let ghost sk = self_id.spec_bls_sk();
        let ghost msgs_all = agent_new_msgs(pv, n, sk);
        let self_pub = self_id.public_id();
        let mut events: Vec<Event> = Vec::new();
        let mut forward: Vec<(PublicId, Vec<u8>)> = Vec::new();
        let mut k: usize = 0;
        proof {
            assert(pv.skip(0) =~= pv);
            assert(msgs_all.skip(0) =~= msgs_all);
            assert(pairs_view(forward@) =~= Seq::<(PublicIdView, Seq<u8>)>::empty());
            assert(pairs_view(forward@) + agent_forward(pv, n) =~= agent_forward(pv, n));
        }
        while k < payload.len()
            invariant
                k <= payload@.len(),
                pv == pairs_view(payload@),
                n == self_id.spec_node_id(),
                sk == self_id.spec_bls_sk(),
                msgs_all == agent_new_msgs(pv, n, sk),
                self_pub.node_id == n,
                self.wf(),
                *self == *old(self),
                events@.len() <= msgs_all.len(),
                msgs_all.skip(events@.len() as int) == agent_new_msgs(pv.skip(k as int), n, sk),
                forall|i: int| 0 <= i < events@.len() ==> is_new_message_event(
                    #[trigger] events@[i],
                    msgs_all[i],
                ),
                pairs_view(forward@) + agent_forward(pv.skip(k as int), n) == agent_forward(
                    pv,
                    n,
                ),
            decreases payload@.len() - k,
        {
            proof {
                assert(pv.skip(k as int)[0] == pv[k as int]);
                assert(pv.skip(k as int).drop_first() =~= pv.skip(k as int + 1));
            }
            let target_same = payload[k].0.node_id == self_pub.node_id;
            if target_same {
                let m = clone_bytes(&payload[k].1);
                let mut evs = self.handle_message(&m, self_id);
                let ghost rest = agent_new_msgs(pv.skip(k as int + 1), n, sk);
                proof {
                    assert(pv[k as int] == (payload@[k as int].0@, payload@[k as int].1@));
                    assert(pv[k as int].1 == m@);
                    assert(pv[k as int].0.node_id == payload@[k as int].0.node_id);
                }
                match evs.pop() {
                    Some(e) => {
                        proof {
                            assert(surfaced_of(pv[k as int].1, sk) is Some);
                            let surfaced = surfaced_of(pv[k as int].1, sk).unwrap();
                            let ghost ell = events@.len() as int;
                            assert(is_new_message_event(e, surfaced));
                            assert(agent_new_msgs(pv.skip(k as int), n, sk) == seq![surfaced]
                                + rest);
                            assert(msgs_all.skip(ell) == seq![surfaced] + rest);
                            assert((seq![surfaced] + rest)[0] == surfaced);
                            assert(msgs_all.skip(ell).len() == msgs_all.len() - ell);
                            assert(msgs_all.skip(ell)[0] == msgs_all[ell]);
                            assert(msgs_all[ell] == surfaced);
                            assert(msgs_all.skip(ell + 1) =~= (seq![surfaced] + rest).skip(1));
                            assert((seq![surfaced] + rest).skip(1) =~= rest);
                        }
                        events.push(e);
                    },
                    None => {
                        proof {
                            assert(surfaced_of(pv[k as int].1, sk) is None);
                            assert(agent_new_msgs(pv.skip(k as int), n, sk) =~= rest);
                        }
                    },
                }
            } else {
                let rec = payload[k].0.clone();
                let b = clone_bytes(&payload[k].1);
                let ghost fwd_old = pairs_view(forward@);
                forward.push((rec, b));
                proof {
                    assert(pairs_view(forward@) =~= fwd_old.push(pv[k as int]));
                    assert(fwd_old.push(pv[k as int]) + agent_forward(pv.skip(k as int + 1), n)
                        =~= fwd_old + (seq![pv[k as int]] + agent_forward(
                        pv.skip(k as int + 1),
                        n,
                    )));
                    assert(agent_forward(pv.skip(k as int), n) == seq![pv[k as int]]
                        + agent_forward(pv.skip(k as int + 1), n));
                }
            }
            k = k + 1;
        }
        proof {
            assert(pv.skip(pv.len() as int) =~= Seq::<(PublicIdView, Seq<u8>)>::empty());
            assert(agent_new_msgs(Seq::<(PublicIdView, Seq<u8>)>::empty(), n, sk)
                == Seq::<Seq<u8>>::empty());
            assert(msgs_all.skip(events@.len() as int) =~= Seq::<Seq<u8>>::empty());
            assert(events@.len() == msgs_all.len());
            assert(agent_forward(Seq::<(PublicIdView, Seq<u8>)>::empty(), n)
                == Seq::<(PublicIdView, Seq<u8>)>::empty());
            assert(pairs_view(forward@) + Seq::<(PublicIdView, Seq<u8>)>::empty() =~= pairs_view(
                forward@,
            ));
        }
        let sends = self.send_agent_message(forward, active_connections, false);
        (events, sends)
    }
}

/// One cycle lowers every remaining copy count by one.
proof fn lemma_cycle_obx_bound(s: Seq<(PublicIdView, Seq<u8>, usize)>, k: int)
    requires
        obx_bounded(s, k),
        k >= 1,
    ensures
        obx_bounded(cycle_obx(s), k - 1),
    decreases s.len(),
{
    if s.len() > 0 {
        assert(obx_bounded(s.drop_last(), k)) by {
            assert(forall|i: int| 0 <= i < s.len() - 1 ==> s.drop_last()[i] == s[i]);
        }
        lemma_cycle_obx_bound(s.drop_last(), k);
        let rest = cycle_obx(s.drop_last());
        let e = s.last();
        if e.2 > 1 {
            assert(forall|i: int| 0 <= i < rest.len() ==> rest.push(
                (e.0, e.1, (e.2 - 1) as usize),
            )[i] == rest[i]);
            assert(rest.push((e.0, e.1, (e.2 - 1) as usize)).last() == (
                e.0,
                e.1,
                (e.2 - 1) as usize,
            ));
        }
    }
}

/// With at most one copy everywhere, one cycle empties the outbox.
proof fn lemma_cycle_obx_empty(s: Seq<(PublicIdView, Seq<u8>, usize)>)
    requires
        obx_bounded(s, 1),
    ensures
        cycle_obx(s) == Seq::<(PublicIdView, Seq<u8>, usize)>::empty(),
    decreases s.len(),
{
    if s.len() > 0 {
        assert(obx_bounded(s.drop_last(), 1)) by {
            assert(forall|i: int| 0 <= i < s.len() - 1 ==> s.drop_last()[i] == s[i]);
        }
        lemma_cycle_obx_empty(s.drop_last());
    }
}

/// Outbox termination: an outbox whose entries each have at most
/// `OUTBOX_COPIES` copies left is empty after at most `OUTBOX_COPIES`
/// dissemination cycles, whether or not any message was ever observed
/// delivered. Every outbox the library builds satisfies the bound, by the
/// `wf` invariant of `Messaging`.
pub proof fn lemma_outbox_termination(s: Seq<(PublicIdView, Seq<u8>, usize)>)
    requires
        obx_bounded(s, OUTBOX_COPIES as int),
    ensures
        cycle_obx(cycle_obx(cycle_obx(s))) == Seq::<(PublicIdView, Seq<u8>, usize)>::empty(),
{
    lemma_cycle_obx_bound(s, 3);
    lemma_cycle_obx_bound(cycle_obx(s), 2);
    lemma_cycle_obx_empty(cycle_obx(cycle_obx(s)));
}

impl Default for Messaging {
    /// A fresh messaging state with an empty outbox and pending queue.
    fn default() -> (r: Self)
        ensures
            r.wf(),
            r.spec_outbox() == Seq::<OutboxEntry>::empty(),
            r.spec_pending() == Seq::<PendingEntry>::empty(),
    {
        Messaging::new()
    }
}

} // verus!
