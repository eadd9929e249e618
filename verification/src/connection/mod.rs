//! Routing and connection protocol: a bounded map of tracked connections,
//! each in one of three states, beside the routing table it feeds. Every
//! operation returns the transmissions and events it gives rise to; the
//! embedding layer performs them.

/// Connection-related types
pub mod connection_types;
/// Implements a routing table.
pub mod routing;

use crate::crypto::hash;
use crate::event::Event;
use crate::identity::public_id::PublicId;
use crate::messaging::message::{Message, Transmission, TransmissionLabel};
use connection_types::{ConnEntry, ConnectionInfo, ConnectionState, NetAddr};
use routing::{relax_applies, slookup, RoutingTable, SharedRoutingTable};
use vstd::prelude::*;

verus! {

/// The most connections a node tracks at once.
pub const MAX_CONNECTION_LEN: usize = 5;

/// First-match lookup of a tracked address.
pub open spec fn clookup(s: Seq<ConnEntry>, a: NetAddr) -> Option<(Option<PublicId>, ConnectionState)>
    decreases s.len(),
{
    if s.len() == 0 {
        None
    } else if s[0].addr == a {
        Some((s[0].id, s[0].state))
    } else {
        clookup(s.drop_first(), a)
    }
}

/// No address appears in two entries.
pub open spec fn unique_addrs(s: Seq<ConnEntry>) -> bool {
    forall|i: int, j: int| 0 <= i < j < s.len() ==> s[i].addr != s[j].addr
}

/// The addresses of the entries in `Connected` state, in table order.
pub open spec fn active_addrs(s: Seq<ConnEntry>) -> Seq<NetAddr> {
    s.filter(|e: ConnEntry| e.state == ConnectionState::Connected).map_values(
        |e: ConnEntry| e.addr,
    )
}

/// An address is found exactly when some entry carries it.
pub proof fn lemma_clookup_contains(s: Seq<ConnEntry>, a: NetAddr)
    ensures
        (clookup(s, a) is Some) == exists|i: int| 0 <= i < s.len() && s[i].addr == a,
    decreases s.len(),
{
    if s.len() > 0 {
        lemma_clookup_contains(s.drop_first(), a);
        if s[0].addr != a {
            if exists|i: int| 0 <= i < s.len() && s[i].addr == a {
                let i = choose|i: int| 0 <= i < s.len() && s[i].addr == a;
                assert(s.drop_first()[i - 1].addr == a);
            }
            if clookup(s.drop_first(), a) is Some {
                let i = choose|i: int|
                    0 <= i < s.drop_first().len() && s.drop_first()[i].addr == a;
                assert(s[i + 1].addr == a);
            }
        }
    }
}

/// Replacing entry `i` by an entry at the same address changes exactly that
/// address's lookup.
pub proof fn lemma_clookup_update(s: Seq<ConnEntry>, i: int, e: ConnEntry)
    requires
        unique_addrs(s),
        0 <= i < s.len(),
        e.addr == s[i].addr,
    ensures
        unique_addrs(s.update(i, e)),
        clookup(s.update(i, e), e.addr) == Some((e.id, e.state)),
        forall|x: NetAddr| x != e.addr ==> #[trigger] clookup(s.update(i, e), x) == clookup(s, x),
    decreases s.len(),
{
    let t = s.update(i, e);
    assert(forall|a: int| 0 <= a < s.len() ==> t[a].addr == s[a].addr);
    if i == 0 {
        assert(t.drop_first() =~= s.drop_first());
    } else {
        assert(t[0] == s[0]);
        assert(t.drop_first() =~= s.drop_first().update(i - 1, e));
        assert(unique_addrs(s.drop_first())) by {
            assert(forall|a: int, b: int|
                0 <= a < b < s.drop_first().len() ==> s.drop_first()[a] == s[a + 1]
                    && s.drop_first()[b] == s[b + 1]);
        }
        assert(s.drop_first()[i - 1] == s[i]);
        lemma_clookup_update(s.drop_first(), i - 1, e);
        assert(s[0].addr != s[i].addr);
        assert(clookup(t, e.addr) == clookup(t.drop_first(), e.addr));
        assert forall|x: NetAddr| x != e.addr implies #[trigger] clookup(t, x) == clookup(
            s,
            x,
        ) by {
            if x != s[0].addr {
                assert(clookup(t, x) == clookup(t.drop_first(), x));
                assert(clookup(s, x) == clookup(s.drop_first(), x));
            }
        }
    }
}

/// Appending an entry for a fresh address changes exactly that address's
/// lookup.
pub proof fn lemma_clookup_push(s: Seq<ConnEntry>, e: ConnEntry)
    requires
        unique_addrs(s),
        clookup(s, e.addr) is None,
    ensures
        unique_addrs(s.push(e)),
        clookup(s.push(e), e.addr) == Some((e.id, e.state)),
        forall|x: NetAddr| x != e.addr ==> #[trigger] clookup(s.push(e), x) == clookup(s, x),
    decreases s.len(),
{
    lemma_clookup_contains(s, e.addr);
    let t = s.push(e);
    assert(forall|a: int| 0 <= a < s.len() ==> t[a] == s[a]);
    assert(unique_addrs(t)) by {
        assert(forall|a: int| 0 <= a < s.len() ==> s[a].addr != e.addr);
        assert(t[s.len() as int] == e);
    }
    if s.len() == 0 {
        assert(t[0] == e);
        assert(t.drop_first() =~= Seq::<ConnEntry>::empty());
        assert forall|x: NetAddr| x != e.addr implies #[trigger] clookup(t, x) == clookup(
            s,
            x,
        ) by {
            assert(clookup(t, x) == clookup(t.drop_first(), x));
        }
    } else {
        assert(t.drop_first() =~= s.drop_first().push(e));
        assert(unique_addrs(s.drop_first())) by {
            assert(forall|a: int, b: int|
                0 <= a < b < s.drop_first().len() ==> s.drop_first()[a] == s[a + 1]
                    && s.drop_first()[b] == s[b + 1]);
        }
        assert(clookup(s, e.addr) == clookup(s.drop_first(), e.addr));
        lemma_clookup_push(s.drop_first(), e);
        assert(t[0] == s[0]);
        assert(s[0].addr != e.addr);
        assert(clookup(t, e.addr) == clookup(t.drop_first(), e.addr));
        assert forall|x: NetAddr| x != e.addr implies #[trigger] clookup(t, x) == clookup(
            s,
            x,
        ) by {
            if x != s[0].addr {
                assert(clookup(t, x) == clookup(t.drop_first(), x));
                assert(clookup(s, x) == clookup(s.drop_first(), x));
            }
        }
    }
}

/// Removing entry `i` changes exactly that entry's address's lookup.
pub proof fn lemma_clookup_remove(s: Seq<ConnEntry>, i: int)
    requires
        unique_addrs(s),
        0 <= i < s.len(),
    ensures
        unique_addrs(s.remove(i)),
        clookup(s.remove(i), s[i].addr) is None,
        forall|x: NetAddr| x != s[i].addr ==> #[trigger] clookup(s.remove(i), x) == clookup(s, x),
    decreases s.len(),
{
    let t = s.remove(i);
    assert(forall|a: int| 0 <= a < i ==> t[a] == s[a]);
    assert(forall|a: int| i <= a < t.len() ==> t[a] == s[a + 1]);
    assert(unique_addrs(t));
    lemma_clookup_contains(t, s[i].addr);
    if clookup(t, s[i].addr) is Some {
        let j = choose|j: int| 0 <= j < t.len() && t[j].addr == s[i].addr;
        if j < i {
            assert(s[j].addr == s[i].addr);
        } else {
            assert(s[j + 1].addr == s[i].addr);
        }
        assert(false);
    }
    assert forall|x: NetAddr| x != s[i].addr implies #[trigger] clookup(t, x) == clookup(
        s,
        x,
    ) by {
        lemma_clookup_first_match(t, x);
        lemma_clookup_first_match(s, x);
        lemma_clookup_contains(t, x);
        lemma_clookup_contains(s, x);
        if clookup(s, x) is Some {
            let j = choose|j: int| 0 <= j < s.len() && s[j].addr == x;
            if j < i {
                assert(t[j].addr == x);
            } else {
                assert(j != i);
                assert(t[j - 1].addr == x);
            }
            lemma_clookup_contains(t, x);
        } else {
            if clookup(t, x) is Some {
                let j = choose|j: int| 0 <= j < t.len() && t[j].addr == x;
                if j < i {
                    assert(s[j].addr == x);
                } else {
                    assert(s[j + 1].addr == x);
                }
                assert(false);
            }
        }
        if clookup(s, x) is Some && clookup(t, x) is Some {
            let j1 = choose|j: int| 0 <= j < s.len() && s[j].addr == x;
            let j2 = choose|j: int| 0 <= j < t.len() && t[j].addr == x;
            lemma_clookup_index(s, j1);
            lemma_clookup_index(t, j2);
            if j2 < i {
                assert(s[j2].addr == x);
                assert(t[j2] == s[j2]);
                assert(s[j2] == s[j1]) by {
                    if j1 != j2 {
                        assert(s[j1].addr != s[j2].addr);
                    }
                }
            } else {
                assert(s[j2 + 1].addr == x);
                assert(t[j2] == s[j2 + 1]);
                assert(s[j2 + 1] == s[j1]) by {
                    if j1 != j2 + 1 {
                        assert(s[j1].addr != s[j2 + 1].addr);
                    }
                }
            }
        }
    }
}

/// When no address repeats, looking up the address of entry `i` yields
/// entry `i`.
pub proof fn lemma_clookup_index(s: Seq<ConnEntry>, i: int)
    requires
        unique_addrs(s),
        0 <= i < s.len(),
    ensures
        clookup(s, s[i].addr) == Some((s[i].id, s[i].state)),
    decreases s.len(),
{
    if i > 0 {
        assert(s[0].addr != s[i].addr);
        assert(unique_addrs(s.drop_first())) by {
            assert(forall|a: int, b: int|
                0 <= a < b < s.drop_first().len() ==> s.drop_first()[a] == s[a + 1]
                    && s.drop_first()[b] == s[b + 1]);
        }
        lemma_clookup_index(s.drop_first(), i - 1);
    }
}

/// A found lookup is what the first matching entry carries.
proof fn lemma_clookup_first_match(s: Seq<ConnEntry>, a: NetAddr)
    ensures
        clookup(s, a) matches Some(v) ==> exists|i: int|
            0 <= i < s.len() && s[i].addr == a && v == (s[i].id, s[i].state),
    decreases s.len(),
{
    if s.len() > 0 && s[0].addr != a {
        lemma_clookup_first_match(s.drop_first(), a);
        if clookup(s.drop_first(), a) is Some {
            let i = choose|i: int|
                0 <= i < s.drop_first().len() && s.drop_first()[i].addr == a && clookup(
                    s.drop_first(),
                    a,
                ).unwrap() == (s.drop_first()[i].id, s.drop_first()[i].state);
            assert(s[i + 1].addr == a);
        }
    }
}

/// Manages the connections of a node
pub struct Connection {
    entries: Vec<ConnEntry>,
    routing_table: RoutingTable,
    is_bootstrapped: bool,
}

impl Connection {
    /// The tracked connections.
    pub closed spec fn spec_entries(self) -> Seq<ConnEntry> {
        self.entries@
    }

    /// The routing table.
    pub closed spec fn spec_routing_table(self) -> RoutingTable {
        self.routing_table
    }

    /// Whether the node has bootstrapped.
    pub closed spec fn spec_is_bootstrapped(self) -> bool {
        self.is_bootstrapped
    }

    /// The tracked state of an address.
    pub open spec fn spec_conn(self, a: NetAddr) -> Option<(Option<PublicId>, ConnectionState)> {
        clookup(self.spec_entries(), a)
    }

    /// A well-formed connection manager: no address tracked twice, a
    /// connected entry always carries the peer's identity, and the routing
    /// table is well-formed. The connection cap applies to incoming
    /// attempts, which are refused when the table is full; an outbound
    /// dial is always tracked, as the dialing caller asked for it.
    pub open spec fn wf(self) -> bool {
        &&& unique_addrs(self.spec_entries())
        &&& forall|i: int| 0 <= i < self.spec_entries().len()
            && (#[trigger] self.spec_entries()[i]).state == ConnectionState::Connected
            ==> self.spec_entries()[i].id is Some
        &&& self.spec_routing_table().wf()
    }

    /// Creates a new `Connection`.
    pub fn new() -> (r: Self)
        ensures
            r.wf(),
            r.spec_entries() == Seq::<ConnEntry>::empty(),
            r.spec_routing_table().spec_entries() == Seq::<routing::RouteEntry>::empty(),
            r.spec_routing_table().spec_version() == 0,
            !r.spec_is_bootstrapped(),
    {
        Connection { entries: Vec::new(), routing_table: RoutingTable::new(), is_bootstrapped: false }
    }

    /// Finds the first entry of an address.
    fn find_index(&self, a: &NetAddr) -> (r: Option<usize>)
        ensures
            match r {
                Some(i) => i < self.spec_entries().len() && self.spec_entries()[i as int].addr
                    == *a && clookup(self.spec_entries(), *a) == Some(
                    (self.spec_entries()[i as int].id, self.spec_entries()[i as int].state),
                ),
                None => clookup(self.spec_entries(), *a) is None,
            },
    {
        let s = Ghost(self.spec_entries());
        proof {
            assert(s@.skip(0) =~= s@);
        }
        let mut k: usize = 0;
        while k < self.entries.len()
            invariant
                k <= s@.len(),
                s@ == self.spec_entries(),
                clookup(s@, *a) == clookup(s@.skip(k as int), *a),
            decreases s@.len() - k,
        {
            proof {
                assert(s@.skip(k as int)[0] == s@[k as int]);
            }
            if self.entries[k].addr == *a {
                return Some(k);
            }
            proof {
                assert(s@.skip(k as int).drop_first() =~= s@.skip(k as int + 1));
            }
            k = k + 1;
        }
        proof {
            assert(s@.skip(s@.len() as int) =~= Seq::<ConnEntry>::empty());
        }
        None
    }

    /// Checks if a node is bootstrapped to the network.
    pub fn is_bootstrapped(&self) -> (r: bool)
        ensures
            r == self.spec_is_bootstrapped(),
    {
        self.is_bootstrapped
    }

    /// Record that the node has bootstrapped to the network.
    pub fn set_bootstrapped(&mut self)
        ensures
            final(self).spec_is_bootstrapped(),
            final(self).spec_entries() == old(self).spec_entries(),
            final(self).spec_routing_table() == old(self).spec_routing_table(),
            final(self).wf() == old(self).wf(),
    {
        self.is_bootstrapped = true;
    }

    /// Retrieves the routing table.
    pub fn routing_table(&self) -> (r: &RoutingTable)
        ensures
            r == self.spec_routing_table(),
    {
        &self.routing_table
    }

    /// Returns the tracked connections.
    pub fn connections(&self) -> (r: &Vec<ConnEntry>)
        ensures
            r@ == self.spec_entries(),
    {
        &self.entries
    }

    /// Returns the addresses of the active (connected) peers.
    pub fn active_connections(&self) -> (r: Vec<NetAddr>)
        ensures
            r@ == active_addrs(self.spec_entries()),
    {
        let s = Ghost(self.spec_entries());
        let pred = Ghost(|e: ConnEntry| e.state == ConnectionState::Connected);
        let mut out: Vec<NetAddr> = Vec::new();
        let mut k: usize = 0;
        proof {
            assert(s@.take(0) =~= Seq::<ConnEntry>::empty());
            assert(s@.take(0).filter(pred@) =~= Seq::<ConnEntry>::empty());
        }
        while k < self.entries.len()
            invariant
                k <= s@.len(),
                s@ == self.spec_entries(),
                pred@ == (|e: ConnEntry| e.state == ConnectionState::Connected),
                out@ == s@.take(k as int).filter(pred@).map_values(|e: ConnEntry| e.addr),
            decreases s@.len() - k,
        {
            proof {
                reveal(Seq::filter);
                assert(s@.take(k + 1 as int).drop_last() =~= s@.take(k as int));
                assert(s@.take(k + 1 as int).last() == s@[k as int]);
            }
            if matches!(self.entries[k].state, ConnectionState::Connected) {
                out.push(self.entries[k].addr);
            }
            proof {
                assert(out@ =~= s@.take(k + 1 as int).filter(pred@).map_values(
                    |e: ConnEntry| e.addr,
                ));
            }
            k = k + 1;
        }
        proof {
            assert(s@.take(s@.len() as int) =~= s@);
        }
        out
    }

    /// Builds a RoutingTable message carrying the redacted table and
    /// addresses it to every active connection.
    pub fn share_routing_table(&self, self_id: &hash::Hash) -> (sends: Vec<Transmission>)
        ensures
            routing_broadcast_ok(*self, *self_id, sends@),
    {
        let active = self.active_connections();
        let mut sends: Vec<Transmission> = Vec::new();
        let mut k: usize = 0;
        while k < active.len()
            invariant
                k <= active@.len(),
                active@ == active_addrs(self.spec_entries()),
                sends@.len() == k,
                forall|i: int| 0 <= i < k ==> (#[trigger] sends@[i]).label
                    == TransmissionLabel::RoutingInformation,
                forall|i: int| 0 <= i < k ==> (#[trigger] sends@[i]).dest == active@[i],
                forall|i: int| 0 <= i < k ==> (#[trigger] sends@[i]).priority == 0,
                forall|i: int| 0 <= i < k ==> (#[trigger] sends@[i]).bytes@
                    == crate::messaging::message::enc_message(
                    crate::messaging::message::MessageView::RoutingTable {
                        shared: self.spec_routing_table().spec_shared(),
                        source: *self_id,
                    },
                ),
            decreases active@.len() - k,
        {
            let msg = Message::RoutingTable {
                shared_routing_table: self.routing_table.get_shared(),
                source: *self_id,
            };
            let bytes = msg.encode();
            sends.push(
                Transmission {
                    label: TransmissionLabel::RoutingInformation,
                    dest: active[k],
                    bytes,
                    priority: 0,
                },
            );
            k = k + 1;
        }
        sends
    }
}

/// Whether a gossiped table would change any hop count of `t`.
pub open spec fn gossip_changed(
    t: Seq<routing::RouteEntry>,
    self_id: hash::Hash,
    s: Seq<routing::SharedEntry>,
) -> bool {
    exists|x: hash::Hash| #[trigger] relax_applies(t, self_id, s, x)
}

/// The lookup-level description of one relaxation step: every improvable
/// destination is re-routed through the peer at one more hop than the peer
/// reported, every other known destination keeps its route, every other
/// destination the peer mentions is an unreachable placeholder, and nothing
/// else enters the table.
pub open spec fn table_relaxed(
    told: Seq<routing::RouteEntry>,
    self_id: hash::Hash,
    peer: hash::Hash,
    s: Seq<routing::SharedEntry>,
    tnew: RoutingTable,
) -> bool {
    routing::relax_step(told, self_id, peer, s, tnew.spec_entries())
}

/// Whether `sends` is the re-broadcast of the redacted routing table of
/// `c`, one transmission per active connection, in table order.
pub open spec fn routing_broadcast_ok(
    c: Connection,
    self_id: hash::Hash,
    sends: Seq<Transmission>,
) -> bool {
    &&& sends.len() == active_addrs(c.spec_entries()).len()
    &&& forall|i: int| 0 <= i < sends.len() ==> (#[trigger] sends[i]).label
        == TransmissionLabel::RoutingInformation
    &&& forall|i: int| 0 <= i < sends.len() ==> (#[trigger] sends[i]).dest == active_addrs(
        c.spec_entries(),
    )[i]
    &&& forall|i: int| 0 <= i < sends.len() ==> (#[trigger] sends[i]).priority == 0
    &&& forall|i: int| 0 <= i < sends.len() ==> (#[trigger] sends[i]).bytes@
        == crate::messaging::message::enc_message(
        crate::messaging::message::MessageView::RoutingTable {
            shared: c.spec_routing_table().spec_shared(),
            source: self_id,
        },
    )
}

impl Connection {
    /// Runs the relaxation step of the routing table against a gossiped
    /// table received from `peer_id`; when any hop count changed, the
    /// version advances by exactly one and the updated table is
    /// re-broadcast to every active connection.
    pub fn update_routing_table(
        &mut self,
        self_id: &hash::Hash,
        peer_id: &hash::Hash,
        shared: &SharedRoutingTable,
    ) -> (sends: Vec<Transmission>)
        requires
            old(self).wf(),
            old(self).spec_routing_table().spec_version() < usize::MAX,
        ensures
            final(self).wf(),
            final(self).spec_entries() == old(self).spec_entries(),
            final(self).spec_is_bootstrapped() == old(self).spec_is_bootstrapped(),
            table_relaxed(
                old(self).spec_routing_table().spec_entries(),
                *self_id,
                *peer_id,
                shared.spec_entries(),
                final(self).spec_routing_table(),
            ),
            gossip_changed(
                old(self).spec_routing_table().spec_entries(),
                *self_id,
                shared.spec_entries(),
            ) ==> final(self).spec_routing_table().spec_version() == old(self).spec_routing_table().spec_version() + 1 && routing_broadcast_ok(
                *final(self),
                *self_id,
                sends@,
            ),
            !gossip_changed(
                old(self).spec_routing_table().spec_entries(),
                *self_id,
                shared.spec_entries(),
            ) ==> final(self).spec_routing_table().spec_version() == old(self).spec_routing_table().spec_version() && sends@.len() == 0,
    {
        let changed = self.routing_table.relax(self_id, peer_id, shared);
        if changed {
            self.routing_table.increment_version();
            self.share_routing_table(self_id)
        } else {
            Vec::new()
        }
    }
}

/// The tracked state of an address, with the identity taken at its
/// mathematical value.
pub open spec fn conn_view(c: Option<(Option<PublicId>, ConnectionState)>) -> Option<
    (Option<crate::identity::public_id::PublicIdView>, ConnectionState),
> {
    match c {
        Some((Some(p), s)) => Some((Some(p@), s)),
        Some((None, s)) => Some((None, s)),
        None => None,
    }
}

/// Whether `e` announces a fresh connection to the peer with identity `id`.
pub open spec fn is_connected_event(
    e: Event,
    id: crate::identity::public_id::PublicIdView,
) -> bool {
    match e {
        Event::ConnectedTo(p) => p@ == id,
        _ => false,
    }
}

/// Whether `t` carries an Identification message for `self_id` to `dest`.
pub open spec fn ident_send_ok(
    t: Transmission,
    dest: NetAddr,
    self_id: crate::identity::public_id::PublicIdView,
) -> bool {
    &&& t.label == TransmissionLabel::PublicIdentity
    &&& t.dest == dest
    &&& t.priority == 0
    &&& t.bytes@ == crate::messaging::message::enc_message(
        crate::messaging::message::MessageView::Identification(self_id),
    )
}

/// Whether `t` carries a Contacts message listing `addrs` to `dest`, on the
/// priority side channel.
pub open spec fn contacts_send_ok(t: Transmission, dest: NetAddr, addrs: Seq<NetAddr>) -> bool {
    &&& t.label == TransmissionLabel::Contacts
    &&& t.dest == dest
    &&& t.priority == 1
    &&& t.bytes@ == crate::messaging::message::enc_message(
        crate::messaging::message::MessageView::Contacts(addrs),
    )
}

/// The addresses of all tracked connections, in table order.
pub open spec fn tracked_addrs(s: Seq<ConnEntry>) -> Seq<NetAddr> {
    s.map_values(|e: ConnEntry| e.addr)
}


/// The outcome of processing an Identification message: a tracked address
/// with unknown identity becomes a connected, identified entry with a
/// direct route and a version bump, announced with one event; the first
/// such connection re-broadcasts the routing table and asks for an agent.
/// Any other address leaves everything unchanged.
pub open spec fn peer_identification_ok(
    oldc: Connection,
    newc: Connection,
    self_id: crate::identity::public_id::PublicIdView,
    peer_addr: NetAddr,
    peer: crate::identity::public_id::PublicIdView,
    sends: Seq<Transmission>,
    events: Seq<Event>,
    deploy: bool,
) -> bool {
    match oldc.spec_conn(peer_addr) {
        Some((Option::None, st)) => {
            &&& conn_view(newc.spec_conn(peer_addr)) == Some(
                (Some(peer), ConnectionState::Connected),
            )
            &&& (forall|x: NetAddr| x != peer_addr ==> #[trigger] newc.spec_conn(x)
                == oldc.spec_conn(x))
            &&& newc.spec_routing_table().spec_route(peer.node_id) == Some(
                (peer.node_id, 1usize),
            )
            &&& (forall|n: hash::Hash| n != peer.node_id
                ==> #[trigger] newc.spec_routing_table().spec_route(n)
                    == oldc.spec_routing_table().spec_route(n))
            &&& newc.spec_routing_table().spec_version() == oldc.spec_routing_table().spec_version()
                + 1
            &&& events.len() == 1
            &&& is_connected_event(events[0], peer)
            &&& deploy == !oldc.spec_is_bootstrapped()
            &&& newc.spec_is_bootstrapped()
            &&& (deploy ==> routing_broadcast_ok(newc, self_id.node_id, sends))
            &&& (!deploy ==> sends.len() == 0)
        },
        _ => newc == oldc && sends.len() == 0 && events.len() == 0 && !deploy,
    }
}

/// The outcome of a successful transport session, by the state the address
/// was tracked in beforehand.
pub open spec fn successful_connection_ok(
    oldc: Connection,
    newc: Connection,
    self_id: crate::identity::public_id::PublicIdView,
    peer_addr: NetAddr,
    sends: Seq<Transmission>,
    events: Seq<Event>,
    deploy: bool,
) -> bool {
    match oldc.spec_conn(peer_addr) {
        Some((Some(id0), st)) => {
            &&& conn_view(newc.spec_conn(peer_addr)) == Some(
                (Some(id0@), ConnectionState::Connected),
            )
            &&& (forall|x: NetAddr| x != peer_addr ==> #[trigger] newc.spec_conn(x)
                == oldc.spec_conn(x))
            &&& newc.spec_routing_table().spec_route(id0.node_id) == Some(
                (id0.node_id, 1usize),
            )
            &&& (forall|n: hash::Hash| n != id0.node_id
                ==> #[trigger] newc.spec_routing_table().spec_route(n)
                    == oldc.spec_routing_table().spec_route(n))
            &&& newc.spec_routing_table().spec_version() == oldc.spec_routing_table().spec_version()
                + 1
            &&& events.len() == 1
            &&& is_connected_event(events[0], id0@)
            &&& deploy == !oldc.spec_is_bootstrapped()
            &&& newc.spec_is_bootstrapped()
            &&& newc.spec_entries().len() == oldc.spec_entries().len()
            &&& sends.len() >= 1
            &&& ident_send_ok(sends[0], peer_addr, self_id)
            &&& (deploy ==> routing_broadcast_ok(newc, self_id.node_id, sends.skip(1)))
            &&& (!deploy ==> sends.len() == 1)
        },
        Some((Option::None, st)) => {
            &&& newc == oldc
            &&& sends.len() == 1
            &&& ident_send_ok(sends[0], peer_addr, self_id)
            &&& events.len() == 0
            &&& !deploy
        },
        None => if oldc.spec_entries().len() >= MAX_CONNECTION_LEN {
            &&& newc == oldc
            &&& sends.len() == 1
            &&& contacts_send_ok(sends[0], peer_addr, tracked_addrs(oldc.spec_entries()))
            &&& events.len() == 0
            &&& !deploy
        } else {
            &&& conn_view(newc.spec_conn(peer_addr)) == Some(
                (Option::<crate::identity::public_id::PublicIdView>::None, ConnectionState::Incoming),
            )
            &&& (forall|x: NetAddr| x != peer_addr ==> #[trigger] newc.spec_conn(x)
                == oldc.spec_conn(x))
            &&& newc.spec_entries().len() == oldc.spec_entries().len() + 1
            &&& newc.spec_routing_table() == oldc.spec_routing_table()
            &&& newc.spec_is_bootstrapped() == oldc.spec_is_bootstrapped()
            &&& sends.len() == 1
            &&& ident_send_ok(sends[0], peer_addr, self_id)
            &&& events.len() == 0
            &&& !deploy
        },
    }
}

/// The addresses bootstrapping dials, in list order: each address not
/// already tracked and not already dialed, taken from the front of the
/// list until the table reaches the connection cap.
pub open spec fn boot_dials(oldc: Connection, nodes: Seq<NetAddr>) -> Seq<NetAddr>
    decreases nodes.len(),
{
    if nodes.len() == 0 {
        Seq::empty()
    } else {
        let pre = boot_dials(oldc, nodes.drop_last());
        let a = nodes.last();
        if oldc.spec_entries().len() + pre.len() >= MAX_CONNECTION_LEN {
            pre
        } else if oldc.spec_conn(a) is None && !pre.contains(a) {
            pre.push(a)
        } else {
            pre
        }
    }
}

/// Once the dial list has filled the table to the cap, the rest of the
/// address list adds nothing.
proof fn lemma_boot_dials_stall(oldc: Connection, nodes: Seq<NetAddr>, k: int)
    requires
        0 <= k <= nodes.len(),
        oldc.spec_entries().len() + boot_dials(oldc, nodes.take(k)).len()
            >= MAX_CONNECTION_LEN,
    ensures
        boot_dials(oldc, nodes) == boot_dials(oldc, nodes.take(k)),
    decreases nodes.len() - k,
{
    if k == nodes.len() {
        assert(nodes.take(k) =~= nodes);
    } else {
        assert(nodes.take(k + 1).drop_last() =~= nodes.take(k));
        assert(boot_dials(oldc, nodes.take(k + 1)) == boot_dials(oldc, nodes.take(k)));
        lemma_boot_dials_stall(oldc, nodes, k + 1);
    }
}

/// The dial list stops growing at the connection cap: from a table within
/// the cap, dialing never pushes it past the cap.
proof fn lemma_boot_dials_len(oldc: Connection, nodes: Seq<NetAddr>)
    ensures
        oldc.spec_entries().len() + boot_dials(oldc, nodes).len() <= (
        if oldc.spec_entries().len() >= MAX_CONNECTION_LEN {
            oldc.spec_entries().len() as int
        } else {
            MAX_CONNECTION_LEN as int
        }),
    decreases nodes.len(),
{
    if nodes.len() > 0 {
        lemma_boot_dials_len(oldc, nodes.drop_last());
    }
}

/// The outcome of bootstrapping against a list of known addresses: the
/// dial list is exactly `boot_dials` (list order, stopping at the cap),
/// tracked addresses are untouched, every dialed address was new, taken
/// from the list, and is now tracked as an outbound connection, nothing
/// else became tracked, and if room remains the whole list is tracked.
pub open spec fn bootstrap_ok(
    oldc: Connection,
    newc: Connection,
    nodes: Seq<NetAddr>,
    dials: Seq<NetAddr>,
) -> bool {
    &&& dials == boot_dials(oldc, nodes)
    &&& newc.spec_entries().len() == oldc.spec_entries().len() + dials.len()
    &&& (oldc.spec_entries().len() <= MAX_CONNECTION_LEN ==> newc.spec_entries().len()
        <= MAX_CONNECTION_LEN)
    &&& (forall|x: NetAddr| oldc.spec_conn(x) is Some ==> #[trigger] newc.spec_conn(x)
        == oldc.spec_conn(x))
    &&& (forall|k: int| 0 <= k < dials.len() ==> oldc.spec_conn(#[trigger] dials[k]) is None
        && nodes.contains(dials[k]) && conn_view(newc.spec_conn(dials[k])) == Some(
        (Option::<crate::identity::public_id::PublicIdView>::None, ConnectionState::Connecting),
    ))
    &&& (forall|x: NetAddr| oldc.spec_conn(x) is None && #[trigger] newc.spec_conn(x) is Some
        ==> dials.contains(x))
    &&& (newc.spec_entries().len() < MAX_CONNECTION_LEN ==> forall|k: int|
        0 <= k < nodes.len() ==> newc.spec_conn(#[trigger] nodes[k]) is Some)
    &&& newc.spec_routing_table() == oldc.spec_routing_table()
    &&& newc.spec_is_bootstrapped() == oldc.spec_is_bootstrapped()
}

impl Connection {
    /// Handle a node-identification message from a peer: for a tracked
    /// address whose identity is still unknown, record the identity, mark
    /// the connection established, record a direct route, advance the
    /// version, and announce the connection; the first time this node
    /// connects it also re-broadcasts its routing table and asks for an
    /// agent to be deployed. For an address already identified, or not
    /// tracked at all, nothing happens.
    pub fn handle_peer_identification(
        &mut self,
        self_id: &PublicId,
        peer_addr: NetAddr,
        peer_id: &PublicId,
    ) -> (r: (Vec<Transmission>, Vec<Event>, bool))
        requires
            old(self).wf(),
            old(self).spec_routing_table().spec_version() < usize::MAX,
        ensures
            final(self).wf(),
            peer_identification_ok(
                *old(self),
                *final(self),
                self_id@,
                peer_addr,
                peer_id@,
                r.0@,
                r.1@,
                r.2,
            ),
    {
        let mut sends: Vec<Transmission> = Vec::new();
        let mut events: Vec<Event> = Vec::new();
        match self.find_index(&peer_addr) {
            Some(i) => {
                if self.entries[i].id.is_none() {
                    let new_entry = ConnEntry {
                        addr: peer_addr,
                        id: Some(peer_id.clone()),
                        state: ConnectionState::Connected,
                    };
                    proof {
                        lemma_clookup_update(self.spec_entries(), i as int, new_entry);
                    }
                    self.entries[i] = new_entry;
                    proof {
                        assert(unique_addrs(self.spec_entries()));
                        assert(forall|j: int|
                            0 <= j < self.spec_entries().len() && j != i
                                ==> self.spec_entries()[j] == old(self).spec_entries()[j]);
                    }
                    events.push(Event::ConnectedTo(peer_id.clone()));
                    self.routing_table.add_direct_connection(&peer_id.node_id);
                    self.routing_table.increment_version();
                    if !self.is_bootstrapped {
                        self.is_bootstrapped = true;
                        let sends = self.share_routing_table(&self_id.node_id);
                        return (sends, events, true);
                    }
                    return (sends, events, false);
                }
                (sends, events, false)
            },
            None => (sends, events, false),
        }
    }

    /// Handle a successful transport session for `peer_addr`. A tracked
    /// address is sent this node's Identification; if its identity is
    /// already known it is marked connected, recorded as a direct route,
    /// and announced, and the first such connection re-broadcasts the
    /// routing table and asks for an agent. A new address is tracked as
    /// incoming and sent the Identification, unless the table is full, in
    /// which case it is refused with a Contacts message on the priority
    /// side channel and not tracked.
    pub fn handle_successful_connection(
        &mut self,
        self_id: &PublicId,
        peer_addr: NetAddr,
    ) -> (r: (Vec<Transmission>, Vec<Event>, bool))
        requires
            old(self).wf(),
            old(self).spec_routing_table().spec_version() < usize::MAX,
        ensures
            final(self).wf(),
            successful_connection_ok(
                *old(self),
                *final(self),
                self_id@,
                peer_addr,
                r.0@,
                r.1@,
                r.2,
            ),
            old(self).spec_entries().len() <= MAX_CONNECTION_LEN
                ==> final(self).spec_entries().len() <= MAX_CONNECTION_LEN,
    {
        let mut sends: Vec<Transmission> = Vec::new();
        let mut events: Vec<Event> = Vec::new();
        match self.find_index(&peer_addr) {
            Some(i) => {
                let ident = Message::Identification(self_id.clone());
                let bytes = ident.encode();
                sends.push(
                    Transmission {
                        label: TransmissionLabel::PublicIdentity,
                        dest: peer_addr,
                        bytes,
                        priority: 0,
                    },
                );
                let has_id = self.entries[i].id.is_some();
                if has_id {
                    let id0 = match &self.entries[i].id {
                        Some(p) => p.clone(),
                        None => vstd::pervasive::unreached(),
                    };
                    let new_entry = ConnEntry {
                        addr: peer_addr,
                        id: Some(id0.clone()),
                        state: ConnectionState::Connected,
                    };
                    proof {
                        lemma_clookup_update(self.spec_entries(), i as int, new_entry);
                    }
                    self.entries[i] = new_entry;
                    proof {
                        assert(forall|j: int|
                            0 <= j < self.spec_entries().len() && j != i
                                ==> self.spec_entries()[j] == old(self).spec_entries()[j]);
                    }
                    events.push(Event::ConnectedTo(id0.clone()));
                    self.routing_table.add_direct_connection(&id0.node_id);
                    self.routing_table.increment_version();
                    if !self.is_bootstrapped {
                        self.is_bootstrapped = true;
                        let mut bc = self.share_routing_table(&self_id.node_id);
                        let ghost bc0 = bc@;
                        let n0 = bc.len();
                        let mut moved: usize = 0;
                        while bc.len() > 0
                            invariant
                                bc0.len() == n0,
                                moved + bc@.len() == bc0.len(),
                                bc@ == bc0.skip(moved as int),
                                sends@.len() == 1 + moved,
                                sends@.skip(1) == bc0.take(moved as int),
                                ident_send_ok(sends@[0], peer_addr, self_id@),
                            decreases bc@.len(),
                        {
                            let t = bc.remove(0);
                            sends.push(t);
                            proof {
                                assert(bc@ =~= bc0.skip(moved + 1 as int));
                                assert(sends@.skip(1) =~= bc0.take(moved + 1 as int));
                            }
                            moved = moved + 1;
                        }
                        proof {
                            assert(sends@.skip(1) =~= bc0);
                        }
                        return (sends, events, true);
                    }
                    return (sends, events, false);
                }
                (sends, events, false)
            },
            None => {
                if self.entries.len() >= MAX_CONNECTION_LEN {
                    let mut addrs: Vec<NetAddr> = Vec::new();
                    let mut k: usize = 0;
                    while k < self.entries.len()
                        invariant
                            k <= self.spec_entries().len(),
                            addrs@ == tracked_addrs(self.spec_entries()).take(k as int),
                        decreases self.spec_entries().len() - k,
                    {
                        addrs.push(self.entries[k].addr);
                        proof {
                            assert(addrs@ =~= tracked_addrs(self.spec_entries()).take(
                                k + 1 as int,
                            ));
                        }
                        k = k + 1;
                    }
                    proof {
                        assert(tracked_addrs(self.spec_entries()).take(
                            self.spec_entries().len() as int,
                        ) =~= tracked_addrs(self.spec_entries()));
                    }
                    let msg = Message::Contacts(addrs);
                    let bytes = msg.encode();
                    sends.push(
                        Transmission {
                            label: TransmissionLabel::Contacts,
                            dest: peer_addr,
                            bytes,
                            priority: 1,
                        },
                    );
                    (sends, events, false)
                } else {
                    let e = ConnEntry {
                        addr: peer_addr,
                        id: None,
                        state: ConnectionState::Incoming,
                    };
                    proof {
                        lemma_clookup_push(self.spec_entries(), e);
                    }
                    self.entries.push(e);
                    proof {
                        assert(forall|j: int|
                            0 <= j < old(self).spec_entries().len()
                                ==> self.spec_entries()[j] == old(self).spec_entries()[j]);
                    }
                    let ident = Message::Identification(self_id.clone());
                    let bytes = ident.encode();
                    sends.push(
                        Transmission {
                            label: TransmissionLabel::PublicIdentity,
                            dest: peer_addr,
                            bytes,
                            priority: 0,
                        },
                    );
                    (sends, events, false)
                }
            },
        }
    }

    /// Remove the tracked entry of an address that failed; a no-op when the
    /// address is not tracked. Returns whether an entry was removed. Routes
    /// through the lost peer are deliberately kept: they may be improved or
    /// rediscovered by later gossip, and reachability, not freshness, is
    /// what the table is for.
    pub fn handle_connection_failure(&mut self, peer_addr: NetAddr) -> (removed: bool)
        requires
            old(self).wf(),
        ensures
            final(self).wf(),
            removed == (old(self).spec_conn(peer_addr) is Some),
            final(self).spec_conn(peer_addr) is None,
            forall|x: NetAddr| x != peer_addr ==> #[trigger] final(self).spec_conn(x) == old(self).spec_conn(x),
            final(self).spec_routing_table() == old(self).spec_routing_table(),
            final(self).spec_is_bootstrapped() == old(self).spec_is_bootstrapped(),
    {
        match self.find_index(&peer_addr) {
            Some(i) => {
                proof {
                    lemma_clookup_remove(self.spec_entries(), i as int);
                }
                let _ = self.entries.remove(i);
                true
            },
            None => false,
        }
    }

    /// Dial a peer whose identity is already known: track it as an
    /// outbound connection carrying the identity, replacing any entry the
    /// address already had. The caller dials the address afterwards.
    pub fn connect_to(&mut self, info: &ConnectionInfo)
        requires
            old(self).wf(),
        ensures
            final(self).wf(),
            conn_view(final(self).spec_conn(info.socket_addr)) == Some(
                (Some(info.public_id@), ConnectionState::Connecting),
            ),
            forall|x: NetAddr| x != info.socket_addr ==> #[trigger] final(self).spec_conn(x)
                == old(self).spec_conn(x),
            final(self).spec_entries().len() == old(self).spec_entries().len() + (
            if old(self).spec_conn(info.socket_addr) is Some {
                0int
            } else {
                1int
            }),
            final(self).spec_routing_table() == old(self).spec_routing_table(),
            final(self).spec_is_bootstrapped() == old(self).spec_is_bootstrapped(),
    {
        let e = ConnEntry {
            addr: info.socket_addr,
            id: Some(info.public_id.clone()),
            state: ConnectionState::Connecting,
        };
        self.track(e);
    }

    /// Dial a peer knowing only its address: track it as an outbound
    /// connection with the identity still unknown, replacing any entry the
    /// address already had. The caller dials the address afterwards.
    pub fn bootstrap_with(&mut self, socket_addr: NetAddr)
        requires
            old(self).wf(),
        ensures
            final(self).wf(),
            conn_view(final(self).spec_conn(socket_addr)) == Some(
                (Option::<crate::identity::public_id::PublicIdView>::None, ConnectionState::Connecting),
            ),
            forall|x: NetAddr| x != socket_addr ==> #[trigger] final(self).spec_conn(x)
                == old(self).spec_conn(x),
            final(self).spec_entries().len() == old(self).spec_entries().len() + (
            if old(self).spec_conn(socket_addr) is Some {
                0int
            } else {
                1int
            }),
            final(self).spec_routing_table() == old(self).spec_routing_table(),
            final(self).spec_is_bootstrapped() == old(self).spec_is_bootstrapped(),
    {
        let e = ConnEntry { addr: socket_addr, id: None, state: ConnectionState::Connecting };
        self.track(e);
    }

    /// Inserts or replaces the entry for `e.addr`.
    fn track(&mut self, e: ConnEntry)
        requires
            old(self).wf(),
            e.state == ConnectionState::Connecting,
        ensures
            final(self).wf(),
            final(self).spec_conn(e.addr) == Some((e.id, e.state)),
            forall|x: NetAddr| x != e.addr ==> #[trigger] final(self).spec_conn(x) == old(self).spec_conn(x),
            final(self).spec_entries().len() == old(self).spec_entries().len() + (
            if old(self).spec_conn(e.addr) is Some {
                0int
            } else {
                1int
            }),
            final(self).spec_routing_table() == old(self).spec_routing_table(),
            final(self).spec_is_bootstrapped() == old(self).spec_is_bootstrapped(),
    {
        match self.find_index(&e.addr) {
            Some(i) => {
                proof {
                    lemma_clookup_update(self.spec_entries(), i as int, e);
                }
                let ghost olds = self.spec_entries();
                self.entries[i] = e;
                proof {
                    assert(forall|j: int|
                        0 <= j < self.spec_entries().len() && j != i ==> self.spec_entries()[j]
                            == olds[j]);
                }
            },
            None => {
                proof {
                    lemma_clookup_push(self.spec_entries(), e);
                }
                let ghost olds = self.spec_entries();
                self.entries.push(e);
                proof {
                    assert(forall|j: int|
                        0 <= j < olds.len() ==> self.spec_entries()[j] == olds[j]);
                }
            },
        }
    }

    /// Bootstrap to the network: dial every given address not already
    /// tracked, stopping once the connection table is full. Returns the
    /// addresses the caller should dial.
    pub fn bootstrap(&mut self, nodes: &Vec<NetAddr>) -> (dials: Vec<NetAddr>)
        requires
            old(self).wf(),
        ensures
            final(self).wf(),
            bootstrap_ok(*old(self), *final(self), nodes@, dials@),
    {
        let ghost oldc = *old(self);
        let mut dials: Vec<NetAddr> = Vec::new();
        let mut k: usize = 0;
        let mut full = false;
        proof {
            assert(nodes@.take(0) =~= Seq::<NetAddr>::empty());
        }
        while k < nodes.len() && !full
            invariant
                k <= nodes@.len(),
                oldc == *old(self),
                self.wf(),
                self.spec_routing_table() == oldc.spec_routing_table(),
                self.spec_is_bootstrapped() == oldc.spec_is_bootstrapped(),
                self.spec_entries().len() == oldc.spec_entries().len() + dials@.len(),
                dials@ == boot_dials(oldc, nodes@.take(k as int)),
                forall|x: NetAddr| oldc.spec_conn(x) is Some ==> #[trigger] self.spec_conn(x)
                    == oldc.spec_conn(x),
                forall|j: int| 0 <= j < dials@.len() ==> oldc.spec_conn(
                    #[trigger] dials@[j],
                ) is None && nodes@.contains(dials@[j]) && conn_view(self.spec_conn(dials@[j]))
                    == Some((Option::<crate::identity::public_id::PublicIdView>::None, ConnectionState::Connecting)),
                forall|x: NetAddr| oldc.spec_conn(x) is None && #[trigger] self.spec_conn(x)
                    is Some ==> dials@.contains(x),
                !full ==> forall|j: int| 0 <= j < k ==> self.spec_conn(#[trigger] nodes@[j])
                    is Some,
                full ==> self.spec_entries().len() >= MAX_CONNECTION_LEN,
            decreases nodes@.len() - k, (if full { 0int } else { 1int }),
        {
            if self.entries.len() >= MAX_CONNECTION_LEN {
                full = true;
            } else {
                let node = nodes[k];
                proof {
                    assert(nodes@.take(k + 1 as int).drop_last() =~= nodes@.take(k as int));
                    assert(nodes@.take(k + 1 as int).last() == nodes@[k as int]);
                }
                match self.find_index(&node) {
                    Some(_) => {
                        proof {
                            assert(self.spec_conn(node) is Some);
                            if oldc.spec_conn(node) is None {
                                assert(dials@.contains(node));
                            }
                            assert(boot_dials(oldc, nodes@.take(k + 1 as int)) == dials@);
                        }
                    },
                    None => {
                        proof {
                            assert(oldc.spec_conn(node) is None) by {
                                if oldc.spec_conn(node) is Some {
                                    assert(self.spec_conn(node) == oldc.spec_conn(node));
                                }
                            }
                            assert(!dials@.contains(node)) by {
                                if dials@.contains(node) {
                                    let j = choose|j: int|
                                        0 <= j < dials@.len() && dials@[j] == node;
                                    assert(conn_view(self.spec_conn(dials@[j])) == Some((
                                        Option::<crate::identity::public_id::PublicIdView>::None,
                                        ConnectionState::Connecting,
                                    )));
                                }
                            }
                            assert(boot_dials(oldc, nodes@.take(k + 1 as int)) == dials@.push(
                                node,
                            ));
                        }
                        let ghost old_dials = dials@;
                        self.bootstrap_with(node);
                        dials.push(node);
                        proof {
                            assert(dials@[dials@.len() - 1] == node);
                            assert(nodes@.take(k + 1 as int).contains(nodes@[k as int]));
                            assert(nodes@.contains(node)) by {
                                assert(nodes@[k as int] == node);
                            }
                            assert forall|x: NetAddr| old_dials.contains(x)
                                implies dials@.contains(x) by {
                                let j = choose|j: int|
                                    0 <= j < old_dials.len() && old_dials[j] == x;
                                assert(dials@[j] == x);
                            }
                        }
                    },
                }
                k = k + 1;
            }
        }
        proof {
            if full {
                lemma_boot_dials_stall(oldc, nodes@, k as int);
            } else {
                assert(nodes@.take(nodes@.len() as int) =~= nodes@);
            }
            lemma_boot_dials_len(oldc, nodes@);
        }
        dials
    }
}

impl Default for Connection {
    /// A fresh connection manager with an empty table.
    fn default() -> (r: Self)
        ensures
            r.wf(),
            r.spec_entries() == Seq::<ConnEntry>::empty(),
            !r.spec_is_bootstrapped(),
    {
        Connection::new()
    }
}

} // verus!
