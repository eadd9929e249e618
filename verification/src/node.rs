//! Functionality of a node on the network: a thin orchestrator owning one
//! connection manager, one messaging protocol and one identity. Inbound
//! wire messages are decoded and dispatched; every operation returns the
//! transmissions, dials and events it gives rise to, for the embedding
//! layer to perform.

use crate::config::Config;
use crate::connection::connection_types::{ConnEntry, ConnectionInfo, NetAddr};
use crate::connection::{
    active_addrs, bootstrap_ok, peer_identification_ok, Connection,
};
use crate::error::Error;
use crate::event::Event;
use crate::identity::public_id::{PublicId, PublicIdView};
use crate::identity::Identity;
use crate::messaging::message::{
    dec_message, pairs_view, Message, MessageView, Transmission,
};
use crate::messaging::{agent_cycle_ok, agent_forward, agent_new_msgs, is_new_message_event, Messaging};
use vstd::prelude::*;

verus! {

/// Whether processing an Identification message from `peer_addr` makes
/// the node deploy an agent: the address was tracked without an identity,
/// and this is the node's first established connection.
pub open spec fn ident_deploy(oldc: Connection, peer_addr: NetAddr) -> bool {
    match oldc.spec_conn(peer_addr) {
        Some((Option::None, st)) => !oldc.spec_is_bootstrapped(),
        _ => false,
    }
}

/// Representation of a peer-to-peer node
pub struct Node {
    config: Config,
    identity: Identity,
    connection: Connection,
    messaging: Messaging,
}

impl Node {
    /// The node's configuration.
    pub closed spec fn spec_config(self) -> Config {
        self.config
    }

    /// The node's identity.
    pub closed spec fn spec_identity(self) -> Identity {
        self.identity
    }

    /// The node's connection manager.
    pub closed spec fn spec_connection(self) -> Connection {
        self.connection
    }

    /// The node's messaging state.
    pub closed spec fn spec_messaging(self) -> Messaging {
        self.messaging
    }

    /// A well-formed node: identity, connection manager and messaging state
    /// are each well-formed.
    pub open spec fn wf(self) -> bool {
        &&& self.spec_identity().wf()
        &&& self.spec_connection().wf()
        &&& self.spec_messaging().wf()
    }

    /// Creates a new `Node` with a default configuration and a fresh
    /// random identity.
    pub fn new() -> (r: Self)
        ensures
            r.wf(),
            !r.spec_connection().spec_is_bootstrapped(),
            r.spec_connection().spec_routing_table().spec_version() == 0,
            r.spec_messaging().spec_outbox().len() == 0,
            r.spec_messaging().spec_pending().len() == 0,
    {
        Self::with_config(Config::default())
    }

    /// Creates a new `Node` with the given configuration and a fresh
    /// random identity.
    pub fn with_config(config: Config) -> (r: Self)
        ensures
            r.wf(),
            r.spec_config() == config,
            !r.spec_connection().spec_is_bootstrapped(),
            r.spec_connection().spec_routing_table().spec_version() == 0,
            r.spec_connection().spec_entries().len() == 0,
            r.spec_messaging().spec_outbox().len() == 0,
            r.spec_messaging().spec_pending().len() == 0,
    {
        Node {
            config,
            identity: Identity::new(),
            connection: Connection::new(),
            messaging: Messaging::new(),
        }
    }

    /// Fetch the tracked connections.
    pub fn connections(&self) -> (r: &Vec<ConnEntry>)
        ensures
            r@ == self.spec_connection().spec_entries(),
    {
        self.connection.connections()
    }

    /// Retrieves the routing table. The embedding layer reads its version
    /// to check the counter's headroom before feeding events in.
    pub fn routing_table(&self) -> (r: &crate::connection::routing::RoutingTable)
        ensures
            r == self.spec_connection().spec_routing_table(),
    {
        self.connection.routing_table()
    }

    /// The node's public identity.
    pub fn public_id(&self) -> (r: PublicId)
        ensures
            r@ == self.spec_identity().spec_pid(),
    {
        self.identity.public_id()
    }

    /// Retrieves the connection information for this node at the given
    /// local address.
    pub fn connection_info(&self, local_addr: NetAddr) -> (r: ConnectionInfo)
        ensures
            r.public_id@ == self.spec_identity().spec_pid(),
            r.socket_addr == local_addr,
    {
        ConnectionInfo { public_id: self.identity.public_id(), socket_addr: local_addr }
    }

    /// Bootstrap to the network using all configured contacts. Returns the
    /// addresses the caller should dial.
    pub fn bootstrap(&mut self) -> (dials: Vec<NetAddr>)
        requires
            old(self).wf(),
        ensures
            final(self).wf(),
            final(self).spec_config() == old(self).spec_config(),
            final(self).spec_identity() == old(self).spec_identity(),
            final(self).spec_messaging() == old(self).spec_messaging(),
            bootstrap_ok(
                old(self).spec_connection(),
                final(self).spec_connection(),
                old(self).spec_config().spec_bootstrap_nodes(),
                dials@,
            ),
    {
        let mut nodes: Vec<NetAddr> = Vec::new();
        let bs = self.config.bootstrap_nodes();
        let mut k: usize = 0;
        while k < bs.len()
            invariant
                k <= bs@.len(),
                bs@ == self.spec_config().spec_bootstrap_nodes(),
                nodes@ == bs@.take(k as int),
            decreases bs@.len() - k,
        {
            nodes.push(bs[k]);
            proof {
                assert(nodes@ =~= bs@.take(k + 1 as int));
            }
            k = k + 1;
        }
        proof {
            assert(nodes@ =~= self.spec_config().spec_bootstrap_nodes());
        }
        self.connection.bootstrap(&nodes)
    }

    /// Bootstrap with a single peer known only by address: track it as an
    /// outbound connection; the caller dials the address afterwards.
    pub fn bootstrap_with(&mut self, addr: NetAddr)
        requires
            old(self).wf(),
        ensures
            final(self).wf(),
            final(self).spec_config() == old(self).spec_config(),
            final(self).spec_identity() == old(self).spec_identity(),
            final(self).spec_messaging() == old(self).spec_messaging(),
            crate::connection::conn_view(final(self).spec_connection().spec_conn(addr)) == Some(
                (
                    Option::<PublicIdView>::None,
                    crate::connection::connection_types::ConnectionState::Connecting,
                ),
            ),
            forall|x: NetAddr| x != addr ==> #[trigger] final(self).spec_connection().spec_conn(x)
                == old(self).spec_connection().spec_conn(x),
    {
        self.connection.bootstrap_with(addr)
    }

    /// Connect to a peer whose identity and address are both known: track
    /// it as an outbound connection carrying the identity; the caller
    /// dials the address afterwards.
    pub fn connect_to(&mut self, info: &ConnectionInfo)
        requires
            old(self).wf(),
        ensures
            final(self).wf(),
            final(self).spec_config() == old(self).spec_config(),
            final(self).spec_identity() == old(self).spec_identity(),
            final(self).spec_messaging() == old(self).spec_messaging(),
            crate::connection::conn_view(
                final(self).spec_connection().spec_conn(info.socket_addr),
            ) == Some(
                (
                    Some(info.public_id@),
                    crate::connection::connection_types::ConnectionState::Connecting,
                ),
            ),
            forall|x: NetAddr| x != info.socket_addr
                ==> #[trigger] final(self).spec_connection().spec_conn(x) == old(
                self,
            ).spec_connection().spec_conn(x),
    {
        self.connection.connect_to(info)
    }

    /// Queue an ordinary message to a peer.
    pub fn send_message(&mut self, dst: &PublicId, msg: &[u8]) -> (r: Result<(), Error>)
        requires
            old(self).wf(),
        ensures
            final(self).wf(),
            r is Ok,
            final(self).spec_connection() == old(self).spec_connection(),
            final(self).spec_identity() == old(self).spec_identity(),
    {
        self.messaging.send_message(dst, msg)
    }

    /// Queue a message encrypted to the peer's BLS public key.
    pub fn send_encrypted_message(&mut self, dst: &PublicId, msg: &[u8]) -> (r: Result<(), Error>)
        requires
            old(self).wf(),
        ensures
            final(self).wf(),
            final(self).spec_connection() == old(self).spec_connection(),
            final(self).spec_identity() == old(self).spec_identity(),
    {
        self.messaging.send_encrypted_message(dst, msg)
    }

    /// Queue a message under authenticated encryption.
    pub fn send_authenticated_message(&mut self, dst: &PublicId, msg: &[u8]) -> (r: Result<
        (),
        Error,
    >)
        requires
            old(self).wf(),
        ensures
            final(self).wf(),
            final(self).spec_connection() == old(self).spec_connection(),
            final(self).spec_identity() == old(self).spec_identity(),
    {
        self.messaging.send_authenticated_message(&self.identity, dst, msg)
    }

    /// Sign a message and queue it with the detached signature.
    pub fn send_signed_message(&mut self, dst: &PublicId, msg: &[u8]) -> (r: Result<(), Error>)
        requires
            old(self).wf(),
        ensures
            final(self).wf(),
            final(self).spec_connection() == old(self).spec_connection(),
            final(self).spec_identity() == old(self).spec_identity(),
            (r is Ok) == (old(self).spec_identity().spec_sign_sk().len()
                == crate::crypto::keys::KEY_SIZE),
    {
        self.messaging.send_signed_message(&self.identity, dst, msg)
    }

    /// Decode and dispatch one inbound wire message from the peer at
    /// `peer_addr`: Identification and Contacts feed the connection
    /// manager, agent payloads feed the messaging protocol, and a gossiped
    /// routing table runs the relaxation step. Anything else, and anything
    /// that does not decode, is dropped.
    pub fn handle_incoming_message(&mut self, peer_addr: NetAddr, msg: &Vec<u8>) -> (r: (
        Vec<Transmission>,
        Vec<NetAddr>,
        Vec<Event>,
    ))
        requires
            old(self).wf(),
            old(self).spec_connection().spec_routing_table().spec_version() < usize::MAX,
        ensures
            final(self).wf(),
            final(self).spec_config() == old(self).spec_config(),
            final(self).spec_identity() == old(self).spec_identity(),
            (match dec_message(msg@) {
                Some(MessageView::Identification(p)) => {
                    let (sends, dials, events) = r;
                    let deploy = ident_deploy(old(self).spec_connection(), peer_addr);
                    let m: int = if deploy {
                        active_addrs(final(self).spec_connection().spec_entries()).len() as int
                    } else {
                        sends@.len() as int
                    };
                    &&& dials@.len() == 0
                    &&& 0 <= m <= sends@.len()
                    &&& peer_identification_ok(
                        old(self).spec_connection(),
                        final(self).spec_connection(),
                        old(self).spec_identity().spec_pid(),
                        peer_addr,
                        p,
                        sends@.take(m),
                        events@,
                        deploy,
                    )
                    &&& (deploy ==> agent_cycle_ok(
                        old(self).spec_messaging(),
                        final(self).spec_messaging(),
                        Seq::<(PublicIdView, Seq<u8>)>::empty(),
                        active_addrs(final(self).spec_connection().spec_entries()),
                        sends@.skip(m),
                    ))
                    &&& (!deploy ==> final(self).spec_messaging() == old(self).spec_messaging())
                },
                Some(MessageView::AgentMessage { payload }) => {
                    let (sends, dials, events) = r;
                    let msgs = agent_new_msgs(
                        payload,
                        old(self).spec_identity().spec_node_id(),
                        old(self).spec_identity().spec_bls_sk(),
                    );
                    &&& dials@.len() == 0
                    &&& final(self).spec_connection() == old(self).spec_connection()
                    &&& events@.len() == msgs.len()
                    &&& (forall|i: int| 0 <= i < msgs.len() ==> is_new_message_event(
                        #[trigger] events@[i],
                        msgs[i],
                    ))
                    &&& agent_cycle_ok(
                        old(self).spec_messaging(),
                        final(self).spec_messaging(),
                        agent_forward(payload, old(self).spec_identity().spec_node_id()),
                        active_addrs(old(self).spec_connection().spec_entries()),
                        sends@,
                    )
                },
                Some(MessageView::RoutingTable { shared, source }) => {
                    let (sends, dials, events) = r;
                    &&& dials@.len() == 0
                    &&& events@.len() == 0
                    &&& final(self).spec_messaging() == old(self).spec_messaging()
                    &&& crate::connection::table_relaxed(
                        old(self).spec_connection().spec_routing_table().spec_entries(),
                        old(self).spec_identity().spec_node_id(),
                        source,
                        shared,
                        final(self).spec_connection().spec_routing_table(),
                    )
                    &&& final(self).spec_connection().spec_entries() == old(
                        self,
                    ).spec_connection().spec_entries()
                },
                Some(MessageView::Contacts(contacts)) => {
                    let (sends, dials, events) = r;
                    &&& sends@.len() == 0
                    &&& events@.len() == 0
                    &&& final(self).spec_messaging() == old(self).spec_messaging()
                    &&& bootstrap_ok(
                        old(self).spec_connection(),
                        final(self).spec_connection(),
                        contacts,
                        dials@,
                    )
                },
                _ => {
                    let (sends, dials, events) = r;
                    &&& *final(self) == *old(self)
                    &&& sends@.len() == 0
                    &&& dials@.len() == 0
                    &&& events@.len() == 0
                },
            }),
    {
        let dials: Vec<NetAddr> = Vec::new();
        let events: Vec<Event> = Vec::new();
        let decoded = match Message::decode(msg) {
            Some(m) => m,
            None => {
                return (Vec::new(), dials, events);
            },
        };
        match decoded {
            Message::Identification(public_id) => {
                let self_pub = self.identity.public_id();
                let (sends, events, deploy) = self.connection.handle_peer_identification(
                    &self_pub,
                    peer_addr,
                    &public_id,
                );
                let ghost s1 = sends@;
                if deploy {
                    let active = self.connection.active_connections();
                    let agent_sends = self.messaging.send_agent_message(
                        Vec::new(),
                        &active,
                        false,
                    );
                    let ghost s2 = agent_sends@;
                    let mut sends = sends;
                    let mut agent_sends = agent_sends;
                    let n2 = agent_sends.len();
                    let mut moved: usize = 0;
                    while agent_sends.len() > 0
                        invariant
                            s2.len() == n2,
                            moved + agent_sends@.len() == s2.len(),
                            agent_sends@ == s2.skip(moved as int),
                            sends@ == s1 + s2.take(moved as int),
                        decreases agent_sends@.len(),
                    {
                        let t = agent_sends.remove(0);
                        sends.push(t);
                        proof {
                            assert(agent_sends@ =~= s2.skip(moved + 1 as int));
                            assert(sends@ =~= s1 + s2.take(moved + 1 as int));
                        }
                        moved = moved + 1;
                    }
                    proof {
                        assert(s2.take(s2.len() as int) =~= s2);
                        assert(pairs_view(Seq::<(PublicId, Vec<u8>)>::empty()) =~= Seq::<
                            (PublicIdView, Seq<u8>),
                        >::empty());
                        assert(sends@ == s1 + s2);
                        assert(sends@.take(s1.len() as int) =~= s1);
                        assert(sends@.skip(s1.len() as int) =~= s2);
                        assert(s1.len() == active_addrs(
                            self.spec_connection().spec_entries(),
                        ).len());
                    }
                    (sends, dials, events)
                } else {
                    proof {
                        assert(sends@.take(sends@.len() as int) =~= sends@);
                    }
                    (sends, dials, events)
                }
            },
            Message::AgentMessage { payload } => {
                let active = self.connection.active_connections();
                let (events, sends) = self.messaging.handle_agent_message(
                    &self.identity,
                    payload,
                    &active,
                );
                (sends, dials, events)
            },
            Message::Contacts(contacts) => {
                let dials = self.connection.bootstrap(&contacts);
                (Vec::new(), dials, events)
            },
            Message::RoutingTable { shared_routing_table, source } => {
                let self_pub = self.identity.public_id();
                let sends = self.connection.update_routing_table(
                    &self_pub.node_id,
                    &source,
                    &shared_routing_table,
                );
                (sends, dials, events)
            },
            _ => (Vec::new(), dials, events),
        }
    }


    /// Handle a successful transport session for `peer_addr`.
    pub fn handle_successful_connection(&mut self, peer_addr: NetAddr) -> (r: (
        Vec<Transmission>,
        Vec<Event>,
        bool,
    ))
        requires
            old(self).wf(),
            old(self).spec_connection().spec_routing_table().spec_version() < usize::MAX,
        ensures
            final(self).wf(),
            final(self).spec_config() == old(self).spec_config(),
            final(self).spec_identity() == old(self).spec_identity(),
            final(self).spec_messaging() == old(self).spec_messaging(),
            crate::connection::successful_connection_ok(
                old(self).spec_connection(),
                final(self).spec_connection(),
                old(self).spec_identity().spec_pid(),
                peer_addr,
                r.0@,
                r.1@,
                r.2,
            ),
    {
        let self_pub = self.identity.public_id();
        self.connection.handle_successful_connection(&self_pub, peer_addr)
    }

    /// Remove the tracked connection of an address that failed.
    pub fn handle_connection_failure(&mut self, peer_addr: NetAddr) -> (removed: bool)
        requires
            old(self).wf(),
        ensures
            final(self).wf(),
            final(self).spec_identity() == old(self).spec_identity(),
            final(self).spec_messaging() == old(self).spec_messaging(),
            removed == (old(self).spec_connection().spec_conn(peer_addr) is Some),
            final(self).spec_connection().spec_conn(peer_addr) is None,
    {
        self.connection.handle_connection_failure(peer_addr)
    }

    /// One dissemination cycle over the current active connections.
    pub fn send_agent_message(&mut self, payload: Vec<(PublicId, Vec<u8>)>, first: bool) -> (sends: Vec<Transmission>)
        requires
            old(self).wf(),
        ensures
            final(self).wf(),
            final(self).spec_connection() == old(self).spec_connection(),
            final(self).spec_identity() == old(self).spec_identity(),
            agent_cycle_ok(
                old(self).spec_messaging(),
                final(self).spec_messaging(),
                pairs_view(payload@),
                active_addrs(old(self).spec_connection().spec_entries()),
                sends@,
            ),
    {
        let active = self.connection.active_connections();
        self.messaging.send_agent_message(payload, &active, first)
    }

    /// Run the relaxation step against a routing table gossiped by the
    /// peer with identifier `peer_id`, re-broadcasting when it changed
    /// anything.
    pub fn update_routing_table(
        &mut self,
        peer_id: &crate::crypto::hash::Hash,
        shared: &crate::connection::routing::SharedRoutingTable,
    ) -> (sends: Vec<Transmission>)
        requires
            old(self).wf(),
            old(self).spec_connection().spec_routing_table().spec_version() < usize::MAX,
        ensures
            final(self).wf(),
            final(self).spec_identity() == old(self).spec_identity(),
            final(self).spec_messaging() == old(self).spec_messaging(),
            crate::connection::table_relaxed(
                old(self).spec_connection().spec_routing_table().spec_entries(),
                old(self).spec_identity().spec_node_id(),
                *peer_id,
                shared.spec_entries(),
                final(self).spec_connection().spec_routing_table(),
            ),
    {
        let self_pub = self.identity.public_id();
        self.connection.update_routing_table(&self_pub.node_id, peer_id, shared)
    }
}

} // verus!
