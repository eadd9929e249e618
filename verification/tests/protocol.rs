//! Tests of the connection manager, the routing table and the
//! dissemination protocol, including the end-to-end bootstrap and relay
//! scenarios.

use blockp2p::config::Config;
use blockp2p::connection::connection_types::{ConnectionState, NetAddr};
use blockp2p::connection::routing::{RoutingTable, SharedRoutingTable, UNREACHABLE};
use blockp2p::connection::Connection;
use blockp2p::crypto::hash;
use blockp2p::event::Event;
use blockp2p::identity::Identity;
use blockp2p::messaging::message::{Message, Transmission, TransmissionLabel};
use blockp2p::messaging::Messaging;
use blockp2p::node::Node;

fn addr(port: u16) -> NetAddr {
    NetAddr { ip: 0x0a000001, port }
}

fn decode(t: &Transmission) -> Message {
    Message::decode(&t.bytes).expect("a produced transmission must decode")
}

#[test]
fn test_capacity_invariant() {
    // P1: the (max+1)-th distinct address gets a Contacts reply and is not
    // tracked; the table never exceeds five entries.
    let identity = Identity::new();
    let me = identity.public_id();
    let mut conn = Connection::new();
    for port in 1..=5u16 {
        let (sends, events, deploy) = conn.handle_successful_connection(&me, addr(port));
        assert_eq!(sends.len(), 1);
        assert_eq!(sends[0].label, TransmissionLabel::PublicIdentity);
        assert!(events.is_empty());
        assert!(!deploy);
        assert_eq!(conn.connections().len(), port as usize);
    }
    let (sends, events, deploy) = conn.handle_successful_connection(&me, addr(6));
    assert_eq!(conn.connections().len(), 5);
    assert!(conn.connections().iter().all(|e| e.addr != addr(6)));
    assert_eq!(sends.len(), 1);
    assert_eq!(sends[0].label, TransmissionLabel::Contacts);
    assert_eq!(sends[0].priority, 1);
    assert_eq!(sends[0].dest, addr(6));
    match decode(&sends[0]) {
        Message::Contacts(addrs) => assert_eq!(addrs.len(), 5),
        other => panic!("expected a Contacts message, got {:?}", other),
    }
    assert!(events.is_empty());
    assert!(!deploy);
}

#[test]
fn test_identification_idempotence() {
    // P2: an Identification for an already connected address is a no-op.
    let me = Identity::new().public_id();
    let peer = Identity::new().public_id();
    let mut conn = Connection::new();
    conn.bootstrap_with(addr(1));
    let (_, events, _) = conn.handle_peer_identification(&me, addr(1), &peer);
    assert_eq!(events.len(), 1);
    let version = conn.routing_table().version();
    let (sends, events, deploy) = conn.handle_peer_identification(&me, addr(1), &peer);
    assert!(sends.is_empty());
    assert!(events.is_empty());
    assert!(!deploy);
    assert_eq!(conn.routing_table().version(), version);
    assert_eq!(conn.active_connections(), vec![addr(1)]);
}

#[test]
fn test_relaxation_optimality() {
    // P3: after gossip from a fixed topology with no further changes,
    // every hop count is the best one the gossip justifies, and the next
    // hop is the peer that justified it.
    let me = hash::Hash::from_bytes(b"self");
    let p1 = hash::Hash::from_bytes(b"peer one");
    let p2 = hash::Hash::from_bytes(b"peer two");
    let far = hash::Hash::from_bytes(b"far node");
    let lost = hash::Hash::from_bytes(b"unreached node");
    let mut table = RoutingTable::new();
    table.add_direct_connection(&p1);
    table.add_direct_connection(&p2);
    // Peer one reaches the far node directly and knows of an unreached one.
    let mut remote1 = RoutingTable::new();
    remote1.add_direct_connection(&far);
    remote1.add_new_node(&lost);
    let changed = table.relax(&me, &p1, &remote1.get_shared());
    assert!(changed);
    assert_eq!(table.get_routing_info(&far), Some((p1, 2)));
    // The unreachable report adds a placeholder, nothing better.
    assert_eq!(table.get_routing_info(&lost).unwrap().1, UNREACHABLE);
    // Peer two reports the same distance; one more hop through peer two
    // does not beat the recorded two, so the table is quiescent.
    let changed = table.relax(&me, &p2, &remote1.get_shared());
    assert!(!changed);
    assert_eq!(table.get_routing_info(&far), Some((p1, 2)));
    assert_eq!(table.get_routing_info(&p1), Some((p1, 1)));
    assert_eq!(table.get_routing_info(&p2), Some((p2, 1)));
}

#[test]
fn test_redaction() {
    // P4: the shared table holds identifier and hop count only, exactly
    // one row per table row.
    let a = hash::Hash::from_bytes(b"a");
    let b = hash::Hash::from_bytes(b"b");
    let mut table = RoutingTable::new();
    table.add_direct_connection(&a);
    table.add_new_node(&b);
    let shared: SharedRoutingTable = table.get_shared();
    assert_eq!(shared.shared_entries().len(), 2);
    assert_eq!(shared.shared_routing_info(&a), Some(1));
    assert_eq!(shared.shared_routing_info(&b), Some(UNREACHABLE));
    for row in shared.shared_entries() {
        let (_, hops) = table.get_routing_info(&row.node).unwrap();
        assert_eq!(row.hops, hops);
    }
}

#[test]
fn test_version_monotonicity() {
    // P5: the version advances by exactly one per changed batch, never per
    // row, and never moves otherwise.
    let me = hash::Hash::from_bytes(b"self");
    let peer = hash::Hash::from_bytes(b"peer");
    let d1 = hash::Hash::from_bytes(b"dest one");
    let d2 = hash::Hash::from_bytes(b"dest two");
    let mut table = RoutingTable::new();
    assert_eq!(table.version(), 0);
    table.add_direct_connection(&peer);
    assert_eq!(table.version(), 0);
    table.increment_version();
    assert_eq!(table.version(), 1);
    // One gossip batch that improves two destinations at once.
    let mut remote = RoutingTable::new();
    remote.add_direct_connection(&d1);
    remote.add_direct_connection(&d2);
    let mut conn = Connection::new();
    let me_id = Identity::new().public_id();
    let (_, _, _) = conn.handle_successful_connection(&me_id, addr(1));
    let before = conn.routing_table().version();
    let _ = conn.update_routing_table(&me, &peer, &remote.get_shared());
    assert_eq!(conn.routing_table().version(), before + 1);
    // The same gossip again changes nothing and leaves the version alone.
    let _ = conn.update_routing_table(&me, &peer, &remote.get_shared());
    assert_eq!(conn.routing_table().version(), before + 1);
}

#[test]
fn test_outbox_termination() {
    // P6: an undelivered outbox entry is gone after three cycles.
    let sender = Identity::new();
    let target = Identity::new().public_id();
    let mut messaging = Messaging::new();
    messaging.send_message(&target, b"will never arrive").unwrap();
    assert_eq!(messaging.outbox_len(), 1);
    let active = vec![addr(9)];
    let _ = messaging.send_agent_message(Vec::new(), &active, true);
    assert_eq!(messaging.outbox_len(), 1);
    let _ = messaging.send_agent_message(Vec::new(), &active, false);
    assert_eq!(messaging.outbox_len(), 1);
    let _ = messaging.send_agent_message(Vec::new(), &active, false);
    assert_eq!(messaging.outbox_len(), 0);
    let _ = sender;
}

#[test]
fn test_no_active_connection_keeps_everything() {
    let target = Identity::new().public_id();
    let mut messaging = Messaging::new();
    messaging.send_message(&target, b"queued").unwrap();
    messaging.handle_unsent_message(b"failed earlier".to_vec(), 7).unwrap();
    let sends = messaging.send_agent_message(Vec::new(), &Vec::new(), true);
    assert!(sends.is_empty());
    assert_eq!(messaging.outbox_len(), 1);
    assert_eq!(messaging.pending_len(), 1);
}

#[test]
fn test_pending_retries_drained() {
    let mut messaging = Messaging::new();
    messaging.handle_unsent_message(b"first".to_vec(), 1).unwrap();
    messaging.handle_unsent_message(b"second".to_vec(), 2).unwrap();
    let active = vec![addr(4)];
    let sends = messaging.send_agent_message(Vec::new(), &active, false);
    assert_eq!(sends.len(), 3);
    assert_eq!(sends[0].label, TransmissionLabel::Pending(2));
    assert_eq!(sends[0].bytes, b"second".to_vec());
    assert_eq!(sends[1].label, TransmissionLabel::Pending(1));
    assert_eq!(sends[1].bytes, b"first".to_vec());
    assert_eq!(sends[2].label, TransmissionLabel::AgentMessage);
    assert_eq!(messaging.pending_len(), 0);
}

#[test]
fn test_signed_message_integrity() {
    // P7: an untampered signed message always surfaces; a tampered payload
    // or signature never does.
    let alice = Identity::new();
    let bob = Identity::new();
    let sig = alice.sign_message(b"attested payload").unwrap();
    let good = Message::SignedMessage {
        message: b"attested payload".to_vec(),
        signature: sig.clone(),
        sender: alice.public_id(),
    };
    let receiver = Messaging::new();
    let events = receiver.handle_message(&good.encode(), &bob);
    assert_eq!(events, vec![Event::NewMessage(b"attested payload".to_vec())]);

    let tampered_payload = Message::SignedMessage {
        message: b"attested payloaD".to_vec(),
        signature: sig.clone(),
        sender: alice.public_id(),
    };
    assert!(receiver.handle_message(&tampered_payload.encode(), &bob).is_empty());

    let mut bad_sig = sig.clone();
    bad_sig[0] ^= 0xff;
    let tampered_sig = Message::SignedMessage {
        message: b"attested payload".to_vec(),
        signature: bad_sig,
        sender: alice.public_id(),
    };
    assert!(receiver.handle_message(&tampered_sig.encode(), &bob).is_empty());

    let wrong_sender = Message::SignedMessage {
        message: b"attested payload".to_vec(),
        signature: sig,
        sender: bob.public_id(),
    };
    assert!(receiver.handle_message(&wrong_sender.encode(), &bob).is_empty());
}

#[test]
fn test_encrypted_and_authenticated_messages() {
    let alice = Identity::new();
    let bob = Identity::new();
    let receiver = Messaging::new();

    let ct = blockp2p::crypto::signature::PublicKey::from_bytes(&bob.public_id().public_key)
        .unwrap()
        .encrypt(b"for bob only")
        .unwrap();
    let enc = Message::EncryptedMessage(ct);
    let events = receiver.handle_message(&enc.encode(), &bob);
    assert_eq!(events, vec![Event::NewMessage(b"for bob only".to_vec())]);
    // Decrypting under the wrong key never recovers the plaintext.
    assert_ne!(
        receiver.handle_message(&enc.encode(), &alice),
        vec![Event::NewMessage(b"for bob only".to_vec())]
    );

    // The backend cannot round-trip an empty plaintext: its ciphertext
    // image is shorter than the parser accepts, so the recipient drops it.
    let ct = blockp2p::crypto::signature::PublicKey::from_bytes(&bob.public_id().public_key)
        .unwrap()
        .encrypt(b"")
        .unwrap();
    let empty = Message::EncryptedMessage(ct);
    assert!(receiver.handle_message(&empty.encode(), &bob).is_empty());

    let ct = alice.authenticate_message(&bob.public_id(), b"authentic").unwrap();
    let auth = Message::AuthenticatedMessage { message: ct, sender: alice.public_id() };
    let events = receiver.handle_message(&auth.encode(), &bob);
    assert_eq!(events, vec![Event::NewMessage(b"authentic".to_vec())]);
    let forged = Message::AuthenticatedMessage {
        message: match auth.clone() {
            Message::AuthenticatedMessage { message, .. } => message,
            _ => unreachable!(),
        },
        sender: bob.public_id(),
    };
    assert!(receiver.handle_message(&forged.encode(), &bob).is_empty());
}

#[test]
fn test_bootstrap_and_identification_scenario() {
    // P8: A (capacity 5) bootstraps to B; B accepts and identifies
    // itself; A marks the connection established, records a direct route
    // to B at hop count one, and broadcasts its routing table to B; B's
    // table then reaches A at hop count one with next hop A.
    let addr_a = addr(100);
    let addr_b = addr(200);
    let a_id = Identity::new();
    let b_id = Identity::new();
    let a_pub = a_id.public_id();
    let b_pub = b_id.public_id();
    let mut a = Connection::new();
    let mut b = Connection::new();

    let dials = a.bootstrap(&vec![addr_b]);
    assert_eq!(dials, vec![addr_b]);

    // The dial completes on both sides; each sends its Identification.
    let (a_sends, _, _) = a.handle_successful_connection(&a_pub, addr_b);
    assert_eq!(a_sends.len(), 1);
    let (b_sends, _, _) = b.handle_successful_connection(&b_pub, addr_a);
    assert_eq!(b_sends.len(), 1);

    // A receives B's Identification.
    let (a_sends, a_events, _) = match decode(&b_sends[0]) {
        Message::Identification(peer) => a.handle_peer_identification(&a_pub, addr_b, &peer),
        other => panic!("expected an Identification, got {:?}", other),
    };
    assert_eq!(a_events, vec![Event::ConnectedTo(b_pub.clone())]);
    assert_eq!(a.routing_table().get_routing_info(&b_pub.node_id), Some((b_pub.node_id, 1)));
    assert_eq!(a.active_connections(), vec![addr_b]);
    // A broadcast its redacted table to its one active connection.
    assert_eq!(a_sends.len(), 1);
    assert_eq!(a_sends[0].label, TransmissionLabel::RoutingInformation);
    assert_eq!(a_sends[0].dest, addr_b);

    // B receives A's Identification, then A's routing table.
    let (_, b_events, _) = match decode(&a_sends_ident(&a_pub)) {
        Message::Identification(peer) => b.handle_peer_identification(&b_pub, addr_a, &peer),
        other => panic!("expected an Identification, got {:?}", other),
    };
    assert_eq!(b_events, vec![Event::ConnectedTo(a_pub.clone())]);
    match decode(&a_sends[0]) {
        Message::RoutingTable { shared_routing_table, source } => {
            let _ = b.update_routing_table(&b_pub.node_id, &source, &shared_routing_table);
        },
        other => panic!("expected a RoutingTable message, got {:?}", other),
    }
    assert_eq!(b.routing_table().get_routing_info(&a_pub.node_id), Some((a_pub.node_id, 1)));
}

fn a_sends_ident(a_pub: &blockp2p::identity::public_id::PublicId) -> Transmission {
    Transmission {
        label: TransmissionLabel::PublicIdentity,
        dest: addr(0),
        bytes: Message::Identification(a_pub.clone()).encode(),
        priority: 0,
    }
}

#[test]
fn test_node_dispatch_identification() {
    // The node orchestrator: an inbound Identification marks the peer
    // connected, surfaces the event, and (being the first connection)
    // appends the agent deployment cycle to the broadcast.
    let addr_b = addr(201);
    let mut a = Node::with_config(Config::new(None, false, true, vec![addr_b]));
    let b_id = Identity::new();
    let b_pub = b_id.public_id();
    let dials = a.bootstrap();
    assert_eq!(dials, vec![addr_b]);
    let (_, _, _) = a.handle_successful_connection(addr_b);
    let ident = Message::Identification(b_pub.clone()).encode();
    let (sends, dials, events) = a.handle_incoming_message(addr_b, &ident);
    assert!(dials.is_empty());
    assert_eq!(events, vec![Event::ConnectedTo(b_pub)]);
    // One routing broadcast to the new peer, then one agent message.
    assert_eq!(sends.len(), 2);
    assert_eq!(sends[0].label, TransmissionLabel::RoutingInformation);
    assert_eq!(sends[1].label, TransmissionLabel::AgentMessage);
    // Garbage is dropped without effect.
    let (sends, dials, events) = a.handle_incoming_message(addr_b, &vec![99, 1, 2]);
    assert!(sends.is_empty() && dials.is_empty() && events.is_empty());
}

#[test]
fn test_agent_dissemination_scenario() {
    // P9: A sends a signed message to C through B, with no direct
    // connection between A and C; C surfaces the original payload.
    let alice = Identity::new();
    let bob = Identity::new();
    let carol = Identity::new();
    let mut m_a = Messaging::new();
    let mut m_b = Messaging::new();
    let mut m_c = Messaging::new();

    m_a.send_signed_message(&alice, &carol.public_id(), b"relayed payload").unwrap();
    assert_eq!(m_a.outbox_len(), 1);

    // One dissemination cycle at A, whose only neighbor is B.
    let a_sends = m_a.send_agent_message(Vec::new(), &vec![addr(2)], true);
    assert_eq!(a_sends.len(), 1);
    let payload = match Message::decode(&a_sends[0].bytes).unwrap() {
        Message::AgentMessage { payload } => payload,
        other => panic!("expected an agent message, got {:?}", other),
    };

    // B is not the target: it forwards to its neighbor C.
    let (b_events, b_sends) = m_b.handle_agent_message(&bob, payload, &vec![addr(3)]);
    assert!(b_events.is_empty());
    let payload = match Message::decode(&b_sends.last().unwrap().bytes).unwrap() {
        Message::AgentMessage { payload } => payload,
        other => panic!("expected an agent message, got {:?}", other),
    };

    // C is the target: the signed payload surfaces.
    let (c_events, _) = m_c.handle_agent_message(&carol, payload, &Vec::new());
    assert_eq!(c_events, vec![Event::NewMessage(b"relayed payload".to_vec())]);

    // Had C never been reached, the entry would be dropped after three
    // cycles: two more cycles at A empty its outbox.
    let _ = m_a.send_agent_message(Vec::new(), &vec![addr(2)], false);
    let _ = m_a.send_agent_message(Vec::new(), &vec![addr(2)], false);
    assert_eq!(m_a.outbox_len(), 0);
}

#[test]
fn test_connection_failure_removes_entry() {
    let me = Identity::new().public_id();
    let mut conn = Connection::new();
    let (_, _, _) = conn.handle_successful_connection(&me, addr(1));
    assert_eq!(conn.connections().len(), 1);
    assert!(conn.handle_connection_failure(addr(1)));
    assert_eq!(conn.connections().len(), 0);
    assert!(!conn.handle_connection_failure(addr(1)));
}

#[test]
fn test_config_accessors() {
    let mut cfg = Config::new(Some("encoded".to_string()), true, false, vec![addr(1)]);
    assert!(cfg.is_genesis_node());
    assert!(!cfg.should_deploy());
    assert_eq!(cfg.identity(), &Some("encoded".to_string()));
    cfg.add_bootstrap_nodes(&vec![addr(2)]);
    assert_eq!(cfg.bootstrap_nodes(), &vec![addr(1), addr(2)]);
}

#[test]
fn test_bootstrap_with_replaces_entry() {
    // Re-dialing a tracked address replaces its entry instead of growing
    // the table.
    let mut conn = Connection::new();
    conn.bootstrap_with(addr(1));
    conn.bootstrap_with(addr(1));
    assert_eq!(conn.connections().len(), 1);
    assert_eq!(conn.connections()[0].state, ConnectionState::Connecting);
}

#[test]
fn test_outbound_dial_is_unconditional() {
    // The connection cap refuses incoming attempts; an outbound dial the
    // caller asked for is always tracked, even at capacity.
    let me = Identity::new().public_id();
    let mut conn = Connection::new();
    for port in 1..=5u16 {
        let (_, _, _) = conn.handle_successful_connection(&me, addr(port));
    }
    assert_eq!(conn.connections().len(), 5);
    conn.bootstrap_with(addr(6));
    assert_eq!(conn.connections().len(), 6);
    let peer = Identity::new().public_id();
    let info = blockp2p::connection::connection_types::ConnectionInfo {
        public_id: peer,
        socket_addr: addr(7),
    };
    conn.connect_to(&info);
    assert_eq!(conn.connections().len(), 7);
    // A further incoming attempt is still refused.
    let (sends, _, _) = conn.handle_successful_connection(&me, addr(8));
    assert_eq!(conn.connections().len(), 7);
    assert_eq!(sends[0].label, TransmissionLabel::Contacts);
}

#[test]
fn test_bootstrap_dials_in_list_order() {
    // Bootstrapping takes the list front to back, skipping tracked
    // addresses and duplicates, and stops once the table is full.
    let mut conn = Connection::new();
    conn.bootstrap_with(addr(2));
    let nodes = vec![addr(1), addr(2), addr(1), addr(3), addr(4), addr(5), addr(6), addr(7)];
    let dials = conn.bootstrap(&nodes);
    assert_eq!(dials, vec![addr(1), addr(3), addr(4), addr(5)]);
    assert_eq!(conn.connections().len(), 5);
}

#[test]
fn test_bootstrap_empty_list() {
    let mut conn = Connection::new();
    let dials = conn.bootstrap(&Vec::new());
    assert!(dials.is_empty());
    assert_eq!(conn.connections().len(), 0);
}

#[test]
fn test_hash_display_string() {
    let h = hash::Hash::from_bytes(b"shown");
    let s = h.to_display_string();
    assert_eq!(s.len(), 15);
    let full = h.to_hex_string();
    assert!(s.starts_with(&full[..6]));
    assert!(s.ends_with(&full[58..]));
    assert_eq!(&s[6..9], "...");
}
