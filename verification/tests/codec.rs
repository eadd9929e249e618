//! Tests of the wire layout: every message variant round-trips byte for
//! byte, and corrupt input is rejected.

use blockp2p::connection::connection_types::NetAddr;
use blockp2p::connection::routing::RoutingTable;
use blockp2p::crypto::hash;
use blockp2p::identity::Identity;
use blockp2p::messaging::message::Message;

fn roundtrip(m: Message) {
    let bytes = m.encode();
    let back = Message::decode(&bytes).expect("the encoding of a message must decode");
    assert_eq!(back, m);
}

#[test]
fn test_user_message_roundtrip() {
    roundtrip(Message::UserMessage(b"hello".to_vec()));
    roundtrip(Message::UserMessage(Vec::new()));
}

#[test]
fn test_encrypted_message_roundtrip() {
    roundtrip(Message::EncryptedMessage(vec![0, 1, 2, 254, 255]));
}

#[test]
fn test_authenticated_message_roundtrip() {
    let id = Identity::new();
    roundtrip(Message::AuthenticatedMessage {
        message: b"ciphertext bytes".to_vec(),
        sender: id.public_id(),
    });
}

#[test]
fn test_signed_message_roundtrip() {
    let id = Identity::new();
    let sig = id.sign_message(b"payload").unwrap();
    roundtrip(Message::SignedMessage {
        message: b"payload".to_vec(),
        signature: sig,
        sender: id.public_id(),
    });
}

#[test]
fn test_identification_roundtrip() {
    let id = Identity::new();
    roundtrip(Message::Identification(id.public_id()));
}

#[test]
fn test_contacts_roundtrip() {
    roundtrip(Message::Contacts(vec![
        NetAddr { ip: 0x7f000001, port: 9000 },
        NetAddr { ip: 0x7f000001, port: 9001 },
    ]));
    roundtrip(Message::Contacts(Vec::new()));
}

#[test]
fn test_agent_message_roundtrip() {
    let a = Identity::new();
    let b = Identity::new();
    roundtrip(Message::AgentMessage {
        payload: vec![
            (a.public_id(), b"for a".to_vec()),
            (b.public_id(), b"for b".to_vec()),
        ],
    });
    roundtrip(Message::AgentMessage { payload: Vec::new() });
}

#[test]
fn test_routing_table_roundtrip() {
    let mut table = RoutingTable::new();
    let n1 = hash::Hash::from_bytes(b"node one");
    let n2 = hash::Hash::from_bytes(b"node two");
    table.add_direct_connection(&n1);
    table.add_new_node(&n2);
    let source = hash::Hash::from_bytes(b"source node");
    roundtrip(Message::RoutingTable { shared_routing_table: table.get_shared(), source });
}

#[test]
fn test_decode_rejects_garbage() {
    assert!(Message::decode(&Vec::new()).is_none());
    assert!(Message::decode(&vec![200]).is_none());
    let mut bytes = Message::UserMessage(b"hello".to_vec()).encode();
    bytes.push(0);
    assert!(Message::decode(&bytes).is_none());
    bytes.pop();
    bytes.pop();
    assert!(Message::decode(&bytes).is_none());
}
