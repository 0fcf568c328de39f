//! Text, address lookup and the chat.

use iroh_h3_client::chat::{broadcast_message, message_stream, Message, ALPN, HEARTBEATS};
use iroh_h3_client::discovery::{
    MockAddressLookup, MockAddressLookupMap, MockDiscovery, SocketAddr,
};
use iroh_h3_client::peer::PeerId;
use iroh_h3_client::text::{decimal_text, visible_text};

#[test]
fn decimal_numbers() {
    for n in [0, 1, 9, 10, 11, 99, 100, 1234567890, usize::MAX] {
        assert_eq!(decimal_text(n), n.to_string());
    }
}

#[test]
fn visible_values() {
    for byte in 0..=255_u8 {
        let expected = match http::HeaderValue::from_bytes(&[b'a', byte]) {
            Ok(value) => value.to_str().ok().map(str::to_owned),
            Err(_) => None,
        };
        assert_eq!(visible_text(vec![b'a', byte]), expected, "{}", byte);
    }
    assert_eq!(visible_text(Vec::new()), Some(String::new()));
}

fn peer(seed: u8) -> PeerId {
    PeerId { bytes: [seed; 32] }
}

const HOME: SocketAddr = SocketAddr::V4(0x7f00_0001, 80);
const LAB: SocketAddr = SocketAddr::V6(1, 443, 0, 2);

#[test]
fn known_peers_are_found() {
    let mut discovery = MockDiscovery::new();
    discovery.add_peer(peer(1), vec![HOME, LAB, HOME]);
    discovery.add_peer(peer(2), vec![LAB]);
    assert_eq!(discovery.resolve(&peer(1)), vec![HOME, LAB]);
    assert_eq!(discovery.resolve(&peer(2)), vec![LAB]);
    discovery.add_peer(peer(1), vec![]);
    assert_eq!(discovery.resolve(&peer(1)), vec![]);
    assert_eq!(discovery.resolve(&peer(2)), vec![LAB]);
}

#[test]
fn published_addresses_are_found() {
    let mut map = MockAddressLookupMap::new();
    let one = MockAddressLookup::new(peer(1));
    let two = MockAddressLookup::new(peer(2));
    assert!(one.id.same_as(&peer(1)));
    assert_eq!(one.resolve(&map, &peer(2)), None);
    two.publish(&mut map, vec![HOME, HOME]);
    assert_eq!(one.resolve(&map, &peer(2)), Some(vec![HOME]));
    assert_eq!(two.resolve(&map, &peer(2)), Some(vec![HOME]));
    assert_eq!(two.resolve(&map, &peer(1)), None);
    one.publish(&mut map, vec![HOME]);
    two.publish(&mut map, vec![LAB]);
    assert_eq!(one.resolve(&map, &peer(2)), Some(vec![LAB]));
    assert_eq!(one.resolve(&map, &peer(1)), Some(vec![HOME]));
}

#[test]
fn chat_messages() {
    let message = Message { sender: "Client".into(), content: "Hello from endpoint 2!".into() };
    let reply = broadcast_message(&message);
    assert_eq!(reply.sender, "Server");
    assert_eq!(reply.content, "Echo: Hello from endpoint 2!");
    assert_eq!(message_stream(), vec!["Server heartbeat\n"; 5]);
    assert_eq!(HEARTBEATS, 5);
    assert_eq!(ALPN, "h3");
}
