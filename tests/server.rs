use chat::protocol::{Datagram, PublishDatagram, SubscribeDatagram, UnsubscribeDatagram};
use chat::server::{publish_frame, Delivery, PeerAddr, Registry};

fn peer(last: u8, port: u16) -> PeerAddr {
    PeerAddr {
        ip: u32::from_be_bytes([127, 0, 0, last]),
        port,
    }
}

fn sorted_addresses(deliveries: &[Delivery]) -> Vec<PeerAddr> {
    let mut v: Vec<PeerAddr> = deliveries.iter().map(|d| d.address).collect();
    v.sort_by_key(|a| (a.ip, a.port));
    v
}

#[test]
fn subscribing_twice_keeps_one_subscriber() {
    let mut registry = Registry::new();
    let a = peer(1, 4000);
    registry.handle_subscribe(SubscribeDatagram::parse("room"), a);
    registry.handle_subscribe(SubscribeDatagram::parse("room"), a);
    assert_eq!(registry.subscribers("room"), Some(vec![a]));
}

#[test]
fn unsubscribing_an_absent_address_is_a_no_op() {
    let mut registry = Registry::new();
    let a = peer(1, 4000);
    let b = peer(2, 4000);
    registry.handle_unsubscribe(UnsubscribeDatagram::parse("room"), a);
    assert_eq!(registry.subscribers("room"), None);
    registry.handle_subscribe(SubscribeDatagram::parse("room"), a);
    registry.handle_unsubscribe(UnsubscribeDatagram::parse("room"), b);
    assert_eq!(registry.subscribers("room"), Some(vec![a]));
    registry.handle_unsubscribe(UnsubscribeDatagram::parse("room"), a);
    assert_eq!(registry.subscribers("room"), Some(vec![]));
    registry.handle_unsubscribe(UnsubscribeDatagram::parse("room"), a);
    assert_eq!(registry.subscribers("room"), Some(vec![]));
}

#[test]
fn fan_out_reaches_each_subscriber_once() {
    let mut registry = Registry::new();
    let a = peer(1, 4001);
    let b = peer(2, 4002);
    let c = peer(3, 4003);
    let sender = peer(4, 4004);
    assert!(registry.handle_datagram_string("S|room", a).is_empty());
    assert!(registry.handle_datagram_string("S|room", b).is_empty());
    assert!(registry.handle_datagram_string("S|other", c).is_empty());
    let out = registry.handle_datagram(Datagram::publish("room", "sender", "hi"), sender);
    assert_eq!(out.len(), 2);
    assert_eq!(sorted_addresses(&out), vec![a, b]);
    for d in &out {
        assert_eq!(d.frame, "P|room|sender|hi");
        assert_eq!(
            Datagram::parse(&d.frame).unwrap(),
            Datagram::publish("room", "sender", "hi")
        );
    }
}

#[test]
fn publisher_receives_its_own_message() {
    let mut registry = Registry::new();
    let a = peer(1, 4001);
    let b = peer(2, 4002);
    registry.handle_datagram_string("S|room", a);
    registry.handle_datagram_string("S|room", b);
    let out = registry.handle_datagram_string("P|room|a|hello", a);
    assert_eq!(sorted_addresses(&out), vec![a, b]);
}

#[test]
fn publish_without_subscribers_sends_nothing() {
    let mut registry = Registry::new();
    let a = peer(1, 4001);
    assert!(registry
        .handle_datagram(Datagram::publish("nobody", "me", "hi"), a)
        .is_empty());
    registry.handle_datagram_string("S|room", a);
    registry.handle_datagram_string("U|room", a);
    assert!(registry.handle_datagram_string("P|room|me|hi", a).is_empty());
}

#[test]
fn error_datagrams_change_nothing() {
    let mut registry = Registry::new();
    let a = peer(1, 4001);
    registry.handle_datagram_string("S|room", a);
    assert!(registry.handle_datagram(Datagram::error("oops"), a).is_empty());
    assert!(registry.handle_datagram_string("E|S|room", peer(2, 1)).is_empty());
    assert_eq!(registry.subscribers("room"), Some(vec![a]));
    assert_eq!(registry.subscribers("oops"), None);
}

#[test]
fn garbage_buffers_change_nothing() {
    let mut registry = Registry::new();
    let a = peer(1, 4001);
    assert!(registry.handle_datagram_buffer(&[0xff, 0x00, 0x7c], a).is_empty());
    assert!(registry.handle_datagram_buffer(b"X|room", a).is_empty());
    assert!(registry.handle_datagram_buffer(b"P|room", a).is_empty());
    assert_eq!(registry.subscribers("room"), None);
    assert!(registry.handle_datagram_buffer(b"S|room", a).is_empty());
    assert_eq!(registry.subscribers("room"), Some(vec![a]));
    let out = registry.handle_datagram_buffer(b"P|room|me|x|y", a);
    assert_eq!(out, vec![Delivery { address: a, frame: String::from("P|room|me|x|y") }]);
}

#[test]
fn scenario_of_two_channels() {
    let mut registry = Registry::new();
    let one = peer(1, 5001);
    let two = peer(2, 5002);
    let sender = peer(3, 5003);
    for frame in ["S|testing123", "S|nope", "U|nope"] {
        registry.handle_datagram_string(frame, one);
    }
    for frame in ["S|testing123", "S|client2"] {
        registry.handle_datagram_string(frame, two);
    }
    let out = registry.handle_datagram_string("P|testing123|sender|hi clients!", sender);
    assert_eq!(sorted_addresses(&out), vec![one, two]);
    let out = registry.handle_datagram_string("P|client2|sender|hi client 2!", sender);
    assert_eq!(out, vec![Delivery { address: two, frame: String::from("P|client2|sender|hi client 2!") }]);
    assert!(registry.handle_datagram_string("P|nope|sender|bad!", sender).is_empty());
}

#[test]
fn publish_frame_writes_the_tag_and_fields() {
    let d = PublishDatagram {
        channel: String::from("room"),
        display_name: String::from("me"),
        message: String::from("a|b"),
    };
    assert_eq!(publish_frame(&d), "P|room|me|a|b");
}
