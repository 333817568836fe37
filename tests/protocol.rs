use chat::protocol::{
    parse_datagram, Datagram, Error, PublishDatagram, SubscribeDatagram, UnsubscribeDatagram,
};

#[test]
fn test_subscribe_parse() {
    let message = "S|rust_club";
    let req = Datagram::parse(message).unwrap();
    assert_eq!(req, Datagram::subscribe("rust_club"));
}

#[test]
fn test_subscribe_serialize() {
    let req = Datagram::subscribe("rust_club");
    assert_eq!(req.serialize(), "S|rust_club");
}

#[test]
fn test_unsubscribe_parse() {
    let message = "U|rust_club";
    let req = Datagram::parse(message).unwrap();
    assert_eq!(
        req,
        Datagram::Unsubscribe(UnsubscribeDatagram {
            channel: String::from("rust_club")
        })
    );
}

#[test]
fn test_unsubscribe_serialize() {
    let req = Datagram::unsubscribe("rust_club");
    assert_eq!(req.serialize(), "U|rust_club");
}

#[test]
fn test_publish_parse() {
    let message = "P|rust_club|me|hello world! ||||| yo";
    let req = Datagram::parse(message).unwrap();
    assert_eq!(
        req,
        Datagram::Publish(PublishDatagram {
            channel: String::from("rust_club"),
            display_name: String::from("me"),
            message: String::from("hello world! ||||| yo"),
        })
    );
}

#[test]
fn test_publish_serialize() {
    let req = Datagram::publish("rust_club", "me", "hello world! ||||| yo");
    assert_eq!(req.serialize(), "P|rust_club|me|hello world! ||||| yo");
}

#[test]
fn test_error_parse() {
    let message = "E|some_error!";
    let req = Datagram::parse(message).unwrap();
    assert_eq!(req, Datagram::error("some_error!"));
}

#[test]
fn test_error_serialize() {
    let req = Datagram::error("some_error!");
    assert_eq!(req.serialize(), "E|some_error!");
}

#[test]
fn test_subscribe_datagram_parsing() {
    let message = "some_fake_channel";
    let req = SubscribeDatagram::parse(message);
    assert_eq!(
        req,
        SubscribeDatagram {
            channel: String::from("some_fake_channel")
        }
    );
}

#[test]
fn test_unsubscribe_datagram_parsing() {
    let message = "some_fake_channel";
    let req = UnsubscribeDatagram::parse(message);
    assert_eq!(
        req,
        UnsubscribeDatagram {
            channel: String::from("some_fake_channel")
        }
    );
}

#[test]
fn test_publish_datagram_parsing() {
    let message = "rust_club|me|hello world! ||||| yo";
    let req = PublishDatagram::parse(message).unwrap();
    assert_eq!(
        req,
        PublishDatagram {
            channel: String::from("rust_club"),
            display_name: String::from("me"),
            message: String::from("hello world! ||||| yo"),
        }
    );
}

#[test]
fn publish_message_absorbs_separators() {
    let req = Datagram::parse("P|ch|name|a|b|c").unwrap();
    assert_eq!(req, Datagram::publish("ch", "name", "a|b|c"));
}

#[test]
fn unknown_tag_is_rejected() {
    assert_eq!(Datagram::parse("X|foo"), Err(Error::UnknownKind));
    assert_eq!(Datagram::parse("SS|foo"), Err(Error::UnknownKind));
    assert_eq!(Datagram::parse(""), Err(Error::UnknownKind));
    assert_eq!(Datagram::parse("hello"), Err(Error::UnknownKind));
}

#[test]
fn missing_fields_are_rejected() {
    assert_eq!(Datagram::parse("P|ch|name"), Err(Error::MissingField));
    assert_eq!(Datagram::parse("P|"), Err(Error::MissingField));
    assert_eq!(Datagram::parse("S"), Err(Error::MissingField));
    assert_eq!(Datagram::parse("E"), Err(Error::MissingField));
    assert_eq!(PublishDatagram::parse("only_channel"), Err(Error::MissingField));
}

#[test]
fn empty_fields_are_read() {
    assert_eq!(Datagram::parse("S|").unwrap(), Datagram::subscribe(""));
    assert_eq!(Datagram::parse("E|").unwrap(), Datagram::error(""));
    assert_eq!(Datagram::parse("P|||").unwrap(), Datagram::publish("", "", ""));
}

#[test]
fn channel_of_subscribe_keeps_separators() {
    let req = Datagram::parse("S|a|b").unwrap();
    assert_eq!(req, Datagram::subscribe("a|b"));
    assert_eq!(req.serialize(), "S|a|b");
}

#[test]
fn round_trip_of_each_kind() {
    let datagrams = vec![
        Datagram::subscribe("room"),
        Datagram::unsubscribe("a|b"),
        Datagram::publish("room", "me", "hi | there"),
        Datagram::error("bad | frame"),
        Datagram::publish("", "", ""),
    ];
    for d in datagrams {
        let frame = d.serialize();
        assert_eq!(Datagram::parse(&frame).unwrap(), d);
    }
}

#[test]
fn copy_rereads_the_body() {
    let d = PublishDatagram {
        channel: String::from("room"),
        display_name: String::from("me"),
        message: String::from("x|y"),
    };
    assert_eq!(d.copy(), d);
    let odd = PublishDatagram {
        channel: String::from("a|b"),
        display_name: String::from("c"),
        message: String::from("d"),
    };
    let copy = odd.copy();
    assert_eq!(copy.channel, "a");
    assert_eq!(copy.display_name, "b");
    assert_eq!(copy.message, "c|d");
    assert_eq!(copy.serialize(), odd.serialize());
}

#[test]
fn non_utf8_bytes_give_no_datagram() {
    assert_eq!(parse_datagram(&[0xff, 0xfe, 0x7c]), None);
    assert_eq!(parse_datagram(&[b'S', b'|', 0xc3]), None);
}

#[test]
fn utf8_bytes_are_read() {
    assert_eq!(parse_datagram(b"S|room"), Some(Datagram::subscribe("room")));
    let bytes = "P|caf\u{e9}|\u{1f600}|h\u{e9}".as_bytes().to_vec();
    assert_eq!(
        parse_datagram(&bytes),
        Some(Datagram::publish("caf\u{e9}", "\u{1f600}", "h\u{e9}"))
    );
    assert_eq!(parse_datagram(b"X|room"), None);
    assert_eq!(parse_datagram(b""), None);
}
