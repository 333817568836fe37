//! Wire codec: the four datagram kinds and their text frames.
use vstd::prelude::*;
use vstd::string::StringSliceAdditionalSpecFns;
use vstd::utf8::{decode_utf8, encode_utf8_decode_utf8, valid_utf8};

verus! {

/// The structural separator between the fields of a frame.
pub const SEP: char = '|';

/// True when `s` holds no separator.
pub open spec fn no_sep(s: Seq<char>) -> bool {
    forall|i: int| 0 <= i < s.len() ==> s[i] != SEP
}

/// Position of the first separator in `s`, if there is one.
pub open spec fn first_sep(s: Seq<char>) -> Option<int>
    decreases s.len(),
{
    if s.len() == 0 {
        None
    } else if s[0] == SEP {
        Some(0)
    } else {
        match first_sep(s.drop_first()) {
            Some(k) => Some(k + 1),
            None => None,
        }
    }
}

/// `s` cut around its first separator: the text before it and the text after it.
pub open spec fn split_sep(s: Seq<char>) -> Option<(Seq<char>, Seq<char>)> {
    match first_sep(s) {
        Some(k) => Some((s.take(k), s.skip(k + 1))),
        None => None,
    }
}

/// `first_sep` finds the leftmost separator, and finds none only when there is none.
pub proof fn lemma_first_sep(s: Seq<char>)
    ensures
        match first_sep(s) {
            Some(k) => 0 <= k < s.len() && s[k] == SEP && forall|j: int| 0 <= j < k ==> s[j] != SEP,
            None => no_sep(s),
        },
    decreases s.len(),
{
    if s.len() > 0 && s[0] != SEP {
        let t = s.drop_first();
        lemma_first_sep(t);
        match first_sep(t) {
            Some(k) => {
                assert forall|j: int| 0 <= j < k + 1 implies s[j] != SEP by {
                    if j > 0 {
                        assert(s[j] == t[j - 1]);
                    }
                }
            },
            None => {
                assert forall|i: int| 0 <= i < s.len() implies s[i] != SEP by {
                    if i > 0 {
                        assert(s[i] == t[i - 1]);
                    }
                }
            },
        }
    }
}

/// Cutting `head|tail` where `head` holds no separator gives back `head` and `tail`.
pub proof fn lemma_split_sep_join(head: Seq<char>, tail: Seq<char>)
    requires
        no_sep(head),
    ensures
        split_sep(head + seq![SEP] + tail) == Some((head, tail)),
{
    let s = head + seq![SEP] + tail;
    lemma_first_sep(s);
    assert(s[head.len() as int] == SEP);
    match first_sep(s) {
        Some(k) => {
            if k < head.len() {
                assert(s[k] == head[k]);
            }
            assert(k == head.len());
            assert(s.take(k) =~= head);
            assert(s.skip(k + 1) =~= tail);
        },
        None => {},
    }
}

/// Text without a separator cannot be cut.
pub proof fn lemma_split_sep_none(s: Seq<char>)
    requires
        no_sep(s),
    ensures
        split_sep(s) is None,
{
    lemma_first_sep(s);
}

/// Relies on `str::split_once` with a `char` pattern: it splits the text on the
/// first occurrence of the separator, and gives `None` when there is none.
#[verifier::external_body]
fn split_once_sep(s: &str) -> (r: Option<(&str, &str)>)
    ensures
        match r {
            Some(parts) => s@ == parts.0@ + seq![SEP] + parts.1@ && no_sep(parts.0@),
            None => no_sep(s@),
        },
{
    s.split_once(SEP)
}

/// Cuts `s` around its first separator.
fn split_first(s: &str) -> (r: Option<(&str, &str)>)
    ensures
        match r {
            Some(parts) => split_sep(s@) == Some((parts.0@, parts.1@)),
            None => split_sep(s@) is None,
        },
{
    let r = split_once_sep(s);
    proof {
        match r {
            Some(parts) => lemma_split_sep_join(parts.0@, parts.1@),
            None => lemma_split_sep_none(s@),
        }
    }
    r
}

/// Why a frame could not be read.
#[derive(Debug, PartialEq, Eq, Structural, Clone, Copy)]
pub enum Error {
    /// The leading tag is none of the four kinds.
    UnknownKind,
    /// The tag is known but a field that it requires is absent.
    MissingField,
}

/// A publish datagram as plain text fields.
pub struct PublishView {
    pub channel: Seq<char>,
    pub display_name: Seq<char>,
    pub message: Seq<char>,
}

/// A message for every subscriber of a channel, signed with a display name.
#[derive(Debug, PartialEq, Clone)]
pub struct PublishDatagram {
    pub channel: String,
    pub message: String,
    pub display_name: String,
}

impl View for PublishDatagram {
    type V = PublishView;

    open spec fn view(&self) -> PublishView {
        PublishView {
            channel: self.channel@,
            display_name: self.display_name@,
            message: self.message@,
        }
    }
}

/// Body of a publish frame: `channel|display_name|message`.
pub open spec fn publish_body(p: PublishView) -> Seq<char> {
    p.channel + seq![SEP] + p.display_name + seq![SEP] + p.message
}

/// Reads a publish body: cut at the first separator, then cut what follows at
/// its first separator; the message keeps every later separator.
pub open spec fn decode_publish(s: Seq<char>) -> Option<PublishView> {
    match split_sep(s) {
        Some((channel, rest)) => match split_sep(rest) {
            Some((display_name, message)) => Some(
                PublishView { channel, display_name, message },
            ),
            None => None,
        },
        None => None,
    }
}

/// Every publish body can be read back. It reads back as the same fields
/// when channel and display name hold no separator; in any case, writing out
/// what was read gives the same body.
pub proof fn lemma_decode_publish_body(p: PublishView)
    ensures
        decode_publish(publish_body(p)) is Some,
        publish_body(decode_publish(publish_body(p))->0) == publish_body(p),
        no_sep(p.channel) && no_sep(p.display_name) ==> decode_publish(publish_body(p)) == Some(p),
{
    let s = publish_body(p);
    let c = p.channel.len() as int;
    let n = p.display_name.len() as int;
    assert(s[c] == SEP);
    assert(s[c + 1 + n] == SEP);
    lemma_first_sep(s);
    let k = first_sep(s)->0;
    let rest = s.skip(k + 1);
    assert(rest[c + n - k] == s[c + 1 + n]);
    lemma_first_sep(rest);
    let k2 = first_sep(rest)->0;
    let q = decode_publish(s)->0;
    assert(publish_body(q) =~= s);
    if no_sep(p.channel) && no_sep(p.display_name) {
        assert(s =~= p.channel + seq![SEP] + (p.display_name + seq![SEP] + p.message));
        lemma_split_sep_join(p.channel, p.display_name + seq![SEP] + p.message);
        lemma_split_sep_join(p.display_name, p.message);
    }
}

impl PublishDatagram {
    /// Reads `channel|display_name|message`; fails with `MissingField` when
    /// the text holds fewer than two separators.
    pub fn parse(s: &str) -> (r: Result<PublishDatagram, Error>)
        ensures
            match decode_publish(s@) {
                Some(p) => r matches Ok(d) && d@ == p,
                None => r == Err::<PublishDatagram, Error>(Error::MissingField),
            },
    {
        match split_first(s) {
            Some((channel, rest)) => match split_first(rest) {
                Some((display_name, message)) => Ok(
                    PublishDatagram {
                        channel: channel.to_owned(),
                        message: message.to_owned(),
                        display_name: display_name.to_owned(),
                    },
                ),
                None => Err(Error::MissingField),
            },
            None => Err(Error::MissingField),
        }
    }

    /// The body of this datagram's frame.
    pub fn serialize(&self) -> (r: String)
        ensures
            r@ == publish_body(self@),
    {
        let mut out = self.channel.clone();
        out.append("|");
        out.append(self.display_name.as_str());
        out.append("|");
        out.append(self.message.as_str());
        proof {
            reveal_strlit("|");
        }
        out
    }

    /// A fresh datagram read back from this one's body: equal to this one
    /// whenever channel and display name hold no separator.
    pub fn copy(&self) -> (r: PublishDatagram)
        ensures
            decode_publish(publish_body(self@)) == Some(r@),
            no_sep(self.channel@) && no_sep(self.display_name@) ==> r@ == self@,
    {
        let body = self.serialize();
        proof {
            lemma_decode_publish_body(self@);
        }
        match Self::parse(body.as_str()) {
            Ok(d) => d,
            Err(_) => unreached(),
        }
    }
}

/// A request to receive what is published on a channel.
#[derive(Debug, PartialEq)]
pub struct SubscribeDatagram {
    pub channel: String,
}

impl SubscribeDatagram {
    /// The whole text is the channel, separators included.
    pub fn parse(s: &str) -> (r: SubscribeDatagram)
        ensures
            r.channel@ == s@,
    {
        SubscribeDatagram { channel: s.to_owned() }
    }

    /// The body of this datagram's frame: the channel.
    pub fn serialize(&self) -> (r: String)
        ensures
            r@ == self.channel@,
    {
        self.channel.clone()
    }
}

/// A request to stop receiving what is published on a channel.
#[derive(Debug, PartialEq)]
pub struct UnsubscribeDatagram {
    pub channel: String,
}

impl UnsubscribeDatagram {
    /// The whole text is the channel, separators included.
    pub fn parse(s: &str) -> (r: UnsubscribeDatagram)
        ensures
            r.channel@ == s@,
    {
        UnsubscribeDatagram { channel: s.to_owned() }
    }

    /// The body of this datagram's frame: the channel.
    pub fn serialize(&self) -> (r: String)
        ensures
            r@ == self.channel@,
    {
        self.channel.clone()
    }
}

/// A datagram as plain text fields.
pub enum DatagramView {
    Subscribe(Seq<char>),
    Unsubscribe(Seq<char>),
    Publish(PublishView),
    Error(Seq<char>),
}

/// One application message; one datagram on the wire.
#[derive(Debug, PartialEq)]
pub enum Datagram {
    Subscribe(SubscribeDatagram),
    Unsubscribe(UnsubscribeDatagram),
    Publish(PublishDatagram),
    Error(String),
}

impl View for Datagram {
    type V = DatagramView;

    open spec fn view(&self) -> DatagramView {
        match self {
            Datagram::Subscribe(d) => DatagramView::Subscribe(d.channel@),
            Datagram::Unsubscribe(d) => DatagramView::Unsubscribe(d.channel@),
            Datagram::Publish(d) => DatagramView::Publish(d@),
            Datagram::Error(m) => DatagramView::Error(m@),
        }
    }
}

/// The frame of a datagram: a one-letter tag, the separator, then the body.
pub open spec fn encode(d: DatagramView) -> Seq<char> {
    match d {
        DatagramView::Subscribe(channel) => seq!['S', SEP] + channel,
        DatagramView::Unsubscribe(channel) => seq!['U', SEP] + channel,
        DatagramView::Publish(p) => seq!['P', SEP] + publish_body(p),
        DatagramView::Error(message) => seq!['E', SEP] + message,
    }
}

/// One of the four tags.
pub open spec fn is_known_tag(t: Seq<char>) -> bool {
    t == seq!['S'] || t == seq!['U'] || t == seq!['P'] || t == seq!['E']
}

/// Reads a frame. The tag runs to the first separator; a channel or an error
/// message is the whole remainder; a publish body is read by `decode_publish`.
/// A known tag with nothing after it lacks a field; any other tag is unknown.
pub open spec fn decode(s: Seq<char>) -> Result<DatagramView, Error> {
    match split_sep(s) {
        Some((tag, rest)) => if tag == seq!['S'] {
            Ok(DatagramView::Subscribe(rest))
        } else if tag == seq!['U'] {
            Ok(DatagramView::Unsubscribe(rest))
        } else if tag == seq!['P'] {
            match decode_publish(rest) {
                Some(p) => Ok(DatagramView::Publish(p)),
                None => Err(Error::MissingField),
            }
        } else if tag == seq!['E'] {
            Ok(DatagramView::Error(rest))
        } else {
            Err(Error::UnknownKind)
        },
        None => if is_known_tag(s) {
            Err(Error::MissingField)
        } else {
            Err(Error::UnknownKind)
        },
    }
}

/// A datagram whose frame reads back as itself: the fields of a publish
/// datagram that a later field follows hold no separator.
pub open spec fn well_formed(d: DatagramView) -> bool {
    match d {
        DatagramView::Publish(p) => no_sep(p.channel) && no_sep(p.display_name),
        _ => true,
    }
}

/// Decoding an encoded datagram gives it back.
pub proof fn lemma_round_trip(d: DatagramView)
    requires
        well_formed(d),
    ensures
        decode(encode(d)) == Ok::<DatagramView, Error>(d),
{
    let tag = match d {
        DatagramView::Subscribe(_) => 'S',
        DatagramView::Unsubscribe(_) => 'U',
        DatagramView::Publish(_) => 'P',
        DatagramView::Error(_) => 'E',
    };
    let body = match d {
        DatagramView::Subscribe(c) => c,
        DatagramView::Unsubscribe(c) => c,
        DatagramView::Publish(p) => publish_body(p),
        DatagramView::Error(m) => m,
    };
    assert(encode(d) =~= seq![tag] + seq![SEP] + body);
    lemma_split_sep_join(seq![tag], body);
    if let DatagramView::Publish(p) = d {
        lemma_decode_publish_body(p);
    }
}

/// Relies on `std::str::from_utf8`: it accepts exactly the byte sequences that
/// are valid UTF-8, and the text it returns is made of those very bytes.
#[verifier::external_body]
fn utf8_text(buf: &[u8]) -> (r: Option<&str>)
    ensures
        r is Some <==> valid_utf8(buf@),
        r matches Some(s) ==> s.spec_bytes() == buf@,
{
    std::str::from_utf8(buf).ok()
}

/// Reads a byte buffer as UTF-8 text.
pub(crate) fn text_of(buf: &[u8]) -> (r: Option<&str>)
    ensures
        match r {
            Some(s) => valid_utf8(buf@) && s@ == decode_utf8(buf@),
            None => !valid_utf8(buf@),
        },
{
    let r = utf8_text(buf);
    proof {
        if let Some(s) = r {
            encode_utf8_decode_utf8(s@);
        }
    }
    r
}

/// Reads a received buffer: its text if it is valid UTF-8, then that text as
/// a frame; `None` when either step fails.
pub open spec fn decode_bytes(b: Seq<u8>) -> Option<DatagramView> {
    if valid_utf8(b) {
        match decode(decode_utf8(b)) {
            Ok(d) => Some(d),
            Err(_) => None,
        }
    } else {
        None
    }
}

/// Bytes that are not UTF-8 decode to no datagram.
pub proof fn lemma_garbage_decodes_to_nothing(b: Seq<u8>)
    requires
        !valid_utf8(b),
    ensures
        decode_bytes(b) is None,
{
}

/// Reads a received buffer as a datagram; a buffer that is not UTF-8, or not
/// a frame, gives `None` and never a panic.
pub fn parse_datagram(buf: &[u8]) -> (r: Option<Datagram>)
    ensures
        match decode_bytes(buf@) {
            Some(v) => r matches Some(d) && d@ == v,
            None => r is None,
        },
{
    match text_of(buf) {
        Some(text) => match Datagram::parse(text) {
            Ok(d) => Some(d),
            Err(_) => None,
        },
        None => None,
    }
}

/// Is `a` the same text as `b`?
fn same_text(a: &str, b: &str) -> (r: bool)
    ensures
        r == (a@ == b@),
{
    a.to_owned() == b.to_owned()
}

impl Datagram {
    /// Reads a frame; see `decode`.
    pub fn parse(s: &str) -> (r: Result<Datagram, Error>)
        ensures
            match decode(s@) {
                Ok(v) => r matches Ok(d) && d@ == v,
                Err(e) => r == Err::<Datagram, Error>(e),
            },
    {
        proof {
            reveal_strlit("S");
            reveal_strlit("U");
            reveal_strlit("P");
            reveal_strlit("E");
            assert("S"@ =~= seq!['S']);
            assert("U"@ =~= seq!['U']);
            assert("P"@ =~= seq!['P']);
            assert("E"@ =~= seq!['E']);
            assert(seq!['S'][0] != seq!['U'][0] && seq!['S'][0] != seq!['P'][0]);
            assert(seq!['S'][0] != seq!['E'][0] && seq!['U'][0] != seq!['P'][0]);
            assert(seq!['U'][0] != seq!['E'][0] && seq!['P'][0] != seq!['E'][0]);
        }
        match split_first(s) {
            Some((tag, rest)) => {
                if same_text(tag, "S") {
                    Ok(Datagram::Subscribe(SubscribeDatagram::parse(rest)))
                } else if same_text(tag, "U") {
                    Ok(Datagram::Unsubscribe(UnsubscribeDatagram::parse(rest)))
                } else if same_text(tag, "P") {
                    match PublishDatagram::parse(rest) {
                        Ok(d) => Ok(Datagram::Publish(d)),
                        Err(e) => Err(e),
                    }
                } else if same_text(tag, "E") {
                    Ok(Datagram::Error(rest.to_owned()))
                } else {
                    Err(Error::UnknownKind)
                }
            },
            None => {
                if same_text(s, "S") || same_text(s, "U") || same_text(s, "P") || same_text(s, "E") {
                    Err(Error::MissingField)
                } else {
                    Err(Error::UnknownKind)
                }
            },
        }
    }

    /// Writes the frame of this datagram.
    pub fn serialize(&self) -> (r: String)
        ensures
            r@ == encode(self@),
    {
        let (tag, body) = match self {
            Datagram::Subscribe(c) => ("S|", c.serialize()),
            Datagram::Unsubscribe(c) => ("U|", c.serialize()),
            Datagram::Publish(d) => ("P|", d.serialize()),
            Datagram::Error(e) => ("E|", e.clone()),
        };
        let mut out = tag.to_owned();
        out.append(body.as_str());
        proof {
            reveal_strlit("S|");
            reveal_strlit("U|");
            reveal_strlit("P|");
            reveal_strlit("E|");
        }
        out
    }

    /// A subscribe datagram for `channel`.
    pub fn subscribe(channel: &str) -> (r: Datagram)
        ensures
            r@ == DatagramView::Subscribe(channel@),
    {
        Datagram::Subscribe(SubscribeDatagram { channel: channel.to_owned() })
    }

    /// An unsubscribe datagram for `channel`.
    pub fn unsubscribe(channel: &str) -> (r: Datagram)
        ensures
            r@ == DatagramView::Unsubscribe(channel@),
    {
        Datagram::Unsubscribe(UnsubscribeDatagram { channel: channel.to_owned() })
    }

    /// A publish datagram with the given fields.
    pub fn publish(channel: &str, display_name: &str, message: &str) -> (r: Datagram)
        ensures
            r@ == DatagramView::Publish(
                PublishView { channel: channel@, display_name: display_name@, message: message@ },
            ),
    {
        Datagram::Publish(
            PublishDatagram {
                channel: channel.to_owned(),
                message: message.to_owned(),
                display_name: display_name.to_owned(),
            },
        )
    }

    /// An error datagram carrying `message`.
    pub fn error(message: &str) -> (r: Datagram)
        ensures
            r@ == DatagramView::Error(message@),
    {
        Datagram::Error(message.to_owned())
    }
}

} // verus!
