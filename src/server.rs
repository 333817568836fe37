//! The subscription registry and the server's dispatch: what each inbound
//! datagram does to the registry, and which frames go out to whom.
use crate::protocol::{
    decode, decode_bytes, encode, lemma_decode_publish_body, parse_datagram,
    Datagram, DatagramView, PublishDatagram, PublishView, SubscribeDatagram, UnsubscribeDatagram,
};
use vstd::prelude::*;

verus! {

/// A network endpoint: an IPv4 address, as its 32-bit number, and a port.
#[derive(Debug, Clone, Copy, PartialEq, Eq, Structural, Hash)]
pub struct PeerAddr {
    pub ip: u32,
    pub port: u16,
}

/// Registry contents: each channel that has an entry, with its subscribers.
pub type Subscriptions = Map<Seq<char>, Set<PeerAddr>>;

/// `address` added to the subscribers of `channel`; the entry is made if absent.
pub open spec fn subscribed(m: Subscriptions, channel: Seq<char>, address: PeerAddr) -> Subscriptions {
    if m.contains_key(channel) {
        m.insert(channel, m[channel].insert(address))
    } else {
        m.insert(channel, set![address])
    }
}

/// `address` taken out of the subscribers of `channel`, if that channel has an
/// entry; entries are never taken out.
pub open spec fn unsubscribed(m: Subscriptions, channel: Seq<char>, address: PeerAddr) -> Subscriptions {
    if m.contains_key(channel) {
        m.insert(channel, m[channel].remove(address))
    } else {
        m
    }
}

/// The addresses that a publish on `channel` goes to.
pub open spec fn recipients(m: Subscriptions, channel: Seq<char>) -> Set<PeerAddr> {
    if m.contains_key(channel) {
        m[channel]
    } else {
        Set::empty()
    }
}

/// The registry after one inbound datagram from `address`: a subscribe or an
/// unsubscribe changes it, a publish or an error leaves it as it was.
pub open spec fn dispatched(m: Subscriptions, d: DatagramView, address: PeerAddr) -> Subscriptions {
    match d {
        DatagramView::Subscribe(channel) => subscribed(m, channel, address),
        DatagramView::Unsubscribe(channel) => unsubscribed(m, channel, address),
        _ => m,
    }
}

/// Where an inbound datagram is forwarded: a publish goes to every subscriber
/// of its channel, whoever sent it; nothing else goes anywhere.
pub open spec fn fanout(m: Subscriptions, d: DatagramView) -> Set<PeerAddr> {
    match d {
        DatagramView::Publish(p) => recipients(m, p.channel),
        _ => Set::empty(),
    }
}

/// Subscribing an address to a channel a second time changes nothing, and on
/// a channel that had no entry the two subscriptions leave one subscriber.
pub proof fn lemma_subscribe_idempotent(m: Subscriptions, channel: Seq<char>, address: PeerAddr)
    ensures
        subscribed(subscribed(m, channel, address), channel, address) == subscribed(
            m,
            channel,
            address,
        ),
        !m.contains_key(channel) ==> subscribed(subscribed(m, channel, address), channel, address)[channel]
            == set![address] && subscribed(
            subscribed(m, channel, address),
            channel,
            address,
        )[channel].len() == 1,
{
    let once = subscribed(m, channel, address);
    assert(once[channel].insert(address) =~= once[channel]);
    assert(subscribed(once, channel, address) =~= once);
    if !m.contains_key(channel) {
        assert(set![address].len() == 1) by {
            assert(set![address] =~= Set::<PeerAddr>::empty().insert(address));
        }
    }
}

/// Unsubscribing an address that is not subscribed to the channel changes nothing.
pub proof fn lemma_unsubscribe_absent(m: Subscriptions, channel: Seq<char>, address: PeerAddr)
    requires
        !recipients(m, channel).contains(address),
    ensures
        unsubscribed(m, channel, address) == m,
{
    if m.contains_key(channel) {
        assert(m[channel].remove(address) =~= m[channel]);
        assert(unsubscribed(m, channel, address) =~= m);
    }
}

/// An address subscribed to a channel gets back what it publishes there itself:
/// the sender is neither left out nor added.
pub proof fn lemma_publisher_receives_own(m: Subscriptions, p: PublishView, sender: PeerAddr)
    requires
        recipients(m, p.channel).contains(sender),
    ensures
        fanout(m, DatagramView::Publish(p)).contains(sender),
        fanout(m, DatagramView::Publish(p)) == recipients(m, p.channel),
        dispatched(m, DatagramView::Publish(p), sender) == m,
{
}

/// One outbound datagram: a frame and the address it goes to.
#[derive(Debug, PartialEq, Clone)]
pub struct Delivery {
    pub address: PeerAddr,
    pub frame: String,
}

/// `r` sends `frame` to each address of `to` exactly once, and sends nothing else.
pub open spec fn sends_once(r: Seq<Delivery>, frame: Seq<char>, to: Set<PeerAddr>) -> bool {
    &&& forall|i: int| 0 <= i < r.len() ==> r[i].frame@ == frame && to.contains(r[i].address)
    &&& forall|i: int, j: int|
        0 <= i < r.len() && 0 <= j < r.len() && i != j ==> r[i].address != r[j].address
    &&& forall|a: PeerAddr| to.contains(a) ==> exists|i: int| 0 <= i < r.len() && r[i].address == a
}

/// A publish on a channel without subscribers sends nothing.
pub proof fn lemma_publish_without_subscribers(m: Subscriptions, p: PublishView, r: Seq<Delivery>)
    requires
        !m.contains_key(p.channel) || m[p.channel].is_empty(),
        sends_once(r, encode(DatagramView::Publish(p)), fanout(m, DatagramView::Publish(p))),
    ensures
        r.len() == 0,
{
    if r.len() > 0 {
        assert(fanout(m, DatagramView::Publish(p)).contains(r[0].address));
    }
}

/// The frame that a publish is forwarded in: a fresh publish datagram with the
/// same fields, written out.
pub fn publish_frame(datagram: &PublishDatagram) -> (r: String)
    ensures
        r@ == encode(DatagramView::Publish(datagram@)),
{
    let copy = datagram.copy();
    proof {
        lemma_decode_publish_body(datagram@);
    }
    Datagram::Publish(copy).serialize()
}

struct ChannelEntry {
    channel: String,
    subscribers: Vec<PeerAddr>,
}

/// Channel names mapped to the sets of addresses subscribed to them.
pub struct Registry {
    entries: Vec<ChannelEntry>,
}

spec fn has_entry(es: Seq<ChannelEntry>, channel: Seq<char>) -> bool {
    exists|i: int| 0 <= i < es.len() && es[i].channel@ == channel
}

spec fn subscribers_in(es: Seq<ChannelEntry>, channel: Seq<char>) -> Set<PeerAddr> {
    Set::new(
        |a: PeerAddr|
            exists|i: int|
                0 <= i < es.len() && es[i].channel@ == channel && es[i].subscribers@.contains(a),
    )
}

spec fn entries_ok(es: Seq<ChannelEntry>) -> bool {
    &&& forall|i: int, j: int|
        0 <= i < es.len() && 0 <= j < es.len() && i != j ==> es[i].channel@ != es[j].channel@
    &&& forall|i: int| 0 <= i < es.len() ==> es[i].subscribers@.no_duplicates()
}

spec fn entries_view(es: Seq<ChannelEntry>) -> Subscriptions {
    Map::new(|c: Seq<char>| has_entry(es, c), |c: Seq<char>| subscribers_in(es, c))
}

impl View for Registry {
    type V = Subscriptions;

    closed spec fn view(&self) -> Subscriptions {
        entries_view(self.entries@)
    }
}

/// With channels unique, an entry's subscribers are those of its channel.
proof fn lemma_entry_subscribers(es: Seq<ChannelEntry>, i: int)
    requires
        entries_ok(es),
        0 <= i < es.len(),
    ensures
        has_entry(es, es[i].channel@),
        subscribers_in(es, es[i].channel@) == es[i].subscribers@.to_set(),
{
    assert(subscribers_in(es, es[i].channel@) =~= es[i].subscribers@.to_set());
}

/// Replacing an entry by one of the same channel changes the view at that
/// channel only.
proof fn lemma_update_entry(es: Seq<ChannelEntry>, i: int, e: ChannelEntry)
    requires
        entries_ok(es),
        0 <= i < es.len(),
        e.channel@ == es[i].channel@,
        e.subscribers@.no_duplicates(),
    ensures
        entries_ok(es.update(i, e)),
        entries_view(es.update(i, e)) == entries_view(es).insert(
            e.channel@,
            e.subscribers@.to_set(),
        ),
{
    let es2 = es.update(i, e);
    assert(es2[i] == e);
    lemma_entry_subscribers(es2, i);
    assert forall|c: Seq<char>| c != e.channel@ implies has_entry(es2, c) == has_entry(es, c)
        && subscribers_in(es2, c) == subscribers_in(es, c) by {
        assert forall|j: int| 0 <= j < es.len() && es[j].channel@ == c implies es2[j] == es[j] by {}
        assert(subscribers_in(es2, c) =~= subscribers_in(es, c));
    }
    assert(entries_view(es2) =~= entries_view(es).insert(e.channel@, e.subscribers@.to_set()));
}

/// Adding an entry for a channel that has none adds that channel to the view.
proof fn lemma_push_entry(es: Seq<ChannelEntry>, e: ChannelEntry)
    requires
        entries_ok(es),
        !has_entry(es, e.channel@),
        e.subscribers@.no_duplicates(),
    ensures
        entries_ok(es.push(e)),
        entries_view(es.push(e)) == entries_view(es).insert(e.channel@, e.subscribers@.to_set()),
{
    let es2 = es.push(e);
    let n = es.len() as int;
    assert(es2[n] == e);
    lemma_entry_subscribers(es2, n);
    assert forall|c: Seq<char>| c != e.channel@ implies has_entry(es2, c) == has_entry(es, c)
        && subscribers_in(es2, c) == subscribers_in(es, c) by {
        assert forall|j: int| 0 <= j < es.len() implies es2[j] == es[j] by {}
        assert(subscribers_in(es2, c) =~= subscribers_in(es, c));
    }
    assert(entries_view(es2) =~= entries_view(es).insert(e.channel@, e.subscribers@.to_set()));
}

/// Taking out the one occurrence of an item removes it from the set.
proof fn lemma_remove_unique(s: Seq<PeerAddr>, j: int)
    requires
        s.no_duplicates(),
        0 <= j < s.len(),
    ensures
        s.remove(j).no_duplicates(),
        s.remove(j).to_set() == s.to_set().remove(s[j]),
{
    let t = s.remove(j);
    assert forall|x: int, y: int| 0 <= x < t.len() && 0 <= y < t.len() && x != y implies t[x]
        != t[y] by {
        let xs = if x < j { x } else { x + 1 };
        let ys = if y < j { y } else { y + 1 };
        assert(t[x] == s[xs] && t[y] == s[ys]);
    }
    assert forall|a: PeerAddr| t.contains(a) <==> s.to_set().remove(s[j]).contains(a) by {
        if t.contains(a) {
            let x = choose|x: int| 0 <= x < t.len() && t[x] == a;
            let xs = if x < j { x } else { x + 1 };
            assert(s[xs] == a);
        }
        if s.contains(a) && a != s[j] {
            let x = choose|x: int| 0 <= x < s.len() && s[x] == a;
            if x < j {
                assert(t[x] == a);
            } else {
                assert(t[x - 1] == a);
            }
        }
    }
    assert(t.to_set() =~= s.to_set().remove(s[j]));
}

impl Registry {
    /// Each channel has one entry, and each address stands once in an entry.
    pub closed spec fn wf(&self) -> bool {
        entries_ok(self.entries@)
    }

    /// An empty registry.
    pub fn new() -> (r: Registry)
        ensures
            r.wf(),
            r@ == Map::<Seq<char>, Set<PeerAddr>>::empty(),
    {
        let r = Registry { entries: Vec::new() };
        assert(r@ =~= Map::<Seq<char>, Set<PeerAddr>>::empty());
        r
    }

    /// The subscribers of `channel`, each once, or `None` when the channel has
    /// no entry.
    pub fn subscribers(&self, channel: &str) -> (r: Option<Vec<PeerAddr>>)
        requires
            self.wf(),
        ensures
            match r {
                Some(v) => self@.contains_key(channel@) && v@.to_set() == self@[channel@]
                    && v@.no_duplicates(),
                None => !self@.contains_key(channel@),
            },
    {
        let name = channel.to_owned();
        match self.find_channel(&name) {
            Some(i) => {
                proof {
                    lemma_entry_subscribers(self.entries@, i as int);
                }
                let v = self.entries[i].subscribers.clone();
                assert(v@ =~= self.entries@[i as int].subscribers@);
                Some(v)
            },
            None => None,
        }
    }

    /// Position of the entry of `channel`, if there is one.
    fn find_channel(&self, channel: &String) -> (r: Option<usize>)
        ensures
            match r {
                Some(i) => i < self.entries@.len() && self.entries@[i as int].channel@ == channel@,
                None => !has_entry(self.entries@, channel@),
            },
    {
        let mut i: usize = 0;
        while i < self.entries.len()
            invariant
                i <= self.entries@.len(),
                forall|j: int| 0 <= j < i ==> self.entries@[j].channel@ != channel@,
            decreases self.entries@.len() - i,
        {
            if self.entries[i].channel == *channel {
                return Some(i);
            }
            i = i + 1;
        }
        None
    }

    /// Adds `address` to the subscribers of the datagram's channel, making the
    /// entry if it is absent; an address already there stays there once.
    pub fn handle_subscribe(&mut self, datagram: SubscribeDatagram, address: PeerAddr)
        requires
            old(self).wf(),
        ensures
            final(self).wf(),
            final(self)@ == subscribed(old(self)@, datagram.channel@, address),
    {
        let ghost es = self.entries@;
        let ghost ch = datagram.channel@;
        match self.find_channel(&datagram.channel) {
            Some(i) => {
                proof {
                    lemma_entry_subscribers(es, i as int);
                }
                match position_of(&self.entries[i].subscribers, address) {
                    Some(_) => {
                        assert(self@[ch].insert(address) =~= self@[ch]);
                        assert(subscribed(self@, ch, address) =~= self@);
                    },
                    None => {
                        let ghost old_subs = es[i as int].subscribers@;
                        proof {
                            assert(old_subs.push(address).no_duplicates());
                            old_subs.lemma_push_to_set_commute(address);
                        }
                        self.entries[i].subscribers.push(address);
                        proof {
                            lemma_update_entry(es, i as int, self.entries@[i as int]);
                            assert(self.entries@ == es.update(i as int, self.entries@[i as int]));
                        }
                    },
                }
            },
            None => {
                let mut subscribers: Vec<PeerAddr> = Vec::new();
                subscribers.push(address);
                let e = ChannelEntry { channel: datagram.channel, subscribers };
                proof {
                    Seq::<PeerAddr>::empty().lemma_push_to_set_commute(address);
                    assert(Seq::<PeerAddr>::empty().push(address) == e.subscribers@);
                    assert(Seq::<PeerAddr>::empty().to_set() =~= Set::<PeerAddr>::empty());
                    assert(e.subscribers@.to_set() =~= set![address]);
                    lemma_push_entry(es, e);
                }
                self.entries.push(e);
            },
        }
    }

    /// The frames that a publish sends: one to each subscriber of its channel.
    /// A channel without an entry, or with no subscribers, sends nothing.
    pub fn handle_publish(&self, datagram: PublishDatagram) -> (r: Vec<Delivery>)
        requires
            self.wf(),
        ensures
            sends_once(
                r@,
                encode(DatagramView::Publish(datagram@)),
                recipients(self@, datagram.channel@),
            ),
    {
        let ghost es = self.entries@;
        let ghost ch = datagram.channel@;
        let mut out: Vec<Delivery> = Vec::new();
        if let Some(i) = self.find_channel(&datagram.channel) {
            proof {
                lemma_entry_subscribers(es, i as int);
            }
            let frame = publish_frame(&datagram);
            let subscribers = &self.entries[i].subscribers;
            let mut k: usize = 0;
            while k < subscribers.len()
                invariant
                    frame@ == encode(DatagramView::Publish(datagram@)),
                    subscribers@.no_duplicates(),
                    k <= subscribers@.len(),
                    out@.len() == k,
                    forall|j: int|
                        0 <= j < k ==> out@[j].address == subscribers@[j] && out@[j].frame@
                            == frame@,
                decreases subscribers@.len() - k,
            {
                out.push(Delivery { address: subscribers[k], frame: frame.clone() });
                k = k + 1;
            }
            assert forall|x: int, y: int|
                0 <= x < out@.len() && 0 <= y < out@.len() && x != y implies out@[x].address
                != out@[y].address by {
                assert(subscribers@[x] != subscribers@[y]);
            }
            assert forall|x: int| 0 <= x < out@.len() implies recipients(self@, ch).contains(
                out@[x].address,
            ) by {
                assert(subscribers@.contains(subscribers@[x]));
            }
            assert forall|a: PeerAddr| recipients(self@, ch).contains(a) implies exists|j: int|
                0 <= j < out@.len() && out@[j].address == a by {
                let j = choose|j: int| 0 <= j < subscribers@.len() && subscribers@[j] == a;
                assert(out@[j].address == a);
            }
        } else {
            assert(recipients(self@, ch) =~= Set::<PeerAddr>::empty());
        }
        out
    }

    /// Carries out one inbound datagram from `address`: a subscribe or an
    /// unsubscribe changes the registry, a publish is forwarded to the
    /// subscribers of its channel, an error changes nothing.
    pub fn handle_datagram(&mut self, datagram: Datagram, address: PeerAddr) -> (r: Vec<Delivery>)
        requires
            old(self).wf(),
        ensures
            final(self).wf(),
            final(self)@ == dispatched(old(self)@, datagram@, address),
            sends_once(r@, encode(datagram@), fanout(old(self)@, datagram@)),
    {
        match datagram {
            Datagram::Subscribe(d) => {
                self.handle_subscribe(d, address);
                Vec::new()
            },
            Datagram::Unsubscribe(d) => {
                self.handle_unsubscribe(d, address);
                Vec::new()
            },
            Datagram::Publish(d) => self.handle_publish(d),
            Datagram::Error(_) => Vec::new(),
        }
    }

    /// Reads a frame and carries it out; a frame that cannot be read changes
    /// nothing and sends nothing.
    pub fn handle_datagram_string(&mut self, s: &str, address: PeerAddr) -> (r: Vec<Delivery>)
        requires
            old(self).wf(),
        ensures
            final(self).wf(),
            match decode(s@) {
                Ok(d) => final(self)@ == dispatched(old(self)@, d, address) && sends_once(
                    r@,
                    encode(d),
                    fanout(old(self)@, d),
                ),
                Err(_) => final(self)@ == old(self)@ && r@.len() == 0,
            },
    {
        match Datagram::parse(s) {
            Ok(datagram) => self.handle_datagram(datagram, address),
            Err(_) => Vec::new(),
        }
    }

    /// Reads a received buffer and carries it out; a buffer that is not UTF-8,
    /// or not a frame, changes nothing and sends nothing.
    pub fn handle_datagram_buffer(&mut self, buf: &[u8], address: PeerAddr) -> (r: Vec<Delivery>)
        requires
            old(self).wf(),
        ensures
            final(self).wf(),
            match decode_bytes(buf@) {
                Some(d) => final(self)@ == dispatched(old(self)@, d, address) && sends_once(
                    r@,
                    encode(d),
                    fanout(old(self)@, d),
                ),
                None => final(self)@ == old(self)@ && r@.len() == 0,
            },
    {
        match parse_datagram(buf) {
            Some(datagram) => self.handle_datagram(datagram, address),
            None => Vec::new(),
        }
    }

    /// Takes `address` out of the subscribers of the datagram's channel; an
    /// absent channel or address leaves the registry as it was.
    pub fn handle_unsubscribe(&mut self, datagram: UnsubscribeDatagram, address: PeerAddr)
        requires
            old(self).wf(),
        ensures
            final(self).wf(),
            final(self)@ == unsubscribed(old(self)@, datagram.channel@, address),
    {
        let ghost es = self.entries@;
        let ghost ch = datagram.channel@;
        if let Some(i) = self.find_channel(&datagram.channel) {
            proof {
                lemma_entry_subscribers(es, i as int);
            }
            match position_of(&self.entries[i].subscribers, address) {
                Some(j) => {
                    proof {
                        lemma_remove_unique(es[i as int].subscribers@, j as int);
                    }
                    self.entries[i].subscribers.remove(j);
                    proof {
                        lemma_update_entry(es, i as int, self.entries@[i as int]);
                        assert(self.entries@ == es.update(i as int, self.entries@[i as int]));
                    }
                },
                None => {
                    assert(self@[ch].remove(address) =~= self@[ch]);
                    assert(unsubscribed(self@, ch, address) =~= self@);
                },
            }
        }
    }
}

/// Position of `address` in `v`, if it is there.
fn position_of(v: &Vec<PeerAddr>, address: PeerAddr) -> (r: Option<usize>)
    ensures
        match r {
            Some(i) => i < v@.len() && v@[i as int] == address,
            None => !v@.contains(address),
        },
{
    let mut i: usize = 0;
    while i < v.len()
        invariant
            i <= v@.len(),
            forall|j: int| 0 <= j < i ==> v@[j] != address,
        decreases v@.len() - i,
    {
        if v[i] == address {
            return Some(i);
        }
        i = i + 1;
    }
    None
}

} // verus!
