//! LAN transport: how frames are laid out on the wire, and which peer gets which message.
//!
//! The **primary** runs a TCP listener and accepts secondaries. Clipboard messages are relayed to
//! every other peer; input messages are routed to a specific target peer. A frame is the length
//! of its payload, four bytes little-endian, followed by the payload.

use crate::layout::Layout;
use crate::protocol::{InputEvent, Message, MessageView};
use crate::text::same;
use vstd::prelude::*;

verus! {

/// How many queued messages the writer will hand to one `write` before flushing. Mouse motion
/// arrives at 120+ Hz on a trackpad; merging a burst into a single syscall is what keeps the
/// remote cursor smooth instead of stuttering on per-event write overhead.
pub const WRITE_BATCH: usize = 64;

/// Upper bound on a single frame. File chunks are 256 KB (about 350 KB in base64), so this leaves
/// plenty of headroom while still rejecting a corrupted length prefix that would otherwise make
/// us allocate gigabytes.
pub const MAX_FRAME: usize = 8_388_608;

/// Bytes in the length prefix of a frame.
pub const HEADER: usize = 4;

/// A number as four bytes, the lowest first.
pub open spec fn le32(n: nat) -> Seq<u8> {
    seq![
        (n % 256) as u8,
        (n / 256 % 256) as u8,
        (n / 65_536 % 256) as u8,
        (n / 16_777_216 % 256) as u8,
    ]
}

/// The number that four bytes stand for, the lowest first.
pub open spec fn le32_value(b: Seq<u8>) -> nat {
    (b[0] + b[1] * 256 + b[2] * 65_536 + b[3] * 16_777_216) as nat
}

/// One frame.
pub open spec fn frame(payload: Seq<u8>) -> Seq<u8> {
    le32(payload.len()) + payload
}

/// Several frames, one after the other.
pub open spec fn frames(payloads: Seq<Seq<u8>>) -> Seq<u8>
    decreases payloads.len(),
{
    if payloads.len() == 0 {
        Seq::empty()
    } else {
        frames(payloads.drop_last()) + frame(payloads.last())
    }
}

/// What a reader makes of a stream: the payloads of the frames in it, or nothing where a frame is
/// too large or cut short.
pub open spec fn unframed(b: Seq<u8>) -> Option<Seq<Seq<u8>>>
    decreases b.len(),
{
    if b.len() == 0 {
        Some(Seq::empty())
    } else if b.len() < HEADER {
        None
    } else {
        let n = le32_value(b);
        if n > MAX_FRAME || b.len() < HEADER + n {
            None
        } else {
            match unframed(b.skip(HEADER + n)) {
                None => None,
                Some(rest) => Some(seq![b.subrange(HEADER as int, HEADER + n)] + rest),
            }
        }
    }
}

/// The payloads of a batch.
pub open spec fn payload_views(v: Seq<Vec<u8>>) -> Seq<Seq<u8>> {
    Seq::new(v.len(), |i: int| v[i]@)
}

/// A number below 2^32 can be told from its four bytes.
pub proof fn le32_reads_back(n: nat)
    requires
        n <= u32::MAX,
    ensures
        le32(n).len() == HEADER,
        le32_value(le32(n)) == n,
{
    assert(n == n % 256 + (n / 256 % 256) * 256 + (n / 65_536 % 256) * 65_536 + (n / 16_777_216
        % 256) * 16_777_216);
}

/// Reading a stream gives back, one by one and in order, the payloads that were written to it:
/// frames are never merged, split or lost, however many of them one write held.
pub proof fn frames_read_back(payloads: Seq<Seq<u8>>)
    requires
        forall|i: int| 0 <= i < payloads.len() ==> (#[trigger] payloads[i]).len() <= MAX_FRAME,
    ensures
        unframed(frames(payloads)) == Some(payloads),
    decreases payloads.len(),
{
    if payloads.len() > 0 {
        let first = payloads[0];
        let rest = payloads.drop_first();
        lemma_frames_first(payloads);
        frames_read_back(rest);
        let b = frames(payloads);
        le32_reads_back(first.len());
        assert(b == frame(first) + frames(rest));
        let n = first.len();
        assert(le32_value(b) == n) by {
            assert(b[0] == le32(n)[0]);
            assert(b[1] == le32(n)[1]);
            assert(b[2] == le32(n)[2]);
            assert(b[3] == le32(n)[3]);
        }
        assert(b.skip(HEADER + n) =~= frames(rest));
        assert(b.subrange(HEADER as int, HEADER + n) =~= first);
        assert(seq![first] + rest =~= payloads);
    }
}

proof fn lemma_frames_first(payloads: Seq<Seq<u8>>)
    requires
        payloads.len() > 0,
    ensures
        frames(payloads) == frame(payloads[0]) + frames(payloads.drop_first()),
    decreases payloads.len(),
{
    if payloads.len() == 1 {
        assert(frames(payloads.drop_last()) =~= Seq::<u8>::empty());
        assert(frames(payloads.drop_first()) =~= Seq::<u8>::empty());
        assert(frames(payloads) =~= frame(payloads[0]) + frames(payloads.drop_first()));
    } else {
        let init = payloads.drop_last();
        lemma_frames_first(init);
        let rest = payloads.drop_first();
        assert(init.drop_first() =~= rest.drop_last());
        assert(init[0] == payloads[0]);
        assert(rest.last() == payloads.last());
        assert(frames(payloads) =~= frame(payloads[0]) + (frames(rest.drop_last()) + frame(
            rest.last(),
        )));
    }
}

/// Compose one length-prefixed frame into `out`.
pub fn encode_into(out: &mut Vec<u8>, payload: &[u8])
    requires
        payload@.len() <= u32::MAX,
    ensures
        final(out)@ == old(out)@ + frame(payload@),
{
    let n: u32 = payload.len() as u32;
    out.push((n % 256) as u8);
    out.push((n / 256 % 256) as u8);
    out.push((n / 65_536 % 256) as u8);
    out.push((n / 16_777_216 % 256) as u8);
    assert(out@ =~= old(out)@ + le32(n as nat));
    let mut i: usize = 0;
    while i < payload.len()
        invariant
            i <= payload.len(),
            out@ == old(out)@ + le32(payload@.len()) + payload@.take(i as int),
        decreases payload.len() - i,
    {
        out.push(payload[i]);
        i += 1;
        assert(out@ =~= old(out)@ + le32(payload@.len()) + payload@.take(i as int));
    }
    assert(payload@.take(i as int) =~= payload@);
    assert(out@ =~= old(out)@ + frame(payload@));
}

/// Compose everything that one `write` hands to the socket.
///
/// Frames are **never coalesced**: a burst of 20 mouse moves goes out as 20 `MouseMotion` frames,
/// not one summed frame, so the remote cursor tracks the hand smoothly. What *is* batched is only
/// the syscall.
pub fn encode_batch(payloads: &Vec<Vec<u8>>) -> (out: Vec<u8>)
    requires
        forall|i: int| 0 <= i < payloads@.len() ==> (#[trigger] payloads@[i])@.len() <= u32::MAX,
    ensures
        out@ == frames(payload_views(payloads@)),
{
    let ghost pv = payload_views(payloads@);
    let mut out: Vec<u8> = Vec::new();
    let mut i: usize = 0;
    while i < payloads.len()
        invariant
            i <= payloads.len(),
            pv == payload_views(payloads@),
            forall|i: int| 0 <= i < payloads@.len() ==> (#[trigger] payloads@[i])@.len() <= u32::MAX,
            out@ == frames(pv.take(i as int)),
        decreases payloads.len() - i,
    {
        encode_into(&mut out, payloads[i].as_slice());
        proof {
            let t = pv.take(i as int + 1);
            assert(t.drop_last() =~= pv.take(i as int));
            assert(t.last() == payloads@[i as int]@);
        }
        i += 1;
    }
    assert(pv.take(i as int) =~= pv);
    out
}

/// The length of the payload that a frame's header announces, or `Err` with that length where it
/// is more than a frame may hold.
pub fn frame_len(header: &[u8]) -> (r: Result<usize, usize>)
    requires
        header@.len() == HEADER,
    ensures
        match r {
            Ok(n) => n == le32_value(header@) && n <= MAX_FRAME,
            Err(n) => n == le32_value(header@) && n > MAX_FRAME,
        },
{
    let n: usize = header[0] as usize + header[1] as usize * 256 + header[2] as usize * 65_536
        + header[3] as usize * 16_777_216;
    if n > MAX_FRAME {
        Err(n)
    } else {
        Ok(n)
    }
}

/// The state of this machine's links.
#[derive(Debug)]
pub enum Net {
    /// The hub, with the name of every peer that is connected.
    Primary { peers: Vec<String> },
    /// Linked to a primary.
    Secondary,
    /// No live connection: networking failed at startup (port already in use, or the primary was
    /// unreachable), or the link dropped. The app can still open its GUI and explain the problem.
    Idle,
}

/// What a [`Net`] holds.
pub enum NetView {
    Primary(Seq<Seq<char>>),
    Secondary,
    Idle,
}

/// The names in a list.
pub open spec fn name_views(v: Seq<String>) -> Seq<Seq<char>> {
    Seq::new(v.len(), |i: int| v[i]@)
}

impl View for Net {
    type V = NetView;

    open spec fn view(&self) -> NetView {
        match *self {
            Net::Primary { peers } => NetView::Primary(name_views(peers@)),
            Net::Secondary => NetView::Secondary,
            Net::Idle => NetView::Idle,
        }
    }
}

impl NetView {
    /// No peer is listed twice.
    pub open spec fn wf(self) -> bool {
        self matches NetView::Primary(peers) ==> peers.no_duplicates()
    }

    /// Whether the hub has a live connection to `name`.
    pub open spec fn reaches(self, name: Seq<char>) -> bool {
        self matches NetView::Primary(peers) && peers.contains(name)
    }

    /// The peers of a hub.
    pub open spec fn peers(self) -> Seq<Seq<char>> {
        match self {
            NetView::Primary(peers) => peers,
            _ => Seq::empty(),
        }
    }
}

/// Where a message goes: to a peer of the hub, or up to the hub.
#[derive(Debug, PartialEq)]
pub enum Link {
    Peer(String),
    Hub,
}

/// A message on its way.
#[derive(Debug, PartialEq)]
pub struct Outgoing {
    pub to: Link,
    pub msg: Message,
}

/// What a [`Link`] stands for: the peer's name, or nothing for the hub.
pub open spec fn link_view(l: Link) -> Option<Seq<char>> {
    match l {
        Link::Peer(name) => Some(name@),
        Link::Hub => None,
    }
}

/// What an [`Outgoing`] holds.
pub struct OutgoingView {
    pub to: Option<Seq<char>>,
    pub msg: MessageView,
}

impl View for Outgoing {
    type V = OutgoingView;

    open spec fn view(&self) -> OutgoingView {
        OutgoingView { to: link_view(self.to), msg: self.msg@ }
    }
}

/// What a list of outgoing messages holds.
pub open spec fn outgoing_views(v: Seq<Outgoing>) -> Seq<OutgoingView> {
    Seq::new(v.len(), |i: int| v[i]@)
}

/// The message to each of the peers, in order.
pub open spec fn to_each(peers: Seq<Seq<char>>, msg: MessageView) -> Seq<OutgoingView> {
    peers.map_values(|p: Seq<char>| OutgoingView { to: Some(p), msg })
}

/// Which messages leave when one is addressed to the peer `target`.
pub open spec fn addressed(net: NetView, target: Seq<char>, msg: MessageView) -> Seq<OutgoingView> {
    if net.reaches(target) {
        seq![OutgoingView { to: Some(target), msg }]
    } else {
        Seq::empty()
    }
}

/// Which messages leave when one is for everybody but the peer `except`: the hub sends to each
/// peer, a secondary to the hub.
pub open spec fn for_all_but(net: NetView, msg: MessageView, except: Option<Seq<char>>) -> Seq<
    OutgoingView,
> {
    match net {
        NetView::Primary(peers) => to_each(
            peers.filter(|p: Seq<char>| Some(p) != except),
            msg,
        ),
        NetView::Secondary => seq![OutgoingView { to: None, msg }],
        NetView::Idle => Seq::empty(),
    }
}

/// Which messages leave when the hub passes on what came from the peer `from`.
pub open spec fn relayed(net: NetView, msg: MessageView, from: Seq<char>) -> Seq<OutgoingView> {
    match net {
        NetView::Primary(_) => for_all_but(net, msg, Some(from)),
        _ => Seq::empty(),
    }
}

/// A relayed message goes to every peer but the one that it came from, and to each of them once.
pub proof fn relaying_skips_only_the_sender(net: NetView, msg: MessageView, from: Seq<char>, peer: Seq<char>)
    requires
        net.wf(),
        net is Primary,
    ensures
        relayed(net, msg, from).contains(OutgoingView { to: Some(peer), msg })
            <==> net.reaches(peer) && peer != from,
        relayed(net, msg, from).no_duplicates(),
{
    broadcast use vstd::seq_lib::group_filter_ensures;

    let keep = |p: Seq<char>| Some(p) != Some(from);
    let all = net.peers();
    let kept = all.filter(keep);
    let sent = relayed(net, msg, from);
    if net.reaches(peer) && peer != from {
        let i = choose|i: int| 0 <= i < all.len() && all[i] == peer;
        all.lemma_filter_contains(keep, i);
        let j = choose|j: int| 0 <= j < kept.len() && kept[j] == peer;
        assert(sent[j] == OutgoingView { to: Some(peer), msg });
    }
    if sent.contains(OutgoingView { to: Some(peer), msg }) {
        let j = choose|j: int| 0 <= j < sent.len() && sent[j] == (OutgoingView { to: Some(peer), msg });
        assert(kept[j] == peer);
        all.lemma_filter_pred(keep, j);
        all.lemma_filter_contains_rev(keep, peer);
    }
    lemma_filter_no_duplicates(all, keep);
    assert forall|i: int, j: int| 0 <= i < sent.len() && 0 <= j < sent.len() && i != j implies sent[i]
        != sent[j] by {
        assert(kept[i] != kept[j]);
    }
}

proof fn lemma_filter_no_duplicates<A>(s: Seq<A>, keep: spec_fn(A) -> bool)
    requires
        s.no_duplicates(),
    ensures
        s.filter(keep).no_duplicates(),
    decreases s.len(),
{
    reveal(Seq::filter);
    if s.len() > 0 {
        let t = s.drop_last();
        assert(t.no_duplicates());
        lemma_filter_no_duplicates(t, keep);
        let f = t.filter(keep);
        if keep(s.last()) {
            if f.contains(s.last()) {
                t.lemma_filter_contains_rev(keep, s.last());
                let i = choose|i: int| 0 <= i < t.len() && t[i] == s.last();
                assert(s[i] == s[s.len() - 1]);
            }
            assert forall|i: int, j: int| 0 <= i < f.len() + 1 && 0 <= j < f.len() + 1 && i != j
                implies f.push(s.last())[i] != f.push(s.last())[j] by {}
        }
    }
}

/// Where a name stands in a list.
pub fn position_of(names: &Vec<String>, name: &str) -> (r: Option<usize>)
    ensures
        match r {
            Some(i) => i < names@.len() && names@[i as int]@ == name@,
            None => !name_views(names@).contains(name@),
        },
{
    let mut i: usize = 0;
    while i < names.len()
        invariant
            i <= names.len(),
            forall|j: int| 0 <= j < i ==> (#[trigger] names@[j])@ != name@,
        decreases names.len() - i,
    {
        if same(names[i].as_str(), name) {
            return Some(i);
        }
        i += 1;
    }
    None
}

impl Net {
    /// A do-nothing handle used when startup failed, so the GUI can still open.
    pub fn idle() -> (r: Net)
        ensures
            r@ == NetView::Idle,
    {
        Net::Idle
    }

    /// A hub without peers.
    pub fn hub() -> (r: Net)
        ensures
            r@ == NetView::Primary(Seq::empty()),
            r@.wf(),
    {
        let r = Net::Primary { peers: Vec::new() };
        assert(r@->Primary_0 =~= Seq::<Seq<char>>::empty());
        r
    }

    /// Notes that a peer connected. Only a hub has peers.
    pub fn add_peer(&mut self, name: &str)
        requires
            old(self)@.wf(),
        ensures
            final(self)@.wf(),
            final(self)@ == (match old(self)@ {
                NetView::Primary(peers) => NetView::Primary(
                    if peers.contains(name@) {
                        peers
                    } else {
                        peers.push(name@)
                    },
                ),
                other => other,
            }),
    {
        if self.has_peer(name) {
            return;
        }
        match self {
            Net::Primary { peers } => {
                let ghost before = peers@;
                peers.push(name.to_owned());
                assert(name_views(peers@) =~= name_views(before).push(name@));
                assert(name_views(peers@).no_duplicates()) by {
                    let (a, b) = (name_views(before), name_views(peers@));
                    assert forall|i: int, j: int| 0 <= i < b.len() && 0 <= j < b.len() && i != j
                        implies b[i] != b[j] by {
                        if i == a.len() {
                            assert(a[j] == b[j]);
                            assert(a.contains(a[j]));
                        } else if j == a.len() {
                            assert(a[i] == b[i]);
                            assert(a.contains(a[i]));
                        }
                    }
                }
            },
            _ => {},
        }
    }

    /// Notes that a peer is gone.
    pub fn remove_peer(&mut self, name: &str)
        requires
            old(self)@.wf(),
        ensures
            final(self)@.wf(),
            final(self)@ == (match old(self)@ {
                NetView::Primary(peers) => NetView::Primary(
                    peers.filter(|p: Seq<char>| p != name@),
                ),
                other => other,
            }),
    {
        match self {
            Net::Primary { peers } => {
                let ghost all = name_views(peers@);
                let ghost keep = |p: Seq<char>| p != name@;
                match position_of(peers, name) {
                    Some(i) => {
                        assert(all[i as int] == name@);
                        let _gone = peers.remove(i);
                        assert(name_views(peers@) =~= all.remove(i as int));
                        proof {
                            lemma_filter_removes(all, name@, i as int);
                        }
                    },
                    None => {
                        proof {
                            assert forall|i: int| 0 <= i < all.len() implies keep(
                                #[trigger] all[i],
                            ) by {
                                assert(all.contains(all[i]));
                            }
                            lemma_filter_all(all, keep);
                        }
                    },
                }
                proof {
                    lemma_filter_no_duplicates(all, keep);
                }
            },
            _ => {},
        }
    }

    /// Forwards an input event to the peer `target`. Only a hub originates input.
    pub fn send_input(&self, target: &str, ev: InputEvent) -> (r: Vec<Outgoing>)
        ensures
            outgoing_views(r@) == addressed(self@, target@, MessageView::Input(ev)),
    {
        self.send_to(target, Message::Input(ev))
    }

    /// Broadcast a clipboard update. `except` avoids echoing back to the sender.
    pub fn broadcast_clipboard(&self, text: &str, except: Option<&str>) -> (r: Vec<Outgoing>)
        ensures
            outgoing_views(r@) == for_all_but(
                self@,
                MessageView::Clipboard { text: text@ },
                match except {
                    None => None,
                    Some(e) => Some(e@),
                },
            ),
    {
        self.broadcast(&Message::Clipboard { text: text.to_owned() }, except)
    }

    /// Send to every peer (primary) or to the primary (secondary). Used for whole-fabric
    /// messages such as clipboard and file transfers that are not addressed to one machine.
    pub fn broadcast_all(&self, msg: Message) -> (r: Vec<Outgoing>)
        ensures
            outgoing_views(r@) == for_all_but(self@, msg@, None),
    {
        self.broadcast(&msg, None)
    }

    /// [`Net::broadcast_all`] but skipping one peer, used by the hub to relay a copy that arrived
    /// from `except` to every *other* machine (the sender already has it).
    pub fn broadcast_all_except(&self, msg: Message, except: &str) -> (r: Vec<Outgoing>)
        ensures
            outgoing_views(r@) == relayed(self@, msg@, except@),
    {
        match self {
            Net::Primary { .. } => self.broadcast(&msg, Some(except)),
            _ => {
                let r: Vec<Outgoing> = Vec::new();
                assert(outgoing_views(r@) =~= Seq::<OutgoingView>::empty());
                r
            },
        }
    }

    fn broadcast(&self, msg: &Message, except: Option<&str>) -> (r: Vec<Outgoing>)
        ensures
            outgoing_views(r@) == for_all_but(
                self@,
                msg@,
                match except {
                    None => None,
                    Some(e) => Some(e@),
                },
            ),
    {
        let mut r: Vec<Outgoing> = Vec::new();
        let ghost ex: Option<Seq<char>> = match except {
            None => None,
            Some(e) => Some(e@),
        };
        match self {
            Net::Primary { peers } => {
                let ghost all = name_views(peers@);
                let ghost keep = |p: Seq<char>| Some(p) != ex;
                let mut i: usize = 0;
                assert(outgoing_views(r@) =~= to_each(all.take(0).filter(keep), msg@)) by {
                    reveal(Seq::filter);
                }
                while i < peers.len()
                    invariant
                        i <= peers.len(),
                        all == name_views(peers@),
                        ex == (match except {
                            None => None,
                            Some(e) => Some(e@),
                        }),
                        keep == (|p: Seq<char>| Some(p) != ex),
                        outgoing_views(r@) == to_each(all.take(i as int).filter(keep), msg@),
                    decreases peers.len() - i,
                {
                    let ghost before = r@;
                    let skip = match except {
                        None => false,
                        Some(e) => same(peers[i].as_str(), e),
                    };
                    if !skip {
                        let o = Outgoing { to: Link::Peer(peers[i].clone()), msg: msg.clone() };
                        r.push(o);
                        assert(outgoing_views(r@) =~= outgoing_views(before).push(o@));
                    }
                    proof {
                        let t = all.take(i as int + 1);
                        assert(t.drop_last() =~= all.take(i as int));
                        assert(t.last() == peers@[i as int]@);
                        reveal(Seq::filter);
                        let f = all.take(i as int).filter(keep);
                        assert(to_each(f.push(t.last()), msg@) =~= to_each(f, msg@).push(
                            OutgoingView { to: Some(t.last()), msg: msg@ },
                        ));
                    }
                    i += 1;
                }
                assert(all.take(i as int) =~= all);
            },
            Net::Secondary => {
                let o = Outgoing { to: Link::Hub, msg: msg.clone() };
                r.push(o);
                assert(outgoing_views(r@) =~= seq![o@]);
            },
            Net::Idle => {
                assert(outgoing_views(r@) =~= Seq::<OutgoingView>::empty());
            },
        }
        r
    }

    /// Send an arbitrary message to the primary (used by secondaries, e.g. the hotkey). The
    /// primary never calls this (it originates input itself); a `Primary`/`Idle` handle ignores it.
    pub fn send_message(&self, msg: Message) -> (r: Vec<Outgoing>)
        ensures
            outgoing_views(r@) == (match self@ {
                NetView::Secondary => seq![OutgoingView { to: None, msg: msg@ }],
                _ => Seq::empty(),
            }),
    {
        let mut r: Vec<Outgoing> = Vec::new();
        assert(outgoing_views(r@) =~= Seq::<OutgoingView>::empty());
        if let Net::Secondary = self {
            let o = Outgoing { to: Link::Hub, msg };
            r.push(o);
            assert(outgoing_views(r@) =~= seq![o@]);
        }
        r
    }

    /// Send a targeted message to a specific peer. Used by the control plane to tell a secondary
    /// that the cursor is entering or leaving its screen. Nothing is sent unless this is a hub
    /// (only the primary routes to named peers) and the peer is connected.
    pub fn send_to(&self, target: &str, msg: Message) -> (r: Vec<Outgoing>)
        ensures
            outgoing_views(r@) == addressed(self@, target@, msg@),
    {
        let mut r: Vec<Outgoing> = Vec::new();
        assert(outgoing_views(r@) =~= Seq::<OutgoingView>::empty());
        if self.has_peer(target) {
            let o = Outgoing { to: Link::Peer(target.to_owned()), msg };
            r.push(o);
            assert(outgoing_views(r@) =~= seq![o@]);
        }
        r
    }

    /// How many machines this one is linked to.
    pub fn peer_count(&self) -> (r: usize)
        ensures
            r == (match self@ {
                NetView::Primary(peers) => peers.len() as int,
                NetView::Secondary => 1,
                NetView::Idle => 0,
            }),
    {
        match self {
            Net::Primary { peers } => peers.len(),
            Net::Secondary => 1,
            Net::Idle => 0,
        }
    }

    /// Whether the primary currently has a live connection to `name`. Used by the control plane to
    /// detect a secondary that dropped mid-hand-off, so it can return control instead of forwarding
    /// input into a dead socket forever.
    pub fn has_peer(&self, name: &str) -> (r: bool)
        ensures
            r == self@.reaches(name@),
    {
        match self {
            Net::Primary { peers } => {
                match position_of(peers, name) {
                    Some(i) => {
                        assert(name_views(peers@)[i as int] == name@);
                        true
                    },
                    None => false,
                }
            },
            _ => false,
        }
    }

    /// Push the full layout to every connected secondary. The primary calls this periodically so
    /// new peers and any screen repositioning show up on every machine's canvas.
    pub fn broadcast_layout(&self, layout: &Layout) -> (r: Vec<Outgoing>)
        ensures
            outgoing_views(r@) == to_each(self@.peers(), MessageView::Layout { layout: layout@ }),
    {
        match self {
            Net::Primary { peers } => {
                let msg = Message::Layout { layout: layout.clone() };
                proof {
                    lemma_filter_all(name_views(peers@), |p: Seq<char>| Some(p) != None::<Seq<char>>);
                }
                self.broadcast(&msg, None)
            },
            _ => {
                let r: Vec<Outgoing> = Vec::new();
                assert(outgoing_views(r@) =~= to_each(
                    Seq::empty(),
                    MessageView::Layout { layout: layout@ },
                ));
                r
            },
        }
    }
}

proof fn lemma_filter_removes<A>(s: Seq<A>, x: A, i: int)
    requires
        s.no_duplicates(),
        0 <= i < s.len(),
        s[i] == x,
    ensures
        s.filter(|y: A| y != x) == s.remove(i),
    decreases s.len(),
{
    reveal(Seq::filter);
    let keep = |y: A| y != x;
    let t = s.drop_last();
    if i == s.len() - 1 {
        assert forall|k: int| 0 <= k < t.len() implies keep(#[trigger] t[k]) by {
            assert(s[k] != s[i]);
        }
        lemma_filter_all(t, keep);
        assert(s.remove(i) =~= t);
    } else {
        lemma_filter_removes(t, x, i);
        assert(s[s.len() - 1] != s[i]);
        assert(s.remove(i) =~= t.remove(i).push(s.last()));
    }
}

/// A filter that keeps everything changes nothing.
pub proof fn lemma_filter_all<A>(s: Seq<A>, keep: spec_fn(A) -> bool)
    requires
        forall|i: int| 0 <= i < s.len() ==> keep(#[trigger] s[i]),
    ensures
        s.filter(keep) == s,
    decreases s.len(),
{
    reveal(Seq::filter);
    if s.len() > 0 {
        assert forall|i: int| 0 <= i < s.len() - 1 implies keep(#[trigger] s.drop_last()[i]) by {
            assert(s.drop_last()[i] == s[i]);
        }
        assert(keep(s[s.len() - 1]));
        lemma_filter_all(s.drop_last(), keep);
    }
}

/// A message that is addressed to a peer leaves for it as it is, and for nobody else, if the hub has
/// a connection to the peer; otherwise, and on any other machine, nothing leaves.
pub proof fn what_is_addressed_reaches_the_peer(
    net: NetView,
    peers: Seq<Seq<char>>,
    target: Seq<char>,
    msg: MessageView,
)
    ensures
        peers.contains(target) ==> addressed(NetView::Primary(peers), target, msg) == seq![
            OutgoingView { to: Some(target), msg },
        ],
        !peers.contains(target) ==> addressed(NetView::Primary(peers), target, msg).len() == 0,
        net !is Primary ==> addressed(net, target, msg).len() == 0,
{
}

/// A message for everybody leaves the hub for every peer, in the order in which they connected, but
/// not for the one that is left out; a secondary hands it to the hub, and a machine that is not
/// connected sends nothing.
pub proof fn what_is_for_everybody_reaches_everybody(
    peers: Seq<Seq<char>>,
    msg: MessageView,
    from: Seq<char>,
    peer: Seq<char>,
    except: Option<Seq<char>>,
)
    requires
        peers.no_duplicates(),
    ensures
        ({
            let sent = for_all_but(NetView::Primary(peers), msg, None);
            &&& sent.len() == peers.len()
            &&& forall|i: int| 0 <= i < peers.len() ==> #[trigger] sent[i] == (OutgoingView {
                to: Some(peers[i]),
                msg,
            })
        }),
        for_all_but(NetView::Primary(peers), msg, Some(from)).contains(
            OutgoingView { to: Some(peer), msg },
        ) <==> peers.contains(peer) && peer != from,
        for_all_but(NetView::Primary(peers), msg, Some(from)) == relayed(
            NetView::Primary(peers),
            msg,
            from,
        ),
        for_all_but(NetView::Secondary, msg, except) == seq![OutgoingView { to: None, msg }],
        for_all_but(NetView::Idle, msg, except).len() == 0,
{
    let keep = |p: Seq<char>| Some(p) != None::<Seq<char>>;
    lemma_filter_all(peers, keep);
    relaying_skips_only_the_sender(NetView::Primary(peers), msg, from, peer);
}

/// A frame is the length of its payload, in four bytes with the lowest first, and then the payload.
/// A frame that is cut short anywhere gives nothing, nor does one whose length is beyond what a frame
/// may have.
pub proof fn a_frame_is_its_length_and_its_payload(p: Seq<u8>, k: int, b: Seq<u8>)
    requires
        p.len() <= MAX_FRAME,
        0 < k < 4 + p.len(),
        b.len() >= 4,
        b[0] + 256 * b[1] + 65_536 * b[2] + 16_777_216 * b[3] > MAX_FRAME,
    ensures
        ({
            let f = frame(p);
            &&& f.len() == 4 + p.len()
            &&& f[0] + 256 * f[1] + 65_536 * f[2] + 16_777_216 * f[3] == p.len()
            &&& f.skip(4) == p
            &&& unframed(f.take(k)) is None
        }),
        unframed(b) is None,
{
    let f = frame(p);
    let n = p.len();
    le32_reads_back(n);
    assert(f.skip(4) =~= p);
    assert(le32(n).len() == 4);
    let cut = f.take(k);
    if k >= 4 {
        assert(cut[0] == le32(n)[0] && cut[1] == le32(n)[1] && cut[2] == le32(n)[2] && cut[3]
            == le32(n)[3]);
        assert(le32_value(cut) == le32_value(le32(n)));
    }
}

} // verus!
