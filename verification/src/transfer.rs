//! Cross-machine **file copy**: manifest, chunked payload, reassembly.
//!
//! Text rides along in a single `Clipboard` frame; files cannot. A copy is streamed as:
//!
//! ```text
//! ClipboardFiles { token, entries }   -- manifest: relative path + size per file
//! FileChunk      { token, seq, data } -- one `FILE_CHUNK` of base64, one frame at a time
//! FileEnd        { token }            -- reassembly is complete
//! ```
//!
//! `token` makes concurrent copies independent, and `seq` lets the receiver drop a copy of which a
//! chunk got lost rather than silently corrupting a file.
//!
//! The token has to be unique across the whole LAN, not merely within one process. The hub funnels
//! every peer's transfers through a *single* [`Receiver`] keyed by token, and a relayed copy keeps
//! its sender's token. [`set_machine_name`] mixes a hash of the machine name into the high half of
//! every token, so machines that number their copies alike do not take each other's.

use crate::base64;
use crate::base64::{base64_decode, base64_encode};
use crate::geom;
use crate::network::MAX_FRAME;
use crate::protocol::{EntryView, FileEntry, Message, MessageView, FILE_CHUNK, MAX_FILE_BYTES};
use crate::safepath;
use crate::safepath::safe_components;
use crate::text;
use crate::text::{join, same};
use std::collections::HashMap;
use vstd::prelude::*;

verus! {

// ---- Tokens ----

/// The numbers that this machine gives to its copies.
#[derive(Debug, Clone, Copy, PartialEq, Eq, Structural)]
pub struct Tokens {
    /// High 32 bits of every token: a hash of this machine's name. Zero until
    /// [`set_machine_name`] is called.
    pub tag: u32,
    /// How many copies were numbered so far, plus one.
    pub next: u64,
}

impl Default for Tokens {
    fn default() -> (r: Tokens)
        ensures
            r == (Tokens { tag: 0, next: 1 }),
    {
        Tokens { tag: 0, next: 1 }
    }
}

/// FNV-1a of a run of bytes.
pub open spec fn fnv1a(b: Seq<u8>) -> u32
    decreases b.len(),
{
    if b.len() == 0 {
        0x811c_9dc5
    } else {
        (((fnv1a(b.drop_last()) ^ (b.last() as u32)) * 0x0100_0193) % 0x1_0000_0000) as u32
    }
}

/// FNV-1a. Any stable hash will do: it only needs to spread machine names apart, not resist
/// attack, and it must be the same in every process.
pub fn fnv1a32(s: &str) -> (r: u32)
    ensures
        r == fnv1a(vstd::utf8::encode_utf8(s@)),
{
    let b = s.as_bytes();
    let mut h: u32 = 0x811c_9dc5;
    let mut i: usize = 0;
    while i < b.len()
        invariant
            i <= b.len(),
            h == fnv1a(b@.take(i as int)),
        decreases b.len() - i,
    {
        h = h ^ (b[i] as u32);
        h = h.wrapping_mul(0x0100_0193);
        assert(b@.take(i as int + 1).drop_last() =~= b@.take(i as int));
        i += 1;
    }
    assert(b@.take(i as int) =~= b@);
    h
}

/// Tell the transfer layer which machine it is, so its transfer tokens cannot collide with another
/// machine's. Must be called before the first copy is sent.
pub fn set_machine_name(tokens: &mut Tokens, name: &str)
    ensures
        *final(tokens) == (Tokens { tag: fnv1a(vstd::utf8::encode_utf8(name@)), ..*old(tokens) }),
{
    tokens.tag = fnv1a32(name);
}

/// The token that a machine gives to its next copy.
pub open spec fn token_of(t: Tokens) -> nat {
    (t.tag * 0x1_0000_0000 + t.next % 0x1_0000_0000) as nat
}

/// The token of the next copy.
pub fn next_token(tokens: &mut Tokens) -> (r: u64)
    ensures
        r == token_of(*old(tokens)),
        *final(tokens) == (Tokens {
            next: ((old(tokens).next + 1) % 0x1_0000_0000_0000_0000) as u64,
            ..*old(tokens)
        }),
{
    let seq: u64 = tokens.next % 0x1_0000_0000;
    tokens.next = tokens.next.wrapping_add(1);
    (tokens.tag as u64) * 0x1_0000_0000 + seq
}

/// Two machines whose names hash apart never give the same token to a copy, however far each has
/// counted.
pub proof fn tokens_are_apart_between_machines(a: Tokens, b: Tokens)
    requires
        a.tag != b.tag,
    ensures
        token_of(a) != token_of(b),
{
}

/// The tokens that one machine gives out in order grow, and so are all different, until its
/// counter has gone once through 32 bits.
pub proof fn tokens_grow_within_a_machine(a: Tokens, b: Tokens)
    requires
        a.tag == b.tag,
        a.next < b.next < 0x1_0000_0000,
    ensures
        token_of(a) < token_of(b),
{
}

// ---- Sending ----

/// The total size of a manifest.
pub open spec fn total_size(e: Seq<EntryView>) -> nat
    decreases e.len(),
{
    if e.len() == 0 {
        0
    } else {
        total_size(e.drop_last()) + e.last().size
    }
}

/// The total size of a manifest.
pub fn total_bytes(entries: &Vec<FileEntry>) -> (r: u128)
    ensures
        r == total_size(crate::protocol::entry_views(entries@)),
        r <= entries@.len() * u64::MAX,
{
    let ghost ev = crate::protocol::entry_views(entries@);
    let mut total: u128 = 0;
    let mut i: usize = 0;
    while i < entries.len()
        invariant
            i <= entries.len(),
            ev == crate::protocol::entry_views(entries@),
            total == total_size(ev.take(i as int)),
            total <= i * u64::MAX,
        decreases entries.len() - i,
    {
        assert(i * u64::MAX <= 0xffff_ffff_ffff_ffff * 0xffff_ffff_ffff_ffff) by (nonlinear_arith)
            requires
                i <= 0xffff_ffff_ffff_ffff,
        ;
        assert(i * u64::MAX + u64::MAX == (i + 1) * u64::MAX) by (nonlinear_arith);
        total = total + entries[i].size as u128;
        assert(ev.take(i as int + 1).drop_last() =~= ev.take(i as int));
        assert(ev.take(i as int + 1).last() == entries[i as int]@);
        i += 1;
    }
    assert(ev.take(i as int) =~= ev);
    total
}

/// A copy that is being sent: its token and how many chunks of it left so far.
#[derive(Debug, Clone, Copy, PartialEq, Eq, Structural)]
pub struct Sender {
    pub token: u64,
    pub seq: u64,
}

/// What becomes of a selection that was copied.
#[derive(Debug, PartialEq)]
pub enum SendPlan {
    /// No file of it can be read.
    Nothing,
    /// It is larger than a copy may be.
    TooBig { total: u128 },
    /// It goes out: the manifest first.
    Go { sender: Sender, manifest: Message },
}

/// Decide about a copy, from the files that could be opened and their sizes.
///
/// The files are opened *before* the manifest is built. The receiver sizes each file from the
/// manifest and walks the chunk stream in order, so a file that cannot be read must not be in it.
pub fn plan_send(tokens: &mut Tokens, opened: Vec<FileEntry>) -> (r: SendPlan)
    ensures
        ({
            let e = crate::protocol::entry_views(opened@);
            match r {
                SendPlan::Nothing => e.len() == 0 && *final(tokens) == *old(tokens),
                SendPlan::TooBig { total } => {
                    &&& e.len() > 0
                    &&& total == total_size(e) && total > MAX_FILE_BYTES
                    &&& *final(tokens) == *old(tokens)
                },
                SendPlan::Go { sender, manifest } => {
                    &&& e.len() > 0
                    &&& total_size(e) <= MAX_FILE_BYTES
                    &&& sender.token == token_of(*old(tokens)) && sender.seq == 0
                    &&& manifest@ == (MessageView::ClipboardFiles {
                        token: sender.token,
                        entries: e,
                    })
                    &&& *final(tokens) == (Tokens {
                        next: ((old(tokens).next + 1) % 0x1_0000_0000_0000_0000) as u64,
                        ..*old(tokens)
                    })
                },
            }
        }),
{
    if opened.len() == 0 {
        return SendPlan::Nothing;
    }
    let total: u128 = total_bytes(&opened);
    if total > MAX_FILE_BYTES as u128 {
        return SendPlan::TooBig { total };
    }
    let token: u64 = next_token(tokens);
    SendPlan::Go {
        sender: Sender { token, seq: 0 },
        manifest: Message::ClipboardFiles { token, entries: opened },
    }
}

impl Sender {
    /// The next chunk of the copy: at most [`FILE_CHUNK`] bytes of it.
    pub fn chunk(&mut self, bytes: &[u8]) -> (r: Message)
        requires
            bytes@.len() <= FILE_CHUNK,
        ensures
            r@ == (MessageView::FileChunk {
                token: old(self).token,
                seq: old(self).seq,
                data: base64::encoded(bytes@),
            }),
            final(self).token == old(self).token,
            final(self).seq == (old(self).seq + 1) % 0x1_0000_0000_0000_0000,
    {
        let seq: u64 = self.seq;
        self.seq = self.seq.wrapping_add(1);
        Message::FileChunk { token: self.token, seq, data: base64_encode(bytes) }
    }

    /// The end of the copy.
    pub fn end(&self) -> (r: Message)
        ensures
            r@ == (MessageView::FileEnd { token: self.token }),
    {
        Message::FileEnd { token: self.token }
    }
}

// ---- Receiving ----

/// A copy that is being received.
#[derive(Debug, PartialEq)]
pub struct Transfer {
    /// Sanitised relative destination plus expected size, in manifest order.
    pub files: Vec<FileEntry>,
    /// How many of them were begun.
    pub next: usize,
    /// Whether the last one begun is still being written.
    pub open: bool,
    /// How much of it was written.
    pub written: u64,
    /// The number of the chunk that comes next.
    pub expect_seq: u64,
    /// The top-level names of the copy, each once.
    pub top: Vec<String>,
}

/// What a [`Transfer`] holds.
#[verifier::ext_equal]
pub struct TransferView {
    pub files: Seq<EntryView>,
    pub next: int,
    pub open: bool,
    pub written: int,
    pub expect: int,
    pub top: Seq<Seq<char>>,
}

impl View for Transfer {
    type V = TransferView;

    open spec fn view(&self) -> TransferView {
        TransferView {
            files: crate::protocol::entry_views(self.files@),
            next: self.next as int,
            open: self.open,
            written: self.written as int,
            expect: self.expect_seq as int,
            top: text::string_views(self.top@),
        }
    }
}

impl TransferView {
    /// The count of what was written is right, and the top-level names are those of the manifest.
    pub open spec fn wf(self) -> bool {
        &&& self.counted()
        &&& self.top == each_once(tops(self.files))
    }

    /// The last file begun is one of the manifest's and not full yet while it is open; nothing is
    /// counted for it otherwise.
    pub open spec fn counted(self) -> bool {
        &&& 0 <= self.next <= self.files.len()
        &&& self.open ==> self.next > 0 && 0 <= self.written < self.files[self.next - 1].size
        &&& !self.open ==> self.written == 0
    }
}

/// Something to do in the directory of a copy.
#[derive(Debug, PartialEq)]
pub enum FileOp {
    /// Create the file at `path`, the manifest's entry number `index`, with the directories above
    /// it.
    Create { index: usize, path: String },
    /// Append to the file created last.
    Write { data: Vec<u8> },
    /// The file created last is complete.
    Close,
}

/// What a [`FileOp`] stands for.
pub enum FileOpView {
    Create { index: int, path: Seq<char> },
    Write(Seq<u8>),
    Close,
}

impl View for FileOp {
    type V = FileOpView;

    open spec fn view(&self) -> FileOpView {
        match *self {
            FileOp::Create { index, path } => FileOpView::Create {
                index: index as int,
                path: path@,
            },
            FileOp::Write { data } => FileOpView::Write(data@),
            FileOp::Close => FileOpView::Close,
        }
    }
}

/// What a list of operations stands for.
pub open spec fn op_views(v: Seq<FileOp>) -> Seq<FileOpView> {
    Seq::new(v.len(), |i: int| v[i]@)
}

/// Taking in some bytes: what is done with them and the state afterwards. The files of the manifest
/// are filled one after the other; bytes beyond what the manifest promised are ignored.
pub open spec fn absorbed(t: TransferView, d: Seq<u8>) -> (TransferView, Seq<FileOpView>)
    decreases 2 * (t.files.len() - t.next) + (if t.open { 1int } else { 0int }), d.len(),
    when 0 <= t.next <= t.files.len()
{
    if d.len() == 0 {
        (t, Seq::empty())
    } else if !t.open {
        if t.next >= t.files.len() {
            (t, Seq::empty())
        } else {
            let (u, ops) = absorbed(
                TransferView { next: t.next + 1, open: true, written: 0, ..t },
                d,
            );
            (
                u,
                seq![FileOpView::Create { index: t.next, path: t.files[t.next].path }] + ops,
            )
        }
    } else {
        let size = t.files[t.next - 1].size as int;
        let need = if size > t.written { size - t.written } else { 0 };
        if d.len() < need {
            (
                TransferView { written: t.written + d.len(), ..t },
                seq![FileOpView::Write(d)],
            )
        } else {
            let (u, ops) = absorbed(
                TransferView { open: false, written: 0, ..t },
                d.skip(need),
            );
            (u, seq![FileOpView::Write(d.take(need)), FileOpView::Close] + ops)
        }
    }
}

/// A list of texts with every repetition left out.
pub open spec fn each_once(s: Seq<Seq<char>>) -> Seq<Seq<char>>
    decreases s.len(),
{
    if s.len() == 0 {
        Seq::empty()
    } else {
        let before = each_once(s.drop_last());
        if before.contains(s.last()) {
            before
        } else {
            before.push(s.last())
        }
    }
}

/// The first component of a path.
pub open spec fn top_of(path: Seq<char>) -> Seq<char> {
    text::pieces(path, '/')[0]
}

/// The first components of the paths of a manifest, in its order.
pub open spec fn tops(files: Seq<EntryView>) -> Seq<Seq<char>> {
    files.map_values(|f: EntryView| top_of(f.path))
}

/// Whether a text is `x`.
pub open spec fn is_text(x: Seq<char>) -> spec_fn(Seq<char>) -> bool {
    |y: Seq<char>| y == x
}

/// Where a text stands in a list for the first time.
pub open spec fn first_at(s: Seq<Seq<char>>, x: Seq<char>) -> int {
    geom::first_where(s, is_text(x))
}

/// Leaving the repetitions out of a list leaves every text of it, none twice, in the order in which
/// they come first.
pub proof fn every_text_is_left_once(s: Seq<Seq<char>>)
    ensures
        each_once(s).no_duplicates(),
        forall|x: Seq<char>| #[trigger] each_once(s).contains(x) <==> s.contains(x),
        forall|a: int, b: int|
            0 <= a < b < each_once(s).len() ==> first_at(s, #[trigger] each_once(s)[a]) < first_at(
                s,
                #[trigger] each_once(s)[b],
            ) < s.len(),
    decreases s.len(),
{
    if s.len() > 0 {
        let t = s.drop_last();
        let n = s.len() - 1;
        let (r, q) = (each_once(s), each_once(t));
        let x = s.last();
        every_text_is_left_once(t);
        assert forall|y: Seq<char>| #[trigger] t.contains(y) implies s.contains(y) && first_at(s, y)
            == first_at(t, y) && 0 <= first_at(t, y) < n by {
            let p = is_text(y);
            geom::lemma_first_where(t, p);
            let k = choose|k: int| 0 <= k < t.len() && t[k] == y;
            assert(s[k] == y);
            assert(p(t[k]));
        }
        assert(s[n] == x);
        assert forall|y: Seq<char>| #[trigger] s.contains(y) && y != x implies t.contains(y) by {
            let k = choose|k: int| 0 <= k < s.len() && s[k] == y;
            assert(t[k] == y);
        }
        if !q.contains(x) {
            assert(r == q.push(x));
            let p = is_text(x);
            assert forall|j: int| 0 <= j < n implies !p(#[trigger] s[j]) by {
                assert(t.contains(t[j]));
            }
            geom::lemma_first_where_unique(s, p, n);
            assert(first_at(s, x) == n);
            assert(r[q.len() as int] == x);
        }
        assert forall|y: Seq<char>| #[trigger] r.contains(y) <==> s.contains(y) by {
            if r.contains(y) {
                let k = choose|k: int| 0 <= k < r.len() && r[k] == y;
                if k < q.len() {
                    assert(q[k] == y);
                    assert(q.contains(y));
                    assert(t.contains(y));
                }
            }
            if s.contains(y) {
                if y == x && !q.contains(x) {
                    assert(r[q.len() as int] == y);
                } else {
                    if y != x {
                        assert(t.contains(y));
                    }
                    assert(q.contains(y));
                    let k = choose|k: int| 0 <= k < q.len() && q[k] == y;
                    assert(r[k] == y);
                }
            }
        }
        assert forall|a: int, b: int| 0 <= a < b < r.len() implies first_at(s, #[trigger] r[a])
            < first_at(s, #[trigger] r[b]) < s.len() by {
            assert(q[a] == r[a]);
            assert(q.contains(q[a]));
            assert(t.contains(q[a]));
            if b < q.len() {
                assert(q[b] == r[b]);
                assert(q.contains(q[b]));
                assert(t.contains(q[b]));
            }
        }
        assert(r.no_duplicates());
    }
}

/// The manifest, with every path made safe.
pub open spec fn safe_entries(e: Seq<EntryView>, windows: bool) -> Seq<EntryView> {
    e.map_values(
        |x: EntryView|
            EntryView { path: text::joined(safepath::safe(x.path, windows), "/"@), size: x.size },
    )
}

/// A copy of which nothing has arrived but the manifest.
pub open spec fn begun(e: Seq<EntryView>, windows: bool) -> TransferView {
    TransferView {
        files: safe_entries(e, windows),
        next: 0,
        open: false,
        written: 0,
        expect: 0,
        top: each_once(e.map_values(|x: EntryView| safepath::safe(x.path, windows)[0])),
    }
}

/// The paths of the empty files that the manifest still lists, up to the first file that is not
/// empty.
pub open spec fn empty_run(f: Seq<EntryView>, from: int) -> Seq<Seq<char>>
    decreases f.len() - from,
{
    if from < 0 || from >= f.len() || f[from].size != 0 {
        Seq::empty()
    } else {
        seq![f[from].path] + empty_run(f, from + 1)
    }
}

/// The end of a copy: what is left to do, and which top-level names it brought.
#[derive(Debug, PartialEq)]
pub struct Finish {
    /// Whether the file written last is still open.
    pub close: bool,
    /// Empty files that have to be created yet: a file with no bytes never shows up among the
    /// chunks.
    pub create: Vec<String>,
    /// The top-level names of the copy, each once. Only those that really landed on disk belong on
    /// the pasteboard.
    pub top: Vec<String>,
}

/// What became of a message of a copy.
#[derive(Debug, PartialEq)]
pub enum Incoming {
    /// It belongs to no copy that is being received.
    Ignored,
    /// A copy begins.
    Started,
    /// The copy is larger than a copy may be.
    Refused { total: u128 },
    /// A chunk was lost: the copy is dropped rather than a corrupt file written.
    OutOfOrder { got: u64, want: u64 },
    /// To be done in order in the directory of the copy.
    Ops(Vec<FileOp>),
    /// The copy is complete.
    Finished(Finish),
}

/// What an [`Incoming`] stands for.
pub enum IncomingView {
    Ignored,
    Started,
    Refused { total: nat },
    OutOfOrder { got: u64, want: u64 },
    Ops(Seq<FileOpView>),
    Finished { close: bool, create: Seq<Seq<char>>, top: Seq<Seq<char>> },
}

impl View for Incoming {
    type V = IncomingView;

    open spec fn view(&self) -> IncomingView {
        match *self {
            Incoming::Ignored => IncomingView::Ignored,
            Incoming::Started => IncomingView::Started,
            Incoming::Refused { total } => IncomingView::Refused { total: total as nat },
            Incoming::OutOfOrder { got, want } => IncomingView::OutOfOrder { got, want },
            Incoming::Ops(ops) => IncomingView::Ops(op_views(ops@)),
            Incoming::Finished(f) => IncomingView::Finished {
                close: f.close,
                create: text::string_views(f.create@),
                top: text::string_views(f.top@),
            },
        }
    }
}

/// What the receiver makes of a message: the copies that are then being received, and what is done.
pub open spec fn received(m: Map<u64, TransferView>, msg: MessageView, windows: bool) -> (
    Map<u64, TransferView>,
    IncomingView,
) {
    match msg {
        MessageView::ClipboardFiles { token, entries } => if total_size(entries) > MAX_FILE_BYTES {
            (m, IncomingView::Refused { total: total_size(entries) })
        } else {
            (m.insert(token, begun(entries, windows)), IncomingView::Started)
        },
        MessageView::FileChunk { token, seq, data } => if !m.dom().contains(token) {
            (m, IncomingView::Ignored)
        } else if seq != m[token].expect {
            (
                m.remove(token),
                IncomingView::OutOfOrder { got: seq, want: m[token].expect as u64 },
            )
        } else {
            let t = TransferView {
                expect: (m[token].expect + 1) % 0x1_0000_0000_0000_0000,
                ..m[token]
            };
            let (u, ops) = absorbed(t, base64::decoded(data));
            (m.insert(token, u), IncomingView::Ops(ops))
        },
        MessageView::FileEnd { token } => if !m.dom().contains(token) {
            (m, IncomingView::Ignored)
        } else {
            (
                m.remove(token),
                IncomingView::Finished {
                    close: m[token].open,
                    create: empty_run(m[token].files, m[token].next),
                    top: m[token].top,
                },
            )
        },
        _ => (m, IncomingView::Ignored),
    }
}

/// Reassembles incoming file transfers. One instance per machine, driven from the incoming
/// message handler.
pub struct Receiver {
    pub active: HashMap<u64, Transfer>,
}

impl View for Receiver {
    type V = Map<u64, TransferView>;

    open spec fn view(&self) -> Map<u64, TransferView> {
        Map::new(|k: u64| self.active@.dom().contains(k), |k: u64| self.active@[k]@)
    }
}

impl Receiver {
    /// Every copy that is being received is consistent.
    pub open spec fn wf(&self) -> bool {
        forall|k: u64| self@.dom().contains(k) ==> (#[trigger] self@[k]).wf()
    }
}

impl Default for Receiver {
    fn default() -> (r: Receiver)
        ensures
            r@ == Map::<u64, TransferView>::empty(),
            r.wf(),
    {
        broadcast use vstd::std_specs::hash::group_hash_axioms;

        let r = Receiver { active: HashMap::new() };
        assert(r@ =~= Map::<u64, TransferView>::empty());
        r
    }
}

impl Transfer {
    /// Takes in some bytes.
    fn absorb(&mut self, d: &Vec<u8>) -> (ops: Vec<FileOp>)
        requires
            old(self)@.wf(),
        ensures
            final(self)@.wf(),
            (final(self)@, op_views(ops@)) == absorbed(old(self)@, d@),
    {
        let ghost t0 = self@;
        let ghost want = absorbed(t0, d@);
        let mut ops: Vec<FileOp> = Vec::new();
        let mut i: usize = 0;
        assert(d@.skip(0) =~= d@);
        assert(op_views(ops@) + absorbed(self@, d@.skip(0)).1 =~= want.1);
        while i < d.len()
            invariant
                i <= d.len(),
                want == absorbed(old(self)@, d@),
                0 <= self@.next <= self@.files.len(),
                self@.open ==> self@.next > 0 && 0 <= self@.written <= self@.files[self@.next - 1].size,
                !self@.open ==> self@.written == 0,
                i == d.len() ==> self@.counted(),
                self.files == old(self).files,
                self.top == old(self).top,
                old(self)@.wf(),
                absorbed(self@, d@.skip(i as int)).0 == want.0,
                op_views(ops@) + absorbed(self@, d@.skip(i as int)).1 == want.1,
            decreases 2 * (self@.files.len() - self@.next) + (if self@.open {
                1int
            } else {
                0int
            }), d.len() - i,
        {
            let ghost t = self@;
            let ghost before = ops@;
            let ghost rest = d@.skip(i as int);
            if !self.open {
                if self.next >= self.files.len() {
                    assert(op_views(ops@) =~= want.1);
                    return ops;
                }
                let k: usize = self.next;
                assert(t.files[k as int] == self.files[k as int]@);
                let op = FileOp::Create { index: k, path: self.files[k].path.clone() };
                ops.push(op);
                assert(op_views(ops@) =~= op_views(before).push(op@));
                self.next = k + 1;
                self.open = true;
                self.written = 0;
                assert(self@ =~= (TransferView { next: t.next + 1, open: true, written: 0, ..t }));
                assert(op_views(ops@) + absorbed(self@, rest).1 =~= op_views(before) + absorbed(
                    t,
                    rest,
                ).1);
            } else {
                assert(t.files[t.next - 1] == self.files[t.next - 1]@);
                let size: u64 = self.files[self.next - 1].size;
                let need: u64 = size - self.written;
                let left: usize = d.len() - i;
                if (left as u64) < need {
                    let data = bytes_of(d, i, d.len());
                    assert(data@ =~= rest);
                    let op = FileOp::Write { data };
                    ops.push(op);
                    assert(op_views(ops@) =~= op_views(before).push(op@));
                    self.written = self.written + left as u64;
                    assert(self@ =~= (TransferView { written: t.written + rest.len(), ..t }));
                    assert(op_views(ops@) =~= want.1);
                    return ops;
                }
                let to: usize = i + need as usize;
                let data = bytes_of(d, i, to);
                assert(data@ =~= rest.take(need as int));
                let op = FileOp::Write { data };
                ops.push(op);
                ops.push(FileOp::Close);
                assert(op_views(ops@) =~= op_views(before).push(op@).push(FileOpView::Close));
                self.open = false;
                self.written = 0;
                i = to;
                assert(rest.skip(need as int) =~= d@.skip(i as int));
                assert(self@ =~= (TransferView { open: false, written: 0, ..t }));
                assert(op_views(ops@) + absorbed(self@, d@.skip(i as int)).1 =~= op_views(before)
                    + absorbed(t, rest).1);
            }
        }
        assert(op_views(ops@) =~= want.1);
        ops
    }
}

/// The bytes `from..to`.
fn bytes_of(d: &Vec<u8>, from: usize, to: usize) -> (r: Vec<u8>)
    requires
        from <= to <= d.len(),
    ensures
        r@ == d@.subrange(from as int, to as int),
{
    let mut r: Vec<u8> = Vec::new();
    let mut i: usize = from;
    while i < to
        invariant
            from <= i <= to <= d.len(),
            r@ == d@.subrange(from as int, i as int),
        decreases to - i,
    {
        r.push(d[i]);
        i += 1;
        assert(r@ =~= d@.subrange(from as int, i as int));
    }
    r
}

proof fn lemma_begun(e: Seq<EntryView>, windows: bool)
    ensures
        begun(e, windows).wf(),
{
    let f = safe_entries(e, windows);
    reveal_strlit("/");
    assert("/"@ =~= seq!['/']);
    assert forall|i: int| 0 <= i < e.len() implies top_of(#[trigger] f[i].path) == safepath::safe(
        e[i].path,
        windows,
    )[0] by {
        let parts = safepath::safe(e[i].path, windows);
        safepath::safe_paths_stay_inside(e[i].path, windows);
        assert(safepath::stays_inside(parts[0]));
        text::lemma_first_of_joined(parts, '/');
    }
    assert(tops(f) =~= e.map_values(|x: EntryView| safepath::safe(x.path, windows)[0]));
}

/// A copy of which nothing has arrived but the manifest.
fn begin(entries: &Vec<FileEntry>, windows: bool) -> (t: Transfer)
    ensures
        t@ == begun(crate::protocol::entry_views(entries@), windows),
        t@.wf(),
{
    let ghost ev = crate::protocol::entry_views(entries@);
    let ghost first = |x: EntryView| safepath::safe(x.path, windows)[0];
    let mut files: Vec<FileEntry> = Vec::new();
    let mut top: Vec<String> = Vec::new();
    let mut i: usize = 0;
    assert(text::string_views(top@) =~= each_once(ev.take(0).map_values(first)));
    assert(crate::protocol::entry_views(files@) =~= safe_entries(ev.take(0), windows));
    while i < entries.len()
        invariant
            i <= entries.len(),
            ev == crate::protocol::entry_views(entries@),
            first == (|x: EntryView| safepath::safe(x.path, windows)[0]),
            crate::protocol::entry_views(files@) == safe_entries(ev.take(i as int), windows),
            text::string_views(top@) == each_once(ev.take(i as int).map_values(first)),
        decreases entries.len() - i,
    {
        let ghost was = files@;
        let ghost was_top = top@;
        assert(ev[i as int] == entries[i as int]@);
        let parts = safe_components(entries[i].path.as_str(), windows);
        proof {
            safepath::safe_paths_stay_inside(entries[i as int].path@, windows);
            assert(text::string_views(parts@)[0] == parts@[0]@);
        }
        let f = FileEntry { path: join(&parts, "/"), size: entries[i].size };
        files.push(f);
        assert(crate::protocol::entry_views(files@) =~= crate::protocol::entry_views(was).push(f@));
        assert(safe_entries(ev.take(i as int + 1), windows) =~= safe_entries(
            ev.take(i as int),
            windows,
        ).push(f@));
        proof {
            let m = ev.take(i as int + 1).map_values(first);
            assert(m.drop_last() =~= ev.take(i as int).map_values(first));
            assert(m.last() == parts@[0]@);
        }
        match crate::network::position_of(&top, parts[0].as_str()) {
            Some(k) => {
                assert(text::string_views(top@)[k as int] == parts@[0]@);
            },
            None => {
                assert(crate::network::name_views(top@) =~= text::string_views(top@));
                let name = parts[0].clone();
                top.push(name);
                assert(text::string_views(top@) =~= text::string_views(was_top).push(name@));
            },
        }
        i += 1;
    }
    assert(ev.take(i as int) =~= ev);
    let t = Transfer { files, next: 0, open: false, written: 0, expect_seq: 0, top };
    assert(t@ =~= begun(ev, windows));
    proof {
        lemma_begun(ev, windows);
    }
    t
}

/// The paths of the empty files that the manifest still lists, up to the first that is not empty.
fn empty_files(files: &Vec<FileEntry>, from: usize) -> (r: Vec<String>)
    ensures
        text::string_views(r@) == empty_run(crate::protocol::entry_views(files@), from as int),
{
    let ghost fv = crate::protocol::entry_views(files@);
    let mut r: Vec<String> = Vec::new();
    let mut i: usize = from;
    assert(text::string_views(r@) + empty_run(fv, i as int) =~= empty_run(fv, from as int));
    while i < files.len() && files[i].size == 0
        invariant
            fv == crate::protocol::entry_views(files@),
            text::string_views(r@) + empty_run(fv, i as int) == empty_run(fv, from as int),
        decreases files.len() - i,
    {
        let ghost was = r@;
        assert(fv[i as int] == files[i as int]@);
        let p = files[i].path.clone();
        r.push(p);
        assert(text::string_views(r@) =~= text::string_views(was).push(p@));
        assert(text::string_views(was) + empty_run(fv, i as int) =~= text::string_views(r@)
            + empty_run(fv, i as int + 1));
        i += 1;
    }
    proof {
        if i < files.len() {
            assert(fv[i as int] == files[i as int]@);
        }
        assert(empty_run(fv, i as int) =~= Seq::<Seq<char>>::empty());
        assert(text::string_views(r@) =~= empty_run(fv, from as int));
    }
    r
}

impl Receiver {
    /// Feed one message. `windows` tells whether file names have to suit Windows.
    ///
    /// The directory of a copy is created by the caller when the copy starts. Every manifest path
    /// is sanitised up front and the entry count kept unchanged, so the chunk stream that follows
    /// stays aligned with it; the size cap is checked here as well as by the sender.
    pub fn handle(&mut self, msg: Message, windows: bool) -> (r: Incoming)
        requires
            old(self).wf(),
        ensures
            final(self).wf(),
            (final(self)@, r@) == received(old(self)@, msg@, windows),
    {
        broadcast use vstd::std_specs::hash::group_hash_axioms;

        let ghost m0 = self@;
        let ghost want = received(m0, msg@, windows);
        match msg {
            Message::ClipboardFiles { token, entries } => {
                let total: u128 = total_bytes(&entries);
                if total > MAX_FILE_BYTES as u128 {
                    return Incoming::Refused { total };
                }
                let t = begin(&entries, windows);
                self.active.insert(token, t);
                assert(self@ =~= want.0);
                Incoming::Started
            },
            Message::FileChunk { token, seq, data } => {
                let mut t: Transfer = match self.active.remove(&token) {
                    Some(t) => t,
                    None => {
                        assert(self@ =~= m0);
                        return Incoming::Ignored;
                    },
                };
                assert(t@ == m0[token]);
                if seq != t.expect_seq {
                    assert(self@ =~= want.0);
                    return Incoming::OutOfOrder { got: seq, want: t.expect_seq };
                }
                t.expect_seq = t.expect_seq.wrapping_add(1);
                assert(t@ =~= (TransferView {
                    expect: (m0[token].expect + 1) % 0x1_0000_0000_0000_0000,
                    ..m0[token]
                }));
                let bytes = base64_decode(data.as_str());
                let ops = t.absorb(&bytes);
                self.active.insert(token, t);
                assert(self@ =~= want.0);
                Incoming::Ops(ops)
            },
            Message::FileEnd { token } => {
                let t: Transfer = match self.active.remove(&token) {
                    Some(t) => t,
                    None => {
                        assert(self@ =~= m0);
                        return Incoming::Ignored;
                    },
                };
                assert(t@ == m0[token]);
                assert(self@ =~= want.0);
                let create = empty_files(&t.files, t.next);
                Incoming::Finished(Finish { close: t.open, create, top: t.top })
            },
            _ => Incoming::Ignored,
        }
    }

    /// The file number `index` could not be created: the rest of the chunk is lost, and the chunks
    /// that follow go to the files after it.
    pub fn create_failed(&mut self, token: u64, index: usize)
        requires
            old(self).wf(),
            old(self)@.dom().contains(token) ==> index < old(self)@[token].files.len(),
        ensures
            final(self).wf(),
            final(self)@ == (if old(self)@.dom().contains(token) {
                old(self)@.insert(
                    token,
                    TransferView { next: index + 1, open: false, written: 0, ..old(self)@[token] },
                )
            } else {
                old(self)@
            }),
    {
        broadcast use vstd::std_specs::hash::group_hash_axioms;

        let ghost m0 = self@;
        match self.active.remove(&token) {
            Some(mut t) => {
                assert(t@ == m0[token]);
                let ghost was = t@;
                assert(index < t.files.len());
                t.next = index + 1;
                t.open = false;
                t.written = 0;
                assert(t@ =~= (TransferView { next: index + 1, open: false, written: 0, ..was }));
                self.active.insert(token, t);
                assert(self@ =~= m0.insert(token, t@));
            },
            None => {
                assert(self@ =~= m0);
            },
        }
    }

    /// A file could not be written to: the copy is dropped.
    pub fn write_failed(&mut self, token: u64)
        requires
            old(self).wf(),
        ensures
            final(self).wf(),
            final(self)@ == old(self)@.remove(token),
    {
        broadcast use vstd::std_specs::hash::group_hash_axioms;

        let ghost m0 = self@;
        let _gone = self.active.remove(&token);
        assert(self@ =~= m0.remove(token));
    }
}

// ---- What a copy brings over ----

/// The contents of the files created so far, in the order of their creation, after some more
/// operations.
pub open spec fn applied(files: Seq<Seq<u8>>, ops: Seq<FileOpView>) -> Seq<Seq<u8>>
    decreases ops.len(),
{
    if ops.len() == 0 {
        files
    } else {
        let now = match ops[0] {
            FileOpView::Create { .. } => files.push(Seq::empty()),
            FileOpView::Write(d) => files.drop_last().push(files.last() + d),
            FileOpView::Close => files,
        };
        applied(now, ops.skip(1))
    }
}

/// The contents of several files, put together.
pub open spec fn flat(files: Seq<Seq<u8>>) -> Seq<u8>
    decreases files.len(),
{
    if files.len() == 0 {
        Seq::empty()
    } else {
        flat(files.drop_last()) + files.last()
    }
}

/// How much the manifest still has room for.
pub open spec fn room(t: TransferView) -> int {
    (if t.open {
        t.files[t.next - 1].size - t.written
    } else {
        0
    }) + sizes_from(t.files, t.next)
}

/// The total size of the files from number `from` on.
pub open spec fn sizes_from(f: Seq<EntryView>, from: int) -> int
    decreases f.len() - from,
{
    if from < 0 || from >= f.len() {
        0
    } else {
        f[from].size + sizes_from(f, from + 1)
    }
}

/// The files on disk are those that the transfer counts as begun, they hold together the bytes `c`,
/// and each of them has its manifest size, but for the one that is still open.
pub open spec fn filed(t: TransferView, files: Seq<Seq<u8>>, c: Seq<u8>) -> bool {
    &&& files.len() == t.next
    &&& flat(files) == c
    &&& forall|i: int|
        0 <= i < t.next - (if t.open { 1int } else { 0int }) ==> (#[trigger] files[i]).len()
            == t.files[i].size
    &&& t.open ==> files[t.next - 1].len() == t.written
}

proof fn lemma_sizes_from(f: Seq<EntryView>, from: int)
    ensures
        sizes_from(f, from) >= 0,
        sizes_from(f, from) == 0 ==> forall|i: int|
            0 <= from <= i < f.len() ==> (#[trigger] f[i]).size == 0,
    decreases f.len() - from,
{
    if 0 <= from < f.len() {
        lemma_sizes_from(f, from + 1);
    }
}

proof fn lemma_absorbed(t: TransferView, files: Seq<Seq<u8>>, c: Seq<u8>, d: Seq<u8>)
    requires
        0 <= t.next <= t.files.len(),
        t.open ==> t.next > 0 && 0 <= t.written <= t.files[t.next - 1].size,
        !t.open ==> t.written == 0,
        filed(t, files, c),
        d.len() <= room(t),
        d.len() > 0 || t.counted(),
    ensures
        absorbed(t, d).0.counted(),
        filed(absorbed(t, d).0, applied(files, absorbed(t, d).1), c + d),
        room(absorbed(t, d).0) == room(t) - d.len(),
        absorbed(t, d).0.files == t.files,
    decreases 2 * (t.files.len() - t.next) + (if t.open { 1int } else { 0int }), d.len(),
{
    let (u, ops) = absorbed(t, d);
    if d.len() == 0 {
        assert(c + d =~= c);
    } else if !t.open {
        lemma_sizes_from(t.files, t.next);
        assert(t.next < t.files.len());
        let t1 = TransferView { next: t.next + 1, open: true, written: 0, ..t };
        let f1 = files.push(Seq::empty());
        assert(f1.drop_last() =~= files);
        assert(flat(f1) =~= c);
        assert(filed(t1, f1, c)) by {
            assert forall|i: int| 0 <= i < t1.next - 1 implies (#[trigger] f1[i]).len()
                == t1.files[i].size by {
                assert(f1[i] == files[i]);
            }
        }
        lemma_absorbed(t1, f1, c, d);
        let (v, rest) = absorbed(t1, d);
        assert(ops.skip(1) =~= rest);
    } else {
        let size = t.files[t.next - 1].size as int;
        let need = size - t.written;
        if d.len() < need {
            assert(ops.skip(1) =~= Seq::<FileOpView>::empty());
            let f1 = files.drop_last().push(files.last() + d);
            assert(applied(files, ops) == applied(f1, ops.skip(1)));
            assert(applied(f1, ops.skip(1)) == f1);
            assert(f1.drop_last() =~= files.drop_last());
            assert(flat(f1) =~= c + d);
            assert(filed(u, f1, c + d)) by {
                assert forall|i: int| 0 <= i < u.next - 1 implies (#[trigger] f1[i]).len()
                    == u.files[i].size by {
                    assert(f1[i] == files[i]);
                }
            }
        } else {
            let head = d.take(need);
            let tail = d.skip(need);
            let t1 = TransferView { open: false, written: 0, ..t };
            let f1 = files.drop_last().push(files.last() + head);
            assert(f1.drop_last() =~= files.drop_last());
            assert(flat(f1) =~= c + head);
            assert(filed(t1, f1, c + head)) by {
                assert forall|i: int| 0 <= i < t1.next implies (#[trigger] f1[i]).len()
                    == t1.files[i].size by {
                    if i < t1.next - 1 {
                        assert(f1[i] == files[i]);
                    }
                }
            }
            lemma_absorbed(t1, f1, c + head, tail);
            let (v, rest) = absorbed(t1, tail);
            assert(ops.skip(1) =~= seq![FileOpView::Close] + rest);
            assert(ops.skip(1).skip(1) =~= rest);
            assert(applied(files, ops) == applied(f1, ops.skip(1)));
            assert(applied(f1, ops.skip(1)) == applied(f1, rest));
            assert(c + head + tail =~= c + d);
        }
    }
}

/// The state of a transfer after the chunks `p`, and the files on disk, where every operation
/// succeeded.
pub open spec fn fed(t: TransferView, files: Seq<Seq<u8>>, p: Seq<Seq<u8>>) -> (
    TransferView,
    Seq<Seq<u8>>,
)
    decreases p.len(),
{
    if p.len() == 0 {
        (t, files)
    } else {
        let (u, f) = fed(t, files, p.drop_last());
        let next = TransferView { expect: (u.expect + 1) % 0x1_0000_0000_0000_0000, ..u };
        let (v, ops) = absorbed(next, base64::decoded(base64::encoded(p.last())));
        (v, applied(f, ops))
    }
}

proof fn lemma_fed(t: TransferView, files: Seq<Seq<u8>>, c: Seq<u8>, p: Seq<Seq<u8>>)
    requires
        t.counted(),
        filed(t, files, c),
        flat(p).len() <= room(t),
        t.expect + p.len() < 0x1_0000_0000_0000_0000,
        t.expect >= 0,
    ensures
        fed(t, files, p).0.counted(),
        filed(fed(t, files, p).0, fed(t, files, p).1, c + flat(p)),
        room(fed(t, files, p).0) == room(t) - flat(p).len(),
        fed(t, files, p).0.files == t.files,
        fed(t, files, p).0.expect == t.expect + p.len(),
    decreases p.len(),
{
    if p.len() == 0 {
        assert(c + flat(p) =~= c);
    } else {
        lemma_fed(t, files, c, p.drop_last());
        let (u, f) = fed(t, files, p.drop_last());
        let next = TransferView { expect: (u.expect + 1) % 0x1_0000_0000_0000_0000, ..u };
        let cc = c + flat(p.drop_last());
        base64::decoding_undoes_encoding(p.last());
        assert(filed(next, f, cc));
        assert(room(next) == room(u));
        lemma_absorbed(next, f, cc, p.last());
        lemma_absorbed_expect(next, p.last());
        assert(c + flat(p) =~= cc + p.last());
    }
}

proof fn lemma_absorbed_expect(t: TransferView, d: Seq<u8>)
    requires
        0 <= t.next <= t.files.len(),
    ensures
        absorbed(t, d).0.expect == t.expect,
    decreases 2 * (t.files.len() - t.next) + (if t.open { 1int } else { 0int }), d.len(),
{
    if d.len() > 0 {
        if !t.open {
            if t.next < t.files.len() {
                lemma_absorbed_expect(
                    TransferView { next: t.next + 1, open: true, written: 0, ..t },
                    d,
                );
            }
        } else {
            let size = t.files[t.next - 1].size as int;
            let need = if size > t.written { size - t.written } else { 0 };
            if d.len() >= need {
                lemma_absorbed_expect(
                    TransferView { open: false, written: 0, ..t },
                    d.skip(need),
                );
            }
        }
    }
}

/// Files that are as long as the first of some others, which go on with empty ones only, and hold
/// the same bytes together, hold the same bytes each.
proof fn lemma_same_files(a: Seq<Seq<u8>>, b: Seq<Seq<u8>>)
    requires
        a.len() <= b.len(),
        forall|i: int| 0 <= i < a.len() ==> (#[trigger] a[i]).len() == b[i].len(),
        forall|i: int| a.len() <= i < b.len() ==> (#[trigger] b[i]).len() == 0,
        flat(a) == flat(b),
    ensures
        a == b.take(a.len() as int),
    decreases b.len(),
{
    if b.len() > a.len() {
        assert(b[b.len() - 1].len() == 0);
        assert(flat(b) =~= flat(b.drop_last()));
        lemma_same_files(a, b.drop_last());
        assert(b.drop_last().take(a.len() as int) =~= b.take(a.len() as int));
    } else if a.len() > 0 {
        let n = a.len() - 1;
        assert(a[n].len() == b[n].len());
        let (x, y) = (flat(a.drop_last()), flat(b.drop_last()));
        assert(flat(a) == x + a.last());
        assert(flat(b) == y + b.last());
        assert(x.len() == y.len());
        assert(x =~= flat(a).take(x.len() as int));
        assert(y =~= flat(b).take(x.len() as int));
        assert(a.last() =~= flat(a).skip(x.len() as int));
        assert(b.last() =~= flat(b).skip(x.len() as int));
        lemma_same_files(a.drop_last(), b.drop_last());
        assert forall|i: int| 0 <= i < a.len() implies a[i] == b[i] by {
            if i < n {
                assert(a.drop_last()[i] == b.drop_last().take(n)[i]);
            } else {
                assert(a[i] == a.last() && b[i] == b.last());
            }
        }
        assert(a =~= b.take(a.len() as int));
    } else {
        assert(a =~= b.take(0));
    }
}

/// The manifest that announces some files: whatever their paths, their sizes are the right ones.
pub open spec fn announces(e: Seq<EntryView>, files: Seq<Seq<u8>>) -> bool {
    &&& e.len() == files.len()
    &&& forall|i: int| 0 <= i < e.len() ==> (#[trigger] e[i]).size == files[i].len()
}

proof fn lemma_room(e: Seq<EntryView>, files: Seq<Seq<u8>>, from: int)
    requires
        announces(e, files),
        0 <= from <= e.len(),
    ensures
        sizes_from(e, from) == flat(files.skip(from)).len(),
    decreases e.len() - from,
{
    if from < e.len() {
        lemma_room(e, files, from + 1);
        let s = files.skip(from);
        lemma_flat_first(s);
        assert(s.drop_first() =~= files.skip(from + 1));
        assert(s[0] == files[from]);
    } else {
        assert(files.skip(from) =~= Seq::<Seq<u8>>::empty());
    }
}

proof fn lemma_flat_first(s: Seq<Seq<u8>>)
    requires
        s.len() > 0,
    ensures
        flat(s) == s[0] + flat(s.drop_first()),
    decreases s.len(),
{
    if s.len() == 1 {
        assert(s.drop_first() =~= Seq::<Seq<u8>>::empty());
        assert(s.drop_last() =~= Seq::<Seq<u8>>::empty());
        assert(flat(s) =~= s[0] + flat(s.drop_first()));
    } else {
        let t = s.drop_last();
        lemma_flat_first(t);
        assert(t.drop_first() =~= s.drop_first().drop_last());
        assert(flat(s) =~= s[0] + flat(s.drop_first()));
    }
}

/// A copy arrives whole. Announce some files, send their bytes in chunks of whatever length, and
/// let every file operation succeed: no chunk is taken for lost; the files that were then created
/// are the first ones of the manifest, under its safe paths, and hold exactly what they held on the
/// sending machine; none of them is still open; and those that the manifest lists beyond them are
/// empty files, which the end of the copy creates.
pub proof fn a_copy_arrives_whole(
    e: Seq<EntryView>,
    windows: bool,
    files: Seq<Seq<u8>>,
    chunks: Seq<Seq<u8>>,
)
    requires
        announces(e, files),
        flat(chunks) == flat(files),
        chunks.len() < 0x1_0000_0000_0000_0000,
    ensures
        ({
            let (t, disk) = fed(begun(e, windows), Seq::empty(), chunks);
            &&& t.expect == chunks.len()
            &&& !t.open
            &&& 0 <= t.next <= files.len()
            &&& t.files == safe_entries(e, windows)
            &&& disk == files.take(t.next)
            &&& forall|i: int| t.next <= i < files.len() ==> (#[trigger] files[i]).len() == 0
            &&& empty_run(t.files, t.next) == safe_entries(e, windows).skip(t.next).map_values(
                |x: EntryView| x.path,
            )
        }),
{
    let t0 = begun(e, windows);
    let none = Seq::<Seq<u8>>::empty();
    let f = safe_entries(e, windows);
    assert(announces(f, files));
    lemma_room(f, files, 0);
    assert(files.skip(0) =~= files);
    assert(filed(t0, none, Seq::empty()));
    lemma_fed(t0, none, Seq::empty(), chunks);
    let (t, disk) = fed(t0, none, chunks);
    assert(Seq::<u8>::empty() + flat(chunks) =~= flat(files));
    assert(room(t) == 0);
    lemma_sizes_from(f, t.next);
    assert(!t.open);
    assert(sizes_from(f, t.next) == 0);
    assert forall|i: int| t.next <= i < files.len() implies (#[trigger] files[i]).len() == 0 by {
        assert(f[i].size == 0);
    }
    assert forall|i: int| 0 <= i < disk.len() implies (#[trigger] disk[i]).len() == files[i].len() by {
        assert(disk[i].len() == f[i].size);
    }
    lemma_same_files(disk, files);
    lemma_empty_run(f, t.next);
}

/// What a receiver answers to some messages that come one after the other, and the copies that are
/// then being received.
pub open spec fn answered(m: Map<u64, TransferView>, msgs: Seq<MessageView>, windows: bool) -> (
    Map<u64, TransferView>,
    Seq<IncomingView>,
)
    decreases msgs.len(),
{
    if msgs.len() == 0 {
        (m, Seq::empty())
    } else {
        let (before, answers) = answered(m, msgs.drop_last(), windows);
        let (after, answer) = received(before, msgs.last(), windows);
        (after, answers.push(answer))
    }
}

/// The messages that carry some chunks of a copy, numbered from 0.
pub open spec fn numbered(token: u64, chunks: Seq<Seq<u8>>) -> Seq<MessageView> {
    Seq::new(
        chunks.len(),
        |i: int|
            MessageView::FileChunk { token, seq: i as u64, data: base64::encoded(chunks[i]) },
    )
}

/// Everything that is to be done according to some answers, in order.
pub open spec fn asked_for(answers: Seq<IncomingView>) -> Seq<FileOpView>
    decreases answers.len(),
{
    if answers.len() == 0 {
        Seq::empty()
    } else {
        asked_for(answers.drop_last()) + (match answers.last() {
            IncomingView::Ops(ops) => ops,
            _ => Seq::empty(),
        })
    }
}

/// The files that some operations create, in order: the number and the path of each.
pub open spec fn creations(ops: Seq<FileOpView>) -> Seq<(int, Seq<char>)>
    decreases ops.len(),
{
    if ops.len() == 0 {
        Seq::empty()
    } else {
        match ops[0] {
            FileOpView::Create { index, path } => seq![(index, path)] + creations(ops.skip(1)),
            _ => creations(ops.skip(1)),
        }
    }
}

/// The entries of a manifest from `from` to `to`: the number and the path of each.
pub open spec fn entries_between(f: Seq<EntryView>, from: int, to: int) -> Seq<(int, Seq<char>)> {
    Seq::new((to - from) as nat, |i: int| (from + i, f[from + i].path))
}

proof fn lemma_applied_in_parts(files: Seq<Seq<u8>>, a: Seq<FileOpView>, b: Seq<FileOpView>)
    ensures
        applied(files, a + b) == applied(applied(files, a), b),
    decreases a.len(),
{
    if a.len() == 0 {
        assert(a + b =~= b);
    } else {
        assert((a + b).skip(1) =~= a.skip(1) + b);
        let now = match a[0] {
            FileOpView::Create { .. } => files.push(Seq::empty()),
            FileOpView::Write(d) => files.drop_last().push(files.last() + d),
            FileOpView::Close => files,
        };
        lemma_applied_in_parts(now, a.skip(1), b);
    }
}

proof fn lemma_creations_in_parts(a: Seq<FileOpView>, b: Seq<FileOpView>)
    ensures
        creations(a + b) == creations(a) + creations(b),
    decreases a.len(),
{
    if a.len() == 0 {
        assert(a + b =~= b);
        assert(creations(a) + creations(b) =~= creations(b));
    } else {
        assert((a + b).skip(1) =~= a.skip(1) + b);
        lemma_creations_in_parts(a.skip(1), b);
        assert(creations(a + b) =~= creations(a) + creations(b));
    }
}

/// Bytes that are taken in create the entries of the manifest one after the other.
proof fn lemma_absorbed_creates(t: TransferView, d: Seq<u8>)
    requires
        0 <= t.next <= t.files.len(),
    ensures
        t.next <= absorbed(t, d).0.next <= t.files.len(),
        absorbed(t, d).0.files == t.files,
        absorbed(t, d).0.top == t.top,
        creations(absorbed(t, d).1) == entries_between(t.files, t.next, absorbed(t, d).0.next),
    decreases 2 * (t.files.len() - t.next) + (if t.open { 1int } else { 0int }), d.len(),
{
    let (u, ops) = absorbed(t, d);
    let made = entries_between(t.files, t.next, u.next);
    if d.len() == 0 || (!t.open && t.next >= t.files.len()) {
        assert(creations(ops) =~= made);
    } else if !t.open {
        let t1 = TransferView { next: t.next + 1, open: true, written: 0, ..t };
        lemma_absorbed_creates(t1, d);
        let rest = absorbed(t1, d).1;
        assert(ops.skip(1) =~= rest);
        assert(creations(ops) =~= made);
    } else {
        let size = t.files[t.next - 1].size as int;
        let need = if size > t.written { size - t.written } else { 0 };
        if d.len() < need {
            assert(ops.skip(1) =~= Seq::<FileOpView>::empty());
            assert(creations(ops.skip(1)) =~= made);
            assert(creations(ops) =~= made);
        } else {
            let t1 = TransferView { open: false, written: 0, ..t };
            lemma_absorbed_creates(t1, d.skip(need));
            let rest = absorbed(t1, d.skip(need)).1;
            assert(ops.skip(1) =~= seq![FileOpView::Close] + rest);
            assert(ops.skip(1).skip(1) =~= rest);
            assert(creations(ops) == creations(ops.skip(1)));
            assert(creations(ops.skip(1)) == creations(rest));
            assert(creations(rest) =~= made);
        }
    }
}

/// Chunks that are numbered from 0 go into a copy that has just begun as their bytes do.
proof fn lemma_answered(
    m: Map<u64, TransferView>,
    token: u64,
    e: Seq<EntryView>,
    windows: bool,
    chunks: Seq<Seq<u8>>,
)
    requires
        m.dom().contains(token),
        m[token] == begun(e, windows),
        flat(chunks).len() <= sizes_from(safe_entries(e, windows), 0),
        chunks.len() < 0x1_0000_0000_0000_0000,
    ensures
        ({
            let (after, answers) = answered(m, numbered(token, chunks), windows);
            let (t, disk) = fed(begun(e, windows), Seq::empty(), chunks);
            let ops = asked_for(answers);
            &&& after == m.insert(token, t)
            &&& answers.len() == chunks.len()
            &&& forall|i: int| 0 <= i < answers.len() ==> #[trigger] answers[i] is Ops
            &&& applied(Seq::empty(), ops) == disk
            &&& 0 <= t.next <= t.files.len()
            &&& t.top == begun(e, windows).top
            &&& creations(ops) == entries_between(safe_entries(e, windows), 0, t.next)
        }),
    decreases chunks.len(),
{
    let t0 = begun(e, windows);
    let none = Seq::<Seq<u8>>::empty();
    let f = safe_entries(e, windows);
    let (after, answers) = answered(m, numbered(token, chunks), windows);
    assert(filed(t0, none, Seq::empty()));
    lemma_fed(t0, none, Seq::empty(), chunks);
    if chunks.len() == 0 {
        assert(after =~= m.insert(token, t0));
        assert(creations(asked_for(answers)) =~= entries_between(f, 0, 0));
    } else {
        let n = chunks.len() - 1;
        let before = chunks.drop_last();
        assert(numbered(token, chunks).drop_last() =~= numbered(token, before));
        assert(flat(chunks).len() == flat(before).len() + chunks.last().len());
        lemma_answered(m, token, e, windows, before);
        lemma_fed(t0, none, Seq::empty(), before);
        let (m1, a1) = answered(m, numbered(token, before), windows);
        let (u, disk) = fed(t0, none, before);
        let next = TransferView { expect: (u.expect + 1) % 0x1_0000_0000_0000_0000, ..u };
        let d = base64::decoded(base64::encoded(chunks.last()));
        let (v, ops) = absorbed(next, d);
        assert(numbered(token, chunks).last() == (MessageView::FileChunk {
            token,
            seq: n as u64,
            data: base64::encoded(chunks[n]),
        }));
        assert(u.expect == n);
        assert(answers.drop_last() =~= a1);
        assert(answers.last() == IncomingView::Ops(ops));
        assert(after =~= m.insert(token, v));
        lemma_applied_in_parts(none, asked_for(a1), ops);
        lemma_creations_in_parts(asked_for(a1), ops);
        lemma_absorbed_creates(next, d);
        assert(entries_between(f, 0, u.next) + entries_between(f, u.next, v.next)
            =~= entries_between(f, 0, v.next));
        assert forall|i: int| 0 <= i < answers.len() implies #[trigger] answers[i] is Ops by {
            if i < n {
                assert(answers[i] == a1[i]);
            }
        }
    }
}

/// A copy goes through the receiver from its manifest to its end. Announce some files, send their
/// bytes in chunks of whatever length, numbered from 0, and end the copy: the manifest starts it,
/// every chunk gives something to do and none is taken for lost, and the end finishes it. What is
/// then done creates the files of the manifest, each once and in its order, under their safe paths,
/// and puts into each exactly what it held on the sending machine. Other copies are left alone, and
/// this one is no longer being received.
pub proof fn a_copy_goes_through(
    m: Map<u64, TransferView>,
    token: u64,
    e: Seq<EntryView>,
    windows: bool,
    files: Seq<Seq<u8>>,
    chunks: Seq<Seq<u8>>,
)
    requires
        announces(e, files),
        flat(chunks) == flat(files),
        flat(files).len() <= MAX_FILE_BYTES,
        chunks.len() < 0x1_0000_0000_0000_0000,
    ensures
        ({
            let (begun, first) = received(
                m,
                MessageView::ClipboardFiles { token, entries: e },
                windows,
            );
            let (filled, answers) = answered(begun, numbered(token, chunks), windows);
            let (ended, last) = received(filled, MessageView::FileEnd { token }, windows);
            let ops = asked_for(answers);
            &&& first is Started
            &&& answers.len() == chunks.len()
            &&& forall|i: int| 0 <= i < answers.len() ==> #[trigger] answers[i] is Ops
            &&& last matches IncomingView::Finished { close, create, top } && {
                let made = creations(ops).map_values(|c: (int, Seq<char>)| c.1) + create;
                &&& !close
                &&& applied(Seq::empty(), ops) + create.map_values(
                    |path: Seq<char>| Seq::<u8>::empty(),
                ) == files
                &&& made.len() == e.len()
                &&& forall|i: int|
                    0 <= i < e.len() ==> #[trigger] made[i] == text::joined(
                        safepath::safe(e[i].path, windows),
                        "/"@,
                    )
                &&& forall|i: int|
                    0 <= i < creations(ops).len() ==> (#[trigger] creations(ops)[i]).0 == i
                &&& top == each_once(
                    e.map_values(|x: EntryView| safepath::safe(x.path, windows)[0]),
                )
            }
            &&& ended == m.remove(token)
        }),
{
    let f = safe_entries(e, windows);
    let (m1, first) = received(m, MessageView::ClipboardFiles { token, entries: e }, windows);
    assert(announces(f, files));
    lemma_room(f, files, 0);
    lemma_room(e, files, 0);
    assert(files.skip(0) =~= files);
    lemma_total_from(e, 0);
    a_copy_arrives_whole(e, windows, files, chunks);
    lemma_answered(m1, token, e, windows, chunks);
    let (m2, answers) = answered(m1, numbered(token, chunks), windows);
    let (t, disk) = fed(begun(e, windows), Seq::empty(), chunks);
    lemma_all_are_there(e, windows, files, t.next, disk);
    assert(received(m2, MessageView::FileEnd { token }, windows).0 =~= m.remove(token));
}

/// The files written and the empty ones created at the end are the files of the manifest.
proof fn lemma_all_are_there(
    e: Seq<EntryView>,
    windows: bool,
    files: Seq<Seq<u8>>,
    n: int,
    disk: Seq<Seq<u8>>,
)
    requires
        e.len() == files.len(),
        0 <= n <= files.len(),
        disk == files.take(n),
        forall|i: int| n <= i < files.len() ==> (#[trigger] files[i]).len() == 0,
    ensures
        ({
            let f = safe_entries(e, windows);
            let create = f.skip(n).map_values(|x: EntryView| x.path);
            let made = entries_between(f, 0, n).map_values(|c: (int, Seq<char>)| c.1) + create;
            &&& disk + create.map_values(|path: Seq<char>| Seq::<u8>::empty()) == files
            &&& made.len() == e.len()
            &&& forall|i: int|
                0 <= i < e.len() ==> #[trigger] made[i] == text::joined(
                    safepath::safe(e[i].path, windows),
                    "/"@,
                )
        }),
{
    let f = safe_entries(e, windows);
    let create = f.skip(n).map_values(|x: EntryView| x.path);
    let empties = create.map_values(|path: Seq<char>| Seq::<u8>::empty());
    assert forall|i: int| 0 <= i < files.len() implies #[trigger] (disk + empties)[i] == files[i] by {
        if i >= n {
            assert(files[i].len() == 0);
            assert(files[i] =~= Seq::<u8>::empty());
        }
    }
    assert(disk + empties =~= files);
}

proof fn lemma_total_from(e: Seq<EntryView>, from: int)
    requires
        0 <= from <= e.len(),
    ensures
        total_size(e) == total_size(e.take(from)) + sizes_from(e, from),
    decreases e.len() - from,
{
    if from < e.len() {
        lemma_total_from(e, from + 1);
        assert(e.take(from + 1).drop_last() =~= e.take(from));
        assert(e.take(from + 1).last() == e[from]);
    } else {
        assert(e.take(from) =~= e);
    }
}

/// The chunks of a copy are taken in their order and no other: the first one after the manifest is
/// number 0, and after number `k` was taken the next one is `k + 1`.
pub proof fn chunks_are_taken_in_order(
    m: Map<u64, TransferView>,
    token: u64,
    e: Seq<EntryView>,
    windows: bool,
    k: u64,
    data: Seq<char>,
    next: u64,
    more: Seq<char>,
)
    requires
        k < u64::MAX,
        m.dom().contains(token) ==> m[token].wf(),
    ensures
        ({
            let (begun, first) = received(
                m,
                MessageView::ClipboardFiles { token, entries: e },
                windows,
            );
            first is Started ==> {
                received(begun, MessageView::FileChunk { token, seq: next, data }, windows).1 is Ops
                    <==> next == 0
            }
        }),
        ({
            let (after, what) = received(
                m,
                MessageView::FileChunk { token, seq: k, data },
                windows,
            );
            let then = received(
                after,
                MessageView::FileChunk { token, seq: next, data: more },
                windows,
            ).1;
            what is Ops ==> if next == k + 1 {
                then is Ops
            } else {
                then == IncomingView::OutOfOrder { got: next, want: (k + 1) as u64 }
            }
        }),
{
    if m.dom().contains(token) {
        let t = TransferView {
            expect: (m[token].expect + 1) % 0x1_0000_0000_0000_0000,
            ..m[token]
        };
        lemma_absorbed_expect(t, base64::decoded(data));
    }
}

/// A copy begins exactly when its files are together no larger than a copy may be; one that is
/// larger changes nothing.
pub proof fn only_copies_within_the_limit_begin(
    m: Map<u64, TransferView>,
    token: u64,
    e: Seq<EntryView>,
    windows: bool,
)
    ensures
        ({
            let (after, what) = received(
                m,
                MessageView::ClipboardFiles { token, entries: e },
                windows,
            );
            &&& what is Started <==> sizes_from(e, 0) <= MAX_FILE_BYTES
            &&& what is Started ==> after.dom().contains(token)
            &&& !(what is Started) ==> what == (IncomingView::Refused {
                total: sizes_from(e, 0) as nat,
            }) && after == m
        }),
{
    lemma_total_from(e, 0);
    assert(total_size(e.take(0)) == 0);
}

proof fn lemma_empty_run(f: Seq<EntryView>, from: int)
    requires
        0 <= from <= f.len(),
        forall|i: int| from <= i < f.len() ==> (#[trigger] f[i]).size == 0,
    ensures
        empty_run(f, from) == f.skip(from).map_values(|x: EntryView| x.path),
    decreases f.len() - from,
{
    if from < f.len() {
        lemma_empty_run(f, from + 1);
    }
    assert(empty_run(f, from) =~= f.skip(from).map_values(|x: EntryView| x.path));
}

/// A receiver never gives up on a chunk that comes in its turn, and drops the whole copy on one
/// that does not.
pub proof fn only_gaps_drop_a_copy(m: Map<u64, TransferView>, token: u64, seq: u64, data: Seq<char>, windows: bool)
    requires
        m.dom().contains(token),
    ensures
        ({
            let (after, what) = received(
                m,
                MessageView::FileChunk { token, seq, data },
                windows,
            );
            &&& seq == m[token].expect ==> what is Ops && after.dom() == m.dom()
            &&& seq != m[token].expect ==> what is OutOfOrder && after == m.remove(token)
        }),
{
    let (after, what) = received(m, MessageView::FileChunk { token, seq, data }, windows);
    if seq == m[token].expect {
        assert(after.dom() =~= m.dom());
    }
}

/// A copy ends once, if it is being received: its end gives the first components of its paths, each
/// once, in the order of the manifest, and nothing else. After that there is no such copy.
pub proof fn the_end_of_a_copy_names_its_top(m: Map<u64, TransferView>, token: u64, windows: bool)
    requires
        m.dom().contains(token) ==> m[token].wf(),
    ensures
        ({
            let end = MessageView::FileEnd { token };
            let (after, what) = received(m, end, windows);
            let names = tops(m[token].files);
            &&& what is Finished <==> m.dom().contains(token)
            &&& what matches IncomingView::Finished { top, .. } ==> {
                &&& top.no_duplicates()
                &&& forall|x: Seq<char>| #[trigger] top.contains(x) <==> names.contains(x)
                &&& forall|a: int, b: int|
                    0 <= a < b < top.len() ==> first_at(names, #[trigger] top[a]) < first_at(
                        names,
                        #[trigger] top[b],
                    )
            }
            &&& !after.dom().contains(token)
            &&& received(after, end, windows) == (after, IncomingView::Ignored)
        }),
{
    every_text_is_left_once(tops(m[token].files));
}

/// Copies do not get in each other's way: a message of one leaves the state of the others alone.
pub proof fn copies_are_independent(m: Map<u64, TransferView>, msg: MessageView, windows: bool, other: u64)
    requires
        match msg {
            MessageView::ClipboardFiles { token, .. } => token != other,
            MessageView::FileChunk { token, .. } => token != other,
            MessageView::FileEnd { token } => token != other,
            _ => true,
        },
    ensures
        received(m, msg, windows).0.dom().contains(other) <==> m.dom().contains(other),
        m.dom().contains(other) ==> received(m, msg, windows).0[other] == m[other],
{
}

/// What a sender lets through a receiver lets in.
pub proof fn what_is_sent_is_accepted(m: Map<u64, TransferView>, token: u64, e: Seq<EntryView>, windows: bool)
    requires
        total_size(e) <= MAX_FILE_BYTES,
    ensures
        received(m, MessageView::ClipboardFiles { token, entries: e }, windows).1 is Started,
{
}

proof fn lemma_encoded_is_ascii(b: Seq<u8>)
    ensures
        vstd::utf8::is_ascii_chars(base64::encoded(b)),
    decreases b.len(),
{
    if b.len() >= 3 {
        lemma_encoded_is_ascii(b.skip(3));
    }
}

/// The text of a chunk fits a frame, with room for what stands around it in the message: the names
/// of the message and of its fields, and two numbers.
pub proof fn a_chunk_fits_a_frame(bytes: Seq<u8>)
    requires
        bytes.len() <= FILE_CHUNK,
    ensures
        vstd::utf8::encode_utf8(base64::encoded(bytes)).len() + 128 <= MAX_FRAME,
{
    base64::encoded_length(bytes);
    lemma_encoded_is_ascii(bytes);
    vstd::utf8::is_ascii_chars_encode_utf8(base64::encoded(bytes));
}

/// How long, in milliseconds, the directory of a copy has to lie untouched to be taken for
/// abandoned.
pub const STALE_MS: u64 = 1_800_000;

/// The directory, within the inbox, that a copy is put together in.
pub fn inbox_name(token: u64) -> (r: String)
    ensures
        r@ == crate::text::decimal(token as nat),
{
    crate::text::decimal_string(token)
}

/// Whether the directory `name` of the inbox is swept away when the copy `token` begins:
/// `idle_ms` is how long it has not been touched, if that is known. Only directories old enough
/// that they cannot be a copy still in flight are swept, and never the one of the copy itself.
pub fn is_abandoned(name: &str, token: u64, idle_ms: Option<u64>) -> (r: bool)
    ensures
        r == (name@ != crate::text::decimal(token as nat) && (idle_ms matches Some(ms) && ms
            > STALE_MS)),
{
    let own = inbox_name(token);
    match idle_ms {
        Some(ms) => ms > STALE_MS && !crate::text::same(name, own.as_str()),
        None => false,
    }
}

/// A message that belongs to no copy that is being received, or to no copy at all, is ignored and
/// changes nothing.
pub proof fn strays_are_ignored(
    m: Map<u64, TransferView>,
    token: u64,
    seq: u64,
    data: Seq<char>,
    msg: MessageView,
    windows: bool,
)
    requires
        !m.dom().contains(token),
        !(msg is ClipboardFiles) && !(msg is FileChunk) && !(msg is FileEnd),
    ensures
        received(m, MessageView::FileChunk { token, seq, data }, windows) == (
            m,
            IncomingView::Ignored,
        ),
        received(m, MessageView::FileEnd { token }, windows) == (m, IncomingView::Ignored),
        received(m, msg, windows) == (m, IncomingView::Ignored),
{
}

/// Nothing is written beyond the manifest: once all of its files are full, a chunk that comes in its
/// turn gives nothing to do.
pub proof fn nothing_is_written_beyond_the_manifest(
    m: Map<u64, TransferView>,
    token: u64,
    seq: u64,
    data: Seq<char>,
    windows: bool,
)
    requires
        m.dom().contains(token),
        !m[token].open,
        m[token].next == m[token].files.len(),
        seq == m[token].expect,
    ensures
        received(m, MessageView::FileChunk { token, seq, data }, windows).1 matches
            IncomingView::Ops(ops) && ops.len() == 0,
{
}

} // verus!
