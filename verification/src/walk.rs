//! Expanding a copied selection into the files in it.
//!
//! Directories are walked recursively: the receiving side recreates the tree from the relative
//! paths and puts only the *top-level* entries on its pasteboard, which is what Finder and
//! Explorer expect from a paste. The walk itself is here; the caller looks at the file system. It
//! asks for the next place to look at ([`Walk::next`]) and tells what it found there
//! ([`collect`]), until there is nothing left to look at.

use crate::text;
use crate::text::replace_char;
use vstd::prelude::*;
use vstd::relations::*;
use vstd::string::*;
use vstd::utf8;

verus! {

/// Upper bound on how many files one copy may expand to, so that the walk of something enormous (a
/// home folder, `node_modules`) always finishes.
pub const MAX_WALK_ENTRIES: usize = 20_000;

/// Recursion cap. Also breaks symlink cycles.
pub const MAX_WALK_DEPTH: usize = 32;

/// A place to look at: its path relative to the copy root, how deep it lies, and the number by
/// which the caller knows it.
#[derive(Debug, PartialEq)]
pub struct Visit {
    pub rel: String,
    pub depth: usize,
    pub id: u64,
}

/// What a [`Visit`] holds.
pub struct VisitView {
    pub rel: Seq<char>,
    pub depth: nat,
    pub id: u64,
}

impl View for Visit {
    type V = VisitView;

    open spec fn view(&self) -> VisitView {
        VisitView { rel: self.rel@, depth: self.depth as nat, id: self.id }
    }
}

/// What was found at a place. Links are followed.
#[derive(Debug, PartialEq)]
pub enum Found {
    /// A directory, with the name and number of everything in it.
    Dir(Vec<(String, u64)>),
    /// A regular file.
    File,
    /// A FIFO, socket or device node, or something that cannot be read.
    Other,
}

/// What a [`Found`] stands for.
pub enum FoundView {
    Dir(Seq<(Seq<char>, u64)>),
    File,
    Other,
}

impl View for Found {
    type V = FoundView;

    open spec fn view(&self) -> FoundView {
        match *self {
            Found::Dir(ch) => FoundView::Dir(pair_views(ch@)),
            Found::File => FoundView::File,
            Found::Other => FoundView::Other,
        }
    }
}

/// A walk under way.
#[derive(Debug, PartialEq)]
pub struct Walk {
    /// What is left to look at, the next one last.
    pub todo: Vec<Visit>,
    /// The files found so far: relative path and number.
    pub out: Vec<(String, u64)>,
    /// Whether the walk ended before everything was looked at.
    pub truncated: bool,
}

/// What a [`Walk`] holds.
#[verifier::ext_equal]
pub struct WalkView {
    pub todo: Seq<VisitView>,
    pub out: Seq<(Seq<char>, u64)>,
    pub truncated: bool,
}

/// What a list of places holds.
pub open spec fn visit_views(v: Seq<Visit>) -> Seq<VisitView> {
    Seq::new(v.len(), |i: int| v[i]@)
}

/// What a list of named numbers holds.
pub open spec fn pair_views(v: Seq<(String, u64)>) -> Seq<(Seq<char>, u64)> {
    Seq::new(v.len(), |i: int| (v[i].0@, v[i].1))
}

impl View for Walk {
    type V = WalkView;

    open spec fn view(&self) -> WalkView {
        WalkView {
            todo: visit_views(self.todo@),
            out: pair_views(self.out@),
            truncated: self.truncated,
        }
    }
}

/// Whether a run of bytes comes before another, or is the same: the first byte that differs decides,
/// and what is shorter comes first.
pub open spec fn bytes_leq(a: Seq<u8>, b: Seq<u8>) -> bool
    decreases a.len(),
{
    if a.len() == 0 {
        true
    } else if b.len() == 0 {
        false
    } else if a[0] != b[0] {
        a[0] < b[0]
    } else {
        bytes_leq(a.skip(1), b.skip(1))
    }
}

/// Whether an entry of a directory comes before another: by the bytes of their names, or by their
/// numbers where the names are the same.
pub open spec fn entry_leq() -> spec_fn((Seq<char>, u64), (Seq<char>, u64)) -> bool {
    |a: (Seq<char>, u64), b: (Seq<char>, u64)|
        if a.0 == b.0 {
            a.1 <= b.1
        } else {
            bytes_leq(utf8::encode_utf8(a.0), utf8::encode_utf8(b.0))
        }
}

/// The entries of a directory, by their names.
pub open spec fn ordered(ch: Seq<(Seq<char>, u64)>) -> Seq<(Seq<char>, u64)> {
    ch.sort_by(entry_leq())
}

proof fn lemma_bytes_leq(a: Seq<u8>, b: Seq<u8>, c: Seq<u8>)
    ensures
        bytes_leq(a, a),
        bytes_leq(a, b) || bytes_leq(b, a),
        bytes_leq(a, b) && bytes_leq(b, a) ==> a == b,
        bytes_leq(a, b) && bytes_leq(b, c) ==> bytes_leq(a, c),
    decreases a.len() + b.len() + c.len(),
{
    if a.len() > 0 {
        lemma_bytes_leq(a.skip(1), b.skip(if b.len() > 0 { 1 } else { 0 }), c.skip(if c.len() > 0 { 1 } else { 0 }));
    }
    if a.len() > 0 && b.len() > 0 && a[0] == b[0] && a.skip(1) == b.skip(1) {
        assert(a =~= seq![a[0]] + a.skip(1));
        assert(b =~= seq![b[0]] + b.skip(1));
    }
    if a.len() == 0 && b.len() == 0 {
        assert(a =~= b);
    }
}

proof fn lemma_entries_are_ordered()
    ensures
        total_ordering(entry_leq()),
{
    let leq = entry_leq();
    assert forall|x: (Seq<char>, u64), y: (Seq<char>, u64)| #[trigger] leq(x, y) && #[trigger] leq(
        y,
        x,
    ) implies x == y by {
        let (a, b) = (utf8::encode_utf8(x.0), utf8::encode_utf8(y.0));
        lemma_bytes_leq(a, b, a);
        text::lemma_same_bytes(x.0, y.0);
    }
    assert forall|x: (Seq<char>, u64), y: (Seq<char>, u64), z: (Seq<char>, u64)| #[trigger]
        leq(x, y) && #[trigger] leq(y, z) implies leq(x, z) by {
        let (a, b, c) = (
            utf8::encode_utf8(x.0),
            utf8::encode_utf8(y.0),
            utf8::encode_utf8(z.0),
        );
        lemma_bytes_leq(a, b, c);
        lemma_bytes_leq(a, b, a);
        text::lemma_same_bytes(x.0, y.0);
        text::lemma_same_bytes(y.0, z.0);
        text::lemma_same_bytes(x.0, z.0);
    }
    assert forall|x: (Seq<char>, u64), y: (Seq<char>, u64)| #[trigger] leq(x, y) || #[trigger] leq(
        y,
        x,
    ) by {
        lemma_bytes_leq(utf8::encode_utf8(x.0), utf8::encode_utf8(y.0), Seq::empty());
    }
}

/// What is in order and holds the same entries is the list in order.
proof fn lemma_ordered(ch: Seq<(Seq<char>, u64)>, r: Seq<(Seq<char>, u64)>)
    requires
        sorted_by(r, entry_leq()),
        r.to_multiset() == ch.to_multiset(),
    ensures
        r == ordered(ch),
{
    lemma_entries_are_ordered();
    ch.lemma_sort_by_ensures(entry_leq());
    vstd::seq_lib::lemma_sorted_unique(r, ordered(ch), entry_leq());
}

/// Whether an entry of a directory comes before another.
fn is_leq(a: &(String, u64), b: &(String, u64)) -> (r: bool)
    ensures
        r == entry_leq()((a.0@, a.1), (b.0@, b.1)),
{
    let x = a.0.as_str().as_bytes();
    let y = b.0.as_str().as_bytes();
    let mut i: usize = 0;
    proof {
        text::lemma_same_bytes(a.0@, b.0@);
    }
    assert(x@.skip(0) =~= x@ && y@.skip(0) =~= y@);
    while i < x.len()
        invariant
            i <= x@.len(),
            i <= y@.len(),
            x@ == utf8::encode_utf8(a.0@),
            y@ == utf8::encode_utf8(b.0@),
            x@ == y@ <==> a.0@ == b.0@,
            x@.take(i as int) == y@.take(i as int),
            bytes_leq(x@, y@) == bytes_leq(x@.skip(i as int), y@.skip(i as int)),
        decreases x.len() - i,
    {
        assert(x@.skip(i as int).skip(1) =~= x@.skip(i as int + 1));
        if i >= y.len() {
            return false;
        }
        assert(y@.skip(i as int).skip(1) =~= y@.skip(i as int + 1));
        if x[i] != y[i] {
            assert(x@[i as int] != y@[i as int]);
            return x[i] < y[i];
        }
        i += 1;
        assert(x@.take(i as int) =~= y@.take(i as int)) by {
            assert(x@.take(i as int) =~= x@.take(i as int - 1).push(x@[i as int - 1]));
            assert(y@.take(i as int) =~= y@.take(i as int - 1).push(y@[i as int - 1]));
        }
    }
    if y.len() > x.len() {
        assert(x@.len() != y@.len());
        true
    } else {
        assert(x@ =~= x@.take(i as int));
        assert(y@ =~= y@.take(i as int));
        a.1 <= b.1
    }
}

/// Two lists that are in order, put together in order.
fn merged(left: Vec<(String, u64)>, right: Vec<(String, u64)>) -> (r: Vec<(String, u64)>)
    requires
        sorted_by(pair_views(left@), entry_leq()),
        sorted_by(pair_views(right@), entry_leq()),
    ensures
        sorted_by(pair_views(r@), entry_leq()),
        pair_views(r@).to_multiset() == pair_views(left@).to_multiset().add(
            pair_views(right@).to_multiset(),
        ),
{
    broadcast use vstd::seq_lib::group_to_multiset_ensures;

    let ghost leq = entry_leq();
    let ghost all = pair_views(left@).to_multiset().add(pair_views(right@).to_multiset());
    proof {
        lemma_entries_are_ordered();
    }
    let mut a = left;
    let mut b = right;
    // The largest entries are taken first.
    let mut back: Vec<(String, u64)> = Vec::new();
    assert(pair_views(back@) =~= Seq::<(Seq<char>, u64)>::empty());
    assert(pair_views(a@).to_multiset().add(pair_views(b@).to_multiset()).add(
        pair_views(back@).to_multiset(),
    ) =~= all);
    while a.len() > 0 || b.len() > 0
        invariant
            leq == entry_leq(),
            total_ordering(leq),
            sorted_by(pair_views(a@), leq),
            sorted_by(pair_views(b@), leq),
            forall|i: int, j: int|
                0 <= i < j < back@.len() ==> leq(
                    #[trigger] pair_views(back@)[j],
                    #[trigger] pair_views(back@)[i],
                ),
            forall|i: int, j: int|
                0 <= i < a@.len() && 0 <= j < back@.len() ==> leq(
                    #[trigger] pair_views(a@)[i],
                    #[trigger] pair_views(back@)[j],
                ),
            forall|i: int, j: int|
                0 <= i < b@.len() && 0 <= j < back@.len() ==> leq(
                    #[trigger] pair_views(b@)[i],
                    #[trigger] pair_views(back@)[j],
                ),
            pair_views(a@).to_multiset().add(pair_views(b@).to_multiset()).add(
                pair_views(back@).to_multiset(),
            ) == all,
        decreases a.len() + b.len(),
    {
        broadcast use vstd::seq_lib::group_to_multiset_ensures;

        let ghost (a0, b0, o0) = (pair_views(a@), pair_views(b@), pair_views(back@));
        let from_right = if a.len() == 0 {
            true
        } else if b.len() == 0 {
            false
        } else {
            is_leq(&a[a.len() - 1], &b[b.len() - 1])
        };
        let taken = if from_right {
            b.pop()
        } else {
            a.pop()
        };
        match taken {
            Some(e) => {
                back.push(e);
                proof {
                    let x = (e.0@, e.1);
                    let (a1, b1, o1) = (pair_views(a@), pair_views(b@), pair_views(back@));
                    assert(o1 =~= o0.push(x));
                    if from_right {
                        assert(a1 == a0);
                        assert(b1 =~= b0.drop_last());
                        assert(x == b0.last());
                        assert(b0.drop_last() =~= b0.remove(b0.len() - 1));
                        assert(a0.len() > 0 ==> leq(a0.last(), x));
                    } else {
                        assert(b1 == b0);
                        assert(a1 =~= a0.drop_last());
                        assert(x == a0.last());
                        assert(a0.drop_last() =~= a0.remove(a0.len() - 1));
                        assert(b0.len() > 0 ==> leq(b0.last(), x));
                    }
                    assert forall|i: int| 0 <= i < a1.len() implies leq(#[trigger] a1[i], x) by {
                        assert(a1[i] == a0[i]);
                        if i < a0.len() - 1 {
                            assert(leq(a0[i], a0[a0.len() - 1]));
                        }
                    }
                    assert forall|i: int| 0 <= i < b1.len() implies leq(#[trigger] b1[i], x) by {
                        assert(b1[i] == b0[i]);
                        if i < b0.len() - 1 {
                            assert(leq(b0[i], b0[b0.len() - 1]));
                        }
                    }
                    assert(a1.to_multiset().add(b1.to_multiset()).add(o1.to_multiset()) =~= all);
                }
            },
            None => {},
        }
    }
    assert(pair_views(a@) =~= Seq::<(Seq<char>, u64)>::empty());
    assert(pair_views(b@) =~= Seq::<(Seq<char>, u64)>::empty());
    assert(pair_views(back@).to_multiset() =~= all);
    let ghost whole = pair_views(back@);
    let mut r: Vec<(String, u64)> = Vec::new();
    assert(pair_views(r@) =~= Seq::<(Seq<char>, u64)>::empty());
    while back.len() > 0
        invariant
            back@.len() <= whole.len(),
            pair_views(back@) == whole.take(back@.len() as int),
            pair_views(r@) == whole.reverse().take(whole.len() - back@.len()),
        decreases back.len(),
    {
        let ghost n = back@.len() as int;
        match back.pop() {
            Some(e) => {
                let ghost was = pair_views(r@);
                r.push(e);
                proof {
                    assert((e.0@, e.1) == whole.take(n)[n - 1]);
                    assert(pair_views(back@) =~= whole.take(n - 1));
                    assert(pair_views(r@) =~= was.push(whole[n - 1]));
                    assert(whole.reverse()[whole.len() - n] == whole[n - 1]);
                    assert(whole.reverse().take(whole.len() - n + 1) =~= was.push(whole[n - 1]));
                }
            },
            None => {},
        }
    }
    proof {
        assert(whole.reverse().take(whole.len() as int) =~= whole.reverse());
        whole.lemma_reverse_to_multiset();
        let w = pair_views(r@);
        assert forall|i: int, j: int| 0 <= i < j < w.len() implies #[trigger] leq(w[i], w[j]) by {
            assert(w[i] == whole[whole.len() - 1 - i]);
            assert(w[j] == whole[whole.len() - 1 - j]);
        }
    }
    r
}

/// The entries of a directory, by their names.
fn in_order(ch: Vec<(String, u64)>) -> (r: Vec<(String, u64)>)
    ensures
        pair_views(r@) == ordered(pair_views(ch@)),
    decreases ch.len(),
{
    let ghost whole = pair_views(ch@);
    if ch.len() <= 1 {
        proof {
            lemma_ordered(whole, whole);
        }
        return ch;
    }
    let mut left = ch;
    let mid: usize = left.len() / 2;
    let right = left.split_off(mid);
    let ghost (lv, rv) = (pair_views(left@), pair_views(right@));
    let l = in_order(left);
    let r = in_order(right);
    proof {
        lemma_entries_are_ordered();
        lv.lemma_sort_by_ensures(entry_leq());
        rv.lemma_sort_by_ensures(entry_leq());
    }
    let out = merged(l, r);
    proof {
        assert(whole =~= lv + rv);
        vstd::seq_lib::lemma_multiset_commutative(lv, rv);
        lemma_ordered(whole, pair_views(out@));
    }
    out
}

/// The places that a directory adds: everything in it, the first one to be looked at last in the
/// list.
pub open spec fn children(at: VisitView, ch: Seq<(Seq<char>, u64)>) -> Seq<VisitView> {
    Seq::new(
        ch.len(),
        |i: int|
            VisitView {
                rel: text::beneath(at.rel, ch[ch.len() - 1 - i].0),
                depth: at.depth + 1,
                id: ch[ch.len() - 1 - i].1,
            },
    )
}

/// The state after the next place to look at was asked for, and that place.
pub open spec fn asked(w: WalkView) -> (WalkView, Option<VisitView>) {
    if w.truncated || w.todo.len() == 0 {
        (w, None)
    } else if w.out.len() >= MAX_WALK_ENTRIES {
        (WalkView { truncated: true, ..w }, None)
    } else {
        (WalkView { todo: w.todo.drop_last(), ..w }, Some(w.todo.last()))
    }
}

/// The state after something was found at a place.
pub open spec fn told(w: WalkView, at: VisitView, f: FoundView) -> WalkView {
    match f {
        FoundView::Dir(ch) => if at.depth >= MAX_WALK_DEPTH {
            w
        } else {
            WalkView { todo: w.todo + children(at, ordered(ch)), ..w }
        },
        FoundView::File => WalkView {
            out: w.out.push((text::exchanged(at.rel, '\\', '/'), at.id)),
            ..w
        },
        FoundView::Other => w,
    }
}

impl Walk {
    /// A walk of a selection: the name and number of everything in it, in order.
    pub fn new(selection: Vec<(String, u64)>) -> (r: Walk)
        ensures
            r@ == started(pair_views(selection@)),
    {
        let mut todo: Vec<Visit> = Vec::new();
        let mut i: usize = selection.len();
        while i > 0
            invariant
                i <= selection.len(),
                todo@.len() == selection@.len() - i,
                forall|k: int|
                    0 <= k < todo@.len() ==> (#[trigger] todo@[k])@ == (VisitView {
                        rel: selection@[selection@.len() - 1 - k].0@,
                        depth: 0,
                        id: selection@[selection@.len() - 1 - k].1,
                    }),
            decreases i,
        {
            i -= 1;
            todo.push(Visit { rel: selection[i].0.clone(), depth: 0, id: selection[i].1 });
        }
        let r = Walk { todo, out: Vec::new(), truncated: false };
        assert(r@.out =~= Seq::<(Seq<char>, u64)>::empty());
        assert(r@.todo =~= started(pair_views(selection@)).todo);
        r
    }

    /// The next place to look at. `None` when the walk is over, either because there is nothing
    /// left or because it has found as many files as a copy may hold.
    pub fn next(&mut self) -> (r: Option<Visit>)
        ensures
            final(self)@ == asked(old(self)@).0,
            asked(old(self)@).1 == (match r {
                None => None::<VisitView>,
                Some(v) => Some(v@),
            }),
    {
        let ghost w0 = self@;
        if self.truncated || self.todo.len() == 0 {
            return None;
        }
        if self.out.len() >= MAX_WALK_ENTRIES {
            self.truncated = true;
            assert(self@ =~= asked(w0).0);
            return None;
        }
        let ghost was = self.todo@;
        let r = self.todo.pop();
        assert(visit_views(self.todo@) =~= visit_views(was).drop_last());
        assert(self@ =~= asked(w0).0);
        r
    }
}

/// Takes in what was found at the place `at`: a file joins the copy, a directory adds what is in it,
/// by name, unless it lies too deep, anything else is passed over.
pub fn collect(walk: &mut Walk, at: Visit, found: Found)
    ensures
        final(walk)@ == told(old(walk)@, at@, found@),
{
    let ghost w0 = walk@;
    match found {
        Found::Dir(ch) => {
            if at.depth >= MAX_WALK_DEPTH {
                return;
            }
            let ch = in_order(ch);
            let ghost cv = pair_views(ch@);
            let ghost add = children(at@, cv);
            let mut i: usize = ch.len();
            assert(visit_views(walk.todo@) =~= w0.todo + add.take(0));
            while i > 0
                invariant
                    i <= ch.len(),
                    cv == pair_views(ch@),
                    add == children(at@, cv),
                    at.depth < MAX_WALK_DEPTH,
                    visit_views(walk.todo@) == w0.todo + add.take(ch@.len() - i),
                    walk.out@ == old(walk).out@,
                    walk.truncated == old(walk).truncated,
                decreases i,
            {
                let ghost was = walk.todo@;
                i -= 1;
                let v = Visit {
                    rel: text::path_beneath(at.rel.as_str(), ch[i].0.as_str()),
                    depth: at.depth + 1,
                    id: ch[i].1,
                };
                assert(v@ == add[ch@.len() - 1 - i]);
                walk.todo.push(v);
                assert(visit_views(walk.todo@) =~= visit_views(was).push(v@));
                assert(w0.todo + add.take(ch@.len() - i) =~= (w0.todo + add.take(
                    ch@.len() - i - 1,
                )).push(v@));
            }
            assert(add.take(ch@.len() as int) =~= add);
            assert(walk@ =~= told(w0, at@, found@));
        },
        Found::File => {
            let ghost was = walk.out@;
            let rel = replace_char(at.rel.as_str(), '\\', '/');
            walk.out.push((rel, at.id));
            assert(pair_views(walk.out@) =~= pair_views(was).push((rel@, at.id)));
            assert(walk@ =~= told(w0, at@, found@));
        },
        Found::Other => {},
    }
}

// ---- What a walk finds ----

/// What a file system holds: the things that a walk can come across, with their names and numbers,
/// those of a directory in order.
pub enum Node {
    Dir(Seq<(Seq<char>, u64, Node)>),
    File,
    Other,
}

/// The names and numbers of what is in a directory.
pub open spec fn listing(ch: Seq<(Seq<char>, u64, Node)>) -> Seq<(Seq<char>, u64)> {
    Seq::new(ch.len(), |i: int| (ch[i].0, ch[i].1))
}

/// Whether `f` is what looking at a node finds. A directory may list what is in it in any order.
pub open spec fn shows(n: Node, f: FoundView) -> bool {
    match n {
        Node::Dir(ch) => f matches FoundView::Dir(names) && ordered(names) == listing(ch),
        Node::File => f is File,
        Node::Other => f is Other,
    }
}

/// The files under a node, in order, down to the depth that is walked.
pub open spec fn files_under(n: Node, at: VisitView) -> Seq<(Seq<char>, u64)>
    decreases n,
{
    match n {
        Node::Dir(ch) => if at.depth >= MAX_WALK_DEPTH {
            Seq::empty()
        } else {
            files_among(ch, at)
        },
        Node::File => seq![(text::exchanged(at.rel, '\\', '/'), at.id)],
        Node::Other => Seq::empty(),
    }
}

/// The files under several nodes of one directory, in order.
pub open spec fn files_among(ch: Seq<(Seq<char>, u64, Node)>, at: VisitView) -> Seq<
    (Seq<char>, u64),
>
    decreases ch,
{
    if ch.len() == 0 {
        Seq::empty()
    } else {
        let c = ch.last();
        files_among(ch.drop_last(), at) + files_under(
            c.2,
            VisitView { rel: text::beneath(at.rel, c.0), depth: at.depth + 1, id: c.1 },
        )
    }
}

/// The files under the nodes that are left to look at, the next one last.
pub open spec fn files_left(todo: Seq<VisitView>, nodes: Seq<Node>) -> Seq<(Seq<char>, u64)>
    decreases todo.len(),
{
    if todo.len() == 0 || nodes.len() == 0 {
        Seq::empty()
    } else {
        files_under(nodes.last(), todo.last()) + files_left(todo.drop_last(), nodes.drop_last())
    }
}

/// The nodes left to look at after one of them was: what is in a directory comes next.
pub open spec fn nodes_after(nodes: Seq<Node>, at: VisitView) -> Seq<Node> {
    match nodes.last() {
        Node::Dir(ch) => if at.depth >= MAX_WALK_DEPTH {
            nodes.drop_last()
        } else {
            nodes.drop_last() + Seq::new(ch.len(), |i: int| ch[ch.len() - 1 - i].2)
        },
        _ => nodes.drop_last(),
    }
}

proof fn lemma_files_left_children(
    todo: Seq<VisitView>,
    nodes: Seq<Node>,
    at: VisitView,
    ch: Seq<(Seq<char>, u64, Node)>,
)
    requires
        todo.len() == nodes.len(),
    ensures
        ({
            let names = listing(ch);
            let more = Seq::new(ch.len(), |i: int| ch[ch.len() - 1 - i].2);
            files_left(todo + children(at, names), nodes + more) == files_among(ch, at) + files_left(
                todo,
                nodes,
            )
        }),
    decreases ch.len(),
{
    let names = listing(ch);
    let more = Seq::new(ch.len(), |i: int| ch[ch.len() - 1 - i].2);
    let kids = children(at, names);
    if ch.len() == 0 {
        assert(todo + kids =~= todo);
        assert(nodes + more =~= nodes);
        assert(files_among(ch, at) + files_left(todo, nodes) =~= files_left(todo, nodes));
    } else {
        // The last child lies lowest among those added.
        let init = ch.drop_last();
        let c = ch.last();
        let v = VisitView { rel: text::beneath(at.rel, c.0), depth: at.depth + 1, id: c.1 };
        let todo1 = todo.push(v);
        let nodes1 = nodes.push(c.2);
        lemma_files_left_children(todo1, nodes1, at, init);
        let names1 = listing(init);
        let more1 = Seq::new(init.len(), |i: int| init[init.len() - 1 - i].2);
        assert(todo + kids =~= todo1 + children(at, names1));
        assert(nodes + more =~= nodes1 + more1);
        assert(todo1.drop_last() =~= todo);
        assert(nodes1.drop_last() =~= nodes);
        assert(files_left(todo1, nodes1) == files_under(c.2, v) + files_left(todo, nodes));
        assert(files_among(init, at) + (files_under(c.2, v) + files_left(todo, nodes))
            =~= files_among(ch, at) + files_left(todo, nodes));
    }
}

/// A walk finds the files of the selection in order, each once, and nothing else: at every step
/// what was found so far and what lies under the places left to look at make up the same list. So
/// when nothing is left to look at, the whole list was found; and when the walk is cut short, its
/// first `MAX_WALK_ENTRIES` files were.
pub proof fn every_step_keeps_the_list(w: WalkView, nodes: Seq<Node>, f: FoundView)
    requires
        nodes.len() == w.todo.len(),
        asked(w).1 is Some,
        shows(nodes.last(), f),
    ensures
        ({
            let (x, at) = asked(w);
            let y = told(x, at->0, f);
            let left = nodes_after(nodes, at->0);
            &&& left.len() == y.todo.len()
            &&& y.out + files_left(y.todo, left) == w.out + files_left(w.todo, nodes)
            &&& y.out.len() <= MAX_WALK_ENTRIES
            &&& y.truncated == w.truncated
        }),
{
    let (x, v) = asked(w);
    let at = v->0;
    let n = nodes.last();
    let y = told(x, at, f);
    let left = nodes_after(nodes, at);
    let rest = nodes.drop_last();
    match n {
        Node::Dir(ch) => {
            if at.depth < MAX_WALK_DEPTH {
                lemma_files_left_children(x.todo, rest, at, ch);
            } else {
                assert(files_under(n, at) =~= Seq::<(Seq<char>, u64)>::empty());
            }
        },
        Node::File => {
            assert(y.out + files_left(y.todo, left) =~= w.out + files_left(w.todo, nodes));
        },
        Node::Other => {
            assert(files_under(n, at) =~= Seq::<(Seq<char>, u64)>::empty());
        },
    }
    assert(y.out + files_left(y.todo, left) =~= w.out + files_left(w.todo, nodes));
}

/// When a walk is over, it has found the first files of the list, and all of them unless it was cut
/// short.
pub proof fn a_finished_walk_has_the_list(w: WalkView, nodes: Seq<Node>)
    requires
        nodes.len() == w.todo.len(),
        asked(w).1 is None,
        !w.truncated,
    ensures
        w.out == (w.out + files_left(w.todo, nodes)).take(w.out.len() as int),
        !asked(w).0.truncated ==> w.out == w.out + files_left(w.todo, nodes),
        asked(w).0.truncated ==> w.out.len() >= MAX_WALK_ENTRIES,
{
    assert(w.out =~= (w.out + files_left(w.todo, nodes)).take(w.out.len() as int));
    if w.todo.len() == 0 {
        assert(w.out =~= w.out + files_left(w.todo, nodes));
    }
}

// ---- A walk from its start to its end ----

/// A walk at its start.
pub open spec fn started(selection: Seq<(Seq<char>, u64)>) -> WalkView {
    WalkView {
        todo: Seq::new(
            selection.len(),
            |i: int|
                VisitView {
                    rel: selection[selection.len() - 1 - i].0,
                    depth: 0,
                    id: selection[selection.len() - 1 - i].1,
                },
        ),
        out: Seq::empty(),
        truncated: false,
    }
}

/// The state of a walk, and the nodes that are left to look at, after some looks. Once the walk is
/// over nothing is looked at any more.
pub open spec fn walked(w: WalkView, nodes: Seq<Node>, looks: Seq<FoundView>) -> (
    WalkView,
    Seq<Node>,
)
    decreases looks.len(),
{
    if looks.len() == 0 {
        (w, nodes)
    } else {
        let (v, left) = walked(w, nodes, looks.drop_last());
        match asked(v).1 {
            None => (asked(v).0, left),
            Some(at) => (told(asked(v).0, at, looks.last()), nodes_after(left, at)),
        }
    }
}

/// Whether the looks of a walk find what is there: the tree is the same throughout.
pub open spec fn truthful(w: WalkView, nodes: Seq<Node>, looks: Seq<FoundView>) -> bool
    decreases looks.len(),
{
    looks.len() > 0 ==> {
        let (v, left) = walked(w, nodes, looks.drop_last());
        &&& truthful(w, nodes, looks.drop_last())
        &&& asked(v).1 is Some ==> shows(left.last(), looks.last())
    }
}

/// A walk that is over after some looks.
pub open spec fn is_walk(w: WalkView, nodes: Seq<Node>, looks: Seq<FoundView>) -> bool {
    &&& nodes.len() == w.todo.len()
    &&& truthful(w, nodes, looks)
    &&& asked(walked(w, nodes, looks).0).1 is None
}

/// The first files of a list: as many as a copy may hold.
pub open spec fn first_files(all: Seq<(Seq<char>, u64)>) -> Seq<(Seq<char>, u64)> {
    if all.len() <= MAX_WALK_ENTRIES {
        all
    } else {
        all.take(MAX_WALK_ENTRIES as int)
    }
}

proof fn lemma_walked(w: WalkView, nodes: Seq<Node>, looks: Seq<FoundView>)
    requires
        nodes.len() == w.todo.len(),
        truthful(w, nodes, looks),
        !w.truncated,
        w.out.len() <= MAX_WALK_ENTRIES,
    ensures
        ({
            let (v, left) = walked(w, nodes, looks);
            &&& left.len() == v.todo.len()
            &&& v.out + files_left(v.todo, left) == w.out + files_left(w.todo, nodes)
            &&& v.out.len() <= MAX_WALK_ENTRIES
            &&& v.truncated ==> v.out.len() == MAX_WALK_ENTRIES
        }),
    decreases looks.len(),
{
    if looks.len() > 0 {
        lemma_walked(w, nodes, looks.drop_last());
        let (v, left) = walked(w, nodes, looks.drop_last());
        if asked(v).1 is Some {
            every_step_keeps_the_list(v, left, looks.last());
        }
    }
}

/// However a walk goes, in the end it has found the first files that lie under the places it
/// started from, and no more than a copy may hold.
pub proof fn a_walk_finds_the_first_files(w: WalkView, nodes: Seq<Node>, looks: Seq<FoundView>)
    requires
        is_walk(w, nodes, looks),
        !w.truncated,
        w.out.len() == 0,
    ensures
        walked(w, nodes, looks).0.out == first_files(files_left(w.todo, nodes)),
        walked(w, nodes, looks).0.out.len() <= MAX_WALK_ENTRIES,
        w.todo.len() == 0 ==> walked(w, nodes, looks).0.out.len() == 0,
{
    lemma_walked(w, nodes, looks);
    let (v, left) = walked(w, nodes, looks);
    let all = files_left(w.todo, nodes);
    assert(w.out + all =~= all);
    assert(v.out =~= all.take(v.out.len() as int));
    if v.out.len() < MAX_WALK_ENTRIES {
        assert(v.todo.len() == 0);
        assert(v.out =~= all);
    } else {
        assert(v.out =~= first_files(all));
    }
}

proof fn lemma_files_left_add(
    t1: Seq<VisitView>,
    n1: Seq<Node>,
    t2: Seq<VisitView>,
    n2: Seq<Node>,
)
    requires
        t1.len() == n1.len(),
        t2.len() == n2.len(),
    ensures
        files_left(t1 + t2, n1 + n2) == files_left(t2, n2) + files_left(t1, n1),
    decreases t2.len(),
{
    if t2.len() == 0 {
        assert(t1 + t2 =~= t1);
        assert(n1 + n2 =~= n1);
        assert(files_left(t2, n2) + files_left(t1, n1) =~= files_left(t1, n1));
    } else {
        lemma_files_left_add(t1, n1, t2.drop_last(), n2.drop_last());
        assert((t1 + t2).drop_last() =~= t1 + t2.drop_last());
        assert((n1 + n2).drop_last() =~= n1 + n2.drop_last());
        assert(files_left(t1 + t2, n1 + n2) =~= files_left(t2, n2) + files_left(t1, n1));
    }
}

/// Two selections are walked in turn: a walk of both finds the first files of what a walk of the one
/// and a walk of the other find, in that order, and no more than a copy may hold. `na` and `nb` are
/// what lies at the places of the selections, in the order in which the walk has them.
pub proof fn selections_are_walked_in_turn(
    a: Seq<(Seq<char>, u64)>,
    b: Seq<(Seq<char>, u64)>,
    na: Seq<Node>,
    nb: Seq<Node>,
    of_a: Seq<FoundView>,
    of_b: Seq<FoundView>,
    of_both: Seq<FoundView>,
)
    requires
        is_walk(started(a), na, of_a),
        is_walk(started(b), nb, of_b),
        is_walk(started(a + b), nb + na, of_both),
    ensures
        files_left(started(a + b).todo, nb + na) == files_left(started(a).todo, na) + files_left(
            started(b).todo,
            nb,
        ),
        walked(started(a + b), nb + na, of_both).0.out == first_files(
            walked(started(a), na, of_a).0.out + walked(started(b), nb, of_b).0.out,
        ),
{
    let (ta, tb) = (started(a).todo, started(b).todo);
    assert(started(a + b).todo =~= tb + ta);
    lemma_files_left_add(tb, nb, ta, na);
    a_walk_finds_the_first_files(started(a), na, of_a);
    a_walk_finds_the_first_files(started(b), nb, of_b);
    a_walk_finds_the_first_files(started(a + b), nb + na, of_both);
    let (fa, fb) = (files_left(ta, na), files_left(tb, nb));
    assert(first_files(fa + fb) =~= first_files(first_files(fa) + first_files(fb)));
}

/// How many things a node is made of.
pub open spec fn size_of(n: Node) -> nat
    decreases n,
{
    match n {
        Node::Dir(ch) => 1 + size_among(ch),
        _ => 1,
    }
}

/// How many things several nodes are made of.
pub open spec fn size_among(ch: Seq<(Seq<char>, u64, Node)>) -> nat
    decreases ch,
{
    if ch.len() == 0 {
        0
    } else {
        size_among(ch.drop_last()) + size_of(ch.last().2)
    }
}

/// How many things are left to look at, with all that is in them.
pub open spec fn size_left(nodes: Seq<Node>) -> nat
    decreases nodes.len(),
{
    if nodes.len() == 0 {
        0
    } else {
        size_left(nodes.drop_last()) + size_of(nodes.last())
    }
}

proof fn lemma_size_children(nodes: Seq<Node>, ch: Seq<(Seq<char>, u64, Node)>)
    ensures
        size_left(nodes + Seq::new(ch.len(), |i: int| ch[ch.len() - 1 - i].2)) == size_left(nodes)
            + size_among(ch),
    decreases ch.len(),
{
    let more = Seq::new(ch.len(), |i: int| ch[ch.len() - 1 - i].2);
    if ch.len() == 0 {
        assert(nodes + more =~= nodes);
    } else {
        let init = ch.drop_last();
        let nodes1 = nodes.push(ch.last().2);
        let more1 = Seq::new(init.len(), |i: int| init[init.len() - 1 - i].2);
        lemma_size_children(nodes1, init);
        assert(nodes + more =~= nodes1 + more1);
        assert(nodes1.drop_last() =~= nodes);
    }
}

proof fn lemma_walk_shrinks(w: WalkView, nodes: Seq<Node>, looks: Seq<FoundView>)
    requires
        nodes.len() == w.todo.len(),
        truthful(w, nodes, looks),
        !w.truncated,
        w.out.len() <= MAX_WALK_ENTRIES,
    ensures
        asked(walked(w, nodes, looks).0).1 is None || size_left(walked(w, nodes, looks).1)
            + looks.len() <= size_left(nodes),
    decreases looks.len(),
{
    if looks.len() > 0 {
        lemma_walk_shrinks(w, nodes, looks.drop_last());
        lemma_walked(w, nodes, looks.drop_last());
        let (v, left) = walked(w, nodes, looks.drop_last());
        if asked(v).1 is Some {
            match left.last() {
                Node::Dir(ch) => {
                    lemma_size_children(left.drop_last(), ch);
                },
                _ => {},
            }
        }
    }
}

/// Every walk ends: after one look at everything at the latest there is nothing left to ask for.
pub proof fn every_walk_ends(w: WalkView, nodes: Seq<Node>, looks: Seq<FoundView>)
    requires
        nodes.len() == w.todo.len(),
        truthful(w, nodes, looks),
        !w.truncated,
        w.out.len() == 0,
        looks.len() >= size_left(nodes),
    ensures
        is_walk(w, nodes, looks),
{
    lemma_walk_shrinks(w, nodes, looks);
    lemma_walked(w, nodes, looks);
    let (v, left) = walked(w, nodes, looks);
    if asked(v).1 is Some {
        assert(left.len() > 0);
        assert(size_left(left) >= size_of(left.last()));
    }
}

/// What is found is taken in, and nothing else is: a file joins the copy behind the others, under its
/// path with the separators leaning one way; everything in a directory is to be looked at next, under
/// the directory's path and one deeper, the first by name first, unless the directory lies 32 deep;
/// anything else is passed over. What was to be looked at before is looked at after that.
pub proof fn what_is_found_is_taken_in(w: WalkView, at: VisitView, f: FoundView, i: int)
    ensures
        ({
            let x = told(w, at, f);
            let n = w.todo.len();
            &&& x.truncated == w.truncated
            &&& f is File ==> {
                let rel = x.out.last().0;
                &&& x.todo == w.todo
                &&& x.out == w.out.push((rel, at.id))
                &&& rel.len() == at.rel.len()
                &&& 0 <= i < rel.len() ==> rel[i] == (if at.rel[i] == '\\' { '/' } else { at.rel[i] })
            }
            &&& f is Other ==> x == w
            &&& f matches FoundView::Dir(ch) ==> {
                &&& x.out == w.out
                &&& at.depth >= 32 ==> x.todo == w.todo
                &&& at.depth < 32 ==> {
                    &&& x.todo.len() == n + ch.len()
                    &&& x.todo.take(n as int) == w.todo
                    &&& 0 <= i < ch.len() ==> exists|k: int|
                        {
                            &&& n <= k < x.todo.len()
                            &&& (#[trigger] x.todo[k]).id == ch[i].1
                            &&& x.todo[k].depth == at.depth + 1
                            &&& x.todo[k].rel == below(at.rel, ch[i].0)
                        }
                }
            }
        }),
{
    let x = told(w, at, f);
    if let FoundView::Dir(ch) = f {
        if at.depth < 32 {
            let o = ordered(ch);
            lemma_entries_are_ordered();
            ch.lemma_sort_by_ensures(entry_leq());
            broadcast use vstd::seq_lib::group_to_multiset_ensures;

            assert(o.len() == ch.len()) by {
                assert(o.to_multiset().len() == o.len());
                assert(ch.to_multiset().len() == ch.len());
            }
            assert(x.todo.take(w.todo.len() as int) =~= w.todo);
            if 0 <= i < ch.len() {
                assert(ch.to_multiset().count(ch[i]) > 0);
                assert(o.contains(ch[i]));
                let j = choose|j: int| 0 <= j < o.len() && o[j] == ch[i];
                let k = w.todo.len() + (o.len() - 1 - j);
                assert(x.todo[k] == children(at, o)[o.len() - 1 - j]);
                if at.rel.len() > 0 && at.rel.last() != '/' {
                    assert(at.rel.push('/') + ch[i].0 =~= at.rel + seq!['/'] + ch[i].0);
                }
                assert(x.todo[k].rel == below(at.rel, ch[i].0));
            }
        }
    }
}

/// The path of an entry of a directory.
pub open spec fn below(dir: Seq<char>, name: Seq<char>) -> Seq<char> {
    if dir.len() == 0 || dir.last() == '/' {
        dir + name
    } else {
        dir + seq!['/'] + name
    }
}

/// What a directory holds is looked at in the order of the bytes of the names.
pub proof fn a_directory_is_looked_at_by_name(ch: Seq<(Seq<char>, u64)>, i: int, j: int)
    requires
        0 <= i < j < ch.len(),
    ensures
        ordered(ch).len() == ch.len(),
        ordered(ch).to_multiset() == ch.to_multiset(),
        bytes_leq(utf8::encode_utf8(ordered(ch)[i].0), utf8::encode_utf8(ordered(ch)[j].0)),
{
    broadcast use vstd::seq_lib::group_to_multiset_ensures;

    lemma_entries_are_ordered();
    ch.lemma_sort_by_ensures(entry_leq());
    let o = ordered(ch);
    assert(o.to_multiset().len() == o.len());
    assert(ch.to_multiset().len() == ch.len());
    assert(entry_leq()(o[i], o[j]));
    lemma_bytes_leq(utf8::encode_utf8(o[i].0), utf8::encode_utf8(o[j].0), Seq::empty());
}

/// A walk looks at everything in the selection, the first first, and at nothing twice: the next place
/// is the last of those left, until none is left or 20 000 files were found. Then, and only then, it
/// is over.
pub proof fn a_walk_looks_at_what_is_left(
    w: WalkView,
    selection: Seq<(Seq<char>, u64)>,
)
    ensures
        !w.truncated && w.todo.len() > 0 && w.out.len() < 20_000 ==> asked(w).1 == Some(
            w.todo[w.todo.len() - 1],
        ) && asked(w).0 == (WalkView { todo: w.todo.take(w.todo.len() - 1), ..w }),
        w.truncated || w.todo.len() == 0 ==> asked(w) == (w, None::<VisitView>),
        !w.truncated && w.todo.len() > 0 && w.out.len() >= 20_000 ==> asked(w) == (
            WalkView { truncated: true, ..w },
            None::<VisitView>,
        ),
        selection.len() > 0 ==> asked(started(selection)).1 == Some(
            VisitView { rel: selection[0].0, depth: 0, id: selection[0].1 },
        ),
        asked(started(Seq::empty())).1 is None,
        started(selection).todo.len() == selection.len(),
        started(selection).out.len() == 0,
{
    if w.todo.len() > 0 {
        assert(w.todo.drop_last() =~= w.todo.take(w.todo.len() - 1));
    }
}

} // verus!
