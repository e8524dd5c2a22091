//! Clipboard decisions, with loop suppression so a remote update isn't echoed back.
//!
//! Every machine both *sends* and *receives* clipboard content, so a naive "on change, broadcast"
//! monitor echoes forever: A copies, B sets it locally, B's monitor sees the change, B broadcasts,
//! A sets it, and so on. [`ClipState`] is a record of the last value **we put on the clipboard
//! ourselves** (locally or from a remote). The monitor only broadcasts what differs from it, and
//! every write, local or remote, updates it.

use crate::network::{Net, Outgoing};
use crate::protocol::{Message, MessageView};
use crate::text;
use crate::text::same;
use vstd::prelude::*;

verus! {

/// How often the local clipboard is polled, in milliseconds. Well below the time a user takes to
/// switch windows after a copy, and cheap enough (one pasteboard read) to run forever.
pub const POLL_MS: u64 = 200;

/// The last value this process put on the local clipboard, so the monitor can tell a *fresh*
/// copy from our own write.
#[derive(Debug, PartialEq)]
pub struct ClipState {
    pub text: Option<String>,
    pub files: Vec<String>,
    /// The pasteboard generation counter at the moment we last wrote to it (locally or from a
    /// remote). The monitor compares against the live counter rather than against contents where
    /// it can, so a second copy of the *same* file is still seen as a fresh copy.
    pub gen: Option<i64>,
}

/// What a [`ClipState`] holds.
#[verifier::ext_equal]
pub struct ClipView {
    pub text: Option<Seq<char>>,
    pub files: Seq<Seq<char>>,
    pub gen: Option<i64>,
}

/// A text that may be missing.
pub open spec fn opt_text(t: Option<String>) -> Option<Seq<char>> {
    match t {
        None => None,
        Some(s) => Some(s@),
    }
}

impl View for ClipState {
    type V = ClipView;

    open spec fn view(&self) -> ClipView {
        ClipView {
            text: opt_text(self.text),
            files: text::string_views(self.files@),
            gen: self.gen,
        }
    }
}

impl Default for ClipState {
    fn default() -> (r: ClipState)
        ensures
            r@ == (ClipView { text: None, files: Seq::empty(), gen: None }),
    {
        let r = ClipState { text: None, files: Vec::new(), gen: None };
        assert(r@ =~= (ClipView { text: None, files: Seq::empty(), gen: None }));
        r
    }
}

/// What the monitor makes of a look at the clipboard.
#[derive(Debug, PartialEq)]
pub enum ClipAction {
    /// Nothing new.
    Quiet,
    /// Files were copied: send them.
    SendFiles(Vec<String>),
    /// Text was copied: broadcast it.
    SendText(String),
}

/// What a [`ClipAction`] stands for.
pub enum ClipActionView {
    Quiet,
    SendFiles(Seq<Seq<char>>),
    SendText(Seq<char>),
}

impl View for ClipAction {
    type V = ClipActionView;

    open spec fn view(&self) -> ClipActionView {
        match *self {
            ClipAction::Quiet => ClipActionView::Quiet,
            ClipAction::SendFiles(f) => ClipActionView::SendFiles(text::string_views(f@)),
            ClipAction::SendText(t) => ClipActionView::SendText(t@),
        }
    }
}

/// Whether both counters are known and tell that nothing was written since.
pub open spec fn untouched(st: ClipView, gen: Option<i64>) -> bool {
    gen is Some && gen == st.gen
}

/// Whether both counters are known and tell that something was written since.
pub open spec fn rewritten(st: ClipView, gen: Option<i64>) -> bool {
    gen is Some && st.gen is Some && gen != st.gen
}

/// A look at the clipboard: the state afterwards and what is done. Files win over the text that
/// comes with them. Where a counter is missing, contents decide.
pub open spec fn looked(
    st: ClipView,
    gen: Option<i64>,
    text: Option<Seq<char>>,
    files: Seq<Seq<char>>,
) -> (ClipView, ClipActionView) {
    if untouched(st, gen) {
        (st, ClipActionView::Quiet)
    } else if files.len() > 0 {
        if rewritten(st, gen) || st.files != files {
            (ClipView { text, files, gen }, ClipActionView::SendFiles(files))
        } else {
            (st, ClipActionView::Quiet)
        }
    } else {
        match text {
            Some(t) => if rewritten(st, gen) || st.text != text {
                (ClipView { text, files: Seq::empty(), gen }, ClipActionView::SendText(t))
            } else {
                (st, ClipActionView::Quiet)
            },
            None => (ClipView { text: None, files: Seq::empty(), gen }, ClipActionView::Quiet),
        }
    }
}

/// Whether the clipboard has to be read at all: not where its generation counter says that nothing
/// was written since we last looked.
pub fn worth_reading(st: &ClipState, gen: Option<i64>) -> (r: bool)
    ensures
        r == !untouched(st@, gen),
{
    match (gen, st.gen) {
        (Some(g), Some(last)) => g != last,
        _ => true,
    }
}

/// Whether two lists hold the same texts in the same order.
pub fn same_list(a: &Vec<String>, b: &Vec<String>) -> (r: bool)
    ensures
        r == (text::string_views(a@) == text::string_views(b@)),
{
    let ghost (av, bv) = (text::string_views(a@), text::string_views(b@));
    if a.len() != b.len() {
        assert(av.len() != bv.len());
        return false;
    }
    let mut i: usize = 0;
    while i < a.len()
        invariant
            i <= a.len(),
            a.len() == b.len(),
            av == text::string_views(a@),
            bv == text::string_views(b@),
            forall|k: int| 0 <= k < i ==> av[k] == bv[k],
        decreases a.len() - i,
    {
        assert(av[i as int] == a[i as int]@);
        assert(bv[i as int] == b[i as int]@);
        if !same(a[i].as_str(), b[i].as_str()) {
            return false;
        }
        i += 1;
    }
    assert(av =~= bv);
    true
}

/// Copies a list of texts.
pub fn clone_list(v: &Vec<String>) -> (r: Vec<String>)
    ensures
        r@ == v@,
{
    let mut r: Vec<String> = Vec::new();
    let mut i: usize = 0;
    while i < v.len()
        invariant
            i <= v.len(),
            r@ == v@.take(i as int),
        decreases v.len() - i,
    {
        r.push(v[i].clone());
        i += 1;
        assert(r@ =~= v@.take(i as int));
    }
    assert(r@ =~= v@);
    r
}

/// Take in one look at the local clipboard: its generation counter (on platforms that have one),
/// its text and its files.
///
/// Text and files are read *together*. A single paste is one pasteboard state that happens to have
/// several representations: copying a file in Finder puts both a file URL **and** a plain-text
/// form (usually the file name) on the pasteboard. Comparing the two independently makes them
/// fight. So **files win**, and the text seen alongside is recorded, so that it cannot be mistaken
/// for a fresh copy.
pub fn look(st: &mut ClipState, gen: Option<i64>, text: Option<String>, files: Vec<String>) -> (r: ClipAction)
    ensures
        (final(st)@, r@) == looked(
            old(st)@,
            gen,
            opt_text(text),
            text::string_views(files@),
        ),
{
    let ghost s0 = st@;
    let ghost want = looked(s0, gen, opt_text(text), text::string_views(files@));
    if !worth_reading(st, gen) {
        return ClipAction::Quiet;
    }
    let counted = gen.is_some() && st.gen.is_some();
    if files.len() > 0 {
        if counted || !same_list(&st.files, &files) {
            st.files = clone_list(&files);
            st.text = text;
            st.gen = gen;
            assert(st@ =~= want.0);
            return ClipAction::SendFiles(files);
        }
        return ClipAction::Quiet;
    }
    match text {
        Some(t) => {
            let known = match &st.text {
                Some(old_text) => same(old_text.as_str(), t.as_str()),
                None => false,
            };
            if counted || !known {
                st.text = Some(t.clone());
                st.files = Vec::new();
                st.gen = gen;
                assert(st@ =~= want.0);
                return ClipAction::SendText(t);
            }
            ClipAction::Quiet
        },
        None => {
            st.gen = gen;
            st.files = Vec::new();
            st.text = None;
            assert(st@ =~= want.0);
            ClipAction::Quiet
        },
    }
}

/// Record a remote text as "already seen" *before* writing it, so our own monitor does not
/// immediately broadcast it back to the machine it came from.
pub fn apply_remote_text(st: &mut ClipState, text: &str)
    ensures
        final(st)@ == (ClipView { text: Some(text@), files: Seq::empty(), ..old(st)@ }),
        forall|w: ClipView|
            w.text == final(st)@.text && w.files == final(st)@.files ==> (#[trigger] looked(
                w,
                w.gen,
                Some(text@),
                Seq::empty(),
            )).1 is Quiet,
{
    st.text = Some(text.to_owned());
    st.files = Vec::new();
    assert(st@ =~= (ClipView { text: Some(text@), files: Seq::empty(), ..old(st)@ }));
}

/// Our own write bumped the generation counter; remember the new value so the monitor sees it as
/// "ours" and stays quiet.
pub fn note_written(st: &mut ClipState, gen: Option<i64>)
    ensures
        final(st)@ == (ClipView { gen, ..old(st)@ }),
{
    st.gen = gen;
    assert(st@ =~= (ClipView { gen, ..old(st)@ }));
}

/// Same as [`apply_remote_text`] for a finished file transfer: remember the paths that were put on
/// the local pasteboard, and the generation counter after that.
pub fn apply_remote_files(st: &mut ClipState, paths: &Vec<String>, gen: Option<i64>)
    ensures
        final(st)@ == (ClipView { text: None, files: text::string_views(paths@), gen }),
        forall|beside: Option<Seq<char>>|
            paths@.len() > 0 ==> (#[trigger] looked(
                final(st)@,
                gen,
                beside,
                text::string_views(paths@),
            )).1 is Quiet,
{
    st.files = clone_list(paths);
    st.text = None;
    st.gen = gen;
    assert(st@ =~= (ClipView { text: None, files: text::string_views(paths@), gen }));
}

/// Re-broadcast a text clipboard update received from one peer to all the others (hub role), and
/// record it as seen.
pub fn relay(st: &mut ClipState, net: &Net, text: &str, from: &str) -> (r: Vec<Outgoing>)
    ensures
        final(st)@ == (ClipView { text: Some(text@), files: Seq::empty(), ..old(st)@ }),
        crate::network::outgoing_views(r@) == crate::network::for_all_but(
            net@,
            MessageView::Clipboard { text: text@ },
            Some(from@),
        ),
        forall|w: ClipView|
            w.text == final(st)@.text && w.files == final(st)@.files ==> (#[trigger] looked(
                w,
                w.gen,
                Some(text@),
                Seq::empty(),
            )).1 is Quiet,
{
    apply_remote_text(st, text);
    net.broadcast_clipboard(text, Some(from))
}

/// Is `msg` a clipboard frame?
pub fn is_clipboard(msg: &Message) -> (r: bool)
    ensures
        r == (msg@ is Clipboard),
{
    match msg {
        Message::Clipboard { .. } => true,
        _ => false,
    }
}

/// A text that came from another machine is never sent back: looking at the clipboard after it was
/// written there is quiet, with a generation counter or without, for as long as nothing else is
/// written.
pub proof fn remote_text_is_not_echoed(st: ClipView, t: Seq<char>, gen: Option<i64>)
    ensures
        ({
            let w = ClipView { text: Some(t), files: Seq::empty(), gen, ..st };
            looked(w, gen, Some(t), Seq::empty()) == (w, ClipActionView::Quiet)
        }),
{
}

/// Files that came from another machine are never sent back, whatever text the pasteboard shows
/// beside them.
pub proof fn remote_files_are_not_echoed(
    files: Seq<Seq<char>>,
    gen: Option<i64>,
    beside: Option<Seq<char>>,
)
    requires
        files.len() > 0,
    ensures
        ({
            let w = ClipView { text: None, files, gen };
            looked(w, gen, beside, files) == (w, ClipActionView::Quiet)
        }),
{
}

/// What was sent once is not sent again until something is written: a second look at the same
/// clipboard is quiet.
pub proof fn nothing_is_sent_twice(
    st: ClipView,
    gen: Option<i64>,
    text: Option<Seq<char>>,
    files: Seq<Seq<char>>,
)
    ensures
        ({
            let (w, first) = looked(st, gen, text, files);
            looked(w, gen, text, files).1 == ClipActionView::Quiet
        }),
{
}

/// A fresh copy is always sent, even of what was there before, where the platform counts its
/// writes; files win over text.
pub proof fn a_fresh_copy_is_sent(
    st: ClipView,
    gen: Option<i64>,
    text: Option<Seq<char>>,
    files: Seq<Seq<char>>,
)
    requires
        gen is Some,
        st.gen is Some,
        gen != st.gen,
    ensures
        looked(st, gen, text, files).1 == (if files.len() > 0 {
            ClipActionView::SendFiles(files)
        } else {
            match text {
                Some(t) => ClipActionView::SendText(t),
                None => ClipActionView::Quiet,
            }
        }),
{
}

/// A fresh text is sent, with a generation counter or without, also as the first thing that is ever
/// seen: where the counters do not say that nothing was written, there are no files, and the text
/// is not the one remembered, it goes out and is remembered with the counter.
pub proof fn a_fresh_text_is_sent(st: ClipView, gen: Option<i64>, t: Seq<char>)
    requires
        gen is None || gen != st.gen,
        st.text != Some(t),
    ensures
        looked(st, gen, Some(t), Seq::empty()) == (
            ClipView { text: Some(t), files: Seq::empty(), gen },
            ClipActionView::SendText(t),
        ),
{
}

/// Fresh files are sent likewise, all of them and in their order, whatever text is beside them; the
/// text is remembered too, so that it is not sent later.
pub proof fn fresh_files_are_sent(
    st: ClipView,
    gen: Option<i64>,
    beside: Option<Seq<char>>,
    files: Seq<Seq<char>>,
)
    requires
        gen is None || gen != st.gen,
        files.len() > 0,
        st.files != files,
    ensures
        looked(st, gen, beside, files) == (
            ClipView { text: beside, files, gen },
            ClipActionView::SendFiles(files),
        ),
{
}

/// Nothing is sent that is no news, and nothing is forgotten: neither where the counter stands
/// where it stood, whatever is on the clipboard, nor, where a counter is missing, where the
/// clipboard shows what is remembered.
pub proof fn no_news_stays_quiet(
    st: ClipView,
    gen: Option<i64>,
    text: Option<Seq<char>>,
    files: Seq<Seq<char>>,
)
    requires
        ({
            ||| gen is Some && gen == st.gen
            ||| (gen is None || st.gen is None) && files.len() > 0 && files == st.files
            ||| (gen is None || st.gen is None) && files.len() == 0 && text is Some && text
                == st.text
        }),
    ensures
        looked(st, gen, text, files) == (st, ClipActionView::Quiet),
{
}

/// An emptied clipboard sends nothing, and what was on it before counts as fresh when it is copied
/// again.
pub proof fn an_emptied_clipboard_is_forgotten(
    st: ClipView,
    gen: Option<i64>,
    later: Option<i64>,
    t: Seq<char>,
    files: Seq<Seq<char>>,
)
    requires
        gen is None || gen != st.gen,
        later is None || later != gen,
        files.len() > 0,
    ensures
        ({
            let (w, first) = looked(st, gen, None, Seq::empty());
            &&& first is Quiet
            &&& looked(w, later, Some(t), Seq::empty()).1 == ClipActionView::SendText(t)
            &&& looked(w, later, None, files).1 == ClipActionView::SendFiles(files)
        }),
{
}

/// One copy after the other is sent: another text after a text, files after a text, and a text
/// after files, but not the text that was beside them.
pub proof fn one_copy_after_the_other_is_sent(
    st: ClipView,
    a: Seq<char>,
    b: Seq<char>,
    files: Seq<Seq<char>>,
)
    requires
        a != b,
        st.text != Some(a),
        files.len() > 0,
        st.files != files,
    ensures
        ({
            let w = looked(st, None, Some(a), Seq::empty()).0;
            &&& looked(w, None, Some(b), Seq::empty()).1 == ClipActionView::SendText(b)
            &&& looked(w, None, Some(b), files).1 == ClipActionView::SendFiles(files)
        }),
        ({
            let w = looked(st, None, Some(a), files).0;
            &&& looked(w, None, Some(b), Seq::empty()).1 == ClipActionView::SendText(b)
            &&& looked(w, None, Some(a), Seq::empty()).1 is Quiet
        }),
{
}

} // verus!
