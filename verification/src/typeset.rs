//! Fitting text into a given width: shortening a line, and breaking a text into lines. Widths are
//! measured by whoever draws the text and given in any unit.

use crate::text;
use vstd::prelude::*;
use vstd::string::*;

verus! {

/// How many characters of a line stay in front of the ellipsis: as many as fit. `widths[k]` is the
/// width of the first `k` characters with the ellipsis behind them.
pub open spec fn kept(widths: Seq<u32>, max: u32) -> int
    decreases widths.len(),
{
    if widths.len() == 0 {
        0
    } else if widths.last() <= max {
        widths.len() - 1
    } else {
        kept(widths.drop_last(), max)
    }
}

/// A line that is `full` wide, shortened if that is too wide.
pub open spec fn shortened(s: Seq<char>, full: u32, widths: Seq<u32>, max: u32) -> Seq<char> {
    if full <= max {
        s
    } else {
        s.take(kept(widths, max)) + "…"@
    }
}

/// Shorten `s`, which is `full` wide, with a trailing ellipsis until it fits `max`. `widths[k]` is
/// the width of the first `k` characters with the ellipsis behind them.
///
/// Anything painted straight onto a painter has to be measured by hand; otherwise a long machine
/// name silently runs off the edge of its box.
pub fn ellipsize(s: &str, full: u32, widths: &Vec<u32>, max: u32) -> (r: String)
    requires
        widths@.len() <= s@.len(),
    ensures
        r@ == shortened(s@, full, widths@, max),
{
    if full <= max {
        return s.to_owned();
    }
    let v = text::chars_of(s);
    let mut k: usize = widths.len();
    assert(widths@.take(k as int) =~= widths@);
    while k > 0 && widths[k - 1] > max
        invariant
            k <= widths@.len(),
            kept(widths@.take(k as int), max) == kept(widths@, max),
        decreases k,
    {
        assert(widths@.take(k as int).drop_last() =~= widths@.take(k as int - 1));
        k -= 1;
    }
    let n: usize = if k > 0 {
        k - 1
    } else {
        0
    };
    let mut r = text::string_of_range(&v, 0, n);
    r.append("…");
    assert(r@ =~= shortened(s@, full, widths@, max));
    r
}

/// A shortened line fits, if so much as the bare ellipsis does; and it is the longest that does.
pub proof fn a_shortened_line_fits(widths: Seq<u32>, max: u32)
    requires
        widths.len() > 0,
        widths[0] <= max,
    ensures
        0 <= kept(widths, max) < widths.len(),
        widths[kept(widths, max)] <= max,
        forall|k: int| kept(widths, max) < k < widths.len() ==> #[trigger] widths[k] > max,
    decreases widths.len(),
{
    if widths.last() > max {
        let rest = widths.drop_last();
        assert(widths.len() > 1);
        assert(rest[0] == widths[0]);
        a_shortened_line_fits(rest, max);
        assert forall|k: int| kept(widths, max) < k < widths.len() implies #[trigger] widths[k]
            > max by {
            if k < rest.len() {
                assert(rest[k] == widths[k]);
            }
        }
        assert(rest[kept(rest, max)] == widths[kept(rest, max)]);
    }
}

/// A text that is being broken into lines.
#[derive(Debug, PartialEq)]
pub struct Wrap {
    /// The lines that are full.
    pub lines: Vec<String>,
    /// The line that is being filled.
    pub current: Vec<char>,
}

/// What a [`Wrap`] holds.
#[verifier::ext_equal]
pub struct WrapView {
    pub lines: Seq<Seq<char>>,
    pub current: Seq<char>,
}

impl View for Wrap {
    type V = WrapView;

    open spec fn view(&self) -> WrapView {
        WrapView { lines: text::string_views(self.lines@), current: self.current@ }
    }
}

/// The last space of a line that leaves something in front of it; 0 if there is none.
pub open spec fn last_space(line: Seq<char>) -> int
    decreases line.len(),
{
    if line.len() <= 1 {
        0
    } else if line.last() == ' ' {
        line.len() - 1
    } else {
        last_space(line.drop_last())
    }
}

/// A text with one more character, given whether the current line fits with it. Where it does not,
/// the line is broken at its last space if that leaves something in front of it, and right here
/// otherwise. A line that is empty takes the character in any case.
pub open spec fn wrapped(w: WrapView, c: char, fits: bool) -> WrapView {
    let i = last_space(w.current);
    if fits || w.current.len() == 0 {
        WrapView { current: w.current.push(c), ..w }
    } else if i > 0 {
        WrapView {
            lines: w.lines.push(w.current.take(i)),
            current: w.current.skip(i + 1).push(c),
        }
    } else {
        WrapView { lines: w.lines.push(w.current), current: seq![c] }
    }
}

/// The lines of a text that is complete.
pub open spec fn lines_of(w: WrapView) -> Seq<Seq<char>> {
    if w.current.len() > 0 {
        w.lines.push(w.current)
    } else {
        w.lines
    }
}

/// A whole text, broken into lines: `fits[k]` tells whether the line that was current then fits with
/// the character number `k`.
pub open spec fn wrapped_all(s: Seq<char>, fits: Seq<bool>) -> WrapView
    decreases s.len(),
{
    if s.len() == 0 {
        WrapView { lines: Seq::empty(), current: Seq::empty() }
    } else {
        wrapped(wrapped_all(s.drop_last(), fits), s.last(), fits[s.len() - 1])
    }
}

proof fn lemma_last_space(line: Seq<char>)
    ensures
        0 <= last_space(line),
        last_space(line) > 0 ==> last_space(line) < line.len() && line[last_space(line)] == ' ',
    decreases line.len(),
{
    if line.len() > 1 && line.last() != ' ' {
        lemma_last_space(line.drop_last());
    }
}

impl Wrap {
    /// No text yet.
    pub fn new() -> (r: Wrap)
        ensures
            r@ == (WrapView { lines: Seq::empty(), current: Seq::empty() }),
    {
        let r = Wrap { lines: Vec::new(), current: Vec::new() };
        assert(r@ =~= (WrapView { lines: Seq::empty(), current: Seq::empty() }));
        r
    }

    /// The current line with the character `c` behind it, to be measured.
    pub fn candidate(&self, c: char) -> (r: String)
        ensures
            r@ == self@.current.push(c),
    {
        let mut r = text::string_of(&self.current);
        r.push(c);
        r
    }

    /// The lines of the text, once all of it was taken in.
    pub fn finish(self) -> (r: Vec<String>)
        ensures
            text::string_views(r@) == lines_of(self@),
    {
        let mut r = self.lines;
        if self.current.len() > 0 {
            let ghost was = text::string_views(r@);
            let last = text::string_of(&self.current);
            r.push(last);
            assert(text::string_views(r@) =~= was.push(last@));
        }
        r
    }
}

fn find_space(line: &Vec<char>) -> (r: usize)
    ensures
        r == last_space(line@),
{
    let mut i: usize = line.len();
    assert(line@.take(i as int) =~= line@);
    while i > 1
        invariant
            i <= line@.len(),
            last_space(line@.take(i as int)) == last_space(line@),
        decreases i,
    {
        if line[i - 1] == ' ' {
            return i - 1;
        }
        assert(line@.take(i as int).drop_last() =~= line@.take(i as int - 1));
        i -= 1;
    }
    0
}

/// Wrap a text into lines that fit, one character at a time, honouring both scripts: `fits` tells
/// whether the [candidate](Wrap::candidate) for the character does.
///
/// Splitting on spaces only works for latin text. Chinese and Japanese are written without spaces
/// between words, so a space-based wrapper treats an entire sentence as one token and emits a single
/// line that runs off the edge of its box. This walks characters instead, and merely *prefers* to
/// break at the last space when the line has one, which keeps English looking right without mangling
/// CJK.
pub fn wrap_step(w: &mut Wrap, c: char, fits: bool)
    ensures
        final(w)@ == wrapped(old(w)@, c, fits),
{
    let ghost was = w@;
    if fits || w.current.len() == 0 {
        w.current.push(c);
        assert(w@ =~= wrapped(was, c, fits));
        return;
    }
    let i: usize = find_space(&w.current);
    proof {
        lemma_last_space(was.current);
    }
    let mut rest: Vec<char> = Vec::new();
    let line = if i > 0 {
        let mut k: usize = i + 1;
        while k < w.current.len()
            invariant
                i < k <= w.current@.len(),
                *w == *old(w),
                rest@ == w.current@.subrange(i as int + 1, k as int),
            decreases w.current.len() - k,
        {
            rest.push(w.current[k]);
            k += 1;
            assert(rest@ =~= w.current@.subrange(i as int + 1, k as int));
        }
        assert(rest@ =~= was.current.skip(i as int + 1));
        text::string_of_range(&w.current, 0, i)
    } else {
        text::string_of(&w.current)
    };
    rest.push(c);
    w.lines.push(line);
    w.current = rest;
    proof {
        assert(w@.lines =~= wrapped(was, c, fits).lines);
        assert(w@ =~= wrapped(was, c, fits));
    }
}

/// What a text says, its spaces left out.
pub open spec fn marks(s: Seq<char>) -> Seq<char> {
    s.filter(|c: char| c != ' ')
}

/// What some lines say one after the other, their spaces left out.
pub open spec fn all_marks(lines: Seq<Seq<char>>) -> Seq<char>
    decreases lines.len(),
{
    if lines.len() == 0 {
        Seq::empty()
    } else {
        all_marks(lines.drop_last()) + marks(lines.last())
    }
}

proof fn lemma_marks_add(a: Seq<char>, b: Seq<char>)
    ensures
        marks(a + b) == marks(a) + marks(b),
    decreases b.len(),
{
    reveal(Seq::filter);
    if b.len() == 0 {
        assert(a + b =~= a);
        assert(marks(a) + marks(b) =~= marks(a));
    } else {
        lemma_marks_add(a, b.drop_last());
        assert((a + b).drop_last() =~= a + b.drop_last());
        assert((a + b).last() == b.last());
        assert(marks(a + b) =~= marks(a) + marks(b));
    }
}

/// What the lines of a text say, its spaces left out.
spec fn said(w: WrapView) -> Seq<char> {
    all_marks(w.lines) + marks(w.current)
}

proof fn lemma_step_loses_nothing(w: WrapView, c: char, fits: bool)
    ensures
        said(wrapped(w, c, fits)) == said(w) + marks(seq![c]),
{
    let v = wrapped(w, c, fits);
    lemma_last_space(w.current);
    let i = last_space(w.current);
    if fits || w.current.len() == 0 {
        lemma_marks_add(w.current, seq![c]);
        assert(w.current + seq![c] =~= w.current.push(c));
        assert(said(v) =~= said(w) + marks(seq![c]));
    } else if i > 0 {
        let (front, rest) = (w.current.take(i), w.current.skip(i + 1));
        assert(w.current =~= front + seq![' '] + rest);
        lemma_marks_add(front + seq![' '], rest);
        lemma_marks_add(front, seq![' ']);
        assert(marks(seq![' ']) =~= Seq::<char>::empty()) by {
            reveal_with_fuel(Seq::filter, 2);
            assert(seq![' '].drop_last() =~= Seq::<char>::empty());
        }
        lemma_marks_add(rest, seq![c]);
        assert(rest + seq![c] =~= rest.push(c));
        assert(v.lines.drop_last() =~= w.lines);
        assert(said(v) =~= said(w) + marks(seq![c]));
    } else {
        assert(v.lines.drop_last() =~= w.lines);
        assert(said(v) =~= said(w) + marks(seq![c]));
    }
}

proof fn lemma_nothing_lost(s: Seq<char>, fits: Seq<bool>)
    ensures
        said(wrapped_all(s, fits)) == marks(s),
    decreases s.len(),
{
    if s.len() == 0 {
        reveal(Seq::filter);
        assert(said(wrapped_all(s, fits)) =~= Seq::<char>::empty());
    } else {
        lemma_nothing_lost(s.drop_last(), fits);
        let w = wrapped_all(s.drop_last(), fits);
        lemma_step_loses_nothing(w, s.last(), fits[s.len() - 1]);
        lemma_marks_add(s.drop_last(), seq![s.last()]);
        assert(s.drop_last() + seq![s.last()] =~= s);
    }
}

/// Breaking a text into lines loses no character but spaces, adds none and keeps their order,
/// whatever fits and what does not.
pub proof fn wrapping_loses_nothing(s: Seq<char>, fits: Seq<bool>)
    ensures
        all_marks(lines_of(wrapped_all(s, fits))) == marks(s),
{
    lemma_nothing_lost(s, fits);
    let w = wrapped_all(s, fits);
    if w.current.len() > 0 {
        assert(lines_of(w).drop_last() =~= w.lines);
    } else {
        reveal(Seq::filter);
        assert(said(w) =~= all_marks(w.lines));
    }
}

/// A line is broken only where it has to be: a character that fits joins it, and one that does not
/// ends it, at its last space where there is one behind some text, so that a word stays whole.
pub proof fn lines_are_broken_only_where_they_must(w: WrapView, c: char)
    ensures
        wrapped(w, c, true).lines == w.lines,
        wrapped(w, c, true).current == w.current.push(c),
        w.current.len() > 0 ==> {
            let x = wrapped(w, c, false);
            let line = x.lines[w.lines.len() as int];
            let n = line.len() as int;
            &&& x.lines.len() == w.lines.len() + 1
            &&& x.lines.take(w.lines.len() as int) == w.lines
            &&& 0 < n <= w.current.len()
            &&& line == w.current.take(n)
            &&& n < w.current.len() ==> w.current[n] == ' ' && x.current == w.current.skip(
                n + 1,
            ).push(c)
            &&& n == w.current.len() ==> x.current == seq![c]
            &&& forall|i: int| n < i < w.current.len() ==> #[trigger] w.current[i] != ' '
            &&& n == w.current.len() ==> forall|i: int|
                0 < i < n ==> #[trigger] w.current[i] != ' '
        },
{
    lemma_last_space(w.current);
    lemma_no_later_space(w.current);
    if w.current.len() > 0 {
        let x = wrapped(w, c, false);
        assert(x.lines.take(w.lines.len() as int) =~= w.lines);
        assert(w.current.take(w.current.len() as int) =~= w.current);
    }
}

proof fn lemma_no_later_space(line: Seq<char>)
    ensures
        forall|i: int| 0 < i < line.len() && last_space(line) < i ==> #[trigger] line[i] != ' ',
    decreases line.len(),
{
    if line.len() > 1 && line.last() != ' ' {
        let t = line.drop_last();
        lemma_no_later_space(t);
        assert forall|i: int| 0 < i < line.len() && last_space(line) < i implies #[trigger] line[i]
            != ' ' by {
            if i < t.len() {
                assert(t[i] == line[i]);
            }
        }
    }
}

} // verus!
