//! What the window decides: which page it shows, which messages it shows for how long, when it
//! refreshes what it shows, and what it says about the connection and about who has control.

use crate::geom;
use crate::network::{Net, NetView};
use crate::text;
use crate::text::same;
use vstd::prelude::*;
use vstd::string::*;

verus! {

/// How many notifications wait for the window at most.
pub const MAX_NOTICES: usize = 8;

/// How long, in milliseconds, a transient message stays.
pub const TOAST_MS: u64 = 3000;

/// How often, in milliseconds, the layout is pushed to the secondaries and the activity list is read
/// again.
pub const REFRESH_MS: u64 = 2000;

/// Notifications queued by background threads (file transfers) for the window to show. The window
/// can only be touched from its own thread, so workers leave their messages here instead.
#[derive(Debug, PartialEq)]
pub struct Notices {
    pub queue: Vec<String>,
}

impl View for Notices {
    type V = Seq<Seq<char>>;

    open spec fn view(&self) -> Seq<Seq<char>> {
        text::string_views(self.queue@)
    }
}

impl Notices {
    /// No notification.
    pub fn new() -> (r: Notices)
        ensures
            r@ == Seq::<Seq<char>>::empty(),
    {
        let r = Notices { queue: Vec::new() };
        assert(r@ =~= Seq::empty());
        r
    }
}

/// The queue with one more message, if there is room for it.
pub open spec fn noted(q: Seq<Seq<char>>, msg: Seq<char>) -> Seq<Seq<char>> {
    if q.len() < MAX_NOTICES {
        q.push(msg)
    } else {
        q
    }
}

/// Queue a transient message for the window. A stalled window never makes messages pile up.
pub fn notify(notices: &mut Notices, msg: &str)
    ensures
        final(notices)@ == noted(old(notices)@, msg@),
{
    if notices.queue.len() < MAX_NOTICES {
        let ghost was = notices@;
        notices.queue.push(msg.to_owned());
        assert(notices@ =~= was.push(msg@));
    }
}

/// However many messages are queued, no more than the limit wait.
pub proof fn notices_are_bounded(q: Seq<Seq<char>>, msg: Seq<char>)
    requires
        q.len() <= MAX_NOTICES,
    ensures
        noted(q, msg).len() <= MAX_NOTICES,
        q.is_prefix_of(noted(q, msg)),
{
}

/// Take everything queued since the last call (called once per frame).
pub fn take_notifications(notices: &mut Notices) -> (r: Vec<String>)
    ensures
        text::string_views(r@) == old(notices)@,
        final(notices)@ == Seq::<Seq<char>>::empty(),
{
    let mut r: Vec<String> = Vec::new();
    std::mem::swap(&mut r, &mut notices.queue);
    assert(notices@ =~= Seq::empty());
    r
}

/// A message that is shown for a while, and since when, in milliseconds.
#[derive(Debug, PartialEq)]
pub struct Toast {
    pub at: u64,
    pub msg: String,
}

/// What a [`Toast`] holds, if there is one.
pub open spec fn toast_view(t: Option<Toast>) -> Option<(u64, Seq<char>)> {
    match t {
        None => None,
        Some(t) => Some((t.at, t.msg@)),
    }
}

/// The message that is shown at the time `now`: the last one queued; else the one that is shown
/// already, until its time is over.
pub open spec fn toast_after(
    toast: Option<(u64, Seq<char>)>,
    q: Seq<Seq<char>>,
    now: u64,
) -> Option<(u64, Seq<char>)> {
    if q.len() > 0 {
        Some((now, q.last()))
    } else {
        match toast {
            Some(t) if now - t.0 <= TOAST_MS => Some(t),
            _ => None,
        }
    }
}

/// Drops the transient message once its time is over, and shows the latest notification that the
/// background threads left. Their queue is empty afterwards.
pub fn drain_notifications(toast: Option<Toast>, notices: &mut Notices, now: u64) -> (r: Option<Toast>)
    ensures
        toast_view(r) == toast_after(toast_view(toast), old(notices)@, now),
        final(notices)@ == Seq::<Seq<char>>::empty(),
{
    let mut q = take_notifications(notices);
    let ghost before = text::string_views(q@);
    match q.pop() {
        Some(msg) => {
            assert(before.last() == msg@);
            Some(Toast { at: now, msg })
        },
        None => {
            match toast {
                Some(t) => {
                    if now > t.at && now - t.at > TOAST_MS {
                        None
                    } else {
                        Some(t)
                    }
                },
                None => None,
            }
        },
    }
}

/// Whether something that was last done at `last` is due again at the time `now`.
pub open spec fn is_due(last: Option<u64>, now: u64) -> bool {
    match last {
        None => true,
        Some(t) => now - t >= REFRESH_MS,
    }
}

/// Whether the layout has to be pushed, or the activity list read, again.
pub fn due(last: Option<u64>, now: u64) -> (r: bool)
    ensures
        r == is_due(last, now),
{
    match last {
        None => true,
        Some(t) => now >= t && now - t >= REFRESH_MS,
    }
}

/// The page currently shown in the main area.
#[derive(Debug, Clone, Copy, PartialEq, Eq, Structural)]
pub enum Page {
    Connection,
    Layout,
    Status,
    Discovered,
}

/// The page that a machine of the role `mode` shows when `page` is selected. The discovery page only
/// makes sense for a secondary (a primary *is* the host); if the role was switched while that page
/// was open, the window falls back to the connection page.
pub fn page_for(page: Page, mode: &str) -> (r: Page)
    ensures
        r == (if page == Page::Discovered && mode@ != "secondary"@ {
            Page::Connection
        } else {
            page
        }),
{
    if page == Page::Discovered && !same(mode, "secondary") {
        Page::Connection
    } else {
        page
    }
}

/// How the connection stands.
#[derive(Debug, Clone, Copy, PartialEq, Eq, Structural)]
pub enum Status {
    /// This machine is the hub.
    Serving,
    /// This machine is linked to the hub.
    Connected,
    /// There is no connection.
    Idle,
}

/// How the connection stands.
pub fn status(net: &Net) -> (r: Status)
    ensures
        r == (match net@ {
            NetView::Primary(_) => Status::Serving,
            NetView::Secondary => Status::Connected,
            NetView::Idle => Status::Idle,
        }),
{
    match net {
        Net::Primary { .. } => Status::Serving,
        Net::Secondary => Status::Connected,
        Net::Idle => Status::Idle,
    }
}

/// The error that the banner still shows. Discovery may have linked this machine in the background;
/// a stale error then goes away, so that the window reflects the live state.
pub fn standing_error(net: &Net, error: Option<String>) -> (r: Option<String>)
    ensures
        (match r {
            None => None,
            Some(e) => Some(e@),
        }) == (match error {
            Some(e) if net@ !is Secondary => Some(e@),
            _ => None,
        }),
{
    match net {
        Net::Secondary => None,
        _ => error,
    }
}

/// The number beside a navigation entry; none where there is nothing to count.
pub fn badge(count: usize) -> (r: Option<String>)
    ensures
        (match r {
            None => None,
            Some(b) => Some(b@),
        }) == (if count == 0 {
            None
        } else {
            Some(text::decimal(count as nat))
        }),
{
    if count > 0 {
        Some(text::decimal_string(count as u64))
    } else {
        None
    }
}

/// A template with `value` in place of every pair of braces.
pub open spec fn filled(template: Seq<char>, value: Seq<char>) -> Seq<char>
    decreases template.len(),
{
    if template.len() == 0 {
        Seq::empty()
    } else if template.len() > 1 && template[0] == '{' && template[1] == '}' {
        value + filled(template.skip(2), value)
    } else {
        seq![template[0]] + filled(template.skip(1), value)
    }
}

/// The template with `value` in place of every pair of braces.
pub fn fill(template: &str, value: &str) -> (r: String)
    ensures
        r@ == filled(template@, value@),
{
    let v = text::chars_of(template);
    let mut r = String::new();
    let mut i: usize = 0;
    assert(v@.skip(0) =~= template@);
    while i < v.len()
        invariant
            i <= v.len(),
            v@ == template@,
            r@ + filled(v@.skip(i as int), value@) == filled(template@, value@),
        decreases v.len() - i,
    {
        let ghost rest = v@.skip(i as int);
        let ghost was = r@;
        assert(rest[0] == v@[i as int]);
        if v.len() - i > 1 && v[i] == '{' && v[i + 1] == '}' {
            r.append(value);
            assert(rest[1] == '}');
            assert(rest.skip(2) =~= v@.skip(i as int + 2));
            assert(was + (value@ + filled(rest.skip(2), value@)) =~= r@ + filled(
                rest.skip(2),
                value@,
            ));
            i += 2;
        } else {
            r.push(v[i]);
            assert(rest.skip(1) =~= v@.skip(i as int + 1));
            assert(rest.len() > 1 ==> rest[1] == v@[i as int + 1]);
            assert(was + (seq![rest[0]] + filled(rest.skip(1), value@)) =~= r@ + filled(
                rest.skip(1),
                value@,
            ));
            i += 1;
        }
    }
    assert(filled(v@.skip(i as int), value@) =~= Seq::empty());
    assert(r@ =~= filled(template@, value@));
    r
}

/// Who has control, in words: the primary names the machine that it drives; everywhere else, and
/// while nothing is driven, control is local.
pub fn control_line(mode: &str, driven: Option<&str>, remote: &str, local: &str) -> (r: String)
    ensures
        r@ == (match driven {
            Some(name) if mode@ == "primary"@ => filled(remote@, name@),
            _ => local@,
        }),
{
    if same(mode, "primary") {
        match driven {
            Some(name) => fill(remote, name),
            None => local.to_owned(),
        }
    } else {
        local.to_owned()
    }
}

/// Whether a character counts as white space.
pub open spec fn is_blank(c: char) -> bool {
    let n = c as u32;
    9 <= n <= 13 || n == 0x20 || n == 0x85 || n == 0xa0 || n == 0x1680 || 0x2000 <= n <= 0x200a || n
        == 0x2028 || n == 0x2029 || n == 0x202f || n == 0x205f || n == 0x3000
}

fn blank(c: char) -> (r: bool)
    ensures
        r == is_blank(c),
{
    let n: u32 = c as u32;
    (9 <= n && n <= 13) || n == 0x20 || n == 0x85 || n == 0xa0 || n == 0x1680 || (0x2000 <= n && n
        <= 0x200a) || n == 0x2028 || n == 0x2029 || n == 0x202f || n == 0x205f || n == 0x3000
}

/// A text without the white space in front.
pub open spec fn from_first_mark(s: Seq<char>) -> Seq<char> {
    s.skip(geom::first_where(s, |c: char| !is_blank(c)))
}

/// A text without the white space at its end.
pub open spec fn to_last_mark(s: Seq<char>) -> Seq<char>
    decreases s.len(),
{
    if s.len() > 0 && is_blank(s.last()) {
        to_last_mark(s.drop_last())
    } else {
        s
    }
}

/// A text without the white space at both ends.
pub open spec fn trimmed(s: Seq<char>) -> Seq<char> {
    to_last_mark(from_first_mark(s))
}

/// The text without the white space at both ends.
pub fn trim(s: &str) -> (r: String)
    ensures
        r@ == trimmed(s@),
{
    let v = text::chars_of(s);
    let ghost mark = |c: char| !is_blank(c);
    let mut from: usize = 0;
    while from < v.len() && blank(v[from])
        invariant
            from <= v.len(),
            mark == (|c: char| !is_blank(c)),
            forall|j: int| 0 <= j < from ==> !mark(#[trigger] v@[j]),
        decreases v.len() - from,
    {
        from += 1;
    }
    proof {
        geom::lemma_first_where_unique(v@, mark, from as int);
    }
    let mut to: usize = v.len();
    assert(v@.subrange(from as int, to as int) =~= from_first_mark(s@));
    while to > from && blank(v[to - 1])
        invariant
            from <= to <= v.len(),
            to_last_mark(v@.subrange(from as int, to as int)) == trimmed(s@),
        decreases to - from,
    {
        assert(v@.subrange(from as int, to as int).drop_last() =~= v@.subrange(
            from as int,
            to as int - 1,
        ));
        to -= 1;
    }
    text::string_of_range(&v, from, to)
}

/// The address to connect to, from what the user typed: without the white space around it. None if
/// nothing is left.
pub fn connect_target(addr: &str) -> (r: Option<String>)
    ensures
        (match r {
            None => None,
            Some(a) => Some(a@),
        }) == (if trimmed(addr@).len() == 0 {
            None
        } else {
            Some(trimmed(addr@))
        }),
{
    let a = trim(addr);
    if a.as_str().is_empty() {
        None
    } else {
        Some(a)
    }
}

/// Where the guidance for missing input permissions stands: whether the user sent it away, and
/// whether the system was asked to show its own prompt already.
#[derive(Debug, Clone, Copy, PartialEq, Eq, Structural)]
pub struct Permission {
    pub dismissed: bool,
    pub prompted: bool,
}

impl Permission {
    /// Nothing was asked yet.
    pub fn new() -> (r: Permission)
        ensures
            r == (Permission { dismissed: false, prompted: false }),
    {
        Permission { dismissed: false, prompted: false }
    }

    /// Decides for one frame, given whether capturing failed: whether the dialog is shown, and
    /// whether the system is asked to show its prompt, which happens exactly once per failure and
    /// not on every frame while the dialog is up.
    pub fn frame(&mut self, failed: bool) -> (r: (bool, bool))
        ensures
            r.0 == (failed && !old(self).dismissed),
            r.1 == (r.0 && !old(self).prompted),
            *final(self) == (Permission {
                dismissed: old(self).dismissed,
                prompted: old(self).prompted || r.0,
            }),
    {
        if !failed || self.dismissed {
            return (false, false);
        }
        let prompt = !self.prompted;
        self.prompted = true;
        (true, prompt)
    }

    /// Takes the user's answer: the dialog goes away until the next launch when it is dismissed.
    /// Returns whether capturing is started again, which happens when it is re-checked; a failure
    /// then brings the dialog and the system's prompt back.
    pub fn answer(&mut self, recheck: bool, dismiss: bool) -> (restart: bool)
        ensures
            restart == recheck,
            *final(self) == (if recheck {
                Permission { dismissed: false, prompted: false }
            } else {
                Permission { dismissed: old(self).dismissed || dismiss, prompted: old(self).prompted }
            }),
    {
        if dismiss {
            self.dismissed = true;
        }
        if recheck {
            self.dismissed = false;
            self.prompted = false;
        }
        recheck
    }
}

/// A message is queued behind the others as long as fewer than eight wait, and lost otherwise.
pub proof fn a_message_is_queued_while_there_is_room(q: Seq<Seq<char>>, msg: Seq<char>)
    ensures
        q.len() < 8 ==> noted(q, msg) == q.push(msg),
        q.len() >= 8 ==> noted(q, msg) == q,
{
}

/// The newest message is shown at once and for three seconds from then, unless a newer one comes;
/// after that nothing is shown.
pub proof fn a_message_is_shown_for_three_seconds(
    toast: Option<(u64, Seq<char>)>,
    q: Seq<Seq<char>>,
    now: u64,
    later: u64,
)
    requires
        q.len() > 0,
        now <= later,
    ensures
        ({
            let shown = toast_after(toast, q, now);
            &&& shown == Some((now, q[q.len() - 1]))
            &&& later <= now + 3000 ==> toast_after(shown, Seq::empty(), later) == shown
            &&& later > now + 3000 ==> toast_after(shown, Seq::empty(), later) is None
        }),
        toast_after(None, Seq::empty(), now) is None,
{
}

/// What is done every two seconds is due from two seconds after the last time on, and at once the
/// first time.
pub proof fn it_is_due_every_two_seconds(last: u64, now: u64)
    ensures
        is_due(None, now),
        is_due(Some(last), now) <==> now >= last + 2000,
{
}

/// The value stands in the template where the braces stood, and everything else is as it was.
pub proof fn the_value_takes_the_place_of_the_braces(
    before: Seq<char>,
    after: Seq<char>,
    value: Seq<char>,
)
    requires
        forall|i: int| 0 <= i < before.len() ==> #[trigger] before[i] != '{',
        forall|i: int| 0 <= i < after.len() ==> #[trigger] after[i] != '{',
    ensures
        filled(before + seq!['{', '}'] + after, value) == before + value + after,
    decreases before.len(),
{
    let t = before + seq!['{', '}'] + after;
    if before.len() == 0 {
        assert(t.skip(2) =~= after);
        lemma_nothing_to_fill(after, value);
        assert(filled(t, value) =~= before + value + after);
    } else {
        let rest = before.skip(1);
        assert forall|i: int| 0 <= i < rest.len() implies #[trigger] rest[i] != '{' by {
            assert(rest[i] == before[i + 1]);
        }
        the_value_takes_the_place_of_the_braces(rest, after, value);
        assert(t.skip(1) =~= rest + seq!['{', '}'] + after);
        assert(t[0] == before[0]);
        assert(filled(t, value) =~= before + value + after);
    }
}

proof fn lemma_nothing_to_fill(t: Seq<char>, value: Seq<char>)
    requires
        forall|i: int| 0 <= i < t.len() ==> #[trigger] t[i] != '{',
    ensures
        filled(t, value) == t,
    decreases t.len(),
{
    if t.len() > 0 {
        let rest = t.skip(1);
        assert forall|i: int| 0 <= i < rest.len() implies #[trigger] rest[i] != '{' by {
            assert(rest[i] == t[i + 1]);
        }
        lemma_nothing_to_fill(rest, value);
    }
    assert(filled(t, value) =~= t);
}

proof fn lemma_to_last_mark(s: Seq<char>, blanks: Seq<char>)
    requires
        s.len() == 0 || !is_blank(s.last()),
        forall|i: int| 0 <= i < blanks.len() ==> is_blank(#[trigger] blanks[i]),
    ensures
        to_last_mark(s + blanks) == s,
    decreases blanks.len(),
{
    let t = s + blanks;
    if blanks.len() > 0 {
        let fewer = blanks.drop_last();
        assert(t.last() == blanks[blanks.len() - 1]);
        assert(t.drop_last() =~= s + fewer);
        assert forall|i: int| 0 <= i < fewer.len() implies is_blank(#[trigger] fewer[i]) by {
            assert(fewer[i] == blanks[i]);
        }
        lemma_to_last_mark(s, fewer);
    } else {
        assert(t =~= s);
    }
}

/// Whatever white space the user types around an address, the address itself is what is left of it,
/// white space inside it not counted; of white space alone nothing is left.
pub proof fn the_address_is_what_is_left(
    before: Seq<char>,
    addr: Seq<char>,
    after: Seq<char>,
)
    requires
        addr.len() > 0 ==> addr[0] as u32 > 0x20 && (addr[0] as u32) < 0x7f && addr.last() as u32 > 0x20
            && (addr.last() as u32) < 0x7f,
        forall|i: int|
            0 <= i < before.len() ==> #[trigger] before[i] == ' ' || before[i] == '\t' || before[i]
                == '\n',
        forall|i: int|
            0 <= i < after.len() ==> #[trigger] after[i] == ' ' || after[i] == '\t' || after[i] == '\n',
    ensures
        trimmed(before + addr + after) == addr,
{
    let s = before + addr + after;
    let mark = |c: char| !is_blank(c);
    if addr.len() > 0 {
        assert forall|j: int| 0 <= j < before.len() implies !mark(#[trigger] s[j]) by {
            assert(s[j] == before[j]);
        }
        assert(s[before.len() as int] == addr[0]);
        assert(mark(addr[0]));
        geom::lemma_first_where_unique(s, mark, before.len() as int);
        assert(from_first_mark(s) =~= addr + after);
        lemma_to_last_mark(addr, after);
    } else {
        assert forall|j: int| 0 <= j < s.len() implies !mark(#[trigger] s[j]) by {
            if j < before.len() {
                assert(s[j] == before[j]);
            } else {
                assert(s[j] == after[j - before.len()]);
            }
        }
        geom::lemma_first_where_unique(s, mark, s.len() as int);
        assert(from_first_mark(s) =~= Seq::<char>::empty());
        assert(addr =~= Seq::<char>::empty());
    }
}

} // verus!
