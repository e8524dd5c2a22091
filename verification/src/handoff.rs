//! What a hand-off promises from end to end, stated in pixels and messages: which push crosses an
//! edge, what the other machine is then told, what it is sent while it is driven, and what brings
//! control back.

use crate::control;
use crate::control::{CtxView, EffectView, HotkeyState, RawInput, RemoteView};
use crate::geom;
use crate::geom::{FRACTION_ONE, RATIO_ONE, SUBPX};
use crate::layout;
use crate::layout::{ScreenView, Side};
use crate::network::NetView;
use crate::protocol::{InputEvent, Key, MessageView, MsButton};
use vstd::prelude::*;

verus! {

// ---- Crossing an edge ----

/// A panel as it can be in a layout: its place and its size are machine numbers.
pub open spec fn is_panel(s: ScreenView) -> bool {
    &&& i32::MIN <= s.ox <= i32::MAX
    &&& i32::MIN <= s.oy <= i32::MAX
    &&& 0 <= s.w <= u32::MAX
    &&& 0 <= s.h <= u32::MAX
}

/// Whether the cursor is on a display of this machine, give or take two pixels.
pub open spec fn under_cursor(s: ScreenView, p: (int, int)) -> bool {
    &&& s.is_local
    &&& (s.ox - 2) * SUBPX <= p.0 <= (s.ox + s.w + 2) * SUBPX
    &&& (s.oy - 2) * SUBPX <= p.1 <= (s.oy + s.h + 2) * SUBPX
}

/// Whether panel number `i` is the display that the cursor is on: the first one under it.
pub open spec fn starts_on(s: Seq<ScreenView>, i: int, p: (int, int)) -> bool {
    &&& 0 <= i < s.len()
    &&& under_cursor(s[i], p)
    &&& forall|j: int| 0 <= j < i ==> !under_cursor(#[trigger] s[j], p)
}

/// Whether a point lies on an edge of a display or beyond it.
pub open spec fn past_edge(here: ScreenView, p: (int, int), side: Side) -> bool {
    match side {
        Side::Right => p.0 >= (here.ox + here.w) * SUBPX,
        Side::Left => p.0 <= here.ox * SUBPX,
        Side::Bottom => p.1 >= (here.oy + here.h) * SUBPX,
        Side::Top => p.1 <= here.oy * SUBPX,
    }
}

/// Whether a display is the neighbour beyond an edge of another one: the gap between them is less
/// than 240 pixels, nor do they overlap by more, and they lie side by side along the edge.
pub open spec fn lies_beyond(here: ScreenView, there: ScreenView, side: Side) -> bool {
    let gap = match side {
        Side::Right => there.ox - (here.ox + here.w),
        Side::Left => here.ox - (there.ox + there.w),
        Side::Bottom => there.oy - (here.oy + here.h),
        Side::Top => here.oy - (there.oy + there.h),
    };
    let alongside = match side {
        Side::Right | Side::Left => there.oy < here.oy + here.h && here.oy < there.oy + there.h,
        Side::Bottom | Side::Top => there.ox < here.ox + here.w && here.ox < there.ox + there.w,
    };
    -240 <= gap < 240 && alongside
}

/// Whether a cursor that is bound for `to` leaves the display `here` by the edge `side` toward the
/// remote panel `there`.
pub open spec fn leads(here: ScreenView, there: ScreenView, to: (int, int), side: Side) -> bool {
    !there.is_local && past_edge(here, to, side) && lies_beyond(here, there, side)
}

/// The order in which the edges are considered where a corner leads over two of them.
pub open spec fn rank(side: Side) -> int {
    match side {
        Side::Right => 0,
        Side::Left => 1,
        Side::Bottom => 2,
        Side::Top => 3,
    }
}

/// Whether a motion from `loc` to `to` leaves the display number `i` by the edge `side` toward the
/// panel number `k`, which is the first panel and the first edge of which that holds.
pub open spec fn first_way_out(
    s: Seq<ScreenView>,
    i: int,
    to: (int, int),
    k: int,
    side: Side,
) -> bool {
    &&& 0 <= k < s.len()
    &&& leads(s[i], s[k], to, side)
    &&& forall|j: int, e: Side| 0 <= j < k ==> !#[trigger] leads(s[i], s[j], to, e)
    &&& forall|e: Side| rank(e) < rank(side) ==> !#[trigger] leads(s[i], s[k], to, e)
}

proof fn lemma_under_cursor(s: ScreenView, p: (int, int))
    ensures
        under_cursor(s, p) == control::local_near(p.0, p.1)(s),
{
}

/// The display that the cursor is on is the one that the control plane starts from.
proof fn lemma_starts_on(s: Seq<ScreenView>, i: int, p: (int, int))
    requires
        starts_on(s, i, p),
    ensures
        control::local_at(s, p.0, p.1) == i,
        control::near(s[i], p.0, p.1),
{
    let on = control::local_near(p.0, p.1);
    assert forall|j: int| 0 <= j < i implies !on(#[trigger] s[j]) by {
        lemma_under_cursor(s[j], p);
    }
    lemma_under_cursor(s[i], p);
    geom::lemma_first_where_unique(s, on, i);
}

/// A point that is held inside the range of machine numbers is beyond the same edges.
proof fn lemma_leads(here: ScreenView, there: ScreenView, to: (int, int), side: Side)
    requires
        is_panel(here),
    ensures
        ({
            let held = (geom::sat(to.0), geom::sat(to.1));
            &&& control::crossed_into(here, held)(there) <==> exists|e: Side|
                #[trigger] leads(here, there, to, e)
            &&& !there.is_local && control::crossed_edge(here, there, held) == Some(side) <==> {
                &&& leads(here, there, to, side)
                &&& forall|e: Side| rank(e) < rank(side) ==> !#[trigger] leads(here, there, to, e)
            }
        }),
{
    let held = (geom::sat(to.0), geom::sat(to.1));
    let (r, l) = (leads(here, there, to, Side::Right), leads(here, there, to, Side::Left));
    let (b, t) = (leads(here, there, to, Side::Bottom), leads(here, there, to, Side::Top));
    if !there.is_local {
        assert(control::crossed_edge(here, there, held) == (if r {
            Some(Side::Right)
        } else if l {
            Some(Side::Left)
        } else if b {
            Some(Side::Bottom)
        } else if t {
            Some(Side::Top)
        } else {
            None
        }));
    }
    assert forall|e: Side| #[trigger] leads(here, there, to, e) == (match e {
        Side::Right => r,
        Side::Left => l,
        Side::Bottom => b,
        Side::Top => t,
    }) by {}
}

/// A push toward a neighbour crosses, whatever the motion is along the edge: where the cursor is on
/// a display of this machine, the motion ends on one of its edges or beyond it, and some remote
/// panel is the neighbour there, there is a crossing. It leads over such an edge to the first panel
/// in the layout that has one.
pub proof fn a_push_toward_a_neighbour_crosses(
    s: Seq<ScreenView>,
    loc: (int, int),
    delta: (int, int),
    i: int,
    k: int,
    side: Side,
)
    requires
        starts_on(s, i, loc),
        is_panel(s[i]),
        0 <= k < s.len(),
        leads(s[i], s[k], (loc.0 + delta.0, loc.1 + delta.1), side),
    ensures
        control::crossing(s, loc, delta) matches Some((edge, n)) && {
            &&& n <= k
            &&& n == k ==> rank(edge) <= rank(side)
            &&& first_way_out(s, i, (loc.0 + delta.0, loc.1 + delta.1), n, edge)
        },
{
    let to = (loc.0 + delta.0, loc.1 + delta.1);
    let held = (geom::sat(to.0), geom::sat(to.1));
    lemma_starts_on(s, i, loc);
    let p = control::crossed_into(s[i], held);
    geom::lemma_first_where(s, p);
    let n = geom::first_where(s, p);
    lemma_leads(s[i], s[k], to, side);
    assert(p(s[k]));
    assert(n <= k);
    let edge = control::crossed_edge(s[i], s[n], held)->0;
    lemma_leads(s[i], s[n], to, edge);
    assert forall|j: int, e: Side| 0 <= j < n implies !#[trigger] leads(s[i], s[j], to, e) by {
        lemma_leads(s[i], s[j], to, e);
        assert(!p(s[j]));
    }
}

/// Nothing else crosses: a crossing starts on a display of this machine, ends on its edge or beyond
/// it, and leads to the neighbour there. In particular a cursor that is on none of this machine's
/// displays crosses nowhere.
pub proof fn only_a_push_toward_a_neighbour_crosses(
    s: Seq<ScreenView>,
    loc: (int, int),
    delta: (int, int),
    side: Side,
    k: int,
)
    requires
        control::crossing(s, loc, delta) == Some((side, k)),
        forall|i: int| 0 <= i < s.len() ==> is_panel(#[trigger] s[i]),
    ensures
        exists|i: int|
            #[trigger] starts_on(s, i, loc) && first_way_out(
                s,
                i,
                (loc.0 + delta.0, loc.1 + delta.1),
                k,
                side,
            ),
{
    let to = (loc.0 + delta.0, loc.1 + delta.1);
    let on = control::local_near(loc.0, loc.1);
    control::crossings_lead_to_neighbours(s, loc, delta);
    geom::lemma_first_where(s, on);
    let i = control::local_at(s, loc.0, loc.1);
    let first = geom::first_where(s, on);
    assert(on(s[i]));
    assert(first < s.len()) by {
        if first == s.len() {
            assert(!on(s[i]));
        }
    }
    assert(i == first);
    assert(starts_on(s, i, loc)) by {
        lemma_under_cursor(s[i], loc);
        assert forall|j: int| 0 <= j < i implies !under_cursor(#[trigger] s[j], loc) by {
            lemma_under_cursor(s[j], loc);
            assert(!on(s[j]));
        }
    }
    lemma_leads(s[i], s[k], to, side);
    a_push_toward_a_neighbour_crosses(s, loc, delta, i, k, side);
}

// ---- Handing over ----

/// The machine that a panel belongs to: the one it names, or the one that it is named after.
pub open spec fn machine_of(s: ScreenView) -> Seq<char> {
    if s.host.len() > 0 {
        s.host
    } else {
        s.name
    }
}

/// What is meant for a panel goes to the machine that the panel belongs to; a panel that the layout
/// does not know is taken for a machine.
pub proof fn messages_go_to_the_panels_machine(s: Seq<ScreenView>, i: int, stranger: Seq<char>)
    requires
        0 <= i < s.len(),
        forall|j: int| 0 <= j < i ==> (#[trigger] s[j]).name != s[i].name,
        forall|j: int| 0 <= j < s.len() ==> (#[trigger] s[j]).name != stranger,
    ensures
        control::peer_for(s, s[i].name) == machine_of(s[i]),
        control::peer_for(s, stranger) == stranger,
{
    geom::lemma_first_where_unique(s, layout::named(s[i].name), i);
    geom::lemma_first_where_unique(s, layout::named(stranger), s.len() as int);
}

/// Whether `r` is the distance `d` times a ratio in millionths, to the nearest sub-pixel; what does
/// not fit a machine number ends at its bounds.
pub open spec fn converted(d: int, ratio: int, r: int) -> bool {
    let exact = d * ratio;
    if exact > i64::MAX * RATIO_ONE {
        r == i64::MAX
    } else if exact < i64::MIN * RATIO_ONE {
        r == i64::MIN
    } else {
        -RATIO_ONE <= 2 * (r * RATIO_ONE - exact) <= RATIO_ONE
    }
}

proof fn lemma_converted(d: int, ratio: int)
    ensures
        converted(d, ratio, geom::scaled(d, ratio)),
        i64::MIN <= geom::scaled(d, ratio) <= i64::MAX,
        i64::MIN <= d <= i64::MAX && ratio == RATIO_ONE ==> geom::scaled(d, ratio) == d,
{
    let n = d * ratio;
    assert(geom::nearest(n, RATIO_ONE as int) == (2 * n + 1_000_000) / 2_000_000);
    if ratio == RATIO_ONE {
        assert(n == d * 1_000_000);
    }
}

/// Whether `f` says how far along the way from `lo` to `hi` the point `v` lies, as a fraction with
/// 32 binary digits: 0 before the way, 1 behind it.
pub open spec fn is_fraction(f: int, v: int, lo: int, hi: int) -> bool {
    &&& 0 <= f <= FRACTION_ONE
    &&& v <= lo ==> f == 0
    &&& v >= hi && v > lo ==> f == FRACTION_ONE
    &&& lo < v < hi ==> -(hi - lo) <= 2 * (f * (hi - lo) - (v - lo) * FRACTION_ONE) <= hi - lo
}

/// `v`, or the end of the way from `lo` to `hi` that is nearer to it.
pub open spec fn held_between(v: int, lo: int, hi: int) -> int {
    if v <= lo {
        lo
    } else if v >= hi {
        hi
    } else {
        v
    }
}

proof fn lemma_fraction(v: int, lo: int, hi: int)
    requires
        lo <= hi,
    ensures
        is_fraction(geom::fraction(v, lo, hi), v, lo, hi),
{
    let h = hi - lo;
    let one = FRACTION_ONE as int;
    if h > 0 {
        let n = (v - lo) * one;
        let q = geom::nearest(n, h);
        geom::lemma_nearest(n, h);
        let a = v - lo;
        if v <= lo {
            assert(q <= 0) by (nonlinear_arith)
                requires
                    2 * (h * q) <= 2 * n + h,
                    n == a * one,
                    a <= 0,
                    one > 0,
                    h > 0,
            ;
        } else if v >= hi {
            assert(q >= one) by (nonlinear_arith)
                requires
                    -h <= 2 * (h * q) - 2 * n,
                    n == a * one,
                    a >= h,
                    one > 0,
                    h > 0,
            ;
        } else {
            assert(0 <= q <= one) by (nonlinear_arith)
                requires
                    -h <= 2 * (h * q) - 2 * n <= h,
                    n == a * one,
                    0 < a < h,
                    one > 0,
                    h > 0,
            ;
            assert(h * q == q * h) by (nonlinear_arith);
        }
    }
}

/// The point found from a fraction is the one that the fraction was taken of.
proof fn lemma_place(v: int, lo: int, hi: int)
    requires
        lo < hi,
        hi - lo < FRACTION_ONE,
        i64::MIN <= lo,
        hi <= i64::MAX,
    ensures
        geom::along(geom::fraction(v, lo, hi), lo, hi) == held_between(v, lo, hi),
{
    let at = held_between(v, lo, hi);
    lemma_fraction(v, lo, hi);
    lemma_fraction(at, lo, hi);
    geom::places_are_found_again(at, lo, hi, lo);
}

/// Whether a point is on the edge `side` of a rectangle, `inset` inside it, and as far along it as
/// `from` is.
pub open spec fn at_edge(
    p: (int, int),
    rect: (int, int, int, int),
    side: Side,
    inset: int,
    from: (int, int),
) -> bool {
    let (l, t, r, b) = rect;
    match side {
        Side::Right => p == (r - inset, held_between(from.1, t, b)),
        Side::Left => p == (l + inset, held_between(from.1, t, b)),
        Side::Bottom => p == (held_between(from.0, l, r), b - inset),
        Side::Top => p == (held_between(from.0, l, r), t + inset),
    }
}

/// The edges of a display, in sub-pixels.
pub open spec fn edges(s: ScreenView) -> (int, int, int, int) {
    (s.ox * SUBPX, s.oy * SUBPX, (s.ox + s.w) * SUBPX, (s.oy + s.h) * SUBPX)
}

/// A size that a display can have: some pixels, and no more than 65 535.
pub open spec fn ordinary(s: ScreenView) -> bool {
    0 < s.w < 65_536 && 0 < s.h < 65_536
}

/// A push across an edge hands control over: the local machine does not see the motion, the panel
/// beyond the edge is driven from now on, and its machine is told by which edge the cursor comes
/// and how far along it, and then gets the motion itself, in its own units. The hidden cursor waits
/// one pixel inside the edge, where it left. Nothing counts as held down, and nothing else changes.
pub proof fn a_push_hands_control_over(
    v: CtxView,
    net: NetView,
    dx: i64,
    dy: i64,
    loc: (int, int),
    cursor: Option<(int, int)>,
    now: u64,
    i: int,
    k: int,
    side: Side,
)
    requires
        v.driven is None,
        v.cooldown matches Some(t) ==> t <= now,
        starts_on(v.layout, i, loc),
        is_panel(v.layout[i]),
        first_way_out(v.layout, i, (loc.0 + dx, loc.1 + dy), k, side),
    ensures
        ({
            let (w, done, dropped) = control::captured(
                v,
                net,
                RawInput::Motion { dx, dy },
                Some(loc),
                cursor,
                now,
            );
            let name = v.layout[k].name;
            let peer = control::peer_for(v.layout, name);
            let (l, t, r, b) = edges(v.layout[i]);
            let ratio = control::speed(v.layout, name, Some(loc), v.trim);
            &&& dropped
            &&& w.driven == Some(name)
            &&& w.remote matches Some(c) && c.name == name && c.side == side && c.ratio == ratio
                && w.parked == Some(c.at)
            &&& ordinary(v.layout[i]) ==> at_edge(w.parked->0, (l, t, r, b), side, SUBPX as int, loc)
            &&& w == (CtxView {
                driven: w.driven,
                remote: w.remote,
                parked: w.parked,
                cooldown: None,
                held_keys: Seq::empty(),
                held_buttons: Seq::empty(),
                ..v
            })
            &&& done.len() == 4
            &&& done[0] is HideCursor
            &&& done[1] matches EffectView::Send { target, msg } && target == peer && {
                msg matches MessageView::EnterScreen { side: edge, fx, fy } && edge == side
                    && is_fraction(fx, loc.0, l, r) && is_fraction(fy, loc.1, t, b)
            }
            &&& done[2] is Log
            &&& done[3] matches EffectView::Send { target, msg } && target == peer && {
                msg matches MessageView::Input(InputEvent::MouseMotion { dx: x, dy: y })
                    && converted(dx as int, ratio, x as int) && converted(dy as int, ratio, y as int)
            }
        }),
{
    let to = (loc.0 + dx, loc.1 + dy);
    let s = v.layout;
    let name = s[k].name;
    a_push_toward_a_neighbour_crosses(s, loc, (dx as int, dy as int), i, k, side);
    let (edge, n) = control::crossing(s, loc, (dx as int, dy as int))->0;
    assert(n == k) by {
        if n < k {
            assert(!leads(s[i], s[n], to, edge));
        }
    }
    assert(edge == side) by {
        if rank(edge) < rank(side) {
            assert(!leads(s[i], s[k], to, edge));
        }
    }
    lemma_starts_on(s, i, loc);
    let (l, t, r, b) = edges(s[i]);
    assert(s[i].rect() == (l, t, r, b));
    lemma_fraction(loc.0, l, r);
    lemma_fraction(loc.1, t, b);
    if ordinary(s[i]) {
        lemma_place(loc.0, l, r);
        lemma_place(loc.1, t, b);
    }
    let ratio = control::speed(s, name, Some(loc), v.trim);
    lemma_converted(dx as int, ratio);
    lemma_converted(dy as int, ratio);
}

// ---- While a secondary is driven ----

/// While a secondary that can be reached is driven, a motion is passed on as a motion, each of its
/// components times the ratio of the hand-off to the nearest sub-pixel (exactly where the ratio is
/// 1); the hidden cursor is kept at its place, and nothing changes here.
pub proof fn motion_is_passed_on_at_the_speed_of_the_hand_off(
    v: CtxView,
    net: NetView,
    dx: i64,
    dy: i64,
    location: Option<(int, int)>,
    cursor: Option<(int, int)>,
    now: u64,
)
    requires
        v.driven is Some,
        v.remote is Some,
        net matches NetView::Primary(peers) && peers.contains(
            control::peer_for(v.layout, v.driven->0),
        ),
    ensures
        ({
            let (w, done, dropped) = control::captured(
                v,
                net,
                RawInput::Motion { dx, dy },
                location,
                cursor,
                now,
            );
            let ratio = v.remote->0.ratio;
            &&& dropped && w == v
            &&& done.len() == (if v.parked is Some { 2int } else { 1int })
            &&& done[0] matches EffectView::Send { target, msg } && target == control::peer_for(
                v.layout,
                v.driven->0,
            ) && {
                msg matches MessageView::Input(InputEvent::MouseMotion { dx: x, dy: y }) && {
                    &&& converted(dx as int, ratio, x as int)
                    &&& converted(dy as int, ratio, y as int)
                    &&& ratio == RATIO_ONE ==> x == dx && y == dy
                }
            }
            &&& v.parked matches Some(p) ==> done[1] == EffectView::Park(p)
        }),
{
    lemma_converted(dx as int, v.remote->0.ratio);
    lemma_converted(dy as int, v.remote->0.ratio);
}

/// The input event that a captured key, button or turn of the wheel is.
pub open spec fn same_input(raw: RawInput, ev: InputEvent) -> bool {
    match raw {
        RawInput::KeyDown(k) => ev matches InputEvent::KeyDown { key } && key == k,
        RawInput::KeyUp(k) => ev matches InputEvent::KeyUp { key } && key == k,
        RawInput::ButtonDown(b) => ev matches InputEvent::MouseDown { button } && button == b,
        RawInput::ButtonUp(b) => ev matches InputEvent::MouseUp { button } && button == b,
        RawInput::Wheel { dx, dy } => ev matches InputEvent::Wheel { dx: x, dy: y } && x == dx && y
            == dy,
        _ => false,
    }
}

/// While a secondary is driven, what is passed on is what was captured: a key that goes down as
/// that key going down, one that goes up as going up, likewise a button, and the wheel with both
/// its components; the switch hotkey is a key like any other then. What goes down counts as held
/// down until it goes up, and nothing else changes here.
pub proof fn what_is_captured_is_what_is_sent(
    v: CtxView,
    net: NetView,
    raw: RawInput,
    location: Option<(int, int)>,
    cursor: Option<(int, int)>,
    now: u64,
)
    requires
        v.driven is Some,
        !(raw is Motion),
        !(raw is Mods),
        raw is ButtonDown && v.window is Some && location is Some ==> {
            let (l, t, r, b) = v.window->0;
            let (x, y) = location->0;
            x < l || x > r || y < t || y > b
        },
    ensures
        ({
            let (w, done, dropped) = control::captured(v, net, raw, location, cursor, now);
            &&& dropped
            &&& done.len() == 1
            &&& done[0] matches EffectView::Send { target, msg } && target == control::peer_for(
                v.layout,
                v.driven->0,
            ) && (msg matches MessageView::Input(ev) && same_input(raw, ev))
            &&& w == (CtxView { held_keys: w.held_keys, held_buttons: w.held_buttons, ..v })
            &&& match raw {
                RawInput::KeyDown(k) => w.held_keys == v.held_keys.push(k),
                RawInput::KeyUp(k) => forall|x: Key| #[trigger]
                    w.held_keys.contains(x) <==> x != k && v.held_keys.contains(x),
                _ => w.held_keys == v.held_keys,
            }
            &&& match raw {
                RawInput::ButtonDown(b) => w.held_buttons == v.held_buttons.push(b),
                RawInput::ButtonUp(b) => forall|x: MsButton| #[trigger]
                    w.held_buttons.contains(x) <==> x != b && v.held_buttons.contains(x),
                _ => w.held_buttons == v.held_buttons,
            }
        }),
{
    match raw {
        RawInput::KeyUp(k) => {
            let keep = |x: Key| x != k;
            assert forall|x: Key| #[trigger] v.held_keys.filter(keep).contains(x) <==> x != k
                && v.held_keys.contains(x) by {
                lemma_filter_holds(v.held_keys, keep, x);
            }
        },
        RawInput::ButtonUp(b) => {
            let keep = |x: MsButton| x != b;
            assert forall|x: MsButton| #[trigger] v.held_buttons.filter(keep).contains(x) <==> x != b
                && v.held_buttons.contains(x) by {
                lemma_filter_holds(v.held_buttons, keep, x);
            }
        },
        _ => {},
    }
}

proof fn lemma_filter_holds<A>(s: Seq<A>, keep: spec_fn(A) -> bool, x: A)
    ensures
        s.filter(keep).contains(x) <==> keep(x) && s.contains(x),
{
    if keep(x) && s.contains(x) {
        let i = choose|i: int| 0 <= i < s.len() && s[i] == x;
        s.lemma_filter_contains(keep, i);
    }
    if s.filter(keep).contains(x) {
        let j = choose|j: int| 0 <= j < s.filter(keep).len() && s.filter(keep)[j] == x;
        s.lemma_filter_pred(keep, j);
        s.lemma_filter_contains_rev(keep, x);
    }
}

// ---- The speed of a hand-off ----

/// Whether `q` is `n / d` in millionths, to the nearest one, held between `lo` and `hi`.
pub open spec fn is_ratio(q: int, n: int, d: int, lo: int, hi: int) -> bool {
    &&& lo <= q <= hi
    &&& n * RATIO_ONE <= lo * d ==> q == lo
    &&& n * RATIO_ONE >= hi * d ==> q == hi
    &&& lo * d < n * RATIO_ONE < hi * d ==> -d <= 2 * (q * d - n * RATIO_ONE) <= d
}

proof fn lemma_ratio(m: int, d: int, lo: int, hi: int)
    requires
        d > 0,
        lo <= hi,
    ensures
        ({
            let q = geom::clamped(geom::nearest(m, d), lo, hi);
            &&& lo <= q <= hi
            &&& m <= lo * d ==> q == lo
            &&& m >= hi * d ==> q == hi
            &&& lo * d < m < hi * d ==> -d <= 2 * (q * d - m) <= d
        }),
{
    let q = geom::nearest(m, d);
    geom::lemma_nearest(m, d);
    assert(d * q == q * d) by (nonlinear_arith);
    assert(m <= lo * d ==> q <= lo) by (nonlinear_arith)
        requires
            2 * (q * d) <= 2 * m + d,
            d > 0,
    ;
    assert(m >= hi * d ==> q >= hi) by (nonlinear_arith)
        requires
            -d <= 2 * (q * d) - 2 * m,
            d > 0,
    ;
    assert(lo * d < m ==> q >= lo) by (nonlinear_arith)
        requires
            -d <= 2 * (q * d) - 2 * m,
            d > 0,
    ;
    assert(m < hi * d ==> q <= hi) by (nonlinear_arith)
        requires
            2 * (q * d) <= 2 * m + d,
            d > 0,
    ;
}

/// Whether a point lies on a panel, its far edges not counted.
pub open spec fn covers(s: ScreenView, p: (int, int)) -> bool {
    &&& s.ox * SUBPX <= p.0 < (s.ox + s.w) * SUBPX
    &&& s.oy * SUBPX <= p.1 < (s.oy + s.h) * SUBPX
}

/// Whether panel number `i` is the display that a cursor leaves: the first of this machine's that
/// the cursor lies on, or simply its first where it lies on none.
pub open spec fn leaves_from(s: Seq<ScreenView>, i: int, p: (int, int)) -> bool {
    &&& 0 <= i < s.len()
    &&& s[i].is_local
    &&& if covers(s[i], p) {
        forall|j: int| 0 <= j < i ==> !((#[trigger] s[j]).is_local && covers(s[j], p))
    } else {
        &&& forall|j: int| 0 <= j < i ==> !(#[trigger] s[j]).is_local
        &&& forall|j: int| 0 <= j < s.len() ==> !((#[trigger] s[j]).is_local && covers(s[j], p))
    }
}

proof fn lemma_own_scale(s: Seq<ScreenView>, i: int, p: (int, int))
    requires
        leaves_from(s, i, p),
    ensures
        layout::local_scale(s, Some(p)) == s[i].scale,
{
    let under = layout::local_holding(p.0, p.1);
    if covers(s[i], p) {
        assert forall|j: int| 0 <= j < i implies !under(#[trigger] s[j]) by {}
        geom::lemma_first_where_unique(s, under, i);
    } else {
        assert forall|j: int| 0 <= j < s.len() implies !under(#[trigger] s[j]) by {}
        geom::lemma_first_where_unique(s, under, s.len() as int);
        geom::lemma_first_where_unique(s, layout::local_panel(), i);
    }
}

/// A scale, or a hundredth where it is smaller than that.
pub open spec fn usable(scale: int) -> int {
    if scale < 10_000 {
        10_000
    } else {
        scale
    }
}

/// The cursor keeps its speed from one machine to the other: the ratio of a hand-off is the scale
/// of the display that the cursor leaves over the scale of the panel that it enters, from a quarter
/// to four, times the trim that the user has set, from a tenth to eight. A scale below a hundredth
/// counts as a hundredth, and without a trim the ratio is that of the scales.
pub proof fn the_speed_follows_the_scales(s: Seq<ScreenView>, loc: (int, int), trim: int, i: int, k: int)
    requires
        leaves_from(s, i, loc),
        0 <= k < s.len(),
        forall|j: int| 0 <= j < k ==> (#[trigger] s[j]).name != s[k].name,
    ensures
        ({
            let (own, theirs) = (usable(s[i].scale), usable(s[k].scale));
            let ratio = control::speed(s, s[k].name, Some(loc), trim);
            exists|auto: int|
                #[trigger] is_ratio(auto, own, theirs, 250_000, 4_000_000) && {
                    &&& is_ratio(ratio, auto * trim, 1_000_000_000_000, 100_000, 8_000_000)
                    &&& trim == RATIO_ONE ==> ratio == auto
                }
        }),
{
    let (own, theirs) = (usable(s[i].scale), usable(s[k].scale));
    lemma_own_scale(s, i, loc);
    geom::lemma_first_where_unique(s, layout::named(s[k].name), k);
    let auto = control::scale_between(s[i].scale, s[k].scale);
    let ratio = control::speed(s, s[k].name, Some(loc), trim);
    lemma_ratio(own * RATIO_ONE, theirs, 250_000, 4_000_000);
    assert(is_ratio(auto, own, theirs, 250_000, 4_000_000));
    lemma_ratio(auto * trim, RATIO_ONE as int, 100_000, 8_000_000);
    assert(is_ratio(ratio, auto * trim, 1_000_000_000_000, 100_000, 8_000_000)) by {
        assert(auto * trim * RATIO_ONE == (auto * trim) * 1_000_000);
        assert(ratio * 1_000_000_000_000 == ratio * 1_000_000 * 1_000_000);
    }
    if trim == RATIO_ONE {
        assert(auto * trim == auto * 1_000_000);
        assert(geom::nearest(auto * trim, RATIO_ONE as int) == (2 * (auto * 1_000_000) + 1_000_000)
            / 2_000_000);
        assert(ratio == auto);
    }
}

// ---- Taking control back ----

/// The time until which the cursor does not cross again after a return.
pub open spec fn rest_until(now: u64) -> int {
    if now + 700 > u64::MAX {
        u64::MAX as int
    } else {
        now + 700
    }
}

/// Taking control back from a panel leaves nothing behind. First every key, then every button that
/// is held down is let go on its machine, in the order in which they went down; the cursor is shown
/// again; where it has to be moved it is; and then the machine is told that control left. The
/// cursor belongs twelve pixels inside the edge of this machine's displays that it left by, as far
/// along it as `loc` says, and it does not cross again for 700 milliseconds. Nothing else changes.
pub proof fn taking_control_back_leaves_nothing_behind(
    v: CtxView,
    name: Seq<char>,
    loc: Option<(int, int)>,
    now: u64,
)
    ensures
        ({
            let (w, done) = control::left(v, name, loc, now);
            let peer = control::peer_for(v.layout, name);
            let n = (v.held_keys.len() + v.held_buttons.len()) as int;
            let around = layout::bbox(v.layout, layout::local_panel());
            let known = v.remote is Some && around is Some;
            &&& w.cooldown matches Some(t) && t == rest_until(now)
            &&& w == (CtxView {
                driven: None,
                remote: None,
                parked: None,
                held_keys: Seq::empty(),
                held_buttons: Seq::empty(),
                cooldown: w.cooldown,
                last_real: w.last_real,
                ..v
            })
            &&& forall|i: int|
                0 <= i < v.held_keys.len() ==> #[trigger] done[i] == (EffectView::Send {
                    target: peer,
                    msg: MessageView::Input(InputEvent::KeyUp { key: v.held_keys[i] }),
                })
            &&& forall|i: int|
                v.held_keys.len() <= i < n ==> #[trigger] done[i] == (EffectView::Send {
                    target: peer,
                    msg: MessageView::Input(
                        InputEvent::MouseUp { button: v.held_buttons[i - v.held_keys.len()] },
                    ),
                })
            &&& done[n] is ShowCursor
            &&& if known && !v.grabbing {
                &&& done.len() == n + 4
                &&& done[n + 1] == EffectView::Warp(w.last_real)
            } else {
                done.len() == n + 3
            }
            &&& done[done.len() - 2] == (EffectView::Send {
                target: peer,
                msg: MessageView::LeaveScreen,
            })
            &&& done[done.len() - 1] is Log
            &&& !known ==> w.last_real == v.last_real
            &&& known && loc is Some && (around matches Some((l, t, r, b)) && {
                &&& i64::MIN <= l < r <= i64::MAX && r - l < 65_536 * SUBPX
                &&& i64::MIN <= t < b <= i64::MAX && b - t < 65_536 * SUBPX
            }) ==> at_edge(w.last_real, around->0, v.remote->0.side, 12 * SUBPX, loc->0)
        }),
{
    let (w, done) = control::left(v, name, loc, now);
    let n = (v.held_keys.len() + v.held_buttons.len()) as int;
    let rel = control::released(v, name);
    assert(rel.len() == n);
    assert forall|i: int| 0 <= i < n implies #[trigger] done[i] == rel[i] by {}
    let around = layout::bbox(v.layout, layout::local_panel());
    if v.remote is Some && loc is Some {
        if let Some((l, t, r, b)) = around {
            if i64::MIN <= l < r <= i64::MAX && r - l < 65_536 * SUBPX && i64::MIN <= t < b
                <= i64::MAX && b - t < 65_536 * SUBPX {
                let p = loc->0;
                lemma_place(p.0, l, r);
                lemma_place(p.1, t, b);
            }
        }
    }
}

/// Control comes back from what is driven, and only from that: a return that is asked for takes it
/// from the panel of the hand-off, with the cursor where it was parked, and does nothing on a
/// machine that drives nothing.
pub proof fn a_return_takes_back_the_hand_off(v: CtxView, now: u64)
    ensures
        v.remote matches Some(r) ==> control::returned(v, now) == control::left(
            v,
            r.name,
            v.parked,
            now,
        ),
        v.remote is None ==> control::returned(v, now) == (v, Seq::<EffectView>::empty()),
{
}

/// A secondary that is gone, or a click inside MouseShare's own window, gives control back, and the
/// local machine sees the event.
pub proof fn what_else_gives_control_back(
    v: CtxView,
    net: NetView,
    dx: i64,
    dy: i64,
    button: MsButton,
    location: Option<(int, int)>,
    cursor: Option<(int, int)>,
    now: u64,
)
    requires
        v.driven is Some,
    ensures
        !(net is Primary && net->0.contains(control::peer_for(v.layout, v.driven->0))) ==> {
            let (w, done, dropped) = control::captured(
                v,
                net,
                RawInput::Motion { dx, dy },
                location,
                cursor,
                now,
            );
            !dropped && (w, done) == control::left(v, v.driven->0, location, now)
        },
        v.window is Some && location is Some && ({
            let (l, t, r, b) = v.window->0;
            let (x, y) = location->0;
            l <= x <= r && t <= y <= b
        }) ==> {
            let (w, done, dropped) = control::captured(
                v,
                net,
                RawInput::ButtonDown(button),
                location,
                cursor,
                now,
            );
            &&& !dropped
            &&& w == control::left(v, v.driven->0, v.parked, now).0
            &&& done.len() == control::left(v, v.driven->0, v.parked, now).1.len() + 1
            &&& done[0] is Log
            &&& done.skip(1) == control::left(v, v.driven->0, v.parked, now).1
        },
{
    let (w, done, dropped) = control::captured(
        v,
        net,
        RawInput::ButtonDown(button),
        location,
        cursor,
        now,
    );
    let all = control::left(v, v.driven->0, v.parked, now).1;
    if control::in_window(v, location) {
        assert(done.skip(1) =~= all);
    }
}

/// Once 700 milliseconds are over after a return, a push across an edge hands control over again.
pub proof fn the_cursor_crosses_again_after_the_rest(
    v: CtxView,
    now: u64,
    net: NetView,
    dx: i64,
    dy: i64,
    loc: (int, int),
    cursor: Option<(int, int)>,
    later: u64,
    i: int,
    k: int,
    side: Side,
)
    requires
        v.remote is Some,
        later >= now + 700,
        starts_on(v.layout, i, loc),
        is_panel(v.layout[i]),
        first_way_out(v.layout, i, (loc.0 + dx, loc.1 + dy), k, side),
    ensures
        ({
            let back = control::returned(v, now).0;
            control::captured(
                back,
                net,
                RawInput::Motion { dx, dy },
                Some(loc),
                cursor,
                later,
            ).0.driven == Some(v.layout[k].name)
        }),
{
    let back = control::returned(v, now).0;
    a_push_hands_control_over(back, net, dx, dy, loc, cursor, later, i, k, side);
}

// ---- While nobody is driven ----

/// While nobody is driven, everything stays with the local machine and nothing is done about it,
/// but for a motion that crosses and a key that fires the switch hotkey. Keys and reports of the
/// modifiers are noted, nothing else is.
pub proof fn local_input_is_left_alone(
    v: CtxView,
    net: NetView,
    raw: RawInput,
    location: Option<(int, int)>,
    cursor: Option<(int, int)>,
    now: u64,
)
    requires
        v.driven is None,
        raw matches RawInput::Motion { dx, dy } ==> {
            ||| location is None
            ||| v.cooldown matches Some(t) && now < t
            ||| control::crossing(v.layout, location->0, (dx as int, dy as int)) is None
        },
        !(raw matches RawInput::KeyDown(k) && (k == Key::ScrollLock || (k == Key::Space && v.hk.ctrl
            && v.hk.alt))),
    ensures
        ({
            let (w, done, dropped) = control::captured(v, net, raw, location, cursor, now);
            &&& !dropped && done.len() == 0
            &&& w == (CtxView { hk: w.hk, ..v })
            &&& match raw {
                RawInput::KeyDown(k) => w.hk == modifiers(v.hk, k, true),
                RawInput::KeyUp(k) => w.hk == modifiers(v.hk, k, false),
                RawInput::Mods { ctrl, alt } => w.hk.ctrl == ctrl && w.hk.alt == alt,
                _ => w.hk == v.hk,
            }
        }),
{
}

/// The modifiers that are held down once a key went down or up, each on either side of the
/// keyboard.
pub open spec fn modifiers(st: HotkeyState, k: Key, down: bool) -> HotkeyState {
    HotkeyState {
        ctrl: if k == Key::ControlLeft || k == Key::ControlRight { down } else { st.ctrl },
        alt: if k == Key::Alt || k == Key::AltGr { down } else { st.alt },
    }
}

/// Ctrl and Alt held down together with Space switch, whichever of the two went down first and
/// whatever was pressed in between; so does ScrollLock alone. Nothing else does, and no key that
/// goes up.
pub proof fn the_hotkey_is_ctrl_alt_space(st: HotkeyState, k: Key, other: Key)
    ensures
        control::fires(k, true, st) <==> k == Key::ScrollLock || (k == Key::Space && st.ctrl
            && st.alt),
        !control::fires(k, false, st),
        control::modifiers_after(k, true, st) == modifiers(st, k, true),
        control::modifiers_after(k, false, st) == modifiers(st, k, false),
        ({
            let a = control::modifiers_after(Key::ControlLeft, true, st);
            let b = control::modifiers_after(Key::Alt, true, a);
            let c = control::modifiers_after(Key::ControlLeft, false, b);
            &&& control::fires(Key::Space, true, b)
            &&& !control::fires(Key::Space, true, c)
        }),
{
}

/// The switch hotkey, pressed while nobody is driven, drives the first of the remote panels in the
/// layout, if this machine has a display; the local machine still sees the key.
pub proof fn the_hotkey_drives_the_first_panel(
    v: CtxView,
    net: NetView,
    k: Key,
    location: Option<(int, int)>,
    cursor: Option<(int, int)>,
    now: u64,
    here: int,
    first: int,
)
    requires
        control::in_step(v),
        v.driven is None,
        k == Key::ScrollLock || (k == Key::Space && v.hk.ctrl && v.hk.alt),
        0 <= here < v.layout.len(),
        v.layout[here].is_local,
        0 <= first < v.layout.len(),
        !v.layout[first].is_local,
        forall|j: int| 0 <= j < first ==> (#[trigger] v.layout[j]).is_local,
    ensures
        ({
            let (w, done, dropped) = control::captured(
                v,
                net,
                RawInput::KeyDown(k),
                location,
                cursor,
                now,
            );
            &&& !dropped
            &&& w.driven == Some(v.layout[first].name)
            &&& done.len() == 3
            &&& done[0] is HideCursor
            &&& done[1] matches EffectView::Send { target, msg } && target == control::peer_for(
                v.layout,
                v.layout[first].name,
            ) && msg is EnterScreen
        }),
{
    let s = v.layout;
    let x = CtxView { hk: control::modifiers_after(k, true, v.hk), ..v };
    assert(layout::local_panel()(s[here]));
    layout::bbox_is_the_hull(s, layout::local_panel());
    lemma_rotation_first(s, first);
    assert(control::rotation(s).len() > 0 && control::rotation(s)[0] == s[first]);
    let loc = match cursor {
        Some(p) => p,
        None => (0int, 0int),
    };
    control::lemma_local_at(s, loc.0, loc.1);
    assert(Seq::<EffectView>::empty() + control::cycled(x, cursor, now).1
        =~= control::cycled(x, cursor, now).1);
}

proof fn lemma_rotation_first(s: Seq<ScreenView>, first: int)
    requires
        0 <= first < s.len(),
        !s[first].is_local,
        forall|j: int| 0 <= j < first ==> (#[trigger] s[j]).is_local,
    ensures
        control::rotation(s).len() > 0,
        control::rotation(s)[0] == s[first],
    decreases s.len(),
{
    let t = s.drop_last();
    if first < s.len() - 1 {
        assert(t[first] == s[first]);
        assert forall|j: int| 0 <= j < first implies (#[trigger] t[j]).is_local by {
            assert(t[j] == s[j]);
        }
        lemma_rotation_first(t, first);
    } else {
        assert forall|j: int| 0 <= j < t.len() implies (#[trigger] t[j]).is_local by {
            assert(t[j] == s[j]);
        }
        lemma_rotation_empty(t);
        geom::lemma_first_where(control::rotation(t), layout::named(s.last().name));
    }
}

proof fn lemma_rotation_empty(s: Seq<ScreenView>)
    requires
        forall|j: int| 0 <= j < s.len() ==> (#[trigger] s[j]).is_local,
    ensures
        control::rotation(s).len() == 0,
    decreases s.len(),
{
    if s.len() > 0 {
        assert(s[s.len() - 1].is_local);
        assert forall|j: int| 0 <= j < s.len() - 1 implies (#[trigger] s.drop_last()[j]).is_local by {
            assert(s[j].is_local);
        }
        lemma_rotation_empty(s.drop_last());
    }
}

/// A panel counts as attached at the edge of this machine's displays that it lies beyond.
pub proof fn panels_are_attached_where_they_lie(s: ScreenView, b: (int, int, int, int))
    requires
        b.2 - b.0 > 480 * SUBPX,
        b.3 - b.1 > 480 * SUBPX,
        s.w > 0,
        s.h > 0,
    ensures
        s.ox * SUBPX >= b.2 ==> control::attached(s, b) == Some(Side::Right),
        (s.ox + s.w) * SUBPX <= b.0 ==> control::attached(s, b) == Some(Side::Left),
        s.ox * SUBPX < b.2 - 240 * SUBPX && (s.ox + s.w) * SUBPX > b.0 + 240 * SUBPX ==> {
            &&& s.oy * SUBPX >= b.3 ==> control::attached(s, b) == Some(Side::Bottom)
            &&& (s.oy + s.h) * SUBPX <= b.1 ==> control::attached(s, b) == Some(Side::Top)
        },
{
}

/// The hotkey leaves the panel that is driven, if one is, and then crosses toward the next one, over
/// the edge of this machine's displays at which that is attached.
pub proof fn the_hotkey_crosses_toward_the_panel(v: CtxView, cursor: Option<(int, int)>, now: u64)
    requires
        v.layout.len() > 1,
        layout::bbox(v.layout, layout::local_panel()) is Some,
        control::next_in(control::rotation(v.layout), v.remote) < control::rotation(
            v.layout,
        ).len(),
    ensures
        ({
            let around = layout::bbox(v.layout, layout::local_panel())->0;
            let r = control::rotation(v.layout);
            let next = r[control::next_in(r, v.remote)];
            let (w, done) = control::cycled(v, cursor, now);
            let (home, first) = control::returned(v, now);
            let n = first.len() as int;
            &&& w.remote matches Some(c) && c.name == next.name && (control::attached(
                next,
                around,
            ) matches Some(side) ==> c.side == side)
            &&& done.len() == n + 3
            &&& done.take(n) == first
            &&& done[n] is HideCursor
            &&& done[n + 1] matches EffectView::Send { target, msg } && target
                == control::peer_for(v.layout, next.name) && {
                msg matches MessageView::EnterScreen { side, .. } && side == w.remote->0.side
            }
        }),
{
    let r = control::rotation(v.layout);
    let loc = match cursor {
        Some(p) => p,
        None => (0int, 0int),
    };
    control::lemma_local_at(v.layout, loc.0, loc.1);
    geom::lemma_first_where(r, layout::named(v.remote->0.name));
    let (w, done) = control::cycled(v, cursor, now);
    let (home, first) = control::returned(v, now);
    assert(done.take(first.len() as int) =~= first);
}

// ---- On a machine that is driven ----

/// The edge on the other side.
pub open spec fn across(side: Side) -> Side {
    match side {
        Side::Left => Side::Right,
        Side::Right => Side::Left,
        Side::Bottom => Side::Top,
        Side::Top => Side::Bottom,
    }
}

/// When control arrives, this machine is driven by the primary, over the edge across from the one
/// that the cursor left by; its own cursor is hidden, and motion counts as it comes. Nothing else
/// changes, and a machine without a display takes no control.
pub proof fn control_arrives_over_the_facing_edge(v: CtxView, side: Side, fx: int, fy: int)
    ensures
        ({
            let (w, done) = control::arrived(v, side, fx, fy);
            if v.bbox is None {
                w == v && done.len() == 0
            } else {
                &&& w.remote matches Some(c) && c.name == v.primary_name && c.side == across(side)
                    && c.ratio == RATIO_ONE
                &&& w == (CtxView { remote: w.remote, ..v })
                &&& done.len() == 2
                &&& done[0] is HideCursor
                &&& done[1] is Log
            }
        }),
{
}

/// A fraction of the way leads to the same place along every way of the same length.
proof fn lemma_found_again(f: int, v: int, lo: int, hi: int, lo2: int)
    requires
        lo <= v <= hi,
        lo < hi,
        hi - lo < FRACTION_ONE,
        i64::MIN <= lo2,
        lo2 + (hi - lo) <= i64::MAX,
        is_fraction(f, v, lo, hi),
    ensures
        geom::along(f, lo2, lo2 + (hi - lo)) == lo2 + (v - lo),
{
    let one = FRACTION_ONE as int;
    let h = hi - lo;
    let a = v - lo;
    assert(-h <= 2 * (f * h) - 2 * (a * one) <= h) by {
        if a == 0 {
            assert(f * h == 0) by (nonlinear_arith)
                requires
                    f == 0,
            ;
            assert(a * one == 0) by (nonlinear_arith)
                requires
                    a == 0,
            ;
        } else if a == h {
            assert(f * h == a * one) by (nonlinear_arith)
                requires
                    f == one,
                    a == h,
            ;
        }
    }
    let p = geom::nearest(f * h, one);
    geom::lemma_nearest(f * h, one);
    assert(p == a) by (nonlinear_arith)
        requires
            -h <= 2 * (f * h) - 2 * (a * one) <= h,
            -one <= 2 * (one * p) - 2 * (f * h) <= one,
            h < one,
            one > 0,
    ;
    assert(lo2 + (hi - lo) - lo2 == h);
}

/// The cursor arrives where it left: between displays of the same length along the edge it appears
/// two pixels inside the facing edge, as far along it as it was, for whatever fractions say where
/// that was. (Not beyond the last pixel.)
pub proof fn the_cursor_arrives_where_it_left(
    w: CtxView,
    here: ScreenView,
    side: Side,
    loc: (int, int),
    fx: int,
    fy: int,
)
    requires
        w.screens.len() == 1,
        w.bbox == Some(edges(w.screens[0])),
        is_panel(w.screens[0]),
        ordinary(w.screens[0]),
        w.screens[0].w > 2,
        w.screens[0].h > 2,
        w.screens[0].w == here.w,
        w.screens[0].h == here.h,
        edges(here).0 <= loc.0 <= edges(here).2 - SUBPX,
        edges(here).1 <= loc.1 <= edges(here).3 - SUBPX,
        is_fraction(fx, loc.0, edges(here).0, edges(here).2),
        is_fraction(fy, loc.1, edges(here).1, edges(here).3),
    ensures
        ({
            let (l, t, r, b) = edges(w.screens[0]);
            let at = control::arrived(w, side, fx, fy).0.remote->0.at;
            let (x, y) = (l + (loc.0 - edges(here).0), t + (loc.1 - edges(here).1));
            match side {
                Side::Right => at == (l + 2 * SUBPX, y),
                Side::Left => at == (r - 2 * SUBPX, y),
                Side::Bottom => at == (x, t + 2 * SUBPX),
                Side::Top => at == (x, b - 2 * SUBPX),
            }
        }),
{
    let (l, t, r, b) = edges(w.screens[0]);
    lemma_found_again(fx, loc.0, edges(here).0, edges(here).2, l);
    lemma_found_again(fy, loc.1, edges(here).1, edges(here).3, t);
    control::the_cursor_arrives_at_the_facing_edge(w, side, fx, fy);
}

/// Whether a motion pushes the cursor of a driven machine back across the edge by which it came: it
/// moves toward that edge and ends on the outermost pixel there, or beyond it.
pub open spec fn pushes_out(
    side: Side,
    at: (int, int),
    b: (int, int, int, int),
    dx: int,
    dy: int,
) -> bool {
    match side {
        Side::Left => dx < 0 && at.0 + dx <= b.0 + SUBPX,
        Side::Right => dx > 0 && at.0 + dx >= b.2 - 2 * SUBPX,
        Side::Top => dy < 0 && at.1 + dy <= b.1 + SUBPX,
        Side::Bottom => dy > 0 && at.1 + dy >= b.3 - 2 * SUBPX,
    }
}

/// A driven machine asks for control back exactly when its cursor is pushed out by the edge that it
/// came by, and does nothing else then; any other motion moves the cursor and asks for nothing.
pub proof fn control_is_asked_back_exactly_at_the_edge(v: CtxView, dx: i64, dy: i64)
    requires
        v.remote is Some,
    ensures
        ({
            let (w, done) = control::driven_by(v, InputEvent::MouseMotion { dx, dy });
            let r = v.remote->0;
            if v.bbox is Some && pushes_out(r.side, r.at, v.bbox->0, dx as int, dy as int) {
                &&& w == v
                &&& done.len() == 2
                &&& done[0] == EffectView::Reply(MessageView::ReturnControl)
                &&& done[1] is Log
            } else {
                &&& w.remote matches Some(c) && c == (RemoteView { at: c.at, ..r })
                &&& w == (CtxView { remote: w.remote, ..v })
                &&& done == seq![EffectView::Warp(w.remote->0.at)]
            }
        }),
{
}

/// Whether a point lies on the pixels of a display.
pub open spec fn on_pixels(s: ScreenView, p: (int, int)) -> bool {
    &&& s.ox * SUBPX <= p.0 <= (s.ox + s.w - 1) * SUBPX
    &&& s.oy * SUBPX <= p.1 <= (s.oy + s.h - 1) * SUBPX
}

/// Whether a point lies off a display, by more than a pixel.
pub open spec fn well_off(s: ScreenView, p: (int, int)) -> bool {
    ||| p.0 < (s.ox - 1) * SUBPX
    ||| p.0 > (s.ox + s.w + 1) * SUBPX
    ||| p.1 < (s.oy - 1) * SUBPX
    ||| p.1 > (s.oy + s.h + 1) * SUBPX
}

/// A driven machine moves its cursor by exactly the motion that it is sent, as long as that ends on
/// one of its displays: on the one that the cursor is on, or on another one beside it.
pub proof fn a_driven_cursor_moves_by_the_motion(v: CtxView, dx: i64, dy: i64, i: int)
    requires
        v.remote is Some,
        v.bbox is Some ==> !pushes_out(
            v.remote->0.side,
            v.remote->0.at,
            v.bbox->0,
            dx as int,
            dy as int,
        ),
        0 <= i < v.screens.len(),
        is_panel(v.screens[i]),
        ({
            let at = v.remote->0.at;
            let to = (at.0 + dx, at.1 + dy);
            &&& on_pixels(v.screens[i], to)
            &&& {
                ||| covers(v.screens[i], at) && forall|j: int|
                    0 <= j < i ==> !covers(#[trigger] v.screens[j], at)
                ||| forall|j: int|
                    0 <= j < v.screens.len() && j != i ==> well_off(#[trigger] v.screens[j], to)
            }
        }),
    ensures
        ({
            let (w, done) = control::driven_by(v, InputEvent::MouseMotion { dx, dy });
            let at = v.remote->0.at;
            let to = (at.0 + dx, at.1 + dy);
            &&& w.remote matches Some(c) && c.at == to
            &&& done == seq![EffectView::Warp(to)]
        }),
{
    let s = v.screens;
    let at = v.remote->0.at;
    let to = (at.0 + dx, at.1 + dy);
    assert(geom::sat(to.0) == to.0 && geom::sat(to.1) == to.1);
    let holding = layout::holding(at.0, at.1);
    geom::lemma_first_where(s, holding);
    let n = geom::first_where(s, holding);
    assert(layout::pulled_inside(s[i], to.0, to.1) == to);
    if covers(s[i], at) && forall|j: int| 0 <= j < i ==> !covers(#[trigger] s[j], at) {
        assert forall|j: int| 0 <= j < i implies !holding(#[trigger] s[j]) by {
            assert(!covers(s[j], at));
        }
        geom::lemma_first_where_unique(s, holding, i);
        assert(control::stays(s, at, dx as int, dy as int));
    } else {
        let any = layout::any_panel();
        let away = layout::away2(to.0, to.1);
        geom::lemma_nearest_where(s, any, away);
        let m = geom::nearest_where(s, any, away);
        assert(any(s[i]));
        assert(away(s[i]) == 0);
        assert(m == i) by {
            if m != i {
                assert(well_off(s[m], to));
                let (l, t, r, b) = s[m].rect();
                let (ox, oy) = (geom::outside(to.0, l, r), geom::outside(to.1, t, b));
                assert(ox > 0 || oy > 0);
                assert(ox * ox + oy * oy > 0) by (nonlinear_arith)
                    requires
                        ox > 0 || oy > 0,
                        ox >= 0,
                        oy >= 0,
                ;
                assert(away(s[m]) <= away(s[i]));
            }
        }
        if control::stays(s, at, dx as int, dy as int) {
            assert(n == i || well_off(s[n], to));
            assert(n == i) by {
                if n != i {
                    let inside = layout::pulled_inside(s[n], to.0, to.1);
                    assert(holding(s[n]));
                    assert(!(control::half_pixel_apart(to.0, inside.0) && control::half_pixel_apart(
                        to.1,
                        inside.1,
                    )));
                }
            }
        }
    }
}

/// Keys, buttons and the wheel are injected on a driven machine as they come; a machine that is not
/// driven does nothing about anything that comes.
pub proof fn what_is_sent_is_injected(v: CtxView, ev: InputEvent)
    ensures
        v.remote is None ==> control::driven_by(v, ev) == (v, Seq::<EffectView>::empty()),
        v.remote is Some && !(ev is MouseMotion) ==> control::driven_by(v, ev) == (
            v,
            seq![EffectView::Inject(ev)],
        ),
{
}

/// A relative motion of the real cursor adds to where it is, and ends at the edges of this
/// machine's displays.
pub proof fn relative_motion_adds_up(
    b: (int, int, int, int),
    at: (int, int),
    dx: int,
    dy: int,
)
    requires
        i64::MIN <= b.0 <= b.2 - SUBPX,
        b.2 <= i64::MAX,
        i64::MIN <= b.1 <= b.3 - SUBPX,
        b.3 <= i64::MAX,
    ensures
        control::injected(Some(b), Some(at), dx, dy) == (
            held_between(at.0 + dx, b.0, b.2 - SUBPX),
            held_between(at.1 + dy, b.1, b.3 - SUBPX),
        ),
        control::injected(Some(b), None, dx, dy) == (dx, dy),
        control::injected(None, None, dx, dy) == (dx, dy),
        i64::MIN <= at.0 + dx <= i64::MAX && i64::MIN <= at.1 + dy <= i64::MAX ==> control::injected(
            None,
            Some(at),
            dx,
            dy,
        ) == (at.0 + dx, at.1 + dy),
{
}

/// How far a coordinate lies outside a stretch.
pub open spec fn off_by(v: int, lo: int, hi: int) -> int {
    if v < lo {
        lo - v
    } else if v > hi {
        v - hi
    } else {
        0
    }
}

/// The squared distance of a point from a display.
pub open spec fn distance(s: ScreenView, p: (int, int)) -> int {
    let (l, t, r, b) = edges(s);
    let (x, y) = (off_by(p.0, l, r), off_by(p.1, t, b));
    x * x + y * y
}

/// A point, or the pixel of a display that is nearest to it.
pub open spec fn pulled_onto(s: ScreenView, p: (int, int)) -> (int, int) {
    let (l, t, r, b) = edges(s);
    (held_between(p.0, l, r - SUBPX), held_between(p.1, t, b - SUBPX))
}

proof fn lemma_pulled(s: Seq<ScreenView>, p: (int, int))
    requires
        s.len() > 0,
        forall|j: int| 0 <= j < s.len() ==> (#[trigger] s[j]).w > 0 && s[j].h > 0,
    ensures
        exists|i: int|
            {
                &&& 0 <= i < s.len()
                &&& layout::pulled_to_screens(s, p.0, p.1) == pulled_onto(#[trigger] s[i], p)
                &&& forall|j: int| 0 <= j < s.len() ==> distance(s[i], p) <= distance(#[trigger] s[j], p)
            },
{
    let any = layout::any_panel();
    let away = layout::away2(p.0, p.1);
    geom::lemma_nearest_where(s, any, away);
    assert(any(s[0]));
    let i = geom::nearest_where(s, any, away);
    assert forall|j: int| 0 <= j < s.len() implies distance(s[i], p) <= distance(#[trigger] s[j], p) by {
        assert(any(s[j]));
        assert(away(s[j]) == distance(s[j], p));
        assert(away(s[i]) == distance(s[i], p));
    }
    assert(layout::pulled_to_screens(s, p.0, p.1) == pulled_onto(s[i], p));
}

/// A motion that leads off the displays of a driven machine ends at the edge: on the pixel nearest to
/// where it leads, of the display that the cursor is on or of one that is as near to that as any
/// other. A machine that knows only the box around its displays keeps the cursor inside the box.
pub proof fn a_driven_cursor_ends_at_the_edge(v: CtxView, dx: i64, dy: i64)
    requires
        v.remote is Some,
        v.bbox is Some ==> !pushes_out(
            v.remote->0.side,
            v.remote->0.at,
            v.bbox->0,
            dx as int,
            dy as int,
        ),
        i64::MIN <= v.remote->0.at.0 + dx <= i64::MAX,
        i64::MIN <= v.remote->0.at.1 + dy <= i64::MAX,
        forall|j: int| 0 <= j < v.screens.len() ==> (#[trigger] v.screens[j]).w > 0 && v.screens[j].h > 0,
        v.bbox matches Some(b) ==> b.2 - b.0 >= SUBPX && b.3 - b.1 >= SUBPX,
    ensures
        ({
            let (w, done) = control::driven_by(v, InputEvent::MouseMotion { dx, dy });
            let from = v.remote->0.at;
            let to = (from.0 + dx, from.1 + dy);
            let at = w.remote->0.at;
            &&& done == seq![EffectView::Warp(at)]
            &&& v.screens.len() > 0 ==> exists|i: int|
                {
                    &&& 0 <= i < v.screens.len()
                    &&& at == pulled_onto(#[trigger] v.screens[i], to)
                    &&& covers(v.screens[i], from) || forall|j: int|
                        0 <= j < v.screens.len() ==> distance(v.screens[i], to) <= distance(
                            #[trigger] v.screens[j],
                            to,
                        )
                }
            &&& v.screens.len() == 0 && v.bbox is Some ==> {
                let (l, t, r, b) = v.bbox->0;
                at == (held_between(to.0, l, r - SUBPX), held_between(to.1, t, b - SUBPX))
            }
            &&& v.screens.len() == 0 && v.bbox is None ==> at == to
        }),
{
    let s = v.screens;
    let from = v.remote->0.at;
    let to = (from.0 + dx, from.1 + dy);
    assert(geom::sat(to.0) == to.0 && geom::sat(to.1) == to.1);
    if s.len() > 0 {
        lemma_pulled(s, to);
        if control::stays(s, from, dx as int, dy as int) {
            let holding = layout::holding(from.0, from.1);
            geom::lemma_first_where(s, holding);
            let i = geom::first_where(s, holding);
            assert(covers(s[i], from));
            assert(layout::pulled_inside(s[i], to.0, to.1) == pulled_onto(s[i], to));
        }
    }
}

/// Control arrives on the display that is nearest to the place where the cursor comes in: two pixels
/// inside the facing edge of the box around all displays, as far along it as the fraction says.
pub proof fn control_arrives_on_the_nearest_display(v: CtxView, side: Side, fx: int, fy: int)
    requires
        v.bbox is Some,
        0 <= fx <= FRACTION_ONE,
        0 <= fy <= FRACTION_ONE,
        ({
            let (l, t, r, b) = v.bbox->0;
            -0x8_0000_0000_0000 <= l <= r <= 0x8_0000_0000_0000 && -0x8_0000_0000_0000 <= t <= b
                <= 0x8_0000_0000_0000
        }),
        v.screens.len() > 0,
        forall|j: int| 0 <= j < v.screens.len() ==> (#[trigger] v.screens[j]).w > 0 && v.screens[j].h > 0,
    ensures
        exists|p: (int, int), i: int|
            {
                &&& #[trigger] comes_in(p, v.bbox->0, across(side), fx, fy)
                &&& 0 <= i < v.screens.len()
                &&& control::arrived(v, side, fx, fy).0.remote->0.at == pulled_onto(
                    #[trigger] v.screens[i],
                    p,
                )
                &&& forall|j: int|
                    0 <= j < v.screens.len() ==> distance(v.screens[i], p) <= distance(
                        #[trigger] v.screens[j],
                        p,
                    )
            },
{
    let (l, t, r, b) = v.bbox->0;
    let p = control::on_edge(v.bbox->0, across(side), 2 * SUBPX, fx, fy);
    lemma_along(fx, l, r);
    lemma_along(fy, t, b);
    assert(comes_in(p, v.bbox->0, across(side), fx, fy));
    lemma_pulled(v.screens, p);
}

/// Whether `v` lies the fraction `f` of the way from `lo` to `hi`, to the nearest sub-pixel.
pub open spec fn lies_along(v: int, f: int, lo: int, hi: int) -> bool {
    -FRACTION_ONE <= 2 * ((v - lo) * FRACTION_ONE - f * (hi - lo)) <= FRACTION_ONE
}

proof fn lemma_along(f: int, lo: int, hi: int)
    requires
        0 <= f <= FRACTION_ONE,
        -0x8_0000_0000_0000 <= lo <= hi <= 0x8_0000_0000_0000,
    ensures
        lies_along(geom::along(f, lo, hi), f, lo, hi),
{
    let one = FRACTION_ONE as int;
    let h = hi - lo;
    let q = geom::nearest(f * h, one);
    geom::lemma_nearest(f * h, one);
    assert(0 <= q <= h) by (nonlinear_arith)
        requires
            -one <= 2 * (one * q) - 2 * (f * h) <= one,
            0 <= f <= one,
            h >= 0,
            one > 1,
    ;
    assert(one * q == q * one) by (nonlinear_arith);
}

/// Whether a cursor that comes in by an edge of a box comes in at `p`: two pixels inside it, the
/// given fraction of the way along it.
pub open spec fn comes_in(
    p: (int, int),
    rect: (int, int, int, int),
    side: Side,
    fx: int,
    fy: int,
) -> bool {
    let (l, t, r, b) = rect;
    match side {
        Side::Left => p.0 == l + 2 * SUBPX && lies_along(p.1, fy, t, b),
        Side::Right => p.0 == r - 2 * SUBPX && lies_along(p.1, fy, t, b),
        Side::Top => p.1 == t + 2 * SUBPX && lies_along(p.0, fx, l, r),
        Side::Bottom => p.1 == b - 2 * SUBPX && lies_along(p.0, fx, l, r),
    }
}

/// A report of the modifiers is noted as it is, whoever has control, and nothing is done about it.
pub proof fn modifiers_are_noted(
    v: CtxView,
    net: NetView,
    ctrl: bool,
    alt: bool,
    location: Option<(int, int)>,
    cursor: Option<(int, int)>,
    now: u64,
)
    ensures
        control::captured(v, net, RawInput::Mods { ctrl, alt }, location, cursor, now) == (
            CtxView { hk: HotkeyState { ctrl, alt }, ..v },
            Seq::<EffectView>::empty(),
            false,
        ),
{
}

} // verus!
