//! Control plane: which machine currently "has" the mouse, and the edge-crossing state machine.
//!
//! The capture layer *grabs* input, so motion keeps arriving even when the physical cursor is
//! pinned against a display edge. We forward **relative deltas** and predict edge crossings from
//! `location + delta` *before* the cursor reaches the edge. Two states:
//!
//! * **Local**: the real cursor is free. We only watch for a predicted crossing into a neighbour.
//! * **Forwarding(name)**: a secondary has control. Every event is dropped and forwarded; the
//!   (hidden, parked) local cursor is kept against the shared edge so the arrival position stays
//!   stable. The secondary asks for control back when its cursor is pushed across that edge.
//!
//! Every function here takes what happened and returns what has to be done about it: the effects
//! are carried out by the caller, in order.

use crate::geom;
use crate::geom::{FRACTION_ONE, RATIO_ONE, SUBPX};
use crate::layout::{nearest_screen, Layout, Screen, ScreenView, Side};
use crate::network::{Net, NetView};
use crate::protocol::{InputEvent, Key, Message, MessageView, MsButton};
use crate::text;
use crate::text::same;
use vstd::prelude::*;
use vstd::string::*;

verus! {

/// A remote counts as attached just beyond an edge when its gap is within this distance (240
/// pixels). Generous on purpose: tiles dragged in the canvas only line up roughly, and crossing
/// only needs to know which neighbour lies beyond the edge.
pub const EDGE_ATTACH: i64 = 240 * 65_536;

/// After control returns to the primary, automatic re-crossing is suppressed for this long: the
/// cursor parks just inside the shared edge, so a stray glide would otherwise re-cross instantly.
pub const RETURN_COOLDOWN_MS: u64 = 700;

/// Tolerance (one pixel) for "is the cursor still beyond the shared edge" while forwarding.
pub const CROSS_EPS: i64 = 65_536;

/// How far outside a display's own rectangle the cursor may sit and still count as "on" it (two
/// pixels).
pub const ON_SCREEN_TOL: i64 = 2 * 65_536;

/// Safety bounds for the forwarded-delta scale ratio (a quarter, and four).
pub const MIN_SCALE_RATIO: i64 = 250_000;

pub const MAX_SCALE_RATIO: i64 = 4_000_000;

/// Bounds for the combined ratio once the user's manual multiplier is applied (a tenth, and
/// eight). The multiplier itself keeps to the same bounds.
pub const MIN_EFFECTIVE_RATIO: i64 = 100_000;

pub const MAX_EFFECTIVE_RATIO: i64 = 8_000_000;

/// The smallest UI scale that a conversion reckons with (a hundredth).
pub const MIN_SCALE: i64 = 10_000;

/// A platform-neutral input event handed to the control plane by the capture layer.
///
/// Mouse motion carries the **relative delta** as reported by the OS, in sub-pixels.
#[derive(Debug, Clone, Copy, PartialEq, Eq, Structural)]
pub enum RawInput {
    Motion { dx: i64, dy: i64 },
    ButtonDown(MsButton),
    ButtonUp(MsButton),
    Wheel { dx: i64, dy: i64 },
    KeyDown(Key),
    KeyUp(Key),
    /// The state of the modifiers, on platforms that report it as such instead of as key events.
    Mods { ctrl: bool, alt: bool },
}

/// Capture state of the *primary*: local control, or forwarding to a named secondary.
#[derive(Debug, PartialEq)]
pub enum CaptureMode {
    Local,
    Forwarding(String),
}

/// A secondary currently being driven (primary side), or the machine currently driving *us*
/// (secondary side). `vx`/`vy` is the virtual cursor position in the **receiver's own** coordinates.
#[derive(Debug, PartialEq)]
pub struct RemoteCtrl {
    pub name: String,
    pub side: Side,
    pub vx: i64,
    pub vy: i64,
    /// Multiplier applied to every forwarded mouse delta, `own_scale / remote_scale` in
    /// millionths.
    ///
    /// Mouse deltas arrive in the *source* machine's coordinate units: points on a Retina Mac
    /// (1 point = 2 physical pixels) but physical pixels on a DPI-aware Windows box. Converting to
    /// the receiver's units keeps the cursor speed identical across machines. Captured once when
    /// control is handed over so the speed never changes mid-forwarding.
    pub scale_ratio: i64,
}

/// The modifiers of the switch hotkey that are held down.
#[derive(Debug, Clone, Copy, PartialEq, Eq, Structural)]
pub struct HotkeyState {
    pub ctrl: bool,
    pub alt: bool,
}

impl Default for HotkeyState {
    fn default() -> (r: HotkeyState)
        ensures
            r == (HotkeyState { ctrl: false, alt: false }),
    {
        HotkeyState { ctrl: false, alt: false }
    }
}

/// Mutable control-plane state.
#[derive(Debug, PartialEq)]
pub struct Ctrl {
    /// Where the real cursor was put when control last returned.
    pub last_real: (i64, i64),
    /// `Some` while a secondary has control (primary) or while we are being driven (secondary).
    pub remote: Option<RemoteCtrl>,
    /// Primary: the local edge point the (hidden) cursor is parked at while forwarding.
    pub parked: Option<(i64, i64)>,
    /// Suppress automatic re-crossing until this time, in milliseconds (set right after control
    /// returns).
    pub cooldown_until: Option<u64>,
    pub hk: HotkeyState,
    /// This host's own display rectangle(s), used to seed/clamp the virtual cursor on a secondary.
    pub local_bbox: Option<(i64, i64, i64, i64)>,
    /// Keys/buttons held while forwarding, so we can release them on the remote when control
    /// returns.
    pub held_keys: Vec<Key>,
    pub held_buttons: Vec<MsButton>,
    /// The layout as the control plane last saw it.
    pub layout_snap: Layout,
    /// This machine's own displays. A secondary may have more than one, and the virtual cursor
    /// has to roam between them (and only hand control back at the outermost one).
    pub local_screens: Vec<Screen>,
    /// The user's manual speed multiplier on top of the automatic ratio, in millionths.
    pub motion_scale: i64,
}

impl Default for Ctrl {
    fn default() -> (r: Ctrl)
        ensures
            r.last_real == (0i64, 0i64),
            r.remote is None,
            r.parked is None,
            r.cooldown_until is None,
            r.hk == (HotkeyState { ctrl: false, alt: false }),
            r.local_bbox is None,
            r.held_keys@.len() == 0,
            r.held_buttons@.len() == 0,
            r.layout_snap@.len() == 0,
            r.local_screens@.len() == 0,
            r.motion_scale == RATIO_ONE,
    {
        Ctrl {
            last_real: (0, 0),
            remote: None,
            parked: None,
            cooldown_until: None,
            hk: HotkeyState { ctrl: false, alt: false },
            local_bbox: None,
            held_keys: Vec::new(),
            held_buttons: Vec::new(),
            layout_snap: Layout { screens: Vec::new() },
            local_screens: Vec::new(),
            motion_scale: RATIO_ONE,
        }
    }
}

/// Everything the control plane decides from.
#[derive(Debug, PartialEq)]
pub struct GrabCtx {
    pub ctrl: Ctrl,
    pub mode: CaptureMode,
    pub my_name: String,
    pub primary_name: String,
    /// Whether the capture layer drops events, so that the real cursor stays where it is while a
    /// secondary is driven.
    pub grabbing: bool,
    /// Where MouseShare's own window is on the screen, as far as that is known: a click inside it
    /// hands control back.
    pub ui_window_rect: Option<(i64, i64, i64, i64)>,
}

/// Something for the caller to do.
#[derive(Debug, PartialEq)]
pub enum Effect {
    /// Send a message to the peer `target`.
    Send { target: String, msg: Message },
    /// Send a message to the primary.
    Reply(Message),
    /// Hide the real cursor.
    HideCursor,
    /// Show the real cursor again.
    ShowCursor,
    /// Keep the hidden cursor at its place.
    Park { x: i64, y: i64 },
    /// Put the real cursor there.
    Warp { x: i64, y: i64 },
    /// Inject an input event on this machine.
    Inject(InputEvent),
    /// Append a line to the diagnostic log.
    Log(String),
}

/// What a [`RemoteCtrl`] holds.
pub struct RemoteView {
    pub name: Seq<char>,
    pub side: Side,
    pub at: (int, int),
    pub ratio: int,
}

impl View for RemoteCtrl {
    type V = RemoteView;

    open spec fn view(&self) -> RemoteView {
        RemoteView {
            name: self.name@,
            side: self.side,
            at: (self.vx as int, self.vy as int),
            ratio: self.scale_ratio as int,
        }
    }
}

/// What a [`GrabCtx`] holds. `driven` is the panel that is driven, where one is.
#[verifier::ext_equal]
pub struct CtxView {
    pub last_real: (int, int),
    pub remote: Option<RemoteView>,
    pub parked: Option<(int, int)>,
    pub cooldown: Option<nat>,
    pub hk: HotkeyState,
    pub bbox: Option<(int, int, int, int)>,
    pub held_keys: Seq<Key>,
    pub held_buttons: Seq<MsButton>,
    pub layout: Seq<ScreenView>,
    pub screens: Seq<ScreenView>,
    pub trim: int,
    pub driven: Option<Seq<char>>,
    pub my_name: Seq<char>,
    pub primary_name: Seq<char>,
    pub grabbing: bool,
    pub window: Option<(int, int, int, int)>,
}

/// A position, as whole numbers without bounds.
pub open spec fn point(p: (i64, i64)) -> (int, int) {
    (p.0 as int, p.1 as int)
}

/// A position that may be missing.
pub open spec fn opt_point(p: Option<(i64, i64)>) -> Option<(int, int)> {
    match p {
        None => None,
        Some(q) => Some(point(q)),
    }
}

/// The panel that is driven in a capture mode.
pub open spec fn driven_in(m: CaptureMode) -> Option<Seq<char>> {
    match m {
        CaptureMode::Local => None,
        CaptureMode::Forwarding(name) => Some(name@),
    }
}

impl View for GrabCtx {
    type V = CtxView;

    open spec fn view(&self) -> CtxView {
        CtxView {
            last_real: point(self.ctrl.last_real),
            remote: match self.ctrl.remote {
                None => None,
                Some(r) => Some(r@),
            },
            parked: opt_point(self.ctrl.parked),
            cooldown: match self.ctrl.cooldown_until {
                None => None,
                Some(t) => Some(t as nat),
            },
            hk: self.ctrl.hk,
            bbox: crate::layout::wide(self.ctrl.local_bbox),
            held_keys: self.ctrl.held_keys@,
            held_buttons: self.ctrl.held_buttons@,
            layout: self.ctrl.layout_snap@,
            screens: crate::layout::views(self.ctrl.local_screens@),
            trim: self.ctrl.motion_scale as int,
            driven: driven_in(self.mode),
            my_name: self.my_name@,
            primary_name: self.primary_name@,
            grabbing: self.grabbing,
            window: crate::layout::wide(self.ui_window_rect),
        }
    }
}

/// What an [`Effect`] stands for.
pub enum EffectView {
    Send { target: Seq<char>, msg: MessageView },
    Reply(MessageView),
    HideCursor,
    ShowCursor,
    Park((int, int)),
    Warp((int, int)),
    Inject(InputEvent),
    Log(Seq<char>),
}

impl View for Effect {
    type V = EffectView;

    open spec fn view(&self) -> EffectView {
        match *self {
            Effect::Send { target, msg } => EffectView::Send { target: target@, msg: msg@ },
            Effect::Reply(msg) => EffectView::Reply(msg@),
            Effect::HideCursor => EffectView::HideCursor,
            Effect::ShowCursor => EffectView::ShowCursor,
            Effect::Park { x, y } => EffectView::Park((x as int, y as int)),
            Effect::Warp { x, y } => EffectView::Warp((x as int, y as int)),
            Effect::Inject(ev) => EffectView::Inject(ev),
            Effect::Log(line) => EffectView::Log(line@),
        }
    }
}

/// What a list of effects stands for.
pub open spec fn effect_views(v: Seq<Effect>) -> Seq<EffectView> {
    Seq::new(v.len(), |i: int| v[i]@)
}

// ---- Diagnostic lines ----

/// How a side is written in the log.
pub open spec fn side_text(side: Side) -> Seq<char> {
    match side {
        Side::Right => "Right"@,
        Side::Left => "Left"@,
        Side::Top => "Top"@,
        Side::Bottom => "Bottom"@,
    }
}

/// How a position or a motion is written in the log: in whole pixels.
pub open spec fn point_text(p: (int, int)) -> Seq<char> {
    "("@ + text::rounded_text(p.0, SUBPX as int) + ","@ + text::rounded_text(p.1, SUBPX as int)
        + ")"@
}

/// The line about a hand-off: to which panel, across which edge, where the cursor is parked and at
/// which speed.
pub open spec fn hand_off_line(name: Seq<char>, side: Side, park: (int, int), ratio: int) -> Seq<
    char,
> {
    "HAND-OFF -> "@ + name + " side="@ + side_text(side) + " park="@ + point_text(park)
        + " scale_ratio="@ + text::hundredths_text(ratio, 10_000)
}

/// The line about control that came back from a panel.
pub open spec fn return_line(name: Seq<char>) -> Seq<char> {
    "RETURN <- "@ + name
}

/// The line about control that arrived: across which edge, and where the cursor appears.
pub open spec fn enter_line(side: Side, seed: (int, int)) -> Seq<char> {
    "ENTER <- primary side="@ + side_text(side) + " seed="@ + point_text(seed)
}

/// The line about control that left this machine.
pub open spec fn leave_line() -> Seq<char> {
    "LEAVE -> primary"@
}

/// The line about control that is asked back: across which edge, from where and by which motion.
pub open spec fn edge_return_line(side: Side, at: (int, int), motion: (int, int)) -> Seq<char> {
    "EDGE-RETURN side="@ + side_text(side) + " v="@ + point_text(at) + " d="@ + point_text(motion)
}

/// The line about a click that hands control back.
pub open spec fn click_line() -> Seq<char> {
    "CLICK inside UI window — control returned"@
}

/// Appends a side.
fn push_side(s: &mut String, side: Side)
    ensures
        final(s)@ == old(s)@ + side_text(side),
{
    match side {
        Side::Right => s.append("Right"),
        Side::Left => s.append("Left"),
        Side::Top => s.append("Top"),
        Side::Bottom => s.append("Bottom"),
    }
}

/// Appends a position or a motion, in whole pixels.
fn push_point(s: &mut String, p: (i64, i64))
    ensures
        final(s)@ == old(s)@ + point_text(point(p)),
{
    s.append("(");
    text::push_rounded(s, p.0, SUBPX as u64);
    s.append(",");
    text::push_rounded(s, p.1, SUBPX as u64);
    s.append(")");
    assert(s@ =~= old(s)@ + point_text(point(p)));
}

/// The line about a hand-off.
pub fn log_hand_off(name: &str, side: Side, park: (i64, i64), ratio: i64) -> (r: String)
    ensures
        r@ == hand_off_line(name@, side, point(park), ratio as int),
{
    let mut r = "HAND-OFF -> ".to_owned();
    r.append(name);
    r.append(" side=");
    push_side(&mut r, side);
    r.append(" park=");
    push_point(&mut r, park);
    r.append(" scale_ratio=");
    text::push_hundredths(&mut r, ratio, 10_000);
    r
}

/// The line about control that came back.
pub fn log_return(name: &str) -> (r: String)
    ensures
        r@ == return_line(name@),
{
    let mut r = "RETURN <- ".to_owned();
    r.append(name);
    r
}

/// The line about control that arrived.
pub fn log_enter(side: Side, seed: (i64, i64)) -> (r: String)
    ensures
        r@ == enter_line(side, point(seed)),
{
    let mut r = "ENTER <- primary side=".to_owned();
    push_side(&mut r, side);
    r.append(" seed=");
    push_point(&mut r, seed);
    r
}

/// The line about control that left this machine.
pub fn log_leave() -> (r: String)
    ensures
        r@ == leave_line(),
{
    "LEAVE -> primary".to_owned()
}

/// The line about a click that hands control back.
pub fn log_click() -> (r: String)
    ensures
        r@ == click_line(),
{
    "CLICK inside UI window — control returned".to_owned()
}

/// The line about control that is asked back.
pub fn log_edge_return(side: Side, at: (i64, i64), motion: (i64, i64)) -> (r: String)
    ensures
        r@ == edge_return_line(side, point(at), point(motion)),
{
    let mut r = "EDGE-RETURN side=".to_owned();
    push_side(&mut r, side);
    r.append(" v=");
    push_point(&mut r, at);
    r.append(" d=");
    push_point(&mut r, motion);
    r
}

// ---- Geometry of a crossing ----

/// Whether the point lies on the panel or within a pixel or two of it.
pub open spec fn near(s: ScreenView, x: int, y: int) -> bool {
    let (l, t, r, b) = s.rect();
    l - ON_SCREEN_TOL <= x <= r + ON_SCREEN_TOL && t - ON_SCREEN_TOL <= y <= b + ON_SCREEN_TOL
}

/// Whether a panel is one of this machine's own and the point lies on it, or nearly so.
pub open spec fn local_near(x: int, y: int) -> spec_fn(ScreenView) -> bool {
    |s: ScreenView| s.is_local && near(s, x, y)
}

/// The local display that the point sits on, or else the nearest one; the number of screens where
/// there is no local display.
pub open spec fn local_at(s: Seq<ScreenView>, x: int, y: int) -> int {
    let on = geom::first_where(s, local_near(x, y));
    if on < s.len() {
        on
    } else {
        geom::nearest_where(s, crate::layout::local_panel(), crate::layout::away2(x, y))
    }
}

/// The edge of the display `here` that a cursor bound for the point `to` leaves it by, where
/// the display `there` is the neighbour beyond that edge: it lies within reach of the edge and
/// overlaps `here` along it.
pub open spec fn crossed_edge(here: ScreenView, there: ScreenView, to: (int, int)) -> Option<Side> {
    let (ll, lt, lr, lb) = here.rect();
    let (sl, st, sr, sb) = there.rect();
    let beside = sb > lt && st < lb;
    let above_or_below = sr > ll && sl < lr;
    if to.0 >= lr && lr - EDGE_ATTACH <= sl < lr + EDGE_ATTACH && beside {
        Some(Side::Right)
    } else if to.0 <= ll && ll - EDGE_ATTACH < sr <= ll + EDGE_ATTACH && beside {
        Some(Side::Left)
    } else if to.1 >= lb && lb - EDGE_ATTACH <= st < lb + EDGE_ATTACH && above_or_below {
        Some(Side::Bottom)
    } else if to.1 <= lt && lt - EDGE_ATTACH < sb <= lt + EDGE_ATTACH && above_or_below {
        Some(Side::Top)
    } else {
        None
    }
}

/// Whether a panel is a remote one that a cursor on `here`, bound for the point `to`, crosses into.
pub open spec fn crossed_into(here: ScreenView, to: (int, int)) -> spec_fn(ScreenView) -> bool {
    |s: ScreenView| !s.is_local && crossed_edge(here, s, to) is Some
}

/// The crossing that a motion from `loc` by `delta` makes: the edge crossed and the index of the
/// screen behind it.
pub open spec fn crossing(s: Seq<ScreenView>, loc: (int, int), delta: (int, int)) -> Option<
    (Side, int),
> {
    let i = local_at(s, loc.0, loc.1);
    if i >= s.len() || !near(s[i], loc.0, loc.1) {
        None
    } else {
        let to = (geom::sat(loc.0 + delta.0), geom::sat(loc.1 + delta.1));
        let k = geom::first_where(s, crossed_into(s[i], to));
        if k < s.len() {
            Some((crossed_edge(s[i], s[k], to)->0, k))
        } else {
            None
        }
    }
}

/// A crossing only ever leads from a display of this machine to a remote one, which lies within
/// reach beyond the edge crossed and overlaps that display along it.
pub proof fn crossings_lead_to_neighbours(s: Seq<ScreenView>, loc: (int, int), delta: (int, int))
    requires
        crossing(s, loc, delta) is Some,
    ensures
        ({
            let (side, k) = crossing(s, loc, delta)->0;
            let i = local_at(s, loc.0, loc.1);
            let to = (geom::sat(loc.0 + delta.0), geom::sat(loc.1 + delta.1));
            let (ll, lt, lr, lb) = s[i].rect();
            let (sl, st, sr, sb) = s[k].rect();
            &&& 0 <= i < s.len() && s[i].is_local && near(s[i], loc.0, loc.1)
            &&& 0 <= k < s.len() && !s[k].is_local
            &&& match side {
                Side::Right => to.0 >= lr && -EDGE_ATTACH <= sl - lr < EDGE_ATTACH && sb > lt && st < lb,
                Side::Left => to.0 <= ll && -EDGE_ATTACH <= ll - sr < EDGE_ATTACH && sb > lt && st < lb,
                Side::Bottom => to.1 >= lb && -EDGE_ATTACH <= st - lb < EDGE_ATTACH && sr > ll && sl < lr,
                Side::Top => to.1 <= lt && -EDGE_ATTACH <= lt - sb < EDGE_ATTACH && sr > ll && sl < lr,
            }
        }),
{
    let i = local_at(s, loc.0, loc.1);
    let to = (geom::sat(loc.0 + delta.0), geom::sat(loc.1 + delta.1));
    geom::lemma_first_where(s, local_near(loc.0, loc.1));
    geom::lemma_nearest_where(s, crate::layout::local_panel(), crate::layout::away2(loc.0, loc.1));
    geom::lemma_first_where(s, crossed_into(s[i], to));
}

/// Whether a display of this machine is found for every point, as soon as it has one.
pub proof fn lemma_local_at(s: Seq<ScreenView>, x: int, y: int)
    ensures
        0 <= local_at(s, x, y) <= s.len(),
        local_at(s, x, y) < s.len() ==> s[local_at(s, x, y)].is_local,
        local_at(s, x, y) == s.len() <==> crate::layout::bbox(s, crate::layout::local_panel()) is None,
{
    geom::lemma_first_where(s, local_near(x, y));
    geom::lemma_nearest_where(s, crate::layout::local_panel(), crate::layout::away2(x, y));
    crate::layout::bbox_is_the_hull(s, crate::layout::local_panel());
    let on = geom::first_where(s, local_near(x, y));
    if on < s.len() {
        assert(crate::layout::local_panel()(s[on]));
    }
}

/// Whether the point lies on the panel or within a pixel or two of it.
fn is_near(s: &Screen, x: i64, y: i64) -> (r: bool)
    ensures
        r == near(s@, x as int, y as int),
{
    let (a, b, c, d) = s.rect();
    x >= a - ON_SCREEN_TOL && x <= c + ON_SCREEN_TOL && y >= b - ON_SCREEN_TOL && y <= d
        + ON_SCREEN_TOL
}

/// The local display the point sits on (within a pixel or two), falling back to the nearest one.
/// Its place in the layout is returned.
pub fn local_screen_at(l: &Layout, x: i64, y: i64) -> (r: Option<usize>)
    ensures
        match r {
            Some(i) => i < l@.len() && i == local_at(l@, x as int, y as int),
            None => local_at(l@, x as int, y as int) == l@.len(),
        },
{
    let ghost on = local_near(x as int, y as int);
    let mut i: usize = 0;
    while i < l.screens.len()
        invariant
            i <= l.screens.len(),
            on == local_near(x as int, y as int),
            forall|j: int| 0 <= j < i ==> !on(#[trigger] l@[j]),
        decreases l.screens.len() - i,
    {
        assert(l@[i as int] == l.screens[i as int]@);
        if l.screens[i].is_local && is_near(&l.screens[i], x, y) {
            proof {
                geom::lemma_first_where_unique(l@, on, i as int);
            }
            return Some(i);
        }
        i += 1;
    }
    proof {
        geom::lemma_first_where_unique(l@, on, i as int);
    }
    nearest_screen(&l.screens, true, x, y)
}

/// The edge of `here` that a cursor bound for `(px, py)` crosses into `there`.
fn edge_crossed(here: &Screen, there: &Screen, px: i64, py: i64) -> (r: Option<Side>)
    ensures
        r == crossed_edge(here@, there@, (px as int, py as int)),
{
    let (ll, lt, lr, lb) = here.rect();
    let (sl, st, sr, sb) = there.rect();
    let overlaps_v = sb > lt && st < lb;
    let overlaps_h = sr > ll && sl < lr;
    if px >= lr && sl >= lr - EDGE_ATTACH && sl < lr + EDGE_ATTACH && overlaps_v {
        return Some(Side::Right);
    }
    if px <= ll && sr <= ll + EDGE_ATTACH && sr > ll - EDGE_ATTACH && overlaps_v {
        return Some(Side::Left);
    }
    if py >= lb && st >= lb - EDGE_ATTACH && st < lb + EDGE_ATTACH && overlaps_h {
        return Some(Side::Bottom);
    }
    if py <= lt && sb <= lt + EDGE_ATTACH && sb > lt - EDGE_ATTACH && overlaps_h {
        return Some(Side::Top);
    }
    None
}

/// Predict a crossing: is `location + delta` leaving **the display the cursor is actually on**,
/// toward a neighbour that sits immediately beyond that display's edge?
///
/// This is deliberately per-display rather than per-machine. Using the union bounding box of a
/// multi-monitor machine would let the cursor "leave" from a dead corner of the box, or jump
/// straight from the far display to a remote machine that is only attached to the near one.
pub fn predict_cross(l: &Layout, loc: (i64, i64), delta: (i64, i64)) -> (r: Option<(Side, String)>)
    ensures
        match r {
            Some((side, name)) => {
                &&& crossing(l@, point(loc), point(delta)) matches Some((s, k))
                &&& side == s && 0 <= k < l@.len() && name@ == l@[k].name
            },
            None => crossing(l@, point(loc), point(delta)) is None,
        },
{
    let here: usize = match local_screen_at(l, loc.0, loc.1) {
        Some(i) => i,
        None => {
            return None;
        },
    };
    assert(l@[here as int] == l.screens[here as int]@);
    if !is_near(&l.screens[here], loc.0, loc.1) {
        return None;
    }
    let px: i64 = geom::saturate(loc.0 as i128 + delta.0 as i128);
    let py: i64 = geom::saturate(loc.1 as i128 + delta.1 as i128);
    let ghost p = crossed_into(l@[here as int], (px as int, py as int));
    let mut i: usize = 0;
    while i < l.screens.len()
        invariant
            i <= l.screens.len(),
            here < l.screens.len(),
            here == local_at(l@, loc.0 as int, loc.1 as int),
            near(l@[here as int], loc.0 as int, loc.1 as int),
            px == geom::sat(loc.0 + delta.0),
            py == geom::sat(loc.1 + delta.1),
            p == crossed_into(l@[here as int], (px as int, py as int)),
            forall|j: int| 0 <= j < i ==> !p(#[trigger] l@[j]),
        decreases l.screens.len() - i,
    {
        assert(l@[i as int] == l.screens[i as int]@);
        assert(l@[here as int] == l.screens[here as int]@);
        if !l.screens[i].is_local {
            match edge_crossed(&l.screens[here], &l.screens[i], px, py) {
                Some(side) => {
                    proof {
                        geom::lemma_first_where_unique(l@, p, i as int);
                    }
                    return Some((side, l.screens[i].name.clone()));
                },
                None => {},
            }
        }
        i += 1;
    }
    proof {
        geom::lemma_first_where_unique(l@, p, i as int);
    }
    None
}

/// Whether a virtual cursor at `at`, moved by `(dx, dy)`, is pushed back across the edge `side` of
/// the box.
pub open spec fn pushed_back(
    side: Side,
    at: (int, int),
    bbox: (int, int, int, int),
    dx: int,
    dy: int,
) -> bool {
    match side {
        Side::Left => at.0 + dx <= bbox.0 + CROSS_EPS && dx < 0,
        Side::Right => at.0 + dx >= bbox.2 - SUBPX - CROSS_EPS && dx > 0,
        Side::Top => at.1 + dy <= bbox.1 + CROSS_EPS && dy < 0,
        Side::Bottom => at.1 + dy >= bbox.3 - SUBPX - CROSS_EPS && dy > 0,
    }
}

/// The secondary's virtual cursor should hand control back when it is being pushed back across the
/// edge that faces the primary. `r.side` is that edge (the primary crossed its own side, so the
/// secondary is entered on the opposite edge). Returns true when the cursor, after applying
/// `(dx, dy)`, would pass that edge while still moving toward the primary.
pub fn crossing_back(r: &RemoteCtrl, bbox: (i64, i64, i64, i64), dx: i64, dy: i64) -> (back: bool)
    ensures
        back == pushed_back(
            r.side,
            (r.vx as int, r.vy as int),
            (bbox.0 as int, bbox.1 as int, bbox.2 as int, bbox.3 as int),
            dx as int,
            dy as int,
        ),
{
    let x: i128 = r.vx as i128 + dx as i128;
    let y: i128 = r.vy as i128 + dy as i128;
    let eps: i128 = CROSS_EPS as i128;
    let px: i128 = SUBPX as i128;
    match r.side {
        Side::Left => x <= bbox.0 as i128 + eps && dx < 0,
        Side::Right => x >= bbox.2 as i128 - px - eps && dx > 0,
        Side::Top => y <= bbox.1 as i128 + eps && dy < 0,
        Side::Bottom => y >= bbox.3 as i128 - px - eps && dy > 0,
    }
}

// ---- Cursor speed ----

/// The automatic ratio times the user's trim, held inside its bounds.
pub open spec fn trimmed(auto: int, manual: int) -> int {
    geom::clamped(
        geom::nearest(auto * manual, RATIO_ONE as int),
        MIN_EFFECTIVE_RATIO as int,
        MAX_EFFECTIVE_RATIO as int,
    )
}

/// The ratio between two UI scales, held inside its bounds.
pub open spec fn scale_between(own: int, theirs: int) -> int {
    let o = if own < MIN_SCALE { MIN_SCALE as int } else { own };
    let t = if theirs < MIN_SCALE { MIN_SCALE as int } else { theirs };
    geom::clamped(
        geom::nearest(o * RATIO_ONE, t),
        MIN_SCALE_RATIO as int,
        MAX_SCALE_RATIO as int,
    )
}

/// The ratio by which motion is converted on its way to the screen `remote`.
pub open spec fn speed(
    s: Seq<ScreenView>,
    remote: Seq<char>,
    loc: Option<(int, int)>,
    trim: int,
) -> int {
    trimmed(
        scale_between(crate::layout::local_scale(s, loc), crate::layout::scale_named(s, remote)),
        trim,
    )
}

/// Whatever scales the machines report and whatever trim the user asks for, the cursor is never
/// slowed below a tenth of its speed nor made faster than eight times.
pub proof fn speed_is_bounded(s: Seq<ScreenView>, remote: Seq<char>, loc: Option<(int, int)>, trim: int)
    ensures
        MIN_EFFECTIVE_RATIO <= speed(s, remote, loc, trim) <= MAX_EFFECTIVE_RATIO,
{
}

/// Machines of the same scale exchange motion unchanged when the user has set no trim.
pub proof fn equal_scales_need_no_conversion(own: int, d: i64)
    requires
        own >= MIN_SCALE,
    ensures
        trimmed(scale_between(own, own), RATIO_ONE as int) == RATIO_ONE,
        geom::scaled(d as int, RATIO_ONE as int) == d,
{
    assert(geom::nearest(own * RATIO_ONE, own) == RATIO_ONE) by (nonlinear_arith)
        requires
            own > 0,
    ;
    assert(geom::nearest(RATIO_ONE * RATIO_ONE, RATIO_ONE as int) == RATIO_ONE);
    assert(geom::nearest(d * RATIO_ONE, RATIO_ONE as int) == d);
}

/// Combine the automatic ratio with the user's manual trim, which is left out where it is no
/// number.
///
/// The manual multiplier is a trim on top of the automatic value, not a replacement: the machines'
/// densities can change (new monitor, different Windows scaling) and the automatic part keeps
/// tracking that, while the user only corrects the residual "feel".
pub fn effective_ratio(auto: i64, manual: Option<i64>) -> (r: i64)
    ensures
        r == trimmed(
            auto as int,
            match manual {
                Some(m) => m as int,
                None => RATIO_ONE as int,
            },
        ),
{
    let m: i64 = match manual {
        Some(m) => m,
        None => RATIO_ONE,
    };
    proof {
        let (a, b) = (auto as int, m as int);
        assert(-0x4000_0000_0000_0000_0000_0000_0000_0000 <= a * b
            <= 0x4000_0000_0000_0000_0000_0000_0000_0000) by (nonlinear_arith)
            requires
                -0x8000_0000_0000_0000 <= a <= 0x7fff_ffff_ffff_ffff,
                -0x8000_0000_0000_0000 <= b <= 0x7fff_ffff_ffff_ffff,
        ;
    }
    let n: i128 = auto as i128 * m as i128;
    proof {
        let k = n as int;
        assert(geom::nearest(k, RATIO_ONE as int) == (2 * k + 1_000_000) / 2_000_000);
        assert(k <= 100_000_000_000 ==> (2 * k + 1_000_000) / 2_000_000 <= 100_000);
        assert(k >= 8_000_000_000_000 ==> (2 * k + 1_000_000) / 2_000_000 >= 8_000_000);
    }
    if n <= (MIN_EFFECTIVE_RATIO * RATIO_ONE) as i128 {
        MIN_EFFECTIVE_RATIO
    } else if n >= (MAX_EFFECTIVE_RATIO * RATIO_ONE) as i128 {
        MAX_EFFECTIVE_RATIO
    } else {
        let q: i128 = geom::div_nearest(n, RATIO_ONE as i128);
        if q < MIN_EFFECTIVE_RATIO as i128 {
            MIN_EFFECTIVE_RATIO
        } else if q > MAX_EFFECTIVE_RATIO as i128 {
            MAX_EFFECTIVE_RATIO
        } else {
            q as i64
        }
    }
}

/// Convert a local mouse delta into the receiving machine's coordinate units: the ratio to
/// multiply it by.
///
/// Deltas are measured in the *source* machine's logical space: on a Retina Mac 1 point is 2
/// physical pixels, while a DPI-aware Windows box counts physical pixels directly. Without this
/// conversion a Retina primary drives a 1x secondary at half the physical cursor speed.
///
/// The result is clamped so a peer reporting a bogus scale (0, or a wild value) can never make
/// the cursor teleport or freeze.
pub fn motion_scale_ratio(l: &Layout, remote: &str, loc: Option<(i64, i64)>, trim: i64) -> (r: i64)
    ensures
        r == speed(l@, remote@, opt_point(loc), trim as int),
{
    let own0: i64 = l.local_scale_at(loc);
    let theirs0: i64 = l.scale_of(remote);
    let own: i64 = if own0 < MIN_SCALE { MIN_SCALE } else { own0 };
    let theirs: i64 = if theirs0 < MIN_SCALE { MIN_SCALE } else { theirs0 };
    let one: i128 = RATIO_ONE as i128;
    assert(own * one <= 0x1000_0000_0000_0000_0000_0000_0000_0000 && own * one >= 0)
        by (nonlinear_arith)
        requires
            0 <= own <= 0x7fff_ffff_ffff_ffff,
            one == 1_000_000,
    ;
    let q: i128 = geom::div_nearest(own as i128 * one, theirs as i128);
    let auto: i64 = if q < MIN_SCALE_RATIO as i128 {
        MIN_SCALE_RATIO
    } else if q > MAX_SCALE_RATIO as i128 {
        MAX_SCALE_RATIO
    } else {
        q as i64
    };
    effective_ratio(auto, Some(trim))
}

/// The user's manual multiplier, held inside its bounds; 1 where it is no number.
pub open spec fn trim_setting(v: Option<i64>) -> int {
    match v {
        Some(v) => geom::clamped(v as int, MIN_EFFECTIVE_RATIO as int, MAX_EFFECTIVE_RATIO as int),
        None => RATIO_ONE as int,
    }
}

/// Set the user's manual speed multiplier (`RATIO_ONE` leaves the automatic ratio untouched). What
/// is no number counts as 1.
pub fn set_motion_scale(c: &mut Ctrl, v: Option<i64>)
    ensures
        final(c).motion_scale == trim_setting(v),
        *final(c) == (Ctrl { motion_scale: final(c).motion_scale, ..*old(c) }),
{
    c.motion_scale = match v {
        Some(v) => geom::clamp(v, MIN_EFFECTIVE_RATIO, MAX_EFFECTIVE_RATIO),
        None => RATIO_ONE,
    };
}

/// The user's manual speed multiplier.
pub fn motion_scale(c: &Ctrl) -> (r: i64)
    ensures
        r == c.motion_scale,
{
    c.motion_scale
}

// ---- The switch hotkey ----

/// The modifiers held down after a key went down or up.
pub open spec fn modifiers_after(k: Key, down: bool, st: HotkeyState) -> HotkeyState {
    match k {
        Key::ControlLeft | Key::ControlRight => HotkeyState { ctrl: down, ..st },
        Key::Alt | Key::AltGr => HotkeyState { alt: down, ..st },
        _ => st,
    }
}

/// Whether a key that goes down or up fires the switch hotkey.
pub open spec fn fires(k: Key, down: bool, st: HotkeyState) -> bool {
    down && (k == Key::ScrollLock || (k == Key::Space && st.ctrl && st.alt))
}

/// Switch hotkey: **ScrollLock** or **Ctrl+Alt+Space**.
///
/// Ctrl+Alt+Space is primary because most Mac keyboards have no ScrollLock key. Called for both
/// presses and releases so modifier state stays in sync; returns `true` only on the press that
/// fires.
pub fn hotkey_fired(k: Key, down: bool, st: &mut HotkeyState) -> (r: bool)
    ensures
        r == fires(k, down, *old(st)),
        *final(st) == modifiers_after(k, down, *old(st)),
{
    match k {
        Key::ControlLeft | Key::ControlRight => {
            st.ctrl = down;
        },
        Key::Alt | Key::AltGr => {
            st.alt = down;
        },
        Key::ScrollLock => {
            return down;
        },
        Key::Space => {
            return down && st.ctrl && st.alt;
        },
        _ => {},
    }
    false
}

// ---- Primary side: handing control over and taking it back ----

/// The machine that a panel belongs to, and so the peer that gets what is meant for the panel. A
/// panel that is not in the layout is taken for a machine of its own.
pub open spec fn peer_for(s: Seq<ScreenView>, panel: Seq<char>) -> Seq<char> {
    let i = geom::first_where(s, crate::layout::named(panel));
    if i < s.len() {
        s[i].owner()
    } else {
        panel
    }
}

/// The effect of forwarding an input event to the panel `name`.
pub open spec fn forwarded(v: CtxView, name: Seq<char>, ev: InputEvent) -> EffectView {
    EffectView::Send { target: peer_for(v.layout, name), msg: MessageView::Input(ev) }
}

/// The effect of forwarding a motion to the panel `name`, at the speed of the hand-off.
pub open spec fn forwarded_motion(v: CtxView, name: Seq<char>, dx: i64, dy: i64) -> EffectView {
    let ratio = match v.remote {
        Some(r) => r.ratio,
        None => RATIO_ONE as int,
    };
    forwarded(
        v,
        name,
        InputEvent::MouseMotion {
            dx: geom::scaled(dx as int, ratio) as i64,
            dy: geom::scaled(dy as int, ratio) as i64,
        },
    )
}

/// A place on the edge `side` of the box, `inset` inside it: `fx` or `fy` of the way along.
pub open spec fn on_edge(
    b: (int, int, int, int),
    side: Side,
    inset: int,
    fx: int,
    fy: int,
) -> (int, int) {
    match side {
        Side::Right => (b.2 - inset, geom::along(fy, b.1, b.3)),
        Side::Left => (b.0 + inset, geom::along(fy, b.1, b.3)),
        Side::Bottom => (geom::along(fx, b.0, b.2), b.3 - inset),
        Side::Top => (geom::along(fx, b.0, b.2), b.1 + inset),
    }
}

/// Handing control to the panel `name` beyond the edge `side`, with the cursor at `loc`: the state
/// afterwards and what is done. Nothing happens on a machine without a display.
pub open spec fn entered(v: CtxView, side: Side, name: Seq<char>, loc: (int, int)) -> (
    CtxView,
    Seq<EffectView>,
) {
    let i = local_at(v.layout, loc.0, loc.1);
    if i >= v.layout.len() {
        (v, Seq::empty())
    } else {
        let b = v.layout[i].rect();
        let fx = geom::fraction(loc.0, b.0, b.2);
        let fy = geom::fraction(loc.1, b.1, b.3);
        let park = on_edge(b, side, SUBPX as int, fx, fy);
        let remote = RemoteView {
            name,
            side,
            at: park,
            ratio: speed(v.layout, name, Some(loc), v.trim),
        };
        (
            CtxView {
                remote: Some(remote),
                parked: Some(park),
                held_keys: Seq::empty(),
                held_buttons: Seq::empty(),
                cooldown: None,
                driven: Some(name),
                ..v
            },
            seq![
                EffectView::HideCursor,
                EffectView::Send {
                    target: peer_for(v.layout, name),
                    msg: MessageView::EnterScreen { side, fx, fy },
                },
                EffectView::Log(hand_off_line(name, side, park, remote.ratio)),
            ],
        )
    }
}

/// Letting go, on the panel `name`, of everything that is held down.
pub open spec fn released(v: CtxView, name: Seq<char>) -> Seq<EffectView> {
    v.held_keys.map_values(|key: Key| forwarded(v, name, InputEvent::KeyUp { key }))
        + v.held_buttons.map_values(
        |button: MsButton| forwarded(v, name, InputEvent::MouseUp { button }),
    )
}

/// Where the real cursor belongs when control returns: just inside the edge it left by. `None`
/// where nothing is known about the edge.
pub open spec fn return_point(v: CtxView, loc: Option<(int, int)>) -> Option<(int, int)> {
    match (v.remote, crate::layout::bbox(v.layout, crate::layout::local_panel())) {
        (Some(r), Some(b)) => {
            let (fx, fy) = match loc {
                Some(p) => (geom::fraction(p.0, b.0, b.2), geom::fraction(p.1, b.1, b.3)),
                None => (FRACTION_ONE / 2, FRACTION_ONE / 2),
            };
            Some(on_edge(b, r.side, 12 * SUBPX, fx, fy))
        },
        _ => None,
    }
}

/// The end of the time in which the cursor does not cross again.
pub open spec fn cooldown_end(now: u64) -> nat {
    if now + RETURN_COOLDOWN_MS <= u64::MAX {
        (now + RETURN_COOLDOWN_MS) as nat
    } else {
        u64::MAX as nat
    }
}

/// Taking control back from the panel `name`: the state afterwards and what is done.
pub open spec fn left(v: CtxView, name: Seq<char>, loc: Option<(int, int)>, now: u64) -> (
    CtxView,
    Seq<EffectView>,
) {
    let back = return_point(v, loc);
    (
        CtxView {
            remote: None,
            parked: None,
            held_keys: Seq::empty(),
            held_buttons: Seq::empty(),
            cooldown: Some(cooldown_end(now)),
            driven: None,
            last_real: match back {
                Some(p) => p,
                None => v.last_real,
            },
            ..v
        },
        released(v, name) + seq![EffectView::ShowCursor] + (match back {
            Some(p) if !v.grabbing => seq![EffectView::Warp(p)],
            _ => Seq::empty(),
        }) + seq![
            EffectView::Send { target: peer_for(v.layout, name), msg: MessageView::LeaveScreen },
            EffectView::Log(return_line(name)),
        ],
    )
}

/// Taking control back from whatever is driven.
pub open spec fn returned(v: CtxView, now: u64) -> (CtxView, Seq<EffectView>) {
    match v.remote {
        Some(r) => left(v, r.name, v.parked, now),
        None => (v, Seq::empty()),
    }
}

/// The outer edge of the box that a screen is attached just beyond.
pub open spec fn attached(s: ScreenView, b: (int, int, int, int)) -> Option<Side> {
    let (sl, st, sr, sb) = s.rect();
    if sl >= b.2 - EDGE_ATTACH {
        Some(Side::Right)
    } else if sr <= b.0 + EDGE_ATTACH {
        Some(Side::Left)
    } else if st >= b.3 - EDGE_ATTACH {
        Some(Side::Bottom)
    } else if sb <= b.1 + EDGE_ATTACH {
        Some(Side::Top)
    } else {
        None
    }
}

/// The remote screens in the order in which the hotkey goes through them, each name once.
pub open spec fn rotation(s: Seq<ScreenView>) -> Seq<ScreenView>
    decreases s.len(),
{
    if s.len() == 0 {
        Seq::empty()
    } else {
        let before = rotation(s.drop_last());
        if !s.last().is_local && !crate::layout::has_name(before, s.last().name) {
            before.push(s.last())
        } else {
            before
        }
    }
}

/// The screen that comes after what is driven now, as an index into the rotation: the first one
/// where nothing in it is driven.
pub open spec fn next_in(r: Seq<ScreenView>, remote: Option<RemoteView>) -> int {
    match remote {
        None => 0,
        Some(c) => {
            let i = geom::first_where(r, crate::layout::named(c.name));
            if i < r.len() {
                i + 1
            } else {
                0
            }
        },
    }
}

/// One step of the rotation local, each remote screen, back to local: the state afterwards and
/// what is done.
pub open spec fn cycled(v: CtxView, cursor: Option<(int, int)>, now: u64) -> (
    CtxView,
    Seq<EffectView>,
) {
    let around = crate::layout::bbox(v.layout, crate::layout::local_panel());
    let r = rotation(v.layout);
    let i = next_in(r, v.remote);
    if v.layout.len() <= 1 || around is None || r.len() == 0 {
        (v, Seq::empty())
    } else {
        let (w, first) = returned(v, now);
        if i >= r.len() {
            (w, first)
        } else {
            let side = match attached(r[i], around->0) {
                Some(s) => s,
                None => Side::Right,
            };
            let loc = match cursor {
                Some(p) => p,
                None => (0, 0),
            };
            let (x, second) = entered(w, side, r[i].name, loc);
            (x, first + second)
        }
    }
}

/// The vector without the key `k`.
fn without_key(v: &Vec<Key>, k: Key) -> (r: Vec<Key>)
    ensures
        r@ == v@.filter(|x: Key| x != k),
{
    let ghost keep = |x: Key| x != k;
    let mut r: Vec<Key> = Vec::new();
    let mut i: usize = 0;
    assert(r@ =~= v@.take(0).filter(keep)) by {
        reveal(Seq::filter);
    }
    while i < v.len()
        invariant
            i <= v.len(),
            keep == (|x: Key| x != k),
            r@ == v@.take(i as int).filter(keep),
        decreases v.len() - i,
    {
        if v[i] != k {
            r.push(v[i]);
        }
        proof {
            assert(v@.take(i as int + 1).drop_last() =~= v@.take(i as int));
            reveal(Seq::filter);
        }
        i += 1;
    }
    assert(v@.take(i as int) =~= v@);
    r
}

/// The vector without the button `b`.
fn without_button(v: &Vec<MsButton>, b: MsButton) -> (r: Vec<MsButton>)
    ensures
        r@ == v@.filter(|x: MsButton| x != b),
{
    let ghost keep = |x: MsButton| x != b;
    let mut r: Vec<MsButton> = Vec::new();
    let mut i: usize = 0;
    assert(r@ =~= v@.take(0).filter(keep)) by {
        reveal(Seq::filter);
    }
    while i < v.len()
        invariant
            i <= v.len(),
            keep == (|x: MsButton| x != b),
            r@ == v@.take(i as int).filter(keep),
        decreases v.len() - i,
    {
        if v[i] != b {
            r.push(v[i]);
        }
        proof {
            assert(v@.take(i as int + 1).drop_last() =~= v@.take(i as int));
            reveal(Seq::filter);
        }
        i += 1;
    }
    assert(v@.take(i as int) =~= v@);
    r
}

/// A place on the edge `side` of the box, `inset` inside it.
fn edge_point(b: (i64, i64, i64, i64), side: Side, inset: i64, fx: i64, fy: i64) -> (r: (i64, i64))
    requires
        crate::layout::on_desktop(b),
        0 <= inset <= 12 * SUBPX,
    ensures
        point(r) == on_edge(
            (b.0 as int, b.1 as int, b.2 as int, b.3 as int),
            side,
            inset as int,
            fx as int,
            fy as int,
        ),
{
    match side {
        Side::Right => (b.2 - inset, geom::point_along(fy, b.1, b.3)),
        Side::Left => (b.0 + inset, geom::point_along(fy, b.1, b.3)),
        Side::Bottom => (geom::point_along(fx, b.0, b.2), b.3 - inset),
        Side::Top => (geom::point_along(fx, b.0, b.2), b.1 + inset),
    }
}

/// The peer that gets what is meant for the panel `panel`.
fn peer_of_panel(l: &Layout, panel: &str) -> (r: String)
    ensures
        r@ == peer_for(l@, panel@),
{
    match l.index_of(panel) {
        Some(i) => {
            assert(l@[i as int] == l.screens[i as int]@);
            l.screens[i].host().to_owned()
        },
        None => panel.to_owned(),
    }
}

/// Which outer edge of the local box is `s` attached just beyond?
pub fn attached_side(s: &Screen, bbox: (i64, i64, i64, i64)) -> (r: Option<Side>)
    ensures
        r == attached(s@, (bbox.0 as int, bbox.1 as int, bbox.2 as int, bbox.3 as int)),
{
    let (bl, bt, br, bb) = bbox;
    let (sl, st, sr, sb) = s.rect();
    let reach: i128 = EDGE_ATTACH as i128;
    if sl as i128 >= br as i128 - reach {
        Some(Side::Right)
    } else if sr as i128 <= bl as i128 + reach {
        Some(Side::Left)
    } else if st as i128 >= bb as i128 - reach {
        Some(Side::Bottom)
    } else if sb as i128 <= bt as i128 + reach {
        Some(Side::Top)
    } else {
        None
    }
}

/// Every panel is at least one pixel wide and high.
pub open spec fn all_have_area(s: Seq<ScreenView>) -> bool {
    forall|i: int| 0 <= i < s.len() ==> (#[trigger] s[i]).w > 0 && s[i].h > 0
}

impl GrabCtx {
    /// Forward an input event to the panel `name`.
    fn forward(&self, fx: &mut Vec<Effect>, name: &str, ev: InputEvent)
        ensures
            effect_views(final(fx)@) == effect_views(old(fx)@).push(forwarded(self@, name@, ev)),
    {
        let e = Effect::Send {
            target: peer_of_panel(&self.ctrl.layout_snap, name),
            msg: Message::Input(ev),
        };
        fx.push(e);
        assert(effect_views(fx@) =~= effect_views(old(fx)@).push(e@));
    }

    /// Forward a motion to the panel `name`, in the receiver's units.
    fn forward_motion(&self, fx: &mut Vec<Effect>, name: &str, dx: i64, dy: i64)
        requires
            self.paced(),
        ensures
            effect_views(final(fx)@) == effect_views(old(fx)@).push(
                forwarded_motion(self@, name@, dx, dy),
            ),
    {
        let ratio: i64 = match &self.ctrl.remote {
            Some(r) => r.scale_ratio,
            None => RATIO_ONE,
        };
        self.forward(
            fx,
            name,
            InputEvent::MouseMotion {
                dx: geom::scale_by(dx, ratio),
                dy: geom::scale_by(dy, ratio),
            },
        );
    }

    /// The speed of a hand-off is inside its bounds.
    pub open spec fn paced(&self) -> bool {
        self.ctrl.remote matches Some(r) ==> 0 <= r.scale_ratio <= MAX_EFFECTIVE_RATIO
    }

    /// What always holds: the speed of a hand-off is inside its bounds, and every display of this
    /// machine, as well as the box around them, is at least one pixel wide and high.
    pub open spec fn wf(&self) -> bool {
        &&& self.paced()
        &&& all_have_area(crate::layout::views(self.ctrl.local_screens@))
        &&& self.ctrl.local_bbox matches Some(b) ==> crate::layout::on_desktop(b) && b.2 - b.0
            >= SUBPX && b.3 - b.1 >= SUBPX
    }

    /// Begin forwarding control to `name` (attached on `side`). Hides the local cursor, parks it at
    /// the shared edge, and tells the secondary the cursor is entering (so it can seed its own
    /// virtual cursor).
    ///
    /// The cursor is parked on the *display it is leaving*, not on the union bounding box: on a
    /// multi-monitor machine the box can be much taller than the screen you crossed from.
    fn enter_forwarding(&mut self, fx: &mut Vec<Effect>, side: Side, name: &str, loc: (i64, i64))
        ensures
            final(self)@ == entered(old(self)@, side, name@, point(loc)).0,
            effect_views(final(fx)@) == effect_views(old(fx)@) + entered(
                old(self)@,
                side,
                name@,
                point(loc),
            ).1,
            old(self).paced() ==> final(self).paced(),
            local_at(old(self)@.layout, loc.0 as int, loc.1 as int) < old(self)@.layout.len()
                ==> final(self).paced(),
            final(self).ctrl.local_bbox == old(self).ctrl.local_bbox,
            final(self).ctrl.local_screens == old(self).ctrl.local_screens,
    {
        let here: usize = match local_screen_at(&self.ctrl.layout_snap, loc.0, loc.1) {
            Some(i) => i,
            None => {
                assert(effect_views(fx@) =~= effect_views(fx@) + Seq::<EffectView>::empty());
                return;
            },
        };
        let ghost v0 = self@;
        assert(v0.layout[here as int] == self.ctrl.layout_snap.screens[here as int]@);
        let b = self.ctrl.layout_snap.screens[here].rect();
        let fracx: i64 = geom::fraction_of(loc.0, b.0, b.2);
        let fracy: i64 = geom::fraction_of(loc.1, b.1, b.3);
        let park = edge_point(b, side, SUBPX, fracx, fracy);
        let ratio: i64 = motion_scale_ratio(
            &self.ctrl.layout_snap,
            name,
            Some(loc),
            self.ctrl.motion_scale,
        );
        let target = peer_of_panel(&self.ctrl.layout_snap, name);
        self.ctrl.remote = Some(
            RemoteCtrl {
                name: name.to_owned(),
                side,
                vx: park.0,
                vy: park.1,
                scale_ratio: ratio,
            },
        );
        self.ctrl.parked = Some(park);
        self.ctrl.held_keys = Vec::new();
        self.ctrl.held_buttons = Vec::new();
        self.ctrl.cooldown_until = None;
        self.mode = CaptureMode::Forwarding(name.to_owned());
        let e = Effect::Send {
            target,
            msg: Message::EnterScreen { side, fx: fracx, fy: fracy },
        };
        let line = Effect::Log(log_hand_off(name, side, park, ratio));
        fx.push(Effect::HideCursor);
        fx.push(e);
        fx.push(line);
        proof {
            let want = entered(v0, side, name@, point(loc));
            assert(effect_views(fx@) =~= effect_views(old(fx)@) + want.1);
            assert(self@ =~= want.0);
        }
    }

    /// Return control to the local machine: release any held keys/buttons on the remote, show the
    /// local cursor, park it just inside the shared edge, and tell the secondary control left.
    fn leave_forwarding(&mut self, fx: &mut Vec<Effect>, name: &str, loc: Option<(i64, i64)>, now: u64)
        ensures
            final(self)@ == left(old(self)@, name@, opt_point(loc), now).0,
            effect_views(final(fx)@) == effect_views(old(fx)@) + left(
                old(self)@,
                name@,
                opt_point(loc),
                now,
            ).1,
            final(self).paced(),
            final(self).ctrl.local_bbox == old(self).ctrl.local_bbox,
            final(self).ctrl.local_screens == old(self).ctrl.local_screens,
    {
        let ghost v0 = self@;
        let ghost e0 = effect_views(fx@);
        let ghost fk = |key: Key| forwarded(v0, name@, InputEvent::KeyUp { key });
        let ghost fb = |button: MsButton| forwarded(v0, name@, InputEvent::MouseUp { button });
        let mut i: usize = 0;
        while i < self.ctrl.held_keys.len()
            invariant
                i <= self.ctrl.held_keys.len(),
                self@ == v0,
                *self == *old(self),
                fk == (|key: Key| forwarded(v0, name@, InputEvent::KeyUp { key })),
                effect_views(fx@) == e0 + v0.held_keys.take(i as int).map_values(fk),
            decreases self.ctrl.held_keys.len() - i,
        {
            let key = self.ctrl.held_keys[i];
            self.forward(fx, name, InputEvent::KeyUp { key });
            i += 1;
            assert(v0.held_keys.take(i as int).map_values(fk) =~= v0.held_keys.take(
                i as int - 1,
            ).map_values(fk).push(fk(key)));
            assert(effect_views(fx@) =~= e0 + v0.held_keys.take(i as int).map_values(fk));
        }
        assert(v0.held_keys.take(i as int) =~= v0.held_keys);
        let ghost e1 = effect_views(fx@);
        let mut k: usize = 0;
        assert(e1 =~= e1 + v0.held_buttons.take(0).map_values(fb));
        while k < self.ctrl.held_buttons.len()
            invariant
                k <= self.ctrl.held_buttons.len(),
                self@ == v0,
                *self == *old(self),
                fb == (|button: MsButton| forwarded(v0, name@, InputEvent::MouseUp { button })),
                effect_views(fx@) == e1 + v0.held_buttons.take(k as int).map_values(fb),
            decreases self.ctrl.held_buttons.len() - k,
        {
            let button = self.ctrl.held_buttons[k];
            self.forward(fx, name, InputEvent::MouseUp { button });
            k += 1;
            assert(v0.held_buttons.take(k as int).map_values(fb) =~= v0.held_buttons.take(
                k as int - 1,
            ).map_values(fb).push(fb(button)));
            assert(effect_views(fx@) =~= e1 + v0.held_buttons.take(k as int).map_values(fb));
        }
        assert(v0.held_buttons.take(k as int) =~= v0.held_buttons);
        assert(effect_views(fx@) =~= e0 + released(v0, name@));
        let target = peer_of_panel(&self.ctrl.layout_snap, name);
        let side: Option<Side> = match &self.ctrl.remote {
            Some(r) => Some(r.side),
            None => None,
        };
        self.ctrl.remote = None;
        self.ctrl.parked = None;
        self.ctrl.held_keys = Vec::new();
        self.ctrl.held_buttons = Vec::new();
        self.mode = CaptureMode::Local;
        self.ctrl.cooldown_until = Some(now.saturating_add(RETURN_COOLDOWN_MS));
        let ghost e2 = effect_views(fx@);
        fx.push(Effect::ShowCursor);
        assert(effect_views(fx@) =~= e2 + seq![EffectView::ShowCursor]);
        let ghost e3 = effect_views(fx@);
        let ghost warp: Seq<EffectView> = Seq::empty();
        assert(e3 =~= e3 + warp);
        match (side, self.ctrl.layout_snap.local_bbox()) {
            (Some(side), Some(b)) => {
                let (fracx, fracy): (i64, i64) = match loc {
                    Some(p) => (
                        geom::fraction_of(p.0, b.0, b.2),
                        geom::fraction_of(p.1, b.1, b.3),
                    ),
                    None => (FRACTION_ONE / 2, FRACTION_ONE / 2),
                };
                let target = edge_point(b, side, 12 * SUBPX, fracx, fracy);
                if !self.grabbing {
                    let e = Effect::Warp { x: target.0, y: target.1 };
                    fx.push(e);
                    proof {
                        warp = seq![e@];
                    }
                    assert(effect_views(fx@) =~= e3 + warp);
                }
                self.ctrl.last_real = target;
                assert(return_point(v0, opt_point(loc)) == Some(point(target)));
            },
            _ => {
                assert(return_point(v0, opt_point(loc)) is None);
            },
        }
        let ghost e4 = effect_views(fx@);
        let e = Effect::Send { target, msg: Message::LeaveScreen };
        let line = Effect::Log(log_return(name));
        fx.push(e);
        fx.push(line);
        proof {
            let want = left(v0, name@, opt_point(loc), now);
            assert(effect_views(fx@) =~= e4 + seq![e@, line@]);
            assert(e4 =~= e3 + warp);
            assert(effect_views(fx@) =~= e0 + want.1);
            assert(self@ =~= want.0);
        }
    }
}

/// Whether a point lies in MouseShare's own window.
pub open spec fn in_window(v: CtxView, location: Option<(int, int)>) -> bool {
    match (v.window, location) {
        (Some((l, t, r, b)), Some(p)) => l <= p.0 <= r && t <= p.1 <= b,
        _ => false,
    }
}

/// What the control plane makes of an event that the capture layer reports: the state afterwards,
/// what is done, and whether the event is to be dropped.
pub open spec fn captured(
    v: CtxView,
    net: NetView,
    raw: RawInput,
    location: Option<(int, int)>,
    cursor: Option<(int, int)>,
    now: u64,
) -> (CtxView, Seq<EffectView>, bool) {
    match v.driven {
        _ if raw is Mods => (
            CtxView { hk: HotkeyState { ctrl: raw->Mods_ctrl, alt: raw->Mods_alt }, ..v },
            Seq::empty(),
            false,
        ),
        None => match raw {
            RawInput::Motion { dx, dy } => {
                let resting = v.cooldown matches Some(t) && now < t;
                match location {
                    Some(loc) if !resting => match crossing(v.layout, loc, (dx as int, dy as int)) {
                        Some((side, k)) => {
                            let name = v.layout[k].name;
                            let (w, done) = entered(v, side, name, loc);
                            (w, done.push(forwarded_motion(w, name, dx, dy)), true)
                        },
                        None => (v, Seq::empty(), false),
                    },
                    _ => (v, Seq::empty(), false),
                }
            },
            RawInput::KeyDown(k) => {
                let w = CtxView { hk: modifiers_after(k, true, v.hk), ..v };
                if fires(k, true, v.hk) {
                    let (x, done) = cycled(w, cursor, now);
                    (x, done, false)
                } else {
                    (w, Seq::empty(), false)
                }
            },
            RawInput::KeyUp(k) => (
                CtxView { hk: modifiers_after(k, false, v.hk), ..v },
                Seq::empty(),
                false,
            ),
            _ => (v, Seq::empty(), false),
        },
        Some(name) => match raw {
            RawInput::Motion { dx, dy } => if net.reaches(peer_for(v.layout, name)) {
                (
                    v,
                    seq![forwarded_motion(v, name, dx, dy)] + (match v.parked {
                        Some(p) => seq![EffectView::Park(p)],
                        None => Seq::empty(),
                    }),
                    true,
                )
            } else {
                let (w, done) = left(v, name, location, now);
                (w, done, false)
            },
            RawInput::ButtonDown(button) => if in_window(v, location) {
                let (w, done) = left(v, name, v.parked, now);
                (w, seq![EffectView::Log(click_line())] + done, false)
            } else {
                (
                    CtxView { held_buttons: v.held_buttons.push(button), ..v },
                    seq![forwarded(v, name, InputEvent::MouseDown { button })],
                    true,
                )
            },
            RawInput::ButtonUp(button) => (
                CtxView {
                    held_buttons: v.held_buttons.filter(|x: MsButton| x != button),
                    ..v
                },
                seq![forwarded(v, name, InputEvent::MouseUp { button })],
                true,
            ),
            RawInput::Wheel { dx, dy } => (
                v,
                seq![forwarded(v, name, InputEvent::Wheel { dx, dy })],
                true,
            ),
            RawInput::KeyDown(key) => (
                CtxView { held_keys: v.held_keys.push(key), ..v },
                seq![forwarded(v, name, InputEvent::KeyDown { key })],
                true,
            ),
            RawInput::KeyUp(key) => (
                CtxView { held_keys: v.held_keys.filter(|x: Key| x != key), ..v },
                seq![forwarded(v, name, InputEvent::KeyUp { key })],
                true,
            ),
            RawInput::Mods { .. } => (v, Seq::empty(), false),
        },
    }
}

/// Entry point called by the capture layer for every event. `location` is the cursor's position
/// as far as the event tells it, `cursor` where the real cursor is now, `now` the time in
/// milliseconds. Returns `true` if the capture layer should **drop** the event.
///
/// While a secondary has control every delta is forwarded and the local event dropped. The RETURN
/// decision lives on the secondary: it tracks its own virtual cursor (clamped to its own screen)
/// and asks for control back when that cursor is pushed across the shared edge. Only when the
/// secondary dropped mid-hand-off does control return by itself, rather than forwarding into a
/// dead socket (which would leave the cursor hidden and stuck), and when the user clicks inside
/// MouseShare's own window, which then gets the click.
pub fn on_capture(
    ctx: &mut GrabCtx,
    net: &Net,
    raw: RawInput,
    location: Option<(i64, i64)>,
    cursor: Option<(i64, i64)>,
    now: u64,
) -> (r: (bool, Vec<Effect>))
    requires
        old(ctx).wf(),
    ensures
        final(ctx).wf(),
        (final(ctx)@, effect_views(r.1@), r.0) == captured(
            old(ctx)@,
            net@,
            raw,
            opt_point(location),
            opt_point(cursor),
            now,
        ),
{
    let ghost v0 = ctx@;
    let ghost want = captured(v0, net@, raw, opt_point(location), opt_point(cursor), now);
    let mut fx: Vec<Effect> = Vec::new();
    assert(effect_views(fx@) =~= Seq::<EffectView>::empty());
    if let RawInput::Mods { ctrl, alt } = raw {
        ctx.ctrl.hk = HotkeyState { ctrl, alt };
        assert(ctx@ =~= want.0);
        return (false, fx);
    }
    let name: Option<String> = match &ctx.mode {
        CaptureMode::Local => None,
        CaptureMode::Forwarding(n) => Some(n.clone()),
    };
    match name {
        None => match raw {
            RawInput::Motion { dx, dy } => {
                if let Some(t) = ctx.ctrl.cooldown_until {
                    if now < t {
                        return (false, fx);
                    }
                }
                let loc: (i64, i64) = match location {
                    Some(p) => p,
                    None => {
                        return (false, fx);
                    },
                };
                match predict_cross(&ctx.ctrl.layout_snap, loc, (dx, dy)) {
                    Some((side, panel)) => {
                        proof {
                            crossings_lead_to_neighbours(
                                v0.layout,
                                point(loc),
                                (dx as int, dy as int),
                            );
                        }
                        ctx.enter_forwarding(&mut fx, side, panel.as_str(), loc);
                        // The speed is set by the hand-off, so it is read only now.
                        ctx.forward_motion(&mut fx, panel.as_str(), dx, dy);
                        assert(effect_views(fx@) =~= want.1);
                        (true, fx)
                    },
                    None => (false, fx),
                }
            },
            RawInput::KeyDown(k) => {
                let fired = hotkey_fired(k, true, &mut ctx.ctrl.hk);
                assert(ctx@ =~= (CtxView { hk: modifiers_after(k, true, v0.hk), ..v0 }));
                if fired {
                    let done = cycle_control(ctx, cursor, now);
                    return (false, done);
                }
                (false, fx)
            },
            RawInput::KeyUp(k) => {
                let _fired = hotkey_fired(k, false, &mut ctx.ctrl.hk);
                assert(ctx@ =~= (CtxView { hk: modifiers_after(k, false, v0.hk), ..v0 }));
                (false, fx)
            },
            _ => (false, fx),
        },
        Some(name) => match raw {
            RawInput::Motion { dx, dy } => {
                let peer = peer_of_panel(&ctx.ctrl.layout_snap, name.as_str());
                if !net.has_peer(peer.as_str()) {
                    ctx.leave_forwarding(&mut fx, name.as_str(), location, now);
                    assert(effect_views(fx@) =~= want.1);
                    return (false, fx);
                }
                ctx.forward_motion(&mut fx, name.as_str(), dx, dy);
                if let Some(p) = ctx.ctrl.parked {
                    let e = Effect::Park { x: p.0, y: p.1 };
                    fx.push(e);
                }
                assert(effect_views(fx@) =~= want.1);
                (true, fx)
            },
            RawInput::ButtonDown(button) => {
                let clicked = match (ctx.ui_window_rect, location) {
                    (Some((l, t, r, b)), Some(p)) => l <= p.0 && p.0 <= r && t <= p.1 && p.1 <= b,
                    _ => false,
                };
                if clicked {
                    let line = Effect::Log(log_click());
                    fx.push(line);
                    assert(effect_views(fx@) =~= seq![line@]);
                    let parked = ctx.ctrl.parked;
                    ctx.leave_forwarding(&mut fx, name.as_str(), parked, now);
                    assert(effect_views(fx@) =~= want.1);
                    return (false, fx);
                }
                ctx.forward(&mut fx, name.as_str(), InputEvent::MouseDown { button });
                ctx.ctrl.held_buttons.push(button);
                assert(effect_views(fx@) =~= want.1);
                assert(ctx@ =~= want.0);
                (true, fx)
            },
            RawInput::ButtonUp(button) => {
                ctx.forward(&mut fx, name.as_str(), InputEvent::MouseUp { button });
                ctx.ctrl.held_buttons = without_button(&ctx.ctrl.held_buttons, button);
                assert(effect_views(fx@) =~= want.1);
                assert(ctx@ =~= want.0);
                (true, fx)
            },
            RawInput::Wheel { dx, dy } => {
                ctx.forward(&mut fx, name.as_str(), InputEvent::Wheel { dx, dy });
                assert(effect_views(fx@) =~= want.1);
                (true, fx)
            },
            RawInput::KeyDown(key) => {
                ctx.forward(&mut fx, name.as_str(), InputEvent::KeyDown { key });
                ctx.ctrl.held_keys.push(key);
                assert(effect_views(fx@) =~= want.1);
                assert(ctx@ =~= want.0);
                (true, fx)
            },
            RawInput::KeyUp(key) => {
                ctx.forward(&mut fx, name.as_str(), InputEvent::KeyUp { key });
                ctx.ctrl.held_keys = without_key(&ctx.ctrl.held_keys, key);
                assert(effect_views(fx@) =~= want.1);
                assert(ctx@ =~= want.0);
                (true, fx)
            },
            RawInput::Mods { .. } => (false, fx),
        },
    }
}

/// The secondary asked for control back (its cursor was pushed back across the shared edge).
/// Return to local if we are currently forwarding. Unlike [`cycle_control`], this always returns to
/// the primary rather than rotating to the next machine.
pub fn return_control(ctx: &mut GrabCtx, now: u64) -> (r: Vec<Effect>)
    requires
        old(ctx).wf(),
    ensures
        final(ctx).wf(),
        (final(ctx)@, effect_views(r@)) == returned(old(ctx)@, now),
{
    let mut fx: Vec<Effect> = Vec::new();
    assert(effect_views(fx@) =~= Seq::<EffectView>::empty());
    let ghost v0 = ctx@;
    let name: Option<String> = match &ctx.ctrl.remote {
        Some(r) => Some(r.name.clone()),
        None => None,
    };
    if let Some(name) = name {
        let loc = ctx.ctrl.parked;
        ctx.leave_forwarding(&mut fx, name.as_str(), loc, now);
        assert(effect_views(fx@) =~= returned(v0, now).1);
    }
    fx
}

/// The remote screens that the hotkey goes through, as places in the layout.
fn rotation_of(l: &Layout) -> (r: Vec<usize>)
    ensures
        r@.len() == rotation(l@).len(),
        forall|i: int| 0 <= i < r@.len() ==> #[trigger] r@[i] < l@.len() && l@[r@[i] as int]
            == rotation(l@)[i],
{
    let mut r: Vec<usize> = Vec::new();
    let mut i: usize = 0;
    while i < l.screens.len()
        invariant
            i <= l.screens.len(),
            r@.len() == rotation(l@.take(i as int)).len(),
            forall|j: int|
                0 <= j < r@.len() ==> #[trigger] r@[j] < l@.len() && l@[r@[j] as int] == rotation(
                    l@.take(i as int),
                )[j],
        decreases l.screens.len() - i,
    {
        assert(l@[i as int] == l.screens[i as int]@);
        let ghost before = rotation(l@.take(i as int));
        proof {
            assert(l@.take(i as int + 1).drop_last() =~= l@.take(i as int));
        }
        if !l.screens[i].is_local {
            let ghost name = l@[i as int].name;
            let mut seen = false;
            let mut k: usize = 0;
            while k < r.len()
                invariant
                    k <= r.len(),
                    i < l.screens.len(),
                    name == l.screens[i as int].name@,
                    r@.len() == before.len(),
                    forall|j: int|
                        0 <= j < r@.len() ==> #[trigger] r@[j] < l@.len() && l@[r@[j] as int]
                            == before[j],
                    seen <==> exists|j: int|
                        0 <= j < k && crate::layout::named(name)(#[trigger] before[j]),
                decreases r.len() - k,
            {
                assert(r@[k as int] < l@.len());
                assert(before[k as int] == l.screens[r@[k as int] as int]@);
                if same(l.screens[r[k]].name.as_str(), l.screens[i].name.as_str()) {
                    seen = true;
                    assert(crate::layout::named(name)(before[k as int]));
                }
                k += 1;
            }
            proof {
                geom::lemma_first_where(before, crate::layout::named(name));
                let f = geom::first_where(before, crate::layout::named(name));
                if f < before.len() {
                    assert(crate::layout::named(name)(before[f]));
                }
                assert(seen == crate::layout::has_name(before, name));
            }
            if !seen {
                r.push(i);
            }
        }
        i += 1;
    }
    assert(l@.take(i as int) =~= l@);
    r
}

/// Where the screen `name` stands in the rotation, or its length where it is not in it.
fn place_in(l: &Layout, remotes: &Vec<usize>, name: &str) -> (r: usize)
    requires
        remotes@.len() == rotation(l@).len(),
        forall|i: int| 0 <= i < remotes@.len() ==> #[trigger] remotes@[i] < l@.len() && l@[remotes@[i] as int]
            == rotation(l@)[i],
    ensures
        r == geom::first_where(rotation(l@), crate::layout::named(name@)),
{
    let ghost rot = rotation(l@);
    let ghost p = crate::layout::named(name@);
    let mut i: usize = 0;
    while i < remotes.len()
        invariant
            i <= remotes.len(),
            rot == rotation(l@),
            p == crate::layout::named(name@),
            remotes@.len() == rot.len(),
            forall|j: int|
                0 <= j < remotes@.len() ==> #[trigger] remotes@[j] < l@.len()
                    && l@[remotes@[j] as int] == rot[j],
            forall|j: int| 0 <= j < i ==> !p(#[trigger] rot[j]),
        decreases remotes.len() - i,
    {
        assert(remotes@[i as int] < l@.len());
        assert(rot[i as int] == l.screens[remotes@[i as int] as int]@);
        if same(l.screens[remotes[i]].name.as_str(), name) {
            proof {
                geom::lemma_first_where_unique(rot, p, i as int);
            }
            return i;
        }
        i += 1;
    }
    proof {
        geom::lemma_first_where_unique(rot, p, i as int);
    }
    i
}

/// Rotate control: local, each secondary, back to local. Invoked by the hotkey on the primary.
/// `cursor` is where the real cursor is now.
pub fn cycle_control(ctx: &mut GrabCtx, cursor: Option<(i64, i64)>, now: u64) -> (r: Vec<Effect>)
    requires
        old(ctx).wf(),
    ensures
        final(ctx).wf(),
        (final(ctx)@, effect_views(r@)) == cycled(old(ctx)@, opt_point(cursor), now),
{
    let mut fx: Vec<Effect> = Vec::new();
    assert(effect_views(fx@) =~= Seq::<EffectView>::empty());
    let ghost v0 = ctx@;
    let ghost rot = rotation(v0.layout);
    if ctx.ctrl.layout_snap.screens.len() <= 1 {
        return fx;
    }
    let bbox: (i64, i64, i64, i64) = match ctx.ctrl.layout_snap.local_bbox() {
        Some(b) => b,
        None => {
            return fx;
        },
    };
    let remotes = rotation_of(&ctx.ctrl.layout_snap);
    if remotes.len() == 0 {
        return fx;
    }
    let idx: usize = match &ctx.ctrl.remote {
        Some(r) => {
            let at: usize = place_in(&ctx.ctrl.layout_snap, &remotes, r.name.as_str());
            if at < remotes.len() {
                at + 1
            } else {
                0
            }
        },
        None => 0,
    };
    assert(idx == next_in(rot, v0.remote));
    let name: Option<String> = match &ctx.ctrl.remote {
        Some(r) => Some(r.name.clone()),
        None => None,
    };
    if idx >= remotes.len() {
        if let Some(name) = name {
            let loc = ctx.ctrl.parked;
            ctx.leave_forwarding(&mut fx, name.as_str(), loc, now);
            assert(effect_views(fx@) =~= returned(v0, now).1);
        }
        return fx;
    }
    assert(remotes@[idx as int] < v0.layout.len());
    let s: usize = remotes[idx];
    assert(rot[idx as int] == ctx.ctrl.layout_snap.screens[s as int]@);
    let side: Side = match attached_side(&ctx.ctrl.layout_snap.screens[s], bbox) {
        Some(side) => side,
        None => Side::Right,
    };
    let panel = ctx.ctrl.layout_snap.screens[s].name.clone();
    if let Some(name) = name {
        let loc = ctx.ctrl.parked;
        ctx.leave_forwarding(&mut fx, name.as_str(), loc, now);
    }
    assert(effect_views(fx@) =~= returned(v0, now).1);
    assert(ctx@ == returned(v0, now).0);
    let loc: (i64, i64) = match cursor {
        Some(p) => p,
        None => (0, 0),
    };
    ctx.enter_forwarding(&mut fx, side, panel.as_str(), loc);
    assert(effect_views(fx@) =~= cycled(v0, opt_point(cursor), now).1);
    fx
}

// ---- Secondary side: receiving control ----

/// Among displays of at least one pixel every point can be pulled into the nearest.
proof fn lemma_can_pull(s: Seq<ScreenView>, x: int, y: int)
    requires
        all_have_area(s),
    ensures
        crate::layout::can_pull(s, x, y),
{
    geom::lemma_nearest_where(s, crate::layout::any_panel(), crate::layout::away2(x, y));
}

/// Where the virtual cursor appears when control arrives.
pub open spec fn seeded(
    s: Seq<ScreenView>,
    bbox: Option<(int, int, int, int)>,
    side: Side,
    fx: int,
    fy: int,
) -> (int, int) {
    match bbox {
        None => (0, 0),
        Some(b) => {
            let p = on_edge(b, side, 2 * SUBPX, fx, fy);
            crate::layout::pulled_to_screens(s, p.0, p.1)
        },
    }
}

/// Whether two coordinates are less than half a pixel apart.
pub open spec fn half_pixel_apart(a: int, b: int) -> bool {
    -(SUBPX / 2) < a - b < SUBPX / 2
}

/// Whether the virtual cursor at `at` stays on its display when it is moved by `(dx, dy)`.
pub open spec fn stays(s: Seq<ScreenView>, at: (int, int), dx: int, dy: int) -> bool {
    let nx = geom::sat(at.0 + dx);
    let ny = geom::sat(at.1 + dy);
    let i = geom::first_where(s, crate::layout::holding(at.0, at.1));
    let inside = crate::layout::pulled_inside(s[i], nx, ny);
    i < s.len() && half_pixel_apart(nx, inside.0) && half_pixel_apart(ny, inside.1)
}

/// Where the virtual cursor at `at` goes when it is moved by `(dx, dy)`.
pub open spec fn stepped(
    s: Seq<ScreenView>,
    bbox: Option<(int, int, int, int)>,
    at: (int, int),
    dx: int,
    dy: int,
) -> (int, int) {
    let nx = geom::sat(at.0 + dx);
    let ny = geom::sat(at.1 + dy);
    if s.len() > 0 {
        if stays(s, at, dx, dy) {
            let i = geom::first_where(s, crate::layout::holding(at.0, at.1));
            crate::layout::pulled_inside(s[i], nx, ny)
        } else {
            crate::layout::pulled_to_screens(s, nx, ny)
        }
    } else {
        match bbox {
            Some(b) => (
                geom::clamped(nx, b.0, b.2 - SUBPX),
                geom::clamped(ny, b.1, b.3 - SUBPX),
            ),
            None => (nx, ny),
        }
    }
}

/// Control arrives across the edge `side` of the primary: the state afterwards and what is done.
pub open spec fn arrived(v: CtxView, side: Side, fx: int, fy: int) -> (CtxView, Seq<EffectView>) {
    match v.bbox {
        None => (v, Seq::empty()),
        Some(_) => {
            let facing = crate::layout::facing(side);
            let at = seeded(v.screens, v.bbox, facing, fx, fy);
            (
                CtxView {
                    remote: Some(
                        RemoteView {
                            name: v.primary_name,
                            side: facing,
                            at,
                            ratio: RATIO_ONE as int,
                        },
                    ),
                    ..v
                },
                seq![EffectView::HideCursor, EffectView::Log(enter_line(facing, at))],
            )
        },
    }
}

/// A forwarded event arrives: the state afterwards and what is done.
pub open spec fn driven_by(v: CtxView, ev: InputEvent) -> (CtxView, Seq<EffectView>) {
    match v.remote {
        None => (v, Seq::empty()),
        Some(r) => match ev {
            InputEvent::MouseMotion { dx, dy } => if v.bbox is Some && pushed_back(
                r.side,
                r.at,
                v.bbox->0,
                dx as int,
                dy as int,
            ) {
                (
                    v,
                    seq![
                        EffectView::Reply(MessageView::ReturnControl),
                        EffectView::Log(edge_return_line(r.side, r.at, (dx as int, dy as int))),
                    ],
                )
            } else {
                let at = stepped(v.screens, v.bbox, r.at, dx as int, dy as int);
                (
                    CtxView { remote: Some(RemoteView { at, ..r }), ..v },
                    seq![EffectView::Warp(at)],
                )
            },
            _ => (v, seq![EffectView::Inject(ev)]),
        },
    }
}

/// Pull `(x, y)` into the nearest local display (or leave it alone when we know of none).
pub fn clamp_to_screens(screens: &Vec<Screen>, x: i64, y: i64) -> (r: (i64, i64))
    requires
        crate::layout::can_pull(crate::layout::views(screens@), x as int, y as int),
    ensures
        point(r) == crate::layout::pulled_to_screens(crate::layout::views(screens@), x as int, y as int),
{
    match nearest_screen(screens, false, x, y) {
        Some(i) => {
            assert(crate::layout::views(screens@)[i as int] == screens[i as int]@);
            let (a, b, c, d) = screens[i].rect();
            (geom::clamp(x, a, c - SUBPX), geom::clamp(y, b, d - SUBPX))
        },
        None => (x, y),
    }
}

/// Where a secondary seeds its virtual cursor when control arrives: on the display that faces
/// the primary, at the same fraction along the shared edge.
///
/// With several local displays the entry edge belongs to the *outermost* one on that side, so
/// seeding from the union bounding box alone could drop the cursor into dead space between two
/// panels, or onto the wrong one.
pub fn seed_position(
    screens: &Vec<Screen>,
    bbox: Option<(i64, i64, i64, i64)>,
    side: Side,
    fx: i64,
    fy: i64,
) -> (r: (i64, i64))
    requires
        bbox matches Some(b) ==> {
            let p = on_edge(
                (b.0 as int, b.1 as int, b.2 as int, b.3 as int),
                side,
                2 * SUBPX,
                fx as int,
                fy as int,
            );
            crate::layout::on_desktop(b) && crate::layout::can_pull(
                crate::layout::views(screens@),
                p.0,
                p.1,
            )
        },
    ensures
        point(r) == seeded(
            crate::layout::views(screens@),
            crate::layout::wide(bbox),
            side,
            fx as int,
            fy as int,
        ),
{
    match bbox {
        None => (0, 0),
        Some(b) => {
            let p = edge_point(b, side, 2 * SUBPX, fx, fy);
            clamp_to_screens(screens, p.0, p.1)
        },
    }
}

/// Whether two coordinates are less than half a pixel apart.
fn nearly(a: i64, b: i64) -> (r: bool)
    ensures
        r == half_pixel_apart(a as int, b as int),
{
    let d: i128 = a as i128 - b as i128;
    let half: i128 = (SUBPX / 2) as i128;
    -half < d && d < half
}

/// Advance the secondary's virtual cursor by `(dx, dy)`.
///
/// Inside a display the motion is free; when it would leave that display we land on whichever
/// *other* local display is closest: that is what lets a secondary with several monitors be
/// driven across all of them. Handing control back is a separate decision: it only happens at
/// the outermost edge facing the primary (see [`crossing_back`]).
pub fn step_local(
    screens: &Vec<Screen>,
    bbox: Option<(i64, i64, i64, i64)>,
    vx: i64,
    vy: i64,
    dx: i64,
    dy: i64,
) -> (r: (i64, i64))
    requires
        screens@.len() > 0 ==> {
            let s = crate::layout::views(screens@);
            ||| stays(s, (vx as int, vy as int), dx as int, dy as int)
            ||| crate::layout::can_pull(s, geom::sat(vx + dx), geom::sat(vy + dy))
        },
        screens@.len() == 0 ==> (bbox matches Some(b) ==> b.2 - b.0 >= SUBPX && b.3 - b.1
            >= SUBPX),
    ensures
        point(r) == stepped(
            crate::layout::views(screens@),
            crate::layout::wide(bbox),
            (vx as int, vy as int),
            dx as int,
            dy as int,
        ),
{
    let nx: i64 = geom::saturate(vx as i128 + dx as i128);
    let ny: i64 = geom::saturate(vy as i128 + dy as i128);
    let ghost s = crate::layout::views(screens@);
    if screens.len() > 0 {
        let ghost p = crate::layout::holding(vx as int, vy as int);
        let mut i: usize = 0;
        while i < screens.len()
            invariant
                i <= screens.len(),
                0 < screens.len(),
                s == crate::layout::views(screens@),
                stays(s, (vx as int, vy as int), dx as int, dy as int) || crate::layout::can_pull(
                    s,
                    nx as int,
                    ny as int,
                ),
                p == crate::layout::holding(vx as int, vy as int),
                nx == geom::sat(vx + dx),
                ny == geom::sat(vy + dy),
                forall|j: int| 0 <= j < i ==> !p(#[trigger] s[j]),
            decreases screens.len() - i,
        {
            assert(s[i as int] == screens[i as int]@);
            if screens[i].contains(vx, vy) {
                proof {
                    geom::lemma_first_where_unique(s, p, i as int);
                }
                let (a, b, c, d) = screens[i].rect();
                let cx: i64 = geom::clamp(nx, a, c - SUBPX);
                let cy: i64 = geom::clamp(ny, b, d - SUBPX);
                if nearly(nx, cx) && nearly(ny, cy) {
                    return (cx, cy);
                }
                return clamp_to_screens(screens, nx, ny);
            }
            i += 1;
        }
        proof {
            geom::lemma_first_where_unique(s, p, i as int);
        }
        return clamp_to_screens(screens, nx, ny);
    }
    match bbox {
        Some((a, b, c, d)) => (geom::clamp(nx, a, c - SUBPX), geom::clamp(ny, b, d - SUBPX)),
        None => (nx, ny),
    }
}

impl GrabCtx {
    /// A control plane at rest, for the machine `my_name` of the primary `primary_name`.
    pub fn new(my_name: &str, primary_name: &str, grabbing: bool) -> (r: GrabCtx)
        ensures
            r.wf(),
            r@ == (CtxView {
                last_real: (0, 0),
                remote: None,
                parked: None,
                cooldown: None,
                hk: HotkeyState { ctrl: false, alt: false },
                bbox: None,
                held_keys: Seq::empty(),
                held_buttons: Seq::empty(),
                layout: Seq::empty(),
                screens: Seq::empty(),
                trim: RATIO_ONE as int,
                driven: None,
                my_name: my_name@,
                primary_name: primary_name@,
                grabbing,
                window: None,
            }),
    {
        GrabCtx {
            ctrl: Ctrl::default(),
            mode: CaptureMode::Local,
            my_name: my_name.to_owned(),
            primary_name: primary_name.to_owned(),
            grabbing,
            ui_window_rect: None,
        }
    }

    /// Takes over this machine's own displays from a layout: the local ones of it.
    pub fn set_local_displays(&mut self, own: &Layout)
        requires
            old(self).wf(),
            forall|i: int|
                0 <= i < own@.len() && (#[trigger] own@[i]).is_local ==> own@[i].w > 0 && own@[i].h
                    > 0,
        ensures
            final(self).wf(),
            final(self)@ == (CtxView {
                bbox: crate::layout::bbox(own@, crate::layout::local_panel()),
                screens: own@.filter(crate::layout::local_panel()),
                ..old(self)@
            }),
    {
        let ghost p = crate::layout::local_panel();
        let mut locals: Vec<Screen> = Vec::new();
        let mut i: usize = 0;
        assert(crate::layout::views(locals@) =~= own@.take(0).filter(p)) by {
            reveal(Seq::filter);
        }
        while i < own.screens.len()
            invariant
                i <= own.screens.len(),
                p == crate::layout::local_panel(),
                forall|i: int|
                    0 <= i < own@.len() && (#[trigger] own@[i]).is_local ==> own@[i].w > 0
                        && own@[i].h > 0,
                crate::layout::views(locals@) == own@.take(i as int).filter(p),
                all_have_area(crate::layout::views(locals@)),
            decreases own.screens.len() - i,
        {
            assert(own@[i as int] == own.screens[i as int]@);
            let ghost before = locals@;
            if own.screens[i].is_local {
                let s = own.screens[i].clone();
                locals.push(s);
                assert(crate::layout::views(locals@) =~= crate::layout::views(before).push(s@));
            }
            proof {
                let t = own@.take(i as int + 1);
                assert(t.drop_last() =~= own@.take(i as int));
                reveal(Seq::filter);
            }
            i += 1;
        }
        assert(own@.take(i as int) =~= own@);
        let b = own.local_bbox();
        proof {
            crate::layout::bbox_is_the_hull(own@, p);
            if let Some(r) = b {
                let k = choose|k: int| 0 <= k < own@.len() && p(#[trigger] own@[k]) && r.0 == own@[k].rect().0;
                assert(own@[k].is_local);
                assert(own@[k].w > 0 && own@[k].h > 0);
            }
        }
        self.ctrl.local_bbox = b;
        self.ctrl.local_screens = locals;
    }

    /// Notes where MouseShare's own window is on the screen.
    pub fn set_window(&mut self, rect: Option<(i64, i64, i64, i64)>)
        requires
            old(self).wf(),
        ensures
            final(self).wf(),
            final(self)@ == (CtxView { window: crate::layout::wide(rect), ..old(self)@ }),
    {
        self.ui_window_rect = rect;
    }

    /// Takes over a fresh snapshot of the layout.
    pub fn set_layout(&mut self, layout: Layout)
        requires
            old(self).wf(),
        ensures
            final(self).wf(),
            final(self)@ == (CtxView { layout: layout@, ..old(self)@ }),
    {
        self.ctrl.layout_snap = layout;
    }
}

/// The primary says the cursor is entering our screen. Seed our virtual cursor at the edge facing
/// the primary and hide our real cursor.
pub fn on_enter_screen(ctx: &mut GrabCtx, side: Side, fx: i64, fy: i64) -> (r: Vec<Effect>)
    requires
        old(ctx).wf(),
    ensures
        final(ctx).wf(),
        (final(ctx)@, effect_views(r@)) == arrived(old(ctx)@, side, fx as int, fy as int),
{
    let ghost v0 = ctx@;
    let mut done: Vec<Effect> = Vec::new();
    if ctx.ctrl.local_bbox.is_none() {
        assert(effect_views(done@) =~= Seq::<EffectView>::empty());
        return done;
    }
    let eside = side.opposite();
    proof {
        let p = on_edge(v0.bbox->0, eside, 2 * SUBPX, fx as int, fy as int);
        lemma_can_pull(v0.screens, p.0, p.1);
    }
    let (vx, vy) = seed_position(&ctx.ctrl.local_screens, ctx.ctrl.local_bbox, eside, fx, fy);
    ctx.ctrl.remote = Some(
        RemoteCtrl {
            name: ctx.primary_name.clone(),
            side: eside,
            vx,
            vy,
            // Motion arrives in our own units already.
            scale_ratio: RATIO_ONE,
        },
    );
    let line = Effect::Log(log_enter(eside, (vx, vy)));
    done.push(Effect::HideCursor);
    done.push(line);
    assert(effect_views(done@) =~= seq![EffectView::HideCursor, line@]);
    assert(ctx@ =~= arrived(v0, side, fx as int, fy as int).0);
    done
}

/// The primary says control left our screen. Show our cursor again.
pub fn on_leave_screen(ctx: &mut GrabCtx) -> (r: Vec<Effect>)
    requires
        old(ctx).wf(),
    ensures
        final(ctx).wf(),
        final(ctx)@ == (CtxView { remote: None, ..old(ctx)@ }),
        effect_views(r@) == seq![EffectView::ShowCursor, EffectView::Log(leave_line())],
{
    ctx.ctrl.remote = None;
    let mut done: Vec<Effect> = Vec::new();
    let line = Effect::Log(log_leave());
    done.push(Effect::ShowCursor);
    done.push(line);
    assert(effect_views(done@) =~= seq![EffectView::ShowCursor, line@]);
    assert(ctx@ =~= (CtxView { remote: None, ..old(ctx)@ }));
    done
}

/// Apply a forwarded input event while we are being driven. Motion is relative: we accumulate the
/// delta against our own virtual cursor and warp to the result (clamped to our own displays).
/// When the cursor is pushed back across the edge facing the primary, we ask for control to be
/// handed back (the primary can't tell on its own: its cursor is frozen). Events that arrive while
/// we are not being driven are ignored.
pub fn on_secondary_input(ctx: &mut GrabCtx, ev: InputEvent) -> (r: Vec<Effect>)
    requires
        old(ctx).wf(),
    ensures
        final(ctx).wf(),
        (final(ctx)@, effect_views(r@)) == driven_by(old(ctx)@, ev),
{
    let ghost v0 = ctx@;
    let ghost want = driven_by(v0, ev);
    let mut done: Vec<Effect> = Vec::new();
    assert(effect_views(done@) =~= Seq::<EffectView>::empty());
    let at: (i64, i64) = match &ctx.ctrl.remote {
        None => {
            return done;
        },
        Some(r) => {
            if let InputEvent::MouseMotion { dx, dy } = ev {
                if let Some(bbox) = ctx.ctrl.local_bbox {
                    if crossing_back(r, bbox, dx, dy) {
                        done.push(Effect::Reply(Message::ReturnControl));
                        done.push(Effect::Log(log_edge_return(r.side, (r.vx, r.vy), (dx, dy))));
                        assert(effect_views(done@) =~= want.1);
                        return done;
                    }
                }
            }
            (r.vx, r.vy)
        },
    };
    match ev {
        InputEvent::MouseMotion { dx, dy } => {
            proof {
                lemma_can_pull(v0.screens, geom::sat(at.0 + dx), geom::sat(at.1 + dy));
            }
            let (nx, ny) = step_local(
                &ctx.ctrl.local_screens,
                ctx.ctrl.local_bbox,
                at.0,
                at.1,
                dx,
                dy,
            );
            match ctx.ctrl.remote.take() {
                Some(r) => {
                    ctx.ctrl.remote = Some(RemoteCtrl { vx: nx, vy: ny, ..r });
                },
                None => {},
            }
            done.push(Effect::Warp { x: nx, y: ny });
            assert(effect_views(done@) =~= want.1);
            assert(ctx@ =~= want.0);
        },
        other => {
            done.push(Effect::Inject(other));
            assert(effect_views(done@) =~= want.1);
        },
    }
    done
}

/// Where a relative motion takes the real cursor: from `cursor` by `(dx, dy)`, kept on this
/// machine's displays. Where the cursor is not known the motion counts from the origin.
pub open spec fn injected(
    bbox: Option<(int, int, int, int)>,
    cursor: Option<(int, int)>,
    dx: int,
    dy: int,
) -> (int, int) {
    match cursor {
        None => (dx, dy),
        Some(p) => {
            let to = (geom::sat(p.0 + dx), geom::sat(p.1 + dy));
            match bbox {
                Some(b) => (
                    geom::clamped(to.0, b.0, b.2 - SUBPX),
                    geom::clamped(to.1, b.1, b.3 - SUBPX),
                ),
                None => to,
            }
        },
    }
}

/// Relative motion: add the delta to the current cursor and keep to this machine's own displays.
pub fn inject_relative(
    bbox: Option<(i64, i64, i64, i64)>,
    cursor: Option<(i64, i64)>,
    dx: i64,
    dy: i64,
) -> (r: (i64, i64))
    requires
        bbox matches Some(b) ==> b.2 - b.0 >= SUBPX && b.3 - b.1 >= SUBPX,
    ensures
        point(r) == injected(crate::layout::wide(bbox), opt_point(cursor), dx as int, dy as int),
{
    match cursor {
        None => (dx, dy),
        Some((cx, cy)) => {
            let nx: i64 = geom::saturate(cx as i128 + dx as i128);
            let ny: i64 = geom::saturate(cy as i128 + dy as i128);
            match bbox {
                Some((a, b, c, d)) => (
                    geom::clamp(nx, a, c - SUBPX),
                    geom::clamp(ny, b, d - SUBPX),
                ),
                None => (nx, ny),
            }
        },
    }
}

// ---- What holds of the control plane as a whole ----

/// On the primary, what is driven, what is remembered about it and what is held down go together:
/// there is a hand-off exactly while a panel is driven, it is the hand-off to that panel, and
/// nothing is held down or parked otherwise.
pub open spec fn in_step(v: CtxView) -> bool {
    match v.driven {
        Some(name) => {
            &&& v.remote matches Some(r) && r.name == name
            &&& v.parked is Some
        },
        None => {
            &&& v.remote is None
            &&& v.parked is None
            &&& v.held_keys.len() == 0
            &&& v.held_buttons.len() == 0
        },
    }
}

/// Nothing that happens on the primary gets its state out of step.
pub proof fn the_primary_stays_in_step(
    v: CtxView,
    net: NetView,
    raw: RawInput,
    location: Option<(int, int)>,
    cursor: Option<(int, int)>,
    now: u64,
)
    requires
        in_step(v),
    ensures
        in_step(captured(v, net, raw, location, cursor, now).0),
        in_step(returned(v, now).0),
        in_step(cycled(v, cursor, now).0),
{
    if let (Some(loc), RawInput::Motion { dx, dy }) = (location, raw) {
        if let Some((side, k)) = crossing(v.layout, loc, (dx as int, dy as int)) {
            crossings_lead_to_neighbours(v.layout, loc, (dx as int, dy as int));
        }
    }
}

/// When control leaves a secondary, every key and button that is held down on it is let go first;
/// the message that control left comes after all of that.
pub proof fn leaving_lets_go_first(v: CtxView, name: Seq<char>, loc: Option<(int, int)>, now: u64)
    ensures
        ({
            let done = left(v, name, loc, now).1;
            let last = done.len() - 2;
            &&& done[last] == EffectView::Send {
                target: peer_for(v.layout, name),
                msg: MessageView::LeaveScreen,
            }
            &&& forall|i: int|
                0 <= i < v.held_keys.len() ==> i < last && #[trigger] done[i] == forwarded(
                    v,
                    name,
                    InputEvent::KeyUp { key: v.held_keys[i] },
                )
            &&& forall|i: int|
                0 <= i < v.held_buttons.len() ==> {
                    let at = v.held_keys.len() + i;
                    at < last && done[at] == forwarded(
                        v,
                        name,
                        InputEvent::MouseUp { button: #[trigger] v.held_buttons[i] },
                    )
                }
        }),
        left(v, name, loc, now).0.held_keys.len() == 0,
        left(v, name, loc, now).0.held_buttons.len() == 0,
{
    let done = left(v, name, loc, now).1;
    let rel = released(v, name);
    assert(rel.len() == v.held_keys.len() + v.held_buttons.len());
    assert forall|i: int| 0 <= i < rel.len() implies #[trigger] done[i] == rel[i] by {}
    assert forall|i: int| 0 <= i < v.held_buttons.len() implies {
        let at = v.held_keys.len() + i;
        at < done.len() - 2 && done[at] == forwarded(
            v,
            name,
            InputEvent::MouseUp { button: #[trigger] v.held_buttons[i] },
        )
    } by {
        let at = v.held_keys.len() + i;
        assert(done[at] == rel[at]);
    }
}

/// After control has come back the cursor does not cross again by itself before the cooldown is
/// over, wherever it is and wherever it moves.
pub proof fn no_crossing_right_after_a_return(
    v: CtxView,
    now: u64,
    net: NetView,
    dx: i64,
    dy: i64,
    location: Option<(int, int)>,
    cursor: Option<(int, int)>,
    later: u64,
)
    requires
        in_step(v),
        v.driven is Some,
        later < now + RETURN_COOLDOWN_MS,
        later < u64::MAX,
    ensures
        ({
            let w = returned(v, now).0;
            captured(w, net, RawInput::Motion { dx, dy }, location, cursor, later) == (
                w,
                Seq::<EffectView>::empty(),
                false,
            )
        }),
{
}

/// While a secondary that can be reached has control, every event is kept from the local machine
/// and passed on, as exactly one message to the peer that owns the panel, and control stays there,
/// but for a click inside MouseShare's own window. (A report of the modifiers is no event of its
/// own.)
pub proof fn a_driven_machine_gets_everything(
    v: CtxView,
    net: NetView,
    raw: RawInput,
    location: Option<(int, int)>,
    cursor: Option<(int, int)>,
    now: u64,
)
    requires
        v.driven is Some,
        net.reaches(peer_for(v.layout, v.driven->0)),
        !(raw is Mods),
        !(raw is ButtonDown && in_window(v, location)),
    ensures
        ({
            let (w, done, dropped) = captured(v, net, raw, location, cursor, now);
            &&& dropped
            &&& w.driven == v.driven
            &&& done.len() > 0
            &&& done[0] matches EffectView::Send { target, msg }
            &&& target == peer_for(v.layout, v.driven->0) && msg is Input
            &&& forall|i: int| 1 <= i < done.len() ==> !(#[trigger] done[i] is Send)
        }),
{
}

/// A click inside MouseShare's own window gives control back as if the secondary had asked for it,
/// and the window gets the click.
pub proof fn a_click_on_the_window_gives_control_back(
    v: CtxView,
    net: NetView,
    button: MsButton,
    location: Option<(int, int)>,
    cursor: Option<(int, int)>,
    now: u64,
)
    requires
        in_step(v),
        v.driven is Some,
        in_window(v, location),
    ensures
        ({
            let (w, done, dropped) = captured(
                v,
                net,
                RawInput::ButtonDown(button),
                location,
                cursor,
                now,
            );
            &&& !dropped
            &&& w == returned(v, now).0
            &&& w.driven is None
            &&& done == seq![EffectView::Log(click_line())] + returned(v, now).1
        }),
{
}

/// A secondary that is gone gets nothing more: the next motion brings control back, and the local
/// machine sees it.
pub proof fn a_lost_machine_gives_control_back(
    v: CtxView,
    net: NetView,
    dx: i64,
    dy: i64,
    location: Option<(int, int)>,
    cursor: Option<(int, int)>,
    now: u64,
)
    requires
        v.driven is Some,
        !net.reaches(peer_for(v.layout, v.driven->0)),
    ensures
        ({
            let (w, done, dropped) = captured(
                v,
                net,
                RawInput::Motion { dx, dy },
                location,
                cursor,
                now,
            );
            &&& !dropped
            &&& w.driven is None
            &&& w.remote is None
        }),
{
}

/// While nobody is driven the local machine loses no event, but for the motion that crosses into a
/// neighbour.
pub proof fn local_events_stay_local(
    v: CtxView,
    net: NetView,
    raw: RawInput,
    location: Option<(int, int)>,
    cursor: Option<(int, int)>,
    now: u64,
)
    requires
        v.driven is None,
    ensures
        captured(v, net, raw, location, cursor, now).2 ==> {
            &&& raw is Motion
            &&& location is Some
            &&& crossing(
                v.layout,
                location->0,
                (raw->Motion_dx as int, raw->Motion_dy as int),
            ) is Some
        },
{
}

/// A point that is pulled inside a panel of at least one pixel lies on it.
pub proof fn lemma_pulled_inside(s: ScreenView, x: int, y: int)
    requires
        s.w > 0,
        s.h > 0,
    ensures
        s.holds(
            crate::layout::pulled_inside(s, x, y).0,
            crate::layout::pulled_inside(s, x, y).1,
        ),
{
}

/// A point that is pulled to the displays lies on one of them.
pub proof fn lemma_pulled_to_screens(s: Seq<ScreenView>, x: int, y: int)
    requires
        s.len() > 0,
        all_have_area(s),
    ensures
        ({
            let p = crate::layout::pulled_to_screens(s, x, y);
            exists|i: int| 0 <= i < s.len() && (#[trigger] s[i]).holds(p.0, p.1)
        }),
{
    geom::lemma_nearest_where(s, crate::layout::any_panel(), crate::layout::away2(x, y));
    assert(crate::layout::any_panel()(s[0]));
    let i = geom::nearest_where(s, crate::layout::any_panel(), crate::layout::away2(x, y));
    lemma_pulled_inside(s[i], x, y);
    assert(s[i].holds(crate::layout::pulled_to_screens(s, x, y).0, crate::layout::pulled_to_screens(s, x, y).1));
}

/// The virtual cursor of a secondary that knows its displays never leaves them: it lies on one of
/// them when control arrives, and after every motion since.
pub proof fn the_driven_cursor_stays_on_a_display(
    v: CtxView,
    side: Side,
    fx: int,
    fy: int,
    ev: InputEvent,
)
    requires
        v.screens.len() > 0,
        all_have_area(v.screens),
        v.bbox is Some,
    ensures
        ({
            let at = arrived(v, side, fx, fy).0.remote->0.at;
            exists|i: int| 0 <= i < v.screens.len() && (#[trigger] v.screens[i]).holds(at.0, at.1)
        }),
        ({
            let (w, done) = driven_by(v, ev);
            w != v ==> exists|i: int|
                0 <= i < v.screens.len() && (#[trigger] v.screens[i]).holds(
                    w.remote->0.at.0,
                    w.remote->0.at.1,
                )
        }),
{
    let p = on_edge(v.bbox->0, crate::layout::facing(side), 2 * SUBPX, fx, fy);
    lemma_pulled_to_screens(v.screens, p.0, p.1);
    let (w, done) = driven_by(v, ev);
    if w != v {
        let r = v.remote->0;
        let (dx, dy) = (ev->MouseMotion_dx as int, ev->MouseMotion_dy as int);
        let nx = geom::sat(r.at.0 + dx);
        let ny = geom::sat(r.at.1 + dy);
        let i = geom::first_where(v.screens, crate::layout::holding(r.at.0, r.at.1));
        geom::lemma_first_where(v.screens, crate::layout::holding(r.at.0, r.at.1));
        lemma_pulled_to_screens(v.screens, nx, ny);
        if i < v.screens.len() {
            lemma_pulled_inside(v.screens[i], nx, ny);
            assert(v.screens[i].holds(
                crate::layout::pulled_inside(v.screens[i], nx, ny).0,
                crate::layout::pulled_inside(v.screens[i], nx, ny).1,
            ));
        }
    }
}

/// Taking control back undoes handing it over: but for where the real cursor was put and for the
/// time in which it does not cross again, the primary is as it was before. Likewise a secondary
/// that control has left is as it was before control arrived.
pub proof fn a_return_undoes_the_hand_off(
    v: CtxView,
    side: Side,
    name: Seq<char>,
    loc: (int, int),
    now: u64,
    w: CtxView,
    fx: int,
    fy: int,
)
    requires
        in_step(v),
        v.driven is None,
        local_at(v.layout, loc.0, loc.1) < v.layout.len(),
        w.remote is None,
    ensures
        ({
            let back = returned(entered(v, side, name, loc).0, now).0;
            back == CtxView {
                last_real: back.last_real,
                cooldown: Some(cooldown_end(now)),
                ..v
            }
        }),
        (CtxView { remote: None, ..arrived(w, side, fx, fy).0 }) == w,
{
    let back = returned(entered(v, side, name, loc).0, now).0;
    assert(back.held_keys =~= v.held_keys);
    assert(back.held_buttons =~= v.held_buttons);
}

/// The cursor arrives where it left: on a secondary with one display it appears two pixels inside
/// the edge that faces the one it crossed, as far along that edge as it was on the display it came
/// from (though not beyond the last pixel).
pub proof fn the_cursor_arrives_at_the_facing_edge(w: CtxView, side: Side, fx: int, fy: int)
    requires
        w.screens.len() == 1,
        w.screens[0].w > 2,
        w.screens[0].h > 2,
        w.bbox == Some(w.screens[0].rect()),
    ensures
        ({
            let (l, t, r, b) = w.screens[0].rect();
            let at = arrived(w, side, fx, fy).0.remote->0.at;
            let x = geom::clamped(geom::along(fx, l, r), l, r - SUBPX);
            let y = geom::clamped(geom::along(fy, t, b), t, b - SUBPX);
            match side {
                Side::Right => at == (l + 2 * SUBPX, y),
                Side::Left => at == (r - 2 * SUBPX, y),
                Side::Bottom => at == (x, t + 2 * SUBPX),
                Side::Top => at == (x, b - 2 * SUBPX),
            }
        }),
{
    let p = on_edge(w.bbox->0, crate::layout::facing(side), 2 * SUBPX, fx, fy);
    geom::lemma_nearest_where(w.screens, crate::layout::any_panel(), crate::layout::away2(p.0, p.1));
    assert(crate::layout::any_panel()(w.screens[0]));
}

/// A secondary asks for control back exactly when its cursor is pushed across the edge by which it
/// came, and it never moves the cursor while it does.
pub proof fn control_is_asked_back_at_the_facing_edge(v: CtxView, ev: InputEvent)
    requires
        v.remote is Some,
        v.bbox is Some,
    ensures
        ({
            let (w, done) = driven_by(v, ev);
            done.contains(EffectView::Reply(MessageView::ReturnControl)) <==> {
                &&& ev is MouseMotion
                &&& pushed_back(
                    v.remote->0.side,
                    v.remote->0.at,
                    v.bbox->0,
                    ev->MouseMotion_dx as int,
                    ev->MouseMotion_dy as int,
                )
            }
        }),
        driven_by(v, ev).1.contains(EffectView::Reply(MessageView::ReturnControl)) ==> driven_by(
            v,
            ev,
        ).0 == v,
{
    let (w, done) = driven_by(v, ev);
    assert(done.contains(done[0]));
    assert(done.len() <= 2);
}

/// Moving away from the primary never gives control back.
pub proof fn moving_inward_keeps_control(side: Side, at: (int, int), b: (int, int, int, int), dx: int, dy: int)
    requires
        match side {
            Side::Left => dx >= 0,
            Side::Right => dx <= 0,
            Side::Top => dy >= 0,
            Side::Bottom => dy <= 0,
        },
    ensures
        !pushed_back(side, at, b, dx, dy),
{
}

proof fn lemma_rotation(s: Seq<ScreenView>)
    ensures
        forall|i: int, j: int|
            0 <= i < rotation(s).len() && 0 <= j < rotation(s).len() && i != j ==> (
            #[trigger] rotation(s)[i]).name != (#[trigger] rotation(s)[j]).name,
        forall|i: int| 0 <= i < rotation(s).len() ==> !(#[trigger] rotation(s)[i]).is_local && s.contains(rotation(s)[i]),
        forall|k: int|
            0 <= k < s.len() && !(#[trigger] s[k]).is_local ==> crate::layout::has_name(
                rotation(s),
                s[k].name,
            ),
    decreases s.len(),
{
    if s.len() > 0 {
        let t = s.drop_last();
        let n = s.len() - 1;
        lemma_rotation(t);
        let before = rotation(t);
        let r = rotation(s);
        let p = crate::layout::named(s.last().name);
        geom::lemma_first_where(before, p);
        assert forall|i: int| 0 <= i < before.len() implies s.contains(#[trigger] before[i]) by {
            assert(t.contains(before[i]));
            let k = choose|k: int| 0 <= k < t.len() && t[k] == before[i];
            assert(s[k] == before[i]);
        }
        if !s.last().is_local && !crate::layout::has_name(before, s.last().name) {
            assert(r == before.push(s.last()));
            assert(s[n] == s.last());
            assert forall|i: int, j: int| 0 <= i < r.len() && 0 <= j < r.len() && i != j implies (
            #[trigger] r[i]).name != (#[trigger] r[j]).name by {
                if i == before.len() {
                    assert(!p(before[j]));
                } else if j == before.len() {
                    assert(!p(before[i]));
                }
            }
        }
        assert forall|k: int| 0 <= k < s.len() && !(#[trigger] s[k]).is_local implies crate::layout::has_name(
            r,
            s[k].name,
        ) by {
            let q = crate::layout::named(s[k].name);
            geom::lemma_first_where(r, q);
            if k < n {
                assert(t[k] == s[k]);
                geom::lemma_first_where(before, q);
                let f = geom::first_where(before, q);
                assert(q(before[f]));
                assert(r[f] == before[f]);
            } else {
                geom::lemma_first_where(before, q);
                let f = geom::first_where(before, q);
                if f < before.len() {
                    assert(r[f] == before[f]);
                } else {
                    assert(q(r[before.len() as int]));
                }
            }
        }
    }
}

/// The hotkey goes through every remote screen, each once, and then back to the local machine:
/// from the `i`th of them it leads to the next, and from the last one home. From home it leads to
/// the first.
pub proof fn the_hotkey_goes_round(v: CtxView, i: int, cursor: Option<(int, int)>, now: u64)
    requires
        in_step(v),
        crate::layout::bbox(v.layout, crate::layout::local_panel()) is Some,
        -1 <= i < rotation(v.layout).len(),
        rotation(v.layout).len() > 0,
        v.driven == (if i < 0 { None } else { Some(rotation(v.layout)[i].name) }),
    ensures
        cycled(v, cursor, now).0.driven == (if i + 1 < rotation(v.layout).len() {
            Some(rotation(v.layout)[i + 1].name)
        } else {
            None
        }),
        cycled(v, cursor, now).0.layout == v.layout,
        in_step(cycled(v, cursor, now).0),
        forall|k: int|
            0 <= k < v.layout.len() && !(#[trigger] v.layout[k]).is_local ==> exists|j: int|
                0 <= j < rotation(v.layout).len() && (#[trigger] rotation(v.layout)[j]).name
                    == v.layout[k].name,
{
    let r = rotation(v.layout);
    lemma_rotation(v.layout);
    crate::layout::bbox_is_the_hull(v.layout, crate::layout::local_panel());
    assert(v.layout.len() > 1) by {
        let a = choose|a: int|
            0 <= a < v.layout.len() && crate::layout::local_panel()(#[trigger] v.layout[a]);
        assert(v.layout.contains(r[0]));
        let b = choose|b: int| 0 <= b < v.layout.len() && v.layout[b] == r[0];
        assert(a != b);
    }
    if i >= 0 {
        assert forall|j: int| 0 <= j < i implies !crate::layout::named(r[i].name)(#[trigger] r[j]) by {}
        geom::lemma_first_where_unique(r, crate::layout::named(r[i].name), i);
    }
    let w = returned(v, now).0;
    let loc = match cursor {
        Some(p) => p,
        None => (0int, 0int),
    };
    lemma_local_at(w.layout, loc.0, loc.1);
    the_primary_stays_in_step(v, NetView::Idle, RawInput::Wheel { dx: 0, dy: 0 }, None, cursor, now);
    assert forall|k: int| 0 <= k < v.layout.len() && !(#[trigger] v.layout[k]).is_local implies exists|j: int|
        0 <= j < r.len() && (#[trigger] r[j]).name == v.layout[k].name by {
        let q = crate::layout::named(v.layout[k].name);
        geom::lemma_first_where(r, q);
        let f = geom::first_where(r, q);
        assert(q(r[f]));
    }
}

} // verus!
