//! Screen layout model: a set of rectangles placed in a virtual desktop coordinate space.
//! Each rectangle is one display; the displays of one machine share its name as their host.

use crate::geom;
use crate::geom::{RATIO_ONE, SUBPX};
use crate::text::{push_decimal, same};
use vstd::prelude::*;
use vstd::string::*;

verus! {

/// Which side of a machine's local bounding box a neighbour screen is attached beyond.
/// `Right` means "the neighbour sits to the right of this machine", etc.
#[derive(Debug, Clone, Copy, PartialEq, Eq, Structural)]
pub enum Side {
    Right,
    Left,
    Top,
    Bottom,
}

/// The edge that faces `s` on the machine beyond it.
pub open spec fn facing(s: Side) -> Side {
    match s {
        Side::Right => Side::Left,
        Side::Left => Side::Right,
        Side::Top => Side::Bottom,
        Side::Bottom => Side::Top,
    }
}

impl Side {
    /// The edge of the *other* machine that this screen's cursor enters from. If a secondary is
    /// to the `Right` of the primary, the cursor reaches it by crossing the primary's right edge
    /// and appears on the secondary's `Left` edge, so the secondary seeds its virtual cursor on
    /// its own opposite side.
    pub fn opposite(self) -> (r: Side)
        ensures
            r == facing(self),
    {
        match self {
            Side::Right => Side::Left,
            Side::Left => Side::Right,
            Side::Top => Side::Bottom,
            Side::Bottom => Side::Top,
        }
    }
}

/// Facing an edge twice gives the edge back, and no edge faces itself.
pub proof fn facing_is_an_involution(s: Side)
    ensures
        facing(facing(s)) == s,
        facing(s) != s,
{
}

/// One display.
#[derive(Debug, PartialEq)]
pub struct Screen {
    /// Unique name of this *panel*. For a local display this is the machine name (or
    /// `"<machine> #2"`), for a remote panel it is the name the owning machine gave it.
    pub name: String,
    /// The machine this panel physically belongs to. Empty for a single-display machine, whose
    /// name is then the panel's own (see [`Screen::host`]).
    ///
    /// Input is routed to a *machine* (one TCP peer) but crossing is decided per *panel*, so a
    /// peer with two monitors is two draggable tiles that both forward to the same socket.
    pub host: String,
    /// Top-left corner in virtual-desktop coordinates.
    pub ox: i32,
    pub oy: i32,
    /// Screen size in pixels.
    pub w: u32,
    pub h: u32,
    /// `true` for a display that physically belongs to *this* machine (the primary's own
    /// monitors). Input landing on a local screen is never forwarded: the real cursor is already
    /// there. `false` marks a remote (secondary) screen, which receives injected input.
    pub is_local: bool,
    /// UI scale factor of the source display, in millionths (`RATIO_ONE` = no scaling).
    pub scale: i64,
}

/// What a [`Screen`] holds.
pub struct ScreenView {
    pub name: Seq<char>,
    pub host: Seq<char>,
    pub ox: int,
    pub oy: int,
    pub w: int,
    pub h: int,
    pub is_local: bool,
    pub scale: int,
}

impl View for Screen {
    type V = ScreenView;

    open spec fn view(&self) -> ScreenView {
        ScreenView {
            name: self.name@,
            host: self.host@,
            ox: self.ox as int,
            oy: self.oy as int,
            w: self.w as int,
            h: self.h as int,
            is_local: self.is_local,
            scale: self.scale as int,
        }
    }
}

impl ScreenView {
    /// The machine that the panel belongs to.
    pub open spec fn owner(self) -> Seq<char> {
        if self.host.len() == 0 {
            self.name
        } else {
            self.host
        }
    }

    /// Left, top, right and bottom edge, in sub-pixels.
    pub open spec fn rect(self) -> (int, int, int, int) {
        (
            self.ox * SUBPX,
            self.oy * SUBPX,
            (self.ox + self.w) * SUBPX,
            (self.oy + self.h) * SUBPX,
        )
    }

    /// Whether the point lies on the panel. Its right and bottom edges do not belong to it.
    pub open spec fn holds(self, x: int, y: int) -> bool {
        let (l, t, r, b) = self.rect();
        l <= x < r && t <= y < b
    }

    /// Whether the panel's width and right edge are pixel coordinates too.
    pub open spec fn fits_across(self) -> bool {
        self.w <= i32::MAX && self.ox + self.w <= i32::MAX
    }
}

/// The size that a panel renders, in physical pixels.
pub open spec fn physical(s: ScreenView) -> (int, int) {
    (
        geom::clamped(s.w * s.scale / RATIO_ONE as int, 0, u32::MAX as int),
        geom::clamped(s.h * s.scale / RATIO_ONE as int, 0, u32::MAX as int),
    )
}

/// Whether a panel belongs to the machine `host`.
pub open spec fn belongs_to(host: Seq<char>) -> spec_fn(ScreenView) -> bool {
    |s: ScreenView| s.owner() == host
}

/// Whether a panel is one of this machine's own.
pub open spec fn local_panel() -> spec_fn(ScreenView) -> bool {
    |s: ScreenView| s.is_local
}

/// Holds of every panel.
pub open spec fn any_panel() -> spec_fn(ScreenView) -> bool {
    |s: ScreenView| true
}

/// Whether a panel has the name `name`.
pub open spec fn named(name: Seq<char>) -> spec_fn(ScreenView) -> bool {
    |s: ScreenView| s.name == name
}

/// Whether the point lies on a panel.
pub open spec fn holding(x: int, y: int) -> spec_fn(ScreenView) -> bool {
    |s: ScreenView| s.holds(x, y)
}

/// The smallest rectangle around two rectangles.
pub open spec fn hull(a: (int, int, int, int), b: (int, int, int, int)) -> (int, int, int, int) {
    (
        if b.0 < a.0 { b.0 } else { a.0 },
        if b.1 < a.1 { b.1 } else { a.1 },
        if b.2 > a.2 { b.2 } else { a.2 },
        if b.3 > a.3 { b.3 } else { a.3 },
    )
}

/// The smallest rectangle around all the panels of `s` that `p` holds of, in sub-pixels.
pub open spec fn bbox(s: Seq<ScreenView>, p: spec_fn(ScreenView) -> bool) -> Option<
    (int, int, int, int),
>
    decreases s.len(),
{
    if s.len() == 0 {
        None
    } else {
        let before = bbox(s.drop_last(), p);
        if p(s.last()) {
            match before {
                None => Some(s.last().rect()),
                Some(b) => Some(hull(b, s.last().rect())),
            }
        } else {
            before
        }
    }
}

/// There is a bounding box as soon as one panel is chosen; it reaches around every chosen panel,
/// and each of its four sides is the side of one of them.
pub proof fn bbox_is_the_hull(s: Seq<ScreenView>, p: spec_fn(ScreenView) -> bool)
    ensures
        bbox(s, p) is Some <==> exists|i: int| 0 <= i < s.len() && p(#[trigger] s[i]),
        bbox(s, p) matches Some(b) ==> {
            &&& forall|i: int|
                0 <= i < s.len() && p(#[trigger] s[i]) ==> b.0 <= s[i].rect().0 && b.1
                    <= s[i].rect().1 && s[i].rect().2 <= b.2 && s[i].rect().3 <= b.3
            &&& exists|i: int| 0 <= i < s.len() && p(#[trigger] s[i]) && b.0 == s[i].rect().0
            &&& exists|i: int| 0 <= i < s.len() && p(#[trigger] s[i]) && b.1 == s[i].rect().1
            &&& exists|i: int| 0 <= i < s.len() && p(#[trigger] s[i]) && b.2 == s[i].rect().2
            &&& exists|i: int| 0 <= i < s.len() && p(#[trigger] s[i]) && b.3 == s[i].rect().3
        },
    decreases s.len(),
{
    if s.len() > 0 {
        let t = s.drop_last();
        bbox_is_the_hull(t, p);
        assert forall|i: int| 0 <= i < t.len() implies t[i] == #[trigger] s[i] by {}
        let n = s.len() - 1;
        assert(s[n] == s.last());
        if let Some(b) = bbox(t, p) {
            let i0 = choose|i: int| 0 <= i < t.len() && p(#[trigger] t[i]) && b.0 == t[i].rect().0;
            let i1 = choose|i: int| 0 <= i < t.len() && p(#[trigger] t[i]) && b.1 == t[i].rect().1;
            let i2 = choose|i: int| 0 <= i < t.len() && p(#[trigger] t[i]) && b.2 == t[i].rect().2;
            let i3 = choose|i: int| 0 <= i < t.len() && p(#[trigger] t[i]) && b.3 == t[i].rect().3;
            assert(p(s[i0]) && p(s[i1]) && p(s[i2]) && p(s[i3]));
            let c = bbox(s, p)->0;
            if p(s.last()) {
                assert(c == hull(b, s.last().rect()));
                assert(exists|i: int| 0 <= i < s.len() && p(#[trigger] s[i]) && c.0 == s[i].rect().0) by {
                    assert(c.0 == s[i0].rect().0 || c.0 == s[n].rect().0);
                }
                assert(exists|i: int| 0 <= i < s.len() && p(#[trigger] s[i]) && c.1 == s[i].rect().1) by {
                    assert(c.1 == s[i1].rect().1 || c.1 == s[n].rect().1);
                }
                assert(exists|i: int| 0 <= i < s.len() && p(#[trigger] s[i]) && c.2 == s[i].rect().2) by {
                    assert(c.2 == s[i2].rect().2 || c.2 == s[n].rect().2);
                }
                assert(exists|i: int| 0 <= i < s.len() && p(#[trigger] s[i]) && c.3 == s[i].rect().3) by {
                    assert(c.3 == s[i3].rect().3 || c.3 == s[n].rect().3);
                }
            }
        } else {
            assert forall|i: int| 0 <= i < t.len() implies !p(#[trigger] s[i]) by {
                assert(s[i] == t[i]);
            }
        }
    }
}

impl Clone for Screen {
    fn clone(&self) -> (r: Self)
        ensures
            r == *self,
    {
        Screen {
            name: self.name.clone(),
            host: self.host.clone(),
            ox: self.ox,
            oy: self.oy,
            w: self.w,
            h: self.h,
            is_local: self.is_local,
            scale: self.scale,
        }
    }
}

/// Where the far edge of a display lies, in sub-pixels.
fn far_edge(origin: i32, size: u32) -> (r: i64)
    ensures
        r == (origin + size) * SUBPX,
{
    (origin as i64 + size as i64) * SUBPX
}

/// A display that does not say otherwise belongs to this machine.
pub fn default_is_local() -> (r: bool)
    ensures
        r,
{
    true
}

/// The scale of a display that does not say otherwise.
pub fn default_scale() -> (r: i64)
    ensures
        r == RATIO_ONE,
{
    RATIO_ONE
}

impl Screen {
    /// The machine that owns this panel.
    pub fn host(&self) -> (r: &str)
        ensures
            r@ == self@.owner(),
    {
        if self.host.as_str().is_empty() {
            self.name.as_str()
        } else {
            self.host.as_str()
        }
    }

    /// Whether the panel belongs to the machine `host`.
    pub fn belongs(&self, host: &str) -> (r: bool)
        ensures
            r == belongs_to(host@)(self@),
    {
        same(self.host(), host)
    }

    /// Left, top, right and bottom edge, in sub-pixels.
    pub fn rect(&self) -> (r: (i64, i64, i64, i64))
        ensures
            (r.0 as int, r.1 as int, r.2 as int, r.3 as int) == self@.rect(),
            -0x8_0000_0000_0000 <= r.0 <= r.2 <= 0x8_0000_0000_0000,
            -0x8_0000_0000_0000 <= r.1 <= r.3 <= 0x8_0000_0000_0000,
    {
        (
            self.ox as i64 * SUBPX,
            self.oy as i64 * SUBPX,
            far_edge(self.ox, self.w),
            far_edge(self.oy, self.h),
        )
    }

    /// Physical pixel size (logical size times UI scale): what the panel actually renders.
    pub fn physical_size(&self) -> (r: (u32, u32))
        ensures
            (r.0 as int, r.1 as int) == physical(self@),
    {
        (scaled_size(self.w, self.scale), scaled_size(self.h, self.scale))
    }

    /// Whether the point lies on this panel.
    pub fn contains(&self, x: i64, y: i64) -> (r: bool)
        ensures
            r == holding(x as int, y as int)(self@),
    {
        let (l, t, right, bottom) = self.rect();
        x >= l && x < right && y >= t && y < bottom
    }
}

/// A length times a scale, rounded down.
fn scaled_size(len: u32, scale: i64) -> (r: u32)
    ensures
        r == geom::clamped(len * scale / RATIO_ONE as int, 0, u32::MAX as int),
{
    proof {
        let (a, b) = (len as int, scale as int);
        assert(-0x8000_0000_0000_0000 * 0x1_0000_0000 <= a * b <= 0x8000_0000_0000_0000 * 0x1_0000_0000)
            by (nonlinear_arith)
            requires
                0 <= a <= 0xffff_ffff,
                -0x8000_0000_0000_0000 <= b <= 0x7fff_ffff_ffff_ffff,
        ;
        assert(b <= 0 ==> a * b <= 0) by (nonlinear_arith)
            requires
                0 <= a,
        ;
        assert(b >= 0 ==> a * b >= 0) by (nonlinear_arith)
            requires
                0 <= a,
        ;
    }
    if scale <= 0 {
        return 0;
    }
    let q: i128 = len as i128 * scale as i128 / RATIO_ONE as i128;
    if q > u32::MAX as i128 {
        u32::MAX
    } else {
        q as u32
    }
}

/// One display as reported by the machine that owns it, in that machine's **own** coordinate
/// space (the origin is that machine's local virtual-desktop origin, not the shared one).
///
/// A peer that reports its full list of these is modelled as separate tiles, so the dead space in
/// an L-shaped arrangement is known and the cursor is never handed off into a region with no
/// panel.
#[derive(Debug, PartialEq)]
pub struct PanelSpec {
    pub name: String,
    pub ox: i32,
    pub oy: i32,
    pub w: u32,
    pub h: u32,
    /// UI scale factor in millionths.
    pub scale: i64,
}

/// What a [`PanelSpec`] holds.
pub struct PanelView {
    pub name: Seq<char>,
    pub ox: int,
    pub oy: int,
    pub w: int,
    pub h: int,
    pub scale: int,
}

impl View for PanelSpec {
    type V = PanelView;

    open spec fn view(&self) -> PanelView {
        PanelView {
            name: self.name@,
            ox: self.ox as int,
            oy: self.oy as int,
            w: self.w as int,
            h: self.h as int,
            scale: self.scale as int,
        }
    }
}

impl Clone for PanelSpec {
    fn clone(&self) -> (r: Self)
        ensures
            r == *self,
    {
        PanelSpec {
            name: self.name.clone(),
            ox: self.ox,
            oy: self.oy,
            w: self.w,
            h: self.h,
            scale: self.scale,
        }
    }
}

/// Copies a list of reported panels.
pub fn clone_panels(v: &Vec<PanelSpec>) -> (r: Vec<PanelSpec>)
    ensures
        r@ == v@,
{
    let mut r: Vec<PanelSpec> = Vec::new();
    let mut i: usize = 0;
    while i < v.len()
        invariant
            i <= v.len(),
            r@ == v@.take(i as int),
        decreases v.len() - i,
    {
        r.push(v[i].clone());
        i += 1;
        assert(r@ =~= v@.take(i as int));
    }
    assert(r@ =~= v@);
    r
}

/// What a list of screens holds.
pub open spec fn views(v: Seq<Screen>) -> Seq<ScreenView> {
    Seq::new(v.len(), |i: int| v[i]@)
}

/// What a list of borrowed screens holds.
pub open spec fn ref_views(v: Seq<&Screen>) -> Seq<ScreenView> {
    Seq::new(v.len(), |i: int| v[i]@)
}

/// What a list of reported panels holds.
pub open spec fn panel_views(v: Seq<PanelSpec>) -> Seq<PanelView> {
    Seq::new(v.len(), |i: int| v[i]@)
}

/// A rectangle, as whole numbers without bounds.
pub open spec fn wide(b: Option<(i64, i64, i64, i64)>) -> Option<(int, int, int, int)> {
    match b {
        None => None,
        Some(r) => Some((r.0 as int, r.1 as int, r.2 as int, r.3 as int)),
    }
}

/// Whether the sides of a rectangle lie where the sides of displays can lie.
pub open spec fn on_desktop(b: (i64, i64, i64, i64)) -> bool {
    &&& -0x8_0000_0000_0000 <= b.0 <= b.2 <= 0x8_0000_0000_0000
    &&& -0x8_0000_0000_0000 <= b.1 <= b.3 <= 0x8_0000_0000_0000
}

/// Every screen of the desktop, in the order in which they were added.
#[derive(Debug, PartialEq)]
pub struct Layout {
    pub screens: Vec<Screen>,
}

impl View for Layout {
    type V = Seq<ScreenView>;

    open spec fn view(&self) -> Seq<ScreenView> {
        views(self.screens@)
    }
}

impl Default for Layout {
    fn default() -> (r: Layout)
        ensures
            r@ == Seq::<ScreenView>::empty(),
    {
        let r = Layout { screens: Vec::new() };
        assert(r@ =~= Seq::<ScreenView>::empty());
        r
    }
}

/// Copies a list of screens.
pub fn clone_screens(v: &Vec<Screen>) -> (r: Vec<Screen>)
    ensures
        r@ == v@,
{
    let mut r: Vec<Screen> = Vec::new();
    let mut i: usize = 0;
    while i < v.len()
        invariant
            i <= v.len(),
            r@ == v@.take(i as int),
        decreases v.len() - i,
    {
        r.push(v[i].clone());
        i += 1;
        assert(r@ =~= v@.take(i as int));
    }
    assert(r@ =~= v@);
    r
}

impl Clone for Layout {
    fn clone(&self) -> (r: Self)
        ensures
            r.screens@ == self.screens@,
            r@ == self@,
    {
        Layout { screens: clone_screens(&self.screens) }
    }
}

/// The rectangle `acc`, grown to reach around `s`.
fn grow(acc: Option<(i64, i64, i64, i64)>, s: &Screen) -> (r: Option<(i64, i64, i64, i64)>)
    requires
        acc matches Some(b) ==> on_desktop(b),
    ensures
        wide(r) == Some(
            match wide(acc) {
                None => s@.rect(),
                Some(b) => hull(b, s@.rect()),
            },
        ),
        r matches Some(b) && on_desktop(b),
{
    let (l, t, right, bottom) = s.rect();
    match acc {
        None => Some((l, t, right, bottom)),
        Some((al, at, ar, ab)) => Some(
            (
                if l < al { l } else { al },
                if t < at { t } else { at },
                if right > ar { right } else { ar },
                if bottom > ab { bottom } else { ab },
            ),
        ),
    }
}

/// The panels that are not the machine `host`'s.
pub open spec fn others(s: Seq<ScreenView>, host: Seq<char>) -> Seq<ScreenView> {
    s.filter(|v: ScreenView| v.owner() != host)
}

/// The squared distance of the point from a panel, 0 inside.
pub open spec fn away2(x: int, y: int) -> spec_fn(ScreenView) -> int {
    |s: ScreenView|
        {
            let (l, t, r, b) = s.rect();
            geom::dist2(geom::outside(x, l, r), geom::outside(y, t, b))
        }
}

/// Whether some panel holds the point.
pub open spec fn on_a_screen(s: Seq<ScreenView>, x: int, y: int) -> bool {
    exists|i: int| 0 <= i < s.len() && (#[trigger] s[i]).holds(x, y)
}

/// The point, pulled inside the panel: at most one pixel short of its far edges.
pub open spec fn pulled_inside(s: ScreenView, x: int, y: int) -> (int, int) {
    let (l, t, r, b) = s.rect();
    (geom::clamped(x, l, r - SUBPX), geom::clamped(y, t, b - SUBPX))
}

/// The point, pulled into the nearest of the panels, the first of them where several are; the point
/// itself where there is none.
pub open spec fn pulled_to_screens(s: Seq<ScreenView>, x: int, y: int) -> (int, int) {
    let i = geom::nearest_where(s, any_panel(), away2(x, y));
    if i < s.len() {
        pulled_inside(s[i], x, y)
    } else {
        (x, y)
    }
}

/// Whether the panel that a point is pulled into, if there is one, is at least one pixel wide and
/// high.
pub open spec fn can_pull(s: Seq<ScreenView>, x: int, y: int) -> bool {
    let i = geom::nearest_where(s, any_panel(), away2(x, y));
    i < s.len() ==> s[i].w > 0 && s[i].h > 0
}

/// The point, kept on the panels: where it lies on one it stays, and from a gap between them it is
/// pulled into the nearest.
pub open spec fn kept_on_screens(s: Seq<ScreenView>, x: int, y: int) -> (int, int) {
    if on_a_screen(s, x, y) {
        (x, y)
    } else {
        pulled_to_screens(s, x, y)
    }
}

/// The squared distance of the point from a panel, 0 inside.
fn distance2(s: &Screen, x: i64, y: i64) -> (r: u128)
    ensures
        r == away2(x as int, y as int)(s@),
{
    let (a, b, c, d) = s.rect();
    geom::square_sum(geom::distance_outside(x, a, c), geom::distance_outside(y, b, d))
}

/// The screen nearest to the point, among all of them or among the local ones.
pub fn nearest_screen(screens: &Vec<Screen>, local_only: bool, x: i64, y: i64) -> (r: Option<usize>)
    ensures
        ({
            let s = views(screens@);
            let p = if local_only { local_panel() } else { any_panel() };
            match r {
                Some(i) => i < s.len() && i == geom::nearest_where(s, p, away2(x as int, y as int)),
                None => geom::nearest_where(s, p, away2(x as int, y as int)) == s.len(),
            }
        }),
{
    let ghost s = views(screens@);
    let ghost p = if local_only { local_panel() } else { any_panel() };
    let ghost d = away2(x as int, y as int);
    let mut best: Option<usize> = None;
    let mut best_d: u128 = 0;
    let mut i: usize = 0;
    while i < screens.len()
        invariant
            i <= screens.len(),
            s == views(screens@),
            p == (if local_only { local_panel() } else { any_panel() }),
            d == away2(x as int, y as int),
            match best {
                Some(k) => k < i && k == geom::nearest_where(s.take(i as int), p, d) && best_d
                    == d(s[k as int]),
                None => geom::nearest_where(s.take(i as int), p, d) == i,
            },
        decreases screens.len() - i,
    {
        assert(s[i as int] == screens[i as int]@);
        proof {
            let t = s.take(i as int + 1);
            assert(t.drop_last() =~= s.take(i as int));
            assert(t.last() == s[i as int]);
            if let Some(k) = best {
                assert(t[k as int] == s[k as int]);
            }
        }
        if !local_only || screens[i].is_local {
            let dd: u128 = distance2(&screens[i], x, y);
            let nearer = match best {
                None => true,
                Some(_) => dd < best_d,
            };
            if nearer {
                best_d = dd;
                best = Some(i);
            }
        }
        i += 1;
    }
    assert(s.take(i as int) =~= s);
    best
}

impl Layout {
    /// Every panel belonging to `host`, in layout order.
    pub fn panels_of(&self, host: &str) -> (r: Vec<&Screen>)
        ensures
            ref_views(r@) == self@.filter(belongs_to(host@)),
    {
        let mut r: Vec<&Screen> = Vec::new();
        let mut i: usize = 0;
        assert(self@.take(0).filter(belongs_to(host@)) =~= Seq::<ScreenView>::empty()) by {
            reveal(Seq::filter);
        }
        assert(ref_views(r@) =~= Seq::<ScreenView>::empty());
        while i < self.screens.len()
            invariant
                i <= self.screens.len(),
                ref_views(r@) == self@.take(i as int).filter(belongs_to(host@)),
            decreases self.screens.len() - i,
        {
            let ghost before = r@;
            let s = &self.screens[i];
            if s.belongs(host) {
                r.push(s);
                assert(ref_views(r@) =~= ref_views(before).push(s@));
            }
            proof {
                let t = self@.take(i as int + 1);
                assert(t.drop_last() =~= self@.take(i as int));
                assert(t.last() == s@);
                reveal(Seq::filter);
            }
            i += 1;
        }
        assert(self@.take(i as int) =~= self@);
        r
    }

    /// Axis-aligned bounding box of one machine's panels. `None` when that machine has no panel
    /// in the layout (e.g. a peer that has not connected yet).
    pub fn host_bbox(&self, host: &str) -> (r: Option<(i64, i64, i64, i64)>)
        ensures
            wide(r) == bbox(self@, belongs_to(host@)),
            r matches Some(b) ==> on_desktop(b),
    {
        let mut acc: Option<(i64, i64, i64, i64)> = None;
        let mut i: usize = 0;
        while i < self.screens.len()
            invariant
                i <= self.screens.len(),
                wide(acc) == bbox(self@.take(i as int), belongs_to(host@)),
                acc matches Some(b) ==> on_desktop(b),
            decreases self.screens.len() - i,
        {
            let s = &self.screens[i];
            if s.belongs(host) {
                acc = grow(acc, s);
            }
            proof {
                let t = self@.take(i as int + 1);
                assert(t.drop_last() =~= self@.take(i as int));
                assert(t.last() == s@);
            }
            i += 1;
        }
        assert(self@.take(i as int) =~= self@);
        acc
    }

    /// Top-left corner of a machine's panel group: the anchor that survives a refresh, so the
    /// user's placement of the machine is preserved when it reconnects or changes resolution.
    pub fn machine_origin(&self, host: &str) -> (r: Option<(i32, i32)>)
        ensures
            origin_of(self@, host@) == (match r {
                None => None::<(int, int)>,
                Some(p) => Some((p.0 as int, p.1 as int)),
            }),
    {
        match self.host_bbox(host) {
            None => None,
            Some(b) => {
                proof {
                    bbox_is_the_hull(self@, belongs_to(host@));
                    let p = belongs_to(host@);
                    let i0 = choose|i: int|
                        0 <= i < self@.len() && p(#[trigger] self@[i]) && b.0 == self@[i].rect().0;
                    let i1 = choose|i: int|
                        0 <= i < self@.len() && p(#[trigger] self@[i]) && b.1 == self@[i].rect().1;
                    assert(self@[i0] == self.screens[i0]@);
                    assert(self@[i1] == self.screens[i1]@);
                }
                Some((geom::whole_pixels(b.0) as i32, geom::whole_pixels(b.1) as i32))
            },
        }
    }

    /// Index of the screen that contains the point, if any.
    pub fn screen_at(&self, x: i64, y: i64) -> (r: Option<usize>)
        ensures
            match r {
                Some(i) => i == geom::first_where(self@, holding(x as int, y as int)) && i
                    < self@.len(),
                None => geom::first_where(self@, holding(x as int, y as int)) == self@.len(),
            },
    {
        let mut i: usize = 0;
        while i < self.screens.len()
            invariant
                i <= self.screens.len(),
                forall|j: int| 0 <= j < i ==> !holding(x as int, y as int)(#[trigger] self@[j]),
            decreases self.screens.len() - i,
        {
            if self.screens[i].contains(x, y) {
                assert(self@[i as int] == self.screens[i as int]@);
                proof {
                    geom::lemma_first_where_unique(self@, holding(x as int, y as int), i as int);
                }
                return Some(i);
            }
            assert(self@[i as int] == self.screens[i as int]@);
            i += 1;
        }
        proof {
            geom::lemma_first_where_unique(self@, holding(x as int, y as int), i as int);
        }
        None
    }

    /// If the point falls in a gap between screens, pull it into the nearest screen and
    /// clamp to that screen's bounds. Used so the virtual cursor never escapes to infinity.
    pub fn clamp(&self, x: i64, y: i64) -> (r: (i64, i64))
        requires
            on_a_screen(self@, x as int, y as int) || can_pull(self@, x as int, y as int),
        ensures
            (r.0 as int, r.1 as int) == kept_on_screens(self@, x as int, y as int),
    {
        proof {
            geom::lemma_first_where(self@, holding(x as int, y as int));
        }
        if let Some(i) = self.screen_at(x, y) {
            assert(self@[i as int].holds(x as int, y as int));
            return (x, y);
        }
        assert forall|j: int| 0 <= j < self@.len() implies !(#[trigger] self@[j]).holds(
            x as int,
            y as int,
        ) by {
            assert(!holding(x as int, y as int)(self@[j]));
        }
        match nearest_screen(&self.screens, false, x, y) {
            Some(i) => {
                assert(self@[i as int] == self.screens[i as int]@);
                let (l, t, right, bottom) = self.screens[i].rect();
                (geom::clamp(x, l, right - SUBPX), geom::clamp(y, t, bottom - SUBPX))
            },
            None => (x, y),
        }
    }

    /// Index of the screen whose name matches (the primary machine's own screen).
    pub fn index_of(&self, name: &str) -> (r: Option<usize>)
        ensures
            match r {
                Some(i) => i == geom::first_where(self@, named(name@)) && i < self@.len(),
                None => geom::first_where(self@, named(name@)) == self@.len(),
            },
    {
        let mut i: usize = 0;
        while i < self.screens.len()
            invariant
                i <= self.screens.len(),
                forall|j: int| 0 <= j < i ==> !named(name@)(#[trigger] self@[j]),
            decreases self.screens.len() - i,
        {
            assert(self@[i as int] == self.screens[i as int]@);
            if same(self.screens[i].name.as_str(), name) {
                proof {
                    geom::lemma_first_where_unique(self@, named(name@), i as int);
                }
                return Some(i);
            }
            i += 1;
        }
        proof {
            geom::lemma_first_where_unique(self@, named(name@), i as int);
        }
        None
    }

    /// Axis-aligned bounding box (left, top, right, bottom) of every screen there is.
    pub fn bounding_box(&self) -> (r: Option<(i64, i64, i64, i64)>)
        ensures
            wide(r) == bbox(self@, any_panel()),
            r matches Some(b) ==> on_desktop(b),
    {
        let mut acc: Option<(i64, i64, i64, i64)> = None;
        let mut i: usize = 0;
        while i < self.screens.len()
            invariant
                i <= self.screens.len(),
                wide(acc) == bbox(self@.take(i as int), any_panel()),
                acc matches Some(b) ==> on_desktop(b),
            decreases self.screens.len() - i,
        {
            let s = &self.screens[i];
            acc = grow(acc, s);
            proof {
                let t = self@.take(i as int + 1);
                assert(t.drop_last() =~= self@.take(i as int));
                assert(t.last() == s@);
            }
            i += 1;
        }
        assert(self@.take(i as int) =~= self@);
        acc
    }

    /// Axis-aligned bounding box (left, top, right, bottom) of every `is_local` screen, in
    /// virtual-desktop coordinates. `None` when there is no local screen (shouldn't happen on a
    /// running primary, but the caller can fall back to a single screen).
    pub fn local_bbox(&self) -> (r: Option<(i64, i64, i64, i64)>)
        ensures
            wide(r) == bbox(self@, local_panel()),
            r matches Some(b) ==> on_desktop(b),
    {
        let mut acc: Option<(i64, i64, i64, i64)> = None;
        let mut i: usize = 0;
        while i < self.screens.len()
            invariant
                i <= self.screens.len(),
                wide(acc) == bbox(self@.take(i as int), local_panel()),
                acc matches Some(b) ==> on_desktop(b),
            decreases self.screens.len() - i,
        {
            let s = &self.screens[i];
            if s.is_local {
                acc = grow(acc, s);
            }
            proof {
                let t = self@.take(i as int + 1);
                assert(t.drop_last() =~= self@.take(i as int));
                assert(t.last() == s@);
            }
            i += 1;
        }
        assert(self@.take(i as int) =~= self@);
        acc
    }

    /// UI scale factor of the screen named `name` (1 when unknown).
    pub fn scale_of(&self, name: &str) -> (r: i64)
        ensures
            r == scale_named(self@, name@),
    {
        match self.index_of(name) {
            Some(i) => {
                assert(self@[i as int] == self.screens[i as int]@);
                self.screens[i].scale
            },
            None => RATIO_ONE,
        }
    }

    /// UI scale of the machine `host`'s coordinate space. A machine may mix a Retina panel with a
    /// 1x one; the scale that it reports is a single number per machine, so this returns the first
    /// panel's scale, which is the same value the peer advertises.
    pub fn scale_of_host(&self, host: &str) -> (r: i64)
        ensures
            r == ({
                let i = geom::first_where(self@, belongs_to(host@));
                if i < self@.len() {
                    self@[i].scale
                } else {
                    RATIO_ONE as int
                }
            }),
    {
        let mut i: usize = 0;
        while i < self.screens.len()
            invariant
                i <= self.screens.len(),
                forall|j: int| 0 <= j < i ==> !belongs_to(host@)(#[trigger] self@[j]),
            decreases self.screens.len() - i,
        {
            assert(self@[i as int] == self.screens[i as int]@);
            if self.screens[i].belongs(host) {
                proof {
                    geom::lemma_first_where_unique(self@, belongs_to(host@), i as int);
                }
                return self.screens[i].scale;
            }
            i += 1;
        }
        proof {
            geom::lemma_first_where_unique(self@, belongs_to(host@), i as int);
        }
        RATIO_ONE
    }

    /// UI scale factor of the *local* screen under `loc`, falling back to the first local screen
    /// and then to 1. Used to normalise forwarded mouse deltas: the cursor may sit on a Retina
    /// panel or on an external 1x monitor, and each needs a different conversion.
    pub fn local_scale_at(&self, loc: Option<(i64, i64)>) -> (r: i64)
        ensures
            r == local_scale(self@, match loc {
                None => None,
                Some(p) => Some((p.0 as int, p.1 as int)),
            }),
    {
        if let Some((x, y)) = loc {
            let mut i: usize = 0;
            while i < self.screens.len()
                invariant
                    i <= self.screens.len(),
                    loc == Some((x, y)),
                    forall|j: int|
                        0 <= j < i ==> !local_holding(x as int, y as int)(#[trigger] self@[j]),
                decreases self.screens.len() - i,
            {
                assert(self@[i as int] == self.screens[i as int]@);
                if self.screens[i].is_local && self.screens[i].contains(x, y) {
                    proof {
                        geom::lemma_first_where_unique(
                            self@,
                            local_holding(x as int, y as int),
                            i as int,
                        );
                    }
                    return self.screens[i].scale;
                }
                i += 1;
            }
            proof {
                geom::lemma_first_where_unique(self@, local_holding(x as int, y as int), i as int);
            }
        }
        let mut k: usize = 0;
        while k < self.screens.len()
            invariant
                k <= self.screens.len(),
                loc matches Some(p) ==> geom::first_where(
                    self@,
                    local_holding(p.0 as int, p.1 as int),
                ) == self@.len(),
                forall|j: int| 0 <= j < k ==> !local_panel()(#[trigger] self@[j]),
            decreases self.screens.len() - k,
        {
            assert(self@[k as int] == self.screens[k as int]@);
            if self.screens[k].is_local {
                proof {
                    geom::lemma_first_where_unique(self@, local_panel(), k as int);
                }
                return self.screens[k].scale;
            }
            k += 1;
        }
        proof {
            geom::lemma_first_where_unique(self@, local_panel(), k as int);
        }
        RATIO_ONE
    }
}

/// The scale of the first screen of that name, or 1.
pub open spec fn scale_named(s: Seq<ScreenView>, name: Seq<char>) -> int {
    let i = geom::first_where(s, named(name));
    if i < s.len() {
        s[i].scale
    } else {
        RATIO_ONE as int
    }
}

/// Whether a panel is one of this machine's own and holds the point.
pub open spec fn local_holding(x: int, y: int) -> spec_fn(ScreenView) -> bool {
    |s: ScreenView| s.is_local && s.holds(x, y)
}

/// The scale of the local screen under the point; of the first local screen where there is none;
/// 1 where there is no local screen.
pub open spec fn local_scale(s: Seq<ScreenView>, loc: Option<(int, int)>) -> int {
    let under = match loc {
        None => s.len() as int,
        Some(p) => geom::first_where(s, local_holding(p.0, p.1)),
    };
    let first = geom::first_where(s, local_panel());
    if under < s.len() {
        s[under].scale
    } else if first < s.len() {
        s[first].scale
    } else {
        RATIO_ONE as int
    }
}

/// The top-left corner of a machine's panels, in pixels.
pub open spec fn origin_of(s: Seq<ScreenView>, host: Seq<char>) -> Option<(int, int)> {
    match bbox(s, belongs_to(host)) {
        None => None,
        Some(b) => Some((b.0 / SUBPX as int, b.1 / SUBPX as int)),
    }
}

/// The right edge, in pixels, of everything placed so far.
pub open spec fn right_edge(s: Seq<ScreenView>) -> int
    decreases s.len(),
{
    if s.len() == 0 {
        0
    } else if s.len() == 1 {
        s[0].ox + s[0].w
    } else {
        let before = right_edge(s.drop_last());
        let here = s.last().ox + s.last().w;
        if here > before {
            here
        } else {
            before
        }
    }
}

/// The highest top edge, in pixels, of everything placed so far.
pub open spec fn top_edge(s: Seq<ScreenView>) -> int
    decreases s.len(),
{
    if s.len() == 0 {
        0
    } else if s.len() == 1 {
        s[0].oy
    } else {
        let before = top_edge(s.drop_last());
        if s.last().oy < before {
            s.last().oy
        } else {
            before
        }
    }
}

/// Where the panels of a machine that is new to the layout are anchored: flush against the right
/// edge of everything already placed, top-aligned with the local screens when there are any.
pub open spec fn landing(s: Seq<ScreenView>) -> (int, int) {
    (
        right_edge(s),
        match bbox(s, local_panel()) {
            Some(b) => b.1 / SUBPX as int,
            None => top_edge(s),
        },
    )
}

/// The panel `p` of the machine `host`, at its place beside the anchor `at`.
pub open spec fn placed(host: Seq<char>, p: PanelView, at: (int, int)) -> ScreenView {
    ScreenView {
        name: p.name,
        host,
        ox: at.0 + p.ox,
        oy: at.1 + p.oy,
        w: p.w,
        h: p.h,
        is_local: false,
        scale: p.scale,
    }
}

/// Whether a screen is the panel `name` of the machine `host`.
pub open spec fn panel_named(host: Seq<char>, name: Seq<char>) -> spec_fn(ScreenView) -> bool {
    |s: ScreenView| s.name == name && s.owner() == host
}

/// The layout after one reported panel of a machine that is known already: the first screen that
/// stands for the panel takes over its size and place, or a screen is added for it.
pub open spec fn refreshed(
    s: Seq<ScreenView>,
    host: Seq<char>,
    p: PanelView,
    at: (int, int),
) -> Seq<ScreenView> {
    let i = geom::first_where(s, panel_named(host, p.name));
    if i < s.len() {
        s.update(
            i,
            ScreenView {
                ox: at.0 + p.ox,
                oy: at.1 + p.oy,
                w: p.w,
                h: p.h,
                scale: p.scale,
                ..s[i]
            },
        )
    } else {
        s.push(placed(host, p, at))
    }
}

/// Whether that changes what is worth telling the other machines.
pub open spec fn refresh_matters(s: Seq<ScreenView>, host: Seq<char>, p: PanelView) -> bool {
    let i = geom::first_where(s, panel_named(host, p.name));
    i < s.len() ==> s[i].w != p.w || s[i].h != p.h || s[i].scale != p.scale
}

/// The layout after all the reported panels, in order.
pub open spec fn refreshed_all(
    s: Seq<ScreenView>,
    host: Seq<char>,
    panels: Seq<PanelView>,
    at: (int, int),
) -> Seq<ScreenView>
    decreases panels.len(),
{
    if panels.len() == 0 {
        s
    } else {
        refreshed(refreshed_all(s, host, panels.drop_last(), at), host, panels.last(), at)
    }
}

/// Whether any of them matters.
pub open spec fn any_matters(
    s: Seq<ScreenView>,
    host: Seq<char>,
    panels: Seq<PanelView>,
    at: (int, int),
) -> bool
    decreases panels.len(),
{
    if panels.len() == 0 {
        false
    } else {
        let rest = panels.drop_last();
        any_matters(s, host, rest, at) || refresh_matters(
            refreshed_all(s, host, rest, at),
            host,
            panels.last(),
        )
    }
}

/// Whether a panel of that name was reported.
pub open spec fn reported(panels: Seq<PanelView>, name: Seq<char>) -> bool {
    exists|i: int| 0 <= i < panels.len() && (#[trigger] panels[i]).name == name
}

/// Whether a screen stays once the machine `host` has reported its panels: it is another machine's
/// or among those reported.
pub open spec fn still_there(host: Seq<char>, panels: Seq<PanelView>) -> spec_fn(ScreenView) -> bool {
    |s: ScreenView| s.owner() != host || reported(panels, s.name)
}

/// Whether the machine has a panel in the layout.
pub open spec fn known(s: Seq<ScreenView>, host: Seq<char>) -> bool {
    geom::first_where(s, belongs_to(host)) < s.len()
}

/// The anchor of the machine's panels: where they are already, or where a new machine lands.
pub open spec fn anchor(s: Seq<ScreenView>, host: Seq<char>) -> (int, int) {
    if known(s, host) {
        match origin_of(s, host) {
            Some(o) => o,
            None => (0, 0),
        }
    } else {
        landing(s)
    }
}

/// The layout once the machine `host` has reported its panels.
pub open spec fn with_host(s: Seq<ScreenView>, host: Seq<char>, panels: Seq<PanelView>) -> Seq<
    ScreenView,
> {
    if panels.len() == 0 {
        s
    } else if !known(s, host) {
        s + panels.map_values(|p: PanelView| placed(host, p, landing(s)))
    } else {
        refreshed_all(s, host, panels, anchor(s, host)).filter(still_there(host, panels))
    }
}

/// Whether the machines have to be told about it.
pub open spec fn host_changes(s: Seq<ScreenView>, host: Seq<char>, panels: Seq<PanelView>) -> bool {
    if panels.len() == 0 {
        false
    } else if !known(s, host) {
        true
    } else {
        any_matters(s, host, panels, anchor(s, host)) || with_host(s, host, panels).len()
            != refreshed_all(s, host, panels, anchor(s, host)).len()
    }
}

/// A pixel coordinate.
pub open spec fn is_coordinate(v: int) -> bool {
    i32::MIN <= v <= i32::MAX
}

/// Whether every place that the machine's panels would take is a pixel coordinate, as is the right
/// edge that a new machine is put against.
pub open spec fn room_for(s: Seq<ScreenView>, host: Seq<char>, panels: Seq<PanelView>) -> bool {
    &&& panels.len() > 0 && !known(s, host) ==> forall|i: int|
        0 <= i < s.len() ==> (#[trigger] s[i]).fits_across()
    &&& forall|i: int|
        0 <= i < panels.len() ==> is_coordinate(anchor(s, host).0 + (#[trigger] panels[i]).ox)
            && is_coordinate(anchor(s, host).1 + panels[i].oy)
}

impl Layout {
    /// Whether the machine `host` has a panel in the layout.
    pub fn knows(&self, host: &str) -> (r: bool)
        ensures
            r == known(self@, host@),
    {
        let mut i: usize = 0;
        while i < self.screens.len()
            invariant
                i <= self.screens.len(),
                forall|j: int| 0 <= j < i ==> !belongs_to(host@)(#[trigger] self@[j]),
            decreases self.screens.len() - i,
        {
            assert(self@[i as int] == self.screens[i as int]@);
            if self.screens[i].belongs(host) {
                proof {
                    geom::lemma_first_where_unique(self@, belongs_to(host@), i as int);
                }
                return true;
            }
            i += 1;
        }
        proof {
            geom::lemma_first_where_unique(self@, belongs_to(host@), i as int);
        }
        false
    }

    /// Where the panels of a new machine are anchored.
    fn landing_place(&self) -> (r: (i64, i64))
        ensures
            (r.0 as int, r.1 as int) == landing(self@),
            -0x1_0000_0000 <= r.0 <= 0x2_0000_0000,
            is_coordinate(r.1 as int),
    {
        let mut right: i64 = 0;
        let mut top: i64 = 0;
        let mut i: usize = 0;
        while i < self.screens.len()
            invariant
                i <= self.screens.len(),
                right == right_edge(self@.take(i as int)),
                top == top_edge(self@.take(i as int)),
                -0x1_0000_0000 <= right <= 0x2_0000_0000,
                is_coordinate(top as int),
            decreases self.screens.len() - i,
        {
            let s = &self.screens[i];
            let here: i64 = s.ox as i64 + s.w as i64;
            proof {
                let t = self@.take(i as int + 1);
                assert(t.drop_last() =~= self@.take(i as int));
                assert(t.last() == s@);
            }
            if i == 0 || here > right {
                right = here;
            }
            if i == 0 || (s.oy as i64) < top {
                top = s.oy as i64;
            }
            i += 1;
        }
        assert(self@.take(i as int) =~= self@);
        match self.local_bbox() {
            None => (right, top),
            Some(b) => {
                proof {
                    bbox_is_the_hull(self@, local_panel());
                    let p = local_panel();
                    let k = choose|k: int|
                        0 <= k < self@.len() && p(#[trigger] self@[k]) && b.1 == self@[k].rect().1;
                    assert(self@[k] == self.screens[k]@);
                }
                (right, geom::whole_pixels(b.1))
            },
        }
    }

    /// The anchor of the machine's panels: where they are already, or where a new machine lands.
    fn anchor_of(&self, host: &str) -> (r: (i64, i64))
        ensures
            (r.0 as int, r.1 as int) == anchor(self@, host@),
            -0x1_0000_0000 <= r.0 <= 0x2_0000_0000,
            is_coordinate(r.1 as int),
            known(self@, host@) ==> is_coordinate(r.0 as int),
    {
        if self.knows(host) {
            match self.machine_origin(host) {
                Some((x, y)) => (x as i64, y as i64),
                None => (0, 0),
            }
        } else {
            self.landing_place()
        }
    }

    /// Whether every place that the machine's panels would take is a pixel coordinate, so that
    /// [`Layout::ensure_host`] can register them.
    pub fn has_room_for(&self, host: &str, panels: &[PanelSpec]) -> (r: bool)
        ensures
            r == room_for(self@, host@, panel_views(panels@)),
    {
        let (ax, ay) = self.anchor_of(host);
        let ghost pv = panel_views(panels@);
        if panels.len() > 0 && !self.knows(host) {
            let mut i: usize = 0;
            while i < self.screens.len()
                invariant
                    i <= self.screens.len(),
                    forall|j: int| 0 <= j < i ==> (#[trigger] self@[j]).fits_across(),
                    panels@.len() > 0,
                    !known(self@, host@),
                    pv == panel_views(panels@),
                decreases self.screens.len() - i,
            {
                let s = &self.screens[i];
                assert(self@[i as int] == s@);
                let m: i64 = i32::MAX as i64;
                if s.w as i64 > m || s.ox as i64 + s.w as i64 > m {
                    assert(!self@[i as int].fits_across());
                    return false;
                }
                i += 1;
            }
        }
        let mut k: usize = 0;
        while k < panels.len()
            invariant
                k <= panels.len(),
                pv == panel_views(panels@),
                (ax as int, ay as int) == anchor(self@, host@),
                -0x1_0000_0000 <= ax <= 0x2_0000_0000,
                is_coordinate(ay as int),
                forall|j: int|
                    0 <= j < k ==> is_coordinate(anchor(self@, host@).0 + (#[trigger] pv[j]).ox)
                        && is_coordinate(anchor(self@, host@).1 + pv[j].oy),
            decreases panels.len() - k,
        {
            let p = &panels[k];
            assert(pv[k as int] == p@);
            let x: i64 = ax + p.ox as i64;
            let y: i64 = ay + p.oy as i64;
            if x < i32::MIN as i64 || x > i32::MAX as i64 || y < i32::MIN as i64 || y
                > i32::MAX as i64 {
                return false;
            }
            k += 1;
        }
        true
    }

    /// Register (or refresh) **every** panel of the machine `host` from the list it reported.
    ///
    /// * A machine that is new to the layout is placed *flush* against the current right edge, its
    ///   panels keeping the relative offsets they have on their own machine (so an L-shaped or
    ///   stacked arrangement is modelled faithfully).
    /// * A machine that is already known keeps its **anchor** (the top-left of its panel group) and
    ///   only its panel sizes and offsets are refreshed. That is what makes the user's drag stick
    ///   across a peer reconnect.
    ///
    /// Returns `true` when the layout changed in a way worth broadcasting.
    pub fn ensure_host(&mut self, host: &str, panels: &[PanelSpec]) -> (changed: bool)
        requires
            room_for(old(self)@, host@, panel_views(panels@)),
        ensures
            final(self)@ == with_host(old(self)@, host@, panel_views(panels@)),
            changed == host_changes(old(self)@, host@, panel_views(panels@)),
    {
        if panels.len() == 0 {
            return false;
        }
        let ghost s0 = self@;
        let ghost pv = panel_views(panels@);
        let (ax, ay) = self.anchor_of(host);
        let ghost at = anchor(s0, host@);
        if !self.knows(host) {
            let ghost f = |p: PanelView| placed(host@, p, landing(s0));
            let mut i: usize = 0;
            assert(self@ =~= s0 + pv.take(0).map_values(f));
            while i < panels.len()
                invariant
                    i <= panels.len(),
                    pv == panel_views(panels@),
                    (ax as int, ay as int) == at,
                    at == landing(s0),
                    at == anchor(s0, host@),
                    room_for(s0, host@, pv),
                    f == (|p: PanelView| placed(host@, p, landing(s0))),
                    self@ == s0 + pv.take(i as int).map_values(f),
                decreases panels.len() - i,
            {
                let ghost before = self.screens@;
                let p = &panels[i];
                assert(pv[i as int] == p@);
                let s = Screen {
                    name: p.name.clone(),
                    host: host.to_owned(),
                    ox: (ax + p.ox as i64) as i32,
                    oy: (ay + p.oy as i64) as i32,
                    w: p.w,
                    h: p.h,
                    is_local: false,
                    scale: p.scale,
                };
                assert(s@ == f(pv[i as int]));
                self.screens.push(s);
                i += 1;
                assert(self@ =~= views(before).push(s@));
                assert(pv.take(i as int).map_values(f) =~= pv.take(i as int - 1).map_values(f).push(
                    f(pv[i as int - 1]),
                ));
                assert(self@ =~= s0 + pv.take(i as int).map_values(f));
            }
            assert(pv.take(i as int) =~= pv);
            return true;
        }
        let mut changed = false;
        let mut i: usize = 0;
        while i < panels.len()
            invariant
                i <= panels.len(),
                pv == panel_views(panels@),
                (ax as int, ay as int) == at,
                at == anchor(s0, host@),
                room_for(s0, host@, pv),
                self@ == refreshed_all(s0, host@, pv.take(i as int), at),
                changed == any_matters(s0, host@, pv.take(i as int), at),
            decreases panels.len() - i,
        {
            let p = &panels[i];
            proof {
                let t = pv.take(i as int + 1);
                assert(t.drop_last() =~= pv.take(i as int));
                assert(t.last() == p@);
                assert(pv[i as int] == p@);
            }
            if self.refresh_panel(host, p, (ax + p.ox as i64) as i32, (ay + p.oy as i64) as i32, Ghost(at)) {
                changed = true;
            }
            i += 1;
        }
        assert(pv.take(i as int) =~= pv);
        let before: usize = self.screens.len();
        self.drop_unreported(host, panels);
        if self.screens.len() != before {
            changed = true;
        }
        changed
    }

    /// Takes over one reported panel of a machine that is known already.
    fn refresh_panel(&mut self, host: &str, p: &PanelSpec, x: i32, y: i32, at: Ghost<(int, int)>) -> (matters: bool)
        requires
            x == at@.0 + p.ox,
            y == at@.1 + p.oy,
        ensures
            final(self)@ == refreshed(old(self)@, host@, p@, at@),
            matters == refresh_matters(old(self)@, host@, p@),
    {
        let ghost s0 = self@;
        let ghost q = panel_named(host@, p.name@);
        let mut i: usize = 0;
        while i < self.screens.len()
            invariant
                i <= self.screens.len(),
                self@ == s0,
                s0 == old(self)@,
                q == panel_named(host@, p.name@),
                x == at@.0 + p.ox,
                y == at@.1 + p.oy,
                forall|j: int| 0 <= j < i ==> !q(#[trigger] s0[j]),
            decreases self.screens.len() - i,
        {
            assert(s0[i as int] == self.screens[i as int]@);
            if same(self.screens[i].name.as_str(), p.name.as_str()) && self.screens[i].belongs(host) {
                proof {
                    geom::lemma_first_where_unique(s0, q, i as int);
                }
                let ghost was = self.screens@;
                let matters = self.screens[i].w != p.w || self.screens[i].h != p.h
                    || self.screens[i].scale != p.scale;
                let s = Screen {
                    name: self.screens[i].name.clone(),
                    host: self.screens[i].host.clone(),
                    ox: x,
                    oy: y,
                    w: p.w,
                    h: p.h,
                    is_local: self.screens[i].is_local,
                    scale: p.scale,
                };
                self.screens.set(i, s);
                assert(self@ =~= views(was).update(i as int, s@));
                return matters;
            }
            i += 1;
        }
        proof {
            geom::lemma_first_where_unique(s0, q, i as int);
        }
        let ghost was = self.screens@;
        let s = Screen {
            name: p.name.clone(),
            host: host.to_owned(),
            ox: x,
            oy: y,
            w: p.w,
            h: p.h,
            is_local: false,
            scale: p.scale,
        };
        self.screens.push(s);
        assert(self@ =~= views(was).push(s@));
        true
    }

    /// Drops the panels that the machine no longer reports (an unplugged monitor).
    fn drop_unreported(&mut self, host: &str, panels: &[PanelSpec])
        ensures
            final(self)@ == old(self)@.filter(still_there(host@, panel_views(panels@))),
    {
        let ghost s0 = self@;
        let ghost pv = panel_views(panels@);
        let ghost q = still_there(host@, pv);
        let mut kept: Vec<Screen> = Vec::new();
        let mut i: usize = 0;
        assert(views(kept@) =~= s0.take(0).filter(q)) by {
            reveal(Seq::filter);
        }
        while i < self.screens.len()
            invariant
                i <= self.screens.len(),
                self@ == s0,
                s0 == old(self)@,
                pv == panel_views(panels@),
                q == still_there(host@, pv),
                views(kept@) == s0.take(i as int).filter(q),
            decreases self.screens.len() - i,
        {
            let s = &self.screens[i];
            assert(s0[i as int] == s@);
            let ghost before = kept@;
            if !s.belongs(host) || is_reported(panels, s.name.as_str()) {
                let c = s.clone();
                kept.push(c);
                assert(views(kept@) =~= views(before).push(c@));
            }
            proof {
                let t = s0.take(i as int + 1);
                assert(t.drop_last() =~= s0.take(i as int));
                assert(t.last() == s@);
                reveal(Seq::filter);
            }
            i += 1;
        }
        assert(s0.take(i as int) =~= s0);
        self.screens = kept;
    }
}

/// Whether a panel of that name was reported.
fn is_reported(panels: &[PanelSpec], name: &str) -> (r: bool)
    ensures
        r == reported(panel_views(panels@), name@),
{
    let ghost pv = panel_views(panels@);
    let mut i: usize = 0;
    while i < panels.len()
        invariant
            i <= panels.len(),
            pv == panel_views(panels@),
            forall|j: int| 0 <= j < i ==> (#[trigger] pv[j]).name != name@,
        decreases panels.len() - i,
    {
        assert(pv[i as int] == panels[i as int]@);
        if same(panels[i].name.as_str(), name) {
            return true;
        }
        i += 1;
    }
    false
}

/// The name of the `n`th copy of a screen.
pub open spec fn copy_name(base: Seq<char>, n: nat) -> Seq<char> {
    base + "-copy"@ + crate::text::decimal(n)
}

/// Whether a screen of that name is in the layout.
pub open spec fn has_name(s: Seq<ScreenView>, name: Seq<char>) -> bool {
    geom::first_where(s, named(name)) < s.len()
}

/// Whether `n` is the first number whose copy of `base` is not in the layout yet.
pub open spec fn is_next_copy(s: Seq<ScreenView>, base: Seq<char>, n: nat) -> bool {
    &&& n >= 1
    &&& !has_name(s, copy_name(base, n))
    &&& forall|m: nat| 1 <= m < n ==> has_name(s, #[trigger] copy_name(base, m))
}

/// The copies of a screen are named apart.
pub proof fn lemma_copy_names_differ(base: Seq<char>, m: nat, n: nat)
    requires
        copy_name(base, m) == copy_name(base, n),
    ensures
        m == n,
{
    let k = (base + "-copy"@).len() as int;
    assert(copy_name(base, m).skip(k) =~= crate::text::decimal(m));
    assert(copy_name(base, n).skip(k) =~= crate::text::decimal(n));
    crate::text::decimal_reads_back(m);
    crate::text::decimal_reads_back(n);
}

/// There are no more copies with distinct names than there are screens beside the one copied.
proof fn lemma_copies_fit(s: Seq<ScreenView>, idx: int, base: Seq<char>, n: nat)
    requires
        n >= 1,
        0 <= idx < s.len(),
        s[idx].name == base,
        forall|m: nat| 1 <= m < n ==> has_name(s, #[trigger] copy_name(base, m)),
    ensures
        n <= s.len(),
{
    reveal_strlit("-copy");
    let at = Seq::new(
        (n - 1) as nat,
        |i: int| geom::first_where(s, named(copy_name(base, (i + 1) as nat))),
    );
    assert forall|i: int, j: int| 0 <= i < at.len() && 0 <= j < at.len() && i != j implies at[i]
        != at[j] by {
        let a = copy_name(base, (i + 1) as nat);
        let b = copy_name(base, (j + 1) as nat);
        assert(has_name(s, a) && has_name(s, b));
        geom::lemma_first_where(s, named(a));
        geom::lemma_first_where(s, named(b));
        if at[i] == at[j] {
            assert(s[at[i]].name == a && s[at[j]].name == b);
            lemma_copy_names_differ(base, (i + 1) as nat, (j + 1) as nat);
        }
    }
    assert(at.no_duplicates());
    at.unique_seq_to_set();
    let all = vstd::set_lib::set_int_range(0, s.len() as int).remove(idx);
    vstd::set_lib::lemma_int_range(0, s.len() as int);
    assert(at.to_set().subset_of(all)) by {
        assert forall|x: int| at.to_set().contains(x) implies all.contains(x) by {
            let i = choose|i: int| 0 <= i < at.len() && at[i] == x;
            assert(has_name(s, copy_name(base, (i + 1) as nat)));
            geom::lemma_first_where(s, named(copy_name(base, (i + 1) as nat)));
            assert(s[x].name == copy_name(base, (i + 1) as nat));
            assert(s[x].name.len() > base.len());
        }
    }
    vstd::set_lib::lemma_len_subset(at.to_set(), all);
}

/// The screen `v`, moved.
pub open spec fn moved(v: ScreenView, dx: int, dy: int) -> ScreenView {
    ScreenView { ox: v.ox + dx, oy: v.oy + dy, ..v }
}

/// The layout with every panel of the machine `host` moved.
pub open spec fn host_moved(s: Seq<ScreenView>, host: Seq<char>, dx: int, dy: int) -> Seq<ScreenView> {
    s.map_values(
        |v: ScreenView|
            if v.owner() == host {
                moved(v, dx, dy)
            } else {
                v
            },
    )
}

impl Layout {
    /// Clone the screen at `idx` with a unique name and an offset to the right, so it can be
    /// re-positioned without disturbing the original. Nothing happens where there is no such
    /// screen.
    pub fn duplicate_screen(&mut self, idx: usize)
        requires
            idx < old(self)@.len() ==> {
                let v = old(self)@[idx as int];
                v.w <= i32::MAX && v.ox + v.w + 40 <= i32::MAX
            },
        ensures
            idx >= old(self)@.len() ==> final(self)@ == old(self)@,
            idx < old(self)@.len() ==> exists|n: nat|
                {
                    let src = old(self)@[idx as int];
                    &&& #[trigger] is_next_copy(old(self)@, old(self)@[idx as int].name, n)
                    &&& final(self)@ == old(self)@.push(
                        ScreenView { name: copy_name(src.name, n), ox: src.ox + src.w + 40, ..src },
                    )
                },
    {
        if idx >= self.screens.len() {
            return;
        }
        let ghost s0 = self@;
        assert(s0[idx as int] == self.screens[idx as int]@);
        let ghost base = s0[idx as int].name;
        let mut n: u64 = 1;
        let mut name = self.copy_named(idx, n);
        while self.index_of(name.as_str()).is_some()
            invariant
                self@ == s0,
                s0 == old(self)@,
                idx < s0.len(),
                base == s0[idx as int].name,
                n >= 1,
                n <= s0.len() <= usize::MAX,
                name@ == copy_name(base, n as nat),
                forall|m: nat| 1 <= m < n ==> has_name(s0, #[trigger] copy_name(base, m)),
            decreases s0.len() + 1 - n,
        {
            proof {
                lemma_copies_fit(s0, idx as int, base, (n + 1) as nat);
            }
            n += 1;
            name = self.copy_named(idx, n);
        }
        let ghost was = self.screens@;
        let src = &self.screens[idx];
        let s = Screen {
            name,
            host: src.host.clone(),
            ox: (src.ox as i64 + src.w as i64 + 40) as i32,
            oy: src.oy,
            w: src.w,
            h: src.h,
            is_local: src.is_local,
            scale: src.scale,
        };
        self.screens.push(s);
        assert(self@ =~= views(was).push(s@));
        assert(is_next_copy(s0, base, n as nat));
    }

    /// The name of the `n`th copy of the screen at `idx`.
    fn copy_named(&self, idx: usize, n: u64) -> (r: String)
        requires
            idx < self@.len(),
        ensures
            r@ == copy_name(self@[idx as int].name, n as nat),
    {
        let mut name = self.screens[idx].name.clone();
        name.append("-copy");
        push_decimal(&mut name, n);
        name
    }

    /// Move every panel of `host` by `(dx, dy)`: dragging one tile of a multi-monitor machine
    /// moves the whole machine, because the arrangement *inside* a machine is a fact of its own
    /// OS, not a choice the hub gets to make.
    pub fn move_host(&mut self, host: &str, dx: i32, dy: i32)
        requires
            forall|i: int|
                0 <= i < old(self)@.len() && (#[trigger] old(self)@[i]).owner() == host@
                    ==> is_coordinate(old(self)@[i].ox + dx) && is_coordinate(old(self)@[i].oy + dy),
        ensures
            final(self)@ == host_moved(old(self)@, host@, dx as int, dy as int),
    {
        let ghost s0 = self@;
        let ghost want = host_moved(s0, host@, dx as int, dy as int);
        let mut i: usize = 0;
        while i < self.screens.len()
            invariant
                i <= self.screens.len(),
                self@.len() == s0.len(),
                s0 == old(self)@,
                want == host_moved(s0, host@, dx as int, dy as int),
                forall|j: int| 0 <= j < i ==> #[trigger] self@[j] == want[j],
                forall|j: int| i <= j < s0.len() ==> #[trigger] self@[j] == s0[j],
                forall|i: int|
                    0 <= i < s0.len() && (#[trigger] s0[i]).owner() == host@ ==> is_coordinate(
                        s0[i].ox + dx,
                    ) && is_coordinate(s0[i].oy + dy),
            decreases self.screens.len() - i,
        {
            assert(self@[i as int] == s0[i as int]);
            let ghost was = self.screens@;
            if self.screens[i].belongs(host) {
                let mut s = self.screens[i].clone();
                s.ox = s.ox + dx;
                s.oy = s.oy + dy;
                self.screens.set(i, s);
                assert(self@ =~= views(was).update(i as int, s@));
            }
            i += 1;
        }
        assert(self@ =~= want);
    }
}

/// A machine that is moved and moved back stands where it stood.
pub proof fn moving_back_restores(s: Seq<ScreenView>, host: Seq<char>, dx: int, dy: int)
    ensures
        host_moved(host_moved(s, host, dx, dy), host, -dx, -dy) == s,
{
    let m = host_moved(s, host, dx, dy);
    let b = host_moved(m, host, -dx, -dy);
    assert forall|i: int| 0 <= i < s.len() implies b[i] == s[i] by {
        assert(m[i].owner() == s[i].owner());
    }
    assert(b =~= s);
}

/// Moving a machine shifts its bounding box by as much.
pub proof fn moving_shifts_the_bbox(s: Seq<ScreenView>, host: Seq<char>, dx: int, dy: int)
    ensures
        bbox(host_moved(s, host, dx, dy), belongs_to(host)) == (match bbox(s, belongs_to(host)) {
            None => None,
            Some(b) => Some(
                (b.0 + dx * SUBPX, b.1 + dy * SUBPX, b.2 + dx * SUBPX, b.3 + dy * SUBPX),
            ),
        }),
    decreases s.len(),
{
    let m = host_moved(s, host, dx, dy);
    if s.len() > 0 {
        moving_shifts_the_bbox(s.drop_last(), host, dx, dy);
        assert(m.drop_last() =~= host_moved(s.drop_last(), host, dx, dy));
        assert(m.last().owner() == s.last().owner());
    }
}

/// Moving a machine leaves the others where they are.
pub proof fn moving_spares_the_others(s: Seq<ScreenView>, host: Seq<char>, dx: int, dy: int)
    ensures
        others(host_moved(s, host, dx, dy), host) == others(s, host),
    decreases s.len(),
{
    let m = host_moved(s, host, dx, dy);
    reveal(Seq::filter);
    if s.len() > 0 {
        moving_spares_the_others(s.drop_last(), host, dx, dy);
        assert(m.drop_last() =~= host_moved(s.drop_last(), host, dx, dy));
        assert(m.last().owner() == s.last().owner());
    }
}

/// No two of the machine's panels share a name.
pub open spec fn panels_apart(s: Seq<ScreenView>, host: Seq<char>) -> bool {
    forall|i: int, j: int|
        0 <= i < s.len() && 0 <= j < s.len() && i != j && s[i].owner() == host && s[j].owner()
            == host ==> (#[trigger] s[i]).name != (#[trigger] s[j]).name
}

/// No two of the reported panels share a name.
pub open spec fn reports_apart(panels: Seq<PanelView>) -> bool {
    forall|i: int, j: int|
        0 <= i < panels.len() && 0 <= j < panels.len() && i != j ==> (#[trigger] panels[i]).name
            != (#[trigger] panels[j]).name
}

/// Whether the screen shows the reported panel beside the anchor.
pub open spec fn shows(v: ScreenView, host: Seq<char>, p: PanelView, at: (int, int)) -> bool {
    &&& v.owner() == host
    &&& v.name == p.name
    &&& v.ox == at.0 + p.ox
    &&& v.oy == at.1 + p.oy
    &&& v.w == p.w
    &&& v.h == p.h
    &&& v.scale == p.scale
}

/// Every reported panel is shown, and every screen of the machine that bears the name of a
/// reported panel shows it.
pub open spec fn up_to_date(
    s: Seq<ScreenView>,
    host: Seq<char>,
    panels: Seq<PanelView>,
    at: (int, int),
) -> bool {
    &&& forall|k: int|
        0 <= k < panels.len() ==> exists|i: int|
            0 <= i < s.len() && shows(#[trigger] s[i], host, #[trigger] panels[k], at)
    &&& forall|i: int, k: int|
        0 <= i < s.len() && 0 <= k < panels.len() && s[i].owner() == host && s[i].name
            == panels[k].name ==> shows(#[trigger] s[i], host, #[trigger] panels[k], at)
}

proof fn lemma_refreshed_all(
    s: Seq<ScreenView>,
    host: Seq<char>,
    panels: Seq<PanelView>,
    at: (int, int),
)
    requires
        host.len() > 0,
        panels_apart(s, host),
        reports_apart(panels),
    ensures
        panels_apart(refreshed_all(s, host, panels, at), host),
        up_to_date(refreshed_all(s, host, panels, at), host, panels, at),
        others(refreshed_all(s, host, panels, at), host) == others(s, host),
    decreases panels.len(),
{
    if panels.len() > 0 {
        let rest = panels.drop_last();
        let p = panels.last();
        let n = panels.len() - 1;
        assert forall|i: int| 0 <= i < n implies rest[i] == #[trigger] panels[i] by {}
        assert(reports_apart(rest));
        lemma_refreshed_all(s, host, rest, at);
        let t = refreshed_all(s, host, rest, at);
        let u = refreshed(t, host, p, at);
        let q = panel_named(host, p.name);
        let f = geom::first_where(t, q);
        geom::lemma_first_where(t, q);
        lemma_refreshed_spares_the_others(t, host, p, at);
        assert forall|i: int| 0 <= i < t.len() && i != f implies #[trigger] u[i] == t[i] by {}
        assert(shows(u[f], host, p, at));
        assert forall|k: int| 0 <= k < panels.len() implies exists|i: int|
            0 <= i < u.len() && shows(#[trigger] u[i], host, #[trigger] panels[k], at) by {
            if k < n {
                assert(rest[k] == panels[k]);
                let i = choose|i: int| 0 <= i < t.len() && shows(#[trigger] t[i], host, rest[k], at);
                assert(panels[n].name != panels[k].name);
                assert(i != f);
                assert(shows(u[i], host, panels[k], at));
            } else {
                assert(shows(u[f], host, panels[k], at));
            }
        }
        assert forall|i: int, k: int|
            0 <= i < u.len() && 0 <= k < panels.len() && u[i].owner() == host && u[i].name
                == panels[k].name implies shows(#[trigger] u[i], host, #[trigger] panels[k], at) by {
            if i == f {
                assert(panels[n].name == p.name);
                if k < n {
                    assert(panels[k].name != panels[n].name);
                }
            } else {
                assert(u[i] == t[i]);
                if k < n {
                    assert(rest[k] == panels[k]);
                    assert(shows(t[i], host, rest[k], at));
                } else {
                    assert(q(t[i]));
                    if f < t.len() {
                        assert(t[i].name != t[f].name);
                    } else {
                        assert(!q(t[i]));
                    }
                }
            }
        }
    }
}

proof fn lemma_refreshed_spares_the_others(
    t: Seq<ScreenView>,
    host: Seq<char>,
    p: PanelView,
    at: (int, int),
)
    requires
        host.len() > 0,
    ensures
        others(refreshed(t, host, p, at), host) == others(t, host),
{
    let q = panel_named(host, p.name);
    let f = geom::first_where(t, q);
    geom::lemma_first_where(t, q);
    let u = refreshed(t, host, p, at);
    let keep = |v: ScreenView| v.owner() != host;
    if f < t.len() {
        lemma_filter_update(t, f, u[f], keep);
    } else {
        reveal(Seq::filter);
        assert(u.drop_last() =~= t);
    }
}

/// Exchanging one filtered-out element for another changes nothing that is kept.
proof fn lemma_filter_update<A>(s: Seq<A>, i: int, a: A, keep: spec_fn(A) -> bool)
    requires
        0 <= i < s.len(),
        !keep(s[i]),
        !keep(a),
    ensures
        s.update(i, a).filter(keep) == s.filter(keep),
    decreases s.len(),
{
    reveal(Seq::filter);
    let u = s.update(i, a);
    if i == s.len() - 1 {
        assert(u.drop_last() =~= s.drop_last());
    } else {
        assert(u.drop_last() =~= s.drop_last().update(i, a));
        assert(u.last() == s.last());
        lemma_filter_update(s.drop_last(), i, a, keep);
    }
}

/// Filtering twice keeps what the stricter filter keeps.
proof fn lemma_filter_twice<A>(s: Seq<A>, wide: spec_fn(A) -> bool, strict: spec_fn(A) -> bool)
    requires
        forall|a: A| strict(a) ==> #[trigger] wide(a),
    ensures
        s.filter(wide).filter(strict) == s.filter(strict),
    decreases s.len(),
{
    reveal(Seq::filter);
    if s.len() > 0 {
        lemma_filter_twice(s.drop_last(), wide, strict);
        if wide(s.last()) {
            let w = s.filter(wide);
            assert(w.drop_last() =~= s.drop_last().filter(wide));
        }
    }
}

/// A machine's report never touches the panels of another machine.
pub proof fn reports_spare_the_others(s: Seq<ScreenView>, host: Seq<char>, panels: Seq<PanelView>)
    requires
        host.len() > 0,
    ensures
        others(with_host(s, host, panels), host) == others(s, host),
{
    if panels.len() > 0 && !known(s, host) {
        lemma_added_are_the_hosts(s, host, panels, landing(s));
    } else if panels.len() > 0 {
        let at = anchor(s, host);
        lemma_refreshing_spares_the_others(s, host, panels, at);
        lemma_filter_twice(
            refreshed_all(s, host, panels, at),
            still_there(host, panels),
            |v: ScreenView| v.owner() != host,
        );
    }
}

proof fn lemma_refreshing_spares_the_others(
    s: Seq<ScreenView>,
    host: Seq<char>,
    panels: Seq<PanelView>,
    at: (int, int),
)
    requires
        host.len() > 0,
    ensures
        others(refreshed_all(s, host, panels, at), host) == others(s, host),
    decreases panels.len(),
{
    if panels.len() > 0 {
        lemma_refreshing_spares_the_others(s, host, panels.drop_last(), at);
        lemma_refreshed_spares_the_others(
            refreshed_all(s, host, panels.drop_last(), at),
            host,
            panels.last(),
            at,
        );
    }
}

proof fn lemma_added_are_the_hosts(
    s: Seq<ScreenView>,
    host: Seq<char>,
    panels: Seq<PanelView>,
    at: (int, int),
)
    requires
        host.len() > 0,
    ensures
        others(s + panels.map_values(|p: PanelView| placed(host, p, at)), host) == others(s, host),
    decreases panels.len(),
{
    let f = |p: PanelView| placed(host, p, at);
    if panels.len() == 0 {
        assert(s + panels.map_values(f) =~= s);
    } else {
        lemma_added_are_the_hosts(s, host, panels.drop_last(), at);
        let u = s + panels.map_values(f);
        assert(u.drop_last() =~= s + panels.drop_last().map_values(f));
        assert(u.last() == f(panels.last()));
        reveal(Seq::filter);
    }
}

/// A machine that is known keeps its anchor when it reports again, whatever has become of its
/// monitors, and its screens are then exactly those reported.
pub proof fn reports_keep_the_anchor(s: Seq<ScreenView>, host: Seq<char>, panels: Seq<PanelView>)
    requires
        host.len() > 0,
        known(s, host),
        panels.len() > 0,
        panels_apart(s, host),
        reports_apart(panels),
        from_the_corner(panels),
    ensures
        origin_of(with_host(s, host, panels), host) == origin_of(s, host),
        origin_of(s, host) is Some,
        up_to_date(with_host(s, host, panels), host, panels, origin_of(s, host)->0),
        forall|i: int|
            0 <= i < with_host(s, host, panels).len() && (#[trigger] with_host(
                s,
                host,
                panels,
            )[i]).owner() == host ==> reported(panels, with_host(s, host, panels)[i].name),
{
    let p = belongs_to(host);
    geom::lemma_first_where(s, p);
    bbox_is_the_hull(s, p);
    assert(p(s[geom::first_where(s, p)]));
    let at = anchor(s, host);
    let t = refreshed_all(s, host, panels, at);
    let q = still_there(host, panels);
    let w = t.filter(q);
    lemma_refreshed_all(s, host, panels, at);
    assert forall|i: int| 0 <= i < w.len() && (#[trigger] w[i]).owner() == host implies reported(
        panels,
        w[i].name,
    ) by {
        t.lemma_filter_pred(q, i);
    }
    assert forall|i: int, k: int|
        0 <= i < w.len() && 0 <= k < panels.len() && w[i].owner() == host && w[i].name
            == panels[k].name implies shows(#[trigger] w[i], host, #[trigger] panels[k], at) by {
        t.lemma_filter_contains_rev(q, w[i]);
        let j = choose|j: int| 0 <= j < t.len() && t[j] == w[i];
        assert(shows(t[j], host, panels[k], at));
    }
    assert forall|k: int| 0 <= k < panels.len() implies exists|i: int|
        0 <= i < w.len() && shows(#[trigger] w[i], host, #[trigger] panels[k], at) by {
        let j = choose|j: int| 0 <= j < t.len() && shows(#[trigger] t[j], host, panels[k], at);
        assert(q(t[j]));
        t.lemma_filter_contains(q, j);
        let i = choose|i: int| 0 <= i < w.len() && w[i] == t[j];
        assert(shows(w[i], host, panels[k], at));
    }
    bbox_is_the_hull(w, p);
    let kx = choose|k: int| 0 <= k < panels.len() && (#[trigger] panels[k]).ox == 0;
    let ky = choose|k: int| 0 <= k < panels.len() && (#[trigger] panels[k]).oy == 0;
    let ix = choose|i: int| 0 <= i < w.len() && shows(#[trigger] w[i], host, panels[kx], at);
    let iy = choose|i: int| 0 <= i < w.len() && shows(#[trigger] w[i], host, panels[ky], at);
    assert(p(w[ix]) && p(w[iy]));
    assert forall|i: int| 0 <= i < w.len() && p(#[trigger] w[i]) implies w[i].ox >= at.0 && w[i].oy
        >= at.1 by {
        let k = choose|k: int| 0 <= k < panels.len() && (#[trigger] panels[k]).name == w[i].name;
        assert(shows(w[i], host, panels[k], at));
    }
    let b = bbox(w, p)->0;
    assert(b.0 == at.0 * SUBPX);
    assert(b.1 == at.1 * SUBPX);
}

/// The offsets that a machine reports are counted from its own top-left corner: none of them is
/// below 0, and 0 is the least of them both ways.
pub open spec fn from_the_corner(panels: Seq<PanelView>) -> bool {
    &&& forall|k: int|
        0 <= k < panels.len() ==> (#[trigger] panels[k]).ox >= 0 && panels[k].oy >= 0
    &&& exists|k: int| 0 <= k < panels.len() && (#[trigger] panels[k]).ox == 0
    &&& exists|k: int| 0 <= k < panels.len() && (#[trigger] panels[k]).oy == 0
}

/// Panels that are shown already are refreshed without any change.
proof fn lemma_nothing_to_refresh(
    w: Seq<ScreenView>,
    host: Seq<char>,
    panels: Seq<PanelView>,
    at: (int, int),
)
    requires
        up_to_date(w, host, panels, at),
    ensures
        refreshed_all(w, host, panels, at) == w,
        !any_matters(w, host, panels, at),
    decreases panels.len(),
{
    if panels.len() > 0 {
        let rest = panels.drop_last();
        let p = panels.last();
        let n = panels.len() - 1;
        assert(up_to_date(w, host, rest, at)) by {
            assert forall|k: int| 0 <= k < rest.len() implies exists|i: int|
                0 <= i < w.len() && shows(#[trigger] w[i], host, #[trigger] rest[k], at) by {
                assert(rest[k] == panels[k]);
                let i = choose|i: int| 0 <= i < w.len() && shows(#[trigger] w[i], host, panels[k], at);
                assert(shows(w[i], host, rest[k], at));
            }
            assert forall|i: int, k: int|
                0 <= i < w.len() && 0 <= k < rest.len() && w[i].owner() == host && w[i].name
                    == rest[k].name implies shows(#[trigger] w[i], host, #[trigger] rest[k], at) by {
                assert(rest[k] == panels[k]);
                assert(shows(w[i], host, panels[k], at));
            }
        }
        lemma_nothing_to_refresh(w, host, rest, at);
        let q = panel_named(host, p.name);
        let f = geom::first_where(w, q);
        geom::lemma_first_where(w, q);
        assert(p == panels[n]);
        let i = choose|i: int| 0 <= i < w.len() && shows(#[trigger] w[i], host, panels[n], at);
        assert(q(w[i]));
        assert(f < w.len());
        assert(shows(w[f], host, panels[n], at));
        assert(refreshed(w, host, p, at) =~= w);
    }
}

/// A machine that was new has its anchor where it landed, and its screens are those reported.
proof fn lemma_landed(s: Seq<ScreenView>, host: Seq<char>, panels: Seq<PanelView>)
    requires
        host.len() > 0,
        !known(s, host),
        reports_apart(panels),
        from_the_corner(panels),
    ensures
        ({
            let w = with_host(s, host, panels);
            &&& origin_of(w, host) == Some(landing(s))
            &&& up_to_date(w, host, panels, landing(s))
            &&& forall|i: int|
                0 <= i < w.len() && (#[trigger] w[i]).owner() == host ==> reported(
                    panels,
                    w[i].name,
                )
        }),
{
    let p = belongs_to(host);
    let at = landing(s);
    let w = with_host(s, host, panels);
    let n = s.len() as int;
    geom::lemma_first_where(s, p);
    assert forall|i: int| 0 <= i < n implies !p(#[trigger] w[i]) by {
        assert(w[i] == s[i]);
    }
    assert forall|k: int| 0 <= k < panels.len() implies shows(
        w[n + k],
        host,
        #[trigger] panels[k],
        at,
    ) by {}
    assert forall|i: int| 0 <= i < w.len() && (#[trigger] w[i]).owner() == host implies reported(
        panels,
        w[i].name,
    ) && w[i] == placed(host, panels[i - n], at) by {
        assert(p(w[i]));
        assert(panels[i - n].name == w[i].name);
    }
    assert forall|i: int, k: int|
        0 <= i < w.len() && 0 <= k < panels.len() && w[i].owner() == host && w[i].name
            == panels[k].name implies shows(#[trigger] w[i], host, #[trigger] panels[k], at) by {
        assert(panels[i - n].name == panels[k].name);
    }
    bbox_is_the_hull(w, p);
    let kx = choose|k: int| 0 <= k < panels.len() && (#[trigger] panels[k]).ox == 0;
    let ky = choose|k: int| 0 <= k < panels.len() && (#[trigger] panels[k]).oy == 0;
    assert(p(w[n + kx]) && p(w[n + ky]));
    assert forall|i: int| 0 <= i < w.len() && p(#[trigger] w[i]) implies w[i].ox >= at.0 && w[i].oy
        >= at.1 by {
        assert(w[i] == placed(host, panels[i - n], at));
    }
    let b = bbox(w, p)->0;
    assert(b.0 == at.0 * SUBPX);
    assert(b.1 == at.1 * SUBPX);
}

/// A report that a machine repeats changes nothing and is not worth telling, whether the machine was
/// new the first time or known already. Neither is an empty one, ever.
pub proof fn a_second_report_changes_nothing(
    s: Seq<ScreenView>,
    host: Seq<char>,
    panels: Seq<PanelView>,
)
    requires
        host.len() > 0,
        panels_apart(s, host),
        reports_apart(panels),
        panels.len() > 0 ==> from_the_corner(panels),
    ensures
        with_host(with_host(s, host, panels), host, panels) == with_host(s, host, panels),
        !host_changes(with_host(s, host, panels), host, panels),
        with_host(s, host, Seq::empty()) == s,
        !host_changes(s, host, Seq::empty()),
{
    if panels.len() > 0 {
        let w = with_host(s, host, panels);
        let at = anchor(s, host);
        if known(s, host) {
            reports_keep_the_anchor(s, host, panels);
        } else {
            lemma_landed(s, host, panels);
        }
        assert(up_to_date(w, host, panels, at));
        let i = choose|i: int| 0 <= i < w.len() && shows(#[trigger] w[i], host, panels[0], at);
        geom::lemma_first_where(w, belongs_to(host));
        assert(belongs_to(host)(w[i]));
        assert(known(w, host));
        assert(anchor(w, host) == at);
        lemma_nothing_to_refresh(w, host, panels, at);
        crate::network::lemma_filter_all(w, still_there(host, panels));
    }
}

proof fn lemma_right_edge(s: Seq<ScreenView>)
    ensures
        forall|i: int| 0 <= i < s.len() ==> (#[trigger] s[i]).ox + s[i].w <= right_edge(s),
    decreases s.len(),
{
    if s.len() > 1 {
        lemma_right_edge(s.drop_last());
        assert forall|i: int| 0 <= i < s.len() implies (#[trigger] s[i]).ox + s[i].w <= right_edge(s) by {
            if i < s.len() - 1 {
                assert(s.drop_last()[i] == s[i]);
            }
        }
    }
}

/// A machine that is new to the layout covers nothing that is there already: all of its screens lie
/// to the right of all the others, side by side as they are on the machine itself.
pub proof fn new_machines_land_to_the_right(
    s: Seq<ScreenView>,
    host: Seq<char>,
    panels: Seq<PanelView>,
    i: int,
    k: int,
)
    requires
        !known(s, host),
        0 <= i < s.len(),
        0 <= k < panels.len(),
        panels[k].ox >= 0,
    ensures
        s.is_prefix_of(with_host(s, host, panels)),
        with_host(s, host, panels).len() == s.len() + panels.len(),
        with_host(s, host, panels)[s.len() + k] == placed(host, panels[k], landing(s)),
        s[i].rect().2 <= with_host(s, host, panels)[s.len() + k].rect().0,
{
    lemma_right_edge(s);
    assert(s[i].ox + s[i].w <= right_edge(s));
}

/// A point that lies on a screen stays where it is. A point in a gap between the screens is pulled
/// onto the nearest of them, the first where several are, so the virtual cursor never escapes to
/// infinity.
pub proof fn pulled_points_lie_on_the_nearest_screen(s: Seq<ScreenView>, x: int, y: int)
    requires
        s.len() > 0,
        on_a_screen(s, x, y) || can_pull(s, x, y),
    ensures
        on_a_screen(s, kept_on_screens(s, x, y).0, kept_on_screens(s, x, y).1),
        on_a_screen(s, x, y) ==> kept_on_screens(s, x, y) == (x, y),
        !on_a_screen(s, x, y) ==> exists|i: int|
            {
                &&& 0 <= i < s.len()
                &&& kept_on_screens(s, x, y) == pulled_inside(#[trigger] s[i], x, y)
                &&& s[i].holds(kept_on_screens(s, x, y).0, kept_on_screens(s, x, y).1)
                &&& forall|j: int|
                    0 <= j < s.len() ==> away2(x, y)(s[i]) <= away2(x, y)(#[trigger] s[j])
                &&& forall|j: int| 0 <= j < i ==> away2(x, y)(s[i]) < away2(x, y)(#[trigger] s[j])
            },
{
    geom::lemma_nearest_where(s, any_panel(), away2(x, y));
    assert(any_panel()(s[0]));
    let i = geom::nearest_where(s, any_panel(), away2(x, y));
    let p = pulled_inside(s[i], x, y);
    if !on_a_screen(s, x, y) {
        assert(s[i].holds(p.0, p.1));
    }
    assert forall|j: int| 0 <= j < s.len() implies away2(x, y)(s[i]) <= away2(x, y)(#[trigger] s[j]) by {
        assert(any_panel()(s[j]));
    }
    assert forall|j: int| 0 <= j < i implies away2(x, y)(s[i]) < away2(x, y)(#[trigger] s[j]) by {
        assert(any_panel()(s[j]));
    }
}

proof fn lemma_edges_are_reached(s: Seq<ScreenView>)
    requires
        s.len() > 0,
    ensures
        exists|i: int| 0 <= i < s.len() && (#[trigger] s[i]).ox + s[i].w == right_edge(s),
        exists|i: int| 0 <= i < s.len() && (#[trigger] s[i]).oy == top_edge(s),
        forall|i: int| 0 <= i < s.len() ==> top_edge(s) <= (#[trigger] s[i]).oy,
    decreases s.len(),
{
    let n = s.len() - 1;
    if n > 0 {
        let t = s.drop_last();
        lemma_edges_are_reached(t);
        let i = choose|i: int| 0 <= i < t.len() && (#[trigger] t[i]).ox + t[i].w == right_edge(t);
        let j = choose|j: int| 0 <= j < t.len() && (#[trigger] t[j]).oy == top_edge(t);
        assert(s[i] == t[i] && s[j] == t[j] && s[n] == s.last());
        assert(s[i].ox + s[i].w == right_edge(s) || s[n].ox + s[n].w == right_edge(s));
        assert(s[j].oy == top_edge(s) || s[n].oy == top_edge(s));
        assert forall|k: int| 0 <= k < s.len() implies top_edge(s) <= (#[trigger] s[k]).oy by {
            if k < n {
                assert(t[k] == s[k]);
            }
        }
    } else {
        assert(s[0].ox + s[0].w == right_edge(s));
        assert(s[0].oy == top_edge(s));
    }
}

/// The right edge of everything is that of some screen, and no screen reaches beyond it.
pub proof fn the_right_edge_is_reached(s: Seq<ScreenView>)
    requires
        s.len() > 0,
    ensures
        forall|i: int| 0 <= i < s.len() ==> (#[trigger] s[i]).ox + s[i].w <= right_edge(s),
        exists|i: int| 0 <= i < s.len() && (#[trigger] s[i]).ox + s[i].w == right_edge(s),
{
    lemma_right_edge(s);
    lemma_edges_are_reached(s);
}

/// A machine that connects for the first time appears in the layout by itself, flush with what is
/// there: each of its panels as reported, in order and as a remote screen, the machine's corner at
/// the rightmost edge of all screens and level with the top of the local ones (of all, where there
/// is no local one). The others keep their places, and it is worth telling.
pub proof fn a_new_machine_appears_flush(s: Seq<ScreenView>, host: Seq<char>, panels: Seq<PanelView>)
    requires
        s.len() > 0,
        panels.len() > 0,
        host.len() > 0,
        forall|i: int| 0 <= i < s.len() ==> (#[trigger] s[i]).owner() != host,
    ensures
        host_changes(s, host, panels),
        exists|x: int, y: int|
            {
                let w = with_host(s, host, panels);
                &&& #[trigger] corner_beside(s, x, y)
                &&& w.len() == s.len() + panels.len()
                &&& w.take(s.len() as int) == s
                &&& forall|k: int|
                    0 <= k < panels.len() ==> {
                        let v = #[trigger] w[s.len() + k];
                        &&& shows(v, host, panels[k], (x, y))
                        &&& v.host == host && !v.is_local
                    }
            },
{
    let w = with_host(s, host, panels);
    let all = local_panel();
    geom::lemma_first_where(s, belongs_to(host));
    let f = geom::first_where(s, belongs_to(host));
    if f < s.len() {
        assert(s[f].owner() != host);
    }
    assert(!known(s, host));
    let (x, y) = landing(s);
    lemma_right_edge(s);
    lemma_edges_are_reached(s);
    bbox_is_the_hull(s, all);
    if let Some(b) = bbox(s, all) {
        let k = choose|k: int| 0 <= k < s.len() && all(#[trigger] s[k]) && b.1 == s[k].rect().1;
        assert(y == s[k].oy);
        assert(s[k].is_local && s[k].oy == y);
        assert forall|i: int| 0 <= i < s.len() && (#[trigger] s[i]).is_local implies y <= s[i].oy by {
            assert(all(s[i]));
            assert(b.1 <= s[i].rect().1);
        }
    } else {
        assert forall|i: int| 0 <= i < s.len() implies !(#[trigger] s[i]).is_local by {
            assert(!all(s[i]));
        }
    }
    assert(corner_beside(s, x, y));
    assert(w.take(s.len() as int) =~= s);
    assert forall|k: int| 0 <= k < panels.len() implies {
        let v = #[trigger] w[s.len() + k];
        &&& shows(v, host, panels[k], (x, y))
        &&& v.host == host && !v.is_local
    } by {
        assert(w[s.len() + k] == placed(host, panels[k], (x, y)));
    }
}

/// Whether a place is the rightmost edge of all screens, level with the highest local one, or with
/// the highest of all where none is local.
pub open spec fn corner_beside(s: Seq<ScreenView>, x: int, y: int) -> bool {
    &&& forall|i: int| 0 <= i < s.len() ==> (#[trigger] s[i]).ox + s[i].w <= x
    &&& exists|i: int| 0 <= i < s.len() && (#[trigger] s[i]).ox + s[i].w == x
    &&& if exists|i: int| 0 <= i < s.len() && (#[trigger] s[i]).is_local {
        &&& forall|i: int| 0 <= i < s.len() && (#[trigger] s[i]).is_local ==> y <= s[i].oy
        &&& exists|i: int| 0 <= i < s.len() && (#[trigger] s[i]).is_local && s[i].oy == y
    } else {
        &&& forall|i: int| 0 <= i < s.len() ==> y <= (#[trigger] s[i]).oy
        &&& exists|i: int| 0 <= i < s.len() && (#[trigger] s[i]).oy == y
    }
}

/// What has become of a machine is told: where a panel that it reports is not shown under its name
/// with its size and scale, or a screen of the machine is none of those reported, its report is worth
/// telling the others.
pub proof fn a_change_is_worth_telling(s: Seq<ScreenView>, host: Seq<char>, panels: Seq<PanelView>)
    requires
        host.len() > 0,
        panels.len() > 0,
        panels_apart(s, host),
        reports_apart(panels),
        exists|i: int| 0 <= i < s.len() && (#[trigger] s[i]).owner() == host,
        ({
            ||| exists|k: int|
                0 <= k < panels.len() && !(exists|i: int|
                    {
                        &&& 0 <= i < s.len()
                        &&& (#[trigger] s[i]).owner() == host && s[i].name == panels[k].name
                        &&& s[i].w == panels[k].w && s[i].h == panels[k].h && s[i].scale
                            == (#[trigger] panels[k]).scale
                    })
            ||| exists|i: int|
                0 <= i < s.len() && (#[trigger] s[i]).owner() == host && !reported(
                    panels,
                    s[i].name,
                )
        }),
    ensures
        host_changes(s, host, panels),
{
    let p = belongs_to(host);
    let at = anchor(s, host);
    let t = refreshed_all(s, host, panels, at);
    let q = still_there(host, panels);
    geom::lemma_first_where(s, p);
    let known_at = choose|i: int| 0 <= i < s.len() && (#[trigger] s[i]).owner() == host;
    assert(p(s[known_at]));
    assert(known(s, host));
    if !any_matters(s, host, panels, at) {
        lemma_nothing_matters(s, host, panels, at);
        assert(exists|i: int| 0 <= i < s.len() && (#[trigger] s[i]).owner() == host && !reported(
            panels,
            s[i].name,
        ));
        let i = choose|i: int|
            0 <= i < s.len() && (#[trigger] s[i]).owner() == host && !reported(panels, s[i].name);
        assert(t[i].owner() == host && t[i].name == s[i].name);
        assert(!q(t[i]));
        lemma_filter_drops(t, q, i);
    }
}

/// Where no report of a panel matters, every panel was shown before with its size and scale, and the
/// screens keep their names and owners.
proof fn lemma_nothing_matters(
    s: Seq<ScreenView>,
    host: Seq<char>,
    panels: Seq<PanelView>,
    at: (int, int),
)
    requires
        !any_matters(s, host, panels, at),
        reports_apart(panels),
    ensures
        refreshed_all(s, host, panels, at).len() == s.len(),
        forall|i: int|
            0 <= i < s.len() ==> {
                let v = #[trigger] refreshed_all(s, host, panels, at)[i];
                &&& v.owner() == s[i].owner() && v.name == s[i].name
                &&& v.w == s[i].w && v.h == s[i].h && v.scale == s[i].scale
            },
        forall|k: int|
            0 <= k < panels.len() ==> exists|i: int|
                {
                    &&& 0 <= i < s.len()
                    &&& (#[trigger] s[i]).owner() == host && s[i].name == panels[k].name
                    &&& s[i].w == panels[k].w && s[i].h == panels[k].h && s[i].scale
                        == (#[trigger] panels[k]).scale
                },
    decreases panels.len(),
{
    if panels.len() > 0 {
        let rest = panels.drop_last();
        let n = panels.len() - 1;
        assert forall|i: int| 0 <= i < n implies rest[i] == #[trigger] panels[i] by {}
        lemma_nothing_matters(s, host, rest, at);
        let t = refreshed_all(s, host, rest, at);
        let pn = panel_named(host, panels[n].name);
        let f = geom::first_where(t, pn);
        geom::lemma_first_where(t, pn);
        assert(!refresh_matters(t, host, panels.last()));
        assert(f < t.len());
        assert(pn(t[f]));
        assert(s[f].owner() == host && s[f].name == panels[n].name);
        assert forall|k: int| 0 <= k < panels.len() implies exists|i: int|
            {
                &&& 0 <= i < s.len()
                &&& (#[trigger] s[i]).owner() == host && s[i].name == panels[k].name
                &&& s[i].w == panels[k].w && s[i].h == panels[k].h && s[i].scale
                    == (#[trigger] panels[k]).scale
            } by {
            if k < n {
                assert(rest[k] == panels[k]);
            } else {
                assert(s[f].w == panels[k].w);
            }
        }
    }
}

proof fn lemma_filter_drops<A>(s: Seq<A>, keep: spec_fn(A) -> bool, i: int)
    requires
        0 <= i < s.len(),
        !keep(s[i]),
    ensures
        s.filter(keep).len() < s.len(),
    decreases s.len(),
{
    reveal(Seq::filter);
    let t = s.drop_last();
    if i < s.len() - 1 {
        assert(t[i] == s[i]);
        lemma_filter_drops(t, keep, i);
    } else {
        t.lemma_filter_len(keep);
    }
}

/// The machine that a panel belongs to, which panels it may be, and where it lies: the name of the
/// machine, or its own where it names none; its place and size in whole pixels.
pub proof fn panels_lie_where_they_say(s: ScreenView, x: int, y: int)
    ensures
        s.host.len() > 0 ==> s.owner() == s.host,
        s.host.len() == 0 ==> s.owner() == s.name,
        s.rect() == (s.ox * 65_536, s.oy * 65_536, (s.ox + s.w) * 65_536, (s.oy + s.h) * 65_536),
        s.holds(x, y) <==> {
            &&& s.ox * 65_536 <= x < (s.ox + s.w) * 65_536
            &&& s.oy * 65_536 <= y < (s.oy + s.h) * 65_536
        },
{
}

/// A copy of a screen has a name of its own: that of the screen, `-copy` and the first number that
/// makes it one.
pub proof fn a_copy_has_a_name_of_its_own(s: Seq<ScreenView>, base: Seq<char>, n: nat, m: nat)
    requires
        is_next_copy(s, base, n),
    ensures
        copy_name(base, n) == base + "-copy"@ + crate::text::decimal(n),
        forall|i: int| 0 <= i < s.len() ==> (#[trigger] s[i]).name != copy_name(base, n),
        1 <= m < n ==> exists|i: int|
            0 <= i < s.len() && (#[trigger] s[i]).name == copy_name(base, m),
{
    let p = named(copy_name(base, n));
    geom::lemma_first_where(s, p);
    assert forall|i: int| 0 <= i < s.len() implies (#[trigger] s[i]).name != copy_name(base, n) by {
        assert(!p(s[i]));
    }
    if 1 <= m < n {
        assert(has_name(s, copy_name(base, m)));
        let q = named(copy_name(base, m));
        geom::lemma_first_where(s, q);
        assert(s[geom::first_where(s, q)].name == copy_name(base, m));
    }
}

} // verus!
