//! The layout canvas: where the tiles of the virtual desktop lie, what dragging one of them does,
//! where the cursor can cross from one machine to another, and what the tiles are labelled with.

use crate::control::motion_scale_ratio;
use crate::geom;
use crate::geom::{RATIO_ONE, SUBPX};
use crate::layout::{Layout, Screen, ScreenView};
use crate::machine::{FALLBACK_HEIGHT, FALLBACK_WIDTH};
use crate::text;
use crate::text::same;
use vstd::prelude::*;
use vstd::string::*;

verus! {

/// How close, in pixels, a dragged tile has to come to an edge to be pulled flush against it.
pub const SNAP: i64 = 24;

/// Gap, in pixels, between the right edge of the desktop and a screen added by hand.
pub const ADD_GAP: i64 = 40;

/// A box in sub-pixels, in pixels.
pub open spec fn in_pixels(b: (int, int, int, int)) -> (int, int, int, int) {
    (b.0 / SUBPX as int, b.1 / SUBPX as int, b.2 / SUBPX as int, b.3 / SUBPX as int)
}

proof fn lemma_box_is_whole(s: Seq<ScreenView>, p: spec_fn(ScreenView) -> bool)
    ensures
        crate::layout::bbox(s, p) matches Some(b) ==> b.0 % SUBPX as int == 0 && b.1 % SUBPX as int
            == 0 && b.2 % SUBPX as int == 0 && b.3 % SUBPX as int == 0,
    decreases s.len(),
{
    if s.len() > 0 {
        lemma_box_is_whole(s.drop_last(), p);
    }
}

/// What the canvas shows, in pixels: everything there is, or one screen's worth of nothing.
pub open spec fn shown(s: Seq<ScreenView>) -> (int, int, int, int) {
    match crate::layout::bbox(s, crate::layout::any_panel()) {
        Some(b) => in_pixels(b),
        None => (0, 0, FALLBACK_WIDTH as int, FALLBACK_HEIGHT as int),
    }
}

/// Left, top, right and bottom edge of what the canvas shows, in pixels.
pub fn bounds(layout: &Layout) -> (r: (i64, i64, i64, i64))
    ensures
        (r.0 as int, r.1 as int, r.2 as int, r.3 as int) == shown(layout@),
{
    proof {
        lemma_box_is_whole(layout@, crate::layout::any_panel());
    }
    match layout.bounding_box() {
        Some(b) => (
            geom::whole_pixels(b.0),
            geom::whole_pixels(b.1),
            geom::whole_pixels(b.2),
            geom::whole_pixels(b.3),
        ),
        None => (0, 0, FALLBACK_WIDTH as i64, FALLBACK_HEIGHT as i64),
    }
}

/// Every tile lies within what the canvas shows.
pub proof fn every_tile_is_shown(s: Seq<ScreenView>, i: int)
    requires
        0 <= i < s.len(),
    ensures
        shown(s).0 <= s[i].ox,
        shown(s).1 <= s[i].oy,
        s[i].ox + s[i].w <= shown(s).2,
        s[i].oy + s[i].h <= shown(s).3,
{
    let p = crate::layout::any_panel();
    crate::layout::bbox_is_the_hull(s, p);
    lemma_box_is_whole(s, p);
    assert(p(s[i]));
}

/// Whether two positions are at most `d` pixels apart.
pub open spec fn close(a: int, b: int, d: int) -> bool {
    -d <= a - b <= d
}

/// Where a tile that is dragged to `(x, y)` comes to rest. A remote tile that comes close to the
/// box around the local displays is pulled flush against its right or left edge, and lined up with
/// its top or bottom edge.
pub open spec fn rest(v: ScreenView, x: int, y: int, local: Option<(int, int, int, int)>) -> (
    int,
    int,
) {
    match local {
        Some(b) if !v.is_local => (
            if close(x + v.w, b.0, SNAP as int) {
                b.0 - v.w
            } else if close(x, b.2, SNAP as int) {
                b.2
            } else {
                x
            },
            if close(y + v.h, b.3, SNAP as int) {
                b.3 - v.h
            } else if close(y, b.1, SNAP as int) {
                b.1
            } else {
                y
            },
        ),
        _ => (x, y),
    }
}

/// The box around the local displays, in pixels.
pub open spec fn local_box(s: Seq<ScreenView>) -> Option<(int, int, int, int)> {
    match crate::layout::bbox(s, crate::layout::local_panel()) {
        Some(b) => Some(in_pixels(b)),
        None => None,
    }
}

/// How far the machine is moved when tile `i` is dragged by `(dx, dy)`.
pub open spec fn drag_step(s: Seq<ScreenView>, i: int, dx: int, dy: int) -> (int, int) {
    let at = rest(s[i], s[i].ox + dx, s[i].oy + dy, local_box(s));
    (at.0 - s[i].ox, at.1 - s[i].oy)
}

/// Whether a machine can be moved that far without leaving the range of pixel coordinates.
pub open spec fn can_move(s: Seq<ScreenView>, host: Seq<char>, step: (int, int)) -> bool {
    &&& crate::layout::is_coordinate(step.0)
    &&& crate::layout::is_coordinate(step.1)
    &&& forall|k: int|
        0 <= k < s.len() && (#[trigger] s[k]).owner() == host ==> crate::layout::is_coordinate(
            s[k].ox + step.0,
        ) && crate::layout::is_coordinate(s[k].oy + step.1)
}

/// The layout once tile `i` was dragged.
pub open spec fn dragged(s: Seq<ScreenView>, i: int, dx: int, dy: int) -> Seq<ScreenView> {
    let step = drag_step(s, i, dx, dy);
    if can_move(s, s[i].owner(), step) {
        crate::layout::host_moved(s, s[i].owner(), step.0, step.1)
    } else {
        s
    }
}

fn local_pixels(layout: &Layout) -> (r: Option<(i64, i64, i64, i64)>)
    ensures
        crate::layout::wide(r) == local_box(layout@),
        r matches Some(b) ==> -0x8_0000_0000 <= b.0 <= 0x8_0000_0000 && -0x8_0000_0000 <= b.1
            <= 0x8_0000_0000 && -0x8_0000_0000 <= b.2 <= 0x8_0000_0000 && -0x8_0000_0000 <= b.3
            <= 0x8_0000_0000,
{
    proof {
        lemma_box_is_whole(layout@, crate::layout::local_panel());
    }
    match layout.local_bbox() {
        Some(b) => Some(
            (
                geom::whole_pixels(b.0),
                geom::whole_pixels(b.1),
                geom::whole_pixels(b.2),
                geom::whole_pixels(b.3),
            ),
        ),
        None => None,
    }
}

fn is_close(a: i64, b: i64, d: i64) -> (r: bool)
    requires
        -0x10_0000_0000 <= a <= 0x10_0000_0000,
        -0x10_0000_0000 <= b <= 0x10_0000_0000,
        0 <= d <= 0x10_0000_0000,
    ensures
        r == close(a as int, b as int, d as int),
{
    let diff: i64 = a - b;
    -d <= diff && diff <= d
}

fn is_pixel(v: i64) -> (r: bool)
    ensures
        r == crate::layout::is_coordinate(v as int),
{
    i32::MIN as i64 <= v && v <= i32::MAX as i64
}

/// Drags tile `idx` by `(dx, dy)` pixels; the other tiles of its machine come along, because the
/// arrangement *inside* a machine is a fact of its own OS. A remote tile is pulled flush against the
/// box around the local displays when it comes close, so the shared edge lines up and the cursor can
/// cross: a tile dragged "almost" flush could otherwise silently disable crossing.
///
/// Returns whether the machine was moved; it stays where it is if one of its tiles would leave the
/// range of pixel coordinates.
pub fn drag_tile(layout: &mut Layout, idx: usize, dx: i32, dy: i32) -> (moved: bool)
    requires
        idx < old(layout)@.len(),
    ensures
        final(layout)@ == dragged(old(layout)@, idx as int, dx as int, dy as int),
        moved == can_move(
            old(layout)@,
            old(layout)@[idx as int].owner(),
            drag_step(old(layout)@, idx as int, dx as int, dy as int),
        ),
{
    let local = local_pixels(layout);
    let s = layout.screens[idx].clone();
    let ghost all = layout@;
    assert(all[idx as int] == s@);
    let mut x: i64 = s.ox as i64 + dx as i64;
    let mut y: i64 = s.oy as i64 + dy as i64;
    let right: i64 = x + s.w as i64;
    let bottom: i64 = y + s.h as i64;
    match local {
        Some(b) => {
            if !s.is_local {
                if is_close(right, b.0, SNAP) {
                    x = b.0 - s.w as i64;
                } else if is_close(x, b.2, SNAP) {
                    x = b.2;
                }
                if is_close(bottom, b.3, SNAP) {
                    y = b.3 - s.h as i64;
                } else if is_close(y, b.1, SNAP) {
                    y = b.1;
                }
            }
        },
        None => {},
    }
    let sx: i64 = x - s.ox as i64;
    let sy: i64 = y - s.oy as i64;
    assert((sx as int, sy as int) == drag_step(all, idx as int, dx as int, dy as int));
    if !is_pixel(sx) || !is_pixel(sy) {
        return false;
    }
    let host = s.host().to_owned();
    let mut k: usize = 0;
    while k < layout.screens.len()
        invariant
            k <= layout.screens.len(),
            layout@ == all,
            host@ == all[idx as int].owner(),
            crate::layout::is_coordinate(sx as int),
            crate::layout::is_coordinate(sy as int),
            (sx as int, sy as int) == drag_step(all, idx as int, dx as int, dy as int),
            all == old(layout)@,
            *layout == *old(layout),
            forall|j: int|
                0 <= j < k && (#[trigger] all[j]).owner() == host@ ==> crate::layout::is_coordinate(
                    all[j].ox + sx,
                ) && crate::layout::is_coordinate(all[j].oy + sy),
        decreases layout.screens.len() - k,
    {
        let t = &layout.screens[k];
        assert(all[k as int] == t@);
        if t.belongs(host.as_str()) {
            if !is_pixel(t.ox as i64 + sx) || !is_pixel(t.oy as i64 + sy) {
                return false;
            }
        }
        k += 1;
    }
    layout.move_host(host.as_str(), sx as i32, sy as i32);
    true
}

/// A remote tile that is let go close to the right edge of the local displays rests flush against
/// it; close to their left edge it rests flush against that one.
pub proof fn tiles_snap_to_the_local_edges(
    v: ScreenView,
    x: int,
    y: int,
    b: (int, int, int, int),
)
    requires
        !v.is_local,
        v.w >= 0,
        b.0 <= b.2,
    ensures
        close(x + v.w, b.0, SNAP as int) ==> rest(v, x, y, Some(b)).0 + v.w == b.0,
        close(x, b.2, SNAP as int) && !close(x + v.w, b.0, SNAP as int) ==> rest(
            v,
            x,
            y,
            Some(b),
        ).0 == b.2,
        close(rest(v, x, y, Some(b)).0, x, SNAP as int),
        close(rest(v, x, y, Some(b)).1, y, SNAP as int),
{
}

/// A stretch where two machines' displays meet side by side, in pixels: the column, and the rows
/// from where to where.
#[derive(Debug, Clone, Copy, PartialEq, Eq, Structural)]
pub struct Edge {
    pub x: i64,
    pub top: i64,
    pub bottom: i64,
}

/// What an [`Edge`] holds.
pub open spec fn edge_view(e: Edge) -> (int, int, int) {
    (e.x as int, e.top as int, e.bottom as int)
}

/// Where the local display `a` and the remote one `b` meet side by side: flush to a pixel, over more
/// than a pixel.
pub open spec fn edge_between(a: ScreenView, b: ScreenView) -> Option<(int, int, int)> {
    let top = if a.oy > b.oy {
        a.oy
    } else {
        b.oy
    };
    let bottom = if a.oy + a.h < b.oy + b.h {
        a.oy + a.h
    } else {
        b.oy + b.h
    };
    if !a.is_local || b.is_local || bottom <= top + 1 {
        None
    } else if close(a.ox + a.w, b.ox, 1) {
        Some((a.ox + a.w, top, bottom))
    } else if close(b.ox + b.w, a.ox, 1) {
        Some((a.ox, top, bottom))
    } else {
        None
    }
}

/// The edges that `a` shares with the displays of `s`, in order.
pub open spec fn edges_of(a: ScreenView, s: Seq<ScreenView>) -> Seq<(int, int, int)>
    decreases s.len(),
{
    if s.len() == 0 {
        Seq::empty()
    } else {
        let before = edges_of(a, s.drop_last());
        match edge_between(a, s.last()) {
            Some(e) => before.push(e),
            None => before,
        }
    }
}

/// The edges that the displays of `some` share with those of `s`, in order.
pub open spec fn edges(some: Seq<ScreenView>, s: Seq<ScreenView>) -> Seq<(int, int, int)>
    decreases some.len(),
{
    if some.len() == 0 {
        Seq::empty()
    } else {
        edges(some.drop_last(), s) + edges_of(some.last(), s)
    }
}

/// What a list of edges holds.
pub open spec fn edge_views(v: Seq<Edge>) -> Seq<(int, int, int)> {
    Seq::new(v.len(), |i: int| edge_view(v[i]))
}

fn find_edge(a: &Screen, b: &Screen) -> (r: Option<Edge>)
    ensures
        (match r {
            None => None,
            Some(e) => Some(edge_view(e)),
        }) == edge_between(a@, b@),
{
    if !a.is_local || b.is_local {
        return None;
    }
    let al: i64 = a.ox as i64;
    let at: i64 = a.oy as i64;
    let ar: i64 = al + a.w as i64;
    let ab: i64 = at + a.h as i64;
    let bl: i64 = b.ox as i64;
    let bt: i64 = b.oy as i64;
    let br: i64 = bl + b.w as i64;
    let bb: i64 = bt + b.h as i64;
    let top: i64 = if at > bt { at } else { bt };
    let bottom: i64 = if ab < bb { ab } else { bb };
    if bottom <= top + 1 {
        None
    } else if is_close(ar, bl, 1) {
        Some(Edge { x: ar, top, bottom })
    } else if is_close(br, al, 1) {
        Some(Edge { x: al, top, bottom })
    } else {
        None
    }
}

/// Where this machine's displays meet a secondary's side by side. Making these edges visible turns
/// "why can't I cross?" into something you can see at a glance: a missing or misaligned shared edge
/// is the usual answer.
pub fn shared_edges(layout: &Layout) -> (r: Vec<Edge>)
    ensures
        edge_views(r@) == edges(layout@, layout@),
{
    let ghost s = layout@;
    let mut r: Vec<Edge> = Vec::new();
    let mut i: usize = 0;
    assert(edge_views(r@) =~= edges(s.take(0), s));
    while i < layout.screens.len()
        invariant
            i <= layout.screens.len(),
            s == layout@,
            edge_views(r@) == edges(s.take(i as int), s),
        decreases layout.screens.len() - i,
    {
        let a = &layout.screens[i];
        let ghost done = edge_views(r@);
        let mut k: usize = 0;
        assert(edge_views(r@) =~= done + edges_of(a@, s.take(0)));
        while k < layout.screens.len()
            invariant
                k <= layout.screens.len(),
                s == layout@,
                edge_views(r@) == done + edges_of(a@, s.take(k as int)),
            decreases layout.screens.len() - k,
        {
            let ghost was = edge_views(r@);
            let b = &layout.screens[k];
            proof {
                assert(s.take(k as int + 1).drop_last() =~= s.take(k as int));
                assert(s.take(k as int + 1).last() == b@);
            }
            match find_edge(a, b) {
                Some(e) => {
                    r.push(e);
                    assert(edge_views(r@) =~= was.push(edge_view(e)));
                    assert(edge_views(r@) =~= done + edges_of(a@, s.take(k as int + 1)));
                },
                None => {},
            }
            k += 1;
        }
        proof {
            assert(s.take(k as int) =~= s);
            assert(s.take(i as int + 1).drop_last() =~= s.take(i as int));
            assert(s.take(i as int + 1).last() == a@);
        }
        i += 1;
    }
    assert(s.take(i as int) =~= s);
    r
}

/// A screen added by hand, to the right of everything.
pub open spec fn added(s: Seq<ScreenView>) -> ScreenView {
    ScreenView {
        name: "machine-"@ + text::decimal(s.len() + 1),
        host: Seq::empty(),
        ox: crate::layout::right_edge(s) + ADD_GAP,
        oy: 0,
        w: FALLBACK_WIDTH as int,
        h: FALLBACK_HEIGHT as int,
        is_local: false,
        scale: RATIO_ONE as int,
    }
}

/// Adds a screen for a machine that is not connected yet, to the right of everything. Returns
/// whether its place is a pixel coordinate; nothing is added if it is not.
pub fn add_screen(layout: &mut Layout) -> (r: bool)
    requires
        old(layout)@.len() < usize::MAX,
    ensures
        r == crate::layout::is_coordinate(added(old(layout)@).ox),
        final(layout)@ == (if r {
            old(layout)@.push(added(old(layout)@))
        } else {
            old(layout)@
        }),
{
    let ghost all = layout@;
    let mut edge: i64 = 0;
    let mut i: usize = 0;
    while i < layout.screens.len()
        invariant
            i <= layout.screens.len(),
            all == layout@,
            all == old(layout)@,
            edge == crate::layout::right_edge(all.take(i as int)),
            -0x8000_0000 <= edge <= 0x1_8000_0000,
        decreases layout.screens.len() - i,
    {
        let s = &layout.screens[i];
        assert(all[i as int] == s@);
        assert(all.take(i as int + 1).drop_last() =~= all.take(i as int));
        assert(all.take(i as int + 1).last() == s@);
        let here: i64 = s.ox as i64 + s.w as i64;
        if i == 0 || here > edge {
            edge = here;
        }
        i += 1;
    }
    assert(all.take(i as int) =~= all);
    let ox: i64 = edge + ADD_GAP;
    if !is_pixel(ox) {
        return false;
    }
    let mut name = "machine-".to_owned();
    text::push_decimal(&mut name, (layout.screens.len() + 1) as u64);
    let s = Screen {
        name,
        host: String::new(),
        ox: ox as i32,
        oy: 0,
        w: FALLBACK_WIDTH,
        h: FALLBACK_HEIGHT,
        is_local: false,
        scale: RATIO_ONE,
    };
    let ghost was = layout.screens@;
    layout.screens.push(s);
    proof {
        assert(s@.host =~= added(all).host);
        assert(s@ == added(all));
        assert(layout@ =~= crate::layout::views(was).push(s@));
    }
    true
}

/// Removes a screen from the layout; the last one stays.
pub fn remove_screen(layout: &mut Layout, idx: usize)
    requires
        idx < old(layout)@.len(),
    ensures
        final(layout)@ == (if old(layout)@.len() > 1 {
            old(layout)@.remove(idx as int)
        } else {
            old(layout)@
        }),
{
    if layout.screens.len() > 1 {
        let ghost was = layout.screens@;
        let _gone = layout.screens.remove(idx);
        assert(layout@ =~= crate::layout::views(was).remove(idx as int));
    }
}

/// Gives an empty layout one screen for this machine, so that the canvas has something to show.
pub fn ensure_own_screen(layout: &mut Layout, name: &str)
    ensures
        final(layout)@ == (if old(layout)@.len() == 0 {
            seq![
                ScreenView {
                    name: name@,
                    host: Seq::empty(),
                    ox: 0,
                    oy: 0,
                    w: FALLBACK_WIDTH as int,
                    h: FALLBACK_HEIGHT as int,
                    is_local: true,
                    scale: RATIO_ONE as int,
                },
            ]
        } else {
            old(layout)@
        }),
{
    if layout.screens.len() == 0 {
        let s = Screen {
            name: name.to_owned(),
            host: String::new(),
            ox: 0,
            oy: 0,
            w: FALLBACK_WIDTH,
            h: FALLBACK_HEIGHT,
            is_local: true,
            scale: RATIO_ONE,
        };
        assert(s@.host =~= Seq::empty());
        layout.screens.push(s);
        assert(layout@ =~= seq![s@]);
    }
}

/// This machine's real screen size, taken from its own layout entry, with a stand-in where it has
/// none.
pub fn screen_size(layout: &Layout, my_name: &str) -> (r: (u32, u32))
    ensures
        (r.0 as int, r.1 as int) == ({
            let i = geom::first_where(layout@, crate::layout::named(my_name@));
            if i < layout@.len() {
                (layout@[i].w, layout@[i].h)
            } else {
                (FALLBACK_WIDTH as int, FALLBACK_HEIGHT as int)
            }
        }),
{
    match layout.index_of(my_name) {
        Some(i) => {
            assert(layout@[i as int] == layout.screens[i as int]@);
            (layout.screens[i].w, layout.screens[i].h)
        },
        None => (FALLBACK_WIDTH, FALLBACK_HEIGHT),
    }
}

/// A size, and a scale where one is to be shown.
pub open spec fn size_text(w: nat, h: nat, scale: Option<int>) -> Seq<char> {
    let size = text::decimal(w) + " × "@ + text::decimal(h);
    match scale {
        None => size,
        Some(s) => size + " · @"@ + text::rounded_text(s, RATIO_ONE as int) + "x"@,
    }
}

fn size_label(w: u32, h: u32, scale: Option<i64>) -> (r: String)
    ensures
        r@ == size_text(
            w as nat,
            h as nat,
            match scale {
                None => None,
                Some(s) => Some(s as int),
            },
        ),
{
    let mut r = text::decimal_string(w as u64);
    r.append(" × ");
    text::push_decimal(&mut r, h as u64);
    match scale {
        None => r,
        Some(s) => {
            r.append(" · @");
            text::push_rounded(&mut r, s, RATIO_ONE as u64);
            r.append("x");
            r
        },
    }
}

/// The line below a screen's name in the lists: its size, and its scale where it renders more or
/// fewer pixels than that.
pub fn screen_meta(s: &Screen) -> (r: String)
    ensures
        r@ == size_text(
            s.w as nat,
            s.h as nat,
            if crate::layout::physical(s@) == (s.w as int, s.h as int) {
                None
            } else {
                Some(s.scale as int)
            },
        ),
{
    let (pw, ph) = s.physical_size();
    if pw == s.w && ph == s.h {
        size_label(s.w, s.h, None)
    } else {
        size_label(s.w, s.h, Some(s.scale))
    }
}

/// The line below a tile's name: its size in logical points (which matches the lists and the system
/// settings), and its scale where it has one.
pub fn tile_meta(s: &Screen) -> (r: String)
    ensures
        r@ == size_text(
            s.w as nat,
            s.h as nat,
            if s.scale == RATIO_ONE {
                None
            } else {
                Some(s.scale as int)
            },
        ),
{
    if s.scale == RATIO_ONE {
        size_label(s.w, s.h, None)
    } else {
        size_label(s.w, s.h, Some(s.scale))
    }
}

/// The name on a tile; the hub's own displays carry a star.
pub fn tile_title(s: &Screen) -> (r: String)
    ensures
        r@ == (if s.is_local {
            "★ "@ + s.name@
        } else {
            s.name@
        }),
{
    if s.is_local {
        let mut r = "★ ".to_owned();
        r.append(s.name.as_str());
        r
    } else {
        s.name.clone()
    }
}

/// Whether a screen is shown as being there: this machine's own and the hub's are.
pub fn is_live(s: &Screen, my_name: &str) -> (r: bool)
    ensures
        r == (s.name@ == my_name@ || s.is_local),
{
    same(s.name.as_str(), my_name) || s.is_local
}

/// Whether a panel is another machine's.
pub open spec fn remote_panel() -> spec_fn(ScreenView) -> bool {
    |s: ScreenView| !s.is_local
}

/// The speed, in millionths, at which the cursor moves on the first remote screen, for the readout;
/// none where there is no such screen.
pub fn effective_speed(layout: &Layout, trim: i64) -> (r: Option<i64>)
    ensures
        (match r {
            None => None,
            Some(v) => Some(v as int),
        }) == ({
            let i = geom::first_where(layout@, remote_panel());
            if i < layout@.len() {
                Some(crate::control::speed(layout@, layout@[i].name, None, trim as int))
            } else {
                None
            }
        }),
{
    let mut i: usize = 0;
    while i < layout.screens.len()
        invariant
            i <= layout.screens.len(),
            forall|j: int| 0 <= j < i ==> !remote_panel()(#[trigger] layout@[j]),
        decreases layout.screens.len() - i,
    {
        assert(layout@[i as int] == layout.screens[i as int]@);
        if !layout.screens[i].is_local {
            proof {
                geom::lemma_first_where_unique(layout@, remote_panel(), i as int);
            }
            return Some(
                motion_scale_ratio(layout, layout.screens[i].name.as_str(), None, trim),
            );
        }
        i += 1;
    }
    proof {
        geom::lemma_first_where_unique(layout@, remote_panel(), i as int);
    }
    None
}

/// A ratio in millionths with two decimals and the multiplication sign.
pub open spec fn speed_text(ratio: int) -> Seq<char> {
    text::hundredths_text(ratio, 10_000) + " ×"@
}

/// The readout of a speed: the ratio with two decimals.
pub fn speed_label(ratio: i64) -> (r: String)
    ensures
        r@ == speed_text(ratio as int),
{
    let mut r = String::new();
    text::push_hundredths(&mut r, ratio, 10_000);
    assert(r@ =~= text::hundredths_text(ratio as int, 10_000));
    r.append(" ×");
    r
}

/// Margin, in points, that the canvas keeps free around the tiles.
pub const MARGIN: i64 = 56;

/// The smallest scale at which the tiles are drawn, in millionths.
pub const MIN_FIT: i64 = 50_000;

/// The largest extent of a canvas, in sub-points.
pub const MAX_CANVAS: i64 = 0x100_0000_0000;

/// How far, in points, a place may lie outside the canvas to be still drawn.
pub const SLACK: i64 = 8;

/// A rectangle of the canvas: left and top edge, width and height, in sub-points.
#[derive(Debug, Clone, Copy, PartialEq, Eq, Structural)]
pub struct Area {
    pub x: i64,
    pub y: i64,
    pub w: i64,
    pub h: i64,
}

impl Area {
    /// Whether a canvas can be that large.
    pub open spec fn wf(self) -> bool {
        &&& 0 <= self.w <= MAX_CANVAS
        &&& 0 <= self.h <= MAX_CANVAS
        &&& -MAX_CANVAS <= self.x <= MAX_CANVAS
        &&& -MAX_CANVAS <= self.y <= MAX_CANVAS
    }
}

/// How the desktop is drawn: the scale in millionths, the desktop pixel that lies at the top left of
/// the drawing, and where on the canvas that is.
#[derive(Debug, Clone, Copy, PartialEq, Eq, Structural)]
pub struct Fit {
    pub scale: i64,
    pub min_x: i64,
    pub min_y: i64,
    pub off_x: i64,
    pub off_y: i64,
}

/// The extent that is drawn, in pixels; never nothing.
pub open spec fn extent(from: int, to: int) -> int {
    if to - from < 1 {
        1
    } else {
        to - from
    }
}

/// The scale at which `span` pixels fill `avail` sub-points but for the margins.
pub open spec fn fill_scale(avail: int, span: int) -> int {
    let room = avail - 2 * MARGIN * SUBPX;
    if room <= 0 {
        0
    } else {
        room * RATIO_ONE / (span * SUBPX)
    }
}

/// The scale at which the whole desktop is drawn.
pub open spec fn fit_scale(area: Area, b: (int, int, int, int)) -> int {
    let sx = fill_scale(area.w as int, extent(b.0, b.2));
    let sy = fill_scale(area.h as int, extent(b.1, b.3));
    let s = if sx < sy {
        sx
    } else {
        sy
    };
    if s < MIN_FIT {
        MIN_FIT as int
    } else {
        s
    }
}

/// Where the drawing of `span` pixels starts if it is centred in `avail` sub-points from `at` on.
pub open spec fn centred(at: int, avail: int, span: int, scale: int) -> int {
    geom::sat(at + geom::nearest(avail - geom::scaled(span * SUBPX, scale), 2))
}

/// How a desktop that reaches over `b` is drawn into an area.
pub open spec fn fitting(area: Area, b: (int, int, int, int)) -> (int, int, int, int, int) {
    let scale = fit_scale(area, b);
    (
        scale,
        b.0,
        b.1,
        centred(area.x as int, area.w as int, extent(b.0, b.2), scale),
        centred(area.y as int, area.h as int, extent(b.1, b.3), scale),
    )
}

/// What a [`Fit`] holds.
pub open spec fn fit_view(f: Fit) -> (int, int, int, int, int) {
    (f.scale as int, f.min_x as int, f.min_y as int, f.off_x as int, f.off_y as int)
}

fn find_fill_scale(avail: i64, span: i64) -> (r: i64)
    requires
        0 <= avail <= MAX_CANVAS,
        1 <= span <= 0x2_0000_0000,
    ensures
        r == fill_scale(avail as int, span as int),
        0 <= r <= 0x1000_0000_0000,
{
    let room: i64 = avail - 2 * MARGIN * SUBPX;
    if room <= 0 {
        0
    } else {
        proof {
            let (n, d) = (room * RATIO_ONE, span * SUBPX);
            assert(0 <= n / d <= 0x1000_0000_0000) by (nonlinear_arith)
                requires
                    0 <= n <= 0x100_0000_0000 * 1_000_000,
                    d >= 65_536,
            ;
        }
        room * RATIO_ONE / (span * SUBPX)
    }
}

fn find_centre(at: i64, avail: i64, span: i64, scale: i64) -> (r: i64)
    requires
        -MAX_CANVAS <= at <= MAX_CANVAS,
        0 <= avail <= MAX_CANVAS,
        1 <= span <= 0x2_0000_0000,
        0 <= scale <= 0x1000_0000_0000,
    ensures
        r == centred(at as int, avail as int, span as int, scale as int),
{
    let drawn: i64 = geom::scale_by(span * SUBPX, scale);
    let half: i128 = geom::div_nearest(avail as i128 - drawn as i128, 2);
    proof {
        geom::lemma_nearest_bounds(avail - drawn, 2);
    }
    geom::saturate(at as i128 + half)
}

/// Fits the whole desktop into an area of the canvas, centred, with a margin around it.
pub fn fit(layout: &Layout, area: Area) -> (r: Fit)
    requires
        area.wf(),
    ensures
        fit_view(r) == fitting(area, shown(layout@)),
        r.wf(),
{
    let b = bounds_checked(layout);
    let vw: i64 = if b.2 - b.0 < 1 {
        1
    } else {
        b.2 - b.0
    };
    let vh: i64 = if b.3 - b.1 < 1 {
        1
    } else {
        b.3 - b.1
    };
    let sx: i64 = find_fill_scale(area.w, vw);
    let sy: i64 = find_fill_scale(area.h, vh);
    let s: i64 = if sx < sy {
        sx
    } else {
        sy
    };
    let scale: i64 = if s < MIN_FIT {
        MIN_FIT
    } else {
        s
    };
    Fit {
        scale,
        min_x: b.0,
        min_y: b.1,
        off_x: find_centre(area.x, area.w, vw, scale),
        off_y: find_centre(area.y, area.h, vh, scale),
    }
}

fn bounds_checked(layout: &Layout) -> (r: (i64, i64, i64, i64))
    ensures
        (r.0 as int, r.1 as int, r.2 as int, r.3 as int) == shown(layout@),
        -0x8000_0000 <= r.0 <= r.2 <= 0x1_8000_0000,
        -0x8000_0000 <= r.1 <= r.3 <= 0x1_8000_0000,
{
    proof {
        let s = layout@;
        let p = crate::layout::any_panel();
        crate::layout::bbox_is_the_hull(s, p);
        lemma_box_is_whole(s, p);
        if let Some(b) = crate::layout::bbox(s, p) {
            let i0 = choose|i: int|
                0 <= i < s.len() && p(#[trigger] s[i]) && b.0 == s[i].rect().0;
            let i1 = choose|i: int|
                0 <= i < s.len() && p(#[trigger] s[i]) && b.1 == s[i].rect().1;
            let i2 = choose|i: int|
                0 <= i < s.len() && p(#[trigger] s[i]) && b.2 == s[i].rect().2;
            let i3 = choose|i: int|
                0 <= i < s.len() && p(#[trigger] s[i]) && b.3 == s[i].rect().3;
            assert(s[i0] == layout.screens[i0]@);
            assert(s[i1] == layout.screens[i1]@);
            assert(s[i2] == layout.screens[i2]@);
            assert(s[i3] == layout.screens[i3]@);
        }
    }
    bounds(layout)
}

/// Where on the canvas a place of the desktop lies, along one axis; `v` in sub-pixels.
pub open spec fn spot(off: int, min: int, scale: int, v: int) -> int {
    geom::sat(off + geom::scaled(geom::sat(v - min * SUBPX), scale))
}

fn find_spot(off: i64, min: i64, scale: i64, v: i64) -> (r: i64)
    requires
        -0x2_0000_0000 <= min <= 0x2_0000_0000,
        0 <= scale <= 0x1000_0000_0000,
    ensures
        r == spot(off as int, min as int, scale as int, v as int),
{
    let d: i64 = geom::saturate(v as i128 - (min * SUBPX) as i128);
    geom::saturate(off as i128 + geom::scale_by(d, scale) as i128)
}

impl Fit {
    /// Whether the numbers come from a desktop.
    pub open spec fn wf(self) -> bool {
        &&& -0x2_0000_0000 <= self.min_x <= 0x2_0000_0000
        &&& -0x2_0000_0000 <= self.min_y <= 0x2_0000_0000
        &&& MIN_FIT <= self.scale <= 0x1000_0000_0000
    }

    /// Where on the canvas the place `(x, y)` of the desktop lies; sub-pixels in, sub-points out.
    pub fn place(&self, x: i64, y: i64) -> (r: (i64, i64))
        requires
            self.wf(),
        ensures
            r.0 == spot(self.off_x as int, self.min_x as int, self.scale as int, x as int),
            r.1 == spot(self.off_y as int, self.min_y as int, self.scale as int, y as int),
    {
        (
            find_spot(self.off_x, self.min_x, self.scale, x),
            find_spot(self.off_y, self.min_y, self.scale, y),
        )
    }

    /// The tile of a screen on the canvas.
    pub fn tile(&self, s: &Screen) -> (r: Area)
        requires
            self.wf(),
        ensures
            r.x == spot(self.off_x as int, self.min_x as int, self.scale as int, s@.rect().0),
            r.y == spot(self.off_y as int, self.min_y as int, self.scale as int, s@.rect().1),
            r.w == geom::scaled(s.w * SUBPX, self.scale as int),
            r.h == geom::scaled(s.h * SUBPX, self.scale as int),
    {
        let (l, t, _, _) = s.rect();
        let (x, y) = self.place(l, t);
        Area {
            x,
            y,
            w: geom::scale_by(s.w as i64 * SUBPX, self.scale),
            h: geom::scale_by(s.h as i64 * SUBPX, self.scale),
        }
    }

    /// How many whole desktop pixels a distance on the canvas stands for; rounded toward zero.
    pub fn drag_pixels(&self, d: i64) -> (r: i32)
        requires
            self.wf(),
        ensures
            r == drag_distance(d as int, self.scale as int),
    {
        let whole: i128 = self.scale as i128 * SUBPX as i128;
        proof {
            let (s, di) = (self.scale as int, d as int);
            assert(0 < s * 65_536 <= 0x1000_0000_0000 * 65_536) by (nonlinear_arith)
                requires
                    50_000 <= s <= 0x1000_0000_0000,
            ;
            assert(-0x8000_0000_0000_0000 * 1_000_000 <= di * 1_000_000 <= 0x8000_0000_0000_0000
                * 1_000_000);
        }
        if d >= 0 {
            let q: i128 = d as i128 * 1_000_000 / whole;
            if q > i32::MAX as i128 {
                i32::MAX
            } else {
                q as i32
            }
        } else {
            let q: i128 = -(d as i128) * 1_000_000 / whole;
            if q > 0x8000_0000 {
                i32::MIN
            } else {
                (-q) as i32
            }
        }
    }
}

/// How many whole desktop pixels a distance on the canvas stands for; rounded toward zero and held
/// inside the range of pixel coordinates.
pub open spec fn drag_distance(d: int, scale: int) -> int {
    if d >= 0 {
        geom::clamped(d * RATIO_ONE / (scale * SUBPX), 0, i32::MAX as int)
    } else {
        geom::clamped(-((-d) * RATIO_ONE / (scale * SUBPX)), i32::MIN as int, 0)
    }
}

/// Whether a place of the canvas lies in the area or close to it.
pub fn in_view(area: Area, x: i64, y: i64) -> (r: bool)
    requires
        area.wf(),
    ensures
        r == (area.x - SLACK * SUBPX <= x <= area.x + area.w + SLACK * SUBPX && area.y - SLACK
            * SUBPX <= y <= area.y + area.h + SLACK * SUBPX),
{
    let m: i64 = SLACK * SUBPX;
    area.x - m <= x && x <= area.x + area.w + m && area.y - m <= y && y <= area.y + area.h + m
}

/// Along one axis, everything that is shown keeps out of the margins, to half a sub-point, as long
/// as the canvas is large enough for the smallest scale.
pub proof fn the_drawing_keeps_out_of_the_margins(at: int, avail: int, from: int, to: int, scale: int, v: int)
    requires
        0 <= avail <= MAX_CANVAS,
        -MAX_CANVAS <= at <= MAX_CANVAS,
        -0x8000_0000 <= from <= to <= 0x1_8000_0000,
        0 < scale <= fill_scale(avail, extent(from, to)),
        from <= v <= to,
    ensures
        at + MARGIN * SUBPX <= spot(
            centred(at, avail, extent(from, to), scale),
            from,
            scale,
            v * SUBPX,
        ) <= at + avail - MARGIN * SUBPX + 1,
{
    let one = RATIO_ONE as int;
    let room = avail - 2 * MARGIN * SUBPX;
    let span = extent(from, to) * SUBPX;
    assert(span > 0);
    assert(span * scale <= room * one) by (nonlinear_arith)
        requires
            scale <= room * one / span,
            span > 0,
            room > 0,
            one > 0,
    ;
    let n = span * scale;
    let drawn = geom::nearest(n, one);
    geom::lemma_nearest(n, one);
    assert(0 <= n) by (nonlinear_arith)
        requires
            span > 0,
            scale > 0,
            n == span * scale,
    ;
    geom::lemma_nearest_bounds(n, one);
    assert(drawn <= room) by (nonlinear_arith)
        requires
            2 * (one * drawn) <= 2 * n + one,
            n <= room * one,
            one > 0,
    ;
    assert(geom::scaled(span, scale) == drawn);
    let half = geom::nearest(avail - drawn, 2);
    geom::lemma_nearest(avail - drawn, 2);
    let off = at + half;
    assert(centred(at, avail, extent(from, to), scale) == off);
    let d = (v - from) * SUBPX;
    assert(v * SUBPX - from * SUBPX == d);
    assert(0 <= d <= span);
    let m = d * scale;
    assert(0 <= m <= n) by (nonlinear_arith)
        requires
            0 <= d <= span,
            scale > 0,
            m == d * scale,
            n == span * scale,
    ;
    let step = geom::nearest(m, one);
    geom::lemma_nearest(m, one);
    geom::lemma_nearest_bounds(m, one);
    assert(step <= drawn) by (nonlinear_arith)
        requires
            step == (2 * m + one) / (2 * one),
            drawn == (2 * n + one) / (2 * one),
            m <= n,
            one > 0,
    ;
    assert(geom::scaled(d, scale) == step);
}

/// How the border of a tile is drawn.
#[derive(Debug, Clone, Copy, PartialEq, Eq, Structural)]
pub enum Border {
    /// The tile is under the cursor, with a halo around it.
    Hovered,
    /// This machine's tile.
    Mine,
    /// Any other.
    Plain,
}

/// What is drawn on a tile. `preview` is the height of the preview strip, in sub-points.
#[derive(Debug, Clone, Copy, PartialEq, Eq, Structural)]
pub struct TilePlan {
    pub border: Border,
    pub preview: Option<i64>,
    pub bars: bool,
    pub name: bool,
    pub size: bool,
    pub badge: bool,
}

/// Height of the preview strip on a tile that is `h` high: just under half of what is left between
/// the paddings, within limits.
pub open spec fn preview_height(h: int) -> int {
    geom::clamped((h - 28 * SUBPX) * 45 / 100, 14 * SUBPX, 64 * SUBPX)
}

/// What is drawn on a tile of that size. A tile with no room between its paddings shows its border
/// only; each line of text is shown if it fits below the preview; and this machine's badge is shown
/// on tiles that are clearly larger than it.
pub open spec fn tile_parts(w: int, h: int, mine: bool, hover: bool) -> TilePlan {
    let roomy = w - 28 * SUBPX >= 24 * SUBPX && h - 28 * SUBPX >= 20 * SUBPX;
    let p = preview_height(h);
    let name = roomy && 24 * SUBPX + p < h - 4 * SUBPX;
    TilePlan {
        border: if hover {
            Border::Hovered
        } else if mine {
            Border::Mine
        } else {
            Border::Plain
        },
        preview: if roomy {
            Some(p as i64)
        } else {
            None
        },
        bars: roomy && p > 18 * SUBPX,
        name,
        size: name && 44 * SUBPX + p < h,
        badge: roomy && mine && w > 84 * SUBPX && h > 44 * SUBPX,
    }
}

/// Decides what is drawn on a tile that is `w` by `h` sub-points large.
pub fn tile_plan(w: i64, h: i64, mine: bool, hover: bool) -> (r: TilePlan)
    requires
        0 <= w,
        0 <= h <= 0x100_0000_0000_0000,
    ensures
        r == tile_parts(w as int, h as int, mine, hover),
{
    let roomy = w >= 52 * SUBPX && h >= 48 * SUBPX;
    let inner: i64 = h - 28 * SUBPX;
    let p: i64 = if inner < 0 {
        14 * SUBPX
    } else {
        geom::clamp(inner * 45 / 100, 14 * SUBPX, 64 * SUBPX)
    };
    let name = roomy && 24 * SUBPX + p < h - 4 * SUBPX;
    TilePlan {
        border: if hover {
            Border::Hovered
        } else if mine {
            Border::Mine
        } else {
            Border::Plain
        },
        preview: if roomy {
            Some(p)
        } else {
            None
        },
        bars: roomy && p > 18 * SUBPX,
        name,
        size: name && 44 * SUBPX + p < h,
        badge: roomy && mine && w > 84 * SUBPX && h > 44 * SUBPX,
    }
}

/// Where one side of a remote tile comes to rest: flush against the near edge of the local displays
/// with its far side, or against their far edge with its near side, where it is let go at most 24
/// pixels away from that; else where it is let go.
pub open spec fn flush(at: int, size: int, first: int, second: int) -> int {
    if -24 <= at + size - first <= 24 {
        first - size
    } else if -24 <= at - second <= 24 {
        second
    } else {
        at
    }
}

/// A tile that is dragged follows the pointer, and the other tiles of its machine go with it, as far
/// and no farther; the tiles of the other machines stay. A remote tile that comes close to the box
/// around the local displays comes to rest beside it, and in line with its bottom or its top.
pub proof fn a_dragged_machine_follows_the_pointer(
    s: Seq<ScreenView>,
    i: int,
    dx: int,
    dy: int,
    k: int,
)
    requires
        0 <= i < s.len(),
        0 <= k < s.len(),
        -0x2000_0000 <= dx <= 0x2000_0000,
        -0x2000_0000 <= dy <= 0x2000_0000,
        forall|j: int|
            0 <= j < s.len() ==> -0x4000_0000 <= (#[trigger] s[j]).ox <= 0x4000_0000 && -0x4000_0000
                <= s[j].oy <= 0x4000_0000 && 0 <= s[j].w && 0 <= s[j].h,
    ensures
        ({
            let t = dragged(s, i, dx, dy);
            let (x, y) = (s[i].ox + dx, s[i].oy + dy);
            let around = crate::layout::bbox(s, crate::layout::local_panel());
            &&& t.len() == s.len()
            &&& s[k].owner() != s[i].owner() ==> t[k] == s[k]
            &&& s[k].owner() == s[i].owner() ==> t[k] == (ScreenView {
                ox: s[k].ox + (t[i].ox - s[i].ox),
                oy: s[k].oy + (t[i].oy - s[i].oy),
                ..s[k]
            })
            &&& s[i].is_local || around is None ==> t[i].ox == x && t[i].oy == y
            &&& !s[i].is_local && around is Some ==> {
                let (l, u, r, b) = around->0;
                &&& t[i].ox == flush(x, s[i].w, l / 65_536, r / 65_536)
                &&& t[i].oy == flush(y, s[i].h, b / 65_536, u / 65_536)
            }
        }),
{
    let step = drag_step(s, i, dx, dy);
    let around = crate::layout::bbox(s, crate::layout::local_panel());
    assert(-0x2000_0018 <= step.0 <= 0x2000_0018);
    assert(-0x2000_0018 <= step.1 <= 0x2000_0018);
    assert(can_move(s, s[i].owner(), step));
}

/// A screen that is added by hand covers nothing: it lies to the right of everything, 40 pixels
/// away, and is a remote one.
pub proof fn an_added_screen_covers_nothing(s: Seq<ScreenView>, i: int)
    requires
        0 <= i < s.len(),
    ensures
        s[i].ox + s[i].w + 40 <= added(s).ox,
        exists|k: int| 0 <= k < s.len() && (#[trigger] s[k]).ox + s[k].w + 40 == added(s).ox,
        !added(s).is_local,
        added(s).w > 0 && added(s).h > 0,
{
    crate::layout::the_right_edge_is_reached(s);
    let k = choose|k: int|
        0 <= k < s.len() && (#[trigger] s[k]).ox + s[k].w == crate::layout::right_edge(s);
    assert(s[k].ox + s[k].w + 40 == added(s).ox);
    assert(s[i].ox + s[i].w <= crate::layout::right_edge(s));
}

/// Every place where a local and a remote display meet side by side is shown: flush to a pixel, over
/// more than one, at the local display's edge and as long as they both are there.
pub proof fn every_meeting_is_shown(s: Seq<ScreenView>, i: int, k: int)
    requires
        0 <= i < s.len(),
        0 <= k < s.len(),
        s[i].is_local,
        !s[k].is_local,
        -1 <= s[i].ox + s[i].w - s[k].ox <= 1 || -1 <= s[k].ox + s[k].w - s[i].ox <= 1,
        s[i].h > 1,
        s[k].h > 1,
        s[i].oy + s[i].h > s[k].oy + 1,
        s[k].oy + s[k].h > s[i].oy + 1,
    ensures
        exists|e: (int, int, int)|
            {
                &&& #[trigger] edges(s, s).contains(e)
                &&& e.0 == s[i].ox + s[i].w || e.0 == s[i].ox
                &&& e.1 >= s[i].oy && e.1 >= s[k].oy && (e.1 == s[i].oy || e.1 == s[k].oy)
                &&& e.2 <= s[i].oy + s[i].h && e.2 <= s[k].oy + s[k].h && (e.2 == s[i].oy + s[i].h
                    || e.2 == s[k].oy + s[k].h)
            },
{
    let e = edge_between(s[i], s[k])->0;
    assert(edge_between(s[i], s[k]) == Some(e));
    lemma_edges_of(s[i], s, k, e);
    lemma_edges(s, s, i, e);
}

proof fn lemma_edges_of(a: ScreenView, s: Seq<ScreenView>, k: int, e: (int, int, int))
    requires
        0 <= k < s.len(),
        edge_between(a, s[k]) == Some(e),
    ensures
        edges_of(a, s).contains(e),
    decreases s.len(),
{
    let t = s.drop_last();
    let before = edges_of(a, t);
    if k < t.len() {
        assert(t[k] == s[k]);
        lemma_edges_of(a, t, k, e);
        let n = choose|n: int| 0 <= n < before.len() && before[n] == e;
        assert(edges_of(a, s)[n] == e);
    } else {
        assert(edges_of(a, s) == before.push(e));
        assert(edges_of(a, s)[before.len() as int] == e);
    }
}

proof fn lemma_edges(some: Seq<ScreenView>, s: Seq<ScreenView>, i: int, e: (int, int, int))
    requires
        0 <= i < some.len(),
        edges_of(some[i], s).contains(e),
    ensures
        edges(some, s).contains(e),
    decreases some.len(),
{
    let t = some.drop_last();
    let (a, b) = (edges(t, s), edges_of(some.last(), s));
    if i < t.len() {
        assert(t[i] == some[i]);
        lemma_edges(t, s, i, e);
        let n = choose|n: int| 0 <= n < a.len() && a[n] == e;
        assert((a + b)[n] == e);
    } else {
        let n = choose|n: int| 0 <= n < b.len() && b[n] == e;
        assert((a + b)[a.len() + n] == e);
    }
}

} // verus!
