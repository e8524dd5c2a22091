//! What a machine says of itself: how its displays are named, the layout that it starts with, and
//! the panel list that it advertises to the hub.

use crate::geom;
use crate::geom::{RATIO_ONE, SUBPX};
use crate::layout::{Layout, PanelSpec, PanelView, Screen, ScreenView};
use crate::text;
use vstd::prelude::*;
use vstd::string::*;

verus! {

/// Width of the display that stands in where none could be detected.
pub const FALLBACK_WIDTH: u32 = 1920;

/// Height of the display that stands in where none could be detected.
pub const FALLBACK_HEIGHT: u32 = 1080;

/// Index of the main display: the first that claims to be it, or the very first if none does.
pub open spec fn main_display(flags: Seq<bool>) -> int {
    let i = geom::first_where(flags, |m: bool| m);
    if i < flags.len() {
        i
    } else {
        0
    }
}

/// The number that display `i` has among the displays besides the main one, counted from two.
pub open spec fn display_number(flags: Seq<bool>, i: int) -> nat {
    (if i < main_display(flags) { i + 2 } else { i + 1 }) as nat
}

/// The name of display `i`.
pub open spec fn display_name(machine: Seq<char>, flags: Seq<bool>, i: int) -> Seq<char> {
    if i == main_display(flags) {
        machine
    } else {
        machine + " #"@ + text::decimal(display_number(flags, i))
    }
}

/// The names of all displays.
pub open spec fn display_names(machine: Seq<char>, flags: Seq<bool>) -> Seq<Seq<char>> {
    Seq::new(flags.len(), |i: int| display_name(machine, flags, i))
}

fn find_main(is_main: &[bool]) -> (r: usize)
    ensures
        r == main_display(is_main@),
{
    let mut i: usize = 0;
    while i < is_main.len()
        invariant
            i <= is_main.len(),
            forall|j: int| 0 <= j < i ==> !#[trigger] is_main@[j],
        decreases is_main.len() - i,
    {
        if is_main[i] {
            proof {
                geom::lemma_first_where_unique(is_main@, |m: bool| m, i as int);
            }
            return i;
        }
        i += 1;
    }
    proof {
        geom::lemma_first_where_unique(is_main@, |m: bool| m, i as int);
    }
    0
}

/// Name every detected display: the OS's main display keeps the bare machine name, the rest are
/// numbered `#2`, `#3`, … in detection order.
///
/// The bare name goes to the **main** display, not to whichever display happens to sort first: a
/// laptop whose external monitor sits to the left of (or above) the built-in panel sorts ahead of
/// it. Two panels sharing one name would make every lookup by name ambiguous, and the cursor could
/// not come back from one of the two displays.
pub fn name_panels(machine: &str, is_main: &[bool]) -> (r: Vec<String>)
    ensures
        text::string_views(r@) == display_names(machine@, is_main@),
{
    let main = find_main(is_main);
    let mut r: Vec<String> = Vec::new();
    let mut i: usize = 0;
    while i < is_main.len()
        invariant
            i <= is_main.len(),
            main == main_display(is_main@),
            main < is_main.len() || main == 0,
            text::string_views(r@) == display_names(machine@, is_main@).take(i as int),
        decreases is_main.len() - i,
    {
        let ghost was = text::string_views(r@);
        let mut name = machine.to_owned();
        if i != main {
            name.append(" #");
            let number: usize = if i < main { i + 2 } else { i + 1 };
            text::push_decimal(&mut name, number as u64);
        }
        r.push(name);
        proof {
            assert(name@ =~= display_name(machine@, is_main@, i as int));
            assert(text::string_views(r@) =~= was.push(name@));
            assert(display_names(machine@, is_main@).take(i as int + 1) =~= display_names(
                machine@,
                is_main@,
            ).take(i as int).push(name@));
        }
        i += 1;
    }
    assert(display_names(machine@, is_main@).take(i as int) =~= display_names(machine@, is_main@));
    r
}

/// Whatever order the displays come in and whichever of them is the main one, no two have the same
/// name, and exactly the main one has the bare machine name.
pub proof fn display_names_are_unique(machine: Seq<char>, flags: Seq<bool>)
    ensures
        display_names(machine, flags).no_duplicates(),
        forall|i: int|
            0 <= i < flags.len() ==> (#[trigger] display_names(machine, flags)[i] == machine <==> i
                == main_display(flags)),
        flags.len() > 0 ==> 0 <= main_display(flags) < flags.len(),
{
    geom::lemma_first_where(flags, |m: bool| m);
    reveal_strlit(" #");
    let names = display_names(machine, flags);
    assert forall|i: int| 0 <= i < flags.len() implies (#[trigger] names[i] == machine <==> i
        == main_display(flags)) by {
        if i != main_display(flags) {
            assert(names[i].len() > machine.len());
        }
    }
    assert forall|i: int, j: int|
        0 <= i < names.len() && 0 <= j < names.len() && i != j implies names[i] != names[j] by {
        if i != main_display(flags) && j != main_display(flags) && names[i] == names[j] {
            let (a, b) = (display_number(flags, i), display_number(flags, j));
            let start = (machine + " #"@).len() as int;
            assert(names[i].skip(start) =~= text::decimal(a));
            assert(names[j].skip(start) =~= text::decimal(b));
            text::decimal_reads_back(a);
            text::decimal_reads_back(b);
        }
    }
}

/// A display as the operating system reports it: its place and size on the desktop, whether it is
/// the main one, and its UI scale in millionths.
#[derive(Debug, Clone, Copy, PartialEq, Eq, Structural)]
pub struct Display {
    pub x: i32,
    pub y: i32,
    pub w: u32,
    pub h: u32,
    pub is_main: bool,
    pub scale: i64,
}

/// Whether display `a` comes before display `b`: further left, or higher up in the same column.
pub open spec fn comes_before(a: Display, b: Display) -> bool {
    a.x < b.x || (a.x == b.x && a.y < b.y)
}

/// An ordered list with one more display, behind all those that it does not come before.
pub open spec fn with_display(s: Seq<Display>, d: Display) -> Seq<Display>
    decreases s.len(),
{
    if s.len() > 0 && comes_before(d, s.last()) {
        with_display(s.drop_last(), d).push(s.last())
    } else {
        s.push(d)
    }
}

/// The displays from left to right and from top to bottom; those in one place keep their order.
pub open spec fn arranged(s: Seq<Display>) -> Seq<Display>
    decreases s.len(),
{
    if s.len() == 0 {
        s
    } else {
        with_display(arranged(s.drop_last()), s.last())
    }
}

/// Which displays claim to be the main one.
pub open spec fn main_flags(s: Seq<Display>) -> Seq<bool> {
    s.map_values(|d: Display| d.is_main)
}

/// The panel of display `i`.
pub open spec fn own_panel(machine: Seq<char>, s: Seq<Display>, i: int) -> ScreenView {
    ScreenView {
        name: display_name(machine, main_flags(s), i),
        host: machine,
        ox: s[i].x as int,
        oy: s[i].y as int,
        w: s[i].w as int,
        h: s[i].h as int,
        is_local: true,
        scale: s[i].scale as int,
    }
}

/// The panels of a machine: one for each display, or a single one at the origin if no display was
/// detected.
pub open spec fn own_panels(machine: Seq<char>, displays: Seq<Display>) -> Seq<ScreenView> {
    let s = if displays.len() == 0 {
        seq![
            Display {
                x: 0,
                y: 0,
                w: FALLBACK_WIDTH,
                h: FALLBACK_HEIGHT,
                is_main: true,
                scale: RATIO_ONE,
            },
        ]
    } else {
        arranged(displays)
    };
    Seq::new(s.len(), |i: int| own_panel(machine, s, i))
}

fn is_before(a: &Display, b: &Display) -> (r: bool)
    ensures
        r == comes_before(*a, *b),
{
    a.x < b.x || (a.x == b.x && a.y < b.y)
}

proof fn lemma_with_display(s: Seq<Display>, d: Display, p: int)
    requires
        0 <= p <= s.len(),
        forall|j: int| p <= j < s.len() ==> comes_before(d, #[trigger] s[j]),
        p > 0 ==> !comes_before(d, s[p - 1]),
    ensures
        with_display(s, d) == s.insert(p, d),
    decreases s.len(),
{
    if p < s.len() {
        assert(comes_before(d, s[s.len() - 1]));
        lemma_with_display(s.drop_last(), d, p);
        assert(s.drop_last().insert(p, d).push(s.last()) =~= s.insert(p, d));
    } else {
        assert(s.push(d) =~= s.insert(p, d));
    }
}

fn add_display(s: &mut Vec<Display>, d: Display)
    ensures
        final(s)@ == with_display(old(s)@, d),
{
    let mut p: usize = s.len();
    while p > 0 && is_before(&d, &s[p - 1])
        invariant
            p <= s.len(),
            s@ == old(s)@,
            forall|j: int| p <= j < s@.len() ==> comes_before(d, #[trigger] s@[j]),
        decreases p,
    {
        p -= 1;
    }
    proof {
        lemma_with_display(s@, d, p as int);
    }
    s.insert(p, d);
}

/// Build a machine's own panels from its real displays, each placed at its true position on the
/// desktop so that a machine with several monitors roams between them natively. Where no display
/// could be detected, a single screen at the origin stands in.
pub fn detect_primary_layout(machine: &str, displays: &Vec<Display>) -> (r: Layout)
    ensures
        r@ == own_panels(machine@, displays@),
{
    let mut sorted: Vec<Display> = Vec::new();
    if displays.len() == 0 {
        sorted.push(
            Display {
                x: 0,
                y: 0,
                w: FALLBACK_WIDTH,
                h: FALLBACK_HEIGHT,
                is_main: true,
                scale: RATIO_ONE,
            },
        );
    }
    let mut i: usize = 0;
    assert(displays@.take(0) =~= Seq::empty());
    while i < displays.len()
        invariant
            i <= displays.len(),
            displays@.len() > 0 ==> sorted@ == arranged(displays@.take(i as int)),
            displays@.len() == 0 ==> sorted@ == seq![
                Display {
                    x: 0,
                    y: 0,
                    w: FALLBACK_WIDTH,
                    h: FALLBACK_HEIGHT,
                    is_main: true,
                    scale: RATIO_ONE,
                },
            ],
        decreases displays.len() - i,
    {
        assert(displays@.take(i as int + 1).drop_last() =~= displays@.take(i as int));
        add_display(&mut sorted, displays[i]);
        i += 1;
    }
    assert(displays@.take(i as int) =~= displays@);
    let mut flags: Vec<bool> = Vec::new();
    let mut k: usize = 0;
    while k < sorted.len()
        invariant
            k <= sorted.len(),
            flags@ == main_flags(sorted@).take(k as int),
        decreases sorted.len() - k,
    {
        flags.push(sorted[k].is_main);
        k += 1;
        assert(flags@ =~= main_flags(sorted@).take(k as int));
    }
    assert(flags@ =~= main_flags(sorted@));
    let names = name_panels(machine, flags.as_slice());
    let ghost want = Seq::new(sorted@.len(), |i: int| own_panel(machine@, sorted@, i));
    let mut screens: Vec<Screen> = Vec::new();
    let mut m: usize = 0;
    while m < sorted.len()
        invariant
            m <= sorted.len(),
            text::string_views(names@) == display_names(machine@, main_flags(sorted@)),
            want == Seq::new(sorted@.len(), |i: int| own_panel(machine@, sorted@, i)),
            crate::layout::views(screens@) == want.take(m as int),
        decreases sorted.len() - m,
    {
        let d = sorted[m];
        let ghost was = screens@;
        assert(text::string_views(names@).len() == sorted@.len());
        let s = Screen {
            name: names[m].clone(),
            host: machine.to_owned(),
            ox: d.x,
            oy: d.y,
            w: d.w,
            h: d.h,
            is_local: true,
            scale: d.scale,
        };
        screens.push(s);
        proof {
            assert(s@.name == text::string_views(names@)[m as int]);
            assert(s@ == want[m as int]);
            assert(crate::layout::views(screens@) =~= crate::layout::views(was).push(s@));
            assert(want.take(m as int + 1) =~= want.take(m as int).push(s@));
        }
        m += 1;
    }
    assert(want.take(m as int) =~= want);
    Layout { screens }
}

proof fn lemma_with_display_keeps_order(s: Seq<Display>, d: Display)
    requires
        forall|i: int, j: int| 0 <= i < j < s.len() ==> !comes_before(#[trigger] s[j], #[trigger] s[i]),
    ensures
        forall|i: int, j: int|
            0 <= i < j < with_display(s, d).len() ==> !comes_before(
                #[trigger] with_display(s, d)[j],
                #[trigger] with_display(s, d)[i],
            ),
        with_display(s, d).to_multiset() == s.to_multiset().insert(d),
        with_display(s, d).len() == s.len() + 1,
    decreases s.len(),
{
    broadcast use vstd::seq_lib::group_to_multiset_ensures;

    let r = with_display(s, d);
    if s.len() > 0 && comes_before(d, s.last()) {
        let t = s.drop_last();
        lemma_with_display_keeps_order(t, d);
        let w = with_display(t, d);
        assert(s =~= t.push(s.last()));
        assert(s.to_multiset() =~= t.to_multiset().insert(s.last()));
        assert(r.to_multiset() =~= s.to_multiset().insert(d));
        assert forall|i: int| 0 <= i < w.len() implies !comes_before(s.last(), #[trigger] w[i]) by {
            assert(w.to_multiset().contains(w[i]));
            assert(t.to_multiset().insert(d).contains(w[i]));
            if w[i] != d {
                assert(t.to_multiset().contains(w[i]));
                let k = choose|k: int| 0 <= k < t.len() && t[k] == w[i];
                assert(s[k] == w[i] && s[s.len() - 1] == s.last());
            }
        }
    } else if s.len() > 0 {
        assert forall|i: int| 0 <= i < s.len() implies !comes_before(d, #[trigger] s[i]) by {
            assert(s[s.len() - 1] == s.last());
            if i < s.len() - 1 {
                assert(!comes_before(s[s.len() - 1], s[i]));
            }
        }
    }
}

/// Arranging the displays loses none of them and adds none, and puts them from left to right and
/// from top to bottom.
pub proof fn arranging_orders_the_displays(s: Seq<Display>)
    ensures
        arranged(s).to_multiset() == s.to_multiset(),
        arranged(s).len() == s.len(),
        forall|i: int, j: int|
            0 <= i < j < s.len() ==> !comes_before(
                #[trigger] arranged(s)[j],
                #[trigger] arranged(s)[i],
            ),
    decreases s.len(),
{
    broadcast use vstd::seq_lib::group_to_multiset_ensures;

    if s.len() > 0 {
        arranging_orders_the_displays(s.drop_last());
        lemma_with_display_keeps_order(arranged(s.drop_last()), s.last());
        assert(s =~= s.drop_last().push(s.last()));
    }
}

/// A layout with the remote panels of a saved one that have a name of their own.
pub open spec fn restored(own: Seq<ScreenView>, saved: Seq<ScreenView>) -> Seq<ScreenView>
    decreases saved.len(),
{
    if saved.len() == 0 {
        own
    } else {
        let before = restored(own, saved.drop_last());
        if saved.last().is_local || crate::layout::has_name(before, saved.last().name) {
            before
        } else {
            before.push(saved.last())
        }
    }
}

/// Adds the remote panels of a saved layout to the machine's own panels, which are a fact and not a
/// preference. That is what lets the user park a client on the left, above or below and have it
/// stay there across a restart.
pub fn restore_remotes(own: &mut Layout, saved: &Layout)
    ensures
        final(own)@ == restored(old(own)@, saved@),
{
    let ghost own0 = own@;
    let mut i: usize = 0;
    assert(saved@.take(0) =~= Seq::empty());
    while i < saved.screens.len()
        invariant
            i <= saved.screens.len(),
            own0 == old(own)@,
            own@ == restored(own0, saved@.take(i as int)),
        decreases saved.screens.len() - i,
    {
        let s = &saved.screens[i];
        proof {
            assert(saved@.take(i as int + 1).drop_last() =~= saved@.take(i as int));
            assert(saved@.take(i as int + 1).last() == s@);
        }
        if !s.is_local {
            match own.index_of(s.name.as_str()) {
                Some(_) => {},
                None => {
                    let ghost was = own.screens@;
                    own.screens.push(s.clone());
                    assert(own@ =~= crate::layout::views(was).push(s@));
                },
            }
        }
        i += 1;
    }
    assert(saved@.take(i as int) =~= saved@);
}

/// Restoring keeps the machine's own panels as they are, in front; and a remote panel whose name is
/// taken neither by one of them nor by an earlier remote panel stands where it was saved.
pub proof fn restored_panels_stay_put(own: Seq<ScreenView>, saved: Seq<ScreenView>)
    ensures
        own.is_prefix_of(restored(own, saved)),
        forall|i: int|
            0 <= i < saved.len() && !(#[trigger] saved[i]).is_local && !crate::layout::has_name(
                own,
                saved[i].name,
            ) && !crate::layout::has_name(saved.take(i), saved[i].name) ==> restored(
                own,
                saved,
            ).contains(saved[i]),
        forall|k: int|
            own.len() <= k < restored(own, saved).len() ==> saved.contains(
                #[trigger] restored(own, saved)[k],
            ) && !restored(own, saved)[k].is_local,
    decreases saved.len(),
{
    let r = restored(own, saved);
    if saved.len() > 0 {
        let t = saved.drop_last();
        let before = restored(own, t);
        restored_panels_stay_put(own, t);
        let n = saved.len() - 1;
        assert forall|k: int| own.len() <= k < r.len() implies saved.contains(#[trigger] r[k])
            && !r[k].is_local by {
            if k < before.len() {
                assert(r[k] == before[k]);
                let j = choose|j: int| 0 <= j < t.len() && t[j] == before[k];
                assert(saved[j] == r[k]);
            } else {
                assert(saved[n] == r[k]);
            }
        }
        assert forall|i: int|
            0 <= i < saved.len() && !(#[trigger] saved[i]).is_local && !crate::layout::has_name(
                own,
                saved[i].name,
            ) && !crate::layout::has_name(saved.take(i), saved[i].name) implies r.contains(saved[i]) by {
            if i < n {
                assert(t[i] == saved[i]);
                assert(t.take(i) =~= saved.take(i));
                let k = choose|k: int| 0 <= k < before.len() && before[k] == saved[i];
                assert(r[k] == saved[i]);
            } else {
                let p = crate::layout::named(saved[n].name);
                geom::lemma_first_where(before, p);
                geom::lemma_first_where(own, p);
                geom::lemma_first_where(saved.take(n), p);
                let k = geom::first_where(before, p);
                if k < before.len() {
                    assert(p(before[k]));
                    if k < own.len() {
                        assert(own[k] == before[k]);
                    } else {
                        let j = choose|j: int| 0 <= j < t.len() && t[j] == before[k];
                        assert(saved.take(n)[j] == before[k]);
                    }
                }
                assert(r[before.len() as int] == saved[n]);
            }
        }
    }
}

/// What a machine advertises of one of its panels: its place within the machine's own group, which
/// starts at `at`.
pub open spec fn advertised(s: ScreenView, at: (int, int)) -> PanelView {
    PanelView { name: s.name, ox: s.ox - at.0, oy: s.oy - at.1, w: s.w, h: s.h, scale: s.scale }
}

/// Top-left corner of the machine's own panels, in pixels.
pub open spec fn own_corner(own: Seq<ScreenView>) -> (int, int) {
    match crate::layout::bbox(own, crate::layout::local_panel()) {
        Some(b) => (b.0 / SUBPX as int, b.1 / SUBPX as int),
        None => (0, 0),
    }
}

/// Size of the box around the machine's own panels, in pixels; at least one pixel each way.
pub open spec fn own_size(own: Seq<ScreenView>) -> (int, int) {
    match crate::layout::bbox(own, crate::layout::local_panel()) {
        Some(b) => (
            geom::clamped((b.2 - b.0) / SUBPX as int, 1, u32::MAX as int),
            geom::clamped((b.3 - b.1) / SUBPX as int, 1, u32::MAX as int),
        ),
        None => (FALLBACK_WIDTH as int, FALLBACK_HEIGHT as int),
    }
}

/// The UI scale of the machine's first own panel.
pub open spec fn own_scale(own: Seq<ScreenView>) -> int {
    let i = geom::first_where(own, crate::layout::local_panel());
    if i < own.len() {
        own[i].scale
    } else {
        RATIO_ONE as int
    }
}

/// The panel list that the machine advertises.
pub open spec fn advertised_panels(own: Seq<ScreenView>) -> Seq<PanelView> {
    own.filter(crate::layout::local_panel()).map_values(
        |s: ScreenView| advertised(s, own_corner(own)),
    )
}

fn pixels_across(from: i64, to: i64) -> (r: u32)
    requires
        from <= to,
        0 <= to - from <= i64::MAX,
    ensures
        r == geom::clamped((to - from) / SUBPX as int, 1, u32::MAX as int),
{
    let n: i64 = (to - from) / SUBPX;
    if n < 1 {
        1
    } else if n > u32::MAX as i64 {
        u32::MAX
    } else {
        n as u32
    }
}

/// The payload this machine advertises when it connects: its own screens' bounding box (in
/// **logical** units: points on a Retina Mac, physical pixels once a Windows process is DPI
/// aware), the UI scale of that coordinate space, and the full panel list.
///
/// The scale is what lets the primary convert its own mouse deltas into this machine's units so the
/// cursor tracks at the same speed. The panel list is what lets the primary model a multi-monitor
/// machine faithfully instead of approximating it with a bounding box full of dead space. Panel
/// offsets are rebased onto the group's own top-left so the hub can anchor the machine anywhere.
pub fn hello_panels(own: &Layout) -> (r: (u32, u32, i64, Vec<PanelSpec>))
    requires
        forall|i: int|
            0 <= i < own@.len() && (#[trigger] own@[i]).is_local ==> own@[i].ox - own_corner(
                own@,
            ).0 <= i32::MAX && own@[i].oy - own_corner(own@).1 <= i32::MAX,
    ensures
        (r.0 as int, r.1 as int) == own_size(own@),
        r.2 == own_scale(own@),
        crate::layout::panel_views(r.3@) == advertised_panels(own@),
{
    let bbox = own.local_bbox();
    let (w, h) = match bbox {
        Some(b) => (pixels_across(b.0, b.2), pixels_across(b.1, b.3)),
        None => (FALLBACK_WIDTH, FALLBACK_HEIGHT),
    };
    proof {
        crate::layout::bbox_is_the_hull(own@, crate::layout::local_panel());
        if let Some(b) = bbox {
            let p = crate::layout::local_panel();
            let i0 = choose|i: int|
                0 <= i < own@.len() && p(#[trigger] own@[i]) && b.0 == own@[i].rect().0;
            let i1 = choose|i: int|
                0 <= i < own@.len() && p(#[trigger] own@[i]) && b.1 == own@[i].rect().1;
            assert(own@[i0] == own.screens[i0]@);
            assert(own@[i1] == own.screens[i1]@);
        }
    }
    let (ox, oy): (i64, i64) = match bbox {
        Some(b) => (geom::whole_pixels(b.0), geom::whole_pixels(b.1)),
        None => (0, 0),
    };
    let mut scale: i64 = RATIO_ONE;
    let mut panels: Vec<PanelSpec> = Vec::new();
    let mut i: usize = 0;
    let ghost keep = crate::layout::local_panel();
    let ghost f = |s: ScreenView| advertised(s, own_corner(own@));
    proof {
        reveal(Seq::filter);
        assert(own@.take(0).filter(keep) =~= Seq::empty());
        assert(crate::layout::panel_views(panels@) =~= own@.take(0).filter(keep).map_values(f));
        crate::layout::bbox_is_the_hull(own@, keep);
    }
    while i < own.screens.len()
        invariant
            i <= own.screens.len(),
            keep == crate::layout::local_panel(),
            f == (|s: ScreenView| advertised(s, own_corner(own@))),
            (ox as int, oy as int) == own_corner(own@),
            crate::layout::panel_views(panels@) == own@.take(i as int).filter(keep).map_values(f),
            panels@.len() == 0 ==> scale == RATIO_ONE && forall|j: int|
                0 <= j < i ==> !keep(#[trigger] own@[j]),
            panels@.len() > 0 ==> geom::first_where(own@, keep) < i && scale == own_scale(own@),
            forall|i: int|
                0 <= i < own@.len() && (#[trigger] own@[i]).is_local ==> 0 <= own@[i].ox
                    - own_corner(own@).0 <= i32::MAX && 0 <= own@[i].oy - own_corner(own@).1
                    <= i32::MAX,
        decreases own.screens.len() - i,
    {
        let s = &own.screens[i];
        let ghost was = panels@;
        assert(own@[i as int] == s@);
        if s.is_local {
            if panels.len() == 0 {
                proof {
                    geom::lemma_first_where_unique(own@, keep, i as int);
                }
                scale = s.scale;
            }
            let p = PanelSpec {
                name: s.name.clone(),
                ox: (s.ox as i64 - ox) as i32,
                oy: (s.oy as i64 - oy) as i32,
                w: s.w,
                h: s.h,
                scale: s.scale,
            };
            panels.push(p);
            assert(p@ == f(s@));
            assert(crate::layout::panel_views(panels@) =~= crate::layout::panel_views(was).push(p@));
        }
        proof {
            reveal(Seq::filter);
            let t = own@.take(i as int + 1);
            assert(t.drop_last() =~= own@.take(i as int));
            assert(t.last() == s@);
            let kept = own@.take(i as int).filter(keep);
            assert(kept.push(s@).map_values(f) =~= kept.map_values(f).push(f(s@)));
        }
        i += 1;
    }
    proof {
        assert(own@.take(i as int) =~= own@);
        if panels@.len() == 0 {
            geom::lemma_first_where_unique(own@, keep, i as int);
        }
    }
    (w, h, scale, panels)
}

/// The advertised offsets start at zero in both directions: the hub can put the machine's corner
/// anywhere and finds the panels to the right of it and below it.
pub proof fn advertised_offsets_start_at_zero(own: Seq<ScreenView>, i: int)
    requires
        0 <= i < own.len(),
        own[i].is_local,
    ensures
        advertised(own[i], own_corner(own)).ox >= 0,
        advertised(own[i], own_corner(own)).oy >= 0,
        exists|k: int|
            0 <= k < own.len() && (#[trigger] own[k]).is_local && advertised(
                own[k],
                own_corner(own),
            ).ox == 0,
        exists|k: int|
            0 <= k < own.len() && (#[trigger] own[k]).is_local && advertised(
                own[k],
                own_corner(own),
            ).oy == 0,
{
    let p = crate::layout::local_panel();
    crate::layout::bbox_is_the_hull(own, p);
    assert(p(own[i]));
    let b = crate::layout::bbox(own, p)->0;
    let i0 = choose|i: int| 0 <= i < own.len() && p(#[trigger] own[i]) && b.0 == own[i].rect().0;
    let i1 = choose|i: int| 0 <= i < own.len() && p(#[trigger] own[i]) && b.1 == own[i].rect().1;
    assert(own_corner(own) == (own[i0].ox, own[i1].oy));
}

/// Every display is a panel: in the order from left to right and from top to bottom, a machine's own
/// panels have the places, sizes and scales of its displays, belong to the machine and are local.
/// The panel with the machine's bare name is that of a display that claims to be the main one, if
/// any does.
pub proof fn every_display_is_a_panel(machine: Seq<char>, displays: Seq<Display>, i: int)
    requires
        0 <= i < displays.len(),
    ensures
        ({
            let p = own_panels(machine, displays);
            let d = arranged(displays)[i];
            &&& p.len() == displays.len()
            &&& p[i].ox == d.x && p[i].oy == d.y
            &&& p[i].w == d.w && p[i].h == d.h
            &&& p[i].scale == d.scale
            &&& p[i].is_local && p[i].host == machine
            &&& p[i].name == machine <==> i == main_display(main_flags(arranged(displays)))
            &&& p[i].name == machine ==> d.is_main || forall|j: int|
                0 <= j < displays.len() ==> !(#[trigger] arranged(displays)[j]).is_main
        }),
{
    arranging_orders_the_displays(displays);
    let s = arranged(displays);
    let flags = main_flags(s);
    let m = |b: bool| b;
    geom::lemma_first_where(flags, m);
    let f = geom::first_where(flags, m);
    reveal_strlit(" #");
    let n = display_name(machine, flags, i);
    if i != main_display(flags) {
        assert(n.len() >= machine.len() + 2);
    } else if f < flags.len() {
        assert(flags[f] == s[f].is_main);
    } else {
        assert forall|j: int| 0 <= j < displays.len() implies !(#[trigger] s[j]).is_main by {
            assert(flags[j] == s[j].is_main);
            assert(!m(flags[j]));
        }
    }
}

/// What a machine advertises shows its arrangement as it is: each of its own panels, in order, with
/// its name, its size and its scale, and each as far from the others as it is on the machine.
pub proof fn the_arrangement_is_advertised(own: Seq<ScreenView>, i: int, j: int)
    requires
        0 <= i < own.filter(crate::layout::local_panel()).len(),
        0 <= j < own.filter(crate::layout::local_panel()).len(),
    ensures
        ({
            let s = own.filter(crate::layout::local_panel());
            let p = advertised_panels(own);
            &&& p.len() == s.len()
            &&& p[i].name == s[i].name && p[i].w == s[i].w && p[i].h == s[i].h && p[i].scale
                == s[i].scale
            &&& p[i].ox - p[j].ox == s[i].ox - s[j].ox
            &&& p[i].oy - p[j].oy == s[i].oy - s[j].oy
        }),
{
}

/// The size that a machine reports is that of the box around its own panels, and the scale that of
/// the first of them.
pub proof fn the_whole_size_is_reported(own: Seq<ScreenView>, first: int)
    requires
        0 <= first < own.len(),
        own[first].is_local,
        forall|j: int| 0 <= j < first ==> !(#[trigger] own[j]).is_local,
    ensures
        own_scale(own) == own[first].scale,
        crate::layout::bbox(own, crate::layout::local_panel()) matches Some(b) && {
            let (w, h) = ((b.2 - b.0) / 65_536, (b.3 - b.1) / 65_536);
            &&& 1 <= w <= u32::MAX ==> own_size(own).0 == w
            &&& 1 <= h <= u32::MAX ==> own_size(own).1 == h
        },
{
    let p = crate::layout::local_panel();
    geom::lemma_first_where_unique(own, p, first);
    crate::layout::bbox_is_the_hull(own, p);
    assert(p(own[first]));
}

} // verus!
