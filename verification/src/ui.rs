//! The palette: every colour that the window may use, and which of them goes where.

use vstd::prelude::*;

verus! {

/// A colour with its opacity. The colour components are not multiplied by the opacity.
#[derive(Debug, Clone, Copy, PartialEq, Eq, Structural)]
pub struct Rgba {
    pub r: u8,
    pub g: u8,
    pub b: u8,
    pub a: u8,
}

/// No colour at all.
pub open spec fn transparent() -> Rgba {
    Rgba { r: 0, g: 0, b: 0, a: 0 }
}

/// A component, `part / whole` of the way from `x` to `y`, rounded down.
pub open spec fn blend(x: u8, y: u8, part: u32, whole: u32) -> u8 {
    ((x * (whole - part) + y * part) / whole as int) as u8
}

/// A colour, `part / whole` of the way from `a` to `b`, opaque.
pub open spec fn mixed(a: Rgba, b: Rgba, part: u32, whole: u32) -> Rgba {
    Rgba {
        r: blend(a.r, b.r, part, whole),
        g: blend(a.g, b.g, part, whole),
        b: blend(a.b, b.b, part, whole),
        a: 255,
    }
}

fn blended(x: u8, y: u8, part: u32, whole: u32) -> (r: u8)
    requires
        0 < whole <= 0x10000,
        part <= whole,
    ensures
        r == blend(x, y, part, whole),
{
    let (p, w): (u64, u64) = (part as u64, whole as u64);
    proof {
        let (xi, yi, pi, wi) = (x as int, y as int, part as int, whole as int);
        assert(0 <= xi * (wi - pi) <= 255 * (wi - pi)) by (nonlinear_arith)
            requires
                0 <= xi <= 255,
                pi <= wi,
        ;
        assert(0 <= yi * pi <= 255 * pi) by (nonlinear_arith)
            requires
                0 <= yi <= 255,
                0 <= pi,
        ;
        let n = xi * (wi - pi) + yi * pi;
        assert(0 <= n / wi <= 255) by (nonlinear_arith)
            requires
                0 <= n <= 255 * wi,
                wi > 0,
        ;
    }
    ((x as u64 * (w - p) + y as u64 * p) / w) as u8
}

/// Linear blend between two colours: `part / whole` of the way from `a` to `b`.
pub fn mix(a: Rgba, b: Rgba, part: u32, whole: u32) -> (r: Rgba)
    requires
        0 < whole <= 0x10000,
        part <= whole,
    ensures
        r == mixed(a, b, part, whole),
{
    Rgba {
        r: blended(a.r, b.r, part, whole),
        g: blended(a.g, b.g, part, whole),
        b: blended(a.b, b.b, part, whole),
        a: 255,
    }
}

/// A blend starts at one colour, ends at the other, and stays between the two.
pub proof fn blends_stay_between(x: u8, y: u8, part: u32, whole: u32)
    requires
        0 < whole <= 0x10000,
        part <= whole,
    ensures
        blend(x, y, 0, whole) == x,
        blend(x, y, whole, whole) == y,
        x <= y ==> x <= blend(x, y, part, whole) <= y,
        y <= x ==> y <= blend(x, y, part, whole) <= x,
{
    let (xi, yi, pi, wi) = (x as int, y as int, part as int, whole as int);
    let n = xi * (wi - pi) + yi * pi;
    assert(xi * (wi - 0) + yi * 0 == xi * wi);
    assert(xi * wi / wi == xi) by (nonlinear_arith)
        requires
            wi > 0,
    ;
    assert(xi * (wi - wi) + yi * wi == yi * wi);
    assert(yi * wi / wi == yi) by (nonlinear_arith)
        requires
            wi > 0,
    ;
    if x <= y {
        assert(xi <= n / wi <= yi) by (nonlinear_arith)
            requires
                0 <= pi <= wi,
                0 <= xi <= yi,
                n == xi * (wi - pi) + yi * pi,
                wi > 0,
        ;
    }
    if y <= x {
        assert(yi <= n / wi <= xi) by (nonlinear_arith)
            requires
                0 <= pi <= wi,
                0 <= yi <= xi,
                n == xi * (wi - pi) + yi * pi,
                wi > 0,
        ;
    }
}

/// `base` at `alpha`/255 opacity, keeping its components. Used to derive tints.
pub fn tint(base: Rgba, alpha: u8) -> (r: Rgba)
    ensures
        r == (Rgba { a: alpha, ..base }),
{
    Rgba { r: base.r, g: base.g, b: base.b, a: alpha }
}

/// Every colour the window is allowed to use.
///
/// Values track the macOS system palette so the app reads as native in both appearances. The
/// surfaces are deliberately *layered* (sidebar behind, window, then cards on top), because a flat
/// single-tone window reads as a web page, not a desktop app.
#[derive(Debug, Clone, Copy, PartialEq, Eq, Structural)]
pub struct Theme {
    // -- surfaces, back to front
    /// The content area behind the cards.
    pub window: Rgba,
    /// Navigation rail material.
    pub sidebar: Rgba,
    /// Card and control surface.
    pub surface: Rgba,
    /// Hover / quiet fill on top of `surface`.
    pub surface_alt: Rgba,
    /// Recessed wells: the layout canvas, inset groupings.
    pub recessed: Rgba,
    /// Text input background — a recessed fill, deliberately a step away from `surface`.
    pub field: Rgba,
    /// Text input fill on hover.
    pub field_hover: Rgba,
    /// The accent-tinted fill for the selected sidebar row and selected choice cards.
    pub selected_fill: Rgba,
    /// Fill for the boot-failure banner.
    ///
    /// Unlike the other `*_soft` tokens — which are translucent because they always land on top of
    /// an opaque card — this one is a *panel* fill. The banner is the first thing painted each
    /// frame, so it composites against freshly-cleared pixels rather than the window surface; a
    /// translucent red there resolves to near-black instead of a pale tint. Hence it is pre-composited
    /// over `window` and opaque.
    pub banner_error: Rgba,
    // -- lines
    /// Card and control borders.
    pub border: Rgba,
    /// The fainter line: inset dividers, separators inside a card.
    pub border_soft: Rgba,
    // -- text
    pub text: Rgba,
    pub muted: Rgba,
    pub faint: Rgba,
    /// Text drawn on top of `accent`.
    pub on_accent: Rgba,
    // -- accent
    pub accent: Rgba,
    pub accent_hover: Rgba,
    /// 1.5 pt border around a focused/selected control.
    pub accent_line: Rgba,
    // -- semantic status
    pub green: Rgba,
    pub green_soft: Rgba,
    pub orange: Rgba,
    pub orange_soft: Rgba,
    pub red: Rgba,
    pub red_soft: Rgba,
    // -- canvas
    pub grid: Rgba,
    // -- interaction
    pub nav_hover: Rgba,
    pub shadow: Rgba,
}

/// The palette of the light appearance.
pub open spec fn light() -> Theme {
    Theme {
        window: Rgba { r: 242, g: 242, b: 247, a: 255 },
        sidebar: Rgba { r: 233, g: 233, b: 239, a: 255 },
        surface: Rgba { r: 255, g: 255, b: 255, a: 255 },
        surface_alt: Rgba { r: 242, g: 242, b: 247, a: 255 },
        recessed: Rgba { r: 245, g: 245, b: 249, a: 255 },
        field: Rgba { r: 240, g: 240, b: 244, a: 255 },
        field_hover: Rgba { r: 232, g: 232, b: 238, a: 255 },
        selected_fill: Rgba { r: 0, g: 122, b: 255, a: 24 },
        banner_error: mixed(Rgba { r: 242, g: 242, b: 247, a: 255 }, Rgba { r: 255, g: 59, b: 48, a: 255 }, 34, 255),
        border: Rgba { r: 0, g: 0, b: 0, a: 26 },
        border_soft: Rgba { r: 0, g: 0, b: 0, a: 13 },
        text: Rgba { r: 28, g: 28, b: 30, a: 255 },
        muted: Rgba { r: 126, g: 126, b: 134, a: 255 },
        faint: Rgba { r: 168, g: 168, b: 176, a: 255 },
        on_accent: Rgba { r: 255, g: 255, b: 255, a: 255 },
        accent: Rgba { r: 0, g: 122, b: 255, a: 255 },
        accent_hover: Rgba { r: 0, g: 106, b: 224, a: 255 },
        accent_line: Rgba { r: 0, g: 122, b: 255, a: 130 },
        green: Rgba { r: 40, g: 176, b: 76, a: 255 },
        green_soft: Rgba { r: 48, g: 199, b: 89, a: 38 },
        orange: Rgba { r: 206, g: 118, b: 0, a: 255 },
        orange_soft: Rgba { r: 255, g: 149, b: 0, a: 40 },
        red: Rgba { r: 214, g: 45, b: 35, a: 255 },
        red_soft: Rgba { r: 255, g: 59, b: 48, a: 34 },
        grid: Rgba { r: 0, g: 0, b: 0, a: 24 },
        nav_hover: Rgba { r: 0, g: 0, b: 0, a: 11 },
        shadow: Rgba { r: 0, g: 0, b: 0, a: 38 },
    }
}

/// The palette of the dark appearance.
pub open spec fn dark() -> Theme {
    Theme {
        window: Rgba { r: 30, g: 30, b: 33, a: 255 },
        sidebar: Rgba { r: 23, g: 23, b: 26, a: 255 },
        surface: Rgba { r: 42, g: 42, b: 46, a: 255 },
        surface_alt: Rgba { r: 54, g: 54, b: 59, a: 255 },
        recessed: Rgba { r: 25, g: 25, b: 28, a: 255 },
        field: Rgba { r: 25, g: 25, b: 28, a: 255 },
        field_hover: Rgba { r: 33, g: 33, b: 37, a: 255 },
        selected_fill: Rgba { r: 10, g: 132, b: 255, a: 52 },
        banner_error: mixed(Rgba { r: 30, g: 30, b: 33, a: 255 }, Rgba { r: 255, g: 69, b: 58, a: 255 }, 50, 255),
        border: Rgba { r: 255, g: 255, b: 255, a: 24 },
        border_soft: Rgba { r: 255, g: 255, b: 255, a: 13 },
        text: Rgba { r: 240, g: 240, b: 245, a: 255 },
        muted: Rgba { r: 150, g: 150, b: 158, a: 255 },
        faint: Rgba { r: 108, g: 108, b: 116, a: 255 },
        on_accent: Rgba { r: 255, g: 255, b: 255, a: 255 },
        accent: Rgba { r: 10, g: 132, b: 255, a: 255 },
        accent_hover: Rgba { r: 35, g: 148, b: 255, a: 255 },
        accent_line: Rgba { r: 10, g: 132, b: 255, a: 140 },
        green: Rgba { r: 66, g: 214, b: 106, a: 255 },
        green_soft: Rgba { r: 48, g: 209, b: 88, a: 52 },
        orange: Rgba { r: 255, g: 172, b: 56, a: 255 },
        orange_soft: Rgba { r: 255, g: 159, b: 10, a: 52 },
        red: Rgba { r: 255, g: 96, b: 86, a: 255 },
        red_soft: Rgba { r: 255, g: 69, b: 58, a: 50 },
        grid: Rgba { r: 255, g: 255, b: 255, a: 20 },
        nav_hover: Rgba { r: 255, g: 255, b: 255, a: 14 },
        shadow: Rgba { r: 0, g: 0, b: 0, a: 150 },
    }
}

/// The tinted background behind a colour of the palette.
pub open spec fn softened(t: Theme, c: Rgba) -> Rgba {
    if c == t.accent {
        t.selected_fill
    } else if c == t.green {
        t.green_soft
    } else if c == t.orange {
        t.orange_soft
    } else if c == t.red {
        t.red_soft
    } else {
        t.surface_alt
    }
}

impl Theme {
    /// The palette of the appearance that the system is set to.
    pub fn palette(dark_mode: bool) -> (r: Theme)
        ensures
            r == (if dark_mode {
                dark()
            } else {
                light()
            }),
    {
        if dark_mode {
            Self::dark()
        } else {
            Self::light()
        }
    }

    fn light() -> (r: Theme)
        ensures
            r == light(),
    {
        Theme {
            window: Rgba { r: 242, g: 242, b: 247, a: 255 },
            sidebar: Rgba { r: 233, g: 233, b: 239, a: 255 },
            surface: Rgba { r: 255, g: 255, b: 255, a: 255 },
            surface_alt: Rgba { r: 242, g: 242, b: 247, a: 255 },
            recessed: Rgba { r: 245, g: 245, b: 249, a: 255 },
            field: Rgba { r: 240, g: 240, b: 244, a: 255 },
            field_hover: Rgba { r: 232, g: 232, b: 238, a: 255 },
            selected_fill: Rgba { r: 0, g: 122, b: 255, a: 24 },
            banner_error: mix(Rgba { r: 242, g: 242, b: 247, a: 255 }, Rgba { r: 255, g: 59, b: 48, a: 255 }, 34, 255),
            border: Rgba { r: 0, g: 0, b: 0, a: 26 },
            border_soft: Rgba { r: 0, g: 0, b: 0, a: 13 },
            text: Rgba { r: 28, g: 28, b: 30, a: 255 },
            muted: Rgba { r: 126, g: 126, b: 134, a: 255 },
            faint: Rgba { r: 168, g: 168, b: 176, a: 255 },
            on_accent: Rgba { r: 255, g: 255, b: 255, a: 255 },
            accent: Rgba { r: 0, g: 122, b: 255, a: 255 },
            accent_hover: Rgba { r: 0, g: 106, b: 224, a: 255 },
            accent_line: Rgba { r: 0, g: 122, b: 255, a: 130 },
            green: Rgba { r: 40, g: 176, b: 76, a: 255 },
            green_soft: Rgba { r: 48, g: 199, b: 89, a: 38 },
            orange: Rgba { r: 206, g: 118, b: 0, a: 255 },
            orange_soft: Rgba { r: 255, g: 149, b: 0, a: 40 },
            red: Rgba { r: 214, g: 45, b: 35, a: 255 },
            red_soft: Rgba { r: 255, g: 59, b: 48, a: 34 },
            grid: Rgba { r: 0, g: 0, b: 0, a: 24 },
            nav_hover: Rgba { r: 0, g: 0, b: 0, a: 11 },
            shadow: Rgba { r: 0, g: 0, b: 0, a: 38 },
        }
    }

    fn dark() -> (r: Theme)
        ensures
            r == dark(),
    {
        Theme {
            window: Rgba { r: 30, g: 30, b: 33, a: 255 },
            sidebar: Rgba { r: 23, g: 23, b: 26, a: 255 },
            surface: Rgba { r: 42, g: 42, b: 46, a: 255 },
            surface_alt: Rgba { r: 54, g: 54, b: 59, a: 255 },
            recessed: Rgba { r: 25, g: 25, b: 28, a: 255 },
            field: Rgba { r: 25, g: 25, b: 28, a: 255 },
            field_hover: Rgba { r: 33, g: 33, b: 37, a: 255 },
            selected_fill: Rgba { r: 10, g: 132, b: 255, a: 52 },
            banner_error: mix(Rgba { r: 30, g: 30, b: 33, a: 255 }, Rgba { r: 255, g: 69, b: 58, a: 255 }, 50, 255),
            border: Rgba { r: 255, g: 255, b: 255, a: 24 },
            border_soft: Rgba { r: 255, g: 255, b: 255, a: 13 },
            text: Rgba { r: 240, g: 240, b: 245, a: 255 },
            muted: Rgba { r: 150, g: 150, b: 158, a: 255 },
            faint: Rgba { r: 108, g: 108, b: 116, a: 255 },
            on_accent: Rgba { r: 255, g: 255, b: 255, a: 255 },
            accent: Rgba { r: 10, g: 132, b: 255, a: 255 },
            accent_hover: Rgba { r: 35, g: 148, b: 255, a: 255 },
            accent_line: Rgba { r: 10, g: 132, b: 255, a: 140 },
            green: Rgba { r: 66, g: 214, b: 106, a: 255 },
            green_soft: Rgba { r: 48, g: 209, b: 88, a: 52 },
            orange: Rgba { r: 255, g: 172, b: 56, a: 255 },
            orange_soft: Rgba { r: 255, g: 159, b: 10, a: 52 },
            red: Rgba { r: 255, g: 96, b: 86, a: 255 },
            red_soft: Rgba { r: 255, g: 69, b: 58, a: 50 },
            grid: Rgba { r: 255, g: 255, b: 255, a: 20 },
            nav_hover: Rgba { r: 255, g: 255, b: 255, a: 14 },
            shadow: Rgba { r: 0, g: 0, b: 0, a: 150 },
        }
    }

    /// The tinted background behind a status dot / status label pair.
    pub fn soft_for(&self, c: Rgba) -> (r: Rgba)
        ensures
            r == softened(*self, c),
    {
        if c == self.accent {
            self.selected_fill
        } else if c == self.green {
            self.green_soft
        } else if c == self.orange {
            self.orange_soft
        } else if c == self.red {
            self.red_soft
        } else {
            self.surface_alt
        }
    }
}

/// Gradient endpoints for a screen tile, keyed by role.
///
/// `is_hub` marks the panels of the machine acting as primary (which means the same thing on every
/// machine); `is_mine` marks the panels of the machine *running this instance*. The two differ on a
/// client: its own display is `is_mine` but not `is_hub`.
///
/// `is_mine` wins, because "which tile is my computer" is the question the canvas has to answer
/// first; telling the hub apart is the fallback that keeps the remaining greys readable.
pub fn tile_colors(is_hub: bool, is_mine: bool) -> (r: (Rgba, Rgba))
    ensures
        r == (if is_mine {
            (Rgba { r: 64, g: 156, b: 255, a: 255 }, Rgba { r: 0, g: 106, b: 224, a: 255 })
        } else if is_hub {
            (Rgba { r: 120, g: 130, b: 150, a: 255 }, Rgba { r: 84, g: 94, b: 112, a: 255 })
        } else {
            (Rgba { r: 146, g: 156, b: 176, a: 255 }, Rgba { r: 108, g: 118, b: 138, a: 255 })
        }),
{
    if is_mine {
        (Rgba { r: 64, g: 156, b: 255, a: 255 }, Rgba { r: 0, g: 106, b: 224, a: 255 })
    } else if is_hub {
        (Rgba { r: 120, g: 130, b: 150, a: 255 }, Rgba { r: 84, g: 94, b: 112, a: 255 })
    } else {
        (Rgba { r: 146, g: 156, b: 176, a: 255 }, Rgba { r: 108, g: 118, b: 138, a: 255 })
    }
}

/// A stroke-drawn glyph. Stroke rather than filled shapes, at a consistent weight, so icons stay
/// legible in both appearances and match the weight of the surrounding text.
#[derive(Debug, Clone, Copy, PartialEq, Eq, Structural)]
pub enum Icon {
    /// Two displays side by side: connection and role.
    Displays,
    /// One display on a stand: screen layout.
    Monitor,
    /// Clock face: live status.
    Clock,
    /// Two linked nodes: network discovery.
    Link,
    /// Power symbol: quit.
    Power,
}

/// Button weight. The hierarchy is deliberate: one primary action per section, everything else
/// secondary, tertiary actions rendered as quiet text.
#[derive(Debug, Clone, Copy, PartialEq, Eq, Structural)]
pub enum Btn {
    /// Filled accent. At most one per screen region.
    Primary,
    /// Bordered surface. The default.
    Secondary,
    /// Borderless, accent-coloured text. Inline actions inside a row.
    Quiet,
    /// Borderless red text. Destructive inline actions.
    Danger,
}

/// Background, label and border of a button.
pub open spec fn button_colors(kind: Btn, t: Theme, hovered: bool, pressed: bool) -> (
    Rgba,
    Rgba,
    Option<Rgba>,
) {
    match kind {
        Btn::Primary => (
            if pressed {
                t.accent_hover
            } else if hovered {
                mixed(t.accent, t.accent_hover, 3, 5)
            } else {
                t.accent
            },
            t.on_accent,
            None,
        ),
        Btn::Secondary => (
            if pressed || hovered {
                t.surface_alt
            } else {
                t.surface
            },
            t.text,
            Some(
                if hovered {
                    t.accent_line
                } else {
                    t.border
                },
            ),
        ),
        Btn::Quiet => (
            if pressed || hovered {
                t.nav_hover
            } else {
                transparent()
            },
            t.accent,
            None,
        ),
        Btn::Danger => (
            if pressed || hovered {
                t.red_soft
            } else {
                transparent()
            },
            t.red,
            None,
        ),
    }
}

impl Btn {
    /// Background, label and border of the button.
    pub fn colors(self, th: &Theme, hovered: bool, pressed: bool) -> (r: (Rgba, Rgba, Option<Rgba>))
        ensures
            r == button_colors(self, *th, hovered, pressed),
    {
        let none = Rgba { r: 0, g: 0, b: 0, a: 0 };
        match self {
            Btn::Primary => {
                let bg = if pressed {
                    th.accent_hover
                } else if hovered {
                    mix(th.accent, th.accent_hover, 3, 5)
                } else {
                    th.accent
                };
                (bg, th.on_accent, None)
            },
            Btn::Secondary => {
                let bg = if pressed || hovered {
                    th.surface_alt
                } else {
                    th.surface
                };
                let line = if hovered {
                    th.accent_line
                } else {
                    th.border
                };
                (bg, th.text, Some(line))
            },
            Btn::Quiet => {
                let bg = if pressed || hovered {
                    th.nav_hover
                } else {
                    none
                };
                (bg, th.accent, None)
            },
            Btn::Danger => {
                let bg = if pressed || hovered {
                    th.red_soft
                } else {
                    none
                };
                (bg, th.red, None)
            },
        }
    }
}

} // verus!
