//! The layout of the desktop and the canvas that shows it.

use mouseshare::canvas::{
    add_screen, bounds, drag_tile, effective_speed, ensure_own_screen, fit, in_view, is_live,
    remove_screen, screen_meta, screen_size, shared_edges, speed_label, tile_meta, tile_plan,
    tile_title, Area, Border, Edge,
};
use mouseshare::geom::{
    fraction_of, point_along, scale_by, FRACTION_ONE, RATIO_ONE, SUBPX,
};
use mouseshare::layout::{default_is_local, default_scale, Layout, PanelSpec, Screen};

fn screen(name: &str, ox: i32, oy: i32, w: u32, h: u32, is_local: bool) -> Screen {
    Screen { name: name.into(), host: String::new(), ox, oy, w, h, is_local, scale: RATIO_ONE }
}

fn px(v: i64) -> i64 {
    v * SUBPX
}

fn pair() -> Layout {
    Layout {
        screens: vec![
            screen("A", 0, 0, 1920, 1080, true),
            screen("B", 1920, 100, 1280, 720, false),
        ],
    }
}

#[test]
fn a_display_is_local_and_unscaled_unless_told_otherwise() {
    assert!(default_is_local());
    assert_eq!(default_scale(), RATIO_ONE);
}

#[test]
fn a_screen_knows_its_machine_and_its_pixels() {
    let mut s = screen("A", -10, 20, 100, 50, true);
    assert_eq!(s.host(), "A");
    s.host = "mac".into();
    assert_eq!(s.host(), "mac");
    assert!(s.belongs("mac") && !s.belongs("A"));
    assert_eq!(s.rect(), (px(-10), px(20), px(90), px(70)));
    assert!(s.contains(px(-10), px(20)));
    assert!(!s.contains(px(90), px(20)));
    s.scale = 3 * RATIO_ONE / 2;
    assert_eq!(s.physical_size(), (150, 75));
}

#[test]
fn screens_are_found_by_place_and_by_name() {
    let l = pair();
    assert_eq!(l.screen_at(px(5), px(5)), Some(0));
    assert_eq!(l.screen_at(px(1920), px(100)), Some(1));
    assert_eq!(l.screen_at(px(1920), px(99)), None);
    assert_eq!(l.index_of("B"), Some(1));
    assert_eq!(l.index_of("C"), None);
    assert_eq!(l.local_bbox(), Some((0, 0, px(1920), px(1080))));
    assert_eq!(l.host_bbox("B"), Some((px(1920), px(100), px(3200), px(820))));
    assert_eq!(l.host_bbox("C"), None);
    assert_eq!(l.machine_origin("B"), Some((1920, 100)));
    assert_eq!(l.panels_of("B").len(), 1);
    assert_eq!(l.scale_of("A"), RATIO_ONE);
    assert_eq!(l.scale_of_host("nobody"), RATIO_ONE);
}

#[test]
fn a_point_in_a_gap_is_pulled_onto_a_screen() {
    let l = pair();
    assert_eq!(l.clamp(px(-50), px(500)), (0, px(500)));
    assert_eq!(l.clamp(px(9000), px(500)), (px(3199), px(500)));
    assert_eq!(Layout { screens: Vec::new() }.clamp(7, 8), (7, 8));
}

#[test]
fn a_point_on_a_screen_stays_where_it_is() {
    let l = Layout {
        screens: vec![screen("A", 0, 0, 4000, 1000, true), screen("B", 4000, 0, 100, 1000, false)],
    };
    // The middle of B is nearer than the middle of A.
    assert_eq!(l.clamp(px(3900), px(500)), (px(3900), px(500)));
    assert_eq!(l.clamp(px(4000), px(500)), (px(4000), px(500)));
    // In a gap the nearest screen counts, not the nearest middle.
    let l = Layout {
        screens: vec![screen("A", 0, 0, 4000, 1000, true), screen("B", 4100, 0, 100, 1000, false)],
    };
    assert_eq!(l.clamp(px(4001), px(500)), (px(3999), px(500)));
    assert_eq!(l.clamp(px(4090), px(500)), (px(4100), px(500)));
    // Half-way between them it is the first.
    assert_eq!(l.clamp(px(4050), px(500)), (px(3999), px(500)));
}

#[test]
fn a_copy_of_a_screen_gets_a_name_of_its_own() {
    let mut l = Layout { screens: vec![screen("A", 0, 0, 1920, 1080, true)] };
    l.duplicate_screen(0);
    l.duplicate_screen(0);
    let names: Vec<&str> = l.screens.iter().map(|s| s.name.as_str()).collect();
    assert_eq!(names.len(), 3);
    assert!(names[1].starts_with("A-copy") && names[2].starts_with("A-copy"));
    assert_ne!(names[1], names[2]);
    assert!(l.screens[1].ox >= 1920);
}

#[test]
fn a_machine_moves_as_a_whole() {
    let mut l = pair();
    l.screens[1].host = "win".into();
    let mut second = screen("win #2", 3200, 100, 800, 600, false);
    second.host = "win".into();
    l.screens.push(second);
    l.move_host("win", 10, -20);
    assert_eq!((l.screens[1].ox, l.screens[1].oy), (1930, 80));
    assert_eq!((l.screens[2].ox, l.screens[2].oy), (3210, 80));
    assert_eq!((l.screens[0].ox, l.screens[0].oy), (0, 0));
    l.move_host("win", -10, 20);
    assert_eq!((l.screens[1].ox, l.screens[1].oy), (1920, 100));
}

#[test]
fn a_monitor_that_is_gone_disappears() {
    let p = |name: &str, ox: i32| PanelSpec {
        name: name.into(),
        ox,
        oy: 0,
        w: 800,
        h: 600,
        scale: RATIO_ONE,
    };
    let mut l = Layout { screens: vec![screen("A", 0, 0, 1920, 1080, true)] };
    assert!(l.has_room_for("win", &[p("win", 0), p("win #2", 800)]));
    assert!(l.ensure_host("win", &[p("win", 0), p("win #2", 800)]));
    assert_eq!(l.screens.len(), 3);
    assert_eq!((l.screens[1].ox, l.screens[2].ox), (1920, 2720));
    assert!(l.ensure_host("win", &[p("win", 0)]));
    assert_eq!(l.screens.len(), 2);
    assert!(!l.ensure_host("win", &[p("win", 0)]));
    assert!(!l.ensure_host("win", &[]));
}

#[test]
fn only_the_screen_pulled_into_needs_area() {
    let l = Layout {
        screens: vec![screen("A", 0, 0, 100, 100, true), screen("B", 9000, 0, 0, 0, false)],
    };
    assert_eq!(l.clamp(px(-5), px(50)), (0, px(50)));
    assert_eq!(l.clamp(px(7), px(8)), (px(7), px(8)));
}

#[test]
fn a_second_report_is_no_news() {
    let p = |name: &str, ox: i32, oy: i32| PanelSpec {
        name: name.into(),
        ox,
        oy,
        w: 800,
        h: 600,
        scale: RATIO_ONE,
    };
    let report = [p("win", 0, 40), p("win #2", 800, 0)];
    let mut l = Layout { screens: vec![screen("A", 0, 0, 1920, 1080, true)] };
    assert!(l.ensure_host("win", &report));
    let once = l.clone();
    assert!(!l.ensure_host("win", &report));
    assert_eq!(l, once);
    // Wherever the user has dragged the machine to.
    l.move_host("win", -3000, 70);
    let dragged = l.clone();
    assert!(!l.ensure_host("win", &report));
    assert_eq!(l, dragged);
    assert!(!l.ensure_host("win", &[]));
    assert!(!l.ensure_host("nobody", &[]));
    assert_eq!(l, dragged);
}

#[test]
fn a_tall_screen_leaves_room() {
    let mut l = Layout { screens: vec![screen("A", 0, 0, 1920, 3_000_000_000, true)] };
    let p = PanelSpec { name: "B".into(), ox: 0, oy: 0, w: 800, h: 600, scale: RATIO_ONE };
    assert!(l.has_room_for("B", &[p.clone()]));
    assert!(l.ensure_host("B", &[p]));
    assert_eq!((l.screens[1].ox, l.screens[1].oy), (1920, 0));
}

#[test]
fn a_machine_beyond_the_coordinates_has_no_room() {
    let l = Layout { screens: vec![screen("A", i32::MAX - 10, 0, 5, 5, true)] };
    let p = PanelSpec { name: "win".into(), ox: 100, oy: 0, w: 8, h: 6, scale: RATIO_ONE };
    assert!(!l.has_room_for("win", &[p]));
}

#[test]
fn the_canvas_shows_everything() {
    assert_eq!(bounds(&pair()), (0, 0, 3200, 1080));
    assert_eq!(bounds(&Layout { screens: Vec::new() }), (0, 0, 1920, 1080));
}

#[test]
fn a_tile_snaps_to_the_edge_that_it_comes_close_to() {
    let mut l = pair();
    // 20 px away from the right edge: pulled back.
    assert!(drag_tile(&mut l, 1, 20, 500));
    assert_eq!(l.screens[1].ox, 1920);
    // 30 px away: it stays there.
    assert!(drag_tile(&mut l, 1, 30, 0));
    assert_eq!(l.screens[1].ox, 1950);
    // Close to the left edge, and to the top.
    let d = -1280 - 1950 + 10;
    let up = 5 - l.screens[1].oy;
    assert!(drag_tile(&mut l, 1, d, up));
    assert_eq!((l.screens[1].ox, l.screens[1].oy), (-1280, 0));
    // Close to the bottom.
    assert!(drag_tile(&mut l, 1, 0, 350));
    assert_eq!(l.screens[1].oy, 360);
}

#[test]
fn a_local_tile_does_not_snap() {
    let mut l = pair();
    assert!(drag_tile(&mut l, 0, 3, 4));
    assert_eq!((l.screens[0].ox, l.screens[0].oy), (3, 4));
}

#[test]
fn a_tile_cannot_be_dragged_off_the_world() {
    let mut l = pair();
    l.screens[1].ox = i32::MAX - 5;
    assert!(!drag_tile(&mut l, 1, 10, 0));
    assert_eq!(l.screens[1].ox, i32::MAX - 5);
}

#[test]
fn shared_edges_are_where_displays_meet() {
    let mut l = pair();
    assert_eq!(shared_edges(&l), vec![Edge { x: 1920, top: 100, bottom: 820 }]);
    l.screens[1].ox = 1922;
    assert!(shared_edges(&l).is_empty());
    l.screens[1].ox = -1280;
    assert_eq!(shared_edges(&l), vec![Edge { x: 0, top: 100, bottom: 820 }]);
    l.screens[1].oy = 1079;
    assert!(shared_edges(&l).is_empty());
}

#[test]
fn screens_are_added_to_the_right() {
    let mut l = pair();
    assert!(add_screen(&mut l));
    let s = &l.screens[2];
    assert_eq!((s.name.as_str(), s.ox, s.oy, s.w, s.h, s.is_local), ("machine-3", 3240, 0, 1920, 1080, false));
    l.screens[2].ox = i32::MAX - 1000;
    assert!(!add_screen(&mut l));
    assert_eq!(l.screens.len(), 3);
}

#[test]
fn the_last_screen_stays() {
    let mut l = pair();
    remove_screen(&mut l, 0);
    assert_eq!(l.screens.len(), 1);
    assert_eq!(l.screens[0].name, "B");
    remove_screen(&mut l, 0);
    assert_eq!(l.screens.len(), 1);
}

#[test]
fn an_empty_canvas_gets_this_machine() {
    let mut l = Layout { screens: Vec::new() };
    ensure_own_screen(&mut l, "me");
    ensure_own_screen(&mut l, "you");
    assert_eq!(l.screens.len(), 1);
    assert_eq!(l.screens[0].name, "me");
    assert_eq!(screen_size(&l, "me"), (1920, 1080));
    assert_eq!(screen_size(&pair(), "B"), (1280, 720));
    assert_eq!(screen_size(&pair(), "nobody"), (1920, 1080));
}

#[test]
fn tiles_are_labelled() {
    let mut s = screen("A", 0, 0, 1470, 956, true);
    assert_eq!(tile_title(&s), "★ A");
    assert_eq!(tile_meta(&s), "1470 × 956");
    assert_eq!(screen_meta(&s), "1470 × 956");
    s.scale = 2 * RATIO_ONE;
    assert_eq!(tile_meta(&s), "1470 × 956 · @2x");
    assert_eq!(screen_meta(&s), "1470 × 956 · @2x");
    // Halves go to the even neighbour.
    s.scale = 5 * RATIO_ONE / 2;
    assert_eq!(tile_meta(&s), "1470 × 956 · @2x");
    s.scale = 7 * RATIO_ONE / 2;
    assert_eq!(tile_meta(&s), "1470 × 956 · @4x");
    s.scale = -2 * RATIO_ONE;
    assert_eq!(tile_meta(&s), "1470 × 956 · @-2x");
    s.is_local = false;
    assert_eq!(tile_title(&s), "A");
    assert!(is_live(&s, "A") && !is_live(&s, "B"));
}

#[test]
fn the_speed_is_read_out_with_two_decimals() {
    assert_eq!(speed_label(RATIO_ONE), "1.00 ×");
    assert_eq!(speed_label(2_345_678), "2.35 ×");
    assert_eq!(speed_label(40_000), "0.04 ×");
    assert_eq!(speed_label(-1_250_000), "-1.25 ×");
    assert_eq!(effective_speed(&pair(), RATIO_ONE), Some(RATIO_ONE));
    assert_eq!(effective_speed(&Layout { screens: vec![screen("A", 0, 0, 1, 1, true)] }, RATIO_ONE), None);
}

#[test]
fn the_desktop_fits_into_the_canvas() {
    let area = Area { x: px(100), y: px(50), w: px(912), h: px(712) };
    let l = pair();
    let f = fit(&l, area);
    // 800 points for 3200 pixels.
    assert_eq!(f.scale, RATIO_ONE / 4);
    let a = f.tile(&l.screens[0]);
    assert_eq!((a.x, a.w, a.h), (px(156), px(480), px(270)));
    let b = f.tile(&l.screens[1]);
    assert_eq!((b.x, b.w), (px(636), px(320)));
    assert_eq!(b.x + b.w, area.x + area.w - px(56));
    assert_eq!(f.drag_pixels(px(10)), 40);
    assert_eq!(f.drag_pixels(-SUBPX / 8), 0);
    assert_eq!(f.drag_pixels(-SUBPX), -4);
    assert_eq!(f.drag_pixels(i64::MIN), i32::MIN);
    let (x, y) = f.place(px(1920), 0);
    assert!(in_view(area, x, y));
    let (x, y) = f.place(px(19200), 0);
    assert!(!in_view(area, x, y));
}

#[test]
fn a_tiny_canvas_does_not_shrink_the_tiles_to_nothing() {
    let f = fit(&pair(), Area { x: 0, y: 0, w: px(10), h: px(10) });
    assert_eq!(f.scale, RATIO_ONE / 20);
}

#[test]
fn a_tile_shows_what_it_has_room_for() {
    let small = tile_plan(px(40), px(40), true, false);
    assert_eq!((small.border, small.preview, small.name, small.badge), (Border::Mine, None, false, false));
    let big = tile_plan(px(300), px(200), true, true);
    assert_eq!(big.border, Border::Hovered);
    assert_eq!(big.preview, Some(px(64)));
    assert!(big.bars && big.name && big.size && big.badge);
    let other = tile_plan(px(300), px(200), false, false);
    assert_eq!((other.border, other.badge), (Border::Plain, false));
    // 48 high: the preview takes 14 and leaves 38 < 44 for the name.
    let low = tile_plan(px(300), px(48), false, false);
    assert_eq!((low.preview, low.bars, low.name, low.size), (Some(px(14)), false, true, false));
}

#[test]
fn a_place_along_an_edge_is_found_again() {
    let f = fraction_of(px(540), 0, px(1080));
    assert_eq!(f, FRACTION_ONE / 2);
    assert_eq!(point_along(f, 0, px(720)), px(360));
    assert_eq!(fraction_of(-5, 0, px(10)), 0);
    assert_eq!(fraction_of(px(20), 0, px(10)), FRACTION_ONE);
    assert_eq!(scale_by(px(3), RATIO_ONE / 2), px(3) / 2);
}
