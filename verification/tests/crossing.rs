//! When the cursor crosses from one machine to another, and how fast it moves there.

use mouseshare::control::{
    attached_side, crossing_back, effective_ratio, hotkey_fired, inject_relative, local_screen_at,
    motion_scale_ratio, predict_cross, set_motion_scale, step_local, Ctrl, HotkeyState, RemoteCtrl,
    MAX_EFFECTIVE_RATIO, MAX_SCALE_RATIO, MIN_EFFECTIVE_RATIO,
};
use mouseshare::geom::{RATIO_ONE, SUBPX};
use mouseshare::layout::{Layout, Screen, Side};
use mouseshare::protocol::Key;

fn px(v: f64) -> i64 {
    (v * SUBPX as f64).round() as i64
}

fn at(x: f64, y: f64) -> (i64, i64) {
    (px(x), px(y))
}

fn ratio(v: f64) -> i64 {
    (v * RATIO_ONE as f64).round() as i64
}

fn screen(name: &str, ox: i32, oy: i32, w: u32, h: u32, is_local: bool, scale: f64) -> Screen {
    Screen {
        name: name.into(),
        host: String::new(),
        ox,
        oy,
        w,
        h,
        is_local,
        scale: ratio(scale),
    }
}

fn local() -> Screen {
    screen("A", 0, 0, 1920, 1080, true, 1.0)
}

fn remote(name: &str, ox: i32, oy: i32, w: u32, h: u32) -> Screen {
    screen(name, ox, oy, w, h, false, 1.0)
}

fn bbox() -> (i64, i64, i64, i64) {
    (0, 0, px(1920.0), px(1080.0))
}

fn driven(name: &str, side: Side, vx: f64, vy: f64) -> RemoteCtrl {
    RemoteCtrl { name: name.into(), side, vx: px(vx), vy: px(vy), scale_ratio: RATIO_ONE }
}

#[test]
fn predict_cross_right() {
    let l = Layout { screens: vec![local(), remote("B", 1920, 0, 1920, 1080)] };
    // Cursor at the right edge moving right -> cross into B.
    assert_eq!(
        predict_cross(&l, at(1918.0, 540.0), at(10.0, 0.0)),
        Some((Side::Right, "B".to_string()))
    );
    // Not reaching the edge -> no cross.
    assert_eq!(predict_cross(&l, at(1000.0, 540.0), at(10.0, 0.0)), None);
    // Moving back inside -> no cross.
    assert_eq!(predict_cross(&l, at(1918.0, 540.0), at(-10.0, 0.0)), None);
}

#[test]
fn predict_cross_left() {
    let l = Layout { screens: vec![local(), remote("L", -1920, 0, 1920, 1080)] };
    assert_eq!(
        predict_cross(&l, at(5.0, 540.0), at(-10.0, 0.0)),
        Some((Side::Left, "L".to_string()))
    );
}

#[test]
fn predict_cross_bottom() {
    let l = Layout { screens: vec![local(), remote("D", 0, 1080, 1920, 1080)] };
    assert_eq!(
        predict_cross(&l, at(960.0, 1075.0), at(0.0, 10.0)),
        Some((Side::Bottom, "D".to_string()))
    );
}

#[test]
fn predict_cross_top() {
    let l = Layout { screens: vec![local(), remote("U", 0, -1080, 1920, 1080)] };
    assert_eq!(
        predict_cross(&l, at(960.0, 5.0), at(0.0, -10.0)),
        Some((Side::Top, "U".to_string()))
    );
}

#[test]
fn predict_cross_only_remote_neighbours() {
    // No remote screen attached -> never cross, even at the edge.
    let l = Layout { screens: vec![local()] };
    assert_eq!(predict_cross(&l, at(1918.0, 540.0), at(10.0, 0.0)), None);
}

#[test]
fn predict_cross_no_vertical_overlap() {
    // A right-hand remote that does NOT vertically overlap the local screen must not cross.
    let l = Layout { screens: vec![local(), remote("B", 1920, 2000, 1920, 1080)] };
    assert_eq!(predict_cross(&l, at(1918.0, 540.0), at(10.0, 0.0)), None);
}

#[test]
fn predict_cross_multidisplay_left_screen_to_left_remote() {
    // Two local screens side by side and a remote attached to the LEFT side of the left one.
    // Cursor on the LEFT screen near its left edge.
    let l = Layout {
        screens: vec![
            screen("L", -1920, 0, 1920, 1080, true, 1.0),
            screen("R", 0, 0, 1920, 1080, true, 1.0),
            remote("L-remote", -3840, 0, 1920, 1080),
        ],
    };
    assert_eq!(
        predict_cross(&l, at(-1918.0, 540.0), at(-10.0, 0.0)),
        Some((Side::Left, "L-remote".to_string())),
        "must cross from the left screen, not from the right one"
    );
}

#[test]
fn predict_cross_multidisplay_right_screen_to_right_remote() {
    let l = Layout {
        screens: vec![
            screen("L", -1920, 0, 1920, 1080, true, 1.0),
            screen("R", 0, 0, 1920, 1080, true, 1.0),
            remote("R-remote", 1920, 0, 1920, 1080),
        ],
    };
    assert_eq!(
        predict_cross(&l, at(1918.0, 540.0), at(10.0, 0.0)),
        Some((Side::Right, "R-remote".to_string())),
        "must cross from the right screen to the right-attached remote"
    );
}

#[test]
fn crossing_back_left_edge_returns() {
    // Secondary entered on its LEFT edge (primary to its left). Cursor mid-screen moving left
    // must NOT return; only when it reaches the left edge and keeps pushing left.
    let r = driven("B", Side::Left, 500.0, 540.0);
    assert!(!crossing_back(&r, bbox(), px(-50.0), 0), "mid-screen left move must not return");
    assert!(!crossing_back(&r, bbox(), px(50.0), 0), "right move must not return");

    let at_edge = driven("B", Side::Left, 5.0, 540.0);
    assert!(crossing_back(&at_edge, bbox(), px(-10.0), 0), "at left edge pushing left must return");
    // At the edge but moving right (into the screen) must NOT return.
    assert!(!crossing_back(&at_edge, bbox(), px(10.0), 0));
}

#[test]
fn crossing_back_right_edge_returns() {
    // Secondary entered on its RIGHT edge (primary to its right).
    let r = driven("B", Side::Right, 1915.0, 540.0);
    assert!(crossing_back(&r, bbox(), px(20.0), 0), "at right edge pushing right must return");
    assert!(!crossing_back(&r, bbox(), px(-20.0), 0), "moving left (into screen) must not return");
}

#[test]
fn crossing_back_vertical_edges() {
    let top = driven("U", Side::Top, 960.0, 5.0);
    assert!(crossing_back(&top, bbox(), 0, px(-10.0)), "at top edge pushing up must return");
    assert!(!crossing_back(&top, bbox(), 0, px(10.0)));

    let bottom = driven("D", Side::Bottom, 960.0, 1075.0);
    assert!(crossing_back(&bottom, bbox(), 0, px(10.0)), "at bottom edge pushing down must return");
    assert!(!crossing_back(&bottom, bbox(), 0, px(-10.0)));
}

#[test]
fn hotkey_scrolllock_fires_on_press_only() {
    let mut st = HotkeyState::default();
    assert!(hotkey_fired(Key::ScrollLock, true, &mut st));
    assert!(!hotkey_fired(Key::ScrollLock, false, &mut st));
}

#[test]
fn hotkey_ctrl_alt_space_fires() {
    let mut st = HotkeyState::default();
    assert!(!hotkey_fired(Key::ControlLeft, true, &mut st));
    assert!(!hotkey_fired(Key::Alt, true, &mut st));
    assert!(hotkey_fired(Key::Space, true, &mut st));
    // Releasing space must not re-fire.
    assert!(!hotkey_fired(Key::Space, false, &mut st));
}

#[test]
fn a_released_modifier_disarms_the_hotkey() {
    let mut st = HotkeyState::default();
    assert!(!hotkey_fired(Key::ControlLeft, true, &mut st));
    assert!(!hotkey_fired(Key::Alt, true, &mut st));
    assert!(!hotkey_fired(Key::Alt, false, &mut st));
    assert!(!hotkey_fired(Key::Space, true, &mut st));
}

#[test]
fn motion_scale_ratio_converts_between_scales() {
    let l = Layout {
        screens: vec![
            screen("A", 0, 0, 1470, 956, true, 2.0),
            screen("B", 1470, 0, 3072, 1920, false, 1.0),
        ],
    };
    // A Retina primary (2.0) driving a 1x secondary must send twice the delta.
    assert_eq!(
        motion_scale_ratio(&l, "B", Some(at(1460.0, 500.0)), RATIO_ONE),
        ratio(2.0),
        "retina -> 1x must double the delta"
    );
    // No location: fall back to the first local screen (still 2.0 here).
    assert_eq!(motion_scale_ratio(&l, "B", None, RATIO_ONE), ratio(2.0));
    // Same scale on both sides -> no conversion.
    assert_eq!(motion_scale_ratio(&l, "A", Some(at(10.0, 10.0)), RATIO_ONE), ratio(1.0));
    // Unknown peer -> treated as 1x.
    assert_eq!(motion_scale_ratio(&l, "nope", Some(at(10.0, 10.0)), RATIO_ONE), ratio(2.0));
    // A bogus 0 scale must be clamped, not blow up.
    let bogus = Layout { screens: vec![screen("Z", 0, 0, 100, 100, false, 0.0)] };
    let r = motion_scale_ratio(&bogus, "Z", None, RATIO_ONE);
    assert!(r > 0 && r <= MAX_SCALE_RATIO, "ratio must stay bounded, got {r}");
}

#[test]
fn manual_trim_scales_and_stays_bounded() {
    // Default trim leaves the automatic ratio untouched.
    assert_eq!(effective_ratio(ratio(2.0), Some(ratio(1.0))), ratio(2.0));
    // Halve / double the auto value.
    assert_eq!(effective_ratio(ratio(2.0), Some(ratio(0.5))), ratio(1.0));
    assert_eq!(effective_ratio(ratio(2.0), Some(ratio(1.5))), ratio(3.0));
    // Absurd input must be clamped instead of teleporting the cursor.
    assert_eq!(effective_ratio(ratio(2.0), Some(ratio(100.0))), MAX_EFFECTIVE_RATIO);
    assert_eq!(effective_ratio(ratio(2.0), Some(ratio(0.0))), MIN_EFFECTIVE_RATIO);
    assert_eq!(effective_ratio(i64::MIN, Some(i64::MAX)), MIN_EFFECTIVE_RATIO);
    assert_eq!(effective_ratio(i64::MIN, Some(i64::MIN)), MAX_EFFECTIVE_RATIO);
    assert_eq!(effective_ratio(ratio(2.0), None), ratio(2.0), "no number must fall back to 1");
}

#[test]
fn the_manual_trim_is_kept_within_bounds() {
    let mut c = Ctrl::default();
    set_motion_scale(&mut c, Some(ratio(100.0)));
    assert_eq!(c.motion_scale, MAX_EFFECTIVE_RATIO);
    set_motion_scale(&mut c, Some(0));
    assert_eq!(c.motion_scale, MIN_EFFECTIVE_RATIO);
    set_motion_scale(&mut c, None);
    assert_eq!(c.motion_scale, RATIO_ONE);
}

#[test]
fn the_local_screen_under_the_cursor_is_found() {
    let l = Layout {
        screens: vec![
            screen("L", -1920, 0, 1920, 1080, true, 1.0),
            screen("R", 0, 0, 1920, 1080, true, 1.0),
            remote("X", 1920, 0, 800, 600),
        ],
    };
    assert_eq!(local_screen_at(&l, px(-10.0), px(10.0)), Some(0));
    assert_eq!(local_screen_at(&l, px(10.0), px(10.0)), Some(1));
}

#[test]
fn a_screen_is_attached_on_the_side_where_it_lies() {
    assert_eq!(attached_side(&remote("B", 1920, 0, 800, 600), bbox()), Some(Side::Right));
    assert_eq!(attached_side(&remote("B", -800, 0, 800, 600), bbox()), Some(Side::Left));
    assert_eq!(attached_side(&remote("B", 0, -600, 800, 600), bbox()), Some(Side::Top));
    assert_eq!(attached_side(&remote("B", 0, 1080, 800, 600), bbox()), Some(Side::Bottom));
    assert_eq!(attached_side(&remote("B", 100, 100, 800, 600), bbox()), None);
}

#[test]
fn a_driven_cursor_stays_on_the_displays() {
    let screens = vec![local()];
    let (x, y) = step_local(&screens, Some(bbox()), px(1900.0), px(1070.0), px(500.0), px(500.0));
    assert_eq!((x, y), at(1919.0, 1079.0));
}

#[test]
fn injected_motion_counts_from_the_real_cursor() {
    assert_eq!(inject_relative(Some(bbox()), Some(at(10.0, 20.0)), px(5.0), px(-5.0)), at(15.0, 15.0));
    assert_eq!(inject_relative(Some(bbox()), Some(at(10.0, 20.0)), px(-50.0), 0), at(0.0, 20.0));
    assert_eq!(inject_relative(None, None, px(3.0), px(4.0)), at(3.0, 4.0));
}

#[test]
fn every_edge_faces_another() {
    for s in [Side::Right, Side::Left, Side::Top, Side::Bottom] {
        assert_eq!(s.opposite().opposite(), s);
        assert_ne!(s.opposite(), s);
    }
    assert_eq!(Side::Right.opposite(), Side::Left);
    assert_eq!(Side::Top.opposite(), Side::Bottom);
}
