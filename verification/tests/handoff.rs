//! The whole hand-off between a primary and a secondary, with the link between them played by the
//! hub's own routing.

use mouseshare::control::{
    cycle_control, on_capture, on_enter_screen, on_leave_screen, on_secondary_input,
    return_control, CaptureMode, Ctrl, Effect, GrabCtx, RawInput, RETURN_COOLDOWN_MS,
};
use mouseshare::activity::{read_activity, Tone};
use mouseshare::geom::{RATIO_ONE, SUBPX};
use mouseshare::hub::accept_peer;
use mouseshare::i18n::{tr_event, Lang};
use mouseshare::layout::{Layout, Screen, Side};
use mouseshare::network::{Link, Net};
use mouseshare::protocol::{InputEvent, Key, Message, MsButton};

fn px(v: f64) -> i64 {
    (v * SUBPX as f64).round() as i64
}

fn at(x: f64, y: f64) -> Option<(i64, i64)> {
    Some((px(x), px(y)))
}

fn motion(dx: f64, dy: f64) -> RawInput {
    RawInput::Motion { dx: px(dx), dy: px(dy) }
}

fn screen(name: &str, ox: i32, w: u32, h: u32, is_local: bool, scale: i64) -> Screen {
    Screen { name: name.into(), host: String::new(), ox, oy: 0, w, h, is_local, scale }
}

/// A primary and a secondary, linked.
struct Pair {
    p: GrabCtx,
    s: GrabCtx,
    hub: Net,
    link: Net,
    /// What the secondary sent up to the primary.
    up: Vec<Message>,
}

impl Pair {
    fn new(primary: Layout, secondary: Layout) -> Pair {
        let mut hub = Net::hub();
        let mut layout = primary;
        let own = &secondary.screens[0];
        let hello = Message::Hello {
            name: "B".to_string(),
            width: own.w,
            height: own.h,
            scale: own.scale,
            panels: Vec::new(),
        };
        let taken = accept_peer(&mut hub, &mut layout, Some(hello)).expect("the peer is taken in");
        assert_eq!(taken.0, "B");
        assert!(hub.peer_count() > 0, "secondary must be registered with the hub");
        let mut p = GrabCtx::new("A", "A", true);
        p.set_local_displays(&layout);
        p.set_layout(layout);
        let mut s = GrabCtx::new("B", "A", true);
        s.set_local_displays(&secondary);
        s.set_layout(secondary);
        Pair { p, s, hub, link: Net::Secondary, up: Vec::new() }
    }

    /// Screen A of the primary with B to its right; B's own screen on the secondary.
    fn plain() -> Pair {
        Pair::new(
            Layout {
                screens: vec![
                    screen("A", 0, 1920, 1080, true, RATIO_ONE),
                    screen("B", 1920, 1920, 1080, false, RATIO_ONE),
                ],
            },
            Layout { screens: vec![screen("B", 0, 1920, 1080, true, RATIO_ONE)] },
        )
    }

    /// The same with a Retina primary.
    fn hidpi() -> Pair {
        Pair::new(
            Layout {
                screens: vec![
                    screen("A", 0, 1470, 956, true, 2 * RATIO_ONE),
                    screen("B", 1470, 3072, 1920, false, RATIO_ONE),
                ],
            },
            Layout { screens: vec![screen("B", 0, 3072, 1920, true, RATIO_ONE)] },
        )
    }

    /// Lets the primary see an event, hands what it sends to the secondary, and returns whether the
    /// event was dropped and what the secondary received.
    fn capture(&mut self, raw: RawInput, loc: Option<(i64, i64)>, now: u64) -> (bool, Vec<Message>) {
        let (dropped, fx) = on_capture(&mut self.p, &self.hub, raw, loc, loc, now);
        (dropped, self.deliver(fx))
    }

    fn give_back(&mut self, now: u64) -> Vec<Message> {
        let fx = return_control(&mut self.p, now);
        self.deliver(fx)
    }

    fn deliver(&mut self, fx: Vec<Effect>) -> Vec<Message> {
        let mut got = Vec::new();
        for e in fx {
            if let Effect::Send { target, msg } = e {
                for o in self.hub.send_to(&target, msg) {
                    assert_eq!(o.to, Link::Peer("B".to_string()));
                    let done = match &o.msg {
                        Message::EnterScreen { side, fx, fy } => {
                            on_enter_screen(&mut self.s, *side, *fx, *fy)
                        }
                        Message::LeaveScreen => on_leave_screen(&mut self.s),
                        Message::Input(ev) => on_secondary_input(&mut self.s, *ev),
                        _ => Vec::new(),
                    };
                    for d in done {
                        if let Effect::Reply(m) = d {
                            for u in self.link.send_message(m) {
                                assert_eq!(u.to, Link::Hub);
                                self.up.push(u.msg);
                            }
                        }
                    }
                    got.push(o.msg);
                }
            }
        }
        got
    }

    fn cursor(&self) -> (i64, i64) {
        let r = self.s.ctrl.remote.as_ref().expect("secondary should be driven");
        (r.vx, r.vy)
    }
}

#[test]
fn handoff_over_tcp() {
    let mut t = Pair::plain();

    // Primary cursor near the right edge moving right -> predict crossing into B.
    let (dropped, msgs) = t.capture(motion(100.0, 0.0), at(1918.0, 540.0), 0);
    assert!(dropped, "event must be dropped while forwarding");
    assert!(
        msgs.iter().any(|m| matches!(m, Message::EnterScreen { .. })),
        "secondary must receive EnterScreen"
    );
    assert!(
        msgs.iter().any(|m| matches!(m, Message::Input(InputEvent::MouseMotion { dx, dy })
            if *dx == px(100.0) && *dy == 0)),
        "secondary must receive the forwarded MouseMotion"
    );

    // Secondary seeds its virtual cursor on the OPPOSITE edge of the primary's side. The primary
    // crossed its Right edge into B, so B receives it on its Left edge (x = left + 2).
    let side = t.s.ctrl.remote.as_ref().expect("secondary should be driven").side;
    assert_eq!(side, Side::Left, "secondary enters on its Left edge");
    let (vx, vy) = t.cursor();
    assert!((vx - px(102.0)).abs() < SUBPX / 2, "vx={vx}");
    assert!((vy - px(540.0)).abs() < SUBPX / 2, "vy={vy}");

    // A leftward move while the secondary is mid-screen must NOT return control.
    let (dropped2, msgs2) = t.capture(motion(-50.0, 0.0), at(1919.0, 540.0), 10);
    assert!(dropped2, "leftward motion mid-screen must STILL be forwarded/dropped");
    assert!(
        matches!(&t.p.mode, CaptureMode::Forwarding(n) if n == "B"),
        "primary must remain forwarding after a mid-screen left move"
    );
    assert!(
        !msgs2.iter().any(|m| matches!(m, Message::LeaveScreen)),
        "no LeaveScreen on a mid-screen left move"
    );
    // The secondary moved left from 102 -> 52, well inside the screen.
    assert!((t.cursor().0 - px(52.0)).abs() < SUBPX / 2, "secondary cursor should track the left move");

    // The secondary (or the primary, on a disconnect) asks for control back.
    let msgs3 = t.give_back(20);
    assert!(
        msgs3.iter().any(|m| matches!(m, Message::LeaveScreen)),
        "secondary must receive LeaveScreen"
    );
    assert!(t.p.ctrl.remote.is_none(), "primary remote cleared");
    assert!(t.s.ctrl.remote.is_none(), "secondary remote cleared");
    assert!(t.p.ctrl.cooldown_until.is_some(), "primary cooldown must be armed on return");
}

#[test]
fn edge_return_roundtrip() {
    let mut t = Pair::plain();

    // Cross over right.
    t.capture(motion(100.0, 0.0), at(1918.0, 540.0), 0);

    // Drive the cursor left, but not to the edge: no ReturnControl should be produced.
    t.capture(motion(-50.0, 0.0), at(1919.0, 540.0), 10);
    assert!(t.up.is_empty(), "no ReturnControl while the secondary is still mid-screen");

    // Drive left past the left edge: the secondary detects crossing-back and sends ReturnControl.
    t.capture(motion(-100.0, 0.0), at(1919.0, 540.0), 20);
    assert!(
        t.up.iter().any(|m| matches!(m, Message::ReturnControl)),
        "secondary must send ReturnControl to the primary"
    );

    // The primary's message handler calls return_control -> control returns.
    let msgs = t.give_back(30);
    assert!(
        msgs.iter().any(|m| matches!(m, Message::LeaveScreen)),
        "secondary receives LeaveScreen after ReturnControl"
    );
    assert!(t.p.ctrl.remote.is_none(), "primary back to local");
}

#[test]
fn cooldown_blocks_recross() {
    let mut t = Pair::plain();
    t.capture(motion(100.0, 0.0), at(1918.0, 540.0), 0);
    t.give_back(10);
    assert!(t.p.ctrl.cooldown_until.is_some(), "cooldown armed after return");

    // Immediate re-cross attempt must be suppressed by the cooldown.
    let (dropped, msgs) = t.capture(motion(100.0, 0.0), at(1918.0, 540.0), 11);
    assert!(!dropped, "cooldown must suppress immediate re-handoff");
    assert!(t.p.ctrl.remote.is_none(), "still local during cooldown");
    assert!(
        !msgs.iter().any(|m| matches!(m, Message::EnterScreen { .. })),
        "no re-enter during cooldown"
    );

    // Once it is over the cursor crosses again.
    let (dropped, _) = t.capture(motion(100.0, 0.0), at(1918.0, 540.0), 10 + RETURN_COOLDOWN_MS);
    assert!(dropped);
}

#[test]
fn held_keys_released_on_leave() {
    let mut t = Pair::plain();
    t.capture(motion(100.0, 0.0), at(1918.0, 540.0), 0);

    // Hold a key while forwarding.
    t.capture(RawInput::KeyDown(Key::KeyA), None, 5);

    // Hand control back -> the held key is released first.
    let msgs = t.give_back(10);
    let keyup_idx = msgs
        .iter()
        .position(|m| matches!(m, Message::Input(InputEvent::KeyUp { key: Key::KeyA })));
    let leave_idx = msgs.iter().position(|m| matches!(m, Message::LeaveScreen));
    assert!(keyup_idx.is_some(), "remote key must be released");
    assert!(leave_idx.is_some(), "LeaveScreen must be sent");
    assert!(
        keyup_idx.unwrap() < leave_idx.unwrap(),
        "held key must be released BEFORE control leaves"
    );
}

#[test]
fn held_buttons_are_released_too() {
    let mut t = Pair::plain();
    t.capture(motion(100.0, 0.0), at(1918.0, 540.0), 0);
    t.capture(RawInput::ButtonDown(MsButton::Left), None, 5);
    let msgs = t.give_back(10);
    assert!(msgs.iter().any(|m| matches!(m, Message::Input(InputEvent::MouseUp { button: MsButton::Left }))));
    assert!(t.p.ctrl.held_buttons.is_empty());
}

#[test]
fn hotkey_enters_first_remote() {
    let mut t = Pair::plain();

    // ScrollLock in Local mode must rotate control into the first secondary (B).
    t.capture(RawInput::KeyDown(Key::ScrollLock), None, 0);
    assert!(
        matches!(&t.p.mode, CaptureMode::Forwarding(n) if n.as_str() == "B"),
        "first hotkey must hand control to B"
    );
    assert!(
        t.p.ctrl.remote.as_ref().map(|r| r.name == "B").unwrap_or(false),
        "primary remote should be B"
    );
}

#[test]
fn the_hotkey_comes_round_to_the_primary() {
    let mut t = Pair::plain();
    t.capture(RawInput::KeyDown(Key::ScrollLock), None, 0);
    let fx = cycle_control(&mut t.p, None, 5);
    let msgs = t.deliver(fx);
    assert!(msgs.iter().any(|m| matches!(m, Message::LeaveScreen)));
    assert_eq!(t.p.mode, CaptureMode::Local);
}

#[test]
fn hidpi_primary_doubles_forwarded_delta() {
    let mut t = Pair::hidpi();

    // Cross into B from the Retina primary's right edge.
    let (dropped, msgs) = t.capture(motion(100.0, 0.0), at(1468.0, 478.0), 0);
    assert!(dropped, "event must be dropped while forwarding");

    let fwd = msgs.iter().find_map(|m| match m {
        Message::Input(InputEvent::MouseMotion { dx, dy }) => Some((*dx, *dy)),
        _ => None,
    });
    let (dx, dy) = fwd.expect("secondary must receive the forwarded MouseMotion");
    // 100 logical points on a @2x primary = 200 physical pixels = 200 units on a 1x peer.
    assert!((dx - px(200.0)).abs() < SUBPX / 2, "dx must be scaled by 2.0, got {dx}");
    assert!(dy.abs() < SUBPX / 2, "dy={dy}");
    assert_eq!(
        t.p.ctrl.remote.as_ref().unwrap().scale_ratio,
        2 * RATIO_ONE,
        "scale_ratio must be captured in the RemoteCtrl"
    );
}

#[test]
fn a_lost_secondary_gives_control_back() {
    let mut t = Pair::plain();
    t.capture(motion(100.0, 0.0), at(1918.0, 540.0), 0);
    t.hub.remove_peer("B");
    let (dropped, _) = t.capture(motion(10.0, 0.0), at(1919.0, 540.0), 5);
    assert!(!dropped);
    assert_eq!(t.p.mode, CaptureMode::Local);
    assert!(t.p.ctrl.remote.is_none());
}

#[test]
fn input_is_ignored_by_a_machine_that_is_not_driven() {
    let mut t = Pair::plain();
    assert!(on_secondary_input(&mut t.s, InputEvent::KeyDown { key: Key::KeyA }).is_empty());
}

#[test]
fn keys_are_injected_on_a_driven_machine() {
    let mut t = Pair::plain();
    t.capture(motion(100.0, 0.0), at(1918.0, 540.0), 0);
    let fx = on_secondary_input(&mut t.s, InputEvent::KeyDown { key: Key::KeyA });
    assert_eq!(fx, vec![Effect::Inject(InputEvent::KeyDown { key: Key::KeyA })]);
}

#[test]
fn the_cursor_arrives_where_it_left() {
    let mut t = Pair::plain();
    // A quarter of the way down, straight through the right edge.
    t.capture(motion(2.0, 0.0), at(1919.0, 270.0), 0);
    assert_eq!(t.cursor(), (px(4.0), px(270.0)));
    // At the very end of the edge the last pixel is as far as it gets.
    let mut t = Pair::plain();
    t.capture(motion(2.0, 0.0), at(1919.0, 1080.0), 0);
    assert_eq!(t.cursor(), (px(4.0), px(1079.0)));
}

#[test]
fn a_return_leaves_no_trace_of_the_hand_off() {
    let mut t = Pair::plain();
    t.capture(motion(100.0, 0.0), at(1918.0, 540.0), 0);
    t.capture(RawInput::KeyDown(Key::KeyA), None, 5);
    t.give_back(10);
    assert_eq!(t.p.mode, CaptureMode::Local);
    assert_eq!(t.p.ctrl.parked, None);
    assert!(t.p.ctrl.held_keys.is_empty());
    assert_eq!(t.p.ctrl.cooldown_until, Some(10 + RETURN_COOLDOWN_MS));
    assert_eq!(t.p.ctrl.last_real, (px(1908.0), px(540.0)));
    assert!(t.s.ctrl.remote.is_none());
}

fn logged(fx: &[Effect]) -> Vec<String> {
    fx.iter().filter_map(|e| if let Effect::Log(l) = e { Some(l.clone()) } else { None }).collect()
}

#[test]
fn every_change_of_hands_is_logged() {
    let mut t = Pair::hidpi();
    let (_, fx) = on_capture(
        &mut t.p,
        &t.hub,
        motion(100.0, 0.0),
        at(1468.0, 478.0),
        None,
        0,
    );
    let hand_off = logged(&fx);
    assert_eq!(hand_off, ["HAND-OFF -> B side=Right park=(1469,478) scale_ratio=2.00"]);
    t.deliver(fx);
    let back = return_control(&mut t.p, 10);
    assert_eq!(logged(&back), ["RETURN <- B"]);
    assert_eq!(logged(&return_control(&mut t.p, 11)), [""; 0]);

    // The window reads these lines back.
    let crossed = tr_event(Lang::En, &hand_off[0]).unwrap();
    assert_eq!(crossed.0, "Mouse crossed to the other machine");
    let returned = tr_event(Lang::En, "RETURN <- B").unwrap();
    assert_eq!(returned.0, "Mouse returned to this machine");
    let feed = read_activity(&format!("5 {}\n", hand_off[0]), 10, 3);
    assert_eq!(feed[0].tone, Tone::Handoff);
}

#[test]
fn a_driven_machine_logs_too() {
    let mut t = Pair::plain();
    let fx = on_enter_screen(&mut t.s, Side::Right, 0, 1 << 31);
    assert_eq!(logged(&fx), ["ENTER <- primary side=Left seed=(2,540)"]);
    let push = InputEvent::MouseMotion { dx: px(-10.0), dy: px(0.4) };
    let fx = on_secondary_input(&mut t.s, push);
    assert_eq!(logged(&fx), ["EDGE-RETURN side=Left v=(2,540) d=(-10,0)"]);
    assert!(fx.contains(&Effect::Reply(Message::ReturnControl)));
    assert_eq!(logged(&on_leave_screen(&mut t.s)), ["LEAVE -> primary"]);
}

#[test]
fn a_control_plane_starts_at_rest() {
    let c = GrabCtx::new("A", "P", true);
    assert_eq!((c.my_name.as_str(), c.primary_name.as_str(), c.grabbing), ("A", "P", true));
    assert_eq!(c.mode, CaptureMode::Local);
    assert_eq!(c.ctrl, Ctrl::default());
    assert!(!c.ctrl.hk.ctrl && !c.ctrl.hk.alt);
}

#[test]
fn a_click_inside_the_window_takes_control_back() {
    let mut t = Pair::plain();
    t.p.set_window(Some((px(1000.0), px(400.0), px(1920.0), px(800.0))));
    // While nobody is driven the click is nobody's business.
    let (dropped, fx) =
        on_capture(&mut t.p, &t.hub, RawInput::ButtonDown(MsButton::Left), at(1500.0, 500.0), None, 0);
    assert!(!dropped && fx.is_empty());
    t.capture(motion(100.0, 0.0), at(1918.0, 540.0), 0);
    t.capture(RawInput::KeyDown(Key::KeyA), None, 1);
    // Beside the window it goes to the secondary, and so does one whose place is not known.
    assert!(t.capture(RawInput::ButtonDown(MsButton::Left), at(999.0, 540.0), 2).0);
    assert!(t.capture(RawInput::ButtonUp(MsButton::Left), at(1500.0, 540.0), 3).0);
    assert!(t.capture(RawInput::ButtonDown(MsButton::Right), None, 4).0);
    // Inside it the window gets the click, and everything held down is let go.
    let (dropped, fx) =
        on_capture(&mut t.p, &t.hub, RawInput::ButtonDown(MsButton::Left), at(1500.0, 540.0), None, 5);
    assert!(!dropped);
    let lines = logged(&fx);
    assert_eq!(lines, ["CLICK inside UI window — control returned", "RETURN <- B"]);
    assert_eq!(
        tr_event(Lang::En, &lines[0]).unwrap().0,
        "Clicked the MouseShare window — mouse control returned"
    );
    let msgs = t.deliver(fx);
    assert_eq!(
        msgs,
        [
            Message::Input(InputEvent::KeyUp { key: Key::KeyA }),
            Message::Input(InputEvent::MouseUp { button: MsButton::Right }),
            Message::LeaveScreen,
        ]
    );
    assert_eq!(t.p.mode, CaptureMode::Local);
}
