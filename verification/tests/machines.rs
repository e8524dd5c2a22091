//! Naming displays, starting up, finding each other, and taking messages in.

use mouseshare::clipboard::{
    apply_remote_files, apply_remote_text, is_clipboard, look, note_written, relay, worth_reading,
    ClipAction, ClipState,
};
use mouseshare::config::{config_path, Config};
use mouseshare::discovery::{new_list, note_discovered, start_connecting, Discovered};
use mouseshare::geom::RATIO_ONE;
use mouseshare::hub::{accept_peer, react, register, Reaction};
use mouseshare::layout::{Layout, PanelSpec, Screen, Side};
use mouseshare::machine::{
    detect_primary_layout, hello_panels, name_panels, restore_remotes, Display,
};
use mouseshare::network::{encode_batch, encode_into, frame_len, Link, Net, MAX_FRAME};
use mouseshare::protocol::{FileEntry, InputEvent, Key, Message};

#[test]
fn names_are_unique_whatever_the_display_order() {
    // External monitor (x < 0) sorts first; the built-in panel is the main display.
    assert_eq!(name_panels("mac", &[false, true]), ["mac #2", "mac"]);
    // The everyday case: the main display comes first.
    assert_eq!(name_panels("mac", &[true, false]), ["mac", "mac #2"]);
    // Main display in the middle of three.
    assert_eq!(name_panels("mac", &[false, true, false]), ["mac #2", "mac", "mac #3"]);
    // No display claims to be main (enumeration quirk): the first stands in.
    assert_eq!(name_panels("mac", &[false, false]), ["mac", "mac #2"]);
    // Single display.
    assert_eq!(name_panels("mac", &[true]), ["mac"]);
}

#[test]
fn names_never_collide_for_any_display_count() {
    for n in 1..=5usize {
        for main in 0..n {
            let mut flags = vec![false; n];
            flags[main] = true;
            let names = name_panels("m", &flags);
            assert_eq!(names.len(), n);
            assert_eq!(names[main], "m", "the main display keeps the bare name");
            let mut uniq = names.clone();
            uniq.sort();
            uniq.dedup();
            assert_eq!(uniq.len(), n, "duplicate names for {flags:?}: {names:?}");
        }
    }
}

#[test]
fn discovered_addr_formats() {
    let d = Discovered { ip: "10.0.0.5".into(), port: 49152, name: "Mac".into() };
    assert_eq!(d.addr(), "10.0.0.5:49152");
}

#[test]
fn a_beacon_is_listed_once() {
    let mut list = new_list();
    let d = Discovered { ip: "10.0.0.5".into(), port: 49152, name: "Mac".into() };
    note_discovered(&mut list, &d);
    note_discovered(&mut list, &d);
    assert_eq!(list, vec![d]);
}

#[test]
fn only_an_unlinked_machine_connects_by_itself() {
    let mut connecting = false;
    assert!(!start_connecting(true, &mut connecting));
    assert!(!connecting);
    assert!(start_connecting(false, &mut connecting));
    assert!(connecting);
    assert!(!start_connecting(false, &mut connecting));
}

fn display(x: i32, y: i32, is_main: bool) -> Display {
    Display { x, y, w: 1000, h: 800, is_main, scale: RATIO_ONE }
}

fn screen(name: &str, ox: i32, oy: i32, is_local: bool) -> Screen {
    Screen {
        name: name.into(),
        host: String::new(),
        ox,
        oy,
        w: 1000,
        h: 800,
        is_local,
        scale: RATIO_ONE,
    }
}

#[test]
fn displays_are_arranged_from_left_to_right() {
    let l = detect_primary_layout("mac", &vec![display(0, 0, true), display(-1000, 5, false), display(-1000, 0, false)]);
    let got: Vec<(&str, i32, i32)> =
        l.screens.iter().map(|s| (s.name.as_str(), s.ox, s.oy)).collect();
    assert_eq!(got, [("mac #2", -1000, 0), ("mac #3", -1000, 5), ("mac", 0, 0)]);
    assert!(l.screens.iter().all(|s| s.is_local && s.host == "mac"));
}

#[test]
fn a_machine_without_displays_gets_a_stand_in() {
    let l = detect_primary_layout("mac", &Vec::new());
    assert_eq!(l.screens.len(), 1);
    assert_eq!((l.screens[0].w, l.screens[0].h), (1920, 1080));
    assert_eq!(l.screens[0].name, "mac");
}

#[test]
fn remote_screens_stay_where_they_were_saved() {
    let mut own = Layout { screens: vec![screen("mac", 0, 0, true)] };
    let saved = Layout {
        screens: vec![
            screen("mac", 7, 7, true),
            screen("win", -1000, 0, false),
            screen("win", 1, 1, false),
            screen("mac", 2, 2, false),
        ],
    };
    restore_remotes(&mut own, &saved);
    assert_eq!(own.screens, vec![screen("mac", 0, 0, true), screen("win", -1000, 0, false)]);
}

#[test]
fn a_machine_advertises_its_panels_from_its_own_corner() {
    let own = Layout {
        screens: vec![
            screen("mac", -1000, 20, true),
            screen("mac #2", 0, 0, true),
            screen("other", 5000, 0, false),
        ],
    };
    let (w, h, scale, panels) = hello_panels(&own);
    assert_eq!((w, h, scale), (2000, 820, RATIO_ONE));
    assert_eq!(panels.len(), 2);
    assert_eq!((panels[0].ox, panels[0].oy), (0, 20));
    assert_eq!((panels[1].ox, panels[1].oy), (1000, 0));
    let (w, h, scale, panels) = hello_panels(&Layout { screens: Vec::new() });
    assert_eq!((w, h, scale), (1920, 1080, RATIO_ONE));
    assert!(panels.is_empty());
}

#[test]
fn a_new_machine_is_a_primary_with_one_screen() {
    let c = Config::for_host("mac");
    assert_eq!(c.mode, "primary");
    assert_eq!(c.server_addr, "192.168.1.100:49152");
    assert_eq!(c.port, 49152);
    assert_eq!(c.lang, "zh");
    assert_eq!(c.layout.screens.len(), 1);
    assert_eq!(c.layout.screens[0].name, "mac");
    assert_eq!(config_path("/home/me/.config"), "/home/me/.config/config.json");
    assert_eq!(config_path("."), "./config.json");
}

#[test]
fn the_primary_shows_its_own_address() {
    let mut c = Config::for_host("mac");
    c.note_own_ip("10.0.0.5");
    assert_eq!(c.server_addr, "10.0.0.5:49152");
    c.mode = "secondary".into();
    c.note_own_ip("10.0.0.9");
    assert_eq!(c.server_addr, "10.0.0.5:49152");
}

#[test]
fn a_secondary_starts_with_the_saved_layout() {
    let mut c = Config::for_host("mac");
    let d = vec![display(0, 0, true)];
    assert_eq!(c.starting_layout(&d).screens[0].w, 1000);
    c.mode = "secondary".into();
    assert_eq!(c.starting_layout(&d), c.layout);
    assert_eq!(c.own_layout(&d).screens[0].w, 1000);
}

#[test]
fn each_role_reacts_to_its_own_messages() {
    let text = |t: &str| Message::Clipboard { text: t.into() };
    assert_eq!(react("secondary", text("a")), Reaction::ApplyText { text: "a".into() });
    assert_eq!(react("primary", text("a")), Reaction::RelayText { text: "a".into() });
    let ev = InputEvent::KeyDown { key: Key::KeyA };
    assert_eq!(react("secondary", Message::Input(ev)), Reaction::Drive(ev));
    assert_eq!(react("primary", Message::Input(ev)), Reaction::Ignore);
    assert_eq!(react("primary", Message::Hotkey), Reaction::Cycle);
    assert_eq!(react("secondary", Message::Hotkey), Reaction::Ignore);
    assert_eq!(react("primary", Message::ReturnControl), Reaction::TakeBack);
    assert_eq!(react("secondary", Message::LeaveScreen), Reaction::Leave);
    assert_eq!(
        react("secondary", Message::EnterScreen { side: Side::Left, fx: 1, fy: 2 }),
        Reaction::Enter { side: Side::Left, fx: 1, fy: 2 }
    );
    assert_eq!(react("secondary", Message::Ping), Reaction::Ignore);
    let end = Message::FileEnd { token: 1 };
    assert_eq!(
        react("primary", end.clone()),
        Reaction::TakeFiles { msg: end.clone(), relay: true }
    );
    assert_eq!(
        react("secondary", end.clone()),
        Reaction::TakeFiles { msg: end, relay: false }
    );
    let l = Layout { screens: vec![screen("x", 0, 0, true)] };
    assert_eq!(
        react("secondary", Message::Layout { layout: l.clone() }),
        Reaction::Adopt { layout: l }
    );
}

fn hello(name: &str, panels: Vec<PanelSpec>) -> Message {
    Message::Hello { name: name.into(), width: 800, height: 600, scale: RATIO_ONE, panels }
}

#[test]
fn a_hello_without_panels_counts_as_one_panel() {
    assert_eq!(
        react("primary", hello("win", Vec::new())),
        Reaction::Register {
            name: "win".into(),
            panels: vec![PanelSpec {
                name: "win".into(),
                ox: 0,
                oy: 0,
                w: 800,
                h: 600,
                scale: RATIO_ONE,
            }],
        }
    );
}

#[test]
fn a_new_peer_gets_the_layout_with_itself_in_it() {
    let mut net = Net::hub();
    let mut layout = Layout { screens: vec![screen("mac", 0, 0, true)] };
    let (name, out) = accept_peer(&mut net, &mut layout, Some(hello("win", Vec::new()))).unwrap();
    assert_eq!(name, "win");
    assert!(net.has_peer("win"));
    assert_eq!(layout.screens.len(), 2);
    assert_eq!((layout.screens[1].ox, layout.screens[1].oy), (1000, 0));
    assert_eq!(out.len(), 1);
    assert_eq!(out[0].to, Link::Peer("win".into()));
    assert_eq!(out[0].msg, Message::Layout { layout: layout.clone() });
}

#[test]
fn a_peer_that_does_not_introduce_itself_is_dropped() {
    let mut net = Net::hub();
    let mut layout = Layout { screens: vec![screen("mac", 0, 0, true)] };
    assert!(accept_peer(&mut net, &mut layout, Some(Message::Ping)).is_none());
    assert!(accept_peer(&mut net, &mut layout, None).is_none());
    assert_eq!(net.peer_count(), 0);
    assert_eq!(layout.screens.len(), 1);
}

#[test]
fn a_known_machine_keeps_its_place() {
    let mut layout = Layout { screens: vec![screen("mac", 0, 0, true), screen("win", -1000, 50, false)] };
    let p = |w: u32| {
        vec![PanelSpec { name: "win".into(), ox: 0, oy: 0, w, h: 800, scale: RATIO_ONE }]
    };
    assert!(register(&mut layout, "win", &p(1280)));
    assert_eq!((layout.screens[1].ox, layout.screens[1].oy, layout.screens[1].w), (-1000, 50, 1280));
    assert!(!register(&mut layout, "win", &p(1280)));
}

#[test]
fn frames_carry_their_length() {
    let mut out = Vec::new();
    encode_into(&mut out, b"hello");
    assert_eq!(out, [5, 0, 0, 0, b'h', b'e', b'l', b'l', b'o']);
    assert_eq!(frame_len(&[5, 0, 0, 0]), Ok(5));
    let big = (MAX_FRAME as u32 + 1).to_le_bytes();
    assert_eq!(frame_len(&big), Err(MAX_FRAME + 1));
    let batch = encode_batch(&vec![b"a".to_vec(), b"bc".to_vec()]);
    assert_eq!(batch, [1, 0, 0, 0, b'a', 2, 0, 0, 0, b'b', b'c']);
}

fn hub(names: &[&str]) -> Net {
    let mut n = Net::hub();
    for p in names {
        n.add_peer(p);
    }
    n
}

fn targets(out: &[mouseshare::network::Outgoing]) -> Vec<String> {
    out.iter()
        .map(|o| match &o.to {
            Link::Peer(p) => p.clone(),
            Link::Hub => "^".to_string(),
        })
        .collect()
}

#[test]
fn messages_are_routed_by_name() {
    let n = hub(&["a", "b", "c"]);
    assert_eq!(targets(&n.broadcast_all(Message::Ping)), ["a", "b", "c"]);
    assert_eq!(targets(&n.broadcast_all_except(Message::Ping, "b")), ["a", "c"]);
    assert_eq!(targets(&n.send_to("b", Message::Ping)), ["b"]);
    assert!(n.send_to("nobody", Message::Ping).is_empty());
    assert!(n.send_message(Message::Ping).is_empty());
    assert_eq!(targets(&n.broadcast_clipboard("x", Some("a"))), ["b", "c"]);
    assert_eq!(targets(&n.broadcast_layout(&Layout { screens: Vec::new() })), ["a", "b", "c"]);
    let s = Net::Secondary;
    assert_eq!(targets(&s.broadcast_all(Message::Ping)), ["^"]);
    assert!(s.broadcast_all_except(Message::Ping, "b").is_empty());
    assert_eq!(targets(&s.send_message(Message::Hotkey)), ["^"]);
    assert!(Net::idle().broadcast_all(Message::Ping).is_empty());
    assert_eq!((n.peer_count(), s.peer_count(), Net::idle().peer_count()), (3, 1, 0));
}

#[test]
fn a_peer_that_left_is_not_reached() {
    let mut n = hub(&["a", "b"]);
    n.remove_peer("a");
    assert!(!n.has_peer("a"));
    assert!(n.has_peer("b"));
    assert!(n.send_input("a", InputEvent::KeyUp { key: Key::KeyA }).is_empty());
}

#[test]
fn what_came_from_afar_is_not_sent_back() {
    let mut st = ClipState::default();
    apply_remote_text(&mut st, "hi");
    assert_eq!(look(&mut st, None, Some("hi".into()), Vec::new()), ClipAction::Quiet);
    assert_eq!(
        look(&mut st, None, Some("there".into()), Vec::new()),
        ClipAction::SendText("there".into())
    );
    assert_eq!(look(&mut st, None, Some("there".into()), Vec::new()), ClipAction::Quiet);
    apply_remote_files(&mut st, &vec!["/tmp/a".into()], Some(3));
    assert_eq!(look(&mut st, Some(3), None, vec!["/tmp/a".into()]), ClipAction::Quiet);
}

#[test]
fn copying_the_same_file_again_sends_it_again() {
    let mut st = ClipState::default();
    let f = || vec!["/tmp/a".to_string()];
    note_written(&mut st, Some(1));
    assert!(!worth_reading(&st, Some(1)));
    assert!(worth_reading(&st, Some(2)));
    assert_eq!(look(&mut st, Some(2), None, f()), ClipAction::SendFiles(f()));
    assert_eq!(look(&mut st, Some(2), None, f()), ClipAction::Quiet);
    assert_eq!(look(&mut st, Some(3), None, f()), ClipAction::SendFiles(f()));
}

#[test]
fn the_hub_passes_the_clipboard_on() {
    let mut st = ClipState::default();
    let n = hub(&["a", "b"]);
    assert_eq!(targets(&relay(&mut st, &n, "x", "a")), ["b"]);
    assert_eq!(st.text.as_deref(), Some("x"));
    assert!(is_clipboard(&Message::Clipboard { text: "x".into() }));
    assert!(!is_clipboard(&Message::Ping));
}

#[test]
fn messages_are_copied_whole() {
    let m = Message::ClipboardFiles {
        token: 3,
        entries: vec![FileEntry { path: "a".into(), size: 4 }],
    };
    assert_eq!(m.clone(), m);
    let h = hello("x", vec![PanelSpec { name: "x".into(), ox: 1, oy: 2, w: 3, h: 4, scale: 5 }]);
    assert_eq!(h.clone(), h);
}
