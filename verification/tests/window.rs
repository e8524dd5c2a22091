//! What the window says and shows.

use mouseshare::activity::{log, log_path, read_activity, Tone};
use mouseshare::capture::{
    key_from_code, motion_to, mouse_button_from_num, tap_event, TapEvent, TapKind, TapVerdict,
    SYNTHETIC_MARK,
};
use mouseshare::clipfile::{
    drop_files, drop_names, hex, path_to_url, read_files, url_to_path, write_files,
};
use mouseshare::control::RawInput;
use mouseshare::i18n::{
    current_lang, set_lang, tr_event, tr_file_apply_failed, tr_file_nothing_to_send,
    tr_file_received, tr_file_sent, tr_file_too_big, Lang,
    Severity, WorkerLang,
};
use mouseshare::network::Net;
use mouseshare::protocol::{Key, MsButton};
use mouseshare::strings::tr;
use mouseshare::text::{decimal_string, join, replace_char, split};
use mouseshare::typeset::{ellipsize, wrap_step, Wrap};
use mouseshare::ui::{mix, tile_colors, tint, Btn, Icon, Rgba, Theme};
use mouseshare::window::{
    badge, connect_target, control_line, drain_notifications, due, fill, notify, page_for,
    standing_error, status, take_notifications, trim, Notices, Page, Permission, Status, Toast,
    MAX_NOTICES, REFRESH_MS, TOAST_MS,
};

#[test]
fn texts_are_taken_apart_and_put_together() {
    assert_eq!(split("a/b//c", '/'), ["a", "b", "", "c"]);
    assert_eq!(split("", '/'), [""]);
    assert_eq!(join(&vec!["a".into(), "b".into()], ", "), "a, b");
    assert_eq!(replace_char("a\\b", '\\', '/'), "a/b");
    assert_eq!(decimal_string(0), "0");
    assert_eq!(decimal_string(u64::MAX), "18446744073709551615");
}

#[test]
fn the_log_is_read_back() {
    let mut text = String::new();
    for (ms, msg) in [
        (1_000u64, "startup mode=primary"),
        (2_000, "HAND-OFF -> B"),
        (3_000, "something failed"),
        (4_000, "warn: slow"),
    ] {
        text.push_str(&log(ms, msg));
        text.push('\n');
    }
    let got = read_activity(&text, 3_605_000, 3);
    let seen: Vec<(&str, &str, Tone)> =
        got.iter().map(|a| (a.age.as_str(), a.msg.as_str(), a.tone)).collect();
    assert_eq!(
        seen,
        [
            ("1h", "HAND-OFF -> B", Tone::Handoff),
            ("1h", "something failed", Tone::Error),
            ("1h", "warn: slow", Tone::Warning),
        ]
    );
    assert_eq!(read_activity(&text, 65_000, 9)[0].age, "1m");
    assert_eq!(read_activity(&text, 3_000, 9)[0].age, "2s");
    // The future is now.
    assert_eq!(read_activity(&text, 0, 9)[0].age, "0s");
    // The last entry is there in any case.
    assert_eq!(read_activity(&text, 0, 0).len(), 1);
}

#[test]
fn lines_without_a_time_are_passed_over() {
    assert!(read_activity("", 0, 5).is_empty());
    assert!(read_activity("no time here\nnospace\n99999999999999999999 too large\n", 0, 5).is_empty());
    let got = read_activity("+7 plus\r\n-7 minus\n12 last", 0, 5);
    let msgs: Vec<&str> = got.iter().map(|a| a.msg.as_str()).collect();
    assert_eq!(msgs, ["plus", "last"]);
    assert_eq!(got[0].tone, Tone::Normal);
    assert_eq!(log_path("/c"), "/c/mouseshare.log");
    assert_eq!(log_path("/c/"), "/c/mouseshare.log");
}

#[test]
fn languages_are_known_by_their_codes() {
    assert_eq!(Lang::from_code("en"), Lang::En);
    assert_eq!(Lang::from_code("zh"), Lang::Zh);
    assert_eq!(Lang::from_code("fr"), Lang::Zh);
    assert_eq!(Lang::En.code(), "en");
    assert_eq!(Lang::En.toggled(), Lang::Zh);
    let mut w = WorkerLang { lang: Lang::Zh };
    set_lang(&mut w, Lang::En);
    assert_eq!(current_lang(&w), Lang::En);
    assert_eq!(tr_file_received(&w, 3), "Received 3 file(s) — ready to paste.");
    assert_eq!(tr_file_sent(&w, 1), "Sent 1 file(s) to the other machine(s).");
    assert!(tr_file_too_big(&w).contains("512 MB"));
    assert_eq!(
        tr_file_nothing_to_send(&w),
        "Nothing to send: none of the copied files could be read."
    );
    assert_eq!(
        tr_file_apply_failed(&w, 2),
        "Received 2 file(s), but could not write to the system clipboard."
    );
    assert!(Lang::En.listen_fail(49152, "in use").contains("49152"));
    assert!(Lang::En.connect_fail("10.0.0.5:1", "timeout").contains("10.0.0.5:1"));
    assert_ne!(tr(Lang::Zh).save, tr(Lang::En).save);
}

#[test]
fn log_lines_become_feed_entries() {
    assert!(tr_event(Lang::En, "startup mode=primary").is_some());
    assert_eq!(tr_event(Lang::En, "capture failed: no tap").unwrap().1, Severity::Error);
    assert_eq!(tr_event(Lang::En, "chatter"), None);
    let (text, severity) = tr_event(Lang::En, "Access DENIED").unwrap();
    assert_eq!((text.as_str(), severity), ("Access DENIED", Severity::Error));
    let long = format!("error {}", "x".repeat(300));
    assert_eq!(tr_event(Lang::En, &long).unwrap().0.chars().count(), 140);
}

fn event(kind: TapKind) -> TapEvent {
    TapEvent {
        kind,
        mark: 0,
        dx: 3,
        dy: -4,
        button: 2,
        scroll_v: 1,
        scroll_h: 0,
        keycode: 0,
        ctrl: true,
        alt: false,
    }
}

#[test]
fn tap_events_are_told_apart() {
    assert_eq!(
        tap_event(event(TapKind::MouseMoved)),
        TapVerdict::Input(RawInput::Motion { dx: 3, dy: -4 })
    );
    assert_eq!(
        tap_event(event(TapKind::OtherMouseDown)),
        TapVerdict::Input(RawInput::ButtonDown(MsButton::Middle))
    );
    assert_eq!(tap_event(event(TapKind::KeyDown)), TapVerdict::Input(RawInput::KeyDown(Key::KeyA)));
    assert_eq!(
        tap_event(event(TapKind::FlagsChanged)),
        TapVerdict::Input(RawInput::Mods { ctrl: true, alt: false })
    );
    assert_eq!(tap_event(event(TapKind::TapDisabledByTimeout)), TapVerdict::Rearm);
    assert_eq!(tap_event(event(TapKind::TapDisabledByUserInput)), TapVerdict::Release);
    assert_eq!(tap_event(event(TapKind::Other)), TapVerdict::Keep);
    let mut own = event(TapKind::MouseMoved);
    own.mark = SYNTHETIC_MARK;
    assert_eq!(tap_event(own), TapVerdict::Keep);
}

#[test]
fn codes_stand_for_keys_and_buttons() {
    assert_eq!(key_from_code(49), Key::Space);
    assert_eq!(key_from_code(60_000), Key::Unknown(60_000));
    assert_eq!(mouse_button_from_num(0), MsButton::Left);
    assert_eq!(mouse_button_from_num(1), MsButton::Right);
    assert_eq!(mouse_button_from_num(7), MsButton::Other(7));
}

#[test]
fn motion_is_measured_from_the_place_before() {
    let mut last = None;
    assert_eq!(motion_to(&mut last, 10, 20), RawInput::Motion { dx: 0, dy: 0 });
    assert_eq!(motion_to(&mut last, 13, 15), RawInput::Motion { dx: 3, dy: -5 });
}

#[test]
fn file_urls_are_read_and_written() {
    assert_eq!(url_to_path("file:///tmp/a%20b.txt").as_deref(), Some("/tmp/a b.txt"));
    assert_eq!(url_to_path("file://localhost/tmp/x").as_deref(), Some("/tmp/x"));
    assert_eq!(url_to_path("https://example.org"), None);
    assert_eq!(path_to_url("/tmp/a b.txt"), "file:///tmp/a%20b.txt");
    // What is no text comes out as the replacement character.
    assert_eq!(url_to_path("file:///%ff").as_deref(), Some("/\u{fffd}"));
    for p in ["/tmp/ü/文件.txt", "/100%", "/a+b#c?d"] {
        assert_eq!(url_to_path(&path_to_url(p)).as_deref(), Some(p));
    }
    assert_eq!(read_files(&vec!["file:///a".into(), "x".into(), "file:///b".into()]), ["/a", "/b"]);
    assert_eq!(write_files(&vec!["/a".into()]), Some(vec!["file:///a".to_string()]));
    assert_eq!(write_files(&Vec::new()), None);
    assert_eq!((hex(b'f'), hex(b'F'), hex(b'0'), hex(b'g')), (Some(15), Some(15), Some(0), None));
}

#[test]
fn file_names_are_laid_out_for_windows() {
    assert_eq!(drop_names(&vec!["a".into(), "😀".into()]), [97, 0, 0xd83d, 0xde00, 0, 0]);
    let b = drop_files(&vec!["a".into()]).unwrap();
    assert_eq!(b.len(), 20 + 6);
    assert_eq!(&b[0..4], &[20, 0, 0, 0]);
    assert_eq!(&b[16..26], &[1, 0, 0, 0, 97, 0, 0, 0, 0, 0]);
    assert_eq!(drop_files(&Vec::new()), None);
}

#[test]
fn notices_do_not_pile_up() {
    let mut n = Notices::new();
    for i in 0..20 {
        notify(&mut n, &format!("{i}"));
    }
    let got = take_notifications(&mut n);
    assert_eq!(got.len(), MAX_NOTICES);
    assert_eq!(got[7], "7");
    assert!(take_notifications(&mut n).is_empty());
}

#[test]
fn a_message_stays_for_a_while() {
    let mut n = Notices::new();
    notify(&mut n, "one");
    notify(&mut n, "two");
    let t = drain_notifications(None, &mut n, 100);
    assert_eq!(t, Some(Toast { at: 100, msg: "two".into() }));
    let t = drain_notifications(t, &mut n, 100 + TOAST_MS);
    assert!(t.is_some());
    assert_eq!(drain_notifications(t, &mut n, 101 + TOAST_MS), None);
}

#[test]
fn things_are_due_every_other_second() {
    assert!(due(None, 0));
    assert!(!due(Some(10), 9 + REFRESH_MS));
    assert!(due(Some(10), 10 + REFRESH_MS));
}

#[test]
fn only_a_secondary_has_the_discovery_page() {
    assert_eq!(page_for(Page::Discovered, "primary"), Page::Connection);
    assert_eq!(page_for(Page::Discovered, "secondary"), Page::Discovered);
    assert_eq!(page_for(Page::Status, "primary"), Page::Status);
}

#[test]
fn the_connection_is_put_into_words() {
    assert_eq!(status(&Net::hub()), Status::Serving);
    assert_eq!(status(&Net::Secondary), Status::Connected);
    assert_eq!(status(&Net::idle()), Status::Idle);
    assert_eq!(standing_error(&Net::Secondary, Some("e".into())), None);
    assert_eq!(standing_error(&Net::idle(), Some("e".into())), Some("e".to_string()));
    assert_eq!(badge(0), None);
    assert_eq!(badge(12).as_deref(), Some("12"));
    assert_eq!(fill("on {} and {}", "B"), "on B and B");
    assert_eq!(control_line("primary", Some("B"), "on {}", "here"), "on B");
    assert_eq!(control_line("primary", None, "on {}", "here"), "here");
    assert_eq!(control_line("secondary", Some("A"), "on {}", "here"), "here");
}

#[test]
fn addresses_are_trimmed() {
    assert_eq!(trim(" \t a b \u{3000}\n"), "a b");
    assert_eq!(connect_target("  10.0.0.5:1 ").as_deref(), Some("10.0.0.5:1"));
    assert_eq!(connect_target(" \u{a0}"), None);
}

#[test]
fn the_system_is_asked_once_per_failure() {
    let mut p = Permission::new();
    assert_eq!(p.frame(false), (false, false));
    assert_eq!(p.frame(true), (true, true));
    assert_eq!(p.frame(true), (true, false));
    assert!(!p.answer(false, true));
    assert_eq!(p.frame(true), (false, false));
    assert!(p.answer(true, false));
    assert_eq!(p.frame(true), (true, true));
}

#[test]
fn long_lines_are_shortened() {
    // Every character is 10 wide, the ellipsis too.
    let w = vec![10, 20, 30, 40];
    assert_eq!(ellipsize("abcde", 50, &w, 50), "abcde");
    assert_eq!(ellipsize("abcde", 50, &w, 35), "ab…");
    assert_eq!(ellipsize("abcde", 50, &w, 5), "…");
}

/// Every character is 10 wide.
fn wrap_lines(s: &str, max: usize) -> Vec<String> {
    let mut w = Wrap::new();
    for c in s.chars() {
        let fits = w.candidate(c).chars().count() * 10 <= max;
        wrap_step(&mut w, c, fits);
    }
    w.finish()
}

#[test]
fn texts_wrap_at_spaces_and_between_characters() {
    assert_eq!(wrap_lines("hello big world", 100), ["hello big", "world"]);
    assert_eq!(wrap_lines("一二三四五", 20), ["一二", "三四", "五"]);
    assert_eq!(wrap_lines("abc", 1), ["a", "b", "c"]);
    assert!(wrap_lines("", 10).is_empty());
}

#[test]
fn what_fits_is_up_to_whoever_measures() {
    let mut w = Wrap::new();
    // An empty line takes a character that does not fit.
    wrap_step(&mut w, 'a', false);
    wrap_step(&mut w, ' ', true);
    wrap_step(&mut w, 'b', true);
    assert_eq!(w.candidate('c'), "a bc");
    wrap_step(&mut w, 'c', false);
    assert_eq!(w.current, ['b', 'c']);
    assert_eq!(w.finish(), ["a", "bc"]);
    // A space in front leaves nothing to break at.
    let mut w = Wrap::new();
    wrap_step(&mut w, ' ', true);
    wrap_step(&mut w, 'b', true);
    wrap_step(&mut w, 'c', false);
    assert_eq!(w.finish(), [" b", "c"]);
}

#[test]
fn colours_follow_the_palette() {
    let light = Theme::palette(false);
    let dark = Theme::palette(true);
    assert_eq!(light.accent, Rgba { r: 0, g: 122, b: 255, a: 255 });
    assert_eq!(light.banner_error, Rgba { r: 243, g: 217, b: 220, a: 255 });
    assert_eq!(dark.banner_error, Rgba { r: 74, g: 37, b: 37, a: 255 });
    assert_eq!(light.soft_for(light.green), light.green_soft);
    assert_eq!(light.soft_for(light.accent), light.selected_fill);
    assert_eq!(light.soft_for(light.text), light.surface_alt);
    assert_eq!(tint(light.red, 9), Rgba { a: 9, ..light.red });
    let black = Rgba { r: 0, g: 0, b: 0, a: 255 };
    let white = Rgba { r: 255, g: 255, b: 255, a: 255 };
    assert_eq!(mix(black, white, 1, 2).r, 127);
    assert_eq!(mix(black, white, 0, 2), black);
    assert_eq!(mix(black, white, 2, 2), white);
    assert_ne!(tile_colors(true, false), tile_colors(false, false));
    assert_eq!(tile_colors(true, true), tile_colors(false, true));
    assert_ne!(Icon::Clock, Icon::Power);
}

#[test]
fn buttons_show_that_they_are_touched() {
    let t = Theme::palette(true);
    let (bg, fg, line) = Btn::Primary.colors(&t, true, false);
    assert_eq!(bg, Rgba { r: 25, g: 141, b: 255, a: 255 });
    assert_eq!((fg, line), (t.on_accent, None));
    assert_eq!(Btn::Primary.colors(&t, true, true).0, t.accent_hover);
    assert_eq!(Btn::Secondary.colors(&t, true, false).2, Some(t.accent_line));
    assert_eq!(Btn::Quiet.colors(&t, false, false).0.a, 0);
    assert_eq!(Btn::Danger.colors(&t, true, false).0, t.red_soft);
}
