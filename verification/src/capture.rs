//! Turning what the operating system reports into the events of the control plane.

use crate::control::RawInput;
use crate::geom;
use crate::protocol::{Key, MsButton};
use vstd::prelude::*;

verus! {

/// The mouse button that a macOS event numbers `n`.
pub open spec fn numbered_button(n: int) -> MsButton {
    if n == 0 {
        MsButton::Left
    } else if n == 1 {
        MsButton::Right
    } else if n == 2 {
        MsButton::Middle
    } else {
        MsButton::Other((n % 256) as u8)
    }
}

/// The mouse button that a macOS event numbers `n`. Of a number that has no name the low eight
/// bits are kept.
pub fn mouse_button_from_num(n: i64) -> (r: MsButton)
    ensures
        r == numbered_button(n as int),
{
    match n {
        0 => MsButton::Left,
        1 => MsButton::Right,
        2 => MsButton::Middle,
        other => {
            let low: u8 = (other & 0xff) as u8;
            assert(0 <= other & 0xff < 256) by (bit_vector);
            assert(other & 0xff == other % 256) by (bit_vector);
            MsButton::Other(low)
        },
    }
}

/// The key that a macOS key code stands for.
pub open spec fn mac_key(code: u16) -> Key {
    match code {
        58 => Key::Alt,
        61 => Key::AltGr,
        51 => Key::Backspace,
        57 => Key::CapsLock,
        59 => Key::ControlLeft,
        62 => Key::ControlRight,
        125 => Key::DownArrow,
        53 => Key::Escape,
        122 => Key::F1,
        109 => Key::F10,
        103 => Key::F11,
        111 => Key::F12,
        120 => Key::F2,
        99 => Key::F3,
        118 => Key::F4,
        96 => Key::F5,
        97 => Key::F6,
        98 => Key::F7,
        100 => Key::F8,
        101 => Key::F9,
        123 => Key::LeftArrow,
        55 => Key::MetaLeft,
        54 => Key::MetaRight,
        36 => Key::Return,
        124 => Key::RightArrow,
        56 => Key::ShiftLeft,
        60 => Key::ShiftRight,
        49 => Key::Space,
        48 => Key::Tab,
        126 => Key::UpArrow,
        50 => Key::BackQuote,
        18 => Key::Num1,
        19 => Key::Num2,
        20 => Key::Num3,
        21 => Key::Num4,
        23 => Key::Num5,
        22 => Key::Num6,
        26 => Key::Num7,
        28 => Key::Num8,
        25 => Key::Num9,
        29 => Key::Num0,
        27 => Key::Minus,
        24 => Key::Equal,
        12 => Key::KeyQ,
        13 => Key::KeyW,
        14 => Key::KeyE,
        15 => Key::KeyR,
        17 => Key::KeyT,
        16 => Key::KeyY,
        32 => Key::KeyU,
        34 => Key::KeyI,
        31 => Key::KeyO,
        35 => Key::KeyP,
        33 => Key::LeftBracket,
        30 => Key::RightBracket,
        0 => Key::KeyA,
        1 => Key::KeyS,
        2 => Key::KeyD,
        3 => Key::KeyF,
        5 => Key::KeyG,
        4 => Key::KeyH,
        38 => Key::KeyJ,
        40 => Key::KeyK,
        37 => Key::KeyL,
        41 => Key::SemiColon,
        39 => Key::Quote,
        42 => Key::BackSlash,
        6 => Key::KeyZ,
        7 => Key::KeyX,
        8 => Key::KeyC,
        9 => Key::KeyV,
        11 => Key::KeyB,
        45 => Key::KeyN,
        46 => Key::KeyM,
        43 => Key::Comma,
        47 => Key::Dot,
        44 => Key::Slash,
        63 => Key::Function,
        other => Key::Unknown(other as u32),
    }
}

/// The macOS key code that stands for a key, where one does.
pub open spec fn mac_code(k: Key) -> Option<u16> {
    match k {
        Key::Alt => Some(58),
        Key::AltGr => Some(61),
        Key::Backspace => Some(51),
        Key::CapsLock => Some(57),
        Key::ControlLeft => Some(59),
        Key::ControlRight => Some(62),
        Key::DownArrow => Some(125),
        Key::Escape => Some(53),
        Key::F1 => Some(122),
        Key::F10 => Some(109),
        Key::F11 => Some(103),
        Key::F12 => Some(111),
        Key::F2 => Some(120),
        Key::F3 => Some(99),
        Key::F4 => Some(118),
        Key::F5 => Some(96),
        Key::F6 => Some(97),
        Key::F7 => Some(98),
        Key::F8 => Some(100),
        Key::F9 => Some(101),
        Key::LeftArrow => Some(123),
        Key::MetaLeft => Some(55),
        Key::MetaRight => Some(54),
        Key::Return => Some(36),
        Key::RightArrow => Some(124),
        Key::ShiftLeft => Some(56),
        Key::ShiftRight => Some(60),
        Key::Space => Some(49),
        Key::Tab => Some(48),
        Key::UpArrow => Some(126),
        Key::BackQuote => Some(50),
        Key::Num1 => Some(18),
        Key::Num2 => Some(19),
        Key::Num3 => Some(20),
        Key::Num4 => Some(21),
        Key::Num5 => Some(23),
        Key::Num6 => Some(22),
        Key::Num7 => Some(26),
        Key::Num8 => Some(28),
        Key::Num9 => Some(25),
        Key::Num0 => Some(29),
        Key::Minus => Some(27),
        Key::Equal => Some(24),
        Key::KeyQ => Some(12),
        Key::KeyW => Some(13),
        Key::KeyE => Some(14),
        Key::KeyR => Some(15),
        Key::KeyT => Some(17),
        Key::KeyY => Some(16),
        Key::KeyU => Some(32),
        Key::KeyI => Some(34),
        Key::KeyO => Some(31),
        Key::KeyP => Some(35),
        Key::LeftBracket => Some(33),
        Key::RightBracket => Some(30),
        Key::KeyA => Some(0),
        Key::KeyS => Some(1),
        Key::KeyD => Some(2),
        Key::KeyF => Some(3),
        Key::KeyG => Some(5),
        Key::KeyH => Some(4),
        Key::KeyJ => Some(38),
        Key::KeyK => Some(40),
        Key::KeyL => Some(37),
        Key::SemiColon => Some(41),
        Key::Quote => Some(39),
        Key::BackSlash => Some(42),
        Key::KeyZ => Some(6),
        Key::KeyX => Some(7),
        Key::KeyC => Some(8),
        Key::KeyV => Some(9),
        Key::KeyB => Some(11),
        Key::KeyN => Some(45),
        Key::KeyM => Some(46),
        Key::Comma => Some(43),
        Key::Dot => Some(47),
        Key::Slash => Some(44),
        Key::Function => Some(63),
        Key::Unknown(n) => if n <= u16::MAX {
            Some(n as u16)
        } else {
            None
        },
        _ => None,
    }
}

/// Map a macOS key code to the key it stands for. A code without a name is kept as a number.
pub fn key_from_code(code: u16) -> (r: Key)
    ensures
        r == mac_key(code),
{
    match code {
        58 => Key::Alt,
        61 => Key::AltGr,
        51 => Key::Backspace,
        57 => Key::CapsLock,
        59 => Key::ControlLeft,
        62 => Key::ControlRight,
        125 => Key::DownArrow,
        53 => Key::Escape,
        122 => Key::F1,
        109 => Key::F10,
        103 => Key::F11,
        111 => Key::F12,
        120 => Key::F2,
        99 => Key::F3,
        118 => Key::F4,
        96 => Key::F5,
        97 => Key::F6,
        98 => Key::F7,
        100 => Key::F8,
        101 => Key::F9,
        123 => Key::LeftArrow,
        55 => Key::MetaLeft,
        54 => Key::MetaRight,
        36 => Key::Return,
        124 => Key::RightArrow,
        56 => Key::ShiftLeft,
        60 => Key::ShiftRight,
        49 => Key::Space,
        48 => Key::Tab,
        126 => Key::UpArrow,
        50 => Key::BackQuote,
        18 => Key::Num1,
        19 => Key::Num2,
        20 => Key::Num3,
        21 => Key::Num4,
        23 => Key::Num5,
        22 => Key::Num6,
        26 => Key::Num7,
        28 => Key::Num8,
        25 => Key::Num9,
        29 => Key::Num0,
        27 => Key::Minus,
        24 => Key::Equal,
        12 => Key::KeyQ,
        13 => Key::KeyW,
        14 => Key::KeyE,
        15 => Key::KeyR,
        17 => Key::KeyT,
        16 => Key::KeyY,
        32 => Key::KeyU,
        34 => Key::KeyI,
        31 => Key::KeyO,
        35 => Key::KeyP,
        33 => Key::LeftBracket,
        30 => Key::RightBracket,
        0 => Key::KeyA,
        1 => Key::KeyS,
        2 => Key::KeyD,
        3 => Key::KeyF,
        5 => Key::KeyG,
        4 => Key::KeyH,
        38 => Key::KeyJ,
        40 => Key::KeyK,
        37 => Key::KeyL,
        41 => Key::SemiColon,
        39 => Key::Quote,
        42 => Key::BackSlash,
        6 => Key::KeyZ,
        7 => Key::KeyX,
        8 => Key::KeyC,
        9 => Key::KeyV,
        11 => Key::KeyB,
        45 => Key::KeyN,
        46 => Key::KeyM,
        43 => Key::Comma,
        47 => Key::Dot,
        44 => Key::Slash,
        63 => Key::Function,
        other => Key::Unknown(other as u32),
    }
}

/// No two key codes stand for the same key: the code can be told from the key.
pub proof fn key_codes_are_told_apart(code: u16)
    ensures
        mac_code(mac_key(code)) == Some(code),
{
}

/// Magic value stamped on every event MouseShare synthesises.
///
/// The event tap ignores anything carrying it. That is what makes it safe to move the real cursor
/// while we are grabbing: without a tag, our own warp would come straight back through the tap and
/// look like a violent user swipe.
pub const SYNTHETIC_MARK: i64 = 0x4D53_4841_5245;

/// What kind of event the tap reports.
#[derive(Debug, Clone, Copy, PartialEq, Eq, Structural)]
pub enum TapKind {
    MouseMoved,
    LeftMouseDragged,
    RightMouseDragged,
    OtherMouseDragged,
    LeftMouseDown,
    LeftMouseUp,
    RightMouseDown,
    RightMouseUp,
    OtherMouseDown,
    OtherMouseUp,
    ScrollWheel,
    KeyDown,
    KeyUp,
    FlagsChanged,
    TapDisabledByTimeout,
    TapDisabledByUserInput,
    Other,
}

/// An event of the tap, as far as anything is read from it.
#[derive(Debug, Clone, Copy, PartialEq, Eq, Structural)]
pub struct TapEvent {
    pub kind: TapKind,
    /// The tag that the event carries.
    pub mark: i64,
    /// The motion since the event before, in sub-pixels.
    pub dx: i64,
    pub dy: i64,
    /// The number of the mouse button.
    pub button: i64,
    /// How far the wheel was turned, down and to the right.
    pub scroll_v: i64,
    pub scroll_h: i64,
    /// The key code.
    pub keycode: i64,
    /// The modifiers that are held down.
    pub ctrl: bool,
    pub alt: bool,
}

/// What an event of the tap calls for.
#[derive(Debug, Clone, Copy, PartialEq, Eq, Structural)]
pub enum TapVerdict {
    /// It is none of our business.
    Keep,
    /// It is for the control plane, which decides whether it is dropped.
    Input(RawInput),
    /// The system disabled the tap because it took too long: give control back and arm the tap
    /// again.
    Rearm,
    /// The system disabled the tap on behalf of the user: give control back, and the pointer too.
    Release,
}

/// The number of a key code: its low sixteen bits.
pub open spec fn code_number(n: int) -> u16 {
    (n % 0x1_0000) as u16
}

/// What an event of the tap calls for.
pub open spec fn verdict(ev: TapEvent) -> TapVerdict {
    if ev.mark == SYNTHETIC_MARK {
        TapVerdict::Keep
    } else {
        match ev.kind {
            TapKind::TapDisabledByTimeout => TapVerdict::Rearm,
            TapKind::TapDisabledByUserInput => TapVerdict::Release,
            TapKind::MouseMoved
            | TapKind::LeftMouseDragged
            | TapKind::RightMouseDragged
            | TapKind::OtherMouseDragged => TapVerdict::Input(
                RawInput::Motion { dx: ev.dx, dy: ev.dy },
            ),
            TapKind::LeftMouseDown => TapVerdict::Input(RawInput::ButtonDown(MsButton::Left)),
            TapKind::LeftMouseUp => TapVerdict::Input(RawInput::ButtonUp(MsButton::Left)),
            TapKind::RightMouseDown => TapVerdict::Input(RawInput::ButtonDown(MsButton::Right)),
            TapKind::RightMouseUp => TapVerdict::Input(RawInput::ButtonUp(MsButton::Right)),
            TapKind::OtherMouseDown => TapVerdict::Input(
                RawInput::ButtonDown(numbered_button(ev.button as int)),
            ),
            TapKind::OtherMouseUp => TapVerdict::Input(
                RawInput::ButtonUp(numbered_button(ev.button as int)),
            ),
            TapKind::ScrollWheel => TapVerdict::Input(
                RawInput::Wheel { dx: ev.scroll_h, dy: ev.scroll_v },
            ),
            TapKind::KeyDown => TapVerdict::Input(
                RawInput::KeyDown(mac_key(code_number(ev.keycode as int))),
            ),
            TapKind::KeyUp => TapVerdict::Input(
                RawInput::KeyUp(mac_key(code_number(ev.keycode as int))),
            ),
            TapKind::FlagsChanged => TapVerdict::Input(
                RawInput::Mods { ctrl: ev.ctrl, alt: ev.alt },
            ),
            TapKind::Other => TapVerdict::Keep,
        }
    }
}

/// The key that an event's key code stands for.
fn event_key(keycode: i64) -> (r: Key)
    ensures
        r == mac_key(code_number(keycode as int)),
{
    let low: u16 = (keycode & 0xffff) as u16;
    assert(0 <= keycode & 0xffff < 0x1_0000) by (bit_vector);
    assert(keycode & 0xffff == keycode % 0x1_0000) by (bit_vector);
    key_from_code(low)
}

/// Sort an event of the tap.
///
/// Anything we synthesised ourselves (warping the cursor back to the shared edge on a return) is
/// not user input and is passed straight through. Modifiers do not arrive as key events on macOS,
/// only as a change of flags, so their state is read from there.
pub fn tap_event(ev: TapEvent) -> (r: TapVerdict)
    ensures
        r == verdict(ev),
{
    if ev.mark == SYNTHETIC_MARK {
        return TapVerdict::Keep;
    }
    match ev.kind {
        TapKind::TapDisabledByTimeout => TapVerdict::Rearm,
        TapKind::TapDisabledByUserInput => TapVerdict::Release,
        TapKind::MouseMoved
        | TapKind::LeftMouseDragged
        | TapKind::RightMouseDragged
        | TapKind::OtherMouseDragged => TapVerdict::Input(
            RawInput::Motion { dx: ev.dx, dy: ev.dy },
        ),
        TapKind::LeftMouseDown => TapVerdict::Input(RawInput::ButtonDown(MsButton::Left)),
        TapKind::LeftMouseUp => TapVerdict::Input(RawInput::ButtonUp(MsButton::Left)),
        TapKind::RightMouseDown => TapVerdict::Input(RawInput::ButtonDown(MsButton::Right)),
        TapKind::RightMouseUp => TapVerdict::Input(RawInput::ButtonUp(MsButton::Right)),
        TapKind::OtherMouseDown => TapVerdict::Input(
            RawInput::ButtonDown(mouse_button_from_num(ev.button)),
        ),
        TapKind::OtherMouseUp => TapVerdict::Input(
            RawInput::ButtonUp(mouse_button_from_num(ev.button)),
        ),
        TapKind::ScrollWheel => TapVerdict::Input(
            RawInput::Wheel { dx: ev.scroll_h, dy: ev.scroll_v },
        ),
        TapKind::KeyDown => TapVerdict::Input(RawInput::KeyDown(event_key(ev.keycode))),
        TapKind::KeyUp => TapVerdict::Input(RawInput::KeyUp(event_key(ev.keycode))),
        TapKind::FlagsChanged => TapVerdict::Input(RawInput::Mods { ctrl: ev.ctrl, alt: ev.alt }),
        TapKind::Other => TapVerdict::Keep,
    }
}

/// What MouseShare puts into the event stream itself never reaches its own control plane.
pub proof fn our_own_events_are_passed_through(ev: TapEvent)
    requires
        ev.mark == SYNTHETIC_MARK,
    ensures
        verdict(ev) == TapVerdict::Keep,
{
}

/// The motion that a new cursor position stands for, on platforms that report positions only: the
/// way from the position before, none for the first one.
pub fn motion_to(last: &mut Option<(i64, i64)>, x: i64, y: i64) -> (r: RawInput)
    ensures
        *final(last) == Some((x, y)),
        r == (match *old(last) {
            None => RawInput::Motion { dx: 0, dy: 0 },
            Some(p) => RawInput::Motion {
                dx: geom::sat(x - p.0) as i64,
                dy: geom::sat(y - p.1) as i64,
            },
        }),
{
    let r = match *last {
        None => RawInput::Motion { dx: 0, dy: 0 },
        Some((px, py)) => RawInput::Motion {
            dx: geom::saturate(x as i128 - px as i128),
            dy: geom::saturate(y as i128 - py as i128),
        },
    };
    *last = Some((x, y));
    r
}

/// What the user does reaches the control plane as it is: a motion with both its components, also
/// while a button is held down; the wheel with both of its; a button and a key as the one that it is,
/// going down or up as it went, and the same one both times; the modifiers as they are held. Only
/// the other events are kept from it.
pub proof fn what_the_user_does_is_reported(ev: TapEvent, up: TapEvent)
    requires
        ev.mark != SYNTHETIC_MARK,
        up.mark != SYNTHETIC_MARK,
    ensures
        ev.kind == TapKind::MouseMoved || ev.kind == TapKind::LeftMouseDragged || ev.kind
            == TapKind::RightMouseDragged || ev.kind == TapKind::OtherMouseDragged ==> verdict(ev)
            == TapVerdict::Input(RawInput::Motion { dx: ev.dx, dy: ev.dy }),
        ev.kind == TapKind::ScrollWheel ==> verdict(ev) == TapVerdict::Input(
            RawInput::Wheel { dx: ev.scroll_h, dy: ev.scroll_v },
        ),
        ev.kind == TapKind::FlagsChanged ==> verdict(ev) == TapVerdict::Input(
            RawInput::Mods { ctrl: ev.ctrl, alt: ev.alt },
        ),
        ev.kind == TapKind::LeftMouseDown ==> verdict(ev) == TapVerdict::Input(
            RawInput::ButtonDown(MsButton::Left),
        ),
        ev.kind == TapKind::LeftMouseUp ==> verdict(ev) == TapVerdict::Input(
            RawInput::ButtonUp(MsButton::Left),
        ),
        ev.kind == TapKind::RightMouseDown ==> verdict(ev) == TapVerdict::Input(
            RawInput::ButtonDown(MsButton::Right),
        ),
        ev.kind == TapKind::RightMouseUp ==> verdict(ev) == TapVerdict::Input(
            RawInput::ButtonUp(MsButton::Right),
        ),
        ev.kind == TapKind::OtherMouseDown ==> (verdict(ev) matches TapVerdict::Input(raw) && {
            raw matches RawInput::ButtonDown(b) && {
                &&& ev.button == 2 ==> b == MsButton::Middle
                &&& 3 <= ev.button < 256 ==> b == MsButton::Other(ev.button as u8)
                &&& up.kind == TapKind::OtherMouseUp && up.button == ev.button ==> verdict(up)
                    == TapVerdict::Input(RawInput::ButtonUp(b))
            }
        }),
        ev.kind == TapKind::KeyDown && 0 <= ev.keycode < 0x1_0000 ==> (verdict(ev) matches
            TapVerdict::Input(raw) && {
            raw matches RawInput::KeyDown(k) && {
                &&& mac_code(k) == Some(ev.keycode as u16)
                &&& up.kind == TapKind::KeyUp && up.keycode == ev.keycode ==> verdict(up)
                    == TapVerdict::Input(RawInput::KeyUp(k))
            }
        }),
        ev.kind == TapKind::TapDisabledByTimeout ==> verdict(ev) is Rearm,
        ev.kind == TapKind::TapDisabledByUserInput ==> verdict(ev) is Release,
        ev.kind == TapKind::Other ==> verdict(ev) is Keep,
{
    if ev.kind == TapKind::KeyDown && 0 <= ev.keycode < 0x1_0000 {
        assert(code_number(ev.keycode as int) == ev.keycode as u16);
        key_codes_are_told_apart(ev.keycode as u16);
    }
}

} // verus!
