//! Wire protocol shared between the primary (server) and secondary (client) machines.
//!
//! Frames are `[u32 LE length][JSON(Message)]`, sent over a TCP stream.
//!
//! Mouse motion is forwarded as a **relative delta** (`MouseMotion { dx, dy }`), never as an
//! absolute position: relative deltas need no agreement about screen geometry, DPI or scaling
//! between the two machines, the receiver just accumulates them against its own cursor.

use crate::layout::{Layout, PanelSpec, PanelView, ScreenView, Side};
use crate::layout::clone_panels;
use vstd::prelude::*;

verus! {

/// A physical key (QWERTY layout), so that it maps consistently across machines.
#[derive(Debug, Clone, Copy, PartialEq, Eq, Structural)]
pub enum Key {
    Alt,
    AltGr,
    Backspace,
    CapsLock,
    ControlLeft,
    ControlRight,
    Delete,
    DownArrow,
    End,
    Escape,
    F1,
    F10,
    F11,
    F12,
    F2,
    F3,
    F4,
    F5,
    F6,
    F7,
    F8,
    F9,
    Home,
    LeftArrow,
    MetaLeft,
    MetaRight,
    PageDown,
    PageUp,
    Return,
    RightArrow,
    ShiftLeft,
    ShiftRight,
    Space,
    Tab,
    UpArrow,
    PrintScreen,
    ScrollLock,
    Pause,
    NumLock,
    BackQuote,
    Num1,
    Num2,
    Num3,
    Num4,
    Num5,
    Num6,
    Num7,
    Num8,
    Num9,
    Num0,
    Minus,
    Equal,
    KeyQ,
    KeyW,
    KeyE,
    KeyR,
    KeyT,
    KeyY,
    KeyU,
    KeyI,
    KeyO,
    KeyP,
    LeftBracket,
    RightBracket,
    KeyA,
    KeyS,
    KeyD,
    KeyF,
    KeyG,
    KeyH,
    KeyJ,
    KeyK,
    KeyL,
    SemiColon,
    Quote,
    BackSlash,
    IntlBackslash,
    KeyZ,
    KeyX,
    KeyC,
    KeyV,
    KeyB,
    KeyN,
    KeyM,
    Comma,
    Dot,
    Slash,
    Insert,
    KpReturn,
    KpMinus,
    KpPlus,
    KpMultiply,
    KpDivide,
    Kp0,
    Kp1,
    Kp2,
    Kp3,
    Kp4,
    Kp5,
    Kp6,
    Kp7,
    Kp8,
    Kp9,
    KpDelete,
    Function,
    Unknown(u32),
}

/// A mouse button.
#[derive(Debug, Clone, Copy, PartialEq, Eq, Structural)]
pub enum MsButton {
    Left,
    Middle,
    Right,
    Other(u8),
}

/// Everything that can be forwarded as an input event to another machine.
#[derive(Debug, Clone, Copy, PartialEq, Eq, Structural)]
pub enum InputEvent {
    /// Relative mouse motion in sub-pixels, **already normalised into the receiver's coordinate
    /// space**. The primary multiplies its own OS delta by `own_scale / receiver_scale` before
    /// sending, so a Retina primary drives a 1x secondary at the same physical cursor speed
    /// instead of half of it. The receiver adds the delta to its current cursor position and
    /// clamps to its own screen.
    MouseMotion { dx: i64, dy: i64 },
    MouseDown { button: MsButton },
    MouseUp { button: MsButton },
    /// Wheel deltas (`dy > 0` scrolls down).
    Wheel { dx: i64, dy: i64 },
    KeyDown { key: Key },
    KeyUp { key: Key },
}

/// One file inside a cross-machine clipboard copy.
///
/// `path` is relative to the copy root so nested folders survive the trip
/// (e.g. `report.pdf`, `assets/logo.png`). Directories are implicit: they are recreated on
/// the receiving side from the files they contain.
#[derive(Debug, PartialEq)]
pub struct FileEntry {
    pub path: String,
    pub size: u64,
}

/// What a [`FileEntry`] holds.
pub struct EntryView {
    pub path: Seq<char>,
    pub size: nat,
}

impl View for FileEntry {
    type V = EntryView;

    open spec fn view(&self) -> EntryView {
        EntryView { path: self.path@, size: self.size as nat }
    }
}

impl Clone for FileEntry {
    fn clone(&self) -> (r: Self)
        ensures
            r == *self,
    {
        FileEntry { path: self.path.clone(), size: self.size }
    }
}

/// What a manifest holds.
pub open spec fn entry_views(v: Seq<FileEntry>) -> Seq<EntryView> {
    Seq::new(v.len(), |i: int| v[i]@)
}

/// Copies a manifest.
pub fn clone_entries(v: &Vec<FileEntry>) -> (r: Vec<FileEntry>)
    ensures
        r@ == v@,
{
    let mut r: Vec<FileEntry> = Vec::new();
    let mut i: usize = 0;
    while i < v.len()
        invariant
            i <= v.len(),
            r@ == v@.take(i as int),
        decreases v.len() - i,
    {
        r.push(v[i].clone());
        i += 1;
        assert(r@ =~= v@.take(i as int));
    }
    assert(r@ =~= v@);
    r
}

/// Payload chunk size for file transfer: 256 KiB of raw bytes (about 350 KB once
/// base64-encoded). Large enough that a 10 MB copy is only 40 frames, small enough that a chunk
/// never blocks the input stream for a noticeable time.
pub const FILE_CHUNK: usize = 262_144;

/// Hard cap on one file copy (total bytes). Anything larger is skipped with a warning rather than
/// buffering hundreds of megabytes in memory on both machines.
pub const MAX_FILE_BYTES: u64 = 536_870_912;

/// Top-level message.
#[derive(Debug, PartialEq)]
pub enum Message {
    /// Sent immediately after connecting so the hub knows the peer's name, its screen size, the UI
    /// scale of its coordinate space (in millionths) and its full list of panels.
    Hello { name: String, width: u32, height: u32, scale: i64, panels: Vec<PanelSpec> },
    /// An input event destined for the machine that currently has control.
    Input(InputEvent),
    /// Clipboard contents (broadcast, loop-suppressed on the receiving side).
    Clipboard { text: String },
    /// The full screen layout, pushed by the primary to every secondary so all machines draw
    /// the same map.
    Layout { layout: Layout },
    /// Hint: the cursor just entered a secondary screen. `side` is the edge of the *controlling*
    /// machine that the secondary sits beyond (so the secondary seeds its own cursor at the
    /// opposite edge); `fx`/`fy` are the fractional position along that edge where the cursor
    /// crossed, used to align entry vertically/horizontally.
    EnterScreen { side: Side, fx: i64, fy: i64 },
    /// Hint: the cursor just left a secondary screen and control returned to the primary.
    LeaveScreen,
    /// Keep-alive.
    Ping,
    /// Switch hotkey pressed on a secondary: the primary rotates control to the next machine.
    Hotkey,
    /// The secondary asks the primary for control back: its virtual cursor was pushed back across
    /// the shared edge toward the primary.
    ReturnControl,
    /// The sender just copied one or more **files**. `entries` is the manifest; the bytes follow
    /// as a stream of `FileChunk` frames and the copy is closed by `FileEnd`. `token` ties the
    /// three together so two machines copying at the same time cannot interleave into one
    /// corrupted transfer.
    ClipboardFiles { token: u64, entries: Vec<FileEntry> },
    /// A base64 chunk of file data for `token`.
    FileChunk { token: u64, seq: u64, data: String },
    /// End of the file transfer for `token`.
    FileEnd { token: u64 },
}

/// What a [`Message`] holds.
pub enum MessageView {
    Hello { name: Seq<char>, width: int, height: int, scale: int, panels: Seq<PanelView> },
    Input(InputEvent),
    Clipboard { text: Seq<char> },
    Layout { layout: Seq<ScreenView> },
    EnterScreen { side: Side, fx: int, fy: int },
    LeaveScreen,
    Ping,
    Hotkey,
    ReturnControl,
    ClipboardFiles { token: u64, entries: Seq<EntryView> },
    FileChunk { token: u64, seq: u64, data: Seq<char> },
    FileEnd { token: u64 },
}

impl View for Message {
    type V = MessageView;

    open spec fn view(&self) -> MessageView {
        match *self {
            Message::Hello { name, width, height, scale, panels } => MessageView::Hello {
                name: name@,
                width: width as int,
                height: height as int,
                scale: scale as int,
                panels: crate::layout::panel_views(panels@),
            },
            Message::Input(ev) => MessageView::Input(ev),
            Message::Clipboard { text } => MessageView::Clipboard { text: text@ },
            Message::Layout { layout } => MessageView::Layout { layout: layout@ },
            Message::EnterScreen { side, fx, fy } => MessageView::EnterScreen {
                side,
                fx: fx as int,
                fy: fy as int,
            },
            Message::LeaveScreen => MessageView::LeaveScreen,
            Message::Ping => MessageView::Ping,
            Message::Hotkey => MessageView::Hotkey,
            Message::ReturnControl => MessageView::ReturnControl,
            Message::ClipboardFiles { token, entries } => MessageView::ClipboardFiles {
                token,
                entries: entry_views(entries@),
            },
            Message::FileChunk { token, seq, data } => MessageView::FileChunk {
                token,
                seq,
                data: data@,
            },
            Message::FileEnd { token } => MessageView::FileEnd { token },
        }
    }
}

impl Clone for Message {
    fn clone(&self) -> (r: Self)
        ensures
            r@ == self@,
    {
        match self {
            Message::Hello { name, width, height, scale, panels } => Message::Hello {
                name: name.clone(),
                width: *width,
                height: *height,
                scale: *scale,
                panels: clone_panels(panels),
            },
            Message::Input(ev) => Message::Input(*ev),
            Message::Clipboard { text } => Message::Clipboard { text: text.clone() },
            Message::Layout { layout } => Message::Layout { layout: layout.clone() },
            Message::EnterScreen { side, fx, fy } => Message::EnterScreen {
                side: *side,
                fx: *fx,
                fy: *fy,
            },
            Message::LeaveScreen => Message::LeaveScreen,
            Message::Ping => Message::Ping,
            Message::Hotkey => Message::Hotkey,
            Message::ReturnControl => Message::ReturnControl,
            Message::ClipboardFiles { token, entries } => Message::ClipboardFiles {
                token: *token,
                entries: clone_entries(entries),
            },
            Message::FileChunk { token, seq, data } => Message::FileChunk {
                token: *token,
                seq: *seq,
                data: data.clone(),
            },
            Message::FileEnd { token } => Message::FileEnd { token: *token },
        }
    }
}

} // verus!
