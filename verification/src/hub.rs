//! What a machine does with a message that arrives: the hub keeps the layout and passes copies on,
//! a secondary is driven.

use crate::layout::{clone_panels, Layout, PanelSpec, PanelView, ScreenView, Side};
use crate::network::{Link, Net, NetView, Outgoing, OutgoingView};
use crate::protocol::{InputEvent, Message, MessageView};
use crate::text::same;
use vstd::prelude::*;
use vstd::string::*;

verus! {

/// What a machine is asked to do by a message.
#[derive(Debug, PartialEq)]
pub enum Reaction {
    /// Put the text on the local clipboard.
    ApplyText { text: String },
    /// Put the text on the local clipboard and pass it on to every peer but the sender.
    RelayText { text: String },
    /// Take a part of a file copy in; pass it on to every peer but the sender first if `relay`.
    TakeFiles { msg: Message, relay: bool },
    /// Apply forwarded input.
    Drive(InputEvent),
    /// Register the panels of a machine in the layout.
    Register { name: String, panels: Vec<PanelSpec> },
    /// Show the layout that the hub pushed.
    Adopt { layout: Layout },
    /// The cursor came in.
    Enter { side: Side, fx: i64, fy: i64 },
    /// The cursor went away.
    Leave,
    /// Rotate control to the next machine.
    Cycle,
    /// Take control back.
    TakeBack,
    /// Nothing.
    Ignore,
}

/// What a [`Reaction`] holds.
pub enum ReactionView {
    ApplyText { text: Seq<char> },
    RelayText { text: Seq<char> },
    TakeFiles { msg: MessageView, relay: bool },
    Drive(InputEvent),
    Register { name: Seq<char>, panels: Seq<PanelView> },
    Adopt { layout: Seq<ScreenView> },
    Enter { side: Side, fx: int, fy: int },
    Leave,
    Cycle,
    TakeBack,
    Ignore,
}

impl View for Reaction {
    type V = ReactionView;

    open spec fn view(&self) -> ReactionView {
        match *self {
            Reaction::ApplyText { text } => ReactionView::ApplyText { text: text@ },
            Reaction::RelayText { text } => ReactionView::RelayText { text: text@ },
            Reaction::TakeFiles { msg, relay } => ReactionView::TakeFiles { msg: msg@, relay },
            Reaction::Drive(ev) => ReactionView::Drive(ev),
            Reaction::Register { name, panels } => ReactionView::Register {
                name: name@,
                panels: crate::layout::panel_views(panels@),
            },
            Reaction::Adopt { layout } => ReactionView::Adopt { layout: layout@ },
            Reaction::Enter { side, fx, fy } => ReactionView::Enter {
                side,
                fx: fx as int,
                fy: fy as int,
            },
            Reaction::Leave => ReactionView::Leave,
            Reaction::Cycle => ReactionView::Cycle,
            Reaction::TakeBack => ReactionView::TakeBack,
            Reaction::Ignore => ReactionView::Ignore,
        }
    }
}

/// The panels that a machine reports: its list, or the one panel that its bounding box stands for
/// where it gives no list.
pub open spec fn reported_panels(
    name: Seq<char>,
    width: int,
    height: int,
    scale: int,
    panels: Seq<PanelView>,
) -> Seq<PanelView> {
    if panels.len() == 0 {
        seq![PanelView { name, ox: 0, oy: 0, w: width, h: height, scale }]
    } else {
        panels
    }
}

/// What a machine of the role `mode` is asked to do by a message.
pub open spec fn reaction(mode: Seq<char>, msg: MessageView) -> ReactionView {
    let hub = mode == "primary"@;
    let driven = mode == "secondary"@;
    match msg {
        MessageView::Clipboard { text } => if driven {
            ReactionView::ApplyText { text }
        } else {
            ReactionView::RelayText { text }
        },
        MessageView::ClipboardFiles { .. } => ReactionView::TakeFiles { msg, relay: hub },
        MessageView::FileChunk { .. } => ReactionView::TakeFiles { msg, relay: hub },
        MessageView::FileEnd { .. } => ReactionView::TakeFiles { msg, relay: hub },
        MessageView::Input(ev) => if driven {
            ReactionView::Drive(ev)
        } else {
            ReactionView::Ignore
        },
        MessageView::Hello { name, width, height, scale, panels } => if hub {
            ReactionView::Register {
                name,
                panels: reported_panels(name, width, height, scale, panels),
            }
        } else {
            ReactionView::Ignore
        },
        MessageView::Layout { layout } => if driven {
            ReactionView::Adopt { layout }
        } else {
            ReactionView::Ignore
        },
        MessageView::EnterScreen { side, fx, fy } => if driven {
            ReactionView::Enter { side, fx, fy }
        } else {
            ReactionView::Ignore
        },
        MessageView::LeaveScreen => if driven {
            ReactionView::Leave
        } else {
            ReactionView::Ignore
        },
        MessageView::Hotkey => if hub {
            ReactionView::Cycle
        } else {
            ReactionView::Ignore
        },
        MessageView::ReturnControl => if hub {
            ReactionView::TakeBack
        } else {
            ReactionView::Ignore
        },
        MessageView::Ping => ReactionView::Ignore,
    }
}

/// The panels that a machine reports when it connects. A machine that gives no panel list only
/// reports a bounding box; that is modelled as the single panel it is.
pub fn hello_specs(
    name: &str,
    width: u32,
    height: u32,
    scale: i64,
    panels: &Vec<PanelSpec>,
) -> (r: Vec<PanelSpec>)
    ensures
        crate::layout::panel_views(r@) == reported_panels(
            name@,
            width as int,
            height as int,
            scale as int,
            crate::layout::panel_views(panels@),
        ),
{
    if panels.len() == 0 {
        let mut r: Vec<PanelSpec> = Vec::new();
        let p = PanelSpec { name: name.to_owned(), ox: 0, oy: 0, w: width, h: height, scale };
        r.push(p);
        assert(crate::layout::panel_views(r@) =~= seq![p@]);
        r
    } else {
        clone_panels(panels)
    }
}

/// What a machine of the role `mode` is asked to do by a message.
pub fn react(mode: &str, msg: Message) -> (r: Reaction)
    ensures
        r@ == reaction(mode@, msg@),
{
    let hub = same(mode, "primary");
    let driven = same(mode, "secondary");
    match msg {
        Message::Clipboard { text } => if driven {
            Reaction::ApplyText { text }
        } else {
            Reaction::RelayText { text }
        },
        Message::ClipboardFiles { token, entries } => Reaction::TakeFiles {
            msg: Message::ClipboardFiles { token, entries },
            relay: hub,
        },
        Message::FileChunk { token, seq, data } => Reaction::TakeFiles {
            msg: Message::FileChunk { token, seq, data },
            relay: hub,
        },
        Message::FileEnd { token } => Reaction::TakeFiles {
            msg: Message::FileEnd { token },
            relay: hub,
        },
        Message::Input(ev) => if driven {
            Reaction::Drive(ev)
        } else {
            Reaction::Ignore
        },
        Message::Hello { name, width, height, scale, panels } => if hub {
            let specs = hello_specs(name.as_str(), width, height, scale, &panels);
            Reaction::Register { name, panels: specs }
        } else {
            Reaction::Ignore
        },
        Message::Layout { layout } => if driven {
            Reaction::Adopt { layout }
        } else {
            Reaction::Ignore
        },
        Message::EnterScreen { side, fx, fy } => if driven {
            Reaction::Enter { side, fx, fy }
        } else {
            Reaction::Ignore
        },
        Message::LeaveScreen => if driven {
            Reaction::Leave
        } else {
            Reaction::Ignore
        },
        Message::Hotkey => if hub {
            Reaction::Cycle
        } else {
            Reaction::Ignore
        },
        Message::ReturnControl => if hub {
            Reaction::TakeBack
        } else {
            Reaction::Ignore
        },
        Message::Ping => Reaction::Ignore,
    }
}

/// The hub is never driven and never takes its layout from somebody else.
pub proof fn the_hub_is_not_driven(msg: MessageView)
    ensures
        reaction("primary"@, msg) !is Drive,
        reaction("primary"@, msg) !is Enter,
        reaction("primary"@, msg) !is Leave,
        reaction("primary"@, msg) !is Adopt,
        reaction("primary"@, msg) !is ApplyText,
{
    reveal_strlit("primary");
    reveal_strlit("secondary");
    assert("primary"@.len() != "secondary"@.len());
}

/// A secondary passes nothing on, registers nobody and decides nothing about control.
pub proof fn a_secondary_decides_nothing(msg: MessageView)
    ensures
        reaction("secondary"@, msg) !is RelayText,
        reaction("secondary"@, msg) matches ReactionView::TakeFiles { relay, .. } ==> !relay,
        reaction("secondary"@, msg) !is Register,
        reaction("secondary"@, msg) !is Cycle,
        reaction("secondary"@, msg) !is TakeBack,
{
    reveal_strlit("primary");
    reveal_strlit("secondary");
    assert("primary"@.len() != "secondary"@.len());
}

/// Registers the panels of a machine, if every place they would take is a pixel coordinate.
/// Returns whether the layout changed in a way worth broadcasting.
pub fn register(layout: &mut Layout, name: &str, panels: &Vec<PanelSpec>) -> (changed: bool)
    ensures
        crate::layout::room_for(old(layout)@, name@, crate::layout::panel_views(panels@)) ==> {
            &&& final(layout)@ == crate::layout::with_host(
                old(layout)@,
                name@,
                crate::layout::panel_views(panels@),
            )
            &&& changed == crate::layout::host_changes(
                old(layout)@,
                name@,
                crate::layout::panel_views(panels@),
            )
        },
        !crate::layout::room_for(old(layout)@, name@, crate::layout::panel_views(panels@)) ==> {
            &&& final(layout)@ == old(layout)@
            &&& !changed
        },
{
    if layout.has_room_for(name, panels.as_slice()) {
        layout.ensure_host(name, panels.as_slice())
    } else {
        false
    }
}

/// The layout once a machine has introduced itself.
pub open spec fn layout_after_hello(
    layout: Seq<ScreenView>,
    name: Seq<char>,
    panels: Seq<PanelView>,
) -> Seq<ScreenView> {
    if crate::layout::room_for(layout, name, panels) {
        crate::layout::with_host(layout, name, panels)
    } else {
        layout
    }
}

/// The peers of a hub with one more, listed once.
pub open spec fn with_peer(net: NetView, name: Seq<char>) -> NetView {
    match net {
        NetView::Primary(peers) => NetView::Primary(
            if peers.contains(name) {
                peers
            } else {
                peers.push(name)
            },
        ),
        other => other,
    }
}

/// Takes a new connection in, by its first frame. The first frame must be the peer's introduction,
/// so that its name is known; a connection that starts with anything else, or with nothing that
/// could be read, is dropped and changes nothing. The peer's panels are registered before it is
/// answered, so the layout it gets already includes them and its canvas shows the primary's screen
/// (and every other machine) the instant it connects.
pub fn accept_peer(net: &mut Net, layout: &mut Layout, first: Option<Message>) -> (r: Option<
    (String, Vec<Outgoing>),
>)
    requires
        old(net)@.wf(),
    ensures
        final(net)@.wf(),
        match first {
            Some(Message::Hello { name, width, height, scale, panels }) => {
                let reported = reported_panels(
                    name@,
                    width as int,
                    height as int,
                    scale as int,
                    crate::layout::panel_views(panels@),
                );
                &&& final(layout)@ == layout_after_hello(old(layout)@, name@, reported)
                &&& final(net)@ == with_peer(old(net)@, name@)
                &&& r is Some
                &&& r matches Some(taken) ==> {
                    &&& taken.0@ == name@
                    &&& crate::network::outgoing_views(taken.1@) == seq![
                        OutgoingView {
                            to: Some(name@),
                            msg: MessageView::Layout { layout: final(layout)@ },
                        },
                    ]
                }
            },
            _ => r is None && final(net)@ == old(net)@ && final(layout)@ == old(layout)@,
        },
{
    match first {
        Some(Message::Hello { name, width, height, scale, panels }) => {
            let specs = hello_specs(name.as_str(), width, height, scale, &panels);
            let _ = register(layout, name.as_str(), &specs);
            net.add_peer(name.as_str());
            let o = Outgoing {
                to: Link::Peer(name.clone()),
                msg: Message::Layout { layout: layout.clone() },
            };
            let mut out: Vec<Outgoing> = Vec::new();
            out.push(o);
            assert(crate::network::outgoing_views(out@) =~= seq![o@]);
            Some((name, out))
        },
        _ => None,
    }
}

/// What a message is answered by on the hub: a text and the parts of a file copy are taken in and
/// passed on as they are, a machine that introduces itself is registered with the panels it reports
/// (its whole size as one panel, where it lists none), and control is rotated or taken back on
/// request. Nothing else is done.
pub proof fn the_hub_serves_everybody(
    text: Seq<char>,
    msg: MessageView,
    name: Seq<char>,
    width: int,
    height: int,
    scale: int,
    panels: Seq<PanelView>,
)
    ensures
        reaction("primary"@, MessageView::Clipboard { text }) == (ReactionView::RelayText { text }),
        msg is ClipboardFiles || msg is FileChunk || msg is FileEnd ==> reaction("primary"@, msg)
            == (ReactionView::TakeFiles { msg, relay: true }),
        reaction("primary"@, MessageView::Hotkey) is Cycle,
        reaction("primary"@, MessageView::ReturnControl) is TakeBack,
        reaction("primary"@, MessageView::Hello { name, width, height, scale, panels }) matches
            ReactionView::Register { name: who, panels: which } && who == name && {
            &&& panels.len() > 0 ==> which == panels
            &&& panels.len() == 0 ==> which.len() == 1 && which[0] == (PanelView {
                name,
                ox: 0,
                oy: 0,
                w: width,
                h: height,
                scale,
            })
        },
        msg is Input || msg is Layout || msg is EnterScreen || msg is LeaveScreen || msg is Ping
            ==> reaction("primary"@, msg) is Ignore,
{
    reveal_strlit("primary");
    reveal_strlit("secondary");
    assert("primary"@.len() != "secondary"@.len());
}

/// What a message is answered by on a secondary: input drives it as it was sent, the cursor enters
/// where the message says and leaves again, a text and the parts of a file copy are taken in, and
/// the layout of the hub is adopted. Nothing else is done.
pub proof fn a_secondary_does_as_it_is_told(
    text: Seq<char>,
    msg: MessageView,
    ev: InputEvent,
    side: Side,
    fx: int,
    fy: int,
    layout: Seq<ScreenView>,
)
    ensures
        reaction("secondary"@, MessageView::Input(ev)) == ReactionView::Drive(ev),
        reaction("secondary"@, MessageView::EnterScreen { side, fx, fy }) == (ReactionView::Enter {
            side,
            fx,
            fy,
        }),
        reaction("secondary"@, MessageView::LeaveScreen) is Leave,
        reaction("secondary"@, MessageView::Layout { layout }) == (ReactionView::Adopt { layout }),
        reaction("secondary"@, MessageView::Clipboard { text }) == (ReactionView::ApplyText {
            text,
        }),
        msg is ClipboardFiles || msg is FileChunk || msg is FileEnd ==> reaction("secondary"@, msg)
            == (ReactionView::TakeFiles { msg, relay: false }),
        msg is Hello || msg is Hotkey || msg is ReturnControl || msg is Ping ==> reaction(
            "secondary"@,
            msg,
        ) is Ignore,
{
    reveal_strlit("primary");
    reveal_strlit("secondary");
    assert("primary"@.len() != "secondary"@.len());
}

/// A peer that was taken in can be reached, once, and nobody else is gained or lost.
pub proof fn a_peer_that_is_taken_in_is_reached(
    peers: Seq<Seq<char>>,
    name: Seq<char>,
    other: Seq<char>,
)
    requires
        peers.no_duplicates(),
        other != name,
    ensures
        with_peer(NetView::Primary(peers), name) matches NetView::Primary(after) && {
            &&& after.contains(name)
            &&& after.no_duplicates()
            &&& after.contains(other) <==> peers.contains(other)
        },
        with_peer(NetView::Secondary, name) is Secondary,
        with_peer(NetView::Idle, name) is Idle,
{
    let after = peers.push(name);
    if !peers.contains(name) {
        assert(after[peers.len() as int] == name);
        if peers.contains(other) {
            let i = choose|i: int| 0 <= i < peers.len() && peers[i] == other;
            assert(after[i] == other);
        }
    }
}

} // verus!
