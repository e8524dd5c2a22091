//! The settings that survive a restart: name, role, network address, screen layout.

use crate::geom::RATIO_ONE;
use crate::layout::{Layout, Screen, ScreenView};
use crate::machine::{detect_primary_layout, restore_remotes, Display, FALLBACK_HEIGHT, FALLBACK_WIDTH};
use crate::text::{path_beneath, same};
use vstd::prelude::*;
use vstd::string::*;

verus! {

/// TCP port the primary listens on unless told otherwise.
pub const DEFAULT_PORT: u16 = 49152;

/// The settings of one machine.
#[derive(Debug, PartialEq)]
pub struct Config {
    /// This machine's unique name (used as the screen id in the layout).
    pub name: String,
    /// "primary" = machine with the physical mouse/keyboard (the hub/server).
    /// "secondary" = receives input from the primary (the client).
    pub mode: String,
    /// For secondaries: `host:port` of the primary.
    pub server_addr: String,
    /// TCP port the primary listens on.
    pub port: u16,
    /// The full multi-machine screen layout (edited in the GUI, shared by all machines).
    pub layout: Layout,
    /// Name of the machine that acts as primary (must equal that machine's `name`).
    pub primary_name: String,
    /// UI language: "zh" (default) or "en".
    pub lang: String,
    /// Extra multiplier, in millionths, applied on top of the **automatically derived**
    /// forwarded-delta ratio. One whole = pure auto. Because a scale factor is only a proxy for
    /// real pixel density, the auto value can feel off on mismatched monitors; this lets the user
    /// trim it. Clamped to a sane range on use.
    pub motion_scale: i64,
}

impl Clone for Config {
    fn clone(&self) -> (r: Self)
        ensures
            r.name@ == self.name@,
            r.mode@ == self.mode@,
            r.server_addr@ == self.server_addr@,
            r.port == self.port,
            r.layout@ == self.layout@,
            r.primary_name@ == self.primary_name@,
            r.lang@ == self.lang@,
            r.motion_scale == self.motion_scale,
    {
        Config {
            name: self.name.clone(),
            mode: self.mode.clone(),
            server_addr: self.server_addr.clone(),
            port: self.port,
            layout: self.layout.clone(),
            primary_name: self.primary_name.clone(),
            lang: self.lang.clone(),
            motion_scale: self.motion_scale,
        }
    }
}

/// The language of a configuration that names none.
pub fn default_lang() -> (r: String)
    ensures
        r@ == "zh"@,
{
    "zh".to_owned()
}

/// The speed trim of a configuration that names none.
pub fn default_motion_scale() -> (r: i64)
    ensures
        r == RATIO_ONE,
{
    RATIO_ONE
}

/// The one screen of a machine that has not been set up yet.
pub open spec fn first_screen(host: Seq<char>) -> ScreenView {
    ScreenView {
        name: host,
        host,
        ox: 0,
        oy: 0,
        w: FALLBACK_WIDTH as int,
        h: FALLBACK_HEIGHT as int,
        is_local: true,
        scale: RATIO_ONE as int,
    }
}

impl Config {
    /// The settings of a machine that has not been set up yet: a primary with one screen, named
    /// after the host.
    pub fn for_host(host: &str) -> (r: Config)
        ensures
            r.name@ == host@,
            r.mode@ == "primary"@,
            r.server_addr@ == "192.168.1.100:49152"@,
            r.port == DEFAULT_PORT,
            r.layout@ == seq![first_screen(host@)],
            r.primary_name@ == host@,
            r.lang@ == "zh"@,
            r.motion_scale == RATIO_ONE,
    {
        let mut screens: Vec<Screen> = Vec::new();
        screens.push(
            Screen {
                name: host.to_owned(),
                host: host.to_owned(),
                ox: 0,
                oy: 0,
                w: FALLBACK_WIDTH,
                h: FALLBACK_HEIGHT,
                is_local: true,
                scale: RATIO_ONE,
            },
        );
        let layout = Layout { screens };
        assert(layout@ =~= seq![first_screen(host@)]);
        Config {
            name: host.to_owned(),
            mode: "primary".to_owned(),
            server_addr: "192.168.1.100:49152".to_owned(),
            port: DEFAULT_PORT,
            layout,
            primary_name: host.to_owned(),
            lang: default_lang(),
            motion_scale: default_motion_scale(),
        }
    }

    /// Whether this machine is the hub.
    pub fn is_primary(&self) -> (r: bool)
        ensures
            r == (self.mode@ == "primary"@),
    {
        same(self.mode.as_str(), "primary")
    }

    /// The layout that the machine starts with. On the **primary** its own panels are always taken
    /// from the displays that the OS reports, and the *remote* panels are restored from the saved
    /// layout; a secondary shows the saved layout until the hub pushes a newer one.
    pub fn starting_layout(&self, displays: &Vec<Display>) -> (r: Layout)
        ensures
            r@ == (if self.mode@ == "primary"@ {
                crate::machine::restored(
                    crate::machine::own_panels(self.primary_name@, displays@),
                    self.layout@,
                )
            } else {
                self.layout@
            }),
    {
        if self.is_primary() {
            let mut l = detect_primary_layout(self.primary_name.as_str(), displays);
            restore_remotes(&mut l, &self.layout);
            l
        } else {
            self.layout.clone()
        }
    }

    /// The displays of this machine itself: the starting layout on a primary, what the OS reports
    /// on a secondary.
    pub fn own_layout(&self, displays: &Vec<Display>) -> (r: Layout)
        ensures
            r@ == (if self.mode@ == "primary"@ {
                crate::machine::restored(
                    crate::machine::own_panels(self.primary_name@, displays@),
                    self.layout@,
                )
            } else {
                crate::machine::own_panels(self.name@, displays@)
            }),
    {
        if self.is_primary() {
            self.starting_layout(displays)
        } else {
            detect_primary_layout(self.name.as_str(), displays)
        }
    }

    /// Notes the address at which the primary can be reached, so that the GUI shows one that other
    /// machines can connect to.
    pub fn note_own_ip(&mut self, ip: &str)
        ensures
            final(self).server_addr@ == (if old(self).mode@ == "primary"@ {
                ip@ + ":"@ + crate::text::decimal(old(self).port as nat)
            } else {
                old(self).server_addr@
            }),
            final(self).name@ == old(self).name@,
            final(self).mode@ == old(self).mode@,
            final(self).port == old(self).port,
            final(self).layout@ == old(self).layout@,
            final(self).primary_name@ == old(self).primary_name@,
            final(self).lang@ == old(self).lang@,
            final(self).motion_scale == old(self).motion_scale,
    {
        if self.is_primary() {
            let mut addr = ip.to_owned();
            addr.append(":");
            crate::text::push_decimal(&mut addr, self.port as u64);
            self.server_addr = addr;
        }
    }
}

/// The file that the settings are kept in, below the configuration directory `dir`.
pub fn config_path(dir: &str) -> (r: String)
    ensures
        r@ == crate::text::beneath(dir@, "config.json"@),
{
    path_beneath(dir, "config.json")
}

} // verus!
