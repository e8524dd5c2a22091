//! LAN peer discovery: the primary periodically broadcasts a tiny beacon, and secondaries listen
//! and learn the primary's IP and port automatically.

use crate::text;
use crate::text::{push_decimal, same};
use vstd::prelude::*;
use vstd::string::*;

verus! {

/// UDP port the discovery beacons travel on. Deliberately distinct from the TCP hub port so the
/// two never collide and a machine can be both a listener and (elsewhere) a sender.
pub const DISCOVERY_PORT: u16 = 49153;

/// A primary seen on the LAN.
#[derive(Debug, PartialEq)]
pub struct Discovered {
    pub ip: String,
    pub port: u16,
    pub name: String,
}

/// What a [`Discovered`] holds.
pub struct DiscoveredView {
    pub ip: Seq<char>,
    pub port: nat,
    pub name: Seq<char>,
}

impl View for Discovered {
    type V = DiscoveredView;

    open spec fn view(&self) -> DiscoveredView {
        DiscoveredView { ip: self.ip@, port: self.port as nat, name: self.name@ }
    }
}

impl Clone for Discovered {
    fn clone(&self) -> (r: Self)
        ensures
            r == *self,
    {
        Discovered { ip: self.ip.clone(), port: self.port, name: self.name.clone() }
    }
}

impl Discovered {
    /// `host:port`, to connect to.
    pub fn addr(&self) -> (r: String)
        ensures
            r@ == self.ip@ + ":"@ + text::decimal(self.port as nat),
    {
        let mut s = self.ip.clone();
        s.append(":");
        push_decimal(&mut s, self.port as u64);
        s
    }
}

/// What a list of primaries holds.
pub open spec fn discovered_views(v: Seq<Discovered>) -> Seq<DiscoveredView> {
    Seq::new(v.len(), |i: int| v[i]@)
}

/// Whether a primary of that address and name is in the list.
pub open spec fn listed(v: Seq<DiscoveredView>, d: DiscoveredView) -> bool {
    exists|i: int| 0 <= i < v.len() && (#[trigger] v[i]).ip == d.ip && v[i].name == d.name
}

/// Build an empty discovered list.
pub fn new_list() -> (r: Vec<Discovered>)
    ensures
        discovered_views(r@) == Seq::<DiscoveredView>::empty(),
{
    let r: Vec<Discovered> = Vec::new();
    assert(discovered_views(r@) =~= Seq::<DiscoveredView>::empty());
    r
}

/// Record a beacon: a primary joins the list unless one of the same address and name is in it.
pub fn note_discovered(list: &mut Vec<Discovered>, d: &Discovered)
    ensures
        discovered_views(final(list)@) == (if listed(discovered_views(old(list)@), d@) {
            discovered_views(old(list)@)
        } else {
            discovered_views(old(list)@).push(d@)
        }),
{
    let ghost v0 = discovered_views(list@);
    let mut i: usize = 0;
    while i < list.len()
        invariant
            i <= list.len(),
            *list == *old(list),
            v0 == discovered_views(list@),
            forall|k: int| 0 <= k < i ==> !((#[trigger] v0[k]).ip == d.ip@ && v0[k].name == d.name@),
        decreases list.len() - i,
    {
        assert(v0[i as int] == list[i as int]@);
        if same(list[i].ip.as_str(), d.ip.as_str()) && same(list[i].name.as_str(), d.name.as_str()) {
            return;
        }
        i += 1;
    }
    list.push(d.clone());
    assert(discovered_views(list@) =~= v0.push(d@));
}

/// No primary is listed twice, however often its beacon is heard.
pub open spec fn no_repeats(v: Seq<DiscoveredView>) -> bool {
    forall|i: int, j: int|
        0 <= i < v.len() && 0 <= j < v.len() && i != j ==> !((#[trigger] v[i]).ip == (#[trigger] v[j]).ip
            && v[i].name == v[j].name)
}

/// Recording a beacon keeps the list free of repeats, and the primary is then in it.
pub proof fn beacons_do_not_repeat(v: Seq<DiscoveredView>, d: DiscoveredView)
    requires
        no_repeats(v),
    ensures
        ({
            let w = if listed(v, d) {
                v
            } else {
                v.push(d)
            };
            no_repeats(w) && listed(w, d)
        }),
{
    if !listed(v, d) {
        let w = v.push(d);
        assert(w[v.len() as int] == d);
        assert(listed(w, d));
        assert forall|i: int, j: int| 0 <= i < w.len() && 0 <= j < w.len() && i != j implies !((
        #[trigger] w[i]).ip == (#[trigger] w[j]).ip && w[i].name == w[j].name) by {
            if i == v.len() {
                assert(w[j] == v[j]);
            } else if j == v.len() {
                assert(w[i] == v[i]);
            }
        }
    }
}

/// Whether a beacon leads to a connection: only when this machine is not linked and no attempt is
/// under way. The attempt is then noted.
pub fn start_connecting(linked: bool, connecting: &mut bool) -> (r: bool)
    ensures
        r == (!linked && !*old(connecting)),
        *final(connecting) == (*old(connecting) || !linked),
{
    if linked || *connecting {
        return false;
    }
    *connecting = true;
    true
}

} // verus!
