//! Noise-authenticated UDP forwarding, forward links only. A session is known by
//! its source address; it is over once nothing has moved for a while, because
//! UDP has no close signal.

pub mod client;
pub mod server;

use crate::config::{LinkMode, Role};
use vstd::prelude::*;

verus! {

/// The largest datagram.
pub const MAX_DATAGRAM: usize = 65535;

/// How long a session may be idle before it is dropped, in seconds.
pub const IDLE_TIMEOUT_SECS: u64 = 60;

/// What a link's traffic is carried by.
#[derive(Debug, Clone, Copy, PartialEq, Eq, Structural)]
pub enum Transport {
    /// A stream.
    Tcp,
    /// Datagrams.
    Udp,
}

/// One forwarded port, and what carries its traffic.
#[derive(Debug, Clone)]
pub struct UdpLink {
    /// The name that both sides know the link by.
    pub id: String,
    /// Which way the link carries traffic.
    pub mode: LinkMode,
    /// What carries it.
    pub transport: Transport,
    /// Present on the side that accepts the real traffic.
    pub listen: Option<String>,
    /// Present on the side that dials the real destination.
    pub target: Option<String>,
}

/// What the UDP roles need of a configuration.
#[derive(Debug, Clone)]
pub struct UdpConfig {
    /// Server role: where datagrams are accepted.
    pub listen_udp: Option<String>,
    /// Client role: where the server accepts datagrams.
    pub server_udp_addr: Option<String>,
    /// The forwarded ports.
    pub links: Vec<UdpLink>,
}

/// What a `UdpLink` says.
#[verifier::ext_equal]
pub struct UdpLinkModel {
    pub id: Seq<char>,
    pub mode: LinkMode,
    pub transport: Transport,
    pub listen: Option<Seq<char>>,
    pub target: Option<Seq<char>>,
}

impl View for UdpLink {
    type V = UdpLinkModel;

    open spec fn view(&self) -> UdpLinkModel {
        UdpLinkModel {
            id: self.id@,
            mode: self.mode,
            transport: self.transport,
            listen: self.listen.deep_view(),
            target: self.target.deep_view(),
        }
    }
}

/// What links say.
pub open spec fn udp_link_models(links: Seq<UdpLink>) -> Seq<UdpLinkModel> {
    links.map_values(|l: UdpLink| l@)
}

/// Whether a link carries datagrams from the client to the server.
pub open spec fn is_udp_forward(link: UdpLinkModel) -> bool {
    link.transport is Udp && link.mode is Forward
}

/// Whether a link carries datagrams from the client to the server.
pub fn udp_forward(link: &UdpLink) -> (r: bool)
    ensures
        r == is_udp_forward(link@),
{
    link.transport == Transport::Udp && link.mode == LinkMode::Forward
}

/// Whether a link can be served on the side `role`: a datagram link is a forward
/// link, and has the address that this side needs.
pub open spec fn is_servable_link(role: Role, link: UdpLinkModel) -> bool {
    link.transport is Udp ==> {
        &&& link.mode is Forward
        &&& match role {
            Role::Client => link.listen is Some,
            Role::Server => link.target is Some,
        }
    }
}

/// Whether all links can be served on the side `role`, which moreover has to know
/// the client's way to the server if there is any datagram link.
pub open spec fn is_servable(role: Role, server_known: bool, links: Seq<UdpLinkModel>) -> bool {
    &&& forall|i: int| 0 <= i < links.len() ==> is_servable_link(role, #[trigger] links[i])
    &&& (role is Client && exists|i: int|
        0 <= i < links.len() && (#[trigger] links[i]).transport is Udp) ==> server_known
}

/// Whether all links can be served on the side `role`. Only then do the listeners
/// of a client and the sessions of a server have the addresses that they need.
pub fn can_serve(role: Role, config: &UdpConfig) -> (r: bool)
    ensures
        r == is_servable(role, config.server_udp_addr is Some, udp_link_models(config.links@)),
        r && role is Client ==> forall|i: int|
            0 <= i < config.links@.len() && is_udp_forward((#[trigger] config.links@[i])@)
                ==> config.links@[i].listen is Some,
        r && role is Server ==> forall|i: int|
            0 <= i < config.links@.len() && is_udp_forward((#[trigger] config.links@[i])@)
                ==> config.links@[i].target is Some,
{
    let ghost models = udp_link_models(config.links@);
    let mut i: usize = 0;
    while i < config.links.len()
        invariant
            i <= config.links@.len(),
            models == udp_link_models(config.links@),
            forall|j: int| 0 <= j < i ==> is_servable_link(role, #[trigger] models[j]),
            forall|j: int|
                0 <= j < i && (#[trigger] models[j]).transport is Udp ==> role is Server
                    || config.server_udp_addr is Some,
        decreases config.links@.len() - i,
    {
        let link = &config.links[i];
        assert(models[i as int] == link@);
        if link.transport == Transport::Udp {
            let addressed = match role {
                Role::Client => link.listen.is_some() && config.server_udp_addr.is_some(),
                Role::Server => link.target.is_some(),
            };
            if link.mode != LinkMode::Forward || !addressed {
                return false;
            }
        }
        i = i + 1;
    }
    assert forall|j: int|
        0 <= j < config.links@.len() && is_udp_forward(
            (#[trigger] config.links@[j])@,
        ) implies match role {
        Role::Client => config.links@[j].listen is Some,
        Role::Server => config.links@[j].target is Some,
    } by {
        assert(models[j] == config.links@[j]@);
        assert(is_servable_link(role, models[j]));
    }
    true
}

/// A configuration can be served exactly if every datagram link is a forward link and
/// has the address of its side: a client listens somewhere and knows its server, a
/// server has a target. Links for streams do not matter.
pub proof fn law_what_can_be_served(role: Role, server_known: bool, links: Seq<UdpLinkModel>)
    ensures
        is_servable(role, server_known, links) <==> forall|i: int|
            0 <= i < links.len() && (#[trigger] links[i]).transport is Udp ==> {
                &&& links[i].mode is Forward
                &&& role is Client ==> links[i].listen is Some && server_known
                &&& role is Server ==> links[i].target is Some
            },
{
    if is_servable(role, server_known, links) {
        assert forall|i: int| 0 <= i < links.len() && (#[trigger] links[i]).transport is Udp implies {
            &&& links[i].mode is Forward
            &&& role is Client ==> links[i].listen is Some && server_known
            &&& role is Server ==> links[i].target is Some
        } by {
            assert(is_servable_link(role, links[i]));
        }
    }
}

/// A session may be idle for a minute, and a datagram is as large as one can be.
pub proof fn law_limits_of_a_session()
    ensures
        IDLE_TIMEOUT_SECS == 60,
        MAX_DATAGRAM == 65535,
{
}

/// The model of links has what the links have, one for one and in order.
pub proof fn law_model_has_what_the_links_have(links: Seq<UdpLink>, i: int)
    requires
        0 <= i < links.len(),
    ensures
        udp_link_models(links).len() == links.len(),
        ({
            let l = links[i];
            let m = udp_link_models(links)[i];
            &&& m.id == l.id@
            &&& m.mode == l.mode
            &&& m.transport == l.transport
            &&& m.listen is Some <==> l.listen is Some
            &&& l.listen is Some ==> m.listen->0 == l.listen->0@
            &&& m.target is Some <==> l.target is Some
            &&& l.target is Some ==> m.target->0 == l.target->0@
        }),
{
}

} // verus!
