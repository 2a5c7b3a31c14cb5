//! Client role: one local socket for each link. Every local source address gets
//! a session of its own with the server.

use super::{is_udp_forward, udp_forward, udp_link_models, UdpConfig, UdpLinkModel};
use vstd::prelude::*;

verus! {

/// How long the handshake may take, in seconds. A lost datagram is not sent
/// again.
pub const HANDSHAKE_TIMEOUT_SECS: u64 = 10;

/// Everything that one running UDP client needs.
pub struct Context {
    /// The configuration, which has been validated.
    pub config: UdpConfig,
    /// This instance's own static private key.
    pub private_key: Vec<u8>,
    /// The public key of the one server that this client trusts.
    pub peer_public_key: Vec<u8>,
}

/// The names and listening addresses of the links that carry datagrams to the
/// server, in order.
pub open spec fn udp_listeners_of(links: Seq<UdpLinkModel>) -> Seq<(Seq<char>, Seq<char>)>
    decreases links.len(),
{
    if links.len() == 0 {
        Seq::empty()
    } else {
        let front = udp_listeners_of(links.drop_last());
        if is_udp_forward(links.last()) {
            front.push((links.last().id, links.last().listen->0))
        } else {
            front
        }
    }
}

/// Where to listen. Every such link has a listening address, as validation makes
/// sure.
pub fn udp_listeners(config: &UdpConfig) -> (list: Vec<(String, String)>)
    requires
        forall|i: int|
            0 <= i < config.links@.len() && is_udp_forward((#[trigger] config.links@[i])@)
                ==> config.links@[i].listen is Some,
    ensures
        crate::links::listener_models(list@) == udp_listeners_of(udp_link_models(config.links@)),
{
    let ghost models = udp_link_models(config.links@);
    let mut list: Vec<(String, String)> = Vec::new();
    let mut i: usize = 0;
    assert(models.take(0) =~= Seq::<UdpLinkModel>::empty());
    assert(crate::links::listener_models(list@) =~= udp_listeners_of(models.take(0)));
    while i < config.links.len()
        invariant
            i <= config.links@.len(),
            models == udp_link_models(config.links@),
            crate::links::listener_models(list@) == udp_listeners_of(models.take(i as int)),
            forall|i: int|
                0 <= i < config.links@.len() && is_udp_forward((#[trigger] config.links@[i])@)
                    ==> config.links@[i].listen is Some,
        decreases config.links@.len() - i,
    {
        let link = &config.links[i];
        let ghost before = crate::links::listener_models(list@);
        assert(models[i as int] == link@);
        assert(models.take(i + 1).drop_last() =~= models.take(i as int));
        assert(models.take(i + 1).last() == link@);
        if udp_forward(link) {
            if let Some(listen) = &link.listen {
                list.push((link.id.clone(), listen.clone()));
                assert(crate::links::listener_models(list@) =~= before.push((link.id@, listen@)));
            }
        }
        i = i + 1;
    }
    assert(models.take(i as int) =~= models);
    list
}

/// What happens to a flow.
pub enum FlowEvent {
    /// The local application sent a datagram.
    FromLocal(Vec<u8>),
    /// The local side is gone.
    LocalClosed,
    /// A datagram came through the tunnel.
    FromTunnel(Vec<u8>),
    /// The tunnel failed.
    TunnelFailed,
    /// Nothing has moved for a while.
    Idle,
}

/// What to do about it.
pub enum FlowAction {
    /// Send a datagram through the tunnel.
    ToTunnel(Vec<u8>),
    /// Send a datagram to the local application.
    ToLocal(Vec<u8>),
    /// The flow is over.
    End,
}

/// What is done about an event of a flow: datagrams go on as they came, and the
/// flow is over as soon as one side fails or nothing moves.
pub open spec fn flow_reaction(event: FlowEvent) -> FlowAction {
    match event {
        FlowEvent::FromLocal(bytes) => FlowAction::ToTunnel(bytes),
        FlowEvent::FromTunnel(bytes) => FlowAction::ToLocal(bytes),
        FlowEvent::LocalClosed => FlowAction::End,
        FlowEvent::TunnelFailed => FlowAction::End,
        FlowEvent::Idle => FlowAction::End,
    }
}

/// One step of a flow.
pub fn flow_step(event: FlowEvent) -> (a: FlowAction)
    ensures
        a == flow_reaction(event),
{
    match event {
        FlowEvent::FromLocal(bytes) => FlowAction::ToTunnel(bytes),
        FlowEvent::FromTunnel(bytes) => FlowAction::ToLocal(bytes),
        FlowEvent::LocalClosed => FlowAction::End,
        FlowEvent::TunnelFailed => FlowAction::End,
        FlowEvent::Idle => FlowAction::End,
    }
}

/// How setting a flow up came out.
pub enum SetupResult {
    /// The local end of the tunnel could not be opened; the text says why.
    NoSocket(String),
    /// The server's address could not be set; the text says why.
    NotConnected(String),
    /// The handshake could not be prepared; the text says why.
    NotPrepared(String),
    /// The handshake failed; the text says how.
    HandshakeFailed(String),
    /// The handshake took too long.
    HandshakeTimedOut,
    /// The stream could not be named.
    HelloNotSent,
    /// The flow stands.
    Established,
}

/// What is said of a flow whose setup is over.
pub open spec fn setup_text(
    link_id: Seq<char>,
    local_addr: Seq<char>,
    server_addr: Seq<char>,
    result: SetupResult,
) -> Seq<char> {
    let start = "ghostport-udp: ["@ + link_id + "] "@;
    match result {
        SetupResult::NoSocket(e) => start + local_addr + ": failed to open tunnel socket: "@ + e@,
        SetupResult::NotConnected(e) => start + local_addr + ": failed to connect to "@ + server_addr
            + ": "@ + e@,
        SetupResult::NotPrepared(e) => start + local_addr + ": "@ + e@,
        SetupResult::HandshakeFailed(e) => start + local_addr + ": handshake failed: "@ + e@,
        SetupResult::HandshakeTimedOut => start + local_addr + ": handshake timed out"@,
        SetupResult::HelloNotSent => start + local_addr + ": failed to send StreamHello"@,
        SetupResult::Established => start + "flow from "@ + local_addr + " established"@,
    }
}

/// The line about a flow whose setup is over.
pub fn setup_line(link_id: &str, local_addr: &str, server_addr: &str, result: SetupResult) -> (l:
    crate::log::LogLine)
    ensures
        l.text@ == setup_text(link_id@, local_addr@, server_addr@, result),
        l.to_stderr == !(result is Established),
{
    let mut text = "ghostport-udp: [".to_string();
    text.push_str(link_id);
    text.push_str("] ");
    match result {
        SetupResult::NoSocket(e) => {
            text.push_str(local_addr);
            text.push_str(": failed to open tunnel socket: ");
            text.push_str(e.as_str());
        },
        SetupResult::NotConnected(e) => {
            text.push_str(local_addr);
            text.push_str(": failed to connect to ");
            text.push_str(server_addr);
            text.push_str(": ");
            text.push_str(e.as_str());
        },
        SetupResult::NotPrepared(e) => {
            text.push_str(local_addr);
            text.push_str(": ");
            text.push_str(e.as_str());
        },
        SetupResult::HandshakeFailed(e) => {
            text.push_str(local_addr);
            text.push_str(": handshake failed: ");
            text.push_str(e.as_str());
        },
        SetupResult::HandshakeTimedOut => {
            text.push_str(local_addr);
            text.push_str(": handshake timed out");
        },
        SetupResult::HelloNotSent => {
            text.push_str(local_addr);
            text.push_str(": failed to send StreamHello");
        },
        SetupResult::Established => {
            text.push_str("flow from ");
            text.push_str(local_addr);
            text.push_str(" established");
            return crate::log::LogLine { to_stderr: false, text };
        },
    }
    crate::log::LogLine { to_stderr: true, text }
}

/// The client listens for every link that carries datagrams forward, once each and in
/// order, where that link says, and for nothing else.
pub proof fn law_every_udp_forward_link_is_listened_for(links: Seq<UdpLinkModel>)
    ensures
        udp_listeners_of(links) == links.filter(
            |l: UdpLinkModel| l.transport is Udp && l.mode is Forward,
        ).map_values(|l: UdpLinkModel| (l.id, l.listen->0)),
        forall|i: int|
            0 <= i < links.len() && (#[trigger] links[i]).transport is Udp && links[i].mode is Forward
                ==> udp_listeners_of(links).contains((links[i].id, links[i].listen->0)),
    decreases links.len(),
{
    reveal(Seq::filter);
    let wanted = |l: UdpLinkModel| l.transport is Udp && l.mode is Forward;
    let shown = |l: UdpLinkModel| (l.id, l.listen->0);
    let list = udp_listeners_of(links);
    if links.len() == 0 {
        assert(list =~= links.filter(wanted).map_values(shown));
    } else {
        let front = links.drop_last();
        let before = udp_listeners_of(front);
        law_every_udp_forward_link_is_listened_for(front);
        assert(list =~= links.filter(wanted).map_values(shown));
        assert forall|i: int|
            0 <= i < links.len() && (#[trigger] links[i]).transport is Udp && links[i].mode
                is Forward implies list.contains((links[i].id, links[i].listen->0)) by {
            let l = (links[i].id, links[i].listen->0);
            if i < front.len() {
                assert(front[i] == links[i]);
                let k = choose|k: int| 0 <= k < before.len() && before[k] == l;
                assert(list[k] == l);
            } else {
                assert(list.last() == l);
            }
        }
    }
}

/// Every listener of the client is that of a link that carries datagrams forward.
pub proof fn law_udp_listeners_are_of_forward_links(links: Seq<UdpLinkModel>, k: int)
    requires
        0 <= k < udp_listeners_of(links).len(),
    ensures
        exists|i: int|
            0 <= i < links.len() && (#[trigger] links[i]).transport is Udp && links[i].mode is Forward
                && udp_listeners_of(links)[k] == (links[i].id, links[i].listen->0),
    decreases links.len(),
{
    let front = links.drop_last();
    let before = udp_listeners_of(front);
    if k < before.len() {
        law_udp_listeners_are_of_forward_links(front, k);
        let i = choose|i: int|
            0 <= i < front.len() && (#[trigger] front[i]).transport is Udp && front[i].mode
                is Forward && before[k] == (front[i].id, front[i].listen->0);
        assert(links[i] == front[i]);
    } else {
        let i = links.len() - 1;
        assert(links[i] == links.last());
    }
}

/// Datagrams pass through a flow unchanged, each to the other side; nothing else is
/// sent, and the flow ends exactly when a side is gone or nothing moves.
pub proof fn law_flow_carries_datagrams_unchanged(event: FlowEvent, bytes: Vec<u8>)
    ensures
        flow_reaction(FlowEvent::FromLocal(bytes)) == FlowAction::ToTunnel(bytes),
        flow_reaction(FlowEvent::FromTunnel(bytes)) == FlowAction::ToLocal(bytes),
        flow_reaction(event) is End <==> !(event is FromLocal) && !(event is FromTunnel),
{
}

/// The lines about a flow name its link, the local address and what went wrong.
pub proof fn law_flow_lines_name_the_flow(
    link_id: Seq<char>,
    local_addr: Seq<char>,
    server_addr: Seq<char>,
    result: SetupResult,
)
    ensures
        setup_text(link_id, local_addr, server_addr, result) == "ghostport-udp: ["@ + link_id + "] "@ + (
        match result {
            SetupResult::NoSocket(e) => local_addr + ": failed to open tunnel socket: "@ + e@,
            SetupResult::NotConnected(e) => local_addr + ": failed to connect to "@ + server_addr
                + ": "@ + e@,
            SetupResult::NotPrepared(e) => local_addr + ": "@ + e@,
            SetupResult::HandshakeFailed(e) => local_addr + ": handshake failed: "@ + e@,
            SetupResult::HandshakeTimedOut => local_addr + ": handshake timed out"@,
            SetupResult::HelloNotSent => local_addr + ": failed to send StreamHello"@,
            SetupResult::Established => "flow from "@ + local_addr + " established"@,
        }),
{
    let start = "ghostport-udp: ["@ + link_id + "] "@;
    let text = setup_text(link_id, local_addr, server_addr, result);
    match result {
        SetupResult::NoSocket(e) => {
            assert(text =~= start + (local_addr + ": failed to open tunnel socket: "@ + e@));
        },
        SetupResult::NotConnected(e) => {
            assert(text =~= start + (local_addr + ": failed to connect to "@ + server_addr + ": "@
                + e@));
        },
        SetupResult::NotPrepared(e) => {
            assert(text =~= start + (local_addr + ": "@ + e@));
        },
        SetupResult::HandshakeFailed(e) => {
            assert(text =~= start + (local_addr + ": handshake failed: "@ + e@));
        },
        SetupResult::HandshakeTimedOut => {
            assert(text =~= start + (local_addr + ": handshake timed out"@));
        },
        SetupResult::HelloNotSent => {
            assert(text =~= start + (local_addr + ": failed to send StreamHello"@));
        },
        SetupResult::Established => {
            assert(text =~= start + ("flow from "@ + local_addr + " established"@));
        },
    }
}

} // verus!
