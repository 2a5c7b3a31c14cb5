//! Server role: one shared socket, whose datagrams are told apart by their
//! source address. The first datagram of an unknown address has to be the first
//! message of a handshake.

use super::{is_udp_forward, udp_forward, udp_link_models, UdpConfig, UdpLink, UdpLinkModel};
use crate::links::{named_index, names_of, Named};
use crate::log::LogLine;
use crate::net::IpAddr;
use crate::noise::{
    first_message_opens, initiates, transcript, MAX_PRIVATE_KEY_LEN, MAX_PUBLIC_KEY_LEN,
};
use crate::peermatch::{is_first_match, match_peer_bytes, peer_keys, ResolvedPeer};
use crate::protocol::StreamHello;
use crate::ratelimit::{after_attempt, may_attempt, HandshakeLimiter};
use vstd::prelude::*;

verus! {

/// Everything that one running UDP server needs.
pub struct Context {
    /// The configuration, which has been validated.
    pub config: UdpConfig,
    /// This instance's own static private key.
    pub private_key: Vec<u8>,
    /// Every client identity that this server accepts.
    pub peers: Vec<ResolvedPeer>,
}

/// What becomes of a datagram.
pub enum DatagramAction {
    /// It goes to the session of its source address.
    Forward,
    /// It is dropped.
    Discard,
    /// It opens a session with a peer.
    Start {
        /// The peer's index.
        peer_index: usize,
        /// The handshake, which has read the datagram.
        state: snow::HandshakeState,
    },
}

/// Whether some peer's key opens the message.
pub open spec fn some_peer_matches(
    message: Seq<u8>,
    private_key: Seq<u8>,
    keys: Seq<Seq<u8>>,
) -> bool {
    exists|i: int|
        0 <= i < keys.len() && first_message_opens(private_key, #[trigger] keys[i], message)
}

/// Decides about a datagram; `known` says whether its source address has a
/// session. An unknown address is held to the limiter first and then to the
/// peers' keys, and has no handshake in flight afterwards: the reply that ends
/// the handshake needs no further datagram.
pub fn on_datagram(
    ctx: &Context,
    limiter: &mut HandshakeLimiter,
    known: bool,
    ip: IpAddr,
    now: u128,
    datagram: &[u8],
) -> (a: DatagramAction)
    requires
        ctx.private_key@.len() <= MAX_PRIVATE_KEY_LEN,
        forall|i: int|
            0 <= i < ctx.peers@.len() ==> (#[trigger] ctx.peers@[i]).public_key@.len()
                <= MAX_PUBLIC_KEY_LEN,
    ensures
        a is Forward <==> known,
        a is Start <==> {
            &&& !known
            &&& may_attempt(old(limiter).attempts(ip), now)
            &&& old(limiter).in_flight() < old(limiter).capacity()
            &&& some_peer_matches(datagram@, ctx.private_key@, peer_keys(ctx.peers@))
        },
        a matches DatagramAction::Start { peer_index, state } ==> {
            &&& is_first_match(
                datagram@,
                ctx.private_key@,
                peer_keys(ctx.peers@),
                peer_index as int,
            )
            &&& transcript(state) == seq![
                ctx.private_key@,
                ctx.peers@[peer_index as int].public_key@,
                datagram@,
            ]
            &&& !initiates(state)
        },
        final(limiter).attempts(ip) == (if known {
            old(limiter).attempts(ip)
        } else {
            after_attempt(old(limiter).attempts(ip), now)
        }),
        forall|other: IpAddr|
            other != ip ==> #[trigger] final(limiter).attempts(other) == old(limiter).attempts(other),
        final(limiter).in_flight() == old(limiter).in_flight(),
        final(limiter).capacity() == old(limiter).capacity(),
{
    if known {
        return DatagramAction::Forward;
    }
    let permit = match limiter.try_acquire(ip, now) {
        Some(permit) => permit,
        None => {
            return DatagramAction::Discard;
        },
    };
    let matched = match_peer_bytes(datagram, &ctx.private_key, &ctx.peers);
    limiter.release(permit);
    match matched {
        Ok((peer_index, state)) => {
            proof {
                let keys = peer_keys(ctx.peers@);
                assert(first_message_opens(ctx.private_key@, keys[peer_index as int], datagram@));
            }
            DatagramAction::Start { peer_index, state }
        },
        Err(_) => {
            proof {
                let keys = peer_keys(ctx.peers@);
                if some_peer_matches(datagram@, ctx.private_key@, keys) {
                    let i = choose|i: int|
                        0 <= i < keys.len() && first_message_opens(
                            ctx.private_key@,
                            #[trigger] keys[i],
                            datagram@,
                        );
                    assert(keys[i] == ctx.peers@[i].public_key@);
                }
            }
            DatagramAction::Discard
        },
    }
}

/// What is said of a handshake that failed.
pub open spec fn udp_failed_text(peer_addr: Seq<char>, peer_name: Seq<char>, error: Seq<char>) -> Seq<
    char,
> {
    "ghostport-udp: handshake with "@ + peer_addr + " (\""@ + peer_name + "\") failed: "@ + error
}

/// The line about a handshake that failed.
pub fn handshake_failed(peer_addr: &str, peer_name: &str, error: &str) -> (l: LogLine)
    ensures
        l.to_stderr,
        l.text@ == udp_failed_text(peer_addr@, peer_name@, error@),
{
    let mut text = "ghostport-udp: handshake with ".to_string();
    text.push_str(peer_addr);
    text.push_str(" (\"");
    text.push_str(peer_name);
    text.push_str("\") failed: ");
    text.push_str(error);
    LogLine { to_stderr: true, text }
}

impl Named for UdpLink {
    open spec fn named(&self) -> Seq<char> {
        self.id@
    }

    fn name(&self) -> (s: &str) {
        self.id.as_str()
    }
}

/// The first link of that name.
pub open spec fn find_udp_link(links: Seq<UdpLinkModel>, id: Seq<char>) -> Option<int> {
    links.map_values(|l: UdpLinkModel| l.id).index_of_first(id)
}

/// Where a session goes: the link has to exist, to carry datagrams forward, and
/// to be one that the peer may use. Otherwise the text says what is wrong.
pub open spec fn session_route(
    links: Seq<UdpLinkModel>,
    peer_addr: Seq<char>,
    peer_name: Seq<char>,
    allowed: Set<Seq<char>>,
    link_id: Seq<char>,
) -> Result<Seq<char>, Seq<char>> {
    match find_udp_link(links, link_id) {
        None => Err("ghostport-udp: "@ + peer_addr + ": unknown link id \""@ + link_id + "\""@),
        Some(i) => if !is_udp_forward(links[i]) {
            Err(
                "ghostport-udp: "@ + peer_addr + ": link \""@ + link_id
                    + "\" isn't a UDP forward link"@,
            )
        } else if !allowed.contains(link_id) {
            Err(
                "ghostport-udp: peer \""@ + peer_name + "\" is not authorized for link \""@
                    + link_id + "\""@,
            )
        } else {
            Ok(links[i].target->0)
        },
    }
}

/// What a route says.
pub open spec fn route_model(r: Result<String, LogLine>) -> Result<Seq<char>, Seq<char>> {
    match r {
        Ok(target) => Ok(target@),
        Err(l) => Err(l.text@),
    }
}

/// Decides where a session that has named its link goes: the target to dial, or
/// the line that says why there is none.
pub fn route_session(
    config: &UdpConfig,
    peer_addr: &str,
    peer: &ResolvedPeer,
    hello: &StreamHello,
) -> (r: Result<String, LogLine>)
    requires
        forall|i: int|
            0 <= i < config.links@.len() && is_udp_forward((#[trigger] config.links@[i])@)
                ==> config.links@[i].target is Some,
    ensures
        route_model(r) == session_route(
            udp_link_models(config.links@),
            peer_addr@,
            peer.name@,
            peer.links@,
            hello.link_id@,
        ),
        r matches Err(l) ==> l.to_stderr,
{
    let link_id = hello.link_id.as_str();
    assert(names_of(config.links@) =~= udp_link_models(config.links@).map_values(
        |l: UdpLinkModel| l.id,
    ));
    let index = match named_index(&config.links, link_id) {
        Some(i) => i,
        None => {
            let mut text = "ghostport-udp: ".to_string();
            text.push_str(peer_addr);
            text.push_str(": unknown link id \"");
            text.push_str(link_id);
            text.push_str("\"");
            return Err(LogLine { to_stderr: true, text });
        },
    };
    let link = &config.links[index];
    assert(udp_link_models(config.links@)[index as int] == link@);
    if !udp_forward(link) {
        let mut text = "ghostport-udp: ".to_string();
        text.push_str(peer_addr);
        text.push_str(": link \"");
        text.push_str(link_id);
        text.push_str("\" isn't a UDP forward link");
        return Err(LogLine { to_stderr: true, text });
    }
    if !peer.links.contains(link_id) {
        let mut text = "ghostport-udp: peer \"".to_string();
        text.push_str(peer.name.as_str());
        text.push_str("\" is not authorized for link \"");
        text.push_str(link_id);
        text.push_str("\"");
        return Err(LogLine { to_stderr: true, text });
    }
    match &link.target {
        Some(target) => Ok(target.clone()),
        None => Err(LogLine { to_stderr: true, text: String::new() }),
    }
}

/// A peer only ever reaches the links that it is allowed to use and that carry
/// datagrams forward, whatever it asks for.
pub proof fn law_only_allowed_udp_links(
    links: Seq<UdpLinkModel>,
    peer_addr: Seq<char>,
    peer_name: Seq<char>,
    allowed: Set<Seq<char>>,
    link_id: Seq<char>,
)
    ensures
        session_route(links, peer_addr, peer_name, allowed, link_id) matches Ok(target) ==> {
            &&& allowed.contains(link_id)
            &&& exists|i: int|
                0 <= i < links.len() && (#[trigger] links[i]).id == link_id && is_udp_forward(
                    links[i],
                ) && links[i].target->0 == target
        },
{
    links.map_values(|l: UdpLinkModel| l.id).index_of_first_ensures(link_id);
}

/// A session of an allowed peer reaches the target of the link that it names.
pub proof fn law_udp_link_reaches_its_target(
    links: Seq<UdpLinkModel>,
    i: int,
    peer_addr: Seq<char>,
    peer_name: Seq<char>,
    allowed: Set<Seq<char>>,
)
    requires
        0 <= i < links.len(),
        is_udp_forward(links[i]),
        links[i].target is Some,
        forall|j: int| 0 <= j < i ==> (#[trigger] links[j]).id != links[i].id,
        allowed.contains(links[i].id),
    ensures
        session_route(links, peer_addr, peer_name, allowed, links[i].id) == Ok::<
            Seq<char>,
            Seq<char>,
        >(links[i].target->0),
{
    let names = links.map_values(|l: UdpLinkModel| l.id);
    names.index_of_first_ensures(links[i].id);
    assert(names[i] == links[i].id);
    assert(forall|j: int| 0 <= j < links.len() ==> (#[trigger] links[j]).id == names[j]);
}

/// What happens to a session.
pub enum SessionEvent {
    /// A datagram came through the tunnel.
    FromTunnel(Vec<u8>),
    /// The tunnel failed.
    TunnelFailed,
    /// The target sent a datagram.
    FromTarget(Vec<u8>),
    /// The target failed.
    TargetFailed,
    /// Nothing has moved for a while.
    Idle,
}

/// What to do about it.
pub enum SessionAction {
    /// Send a datagram to the target.
    ToTarget(Vec<u8>),
    /// Send a datagram through the tunnel.
    ToTunnel(Vec<u8>),
    /// The session is over.
    End,
}

/// What is done about an event of a session: datagrams go on as they came, and
/// the session is over as soon as one side fails or nothing moves.
pub open spec fn session_reaction(event: SessionEvent) -> SessionAction {
    match event {
        SessionEvent::FromTunnel(bytes) => SessionAction::ToTarget(bytes),
        SessionEvent::FromTarget(bytes) => SessionAction::ToTunnel(bytes),
        SessionEvent::TunnelFailed => SessionAction::End,
        SessionEvent::TargetFailed => SessionAction::End,
        SessionEvent::Idle => SessionAction::End,
    }
}

/// One step of a session.
pub fn session_step(event: SessionEvent) -> (a: SessionAction)
    ensures
        a == session_reaction(event),
{
    match event {
        SessionEvent::FromTunnel(bytes) => SessionAction::ToTarget(bytes),
        SessionEvent::FromTarget(bytes) => SessionAction::ToTunnel(bytes),
        SessionEvent::TunnelFailed => SessionAction::End,
        SessionEvent::TargetFailed => SessionAction::End,
        SessionEvent::Idle => SessionAction::End,
    }
}

/// Datagrams pass through a session unchanged, each to the other side; nothing else is
/// sent, and the session ends exactly when a side fails or nothing moves.
pub proof fn law_session_carries_datagrams_unchanged(event: SessionEvent, bytes: Vec<u8>)
    ensures
        session_reaction(SessionEvent::FromTunnel(bytes)) == SessionAction::ToTarget(bytes),
        session_reaction(SessionEvent::FromTarget(bytes)) == SessionAction::ToTunnel(bytes),
        session_reaction(event) is End <==> !(event is FromTunnel) && !(event is FromTarget),
{
}

/// Where a session goes, by the first link of the name that it gives: to the target of
/// a link that carries datagrams forward and that its peer may use; everything else is
/// refused, and the refusal says why.
pub proof fn law_session_goes_where_its_link_says(
    links: Seq<UdpLinkModel>,
    peer_addr: Seq<char>,
    peer_name: Seq<char>,
    allowed: Set<Seq<char>>,
    link_id: Seq<char>,
    i: int,
)
    ensures
        ({
            let route = session_route(links, peer_addr, peer_name, allowed, link_id);
            let first = 0 <= i < links.len() && links[i].id == link_id && forall|j: int|
                0 <= j < i ==> (#[trigger] links[j]).id != link_id;
            &&& (forall|j: int| 0 <= j < links.len() ==> (#[trigger] links[j]).id != link_id)
                ==> route == Err::<Seq<char>, Seq<char>>(
                "ghostport-udp: "@ + peer_addr + ": unknown link id \""@ + link_id + "\""@,
            )
            &&& first ==> route == (if !(links[i].transport is Udp && links[i].mode is Forward) {
                Err::<Seq<char>, Seq<char>>(
                    "ghostport-udp: "@ + peer_addr + ": link \""@ + link_id
                        + "\" isn't a UDP forward link"@,
                )
            } else if !allowed.contains(link_id) {
                Err(
                    "ghostport-udp: peer \""@ + peer_name + "\" is not authorized for link \""@
                        + link_id + "\""@,
                )
            } else {
                Ok(links[i].target->0)
            })
        }),
{
    let names = links.map_values(|l: UdpLinkModel| l.id);
    names.index_of_first_ensures(link_id);
    assert(forall|j: int| 0 <= j < links.len() ==> (#[trigger] links[j]).id == names[j]);
    if 0 <= i < links.len() && links[i].id == link_id && (forall|j: int|
        0 <= j < i ==> (#[trigger] links[j]).id != link_id) {
        assert(names[i] == link_id);
        let k = names.index_of_first(link_id)->0;
        if k < i {
            assert(links[k].id == names[k]);
        }
    }
}

/// A datagram opens a session exactly if the key of some peer opens it.
pub proof fn law_some_peer_opens_the_datagram(
    message: Seq<u8>,
    private_key: Seq<u8>,
    keys: Seq<Seq<u8>>,
)
    ensures
        some_peer_matches(message, private_key, keys) <==> exists|i: int|
            #![trigger keys[i]]
            0 <= i < keys.len() && first_message_opens(private_key, keys[i], message),
        some_peer_matches(message, private_key, keys) <==> exists|i: int| #[trigger]
            is_first_match(message, private_key, keys, i),
{
    if some_peer_matches(message, private_key, keys) {
        let i = choose|i: int|
            0 <= i < keys.len() && first_message_opens(private_key, #[trigger] keys[i], message);
        lemma_first_of_matches(message, private_key, keys, i);
    }
    if exists|i: int| #[trigger] is_first_match(message, private_key, keys, i) {
        let i = choose|i: int| #[trigger] is_first_match(message, private_key, keys, i);
        assert(first_message_opens(private_key, keys[i], message));
    }
}

proof fn lemma_first_of_matches(
    message: Seq<u8>,
    private_key: Seq<u8>,
    keys: Seq<Seq<u8>>,
    i: int,
)
    requires
        0 <= i < keys.len(),
        first_message_opens(private_key, keys[i], message),
    ensures
        exists|k: int| #[trigger] is_first_match(message, private_key, keys, k),
    decreases i,
{
    if exists|j: int| 0 <= j < i && first_message_opens(private_key, #[trigger] keys[j], message) {
        let j = choose|j: int|
            0 <= j < i && first_message_opens(private_key, #[trigger] keys[j], message);
        lemma_first_of_matches(message, private_key, keys, j);
    } else {
        assert(is_first_match(message, private_key, keys, i));
    }
}

/// A handshake that failed is told with the address, the peer and the error.
pub proof fn law_failed_handshake_is_told(
    peer_addr: Seq<char>,
    peer_name: Seq<char>,
    error: Seq<char>,
)
    ensures
        udp_failed_text(peer_addr, peer_name, error) == "ghostport-udp: handshake with "@ + peer_addr
            + " (\""@ + peer_name + "\") failed: "@ + error,
{
}

/// What a route says is told as it is.
pub proof fn law_route_is_told_as_it_is(target: String, l: LogLine)
    ensures
        route_model(Ok(target)) == Ok::<Seq<char>, Seq<char>>(target@),
        route_model(Err(l)) == Err::<Seq<char>, Seq<char>>(l.text@),
{
}

} // verus!
