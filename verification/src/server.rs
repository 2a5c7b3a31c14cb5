//! Server role: always reachable, accepts the control connection and every data
//! connection, and never dials the peer. Here stand its decisions; the sockets
//! are driven from outside.

use crate::config::{Config, LinkMode, LinkModel};
use crate::links::{find_link, lemma_find_link, link_index};
use crate::log::{daemon_line, daemon_text, link_line, link_text, LogLine, Tone};
use crate::net::IpAddr;
use crate::peermatch::ResolvedPeer;
use crate::protocol::{ControlMessage, StreamHello};
use crate::ratelimit::{after_attempt, may_attempt, HandshakeLimiter, HandshakePermit};
use crate::stats::{ControlModel, SharedState};
use crate::text::{dec, push_dec, str_eq};
use crate::theme::Palette;
use std::collections::HashMap;
use vstd::prelude::*;

verus! {

broadcast use vstd::std_specs::hash::group_hash_axioms;

/// How long a handshake may take before it is abandoned, in seconds.
pub const HANDSHAKE_TIMEOUT_SECS: u64 = 10;

/// How long a parked connection waits for the client, in seconds.
pub const PARK_TIMEOUT_SECS: u64 = 10;

/// Everything that one running server needs.
pub struct Context {
    /// The configuration, which has been validated.
    pub config: Config,
    /// This instance's own static private key.
    pub private_key: Vec<u8>,
    /// Every client identity that this server accepts.
    pub peers: Vec<ResolvedPeer>,
    /// Counters and the state of the control connection.
    pub state: SharedState,
    /// Where the status socket lives.
    pub socket_path: String,
}

// ---------------------------------------------------------------------
// Parked connections
// ---------------------------------------------------------------------

/// Connections that were accepted for reverse links and wait to be claimed by a
/// data connection that the client dials. Each is kept with the name of the link
/// that it was accepted for.
pub struct PendingStreams<C> {
    waiting: HashMap<u64, (String, C)>,
    next_id: u64,
}

impl<C> PendingStreams<C> {
    /// The waiting connections, by their number: the link that each waits for, and
    /// the connection.
    pub closed spec fn waiting(&self) -> Map<u64, (Seq<char>, C)> {
        self.waiting@.map_values(|p: (String, C)| (p.0@, p.1))
    }

    /// The number that the next connection gets.
    pub closed spec fn next_id(&self) -> u64 {
        self.next_id
    }

    /// Whether the next number has not been given to any connection that waits.
    /// The numbers go up by one, so this can only end when they wrap around.
    pub open spec fn numbers_are_fresh(&self) -> bool {
        forall|id: u64| #[trigger] self.waiting().contains_key(id) ==> id < self.next_id()
    }

    /// Nothing waits; the first number is one.
    pub fn new() -> (p: PendingStreams<C>)
        ensures
            p.numbers_are_fresh(),
            p.waiting() == Map::<u64, (Seq<char>, C)>::empty(),
            p.next_id() == 1,
    {
        let p: PendingStreams<C> = PendingStreams { waiting: HashMap::new(), next_id: 1 };
        assert(p.waiting() =~= Map::<u64, (Seq<char>, C)>::empty());
        p
    }

    /// Parks a connection that was accepted for a link and gives it a number. No
    /// connection that waits already is displaced.
    pub fn park(&mut self, link_id: &str, conn: C) -> (id: u64)
        ensures
            old(self).numbers_are_fresh() ==> !old(self).waiting().contains_key(id),
            old(self).numbers_are_fresh() && id < u64::MAX ==> final(self).numbers_are_fresh(),
            id == old(self).next_id(),
            final(self).waiting() == old(self).waiting().insert(id, (link_id@, conn)),
            final(self).next_id() == id.wrapping_add(1),
    {
        let id: u64 = self.next_id;
        self.next_id = self.next_id.wrapping_add(1);
        self.waiting.insert(id, (link_id.to_string(), conn));
        proof {
            assert(self.waiting() =~= old(self).waiting().insert(id, (link_id@, conn)));
            if old(self).numbers_are_fresh() && id < u64::MAX {
                assert forall|k: u64| #[trigger] self.waiting().contains_key(k) implies k
                    < self.next_id() by {
                    if k != id {
                        assert(old(self).waiting().contains_key(k));
                    }
                }
            }
        }
        id
    }

    /// Takes a connection out, because it has waited too long or nobody can be told
    /// of it.
    pub fn take(&mut self, id: u64) -> (conn: Option<C>)
        ensures
            match conn {
                Some(c) => old(self).waiting().contains_key(id) && c == old(self).waiting()[id].1,
                None => !old(self).waiting().contains_key(id),
            },
            final(self).waiting() == old(self).waiting().remove(id),
            final(self).next_id() == old(self).next_id(),
            old(self).numbers_are_fresh() ==> final(self).numbers_are_fresh(),
    {
        let taken = self.waiting.remove(&id);
        proof {
            assert(self.waiting() =~= old(self).waiting().remove(id));
            if old(self).numbers_are_fresh() {
                assert forall|k: u64| #[trigger] self.waiting().contains_key(k) implies k
                    < self.next_id() by {
                    assert(old(self).waiting().contains_key(k));
                }
            }
        }
        match taken {
            Some((_, conn)) => Some(conn),
            None => None,
        }
    }

    /// Takes a connection out for a stream of the link that it waits for. One that
    /// waits for another link goes on waiting.
    pub fn claim(&mut self, link_id: &str, id: u64) -> (conn: Option<C>)
        ensures
            match conn {
                Some(c) => {
                    &&& waits_for(old(self).waiting(), link_id@, id)
                    &&& c == old(self).waiting()[id].1
                    &&& final(self).waiting() == old(self).waiting().remove(id)
                },
                None => {
                    &&& !waits_for(old(self).waiting(), link_id@, id)
                    &&& final(self).waiting() == old(self).waiting()
                },
            },
            final(self).next_id() == old(self).next_id(),
            old(self).numbers_are_fresh() ==> final(self).numbers_are_fresh(),
    {
        let fits = match self.waiting.get(&id) {
            Some(parked) => str_eq(parked.0.as_str(), link_id),
            None => false,
        };
        assert(fits == waits_for(self.waiting(), link_id@, id));
        if fits {
            self.take(id)
        } else {
            None
        }
    }
}

/// Whether a connection waits under a number for a link.
pub open spec fn waits_for<C>(
    waiting: Map<u64, (Seq<char>, C)>,
    link_id: Seq<char>,
    id: u64,
) -> bool {
    waiting.contains_key(id) && waiting[id].0 == link_id
}

/// The signal that asks the client to come for a parked connection.
pub fn open_stream_signal(link_id: &str, stream_id: u64) -> (m: ControlMessage)
    ensures
        m matches ControlMessage::OpenStream { link_id: l, stream_id: s } && l@ == link_id@ && s
            == stream_id,
{
    ControlMessage::OpenStream { link_id: link_id.to_string(), stream_id }
}

/// What is said of a connection that the client never came for.
pub open spec fn park_timeout_message(stream_id: u64) -> Seq<char> {
    "stream "@ + dec(stream_id as nat)
        + " timed out waiting for the client to respond (offline?)"@
}

/// Drops a parked connection that has waited too long. There is a line to print
/// only where it still waited.
pub fn expire<C>(
    p: &Palette,
    pending: &mut PendingStreams<C>,
    link_id: &str,
    stream_id: u64,
) -> (l: Option<LogLine>)
    ensures
        final(pending).waiting() == old(pending).waiting().remove(stream_id),
        final(pending).next_id() == old(pending).next_id(),
        match l {
            Some(l) => {
                &&& old(pending).waiting().contains_key(stream_id)
                &&& l.to_stderr
                &&& l.text@ == link_text(
                    p@,
                    link_id@,
                    Tone::Doubtful,
                    park_timeout_message(stream_id),
                )
            },
            None => !old(pending).waiting().contains_key(stream_id),
        },
{
    match pending.take(stream_id) {
        Some(_) => {
            let mut m = "stream ".to_string();
            push_dec(&mut m, stream_id);
            m.push_str(" timed out waiting for the client to respond (offline?)");
            Some(link_line(p, true, link_id, Tone::Doubtful, m.as_str()))
        },
        None => None,
    }
}

/// What is said of a connection that nobody can be told of.
pub open spec fn no_control_message(peer_addr: Seq<char>) -> Seq<char> {
    peer_addr + ": control channel unavailable, dropping"@
}

/// Drops a parked connection because the client cannot be told of it.
pub fn drop_unannounced<C>(
    p: &Palette,
    pending: &mut PendingStreams<C>,
    link_id: &str,
    stream_id: u64,
    peer_addr: &str,
) -> (l: LogLine)
    ensures
        final(pending).waiting() == old(pending).waiting().remove(stream_id),
        final(pending).next_id() == old(pending).next_id(),
        l.to_stderr,
        l.text@ == link_text(p@, link_id@, Tone::Doubtful, no_control_message(peer_addr@)),
{
    let _ = pending.take(stream_id);
    let mut m = peer_addr.to_string();
    m.push_str(": control channel unavailable, dropping");
    link_line(p, true, link_id, Tone::Doubtful, m.as_str())
}

// ---------------------------------------------------------------------
// Handshakes
// ---------------------------------------------------------------------

/// The two listeners that handshakes come in on.
#[derive(Debug, Clone, Copy, PartialEq, Eq, Structural)]
pub enum Channel {
    /// The listener for control connections.
    Control,
    /// The listener for data connections.
    Data,
}

/// The name of a listener in messages.
pub open spec fn channel_name(channel: Channel) -> Seq<char> {
    match channel {
        Channel::Control => "control"@,
        Channel::Data => "data"@,
    }
}

fn channel_str(channel: Channel) -> (s: &'static str)
    ensures
        s@ == channel_name(channel),
{
    match channel {
        Channel::Control => "control",
        Channel::Data => "data",
    }
}

/// What is said of a connection that the limiter refused.
pub open spec fn rejected_message(channel: Channel, peer_addr: Seq<char>) -> Seq<char> {
    channel_name(channel) + ": rejected "@ + peer_addr + " (too many recent handshake attempts)"@
}

/// What becomes of a fresh connection.
pub enum Admission {
    /// A handshake may start; the permit is given back when it is over.
    Handshake(HandshakePermit),
    /// The connection is dropped.
    Rejected(LogLine),
}

/// Decides about a fresh connection before any handshake work is done for it.
pub fn screen_connection(
    p: &Palette,
    limiter: &mut HandshakeLimiter,
    channel: Channel,
    ip: IpAddr,
    peer_addr: &str,
    now: u128,
) -> (a: Admission)
    ensures
        match a {
            Admission::Handshake(_) => {
                &&& may_attempt(old(limiter).attempts(ip), now)
                &&& old(limiter).in_flight() < old(limiter).capacity()
                &&& final(limiter).in_flight() == old(limiter).in_flight() + 1
            },
            Admission::Rejected(l) => {
                &&& !may_attempt(old(limiter).attempts(ip), now) || old(limiter).in_flight()
                    >= old(limiter).capacity()
                &&& final(limiter).in_flight() == old(limiter).in_flight()
                &&& l.to_stderr
                &&& l.text@ == daemon_text(
                    p@,
                    Tone::Doubtful,
                    rejected_message(channel, peer_addr@),
                )
            },
        },
        final(limiter).attempts(ip) == after_attempt(old(limiter).attempts(ip), now),
        forall|other: IpAddr|
            other != ip ==> #[trigger] final(limiter).attempts(other) == old(limiter).attempts(other),
        final(limiter).capacity() == old(limiter).capacity(),
{
    match limiter.try_acquire(ip, now) {
        Some(permit) => Admission::Handshake(permit),
        None => {
            let mut m = channel_str(channel).to_string();
            m.push_str(": rejected ");
            m.push_str(peer_addr);
            m.push_str(" (too many recent handshake attempts)");
            Admission::Rejected(daemon_line(p, true, Tone::Doubtful, m.as_str()))
        },
    }
}

/// How a handshake came out.
pub enum HandshakeResult {
    /// It matched the peer with this index.
    Matched(usize),
    /// It failed; the text says how.
    Failed(String),
    /// It took too long.
    TimedOut,
}

/// What is said of a handshake on the control listener that failed.
pub open spec fn control_failed_message(peer_addr: Seq<char>, error: Seq<char>) -> Seq<char> {
    "control: handshake with "@ + peer_addr + " failed: "@ + error
}

/// What is said of a handshake on the control listener that took too long.
pub open spec fn control_timeout_message(peer_addr: Seq<char>) -> Seq<char> {
    "control: handshake with "@ + peer_addr + " timed out"@
}

/// Decides about a control connection whose handshake is over: the name of the
/// peer to start a session with, or the line that says why there is none.
pub fn control_handshake_done(
    p: &Palette,
    peers: &Vec<ResolvedPeer>,
    peer_addr: &str,
    result: HandshakeResult,
) -> (r: Result<String, LogLine>)
    requires
        result matches HandshakeResult::Matched(i) ==> i < peers@.len(),
    ensures
        match result {
            HandshakeResult::Matched(i) => r is Ok && r->Ok_0@ == peers@[i as int].name@,
            HandshakeResult::Failed(e) => r is Err && r->Err_0.to_stderr && r->Err_0.text@
                == daemon_text(p@, Tone::Bad, control_failed_message(peer_addr@, e@)),
            HandshakeResult::TimedOut => r is Err && r->Err_0.to_stderr && r->Err_0.text@
                == daemon_text(p@, Tone::Doubtful, control_timeout_message(peer_addr@)),
        },
{
    match result {
        HandshakeResult::Matched(i) => Ok(peers[i].name.clone()),
        HandshakeResult::Failed(e) => {
            let mut m = "control: handshake with ".to_string();
            m.push_str(peer_addr);
            m.push_str(" failed: ");
            m.push_str(e.as_str());
            Err(daemon_line(p, true, Tone::Bad, m.as_str()))
        },
        HandshakeResult::TimedOut => {
            let mut m = "control: handshake with ".to_string();
            m.push_str(peer_addr);
            m.push_str(" timed out");
            Err(daemon_line(p, true, Tone::Doubtful, m.as_str()))
        },
    }
}

// ---------------------------------------------------------------------
// The control session
// ---------------------------------------------------------------------

/// What is said when a control session begins.
pub open spec fn session_start_message(peer_addr: Seq<char>, peer_name: Seq<char>) -> Seq<char> {
    "control channel connected from "@ + peer_addr + " (peer \""@ + peer_name + "\")"@
}

/// Records that a control session begins.
pub fn session_started(
    p: &Palette,
    state: &mut SharedState,
    peer_addr: &str,
    peer_name: String,
    now: u64,
) -> (l: LogLine)
    ensures
        final(state).control@ == (ControlModel {
            connected: true,
            connected_since: Some(now),
            peer_addr: Some(peer_addr@),
            peer_name: Some(peer_name@),
        }),
        final(state).role == old(state).role,
        final(state).started_at == old(state).started_at,
        final(state).links == old(state).links,
        !l.to_stderr,
        l.text@ == daemon_text(p@, Tone::Good, session_start_message(peer_addr@, peer_name@)),
{
    let mut m = "control channel connected from ".to_string();
    m.push_str(peer_addr);
    m.push_str(" (peer \"");
    m.push_str(peer_name.as_str());
    m.push_str("\")");
    state.control.set_connected_at(peer_addr.to_string(), Some(peer_name), now);
    daemon_line(p, false, Tone::Good, m.as_str())
}

/// What is said when a control session ends.
pub open spec fn session_end_message(peer_addr: Seq<char>) -> Seq<char> {
    "control channel disconnected from "@ + peer_addr + ", awaiting reconnect"@
}

/// Records that a control session has ended.
pub fn session_ended(p: &Palette, state: &mut SharedState, peer_addr: &str) -> (l: LogLine)
    ensures
        final(state).control@ == (ControlModel { connected: false, ..old(state).control@ }),
        final(state).role == old(state).role,
        final(state).started_at == old(state).started_at,
        final(state).links == old(state).links,
        !l.to_stderr,
        l.text@ == daemon_text(p@, Tone::Doubtful, session_end_message(peer_addr@)),
{
    state.control.set_disconnected();
    let mut m = "control channel disconnected from ".to_string();
    m.push_str(peer_addr);
    m.push_str(", awaiting reconnect");
    daemon_line(p, false, Tone::Doubtful, m.as_str())
}

/// What happens during a control session.
pub enum ControlEvent {
    /// A message came from the peer.
    Received(ControlMessage),
    /// Nothing more can be received.
    ReceiveFailed,
    /// A message of our own has to go out.
    Outgoing(ControlMessage),
    /// Sending failed.
    SendFailed,
}

/// What to do about it.
pub enum ControlAction {
    /// Send a message.
    Send(ControlMessage),
    /// Wait for the next event.
    Wait,
    /// End the session.
    End,
}

/// What a server does about an event: it answers a ping, ignores whatever else
/// the client sends, passes its own signals on, and ends the session when the
/// connection fails.
pub open spec fn control_reaction(event: ControlEvent) -> ControlAction {
    match event {
        ControlEvent::Received(ControlMessage::Ping) => ControlAction::Send(ControlMessage::Pong),
        ControlEvent::Received(_) => ControlAction::Wait,
        ControlEvent::Outgoing(m) => ControlAction::Send(m),
        ControlEvent::ReceiveFailed => ControlAction::End,
        ControlEvent::SendFailed => ControlAction::End,
    }
}

/// One step of a control session.
pub fn control_step(event: ControlEvent) -> (a: ControlAction)
    ensures
        a == control_reaction(event),
{
    match event {
        ControlEvent::Received(ControlMessage::Ping) => ControlAction::Send(ControlMessage::Pong),
        ControlEvent::Received(_) => ControlAction::Wait,
        ControlEvent::Outgoing(m) => ControlAction::Send(m),
        ControlEvent::ReceiveFailed => ControlAction::End,
        ControlEvent::SendFailed => ControlAction::End,
    }
}

/// Whatever the server has to tell the client goes out as it is: a request for a
/// stream names the link and the number that the connection was parked under.
pub proof fn law_signals_go_out_unchanged(m: ControlMessage)
    ensures
        control_reaction(ControlEvent::Outgoing(m)) == ControlAction::Send(m),
{
}

/// The server answers a ping with a pong and says nothing of its own accord.
pub proof fn law_server_only_answers_pings(event: ControlEvent, sent: ControlMessage)
    requires
        control_reaction(event) == ControlAction::Send(sent),
    ensures
        event == ControlEvent::Outgoing(sent) || (event == ControlEvent::Received(
            ControlMessage::Ping,
        ) && sent is Pong),
{
}

/// A session with the client lasts until the connection fails, and no longer.
pub proof fn law_session_lasts_until_the_connection_fails(event: ControlEvent)
    ensures
        control_reaction(event) is End <==> event is ReceiveFailed || event is SendFailed,
        control_reaction(event) is Wait <==> event is Received && event != ControlEvent::Received(
            ControlMessage::Ping,
        ),
{
}

// ---------------------------------------------------------------------
// Data connections
// ---------------------------------------------------------------------

/// What becomes of a data connection that has said which stream it is.
pub enum DataRoute<C> {
    /// Dial the target and relay.
    Dial {
        /// The link that the stream belongs to.
        link_id: String,
        /// Where to dial.
        target: String,
    },
    /// Relay to the connection that has been waiting for it.
    Relay {
        /// The link that the stream belongs to.
        link_id: String,
        /// The connection.
        conn: C,
    },
    /// Drop it; the text says why.
    Refuse(String),
}

/// What becomes of a data connection, by what it says.
#[verifier::ext_equal]
pub enum DataRouteModel<C> {
    Dial(Seq<char>, Seq<char>),
    Relay(Seq<char>, C),
    Refuse(Seq<char>),
}

impl<C> View for DataRoute<C> {
    type V = DataRouteModel<C>;

    open spec fn view(&self) -> DataRouteModel<C> {
        match self {
            DataRoute::Dial { link_id, target } => DataRouteModel::Dial(link_id@, target@),
            DataRoute::Relay { link_id, conn } => DataRouteModel::Relay(link_id@, *conn),
            DataRoute::Refuse(m) => DataRouteModel::Refuse(m@),
        }
    }
}

/// What is said of a link that the peer may not use.
pub open spec fn unauthorized_message(peer: Seq<char>, link_id: Seq<char>) -> Seq<char> {
    "peer \""@ + peer + "\" is not authorized for link \""@ + link_id + "\""@
}

/// What is said of a link that does not exist.
pub open spec fn unknown_link_message(link_id: Seq<char>) -> Seq<char> {
    "unknown link id \""@ + link_id + "\""@
}

/// What is said of a stream that nobody waits for.
pub open spec fn unknown_stream_message(stream_id: u64, link_id: Seq<char>) -> Seq<char> {
    "stream "@ + dec(stream_id as nat) + " for link \""@ + link_id
        + "\" is unknown or already timed out"@
}

/// What is said of a stream that does not fit its link.
pub open spec fn mismatch_message(link_id: Seq<char>) -> Seq<char> {
    "link \""@ + link_id + "\" mode/stream_id mismatch (protocol error)"@
}

/// Where a data connection goes. The peer has to be allowed to use the link,
/// and the link has to exist. A stream without a number goes to the target of a
/// forward link; one with a number goes to the connection that waits under that
/// number for this very link, which is a reverse link.
pub open spec fn data_route<C>(
    peer: Seq<char>,
    allowed: Set<Seq<char>>,
    links: Seq<LinkModel>,
    waiting: Map<u64, (Seq<char>, C)>,
    link_id: Seq<char>,
    stream_id: Option<u64>,
) -> DataRouteModel<C> {
    if !allowed.contains(link_id) {
        DataRouteModel::Refuse(unauthorized_message(peer, link_id))
    } else {
        match find_link(links, link_id) {
            None => DataRouteModel::Refuse(unknown_link_message(link_id)),
            Some(i) => match (links[i].mode, stream_id) {
                (LinkMode::Forward, None) => DataRouteModel::Dial(link_id, links[i].target->0),
                (LinkMode::Reverse, Some(id)) => if waits_for(waiting, link_id, id) {
                    DataRouteModel::Relay(link_id, waiting[id].1)
                } else {
                    DataRouteModel::Refuse(unknown_stream_message(id, link_id))
                },
                _ => DataRouteModel::Refuse(mismatch_message(link_id)),
            },
        }
    }
}

/// Whether a data connection claims a connection that waits.
pub open spec fn claims<C>(
    allowed: Set<Seq<char>>,
    links: Seq<LinkModel>,
    waiting: Map<u64, (Seq<char>, C)>,
    link_id: Seq<char>,
    stream_id: Option<u64>,
) -> bool {
    &&& allowed.contains(link_id)
    &&& find_link(links, link_id) matches Some(i) && links[i].mode is Reverse
    &&& stream_id matches Some(id) && waits_for(waiting, link_id, id)
}

/// Decides where a data connection of an authenticated peer goes. Only a stream
/// that claims a waiting connection changes what waits.
pub fn route_data<C>(
    peer: &ResolvedPeer,
    config: &Config,
    pending: &mut PendingStreams<C>,
    hello: &StreamHello,
) -> (r: DataRoute<C>)
    requires
        forall|i: int|
            0 <= i < config@.links.len() && (#[trigger] config@.links[i]).mode is Forward
                ==> config@.links[i].target is Some,
    ensures
        r@ == data_route(
            peer.name@,
            peer.links@,
            config@.links,
            old(pending).waiting(),
            hello.link_id@,
            hello.stream_id,
        ),
        final(pending).waiting() == (if claims(
            peer.links@,
            config@.links,
            old(pending).waiting(),
            hello.link_id@,
            hello.stream_id,
        ) {
            old(pending).waiting().remove(hello.stream_id->0)
        } else {
            old(pending).waiting()
        }),
        final(pending).next_id() == old(pending).next_id(),
{
    let link_id = hello.link_id.as_str();
    if !peer.links.contains(link_id) {
        let mut m = "peer \"".to_string();
        m.push_str(peer.name.as_str());
        m.push_str("\" is not authorized for link \"");
        m.push_str(link_id);
        m.push_str("\"");
        return DataRoute::Refuse(m);
    }
    let index = match link_index(&config.links, link_id) {
        Some(i) => i,
        None => {
            let mut m = "unknown link id \"".to_string();
            m.push_str(link_id);
            m.push_str("\"");
            return DataRoute::Refuse(m);
        },
    };
    let link = &config.links[index];
    assert(config@.links[index as int] == link@);
    match (link.mode, hello.stream_id) {
        (LinkMode::Forward, None) => {
            if let Some(target) = &link.target {
                return DataRoute::Dial { link_id: link_id.to_string(), target: target.clone() };
            }
            DataRoute::Refuse(String::new())
        },
        (LinkMode::Reverse, Some(stream_id)) => match pending.claim(link_id, stream_id) {
            Some(conn) => DataRoute::Relay { link_id: link_id.to_string(), conn },
            None => {
                let mut m = "stream ".to_string();
                push_dec(&mut m, stream_id);
                m.push_str(" for link \"");
                m.push_str(link_id);
                m.push_str("\" is unknown or already timed out");
                DataRoute::Refuse(m)
            },
        },
        _ => {
            let mut m = "link \"".to_string();
            m.push_str(link_id);
            m.push_str("\" mode/stream_id mismatch (protocol error)");
            DataRoute::Refuse(m)
        },
    }
}

/// A peer only ever reaches the links that it is allowed to use, whatever it
/// asks for: what is dialed is the target of such a link, and a connection that it
/// gets was parked for such a link.
pub proof fn law_only_allowed_links<C>(
    peer: Seq<char>,
    allowed: Set<Seq<char>>,
    links: Seq<LinkModel>,
    waiting: Map<u64, (Seq<char>, C)>,
    link_id: Seq<char>,
    stream_id: Option<u64>,
)
    ensures
        match data_route(peer, allowed, links, waiting, link_id, stream_id) {
            DataRouteModel::Refuse(_) => true,
            DataRouteModel::Dial(id, target) => {
                &&& allowed.contains(id)
                &&& exists|i: int|
                    0 <= i < links.len() && (#[trigger] links[i]).id == id && links[i].mode is Forward
                        && links[i].target->0 == target
            },
            DataRouteModel::Relay(id, conn) => {
                &&& allowed.contains(id)
                &&& exists|i: int|
                    0 <= i < links.len() && (#[trigger] links[i]).id == id && links[i].mode is Reverse
                &&& stream_id matches Some(n) && waiting.contains_key(n) && waiting[n] == (id, conn)
            },
        },
{
    lemma_find_link(links, link_id);
}

/// A connection that was parked for a link that is not in a peer's list is out of
/// that peer's reach: no number and no name gets it, and it goes on waiting.
pub proof fn law_other_links_are_out_of_reach<C>(
    peer: Seq<char>,
    allowed: Set<Seq<char>>,
    links: Seq<LinkModel>,
    waiting: Map<u64, (Seq<char>, C)>,
    link_id: Seq<char>,
    stream_id: u64,
)
    requires
        waiting.contains_key(stream_id),
        !allowed.contains(waiting[stream_id].0),
    ensures
        data_route(peer, allowed, links, waiting, link_id, Some(stream_id)) is Refuse,
        !claims(allowed, links, waiting, link_id, Some(stream_id)),
{
}

/// A reverse stream that is asked for by its number gets the connection that
/// was parked under it for its link, and nobody gets it a second time.
pub proof fn law_reverse_stream_is_paired<C>(
    peer: Seq<char>,
    allowed: Set<Seq<char>>,
    links: Seq<LinkModel>,
    waiting: Map<u64, (Seq<char>, C)>,
    link_id: Seq<char>,
    stream_id: u64,
    conn: C,
)
    requires
        allowed.contains(link_id),
        find_link(links, link_id) matches Some(i) && links[i].mode is Reverse,
    ensures
        data_route(
            peer,
            allowed,
            links,
            waiting.insert(stream_id, (link_id, conn)),
            link_id,
            Some(stream_id),
        ) == DataRouteModel::Relay(link_id, conn),
        data_route(
            peer,
            allowed,
            links,
            waiting.insert(stream_id, (link_id, conn)).remove(stream_id),
            link_id,
            Some(stream_id),
        ) is Refuse,
{
}

/// What is said of a data connection that came to nothing.
pub open spec fn data_failed_message(peer_addr: Seq<char>, error: Seq<char>) -> Seq<char> {
    "data connection from "@ + peer_addr + ": "@ + error
}

/// The line about a data connection that came to nothing.
pub fn data_failed(p: &Palette, peer_addr: &str, error: &str) -> (l: LogLine)
    ensures
        l.to_stderr,
        l.text@ == daemon_text(p@, Tone::Bad, data_failed_message(peer_addr@, error@)),
{
    let mut m = "data connection from ".to_string();
    m.push_str(peer_addr);
    m.push_str(": ");
    m.push_str(error);
    daemon_line(p, true, Tone::Bad, m.as_str())
}

/// What becomes of a data connection, by the first link of the name that it gives:
/// where its peer may use that link, a stream without a number is dialed to the target
/// of a forward link, and one with a number gets the connection that waits under it
/// for that link; everything else is refused, and the refusal says why.
pub proof fn law_data_connection_goes_where_its_link_says<C>(
    peer: Seq<char>,
    allowed: Set<Seq<char>>,
    links: Seq<LinkModel>,
    waiting: Map<u64, (Seq<char>, C)>,
    link_id: Seq<char>,
    stream_id: Option<u64>,
    i: int,
)
    ensures
        ({
            let route = data_route(peer, allowed, links, waiting, link_id, stream_id);
            let first = 0 <= i < links.len() && links[i].id == link_id && forall|j: int|
                0 <= j < i ==> (#[trigger] links[j]).id != link_id;
            &&& !allowed.contains(link_id) ==> route == DataRouteModel::Refuse::<C>(
                "peer \""@ + peer + "\" is not authorized for link \""@ + link_id + "\""@,
            )
            &&& allowed.contains(link_id) && (forall|j: int|
                0 <= j < links.len() ==> (#[trigger] links[j]).id != link_id) ==> route
                == DataRouteModel::Refuse::<C>("unknown link id \""@ + link_id + "\""@)
            &&& allowed.contains(link_id) && first ==> match (links[i].mode, stream_id) {
                (LinkMode::Forward, None) => route == DataRouteModel::Dial::<C>(
                    link_id,
                    links[i].target->0,
                ),
                (LinkMode::Reverse, Some(n)) => if waiting.contains_key(n) && waiting[n].0
                    == link_id {
                    route == DataRouteModel::Relay(link_id, waiting[n].1)
                } else {
                    route == DataRouteModel::Refuse::<C>(
                        "stream "@ + dec(n as nat) + " for link \""@ + link_id
                            + "\" is unknown or already timed out"@,
                    )
                },
                _ => route == DataRouteModel::Refuse::<C>(
                    "link \""@ + link_id + "\" mode/stream_id mismatch (protocol error)"@,
                ),
            }
        }),
{
    lemma_find_link(links, link_id);
    if 0 <= i < links.len() && links[i].id == link_id && (forall|j: int|
        0 <= j < i ==> (#[trigger] links[j]).id != link_id) {
        let k = find_link(links, link_id)->0;
        assert(links[k].id == link_id);
    }
}

/// A connection stops waiting exactly when it is handed to a stream.
pub proof fn law_claimed_exactly_when_relayed<C>(
    peer: Seq<char>,
    allowed: Set<Seq<char>>,
    links: Seq<LinkModel>,
    waiting: Map<u64, (Seq<char>, C)>,
    link_id: Seq<char>,
    stream_id: Option<u64>,
)
    ensures
        claims(allowed, links, waiting, link_id, stream_id) <==> data_route(
            peer,
            allowed,
            links,
            waiting,
            link_id,
            stream_id,
        ) is Relay,
{
}

/// The lines of the daemon name the address, the peer, the link and the stream that
/// they are about.
pub proof fn law_messages_name_what_they_are_about(
    addr: Seq<char>,
    name: Seq<char>,
    error: Seq<char>,
    stream_id: u64,
)
    ensures
        park_timeout_message(stream_id) == "stream "@ + dec(stream_id as nat)
            + " timed out waiting for the client to respond (offline?)"@,
        no_control_message(addr) == addr + ": control channel unavailable, dropping"@,
        control_failed_message(addr, error) == "control: handshake with "@ + addr + " failed: "@
            + error,
        control_timeout_message(addr) == "control: handshake with "@ + addr + " timed out"@,
        session_start_message(addr, name) == "control channel connected from "@ + addr
            + " (peer \""@ + name + "\")"@,
        session_end_message(addr) == "control channel disconnected from "@ + addr
            + ", awaiting reconnect"@,
        rejected_message(Channel::Control, addr) == "control"@ + ": rejected "@ + addr
            + " (too many recent handshake attempts)"@,
        rejected_message(Channel::Data, addr) == "data"@ + ": rejected "@ + addr
            + " (too many recent handshake attempts)"@,
{
}

/// A handshake and a parked connection may take ten seconds each.
pub proof fn law_times_of_the_server()
    ensures
        HANDSHAKE_TIMEOUT_SECS == 10,
        PARK_TIMEOUT_SECS == 10,
{
}

/// The model of a route has what the route has.
pub proof fn law_model_has_what_the_route_has<C>(link_id: String, target: String, conn: C)
    ensures
        (DataRoute::<C>::Dial { link_id, target })@ == DataRouteModel::Dial::<C>(link_id@, target@),
        (DataRoute::Relay { link_id, conn })@ == DataRouteModel::Relay(link_id@, conn),
        DataRoute::<C>::Refuse(target)@ == DataRouteModel::Refuse::<C>(target@),
{
}

/// What is said of a data connection that came to nothing names the address, the peer,
/// the link and the stream that it is about.
pub proof fn law_refusals_name_what_they_are_about(
    addr: Seq<char>,
    peer: Seq<char>,
    link_id: Seq<char>,
    n: u64,
    error: Seq<char>,
)
    ensures
        data_failed_message(addr, error) == "data connection from "@ + addr + ": "@ + error,
        unauthorized_message(peer, link_id) == "peer \""@ + peer
            + "\" is not authorized for link \""@ + link_id + "\""@,
        unknown_link_message(link_id) == "unknown link id \""@ + link_id + "\""@,
        unknown_stream_message(n, link_id) == "stream "@ + dec(n as nat) + " for link \""@ + link_id
            + "\" is unknown or already timed out"@,
        mismatch_message(link_id) == "link \""@ + link_id
            + "\" mode/stream_id mismatch (protocol error)"@,
{
}

} // verus!
