//! Client role: assumed to be behind networks that cannot be reached. It only
//! ever dials out, for the control connection and for every data connection,
//! also those that serve a reverse link. Here stand its decisions; the sockets
//! are driven from outside.

use crate::config::{Config, LinkMode, LinkModel};
use crate::links::{find_link, link_index};
use crate::log::LogLine;
use crate::protocol::ControlMessage;
use crate::stats::SharedState;
use crate::text::{dec, push_dec, str_eq};
use vstd::prelude::*;

verus! {

/// How often the client sends a ping, in seconds. It keeps mappings on the way
/// alive.
pub const PING_INTERVAL_SECS: u64 = 15;

/// The first pause before dialing again, in seconds.
pub const MIN_BACKOFF_SECS: u64 = 1;

/// The longest pause before dialing again, in seconds.
pub const MAX_BACKOFF_SECS: u64 = 30;

/// Everything that one running client needs.
pub struct Context {
    /// The configuration, which has been validated.
    pub config: Config,
    /// This instance's own static private key.
    pub private_key: Vec<u8>,
    /// The public key of the one server that this client trusts.
    pub peer_public_key: Vec<u8>,
    /// Counters and the state of the control connection.
    pub state: SharedState,
    /// Where the status socket lives.
    pub socket_path: String,
}

// ---------------------------------------------------------------------
// Dialing again
// ---------------------------------------------------------------------

/// The pause after one of `secs` seconds: twice as long, up to the longest.
pub open spec fn next_backoff(secs: nat) -> nat {
    if secs * 2 <= MAX_BACKOFF_SECS {
        secs * 2
    } else {
        MAX_BACKOFF_SECS as nat
    }
}

/// The pause that follows `n` others since the last connection.
pub open spec fn backoff_after(n: nat) -> nat
    decreases n,
{
    if n == 0 {
        MIN_BACKOFF_SECS as nat
    } else {
        next_backoff(backoff_after((n - 1) as nat))
    }
}

/// How long to pause before dialing again.
pub struct Backoff {
    secs: u64,
}

impl Backoff {
    /// The pause that comes next, in seconds.
    pub closed spec fn secs(&self) -> nat {
        self.secs as nat
    }

    /// A pause is never longer than the longest.
    pub open spec fn wf(&self) -> bool {
        MIN_BACKOFF_SECS <= self.secs() <= MAX_BACKOFF_SECS
    }

    /// Before the first attempt.
    pub fn new() -> (b: Backoff)
        ensures
            b.wf(),
            b.secs() == backoff_after(0),
    {
        Backoff { secs: MIN_BACKOFF_SECS }
    }

    /// The connection was made: the next pause is the shortest again.
    pub fn connected(&mut self)
        ensures
            final(self).wf(),
            final(self).secs() == backoff_after(0),
    {
        self.secs = MIN_BACKOFF_SECS;
    }

    /// The pause to make now, in seconds; the next one is longer.
    pub fn pause(&mut self) -> (secs: u64)
        requires
            old(self).wf(),
        ensures
            secs == old(self).secs(),
            final(self).secs() == next_backoff(old(self).secs()),
            final(self).wf(),
    {
        let now: u64 = self.secs;
        let next: u64 = now * 2;
        self.secs = if next <= MAX_BACKOFF_SECS {
            next
        } else {
            MAX_BACKOFF_SECS
        };
        now
    }
}

/// Pauses only grow while no connection is made, and are thirty seconds from
/// the sixth on.
pub proof fn law_backoff(n: nat)
    ensures
        MIN_BACKOFF_SECS <= backoff_after(n) <= MAX_BACKOFF_SECS,
        backoff_after(n) <= backoff_after(n + 1),
        n >= 5 ==> backoff_after(n) == MAX_BACKOFF_SECS,
    decreases n,
{
    reveal_with_fuel(backoff_after, 7);
    if n > 0 {
        law_backoff((n - 1) as nat);
    }
}

// ---------------------------------------------------------------------
// The control session
// ---------------------------------------------------------------------

/// What happens during a control session.
pub enum ClientEvent {
    /// It is time for a ping.
    PingDue,
    /// A message came from the server.
    Received(ControlMessage),
    /// Nothing more can be received.
    ReceiveFailed,
    /// Sending failed.
    SendFailed,
}

/// What to do about it.
pub enum ClientAction {
    /// Send a message.
    Send(ControlMessage),
    /// Wait for the next event.
    Wait,
    /// Serve a stream of a reverse link.
    OpenStream {
        /// The link.
        link_id: String,
        /// The number of the stream.
        stream_id: u64,
    },
    /// Print a line, and wait for the next event.
    Complain(LogLine),
    /// End the session.
    End,
}

/// What a client does about an event, by what it says.
#[verifier::ext_equal]
pub enum ClientReaction {
    Send(ControlMessage),
    Wait,
    OpenStream(Seq<char>, u64),
    Complain(Seq<char>),
    End,
}

impl View for ClientAction {
    type V = ClientReaction;

    open spec fn view(&self) -> ClientReaction {
        match self {
            ClientAction::Send(m) => ClientReaction::Send(*m),
            ClientAction::Wait => ClientReaction::Wait,
            ClientAction::OpenStream { link_id, stream_id } => ClientReaction::OpenStream(
                link_id@,
                *stream_id,
            ),
            ClientAction::Complain(l) => ClientReaction::Complain(l.text@),
            ClientAction::End => ClientReaction::End,
        }
    }
}

/// Whether a reverse link of that name is configured.
pub open spec fn expects_reverse(links: Seq<LinkModel>, link_id: Seq<char>) -> bool {
    exists|i: int| 0 <= i < links.len() && (#[trigger] links[i]).id == link_id && links[i].mode is Reverse
}

/// Whether a reverse link of that name is configured.
pub fn link_expects_reverse(config: &Config, link_id: &str) -> (r: bool)
    ensures
        r == expects_reverse(config@.links, link_id@),
{
    let mut i: usize = 0;
    while i < config.links.len()
        invariant
            i <= config.links@.len(),
            forall|j: int|
                0 <= j < i ==> !((#[trigger] config@.links[j]).id == link_id@
                    && config@.links[j].mode is Reverse),
        decreases config.links@.len() - i,
    {
        assert(config@.links[i as int] == config.links@[i as int]@);
        if config.links[i].mode == LinkMode::Reverse && str_eq(config.links[i].id.as_str(), link_id) {
            return true;
        }
        i = i + 1;
    }
    false
}

/// What is said of a stream for a link that has none.
pub open spec fn unexpected_stream_text(link_id: Seq<char>) -> Seq<char> {
    "ghostport: received OpenStream for unknown/non-reverse link \""@ + link_id + "\", ignoring"@
}

/// What a client does about an event: it answers pings, sends its own when they
/// are due, serves the streams of its reverse links and no others, and ends the
/// session when the connection fails.
pub open spec fn client_reaction(links: Seq<LinkModel>, event: ClientEvent) -> ClientReaction {
    match event {
        ClientEvent::PingDue => ClientReaction::Send(ControlMessage::Ping),
        ClientEvent::Received(ControlMessage::Pong) => ClientReaction::Wait,
        ClientEvent::Received(ControlMessage::Ping) => ClientReaction::Send(ControlMessage::Pong),
        ClientEvent::Received(ControlMessage::OpenStream { link_id, stream_id }) => if expects_reverse(
            links,
            link_id@,
        ) {
            ClientReaction::OpenStream(link_id@, stream_id)
        } else {
            ClientReaction::Complain(unexpected_stream_text(link_id@))
        },
        ClientEvent::ReceiveFailed => ClientReaction::End,
        ClientEvent::SendFailed => ClientReaction::End,
    }
}

/// One step of a control session.
pub fn control_step(config: &Config, event: ClientEvent) -> (a: ClientAction)
    ensures
        a@ == client_reaction(config@.links, event),
        a matches ClientAction::Complain(l) ==> l.to_stderr,
{
    match event {
        ClientEvent::PingDue => ClientAction::Send(ControlMessage::Ping),
        ClientEvent::Received(ControlMessage::Pong) => ClientAction::Wait,
        ClientEvent::Received(ControlMessage::Ping) => ClientAction::Send(ControlMessage::Pong),
        ClientEvent::Received(ControlMessage::OpenStream { link_id, stream_id }) => {
            if link_expects_reverse(config, link_id.as_str()) {
                ClientAction::OpenStream { link_id, stream_id }
            } else {
                let mut text = "ghostport: received OpenStream for unknown/non-reverse link \"".to_string();
                text.push_str(link_id.as_str());
                text.push_str("\", ignoring");
                ClientAction::Complain(LogLine { to_stderr: true, text })
            }
        },
        ClientEvent::ReceiveFailed => ClientAction::End,
        ClientEvent::SendFailed => ClientAction::End,
    }
}

// ---------------------------------------------------------------------
// Streams of reverse links
// ---------------------------------------------------------------------

/// What becomes of a stream that the server asks for.
pub enum OpenRoute {
    /// Dial this target, and then the server.
    Dial(String),
    /// There is no such link: nothing is done.
    Nothing,
    /// The link cannot be served; the line says why.
    Complain(LogLine),
}

/// What becomes of such a stream, by what it says.
#[verifier::ext_equal]
pub enum OpenRouteModel {
    Dial(Seq<char>),
    Nothing,
    Complain(Seq<char>),
}

impl View for OpenRoute {
    type V = OpenRouteModel;

    open spec fn view(&self) -> OpenRouteModel {
        match self {
            OpenRoute::Dial(t) => OpenRouteModel::Dial(t@),
            OpenRoute::Nothing => OpenRouteModel::Nothing,
            OpenRoute::Complain(l) => OpenRouteModel::Complain(l.text@),
        }
    }
}

/// What is said of a link that has no target.
pub open spec fn no_target_text(link_id: Seq<char>, stream_id: u64) -> Seq<char> {
    "ghostport: ["@ + link_id + "] reverse link has no target configured, can't fulfill stream "@
        + dec(stream_id as nat)
}

/// What becomes of a stream of a link: the target of the first link of that
/// name is dialed.
pub open spec fn open_route(links: Seq<LinkModel>, link_id: Seq<char>, stream_id: u64) -> OpenRouteModel {
    match find_link(links, link_id) {
        None => OpenRouteModel::Nothing,
        Some(i) => match links[i].target {
            Some(target) => OpenRouteModel::Dial(target),
            None => OpenRouteModel::Complain(no_target_text(link_id, stream_id)),
        },
    }
}

/// Decides what becomes of a stream that the server asks for.
pub fn route_open_stream(config: &Config, link_id: &str, stream_id: u64) -> (r: OpenRoute)
    ensures
        r@ == open_route(config@.links, link_id@, stream_id),
        r matches OpenRoute::Complain(l) ==> l.to_stderr,
{
    match link_index(&config.links, link_id) {
        None => OpenRoute::Nothing,
        Some(i) => {
            assert(config@.links[i as int] == config.links@[i as int]@);
            match &config.links[i].target {
                Some(target) => OpenRoute::Dial(target.clone()),
                None => {
                    let mut text = "ghostport: [".to_string();
                    text.push_str(link_id);
                    text.push_str("] reverse link has no target configured, can't fulfill stream ");
                    push_dec(&mut text, stream_id);
                    OpenRoute::Complain(LogLine { to_stderr: true, text })
                },
            }
        },
    }
}

/// In a valid configuration every stream that the client is asked to serve for
/// one of its reverse links has a target to dial.
pub proof fn law_reverse_streams_have_a_target(
    links: Seq<LinkModel>,
    link_id: Seq<char>,
    stream_id: u64,
)
    requires
        expects_reverse(links, link_id),
        forall|i: int|
            0 <= i < links.len() ==> crate::config::is_valid_link(
                crate::config::Role::Client,
                #[trigger] links[i],
            ),
        forall|i: int, j: int|
            0 <= j < i < links.len() ==> (#[trigger] links[j]).id != (#[trigger] links[i]).id,
    ensures
        open_route(links, link_id, stream_id) is Dial,
{
    crate::links::lemma_find_link(links, link_id);
    let i = choose|i: int|
        0 <= i < links.len() && (#[trigger] links[i]).id == link_id && links[i].mode is Reverse;
    let k = find_link(links, link_id)->0;
    assert(links[k].id == links[i].id);
    assert(k == i);
    assert(crate::config::is_valid_link(crate::config::Role::Client, links[i]));
}

/// The pause is one second at first, and twice as long each time until it is thirty
/// seconds.
pub proof fn law_pauses_double(n: nat)
    ensures
        backoff_after(0) == 1,
        backoff_after(n + 1) == (if 2 * backoff_after(n) <= 30 {
            2 * backoff_after(n)
        } else {
            30
        }),
        next_backoff(n) == (if 2 * n <= 30 {
            2 * n
        } else {
            30
        }),
{
}

/// A client opens a stream exactly when the server asks for one of a reverse link that
/// is configured, and then that very stream; a request for anything else is
/// complained of.
pub proof fn law_client_opens_what_is_asked_for(
    links: Seq<LinkModel>,
    event: ClientEvent,
    link_id: Seq<char>,
    stream_id: u64,
)
    ensures
        client_reaction(links, event) == ClientReaction::OpenStream(link_id, stream_id) <==> {
            &&& event matches ClientEvent::Received(
                ControlMessage::OpenStream { link_id: l, stream_id: n },
            ) && l@ == link_id && n == stream_id
            &&& exists|i: int|
                0 <= i < links.len() && (#[trigger] links[i]).id == link_id && links[i].mode is Reverse
        },
        (event matches ClientEvent::Received(m) && m is OpenStream) && !(client_reaction(
            links,
            event,
        ) is OpenStream) ==> client_reaction(links, event) is Complain,
{
}

/// A client sends a ping when it is due and a pong for a ping, and nothing else; it
/// ends the session exactly when the connection fails.
pub proof fn law_client_sends_pings_and_pongs(links: Seq<LinkModel>, event: ClientEvent)
    ensures
        client_reaction(links, event) matches ClientReaction::Send(m) ==> (event is PingDue && m
            is Ping) || (event == ClientEvent::Received(ControlMessage::Ping) && m is Pong),
        client_reaction(links, ClientEvent::PingDue) is Send,
        client_reaction(links, ClientEvent::Received(ControlMessage::Ping)) is Send,
        client_reaction(links, ClientEvent::Received(ControlMessage::Pong)) is Wait,
        client_reaction(links, event) is End <==> event is ReceiveFailed || event is SendFailed,
{
}

/// A stream is dialed to the target of the first link of its name, whatever comes
/// behind it; without such a link nothing is done.
pub proof fn law_stream_is_dialed_to_its_link(
    links: Seq<LinkModel>,
    i: int,
    link_id: Seq<char>,
    stream_id: u64,
)
    ensures
        (0 <= i < links.len() && links[i].id == link_id && forall|j: int|
            0 <= j < i ==> (#[trigger] links[j]).id != link_id) ==> {
            &&& links[i].target is Some ==> open_route(links, link_id, stream_id)
                == OpenRouteModel::Dial(links[i].target->0)
            &&& links[i].target is None ==> open_route(links, link_id, stream_id) is Complain
        },
        open_route(links, link_id, stream_id) is Nothing <==> forall|j: int|
            0 <= j < links.len() ==> (#[trigger] links[j]).id != link_id,
{
    crate::links::lemma_find_link(links, link_id);
    if 0 <= i < links.len() && links[i].id == link_id && (forall|j: int|
        0 <= j < i ==> (#[trigger] links[j]).id != link_id) {
        let k = crate::links::find_link(links, link_id)->0;
        assert(links[k].id == link_id);
    }
}

/// The complaints of a client name the link and the stream that they are about.
pub proof fn law_complaints_name_the_link(links: Seq<LinkModel>, link_id: Seq<char>, stream_id: u64)
    ensures
        unexpected_stream_text(link_id)
            == "ghostport: received OpenStream for unknown/non-reverse link \""@ + link_id
            + "\", ignoring"@,
        open_route(links, link_id, stream_id) matches OpenRouteModel::Complain(text) ==> text
            == "ghostport: ["@ + link_id
            + "] reverse link has no target configured, can't fulfill stream "@ + dec(
            stream_id as nat,
        ),
        forall|l: String, event: ClientEvent|
            event == ClientEvent::Received(
                ControlMessage::OpenStream { link_id: l, stream_id },
            ) ==> (#[trigger] client_reaction(links, event) matches ClientReaction::Complain(text)
                ==> text == #[trigger] unexpected_stream_text(l@)),
{
}

/// A ping is due every fifteen seconds, and the pauses before dialing again lie between
/// one second and thirty.
pub proof fn law_times_of_the_client()
    ensures
        PING_INTERVAL_SECS == 15,
        MIN_BACKOFF_SECS == 1,
        MAX_BACKOFF_SECS == 30,
{
}

/// The models of what a client does have what it does.
pub proof fn law_model_has_what_the_client_does(
    m: ControlMessage,
    link_id: String,
    stream_id: u64,
    l: LogLine,
)
    ensures
        ClientAction::Send(m)@ == ClientReaction::Send(m),
        ClientAction::Wait@ == ClientReaction::Wait,
        (ClientAction::OpenStream { link_id, stream_id })@ == ClientReaction::OpenStream(
            link_id@,
            stream_id,
        ),
        ClientAction::Complain(l)@ == ClientReaction::Complain(l.text@),
        ClientAction::End@ == ClientReaction::End,
        OpenRoute::Dial(link_id)@ == OpenRouteModel::Dial(link_id@),
        OpenRoute::Nothing@ == OpenRouteModel::Nothing,
        OpenRoute::Complain(l)@ == OpenRouteModel::Complain(l.text@),
{
}

} // verus!
