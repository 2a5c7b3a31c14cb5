//! What the two roles do together: a link that both sides are configured for
//! carries a connection from one end to the other.

use crate::client::{client_reaction, open_route, ClientEvent, ClientReaction, OpenRouteModel};
use crate::config::{is_valid_link, LinkMode, LinkModel, Role};
use crate::links::{find_link, lemma_find_link, listeners_of};
use crate::protocol::ControlMessage;
use crate::server::{control_reaction, data_route, ControlAction, ControlEvent, DataRouteModel};
use vstd::prelude::*;

verus! {

/// Links that nothing is wrong with on the side `role`.
pub open spec fn are_valid_links(role: Role, links: Seq<LinkModel>) -> bool {
    &&& forall|i: int| 0 <= i < links.len() ==> is_valid_link(role, #[trigger] links[i])
    &&& forall|i: int, j: int|
        0 <= j < i < links.len() ==> (#[trigger] links[j]).id != (#[trigger] links[i]).id
}

/// Link `i` is the one that is found under its name.
proof fn lemma_found(role: Role, links: Seq<LinkModel>, i: int)
    requires
        are_valid_links(role, links),
        0 <= i < links.len(),
    ensures
        find_link(links, links[i].id) == Some(i),
{
    let id = links[i].id;
    lemma_find_link(links, id);
    assert(links[i].id == id);
    let k = find_link(links, id)->0;
    assert(links[k].id == links[i].id);
}

proof fn lemma_listener(links: Seq<LinkModel>, i: int)
    requires
        0 <= i < links.len(),
    ensures
        listeners_of(links, links[i].mode).contains((links[i].id, links[i].listen->0)),
    decreases links.len(),
{
    let mode = links[i].mode;
    let front = links.drop_last();
    let l = (links[i].id, links[i].listen->0);
    if i == links.len() - 1 {
        assert(listeners_of(links, mode).last() == l);
    } else {
        lemma_listener(front, i);
        assert(front[i] == links[i]);
        let before = listeners_of(front, mode);
        let k = choose|k: int| 0 <= k < before.len() && before[k] == l;
        assert(listeners_of(links, mode)[k] == l);
    }
}

/// A forward link works: the client listens where its side of the link says, and
/// a stream that it opens for the link is dialed through to the target that the
/// server's side says, if the client is allowed to use it.
pub proof fn law_forward_link_reaches_its_target<C>(
    server: Seq<LinkModel>,
    s: int,
    client: Seq<LinkModel>,
    c: int,
    peer: Seq<char>,
    allowed: Set<Seq<char>>,
    waiting: Map<u64, (Seq<char>, C)>,
)
    requires
        are_valid_links(Role::Server, server),
        are_valid_links(Role::Client, client),
        0 <= s < server.len(),
        0 <= c < client.len(),
        server[s].id == client[c].id,
        server[s].mode is Forward,
        client[c].mode is Forward,
        allowed.contains(server[s].id),
    ensures
        client[c].listen is Some,
        listeners_of(client, LinkMode::Forward).contains((client[c].id, client[c].listen->0)),
        server[s].target is Some,
        data_route(peer, allowed, server, waiting, client[c].id, None) == DataRouteModel::Dial::<C>(
            server[s].id,
            server[s].target->0,
        ),
{
    assert(is_valid_link(Role::Client, client[c]));
    assert(is_valid_link(Role::Server, server[s]));
    lemma_found(Role::Server, server, s);
    lemma_listener(client, c);
}

/// A reverse link works: the server listens where its side of the link says. For a
/// connection that it has parked there it queues a request for a stream. What the
/// control session sends of it makes the client open that very stream: the client
/// dials the target that its side of the link says, and the stream that it opens
/// for it is joined with that connection, if the client is allowed to use the link.
pub proof fn law_reverse_link_reaches_its_target<C>(
    server: Seq<LinkModel>,
    s: int,
    client: Seq<LinkModel>,
    c: int,
    peer: Seq<char>,
    allowed: Set<Seq<char>>,
    waiting: Map<u64, (Seq<char>, C)>,
    stream_id: u64,
    conn: C,
    signal: ControlMessage,
)
    requires
        are_valid_links(Role::Server, server),
        are_valid_links(Role::Client, client),
        0 <= s < server.len(),
        0 <= c < client.len(),
        server[s].id == client[c].id,
        server[s].mode is Reverse,
        client[c].mode is Reverse,
        allowed.contains(server[s].id),
        signal matches ControlMessage::OpenStream { link_id: l, stream_id: n } && l@ == server[s].id
            && n == stream_id,
    ensures
        server[s].listen is Some,
        listeners_of(server, LinkMode::Reverse).contains((server[s].id, server[s].listen->0)),
        control_reaction(ControlEvent::Outgoing(signal)) matches ControlAction::Send(sent)
            && client_reaction(client, ClientEvent::Received(sent)) == ClientReaction::OpenStream(
            server[s].id,
            stream_id,
        ),
        client_reaction(client, ClientEvent::Received(signal)) == ClientReaction::OpenStream(
            client[c].id,
            stream_id,
        ),
        client[c].target is Some,
        open_route(client, client[c].id, stream_id) == OpenRouteModel::Dial(client[c].target->0),
        data_route(
            peer,
            allowed,
            server,
            waiting.insert(stream_id, (server[s].id, conn)),
            client[c].id,
            Some(stream_id),
        ) == DataRouteModel::Relay(server[s].id, conn),
{
    assert(is_valid_link(Role::Client, client[c]));
    assert(is_valid_link(Role::Server, server[s]));
    lemma_found(Role::Server, server, s);
    lemma_found(Role::Client, client, c);
    lemma_listener(server, s);
}

/// A ping of the client comes back as a pong, which the client takes in silently; and
/// a ping of the server's is answered by the client just so.
pub proof fn law_pings_come_back(links: Seq<LinkModel>)
    ensures
        client_reaction(links, ClientEvent::PingDue) matches ClientReaction::Send(ping)
            && control_reaction(ControlEvent::Received(ping)) matches ControlAction::Send(pong)
            && client_reaction(links, ClientEvent::Received(pong)) is Wait && ping is Ping && pong
            is Pong,
        client_reaction(links, ClientEvent::Received(ControlMessage::Ping))
            matches ClientReaction::Send(answer) && control_reaction(ControlEvent::Received(answer))
            is Wait && answer is Pong,
{
}

} // verus!
