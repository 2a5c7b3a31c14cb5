//! Decisions of the two roles about their connections.

use ghostport::cli::resolve_peer;
use ghostport::client;
use ghostport::client::{Backoff, ClientAction, ClientEvent, OpenRoute};
use ghostport::config::{Config, LinkConfig, LinkMode, PeerConfig, Role};
use ghostport::links::{link_index, listeners};
use ghostport::log::{daemon_line, link_line, plain_link_line, Tone};
use ghostport::net::IpAddr;
use ghostport::peermatch::ResolvedPeer;
use ghostport::protocol::{ControlMessage, StreamHello};
use ghostport::ratelimit::HandshakeLimiter;
use ghostport::server;
use ghostport::server::{
    Admission, Channel, ControlAction, ControlEvent, DataRoute, HandshakeResult, PendingStreams,
};
use ghostport::stats::SharedState;
use ghostport::theme::Palette;

const R: &str = "\x1b[0m";

fn palette() -> Palette {
    Palette {
        green: "<g>".to_string(),
        orange: "<o>".to_string(),
        red: "<r>".to_string(),
        cyan: "<c>".to_string(),
        purple: "<p>".to_string(),
        pink: "<k>".to_string(),
    }
}

fn link(id: &str, mode: LinkMode, listen: Option<&str>, target: Option<&str>) -> LinkConfig {
    LinkConfig {
        id: id.to_string(),
        mode,
        listen: listen.map(|s| s.to_string()),
        target: target.map(|s| s.to_string()),
    }
}

fn config(role: Role, links: Vec<LinkConfig>) -> Config {
    Config {
        role,
        private_key_path: String::new(),
        peer_public_key: None,
        peers: vec![],
        listen_control: None,
        listen_data: None,
        server_control_addr: None,
        server_data_addr: None,
        links,
    }
}

fn server_config() -> Config {
    config(
        Role::Server,
        vec![
            link("db", LinkMode::Forward, None, Some("127.0.0.1:5432")),
            link("dev", LinkMode::Reverse, Some("0.0.0.0:8080"), None),
        ],
    )
}

fn peer(links: &[&str]) -> ResolvedPeer {
    let p = PeerConfig {
        name: "alice".to_string(),
        public_key: String::new(),
        links: links.iter().map(|l| l.to_string()).collect(),
    };
    resolve_peer(&p, vec![1; 32])
}

fn hello(link_id: &str, stream_id: Option<u64>) -> StreamHello {
    StreamHello { link_id: link_id.to_string(), stream_id }
}

fn refusal<C>(route: DataRoute<C>) -> String {
    match route {
        DataRoute::Refuse(m) => m,
        _ => panic!("the connection was not refused"),
    }
}

#[test]
fn a_forward_stream_is_dialed() {
    let mut pending: PendingStreams<u32> = PendingStreams::new();
    match server::route_data(&peer(&["db"]), &server_config(), &mut pending, &hello("db", None)) {
        DataRoute::Dial { link_id, target } => {
            assert_eq!(link_id, "db");
            assert_eq!(target, "127.0.0.1:5432");
        }
        _ => panic!("the target was not dialed"),
    }
}

#[test]
fn a_reverse_stream_is_paired_once() {
    let mut pending: PendingStreams<u32> = PendingStreams::new();
    let first = pending.park("dev", 70);
    let second = pending.park("dev", 71);
    assert_ne!(first, second);
    let p = peer(&["dev"]);
    let cfg = server_config();
    match server::route_data(&p, &cfg, &mut pending, &hello("dev", Some(second))) {
        DataRoute::Relay { link_id, conn } => {
            assert_eq!(link_id, "dev");
            assert_eq!(conn, 71);
        }
        _ => panic!("the stream was not paired"),
    }
    assert_eq!(
        refusal(server::route_data(&p, &cfg, &mut pending, &hello("dev", Some(second)))),
        format!("stream {second} for link \"dev\" is unknown or already timed out")
    );
    assert_eq!(pending.take(first), Some(70));
}

#[test]
fn a_peer_is_kept_to_its_own_links() {
    let mut pending: PendingStreams<u32> = PendingStreams::new();
    let id = pending.park("dev", 1);
    let cfg = server_config();
    assert_eq!(
        refusal(server::route_data(&peer(&["db"]), &cfg, &mut pending, &hello("dev", Some(id)))),
        "peer \"alice\" is not authorized for link \"dev\""
    );
    assert_eq!(pending.take(id), Some(1));
    assert_eq!(
        refusal(server::route_data(&peer(&["x"]), &cfg, &mut pending, &hello("x", None))),
        "unknown link id \"x\""
    );
    assert_eq!(
        refusal(server::route_data(&peer(&["db"]), &cfg, &mut pending, &hello("db", Some(3)))),
        "link \"db\" mode/stream_id mismatch (protocol error)"
    );
    assert_eq!(
        refusal(server::route_data(&peer(&["dev"]), &cfg, &mut pending, &hello("dev", None))),
        "link \"dev\" mode/stream_id mismatch (protocol error)"
    );
}

#[test]
fn the_number_of_another_links_connection_is_refused() {
    let mut cfg = server_config();
    cfg.links.push(link("admin", LinkMode::Reverse, Some("0.0.0.0:9090"), None));
    let mut pending: PendingStreams<u32> = PendingStreams::new();
    let id = pending.park("admin", 5);
    assert_eq!(
        refusal(server::route_data(&peer(&["dev"]), &cfg, &mut pending, &hello("dev", Some(id)))),
        format!("stream {id} for link \"dev\" is unknown or already timed out")
    );
    assert!(pending.claim("dev", id).is_none());
    match server::route_data(&peer(&["admin"]), &cfg, &mut pending, &hello("admin", Some(id))) {
        DataRoute::Relay { link_id, conn } => {
            assert_eq!(link_id, "admin");
            assert_eq!(conn, 5);
        }
        _ => panic!("the connection was gone"),
    }
    assert!(pending.claim("admin", id).is_none());
}

#[test]
fn parked_connections_expire() {
    let mut pending: PendingStreams<u32> = PendingStreams::new();
    let id = pending.park("dev", 9);
    let line = server::expire(&palette(), &mut pending, "dev", id).unwrap();
    assert!(line.to_stderr);
    assert_eq!(
        line.text,
        format!(
            "ghostport: [<c>dev{R}] <o>stream {id} timed out waiting for the client to respond (offline?){R}"
        )
    );
    assert!(server::expire(&palette(), &mut pending, "dev", id).is_none());
    let id = pending.park("dev", 10);
    let line = server::drop_unannounced(&palette(), &mut pending, "dev", id, "1.2.3.4:5");
    assert_eq!(
        line.text,
        format!("ghostport: [<c>dev{R}] <o>1.2.3.4:5: control channel unavailable, dropping{R}")
    );
    assert!(pending.take(id).is_none());
    match server::open_stream_signal("dev", 12) {
        ControlMessage::OpenStream { link_id, stream_id } => {
            assert_eq!(link_id, "dev");
            assert_eq!(stream_id, 12);
        }
        _ => panic!("not a request for a stream"),
    }
}

#[test]
fn too_many_connections_are_rejected_before_the_handshake() {
    let mut limiter = HandshakeLimiter::new();
    let ip = IpAddr::V4(0xc633_6407);
    let p = palette();
    for _ in 0..10 {
        match server::screen_connection(&p, &mut limiter, Channel::Control, ip, "8.8.8.8:1", 0) {
            Admission::Handshake(permit) => limiter.release(permit),
            Admission::Rejected(_) => panic!("rejected too early"),
        }
    }
    match server::screen_connection(&p, &mut limiter, Channel::Data, ip, "8.8.8.8:1", 0) {
        Admission::Handshake(_) => panic!("not rejected"),
        Admission::Rejected(line) => {
            assert!(line.to_stderr);
            assert_eq!(
                line.text,
                format!(
                    "ghostport: <o>data: rejected 8.8.8.8:1 (too many recent handshake attempts){R}"
                )
            );
        }
    }
}

#[test]
fn what_comes_of_a_control_handshake() {
    let peers = vec![peer(&[])];
    let p = palette();
    let done = server::control_handshake_done(&p, &peers, "a:1", HandshakeResult::Matched(0));
    assert!(matches!(done, Ok(name) if name == "alice"));
    let failed = HandshakeResult::Failed("no".to_string());
    match server::control_handshake_done(&p, &peers, "a:1", failed) {
        Ok(_) => panic!("a failed handshake was accepted"),
        Err(l) => assert_eq!(
            l.text,
            format!("ghostport: <r>control: handshake with a:1 failed: no{R}")
        ),
    }
    match server::control_handshake_done(&p, &peers, "a:1", HandshakeResult::TimedOut) {
        Ok(_) => panic!("a late handshake was accepted"),
        Err(l) => assert_eq!(
            l.text,
            format!("ghostport: <o>control: handshake with a:1 timed out{R}")
        ),
    }
}

#[test]
fn a_control_session_is_recorded() {
    let cfg = server_config();
    let p = palette();
    let mut state = SharedState::new_at(&cfg, 100);
    let line = server::session_started(&p, &mut state, "a:1", "alice".to_string(), 130);
    assert_eq!(
        line.text,
        format!("ghostport: <g>control channel connected from a:1 (peer \"alice\"){R}")
    );
    let snap = state.snapshot_at(&cfg, 140);
    assert!(snap.control_connected);
    assert_eq!(snap.control_connected_since_secs_ago, Some(10));
    let line = server::session_ended(&p, &mut state, "a:1");
    assert_eq!(
        line.text,
        format!("ghostport: <o>control channel disconnected from a:1, awaiting reconnect{R}")
    );
    assert!(!state.snapshot_at(&cfg, 140).control_connected);
    assert_eq!(
        server::data_failed(&p, "a:2", "gone").text,
        format!("ghostport: <r>data connection from a:2: gone{R}")
    );
}

#[test]
fn the_server_answers_pings_and_passes_its_signals_on() {
    assert!(matches!(
        server::control_step(ControlEvent::Received(ControlMessage::Ping)),
        ControlAction::Send(ControlMessage::Pong)
    ));
    assert!(matches!(
        server::control_step(ControlEvent::Received(ControlMessage::Pong)),
        ControlAction::Wait
    ));
    let signal = server::open_stream_signal("dev", 5);
    assert!(matches!(
        server::control_step(ControlEvent::Outgoing(signal)),
        ControlAction::Send(ControlMessage::OpenStream { stream_id: 5, .. })
    ));
    assert!(matches!(server::control_step(ControlEvent::ReceiveFailed), ControlAction::End));
    assert!(matches!(server::control_step(ControlEvent::SendFailed), ControlAction::End));
}

#[test]
fn the_client_serves_only_its_reverse_links() {
    let cfg = config(
        Role::Client,
        vec![
            link("db", LinkMode::Forward, Some("127.0.0.1:5432"), None),
            link("dev", LinkMode::Reverse, None, Some("127.0.0.1:3000")),
        ],
    );
    assert!(client::link_expects_reverse(&cfg, "dev"));
    assert!(!client::link_expects_reverse(&cfg, "db"));
    let open = |id: &str| {
        ClientEvent::Received(ControlMessage::OpenStream { link_id: id.to_string(), stream_id: 4 })
    };
    match client::control_step(&cfg, open("dev")) {
        ClientAction::OpenStream { link_id, stream_id } => {
            assert_eq!(link_id, "dev");
            assert_eq!(stream_id, 4);
        }
        _ => panic!("the stream was not opened"),
    }
    match client::control_step(&cfg, open("db")) {
        ClientAction::Complain(l) => assert_eq!(
            l.text,
            "ghostport: received OpenStream for unknown/non-reverse link \"db\", ignoring"
        ),
        _ => panic!("a forward link was served"),
    }
    assert!(matches!(
        client::control_step(&cfg, ClientEvent::PingDue),
        ClientAction::Send(ControlMessage::Ping)
    ));
    assert!(matches!(
        client::control_step(&cfg, ClientEvent::Received(ControlMessage::Ping)),
        ClientAction::Send(ControlMessage::Pong)
    ));
    assert!(matches!(
        client::control_step(&cfg, ClientEvent::Received(ControlMessage::Pong)),
        ClientAction::Wait
    ));
    assert!(matches!(client::control_step(&cfg, ClientEvent::ReceiveFailed), ClientAction::End));
    assert!(matches!(client::control_step(&cfg, ClientEvent::SendFailed), ClientAction::End));
}

#[test]
fn where_a_reverse_stream_goes() {
    let cfg = config(
        Role::Client,
        vec![
            link("dev", LinkMode::Reverse, None, Some("127.0.0.1:3000")),
            link("bad", LinkMode::Reverse, None, None),
        ],
    );
    match client::route_open_stream(&cfg, "dev", 1) {
        OpenRoute::Dial(t) => assert_eq!(t, "127.0.0.1:3000"),
        _ => panic!("the target was not dialed"),
    }
    match client::route_open_stream(&cfg, "bad", 17) {
        OpenRoute::Complain(l) => assert_eq!(
            l.text,
            "ghostport: [bad] reverse link has no target configured, can't fulfill stream 17"
        ),
        _ => panic!("a link without a target was served"),
    }
    assert!(matches!(client::route_open_stream(&cfg, "none", 1), OpenRoute::Nothing));
}

#[test]
fn pauses_double_up_to_half_a_minute() {
    let mut b = Backoff::new();
    let pauses: Vec<u64> = (0..7).map(|_| b.pause()).collect();
    assert_eq!(pauses, vec![1, 2, 4, 8, 16, 30, 30]);
    b.connected();
    assert_eq!(b.pause(), 1);
}

#[test]
fn listeners_of_a_mode_in_order() {
    let cfg = config(
        Role::Server,
        vec![
            link("a", LinkMode::Reverse, Some("0.0.0.0:1"), None),
            link("b", LinkMode::Forward, None, Some("127.0.0.1:2")),
            link("c", LinkMode::Reverse, Some("0.0.0.0:3"), None),
        ],
    );
    assert_eq!(
        listeners(&cfg, LinkMode::Reverse),
        vec![
            ("a".to_string(), "0.0.0.0:1".to_string()),
            ("c".to_string(), "0.0.0.0:3".to_string()),
        ]
    );
    assert_eq!(link_index(&cfg.links, "c"), Some(2));
    assert_eq!(link_index(&cfg.links, "d"), None);
}

#[test]
fn lines_name_the_daemon_and_the_link() {
    let p = palette();
    for (tone, mark) in [(Tone::Good, "<g>"), (Tone::Doubtful, "<o>"), (Tone::Bad, "<r>")] {
        let line = daemon_line(&p, false, tone, "hello");
        assert!(!line.to_stderr);
        assert_eq!(line.text, format!("ghostport: {mark}hello{R}"));
        let line = link_line(&p, true, "db", tone, "hello");
        assert!(line.to_stderr);
        assert_eq!(line.text, format!("ghostport: [<c>db{R}] {mark}hello{R}"));
    }
    let line = plain_link_line(&p, true, "db", "hello");
    assert_eq!(line.text, format!("ghostport: [<c>db{R}] hello"));
}

#[test]
fn links_work_from_end_to_end() {
    let server_cfg = server_config();
    let client_cfg = config(
        Role::Client,
        vec![
            link("dev", LinkMode::Reverse, None, Some("127.0.0.1:3000")),
            link("db", LinkMode::Forward, Some("127.0.0.1:5432"), None),
        ],
    );
    let p = peer(&["db", "dev"]);
    let mut pending: PendingStreams<&str> = PendingStreams::new();

    for (link_id, _) in listeners(&client_cfg, LinkMode::Forward) {
        match server::route_data(&p, &server_cfg, &mut pending, &hello(&link_id, None)) {
            DataRoute::Dial { target, .. } => assert_eq!(target, "127.0.0.1:5432"),
            _ => panic!("the target was not dialed"),
        }
    }

    for (link_id, listen) in listeners(&server_cfg, LinkMode::Reverse) {
        assert_eq!(listen, "0.0.0.0:8080");
        let id = pending.park(&link_id, "visitor");
        let signal = ClientEvent::Received(server::open_stream_signal(&link_id, id));
        let (link_id, stream_id) = match client::control_step(&client_cfg, signal) {
            ClientAction::OpenStream { link_id, stream_id } => (link_id, stream_id),
            _ => panic!("the stream was not opened"),
        };
        match client::route_open_stream(&client_cfg, &link_id, stream_id) {
            OpenRoute::Dial(target) => assert_eq!(target, "127.0.0.1:3000"),
            _ => panic!("the target was not dialed"),
        }
        let h = hello(&link_id, Some(stream_id));
        match server::route_data(&p, &server_cfg, &mut pending, &h) {
            DataRoute::Relay { conn, .. } => assert_eq!(conn, "visitor"),
            _ => panic!("the stream was not paired"),
        }
    }
}
