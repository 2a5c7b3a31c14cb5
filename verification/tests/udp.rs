//! Forwarding of datagrams.

use ghostport::cli::resolve_peer;
use ghostport::config::{LinkMode, PeerConfig, Role};
use ghostport::keys::generate;
use ghostport::net::IpAddr;
use ghostport::noise::initiator;
use ghostport::peermatch::ResolvedPeer;
use ghostport::protocol::StreamHello;
use ghostport::ratelimit::HandshakeLimiter;
use ghostport::udp::client::{
    flow_step, setup_line, udp_listeners, FlowAction, FlowEvent, SetupResult,
};
use ghostport::udp::server::{
    handshake_failed, on_datagram, route_session, session_step, Context, DatagramAction,
    SessionAction, SessionEvent,
};
use ghostport::udp::{can_serve, Transport, UdpConfig, UdpLink};

fn link(id: &str, mode: LinkMode, transport: Transport) -> UdpLink {
    UdpLink {
        id: id.to_string(),
        mode,
        transport,
        listen: Some(format!("127.0.0.1:{}", 1000 + id.len())),
        target: Some("127.0.0.1:53".to_string()),
    }
}

fn config() -> UdpConfig {
    UdpConfig {
        listen_udp: Some("0.0.0.0:9002".to_string()),
        server_udp_addr: None,
        links: vec![
            link("dns", LinkMode::Forward, Transport::Udp),
            link("web", LinkMode::Forward, Transport::Tcp),
            link("back", LinkMode::Reverse, Transport::Udp),
        ],
    }
}

fn peer(key: Vec<u8>, links: &[&str]) -> ResolvedPeer {
    let p = PeerConfig {
        name: "alice".to_string(),
        public_key: String::new(),
        links: links.iter().map(|l| l.to_string()).collect(),
    };
    resolve_peer(&p, key)
}

fn hello(id: &str) -> StreamHello {
    StreamHello { link_id: id.to_string(), stream_id: None }
}

fn text_of(r: Result<String, ghostport::log::LogLine>) -> String {
    match r {
        Ok(t) => t,
        Err(l) => l.text,
    }
}

#[test]
fn only_allowed_datagram_links_are_reached() {
    let p = peer(vec![0; 32], &["dns", "web"]);
    let cfg = config();
    assert_eq!(text_of(route_session(&cfg, "a:1", &p, &hello("dns"))), "127.0.0.1:53");
    assert_eq!(
        text_of(route_session(&cfg, "a:1", &p, &hello("web"))),
        "ghostport-udp: a:1: link \"web\" isn't a UDP forward link"
    );
    assert_eq!(
        text_of(route_session(&cfg, "a:1", &p, &hello("back"))),
        "ghostport-udp: a:1: link \"back\" isn't a UDP forward link"
    );
    assert_eq!(
        text_of(route_session(&cfg, "a:1", &p, &hello("no"))),
        "ghostport-udp: a:1: unknown link id \"no\""
    );
    let q = peer(vec![0; 32], &[]);
    assert_eq!(
        text_of(route_session(&cfg, "a:1", &q, &hello("dns"))),
        "ghostport-udp: peer \"alice\" is not authorized for link \"dns\""
    );
}

#[test]
fn a_first_datagram_opens_a_session_for_a_known_key_only() {
    let server = generate();
    let client = generate();
    let stranger = generate();
    let ctx = Context {
        config: config(),
        private_key: server.private.clone(),
        peers: vec![peer(client.public.clone(), &["dns"])],
    };
    let mut limiter = HandshakeLimiter::new();
    let ip = IpAddr::V4(0xcb00_7109);
    let mut buf = vec![0u8; 65535];

    let mut good = initiator(&client.private, &server.public).unwrap();
    let n = good.write_message(&[], &mut buf).unwrap();
    match on_datagram(&ctx, &mut limiter, false, ip, 0, &buf[..n]) {
        DatagramAction::Start { peer_index, state } => {
            assert_eq!(peer_index, 0);
            assert!(state.is_my_turn());
        }
        _ => panic!("the session was not opened"),
    }
    assert!(matches!(
        on_datagram(&ctx, &mut limiter, true, ip, 0, &buf[..n]),
        DatagramAction::Forward
    ));

    let mut bad = initiator(&stranger.private, &server.public).unwrap();
    let n = bad.write_message(&[], &mut buf).unwrap();
    assert!(matches!(
        on_datagram(&ctx, &mut limiter, false, ip, 0, &buf[..n]),
        DatagramAction::Discard
    ));
}

#[test]
fn a_flood_of_first_datagrams_is_dropped() {
    let server = generate();
    let client = generate();
    let ctx = Context {
        config: config(),
        private_key: server.private.clone(),
        peers: vec![peer(client.public.clone(), &[])],
    };
    let mut limiter = HandshakeLimiter::new();
    let ip = IpAddr::V4(0xcb00_7109);
    for _ in 0..10 {
        assert!(matches!(
            on_datagram(&ctx, &mut limiter, false, ip, 0, &[0u8; 10]),
            DatagramAction::Discard
        ));
    }
    let mut good = initiator(&client.private, &server.public).unwrap();
    let mut buf = vec![0u8; 65535];
    let n = good.write_message(&[], &mut buf).unwrap();
    assert!(matches!(
        on_datagram(&ctx, &mut limiter, false, ip, 0, &buf[..n]),
        DatagramAction::Discard
    ));
}

#[test]
fn datagrams_go_on_as_they_came() {
    assert!(matches!(
        session_step(SessionEvent::FromTunnel(vec![1, 2])),
        SessionAction::ToTarget(b) if b == vec![1, 2]
    ));
    assert!(matches!(
        session_step(SessionEvent::FromTarget(vec![3])),
        SessionAction::ToTunnel(b) if b == vec![3]
    ));
    assert!(matches!(session_step(SessionEvent::TunnelFailed), SessionAction::End));
    assert!(matches!(session_step(SessionEvent::TargetFailed), SessionAction::End));
    assert!(matches!(session_step(SessionEvent::Idle), SessionAction::End));
    assert!(matches!(
        flow_step(FlowEvent::FromLocal(vec![1, 2])),
        FlowAction::ToTunnel(b) if b == vec![1, 2]
    ));
    assert!(matches!(
        flow_step(FlowEvent::FromTunnel(vec![3])),
        FlowAction::ToLocal(b) if b == vec![3]
    ));
    assert!(matches!(flow_step(FlowEvent::LocalClosed), FlowAction::End));
    assert!(matches!(flow_step(FlowEvent::TunnelFailed), FlowAction::End));
    assert!(matches!(flow_step(FlowEvent::Idle), FlowAction::End));
}

#[test]
fn where_datagrams_are_accepted() {
    assert_eq!(
        udp_listeners(&config()),
        vec![("dns".to_string(), "127.0.0.1:1003".to_string())]
    );
}

#[test]
fn lines_about_flows() {
    let line = |r: SetupResult| setup_line("dns", "l:1", "s:2", r);
    assert_eq!(
        line(SetupResult::NoSocket("e".to_string())).text,
        "ghostport-udp: [dns] l:1: failed to open tunnel socket: e"
    );
    assert_eq!(
        line(SetupResult::NotConnected("e".to_string())).text,
        "ghostport-udp: [dns] l:1: failed to connect to s:2: e"
    );
    let l = line(SetupResult::NotPrepared("e".to_string()));
    assert_eq!(l.text, "ghostport-udp: [dns] l:1: e");
    assert!(l.to_stderr);
    assert_eq!(
        line(SetupResult::HandshakeFailed("e".to_string())).text,
        "ghostport-udp: [dns] l:1: handshake failed: e"
    );
    assert_eq!(
        line(SetupResult::HandshakeTimedOut).text,
        "ghostport-udp: [dns] l:1: handshake timed out"
    );
    assert_eq!(
        line(SetupResult::HelloNotSent).text,
        "ghostport-udp: [dns] l:1: failed to send StreamHello"
    );
    let l = line(SetupResult::Established);
    assert_eq!(l.text, "ghostport-udp: [dns] flow from l:1 established");
    assert!(!l.to_stderr);
    assert_eq!(
        handshake_failed("a:1", "alice", "no").text,
        "ghostport-udp: handshake with a:1 (\"alice\") failed: no"
    );
}

#[test]
fn reverse_datagram_links_cannot_be_served() {
    let mut cfg = config();
    assert!(!can_serve(Role::Server, &cfg));
    cfg.links.pop();
    assert!(can_serve(Role::Server, &cfg));
    assert!(!can_serve(Role::Client, &cfg));
    cfg.server_udp_addr = Some("example.com:9002".to_string());
    assert!(can_serve(Role::Client, &cfg));
    cfg.links[0].listen = None;
    assert!(!can_serve(Role::Client, &cfg));
    cfg.links[0].target = None;
    assert!(!can_serve(Role::Server, &cfg));
}
