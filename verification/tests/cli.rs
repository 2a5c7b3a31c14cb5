//! The command line, and small helpers behind it.

use ghostport::cli::{
    check_before_start, default_socket_path, expand_tilde, find_partners, fingerprint_lines,
    invalid_lines, keygen_lines, status_lines, valid_line, Partners,
};
use ghostport::config::{Config, LinkConfig, LinkMode, PeerConfig, Role};
use ghostport::keys::{encode_public_key, fingerprint, generate};
use ghostport::net::{parse_ip, parses_as_socket_addr, IpAddr};
use ghostport::stats::{LinkSnapshot, StatusSnapshot};
use ghostport::text::{join, pad_left, pad_right, path_join, split_words, trim};
use ghostport::theme;
use ghostport::theme::Palette;

fn palette() -> Palette {
    Palette {
        green: "<g>".to_string(),
        orange: "<o>".to_string(),
        red: "<r>".to_string(),
        cyan: "<c>".to_string(),
        purple: "<p>".to_string(),
        pink: "<k>".to_string(),
    }
}

const R: &str = "\x1b[0m";

fn client_config() -> Config {
    Config {
        role: Role::Client,
        private_key_path: "id.key".to_string(),
        peer_public_key: Some(encode_public_key(&[7; 32])),
        peers: vec![],
        listen_control: None,
        listen_data: None,
        server_control_addr: Some("example.com:9000".to_string()),
        server_data_addr: Some("example.com:9001".to_string()),
        links: vec![],
    }
}

fn server_config() -> Config {
    Config {
        role: Role::Server,
        private_key_path: "id.key".to_string(),
        peer_public_key: None,
        peers: vec![PeerConfig {
            name: "alice".to_string(),
            public_key: encode_public_key(&[9; 32]),
            links: vec!["a".to_string(), "b".to_string()],
        }],
        listen_control: Some("0.0.0.0:1".to_string()),
        listen_data: Some("0.0.0.0:2".to_string()),
        server_control_addr: None,
        server_data_addr: None,
        links: vec![
            LinkConfig {
                id: "a".to_string(),
                mode: LinkMode::Forward,
                listen: None,
                target: Some("127.0.0.1:1".to_string()),
            },
            LinkConfig {
                id: "b".to_string(),
                mode: LinkMode::Reverse,
                listen: Some("127.0.0.1:1".to_string()),
                target: None,
            },
        ],
    }
}

#[test]
fn paths_below_the_home_directory() {
    assert_eq!(expand_tilde("~/a/b", Some("/home/x")), "/home/x/a/b");
    assert_eq!(expand_tilde("~/a", None), "/a");
    assert_eq!(expand_tilde("/a/~/b", Some("/home/x")), "/a/~/b");
    assert_eq!(expand_tilde("~", Some("/home/x")), "~");
    assert_eq!(
        default_socket_path(Some("/home/x")),
        "/home/x/.local/state/ghostport/ghostport.sock"
    );
    assert_eq!(default_socket_path(None), "/.local/state/ghostport/ghostport.sock");
    assert_eq!(path_join("/a/", "b"), "/a/b");
    assert_eq!(path_join("/a", "/b"), "/b");
}

#[test]
fn what_is_said_of_a_valid_configuration() {
    assert_eq!(
        valid_line(&palette(), "c.toml", &client_config()),
        format!("ghostport: c.toml is <g>valid{R} (Client role, 0 links)")
    );
    let mut one = server_config();
    one.links.pop();
    assert_eq!(
        valid_line(&palette(), "c.toml", &one),
        format!("ghostport: c.toml is <g>valid{R} (Server role, 1 link)")
    );
}

#[test]
fn what_is_said_of_an_invalid_configuration() {
    assert_eq!(
        invalid_lines(&palette(), "c.toml", &vec!["x".to_string()]),
        vec![format!("ghostport: c.toml has 1 <r>problem{R}:"), format!("  - <o>x{R}")]
    );
    let two = invalid_lines(&palette(), "c.toml", &vec!["x".to_string(), "y".to_string()]);
    assert_eq!(two.len(), 3);
    assert_eq!(two[0], format!("ghostport: c.toml has 2 <r>problems{R}:"));
}

#[test]
fn fingerprints_of_all_keys() {
    let local = encode_public_key(&[3; 32]);
    assert_eq!(
        fingerprint_lines(&palette(), &client_config(), Some(&local)),
        vec![
            format!("  peer_public_key fingerprint: <c>{}{R}", fingerprint(&[7; 32])),
            format!("  local identity fingerprint:  <c>{}{R}", fingerprint(&[3; 32])),
        ]
    );
    assert_eq!(
        fingerprint_lines(&palette(), &server_config(), None),
        vec![format!(
            "  peer \"alice\" fingerprint: <c>{}{R} (links: a, b)",
            fingerprint(&[9; 32])
        )]
    );
}

#[test]
fn the_status_as_a_table() {
    let mut snap = StatusSnapshot {
        role: "server".to_string(),
        uptime_secs: 12,
        control_connected: true,
        control_connected_since_secs_ago: Some(5),
        control_peer_addr: Some("1.2.3.4:5".to_string()),
        control_peer_name: None,
        links: vec![
            LinkSnapshot {
                id: "db".to_string(),
                mode: "forward".to_string(),
                active_streams: 1,
                total_streams: 57,
                bytes_forward: 123,
                bytes_back: 4567,
            },
            LinkSnapshot {
                id: "dev".to_string(),
                mode: "reverse".to_string(),
                active_streams: 0,
                total_streams: 0,
                bytes_forward: 0,
                bytes_back: 0,
            },
        ],
    };
    let lines = status_lines(&palette(), &snap);
    assert_eq!(
        lines,
        vec![
            format!("role: <p>server{R}   uptime: <c>12s{R}   control channel: <g>connected{R}"),
            "  peer: 1.2.3.4:5  (connected 5s ago)".to_string(),
            String::new(),
            format!(
                "<c>{:<14} {:<9} {:>7} {:>7} {:>12} {:>12}{R}",
                "link", "mode", "active", "total", "bytes-fwd", "bytes-back"
            ),
            format!(
                "{:<14} <c>{:<9}{R} <g>{:>7}{R} {:>7} <o>{:>12}{R} <o>{:>12}{R}",
                "db", "forward", 1, 57, 123, 4567
            ),
            format!(
                "{:<14} <k>{:<9}{R} {:>7} {:>7} <o>{:>12}{R} <o>{:>12}{R}",
                "dev", "reverse", 0, 0, 0, 0
            ),
        ]
    );
    snap.links.clear();
    snap.control_connected = false;
    snap.control_connected_since_secs_ago = None;
    let lines = status_lines(&palette(), &snap);
    assert_eq!(lines.len(), 4);
    assert!(lines[0].ends_with(&format!("<r>disconnected{R}")));
    assert_eq!(lines[3], "(no links configured)");
}

#[test]
fn what_is_said_of_a_new_key() {
    let lines = keygen_lines(&palette(), "id.key", "id.key.pub", "KEY", "fp");
    assert_eq!(lines.len(), 9);
    assert_eq!(lines[0], format!("Private key saved to <c>id.key{R} (0600)"));
    assert_eq!(lines[4], format!("  \x1b[1m<g>KEY{R}"));
    assert_eq!(lines[8], format!("  <c>fp{R}"));
}

#[test]
fn a_daemon_is_not_started_with_a_bad_configuration() {
    assert!(check_before_start("c.toml", &client_config()).is_ok());
    let mut bad = client_config();
    bad.server_data_addr = None;
    assert_eq!(
        check_before_start("c.toml", &bad).unwrap_err(),
        vec![
            "ghostport: refusing to start — c.toml has 1 problem(s):".to_string(),
            "  - `server_data_addr` is required when role = \"client\"".to_string(),
            "(run `ghostport check c.toml` for details)".to_string(),
        ]
    );
}

#[test]
fn whom_a_daemon_talks_to() {
    match find_partners(&client_config()) {
        Ok(Partners::Server(key)) => assert_eq!(key, vec![7; 32]),
        _ => panic!("a client talks to its server"),
    }
    match find_partners(&server_config()) {
        Ok(Partners::Clients(peers)) => {
            assert_eq!(peers.len(), 1);
            assert_eq!(peers[0].name, "alice");
            assert_eq!(peers[0].public_key, vec![9; 32]);
            assert!(peers[0].links.contains("a"));
            assert!(!peers[0].links.contains("c"));
        }
        _ => panic!("a server talks to its clients"),
    }
    let mut bad = server_config();
    bad.peers[0].public_key = encode_public_key(&[1]);
    match find_partners(&bad) {
        Ok(_) => panic!("a bad key was accepted"),
        Err(e) => assert_eq!(e, "ghostport: peer \"alice\": key must be 32 bytes, got 1"),
    }
    let mut bad = client_config();
    bad.peer_public_key = Some(encode_public_key(&[1]));
    match find_partners(&bad) {
        Ok(_) => panic!("a bad key was accepted"),
        Err(e) => assert_eq!(e, "ghostport: peer_public_key: key must be 32 bytes, got 1"),
    }
}

#[test]
fn colours_come_in_escape_marks() {
    let p = Palette::load();
    for mark in [p.green, p.orange, p.red, p.cyan, p.purple, p.pink] {
        assert!(mark.starts_with("\x1b["));
        assert!(mark.ends_with('m'));
    }
    for s in [theme::ok("x"), theme::warn("x"), theme::err("x"), theme::accent("x")] {
        assert!(s.starts_with("\x1b["));
        assert!(s.ends_with("mx\x1b[0m"));
    }
    assert!(theme::emphasis("x").starts_with("\x1b[1m"));
}

#[test]
fn addresses_are_read_as_the_standard_library_reads_them() {
    for s in [
        "1.2.3.4", "0.0.0.0", "255.255.255.255", "256.1.1.1", "01.2.3.4", "1.2.3", "1.2.3.4.5", "",
        "::", "::1", "1::", "2001:db8::1", "1:2:3:4:5:6:7:8", "1:2:3:4:5:6:7", "::ffff:1.2.3.4",
        "1:2:3:4:5:6:7.8.9.10", "12345::", "g::", ":::", "1::2::3", "::1.2.3", "fe80::1%eth0",
        "1:2:3:4:5:6:7::", "::2:3:4:5:6:7:8", "1::3:4:5:6:7:8", "a.b.c.d",
    ] {
        let chars: Vec<char> = s.chars().collect();
        let ours = parse_ip(&chars).is_some();
        let theirs = s.parse::<core::net::IpAddr>().is_ok();
        assert_eq!(ours, theirs, "{s}");
    }
    let chars: Vec<char> = "2001:db8::1".chars().collect();
    assert_eq!(
        parse_ip(&chars),
        Some(IpAddr::V6(0x2001_0db8_0000_0000_0000_0000_0000_0001))
    );
}

#[test]
fn socket_addresses_are_read_as_the_standard_library_reads_them() {
    for s in [
        "127.0.0.1:80", "127.0.0.1", "127.0.0.1:", "127.0.0.1:65535", "127.0.0.1:65536",
        "127.0.0.1:00080", "127.0.0.1:080", "[::1]:80", "::1:80", "[::1]", "[::1]:", "[::1%3]:80",
        "[::1%]:80", "example.com:80", ":80", "", "[1.2.3.4]:80", "127.0.0.1:8a", "127.0.0.1:+1",
    ] {
        let chars: Vec<char> = s.chars().collect();
        let theirs = s.parse::<core::net::SocketAddr>().is_ok();
        assert_eq!(parses_as_socket_addr(&chars), theirs, "{s}");
    }
}

#[test]
fn small_text_helpers() {
    assert_eq!(trim("  a b \n"), "a b");
    assert_eq!(split_words(" GET  /x\tHTTP "), vec!["GET", "/x", "HTTP"]);
    assert_eq!(join(&vec!["a".to_string(), "b".to_string()], ", "), "a, b");
    assert_eq!(pad_right("ab", 4), "ab  ");
    assert_eq!(pad_left("ab", 4), "  ab");
    assert_eq!(pad_left("abcde", 4), "abcde");
}

#[test]
fn generated_keys_differ() {
    assert_ne!(generate().private, generate().private);
}
