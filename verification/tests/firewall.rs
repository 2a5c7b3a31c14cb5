//! The firewall: what it reads out of the log, and what it does about it.

use ghostport::config::{Config, Role};
use ghostport::firewall::config::{
    check_target_is_server_role, default_config_path, AppConfig,
};
use ghostport::firewall::detector::{
    extract_offense, is_never_bannable, pick_offense, FailureTracker, Offense,
};
use ghostport::firewall::judge::{
    admin_action, admin_command, judge, parse_allowlist, Verdict,
};
use ghostport::log::{daemon_line, Tone};
use ghostport::net::{parse_ip, IpAddr};
use ghostport::theme::Palette;
use ghostport::udp::server::handshake_failed;

const RED: &str = "\x1b[38;2;255;59;82m";
const RESET: &str = "\x1b[0m";
const SECOND: u128 = 1_000_000_000;

fn ip(s: &str) -> IpAddr {
    let chars: Vec<char> = s.chars().collect();
    parse_ip(&chars).unwrap()
}

#[test]
fn defaults_match_vortexwall_convention() {
    let cfg = AppConfig::default();
    assert_eq!(cfg.threshold, 5);
    assert_eq!(cfg.window_secs, 600);
    assert_eq!(cfg.ban_secs, 3600);
    assert!(cfg.allowlist.is_empty());
    assert_eq!(cfg.service, "ghostport");
}

#[test]
fn extracts_ip_from_control_rate_limit_rejection() {
    let line = format!(
        "{RED}control: rejected 198.51.100.7:51422 (too many recent handshake attempts){RESET}"
    );
    assert_eq!(extract_offense(&line), Some((ip("198.51.100.7"), Offense::RateLimited)));
}

#[test]
fn extracts_ip_from_data_rate_limit_rejection() {
    let line = "data: rejected 203.0.113.9:9000 (too many recent handshake attempts)";
    assert_eq!(extract_offense(line), Some((ip("203.0.113.9"), Offense::RateLimited)));
}

#[test]
fn extracts_ip_from_tcp_handshake_failed() {
    let line = format!(
        "{RED}control: handshake with 198.51.100.7:51422 failed: decryption failed{RESET}"
    );
    assert_eq!(extract_offense(&line), Some((ip("198.51.100.7"), Offense::HandshakeFailed)));
}

#[test]
fn extracts_ip_from_udp_handshake_failed() {
    let line =
        r#"ghostport-udp: handshake with 203.0.113.9:33000 ("client") failed: decryption failed"#;
    assert_eq!(extract_offense(line), Some((ip("203.0.113.9"), Offense::HandshakeFailed)));
}

#[test]
fn extracts_ipv6_from_bracketed_socketaddr_format() {
    let line = "control: rejected [2001:db8::1]:5678 (too many recent handshake attempts)";
    assert_eq!(extract_offense(line), Some((ip("2001:db8::1"), Offense::RateLimited)));
}

#[test]
fn ignores_handshake_timeouts() {
    let line = "control: handshake with 198.51.100.7:51422 timed out";
    assert_eq!(extract_offense(line), None);
}

#[test]
fn ignores_address_less_authorization_failures() {
    let line = r#"peer "alice" is not authorized for link "db""#;
    assert_eq!(extract_offense(line), None);
}

#[test]
fn ignores_unrelated_lines() {
    let line = "ghostport: control channel connected from 198.51.100.7:51422 (peer \"alice\")";
    assert_eq!(extract_offense(line), None);
}

#[test]
fn loopback_and_private_ranges_never_bannable() {
    for s in ["127.0.0.1", "10.1.2.3", "172.16.5.5", "192.168.1.50", "169.254.1.1", "::1"] {
        assert!(is_never_bannable(&ip(s)), "{s} should be protected");
    }
    for s in ["198.51.100.7", "203.0.113.9", "8.8.8.8"] {
        assert!(!is_never_bannable(&ip(s)), "{s} should NOT be protected");
    }
}

#[test]
fn tracker_fires_exactly_once_at_threshold() {
    let mut tracker = FailureTracker::new(600 * SECOND, 3);
    let ip = ip("198.51.100.7");
    assert!(!tracker.record(ip, 5));
    assert!(!tracker.record(ip, 5));
    assert!(tracker.record(ip, 5));
    assert!(!tracker.record(ip, 5));
}

#[test]
fn tracker_prunes_outside_window() {
    let mut tracker = FailureTracker::new(10 * SECOND, 2);
    let ip = ip("198.51.100.7");
    assert!(!tracker.record(ip, 5));
    assert!(!tracker.record(ip, 5 + 30 * SECOND));
}

#[test]
fn forget_resets_the_count() {
    let mut tracker = FailureTracker::new(600 * SECOND, 2);
    let ip = ip("198.51.100.7");
    assert!(!tracker.record(ip, 5));
    assert!(tracker.record(ip, 5));
    tracker.forget(&ip);
    assert!(!tracker.record(ip, 5));
}

#[test]
fn the_lines_of_the_daemon_are_recognised() {
    let p = Palette::load();
    for tone in [Tone::Doubtful, Tone::Bad] {
        let line = daemon_line(
            &p,
            true,
            tone,
            "data: rejected 8.8.4.4:1 (too many recent handshake attempts)",
        );
        assert_eq!(extract_offense(&line.text), Some((ip("8.8.4.4"), Offense::RateLimited)));
        let message = "control: handshake with [2001:db8::7]:9 failed: no";
        let line = daemon_line(&p, true, tone, message);
        assert_eq!(
            extract_offense(&line.text),
            Some((ip("2001:db8::7"), Offense::HandshakeFailed))
        );
    }
    let line = handshake_failed("8.8.4.4:1", "alice", "no");
    assert_eq!(extract_offense(&line.text), Some((ip("8.8.4.4"), Offense::HandshakeFailed)));
}

#[test]
fn the_first_capture_that_is_an_address_counts() {
    let none = || vec![None, None, None, None];
    assert_eq!(pick_offense(&none()), None);
    let mut c = none();
    c[2] = Some("8.8.8.8".to_string());
    assert_eq!(pick_offense(&c), Some((ip("8.8.8.8"), Offense::HandshakeFailed)));
    c[1] = Some("9.9.9.9".to_string());
    assert_eq!(pick_offense(&c), Some((ip("9.9.9.9"), Offense::RateLimited)));
}

#[test]
fn verdicts() {
    let mut tracker = FailureTracker::new(600 * SECOND, 2);
    let allow = parse_allowlist(&vec!["198.51.100.1".to_string(), "nonsense".to_string()]);
    assert_eq!(allow, vec![ip("198.51.100.1")]);
    let bad = ip("203.0.113.9");
    let v = |t: &mut FailureTracker, i: IpAddr, o: Offense| judge(t, &allow, i, o, 7);
    assert_eq!(v(&mut tracker, ip("10.0.0.1"), Offense::RateLimited), Verdict::Protected);
    assert_eq!(v(&mut tracker, ip("198.51.100.1"), Offense::RateLimited), Verdict::Allowed);
    assert_eq!(v(&mut tracker, bad, Offense::RateLimited), Verdict::Ban);
    assert_eq!(v(&mut tracker, bad, Offense::HandshakeFailed), Verdict::Counted);
    assert_eq!(v(&mut tracker, bad, Offense::HandshakeFailed), Verdict::Ban);
    assert_eq!(v(&mut tracker, bad, Offense::HandshakeFailed), Verdict::Counted);
}

#[test]
fn a_ban_takes_the_threshold_within_the_window_since_the_last_one() {
    let mut tracker = FailureTracker::new(10 * SECOND, 3);
    let bad = ip("203.0.113.9");
    let mut at = |secs: u128, o: Offense| judge(&mut tracker, &vec![], bad, o, secs * SECOND);
    assert_eq!(at(0, Offense::HandshakeFailed), Verdict::Counted);
    assert_eq!(at(8, Offense::HandshakeFailed), Verdict::Counted);
    // The first failure has left the window.
    assert_eq!(at(11, Offense::HandshakeFailed), Verdict::Counted);
    // The second one is just within it.
    assert_eq!(at(18, Offense::HandshakeFailed), Verdict::Ban);
    assert_eq!(at(18, Offense::HandshakeFailed), Verdict::Counted);
    assert_eq!(at(18, Offense::HandshakeFailed), Verdict::Counted);
    // A refused connection is a ban at once, and the count starts again.
    assert_eq!(at(18, Offense::RateLimited), Verdict::Ban);
    assert_eq!(at(19, Offense::HandshakeFailed), Verdict::Counted);
    assert_eq!(at(19, Offense::HandshakeFailed), Verdict::Counted);
    assert_eq!(at(19, Offense::HandshakeFailed), Verdict::Ban);
}

#[test]
fn the_administrators_commands() {
    assert_eq!(admin_action(true, false, false, false), Ok("start"));
    assert_eq!(admin_action(false, false, false, true), Ok("status"));
    assert!(admin_action(false, false, false, false).is_err());
    assert!(admin_action(true, true, false, false).is_err());
    assert_eq!(admin_command("status"), vec!["systemctl", "status", "ghostport-firewall"]);
    assert_eq!(
        admin_command("stop"),
        vec!["sudo", "systemctl", "stop", "ghostport-firewall"]
    );
}

#[test]
fn where_the_configuration_is_looked_for() {
    assert_eq!(
        default_config_path(Some("/cfg"), Some("/home/a")),
        Some(vec![
            "/cfg/ghostport-firewall/config.toml".to_string(),
            "config.toml".to_string()
        ])
    );
    assert_eq!(
        default_config_path(None, Some("/home/a")),
        Some(vec![
            "/home/a/.config/ghostport-firewall/config.toml".to_string(),
            "config.toml".to_string()
        ])
    );
    assert_eq!(default_config_path(None, None), Some(vec!["config.toml".to_string()]));
}

#[test]
fn only_servers_are_protected() {
    let mut cfg = Config {
        role: Role::Server,
        private_key_path: String::new(),
        peer_public_key: None,
        peers: vec![],
        listen_control: None,
        listen_data: None,
        server_control_addr: None,
        server_data_addr: None,
        links: vec![],
    };
    assert!(check_target_is_server_role("a.toml", &cfg).is_ok());
    cfg.role = Role::Client;
    assert_eq!(
        check_target_is_server_role("a.toml", &cfg).unwrap_err(),
        "a.toml is a client-role config -- a client never accepts inbound connections, so there is nothing here for ghostport-firewall to protect"
    );
}
