//! Counters, the control connection and snapshots.

use ghostport::config::{Config, LinkConfig, LinkMode, Role};
use ghostport::relay;
use ghostport::stats::{mode_str, role_str, LinkStats, SharedState};
use ghostport::theme::Palette;

fn sample_config() -> Config {
    Config {
        role: Role::Server,
        private_key_path: String::new(),
        peer_public_key: None,
        peers: vec![],
        listen_control: Some("0.0.0.0:9000".to_string()),
        listen_data: Some("0.0.0.0:9001".to_string()),
        server_control_addr: None,
        server_data_addr: None,
        links: vec![LinkConfig {
            id: "fwd".to_string(),
            mode: LinkMode::Forward,
            listen: None,
            target: Some("127.0.0.1:1".to_string()),
        }],
    }
}

#[test]
fn snapshot_reflects_zeroed_counters_at_start() {
    let cfg = sample_config();
    let state = SharedState::new(&cfg);
    let snap = state.snapshot(&cfg);

    assert_eq!(snap.role, "server");
    assert!(!snap.control_connected);
    assert_eq!(snap.links.len(), 1);
    assert_eq!(snap.links[0].id, "fwd");
    assert_eq!(snap.links[0].active_streams, 0);
    assert_eq!(snap.links[0].bytes_forward, 0);
}

#[test]
fn snapshot_reflects_updated_counters() {
    let cfg = sample_config();
    let mut state = SharedState::new(&cfg);
    let mut stats = *state.links.get("fwd").unwrap();
    stats.active_streams += 1;
    stats.total_streams += 3;
    stats.bytes_forward += 1024;
    state.links.insert("fwd".to_string(), stats);

    let snap = state.snapshot(&cfg);
    assert_eq!(snap.links[0].active_streams, 1);
    assert_eq!(snap.links[0].total_streams, 3);
    assert_eq!(snap.links[0].bytes_forward, 1024);
}

#[test]
fn control_connect_disconnect_reflected_in_snapshot() {
    let cfg = sample_config();
    let mut state = SharedState::new(&cfg);

    state.control.set_connected("1.2.3.4:5678".to_string(), Some("alice".to_string()));
    let snap = state.snapshot(&cfg);
    assert!(snap.control_connected);
    assert_eq!(snap.control_peer_addr.as_deref(), Some("1.2.3.4:5678"));
    assert_eq!(snap.control_peer_name.as_deref(), Some("alice"));
    assert!(snap.control_connected_since_secs_ago.is_some());

    state.control.set_disconnected();
    let snap = state.snapshot(&cfg);
    assert!(!snap.control_connected);
    assert!(snap.control_connected_since_secs_ago.is_none());
}

#[test]
fn unknown_link_ids_in_config_are_skipped_gracefully() {
    let mut cfg = sample_config();
    cfg.links.push(LinkConfig {
        id: "not-in-state".to_string(),
        mode: LinkMode::Forward,
        listen: None,
        target: Some("127.0.0.1:2".to_string()),
    });
    let state = SharedState::new(&sample_config());
    let snap = state.snapshot(&cfg);
    assert_eq!(snap.links.len(), 1);
}

#[test]
fn a_stream_is_counted_once() {
    let mut s = LinkStats::default();
    s.stream_opened();
    assert_eq!(s.active_streams, 1);
    s.stream_closed(Some((10, 20)));
    assert_eq!(
        s,
        LinkStats { active_streams: 0, total_streams: 1, bytes_forward: 10, bytes_back: 20 }
    );
    s.stream_opened();
    s.stream_closed(None);
    assert_eq!(
        s,
        LinkStats { active_streams: 0, total_streams: 2, bytes_forward: 10, bytes_back: 20 }
    );
}

#[test]
fn times_are_told_from_the_clock_that_is_handed_in() {
    let cfg = sample_config();
    let mut state = SharedState::new_at(&cfg, 1000);
    state.control.set_connected_at("a:1".to_string(), None, 1100);
    let snap = state.snapshot_at(&cfg, 1150);
    assert_eq!(snap.uptime_secs, 150);
    assert_eq!(snap.control_connected_since_secs_ago, Some(50));
    let early = state.snapshot_at(&cfg, 900);
    assert_eq!(early.uptime_secs, 0);
    assert_eq!(early.control_connected_since_secs_ago, Some(0));
}

#[test]
fn a_relayed_stream_is_recorded_and_told() {
    let cfg = sample_config();
    let mut state = SharedState::new(&cfg);
    state.stream_opened("fwd");
    assert_eq!(state.snapshot(&cfg).links[0].active_streams, 1);
    let p = Palette::load();
    let line = relay::finish(&p, &mut state, "fwd", Ok((7, 9)));
    assert!(!line.to_stderr);
    assert!(line.text.ends_with("stream closed (7 bytes forward, 9 bytes back)"));
    let snap = state.snapshot(&cfg);
    assert_eq!(snap.links[0].active_streams, 0);
    assert_eq!(snap.links[0].total_streams, 1);
    assert_eq!(snap.links[0].bytes_forward, 7);
    assert_eq!(snap.links[0].bytes_back, 9);

    state.stream_opened("fwd");
    let line = relay::finish(&p, &mut state, "fwd", Err("reset".to_string()));
    assert!(line.to_stderr);
    assert!(line.text.contains("stream ended with an error: reset"));
    assert_eq!(state.snapshot(&cfg).links[0].bytes_forward, 7);

    state.stream_opened("unknown");
    assert_eq!(state.snapshot(&cfg).links.len(), 1);
}

#[test]
fn the_clock_is_past_the_year_2020() {
    assert!(ghostport::clock::now_unix() > 1_577_836_800);
}

#[test]
fn points_in_time_are_told_in_whole_seconds() {
    let epoch = std::time::UNIX_EPOCH;
    let nanos = |n: u64| std::time::Duration::from_nanos(n);
    assert_eq!(ghostport::clock::unix_time(&epoch), 0);
    assert_eq!(ghostport::clock::unix_time(&(epoch + nanos(999_999_999))), 0);
    assert_eq!(ghostport::clock::unix_time(&(epoch + nanos(7_000_000_001))), 7);
    assert_eq!(ghostport::clock::unix_time(&(epoch - nanos(7_000_000_001))), 0);
}

#[test]
fn words_for_roles_and_modes() {
    assert_eq!(role_str(Role::Server), "server");
    assert_eq!(role_str(Role::Client), "client");
    assert_eq!(mode_str(LinkMode::Forward), "forward");
    assert_eq!(mode_str(LinkMode::Reverse), "reverse");
}
