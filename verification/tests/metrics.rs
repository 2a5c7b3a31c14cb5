//! The metrics endpoint.

use ghostport::metrics::http::{
    answer, http_response, parse_request_path, wants_metrics, LineState, RequestLine,
    MAX_REQUEST_LINE,
};
use ghostport::metrics::render::render;
use ghostport::stats::{LinkSnapshot, StatusSnapshot};

fn sample_snapshot() -> StatusSnapshot {
    StatusSnapshot {
        role: "server".to_string(),
        uptime_secs: 12345,
        control_connected: true,
        control_connected_since_secs_ago: Some(42),
        control_peer_addr: Some("1.2.3.4:5".to_string()),
        control_peer_name: Some("laptop".to_string()),
        links: vec![LinkSnapshot {
            id: "db".to_string(),
            mode: "forward".to_string(),
            active_streams: 1,
            total_streams: 57,
            bytes_forward: 123456,
            bytes_back: 654321,
        }],
    }
}

#[test]
fn parses_a_real_get_request_line() {
    assert_eq!(parse_request_path("GET /metrics HTTP/1.1"), Some("/metrics".to_string()));
}

#[test]
fn rejects_non_get_methods() {
    assert_eq!(parse_request_path("POST /metrics HTTP/1.1"), None);
}

#[test]
fn rejects_a_malformed_or_empty_line() {
    assert_eq!(parse_request_path(""), None);
    assert_eq!(parse_request_path("garbage"), None);
}

#[test]
fn response_has_a_correct_content_length() {
    let response = http_response(200, "OK", "text/plain", "hello");
    assert!(response.contains("Content-Length: 5"));
    assert!(response.ends_with("hello"));
}

#[test]
fn a_whole_response() {
    assert_eq!(
        http_response(404, "Not Found", "text/plain", "é"),
        "HTTP/1.1 404 Not Found\r\nContent-Type: text/plain\r\nContent-Length: 2\r\nConnection: close\r\n\r\né"
    );
}

#[test]
fn unreachable_daemon_reports_only_up_zero() {
    let text = render(None);
    assert!(text.contains("ghostport_up 0"));
    assert!(!text.contains("ghostport_uptime_seconds"));
    assert!(!text.contains("ghostport_link_"));
}

#[test]
fn reachable_daemon_reports_up_one_and_real_fields() {
    let snapshot = sample_snapshot();
    let text = render(Some(&snapshot));
    assert!(text.contains("ghostport_up 1"));
    assert!(text.contains("ghostport_uptime_seconds 12345"));
    assert!(text.contains("ghostport_control_connected 1"));
    assert!(text.contains("ghostport_control_connected_seconds 42"));
    assert!(text.contains("ghostport_link_active_streams{link_id=\"db\",mode=\"forward\"} 1"));
    assert!(text.contains("ghostport_link_streams_total{link_id=\"db\",mode=\"forward\"} 57"));
    assert!(text
        .contains("ghostport_link_bytes_forward_total{link_id=\"db\",mode=\"forward\"} 123456"));
    assert!(
        text.contains("ghostport_link_bytes_back_total{link_id=\"db\",mode=\"forward\"} 654321")
    );
}

#[test]
fn label_values_are_escaped() {
    let mut snapshot = sample_snapshot();
    snapshot.links[0].id = "a\"b\\c\nd".to_string();
    snapshot.links[0].mode = "\"".to_string();
    let text = render(Some(&snapshot));
    assert!(text.contains(
        "ghostport_link_active_streams{link_id=\"a\\\"b\\\\c\\nd\",mode=\"\\\"\"} 1\n"
    ));
}

#[test]
fn disconnected_control_omits_connected_since() {
    let mut snapshot = sample_snapshot();
    snapshot.control_connected = false;
    snapshot.control_connected_since_secs_ago = None;
    let text = render(Some(&snapshot));
    assert!(text.contains("ghostport_control_connected 0"));
    assert!(!text.contains("ghostport_control_connected_seconds"));
}

#[test]
fn zero_links_omits_link_metrics_entirely() {
    let mut snapshot = sample_snapshot();
    snapshot.links.clear();
    let text = render(Some(&snapshot));
    assert!(!text.contains("ghostport_link_"));
}

#[test]
fn every_help_line_has_a_matching_type_line() {
    let snapshot = sample_snapshot();
    let text = render(Some(&snapshot));
    for line in text.lines() {
        if let Some(metric) = line.strip_prefix("# HELP ") {
            let name = metric.split_whitespace().next().unwrap();
            assert!(
                text.contains(&format!("# TYPE {name} ")),
                "missing TYPE line for {name}"
            );
        }
    }
}

#[test]
fn requests_are_answered() {
    let snapshot = sample_snapshot();
    assert!(wants_metrics("GET /metrics HTTP/1.1\r\n"));
    assert!(!wants_metrics("GET / HTTP/1.1\r\n"));
    let text = answer("GET /metrics HTTP/1.1\r\n", Some(&snapshot));
    assert!(text.starts_with("HTTP/1.1 200 OK\r\nContent-Type: text/plain; version=0.0.4\r\n"));
    assert!(text.ends_with(&render(Some(&snapshot))));
    assert!(answer("GET /metrics HTTP/1.1\r\n", None).ends_with(&render(None)));
    assert!(answer("GET /nothing HTTP/1.1\r\n", None).starts_with("HTTP/1.1 404 Not Found\r\n"));
    assert!(answer("POST /metrics HTTP/1.1\r\n", None).ends_with("\r\n\r\nnot found\n"));
}

#[test]
fn a_request_line_comes_in_pieces() {
    let mut line = RequestLine::new();
    assert_eq!(line.feed(b"GET /met"), LineState::More);
    assert_eq!(line.feed(b"rics HTTP/1.1\r\nHost: x"), LineState::Whole);
    assert!(wants_metrics(&line.text()));
}

#[test]
fn a_request_line_without_end_is_given_up() {
    let mut line = RequestLine::new();
    assert_eq!(line.feed(&vec![b'a'; MAX_REQUEST_LINE + 1]), LineState::TooLong);
}

#[test]
fn a_request_line_that_is_too_long_is_given_up_though_it_ends() {
    let mut long = b"GET /metrics?".to_vec();
    long.resize(8498, b'x');
    long.extend(b"\r\n");
    let mut line = RequestLine::new();
    let mut state = LineState::More;
    for piece in long.chunks(512) {
        state = line.feed(piece);
        if state != LineState::More {
            break;
        }
    }
    assert_eq!(state, LineState::TooLong);
    let mut whole = RequestLine::new();
    assert_eq!(whole.feed(&long), LineState::TooLong);

    let mut longest = vec![b'x'; MAX_REQUEST_LINE];
    longest.push(b'\n');
    let mut line = RequestLine::new();
    assert_eq!(line.feed(&longest), LineState::Whole);
}

#[test]
fn a_request_line_need_not_be_valid_text() {
    let mut line = RequestLine::new();
    assert_eq!(line.feed(b"GET /\xff\n"), LineState::Whole);
    assert!(line.text().starts_with("GET /\u{fffd}"));
}
