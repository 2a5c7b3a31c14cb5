//! The configuration and its validation.

use ghostport::config::{
    require_absent, require_present, Config, LinkConfig, LinkMode, PeerConfig, Role,
};
use ghostport::keys;

fn fresh_key() -> String {
    keys::encode_public_key(&keys::generate().public)
}

fn base_server() -> Config {
    Config {
        role: Role::Server,
        private_key_path: "/tmp/server.key".to_string(),
        peer_public_key: None,
        peers: vec![PeerConfig {
            name: "client".to_string(),
            public_key: fresh_key(),
            links: Vec::new(),
        }],
        listen_control: Some("0.0.0.0:9000".to_string()),
        listen_data: Some("0.0.0.0:9001".to_string()),
        server_control_addr: None,
        server_data_addr: None,
        links: Vec::new(),
    }
}

fn base_client() -> Config {
    Config {
        role: Role::Client,
        private_key_path: "/tmp/client.key".to_string(),
        peer_public_key: Some(fresh_key()),
        peers: Vec::new(),
        listen_control: None,
        listen_data: None,
        server_control_addr: Some("example.com:9000".to_string()),
        server_data_addr: Some("example.com:9001".to_string()),
        links: Vec::new(),
    }
}

fn link(id: &str, mode: LinkMode, listen: Option<&str>, target: Option<&str>) -> LinkConfig {
    LinkConfig {
        id: id.to_string(),
        mode,
        listen: listen.map(|s| s.to_string()),
        target: target.map(|s| s.to_string()),
    }
}

#[test]
fn minimal_valid_server_and_client_configs_pass() {
    assert!(base_server().validate().is_empty());
    assert!(base_client().validate().is_empty());
}

#[test]
fn server_missing_listen_fields_is_rejected() {
    let mut cfg = base_server();
    cfg.listen_data = None;
    let errors = cfg.validate();
    assert!(errors.iter().any(|e| e.contains("listen_data")), "{errors:?}");
}

#[test]
fn client_with_server_only_fields_is_rejected() {
    let mut cfg = base_client();
    cfg.listen_control = Some("0.0.0.0:9000".to_string());
    let errors = cfg.validate();
    assert!(errors.iter().any(|e| e.contains("listen_control")), "{errors:?}");
}

#[test]
fn invalid_client_peer_public_key_is_rejected() {
    let mut cfg = base_client();
    cfg.peer_public_key = Some("not-base64!!".to_string());
    let errors = cfg.validate();
    assert!(errors.iter().any(|e| e.contains("peer_public_key")), "{errors:?}");
}

#[test]
fn client_missing_peer_public_key_is_rejected() {
    let mut cfg = base_client();
    cfg.peer_public_key = None;
    let errors = cfg.validate();
    assert!(errors.iter().any(|e| e.contains("peer_public_key")), "{errors:?}");
}

#[test]
fn server_with_peer_public_key_set_is_rejected() {
    let mut cfg = base_server();
    cfg.peer_public_key = Some(fresh_key());
    let errors = cfg.validate();
    assert!(
        errors.iter().any(|e| e.contains("peer_public_key") && e.contains("must not be set")),
        "{errors:?}"
    );
}

#[test]
fn client_with_peers_set_is_rejected() {
    let mut cfg = base_client();
    cfg.peers = vec![PeerConfig {
        name: "x".to_string(),
        public_key: fresh_key(),
        links: Vec::new(),
    }];
    let errors = cfg.validate();
    assert!(
        errors.iter().any(|e| e.contains("`peers`") && e.contains("must not be set")),
        "{errors:?}"
    );
}

#[test]
fn server_with_no_peers_is_rejected() {
    let mut cfg = base_server();
    cfg.peers.clear();
    let errors = cfg.validate();
    assert!(
        errors.iter().any(|e| e.contains("`peers`") && e.contains("at least one")),
        "{errors:?}"
    );
}

#[test]
fn peer_with_invalid_public_key_is_rejected() {
    let mut cfg = base_server();
    cfg.peers[0].public_key = "not-base64!!".to_string();
    let errors = cfg.validate();
    assert!(errors.iter().any(|e| e.contains("public_key")), "{errors:?}");
}

#[test]
fn peer_link_id_not_defined_in_links_is_rejected() {
    let mut cfg = base_server();
    cfg.peers[0].links.push("nonexistent".to_string());
    let errors = cfg.validate();
    assert!(
        errors.iter().any(|e| e.contains("nonexistent") && e.contains("is not defined")),
        "{errors:?}"
    );
}

#[test]
fn peer_link_id_that_exists_is_accepted() {
    let mut cfg = base_server();
    cfg.links.push(link("db", LinkMode::Forward, None, Some("127.0.0.1:5432")));
    cfg.peers[0].links.push("db".to_string());
    assert!(cfg.validate().is_empty(), "{:?}", cfg.validate());
}

#[test]
fn duplicate_peer_public_keys_are_rejected() {
    let mut cfg = base_server();
    let shared_key = cfg.peers[0].public_key.clone();
    cfg.peers.push(PeerConfig {
        name: "second".to_string(),
        public_key: shared_key,
        links: Vec::new(),
    });
    let errors = cfg.validate();
    assert!(errors.iter().any(|e| e.contains("already used by another peer")), "{errors:?}");
}

#[test]
fn duplicate_peer_names_are_rejected() {
    let mut cfg = base_server();
    let name = cfg.peers[0].name.clone();
    cfg.peers.push(PeerConfig { name, public_key: fresh_key(), links: Vec::new() });
    let errors = cfg.validate();
    assert!(errors.iter().any(|e| e.contains("duplicate name")), "{errors:?}");
}

#[test]
fn forward_link_on_client_needs_listen_not_target() {
    let mut cfg = base_client();
    cfg.links.push(link("db", LinkMode::Forward, None, Some("127.0.0.1:5432")));
    let errors = cfg.validate();
    assert!(errors.iter().any(|e| e.contains("requires `listen`")), "{errors:?}");
    assert!(errors.iter().any(|e| e.contains("must not set `target`")), "{errors:?}");
}

#[test]
fn forward_link_on_server_needs_target_not_listen() {
    let mut cfg = base_server();
    cfg.links.push(link("db", LinkMode::Forward, Some("0.0.0.0:5432"), None));
    let errors = cfg.validate();
    assert!(errors.iter().any(|e| e.contains("requires `target`")), "{errors:?}");
    assert!(errors.iter().any(|e| e.contains("must not set `listen`")), "{errors:?}");
}

#[test]
fn reverse_link_on_server_needs_listen_client_needs_target() {
    let mut server = base_server();
    server.links.push(link("dev", LinkMode::Reverse, Some("0.0.0.0:8080"), None));
    assert!(server.validate().is_empty());

    let mut client = base_client();
    client.links.push(link("dev", LinkMode::Reverse, None, Some("127.0.0.1:3000")));
    assert!(client.validate().is_empty());
}

#[test]
fn correctly_configured_forward_link_passes_on_both_sides() {
    let mut server = base_server();
    server.links.push(link("db", LinkMode::Forward, None, Some("127.0.0.1:5432")));
    assert!(server.validate().is_empty(), "{:?}", server.validate());

    let mut client = base_client();
    client.links.push(link("db", LinkMode::Forward, Some("127.0.0.1:5432"), None));
    assert!(client.validate().is_empty(), "{:?}", client.validate());
}

#[test]
fn duplicate_link_ids_are_rejected() {
    let mut cfg = base_server();
    cfg.links.push(link("dup", LinkMode::Forward, None, Some("127.0.0.1:1")));
    cfg.links.push(link("dup", LinkMode::Forward, None, Some("127.0.0.1:2")));
    let errors = cfg.validate();
    assert!(errors.iter().any(|e| e.contains("duplicate id")), "{errors:?}");
}

#[test]
fn non_socket_addr_target_is_rejected() {
    let mut cfg = base_server();
    cfg.links.push(link("bad", LinkMode::Forward, None, Some("not-an-address")));
    let errors = cfg.validate();
    assert!(errors.iter().any(|e| e.contains("not a valid host:port")), "{errors:?}");
}

#[test]
fn save_refuses_to_write_an_invalid_config() {
    let mut cfg = base_server();
    cfg.listen_data = None;
    assert!(cfg.check_before_save().is_err());
    assert!(base_server().check_before_save().is_ok());
}

#[test]
fn link_needs_listen_matches_the_role_mode_matrix() {
    let client = base_client();
    let server = base_server();
    assert!(client.link_needs_listen(LinkMode::Forward));
    assert!(!client.link_needs_listen(LinkMode::Reverse));
    assert!(!server.link_needs_listen(LinkMode::Forward));
    assert!(server.link_needs_listen(LinkMode::Reverse));
}

#[test]
fn every_complaint_about_a_server_in_order() {
    let mut cfg = base_server();
    cfg.listen_control = None;
    cfg.server_data_addr = Some("example.com:1".to_string());
    cfg.peer_public_key = Some(fresh_key());
    cfg.peers.clear();
    assert_eq!(
        cfg.validate(),
        vec![
            "`listen_control` is required when role = \"server\"".to_string(),
            "`server_data_addr` must not be set when role = \"server\"".to_string(),
            "`peer_public_key` must not be set when role = \"server\" (use `peers` instead)"
                .to_string(),
            "`peers` must have at least one entry when role = \"server\"".to_string(),
        ]
    );
}

#[test]
fn keys_that_are_handed_in_decide_about_the_peers() {
    let mut cfg = base_server();
    cfg.peers[0].public_key = "anything".to_string();
    let none: Vec<Option<Vec<u8>>> = vec![None];
    let some: Vec<Option<Vec<u8>>> = vec![Some(vec![7; 32])];
    assert_eq!(cfg.validate_with_keys(true, &none).len(), 1);
    assert!(cfg.validate_with_keys(true, &some).is_empty());

    let client = base_client();
    assert_eq!(
        client.validate_with_keys(false, &Vec::new()),
        vec!["peer_public_key is not a valid base64-encoded 32-byte key".to_string()]
    );
}

#[test]
fn presence_and_absence_of_a_field() {
    let mut errors: Vec<String> = vec!["first".to_string()];
    require_present(&mut errors, "a", &None, "b");
    require_present(&mut errors, "a", &Some("x".to_string()), "b");
    require_absent(&mut errors, "c", &Some("x".to_string()), "d");
    require_absent(&mut errors, "c", &None, "d");
    assert_eq!(
        errors,
        vec![
            "first".to_string(),
            "`a` is required when b".to_string(),
            "`c` must not be set when d".to_string(),
        ]
    );
}

#[test]
fn the_two_sides_of_a_link_are_configured_differently() {
    for mode in [LinkMode::Forward, LinkMode::Reverse] {
        assert_ne!(
            base_client().link_needs_listen(mode),
            base_server().link_needs_listen(mode)
        );
    }
}
