//! Keys, their texts and their fingerprints, and the handshakes built from them.

use ghostport::cli::resolve_peer;
use ghostport::config::PeerConfig;
use ghostport::keys::{
    check_key, colon_hex, decode_public_key, encode_public_key, fingerprint, generate,
    key_file_text, public_key_path, read_key_file,
};
use ghostport::noise::{initiator, responder};
use ghostport::peermatch::{match_peer_bytes, MatchError, ResolvedPeer};

fn resolved(name: &str, public_key: Vec<u8>, links: &[&str]) -> ResolvedPeer {
    let peer = PeerConfig {
        name: name.to_string(),
        public_key: encode_public_key(&public_key),
        links: links.iter().map(|l| l.to_string()).collect(),
    };
    resolve_peer(&peer, public_key)
}

fn first_message(private: &[u8], remote: &[u8]) -> Vec<u8> {
    let mut state = initiator(private, remote).unwrap();
    let mut buf = vec![0u8; 65535];
    let n = state.write_message(&[], &mut buf).unwrap();
    buf.truncate(n);
    buf
}

#[test]
fn generated_keypair_has_32_byte_keys() {
    let kp = generate();
    assert_eq!(kp.private.len(), 32);
    assert_eq!(kp.public.len(), 32);
}

#[test]
fn public_key_encode_decode_round_trip() {
    let kp = generate();
    let encoded = encode_public_key(&kp.public);
    let decoded = decode_public_key(&encoded).unwrap();
    assert_eq!(decoded, kp.public);
}

#[test]
fn rejects_wrong_length_public_key() {
    let short = encode_public_key(&[1, 2, 3]);
    assert!(decode_public_key(&short).is_err());
}

#[test]
fn fingerprint_is_deterministic() {
    let kp = generate();
    assert_eq!(fingerprint(&kp.public), fingerprint(&kp.public));
}

#[test]
fn fingerprint_differs_for_different_keys() {
    let a = generate();
    let b = generate();
    assert_ne!(fingerprint(&a.public), fingerprint(&b.public));
}

#[test]
fn fingerprint_is_colon_grouped_hex_of_the_full_sha256_digest() {
    let kp = generate();
    let fp = fingerprint(&kp.public);
    let groups: Vec<&str> = fp.split(':').collect();
    assert_eq!(groups.len(), 32, "SHA-256 digest is 32 bytes, one hex pair per group");
    for group in groups {
        assert_eq!(group.len(), 2);
        assert!(group.chars().all(|c| c.is_ascii_hexdigit()));
    }
}

#[test]
fn fingerprint_of_the_empty_key() {
    assert_eq!(
        fingerprint(&[]),
        "e3:b0:c4:42:98:fc:1c:14:9a:fb:f4:c8:99:6f:b9:24:27:ae:41:e4:64:9b:93:4c:a4:95:99:1b:78:52:b8:55"
    );
}

#[test]
fn base64_texts() {
    assert_eq!(encode_public_key(&[1, 2, 3]), "AQID");
    assert_eq!(
        encode_public_key(&[0u8; 32]),
        "AAAAAAAAAAAAAAAAAAAAAAAAAAAAAAAAAAAAAAAAAAA="
    );
    assert_eq!(
        decode_public_key("AAAAAAAAAAAAAAAAAAAAAAAAAAAAAAAAAAAAAAAAAAA=").unwrap(),
        vec![0u8; 32]
    );
    assert!(decode_public_key("not base64!").is_err());
}

#[test]
fn only_keys_of_the_right_length_pass() {
    assert!(check_key(Ok(vec![0; 32])).is_ok());
    assert_eq!(
        check_key(Ok(vec![0; 31])).unwrap_err(),
        "key must be 32 bytes, got 31"
    );
    assert_eq!(
        check_key(Err("why".to_string())).unwrap_err(),
        "invalid base64 key: why"
    );
}

#[test]
fn key_files_are_read_as_they_were_written() {
    let kp = generate();
    let text = key_file_text(&kp.private);
    assert!(text.ends_with('\n'));
    assert_eq!(read_key_file("id.key", &text).unwrap(), kp.private);
    assert_eq!(read_key_file("id.key", &format!("  {text}\n")).unwrap(), kp.private);
    assert_eq!(
        read_key_file("id.key", "AQID\n").unwrap_err(),
        "id.key does not contain a valid key: key must be 32 bytes, got 3"
    );
    assert!(read_key_file("id.key", "%%%").is_err());
}

#[test]
fn public_key_stands_beside_the_private_key() {
    assert_eq!(public_key_path("/etc/ghostport/id.key"), "/etc/ghostport/id.key.pub");
    assert_eq!(public_key_path("id"), "id.pub");
}

#[test]
fn colon_hex_writes_pairs() {
    assert_eq!(colon_hex(&[]), "");
    assert_eq!(colon_hex(&[0x0a]), "0a");
    assert_eq!(colon_hex(&[0xff, 0x00, 0x3b]), "ff:00:3b");
}

#[test]
fn matching_pinned_keys_let_initiator_and_responder_build() {
    let a = generate();
    let b = generate();
    assert!(initiator(&a.private, &b.public).is_ok());
    assert!(responder(&b.private, &a.public).is_ok());
}

#[test]
fn matches_the_correct_candidate_when_it_is_not_first() {
    let responder_kp = generate();
    let initiator_kp = generate();
    let decoy_kp = generate();
    let message = first_message(&initiator_kp.private, &responder_kp.public);
    let peers = vec![
        resolved("decoy", decoy_kp.public.clone(), &["a"]),
        resolved("real", initiator_kp.public.clone(), &["b"]),
    ];
    let (index, state) = match match_peer_bytes(&message, &responder_kp.private, &peers) {
        Ok(found) => found,
        Err(e) => panic!("{}", e.message()),
    };
    assert_eq!(index, 1);
    assert!(state.is_my_turn(), "responder should be ready to write message 2 next");
}

#[test]
fn no_candidate_matches_an_unrecognized_key() {
    let responder_kp = generate();
    let initiator_kp = generate();
    let stranger_kp = generate();
    let message = first_message(&initiator_kp.private, &responder_kp.public);
    let peers = vec![resolved("stranger", stranger_kp.public.clone(), &["a"])];
    let result = match_peer_bytes(&message, &responder_kp.private, &peers);
    assert!(matches!(result, Err(MatchError::NoMatch)));
}

#[test]
fn match_peer_bytes_matches_a_real_message_one_buffer() {
    let responder_kp = generate();
    let initiator_kp = generate();
    let message = first_message(&initiator_kp.private, &responder_kp.public);
    let peers = vec![resolved("real", initiator_kp.public.clone(), &["a"])];
    let (index, state) = match match_peer_bytes(&message, &responder_kp.private, &peers) {
        Ok(found) => found,
        Err(e) => panic!("{}", e.message()),
    };
    assert_eq!(index, 0);
    assert!(state.is_my_turn());
}

#[test]
fn a_matched_handshake_runs_to_its_end() {
    let server = generate();
    let client = generate();
    let mut init = initiator(&client.private, &server.public).unwrap();
    let mut buf = vec![0u8; 65535];
    let n = init.write_message(&[], &mut buf).unwrap();
    let peers = vec![resolved("client", client.public.clone(), &[])];
    let (_, mut state) = match match_peer_bytes(&buf[..n], &server.private, &peers) {
        Ok(found) => found,
        Err(e) => panic!("{}", e.message()),
    };
    let mut reply = vec![0u8; 65535];
    let m = state.write_message(&[], &mut reply).unwrap();
    let mut payload = vec![0u8; 65535];
    init.read_message(&reply[..m], &mut payload).unwrap();
    assert!(init.is_handshake_finished());
    assert!(state.is_handshake_finished());
}

#[test]
fn a_message_that_is_too_short_matches_nobody() {
    let server = generate();
    let client = generate();
    let peers = vec![resolved("client", client.public, &[])];
    let result = match_peer_bytes(&[1, 2, 3], &server.private, &peers);
    assert!(matches!(result, Err(MatchError::NoMatch)));
    assert_eq!(MatchError::NoMatch.message(), "no configured peer matched");
    assert_eq!(MatchError::Io("broken".to_string()).message(), "broken");
}
