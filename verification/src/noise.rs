//! Noise handshake setup. Uses `Noise_KK`: both peers already know each other's
//! static public key ahead of time (pinned in the configuration). A peer that
//! does not hold the private key that matches the expected public key cannot
//! complete the handshake at all, so no identity has to be compared afterwards.

use crate::keys::Keypair;
use vstd::prelude::*;

verus! {

/// The handshake pattern and the primitives that every tunnel uses.
pub const PATTERN: &'static str = "Noise_KK_25519_ChaChaPoly_BLAKE2s";

/// The longest private key that a handshake state can hold.
pub const MAX_PRIVATE_KEY_LEN: usize = 32;

/// The longest public key that a handshake state can hold.
pub const MAX_PUBLIC_KEY_LEN: usize = 56;

/// The state of one handshake, as `snow` keeps it.
#[verifier::external_type_specification]
#[verifier::external_body]
pub struct ExHandshakeState(snow::HandshakeState);

/// What a handshake state holds: the local private key and the remote public
/// key that it was made with, and then every message that it has accepted.
pub uninterp spec fn transcript(state: snow::HandshakeState) -> Seq<Seq<u8>>;

/// Whether a handshake state is that of the side that sends the first message.
pub uninterp spec fn initiates(state: snow::HandshakeState) -> bool;

/// Whether a responder with the private key `local`, made for a peer with the
/// public key `remote`, accepts `message` as the first of the handshake.
pub uninterp spec fn first_message_opens(local: Seq<u8>, remote: Seq<u8>, message: Seq<u8>) -> bool;

/// The public key that belongs to a private key.
pub uninterp spec fn public_half(private: Seq<u8>) -> Seq<u8>;

/// `snow::Builder::generate_keypair` for the pattern: a fresh random private key
/// and the public key that belongs to it, 32 bytes each. Which pair comes is left to
/// chance.
#[verifier::external_body]
pub(crate) fn generate_keypair() -> (kp: Keypair)
    ensures
        kp.private@.len() == 32,
        kp.public@.len() == 32,
        kp.public@ == public_half(kp.private@),
{
    let kp = snow::Builder::new(PATTERN.parse().expect("PATTERN is a valid Noise pattern string"))
        .generate_keypair()
        .expect("keypair generation only fails on RNG failure");
    Keypair { private: kp.private, public: kp.public }
}

/// `snow::Builder::build_initiator`: with both keys given, and neither longer
/// than the buffer that it is copied to, the state is built. An error is handed
/// on as its text.
#[verifier::external_body]
fn build_initiator(local_private: &[u8], remote_public: &[u8]) -> (r: Result<
    snow::HandshakeState,
    String,
>)
    requires
        local_private@.len() <= MAX_PRIVATE_KEY_LEN,
        remote_public@.len() <= MAX_PUBLIC_KEY_LEN,
    ensures
        r is Ok,
        transcript(r->Ok_0) == seq![local_private@, remote_public@],
        initiates(r->Ok_0),
{
    snow::Builder::new(PATTERN.parse().expect("PATTERN is a valid Noise pattern string"))
        .local_private_key(local_private)
        .remote_public_key(remote_public)
        .build_initiator()
        .map_err(|e| e.to_string())
}

/// `snow::Builder::build_responder`: with both keys given, and neither longer
/// than the buffer that it is copied to, the state is built. An error is handed
/// on as its text.
#[verifier::external_body]
fn build_responder(local_private: &[u8], remote_public: &[u8]) -> (r: Result<
    snow::HandshakeState,
    String,
>)
    requires
        local_private@.len() <= MAX_PRIVATE_KEY_LEN,
        remote_public@.len() <= MAX_PUBLIC_KEY_LEN,
    ensures
        r is Ok,
        transcript(r->Ok_0) == seq![local_private@, remote_public@],
        !initiates(r->Ok_0),
{
    snow::Builder::new(PATTERN.parse().expect("PATTERN is a valid Noise pattern string"))
        .local_private_key(local_private)
        .remote_public_key(remote_public)
        .build_responder()
        .map_err(|e| e.to_string())
}

/// The state for the side that sends the first message.
pub fn initiator(local_private: &[u8], remote_public: &[u8]) -> (r: Result<
    snow::HandshakeState,
    String,
>)
    requires
        local_private@.len() <= MAX_PRIVATE_KEY_LEN,
        remote_public@.len() <= MAX_PUBLIC_KEY_LEN,
    ensures
        r is Ok,
        transcript(r->Ok_0) == seq![local_private@, remote_public@],
        initiates(r->Ok_0),
{
    match build_initiator(local_private, remote_public) {
        Ok(state) => Ok(state),
        Err(e) => {
            let mut message = "failed to build Noise initiator: ".to_string();
            message.push_str(e.as_str());
            Err(message)
        },
    }
}

/// The state for the side that receives the first message.
pub fn responder(local_private: &[u8], remote_public: &[u8]) -> (r: Result<
    snow::HandshakeState,
    String,
>)
    requires
        local_private@.len() <= MAX_PRIVATE_KEY_LEN,
        remote_public@.len() <= MAX_PUBLIC_KEY_LEN,
    ensures
        r is Ok,
        transcript(r->Ok_0) == seq![local_private@, remote_public@],
        !initiates(r->Ok_0),
{
    match build_responder(local_private, remote_public) {
        Ok(state) => Ok(state),
        Err(e) => {
            let mut message = "failed to build Noise responder: ".to_string();
            message.push_str(e.as_str());
            Err(message)
        },
    }
}

} // verus!
