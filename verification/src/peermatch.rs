//! Matches an incoming Noise handshake against one of several allowed peers,
//! for the server role. `Noise_KK` needs the remote static key before the first
//! message can be read, so the message is tried against every allowed key in
//! turn.

use crate::noise::{first_message_opens, initiates, responder, transcript};
use crate::noise::{MAX_PRIVATE_KEY_LEN, MAX_PUBLIC_KEY_LEN};
use vstd::hash_set::StringHashSet;
use vstd::prelude::*;

verus! {

/// One allowed peer, in the form that matching needs.
pub struct ResolvedPeer {
    /// The peer's name, as given in the configuration.
    pub name: String,
    /// The peer's raw static public key.
    pub public_key: Vec<u8>,
    /// The links that this peer may open a stream on.
    pub links: StringHashSet,
}

/// Why matching failed.
pub enum MatchError {
    /// Reading failed before a whole handshake message had arrived; the text
    /// says how.
    Io(String),
    /// A whole message was read, but no configured peer's key fits it.
    NoMatch,
}

impl MatchError {
    /// The text that `self` is shown as.
    pub open spec fn text(&self) -> Seq<char> {
        match self {
            MatchError::Io(e) => e@,
            MatchError::NoMatch => "no configured peer matched"@,
        }
    }

    /// The text that the error is shown as.
    pub fn message(&self) -> (s: String)
        ensures
            s@ == self.text(),
    {
        match self {
            MatchError::Io(e) => e.clone(),
            MatchError::NoMatch => "no configured peer matched".to_string(),
        }
    }
}

/// `HandshakeState::read_message` of `snow`, on a responder that has not read
/// anything yet. Whether it succeeds is settled by the two keys and the message;
/// it only can where the message holds an ephemeral key and a tag (48 bytes) and
/// no more than the 65535 bytes that Noise allows. What the state holds after a
/// failure is left open.
#[verifier::external_body]
fn read_first_message(state: &mut snow::HandshakeState, message: &[u8]) -> (ok: bool)
    requires
        transcript(*old(state)).len() == 2,
        !initiates(*old(state)),
    ensures
        ok == first_message_opens(transcript(*old(state))[0], transcript(*old(state))[1], message@),
        ok ==> 48 <= message@.len() <= 65535,
        ok ==> transcript(*final(state)) == transcript(*old(state)).push(message@),
        !initiates(*final(state)),
{
    let mut payload = vec![0u8; message.len()];
    state.read_message(message, &mut payload).is_ok()
}

/// The keys of `peers`.
pub open spec fn peer_keys(peers: Seq<ResolvedPeer>) -> Seq<Seq<u8>> {
    peers.map_values(|p: ResolvedPeer| p.public_key@)
}

/// `index` is the first of `keys` that opens `message`.
pub open spec fn is_first_match(
    message: Seq<u8>,
    private_key: Seq<u8>,
    keys: Seq<Seq<u8>>,
    index: int,
) -> bool {
    &&& 0 <= index < keys.len()
    &&& first_message_opens(private_key, keys[index], message)
    &&& forall|j: int|
        0 <= j < index ==> !first_message_opens(private_key, #[trigger] keys[j], message)
}

/// Tries `message`, one whole handshake message, against each of `peers` in
/// turn. Gives the index of the first peer that fits, and the state that has
/// read the message.
pub fn match_peer_bytes(
    message: &[u8],
    private_key: &[u8],
    peers: &[ResolvedPeer],
) -> (r: Result<(usize, snow::HandshakeState), MatchError>)
    requires
        private_key@.len() <= MAX_PRIVATE_KEY_LEN,
        forall|i: int| 0 <= i < peers@.len() ==> (#[trigger] peers@[i]).public_key@.len() <= MAX_PUBLIC_KEY_LEN,
    ensures
        match r {
            Ok((index, state)) => {
                &&& is_first_match(message@, private_key@, peer_keys(peers@), index as int)
                &&& transcript(state) == seq![
                    private_key@,
                    peers@[index as int].public_key@,
                    message@,
                ]
                &&& !initiates(state)
            },
            Err(e) => {
                &&& e is NoMatch
                &&& forall|j: int|
                    0 <= j < peers@.len() ==> !first_message_opens(
                        private_key@,
                        (#[trigger] peers@[j]).public_key@,
                        message@,
                    )
            },
        },
        message@.len() < 48 || message@.len() > 65535 ==> r is Err,
{
    let ghost keys = peer_keys(peers@);
    let mut index: usize = 0;
    while index < peers.len()
        invariant
            index <= peers@.len(),
            keys == peer_keys(peers@),
            private_key@.len() <= MAX_PRIVATE_KEY_LEN,
            forall|i: int|
                0 <= i < peers@.len() ==> (#[trigger] peers@[i]).public_key@.len() <= MAX_PUBLIC_KEY_LEN,
            forall|j: int|
                0 <= j < index ==> !first_message_opens(
                    private_key@,
                    (#[trigger] peers@[j]).public_key@,
                    message@,
                ),
        decreases peers@.len() - index,
    {
        if let Ok(mut state) = responder(private_key, &peers[index].public_key) {
            if read_first_message(&mut state, message) {
                assert(transcript(state) =~= seq![
                    private_key@,
                    peers@[index as int].public_key@,
                    message@,
                ]);
                return Ok((index, state));
            }
        }
        index = index + 1;
    }
    Err(MatchError::NoMatch)
}

/// The peer that a message is matched with is the first whose key opens it: there is no
/// other such peer before it, and so there is only one first.
pub proof fn law_first_matching_peer(
    message: Seq<u8>,
    private_key: Seq<u8>,
    keys: Seq<Seq<u8>>,
    i: int,
    k: int,
)
    ensures
        is_first_match(message, private_key, keys, i) <==> {
            &&& 0 <= i < keys.len()
            &&& first_message_opens(private_key, keys[i], message)
            &&& !exists|j: int|
                0 <= j < i && first_message_opens(private_key, #[trigger] keys[j], message)
        },
        is_first_match(message, private_key, keys, i) && is_first_match(
            message,
            private_key,
            keys,
            k,
        ) ==> i == k,
{
}

/// The keys of peers are their own, one for one and in order.
pub proof fn law_keys_of_peers(peers: Seq<ResolvedPeer>, i: int)
    requires
        0 <= i < peers.len(),
    ensures
        peer_keys(peers).len() == peers.len(),
        peer_keys(peers)[i] == peers[i].public_key@,
{
}

/// A failure to match is told by the error of reading, or as what it is.
pub proof fn law_failure_to_match_is_told(e: String)
    ensures
        MatchError::Io(e).text() == e@,
        MatchError::NoMatch.text() == "no configured peer matched"@,
{
}

} // verus!
