//! Static Noise keypairs: generation, and the text that a key is stored and
//! shown as. A private key is kept in a file, its public half in a sibling file
//! (`identity.key` and `identity.key.pub`), both as one line of base64.

use crate::noise;
use crate::text::{dec, hex2, hex_digit_value, joined, split, trim_end, trim_start, trimmed};
use crate::text::{lemma_trimmed_id, push_dec, push_hex2, trim};
use sha2::Digest;
use base64::Engine;
use vstd::prelude::*;

verus! {

/// A static Noise X25519 keypair, in raw byte form.
pub struct Keypair {
    /// The private half. Never log or print this.
    pub private: Vec<u8>,
    /// The public half, safe to share with the peer.
    pub public: Vec<u8>,
}

/// The length of every key, in bytes.
pub const KEY_LEN: usize = 32;

/// The base64 text of `bytes`, with the standard alphabet and padding.
pub uninterp spec fn base64_encoded(bytes: Seq<u8>) -> Seq<char>;

/// The bytes that a base64 text stands for, or what is wrong with it.
pub uninterp spec fn base64_decoded(text: Seq<char>) -> Result<Seq<u8>, Seq<char>>;

/// The SHA-256 digest of `bytes`.
pub uninterp spec fn sha256(bytes: Seq<u8>) -> Seq<u8>;

/// The characters of base64's standard alphabet, and the padding sign.
pub open spec fn is_base64_char(c: char) -> bool {
    'A' <= c <= 'Z' || 'a' <= c <= 'z' || '0' <= c <= '9' || c == '+' || c == '/' || c == '='
}

/// What a decoding gives, by its views.
pub open spec fn decoding(r: Result<Vec<u8>, String>) -> Result<Seq<u8>, Seq<char>> {
    match r {
        Ok(bytes) => Ok(bytes@),
        Err(e) => Err(e@),
    }
}

/// A decoding that succeeded with `bytes`.
pub open spec fn key_ok(bytes: Seq<u8>) -> Result<Seq<u8>, Seq<char>> {
    Ok(bytes)
}

/// A decoding that failed with `message`.
pub open spec fn key_err(message: Seq<char>) -> Result<Seq<u8>, Seq<char>> {
    Err(message)
}

/// `Engine::encode` of `base64`'s standard engine: four characters of the
/// standard alphabet for every three bytes begun, which decode to the same bytes
/// again.
#[verifier::external_body]
fn base64_encode(bytes: &[u8]) -> (s: String)
    ensures
        s@ == base64_encoded(bytes@),
        s@.len() == 4 * ((bytes@.len() + 2) / 3),
        forall|i: int| 0 <= i < s@.len() ==> is_base64_char(#[trigger] s@[i]),
        base64_decoded(s@) == key_ok(bytes@),
{
    base64::engine::general_purpose::STANDARD.encode(bytes)
}

/// `Engine::decode` of `base64`'s standard engine. An error is handed on as its
/// text.
#[verifier::external_body]
fn base64_decode(s: &str) -> (r: Result<Vec<u8>, String>)
    ensures
        decoding(r) == base64_decoded(s@),
{
    base64::engine::general_purpose::STANDARD.decode(s).map_err(|e| e.to_string())
}

/// `Sha256::digest` of `sha2`: the digest has 32 bytes.
#[verifier::external_body]
fn sha256_digest(bytes: &[u8]) -> (d: Vec<u8>)
    ensures
        d@ == sha256(bytes@),
        d@.len() == 32,
{
    sha2::Sha256::digest(bytes).to_vec()
}

/// Generates a new random static Noise keypair, whose halves belong together.
pub fn generate() -> (kp: Keypair)
    ensures
        kp.public@ == noise::public_half(kp.private@),
        kp.private@.len() == KEY_LEN,
        kp.public@.len() == KEY_LEN,
{
    noise::generate_keypair()
}

/// The public-key sibling of a private-key path (`identity.key` becomes
/// `identity.key.pub`).
pub fn public_key_path(private_key_path: &str) -> (p: String)
    ensures
        p@ == private_key_path@ + ".pub"@,
{
    let mut p = private_key_path.to_string();
    p.push_str(".pub");
    p
}

/// Base64-encodes a public key for display or for a configuration file.
///
/// What is encoded can be read back: a key of the right length is what
/// `decode_public_key` makes of its text.
pub fn encode_public_key(public: &[u8]) -> (s: String)
    ensures
        s@ == base64_encoded(public@),
        s@.len() == 4 * ((public@.len() + 2) / 3),
        public@.len() == KEY_LEN ==> decoded_key(s@) == key_ok(public@),
        public@.len() != KEY_LEN ==> decoded_key(s@) == key_err(
            "key must be 32 bytes, got "@ + dec(public@.len()),
        ),
{
    let s = base64_encode(public);
    proof {
        lemma_base64_trimmed(s@);
    }
    s
}

proof fn lemma_base64_trimmed(s: Seq<char>)
    requires
        forall|i: int| 0 <= i < s.len() ==> is_base64_char(#[trigger] s[i]),
    ensures
        trimmed(s) == s,
{
    if s.len() > 0 {
        assert(is_base64_char(s[0]));
        assert(is_base64_char(s[s.len() - 1]));
    }
    lemma_trimmed_id(s);
}

/// Which decodings are keys: those of exactly 32 bytes.
pub open spec fn checked_key(decoded: Result<Seq<u8>, Seq<char>>) -> Result<Seq<u8>, Seq<char>> {
    match decoded {
        Err(e) => Err("invalid base64 key: "@ + e),
        Ok(key) => if key.len() == KEY_LEN {
            Ok(key)
        } else {
            Err("key must be 32 bytes, got "@ + dec(key.len()))
        },
    }
}

/// The key that a text stands for; white space around it does not count.
pub open spec fn decoded_key(s: Seq<char>) -> Result<Seq<u8>, Seq<char>> {
    checked_key(base64_decoded(trimmed(s)))
}

/// Accepts a decoding that is a key, and says what is wrong with any other.
pub fn check_key(decoded: Result<Vec<u8>, String>) -> (r: Result<Vec<u8>, String>)
    ensures
        decoding(r) == checked_key(decoding(decoded)),
{
    match decoded {
        Err(e) => {
            let mut message = "invalid base64 key: ".to_string();
            message.push_str(e.as_str());
            Err(message)
        },
        Ok(key) => {
            if key.len() != KEY_LEN {
                let mut message = "key must be 32 bytes, got ".to_string();
                push_dec(&mut message, key.len() as u64);
                return Err(message);
            }
            Ok(key)
        },
    }
}

/// Decodes and checks a base64-encoded key, rejecting anything that does not
/// decode to exactly 32 bytes.
pub fn decode_public_key(s: &str) -> (r: Result<Vec<u8>, String>)
    ensures
        decoding(r) == decoded_key(s@),
{
    let t = trim(s);
    check_key(base64_decode(t.as_str()))
}

/// The content of a key file: the base64 text and a line feed.
///
/// What is written can be read back: a key of the right length is what
/// `read_key_file` makes of its file, whatever the path.
pub fn key_file_text(key: &[u8]) -> (s: String)
    ensures
        s@ == base64_encoded(key@).push('\n'),
        key@.len() == KEY_LEN ==> forall|path: Seq<char>|
            #[trigger] file_key(path, s@) == key_ok(key@),
{
    let mut s = base64_encode(key);
    let ghost text = s@;
    s.push('\n');
    proof {
        lemma_line_trimmed(text);
        lemma_base64_trimmed(text);
    }
    s
}

proof fn lemma_line_trimmed(s: Seq<char>)
    requires
        forall|i: int| 0 <= i < s.len() ==> is_base64_char(#[trigger] s[i]),
    ensures
        trimmed(s.push('\n')) == s,
{
    let line = s.push('\n');
    if s.len() > 0 {
        assert(is_base64_char(s[0]));
        assert(is_base64_char(s[s.len() - 1]));
        assert(line[0] == s[0]);
        assert(trim_start(line) == line);
        assert(line.last() == '\n');
        assert(line.drop_last() =~= s);
        assert(trim_end(s) == s);
    } else {
        assert(line.drop_first() =~= s);
        assert(s =~= Seq::<char>::empty());
        reveal_with_fuel(trim_start, 2);
        assert(trim_start(line) == s);
    }
}

/// The key in the file at `path`, given the file's content.
pub open spec fn file_key(path: Seq<char>, text: Seq<char>) -> Result<Seq<u8>, Seq<char>> {
    match decoded_key(trimmed(text)) {
        Ok(key) => Ok(key),
        Err(e) => Err(path + " does not contain a valid key: "@ + e),
    }
}

/// Reads the key out of the content `text` of the key file at `path`.
pub fn read_key_file(path: &str, text: &str) -> (r: Result<Vec<u8>, String>)
    ensures
        decoding(r) == file_key(path@, text@),
{
    let t = trim(text);
    match decode_public_key(t.as_str()) {
        Ok(key) => Ok(key),
        Err(e) => {
            let mut message = path.to_string();
            message.push_str(" does not contain a valid key: ");
            message.push_str(e.as_str());
            Err(message)
        },
    }
}

/// Bytes as pairs of lower-case hexadecimal digits, with colons between them.
pub open spec fn colon_hex_text(bytes: Seq<u8>) -> Seq<char> {
    joined(bytes.map_values(|b: u8| hex2(b)), seq![':'])
}

/// Renders bytes as pairs of hexadecimal digits with colons between them.
pub fn colon_hex(bytes: &[u8]) -> (s: String)
    ensures
        s@ == colon_hex_text(bytes@),
{
    let mut s = String::new();
    let mut i: usize = 0;
    assert(bytes@.take(0).map_values(|b: u8| hex2(b)) =~= Seq::<Seq<char>>::empty());
    while i < bytes.len()
        invariant
            i <= bytes@.len(),
            s@ == colon_hex_text(bytes@.take(i as int)),
        decreases bytes@.len() - i,
    {
        let ghost before = bytes@.take(i as int).map_values(|b: u8| hex2(b));
        let ghost after = bytes@.take(i + 1).map_values(|b: u8| hex2(b));
        let ghost text = s@;
        if i > 0 {
            s.push(':');
        }
        push_hex2(&mut s, bytes[i]);
        proof {
            assert(after.drop_last() =~= before);
            assert(after.last() == hex2(bytes@[i as int]));
            if i == 0 {
                assert(s@ =~= hex2(bytes@[0]));
            } else {
                assert(text.push(':') =~= text + seq![':']);
            }
        }
        i = i + 1;
    }
    assert(bytes@.take(i as int) =~= bytes@);
    s
}

/// A short, comparable fingerprint of a public key: the SHA-256 digest of its
/// bytes, as colon-grouped hexadecimal digits. Meant to be compared with the
/// peer over another channel.
pub fn fingerprint(public_key: &[u8]) -> (s: String)
    ensures
        s@ == colon_hex_text(sha256(public_key@)),
        split(s@, ':').len() == 32,
{
    let d = sha256_digest(public_key);
    proof {
        law_fingerprint_groups(d@);
    }
    colon_hex(&d)
}

/// Between its colons the text holds one pair of lower-case hexadecimal digits
/// for each byte, in order.
pub proof fn law_fingerprint_groups(bytes: Seq<u8>)
    requires
        bytes.len() > 0,
    ensures
        split(colon_hex_text(bytes), ':') == bytes.map_values(|b: u8| hex2(b)),
{
    let pieces = bytes.map_values(|b: u8| hex2(b));
    assert forall|i: int, j: int|
        #![trigger pieces[i][j]]
        0 <= i < pieces.len() && 0 <= j < pieces[i].len() implies pieces[i][j] != ':' by {
        assert(pieces[i] == hex2(bytes[i]));
    }
    crate::net::lemma_split_joined(pieces, ':');
}

/// Different digests never read the same.
pub proof fn law_fingerprint_injective(a: Seq<u8>, b: Seq<u8>)
    requires
        a.len() > 0,
        b.len() > 0,
        colon_hex_text(a) == colon_hex_text(b),
    ensures
        a == b,
{
    law_fingerprint_groups(a);
    law_fingerprint_groups(b);
    let p = a.map_values(|x: u8| hex2(x));
    let q = b.map_values(|x: u8| hex2(x));
    assert(p.len() == a.len() && q.len() == b.len());
    assert forall|i: int| 0 <= i < a.len() implies #[trigger] a[i] == b[i] by {
        assert(p[i] == q[i]);
        assert(hex2(a[i]) == hex2(b[i]));
        assert(hex2(a[i])[0] == hex2(b[i])[0]);
        assert(hex2(a[i])[1] == hex2(b[i])[1]);
    }
    assert(a =~= b);
}

/// A text is a key exactly if, without the white space around it, it is the base64 text
/// of 32 bytes; the key is those bytes.
pub proof fn law_keys_have_32_bytes(s: Seq<char>)
    ensures
        decoded_key(s) is Ok <==> base64_decoded(trimmed(s)) is Ok && base64_decoded(
            trimmed(s),
        )->Ok_0.len() == 32,
        decoded_key(s) is Ok ==> decoded_key(s) == base64_decoded(trimmed(s)),
        decoded_key(s) matches Err(e) ==> e == (match base64_decoded(trimmed(s)) {
            Err(why) => "invalid base64 key: "@ + why,
            Ok(bytes) => "key must be 32 bytes, got "@ + dec(bytes.len()),
        }),
        decoded_key(trimmed(s)) == decoded_key(s),
{
    crate::text::lemma_trimmed(s);
}

/// A key file holds the key that its text stands for; where that is none, the complaint
/// names the file.
pub proof fn law_key_file_holds_its_key(path: Seq<char>, text: Seq<char>)
    ensures
        file_key(path, text) is Ok <==> decoded_key(text) is Ok,
        file_key(path, text) is Ok ==> file_key(path, text) == decoded_key(text),
        file_key(path, text) matches Err(e) ==> e == path + " does not contain a valid key: "@
            + decoded_key(text)->Err_0,
{
    law_keys_have_32_bytes(text);
}

/// A fingerprint has two digits for each byte and a colon between any two of them.
pub proof fn law_fingerprint_digits(bytes: Seq<u8>, i: int)
    requires
        0 <= i < bytes.len(),
    ensures
        colon_hex_text(bytes).len() == 3 * bytes.len() - 1,
        hex_digit_value(colon_hex_text(bytes)[3 * i]) == Some((bytes[i] / 16) as nat),
        hex_digit_value(colon_hex_text(bytes)[3 * i + 1]) == Some((bytes[i] % 16) as nat),
        i + 1 < bytes.len() ==> colon_hex_text(bytes)[3 * i + 2] == ':',
    decreases bytes.len(),
{
    let pieces = bytes.map_values(|b: u8| hex2(b));
    let front = bytes.drop_last();
    assert(pieces.drop_last() =~= front.map_values(|b: u8| hex2(b)));
    assert(pieces.last() == hex2(bytes.last()));
    if bytes.len() == 1 {
        assert(pieces[0] == hex2(bytes[0]));
    } else {
        let before = colon_hex_text(front);
        assert(colon_hex_text(bytes) == before + seq![':'] + hex2(bytes.last()));
        if i < front.len() {
            law_fingerprint_digits(front, i);
            assert(front[i] == bytes[i]);
        } else {
            law_fingerprint_digits(front, 0);
        }
    }
}

} // verus!
