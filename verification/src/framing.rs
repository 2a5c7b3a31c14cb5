//! Messages with a length in front of them, over a stream of bytes. The length
//! is four bytes, the least significant first.

use crate::text::{dec, push_dec};
use vstd::prelude::*;

verus! {

/// The longest message that is accepted. Bounds what a malformed length can
/// make the receiver allocate.
pub const MAX_MESSAGE_LEN: u32 = 64 * 1024;

/// The four bytes of `n`, the least significant first.
pub open spec fn le_bytes(n: u32) -> Seq<u8> {
    seq![
        (n % 0x100) as u8,
        (n / 0x100 % 0x100) as u8,
        (n / 0x10000 % 0x100) as u8,
        (n / 0x1000000) as u8,
    ]
}

/// The number that four bytes form, the least significant first.
pub open spec fn le_value(b: Seq<u8>) -> int {
    b[0] + b[1] * 0x100 + b[2] * 0x10000 + b[3] * 0x1000000
}

/// A message as it goes over the stream. The length is counted modulo 2^32.
pub open spec fn framed(payload: Seq<u8>) -> Seq<u8> {
    le_bytes((payload.len() % 0x1_0000_0000) as u32) + payload
}

/// Puts the length in front of a message.
pub fn frame(payload: &[u8]) -> (out: Vec<u8>)
    ensures
        out@ == framed(payload@),
{
    let n: u32 = (payload.len() as u64 % 0x1_0000_0000) as u32;
    let mut out: Vec<u8> = Vec::new();
    out.push((n % 0x100) as u8);
    out.push((n / 0x100 % 0x100) as u8);
    out.push((n / 0x10000 % 0x100) as u8);
    out.push((n / 0x1000000) as u8);
    assert(out@ =~= le_bytes(n));
    let mut i: usize = 0;
    assert(out@ =~= le_bytes(n) + payload@.take(0));
    while i < payload.len()
        invariant
            i <= payload@.len(),
            out@ == le_bytes(n) + payload@.take(i as int),
        decreases payload@.len() - i,
    {
        out.push(payload[i]);
        i = i + 1;
        assert(out@ =~= le_bytes(n) + payload@.take(i as int));
    }
    assert(payload@.take(i as int) =~= payload@);
    out
}

/// What is said of a length that is not accepted.
pub open spec fn too_long_text(len: nat) -> Seq<char> {
    "framed message length "@ + dec(len) + " exceeds max "@ + dec(MAX_MESSAGE_LEN as nat)
}

/// How many bytes to read for the message behind the length `prefix`. One that
/// is too long is refused before anything is allocated for it.
pub fn message_len(prefix: [u8; 4]) -> (r: Result<u32, String>)
    ensures
        match r {
            Ok(n) => n == le_value(prefix@) && n <= MAX_MESSAGE_LEN,
            Err(e) => le_value(prefix@) > MAX_MESSAGE_LEN && e@ == too_long_text(
                le_value(prefix@) as nat,
            ),
        },
{
    let n: u32 = prefix[0] as u32 + prefix[1] as u32 * 0x100 + prefix[2] as u32 * 0x10000
        + prefix[3] as u32 * 0x1000000;
    if n > MAX_MESSAGE_LEN {
        let mut m = "framed message length ".to_string();
        push_dec(&mut m, n as u64);
        m.push_str(" exceeds max ");
        push_dec(&mut m, MAX_MESSAGE_LEN as u64);
        return Err(m);
    }
    Ok(n)
}

/// What a receiver makes of a stream: the first message and the rest of the
/// stream, or nothing where the length is refused or the message is not whole.
pub open spec fn received(stream: Seq<u8>) -> Option<(Seq<u8>, Seq<u8>)> {
    let n = le_value(stream);
    if stream.len() < 4 || n > MAX_MESSAGE_LEN || stream.len() < 4 + n {
        None
    } else {
        Some((stream.subrange(4, 4 + n), stream.skip(4 + n)))
    }
}

/// The bytes of a number form the number again.
pub proof fn lemma_le_bytes(n: u32)
    ensures
        le_value(le_bytes(n)) == n,
{
    assert((n % 0x100) + (n / 0x100 % 0x100) * 0x100 + (n / 0x10000 % 0x100) * 0x10000 + (n
        / 0x1000000) * 0x1000000 == n) by (bit_vector);
}

/// A message that is not too long comes out of the stream as it went in, and
/// what follows it is left alone.
pub proof fn law_received_as_sent(payload: Seq<u8>, rest: Seq<u8>)
    requires
        payload.len() <= MAX_MESSAGE_LEN,
    ensures
        received(framed(payload) + rest) == Some((payload, rest)),
{
    let n = payload.len() as u32;
    lemma_le_bytes(n);
    let stream = framed(payload) + rest;
    assert(framed(payload) =~= le_bytes(n) + payload);
    assert(stream[0] == le_bytes(n)[0] && stream[1] == le_bytes(n)[1] && stream[2] == le_bytes(n)[2]
        && stream[3] == le_bytes(n)[3]);
    assert(stream.subrange(4, 4 + n) =~= payload);
    assert(stream.skip(4 + n) =~= rest);
}

/// Messages as they go over the stream, one behind the other.
pub open spec fn framed_all(payloads: Seq<Seq<u8>>) -> Seq<u8>
    decreases payloads.len(),
{
    if payloads.len() == 0 {
        Seq::empty()
    } else {
        framed(payloads[0]) + framed_all(payloads.drop_first())
    }
}

/// What a receiver makes of a stream in `n` reads: a message for each, in order, and
/// the rest of the stream. Nothing where one of the reads gives none.
pub open spec fn received_all(stream: Seq<u8>, n: nat) -> Option<(Seq<Seq<u8>>, Seq<u8>)>
    decreases n,
{
    if n == 0 {
        Some((Seq::empty(), stream))
    } else {
        match received(stream) {
            Some((payload, behind)) => match received_all(behind, (n - 1) as nat) {
                Some((others, rest)) => Some((seq![payload] + others, rest)),
                None => None,
            },
            None => None,
        }
    }
}

/// Messages that are not too long come out of the stream as they went in, one for
/// each read and in order, and what follows them is left alone.
pub proof fn law_all_received_as_sent(payloads: Seq<Seq<u8>>, rest: Seq<u8>)
    requires
        forall|i: int| 0 <= i < payloads.len() ==> (#[trigger] payloads[i]).len() <= MAX_MESSAGE_LEN,
    ensures
        received_all(framed_all(payloads) + rest, payloads.len()) == Some((payloads, rest)),
    decreases payloads.len(),
{
    let stream = framed_all(payloads) + rest;
    if payloads.len() == 0 {
        assert(stream =~= rest);
        assert(payloads =~= Seq::<Seq<u8>>::empty());
    } else {
        let others = payloads.drop_first();
        assert forall|i: int| 0 <= i < others.len() implies (#[trigger] others[i]).len()
            <= MAX_MESSAGE_LEN by {
            assert(others[i] == payloads[i + 1]);
        }
        law_all_received_as_sent(others, rest);
        let behind = framed_all(others) + rest;
        assert(stream =~= framed(payloads[0]) + behind);
        law_received_as_sent(payloads[0], behind);
        assert(payloads =~= seq![payloads[0]] + others);
    }
}

/// A message that is too long, and whose length fits in its four bytes, is
/// never accepted.
pub proof fn law_too_long_is_refused(payload: Seq<u8>, rest: Seq<u8>)
    requires
        MAX_MESSAGE_LEN < payload.len() < 0x1_0000_0000,
    ensures
        received(framed(payload) + rest) is None,
{
    let n = payload.len() as u32;
    lemma_le_bytes(n);
    let stream = framed(payload) + rest;
    assert(framed(payload) =~= le_bytes(n) + payload);
    assert(stream[0] == le_bytes(n)[0] && stream[1] == le_bytes(n)[1] && stream[2] == le_bytes(n)[2]
        && stream[3] == le_bytes(n)[3]);
}

/// A message goes over the stream behind its length in four bytes, the lowest one
/// first, and up to 65536 bytes are taken in.
pub proof fn law_length_goes_in_front(payload: Seq<u8>, rest: Seq<u8>)
    requires
        payload.len() < 0x1_0000_0000,
    ensures
        ({
            let f = framed(payload);
            &&& f.len() == payload.len() + 4
            &&& f[0] + 256 * f[1] + 65536 * f[2] + 16777216 * f[3] == payload.len()
            &&& f.skip(4) == payload
            &&& received(f + rest) is Some <==> payload.len() <= 65536
        }),
{
    let n = payload.len() as u32;
    let f = framed(payload);
    lemma_le_bytes(n);
    assert(f.skip(4) =~= payload);
    if payload.len() <= 65536 {
        law_received_as_sent(payload, rest);
    } else {
        law_too_long_is_refused(payload, rest);
    }
}

/// The number of a length is made of its four bytes, the lowest one first.
pub proof fn law_length_is_read_lowest_byte_first(b: Seq<u8>)
    requires
        b.len() == 4,
    ensures
        le_value(b) == b[0] + 256 * b[1] + 65536 * b[2] + 16777216 * b[3],
        too_long_text(le_value(b) as nat) == "framed message length "@ + dec(le_value(b) as nat)
            + " exceeds max "@ + dec(65536),
{
}

} // verus!
