//! What is counted and said about a stream that is relayed between an encrypted
//! tunnel and a plain connection. The copying itself is left to the transport.

use crate::log::{link_line, link_text, plain_link_line, plain_link_text, LogLine, Tone};
use crate::stats::{closed, SharedState};
use crate::text::{dec, push_dec};
use crate::theme::Palette;
use vstd::prelude::*;

verus! {

/// What is said of a stream that ended well.
pub open spec fn closed_message(forward: u64, back: u64) -> Seq<char> {
    "stream closed ("@ + dec(forward as nat) + " bytes forward, "@ + dec(back as nat)
        + " bytes back)"@
}

/// What is said of a stream that ended with an error.
pub open spec fn failed_message(error: Seq<char>) -> Seq<char> {
    "stream ended with an error: "@ + error
}

/// Records that a stream has ended: with the bytes that it carried either way,
/// or with an error. Gives the line to print.
pub fn finish(
    p: &Palette,
    state: &mut SharedState,
    link_id: &str,
    result: Result<(u64, u64), String>,
) -> (l: LogLine)
    ensures
        final(state).links@ == (if old(state).links@.contains_key(link_id@) {
            old(state).links@.insert(
                link_id@,
                closed(
                    old(state).links@[link_id@],
                    match result {
                        Ok(carried) => Some(carried),
                        Err(_) => None,
                    },
                ),
            )
        } else {
            old(state).links@
        }),
        final(state).role == old(state).role,
        final(state).control == old(state).control,
        final(state).started_at == old(state).started_at,
        l.to_stderr == (result is Err),
        l.text@ == (match result {
            Ok((forward, back)) => plain_link_text(p@, link_id@, closed_message(forward, back)),
            Err(e) => link_text(p@, link_id@, Tone::Bad, failed_message(e@)),
        }),
{
    match result {
        Ok((forward, back)) => {
            state.stream_closed(link_id, Some((forward, back)));
            let mut m = "stream closed (".to_string();
            push_dec(&mut m, forward);
            m.push_str(" bytes forward, ");
            push_dec(&mut m, back);
            m.push_str(" bytes back)");
            plain_link_line(p, false, link_id, m.as_str())
        },
        Err(e) => {
            state.stream_closed(link_id, None);
            let mut m = "stream ended with an error: ".to_string();
            m.push_str(e.as_str());
            link_line(p, true, link_id, Tone::Bad, m.as_str())
        },
    }
}

/// What is said of a stream that ended names the bytes that went forward before those
/// that came back, or the error.
pub proof fn law_end_of_a_stream_is_told(forward: u64, back: u64, error: Seq<char>)
    ensures
        closed_message(forward, back) == "stream closed ("@ + dec(forward as nat)
            + " bytes forward, "@ + dec(back as nat) + " bytes back)"@,
        failed_message(error) == "stream ended with an error: "@ + error,
{
}

} // verus!
