//! The HTTP side of the exporter: it reads a request line, ignores the rest of
//! the request, and answers in one of two ways.

use super::render::{render, rendered};
use crate::stats::{StatusModel, StatusSnapshot};
use crate::text::{
    dec, is_white, law_words_are_between_white_space, push_dec, split_words, str_eq, trim, trimmed,
    words,
};
use vstd::prelude::*;
use vstd::utf8::{decode_utf8, encode_utf8, valid_utf8};

verus! {

/// How long a client may take to send its request line, in seconds.
pub const REQUEST_READ_TIMEOUT_SECS: u64 = 5;

/// How long to wait for the daemon's status, in seconds.
pub const QUERY_TIMEOUT_SECS: u64 = 5;

/// A request line longer than this is refused.
pub const MAX_REQUEST_LINE: usize = 8192;

/// A whole response. The length counts the bytes of the body.
pub open spec fn response_text(
    status: u16,
    reason: Seq<char>,
    content_type: Seq<char>,
    body: Seq<char>,
) -> Seq<char> {
    "HTTP/1.1 "@ + dec(status as nat) + " "@ + reason + "\r\nContent-Type: "@ + content_type
        + "\r\nContent-Length: "@ + dec(encode_utf8(body).len())
        + "\r\nConnection: close\r\n\r\n"@ + body
}

/// Writes a whole response.
pub fn http_response(status: u16, reason: &str, content_type: &str, body: &str) -> (s: String)
    ensures
        s@ == response_text(status, reason@, content_type@, body@),
{
    let mut s = "HTTP/1.1 ".to_string();
    push_dec(&mut s, status as u64);
    s.push_str(" ");
    s.push_str(reason);
    s.push_str("\r\nContent-Type: ");
    s.push_str(content_type);
    s.push_str("\r\nContent-Length: ");
    push_dec(&mut s, body.as_bytes().len() as u64);
    s.push_str("\r\nConnection: close\r\n\r\n");
    s.push_str(body);
    s
}

/// The path that a request line asks for with `GET`.
pub open spec fn request_path(line: Seq<char>) -> Option<Seq<char>> {
    let w = words(line);
    if w.len() >= 2 && w[0] == "GET"@ {
        Some(w[1])
    } else {
        None
    }
}

/// Reads the path out of a request line such as `GET /path HTTP/1.1`. Anything
/// that is not a well-formed `GET` gives nothing.
pub fn parse_request_path(request_line: &str) -> (r: Option<String>)
    ensures
        r.deep_view() == request_path(request_line@),
{
    let parts = split_words(request_line);
    assert(parts.deep_view().len() == parts@.len());
    if parts.len() < 2 {
        return None;
    }
    assert(parts.deep_view()[0] == parts@[0]@ && parts.deep_view()[1] == parts@[1]@);
    if !str_eq(parts[0].as_str(), "GET") {
        return None;
    }
    Some(parts[1].clone())
}

// ---------------------------------------------------------------------
// Reading the request line
// ---------------------------------------------------------------------

/// The position of the first line feed, or the length.
pub open spec fn line_end(bytes: Seq<u8>) -> int
    decreases bytes.len(),
{
    if bytes.len() == 0 || bytes[0] == 10 {
        0
    } else {
        1 + line_end(bytes.drop_first())
    }
}

proof fn lemma_line_end(bytes: Seq<u8>)
    ensures
        0 <= line_end(bytes) <= bytes.len(),
        line_end(bytes) < bytes.len() ==> bytes[line_end(bytes)] == 10,
        forall|i: int| 0 <= i < line_end(bytes) ==> #[trigger] bytes[i] != 10,
    decreases bytes.len(),
{
    if bytes.len() == 0 || bytes[0] == 10 {
    } else {
        let t = bytes.drop_first();
        lemma_line_end(t);
        assert forall|i: int| 0 <= i < line_end(bytes) implies #[trigger] bytes[i] != 10 by {
            if i > 0 {
                assert(t[i - 1] == bytes[i]);
            }
        }
    }
}

/// How far reading a request line has come.
#[derive(Debug, Clone, Copy, PartialEq, Eq, Structural)]
pub enum LineState {
    /// More has to be read.
    More,
    /// The line is whole.
    Whole,
    /// The line is too long.
    TooLong,
}

/// What has been read of a request so far.
pub struct RequestLine {
    buf: Vec<u8>,
}

impl RequestLine {
    /// The bytes that have been read.
    pub closed spec fn bytes(&self) -> Seq<u8> {
        self.buf@
    }

    /// Nothing has been read.
    pub fn new() -> (l: RequestLine)
        ensures
            l.bytes() == Seq::<u8>::empty(),
    {
        RequestLine { buf: Vec::new() }
    }

    /// Takes the next bytes in. The line is whole as soon as a line feed is
    /// there; what is behind it is dropped. A line that is too long is refused,
    /// whether its line feed is there or not.
    pub fn feed(&mut self, chunk: &[u8]) -> (s: LineState)
        ensures
            ({
                let all = old(self).bytes() + chunk@;
                &&& s is Whole <==> line_end(all) < all.len() && line_end(all) <= MAX_REQUEST_LINE
                &&& s is TooLong <==> line_end(all) > MAX_REQUEST_LINE
                &&& final(self).bytes() == (if s is Whole {
                    all.take(line_end(all))
                } else {
                    all
                })
            }),
    {
        let ghost all = self.buf@ + chunk@;
        let ghost start = self.buf@;
        let mut i: usize = 0;
        assert(start + chunk@.take(0) =~= start);
        while i < chunk.len()
            invariant
                i <= chunk@.len(),
                self.buf@ == start + chunk@.take(i as int),
            decreases chunk@.len() - i,
        {
            self.buf.push(chunk[i]);
            i = i + 1;
            assert(self.buf@ =~= start + chunk@.take(i as int));
        }
        assert(chunk@.take(i as int) =~= chunk@);
        proof {
            lemma_line_end(all);
        }
        let mut pos: usize = 0;
        while pos < self.buf.len() && self.buf[pos] != 10
            invariant
                pos <= self.buf@.len(),
                self.buf@ == all,
                forall|j: int| 0 <= j < pos ==> #[trigger] all[j] != 10,
            decreases self.buf@.len() - pos,
        {
            pos = pos + 1;
        }
        assert(pos == line_end(all)) by {
            if pos < line_end(all) {
                assert(all[pos as int] != 10);
            } else if pos > line_end(all) {
                assert(all[line_end(all)] != 10);
            }
        }
        if pos > MAX_REQUEST_LINE {
            return LineState::TooLong;
        }
        if pos < self.buf.len() {
            self.buf.truncate(pos);
            assert(self.buf@ =~= all.take(line_end(all)));
            return LineState::Whole;
        }
        LineState::More
    }

    /// The line as text, without the white space around it.
    pub fn text(&self) -> (s: String)
        ensures
            s@ == trimmed(utf8_lossy(self.bytes())),
            valid_utf8(self.bytes()) ==> s@ == trimmed(decode_utf8(self.bytes())),
    {
        let t = from_utf8_lossy(&self.buf);
        trim(t.as_str())
    }
}

/// The text that bytes stand for, with a replacement character for whatever is
/// not UTF-8.
pub uninterp spec fn utf8_lossy(bytes: Seq<u8>) -> Seq<char>;

/// `String::from_utf8_lossy`: bytes that are UTF-8 are decoded as such.
#[verifier::external_body]
fn from_utf8_lossy(bytes: &Vec<u8>) -> (s: String)
    ensures
        s@ == utf8_lossy(bytes@),
        valid_utf8(bytes@) ==> s@ == decode_utf8(bytes@),
{
    String::from_utf8_lossy(bytes).into_owned()
}

// ---------------------------------------------------------------------
// Answering
// ---------------------------------------------------------------------

/// Whether a request line asks for the metrics.
pub open spec fn asks_for_metrics(line: Seq<char>) -> bool {
    request_path(line) == Some("/metrics"@)
}

/// Whether a request line asks for the metrics, so that the daemon has to be
/// asked for its status.
pub fn wants_metrics(request_line: &str) -> (r: bool)
    ensures
        r == asks_for_metrics(request_line@),
{
    match parse_request_path(request_line) {
        Some(path) => str_eq(path.as_str(), "/metrics"),
        None => false,
    }
}

/// The answer to a request line: the metrics where they are asked for, and
/// otherwise that nothing was found.
pub open spec fn answer_text(line: Seq<char>, snapshot: Option<StatusModel>) -> Seq<char> {
    if asks_for_metrics(line) {
        response_text(200, "OK"@, "text/plain; version=0.0.4"@, rendered(snapshot))
    } else {
        response_text(404, "Not Found"@, "text/plain"@, "not found\n"@)
    }
}

/// Answers a request line. `snapshot` is the daemon's status, if it could be
/// had.
pub fn answer(request_line: &str, snapshot: Option<&StatusSnapshot>) -> (s: String)
    ensures
        s@ == answer_text(
            request_line@,
            match snapshot {
                Some(s) => Some(s@),
                None => None,
            },
        ),
{
    if wants_metrics(request_line) {
        let body = render(snapshot);
        http_response(200, "OK", "text/plain; version=0.0.4", body.as_str())
    } else {
        http_response(404, "Not Found", "text/plain", "not found\n")
    }
}

/// A request line asks for the path behind its method, and only where the method is
/// `GET`; what follows the path does not matter.
pub proof fn law_path_is_the_second_word(method: Seq<char>, path: Seq<char>, rest: Seq<char>)
    requires
        method.len() > 0,
        path.len() > 0,
        forall|i: int| 0 <= i < method.len() ==> !is_white(#[trigger] method[i]),
        forall|i: int| 0 <= i < path.len() ==> !is_white(#[trigger] path[i]),
    ensures
        request_path(method + seq![' '] + (path + seq![' '] + rest)) == (if method == "GET"@ {
            Some(path)
        } else {
            None
        }),
        request_path(method + seq![' '] + path) == (if method == "GET"@ {
            Some(path)
        } else {
            None
        }),
        request_path(method) is None,
        asks_for_metrics(method + seq![' '] + (path + seq![' '] + rest)) <==> method == "GET"@ && path
            == "/metrics"@,
{
    law_words_are_between_white_space(method, ' ', path + seq![' '] + rest);
    law_words_are_between_white_space(path, ' ', rest);
    law_words_are_between_white_space(method, ' ', path);
    let w = words(method + seq![' '] + (path + seq![' '] + rest));
    assert(w[0] == method && w[1] == path);
    let v = words(method + seq![' '] + path);
    assert(v[0] == method && v[1] == path);
}

/// The metrics are answered with 200 exactly where they are asked for, and everything
/// else with 404. The body stands behind an empty line, and its bytes are counted.
pub proof fn law_answers_of_the_exporter(line: Seq<char>, snapshot: Option<StatusModel>)
    ensures
        ({
            let whole = |status: Seq<char>, kind: Seq<char>, body: Seq<char>|
                "HTTP/1.1 "@ + status + "\r\nContent-Type: "@ + kind + "\r\nContent-Length: "@ + dec(
                    encode_utf8(body).len(),
                ) + "\r\nConnection: close\r\n\r\n"@ + body;
            answer_text(line, snapshot) == (if request_path(line) == Some("/metrics"@) {
                whole(
                    dec(200) + " "@ + "OK"@,
                    "text/plain; version=0.0.4"@,
                    rendered(snapshot),
                )
            } else {
                whole(dec(404) + " "@ + "Not Found"@, "text/plain"@, "not found\n"@)
            })
        }),
{
    let body = if request_path(line) == Some("/metrics"@) {
        rendered(snapshot)
    } else {
        "not found\n"@
    };
    let kind = if request_path(line) == Some("/metrics"@) {
        "text/plain; version=0.0.4"@
    } else {
        "text/plain"@
    };
    let status = if request_path(line) == Some("/metrics"@) {
        dec(200) + " "@ + "OK"@
    } else {
        dec(404) + " "@ + "Not Found"@
    };
    assert(answer_text(line, snapshot) =~= "HTTP/1.1 "@ + status + "\r\nContent-Type: "@ + kind
        + "\r\nContent-Length: "@ + dec(encode_utf8(body).len())
        + "\r\nConnection: close\r\n\r\n"@ + body);
}

/// A request line ends at its first line feed.
pub proof fn law_line_ends_at_the_first_line_feed(bytes: Seq<u8>)
    ensures
        0 <= line_end(bytes) <= bytes.len(),
        line_end(bytes) < bytes.len() ==> bytes[line_end(bytes)] == 10,
        forall|i: int| 0 <= i < line_end(bytes) ==> #[trigger] bytes[i] != 10,
{
    lemma_line_end(bytes);
}

/// A response tells its status, the kind of its body and how many bytes that has; the
/// body stands behind an empty line.
pub proof fn law_response_tells_its_body(
    status: u16,
    reason: Seq<char>,
    content_type: Seq<char>,
    body: Seq<char>,
)
    ensures
        response_text(status, reason, content_type, body) == "HTTP/1.1 "@ + dec(status as nat) + " "@
            + reason + "\r\nContent-Type: "@ + content_type + "\r\nContent-Length: "@ + dec(
            encode_utf8(body).len(),
        ) + "\r\nConnection: close\r\n\r\n"@ + body,
        body.is_suffix_of(response_text(status, reason, content_type, body)),
{
    let all = response_text(status, reason, content_type, body);
    assert(all.skip(all.len() - body.len()) =~= body);
}

} // verus!
