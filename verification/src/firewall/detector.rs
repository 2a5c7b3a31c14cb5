//! Turns log lines of a running daemon into offenses. Only lines count that say
//! of an address that it misbehaved. A handshake that timed out does not: that
//! is far more often a bad network than an attack.

use crate::net::{ip_value, parse_ip, IpAddr};
use crate::text::{chars_of, hex_digit_value, is_digit};
use crate::window::{prune, recent, Histories};
use vstd::prelude::*;

verus! {

/// What an address did.
#[derive(Debug, Clone, Copy, PartialEq, Eq, Structural)]
pub enum Offense {
    /// The daemon's own limiter refused it: reason enough for a ban.
    RateLimited,
    /// Its handshake failed. Once could be a slip, so these are counted.
    HandshakeFailed,
}

// ---------------------------------------------------------------------
// Colour marks
// ---------------------------------------------------------------------

/// What may stand between the start and the end of a mark.
pub open spec fn is_mark_param(c: char) -> bool {
    is_digit(c) || c == ';'
}

/// The end of the run of digits and semicolons at `i`.
pub open spec fn params_end(s: Seq<char>, i: int) -> int
    decreases s.len() - i,
{
    if 0 <= i < s.len() && is_mark_param(s[i]) {
        params_end(s, i + 1)
    } else {
        i
    }
}

/// The length of the mark at the start of `s`: an escape character, `[`, digits
/// and semicolons, `m`. Zero where there is none.
pub open spec fn mark_len(s: Seq<char>) -> int {
    let k = params_end(s, 2);
    if s.len() >= 2 && s[0] == '\x1b' && s[1] == '[' && k < s.len() && s[k] == 'm' {
        k + 1
    } else {
        0
    }
}

/// `s` without its marks.
pub open spec fn stripped(s: Seq<char>) -> Seq<char>
    decreases s.len(),
{
    if s.len() == 0 {
        Seq::empty()
    } else if mark_len(s) > 0 {
        stripped(s.skip(mark_len(s)))
    } else {
        seq![s[0]] + stripped(s.drop_first())
    }
}

/// `Regex::replace_all` of `regex` with the pattern for a mark and nothing to put
/// in its place: from left to right, every mark is taken out.
#[verifier::external_body]
fn strip_ansi(line: &str) -> (s: String)
    ensures
        s@ == stripped(line@),
{
    let re = regex::Regex::new("\x1b\\[[0-9;]*m").expect("hardcoded regex");
    re.replace_all(line, "").into_owned()
}

// ---------------------------------------------------------------------
// Addresses in lines
// ---------------------------------------------------------------------

/// Whether `t` stands in `s` at `i`.
pub open spec fn stands_at(s: Seq<char>, i: int, t: Seq<char>) -> bool {
    0 <= i && i + t.len() <= s.len() && s.subrange(i, i + t.len()) == t
}

/// The characters that the text of an address is made of.
pub open spec fn is_addr_char(c: char) -> bool {
    hex_digit_value(c) is Some || c == ':' || c == '.'
}

/// The end of the run of such characters at `i`.
pub open spec fn addr_end(s: Seq<char>, i: int) -> int
    decreases s.len() - i,
{
    if 0 <= i < s.len() && is_addr_char(s[i]) {
        addr_end(s, i + 1)
    } else {
        i
    }
}

/// The end of the run of digits at `i`.
pub open spec fn digits_end(s: Seq<char>, i: int) -> int
    decreases s.len() - i,
{
    if 0 <= i < s.len() && is_digit(s[i]) {
        digits_end(s, i + 1)
    } else {
        i
    }
}

/// Whether an address may end at `i`: a bracket, if there is one, a colon, a
/// port and `after` follow.
pub open spec fn address_ends(s: Seq<char>, i: int, after: Seq<char>) -> bool {
    let colon = if 0 <= i < s.len() && s[i] == ']' {
        i + 1
    } else {
        i
    };
    let end = digits_end(s, colon + 1);
    0 <= colon < s.len() && s[colon] == ':' && end > colon + 1 && stands_at(s, end, after)
}

/// The last end at or before `end` of an address that starts at `start`.
pub open spec fn last_end(s: Seq<char>, start: int, end: int, after: Seq<char>) -> Option<int>
    decreases end - start,
{
    if end <= start {
        None
    } else if address_ends(s, end, after) {
        Some(end)
    } else {
        last_end(s, start, end - 1, after)
    }
}

/// The address between `before` at `i` and `after`, with its port: in brackets or
/// not, and as long as can be.
pub open spec fn address_at(s: Seq<char>, i: int, before: Seq<char>, after: Seq<char>) -> Option<
    Seq<char>,
> {
    let open = i + before.len();
    let start = if 0 <= open < s.len() && s[open] == '[' {
        open + 1
    } else {
        open
    };
    if stands_at(s, i, before) {
        match last_end(s, start, addr_end(s, start), after) {
            Some(end) => Some(s.subrange(start, end)),
            None => None,
        }
    } else {
        None
    }
}

/// The first address between `before` and `after` at or behind `i`.
pub open spec fn first_address(s: Seq<char>, i: int, before: Seq<char>, after: Seq<char>) -> Option<
    Seq<char>,
>
    decreases s.len() + 1 - i,
{
    if i > s.len() || i < 0 {
        None
    } else {
        match address_at(s, i, before, after) {
            Some(a) => Some(a),
            None => first_address(s, i + 1, before, after),
        }
    }
}

/// Whether a text is plain ASCII.
pub open spec fn is_plain(s: Seq<char>) -> bool {
    forall|i: int| 0 <= i < s.len() ==> (#[trigger] s[i]) as nat <= 127
}

/// What the pattern for an address between `before` and `after` captures in a
/// line.
pub uninterp spec fn captured(before: Seq<char>, after: Seq<char>, line: Seq<char>) -> Option<
    Seq<char>,
>;

/// `Regex::captures` of `regex` with the pattern made of `before`, an address
/// with its port, and `after`, each taken literally. In a line of plain ASCII the
/// leftmost place wins, and there the longest address. In other lines the port
/// may be made of other decimal digits, of which nothing is said.
#[verifier::external_body]
fn capture_address(before: &str, after: &str, line: &str) -> (r: Option<String>)
    requires
        before@.len() <= 100,
        0 < after@.len() <= 100,
        !is_digit(after@[0]),
    ensures
        r.deep_view() == captured(before@, after@, line@),
        is_plain(line@) ==> r.deep_view() == first_address(line@, 0, before@, after@),
{
    let addr = r"\[?(?P<ip>[0-9a-fA-F:.]+)\]?:\d+";
    let pattern = format!("{}{addr}{}", regex::escape(before), regex::escape(after));
    let re = regex::Regex::new(&pattern).expect("hardcoded regex must compile");
    re.captures(line)?.name("ip").map(|m| m.as_str().to_string())
}

/// What stands before an address in the lines that count.
pub open spec fn before_text(k: int) -> Seq<char> {
    if k == 0 {
        "control: rejected "@
    } else if k == 1 {
        "data: rejected "@
    } else if k == 2 {
        "control: handshake with "@
    } else {
        "ghostport-udp: handshake with "@
    }
}

/// What stands behind an address in the lines that count.
pub open spec fn after_text(k: int) -> Seq<char> {
    if k == 0 || k == 1 {
        " (too many recent handshake attempts)"@
    } else if k == 2 {
        " failed:"@
    } else {
        " ("@
    }
}

/// What the lines that count say.
pub open spec fn offense_kind(k: int) -> Offense {
    if k == 0 || k == 1 {
        Offense::RateLimited
    } else {
        Offense::HandshakeFailed
    }
}

/// The offense that the captures of the patterns show, from pattern `k` on: that
/// of the first pattern whose capture is an address.
pub open spec fn first_offense(captures: Seq<Option<Seq<char>>>, k: int) -> Option<(IpAddr, Offense)>
    decreases captures.len() - k,
{
    if k < 0 || k >= captures.len() {
        None
    } else {
        match captures[k] {
            Some(text) => match ip_value(text) {
                Some(ip) => Some((ip, offense_kind(k))),
                None => first_offense(captures, k + 1),
            },
            None => first_offense(captures, k + 1),
        }
    }
}

/// What the four patterns capture in a line.
pub open spec fn captures_of(clean: Seq<char>) -> Seq<Option<Seq<char>>> {
    Seq::new(4, |k: int| captured(before_text(k), after_text(k), clean))
}

/// What captures say.
pub open spec fn capture_models(captures: Seq<Option<String>>) -> Seq<Option<Seq<char>>> {
    captures.map_values(|c: Option<String>| c.deep_view())
}

/// Picks the offense that the captures of the patterns, in their order, show.
pub fn pick_offense(captures: &Vec<Option<String>>) -> (r: Option<(IpAddr, Offense)>)
    requires
        captures@.len() == 4,
    ensures
        r == first_offense(capture_models(captures@), 0),
{
    let ghost models = capture_models(captures@);
    let mut k: usize = 0;
    while k < 4
        invariant
            k <= 4,
            captures@.len() == 4,
            models == capture_models(captures@),
            first_offense(models, k as int) == first_offense(models, 0),
        decreases 4 - k,
    {
        assert(models[k as int] == captures@[k as int].deep_view());
        if let Some(text) = &captures[k] {
            if let Some(ip) = parse_ip(&chars_of(text.as_str())) {
                let offense = if k < 2 {
                    Offense::RateLimited
                } else {
                    Offense::HandshakeFailed
                };
                return Some((ip, offense));
            }
        }
        k = k + 1;
    }
    None
}

/// What the four patterns capture in a line of plain ASCII.
pub open spec fn plain_captures(clean: Seq<char>) -> Seq<Option<Seq<char>>> {
    Seq::new(4, |k: int| first_address(clean, 0, before_text(k), after_text(k)))
}

/// The offending address in a log line and what it did, if the line is one of
/// those that count.
pub fn extract_offense(line: &str) -> (r: Option<(IpAddr, Offense)>)
    ensures
        r == first_offense(captures_of(stripped(line@)), 0),
        is_plain(stripped(line@)) ==> r == first_offense(plain_captures(stripped(line@)), 0),
{
    let clean = strip_ansi(line);
    let c = clean.as_str();
    proof {
        reveal_strlit("control: rejected ");
        reveal_strlit("data: rejected ");
        reveal_strlit("control: handshake with ");
        reveal_strlit("ghostport-udp: handshake with ");
        reveal_strlit(" (too many recent handshake attempts)");
        reveal_strlit(" failed:");
        reveal_strlit(" (");
    }
    let mut captures: Vec<Option<String>> = Vec::new();
    captures.push(
        capture_address("control: rejected ", " (too many recent handshake attempts)", c),
    );
    captures.push(capture_address("data: rejected ", " (too many recent handshake attempts)", c));
    captures.push(capture_address("control: handshake with ", " failed:", c));
    captures.push(capture_address("ghostport-udp: handshake with ", " (", c));
    assert(capture_models(captures@) =~= captures_of(clean@));
    proof {
        if is_plain(clean@) {
            assert(capture_models(captures@) =~= plain_captures(clean@));
        }
    }
    pick_offense(&captures)
}

// ---------------------------------------------------------------------
// Protected addresses
// ---------------------------------------------------------------------

/// Whether an IPv4 address lies in 127.0.0.0/8, 10.0.0.0/8, 172.16.0.0/12,
/// 192.168.0.0/16 or 169.254.0.0/16.
pub open spec fn is_protected_v4(n: u32) -> bool {
    ||| n / 0x1000000 == 127
    ||| n / 0x1000000 == 10
    ||| n / 0x100000 == 0xac1
    ||| n / 0x10000 == 0xc0a8
    ||| n / 0x10000 == 0xa9fe
}

/// Whether an IPv6 address is ::1 or lies in fc00::/7.
pub open spec fn is_protected_v6(n: u128) -> bool {
    n == 1 || n / 0x2000000_00000000_00000000_00000000 == 0x7e
}

/// Whether an address is loopback or private.
pub open spec fn is_protected(ip: IpAddr) -> bool {
    match ip {
        IpAddr::V4(n) => is_protected_v4(n),
        IpAddr::V6(n) => is_protected_v6(n),
    }
}

/// Whether an address is loopback or private. Such an address is never banned,
/// whatever the configuration says.
pub fn is_never_bannable(ip: &IpAddr) -> (r: bool)
    ensures
        r == is_protected(*ip),
{
    match ip {
        IpAddr::V4(n) => {
            let n: u32 = *n;
            n / 0x1000000 == 127 || n / 0x1000000 == 10 || n / 0x100000 == 0xac1 || n / 0x10000
                == 0xc0a8 || n / 0x10000 == 0xa9fe
        },
        IpAddr::V6(n) => {
            let n: u128 = *n;
            n == 1 || n / 0x2000000_00000000_00000000_00000000 == 0x7e
        },
    }
}

/// An IPv4 address a.b.c.d is protected exactly if it is loopback (127.x.x.x), private
/// (10.x.x.x, 172.16.x.x to 172.31.x.x, 192.168.x.x) or link-local (169.254.x.x).
pub proof fn law_protected_octets(n: u32, a: u8, b: u8, c: u8, d: u8)
    requires
        n == a * 0x1000000 + b * 0x10000 + c * 0x100 + d,
    ensures
        is_protected(IpAddr::V4(n)) <==> {
            ||| a == 127
            ||| a == 10
            ||| a == 172 && 16 <= b <= 31
            ||| a == 192 && b == 168
            ||| a == 169 && b == 254
        },
{
}

/// An IPv6 address is protected exactly if it is ::1 or its first group, of the eight,
/// lies between fc00 and fdff.
pub proof fn law_protected_groups(n: u128, first: u16, rest: int)
    requires
        n == first * 0x1_0000_0000_0000_0000_0000_0000_0000 + rest,
        0 <= rest < 0x1_0000_0000_0000_0000_0000_0000_0000,
    ensures
        is_protected(IpAddr::V6(n)) <==> (first == 0 && rest == 1) || 0xfc00 <= first <= 0xfdff,
{
}

// ---------------------------------------------------------------------
// Counting failures
// ---------------------------------------------------------------------

/// Counts the failed handshakes of each address within a sliding window.
pub struct FailureTracker {
    window: u128,
    threshold: usize,
    history: Histories,
}

/// The failures of an address after another one at `now`.
pub open spec fn failures_after(failures: Seq<u128>, now: u128, window: u128) -> Seq<u128> {
    recent(failures.push(now), now, window)
}

impl FailureTracker {
    /// The length of the window, in nanoseconds.
    pub closed spec fn window(&self) -> u128 {
        self.window
    }

    /// How many failures within the window make a streak.
    pub closed spec fn threshold(&self) -> nat {
        self.threshold as nat
    }

    /// The failures that are remembered of an address.
    pub closed spec fn failures(&self, ip: IpAddr) -> Seq<u128> {
        self.history.of(ip)
    }

    /// A tracker that remembers nothing yet.
    pub fn new(window: u128, threshold: usize) -> (t: FailureTracker)
        ensures
            t.window() == window,
            t.threshold() == threshold,
            forall|ip: IpAddr| #[trigger] t.failures(ip) == Seq::<u128>::empty(),
    {
        FailureTracker { window, threshold, history: Histories::new() }
    }

    /// Records a failure of `ip` at `now`. Says whether this failure is the one
    /// that makes a streak.
    pub fn record(&mut self, ip: IpAddr, now: u128) -> (r: bool)
        ensures
            final(self).failures(ip) == failures_after(
                old(self).failures(ip),
                now,
                old(self).window(),
            ),
            r == (final(self).failures(ip).len() == old(self).threshold()),
            forall|other: IpAddr|
                other != ip ==> #[trigger] final(self).failures(other) == old(self).failures(other),
            final(self).window() == old(self).window(),
            final(self).threshold() == old(self).threshold(),
    {
        let mut failures = self.history.take(ip);
        failures.push_back(now);
        prune(&mut failures, now, self.window);
        let r = failures.len() == self.threshold;
        self.history.put(ip, failures);
        r
    }

    /// Forgets the failures of an address, once it has been banned.
    pub fn forget(&mut self, ip: &IpAddr)
        ensures
            final(self).failures(*ip) == Seq::<u128>::empty(),
            forall|other: IpAddr|
                other != *ip ==> #[trigger] final(self).failures(other) == old(self).failures(other),
            final(self).window() == old(self).window(),
            final(self).threshold() == old(self).threshold(),
    {
        let _ = self.history.take(*ip);
    }
}

/// A failure makes a streak exactly where it lifts the count within the window
/// from under the threshold to the threshold; one more on top of a streak does
/// not.
pub proof fn law_streak_fires_at_the_transition(
    failures: Seq<u128>,
    now: u128,
    window: u128,
    threshold: nat,
)
    ensures
        failures_after(failures, now, window) == recent(failures, now, window).push(now),
        failures_after(failures, now, window).len() == threshold <==> recent(
            failures,
            now,
            window,
        ).len() < threshold <= recent(failures, now, window).len() + 1,
    decreases failures.len(),
{
    let all = failures.push(now);
    if failures.len() == 0 {
        assert(all[0] == now);
        assert(recent(failures, now, window) =~= failures);
    } else if crate::window::is_stale(failures[0], now, window) {
        law_streak_fires_at_the_transition(failures.drop_first(), now, window, threshold);
        assert(all.drop_first() =~= failures.drop_first().push(now));
        assert(all[0] == failures[0]);
    } else {
        assert(all[0] == failures[0]);
    }
}

/// The offense is told by the first pattern whose capture is an address: those of the
/// limiter's refusals come first, those of failed handshakes behind them. Without such
/// a capture there is none.
pub proof fn law_first_address_tells_the_offense(
    captures: Seq<Option<Seq<char>>>,
    k: int,
    ip: IpAddr,
)
    requires
        captures.len() == 4,
    ensures
        (0 <= k < 4 && captures[k] is Some && ip_value(captures[k]->0) == Some(ip) && forall|j: int|
            0 <= j < k ==> (#[trigger] captures[j] is None || ip_value(captures[j]->0) is None))
            ==> first_offense(captures, 0) == Some(
            (
                ip,
                if k < 2 {
                    Offense::RateLimited
                } else {
                    Offense::HandshakeFailed
                },
            ),
        ),
        first_offense(captures, 0) is None <==> forall|j: int|
            0 <= j < 4 ==> (#[trigger] captures[j] is None || ip_value(captures[j]->0) is None),
{
    reveal_with_fuel(first_offense, 5);
    assert(captures[0] is None || captures[0] is Some);
    assert(captures[1] is None || captures[1] is Some);
    assert(captures[2] is None || captures[2] is Some);
    assert(captures[3] is None || captures[3] is Some);
}

proof fn lemma_no_start_no_address(s: Seq<char>, i: int, before: Seq<char>, after: Seq<char>)
    requires
        0 <= i,
        forall|k: int| !#[trigger] stands_at(s, k, before),
    ensures
        first_address(s, i, before, after) is None,
    decreases s.len() + 1 - i,
{
    if i <= s.len() {
        assert(!stands_at(s, i, before));
        lemma_no_start_no_address(s, i + 1, before, after);
    }
}

/// A line in which none of the texts stands that a refusal or a failed handshake is
/// told by is no offense.
pub proof fn law_other_lines_are_no_offense(s: Seq<char>)
    requires
        forall|k: int| !#[trigger] stands_at(s, k, "control: rejected "@),
        forall|k: int| !#[trigger] stands_at(s, k, "data: rejected "@),
        forall|k: int| !#[trigger] stands_at(s, k, "control: handshake with "@),
        forall|k: int| !#[trigger] stands_at(s, k, "ghostport-udp: handshake with "@),
    ensures
        first_offense(plain_captures(s), 0) is None,
{
    reveal_with_fuel(first_offense, 5);
    lemma_no_start_no_address(s, 0, before_text(0), after_text(0));
    lemma_no_start_no_address(s, 0, before_text(1), after_text(1));
    lemma_no_start_no_address(s, 0, before_text(2), after_text(2));
    lemma_no_start_no_address(s, 0, before_text(3), after_text(3));
    let captures = plain_captures(s);
    assert(captures[0] is None && captures[1] is None && captures[2] is None && captures[3] is None);
}

/// What captures say is what they hold, one for one and in order.
pub proof fn law_model_has_what_the_captures_have(captures: Seq<Option<String>>, i: int)
    requires
        0 <= i < captures.len(),
    ensures
        capture_models(captures).len() == captures.len(),
        captures[i] is Some <==> capture_models(captures)[i] is Some,
        captures[i] is Some ==> capture_models(captures)[i]->0 == captures[i]->0@,
{
}

} // verus!
