//! Guards the control and data listeners against floods of unauthenticated
//! connections: a global cap on concurrent handshakes, and a sliding-window
//! counter of attempts for each address. Both are checked before a handshake
//! starts.

use crate::net::IpAddr;
use crate::window::{
    is_ordered, is_stale, lemma_recent, lemma_recent_is_filtered, prune, recent, Histories,
};
use vstd::prelude::*;

verus! {

/// How many handshakes may be in flight at once.
pub const MAX_CONCURRENT_HANDSHAKES: usize = 64;

/// How many attempts one address may make within a window.
pub const MAX_ATTEMPTS_PER_WINDOW: usize = 10;

/// The length of the window: sixty seconds, in nanoseconds.
pub const WINDOW: u128 = 60_000_000_000;

/// The right to have one handshake in flight. Give it back with
/// `HandshakeLimiter::release` once the handshake is over, whatever its outcome.
pub struct HandshakePermit {
    granted: bool,
}

/// The limiter's memory. The history of an address that never comes back is not
/// dropped.
pub struct HandshakeLimiter {
    capacity: usize,
    in_flight: usize,
    per_ip: Histories,
}

/// What is left of an address's attempts at the time `now`.
pub open spec fn attempts_left(attempts: Seq<u128>, now: u128) -> Seq<u128> {
    recent(attempts, now, WINDOW)
}

/// Whether an address with these attempts behind it may try again at `now`.
pub open spec fn may_attempt(attempts: Seq<u128>, now: u128) -> bool {
    attempts_left(attempts, now).len() < MAX_ATTEMPTS_PER_WINDOW
}

/// An address's attempts after another one at `now`: one that is refused does
/// not count.
pub open spec fn after_attempt(attempts: Seq<u128>, now: u128) -> Seq<u128> {
    if may_attempt(attempts, now) {
        attempts_left(attempts, now).push(now)
    } else {
        attempts_left(attempts, now)
    }
}

impl HandshakeLimiter {
    /// How many handshakes may be in flight at once.
    pub closed spec fn capacity(&self) -> nat {
        self.capacity as nat
    }

    /// How many handshakes are in flight.
    pub closed spec fn in_flight(&self) -> nat {
        self.in_flight as nat
    }

    /// The attempts that are remembered of an address.
    pub closed spec fn attempts(&self, ip: IpAddr) -> Seq<u128> {
        self.per_ip.of(ip)
    }

    /// A limiter with the usual cap, which remembers nothing yet.
    pub fn new() -> (l: HandshakeLimiter)
        ensures
            l.capacity() == MAX_CONCURRENT_HANDSHAKES,
            l.in_flight() == 0,
            forall|ip: IpAddr| #[trigger] l.attempts(ip) == Seq::<u128>::empty(),
    {
        HandshakeLimiter::with_capacity(MAX_CONCURRENT_HANDSHAKES)
    }

    /// A limiter with another cap.
    pub fn with_capacity(capacity: usize) -> (l: HandshakeLimiter)
        ensures
            l.capacity() == capacity,
            l.in_flight() == 0,
            forall|ip: IpAddr| #[trigger] l.attempts(ip) == Seq::<u128>::empty(),
    {
        HandshakeLimiter { capacity, in_flight: 0, per_ip: Histories::new() }
    }

    /// Asks for a handshake with `ip` at the time `now`. A permit is granted
    /// where both the address's own window and the global cap have room. An
    /// attempt that only the global cap refuses is remembered all the same.
    pub fn try_acquire(&mut self, ip: IpAddr, now: u128) -> (permit: Option<HandshakePermit>)
        ensures
            permit is Some <==> may_attempt(old(self).attempts(ip), now) && old(self).in_flight()
                < old(self).capacity(),
            final(self).attempts(ip) == after_attempt(old(self).attempts(ip), now),
            forall|other: IpAddr|
                other != ip ==> #[trigger] final(self).attempts(other) == old(self).attempts(other),
            final(self).capacity() == old(self).capacity(),
            final(self).in_flight() == old(self).in_flight() + (if permit is Some {
                1int
            } else {
                0
            }),
    {
        let mut attempts = self.per_ip.take(ip);
        prune(&mut attempts, now, WINDOW);
        if attempts.len() >= MAX_ATTEMPTS_PER_WINDOW {
            self.per_ip.put(ip, attempts);
            return None;
        }
        attempts.push_back(now);
        self.per_ip.put(ip, attempts);
        if self.in_flight >= self.capacity {
            return None;
        }
        self.in_flight = self.in_flight + 1;
        Some(HandshakePermit { granted: true })
    }

    /// Gives a permit back, which frees its slot.
    pub fn release(&mut self, permit: HandshakePermit)
        ensures
            final(self).in_flight() == (if old(self).in_flight() > 0 {
                old(self).in_flight() - 1
            } else {
                0
            }),
            final(self).capacity() == old(self).capacity(),
            forall|ip: IpAddr| #[trigger] final(self).attempts(ip) == old(self).attempts(ip),
    {
        if self.in_flight > 0 {
            self.in_flight = self.in_flight - 1;
        }
    }
}

/// What is remembered of an address after attempts at the given times.
pub open spec fn attempts_after(times: Seq<u128>) -> Seq<u128>
    decreases times.len(),
{
    if times.len() == 0 {
        Seq::empty()
    } else {
        after_attempt(attempts_after(times.drop_last()), times.last())
    }
}

/// Which of the attempts at the given times were let through.
pub open spec fn admitted(times: Seq<u128>) -> Seq<u128>
    decreases times.len(),
{
    if times.len() == 0 {
        Seq::empty()
    } else if may_attempt(attempts_after(times.drop_last()), times.last()) {
        admitted(times.drop_last()).push(times.last())
    } else {
        admitted(times.drop_last())
    }
}

/// No address is let through more than ten times within a window: between any
/// attempt that was let through and the tenth one after it, more than a window
/// has passed.
pub proof fn law_ten_attempts_per_window(times: Seq<u128>, i: int)
    requires
        is_ordered(times),
        0 <= i,
        i + MAX_ATTEMPTS_PER_WINDOW < admitted(times).len(),
    ensures
        admitted(times)[i] + WINDOW < admitted(times)[i + MAX_ATTEMPTS_PER_WINDOW],
{
    lemma_admitted(times);
}

/// What is remembered is the end of what was let through; all before it was
/// stale when it was dropped.
proof fn lemma_admitted(times: Seq<u128>)
    requires
        is_ordered(times),
    ensures
        attempts_after(times).len() <= MAX_ATTEMPTS_PER_WINDOW,
        attempts_after(times).len() <= admitted(times).len(),
        attempts_after(times) == admitted(times).skip(
            admitted(times).len() - attempts_after(times).len(),
        ),
        forall|i: int|
            0 <= i < admitted(times).len() - attempts_after(times).len() ==> is_stale(
                #[trigger] admitted(times)[i],
                times.last(),
                WINDOW,
            ),
        forall|i: int|
            0 <= i && i + MAX_ATTEMPTS_PER_WINDOW < admitted(times).len() ==> (#[trigger] admitted(
                times,
            )[i]) + WINDOW < admitted(times)[i + MAX_ATTEMPTS_PER_WINDOW],
    decreases times.len(),
{
    if times.len() > 0 {
        let front = times.drop_last();
        let now = times.last();
        assert(is_ordered(front)) by {
            assert forall|i: int, j: int| 0 <= i <= j < front.len() implies #[trigger] front[i]
                <= #[trigger] front[j] by {
                assert(front[i] == times[i] && front[j] == times[j]);
            }
        }
        lemma_admitted(front);
        let before = attempts_after(front);
        let old_list = admitted(front);
        let kept = attempts_left(before, now);
        lemma_recent(before, now, WINDOW);
        let gone = before.len() - kept.len();
        let base = old_list.len() - before.len();
        if front.len() > 0 {
            assert(front.last() == times[times.len() - 2]);
            assert(now == times[times.len() - 1]);
            assert(front.last() <= now);
        }
        assert(kept =~= old_list.skip(old_list.len() - kept.len())) by {
            assert(old_list.skip(base).skip(gone) =~= old_list.skip(base + gone));
        }
        assert forall|i: int| 0 <= i < base + gone implies is_stale(
            #[trigger] old_list[i],
            now,
            WINDOW,
        ) by {
            if i >= base {
                assert(before[i - base] == old_list[i]);
            }
        }
        let list = admitted(times);
        if may_attempt(before, now) {
            assert(attempts_after(times) =~= list.skip(list.len() - attempts_after(times).len()));
            assert forall|i: int| 0 <= i && i + MAX_ATTEMPTS_PER_WINDOW < list.len() implies (
            #[trigger] list[i]) + WINDOW < list[i + MAX_ATTEMPTS_PER_WINDOW] by {
                if i + MAX_ATTEMPTS_PER_WINDOW < old_list.len() {
                    assert(old_list[i] == list[i]);
                } else {
                    assert(list[i + MAX_ATTEMPTS_PER_WINDOW] == now);
                    assert(i < base + gone);
                    assert(is_stale(old_list[i], now, WINDOW));
                    assert(list[i] == old_list[i]);
                }
            }
        }
    }
}

/// An address whose attempts all lie further back than the window may try
/// again.
pub proof fn law_budget_recovers(attempts: Seq<u128>, now: u128)
    requires
        forall|i: int| 0 <= i < attempts.len() ==> is_stale(#[trigger] attempts[i], now, WINDOW),
    ensures
        attempts_left(attempts, now).len() == 0,
        may_attempt(attempts, now),
{
    lemma_recent(attempts, now, WINDOW);
    let left = attempts_left(attempts, now);
    if left.len() > 0 {
        assert(left[0] == attempts[attempts.len() - left.len()]);
    }
}

/// An attempt is let through exactly while fewer than ten others of the address were
/// let through within the last sixty seconds. Those that were refused do not count.
pub proof fn law_let_through_while_fewer_than_ten(times: Seq<u128>, now: u128)
    requires
        is_ordered(times),
        times.len() > 0 ==> times.last() <= now,
    ensures
        may_attempt(attempts_after(times), now) <==> admitted(times).filter(
            |t: u128| t + 60_000_000_000 >= now,
        ).len() < 10,
        admitted(times.push(now)) == (if admitted(times).filter(
            |t: u128| t + 60_000_000_000 >= now,
        ).len() < 10 {
            admitted(times).push(now)
        } else {
            admitted(times)
        }),
{
    lemma_admitted(times);
    lemma_admitted_ordered(times);
    let list = admitted(times);
    let kept = attempts_after(times);
    let base = list.len() - kept.len();
    assert forall|i: int| 0 <= i < base implies is_stale(#[trigger] list[i], now, WINDOW) by {
        assert(times.len() > 0);
    }
    lemma_recent_behind(list, base, now, WINDOW);
    lemma_recent_is_filtered(list, now, WINDOW);
    let fresh = |t: u128| t + 60_000_000_000 >= now;
    let unstale = |t: u128| !is_stale(t, now, WINDOW);
    assert(fresh =~= unstale);
    assert(times.push(now).drop_last() =~= times);
}

proof fn lemma_recent_behind(history: Seq<u128>, base: int, now: u128, window: u128)
    requires
        0 <= base <= history.len(),
        forall|i: int| 0 <= i < base ==> is_stale(#[trigger] history[i], now, window),
    ensures
        recent(history.skip(base), now, window) == recent(history, now, window),
    decreases base,
{
    if base == 0 {
        assert(history.skip(0) =~= history);
    } else {
        let rest = history.drop_first();
        assert(is_stale(history[0], now, window));
        assert forall|i: int| 0 <= i < base - 1 implies is_stale(#[trigger] rest[i], now, window) by {
            assert(rest[i] == history[i + 1]);
        }
        lemma_recent_behind(rest, base - 1, now, window);
        assert(rest.skip(base - 1) =~= history.skip(base));
    }
}

proof fn lemma_admitted_ordered(times: Seq<u128>)
    requires
        is_ordered(times),
    ensures
        is_ordered(admitted(times)),
        forall|i: int| 0 <= i < admitted(times).len() ==> times.len() > 0 && #[trigger] admitted(times)[i]
            <= times.last(),
    decreases times.len(),
{
    if times.len() > 0 {
        let front = times.drop_last();
        assert(is_ordered(front)) by {
            assert forall|i: int, j: int| 0 <= i <= j < front.len() implies #[trigger] front[i]
                <= #[trigger] front[j] by {
                assert(front[i] == times[i] && front[j] == times[j]);
            }
        }
        lemma_admitted_ordered(front);
        if front.len() > 0 {
            assert(front.last() == times[times.len() - 2]);
            assert(times[times.len() - 2] <= times[times.len() - 1]);
        }
    }
}

/// The limits: 64 handshakes at once, and ten attempts of an address within sixty
/// seconds.
pub proof fn law_limits()
    ensures
        MAX_CONCURRENT_HANDSHAKES == 64,
        MAX_ATTEMPTS_PER_WINDOW == 10,
        WINDOW == 60 * 1_000_000_000,
{
}

} // verus!
