//! Sliding windows: for each address the times of its recent events. Times are
//! nanoseconds on a clock that never runs backwards.

use crate::net::IpAddr;
use std::collections::{HashMap, VecDeque};
use vstd::prelude::*;

verus! {

broadcast use vstd::std_specs::hash::group_hash_axioms;

/// Whether an event at `t` lies further back than `window` at the time `now`.
pub open spec fn is_stale(t: u128, now: u128, window: u128) -> bool {
    t + window < now
}

/// What is left of `history` once the stale events at its front are gone.
pub open spec fn recent(history: Seq<u128>, now: u128, window: u128) -> Seq<u128>
    decreases history.len(),
{
    if history.len() > 0 && is_stale(history[0], now, window) {
        recent(history.drop_first(), now, window)
    } else {
        history
    }
}

/// Whether the times never run backwards.
pub open spec fn is_ordered(times: Seq<u128>) -> bool {
    forall|i: int, j: int| 0 <= i <= j < times.len() ==> #[trigger] times[i] <= #[trigger] times[j]
}

/// Pruning takes the stale events off the front and nothing else.
pub proof fn lemma_recent(history: Seq<u128>, now: u128, window: u128)
    ensures
        recent(history, now, window).len() <= history.len(),
        recent(history, now, window) == history.skip(
            history.len() - recent(history, now, window).len(),
        ),
        forall|i: int|
            0 <= i < history.len() - recent(history, now, window).len() ==> is_stale(
                #[trigger] history[i],
                now,
                window,
            ),
        recent(history, now, window).len() > 0 ==> !is_stale(
            recent(history, now, window)[0],
            now,
            window,
        ),
    decreases history.len(),
{
    if history.len() > 0 && is_stale(history[0], now, window) {
        let rest = history.drop_first();
        lemma_recent(rest, now, window);
        let r = recent(history, now, window);
        assert(rest.skip(rest.len() - r.len()) =~= history.skip(history.len() - r.len()));
        assert forall|i: int| 0 <= i < history.len() - r.len() implies is_stale(
            #[trigger] history[i],
            now,
            window,
        ) by {
            if i > 0 {
                assert(rest[i - 1] == history[i]);
            }
        }
    } else {
        assert(history.skip(0) =~= history);
    }
}

/// In a history that is in order, exactly the events within the window are
/// left.
pub proof fn law_recent_is_the_window(history: Seq<u128>, now: u128, window: u128, i: int)
    requires
        is_ordered(history),
        0 <= i < history.len(),
    ensures
        is_stale(history[i], now, window) <==> i < history.len() - recent(
            history,
            now,
            window,
        ).len(),
{
    lemma_recent(history, now, window);
    let r = recent(history, now, window);
    let cut = history.len() - r.len();
    if i >= cut {
        assert(r[0] == history[cut]);
        assert(history[cut] <= history[i]);
    }
}

/// What is left of a history with one more event depends only on what is left of
/// the history without it.
pub proof fn lemma_recent_push(history: Seq<u128>, t: u128, now: u128, window: u128)
    ensures
        recent(history.push(t), now, window) == recent(
            recent(history, now, window).push(t),
            now,
            window,
        ),
        recent(history, now, window).len() > 0 ==> recent(history.push(t), now, window)
            == recent(history, now, window).push(t),
    decreases history.len(),
{
    if history.len() > 0 {
        assert(history.push(t)[0] == history[0]);
        if is_stale(history[0], now, window) {
            lemma_recent_push(history.drop_first(), t, now, window);
            assert(history.push(t).drop_first() =~= history.drop_first().push(t));
        }
    }
}

/// Pruning early changes nothing of what is left later.
pub proof fn lemma_recent_twice(history: Seq<u128>, earlier: u128, now: u128, window: u128)
    requires
        earlier <= now,
    ensures
        recent(recent(history, earlier, window), now, window) == recent(history, now, window),
    decreases history.len(),
{
    if history.len() > 0 && is_stale(history[0], earlier, window) {
        lemma_recent_twice(history.drop_first(), earlier, now, window);
    }
}

/// In a history that is in order, the events within the window are what is left.
pub proof fn lemma_recent_is_filtered(history: Seq<u128>, now: u128, window: u128)
    requires
        is_ordered(history),
    ensures
        recent(history, now, window) == history.filter(|t: u128| !is_stale(t, now, window)),
    decreases history.len(),
{
    reveal(Seq::filter);
    let within = |t: u128| !is_stale(t, now, window);
    if history.len() > 0 {
        let front = history.drop_last();
        let t = history.last();
        assert(history.filter(within) == (if within(t) {
            front.filter(within).push(t)
        } else {
            front.filter(within)
        }));
        lemma_recent_is_filtered(front, now, window);
        lemma_recent_push(front, t, now, window);
        lemma_recent(front, now, window);
        assert(front.push(t) =~= history);
        let left = recent(front, now, window);
        if left.len() > 0 {
            assert(left[0] == front[front.len() - left.len()]);
            assert(history[front.len() - left.len()] <= t);
        } else {
            assert(left.push(t).drop_first() =~= Seq::<u128>::empty());
            assert(left.push(t)[0] == t);
            assert(left =~= Seq::<u128>::empty());
            assert(is_stale(t, now, window) ==> recent(left.push(t), now, window) == recent(
                left.push(t).drop_first(),
                now,
                window,
            ));
        }
    }
}

/// Drops the stale events at the front.
pub fn prune(history: &mut VecDeque<u128>, now: u128, window: u128)
    ensures
        final(history)@ == recent(old(history)@, now, window),
{
    while history.len() > 0 && now > window && history[0] < now - window
        invariant
            recent(history@, now, window) == recent(old(history)@, now, window),
        decreases history@.len(),
    {
        assert(is_stale(history@[0], now, window));
        assert(history@.drop_first() =~= history@.subrange(1, history@.len() as int));
        let _ = history.pop_front();
    }
}

/// The histories of all addresses that anything is known of.
pub struct Histories {
    v4: HashMap<u32, VecDeque<u128>>,
    v6: HashMap<u128, VecDeque<u128>>,
}

impl Histories {
    /// The history of one address; empty for one that nothing is known of.
    pub closed spec fn of(&self, ip: IpAddr) -> Seq<u128> {
        match ip {
            IpAddr::V4(n) => if self.v4@.contains_key(n) {
                self.v4@[n]@
            } else {
                Seq::empty()
            },
            IpAddr::V6(n) => if self.v6@.contains_key(n) {
                self.v6@[n]@
            } else {
                Seq::empty()
            },
        }
    }

    /// Nothing is known of any address.
    pub fn new() -> (h: Histories)
        ensures
            forall|ip: IpAddr| #[trigger] h.of(ip) == Seq::<u128>::empty(),
    {
        Histories { v4: HashMap::new(), v6: HashMap::new() }
    }

    /// Takes the history of an address out.
    pub fn take(&mut self, ip: IpAddr) -> (history: VecDeque<u128>)
        ensures
            history@ == old(self).of(ip),
            final(self).of(ip) == Seq::<u128>::empty(),
            forall|other: IpAddr| other != ip ==> #[trigger] final(self).of(other) == old(self).of(other),
    {
        let found = match ip {
            IpAddr::V4(n) => self.v4.remove(&n),
            IpAddr::V6(n) => self.v6.remove(&n),
        };
        match found {
            Some(history) => history,
            None => VecDeque::new(),
        }
    }

    /// Puts the history of an address in place of whatever was there.
    pub fn put(&mut self, ip: IpAddr, history: VecDeque<u128>)
        ensures
            final(self).of(ip) == history@,
            forall|other: IpAddr| other != ip ==> #[trigger] final(self).of(other) == old(self).of(other),
    {
        match ip {
            IpAddr::V4(n) => {
                self.v4.insert(n, history);
            },
            IpAddr::V6(n) => {
                self.v6.insert(n, history);
            },
        }
    }
}

/// An event is stale exactly if it lies further back than the window.
pub proof fn law_stale_is_further_back_than_the_window(t: u128, now: u128, window: u128)
    ensures
        t <= now ==> (is_stale(t, now, window) <==> now - t > window),
        t > now ==> !is_stale(t, now, window),
{
}

} // verus!
