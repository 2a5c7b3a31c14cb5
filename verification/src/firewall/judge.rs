//! What becomes of an offense, and the commands of the administrator.

use super::detector::{
    failures_after, is_never_bannable, is_protected, law_streak_fires_at_the_transition,
    FailureTracker, Offense,
};
use crate::net::{ip_value, parse_ip, IpAddr};
use crate::text::chars_of;
use crate::window::{
    is_ordered, is_stale, lemma_recent, lemma_recent_is_filtered, lemma_recent_push,
    lemma_recent_twice, recent,
};
use vstd::prelude::*;

verus! {

/// The addresses that a list of texts names; what is not an address is left out.
pub open spec fn addresses_in(list: Seq<Seq<char>>) -> Seq<IpAddr>
    decreases list.len(),
{
    if list.len() == 0 {
        Seq::empty()
    } else {
        let front = addresses_in(list.drop_last());
        match ip_value(list.last()) {
            Some(ip) => front.push(ip),
            None => front,
        }
    }
}

/// Reads the addresses of an allowlist. Where some entries are not plain
/// addresses, the result is shorter than the list.
pub fn parse_allowlist(list: &Vec<String>) -> (r: Vec<IpAddr>)
    ensures
        r@ == addresses_in(list.deep_view()),
{
    let mut r: Vec<IpAddr> = Vec::new();
    let mut i: usize = 0;
    assert(list.deep_view().take(0) =~= Seq::<Seq<char>>::empty());
    while i < list.len()
        invariant
            i <= list@.len(),
            r@ == addresses_in(list.deep_view().take(i as int)),
        decreases list@.len() - i,
    {
        proof {
            assert(list.deep_view().take(i + 1).drop_last() =~= list.deep_view().take(i as int));
            assert(list.deep_view().take(i + 1).last() == list@[i as int]@);
        }
        if let Some(ip) = parse_ip(&chars_of(list[i].as_str())) {
            r.push(ip);
        }
        i = i + 1;
    }
    assert(list.deep_view().take(i as int) =~= list.deep_view());
    r
}

/// What becomes of an offense.
#[derive(Debug, Clone, Copy, PartialEq, Eq, Structural)]
pub enum Verdict {
    /// The address is loopback or private: it is never banned.
    Protected,
    /// The address is on the allowlist.
    Allowed,
    /// The offense is counted, and that is all for now.
    Counted,
    /// The address is banned.
    Ban,
}

/// Whether an offense gets its address banned, given the failures that are
/// remembered of it.
pub open spec fn deserves_ban(
    offense: Offense,
    failures: Seq<u128>,
    now: u128,
    window: u128,
    threshold: nat,
) -> bool {
    match offense {
        Offense::RateLimited => true,
        Offense::HandshakeFailed => failures_after(failures, now, window).len() == threshold,
    }
}

/// What becomes of an offense: protected and allowed addresses are left alone; a
/// refused connection is a ban at once, failed handshakes are one when they make
/// a streak.
pub open spec fn verdict_on(
    ip: IpAddr,
    offense: Offense,
    allowlist: Seq<IpAddr>,
    failures: Seq<u128>,
    now: u128,
    window: u128,
    threshold: nat,
) -> Verdict {
    if is_protected(ip) {
        Verdict::Protected
    } else if allowlist.contains(ip) {
        Verdict::Allowed
    } else if deserves_ban(offense, failures, now, window, threshold) {
        Verdict::Ban
    } else {
        Verdict::Counted
    }
}

/// The failures that are remembered of an address once its offense at `now` has
/// been judged: nothing changes for one that is left alone, and one that is banned
/// starts from nothing.
pub open spec fn remembered_after(
    v: Verdict,
    failures: Seq<u128>,
    now: u128,
    window: u128,
) -> Seq<u128> {
    match v {
        Verdict::Protected => failures,
        Verdict::Allowed => failures,
        Verdict::Counted => failures_after(failures, now, window),
        Verdict::Ban => Seq::empty(),
    }
}

fn list_holds(list: &Vec<IpAddr>, ip: IpAddr) -> (r: bool)
    ensures
        r == list@.contains(ip),
{
    let mut i: usize = 0;
    while i < list.len()
        invariant
            i <= list@.len(),
            forall|j: int| 0 <= j < i ==> #[trigger] list@[j] != ip,
        decreases list@.len() - i,
    {
        if list[i] == ip {
            assert(list@[i as int] == ip);
            return true;
        }
        i = i + 1;
    }
    false
}

/// Decides about an offense at the time `now`. An address that is banned starts
/// from nothing afterwards.
pub fn judge(
    tracker: &mut FailureTracker,
    allowlist: &Vec<IpAddr>,
    ip: IpAddr,
    offense: Offense,
    now: u128,
) -> (v: Verdict)
    ensures
        v == verdict_on(
            ip,
            offense,
            allowlist@,
            old(tracker).failures(ip),
            now,
            old(tracker).window(),
            old(tracker).threshold(),
        ),
        final(tracker).failures(ip) == remembered_after(
            v,
            old(tracker).failures(ip),
            now,
            old(tracker).window(),
        ),
        forall|other: IpAddr|
            other != ip ==> #[trigger] final(tracker).failures(other) == old(tracker).failures(other),
        final(tracker).window() == old(tracker).window(),
        final(tracker).threshold() == old(tracker).threshold(),
{
    if is_never_bannable(&ip) {
        return Verdict::Protected;
    }
    if list_holds(allowlist, ip) {
        return Verdict::Allowed;
    }
    let should_ban = match offense {
        Offense::RateLimited => true,
        Offense::HandshakeFailed => tracker.record(ip, now),
    };
    if should_ban {
        tracker.forget(&ip);
        return Verdict::Ban;
    }
    Verdict::Counted
}

/// No address that is loopback, private or on the allowlist is ever banned.
pub proof fn law_protected_is_never_banned(
    ip: IpAddr,
    offense: Offense,
    allowlist: Seq<IpAddr>,
    failures: Seq<u128>,
    now: u128,
    window: u128,
    threshold: nat,
)
    requires
        is_protected(ip) || allowlist.contains(ip),
    ensures
        verdict_on(ip, offense, allowlist, failures, now, window, threshold) != Verdict::Ban,
{
}

// ---------------------------------------------------------------------
// A history of offenses
// ---------------------------------------------------------------------

/// An offense as it was reported.
pub struct Report {
    /// Whose offense it is.
    pub ip: IpAddr,
    /// What it is.
    pub offense: Offense,
    /// When it came in.
    pub at: u128,
}

/// Whether the reports came in one after the other.
pub open spec fn in_order(reports: Seq<Report>) -> bool {
    forall|i: int, j: int|
        0 <= i <= j < reports.len() ==> (#[trigger] reports[i]).at <= (#[trigger] reports[j]).at
}

/// What is remembered of an address after the reports, each of which was judged as
/// it came in.
pub open spec fn failures_after_all(
    reports: Seq<Report>,
    ip: IpAddr,
    allowlist: Seq<IpAddr>,
    window: u128,
    threshold: nat,
) -> Seq<u128>
    decreases reports.len(),
{
    if reports.len() == 0 {
        Seq::empty()
    } else {
        let before = failures_after_all(reports.drop_last(), ip, allowlist, window, threshold);
        let r = reports.last();
        if r.ip == ip {
            let v = verdict_on(ip, r.offense, allowlist, before, r.at, window, threshold);
            remembered_after(v, before, r.at, window)
        } else {
            before
        }
    }
}

/// What became of the last report.
pub open spec fn last_verdict(
    reports: Seq<Report>,
    allowlist: Seq<IpAddr>,
    window: u128,
    threshold: nat,
) -> Verdict {
    let r = reports.last();
    let before = failures_after_all(reports.drop_last(), r.ip, allowlist, window, threshold);
    verdict_on(r.ip, r.offense, allowlist, before, r.at, window, threshold)
}

/// When an address failed since it was banned last, or ever if it never was.
pub open spec fn failed_since_ban(
    reports: Seq<Report>,
    ip: IpAddr,
    allowlist: Seq<IpAddr>,
    window: u128,
    threshold: nat,
) -> Seq<u128>
    decreases reports.len(),
{
    if reports.len() == 0 {
        Seq::empty()
    } else {
        let before = failed_since_ban(reports.drop_last(), ip, allowlist, window, threshold);
        let r = reports.last();
        if r.ip != ip {
            before
        } else if last_verdict(reports, allowlist, window, threshold) == Verdict::Ban {
            Seq::empty()
        } else if r.offense is HandshakeFailed {
            before.push(r.at)
        } else {
            before
        }
    }
}

proof fn lemma_history(
    reports: Seq<Report>,
    ip: IpAddr,
    allowlist: Seq<IpAddr>,
    window: u128,
    threshold: nat,
    now: u128,
)
    requires
        in_order(reports),
        reports.len() > 0 ==> reports.last().at <= now,
        !is_protected(ip),
        !allowlist.contains(ip),
    ensures
        ({
            let since = failed_since_ban(reports, ip, allowlist, window, threshold);
            let kept = failures_after_all(reports, ip, allowlist, window, threshold);
            &&& recent(kept, now, window) == recent(since, now, window)
            &&& is_ordered(since)
            &&& forall|i: int| 0 <= i < since.len() ==> #[trigger] since[i] <= now
        }),
    decreases reports.len(),
{
    if reports.len() > 0 {
        let front = reports.drop_last();
        let r = reports.last();
        assert(front.len() > 0 ==> front.last() == reports[reports.len() - 2]);
        assert(forall|i: int| 0 <= i < front.len() ==> front[i] == #[trigger] reports[i]);
        lemma_history(front, ip, allowlist, window, threshold, now);
        lemma_history(front, ip, allowlist, window, threshold, r.at);
        if r.ip == ip && last_verdict(reports, allowlist, window, threshold) != Verdict::Ban {
            let since = failed_since_ban(front, ip, allowlist, window, threshold);
            let kept = failures_after_all(front, ip, allowlist, window, threshold);
            lemma_recent_twice(kept.push(r.at), r.at, now, window);
            lemma_recent_push(kept, r.at, now, window);
            lemma_recent_push(since, r.at, now, window);
        }
    }
}

/// Of reports that came in one after the other, the last one is a ban exactly when
/// its address is neither protected nor on the allowlist, and it tells of a refused
/// connection, or it is the failed handshake that fills the threshold: counted with
/// those of the same address that lie within the window and came after its last
/// ban.
pub proof fn law_ban_is_the_threshold_within_the_window(
    reports: Seq<Report>,
    allowlist: Seq<IpAddr>,
    window: u128,
    threshold: nat,
)
    requires
        in_order(reports),
        reports.len() > 0,
    ensures
        ({
            let r = reports.last();
            let since = failed_since_ban(reports.drop_last(), r.ip, allowlist, window, threshold);
            let within = since.filter(|t: u128| !is_stale(t, r.at, window));
            last_verdict(reports, allowlist, window, threshold) == Verdict::Ban <==> {
                &&& !is_protected(r.ip)
                &&& !allowlist.contains(r.ip)
                &&& r.offense is RateLimited || within.len() + 1 == threshold
            }
        }),
{
    let r = reports.last();
    if !is_protected(r.ip) && !allowlist.contains(r.ip) {
        let front = reports.drop_last();
        assert(front.len() > 0 ==> front.last() == reports[reports.len() - 2]);
        lemma_history(front, r.ip, allowlist, window, threshold, r.at);
        let since = failed_since_ban(front, r.ip, allowlist, window, threshold);
        let kept = failures_after_all(front, r.ip, allowlist, window, threshold);
        lemma_recent_is_filtered(since, r.at, window);
        law_streak_fires_at_the_transition(kept, r.at, window, threshold);
    }
}

/// An address is banned before as many failures as the threshold can pile up: what
/// is remembered always stays below it.
pub proof fn law_count_stays_below_threshold(
    reports: Seq<Report>,
    ip: IpAddr,
    allowlist: Seq<IpAddr>,
    window: u128,
    threshold: nat,
)
    requires
        threshold > 0,
    ensures
        failures_after_all(reports, ip, allowlist, window, threshold).len() < threshold,
    decreases reports.len(),
{
    if reports.len() > 0 {
        let front = reports.drop_last();
        law_count_stays_below_threshold(front, ip, allowlist, window, threshold);
        let before = failures_after_all(front, ip, allowlist, window, threshold);
        let now = reports.last().at;
        lemma_recent(before.push(now), now, window);
    }
}

// ---------------------------------------------------------------------
// The administrator's commands
// ---------------------------------------------------------------------

/// Which command was asked for, out of four switches of which exactly one has to
/// be set.
pub open spec fn admin_choice(start: bool, stop: bool, restart: bool, status: bool) -> Result<
    Seq<char>,
    Seq<char>,
> {
    if !start && !stop && !restart && !status {
        Err("--admin needs exactly one of --start, --stop, --restart, --status"@)
    } else if start && !stop && !restart && !status {
        Ok("start"@)
    } else if !start && stop && !restart && !status {
        Ok("stop"@)
    } else if !start && !stop && restart && !status {
        Ok("restart"@)
    } else if !start && !stop && !restart && status {
        Ok("status"@)
    } else {
        Err(
            "--admin takes exactly one of --start, --stop, --restart, --status, not several at once"@,
        )
    }
}

/// What a choice says.
pub open spec fn choice_model(r: Result<&'static str, &'static str>) -> Result<Seq<char>, Seq<char>> {
    match r {
        Ok(s) => Ok(s@),
        Err(s) => Err(s@),
    }
}

/// Picks the command that was asked for.
pub fn admin_action(start: bool, stop: bool, restart: bool, status: bool) -> (r: Result<
    &'static str,
    &'static str,
>)
    ensures
        choice_model(r) == admin_choice(start, stop, restart, status),
{
    match (start, stop, restart, status) {
        (true, false, false, false) => Ok("start"),
        (false, true, false, false) => Ok("stop"),
        (false, false, true, false) => Ok("restart"),
        (false, false, false, true) => Ok("status"),
        (false, false, false, false) => Err(
            "--admin needs exactly one of --start, --stop, --restart, --status",
        ),
        _ => Err(
            "--admin takes exactly one of --start, --stop, --restart, --status, not several at once",
        ),
    }
}

/// The command line for an action: all but the status need more rights.
pub open spec fn admin_words(action: Seq<char>) -> Seq<Seq<char>> {
    if action == "status"@ {
        seq!["systemctl"@, action, "ghostport-firewall"@]
    } else {
        seq!["sudo"@, "systemctl"@, action, "ghostport-firewall"@]
    }
}

/// The command line for an action.
pub fn admin_command(action: &str) -> (list: Vec<String>)
    ensures
        list.deep_view() == admin_words(action@),
{
    let mut list: Vec<String> = Vec::new();
    if !crate::text::str_eq(action, "status") {
        list.push("sudo".to_string());
    }
    list.push("systemctl".to_string());
    list.push(action.to_string());
    list.push("ghostport-firewall".to_string());
    assert(list.deep_view() =~= admin_words(action@));
    list
}

/// The allowlist holds exactly the addresses that its entries denote.
pub proof fn law_allowlist_holds_what_it_names(list: Seq<Seq<char>>, ip: IpAddr)
    ensures
        addresses_in(list).contains(ip) <==> exists|i: int|
            0 <= i < list.len() && ip_value(#[trigger] list[i]) == Some(ip),
    decreases list.len(),
{
    if list.len() > 0 {
        let front = list.drop_last();
        let before = addresses_in(front);
        let all = addresses_in(list);
        law_allowlist_holds_what_it_names(front, ip);
        assert(list.last() == list[list.len() - 1]);
        if all.contains(ip) {
            let k = choose|k: int| 0 <= k < all.len() && all[k] == ip;
            if k < before.len() {
                assert(before[k] == ip);
                let i = choose|i: int|
                    0 <= i < front.len() && ip_value(#[trigger] front[i]) == Some(ip);
                assert(list[i] == front[i]);
            }
        }
        if exists|i: int| 0 <= i < list.len() && ip_value(#[trigger] list[i]) == Some(ip) {
            let i = choose|i: int| 0 <= i < list.len() && ip_value(#[trigger] list[i]) == Some(ip);
            if i < front.len() {
                assert(front[i] == list[i]);
                let k = choose|k: int| 0 <= k < before.len() && before[k] == ip;
                assert(all[k] == ip);
            } else {
                assert(all.last() == ip);
            }
        }
    }
}

/// An IPv4 address a.b.c.d is left alone as protected exactly if it is loopback
/// (127.x.x.x), private (10.x.x.x, 172.16.x.x to 172.31.x.x, 192.168.x.x) or link-local
/// (169.254.x.x), whatever it did; of the others those on the allowlist are let be.
pub proof fn law_protected_octets_are_never_banned(
    n: u32,
    a: u8,
    b: u8,
    c: u8,
    d: u8,
    offense: Offense,
    allowlist: Seq<IpAddr>,
    failures: Seq<u128>,
    now: u128,
    window: u128,
    threshold: nat,
)
    requires
        n == a * 0x1000000 + b * 0x10000 + c * 0x100 + d,
    ensures
        ({
            let v = verdict_on(
                IpAddr::V4(n),
                offense,
                allowlist,
                failures,
                now,
                window,
                threshold,
            );
            let protected = a == 127 || a == 10 || (a == 172 && 16 <= b <= 31) || (a == 192 && b
                == 168) || (a == 169 && b == 254);
            &&& v == Verdict::Protected <==> protected
            &&& v == Verdict::Allowed <==> !protected && allowlist.contains(IpAddr::V4(n))
            &&& !protected && !allowlist.contains(IpAddr::V4(n)) && offense is RateLimited ==> v
                == Verdict::Ban
        }),
{
    crate::firewall::detector::law_protected_octets(n, a, b, c, d);
}

/// An administrator's command is the one whose switch is set; anything but exactly one
/// switch is refused.
pub proof fn law_one_switch_picks_the_command(start: bool, stop: bool, restart: bool, status: bool)
    ensures
        ({
            let set = (if start {
                1int
            } else {
                0
            }) + (if stop {
                1int
            } else {
                0
            }) + (if restart {
                1int
            } else {
                0
            }) + (if status {
                1int
            } else {
                0
            });
            &&& admin_choice(start, stop, restart, status) is Ok <==> set == 1
            &&& admin_choice(start, stop, restart, status) matches Ok(word) ==> word == (if start {
                "start"@
            } else if stop {
                "stop"@
            } else if restart {
                "restart"@
            } else {
                "status"@
            })
            &&& admin_choice(start, stop, restart, status) matches Err(why) ==> why == (if set == 0 {
                "--admin needs exactly one of --start, --stop, --restart, --status"@
            } else {
                "--admin takes exactly one of --start, --stop, --restart, --status, not several at once"@
            })
        }),
{
}

/// The command of an action names the action and the firewall's service; only asking
/// for the status goes without more rights.
pub proof fn law_admin_command_names_the_action(action: Seq<char>)
    ensures
        ({
            let words = admin_words(action);
            let n = words.len() as int;
            &&& words[n - 3] == "systemctl"@
            &&& words[n - 2] == action
            &&& words[n - 1] == "ghostport-firewall"@
            &&& n == 3 <==> action == "status"@
            &&& n == 4 <==> action != "status"@
            &&& n == 4 ==> words[0] == "sudo"@
        }),
{
}

/// What a choice of a command gives is told as it is.
pub proof fn law_choice_is_told_as_it_is(word: &'static str)
    ensures
        choice_model(Ok(word)) == Ok::<Seq<char>, Seq<char>>(word@),
        choice_model(Err(word)) == Err::<Seq<char>, Seq<char>>(word@),
{
}

/// What becomes of an offense, without a word about how it is counted: protected
/// addresses first, then the allowlist; of the rest a refused connection is a ban at
/// once, and a failed handshake where it brings the failures that are remembered to the
/// threshold. A ban makes all of them be forgotten.
pub proof fn law_verdicts(
    ip: IpAddr,
    offense: Offense,
    allowlist: Seq<IpAddr>,
    failures: Seq<u128>,
    now: u128,
    window: u128,
    threshold: nat,
)
    ensures
        ({
            let v = verdict_on(ip, offense, allowlist, failures, now, window, threshold);
            let after = remembered_after(v, failures, now, window);
            &&& v == Verdict::Protected <==> is_protected(ip)
            &&& v == Verdict::Allowed <==> !is_protected(ip) && allowlist.contains(ip)
            &&& v == Verdict::Ban <==> !is_protected(ip) && !allowlist.contains(ip) && (offense
                is RateLimited || recent(failures, now, window).len() + 1 == threshold)
            &&& v == Verdict::Ban ==> after.len() == 0
            &&& v == Verdict::Counted ==> after == recent(failures, now, window).push(now)
            &&& v == Verdict::Protected || v == Verdict::Allowed ==> after == failures
        }),
{
    law_streak_fires_at_the_transition(failures, now, window, threshold);
}

} // verus!
