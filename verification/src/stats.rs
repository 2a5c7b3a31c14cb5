//! Live runtime state: the counters of every link, the state of the control
//! connection, and the snapshot of both that status queries are answered with.

use crate::clock::now_unix;
use crate::config::{has_link, Config, ConfigModel, LinkMode, LinkModel, Role};
use crate::text::clone_text;
use vstd::hash_map::StringHashMap;
use vstd::prelude::*;

verus! {

/// The counters of one link. They wrap around.
#[derive(Debug, Clone, Copy, PartialEq, Eq, Structural)]
pub struct LinkStats {
    /// Streams that are being relayed.
    pub active_streams: u64,
    /// Streams that were ever opened.
    pub total_streams: u64,
    /// Bytes relayed towards the target.
    pub bytes_forward: u64,
    /// Bytes relayed in the other direction.
    pub bytes_back: u64,
}

/// The counters of a link that nothing has happened on.
pub open spec fn zero_stats() -> LinkStats {
    LinkStats { active_streams: 0, total_streams: 0, bytes_forward: 0, bytes_back: 0 }
}

/// The counters once another stream has been opened.
pub open spec fn opened(s: LinkStats) -> LinkStats {
    LinkStats {
        active_streams: s.active_streams.wrapping_add(1),
        total_streams: s.total_streams.wrapping_add(1),
        ..s
    }
}

/// The counters once a stream has ended: with what it carried either way, or
/// with an error, of which nothing is counted.
pub open spec fn closed(s: LinkStats, carried: Option<(u64, u64)>) -> LinkStats {
    match carried {
        Some((forward, back)) => LinkStats {
            active_streams: s.active_streams.wrapping_sub(1),
            bytes_forward: s.bytes_forward.wrapping_add(forward),
            bytes_back: s.bytes_back.wrapping_add(back),
            ..s
        },
        None => LinkStats { active_streams: s.active_streams.wrapping_sub(1), ..s },
    }
}

impl Default for LinkStats {
    fn default() -> (s: LinkStats)
        ensures
            s == zero_stats(),
    {
        LinkStats { active_streams: 0, total_streams: 0, bytes_forward: 0, bytes_back: 0 }
    }
}

impl LinkStats {
    /// Counts a stream that has been opened.
    pub fn stream_opened(&mut self)
        ensures
            *final(self) == opened(*old(self)),
    {
        self.active_streams = self.active_streams.wrapping_add(1);
        self.total_streams = self.total_streams.wrapping_add(1);
    }

    /// Counts a stream that has ended.
    pub fn stream_closed(&mut self, carried: Option<(u64, u64)>)
        ensures
            *final(self) == closed(*old(self), carried),
    {
        self.active_streams = self.active_streams.wrapping_sub(1);
        if let Some((forward, back)) = carried {
            self.bytes_forward = self.bytes_forward.wrapping_add(forward);
            self.bytes_back = self.bytes_back.wrapping_add(back);
        }
    }

    /// The counters under the name and the mode of their link.
    pub fn snapshot(&self, id: &str, mode: &str) -> (s: LinkSnapshot)
        ensures
            s@ == link_snapshot(id@, mode@, *self),
    {
        LinkSnapshot {
            id: id.to_string(),
            mode: mode.to_string(),
            active_streams: self.active_streams,
            total_streams: self.total_streams,
            bytes_forward: self.bytes_forward,
            bytes_back: self.bytes_back,
        }
    }
}

/// A stream that was opened and has ended leaves the number of active streams
/// as it was; it has been counted once, and what it carried has been added.
pub proof fn law_stream_is_counted_once(s: LinkStats, forward: u64, back: u64)
    ensures
        closed(opened(s), Some((forward, back))) == (LinkStats {
            active_streams: s.active_streams,
            total_streams: s.total_streams.wrapping_add(1),
            bytes_forward: s.bytes_forward.wrapping_add(forward),
            bytes_back: s.bytes_back.wrapping_add(back),
        }),
        closed(opened(s), None) == (LinkStats {
            total_streams: s.total_streams.wrapping_add(1),
            ..s
        }),
{
}

/// The state of the single control connection.
pub struct ControlStatus {
    connected: bool,
    connected_since: Option<u64>,
    peer_addr: Option<String>,
    peer_name: Option<String>,
}

/// What a `ControlStatus` says.
#[verifier::ext_equal]
pub struct ControlModel {
    pub connected: bool,
    pub connected_since: Option<u64>,
    pub peer_addr: Option<Seq<char>>,
    pub peer_name: Option<Seq<char>>,
}

impl View for ControlStatus {
    type V = ControlModel;

    closed spec fn view(&self) -> ControlModel {
        ControlModel {
            connected: self.connected,
            connected_since: self.connected_since,
            peer_addr: self.peer_addr.deep_view(),
            peer_name: self.peer_name.deep_view(),
        }
    }
}

/// A control connection that never was.
pub open spec fn never_connected() -> ControlModel {
    ControlModel { connected: false, connected_since: None, peer_addr: None, peer_name: None }
}

impl Default for ControlStatus {
    fn default() -> (c: ControlStatus)
        ensures
            c@ == never_connected(),
    {
        ControlStatus {
            connected: false,
            connected_since: None,
            peer_addr: None,
            peer_name: None,
        }
    }
}

impl ControlStatus {
    /// Records a fresh control connection.
    pub fn set_connected(&mut self, peer_addr: String, peer_name: Option<String>)
        ensures
            final(self)@.connected,
            final(self)@.connected_since is Some,
            final(self)@.peer_addr == Some(peer_addr@),
            final(self)@.peer_name == peer_name.deep_view(),
    {
        self.set_connected_at(peer_addr, peer_name, now_unix());
    }

    /// The same, with the time at which the connection was made.
    pub fn set_connected_at(&mut self, peer_addr: String, peer_name: Option<String>, now: u64)
        ensures
            final(self)@ == (ControlModel {
                connected: true,
                connected_since: Some(now),
                peer_addr: Some(peer_addr@),
                peer_name: peer_name.deep_view(),
            }),
    {
        self.connected = true;
        self.connected_since = Some(now);
        self.peer_addr = Some(peer_addr);
        self.peer_name = peer_name;
    }

    /// Records that the control connection is gone. Who it was is kept, so that
    /// the status can still say it.
    pub fn set_disconnected(&mut self)
        ensures
            final(self)@ == (ControlModel { connected: false, ..old(self)@ }),
    {
        self.connected = false;
    }
}

/// All live runtime state of one instance.
pub struct SharedState {
    /// Which role this instance runs as.
    pub role: Role,
    /// When this instance was started, in seconds since the Unix epoch.
    pub started_at: u64,
    /// The state of the control connection.
    pub control: ControlStatus,
    /// The counters of each link, by its name.
    pub links: StringHashMap<LinkStats>,
}

/// Zeroed counters for every link.
pub open spec fn fresh_links(links: Seq<LinkModel>) -> Map<Seq<char>, LinkStats> {
    Map::new(|id: Seq<char>| has_link(links, id), |id: Seq<char>| zero_stats())
}

/// The name of a role in a snapshot.
pub open spec fn role_word(role: Role) -> Seq<char> {
    match role {
        Role::Server => "server"@,
        Role::Client => "client"@,
    }
}

/// The name of a mode in a snapshot.
pub open spec fn mode_word(mode: LinkMode) -> Seq<char> {
    match mode {
        LinkMode::Forward => "forward"@,
        LinkMode::Reverse => "reverse"@,
    }
}

/// The name of a role, in lower case.
pub fn role_str(role: Role) -> (s: &'static str)
    ensures
        s@ == role_word(role),
{
    match role {
        Role::Server => "server",
        Role::Client => "client",
    }
}

/// The name of a mode, in lower case.
pub fn mode_str(mode: LinkMode) -> (s: &'static str)
    ensures
        s@ == mode_word(mode),
{
    match mode {
        LinkMode::Forward => "forward",
        LinkMode::Reverse => "reverse",
    }
}

/// The counters of one link at the time of a snapshot.
#[derive(Debug, Clone)]
pub struct LinkSnapshot {
    /// The link's name.
    pub id: String,
    /// `forward` or `reverse`.
    pub mode: String,
    /// Streams that are being relayed.
    pub active_streams: u64,
    /// Streams that were ever opened.
    pub total_streams: u64,
    /// Bytes relayed towards the target.
    pub bytes_forward: u64,
    /// Bytes relayed in the other direction.
    pub bytes_back: u64,
}

/// The whole status of an instance at one time.
#[derive(Debug, Clone)]
pub struct StatusSnapshot {
    /// `server` or `client`.
    pub role: String,
    /// Seconds since the instance started.
    pub uptime_secs: u64,
    /// Whether the control connection is up.
    pub control_connected: bool,
    /// Seconds since the control connection was made; only while it is up.
    pub control_connected_since_secs_ago: Option<u64>,
    /// The control peer's address, if there ever was one.
    pub control_peer_addr: Option<String>,
    /// The control peer's configured name.
    pub control_peer_name: Option<String>,
    /// The links, in the order of the configuration.
    pub links: Vec<LinkSnapshot>,
}

/// What a `LinkSnapshot` says.
#[verifier::ext_equal]
pub struct LinkSnapshotModel {
    pub id: Seq<char>,
    pub mode: Seq<char>,
    pub stats: LinkStats,
}

/// What a `StatusSnapshot` says.
#[verifier::ext_equal]
pub struct StatusModel {
    pub role: Seq<char>,
    pub uptime_secs: u64,
    pub control_connected: bool,
    pub control_connected_since_secs_ago: Option<u64>,
    pub control_peer_addr: Option<Seq<char>>,
    pub control_peer_name: Option<Seq<char>>,
    pub links: Seq<LinkSnapshotModel>,
}

impl View for LinkSnapshot {
    type V = LinkSnapshotModel;

    open spec fn view(&self) -> LinkSnapshotModel {
        LinkSnapshotModel {
            id: self.id@,
            mode: self.mode@,
            stats: LinkStats {
                active_streams: self.active_streams,
                total_streams: self.total_streams,
                bytes_forward: self.bytes_forward,
                bytes_back: self.bytes_back,
            },
        }
    }
}

/// What the links of a snapshot say.
pub open spec fn snapshot_models(links: Seq<LinkSnapshot>) -> Seq<LinkSnapshotModel> {
    links.map_values(|l: LinkSnapshot| l@)
}

impl View for StatusSnapshot {
    type V = StatusModel;

    open spec fn view(&self) -> StatusModel {
        StatusModel {
            role: self.role@,
            uptime_secs: self.uptime_secs,
            control_connected: self.control_connected,
            control_connected_since_secs_ago: self.control_connected_since_secs_ago,
            control_peer_addr: self.control_peer_addr.deep_view(),
            control_peer_name: self.control_peer_name.deep_view(),
            links: snapshot_models(self.links@),
        }
    }
}

/// One link in a snapshot.
pub open spec fn link_snapshot(id: Seq<char>, mode: Seq<char>, stats: LinkStats) -> LinkSnapshotModel {
    LinkSnapshotModel { id, mode, stats }
}

/// The links of a snapshot: those of the configuration that counters are kept
/// for, in the configuration's order.
pub open spec fn link_snapshots(
    links: Seq<LinkModel>,
    stats: Map<Seq<char>, LinkStats>,
) -> Seq<LinkSnapshotModel>
    decreases links.len(),
{
    if links.len() == 0 {
        Seq::empty()
    } else {
        let front = link_snapshots(links.drop_last(), stats);
        let link = links.last();
        if stats.contains_key(link.id) {
            front.push(link_snapshot(link.id, mode_word(link.mode), stats[link.id]))
        } else {
            front
        }
    }
}

/// The seconds from `then` to `now`, or zero where the clock was set back.
pub open spec fn seconds_since(then: u64, now: u64) -> u64 {
    if now >= then {
        (now - then) as u64
    } else {
        0
    }
}

/// The snapshot of a state at the time `now`.
pub open spec fn snapshot_of(
    role: Role,
    started_at: u64,
    control: ControlModel,
    stats: Map<Seq<char>, LinkStats>,
    config: ConfigModel,
    now: u64,
) -> StatusModel {
    StatusModel {
        role: role_word(role),
        uptime_secs: seconds_since(started_at, now),
        control_connected: control.connected,
        control_connected_since_secs_ago: match control.connected_since {
            Some(t) if control.connected => Some(seconds_since(t, now)),
            _ => None,
        },
        control_peer_addr: control.peer_addr,
        control_peer_name: control.peer_name,
        links: link_snapshots(config.links, stats),
    }
}

fn seconds_between(then: u64, now: u64) -> (s: u64)
    ensures
        s == seconds_since(then, now),
{
    if now >= then {
        now - then
    } else {
        0
    }
}

impl SharedState {
    /// Fresh, zeroed state for every link of `config`.
    pub fn new(config: &Config) -> (s: SharedState)
        ensures
            s.role == config.role,
            s.control@ == never_connected(),
            s.links@ == fresh_links(config@.links),
    {
        SharedState::new_at(config, now_unix())
    }

    /// The same, with the time of the start.
    pub fn new_at(config: &Config, now: u64) -> (s: SharedState)
        ensures
            s.role == config.role,
            s.started_at == now,
            s.control@ == never_connected(),
            s.links@ == fresh_links(config@.links),
    {
        let mut links: StringHashMap<LinkStats> = StringHashMap::new();
        let mut i: usize = 0;
        assert(links@ =~= fresh_links(config@.links.take(0)));
        while i < config.links.len()
            invariant
                i <= config.links@.len(),
                links@ == fresh_links(config@.links.take(i as int)),
            decreases config.links@.len() - i,
        {
            let ghost before = config@.links.take(i as int);
            let ghost after = config@.links.take(i + 1);
            links.insert(config.links[i].id.clone(), LinkStats::default());
            proof {
                let id = config.links@[i as int].id@;
                assert(after[i as int].id == id);
                assert forall|x: Seq<char>| has_link(after, x) <==> has_link(before, x) || x == id by {
                    if has_link(before, x) {
                        let j = choose|j: int| 0 <= j < before.len() && (#[trigger] before[j]).id == x;
                        assert(after[j].id == x);
                    }
                    if has_link(after, x) {
                        let j = choose|j: int| 0 <= j < after.len() && (#[trigger] after[j]).id == x;
                        if j < i {
                            assert(before[j].id == x);
                        }
                    }
                }
                assert(links@ =~= fresh_links(after));
            }
            i = i + 1;
        }
        assert(config@.links.take(i as int) =~= config@.links);
        SharedState { role: config.role, started_at: now, control: ControlStatus::default(), links }
    }

    /// A snapshot of this state. `config` gives the mode of each link and their
    /// order.
    pub fn snapshot(&self, config: &Config) -> (s: StatusSnapshot)
        ensures
            exists|now: u64|
                s@ == #[trigger] snapshot_of(
                    self.role,
                    self.started_at,
                    self.control@,
                    self.links@,
                    config@,
                    now,
                ),
    {
        self.snapshot_at(config, now_unix())
    }

    /// The same, with the time at which it is taken.
    pub fn snapshot_at(&self, config: &Config, now: u64) -> (s: StatusSnapshot)
        ensures
            s@ == snapshot_of(
                self.role,
                self.started_at,
                self.control@,
                self.links@,
                config@,
                now,
            ),
    {
        let mut links: Vec<LinkSnapshot> = Vec::new();
        let mut i: usize = 0;
        assert(config@.links.take(0) =~= Seq::<LinkModel>::empty());
        assert(snapshot_models(links@) =~= link_snapshots(config@.links.take(0), self.links@));
        while i < config.links.len()
            invariant
                i <= config.links@.len(),
                snapshot_models(links@) == link_snapshots(config@.links.take(i as int), self.links@),
            decreases config.links@.len() - i,
        {
            let ghost before = snapshot_models(links@);
            assert(config@.links.take(i + 1).drop_last() =~= config@.links.take(i as int));
            assert(config@.links.take(i + 1).last() == config.links@[i as int]@);
            if let Some(stats) = self.links.get(config.links[i].id.as_str()) {
                let snap = stats.snapshot(
                    config.links[i].id.as_str(),
                    mode_str(config.links[i].mode),
                );
                links.push(snap);
                assert(snapshot_models(links@) =~= before.push(snap@));
            }
            i = i + 1;
        }
        assert(config@.links.take(i as int) =~= config@.links);
        let since = match self.control.connected_since {
            Some(t) => if self.control.connected {
                Some(seconds_between(t, now))
            } else {
                None
            },
            None => None,
        };
        StatusSnapshot {
            role: role_str(self.role).to_string(),
            uptime_secs: seconds_between(self.started_at, now),
            control_connected: self.control.connected,
            control_connected_since_secs_ago: since,
            control_peer_addr: clone_text(&self.control.peer_addr),
            control_peer_name: clone_text(&self.control.peer_name),
            links,
        }
    }

    /// Counts a stream that has been opened on a link.
    pub fn stream_opened(&mut self, link_id: &str)
        ensures
            final(self).links@ == (if old(self).links@.contains_key(link_id@) {
                old(self).links@.insert(link_id@, opened(old(self).links@[link_id@]))
            } else {
                old(self).links@
            }),
            final(self).role == old(self).role,
            final(self).control == old(self).control,
            final(self).started_at == old(self).started_at,
    {
        if let Some(stats) = self.links.get(link_id) {
            let mut stats = *stats;
            stats.stream_opened();
            self.links.insert(link_id.to_string(), stats);
        }
    }

    /// Counts a stream that has ended on a link.
    pub fn stream_closed(&mut self, link_id: &str, carried: Option<(u64, u64)>)
        ensures
            final(self).links@ == (if old(self).links@.contains_key(link_id@) {
                old(self).links@.insert(link_id@, closed(old(self).links@[link_id@], carried))
            } else {
                old(self).links@
            }),
            final(self).role == old(self).role,
            final(self).control == old(self).control,
            final(self).started_at == old(self).started_at,
    {
        if let Some(stats) = self.links.get(link_id) {
            let mut stats = *stats;
            stats.stream_closed(carried);
            self.links.insert(link_id.to_string(), stats);
        }
    }
}

/// The state of an instance knows every link of the configuration that it was
/// made from, so a snapshot of it shows them all.
pub proof fn law_fresh_snapshot_shows_every_link(links: Seq<LinkModel>, all: Seq<LinkModel>)
    requires
        forall|i: int| 0 <= i < links.len() ==> has_link(all, (#[trigger] links[i]).id),
    ensures
        link_snapshots(links, fresh_links(all)) == links.map_values(
            |l: LinkModel| link_snapshot(l.id, mode_word(l.mode), zero_stats()),
        ),
    decreases links.len(),
{
    let f = |l: LinkModel| link_snapshot(l.id, mode_word(l.mode), zero_stats());
    if links.len() > 0 {
        let front = links.drop_last();
        assert forall|i: int| 0 <= i < front.len() implies has_link(all, (#[trigger] front[i]).id) by {
            assert(front[i] == links[i]);
        }
        law_fresh_snapshot_shows_every_link(front, all);
        assert(links.last() == links[links.len() - 1]);
        assert(link_snapshots(links, fresh_links(all)) =~= links.map_values(f));
    } else {
        assert(link_snapshots(links, fresh_links(all)) =~= links.map_values(f));
    }
}

/// A snapshot shows the configured links that counters are kept for, one for one and
/// in order, each with its own name, its own mode and the counters under its name.
pub proof fn law_snapshot_shows_each_links_own_counters(
    role: Role,
    started_at: u64,
    control: ControlModel,
    stats: Map<Seq<char>, LinkStats>,
    config: ConfigModel,
    now: u64,
)
    ensures
        ({
            let shown = snapshot_of(role, started_at, control, stats, config, now).links;
            &&& shown == config.links.filter(
                |l: LinkModel| stats.contains_key(l.id),
            ).map_values(
                |l: LinkModel|
                    LinkSnapshotModel {
                        id: l.id,
                        mode: if l.mode is Forward {
                            "forward"@
                        } else {
                            "reverse"@
                        },
                        stats: stats[l.id],
                    },
            )
            &&& (forall|i: int|
                0 <= i < config.links.len() ==> stats.contains_key((#[trigger] config.links[i]).id))
                ==> {
                &&& shown.len() == config.links.len()
                &&& forall|i: int|
                    0 <= i < shown.len() ==> {
                        &&& (#[trigger] shown[i]).id == config.links[i].id
                        &&& shown[i].mode == (if config.links[i].mode is Forward {
                            "forward"@
                        } else {
                            "reverse"@
                        })
                        &&& shown[i].stats == stats[config.links[i].id]
                    }
            }
        }),
{
    lemma_shown_links(config.links, stats);
}

proof fn lemma_shown_links(links: Seq<LinkModel>, stats: Map<Seq<char>, LinkStats>)
    ensures
        link_snapshots(links, stats) == links.filter(
            |l: LinkModel| stats.contains_key(l.id),
        ).map_values(
            |l: LinkModel|
                LinkSnapshotModel {
                    id: l.id,
                    mode: if l.mode is Forward {
                        "forward"@
                    } else {
                        "reverse"@
                    },
                    stats: stats[l.id],
                },
        ),
        (forall|i: int| 0 <= i < links.len() ==> stats.contains_key((#[trigger] links[i]).id)) ==> {
            let shown = link_snapshots(links, stats);
            &&& shown.len() == links.len()
            &&& forall|i: int|
                0 <= i < shown.len() ==> {
                    &&& (#[trigger] shown[i]).id == links[i].id
                    &&& shown[i].mode == (if links[i].mode is Forward {
                        "forward"@
                    } else {
                        "reverse"@
                    })
                    &&& shown[i].stats == stats[links[i].id]
                }
        },
    decreases links.len(),
{
    reveal(Seq::filter);
    let kept = |l: LinkModel| stats.contains_key(l.id);
    let entry = |l: LinkModel|
        LinkSnapshotModel {
            id: l.id,
            mode: if l.mode is Forward {
                "forward"@
            } else {
                "reverse"@
            },
            stats: stats[l.id],
        };
    let shown = link_snapshots(links, stats);
    if links.len() == 0 {
        assert(shown =~= links.filter(kept).map_values(entry));
    } else {
        let front = links.drop_last();
        lemma_shown_links(front, stats);
        assert(shown =~= links.filter(kept).map_values(entry));
        if forall|i: int| 0 <= i < links.len() ==> stats.contains_key((#[trigger] links[i]).id) {
            assert forall|i: int| 0 <= i < front.len() implies stats.contains_key(
                (#[trigger] front[i]).id,
            ) by {
                assert(front[i] == links[i]);
            }
            assert(links.last() == links[links.len() - 1]);
            let before = link_snapshots(front, stats);
            assert(forall|i: int| 0 <= i < before.len() ==> shown[i] == #[trigger] before[i]);
            assert(forall|i: int| 0 <= i < front.len() ==> front[i] == #[trigger] links[i]);
        }
    }
}

/// What is counted on one link shows on that link only: the entries of all others
/// stay as they were.
pub proof fn law_counting_shows_on_one_link(
    role: Role,
    started_at: u64,
    control: ControlModel,
    stats: Map<Seq<char>, LinkStats>,
    config: ConfigModel,
    now: u64,
    id: Seq<char>,
    counted: LinkStats,
    i: int,
)
    requires
        forall|i: int|
            0 <= i < config.links.len() ==> stats.contains_key((#[trigger] config.links[i]).id),
        0 <= i < config.links.len(),
    ensures
        ({
            let before = snapshot_of(role, started_at, control, stats, config, now).links;
            let after = snapshot_of(
                role,
                started_at,
                control,
                stats.insert(id, counted),
                config,
                now,
            ).links;
            &&& after.len() == before.len() == config.links.len()
            &&& config.links[i].id != id ==> after[i] == before[i]
            &&& config.links[i].id == id ==> after[i] == (LinkSnapshotModel {
                stats: counted,
                ..before[i]
            })
        }),
{
    lemma_shown_links(config.links, stats);
    lemma_shown_links(config.links, stats.insert(id, counted));
}

/// A snapshot tells the role, how long the instance and its control connection have
/// been up, and who the control connection is or was with.
pub proof fn law_snapshot_tells_the_state(
    role: Role,
    started_at: u64,
    control: ControlModel,
    stats: Map<Seq<char>, LinkStats>,
    config: ConfigModel,
    now: u64,
)
    ensures
        ({
            let s = snapshot_of(role, started_at, control, stats, config, now);
            &&& s.role == (if role is Server {
                "server"@
            } else {
                "client"@
            })
            &&& now >= started_at ==> s.uptime_secs == now - started_at
            &&& now < started_at ==> s.uptime_secs == 0
            &&& s.control_connected == control.connected
            &&& s.control_connected_since_secs_ago is Some <==> control.connected
                && control.connected_since is Some
            &&& s.control_connected_since_secs_ago matches Some(secs) ==> {
                &&& now >= control.connected_since->0 ==> secs == now - control.connected_since->0
                &&& now < control.connected_since->0 ==> secs == 0
            }
            &&& s.control_peer_addr == control.peer_addr
            &&& s.control_peer_name == control.peer_name
        }),
{
}

/// A stream counts as active from when it was opened until it has ended, and once for
/// good; bytes are added the way they went.
pub proof fn law_open_streams_are_active(s: LinkStats, forward: u64, back: u64)
    requires
        0 < s.active_streams < u64::MAX,
        s.total_streams < u64::MAX,
        s.bytes_forward + forward <= u64::MAX,
        s.bytes_back + back <= u64::MAX,
    ensures
        opened(s).active_streams == s.active_streams + 1,
        opened(s).total_streams == s.total_streams + 1,
        opened(s).bytes_forward == s.bytes_forward,
        opened(s).bytes_back == s.bytes_back,
        closed(s, Some((forward, back))).active_streams == s.active_streams - 1,
        closed(s, Some((forward, back))).total_streams == s.total_streams,
        closed(s, Some((forward, back))).bytes_forward == s.bytes_forward + forward,
        closed(s, Some((forward, back))).bytes_back == s.bytes_back + back,
        closed(s, None).active_streams == s.active_streams - 1,
        closed(s, None).total_streams == s.total_streams,
        closed(s, None).bytes_forward == s.bytes_forward,
        closed(s, None).bytes_back == s.bytes_back,
{
}

/// At the start every configured link has counters, all at zero, and nothing else has.
pub proof fn law_counters_start_at_zero(links: Seq<LinkModel>, id: Seq<char>)
    ensures
        fresh_links(links).contains_key(id) <==> exists|i: int|
            0 <= i < links.len() && (#[trigger] links[i]).id == id,
        fresh_links(links).contains_key(id) ==> fresh_links(links)[id] == (LinkStats {
            active_streams: 0,
            total_streams: 0,
            bytes_forward: 0,
            bytes_back: 0,
        }),
{
}

/// The model of a snapshot has what the snapshot has, and the links one for one and in
/// order.
pub proof fn law_model_has_what_the_snapshot_has(s: StatusSnapshot, i: int)
    ensures
        s@.role == s.role@,
        s@.uptime_secs == s.uptime_secs,
        s@.control_connected == s.control_connected,
        s@.control_connected_since_secs_ago == s.control_connected_since_secs_ago,
        s@.control_peer_addr is Some <==> s.control_peer_addr is Some,
        s.control_peer_addr is Some ==> s@.control_peer_addr->0 == s.control_peer_addr->0@,
        s@.control_peer_name is Some <==> s.control_peer_name is Some,
        s.control_peer_name is Some ==> s@.control_peer_name->0 == s.control_peer_name->0@,
        s@.links.len() == s.links@.len(),
        0 <= i < s.links@.len() ==> {
            let link = s.links@[i];
            &&& s@.links[i].id == link.id@
            &&& s@.links[i].mode == link.mode@
            &&& s@.links[i].stats.active_streams == link.active_streams
            &&& s@.links[i].stats.total_streams == link.total_streams
            &&& s@.links[i].stats.bytes_forward == link.bytes_forward
            &&& s@.links[i].stats.bytes_back == link.bytes_back
        },
{
}

/// A control connection that never was is not connected, and nothing is known of it.
pub proof fn law_never_connected()
    ensures
        !never_connected().connected,
        never_connected().connected_since is None,
        never_connected().peer_addr is None,
        never_connected().peer_name is None,
{
}

} // verus!
