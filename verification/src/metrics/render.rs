//! A status snapshot as Prometheus text.

use crate::stats::{snapshot_models, LinkSnapshot, LinkSnapshotModel, LinkStats, StatusModel, StatusSnapshot};
use crate::text::{chars_of, dec, push_dec};
use vstd::prelude::*;

verus! {

/// The two lines that introduce a metric.
pub open spec fn header(name: Seq<char>, help: Seq<char>, kind: Seq<char>) -> Seq<char> {
    "# HELP "@ + name + " "@ + help + "\n# TYPE "@ + name + " "@ + kind + "\n"@
}

/// A metric with a single value.
pub open spec fn gauge(name: Seq<char>, help: Seq<char>, value: nat) -> Seq<char> {
    header(name, help, "gauge"@) + (name + " "@ + dec(value) + "\n"@)
}

/// One of the four counters of a link.
#[derive(Debug, Clone, Copy, PartialEq, Eq, Structural)]
pub enum Counter {
    /// Streams that are being relayed.
    Active,
    /// Streams that were ever opened.
    Total,
    /// Bytes relayed towards the target.
    Forward,
    /// Bytes relayed in the other direction.
    Back,
}

/// The value of a counter.
pub open spec fn counter_value(stats: LinkStats, counter: Counter) -> u64 {
    match counter {
        Counter::Active => stats.active_streams,
        Counter::Total => stats.total_streams,
        Counter::Forward => stats.bytes_forward,
        Counter::Back => stats.bytes_back,
    }
}

/// A character of a label: what would end the label or the line, and the
/// backslash itself, stand behind a backslash.
pub open spec fn escaped_char(c: char) -> Seq<char> {
    if c == '\\' {
        seq!['\\', '\\']
    } else if c == '"' {
        seq!['\\', '"']
    } else if c == '\n' {
        seq!['\\', 'n']
    } else {
        seq![c]
    }
}

/// A text as it stands between the quotes of a label.
pub open spec fn escaped(s: Seq<char>) -> Seq<char>
    decreases s.len(),
{
    if s.len() == 0 {
        Seq::empty()
    } else {
        escaped_char(s[0]) + escaped(s.drop_first())
    }
}

/// The value of a metric for one link.
pub open spec fn link_sample(name: Seq<char>, link: LinkSnapshotModel, counter: Counter) -> Seq<char> {
    name + "{link_id=\""@ + escaped(link.id) + "\",mode=\""@ + escaped(link.mode) + "\"} "@ + dec(
        counter_value(link.stats, counter) as nat,
    ) + "\n"@
}

/// The values of a metric for all links.
pub open spec fn link_samples(
    name: Seq<char>,
    links: Seq<LinkSnapshotModel>,
    counter: Counter,
) -> Seq<char>
    decreases links.len(),
{
    if links.len() == 0 {
        Seq::empty()
    } else {
        link_samples(name, links.drop_last(), counter) + link_sample(name, links.last(), counter)
    }
}

/// A metric with a value for each link.
pub open spec fn link_family(
    name: Seq<char>,
    help: Seq<char>,
    kind: Seq<char>,
    links: Seq<LinkSnapshotModel>,
    counter: Counter,
) -> Seq<char> {
    header(name, help, kind) + link_samples(name, links, counter)
}

/// The metric that is there even when nothing else is known.
pub open spec fn up_metric(up: bool) -> Seq<char> {
    gauge(
        "ghostport_up"@,
        "Whether the ghostport daemon's status socket answered this scrape."@,
        if up {
            1
        } else {
            0
        },
    )
}

/// The metrics of the daemon itself.
pub open spec fn daemon_metrics(s: StatusModel) -> Seq<char> {
    gauge(
        "ghostport_uptime_seconds"@,
        "Seconds since the daemon started."@,
        s.uptime_secs as nat,
    ) + gauge(
        "ghostport_control_connected"@,
        "Whether the control channel is currently connected."@,
        if s.control_connected {
            1
        } else {
            0
        },
    ) + (match s.control_connected_since_secs_ago {
        Some(secs) => gauge(
            "ghostport_control_connected_seconds"@,
            "Seconds since the current control connection was established."@,
            secs as nat,
        ),
        None => Seq::empty(),
    })
}

/// The metrics of the links; none at all where there are no links.
pub open spec fn link_metrics(links: Seq<LinkSnapshotModel>) -> Seq<char> {
    if links.len() == 0 {
        Seq::empty()
    } else {
        link_family(
            "ghostport_link_active_streams"@,
            "Streams currently being relayed on this link."@,
            "gauge"@,
            links,
            Counter::Active,
        ) + link_family(
            "ghostport_link_streams_total"@,
            "Total streams ever opened on this link."@,
            "counter"@,
            links,
            Counter::Total,
        ) + link_family(
            "ghostport_link_bytes_forward_total"@,
            "Bytes relayed in the forward direction on this link."@,
            "counter"@,
            links,
            Counter::Forward,
        ) + link_family(
            "ghostport_link_bytes_back_total"@,
            "Bytes relayed in the opposite direction on this link."@,
            "counter"@,
            links,
            Counter::Back,
        )
    }
}

/// The whole body of an answer.
pub open spec fn rendered(snapshot: Option<StatusModel>) -> Seq<char> {
    match snapshot {
        None => up_metric(false),
        Some(s) => up_metric(true) + daemon_metrics(s) + link_metrics(s.links),
    }
}

fn push_header(out: &mut String, name: &str, help: &str, kind: &str)
    ensures
        final(out)@ == old(out)@ + header(name@, help@, kind@),
{
    out.push_str("# HELP ");
    out.push_str(name);
    out.push_str(" ");
    out.push_str(help);
    out.push_str("\n# TYPE ");
    out.push_str(name);
    out.push_str(" ");
    out.push_str(kind);
    out.push_str("\n");
    assert(out@ =~= old(out)@ + header(name@, help@, kind@));
}

fn push_gauge(out: &mut String, name: &str, help: &str, value: u64)
    ensures
        final(out)@ == old(out)@ + gauge(name@, help@, value as nat),
{
    push_header(out, name, help, "gauge");
    let ghost before = out@;
    out.push_str(name);
    out.push_str(" ");
    push_dec(out, value);
    out.push_str("\n");
    assert(out@ =~= before + (name@ + " "@ + dec(value as nat) + "\n"@));
    assert(out@ =~= old(out)@ + gauge(name@, help@, value as nat));
}

fn counter_of(link: &LinkSnapshot, counter: Counter) -> (v: u64)
    ensures
        v == counter_value(link@.stats, counter),
{
    match counter {
        Counter::Active => link.active_streams,
        Counter::Total => link.total_streams,
        Counter::Forward => link.bytes_forward,
        Counter::Back => link.bytes_back,
    }
}

fn push_escaped(out: &mut String, s: &str)
    ensures
        final(out)@ == old(out)@ + escaped(s@),
{
    let v = chars_of(s);
    let ghost base = out@;
    let mut i: usize = 0;
    assert(v@.skip(0) =~= v@);
    while i < v.len()
        invariant
            i <= v@.len(),
            v@ == s@,
            out@ + escaped(v@.skip(i as int)) == base + escaped(s@),
        decreases v@.len() - i,
    {
        let ghost before = out@;
        let c = v[i];
        if c == '\\' {
            out.push('\\');
            out.push('\\');
        } else if c == '"' {
            out.push('\\');
            out.push('"');
        } else if c == '\n' {
            out.push('\\');
            out.push('n');
        } else {
            out.push(c);
        }
        proof {
            let rest = v@.skip(i as int);
            assert(rest[0] == c);
            assert(rest.drop_first() =~= v@.skip(i + 1));
            assert(out@ =~= before + escaped_char(c));
            assert(out@ + escaped(v@.skip(i + 1)) =~= before + escaped(rest));
        }
        i = i + 1;
    }
    assert(v@.skip(i as int) =~= Seq::<char>::empty());
    assert(out@ + Seq::<char>::empty() =~= out@);
}

fn push_sample(out: &mut String, name: &str, link: &LinkSnapshot, counter: Counter)
    ensures
        final(out)@ == old(out)@ + link_sample(name@, link@, counter),
{
    out.push_str(name);
    out.push_str("{link_id=\"");
    push_escaped(out, link.id.as_str());
    out.push_str("\",mode=\"");
    push_escaped(out, link.mode.as_str());
    out.push_str("\"} ");
    push_dec(out, counter_of(link, counter));
    out.push_str("\n");
    assert(out@ =~= old(out)@ + link_sample(name@, link@, counter));
}

fn push_family(
    out: &mut String,
    name: &str,
    help: &str,
    kind: &str,
    links: &Vec<LinkSnapshot>,
    counter: Counter,
)
    ensures
        final(out)@ == old(out)@ + link_family(
            name@,
            help@,
            kind@,
            snapshot_models(links@),
            counter,
        ),
{
    push_header(out, name, help, kind);
    let ghost base = out@;
    let ghost models = snapshot_models(links@);
    let mut i: usize = 0;
    assert(models.take(0) =~= Seq::<LinkSnapshotModel>::empty());
    assert(base + link_samples(name@, models.take(0), counter) =~= base);
    while i < links.len()
        invariant
            i <= links@.len(),
            models == snapshot_models(links@),
            out@ == base + link_samples(name@, models.take(i as int), counter),
        decreases links@.len() - i,
    {
        push_sample(out, name, &links[i], counter);
        proof {
            assert(models.take(i + 1).drop_last() =~= models.take(i as int));
            assert(models.take(i + 1).last() == links@[i as int]@);
            assert(out@ =~= base + link_samples(name@, models.take(i + 1), counter));
        }
        i = i + 1;
    }
    assert(models.take(i as int) =~= models);
    assert(out@ =~= old(out)@ + link_family(name@, help@, kind@, models, counter));
}

fn push_daemon_metrics(out: &mut String, snapshot: &StatusSnapshot)
    ensures
        final(out)@ == old(out)@ + daemon_metrics(snapshot@),
{
    push_gauge(
        out,
        "ghostport_uptime_seconds",
        "Seconds since the daemon started.",
        snapshot.uptime_secs,
    );
    push_gauge(
        out,
        "ghostport_control_connected",
        "Whether the control channel is currently connected.",
        if snapshot.control_connected {
            1
        } else {
            0
        },
    );
    if let Some(secs) = snapshot.control_connected_since_secs_ago {
        push_gauge(
            out,
            "ghostport_control_connected_seconds",
            "Seconds since the current control connection was established.",
            secs,
        );
    }
    assert(out@ =~= old(out)@ + daemon_metrics(snapshot@));
}

fn push_link_metrics(out: &mut String, links: &Vec<LinkSnapshot>)
    ensures
        final(out)@ == old(out)@ + link_metrics(snapshot_models(links@)),
{
    if links.len() > 0 {
        push_family(
            out,
            "ghostport_link_active_streams",
            "Streams currently being relayed on this link.",
            "gauge",
            links,
            Counter::Active,
        );
        push_family(
            out,
            "ghostport_link_streams_total",
            "Total streams ever opened on this link.",
            "counter",
            links,
            Counter::Total,
        );
        push_family(
            out,
            "ghostport_link_bytes_forward_total",
            "Bytes relayed in the forward direction on this link.",
            "counter",
            links,
            Counter::Forward,
        );
        push_family(
            out,
            "ghostport_link_bytes_back_total",
            "Bytes relayed in the opposite direction on this link.",
            "counter",
            links,
            Counter::Back,
        );
    }
    assert(out@ =~= old(out)@ + link_metrics(snapshot_models(links@)));
}

/// Renders `snapshot`, or `None` where the daemon could not be reached, as the
/// whole body of an answer. `ghostport_up` always comes first; everything else
/// is only there where there is a snapshot to take it from.
pub fn render(snapshot: Option<&StatusSnapshot>) -> (out: String)
    ensures
        out@ == rendered(match snapshot {
            Some(s) => Some(s@),
            None => None,
        }),
{
    let mut out = String::new();
    push_gauge(
        &mut out,
        "ghostport_up",
        "Whether the ghostport daemon's status socket answered this scrape.",
        if snapshot.is_some() {
            1
        } else {
            0
        },
    );
    assert(out@ =~= up_metric(snapshot is Some));
    if let Some(s) = snapshot {
        push_daemon_metrics(&mut out, s);
        push_link_metrics(&mut out, &s.links);
    }
    out
}

/// Whatever is known, the answer begins with `ghostport_up`.
pub proof fn law_up_comes_first(snapshot: Option<StatusModel>)
    ensures
        up_metric(snapshot is Some).is_prefix_of(rendered(snapshot)),
{
    let up = up_metric(snapshot is Some);
    let all = rendered(snapshot);
    assert(all.take(up.len() as int) =~= up);
}

/// What a reader makes of the text behind the opening quote of a label: its value,
/// and what follows the closing quote. Nothing where the label does not end on its
/// line.
pub open spec fn read_label(t: Seq<char>) -> Option<(Seq<char>, Seq<char>)>
    decreases t.len(),
{
    if t.len() == 0 || t[0] == '\n' {
        None
    } else if t[0] == '"' {
        Some((Seq::empty(), t.drop_first()))
    } else if t[0] != '\\' {
        match read_label(t.drop_first()) {
            Some((value, rest)) => Some((seq![t[0]] + value, rest)),
            None => None,
        }
    } else if t.len() == 1 {
        None
    } else {
        match read_label(t.skip(2)) {
            Some((value, rest)) => Some(
                (
                    seq![
                        if t[1] == 'n' {
                            '\n'
                        } else {
                            t[1]
                        },
                    ] + value,
                    rest,
                ),
            ),
            None => None,
        }
    }
}

/// Whatever a link is called, its name is read back from the label that it is
/// written in, and the label ends where it should.
pub proof fn law_labels_read_back(s: Seq<char>, rest: Seq<char>)
    ensures
        read_label(escaped(s) + seq!['"'] + rest) == Some((s, rest)),
    decreases s.len(),
{
    let t = escaped(s) + seq!['"'] + rest;
    if s.len() == 0 {
        assert(t =~= seq!['"'] + rest);
        assert(t.drop_first() =~= rest);
        assert(s =~= Seq::<char>::empty());
    } else {
        let tail = s.drop_first();
        law_labels_read_back(tail, rest);
        let u = escaped(tail) + seq!['"'] + rest;
        assert(t =~= escaped_char(s[0]) + u);
        assert(s =~= seq![s[0]] + tail);
        if escaped_char(s[0]).len() == 2 {
            assert(t.skip(2) =~= u);
        } else {
            assert(t.drop_first() =~= u);
        }
    }
}

/// Each link has exactly one value for a metric, in the order of the snapshot.
pub proof fn law_one_sample_per_link(
    name: Seq<char>,
    front: Seq<LinkSnapshotModel>,
    link: LinkSnapshotModel,
    back: Seq<LinkSnapshotModel>,
    counter: Counter,
)
    ensures
        link_samples(name, front.push(link) + back, counter) == link_samples(name, front, counter)
            + link_sample(name, link, counter) + link_samples(name, back, counter),
    decreases back.len(),
{
    let all = front.push(link) + back;
    if back.len() == 0 {
        assert(all =~= front.push(link));
        assert(all.drop_last() =~= front);
        assert(link_samples(name, all, counter) =~= link_samples(name, front, counter)
            + link_sample(name, link, counter) + link_samples(name, back, counter));
    } else {
        law_one_sample_per_link(name, front, link, back.drop_last(), counter);
        assert(all.drop_last() =~= front.push(link) + back.drop_last());
        assert(all.last() == back.last());
        assert(link_samples(name, all, counter) =~= link_samples(name, front, counter)
            + link_sample(name, link, counter) + link_samples(name, back, counter));
    }
}

/// The samples of a metric are one line for each link, in order: its name and mode as
/// labels, and the value that the metric is about.
pub proof fn law_samples_tell_each_links_value(
    name: Seq<char>,
    links: Seq<LinkSnapshotModel>,
    counter: Counter,
)
    ensures
        link_samples(name, links, counter) == links.map_values(
            |l: LinkSnapshotModel|
                name + "{link_id=\""@ + escaped(l.id) + "\",mode=\""@ + escaped(l.mode) + "\"} "@
                    + dec(
                    match counter {
                        Counter::Active => l.stats.active_streams,
                        Counter::Total => l.stats.total_streams,
                        Counter::Forward => l.stats.bytes_forward,
                        Counter::Back => l.stats.bytes_back,
                    } as nat,
                ) + "\n"@,
        ).flatten_alt(),
    decreases links.len(),
{
    let f = |l: LinkSnapshotModel|
        name + "{link_id=\""@ + escaped(l.id) + "\",mode=\""@ + escaped(l.mode) + "\"} "@ + dec(
            match counter {
                Counter::Active => l.stats.active_streams,
                Counter::Total => l.stats.total_streams,
                Counter::Forward => l.stats.bytes_forward,
                Counter::Back => l.stats.bytes_back,
            } as nat,
        ) + "\n"@;
    let lines = links.map_values(f);
    if links.len() > 0 {
        law_samples_tell_each_links_value(name, links.drop_last(), counter);
        assert(lines.drop_last() =~= links.drop_last().map_values(f));
        assert(lines.last() == f(links.last()));
    }
}

/// What is answered where the daemon could not be reached, and where it could: whether
/// it is up, how long it has been, whether and how long its control connection has been
/// up, and for every metric of the links the counter that its name says.
pub proof fn law_answer_tells_the_status(s: StatusModel)
    ensures
        ({
            let head = |name: Seq<char>, help: Seq<char>, kind: Seq<char>|
                "# HELP "@ + name + " "@ + help + "\n# TYPE "@ + name + " "@ + kind + "\n"@;
            let one = |name: Seq<char>, help: Seq<char>, value: nat|
                head(name, help, "gauge"@) + (name + " "@ + dec(value) + "\n"@);
            let up = |n: nat|
                one(
                    "ghostport_up"@,
                    "Whether the ghostport daemon's status socket answered this scrape."@,
                    n,
                );
            &&& rendered(None) == up(0)
            &&& rendered(Some(s)) == up(1) + (one(
                "ghostport_uptime_seconds"@,
                "Seconds since the daemon started."@,
                s.uptime_secs as nat,
            ) + one(
                "ghostport_control_connected"@,
                "Whether the control channel is currently connected."@,
                if s.control_connected {
                    1
                } else {
                    0
                },
            ) + (if s.control_connected_since_secs_ago is Some {
                one(
                    "ghostport_control_connected_seconds"@,
                    "Seconds since the current control connection was established."@,
                    s.control_connected_since_secs_ago->0 as nat,
                )
            } else {
                Seq::empty()
            })) + (if s.links.len() == 0 {
                Seq::empty()
            } else {
                (head(
                    "ghostport_link_active_streams"@,
                    "Streams currently being relayed on this link."@,
                    "gauge"@,
                ) + link_samples("ghostport_link_active_streams"@, s.links, Counter::Active)) + (head(
                    "ghostport_link_streams_total"@,
                    "Total streams ever opened on this link."@,
                    "counter"@,
                ) + link_samples("ghostport_link_streams_total"@, s.links, Counter::Total)) + (head(
                    "ghostport_link_bytes_forward_total"@,
                    "Bytes relayed in the forward direction on this link."@,
                    "counter"@,
                ) + link_samples("ghostport_link_bytes_forward_total"@, s.links, Counter::Forward)) + (
                head(
                    "ghostport_link_bytes_back_total"@,
                    "Bytes relayed in the opposite direction on this link."@,
                    "counter"@,
                ) + link_samples("ghostport_link_bytes_back_total"@, s.links, Counter::Back))
            })
        }),
{
}

/// A label is written as it is where nothing in it could end it.
pub proof fn law_plain_labels_stay_as_they_are(s: Seq<char>)
    requires
        forall|i: int|
            0 <= i < s.len() ==> #[trigger] s[i] != '\\' && s[i] != '"' && s[i] != '\n',
    ensures
        escaped(s) == s,
    decreases s.len(),
{
    if s.len() > 0 {
        let rest = s.drop_first();
        assert forall|i: int| 0 <= i < rest.len() implies #[trigger] rest[i] != '\\' && rest[i]
            != '"' && rest[i] != '\n' by {
            assert(rest[i] == s[i + 1]);
        }
        law_plain_labels_stay_as_they_are(rest);
        assert(seq![s[0]] + rest =~= s);
    } else {
        assert(s =~= Seq::<char>::empty());
    }
}

} // verus!
