//! The command line: what it prints, and what has to hold before a daemon starts.

use crate::config::{
    client_key_ok, config_errors, decoded_peer_keys, key_of, law_valid_exactly_without_errors,
    peer_models, role_name, Config, ConfigModel, PeerConfig, PeerModel, Role,
};
use crate::keys::{
    colon_hex_text, decode_public_key, decoded_key, fingerprint, sha256,
};
use crate::peermatch::ResolvedPeer;
use crate::stats::{
    snapshot_models, LinkSnapshot, LinkSnapshotModel, StatusModel, StatusSnapshot,
};
use crate::text::{
    chars_of, dec, dec_text, join, joined, lemma_push_text, pad_left, pad_right, padded_left,
    padded_right, path_join, path_joined, push_dec, str_eq, string_of,
};
use crate::theme::{marked, push_bold, push_marked, Palette, PaletteModel};
use vstd::hash_set::StringHashSet;
use vstd::prelude::*;
use vstd::slice::slice_subrange;

verus! {

// ---------------------------------------------------------------------
// Paths
// ---------------------------------------------------------------------

/// The home directory, or the root where none is known.
pub open spec fn home_or_root(home: Option<Seq<char>>) -> Seq<char> {
    match home {
        Some(h) => h,
        None => "/"@,
    }
}

/// What an optional text says.
pub open spec fn text_of(t: Option<&str>) -> Option<Seq<char>> {
    match t {
        Some(s) => Some(s@),
        None => None,
    }
}

/// A path in which a `~/` at the start stands for the home directory.
pub open spec fn expanded(path: Seq<char>, home: Option<Seq<char>>) -> Seq<char> {
    if path.len() >= 2 && path[0] == '~' && path[1] == '/' {
        path_joined(home_or_root(home), path.skip(2))
    } else {
        path
    }
}

/// Replaces a `~/` at the start of a path by the home directory.
pub fn expand_tilde(path: &str, home: Option<&str>) -> (r: String)
    ensures
        r@ == expanded(path@, text_of(home)),
{
    let v = chars_of(path);
    if v.len() >= 2 && v[0] == '~' && v[1] == '/' {
        let rest = string_of(slice_subrange(&v, 2, v.len()));
        assert(rest@ =~= path@.skip(2));
        return match home {
            Some(h) => path_join(h, rest.as_str()),
            None => path_join("/", rest.as_str()),
        };
    }
    path.to_string()
}

/// Where the status socket lives unless another path is given.
pub fn default_socket_path(home: Option<&str>) -> (r: String)
    ensures
        r@ == path_joined(
            home_or_root(text_of(home)),
            ".local/state/ghostport/ghostport.sock"@,
        ),
{
    match home {
        Some(h) => path_join(h, ".local/state/ghostport/ghostport.sock"),
        None => path_join("/", ".local/state/ghostport/ghostport.sock"),
    }
}

// ---------------------------------------------------------------------
// Generating keys
// ---------------------------------------------------------------------

/// What is printed about a key that has been generated.
pub open spec fn keygen_texts(
    p: PaletteModel,
    path: Seq<char>,
    pub_path: Seq<char>,
    key: Seq<char>,
    print: Seq<char>,
) -> Seq<Seq<char>> {
    seq![
        "Private key saved to "@ + marked(p.cyan, path) + " (0600)"@,
        "Public key saved to  "@ + marked(p.cyan, pub_path),
        ""@,
        "Give this public key to the peer, for their config's `peer_public_key`:"@,
        "  "@ + marked(crate::theme::bold_mark() + p.green, key),
        ""@,
        "Fingerprint (read this aloud / compare side-by-side with the peer"@,
        "to catch a transcription error in the key above):"@,
        "  "@ + marked(p.cyan, print),
    ]
}

/// What is printed about a key that has been generated: where it was saved, the
/// text of its public half, and the fingerprint of that.
pub fn keygen_lines(p: &Palette, path: &str, pub_path: &str, key: &str, print: &str) -> (lines: Vec<
    String,
>)
    ensures
        lines.deep_view() == keygen_texts(p@, path@, pub_path@, key@, print@),
{
    let mut a = "Private key saved to ".to_string();
    push_marked(&mut a, p.cyan.as_str(), path);
    a.push_str(" (0600)");
    let mut b = "Public key saved to  ".to_string();
    push_marked(&mut b, p.cyan.as_str(), pub_path);
    let mut c = "  ".to_string();
    push_bold(&mut c, p.green.as_str(), key);
    let mut d = "  ".to_string();
    push_marked(&mut d, p.cyan.as_str(), print);
    let mut lines: Vec<String> = Vec::new();
    lines.push(a);
    lines.push(b);
    lines.push("".to_string());
    lines.push("Give this public key to the peer, for their config's `peer_public_key`:".to_string());
    lines.push(c);
    lines.push("".to_string());
    lines.push("Fingerprint (read this aloud / compare side-by-side with the peer".to_string());
    lines.push("to catch a transcription error in the key above):".to_string());
    lines.push(d);
    assert(lines.deep_view() =~= keygen_texts(p@, path@, pub_path@, key@, print@));
    lines
}

// ---------------------------------------------------------------------
// Checking a configuration
// ---------------------------------------------------------------------

/// What is printed about a configuration that is valid.
pub open spec fn valid_text(p: PaletteModel, path: Seq<char>, c: ConfigModel) -> Seq<char> {
    "ghostport: "@ + path + " is "@ + marked(p.green, "valid"@) + " ("@ + role_name(c.role) + " role, "@
        + dec(c.links.len()) + " link"@ + (if c.links.len() == 1 {
        ""@
    } else {
        "s"@
    }) + ")"@
}

/// What is printed about a configuration that is not valid: how many problems it
/// has, and each of them.
pub open spec fn invalid_texts(p: PaletteModel, path: Seq<char>, errors: Seq<Seq<char>>) -> Seq<
    Seq<char>,
> {
    seq![
        "ghostport: "@ + path + " has "@ + dec(errors.len()) + " "@ + marked(
            p.red,
            if errors.len() == 1 {
                "problem"@
            } else {
                "problems"@
            },
        ) + ":"@,
    ] + errors.map_values(|e: Seq<char>| "  - "@ + marked(p.orange, e))
}

/// The line about a configuration that is valid.
pub fn valid_line(p: &Palette, path: &str, config: &Config) -> (s: String)
    ensures
        s@ == valid_text(p@, path@, config@),
{
    let mut s = "ghostport: ".to_string();
    s.push_str(path);
    s.push_str(" is ");
    push_marked(&mut s, p.green.as_str(), "valid");
    s.push_str(" (");
    match config.role {
        Role::Server => s.push_str("Server"),
        Role::Client => s.push_str("Client"),
    }
    s.push_str(" role, ");
    push_dec(&mut s, config.links.len() as u64);
    s.push_str(" link");
    if config.links.len() == 1 {
        s.push_str("");
    } else {
        s.push_str("s");
    }
    s.push_str(")");
    s
}

/// The lines about a configuration that is not valid.
pub fn invalid_lines(p: &Palette, path: &str, errors: &Vec<String>) -> (lines: Vec<String>)
    ensures
        lines.deep_view() == invalid_texts(p@, path@, errors.deep_view()),
{
    let ghost models = errors.deep_view();
    let ghost f = |e: Seq<char>| "  - "@ + marked(p@.orange, e);
    let mut s = "ghostport: ".to_string();
    s.push_str(path);
    s.push_str(" has ");
    push_dec(&mut s, errors.len() as u64);
    s.push_str(" ");
    push_marked(
        &mut s,
        p.red.as_str(),
        if errors.len() == 1 {
            "problem"
        } else {
            "problems"
        },
    );
    s.push_str(":");
    let ghost first = s@;
    let mut lines: Vec<String> = Vec::new();
    lines.push(s);
    let mut i: usize = 0;
    assert(lines.deep_view() =~= seq![first] + models.take(0).map_values(f));
    while i < errors.len()
        invariant
            i <= errors@.len(),
            models == errors.deep_view(),
            f == (|e: Seq<char>| "  - "@ + marked(p@.orange, e)),
            lines.deep_view() == seq![first] + models.take(i as int).map_values(f),
        decreases errors@.len() - i,
    {
        let mut line = "  - ".to_string();
        push_marked(&mut line, p.orange.as_str(), errors[i].as_str());
        let ghost before = lines;
        lines.push(line);
        proof {
            lemma_push_text(before, lines, line);
            assert(models[i as int] == errors@[i as int]@);
            assert(models.take(i + 1).map_values(f) =~= models.take(i as int).map_values(f).push(
                line@,
            ));
            assert(lines.deep_view() =~= seq![first] + models.take(i + 1).map_values(f));
        }
        i = i + 1;
    }
    assert(models.take(i as int) =~= models);
    lines
}

/// The line about the fingerprint of a peer of a server.
pub open spec fn peer_print_text(
    p: PaletteModel,
    name: Seq<char>,
    key: Seq<u8>,
    links: Seq<Seq<char>>,
) -> Seq<char> {
    "  peer \""@ + name + "\" fingerprint: "@ + marked(p.cyan, colon_hex_text(sha256(key)))
        + " (links: "@ + joined(links, ", "@) + ")"@
}

/// The lines about the fingerprints of the first `n` peers; a peer whose key does
/// not decode has none.
pub open spec fn peer_prints(p: PaletteModel, peers: Seq<PeerModel>, n: nat) -> Seq<Seq<char>>
    decreases n,
{
    if n == 0 {
        Seq::empty()
    } else {
        let front = peer_prints(p, peers, (n - 1) as nat);
        match key_of(peers[n - 1].public_key) {
            Some(key) => front.push(
                peer_print_text(p, peers[n - 1].name, key, peers[n - 1].links),
            ),
            None => front,
        }
    }
}

/// The lines about the fingerprints of all keys that a configuration names, and of
/// its own one, whose text is given where it could be read.
pub open spec fn print_texts(p: PaletteModel, c: ConfigModel, local: Option<Seq<char>>) -> Seq<
    Seq<char>,
> {
    (match c.role {
        Role::Client => match c.peer_public_key {
            Some(text) => match key_of(text) {
                Some(key) => seq![
                    "  peer_public_key fingerprint: "@ + marked(p.cyan, colon_hex_text(sha256(key))),
                ],
                None => Seq::empty(),
            },
            None => Seq::empty(),
        },
        Role::Server => peer_prints(p, c.peers, c.peers.len()),
    }) + (match local {
        Some(text) => match key_of(text) {
            Some(key) => seq![
                "  local identity fingerprint:  "@ + marked(p.cyan, colon_hex_text(sha256(key))),
            ],
            None => Seq::empty(),
        },
        None => Seq::empty(),
    })
}

fn peer_print_line(p: &Palette, peer: &PeerConfig, key: &Vec<u8>) -> (s: String)
    ensures
        s@ == peer_print_text(p@, peer@.name, key@, peer@.links),
{
    let print = fingerprint(key);
    let links = join(&peer.links, ", ");
    let mut s = "  peer \"".to_string();
    s.push_str(peer.name.as_str());
    s.push_str("\" fingerprint: ");
    push_marked(&mut s, p.cyan.as_str(), print.as_str());
    s.push_str(" (links: ");
    s.push_str(links.as_str());
    s.push_str(")");
    s
}

fn key_print_line(p: &Palette, label: &str, text: &str) -> (r: Option<String>)
    ensures
        match r {
            Some(s) => key_of(text@) is Some && s@ == label@ + marked(
                p@.cyan,
                colon_hex_text(sha256(key_of(text@)->0)),
            ),
            None => key_of(text@) is None,
        },
{
    match decode_public_key(text) {
        Ok(key) => {
            let print = fingerprint(&key);
            let mut s = label.to_string();
            push_marked(&mut s, p.cyan.as_str(), print.as_str());
            Some(s)
        },
        Err(_) => None,
    }
}

/// The lines about the fingerprints of all keys that a configuration names, and of
/// its own one. `local` is the content of its public key file, where it could be
/// read.
pub fn fingerprint_lines(p: &Palette, config: &Config, local: Option<&str>) -> (lines: Vec<String>)
    ensures
        lines.deep_view() == print_texts(p@, config@, text_of(local)),
{
    let mut lines: Vec<String> = Vec::new();
    assert(lines.deep_view() =~= Seq::<Seq<char>>::empty());
    match config.role {
        Role::Client => {
            if let Some(text) = &config.peer_public_key {
                if let Some(line) = key_print_line(
                    p,
                    "  peer_public_key fingerprint: ",
                    text.as_str(),
                ) {
                    let ghost t = line@;
                    lines.push(line);
                    assert(lines.deep_view() =~= seq![t]);
                }
            }
        },
        Role::Server => {
            let mut i: usize = 0;
            while i < config.peers.len()
                invariant
                    i <= config.peers@.len(),
                    lines.deep_view() == peer_prints(p@, config@.peers, i as nat),
                decreases config.peers@.len() - i,
            {
                let peer = &config.peers[i];
                assert(config@.peers[i as int] == peer@);
                if let Ok(key) = decode_public_key(peer.public_key.as_str()) {
                    let line = peer_print_line(p, peer, &key);
                    let ghost before = lines;
                    lines.push(line);
                    proof {
                        lemma_push_text(before, lines, line);
                    }
                }
                i = i + 1;
            }
        },
    }
    let ghost base = lines.deep_view();
    if let Some(text) = local {
        if let Some(line) = key_print_line(p, "  local identity fingerprint:  ", text) {
            let ghost before = lines;
            lines.push(line);
            proof {
                lemma_push_text(before, lines, line);
                assert(base.push(line@) =~= base + seq![line@]);
            }
            return lines;
        }
    }
    assert(base + Seq::<Seq<char>>::empty() =~= base);
    lines
}

// ---------------------------------------------------------------------
// Showing the status
// ---------------------------------------------------------------------

/// The first line of the status.
pub open spec fn status_head(p: PaletteModel, s: StatusModel) -> Seq<char> {
    "role: "@ + marked(p.purple, s.role) + "   uptime: "@ + marked(
        p.cyan,
        dec(s.uptime_secs as nat) + "s"@,
    ) + "   control channel: "@ + (if s.control_connected {
        marked(p.green, "connected"@)
    } else {
        marked(p.red, "disconnected"@)
    })
}

/// The line about the peer, which is only there while it is connected.
pub open spec fn status_peer(s: StatusModel) -> Seq<Seq<char>> {
    match (s.control_peer_addr, s.control_connected_since_secs_ago) {
        (Some(addr), Some(since)) if s.control_connected => seq![
            "  peer: "@ + addr + "  (connected "@ + dec(since as nat) + "s ago)"@,
        ],
        _ => Seq::empty(),
    }
}

/// The names of the columns.
pub open spec fn column_names() -> Seq<char> {
    padded_right("link"@, 14) + " "@ + padded_right("mode"@, 9) + " "@ + padded_left("active"@, 7)
        + " "@ + padded_left("total"@, 7) + " "@ + padded_left("bytes-fwd"@, 12) + " "@ + padded_left(
        "bytes-back"@,
        12,
    )
}

/// The line about a link. Numbers are padded before they are coloured, so that the
/// columns stay aligned.
pub open spec fn status_link(p: PaletteModel, l: LinkSnapshotModel) -> Seq<char> {
    let active = padded_left(dec(l.stats.active_streams as nat), 7);
    padded_right(l.id, 14) + " "@ + marked(
        if l.mode == "forward"@ {
            p.cyan
        } else {
            p.pink
        },
        padded_right(l.mode, 9),
    ) + " "@ + (if l.stats.active_streams > 0 {
        marked(p.green, active)
    } else {
        active
    }) + " "@ + padded_left(dec(l.stats.total_streams as nat), 7) + " "@ + marked(
        p.orange,
        padded_left(dec(l.stats.bytes_forward as nat), 12),
    ) + " "@ + marked(p.orange, padded_left(dec(l.stats.bytes_back as nat), 12))
}

/// All lines of the status.
pub open spec fn status_texts(p: PaletteModel, s: StatusModel) -> Seq<Seq<char>> {
    seq![status_head(p, s)] + status_peer(s) + seq![""@, marked(p.cyan, column_names())] + (
    if s.links.len() == 0 {
        seq!["(no links configured)"@]
    } else {
        Seq::empty()
    }) + s.links.map_values(|l: LinkSnapshotModel| status_link(p, l))
}

fn status_head_line(p: &Palette, s: &StatusSnapshot) -> (line: String)
    ensures
        line@ == status_head(p@, s@),
{
    let mut uptime = dec_text(s.uptime_secs);
    uptime.push_str("s");
    let mut line = "role: ".to_string();
    push_marked(&mut line, p.purple.as_str(), s.role.as_str());
    line.push_str("   uptime: ");
    push_marked(&mut line, p.cyan.as_str(), uptime.as_str());
    line.push_str("   control channel: ");
    if s.control_connected {
        push_marked(&mut line, p.green.as_str(), "connected");
    } else {
        push_marked(&mut line, p.red.as_str(), "disconnected");
    }
    line
}

fn column_line(p: &Palette) -> (line: String)
    ensures
        line@ == marked(p@.cyan, column_names()),
{
    let mut names = pad_right("link", 14);
    names.push_str(" ");
    let c = pad_right("mode", 9);
    names.push_str(c.as_str());
    names.push_str(" ");
    let c = pad_left("active", 7);
    names.push_str(c.as_str());
    names.push_str(" ");
    let c = pad_left("total", 7);
    names.push_str(c.as_str());
    names.push_str(" ");
    let c = pad_left("bytes-fwd", 12);
    names.push_str(c.as_str());
    names.push_str(" ");
    let c = pad_left("bytes-back", 12);
    names.push_str(c.as_str());
    let mut line = String::new();
    push_marked(&mut line, p.cyan.as_str(), names.as_str());
    assert(line@ =~= marked(p@.cyan, column_names()));
    line
}

fn status_link_line(p: &Palette, l: &LinkSnapshot) -> (line: String)
    ensures
        line@ == status_link(p@, l@),
{
    let active = pad_left(dec_text(l.active_streams).as_str(), 7);
    let total = pad_left(dec_text(l.total_streams).as_str(), 7);
    let forward = pad_left(dec_text(l.bytes_forward).as_str(), 12);
    let back = pad_left(dec_text(l.bytes_back).as_str(), 12);
    let mode = pad_right(l.mode.as_str(), 9);
    let mut line = pad_right(l.id.as_str(), 14);
    line.push_str(" ");
    if str_eq(l.mode.as_str(), "forward") {
        push_marked(&mut line, p.cyan.as_str(), mode.as_str());
    } else {
        push_marked(&mut line, p.pink.as_str(), mode.as_str());
    }
    line.push_str(" ");
    if l.active_streams > 0 {
        push_marked(&mut line, p.green.as_str(), active.as_str());
    } else {
        line.push_str(active.as_str());
    }
    line.push_str(" ");
    line.push_str(total.as_str());
    line.push_str(" ");
    push_marked(&mut line, p.orange.as_str(), forward.as_str());
    line.push_str(" ");
    push_marked(&mut line, p.orange.as_str(), back.as_str());
    line
}

fn push_line(lines: &mut Vec<String>, line: String)
    ensures
        final(lines).deep_view() == old(lines).deep_view() + seq![line@],
{
    let ghost before = *lines;
    lines.push(line);
    proof {
        lemma_push_text(before, *lines, line);
        assert(before.deep_view().push(line@) =~= before.deep_view() + seq![line@]);
    }
}

/// All lines of the status.
pub fn status_lines(p: &Palette, s: &StatusSnapshot) -> (lines: Vec<String>)
    ensures
        lines.deep_view() == status_texts(p@, s@),
{
    let ghost f = |l: LinkSnapshotModel| status_link(p@, l);
    let ghost models = snapshot_models(s.links@);
    let mut lines: Vec<String> = Vec::new();
    assert(lines.deep_view() =~= Seq::<Seq<char>>::empty());
    push_line(&mut lines, status_head_line(p, s));
    if s.control_connected {
        if let (Some(addr), Some(since)) = (
            &s.control_peer_addr,
            s.control_connected_since_secs_ago,
        ) {
            let mut line = "  peer: ".to_string();
            line.push_str(addr.as_str());
            line.push_str("  (connected ");
            push_dec(&mut line, since);
            line.push_str("s ago)");
            push_line(&mut lines, line);
        }
    }
    assert(lines.deep_view() =~= seq![status_head(p@, s@)] + status_peer(s@));
    push_line(&mut lines, "".to_string());
    push_line(&mut lines, column_line(p));
    if s.links.len() == 0 {
        push_line(&mut lines, "(no links configured)".to_string());
    }
    let ghost base = seq![status_head(p@, s@)] + status_peer(s@) + seq![
        ""@,
        marked(p@.cyan, column_names()),
    ] + (if s@.links.len() == 0 {
        seq!["(no links configured)"@]
    } else {
        Seq::empty()
    });
    assert(lines.deep_view() =~= base);
    let mut i: usize = 0;
    assert(base + models.take(0).map_values(f) =~= base);
    while i < s.links.len()
        invariant
            i <= s.links@.len(),
            models == snapshot_models(s.links@),
            f == (|l: LinkSnapshotModel| status_link(p@, l)),
            lines.deep_view() == base + models.take(i as int).map_values(f),
        decreases s.links@.len() - i,
    {
        let line = status_link_line(p, &s.links[i]);
        let ghost t = line@;
        push_line(&mut lines, line);
        proof {
            assert(models.take(i + 1).map_values(f) =~= models.take(i as int).map_values(f).push(t));
            assert(lines.deep_view() =~= base + models.take(i + 1).map_values(f));
        }
        i = i + 1;
    }
    assert(models.take(i as int) =~= models);
    lines
}

// ---------------------------------------------------------------------
// Starting the daemon
// ---------------------------------------------------------------------

/// What is printed where a daemon is not started because of its configuration.
pub open spec fn refusal_texts(path: Seq<char>, errors: Seq<Seq<char>>) -> Seq<Seq<char>> {
    seq![
        "ghostport: refusing to start — "@ + path + " has "@ + dec(errors.len())
            + " problem(s):"@,
    ] + errors.map_values(|e: Seq<char>| "  - "@ + e) + seq![
        "(run `ghostport check "@ + path + "` for details)"@,
    ]
}

fn refusal_lines(path: &str, errors: &Vec<String>) -> (lines: Vec<String>)
    ensures
        lines.deep_view() == refusal_texts(path@, errors.deep_view()),
{
    let ghost models = errors.deep_view();
    let ghost f = |e: Seq<char>| "  - "@ + e;
    let mut first = "ghostport: refusing to start — ".to_string();
    first.push_str(path);
    first.push_str(" has ");
    push_dec(&mut first, errors.len() as u64);
    first.push_str(" problem(s):");
    let ghost head = first@;
    let mut lines: Vec<String> = Vec::new();
    lines.push(first);
    let mut i: usize = 0;
    assert(lines.deep_view() =~= seq![head] + models.take(0).map_values(f));
    while i < errors.len()
        invariant
            i <= errors@.len(),
            models == errors.deep_view(),
            f == (|e: Seq<char>| "  - "@ + e),
            lines.deep_view() == seq![head] + models.take(i as int).map_values(f),
        decreases errors@.len() - i,
    {
        let mut line = "  - ".to_string();
        line.push_str(errors[i].as_str());
        let ghost t = line@;
        push_line(&mut lines, line);
        proof {
            assert(models[i as int] == errors@[i as int]@);
            assert(models.take(i + 1).map_values(f) =~= models.take(i as int).map_values(f).push(t));
            assert(lines.deep_view() =~= seq![head] + models.take(i + 1).map_values(f));
        }
        i = i + 1;
    }
    assert(models.take(i as int) =~= models);
    let mut last = "(run `ghostport check ".to_string();
    last.push_str(path);
    last.push_str("` for details)");
    push_line(&mut lines, last);
    lines
}

/// Lets a daemon start with the configuration at `path` only where nothing is wrong
/// with it; otherwise the lines say what is.
pub fn check_before_start(path: &str, config: &Config) -> (r: Result<(), Vec<String>>)
    ensures
        ({
            let errors = config_errors(
                config@,
                client_key_ok(config@),
                decoded_peer_keys(config@),
            );
            match r {
                Ok(_) => errors.len() == 0,
                Err(lines) => errors.len() > 0 && lines.deep_view() == refusal_texts(
                    path@,
                    errors,
                ),
            }
        }),
{
    let errors = config.validate();
    assert(errors.deep_view().len() == errors@.len());
    if errors.len() > 0 {
        return Err(refusal_lines(path, &errors));
    }
    Ok(())
}

/// Who a daemon talks to.
pub enum Partners {
    /// The clients that a server accepts.
    Clients(Vec<ResolvedPeer>),
    /// The public key of the server that a client dials.
    Server(Vec<u8>),
}

/// What a `ResolvedPeer` says.
#[verifier::ext_equal]
pub struct ResolvedModel {
    pub name: Seq<char>,
    pub public_key: Seq<u8>,
    pub links: Set<Seq<char>>,
}

/// Who a daemon talks to, by what it says.
#[verifier::ext_equal]
pub enum PartnersModel {
    Clients(Seq<ResolvedModel>),
    Server(Seq<u8>),
}

/// What a `ResolvedPeer` says.
pub open spec fn resolved_model(p: ResolvedPeer) -> ResolvedModel {
    ResolvedModel { name: p.name@, public_key: p.public_key@, links: p.links@ }
}

/// What resolved peers say.
pub open spec fn resolved_models(peers: Seq<ResolvedPeer>) -> Seq<ResolvedModel> {
    peers.map_values(|p: ResolvedPeer| resolved_model(p))
}

impl View for Partners {
    type V = PartnersModel;

    open spec fn view(&self) -> PartnersModel {
        match self {
            Partners::Clients(peers) => PartnersModel::Clients(resolved_models(peers@)),
            Partners::Server(key) => PartnersModel::Server(key@),
        }
    }
}

/// A peer with its key decoded.
pub open spec fn resolved(peer: PeerModel, key: Seq<u8>) -> ResolvedModel {
    ResolvedModel {
        name: peer.name,
        public_key: key,
        links: Set::new(|id: Seq<char>| peer.links.contains(id)),
    }
}

/// Puts a peer together with its decoded key.
pub fn resolve_peer(peer: &PeerConfig, key: Vec<u8>) -> (r: ResolvedPeer)
    ensures
        resolved_model(r) == resolved(peer@, key@),
{
    let ghost ids = peer.links.deep_view();
    let mut links = StringHashSet::new();
    let mut i: usize = 0;
    while i < peer.links.len()
        invariant
            i <= peer.links@.len(),
            ids == peer.links.deep_view(),
            forall|x: Seq<char>| #[trigger]
                links@.contains(x) <==> exists|j: int| 0 <= j < i && #[trigger] ids[j] == x,
        decreases peer.links@.len() - i,
    {
        let ghost before = links@;
        links.insert(peer.links[i].clone());
        proof {
            assert(ids[i as int] == peer.links@[i as int]@);
            assert forall|x: Seq<char>| #[trigger] links@.contains(x) <==> exists|j: int|
                0 <= j < i + 1 && #[trigger] ids[j] == x by {
                if before.contains(x) {
                } else if x == peer.links@[i as int]@ {
                    assert(ids[i as int] == x);
                }
            }
        }
        i = i + 1;
    }
    proof {
        assert(links@ =~= Set::new(|id: Seq<char>| ids.contains(id))) by {
            assert forall|x: Seq<char>| links@.contains(x) <==> ids.contains(x) by {
                if ids.contains(x) {
                    let j = choose|j: int| 0 <= j < ids.len() && ids[j] == x;
                    assert(ids[j] == x);
                }
            }
        }
    }
    ResolvedPeer { name: peer.name.clone(), public_key: key, links }
}

/// The first `n` peers with their keys decoded, or what is wrong with the first one
/// whose key is none.
pub open spec fn resolved_peers(peers: Seq<PeerModel>, n: nat) -> Result<
    Seq<ResolvedModel>,
    Seq<char>,
>
    decreases n,
{
    if n == 0 {
        Ok(Seq::empty())
    } else {
        match resolved_peers(peers, (n - 1) as nat) {
            Ok(list) => match decoded_key(peers[n - 1].public_key) {
                Ok(key) => Ok(list.push(resolved(peers[n - 1], key))),
                Err(e) => Err("ghostport: peer \""@ + peers[n - 1].name + "\": "@ + e),
            },
            Err(e) => Err(e),
        }
    }
}

/// Who a daemon with this configuration talks to, or what is wrong with the keys.
pub open spec fn partners_of(c: ConfigModel) -> Result<PartnersModel, Seq<char>> {
    match c.role {
        Role::Server => match resolved_peers(c.peers, c.peers.len()) {
            Ok(list) => Ok(PartnersModel::Clients(list)),
            Err(e) => Err(e),
        },
        Role::Client => match decoded_key(c.peer_public_key->0) {
            Ok(key) => Ok(PartnersModel::Server(key)),
            Err(e) => Err("ghostport: peer_public_key: "@ + e),
        },
    }
}

/// What `find_partners` gives, by what it says.
pub open spec fn partners_result(r: Result<Partners, String>) -> Result<PartnersModel, Seq<char>> {
    match r {
        Ok(p) => Ok(p@),
        Err(e) => Err(e@),
    }
}

/// Decodes the keys of those that a daemon with this configuration talks to.
pub fn find_partners(config: &Config) -> (r: Result<Partners, String>)
    requires
        config.role is Client ==> config.peer_public_key is Some,
    ensures
        partners_result(r) == partners_of(config@),
{
    match config.role {
        Role::Server => {
            let ghost models = config@.peers;
            let mut list: Vec<ResolvedPeer> = Vec::new();
            let mut i: usize = 0;
            assert(resolved_models(list@) =~= Seq::<ResolvedModel>::empty());
            while i < config.peers.len()
                invariant
                    i <= config.peers@.len(),
                    config.role is Server,
                    models == peer_models(config.peers@),
                    models == config@.peers,
                    resolved_peers(models, i as nat) == Ok::<Seq<ResolvedModel>, Seq<char>>(
                        resolved_models(list@),
                    ),
                decreases config.peers@.len() - i,
            {
                let peer = &config.peers[i];
                assert(models[i as int] == peer@);
                match decode_public_key(peer.public_key.as_str()) {
                    Ok(key) => {
                        let ghost before = resolved_models(list@);
                        let r = resolve_peer(peer, key);
                        let ghost m = resolved_model(r);
                        list.push(r);
                        assert(resolved_models(list@) =~= before.push(m));
                    },
                    Err(e) => {
                        let mut m = "ghostport: peer \"".to_string();
                        m.push_str(peer.name.as_str());
                        m.push_str("\": ");
                        m.push_str(e.as_str());
                        proof {
                            lemma_first_bad_peer(models, (i + 1) as nat, models.len(), m@);
                        }
                        return Err(m);
                    },
                }
                i = i + 1;
            }
            Ok(Partners::Clients(list))
        },
        Role::Client => {
            if let Some(text) = &config.peer_public_key {
                return match decode_public_key(text.as_str()) {
                    Ok(key) => Ok(Partners::Server(key)),
                    Err(e) => {
                        let mut m = "ghostport: peer_public_key: ".to_string();
                        m.push_str(e.as_str());
                        Err(m)
                    },
                };
            }
            Err(String::new())
        },
    }
}

/// What is wrong with some of the peers is what is wrong with all of them.
proof fn lemma_first_bad_peer(peers: Seq<PeerModel>, n: nat, m: nat, e: Seq<char>)
    requires
        n <= m,
        resolved_peers(peers, n) == Err::<Seq<ResolvedModel>, Seq<char>>(e),
    ensures
        resolved_peers(peers, m) == Err::<Seq<ResolvedModel>, Seq<char>>(e),
    decreases m - n,
{
    if n < m {
        lemma_first_bad_peer(peers, n, (m - 1) as nat, e);
    }
}

/// A daemon whose configuration passed the check finds the keys of all those that
/// it talks to.
pub proof fn law_valid_config_has_partners(c: ConfigModel)
    requires
        config_errors(c, client_key_ok(c), decoded_peer_keys(c)).len() == 0,
    ensures
        partners_of(c) is Ok,
        c.role is Server ==> partners_of(c)->Ok_0 is Clients,
        c.role is Client ==> partners_of(c)->Ok_0 is Server,
{
    law_valid_exactly_without_errors(c, client_key_ok(c), decoded_peer_keys(c));
    if c.role is Server {
        lemma_all_peers_resolve(c, c.peers.len());
    }
}

proof fn lemma_all_peers_resolve(c: ConfigModel, n: nat)
    requires
        c.role is Server,
        crate::config::is_valid_config(c, client_key_ok(c), decoded_peer_keys(c)),
        n <= c.peers.len(),
    ensures
        resolved_peers(c.peers, n) is Ok,
    decreases n,
{
    if n > 0 {
        lemma_all_peers_resolve(c, (n - 1) as nat);
        assert(crate::config::is_valid_peer(c, decoded_peer_keys(c), n - 1));
        assert(decoded_peer_keys(c)[n - 1] == key_of(c.peers[n - 1].public_key));
    }
}

/// A server knows each of its peers by the name, the key and the links that are
/// configured for that peer, one for one and in order.
pub proof fn law_each_peer_keeps_its_own_links(c: ConfigModel)
    requires
        c.role is Server,
        forall|i: int| 0 <= i < c.peers.len() ==> decoded_key((#[trigger] c.peers[i]).public_key) is Ok,
    ensures
        partners_of(c) matches Ok(PartnersModel::Clients(list)) && {
            &&& list.len() == c.peers.len()
            &&& forall|i: int|
                0 <= i < list.len() ==> {
                    &&& (#[trigger] list[i]).name == c.peers[i].name
                    &&& Ok::<Seq<u8>, Seq<char>>(list[i].public_key) == decoded_key(
                        c.peers[i].public_key,
                    )
                    &&& forall|id: Seq<char>| #[trigger]
                        list[i].links.contains(id) <==> c.peers[i].links.contains(id)
                }
        },
{
    lemma_peers_one_for_one(c.peers, c.peers.len());
}

proof fn lemma_peers_one_for_one(peers: Seq<PeerModel>, n: nat)
    requires
        n <= peers.len(),
        forall|i: int| 0 <= i < peers.len() ==> decoded_key((#[trigger] peers[i]).public_key) is Ok,
    ensures
        resolved_peers(peers, n) matches Ok(list) && {
            &&& list.len() == n
            &&& forall|i: int|
                0 <= i < n ==> {
                    &&& (#[trigger] list[i]).name == peers[i].name
                    &&& Ok::<Seq<u8>, Seq<char>>(list[i].public_key) == decoded_key(
                        peers[i].public_key,
                    )
                    &&& forall|id: Seq<char>| #[trigger]
                        list[i].links.contains(id) <==> peers[i].links.contains(id)
                }
        },
    decreases n,
{
    if n > 0 {
        lemma_peers_one_for_one(peers, (n - 1) as nat);
        assert(decoded_key(peers[n - 1].public_key) is Ok);
        let before = resolved_peers(peers, (n - 1) as nat)->Ok_0;
        let list = resolved_peers(peers, n)->Ok_0;
        assert(forall|i: int| 0 <= i < n - 1 ==> list[i] == #[trigger] before[i]);
    }
}

/// The first peer whose key does not decode is the one that is complained of, by its
/// name; a client complains of its only key.
pub proof fn law_first_bad_key_is_named(c: ConfigModel, k: int)
    requires
        match c.role {
            Role::Server => {
                &&& 0 <= k < c.peers.len()
                &&& decoded_key(c.peers[k].public_key) is Err
                &&& forall|i: int|
                    0 <= i < k ==> decoded_key((#[trigger] c.peers[i]).public_key) is Ok
            },
            Role::Client => decoded_key(c.peer_public_key->0) is Err,
        },
    ensures
        partners_of(c) == Err::<PartnersModel, Seq<char>>(
            match c.role {
                Role::Server => "ghostport: peer \""@ + c.peers[k].name + "\": "@ + decoded_key(
                    c.peers[k].public_key,
                )->Err_0,
                Role::Client => "ghostport: peer_public_key: "@ + decoded_key(
                    c.peer_public_key->0,
                )->Err_0,
            },
        ),
{
    if c.role is Server {
        lemma_peers_up_to(c.peers, k as nat);
        let e = "ghostport: peer \""@ + c.peers[k].name + "\": "@ + decoded_key(
            c.peers[k].public_key,
        )->Err_0;
        assert(resolved_peers(c.peers, (k + 1) as nat) == Err::<Seq<ResolvedModel>, Seq<char>>(e));
        lemma_first_bad_peer(c.peers, (k + 1) as nat, c.peers.len(), e);
    }
}

proof fn lemma_peers_up_to(peers: Seq<PeerModel>, n: nat)
    requires
        n <= peers.len(),
        forall|i: int| 0 <= i < n ==> decoded_key((#[trigger] peers[i]).public_key) is Ok,
    ensures
        resolved_peers(peers, n) is Ok,
    decreases n,
{
    if n > 0 {
        lemma_peers_up_to(peers, (n - 1) as nat);
        assert(decoded_key(peers[n - 1].public_key) is Ok);
    }
}

/// A client talks to the server whose key is configured.
pub proof fn law_client_talks_to_its_server(c: ConfigModel)
    requires
        c.role is Client,
        decoded_key(c.peer_public_key->0) is Ok,
    ensures
        partners_of(c) == Ok::<PartnersModel, Seq<char>>(
            PartnersModel::Server(decoded_key(c.peer_public_key->0)->Ok_0),
        ),
{
}

/// A path that starts with `~/` lies in the home directory, or in the root where none
/// is known; any other path stays as it is.
pub proof fn law_tilde_is_the_home_directory(rest: Seq<char>, path: Seq<char>, home: Seq<char>)
    ensures
        expanded(seq!['~', '/'] + rest, Some(home)) == path_joined(home, rest),
        expanded(seq!['~', '/'] + rest, None) == path_joined("/"@, rest),
        !(path.len() >= 2 && path[0] == '~' && path[1] == '/') ==> expanded(path, Some(home)) == path
            && expanded(path, None) == path,
{
    assert((seq!['~', '/'] + rest).skip(2) =~= rest);
}

/// What is printed about a fresh key names both files, the public key and its
/// fingerprint, each in its own line.
pub proof fn law_keygen_lines_tell_the_key(
    p: PaletteModel,
    path: Seq<char>,
    pub_path: Seq<char>,
    key: Seq<char>,
    print: Seq<char>,
)
    ensures
        ({
            let lines = keygen_texts(p, path, pub_path, key, print);
            &&& lines.len() == 9
            &&& lines[0] == "Private key saved to "@ + (p.cyan + path + "\x1b[0m"@) + " (0600)"@
            &&& lines[1] == "Public key saved to  "@ + (p.cyan + pub_path + "\x1b[0m"@)
            &&& lines[4] == "  "@ + ("\x1b[1m"@ + p.green + key + "\x1b[0m"@)
            &&& lines[8] == "  "@ + (p.cyan + print + "\x1b[0m"@)
        }),
{
}

/// What is printed about a configuration that passed names its path, its role and how
/// many links it has.
pub proof fn law_valid_line_tells_the_config(p: PaletteModel, path: Seq<char>, c: ConfigModel)
    ensures
        valid_text(p, path, c) == "ghostport: "@ + path + " is "@ + (p.green + "valid"@ + "\x1b[0m"@)
            + " ("@ + (if c.role is Server {
            "Server"@
        } else {
            "Client"@
        }) + " role, "@ + dec(c.links.len()) + " link"@ + (if c.links.len() == 1 {
            ""@
        } else {
            "s"@
        }) + ")"@,
{
}

/// Every problem gets a line of its own, in order, behind a first line that counts
/// them; so it is when a configuration is checked and when a start is refused.
pub proof fn law_every_problem_gets_a_line(p: PaletteModel, path: Seq<char>, errors: Seq<Seq<char>>)
    ensures
        invalid_texts(p, path, errors).len() == errors.len() + 1,
        invalid_texts(p, path, errors)[0] == "ghostport: "@ + path + " has "@ + dec(errors.len())
            + " "@ + (p.red + (if errors.len() == 1 {
            "problem"@
        } else {
            "problems"@
        }) + "\x1b[0m"@) + ":"@,
        forall|i: int|
            0 <= i < errors.len() ==> #[trigger] invalid_texts(p, path, errors)[i + 1] == "  - "@ + (
            p.orange + errors[i] + "\x1b[0m"@),
        refusal_texts(path, errors).len() == errors.len() + 2,
        refusal_texts(path, errors)[0] == "ghostport: refusing to start — "@ + path + " has "@ + dec(
            errors.len(),
        ) + " problem(s):"@,
        forall|i: int|
            0 <= i < errors.len() ==> #[trigger] refusal_texts(path, errors)[i + 1] == "  - "@
                + errors[i],
        refusal_texts(path, errors).last() == "(run `ghostport check "@ + path + "` for details)"@,
{
}

/// Every peer whose key decodes is shown with its own name, the fingerprint of its own
/// key and its own links, in order.
pub proof fn law_each_peer_is_shown_with_its_own_key(p: PaletteModel, peers: Seq<PeerModel>, n: nat)
    requires
        n <= peers.len(),
        forall|i: int| 0 <= i < n ==> decoded_key((#[trigger] peers[i]).public_key) is Ok,
    ensures
        peer_prints(p, peers, n).len() == n,
        forall|i: int|
            0 <= i < n ==> #[trigger] peer_prints(p, peers, n)[i] == "  peer \""@ + peers[i].name
                + "\" fingerprint: "@ + (p.cyan + colon_hex_text(
                sha256(decoded_key(peers[i].public_key)->Ok_0),
            ) + "\x1b[0m"@) + " (links: "@ + joined(peers[i].links, ", "@) + ")"@,
    decreases n,
{
    if n > 0 {
        law_each_peer_is_shown_with_its_own_key(p, peers, (n - 1) as nat);
        let before = peer_prints(p, peers, (n - 1) as nat);
        assert(decoded_key(peers[n - 1].public_key) is Ok);
        assert(forall|i: int| 0 <= i < n - 1 ==> peer_prints(p, peers, n)[i] == #[trigger] before[i]);
    }
}

/// The fingerprints that are shown: of a client's server or of a server's peers, and
/// behind them the one of the instance itself where its key could be read.
pub proof fn law_fingerprints_that_are_shown(p: PaletteModel, c: ConfigModel, local: Option<Seq<char>>)
    ensures
        ({
            let own = local is Some && decoded_key(local->0) is Ok;
            let shown = print_texts(p, c, local);
            let others = if own {
                shown.drop_last()
            } else {
                shown
            };
            &&& own ==> shown.len() > 0 && shown.last() == "  local identity fingerprint:  "@ + (p.cyan
                + colon_hex_text(sha256(decoded_key(local->0)->Ok_0)) + "\x1b[0m"@)
            &&& c.role is Server ==> others == peer_prints(p, c.peers, c.peers.len())
            &&& c.role is Client && c.peer_public_key is Some && decoded_key(c.peer_public_key->0)
                is Ok ==> others == seq![
                "  peer_public_key fingerprint: "@ + (p.cyan + colon_hex_text(
                    sha256(decoded_key(c.peer_public_key->0)->Ok_0),
                ) + "\x1b[0m"@),
            ]
            &&& c.role is Client && !(c.peer_public_key is Some && decoded_key(
                c.peer_public_key->0,
            ) is Ok) ==> others.len() == 0
        }),
{
    let shown = print_texts(p, c, local);
    let first = match c.role {
        Role::Client => match c.peer_public_key {
            Some(text) => match key_of(text) {
                Some(key) => seq![
                    "  peer_public_key fingerprint: "@ + marked(p.cyan, colon_hex_text(sha256(key))),
                ],
                None => Seq::empty(),
            },
            None => Seq::empty(),
        },
        Role::Server => peer_prints(p, c.peers, c.peers.len()),
    };
    if local is Some && decoded_key(local->0) is Ok {
        assert(shown.drop_last() =~= first);
    } else {
        assert(shown =~= first);
    }
}

/// The status shows the links last, a line for each and in order: name, mode, active
/// and all streams, and the bytes that went forward before those that came back.
pub proof fn law_status_shows_each_link(p: PaletteModel, s: StatusModel, i: int)
    requires
        0 <= i < s.links.len(),
    ensures
        ({
            let lines = status_texts(p, s);
            let l = s.links[i];
            let active = padded_left(dec(l.stats.active_streams as nat), 7);
            &&& lines.len() >= s.links.len()
            &&& lines[lines.len() - s.links.len() + i] == padded_right(l.id, 14) + " "@ + ((
            if l.mode == "forward"@ {
                p.cyan
            } else {
                p.pink
            }) + padded_right(l.mode, 9) + "\x1b[0m"@) + " "@ + (if l.stats.active_streams > 0 {
                p.green + active + "\x1b[0m"@
            } else {
                active
            }) + " "@ + padded_left(dec(l.stats.total_streams as nat), 7) + " "@ + (p.orange
                + padded_left(dec(l.stats.bytes_forward as nat), 12) + "\x1b[0m"@) + " "@ + (p.orange
                + padded_left(dec(l.stats.bytes_back as nat), 12) + "\x1b[0m"@)
        }),
{
    let f = |l: LinkSnapshotModel| status_link(p, l);
    let lines = status_texts(p, s);
    let head = seq![status_head(p, s)] + status_peer(s) + seq![""@, marked(p.cyan, column_names())]
        + (if s.links.len() == 0 {
        seq!["(no links configured)"@]
    } else {
        Seq::empty()
    });
    assert(lines == head + s.links.map_values(f));
    assert(lines[lines.len() - s.links.len() + i] == f(s.links[i]));
}

/// The status begins with the role, the uptime and whether the control connection is
/// up; while it is, the next line says with whom and for how long.
pub proof fn law_status_begins_with_the_daemon(p: PaletteModel, s: StatusModel)
    ensures
        ({
            let lines = status_texts(p, s);
            let met = s.control_connected && s.control_peer_addr is Some
                && s.control_connected_since_secs_ago is Some;
            &&& lines[0] == "role: "@ + (p.purple + s.role + "\x1b[0m"@) + "   uptime: "@ + (p.cyan + (
            dec(s.uptime_secs as nat) + "s"@) + "\x1b[0m"@) + "   control channel: "@ + (
            if s.control_connected {
                p.green + "connected"@ + "\x1b[0m"@
            } else {
                p.red + "disconnected"@ + "\x1b[0m"@
            })
            &&& met ==> lines[1] == "  peer: "@ + s.control_peer_addr->0 + "  (connected "@ + dec(
                s.control_connected_since_secs_ago->0 as nat,
            ) + "s ago)"@
            &&& lines.len() == 3 + (if met {
                1int
            } else {
                0
            }) + (if s.links.len() == 0 {
                1int
            } else {
                s.links.len() as int
            })
        }),
{
}

/// The model of those that a daemon talks to has their names, keys and links, one for
/// one and in order.
pub proof fn law_model_has_what_the_partners_have(peers: Vec<ResolvedPeer>, key: Vec<u8>, i: int)
    ensures
        Partners::Server(key)@ == PartnersModel::Server(key@),
        Partners::Clients(peers)@ matches PartnersModel::Clients(list) && list.len() == peers@.len()
            && (0 <= i < peers@.len() ==> list[i].name == peers@[i].name@ && list[i].public_key
            == peers@[i].public_key@ && list[i].links == peers@[i].links@),
{
}

/// What a search for partners gives is told as it is.
pub proof fn law_result_is_told_as_it_is(p: Partners, e: String, t: &str)
    ensures
        partners_result(Ok(p)) == Ok::<PartnersModel, Seq<char>>(p@),
        partners_result(Err(e)) == Err::<PartnersModel, Seq<char>>(e@),
        text_of(Some(t)) == Some(t@),
        text_of(None) is None,
{
}

/// Files of an instance lie in the home directory, or in the root where none is known.
pub proof fn law_home_or_root(home: Seq<char>)
    ensures
        home_or_root(Some(home)) == home,
        home_or_root(None) == "/"@,
{
}

/// Between the daemon and its links the status has an empty line and the names of the
/// columns, each as wide as what stands below it.
pub proof fn law_status_names_the_columns(p: PaletteModel, s: StatusModel)
    ensures
        ({
            let lines = status_texts(p, s);
            let k = if s.control_connected && s.control_peer_addr is Some
                && s.control_connected_since_secs_ago is Some {
                2int
            } else {
                1
            };
            &&& lines[k] == ""@
            &&& lines[k + 1] == p.cyan + (padded_right("link"@, 14) + " "@ + padded_right("mode"@, 9)
                + " "@ + padded_left("active"@, 7) + " "@ + padded_left("total"@, 7) + " "@
                + padded_left("bytes-fwd"@, 12) + " "@ + padded_left("bytes-back"@, 12))
                + "\x1b[0m"@
            &&& s.links.len() == 0 ==> lines[k + 2] == "(no links configured)"@
        }),
{
}

} // verus!
