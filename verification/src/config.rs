//! The configuration and its validation. A configuration that does not pass is
//! refused before anything is started or written with it.

use crate::keys::{decode_public_key, decoded_key};
use crate::net::{is_socket_addr, parses_as_socket_addr};
use crate::text::{chars_of, lemma_push_text};
use vstd::hash_set::StringHashSet;
use vstd::prelude::*;

verus! {

/// Which side of the tunnel this machine is.
#[derive(Debug, Clone, Copy, PartialEq, Eq, Structural)]
pub enum Role {
    /// Always reachable, accepts every connection.
    Server,
    /// Only ever dials out.
    Client,
}

/// Which way a link carries connections.
#[derive(Debug, Clone, Copy, PartialEq, Eq, Structural)]
pub enum LinkMode {
    /// A service near the server is exposed on a port that the client listens on
    /// locally, like `ssh -L`.
    Forward,
    /// A service near the client is exposed on a port that the server listens
    /// on, like `ssh -R`.
    Reverse,
}

/// A client identity that a server accepts, restricted to some of its links.
#[derive(Debug, Clone)]
pub struct PeerConfig {
    /// The peer's name.
    pub name: String,
    /// The peer's public key, in base64.
    pub public_key: String,
    /// The links that the peer may use.
    pub links: Vec<String>,
}

/// One forwarded port.
#[derive(Debug, Clone)]
pub struct LinkConfig {
    /// The name that both sides know the link by.
    pub id: String,
    /// Which way the link carries connections.
    pub mode: LinkMode,
    /// Present on whichever side accepts the real connections.
    pub listen: Option<String>,
    /// Present on whichever side dials the real destination.
    pub target: Option<String>,
}

/// The whole configuration of one instance.
#[derive(Debug, Clone)]
pub struct Config {
    /// Which side this instance is.
    pub role: Role,
    /// Where the private key is stored.
    pub private_key_path: String,
    /// Client role: the one server that this client trusts.
    pub peer_public_key: Option<String>,
    /// Server role: every client identity that this server accepts.
    pub peers: Vec<PeerConfig>,
    /// Server role: where the control channel is accepted.
    pub listen_control: Option<String>,
    /// Server role: where data connections are accepted.
    pub listen_data: Option<String>,
    /// Client role: where the control channel is dialed.
    pub server_control_addr: Option<String>,
    /// Client role: where data connections are dialed.
    pub server_data_addr: Option<String>,
    /// The forwarded ports.
    pub links: Vec<LinkConfig>,
}

// ---------------------------------------------------------------------
// The model
// ---------------------------------------------------------------------

/// What a `PeerConfig` says.
#[verifier::ext_equal]
pub struct PeerModel {
    pub name: Seq<char>,
    pub public_key: Seq<char>,
    pub links: Seq<Seq<char>>,
}

/// What a `LinkConfig` says.
#[verifier::ext_equal]
pub struct LinkModel {
    pub id: Seq<char>,
    pub mode: LinkMode,
    pub listen: Option<Seq<char>>,
    pub target: Option<Seq<char>>,
}

/// What a `Config` says.
#[verifier::ext_equal]
pub struct ConfigModel {
    pub role: Role,
    pub private_key_path: Seq<char>,
    pub peer_public_key: Option<Seq<char>>,
    pub peers: Seq<PeerModel>,
    pub listen_control: Option<Seq<char>>,
    pub listen_data: Option<Seq<char>>,
    pub server_control_addr: Option<Seq<char>>,
    pub server_data_addr: Option<Seq<char>>,
    pub links: Seq<LinkModel>,
}

impl View for PeerConfig {
    type V = PeerModel;

    open spec fn view(&self) -> PeerModel {
        PeerModel {
            name: self.name@,
            public_key: self.public_key@,
            links: self.links.deep_view(),
        }
    }
}

impl View for LinkConfig {
    type V = LinkModel;

    open spec fn view(&self) -> LinkModel {
        LinkModel {
            id: self.id@,
            mode: self.mode,
            listen: self.listen.deep_view(),
            target: self.target.deep_view(),
        }
    }
}

/// What the links of a configuration say.
pub open spec fn link_models(links: Seq<LinkConfig>) -> Seq<LinkModel> {
    links.map_values(|l: LinkConfig| l@)
}

/// What the peers of a configuration say.
pub open spec fn peer_models(peers: Seq<PeerConfig>) -> Seq<PeerModel> {
    peers.map_values(|p: PeerConfig| p@)
}

impl View for Config {
    type V = ConfigModel;

    open spec fn view(&self) -> ConfigModel {
        ConfigModel {
            role: self.role,
            private_key_path: self.private_key_path@,
            peer_public_key: self.peer_public_key.deep_view(),
            peers: peer_models(self.peers@),
            listen_control: self.listen_control.deep_view(),
            listen_data: self.listen_data.deep_view(),
            server_control_addr: self.server_control_addr.deep_view(),
            server_data_addr: self.server_data_addr.deep_view(),
            links: link_models(self.links@),
        }
    }
}

// ---------------------------------------------------------------------
// The rules
// ---------------------------------------------------------------------

/// Whether a link of `mode` needs `listen` (and not `target`) on the side
/// `role`: the client accepts the connections of a forward link, the server
/// those of a reverse link.
pub open spec fn needs_listen(role: Role, mode: LinkMode) -> bool {
    (role is Client && mode is Forward) || (role is Server && mode is Reverse)
}

/// The name of a role in messages.
pub open spec fn role_name(role: Role) -> Seq<char> {
    match role {
        Role::Server => "Server"@,
        Role::Client => "Client"@,
    }
}

/// The name of a mode in messages.
pub open spec fn mode_name(mode: LinkMode) -> Seq<char> {
    match mode {
        LinkMode::Forward => "Forward"@,
        LinkMode::Reverse => "Reverse"@,
    }
}

/// The complaint about a field that is missing.
pub open spec fn missing_field(field: Seq<char>, value: Option<Seq<char>>, because: Seq<char>) -> Seq<
    Seq<char>,
> {
    if value is None {
        seq!["`"@ + field + "` is required when "@ + because]
    } else {
        Seq::empty()
    }
}

/// The complaint about a field that does not belong there.
pub open spec fn extra_field(field: Seq<char>, value: Option<Seq<char>>, because: Seq<char>) -> Seq<
    Seq<char>,
> {
    if value is Some {
        seq!["`"@ + field + "` must not be set when "@ + because]
    } else {
        Seq::empty()
    }
}

/// One complaint, if there is reason for it.
pub open spec fn complaint(reason: bool, message: Seq<char>) -> Seq<Seq<char>> {
    if reason {
        seq![message]
    } else {
        Seq::empty()
    }
}

/// What is wrong with the fields of a server.
pub open spec fn server_errors(c: ConfigModel) -> Seq<Seq<char>> {
    missing_field("listen_control"@, c.listen_control, "role = \"server\""@)
        + missing_field("listen_data"@, c.listen_data, "role = \"server\""@)
        + extra_field("server_control_addr"@, c.server_control_addr, "role = \"server\""@)
        + extra_field("server_data_addr"@, c.server_data_addr, "role = \"server\""@)
        + complaint(
        c.peer_public_key is Some,
        "`peer_public_key` must not be set when role = \"server\" (use `peers` instead)"@,
    ) + complaint(
        c.peers.len() == 0,
        "`peers` must have at least one entry when role = \"server\""@,
    )
}

/// What is wrong with the fields of a client; `key_ok` says whether
/// `peer_public_key` decodes to a key.
pub open spec fn client_errors(c: ConfigModel, key_ok: bool) -> Seq<Seq<char>> {
    missing_field("server_control_addr"@, c.server_control_addr, "role = \"client\""@)
        + missing_field("server_data_addr"@, c.server_data_addr, "role = \"client\""@)
        + extra_field("listen_control"@, c.listen_control, "role = \"client\""@)
        + extra_field("listen_data"@, c.listen_data, "role = \"client\""@)
        + complaint(
        c.peer_public_key is None,
        "`peer_public_key` is required when role = \"client\""@,
    ) + complaint(
        c.peer_public_key is Some && !key_ok,
        "peer_public_key is not a valid base64-encoded 32-byte key"@,
    ) + complaint(
        c.peers.len() > 0,
        "`peers` must not be set when role = \"client\" (use `peer_public_key` instead)"@,
    )
}

/// Whether a link of that name is defined.
pub open spec fn has_link(links: Seq<LinkModel>, id: Seq<char>) -> bool {
    exists|j: int| 0 <= j < links.len() && (#[trigger] links[j]).id == id
}

/// The complaints about the links that a peer may use and nobody defined.
pub open spec fn unknown_links(name: Seq<char>, ids: Seq<Seq<char>>, links: Seq<LinkModel>) -> Seq<
    Seq<char>,
>
    decreases ids.len(),
{
    if ids.len() == 0 {
        Seq::empty()
    } else {
        unknown_links(name, ids.drop_last(), links) + complaint(
            !has_link(links, ids.last()),
            "peer \""@ + name + "\": link id \""@ + ids.last()
                + "\" is not defined in this config's `links`"@,
        )
    }
}

/// Whether an earlier peer has the name of peer `i`.
pub open spec fn repeats_name(peers: Seq<PeerModel>, i: int) -> bool {
    exists|j: int| 0 <= j < i && (#[trigger] peers[j]).name == peers[i].name
}

/// Whether an earlier peer has the key of peer `i`.
pub open spec fn repeats_key(keys: Seq<Option<Seq<u8>>>, i: int) -> bool {
    exists|j: int| 0 <= j < i && #[trigger] keys[j] == keys[i]
}

/// What is wrong with peer `i`; `keys` holds what each peer's key decodes to.
pub open spec fn peer_errors(c: ConfigModel, keys: Seq<Option<Seq<u8>>>, i: int) -> Seq<Seq<char>> {
    let name = c.peers[i].name;
    complaint(repeats_name(c.peers, i), "peer \""@ + name + "\": duplicate name"@) + complaint(
        keys[i] is Some && repeats_key(keys, i),
        "peer \""@ + name + "\": public_key is already used by another peer"@,
    ) + complaint(
        keys[i] is None,
        "peer \""@ + name + "\": public_key is not a valid base64-encoded 32-byte key"@,
    ) + unknown_links(name, c.peers[i].links, c.links)
}

/// What is wrong with the first `n` peers.
pub open spec fn peers_errors(c: ConfigModel, keys: Seq<Option<Seq<u8>>>, n: nat) -> Seq<Seq<char>>
    decreases n,
{
    if n == 0 {
        Seq::empty()
    } else {
        peers_errors(c, keys, (n - 1) as nat) + peer_errors(c, keys, n - 1)
    }
}

/// The address that a link must have on the side `role`.
pub open spec fn required_addr(role: Role, link: LinkModel) -> Option<Seq<char>> {
    if needs_listen(role, link.mode) {
        link.listen
    } else {
        link.target
    }
}

/// The address that a link must not have on the side `role`.
pub open spec fn forbidden_addr(role: Role, link: LinkModel) -> Option<Seq<char>> {
    if needs_listen(role, link.mode) {
        link.target
    } else {
        link.listen
    }
}

/// The name of the field that a link must have on the side `role`.
pub open spec fn required_field(role: Role, mode: LinkMode) -> Seq<char> {
    if needs_listen(role, mode) {
        "listen"@
    } else {
        "target"@
    }
}

/// The name of the field that a link must not have on the side `role`.
pub open spec fn forbidden_field(role: Role, mode: LinkMode) -> Seq<char> {
    if needs_listen(role, mode) {
        "target"@
    } else {
        "listen"@
    }
}

/// The start of what is said about the fields of a link.
pub open spec fn link_on_side(role: Role, link: LinkModel) -> Seq<char> {
    "link \""@ + link.id + "\": "@ + mode_name(link.mode) + " on this side ("@ + role_name(role)
}

/// What is wrong with one link's own fields.
pub open spec fn link_errors(role: Role, link: LinkModel) -> Seq<Seq<char>> {
    let required = required_addr(role, link);
    complaint(
        required is None,
        link_on_side(role, link) + ") requires `"@ + required_field(role, link.mode) + "`"@,
    ) + complaint(
        forbidden_addr(role, link) is Some,
        link_on_side(role, link) + ") must not set `"@ + forbidden_field(role, link.mode)
            + "` (that belongs on the peer's config)"@,
    ) + complaint(
        required is Some && !is_socket_addr(required->0),
        "link \""@ + link.id + "\": `"@ + required_field(role, link.mode) + "` = \""@ + required->0
            + "\" is not a valid host:port address"@,
    )
}

/// Whether an earlier link has the name of link `i`.
pub open spec fn repeats_id(links: Seq<LinkModel>, i: int) -> bool {
    exists|j: int| 0 <= j < i && (#[trigger] links[j]).id == links[i].id
}

/// What is wrong with the first `n` links.
pub open spec fn links_errors(role: Role, links: Seq<LinkModel>, n: nat) -> Seq<Seq<char>>
    decreases n,
{
    if n == 0 {
        Seq::empty()
    } else {
        links_errors(role, links, (n - 1) as nat) + complaint(
            repeats_id(links, n - 1),
            "link \""@ + links[n - 1].id + "\": duplicate id"@,
        ) + link_errors(role, links[n - 1])
    }
}

/// Everything that is wrong with a configuration, in order. `key_ok` says
/// whether `peer_public_key` decodes to a key, and `keys` holds what the key of
/// each peer decodes to.
pub open spec fn config_errors(c: ConfigModel, key_ok: bool, keys: Seq<Option<Seq<u8>>>) -> Seq<
    Seq<char>,
> {
    (match c.role {
        Role::Server => server_errors(c) + peers_errors(c, keys, c.peers.len()),
        Role::Client => client_errors(c, key_ok),
    }) + links_errors(c.role, c.links, c.links.len())
}

/// The key that a text decodes to, if it does.
pub open spec fn key_of(text: Seq<char>) -> Option<Seq<u8>> {
    match decoded_key(text) {
        Ok(key) => Some(key),
        Err(_) => None,
    }
}

/// Whether the key of a client decodes.
pub open spec fn client_key_ok(c: ConfigModel) -> bool {
    c.peer_public_key is Some && key_of(c.peer_public_key->0) is Some
}

/// What the key of each peer decodes to.
pub open spec fn decoded_peer_keys(c: ConfigModel) -> Seq<Option<Seq<u8>>> {
    c.peers.map_values(|p: PeerModel| key_of(p.public_key))
}

/// What decoded keys say.
pub open spec fn key_models(keys: Seq<Option<Vec<u8>>>) -> Seq<Option<Seq<u8>>> {
    keys.map_values(|k: Option<Vec<u8>>| k.deep_view())
}

// ---------------------------------------------------------------------
// The checks
// ---------------------------------------------------------------------

/// Adds the complaint about a missing field.
pub fn require_present(errors: &mut Vec<String>, field: &str, value: &Option<String>, because: &str)
    ensures
        final(errors).deep_view() == old(errors).deep_view() + missing_field(
            field@,
            value.deep_view(),
            because@,
        ),
{
    if value.is_none() {
        let mut m = "`".to_string();
        m.push_str(field);
        m.push_str("` is required when ");
        m.push_str(because);
        push_error(errors, m);
    } else {
        assert(errors.deep_view() =~= old(errors).deep_view() + Seq::<Seq<char>>::empty());
    }
}

/// Adds the complaint about a field that does not belong there.
pub fn require_absent(errors: &mut Vec<String>, field: &str, value: &Option<String>, because: &str)
    ensures
        final(errors).deep_view() == old(errors).deep_view() + extra_field(
            field@,
            value.deep_view(),
            because@,
        ),
{
    if value.is_some() {
        let mut m = "`".to_string();
        m.push_str(field);
        m.push_str("` must not be set when ");
        m.push_str(because);
        push_error(errors, m);
    } else {
        assert(errors.deep_view() =~= old(errors).deep_view() + Seq::<Seq<char>>::empty());
    }
}

/// Adds one complaint.
fn push_error(errors: &mut Vec<String>, message: String)
    ensures
        final(errors).deep_view() == old(errors).deep_view() + seq![message@],
{
    let ghost before = *errors;
    errors.push(message);
    proof {
        lemma_push_text(before, *errors, message);
        assert(before.deep_view().push(message@) =~= before.deep_view() + seq![message@]);
    }
}

/// Adds a complaint where there is reason for it.
fn push_if(errors: &mut Vec<String>, reason: bool, message: String)
    ensures
        final(errors).deep_view() == old(errors).deep_view() + complaint(reason, message@),
{
    if reason {
        push_error(errors, message);
    } else {
        assert(errors.deep_view() =~= old(errors).deep_view() + Seq::<Seq<char>>::empty());
    }
}

/// A text with quotes around the part in the middle.
fn quoted(before: &str, middle: &str, after: &str) -> (s: String)
    ensures
        s@ == before@ + middle@ + after@,
{
    let mut s = before.to_string();
    s.push_str(middle);
    s.push_str(after);
    s
}

fn role_text(role: Role) -> (s: &'static str)
    ensures
        s@ == role_name(role),
{
    match role {
        Role::Server => "Server",
        Role::Client => "Client",
    }
}

fn mode_text(mode: LinkMode) -> (s: &'static str)
    ensures
        s@ == mode_name(mode),
{
    match mode {
        LinkMode::Forward => "Forward",
        LinkMode::Reverse => "Reverse",
    }
}

fn same_bytes(a: &Vec<u8>, b: &Vec<u8>) -> (r: bool)
    ensures
        r == (a@ == b@),
{
    if a.len() != b.len() {
        return false;
    }
    let mut i: usize = 0;
    while i < a.len()
        invariant
            i <= a@.len() == b@.len(),
            forall|j: int| 0 <= j < i ==> #[trigger] a@[j] == b@[j],
        decreases a@.len() - i,
    {
        if a[i] != b[i] {
            assert(a@[i as int] != b@[i as int]);
            return false;
        }
        i = i + 1;
    }
    assert(a@ =~= b@);
    true
}

/// Whether one of the first `n` keys is `key`.
fn key_among(keys: &Vec<Option<Vec<u8>>>, n: usize, key: &Vec<u8>) -> (r: bool)
    requires
        n <= keys@.len(),
    ensures
        r == exists|j: int| 0 <= j < n && #[trigger] key_models(keys@)[j] == Some(key@),
{
    let mut j: usize = 0;
    while j < n
        invariant
            j <= n <= keys@.len(),
            forall|i: int| 0 <= i < j ==> #[trigger] key_models(keys@)[i] != Some(key@),
        decreases n - j,
    {
        if let Some(k) = &keys[j] {
            assert(k.deep_view() =~= k@);
            if same_bytes(k, key) {
                assert(key_models(keys@)[j as int] == Some(key@));
                return true;
            }
        }
        j = j + 1;
    }
    false
}

impl Config {
    /// Whether a link of `mode` needs `listen` (and not `target`) on this side.
    pub fn link_needs_listen(&self, mode: LinkMode) -> (r: bool)
        ensures
            r == needs_listen(self.role, mode),
    {
        (self.role == Role::Client && mode == LinkMode::Forward) || (self.role == Role::Server
            && mode == LinkMode::Reverse)
    }

    /// Everything that is wrong with the configuration, not just the first
    /// thing. Nothing is wrong with it exactly where the list is empty.
    pub fn validate(&self) -> (errors: Vec<String>)
        ensures
            errors.deep_view() == config_errors(
                self@,
                client_key_ok(self@),
                decoded_peer_keys(self@),
            ),
    {
        let key_ok = match &self.peer_public_key {
            Some(key) => decode_public_key(key.as_str()).is_ok(),
            None => false,
        };
        let mut keys: Vec<Option<Vec<u8>>> = Vec::new();
        let mut i: usize = 0;
        while i < self.peers.len()
            invariant
                i <= self.peers@.len(),
                keys@.len() == i,
                forall|j: int|
                    0 <= j < i ==> #[trigger] key_models(keys@)[j] == key_of(self.peers@[j].public_key@),
            decreases self.peers@.len() - i,
        {
            let ghost before = key_models(keys@);
            let key = match decode_public_key(self.peers[i].public_key.as_str()) {
                Ok(k) => Some(k),
                Err(_) => None,
            };
            proof {
                if key is Some {
                    assert(key->0.deep_view() =~= key->0@);
                }
            }
            keys.push(key);
            assert(key_models(keys@).drop_last() =~= before);
            assert(forall|j: int| 0 <= j < i ==> #[trigger] key_models(keys@)[j] == before[j]);
            i = i + 1;
        }
        assert(key_models(keys@) =~= decoded_peer_keys(self@));
        self.validate_with_keys(key_ok, &keys)
    }

    /// The same, for keys that have been decoded already: `key_ok` says whether
    /// `peer_public_key` is a key, and `keys` holds the key of each peer.
    pub fn validate_with_keys(&self, key_ok: bool, keys: &Vec<Option<Vec<u8>>>) -> (errors: Vec<
        String,
    >)
        requires
            keys@.len() == self.peers@.len(),
        ensures
            errors.deep_view() == config_errors(self@, key_ok, key_models(keys@)),
    {
        let mut errors: Vec<String> = Vec::new();
        assert(errors.deep_view() =~= Seq::<Seq<char>>::empty());
        match self.role {
            Role::Server => {
                self.validate_server(&mut errors);
                self.validate_peers(keys, &mut errors);
                assert(errors.deep_view() =~= server_errors(self@) + peers_errors(
                    self@,
                    key_models(keys@),
                    self@.peers.len(),
                ));
            },
            Role::Client => {
                self.validate_client(key_ok, &mut errors);
                assert(errors.deep_view() =~= client_errors(self@, key_ok));
            },
        }
        let ghost base = errors.deep_view();
        let mut seen_ids = StringHashSet::new();
        let mut i: usize = 0;
        assert(base + links_errors(self.role, self@.links, 0) =~= base);
        while i < self.links.len()
            invariant
                i <= self.links@.len(),
                errors.deep_view() == base + links_errors(self.role, self@.links, i as nat),
                forall|x: Seq<char>| #[trigger]
                    seen_ids@.contains(x) <==> exists|j: int|
                        0 <= j < i && (#[trigger] self@.links[j]).id == x,
            decreases self.links@.len() - i,
        {
            let link = &self.links[i];
            let ghost before = errors.deep_view();
            let ghost seen = seen_ids@;
            assert(self@.links[i as int] == link@);
            let fresh = seen_ids.insert(link.id.clone());
            proof {
                assert forall|x: Seq<char>| #[trigger] seen_ids@.contains(x) <==> exists|j: int|
                    0 <= j < i + 1 && (#[trigger] self@.links[j]).id == x by {
                    if seen.contains(x) {
                    } else if x == link.id@ {
                        assert(self@.links[i as int].id == x);
                    }
                }
                assert(seen.contains(link.id@) == repeats_id(self@.links, i as int));
            }
            push_if(
                &mut errors,
                !fresh,
                quoted("link \"", link.id.as_str(), "\": duplicate id"),
            );
            self.validate_link(link, &mut errors);
            proof {
                assert(errors.deep_view() =~= base + links_errors(
                    self.role,
                    self@.links,
                    (i + 1) as nat,
                ));
            }
            i = i + 1;
        }
        errors
    }

    #[verifier::rlimit(40)]
    fn validate_server(&self, errors: &mut Vec<String>)
        ensures
            final(errors).deep_view() == old(errors).deep_view() + server_errors(self@),
    {
        let because = "role = \"server\"";
        require_present(errors, "listen_control", &self.listen_control, because);
        require_present(errors, "listen_data", &self.listen_data, because);
        require_absent(errors, "server_control_addr", &self.server_control_addr, because);
        require_absent(errors, "server_data_addr", &self.server_data_addr, because);
        push_if(
            errors,
            self.peer_public_key.is_some(),
            "`peer_public_key` must not be set when role = \"server\" (use `peers` instead)".to_string(),
        );
        push_if(
            errors,
            self.peers.len() == 0,
            "`peers` must have at least one entry when role = \"server\"".to_string(),
        );
        assert(errors.deep_view() =~= old(errors).deep_view() + server_errors(self@));
    }

    fn validate_client(&self, key_ok: bool, errors: &mut Vec<String>)
        ensures
            final(errors).deep_view() == old(errors).deep_view() + client_errors(self@, key_ok),
    {
        let because = "role = \"client\"";
        require_present(errors, "server_control_addr", &self.server_control_addr, because);
        require_present(errors, "server_data_addr", &self.server_data_addr, because);
        require_absent(errors, "listen_control", &self.listen_control, because);
        require_absent(errors, "listen_data", &self.listen_data, because);
        push_if(
            errors,
            self.peer_public_key.is_none(),
            "`peer_public_key` is required when role = \"client\"".to_string(),
        );
        push_if(
            errors,
            self.peer_public_key.is_some() && !key_ok,
            "peer_public_key is not a valid base64-encoded 32-byte key".to_string(),
        );
        push_if(
            errors,
            self.peers.len() > 0,
            "`peers` must not be set when role = \"client\" (use `peer_public_key` instead)".to_string(),
        );
        assert(errors.deep_view() =~= old(errors).deep_view() + client_errors(self@, key_ok));
    }

    /// Each peer's own fields, and the checks across peers.
    pub fn validate_peers(&self, keys: &Vec<Option<Vec<u8>>>, errors: &mut Vec<String>)
        requires
            keys@.len() == self.peers@.len(),
        ensures
            final(errors).deep_view() == old(errors).deep_view() + peers_errors(
                self@,
                key_models(keys@),
                self@.peers.len(),
            ),
    {
        let link_ids = self.link_ids();
        let ghost base = errors.deep_view();
        let ghost models = key_models(keys@);
        let mut seen_names = StringHashSet::new();
        let mut i: usize = 0;
        assert(base + peers_errors(self@, models, 0) =~= base);
        while i < self.peers.len()
            invariant
                i <= self.peers@.len() == keys@.len(),
                models == key_models(keys@),
                errors.deep_view() == base + peers_errors(self@, models, i as nat),
                forall|x: Seq<char>| #[trigger] link_ids@.contains(x) <==> has_link(self@.links, x),
                forall|x: Seq<char>| #[trigger]
                    seen_names@.contains(x) <==> exists|j: int|
                        0 <= j < i && (#[trigger] self@.peers[j]).name == x,
            decreases self.peers@.len() - i,
        {
            let peer = &self.peers[i];
            let ghost seen = seen_names@;
            assert(self@.peers[i as int] == peer@);
            let fresh = seen_names.insert(peer.name.clone());
            proof {
                assert forall|x: Seq<char>| #[trigger] seen_names@.contains(x) <==> exists|j: int|
                    0 <= j < i + 1 && (#[trigger] self@.peers[j]).name == x by {
                    if seen.contains(x) {
                    } else if x == peer.name@ {
                        assert(self@.peers[i as int].name == x);
                    }
                }
                assert(seen.contains(peer.name@) == repeats_name(self@.peers, i as int));
            }
            self.validate_peer(i, fresh, keys, &link_ids, errors);
            assert(errors.deep_view() =~= base + peers_errors(self@, models, (i + 1) as nat));
            i = i + 1;
        }
    }

    /// The names of the links that are defined.
    fn link_ids(&self) -> (ids: StringHashSet)
        ensures
            forall|x: Seq<char>| #[trigger] ids@.contains(x) <==> has_link(self@.links, x),
    {
        let mut ids = StringHashSet::new();
        let mut i: usize = 0;
        while i < self.links.len()
            invariant
                i <= self.links@.len(),
                forall|x: Seq<char>| #[trigger]
                    ids@.contains(x) <==> exists|j: int|
                        0 <= j < i && (#[trigger] self@.links[j]).id == x,
            decreases self.links@.len() - i,
        {
            let ghost before = ids@;
            ids.insert(self.links[i].id.clone());
            proof {
                assert(self@.links[i as int].id == self.links@[i as int].id@);
                assert forall|x: Seq<char>| #[trigger] ids@.contains(x) <==> exists|j: int|
                    0 <= j < i + 1 && (#[trigger] self@.links[j]).id == x by {
                    if before.contains(x) {
                    } else if x == self.links@[i as int].id@ {
                        assert(self@.links[i as int].id == x);
                    }
                }
            }
            i = i + 1;
        }
        ids
    }

    fn validate_peer(
        &self,
        i: usize,
        fresh_name: bool,
        keys: &Vec<Option<Vec<u8>>>,
        link_ids: &StringHashSet,
        errors: &mut Vec<String>,
    )
        requires
            i < self.peers@.len() == keys@.len(),
            fresh_name == !repeats_name(self@.peers, i as int),
            forall|x: Seq<char>| #[trigger] link_ids@.contains(x) <==> has_link(self@.links, x),
        ensures
            final(errors).deep_view() == old(errors).deep_view() + peer_errors(
                self@,
                key_models(keys@),
                i as int,
            ),
    {
        let peer = &self.peers[i];
        let name = peer.name.as_str();
        assert(self@.peers[i as int] == peer@);
        push_if(errors, !fresh_name, quoted("peer \"", name, "\": duplicate name"));
        let (used, invalid) = match &keys[i] {
            Some(key) => {
                assert(key.deep_view() =~= key@);
                (key_among(keys, i, key), false)
            },
            None => (false, true),
        };
        assert(key_models(keys@)[i as int] == keys@[i as int].deep_view());
        push_if(
            errors,
            used,
            quoted("peer \"", name, "\": public_key is already used by another peer"),
        );
        push_if(
            errors,
            invalid,
            quoted(
                "peer \"",
                name,
                "\": public_key is not a valid base64-encoded 32-byte key",
            ),
        );
        let ghost base = errors.deep_view();
        let ghost ids = peer.links.deep_view();
        let mut k: usize = 0;
        assert(ids.take(0) =~= Seq::<Seq<char>>::empty());
        assert(base + unknown_links(name@, ids.take(0), self@.links) =~= base);
        while k < peer.links.len()
            invariant
                k <= peer.links@.len(),
                ids == peer.links.deep_view(),
                name@ == peer.name@,
                errors.deep_view() == base + unknown_links(name@, ids.take(k as int), self@.links),
                forall|x: Seq<char>| #[trigger] link_ids@.contains(x) <==> has_link(self@.links, x),
            decreases peer.links@.len() - k,
        {
            let link_id = peer.links[k].as_str();
            let ghost before = errors.deep_view();
            let mut m = quoted("peer \"", name, "\": link id \"");
            m.push_str(link_id);
            m.push_str("\" is not defined in this config's `links`");
            push_if(errors, !link_ids.contains(link_id), m);
            proof {
                assert(ids[k as int] == link_id@);
                assert(ids.take(k + 1).drop_last() =~= ids.take(k as int));
                assert(ids.take(k + 1).last() == link_id@);
                assert(errors.deep_view() =~= base + unknown_links(
                    name@,
                    ids.take(k + 1),
                    self@.links,
                ));
            }
            k = k + 1;
        }
        assert(ids.take(k as int) =~= ids);
        assert(errors.deep_view() =~= old(errors).deep_view() + peer_errors(
            self@,
            key_models(keys@),
            i as int,
        ));
    }

    /// Exactly one of `listen` and `target` must be set on this side, and which
    /// one depends on both the role and the mode.
    pub fn validate_link(&self, link: &LinkConfig, errors: &mut Vec<String>)
        ensures
            final(errors).deep_view() == old(errors).deep_view() + link_errors(self.role, link@),
    {
        let needs_listen = self.link_needs_listen(link.mode);
        let (required_name, forbidden_name, required, forbidden) = if needs_listen {
            ("listen", "target", &link.listen, &link.target)
        } else {
            ("target", "listen", &link.target, &link.listen)
        };

        let mut on_side = quoted("link \"", link.id.as_str(), "\": ");
        on_side.push_str(mode_text(link.mode));
        on_side.push_str(" on this side (");
        on_side.push_str(role_text(self.role));

        let mut m = on_side.clone();
        m.push_str(") requires `");
        m.push_str(required_name);
        m.push_str("`");
        push_if(errors, required.is_none(), m);

        let mut m = on_side;
        m.push_str(") must not set `");
        m.push_str(forbidden_name);
        m.push_str("` (that belongs on the peer's config)");
        push_if(errors, forbidden.is_some(), m);

        if let Some(addr) = required {
            let mut m = quoted("link \"", link.id.as_str(), "\": `");
            m.push_str(required_name);
            m.push_str("` = \"");
            m.push_str(addr.as_str());
            m.push_str("\" is not a valid host:port address");
            push_if(errors, !parses_as_socket_addr(&chars_of(addr.as_str())), m);
        }
        assert(errors.deep_view() =~= old(errors).deep_view() + link_errors(self.role, link@));
    }

    /// What decides whether a configuration is written: an invalid one is never
    /// saved, and all that is wrong with it is handed back instead.
    pub fn check_before_save(&self) -> (r: Result<(), Vec<String>>)
        ensures
            ({
                let errors = config_errors(self@, client_key_ok(self@), decoded_peer_keys(self@));
                match r {
                    Ok(_) => errors.len() == 0,
                    Err(e) => errors.len() > 0 && e.deep_view() == errors,
                }
            }),
    {
        let errors = self.validate();
        assert(errors.deep_view().len() == errors@.len());
        if errors.len() > 0 {
            return Err(errors);
        }
        Ok(())
    }
}


// ---------------------------------------------------------------------
// What validation promises
// ---------------------------------------------------------------------

/// A peer that nothing is wrong with.
pub open spec fn is_valid_peer(c: ConfigModel, keys: Seq<Option<Seq<u8>>>, i: int) -> bool {
    &&& keys[i] is Some
    &&& forall|j: int|
        0 <= j < i ==> (#[trigger] c.peers[j]).name != c.peers[i].name && keys[j] != keys[i]
    &&& forall|k: int|
        0 <= k < c.peers[i].links.len() ==> has_link(c.links, #[trigger] c.peers[i].links[k])
}

/// A link that nothing is wrong with: the address that its side needs, which is
/// a socket address, and not the other one.
pub open spec fn is_valid_link(role: Role, link: LinkModel) -> bool {
    &&& required_addr(role, link) is Some
    &&& is_socket_addr(required_addr(role, link)->0)
    &&& forbidden_addr(role, link) is None
}

/// A configuration that the daemon starts with.
pub open spec fn is_valid_config(c: ConfigModel, key_ok: bool, keys: Seq<Option<Seq<u8>>>) -> bool {
    &&& c.role is Server ==> {
        &&& c.listen_control is Some
        &&& c.listen_data is Some
        &&& c.server_control_addr is None
        &&& c.server_data_addr is None
        &&& c.peer_public_key is None
        &&& c.peers.len() > 0
        &&& forall|i: int| 0 <= i < c.peers.len() ==> #[trigger] is_valid_peer(c, keys, i)
    }
    &&& c.role is Client ==> {
        &&& c.server_control_addr is Some
        &&& c.server_data_addr is Some
        &&& c.listen_control is None
        &&& c.listen_data is None
        &&& c.peer_public_key is Some
        &&& key_ok
        &&& c.peers.len() == 0
    }
    &&& forall|i: int| 0 <= i < c.links.len() ==> is_valid_link(c.role, #[trigger] c.links[i])
    &&& forall|i: int, j: int|
        0 <= j < i < c.links.len() ==> (#[trigger] c.links[j]).id != (#[trigger] c.links[i]).id
}

/// Validation finds nothing exactly in the configurations that are valid.
pub proof fn law_valid_exactly_without_errors(
    c: ConfigModel,
    key_ok: bool,
    keys: Seq<Option<Seq<u8>>>,
)
    requires
        keys.len() == c.peers.len(),
    ensures
        config_errors(c, key_ok, keys).len() == 0 <==> is_valid_config(c, key_ok, keys),
{
    lemma_links_errors(c.role, c.links, c.links.len());
    lemma_sound_links(c.role, c.links);
    lemma_peers_errors(c, keys, c.peers.len());
    lemma_role_errors(c, key_ok);
}

/// Nothing is wrong with link `i`, and no earlier link has its name.
spec fn is_sound_link(role: Role, links: Seq<LinkModel>, i: int) -> bool {
    is_valid_link(role, links[i]) && !repeats_id(links, i)
}

proof fn lemma_role_errors(c: ConfigModel, key_ok: bool)
    ensures
        server_errors(c).len() == 0 <==> {
            &&& c.listen_control is Some
            &&& c.listen_data is Some
            &&& c.server_control_addr is None
            &&& c.server_data_addr is None
            &&& c.peer_public_key is None
            &&& c.peers.len() > 0
        },
        client_errors(c, key_ok).len() == 0 <==> {
            &&& c.server_control_addr is Some
            &&& c.server_data_addr is Some
            &&& c.listen_control is None
            &&& c.listen_data is None
            &&& c.peer_public_key is Some
            &&& key_ok
            &&& c.peers.len() == 0
        },
{
}

proof fn lemma_sound_links(role: Role, links: Seq<LinkModel>)
    ensures
        (forall|i: int| 0 <= i < links.len() ==> #[trigger] is_sound_link(role, links, i)) <==> ({
            &&& forall|i: int| 0 <= i < links.len() ==> is_valid_link(role, #[trigger] links[i])
            &&& forall|i: int, j: int|
                0 <= j < i < links.len() ==> (#[trigger] links[j]).id != (#[trigger] links[i]).id
        }),
{
    if forall|i: int| 0 <= i < links.len() ==> #[trigger] is_sound_link(role, links, i) {
        assert forall|i: int| 0 <= i < links.len() implies is_valid_link(role, #[trigger] links[i]) by {
            assert(is_sound_link(role, links, i));
        }
        assert forall|i: int, j: int| 0 <= j < i < links.len() implies (#[trigger] links[j]).id
            != (#[trigger] links[i]).id by {
            assert(is_sound_link(role, links, i));
        }
    } else {
        let i = choose|i: int| 0 <= i < links.len() && !(#[trigger] is_sound_link(role, links, i));
        if repeats_id(links, i) {
            let j = choose|j: int| 0 <= j < i && (#[trigger] links[j]).id == links[i].id;
            assert(links[j].id == links[i].id);
        } else {
            assert(!is_valid_link(role, links[i]));
        }
    }
}

proof fn lemma_links_errors(role: Role, links: Seq<LinkModel>, n: nat)
    requires
        n <= links.len(),
    ensures
        links_errors(role, links, n).len() == 0 <==> forall|i: int|
            0 <= i < n ==> #[trigger] is_sound_link(role, links, i),
    decreases n,
{
    if n > 0 {
        lemma_links_errors(role, links, (n - 1) as nat);
        assert(link_errors(role, links[n - 1]).len() == 0 <==> is_valid_link(role, links[n - 1]));
        assert(links_errors(role, links, n).len() == 0 <==> links_errors(
            role,
            links,
            (n - 1) as nat,
        ).len() == 0 && is_sound_link(role, links, n - 1));
    }
}

proof fn lemma_unknown_links(name: Seq<char>, ids: Seq<Seq<char>>, links: Seq<LinkModel>)
    ensures
        unknown_links(name, ids, links).len() == 0 <==> forall|k: int|
            0 <= k < ids.len() ==> has_link(links, #[trigger] ids[k]),
    decreases ids.len(),
{
    if ids.len() > 0 {
        let front = ids.drop_last();
        lemma_unknown_links(name, front, links);
        assert(forall|k: int| 0 <= k < front.len() ==> front[k] == #[trigger] ids[k]);
        assert(ids.last() == ids[ids.len() - 1]);
        if forall|k: int| 0 <= k < ids.len() ==> has_link(links, #[trigger] ids[k]) {
            assert forall|k: int| 0 <= k < front.len() implies has_link(
                links,
                #[trigger] front[k],
            ) by {
                assert(has_link(links, ids[k]));
            }
        }
        if unknown_links(name, ids, links).len() == 0 {
            assert forall|k: int| 0 <= k < ids.len() implies has_link(links, #[trigger] ids[k]) by {
                if k < front.len() {
                    assert(has_link(links, front[k]));
                }
            }
        }
    }
}

proof fn lemma_peers_errors(c: ConfigModel, keys: Seq<Option<Seq<u8>>>, n: nat)
    requires
        n <= c.peers.len() == keys.len(),
    ensures
        peers_errors(c, keys, n).len() == 0 <==> forall|i: int|
            0 <= i < n ==> #[trigger] is_valid_peer(c, keys, i),
    decreases n,
{
    if n > 0 {
        lemma_peers_errors(c, keys, (n - 1) as nat);
        let i = n - 1;
        lemma_unknown_links(c.peers[i].name, c.peers[i].links, c.links);
        assert(peer_errors(c, keys, i).len() == 0 <==> is_valid_peer(c, keys, i)) by {
            assert(repeats_name(c.peers, i) <==> exists|j: int|
                0 <= j < i && (#[trigger] c.peers[j]).name == c.peers[i].name);
            if is_valid_peer(c, keys, i) {
                if repeats_key(keys, i) {
                    let j = choose|j: int| 0 <= j < i && #[trigger] keys[j] == keys[i];
                    assert(c.peers[j].name != c.peers[i].name);
                }
            } else if peer_errors(c, keys, i).len() == 0 {
                assert forall|j: int| 0 <= j < i implies (#[trigger] c.peers[j]).name
                    != c.peers[i].name && keys[j] != keys[i] by {}
            }
        }
    }
}

/// In a valid configuration every field is there that its role later relies on:
/// a server's listening addresses and the addresses of its links, a client's
/// server addresses and the addresses of its links.
pub proof fn law_valid_config_has_what_its_role_needs(
    c: ConfigModel,
    key_ok: bool,
    keys: Seq<Option<Seq<u8>>>,
)
    requires
        keys.len() == c.peers.len(),
        config_errors(c, key_ok, keys).len() == 0,
    ensures
        c.role is Server ==> c.listen_control is Some && c.listen_data is Some,
        c.role is Client ==> c.server_control_addr is Some && c.server_data_addr is Some
            && c.peer_public_key is Some && key_ok,
        forall|i: int|
            0 <= i < c.links.len() ==> {
                let link = #[trigger] c.links[i];
                if needs_listen(c.role, link.mode) {
                    link.listen is Some && link.target is None
                } else {
                    link.target is Some && link.listen is None
                }
            },
{
    law_valid_exactly_without_errors(c, key_ok, keys);
    assert forall|i: int| 0 <= i < c.links.len() implies ({
        let link = #[trigger] c.links[i];
        if needs_listen(c.role, link.mode) {
            link.listen is Some && link.target is None
        } else {
            link.target is Some && link.listen is None
        }
    }) by {
        assert(is_valid_link(c.role, c.links[i]));
    }
}

/// A link that is valid on one side is not valid on the other: the two sides of
/// one link never hold the same fields.
pub proof fn law_sides_of_a_link_differ(link: LinkModel)
    ensures
        needs_listen(Role::Server, link.mode) != needs_listen(Role::Client, link.mode),
        !(is_valid_link(Role::Server, link) && is_valid_link(Role::Client, link)),
{
}

/// What makes a configuration valid, field by field. The keys are those that the
/// configured texts decode to. A link has the address at which its side accepts
/// connections (a client for a forward link, a server for a reverse link) or else the
/// one that its side dials, and never both.
pub proof fn law_rules_of_a_valid_config(c: ConfigModel)
    ensures
        config_errors(c, client_key_ok(c), decoded_peer_keys(c)).len() == 0 <==> {
            &&& c.role is Server ==> {
                &&& c.listen_control is Some
                &&& c.listen_data is Some
                &&& c.server_control_addr is None
                &&& c.server_data_addr is None
                &&& c.peer_public_key is None
                &&& c.peers.len() > 0
                &&& forall|i: int|
                    0 <= i < c.peers.len() ==> decoded_key((#[trigger] c.peers[i]).public_key) is Ok
                &&& forall|i: int, j: int|
                    0 <= j < i < c.peers.len() ==> (#[trigger] c.peers[j]).name != (
                    #[trigger] c.peers[i]).name && decoded_key(c.peers[j].public_key)
                        != decoded_key(c.peers[i].public_key)
                &&& forall|i: int, k: int|
                    0 <= i < c.peers.len() && 0 <= k < c.peers[i].links.len()
                        ==> c.links.map_values(|l: LinkModel| l.id).contains(
                        #[trigger] c.peers[i].links[k],
                    )
            }
            &&& c.role is Client ==> {
                &&& c.server_control_addr is Some
                &&& c.server_data_addr is Some
                &&& c.listen_control is None
                &&& c.listen_data is None
                &&& c.peer_public_key is Some
                &&& decoded_key(c.peer_public_key->0) is Ok
                &&& c.peers.len() == 0
            }
            &&& forall|i: int|
                0 <= i < c.links.len() ==> {
                    let link = #[trigger] c.links[i];
                    if (c.role is Client && link.mode is Forward) || (c.role is Server && link.mode
                        is Reverse) {
                        link.listen is Some && is_socket_addr(link.listen->0) && link.target is None
                    } else {
                        link.target is Some && is_socket_addr(link.target->0) && link.listen is None
                    }
                }
            &&& forall|i: int, j: int|
                0 <= j < i < c.links.len() ==> (#[trigger] c.links[j]).id != (#[trigger] c.links[i]).id
        },
{
    let keys = decoded_peer_keys(c);
    law_valid_exactly_without_errors(c, client_key_ok(c), keys);
    lemma_valid_link_rules(c);
    if c.role is Server {
        lemma_valid_peer_rules(c);
    }
}

proof fn lemma_valid_link_rules(c: ConfigModel)
    ensures
        (forall|i: int| 0 <= i < c.links.len() ==> is_valid_link(c.role, #[trigger] c.links[i])) <==> (
        forall|i: int|
            0 <= i < c.links.len() ==> {
                let link = #[trigger] c.links[i];
                if (c.role is Client && link.mode is Forward) || (c.role is Server && link.mode
                    is Reverse) {
                    link.listen is Some && is_socket_addr(link.listen->0) && link.target is None
                } else {
                    link.target is Some && is_socket_addr(link.target->0) && link.listen is None
                }
            }),
{
    if forall|i: int| 0 <= i < c.links.len() ==> is_valid_link(c.role, #[trigger] c.links[i]) {
        assert forall|i: int| 0 <= i < c.links.len() implies ({
            let link = #[trigger] c.links[i];
            if (c.role is Client && link.mode is Forward) || (c.role is Server && link.mode
                is Reverse) {
                link.listen is Some && is_socket_addr(link.listen->0) && link.target is None
            } else {
                link.target is Some && is_socket_addr(link.target->0) && link.listen is None
            }
        }) by {
            assert(is_valid_link(c.role, c.links[i]));
        }
    }
}

proof fn lemma_valid_peer_rules(c: ConfigModel)
    ensures
        (forall|i: int|
            0 <= i < c.peers.len() ==> #[trigger] is_valid_peer(c, decoded_peer_keys(c), i)) <==> {
            &&& forall|i: int|
                0 <= i < c.peers.len() ==> decoded_key((#[trigger] c.peers[i]).public_key) is Ok
            &&& forall|i: int, j: int|
                0 <= j < i < c.peers.len() ==> (#[trigger] c.peers[j]).name != (#[trigger] c.peers[i]).name
                    && decoded_key(c.peers[j].public_key) != decoded_key(c.peers[i].public_key)
            &&& forall|i: int, k: int|
                0 <= i < c.peers.len() && 0 <= k < c.peers[i].links.len()
                    ==> c.links.map_values(|l: LinkModel| l.id).contains(
                    #[trigger] c.peers[i].links[k],
                )
        },
{
    let keys = decoded_peer_keys(c);
    let names = c.links.map_values(|l: LinkModel| l.id);
    if forall|i: int| 0 <= i < c.peers.len() ==> #[trigger] is_valid_peer(c, keys, i) {
        assert forall|i: int| 0 <= i < c.peers.len() implies decoded_key(
            (#[trigger] c.peers[i]).public_key,
        ) is Ok by {
            assert(is_valid_peer(c, keys, i));
            assert(keys[i] == key_of(c.peers[i].public_key));
        }
        assert forall|i: int, j: int| 0 <= j < i < c.peers.len() implies (#[trigger] c.peers[j]).name
            != (#[trigger] c.peers[i]).name && decoded_key(c.peers[j].public_key) != decoded_key(
            c.peers[i].public_key,
        ) by {
            assert(is_valid_peer(c, keys, i));
            assert(keys[i] == key_of(c.peers[i].public_key));
            assert(keys[j] == key_of(c.peers[j].public_key));
        }
        assert forall|i: int, k: int|
            0 <= i < c.peers.len() && 0 <= k < c.peers[i].links.len() implies names.contains(
            #[trigger] c.peers[i].links[k],
        ) by {
            assert(is_valid_peer(c, keys, i));
            assert(has_link(c.links, c.peers[i].links[k]));
            let m = choose|m: int|
                0 <= m < c.links.len() && (#[trigger] c.links[m]).id == c.peers[i].links[k];
            assert(names[m] == c.peers[i].links[k]);
        }
    } else if (forall|i: int|
        0 <= i < c.peers.len() ==> decoded_key((#[trigger] c.peers[i]).public_key) is Ok) && (forall|
        i: int,
        j: int,
    |
        0 <= j < i < c.peers.len() ==> (#[trigger] c.peers[j]).name != (#[trigger] c.peers[i]).name
            && decoded_key(c.peers[j].public_key) != decoded_key(c.peers[i].public_key)) && (forall|
        i: int,
        k: int,
    |
        0 <= i < c.peers.len() && 0 <= k < c.peers[i].links.len() ==> names.contains(
            #[trigger] c.peers[i].links[k],
        )) {
        assert forall|i: int| 0 <= i < c.peers.len() implies #[trigger] is_valid_peer(c, keys, i) by {
            assert(keys[i] == key_of(c.peers[i].public_key));
            assert forall|j: int| 0 <= j < i implies (#[trigger] c.peers[j]).name != c.peers[i].name
                && keys[j] != keys[i] by {
                assert(keys[j] == key_of(c.peers[j].public_key));
                assert(decoded_key(c.peers[j].public_key) is Ok);
            }
            assert forall|k: int| 0 <= k < c.peers[i].links.len() implies has_link(
                c.links,
                #[trigger] c.peers[i].links[k],
            ) by {
                assert(names.contains(c.peers[i].links[k]));
                let m = choose|m: int| 0 <= m < names.len() && names[m] == c.peers[i].links[k];
                assert(c.links[m].id == c.peers[i].links[k]);
            }
        }
    }
}

proof fn lemma_in_either(a: Seq<Seq<char>>, b: Seq<Seq<char>>, m: Seq<char>)
    ensures
        (a + b).contains(m) <==> a.contains(m) || b.contains(m),
{
    let all = a + b;
    if a.contains(m) {
        let k = choose|k: int| 0 <= k < a.len() && a[k] == m;
        assert(all[k] == m);
    }
    if b.contains(m) {
        let k = choose|k: int| 0 <= k < b.len() && b[k] == m;
        assert(all[a.len() + k] == m);
    }
    if all.contains(m) {
        let k = choose|k: int| 0 <= k < all.len() && all[k] == m;
        if k < a.len() {
            assert(a[k] == m);
        } else {
            assert(b[k - a.len()] == m);
        }
    }
}

proof fn lemma_complained(reason: bool, message: Seq<char>)
    ensures
        reason ==> complaint(reason, message).contains(message),
{
    if reason {
        assert(complaint(reason, message)[0] == message);
    }
}

proof fn lemma_link_complaint(role: Role, links: Seq<LinkModel>, n: nat, i: int, m: Seq<char>)
    requires
        0 <= i < n <= links.len(),
        complaint(
            repeats_id(links, i),
            "link \""@ + links[i].id + "\": duplicate id"@,
        ).contains(m) || link_errors(role, links[i]).contains(m),
    ensures
        links_errors(role, links, n).contains(m),
    decreases n,
{
    let before = links_errors(role, links, (n - 1) as nat);
    let own = complaint(
        repeats_id(links, n - 1),
        "link \""@ + links[n - 1].id + "\": duplicate id"@,
    );
    lemma_in_either(before, own, m);
    lemma_in_either(before + own, link_errors(role, links[n - 1]), m);
    if i < n - 1 {
        lemma_link_complaint(role, links, (n - 1) as nat, i, m);
    }
}

/// Validation tells everything that is wrong with the links, not just the first
/// thing: of every link the name that was used before, the address that is missing,
/// the one that does not belong there, and the one that is no socket address.
pub proof fn law_every_problem_of_a_link_is_told(
    c: ConfigModel,
    key_ok: bool,
    keys: Seq<Option<Seq<u8>>>,
    i: int,
)
    requires
        0 <= i < c.links.len(),
    ensures
        ({
            let told = config_errors(c, key_ok, keys);
            let link = c.links[i];
            let accepts = (c.role is Client && link.mode is Forward) || (c.role is Server
                && link.mode is Reverse);
            let side = "link \""@ + link.id + "\": "@ + (if link.mode is Forward {
                "Forward"@
            } else {
                "Reverse"@
            }) + " on this side ("@ + (if c.role is Server {
                "Server"@
            } else {
                "Client"@
            });
            let (field, addr) = if accepts {
                ("listen"@, link.listen)
            } else {
                ("target"@, link.target)
            };
            let (other, extra) = if accepts {
                ("target"@, link.target)
            } else {
                ("listen"@, link.listen)
            };
            &&& (exists|j: int| 0 <= j < i && (#[trigger] c.links[j]).id == link.id) ==> told.contains(
                "link \""@ + link.id + "\": duplicate id"@,
            )
            &&& addr is None ==> told.contains(side + ") requires `"@ + field + "`"@)
            &&& extra is Some ==> told.contains(
                side + ") must not set `"@ + other + "` (that belongs on the peer's config)"@,
            )
            &&& addr is Some && !is_socket_addr(addr->0) ==> told.contains(
                "link \""@ + link.id + "\": `"@ + field + "` = \""@ + addr->0
                    + "\" is not a valid host:port address"@,
            )
        }),
{
    let link = c.links[i];
    let required = required_addr(c.role, link);
    let m0 = "link \""@ + link.id + "\": duplicate id"@;
    let m1 = link_on_side(c.role, link) + ") requires `"@ + required_field(c.role, link.mode) + "`"@;
    let m2 = link_on_side(c.role, link) + ") must not set `"@ + forbidden_field(c.role, link.mode)
        + "` (that belongs on the peer's config)"@;
    let m3 = "link \""@ + link.id + "\": `"@ + required_field(c.role, link.mode) + "` = \""@
        + required->0 + "\" is not a valid host:port address"@;
    let e1 = complaint(required is None, m1);
    let e2 = complaint(forbidden_addr(c.role, link) is Some, m2);
    let e3 = complaint(required is Some && !is_socket_addr(required->0), m3);
    lemma_complained(repeats_id(c.links, i), m0);
    lemma_complained(required is None, m1);
    lemma_complained(forbidden_addr(c.role, link) is Some, m2);
    lemma_complained(required is Some && !is_socket_addr(required->0), m3);
    let first = match c.role {
        Role::Server => server_errors(c) + peers_errors(c, keys, c.peers.len()),
        Role::Client => client_errors(c, key_ok),
    };
    let links = links_errors(c.role, c.links, c.links.len());
    assert(config_errors(c, key_ok, keys) == first + links);
    assert(link_errors(c.role, link) == e1 + e2 + e3);
    if repeats_id(c.links, i) {
        lemma_link_complaint(c.role, c.links, c.links.len(), i, m0);
        lemma_in_either(first, links, m0);
    }
    if required is None {
        lemma_in_either(e1, e2, m1);
        lemma_in_either(e1 + e2, e3, m1);
        lemma_link_complaint(c.role, c.links, c.links.len(), i, m1);
        lemma_in_either(first, links, m1);
    }
    if forbidden_addr(c.role, link) is Some {
        lemma_in_either(e1, e2, m2);
        lemma_in_either(e1 + e2, e3, m2);
        lemma_link_complaint(c.role, c.links, c.links.len(), i, m2);
        lemma_in_either(first, links, m2);
    }
    if required is Some && !is_socket_addr(required->0) {
        lemma_in_either(e1 + e2, e3, m3);
        lemma_link_complaint(c.role, c.links, c.links.len(), i, m3);
        lemma_in_either(first, links, m3);
    }
}

proof fn lemma_peer_complaint(
    c: ConfigModel,
    keys: Seq<Option<Seq<u8>>>,
    n: nat,
    i: int,
    m: Seq<char>,
)
    requires
        0 <= i < n <= c.peers.len(),
        peer_errors(c, keys, i).contains(m),
    ensures
        peers_errors(c, keys, n).contains(m),
    decreases n,
{
    let before = peers_errors(c, keys, (n - 1) as nat);
    lemma_in_either(before, peer_errors(c, keys, n - 1), m);
    if i < n - 1 {
        lemma_peer_complaint(c, keys, (n - 1) as nat, i, m);
    }
}

proof fn lemma_unknown_link_told(name: Seq<char>, ids: Seq<Seq<char>>, links: Seq<LinkModel>, k: int)
    requires
        0 <= k < ids.len(),
        !has_link(links, ids[k]),
    ensures
        unknown_links(name, ids, links).contains(
            "peer \""@ + name + "\": link id \""@ + ids[k]
                + "\" is not defined in this config's `links`"@,
        ),
    decreases ids.len(),
{
    let m = "peer \""@ + name + "\": link id \""@ + ids[k]
        + "\" is not defined in this config's `links`"@;
    let own = "peer \""@ + name + "\": link id \""@ + ids.last()
        + "\" is not defined in this config's `links`"@;
    let front = ids.drop_last();
    lemma_in_either(
        unknown_links(name, front, links),
        complaint(!has_link(links, ids.last()), own),
        m,
    );
    if k < front.len() {
        assert(front[k] == ids[k]);
        lemma_unknown_link_told(name, front, links, k);
    } else {
        lemma_complained(!has_link(links, ids.last()), own);
    }
}

/// Validation tells everything that is wrong with the peers of a server: of every peer
/// the name or the key that was used before, the key that is none, and each link that
/// it may use and nobody defined.
pub proof fn law_every_problem_of_a_peer_is_told(
    c: ConfigModel,
    key_ok: bool,
    keys: Seq<Option<Seq<u8>>>,
    i: int,
    k: int,
)
    requires
        c.role is Server,
        0 <= i < c.peers.len(),
    ensures
        ({
            let told = config_errors(c, key_ok, keys);
            let peer = c.peers[i];
            &&& (exists|j: int| 0 <= j < i && (#[trigger] c.peers[j]).name == peer.name)
                ==> told.contains("peer \""@ + peer.name + "\": duplicate name"@)
            &&& keys[i] is Some && (exists|j: int| 0 <= j < i && #[trigger] keys[j] == keys[i])
                ==> told.contains(
                "peer \""@ + peer.name + "\": public_key is already used by another peer"@,
            )
            &&& keys[i] is None ==> told.contains(
                "peer \""@ + peer.name
                    + "\": public_key is not a valid base64-encoded 32-byte key"@,
            )
            &&& 0 <= k < peer.links.len() && (forall|m: int|
                0 <= m < c.links.len() ==> (#[trigger] c.links[m]).id != peer.links[k])
                ==> told.contains(
                "peer \""@ + peer.name + "\": link id \""@ + peer.links[k]
                    + "\" is not defined in this config's `links`"@,
            )
        }),
{
    let name = c.peers[i].name;
    let m1 = "peer \""@ + name + "\": duplicate name"@;
    let m2 = "peer \""@ + name + "\": public_key is already used by another peer"@;
    let m3 = "peer \""@ + name + "\": public_key is not a valid base64-encoded 32-byte key"@;
    let m4 = "peer \""@ + name + "\": link id \""@ + c.peers[i].links[k]
        + "\" is not defined in this config's `links`"@;
    let e1 = complaint(repeats_name(c.peers, i), m1);
    let e2 = complaint(keys[i] is Some && repeats_key(keys, i), m2);
    let e3 = complaint(keys[i] is None, m3);
    let e4 = unknown_links(name, c.peers[i].links, c.links);
    assert(peer_errors(c, keys, i) == e1 + e2 + e3 + e4);
    lemma_complained(repeats_name(c.peers, i), m1);
    lemma_complained(keys[i] is Some && repeats_key(keys, i), m2);
    lemma_complained(keys[i] is None, m3);
    if repeats_name(c.peers, i) {
        lemma_in_either(e1, e2, m1);
        lemma_in_either(e1 + e2, e3, m1);
        lemma_peer_told(c, key_ok, keys, i, e1 + e2 + e3, e4, m1);
    }
    if keys[i] is Some && repeats_key(keys, i) {
        lemma_in_either(e1, e2, m2);
        lemma_in_either(e1 + e2, e3, m2);
        lemma_peer_told(c, key_ok, keys, i, e1 + e2 + e3, e4, m2);
    }
    if keys[i] is None {
        lemma_in_either(e1 + e2, e3, m3);
        lemma_peer_told(c, key_ok, keys, i, e1 + e2 + e3, e4, m3);
    }
    if 0 <= k < c.peers[i].links.len() && !has_link(c.links, c.peers[i].links[k]) {
        lemma_unknown_link_told(name, c.peers[i].links, c.links, k);
        lemma_peer_told(c, key_ok, keys, i, e1 + e2 + e3, e4, m4);
    }
}

proof fn lemma_peer_told(
    c: ConfigModel,
    key_ok: bool,
    keys: Seq<Option<Seq<u8>>>,
    i: int,
    a: Seq<Seq<char>>,
    b: Seq<Seq<char>>,
    m: Seq<char>,
)
    requires
        c.role is Server,
        0 <= i < c.peers.len(),
        peer_errors(c, keys, i) == a + b,
        a.contains(m) || b.contains(m),
    ensures
        config_errors(c, key_ok, keys).contains(m),
{
    lemma_in_either(a, b, m);
    lemma_peer_complaint(c, keys, c.peers.len(), i, m);
    lemma_in_either(server_errors(c), peers_errors(c, keys, c.peers.len()), m);
    lemma_in_either(
        server_errors(c) + peers_errors(c, keys, c.peers.len()),
        links_errors(c.role, c.links, c.links.len()),
        m,
    );
}

/// The number of complaints is that of the problems: one for each field of the role
/// that is missing or does not belong there, beside those about peers and links.
pub proof fn law_problems_of_the_role_are_counted(
    c: ConfigModel,
    key_ok: bool,
    keys: Seq<Option<Seq<u8>>>,
)
    ensures
        ({
            let one = |b: bool|
                if b {
                    1int
                } else {
                    0
                };
            let links = links_errors(c.role, c.links, c.links.len()).len();
            &&& c.role is Server ==> config_errors(c, key_ok, keys).len() == one(
                c.listen_control is None,
            ) + one(c.listen_data is None) + one(c.server_control_addr is Some) + one(
                c.server_data_addr is Some,
            ) + one(c.peer_public_key is Some) + one(c.peers.len() == 0) + peers_errors(
                c,
                keys,
                c.peers.len(),
            ).len() + links
            &&& c.role is Client ==> config_errors(c, key_ok, keys).len() == one(
                c.server_control_addr is None,
            ) + one(c.server_data_addr is None) + one(c.listen_control is Some) + one(
                c.listen_data is Some,
            ) + one(c.peer_public_key is None) + one(c.peer_public_key is Some && !key_ok) + one(
                c.peers.len() > 0,
            ) + links
        }),
{
}

/// What is told about the fields of a role: every one that is missing and every one that
/// does not belong there, by its name.
pub proof fn law_fields_of_the_role_are_told(c: ConfigModel, key_ok: bool)
    ensures
        ({
            let missing = |absent: bool, field: Seq<char>, why: Seq<char>|
                if absent {
                    seq!["`"@ + field + "` is required when "@ + why]
                } else {
                    Seq::<Seq<char>>::empty()
                };
            let extra = |present: bool, field: Seq<char>, why: Seq<char>|
                if present {
                    seq!["`"@ + field + "` must not be set when "@ + why]
                } else {
                    Seq::<Seq<char>>::empty()
                };
            let other = |reason: bool, text: Seq<char>|
                if reason {
                    seq![text]
                } else {
                    Seq::<Seq<char>>::empty()
                };
            &&& server_errors(c) == missing(
                c.listen_control is None,
                "listen_control"@,
                "role = \"server\""@,
            ) + missing(c.listen_data is None, "listen_data"@, "role = \"server\""@) + extra(
                c.server_control_addr is Some,
                "server_control_addr"@,
                "role = \"server\""@,
            ) + extra(c.server_data_addr is Some, "server_data_addr"@, "role = \"server\""@) + other(
                c.peer_public_key is Some,
                "`peer_public_key` must not be set when role = \"server\" (use `peers` instead)"@,
            ) + other(
                c.peers.len() == 0,
                "`peers` must have at least one entry when role = \"server\""@,
            )
            &&& client_errors(c, key_ok) == missing(
                c.server_control_addr is None,
                "server_control_addr"@,
                "role = \"client\""@,
            ) + missing(c.server_data_addr is None, "server_data_addr"@, "role = \"client\""@) + extra(
                c.listen_control is Some,
                "listen_control"@,
                "role = \"client\""@,
            ) + extra(c.listen_data is Some, "listen_data"@, "role = \"client\""@) + other(
                c.peer_public_key is None,
                "`peer_public_key` is required when role = \"client\""@,
            ) + other(
                c.peer_public_key is Some && !key_ok,
                "peer_public_key is not a valid base64-encoded 32-byte key"@,
            ) + other(
                c.peers.len() > 0,
                "`peers` must not be set when role = \"client\" (use `peer_public_key` instead)"@,
            )
        }),
{
}

/// The model of a configuration has what the configuration has, field by field, and the
/// links and peers one for one and in order.
pub proof fn law_model_has_what_the_config_has(c: Config, i: int)
    ensures
        c@.role == c.role,
        c@.private_key_path == c.private_key_path@,
        c@.links.len() == c.links@.len(),
        c@.peers.len() == c.peers@.len(),
        c@.peer_public_key is Some <==> c.peer_public_key is Some,
        c.peer_public_key is Some ==> c@.peer_public_key->0 == c.peer_public_key->0@,
        c@.listen_control is Some <==> c.listen_control is Some,
        c.listen_control is Some ==> c@.listen_control->0 == c.listen_control->0@,
        c@.listen_data is Some <==> c.listen_data is Some,
        c.listen_data is Some ==> c@.listen_data->0 == c.listen_data->0@,
        c@.server_control_addr is Some <==> c.server_control_addr is Some,
        c.server_control_addr is Some ==> c@.server_control_addr->0 == c.server_control_addr->0@,
        c@.server_data_addr is Some <==> c.server_data_addr is Some,
        c.server_data_addr is Some ==> c@.server_data_addr->0 == c.server_data_addr->0@,
        0 <= i < c.links@.len() ==> {
            let link = c.links@[i];
            &&& c@.links[i].id == link.id@
            &&& c@.links[i].mode == link.mode
            &&& c@.links[i].listen is Some <==> link.listen is Some
            &&& link.listen is Some ==> c@.links[i].listen->0 == link.listen->0@
            &&& c@.links[i].target is Some <==> link.target is Some
            &&& link.target is Some ==> c@.links[i].target->0 == link.target->0@
        },
        0 <= i < c.peers@.len() ==> {
            let peer = c.peers@[i];
            &&& c@.peers[i].name == peer.name@
            &&& c@.peers[i].public_key == peer.public_key@
            &&& c@.peers[i].links.len() == peer.links@.len()
            &&& forall|k: int|
                0 <= k < peer.links@.len() ==> #[trigger] c@.peers[i].links[k] == peer.links@[k]@
        },
{
}

/// What is told about links and peers is told one after the other, in the order of the
/// configuration, each once: of a link that its name is taken and then what is wrong with
/// its fields; of a peer its name, its key and the links that nobody defined.
pub proof fn law_problems_are_told_in_order(
    c: ConfigModel,
    keys: Seq<Option<Seq<u8>>>,
    n: nat,
    name: Seq<char>,
    ids: Seq<Seq<char>>,
    id: Seq<char>,
)
    ensures
        ({
            let told = |reason: bool, text: Seq<char>|
                if reason {
                    seq![text]
                } else {
                    Seq::<Seq<char>>::empty()
                };
            let link = c.links[n as int];
            let peer = c.peers[n as int];
            let accepts = (c.role is Client && link.mode is Forward) || (c.role is Server
                && link.mode is Reverse);
            let side = "link \""@ + link.id + "\": "@ + (if link.mode is Forward {
                "Forward"@
            } else {
                "Reverse"@
            }) + " on this side ("@ + (if c.role is Server {
                "Server"@
            } else {
                "Client"@
            });
            let field = if accepts {
                "listen"@
            } else {
                "target"@
            };
            let other = if accepts {
                "target"@
            } else {
                "listen"@
            };
            let addr = if accepts {
                link.listen
            } else {
                link.target
            };
            let extra = if accepts {
                link.target
            } else {
                link.listen
            };
            &&& links_errors(c.role, c.links, 0).len() == 0
            &&& links_errors(c.role, c.links, n + 1) == links_errors(c.role, c.links, n) + told(
                exists|j: int| 0 <= j < n && (#[trigger] c.links[j]).id == link.id,
                "link \""@ + link.id + "\": duplicate id"@,
            ) + link_errors(c.role, link)
            &&& link_errors(c.role, link) == told(
                addr is None,
                side + ") requires `"@ + field + "`"@,
            ) + told(
                extra is Some,
                side + ") must not set `"@ + other + "` (that belongs on the peer's config)"@,
            ) + told(
                addr is Some && !is_socket_addr(addr->0),
                "link \""@ + link.id + "\": `"@ + field + "` = \""@ + addr->0
                    + "\" is not a valid host:port address"@,
            )
            &&& peers_errors(c, keys, 0).len() == 0
            &&& peers_errors(c, keys, n + 1) == peers_errors(c, keys, n) + (told(
                exists|j: int| 0 <= j < n && (#[trigger] c.peers[j]).name == peer.name,
                "peer \""@ + peer.name + "\": duplicate name"@,
            ) + told(
                keys[n as int] is Some && exists|j: int|
                    0 <= j < n && #[trigger] keys[j] == keys[n as int],
                "peer \""@ + peer.name + "\": public_key is already used by another peer"@,
            ) + told(
                keys[n as int] is None,
                "peer \""@ + peer.name
                    + "\": public_key is not a valid base64-encoded 32-byte key"@,
            ) + unknown_links(peer.name, peer.links, c.links))
            &&& unknown_links(name, Seq::empty(), c.links).len() == 0
            &&& unknown_links(name, ids.push(id), c.links) == unknown_links(name, ids, c.links) + told(
                forall|j: int| 0 <= j < c.links.len() ==> (#[trigger] c.links[j]).id != id,
                "peer \""@ + name + "\": link id \""@ + id
                    + "\" is not defined in this config's `links`"@,
            )
        }),
{
    assert(ids.push(id).drop_last() =~= ids);
}

} // verus!
