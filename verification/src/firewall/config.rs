//! The tuning knobs, and where they are looked for.

use crate::config::{Config, Role};
use crate::text::{path_join, path_joined};
use vstd::prelude::*;

verus! {

/// How many failed handshakes an address may have, by default.
pub fn default_threshold() -> (n: usize)
    ensures
        n == 5,
{
    5
}

/// The window in which failed handshakes are counted, by default, in seconds.
pub fn default_window_secs() -> (n: u64)
    ensures
        n == 600,
{
    600
}

/// How long a ban lasts, by default, in seconds.
pub fn default_ban_secs() -> (n: u64)
    ensures
        n == 3600,
{
    3600
}

/// The service whose log is watched, by default.
pub fn default_service() -> (s: String)
    ensures
        s@ == "ghostport"@,
{
    "ghostport".to_string()
}

/// The firewall's own configuration.
#[derive(Debug, Clone)]
pub struct AppConfig {
    /// How many failed handshakes within the window get an address banned. One
    /// that the daemon's own limiter refused is banned at once.
    pub threshold: usize,
    /// The window, in seconds.
    pub window_secs: u64,
    /// How long a ban lasts, in seconds.
    pub ban_secs: u64,
    /// Addresses that are never banned, besides loopback and private ones.
    pub allowlist: Vec<String>,
    /// The service whose log is watched.
    pub service: String,
}

impl Default for AppConfig {
    fn default() -> (c: AppConfig)
        ensures
            c.threshold == 5,
            c.window_secs == 600,
            c.ban_secs == 3600,
            c.allowlist@.len() == 0,
            c.service@ == "ghostport"@,
    {
        AppConfig {
            threshold: default_threshold(),
            window_secs: default_window_secs(),
            ban_secs: default_ban_secs(),
            allowlist: Vec::new(),
            service: default_service(),
        }
    }
}

/// Where the configuration is looked for, first place first: below the user's
/// configuration directory, which is named outright or lies in the home
/// directory, and then in the working directory. Where neither directory is
/// known, only the working directory is left.
pub open spec fn config_places(config_home: Option<Seq<char>>, home: Option<Seq<char>>) -> Option<
    Seq<Seq<char>>,
> {
    let dir = match (config_home, home) {
        (Some(dir), _) => Some(dir),
        (None, Some(home)) => Some(path_joined(home, ".config"@)),
        (None, None) => None,
    };
    match dir {
        Some(dir) => Some(
            seq![
                path_joined(path_joined(dir, "ghostport-firewall"@), "config.toml"@),
                "config.toml"@,
            ],
        ),
        None => Some(seq!["config.toml"@]),
    }
}

/// Lists the places where the configuration is looked for.
pub fn default_config_path(config_home: Option<&str>, home: Option<&str>) -> (r: Option<Vec<String>>)
    ensures
        config_places(
            match config_home {
                Some(s) => Some(s@),
                None => None,
            },
            match home {
                Some(s) => Some(s@),
                None => None,
            },
        ) == (match r {
            Some(list) => Some(list.deep_view()),
            None => None,
        }),
{
    let dir = match (config_home, home) {
        (Some(dir), _) => Some(dir.to_string()),
        (None, Some(home)) => Some(path_join(home, ".config")),
        (None, None) => None,
    };
    let mut list: Vec<String> = Vec::new();
    match dir {
        Some(dir) => {
            let below = path_join(dir.as_str(), "ghostport-firewall");
            list.push(path_join(below.as_str(), "config.toml"));
            list.push("config.toml".to_string());
            assert(list.deep_view() =~= seq![
                path_joined(path_joined(dir@, "ghostport-firewall"@), "config.toml"@),
                "config.toml"@,
            ]);
        },
        None => {
            list.push("config.toml".to_string());
            assert(list.deep_view() =~= seq!["config.toml"@]);
        },
    }
    Some(list)
}

/// What is said of a configuration that is a client's.
pub open spec fn client_role_message(path: Seq<char>) -> Seq<char> {
    path + " is a client-role config -- a client never accepts inbound connections, so there is nothing here for ghostport-firewall to protect"@
}

/// Makes sure that the daemon to protect, whose configuration at `path` is
/// `config`, is a server: a client never accepts connections.
pub fn check_target_is_server_role(path: &str, config: &Config) -> (r: Result<(), String>)
    ensures
        match r {
            Ok(_) => config.role is Server,
            Err(m) => config.role is Client && m@ == client_role_message(path@),
        },
{
    if config.role != Role::Server {
        let mut m = path.to_string();
        m.push_str(
            " is a client-role config -- a client never accepts inbound connections, so there is nothing here for ghostport-firewall to protect",
        );
        return Err(m);
    }
    Ok(())
}

/// The configuration is looked for below the directory for configurations, which lies
/// in the home directory unless it is named, and then in the working directory, which
/// is left even where neither is known.
pub proof fn law_config_is_looked_for_in_order(dir: Seq<char>, home: Option<Seq<char>>)
    ensures
        config_places(Some(dir), home) == Some(
            seq![
                path_joined(path_joined(dir, "ghostport-firewall"@), "config.toml"@),
                "config.toml"@,
            ],
        ),
        home matches Some(h) ==> config_places(None, home) == config_places(
            Some(path_joined(h, ".config"@)),
            home,
        ),
        config_places(None, None) == Some(seq!["config.toml"@]),
{
}

/// A configuration that is a client's is refused by name.
pub proof fn law_client_is_refused_by_name(path: Seq<char>)
    ensures
        client_role_message(path) == path
            + " is a client-role config -- a client never accepts inbound connections, so there is nothing here for ghostport-firewall to protect"@,
{
}

} // verus!
