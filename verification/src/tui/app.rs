//! The state of the console. Three tabs: the live status of the daemon, which
//! may or may not be running; the links, which can be added, edited and removed,
//! and are checked before they are written; and the service, with a menu of what
//! can be done to it.
//!
//! Editing never touches a daemon that runs already: it prepares the
//! configuration for the next start.

use super::templates::{custom_index, menu_len, template, template_at, TEMPLATE_COUNT};
use crate::config::{
    client_key_ok, config_errors, decoded_peer_keys, has_link, is_valid_link, link_models,
    needs_listen, Config, ConfigModel, LinkConfig, LinkMode, LinkModel, Role,
};
use crate::links::{named_index, names_of, Named};
use crate::net::{is_socket_addr, parses_as_socket_addr};
use crate::stats::{LinkSnapshot, LinkSnapshotModel, StatusModel, StatusSnapshot};
use crate::text::{chars_of, clone_text, dec, join, joined, push_dec, str_eq, trim, trimmed};
use vstd::prelude::*;

verus! {

/// The tabs.
#[derive(Debug, Clone, Copy, PartialEq, Eq, Structural)]
pub enum Tab {
    /// The live status.
    Status,
    /// The links.
    Links,
    /// The service.
    Service,
}

/// What can be done to the service.
#[derive(Debug, Clone, Copy, PartialEq, Eq, Structural)]
pub enum ServiceAction {
    /// Start it.
    Start,
    /// Stop it.
    Stop,
    /// Stop and start it.
    Restart,
    /// Have it started at boot.
    Enable,
    /// Do not have it started at boot.
    Disable,
    /// Install its unit file.
    InstallUnit,
    /// Show its recent log.
    ViewLogs,
}

/// The menu of the service tab.
pub const SERVICE_MENU: [ServiceAction; 7] = [
    ServiceAction::Start,
    ServiceAction::Stop,
    ServiceAction::Restart,
    ServiceAction::Enable,
    ServiceAction::Disable,
    ServiceAction::InstallUnit,
    ServiceAction::ViewLogs,
];

/// How many entries the menu of the service tab has.
pub const SERVICE_MENU_LEN: usize = 7;

/// The word for an action on the command line; none where there is no such
/// command.
pub open spec fn verb_of(action: ServiceAction) -> Seq<char> {
    match action {
        ServiceAction::Start => "start"@,
        ServiceAction::Stop => "stop"@,
        ServiceAction::Restart => "restart"@,
        ServiceAction::Enable => "enable"@,
        ServiceAction::Disable => "disable"@,
        ServiceAction::InstallUnit => ""@,
        ServiceAction::ViewLogs => ""@,
    }
}

/// The name of an action in the menu.
pub open spec fn label_of(action: ServiceAction) -> Seq<char> {
    match action {
        ServiceAction::Start => "Start"@,
        ServiceAction::Stop => "Stop"@,
        ServiceAction::Restart => "Restart"@,
        ServiceAction::Enable => "Enable at boot"@,
        ServiceAction::Disable => "Disable at boot"@,
        ServiceAction::InstallUnit => "Install systemd unit"@,
        ServiceAction::ViewLogs => "View recent logs"@,
    }
}

impl ServiceAction {
    /// The word for the action on the command line.
    pub fn systemctl_verb(self) -> (s: &'static str)
        ensures
            s@ == verb_of(self),
    {
        match self {
            ServiceAction::Start => "start",
            ServiceAction::Stop => "stop",
            ServiceAction::Restart => "restart",
            ServiceAction::Enable => "enable",
            ServiceAction::Disable => "disable",
            ServiceAction::InstallUnit => "",
            ServiceAction::ViewLogs => "",
        }
    }

    /// The name of the action in the menu.
    pub fn label(self) -> (s: &'static str)
        ensures
            s@ == label_of(self),
    {
        match self {
            ServiceAction::Start => "Start",
            ServiceAction::Stop => "Stop",
            ServiceAction::Restart => "Restart",
            ServiceAction::Enable => "Enable at boot",
            ServiceAction::Disable => "Disable at boot",
            ServiceAction::InstallUnit => "Install systemd unit",
            ServiceAction::ViewLogs => "View recent logs",
        }
    }

    /// Whether the action has to be confirmed: all but viewing the log change
    /// the system.
    pub fn needs_confirm(self) -> (r: bool)
        ensures
            r == (self != ServiceAction::ViewLogs),
    {
        self != ServiceAction::ViewLogs
    }
}

/// What the console is doing.
#[derive(Debug, Clone, Copy, PartialEq, Eq, Structural)]
pub enum Mode {
    /// Nothing in particular.
    Normal,
    /// A template for a new link is being chosen.
    ChooseTemplate,
    /// The name of a link is being typed.
    AddLinkId,
    /// The mode of a link is being chosen.
    AddLinkMode,
    /// The address of a link is being typed.
    AddLinkAddress,
    /// The removal of a link waits to be confirmed.
    ConfirmRemoveLink,
    /// An action on the service waits to be confirmed.
    ConfirmServiceAction,
}

/// The whole state of the console.
pub struct App {
    /// Where the configuration is stored.
    pub config_path: String,
    /// Where the daemon's status socket is.
    pub socket_path: String,
    /// The configuration, as edited so far.
    pub config: Config,
    /// Whether there is anything to save.
    pub dirty: bool,
    /// The tab that is shown.
    pub tab: Tab,
    /// What the console is doing.
    pub mode: Mode,
    /// What has been typed.
    pub input_buffer: String,
    /// The selected link.
    pub links_selected: usize,
    /// The selected place in the menu of templates.
    pub template_selected: usize,
    /// The selected place in the menu of the service.
    pub service_menu_selected: usize,
    /// The daemon's status, if it could be had.
    pub status_snapshot: Option<StatusSnapshot>,
    /// Why it could not be had.
    pub status_error: Option<String>,
    /// The status before, and when it was taken, in nanoseconds.
    pub previous_snapshot: Option<(u128, StatusSnapshot)>,
    /// When the status was taken, in nanoseconds.
    pub status_captured_at: Option<u128>,
    /// Whether the service is active, as the system says it.
    pub service_state: Option<String>,
    /// Whether the service is enabled, as the system says it.
    pub enabled_state: Option<String>,
    /// The action that has been asked for.
    pub pending_service_action: Option<ServiceAction>,
    /// What to tell the user.
    pub message: Option<String>,
    /// Whether to leave.
    pub should_quit: bool,
    /// The name of the link that is being added or edited.
    pub pending_link_id: Option<String>,
    /// Its mode.
    pub pending_link_mode: Option<LinkMode>,
    /// The address that is suggested for it.
    pub pending_default_address: Option<String>,
    /// The name that the link had before it was edited.
    pub editing_original_id: Option<String>,
}

/// What an `App` says.
#[verifier::ext_equal]
pub struct AppModel {
    pub config_path: Seq<char>,
    pub socket_path: Seq<char>,
    pub config: ConfigModel,
    pub dirty: bool,
    pub tab: Tab,
    pub mode: Mode,
    pub input_buffer: Seq<char>,
    pub links_selected: nat,
    pub template_selected: nat,
    pub service_menu_selected: nat,
    pub status_snapshot: Option<StatusModel>,
    pub status_error: Option<Seq<char>>,
    pub previous_snapshot: Option<(u128, StatusModel)>,
    pub status_captured_at: Option<u128>,
    pub service_state: Option<Seq<char>>,
    pub enabled_state: Option<Seq<char>>,
    pub pending_service_action: Option<ServiceAction>,
    pub message: Option<Seq<char>>,
    pub should_quit: bool,
    pub pending_link_id: Option<Seq<char>>,
    pub pending_link_mode: Option<LinkMode>,
    pub pending_default_address: Option<Seq<char>>,
    pub editing_original_id: Option<Seq<char>>,
}

impl View for App {
    type V = AppModel;

    open spec fn view(&self) -> AppModel {
        AppModel {
            config_path: self.config_path@,
            socket_path: self.socket_path@,
            config: self.config@,
            dirty: self.dirty,
            tab: self.tab,
            mode: self.mode,
            input_buffer: self.input_buffer@,
            links_selected: self.links_selected as nat,
            template_selected: self.template_selected as nat,
            service_menu_selected: self.service_menu_selected as nat,
            status_snapshot: match self.status_snapshot {
                Some(s) => Some(s@),
                None => None,
            },
            status_error: self.status_error.deep_view(),
            previous_snapshot: match self.previous_snapshot {
                Some((t, s)) => Some((t, s@)),
                None => None,
            },
            status_captured_at: self.status_captured_at,
            service_state: self.service_state.deep_view(),
            enabled_state: self.enabled_state.deep_view(),
            pending_service_action: self.pending_service_action,
            message: self.message.deep_view(),
            should_quit: self.should_quit,
            pending_link_id: self.pending_link_id.deep_view(),
            pending_link_mode: self.pending_link_mode,
            pending_default_address: self.pending_default_address.deep_view(),
            editing_original_id: self.editing_original_id.deep_view(),
        }
    }
}

// ---------------------------------------------------------------------
// What the operations do
// ---------------------------------------------------------------------

/// The console at its start.
pub open spec fn fresh_app(
    config_path: Seq<char>,
    socket_path: Seq<char>,
    config: ConfigModel,
) -> AppModel {
    AppModel {
        config_path,
        socket_path,
        config,
        dirty: false,
        tab: Tab::Status,
        mode: Mode::Normal,
        input_buffer: Seq::empty(),
        links_selected: 0,
        template_selected: 0,
        service_menu_selected: 0,
        status_snapshot: None,
        status_error: None,
        previous_snapshot: None,
        status_captured_at: None,
        service_state: None,
        enabled_state: None,
        pending_service_action: None,
        message: None,
        should_quit: false,
        pending_link_id: None,
        pending_link_mode: None,
        pending_default_address: None,
        editing_original_id: None,
    }
}

/// The snapshot that comes before the next one, and its time: the one that is
/// shown, and otherwise the one that was the previous one already.
pub open spec fn snapshot_before_next(a: AppModel, now: u128) -> Option<(u128, StatusModel)> {
    match a.status_snapshot {
        Some(current) => Some(
            (
                match a.status_captured_at {
                    Some(t) => t,
                    None => now,
                },
                current,
            ),
        ),
        None => a.previous_snapshot,
    }
}

/// After an answer of the daemon: the status before becomes the previous one.
/// A failure takes the status away, and keeps it as the previous one all the same.
pub open spec fn with_status(a: AppModel, result: Result<StatusModel, Seq<char>>, now: u128) -> AppModel {
    match result {
        Ok(snap) => AppModel {
            previous_snapshot: snapshot_before_next(a, now),
            status_captured_at: Some(now),
            status_snapshot: Some(snap),
            status_error: None,
            ..a
        },
        Err(e) => AppModel {
            previous_snapshot: snapshot_before_next(a, now),
            status_snapshot: None,
            status_error: Some(e),
            ..a
        },
    }
}

/// The tab that comes next.
pub open spec fn tab_after(tab: Tab) -> Tab {
    match tab {
        Tab::Status => Tab::Links,
        Tab::Links => Tab::Service,
        Tab::Service => Tab::Status,
    }
}

/// A cursor moved by `delta` in a menu of `len` entries; it wraps around at both
/// ends.
pub open spec fn moved(cursor: nat, delta: int, len: nat) -> nat {
    if len == 0 {
        cursor
    } else {
        ((cursor + delta) % (len as int)) as nat
    }
}

/// At the start of adding a link.
pub open spec fn adding(a: AppModel) -> AppModel {
    AppModel {
        editing_original_id: None,
        pending_link_id: None,
        pending_link_mode: None,
        pending_default_address: None,
        template_selected: 0,
        input_buffer: Seq::empty(),
        mode: Mode::ChooseTemplate,
        ..a
    }
}

/// The address that a link has on this side.
pub open spec fn link_address(link: LinkModel) -> Seq<char> {
    match (link.listen, link.target) {
        (Some(l), _) => l,
        (None, Some(t)) => t,
        (None, None) => Seq::empty(),
    }
}

/// At the start of editing the selected link: every step starts with its current
/// values.
pub open spec fn editing(a: AppModel) -> AppModel {
    if a.links_selected < a.config.links.len() {
        let link = a.config.links[a.links_selected as int];
        AppModel {
            editing_original_id: Some(link.id),
            pending_link_id: None,
            pending_link_mode: None,
            pending_default_address: Some(link_address(link)),
            input_buffer: link.id,
            mode: Mode::AddLinkId,
            ..a
        }
    } else {
        a
    }
}

/// After a template has been chosen: a real one suggests a name and an address
/// and settles the mode; with "custom", everything is typed.
pub open spec fn template_chosen(a: AppModel) -> AppModel {
    if a.template_selected == TEMPLATE_COUNT {
        AppModel { input_buffer: Seq::empty(), mode: Mode::AddLinkId, ..a }
    } else if a.template_selected < TEMPLATE_COUNT {
        let t = template_at(a.template_selected as int);
        AppModel {
            pending_link_mode: Some(t.mode),
            pending_default_address: Some("127.0.0.1:"@ + dec(t.default_port as nat)),
            input_buffer: t.default_id@,
            mode: Mode::AddLinkId,
            ..a
        }
    } else {
        AppModel { mode: Mode::AddLinkId, ..a }
    }
}

/// The text that a suggestion starts the input with.
pub open spec fn or_empty(t: Option<Seq<char>>) -> Seq<char> {
    match t {
        Some(s) => s,
        None => Seq::empty(),
    }
}

/// After the name has been typed: an empty one cancels; otherwise the mode is
/// asked for, unless it is settled.
pub open spec fn id_confirmed(a: AppModel) -> AppModel {
    let id = trimmed(a.input_buffer);
    if id.len() == 0 {
        cancelled(a)
    } else if a.pending_link_mode is Some {
        AppModel {
            pending_link_id: Some(id),
            input_buffer: or_empty(a.pending_default_address),
            mode: Mode::AddLinkAddress,
            ..a
        }
    } else {
        AppModel {
            pending_link_id: Some(id),
            input_buffer: Seq::empty(),
            mode: Mode::AddLinkMode,
            ..a
        }
    }
}

/// After the mode has been chosen.
pub open spec fn mode_chosen(a: AppModel, mode: LinkMode) -> AppModel {
    AppModel {
        pending_link_mode: Some(mode),
        input_buffer: or_empty(a.pending_default_address),
        mode: Mode::AddLinkAddress,
        ..a
    }
}

/// After adding or editing has been given up: the configuration is as it was.
pub open spec fn cancelled(a: AppModel) -> AppModel {
    AppModel {
        pending_link_id: None,
        pending_link_mode: None,
        pending_default_address: None,
        editing_original_id: None,
        input_buffer: Seq::empty(),
        mode: Mode::Normal,
        ..a
    }
}

/// The links without those of that name.
pub open spec fn without(links: Seq<LinkModel>, id: Seq<char>) -> Seq<LinkModel>
    decreases links.len(),
{
    if links.len() == 0 {
        Seq::empty()
    } else if links[0].id == id {
        without(links.drop_first(), id)
    } else {
        seq![links[0]] + without(links.drop_first(), id)
    }
}

/// The link that is made of a name, a mode and an address on the side `role`.
pub open spec fn new_link(role: Role, id: Seq<char>, mode: LinkMode, addr: Seq<char>) -> LinkModel {
    if needs_listen(role, mode) {
        LinkModel { id, mode, listen: Some(addr), target: None }
    } else {
        LinkModel { id, mode, listen: None, target: Some(addr) }
    }
}

/// The links after one has been added, or has taken the place of the one that was
/// edited. A link that had the name before gives way.
pub open spec fn with_link(links: Seq<LinkModel>, edited: Option<Seq<char>>, link: LinkModel) -> Seq<
    LinkModel,
> {
    let rest = match edited {
        Some(old_id) => if old_id != link.id {
            without(links, old_id)
        } else {
            links
        },
        None => links,
    };
    without(rest, link.id).push(link)
}

/// What is said of an address that is none.
pub open spec fn bad_address_message(addr: Seq<char>) -> Seq<char> {
    "\""@ + addr
        + "\" isn't a valid host:port (e.g. 127.0.0.1:5432) — fix it and press enter"@
}

/// What is said of a link that was added or edited.
pub open spec fn link_done_message(edited: bool, id: Seq<char>) -> Seq<char> {
    (if edited {
        "updated"@
    } else {
        "added"@
    }) + " \""@ + id
        + "\" (unsaved — press s to write, or the daemon won't see it until restart)"@
}

/// After the address has been typed. An empty one cancels. One that is no socket
/// address is refused, and nothing that was entered is lost. Otherwise the link is
/// put into the configuration and selected.
pub open spec fn address_confirmed(a: AppModel) -> AppModel {
    match (a.pending_link_id, a.pending_link_mode) {
        (Some(id), Some(mode)) => {
            let addr = trimmed(a.input_buffer);
            if addr.len() == 0 {
                AppModel { message: Some("cancelled: address can't be empty"@), ..cancelled(a) }
            } else if !is_socket_addr(addr) {
                AppModel { message: Some(bad_address_message(addr)), ..a }
            } else {
                let links = with_link(
                    a.config.links,
                    a.editing_original_id,
                    new_link(a.config.role, id, mode, addr),
                );
                AppModel {
                    config: ConfigModel { links, ..a.config },
                    dirty: true,
                    links_selected: (links.len() - 1) as nat,
                    message: Some(link_done_message(a.editing_original_id is Some, id)),
                    ..cancelled(a)
                }
            }
        },
        _ => AppModel {
            pending_link_id: None,
            pending_link_mode: None,
            mode: Mode::Normal,
            ..a
        },
    }
}

/// After the selected link has been removed.
pub open spec fn link_removed(a: AppModel) -> AppModel {
    if a.links_selected < a.config.links.len() {
        AppModel {
            config: ConfigModel {
                links: a.config.links.remove(a.links_selected as int),
                ..a.config
            },
            links_selected: if a.links_selected > 0 {
                (a.links_selected - 1) as nat
            } else {
                0
            },
            dirty: true,
            message: Some(
                "removed \""@ + a.config.links[a.links_selected as int].id
                    + "\" (unsaved — press s to write)"@,
            ),
            mode: Mode::Normal,
            ..a
        }
    } else {
        AppModel { mode: Mode::Normal, ..a }
    }
}

/// What is said of a configuration that was not saved.
pub open spec fn refused_message(errors: Seq<Seq<char>>) -> Seq<char> {
    "refused to save — "@ + dec(errors.len()) + " problem(s): "@ + joined(errors, "; "@)
}

/// All that is wrong with a configuration.
pub open spec fn errors_in(c: ConfigModel) -> Seq<Seq<char>> {
    config_errors(c, client_key_ok(c), decoded_peer_keys(c))
}

/// After saving has been asked for: a configuration that is not valid is refused.
pub open spec fn save_checked(a: AppModel) -> AppModel {
    if errors_in(a.config).len() == 0 {
        a
    } else {
        AppModel { message: Some(refused_message(errors_in(a.config))), ..a }
    }
}

/// After the configuration has been written, or could not be.
pub open spec fn save_done(a: AppModel, result: Result<(), Seq<char>>) -> AppModel {
    match result {
        Ok(_) => AppModel { dirty: false, message: Some("saved "@ + a.config_path), ..a },
        Err(e) => AppModel { message: Some(refused_message(seq![e])), ..a },
    }
}

/// After an action has been picked from the menu: all but viewing the log wait to
/// be confirmed.
pub open spec fn action_picked(a: AppModel) -> AppModel {
    let action = SERVICE_MENU@[a.service_menu_selected as int];
    AppModel {
        pending_service_action: Some(action),
        mode: if action != ServiceAction::ViewLogs {
            Mode::ConfirmServiceAction
        } else {
            a.mode
        },
        ..a
    }
}

/// Moves a cursor in a menu.
pub fn move_cursor(cursor: usize, delta: isize, len: usize) -> (r: usize)
    ensures
        r == moved(cursor as nat, delta as int, len as nat),
        len > 0 ==> r < len,
{
    if len == 0 {
        return cursor;
    }
    let at: i128 = cursor as i128 + delta as i128;
    match at.checked_rem_euclid(len as i128) {
        Some(r) => r as usize,
        None => cursor,
    }
}

/// Takes every link of that name out of the list.
fn remove_links(links: &mut Vec<LinkConfig>, id: &str)
    ensures
        link_models(final(links)@) == without(link_models(old(links)@), id@),
{
    let ghost all = link_models(links@);
    let mut i: usize = 0;
    assert(all.skip(0) =~= all);
    assert(all.take(0) + without(all.skip(0), id@) =~= without(all, id@));
    while i < links.len()
        invariant
            i <= links@.len(),
            link_models(links@).take(i as int) + without(link_models(links@).skip(i as int), id@)
                == without(all, id@),
        decreases links@.len() - i,
    {
        let ghost before = link_models(links@);
        let ghost tail = before.skip(i as int);
        assert(tail[0] == links@[i as int]@);
        assert(tail.drop_first() =~= before.skip(i + 1));
        if str_eq(links[i].id.as_str(), id) {
            let _ = links.remove(i);
            proof {
                assert(link_models(links@).take(i as int) =~= before.take(i as int));
                assert(link_models(links@).skip(i as int) =~= before.skip(i + 1));
            }
        } else {
            proof {
                assert(before.take(i + 1) =~= before.take(i as int) + seq![tail[0]]);
                assert(before.take(i as int) + (seq![tail[0]] + without(before.skip(i + 1), id@))
                    =~= before.take(i + 1) + without(before.skip(i + 1), id@));
            }
            i = i + 1;
        }
    }
    proof {
        let now = link_models(links@);
        assert(now.skip(i as int) =~= Seq::<LinkModel>::empty());
        assert(now.take(i as int) =~= now);
        assert(now + Seq::<LinkModel>::empty() =~= now);
    }
}

impl App {
    /// The console at its start, with the configuration that has been loaded from
    /// `config_path`.
    pub fn new(config_path: String, socket_path: String, config: Config) -> (a: App)
        ensures
            a@ == fresh_app(config_path@, socket_path@, config@),
    {
        App {
            config_path,
            socket_path,
            config,
            dirty: false,
            tab: Tab::Status,
            mode: Mode::Normal,
            input_buffer: String::new(),
            links_selected: 0,
            template_selected: 0,
            service_menu_selected: 0,
            status_snapshot: None,
            status_error: None,
            previous_snapshot: None,
            status_captured_at: None,
            service_state: None,
            enabled_state: None,
            pending_service_action: None,
            message: None,
            should_quit: false,
            pending_link_id: None,
            pending_link_mode: None,
            pending_default_address: None,
            editing_original_id: None,
        }
    }

    /// Takes an answer of the daemon in, at the time `now`.
    pub fn apply_status(&mut self, result: Result<StatusSnapshot, String>, now: u128)
        ensures
            final(self)@ == with_status(
                old(self)@,
                match result {
                    Ok(s) => Ok(s@),
                    Err(e) => Err(e@),
                },
                now,
            ),
    {
        let captured = match self.status_captured_at {
            Some(t) => t,
            None => now,
        };
        if let Some(current) = self.status_snapshot.take() {
            self.previous_snapshot = Some((captured, current));
        }
        match result {
            Ok(snap) => {
                self.status_captured_at = Some(now);
                self.status_snapshot = Some(snap);
                self.status_error = None;
            },
            Err(e) => {
                self.status_error = Some(e);
            },
        }
    }

    /// Shows the next tab.
    pub fn next_tab(&mut self)
        ensures
            final(self)@ == (AppModel { tab: tab_after(old(self)@.tab), ..old(self)@ }),
    {
        self.tab = match self.tab {
            Tab::Status => Tab::Links,
            Tab::Links => Tab::Service,
            Tab::Service => Tab::Status,
        };
    }

    /// The link that is selected, if there is one.
    pub fn selected_link(&self) -> (r: Option<&LinkConfig>)
        ensures
            match r {
                Some(l) => self.links_selected < self.config.links@.len() && *l
                    == self.config.links@[self.links_selected as int],
                None => self.links_selected >= self.config.links@.len(),
            },
    {
        if self.links_selected < self.config.links.len() {
            Some(&self.config.links[self.links_selected])
        } else {
            None
        }
    }

    /// Selects another link.
    pub fn move_link_selection(&mut self, delta: isize)
        ensures
            final(self)@ == (AppModel {
                links_selected: moved(
                    old(self)@.links_selected,
                    delta as int,
                    old(self)@.config.links.len(),
                ),
                ..old(self)@
            }),
    {
        self.links_selected = move_cursor(self.links_selected, delta, self.config.links.len());
    }

    /// Starts adding a link: opens the menu of templates.
    pub fn begin_add_link(&mut self)
        ensures
            final(self)@ == adding(old(self)@),
    {
        self.editing_original_id = None;
        self.pending_link_id = None;
        self.pending_link_mode = None;
        self.pending_default_address = None;
        self.template_selected = 0;
        self.input_buffer = String::new();
        self.mode = Mode::ChooseTemplate;
    }

    /// Starts editing the selected link.
    pub fn begin_edit_link(&mut self)
        ensures
            final(self)@ == editing(old(self)@),
    {
        if self.links_selected >= self.config.links.len() {
            return;
        }
        let link = &self.config.links[self.links_selected];
        assert(self@.config.links[self.links_selected as int] == link@);
        let id = link.id.clone();
        let addr = match &link.listen {
            Some(l) => l.clone(),
            None => match &link.target {
                Some(t) => t.clone(),
                None => String::new(),
            },
        };
        self.editing_original_id = Some(id.clone());
        self.pending_link_id = None;
        self.pending_link_mode = None;
        self.pending_default_address = Some(addr);
        self.input_buffer = id;
        self.mode = Mode::AddLinkId;
    }

    /// Moves in the menu of templates.
    pub fn move_template_selection(&mut self, delta: isize)
        ensures
            final(self)@ == (AppModel {
                template_selected: moved(
                    old(self)@.template_selected,
                    delta as int,
                    (TEMPLATE_COUNT + 1) as nat,
                ),
                ..old(self)@
            }),
    {
        self.template_selected = move_cursor(self.template_selected, delta, menu_len());
    }

    /// Takes the template that is selected.
    pub fn confirm_template_choice(&mut self)
        ensures
            final(self)@ == template_chosen(old(self)@),
    {
        if self.template_selected == custom_index() {
            self.input_buffer = String::new();
        } else if let Some(t) = template(self.template_selected) {
            let mut addr = "127.0.0.1:".to_string();
            push_dec(&mut addr, t.default_port as u64);
            self.pending_link_mode = Some(t.mode);
            self.pending_default_address = Some(addr);
            self.input_buffer = t.default_id.to_string();
        }
        self.mode = Mode::AddLinkId;
    }

    /// Takes the name that has been typed.
    pub fn confirm_link_id(&mut self)
        ensures
            final(self)@ == id_confirmed(old(self)@),
    {
        let id = trim(self.input_buffer.as_str());
        if id.as_str().is_empty() {
            self.cancel_link_wizard();
            return;
        }
        self.pending_link_id = Some(id);
        if self.pending_link_mode.is_some() {
            self.input_buffer = self.suggested_address();
            self.mode = Mode::AddLinkAddress;
        } else {
            self.input_buffer = String::new();
            self.mode = Mode::AddLinkMode;
        }
    }

    /// The address that the input starts with.
    fn suggested_address(&self) -> (s: String)
        ensures
            s@ == or_empty(self@.pending_default_address),
    {
        match &self.pending_default_address {
            Some(a) => a.clone(),
            None => String::new(),
        }
    }

    /// Takes the mode that has been chosen.
    pub fn choose_link_mode(&mut self, mode: LinkMode)
        ensures
            final(self)@ == mode_chosen(old(self)@, mode),
    {
        self.pending_link_mode = Some(mode);
        self.input_buffer = self.suggested_address();
        self.mode = Mode::AddLinkAddress;
    }

    /// Whether the link that is being added or edited needs a listening address
    /// on this side, by the rule that the daemon itself goes by.
    pub fn pending_link_needs_listen(&self) -> (r: Option<bool>)
        ensures
            r == (match self@.pending_link_mode {
                Some(mode) => Some(needs_listen(self@.config.role, mode)),
                None => None,
            }),
    {
        match self.pending_link_mode {
            Some(mode) => Some(self.config.link_needs_listen(mode)),
            None => None,
        }
    }

    /// Whether a link is being edited.
    pub fn is_editing(&self) -> (r: bool)
        ensures
            r == (self@.editing_original_id is Some),
    {
        self.editing_original_id.is_some()
    }

    /// Whether what has been typed so far is an address; nothing while nothing has
    /// been typed.
    pub fn link_address_input_status(&self) -> (r: Option<bool>)
        ensures
            r == (if trimmed(self@.input_buffer).len() == 0 {
                None
            } else {
                Some(is_socket_addr(trimmed(self@.input_buffer)))
            }),
    {
        let t = trim(self.input_buffer.as_str());
        if t.as_str().is_empty() {
            None
        } else {
            Some(parses_as_socket_addr(&chars_of(t.as_str())))
        }
    }

    /// Takes the address that has been typed.
    pub fn confirm_link_address(&mut self)
        ensures
            final(self)@ == address_confirmed(old(self)@),
    {
        let (id, mode) = match (&self.pending_link_id, self.pending_link_mode) {
            (Some(id), Some(mode)) => (id.clone(), mode),
            _ => {
                self.pending_link_id = None;
                self.pending_link_mode = None;
                self.mode = Mode::Normal;
                return;
            },
        };
        let addr = trim(self.input_buffer.as_str());
        if addr.as_str().is_empty() {
            self.cancel_link_wizard();
            self.message = Some("cancelled: address can't be empty".to_string());
            return;
        }
        if !parses_as_socket_addr(&chars_of(addr.as_str())) {
            let mut m = "\"".to_string();
            m.push_str(addr.as_str());
            m.push_str(
                "\" isn't a valid host:port (e.g. 127.0.0.1:5432) — fix it and press enter",
            );
            self.message = Some(m);
            return;
        }
        let link = if self.config.link_needs_listen(mode) {
            LinkConfig { id: id.clone(), mode, listen: Some(addr), target: None }
        } else {
            LinkConfig { id: id.clone(), mode, listen: None, target: Some(addr) }
        };
        let edited = clone_text(&self.editing_original_id);
        self.put_link(&edited, link);
        self.dirty = true;
        let mut m = if edited.is_some() {
            "updated".to_string()
        } else {
            "added".to_string()
        };
        m.push_str(" \"");
        m.push_str(id.as_str());
        m.push_str("\" (unsaved — press s to write, or the daemon won't see it until restart)");
        self.cancel_link_wizard();
        self.message = Some(m);
    }

    /// Puts a link into the configuration and selects it.
    fn put_link(&mut self, edited: &Option<String>, link: LinkConfig)
        ensures
            ({
                let links = with_link(old(self)@.config.links, edited.deep_view(), link@);
                final(self)@ == (AppModel {
                    config: ConfigModel { links, ..old(self)@.config },
                    links_selected: (links.len() - 1) as nat,
                    ..old(self)@
                })
            }),
    {
        if let Some(old_id) = edited {
            if !str_eq(old_id.as_str(), link.id.as_str()) {
                remove_links(&mut self.config.links, old_id.as_str());
            }
        }
        remove_links(&mut self.config.links, link.id.as_str());
        let ghost before = link_models(self.config.links@);
        let ghost model = link@;
        self.config.links.push(link);
        assert(link_models(self.config.links@) =~= before.push(model));
        self.links_selected = self.config.links.len() - 1;
    }

    /// Gives adding or editing up.
    pub fn cancel_link_wizard(&mut self)
        ensures
            final(self)@ == cancelled(old(self)@),
    {
        self.pending_link_id = None;
        self.pending_link_mode = None;
        self.pending_default_address = None;
        self.editing_original_id = None;
        self.input_buffer = String::new();
        self.mode = Mode::Normal;
    }

    /// Removes the selected link.
    pub fn remove_selected_link(&mut self)
        ensures
            final(self)@ == link_removed(old(self)@),
    {
        if self.links_selected < self.config.links.len() {
            let ghost before = link_models(self.config.links@);
            let removed = self.config.links.remove(self.links_selected);
            proof {
                let i = self.links_selected as int;
                assert(removed@ == before[i]);
                assert(link_models(self.config.links@) =~= before.remove(i));
            }
            if self.links_selected > 0 {
                self.links_selected = self.links_selected - 1;
            }
            self.dirty = true;
            let mut m = "removed \"".to_string();
            m.push_str(removed.id.as_str());
            m.push_str("\" (unsaved — press s to write)");
            self.message = Some(m);
        }
        self.mode = Mode::Normal;
    }

    /// Asks whether the configuration may be written. One that is not valid never
    /// is: the user is told what is wrong with it instead.
    pub fn save_config(&mut self) -> (write: bool)
        ensures
            write == (errors_in(old(self)@.config).len() == 0),
            final(self)@ == save_checked(old(self)@),
    {
        match self.config.check_before_save() {
            Ok(_) => true,
            Err(errors) => {
                self.message = Some(refusal(&errors));
                false
            },
        }
    }

    /// Takes in how writing the configuration went.
    pub fn config_written(&mut self, result: Result<(), String>)
        ensures
            final(self)@ == save_done(
                old(self)@,
                match result {
                    Ok(_) => Ok(()),
                    Err(e) => Err(e@),
                },
            ),
    {
        match result {
            Ok(_) => {
                self.dirty = false;
                let mut m = "saved ".to_string();
                m.push_str(self.config_path.as_str());
                self.message = Some(m);
            },
            Err(e) => {
                let ghost text = e@;
                let mut errors: Vec<String> = Vec::new();
                errors.push(e);
                assert(errors.deep_view() =~= seq![text]);
                self.message = Some(refusal(&errors));
            },
        }
    }

    /// Moves in the menu of the service.
    pub fn move_service_selection(&mut self, delta: isize)
        ensures
            final(self)@ == (AppModel {
                service_menu_selected: moved(
                    old(self)@.service_menu_selected,
                    delta as int,
                    SERVICE_MENU_LEN as nat,
                ),
                ..old(self)@
            }),
    {
        self.service_menu_selected =
        move_cursor(self.service_menu_selected, delta, SERVICE_MENU_LEN);
    }

    /// The action that is selected in the menu of the service.
    pub fn selected_service_action(&self) -> (a: ServiceAction)
        requires
            self.service_menu_selected < SERVICE_MENU_LEN,
        ensures
            a == SERVICE_MENU@[self.service_menu_selected as int],
    {
        let menu = SERVICE_MENU;
        menu[self.service_menu_selected]
    }

    /// Picks the action that is selected in the menu of the service.
    pub fn activate_selected_service_action(&mut self)
        requires
            old(self).service_menu_selected < SERVICE_MENU_LEN,
        ensures
            final(self)@ == action_picked(old(self)@),
    {
        let action = self.selected_service_action();
        self.pending_service_action = Some(action);
        if action.needs_confirm() {
            self.mode = Mode::ConfirmServiceAction;
        }
    }

    /// Gives the action up that waits to be confirmed.
    pub fn cancel_service_action(&mut self)
        ensures
            final(self)@ == (AppModel {
                pending_service_action: None,
                mode: Mode::Normal,
                ..old(self)@
            }),
    {
        self.pending_service_action = None;
        self.mode = Mode::Normal;
    }
}

fn refusal(errors: &Vec<String>) -> (s: String)
    ensures
        s@ == refused_message(errors.deep_view()),
{
    let mut m = "refused to save — ".to_string();
    push_dec(&mut m, errors.len() as u64);
    m.push_str(" problem(s): ");
    let list = join(errors, "; ");
    m.push_str(list.as_str());
    m
}

// ---------------------------------------------------------------------
// Throughput
// ---------------------------------------------------------------------

impl Named for LinkSnapshot {
    open spec fn named(&self) -> Seq<char> {
        self.id@
    }

    fn name(&self) -> (s: &str) {
        self.id.as_str()
    }
}

/// The first link of that name in a snapshot.
pub open spec fn find_snapshot(links: Seq<LinkSnapshotModel>, id: Seq<char>) -> Option<
    LinkSnapshotModel,
> {
    match links.map_values(|l: LinkSnapshotModel| l.id).index_of_first(id) {
        Some(i) => Some(links[i]),
        None => None,
    }
}

/// `a - b`, or zero where `b` is more.
pub open spec fn less_by(a: int, b: int) -> int {
    if a > b {
        a - b
    } else {
        0
    }
}

/// What a link has carried either way between the last two snapshots, and how many
/// nanoseconds lie between them. Nothing where there are not two of them, where no
/// time has passed, or where the link is not in both.
pub open spec fn progress_of(a: AppModel, id: Seq<char>) -> Option<(int, int, int)> {
    match (a.previous_snapshot, a.status_snapshot, a.status_captured_at) {
        (Some((then, prev)), Some(cur), Some(now)) => if now <= then {
            None
        } else {
            match (find_snapshot(prev.links, id), find_snapshot(cur.links, id)) {
                (Some(p), Some(c)) => Some(
                    (
                        less_by(c.stats.bytes_forward as int, p.stats.bytes_forward as int),
                        less_by(c.stats.bytes_back as int, p.stats.bytes_back as int),
                        now - then,
                    ),
                ),
                _ => None,
            }
        },
        _ => None,
    }
}

/// What links have carried together between the last two snapshots: the sums over
/// those of which it is known.
pub open spec fn progress_of_all(a: AppModel, links: Seq<LinkSnapshotModel>) -> Option<
    (int, int, int),
>
    decreases links.len(),
{
    if links.len() == 0 {
        None
    } else {
        let front = progress_of_all(a, links.drop_last());
        match (front, progress_of(a, links.last().id)) {
            (Some(sum), Some(p)) => Some((sum.0 + p.0, sum.1 + p.1, p.2)),
            (Some(sum), None) => Some(sum),
            (None, p) => p,
        }
    }
}

/// What all links of the current snapshot have carried together.
pub open spec fn total_progress_of(a: AppModel) -> Option<(int, int, int)> {
    match a.status_snapshot {
        Some(cur) => progress_of_all(a, cur.links),
        None => None,
    }
}

fn snapshot_index(links: &Vec<LinkSnapshot>, id: &str) -> (r: Option<usize>)
    ensures
        match r {
            Some(i) => i < links@.len() && find_snapshot(
                crate::stats::snapshot_models(links@),
                id@,
            ) == Some(links@[i as int]@),
            None => find_snapshot(crate::stats::snapshot_models(links@), id@) is None,
        },
{
    assert(names_of(links@) =~= crate::stats::snapshot_models(links@).map_values(
        |l: LinkSnapshotModel| l.id,
    ));
    named_index(links, id)
}

fn saturating_less(a: u64, b: u64) -> (r: u64)
    ensures
        r == less_by(a as int, b as int),
{
    if a > b {
        a - b
    } else {
        0
    }
}

impl App {
    /// What a link has carried either way between the last two snapshots, and how
    /// many nanoseconds lie between them: a rate is made of these.
    pub fn link_progress(&self, link_id: &str) -> (r: Option<(u64, u64, u128)>)
        ensures
            progress_of(self@, link_id@) == (match r {
                Some((forward, back, nanos)) => Some((forward as int, back as int, nanos as int)),
                None => None,
            }),
            r matches Some((_, _, nanos)) ==> nanos > 0,
    {
        match (&self.previous_snapshot, &self.status_snapshot, self.status_captured_at) {
            (Some((then, prev)), Some(cur), Some(now)) => {
                if now <= *then {
                    return None;
                }
                match (snapshot_index(&prev.links, link_id), snapshot_index(&cur.links, link_id)) {
                    (Some(p), Some(c)) => Some(
                        (
                            saturating_less(cur.links[c].bytes_forward, prev.links[p].bytes_forward),
                            saturating_less(cur.links[c].bytes_back, prev.links[p].bytes_back),
                            now - *then,
                        ),
                    ),
                    _ => None,
                }
            },
            _ => None,
        }
    }

    /// What all links have carried together either way between the last two
    /// snapshots, and how many nanoseconds lie between them.
    pub fn total_progress(&self) -> (r: Option<(u128, u128, u128)>)
        ensures
            total_progress_of(self@) == (match r {
                Some((forward, back, nanos)) => Some((forward as int, back as int, nanos as int)),
                None => None,
            }),
            r matches Some((_, _, nanos)) ==> nanos > 0,
    {
        let links = match &self.status_snapshot {
            Some(cur) => &cur.links,
            None => return None,
        };
        let ghost models = crate::stats::snapshot_models(links@);
        let mut total: Option<(u128, u128, u128)> = None;
        let mut i: usize = 0;
        assert(models.take(0) =~= Seq::<LinkSnapshotModel>::empty());
        while i < links.len()
            invariant
                i <= links@.len(),
                models == crate::stats::snapshot_models(links@),
                progress_of_all(self@, models.take(i as int)) == (match total {
                    Some((forward, back, nanos)) => Some(
                        (forward as int, back as int, nanos as int),
                    ),
                    None => None,
                }),
                total matches Some((forward, back, nanos)) ==> forward <= i * u64::MAX && back <= i
                    * u64::MAX && nanos > 0,
            decreases links@.len() - i,
        {
            assert(models.take(i + 1).drop_last() =~= models.take(i as int));
            assert(models.take(i + 1).last() == links@[i as int]@);
            let one = self.link_progress(links[i].id.as_str());
            total = match (total, one) {
                (Some((forward, back, _)), Some((f, b, nanos))) => Some(
                    (forward + f as u128, back + b as u128, nanos),
                ),
                (Some(sum), None) => Some(sum),
                (None, Some((f, b, nanos))) => Some((f as u128, b as u128, nanos)),
                (None, None) => None,
            };
            i = i + 1;
        }
        assert(models.take(i as int) =~= models);
        total
    }
}

/// Until two answers of the daemon have come, nothing is known of any link's
/// throughput.
pub proof fn law_no_rate_without_two_samples(
    config_path: Seq<char>,
    socket_path: Seq<char>,
    config: ConfigModel,
    first: Result<StatusModel, Seq<char>>,
    now: u128,
    id: Seq<char>,
)
    ensures
        progress_of(fresh_app(config_path, socket_path, config), id) is None,
        progress_of(
            with_status(fresh_app(config_path, socket_path, config), first, now),
            id,
        ) is None,
{
}

/// After queries that failed, with their errors and times.
pub open spec fn with_failures(a: AppModel, failures: Seq<(Seq<char>, u128)>) -> AppModel
    decreases failures.len(),
{
    if failures.len() == 0 {
        a
    } else {
        let before = with_failures(a, failures.drop_last());
        with_status(before, Err(failures.last().0), failures.last().1)
    }
}

/// A link's throughput is taken from the two most recent snapshots, however many
/// queries failed between them.
pub proof fn law_rate_is_of_the_last_two_snapshots(
    a: AppModel,
    b: StatusModel,
    tb: u128,
    failures: Seq<(Seq<char>, u128)>,
    c: StatusModel,
    tc: u128,
    id: Seq<char>,
)
    requires
        tb < tc,
    ensures
        ({
            let shown = with_status(
                with_failures(with_status(a, Ok(b), tb), failures),
                Ok(c),
                tc,
            );
            progress_of(shown, id) == (match (find_snapshot(b.links, id), find_snapshot(c.links, id)) {
                (Some(p), Some(q)) => Some(
                    (
                        less_by(q.stats.bytes_forward as int, p.stats.bytes_forward as int),
                        less_by(q.stats.bytes_back as int, p.stats.bytes_back as int),
                        tc - tb,
                    ),
                ),
                _ => None,
            })
        }),
{
    lemma_failures_keep_the_snapshot(with_status(a, Ok(b), tb), b, tb, failures);
}

proof fn lemma_failures_keep_the_snapshot(
    a: AppModel,
    b: StatusModel,
    tb: u128,
    failures: Seq<(Seq<char>, u128)>,
)
    requires
        a.status_snapshot == Some(b),
        a.status_captured_at == Some(tb),
    ensures
        with_failures(a, failures).status_captured_at == Some(tb),
        failures.len() == 0 ==> with_failures(a, failures) == a,
        failures.len() > 0 ==> with_failures(a, failures).status_snapshot is None && with_failures(
            a,
            failures,
        ).previous_snapshot == Some((tb, b)),
    decreases failures.len(),
{
    if failures.len() > 0 {
        lemma_failures_keep_the_snapshot(a, b, tb, failures.drop_last());
    }
}

// ---------------------------------------------------------------------
// What editing links keeps
// ---------------------------------------------------------------------

/// Whether no two links have the same name.
pub open spec fn ids_are_distinct(links: Seq<LinkModel>) -> bool {
    forall|i: int, j: int|
        0 <= j < i < links.len() ==> (#[trigger] links[j]).id != (#[trigger] links[i]).id
}

/// What taking the links of a name out does: they are gone, all others are left,
/// in their order, and names that were distinct still are.
proof fn lemma_without(links: Seq<LinkModel>, id: Seq<char>)
    ensures
        !has_link(without(links, id), id),
        forall|i: int|
            0 <= i < links.len() && (#[trigger] links[i]).id != id ==> without(links, id).contains(
                links[i],
            ),
        forall|k: int|
            0 <= k < without(links, id).len() ==> links.contains(#[trigger] without(links, id)[k]),
        ids_are_distinct(links) ==> ids_are_distinct(without(links, id)),
    decreases links.len(),
{
    if links.len() > 0 {
        let rest = links.drop_first();
        let w = without(links, id);
        let v = without(rest, id);
        lemma_without(rest, id);
        assert forall|i: int| 0 <= i < links.len() && (#[trigger] links[i]).id != id implies w.contains(
            links[i],
        ) by {
            if i > 0 {
                assert(rest[i - 1] == links[i]);
                assert(v.contains(rest[i - 1]));
                let k = choose|k: int| 0 <= k < v.len() && v[k] == links[i];
                if links[0].id == id {
                    assert(w[k] == links[i]);
                } else {
                    assert(w[k + 1] == links[i]);
                }
            } else {
                assert(w[0] == links[0]);
            }
        }
        assert forall|k: int| 0 <= k < w.len() implies links.contains(#[trigger] w[k]) by {
            if links[0].id != id && k == 0 {
                assert(w[0] == links[0]);
            } else {
                let m = if links[0].id == id {
                    k
                } else {
                    k - 1
                };
                assert(w[k] == v[m]);
                assert(rest.contains(v[m]));
                let i = choose|i: int| 0 <= i < rest.len() && rest[i] == v[m];
                assert(links[i + 1] == w[k]);
            }
        }
        if has_link(w, id) {
            let k = choose|k: int| 0 <= k < w.len() && (#[trigger] w[k]).id == id;
            if links[0].id == id {
                assert(v[k].id == id);
            } else {
                assert(k > 0);
                assert(v[k - 1].id == id);
            }
        }
        if ids_are_distinct(links) {
            assert forall|i: int, j: int| 0 <= j < i < rest.len() implies (#[trigger] rest[j]).id
                != (#[trigger] rest[i]).id by {
                assert(links[j + 1].id != links[i + 1].id);
            }
            if links[0].id != id {
                assert forall|i: int, j: int| 0 <= j < i < w.len() implies (#[trigger] w[j]).id
                    != (#[trigger] w[i]).id by {
                    assert(w[i] == v[i - 1]);
                    if j > 0 {
                        assert(w[j] == v[j - 1]);
                    } else {
                        assert(rest.contains(v[i - 1]));
                        let m = choose|m: int| 0 <= m < rest.len() && rest[m] == v[i - 1];
                        assert(links[0].id != links[m + 1].id);
                    }
                }
            }
        }
    }
}

/// The link that is made of what was entered is one that validation accepts on
/// this side.
pub proof fn law_new_link_is_valid(role: Role, id: Seq<char>, mode: LinkMode, addr: Seq<char>)
    requires
        is_socket_addr(addr),
    ensures
        is_valid_link(role, new_link(role, id, mode, addr)),
{
}

/// Adding or editing a link never makes a second one of the same name: a link that
/// had the name gives way, the one that was edited is gone if its name changed, the
/// new one is there, and all others are left alone.
pub proof fn law_link_is_replaced_not_doubled(
    links: Seq<LinkModel>,
    edited: Option<Seq<char>>,
    link: LinkModel,
)
    ensures
        ids_are_distinct(links) ==> ids_are_distinct(with_link(links, edited, link)),
        with_link(links, edited, link).last() == link,
        edited is Some && edited->0 != link.id ==> !has_link(
            with_link(links, edited, link),
            edited->0,
        ),
        forall|k: int|
            0 <= k < with_link(links, edited, link).len() - 1 ==> (#[trigger] with_link(
                links,
                edited,
                link,
            )[k]).id != link.id,
        forall|i: int|
            0 <= i < links.len() && (#[trigger] links[i]).id != link.id && edited != Some(
                links[i].id,
            ) ==> with_link(links, edited, link).contains(links[i]),
{
    let rest = match edited {
        Some(old_id) => if old_id != link.id {
            without(links, old_id)
        } else {
            links
        },
        None => links,
    };
    let kept = without(rest, link.id);
    let all = with_link(links, edited, link);
    assert(all == kept.push(link));
    if edited is Some {
        lemma_without(links, edited->0);
    }
    lemma_without(rest, link.id);
    assert forall|k: int| 0 <= k < all.len() - 1 implies (#[trigger] all[k]).id != link.id by {
        assert(all[k] == kept[k]);
    }
    if ids_are_distinct(links) {
        assert forall|i: int, j: int| 0 <= j < i < all.len() implies (#[trigger] all[j]).id
            != (#[trigger] all[i]).id by {
            assert(all[j] == kept[j]);
            if i < kept.len() {
                assert(all[i] == kept[i]);
            }
        }
    }
    if edited is Some && edited->0 != link.id && has_link(all, edited->0) {
        let k = choose|k: int| 0 <= k < all.len() && (#[trigger] all[k]).id == edited->0;
        assert(all[k] == kept[k]);
        assert(rest.contains(kept[k]));
        let m = choose|m: int| 0 <= m < rest.len() && rest[m] == kept[k];
        assert(rest[m].id == edited->0);
    }
    assert forall|i: int|
        0 <= i < links.len() && (#[trigger] links[i]).id != link.id && edited != Some(
            links[i].id,
        ) implies all.contains(links[i]) by {
        let m = if edited is Some && edited->0 != link.id {
            assert(rest.contains(links[i]));
            choose|m: int| 0 <= m < rest.len() && rest[m] == links[i]
        } else {
            i
        };
        assert(rest[m] == links[i]);
        assert(kept.contains(rest[m]));
        let k = choose|k: int| 0 <= k < kept.len() && kept[k] == links[i];
        assert(all[k] == links[i]);
    }
}

/// A client's configuration that is valid stays valid when a link is added or
/// edited.
pub proof fn law_editing_keeps_a_client_valid(a: AppModel)
    requires
        a.config.role is Client,
        errors_in(a.config).len() == 0,
    ensures
        errors_in(address_confirmed(a).config).len() == 0,
{
    let c = a.config;
    let d = address_confirmed(a).config;
    crate::config::law_valid_exactly_without_errors(c, client_key_ok(c), decoded_peer_keys(c));
    crate::config::law_valid_exactly_without_errors(d, client_key_ok(d), decoded_peer_keys(d));
    if d != c {
        let id = a.pending_link_id->0;
        let mode = a.pending_link_mode->0;
        let link = new_link(c.role, id, mode, trimmed(a.input_buffer));
        law_new_link_is_valid(c.role, id, mode, trimmed(a.input_buffer));
        law_link_is_replaced_not_doubled(c.links, a.editing_original_id, link);
        lemma_with_link_from(c.links, a.editing_original_id, link);
        assert(ids_are_distinct(c.links));
        assert forall|k: int| 0 <= k < d.links.len() implies is_valid_link(
            d.role,
            #[trigger] d.links[k],
        ) by {
            if k < d.links.len() - 1 {
                assert(c.links.contains(d.links[k]));
                let i = choose|i: int| 0 <= i < c.links.len() && c.links[i] == d.links[k];
                assert(is_valid_link(c.role, c.links[i]));
            } else {
                assert(d.links[k] == link);
            }
        }
        assert(ids_are_distinct(d.links));
        assert(d.peers == c.peers);
    }
}

/// All links but the new one were there before.
proof fn lemma_with_link_from(links: Seq<LinkModel>, edited: Option<Seq<char>>, link: LinkModel)
    ensures
        forall|k: int|
            0 <= k < with_link(links, edited, link).len() - 1 ==> links.contains(
                #[trigger] with_link(links, edited, link)[k],
            ),
{
    let rest = match edited {
        Some(old_id) => if old_id != link.id {
            without(links, old_id)
        } else {
            links
        },
        None => links,
    };
    let kept = without(rest, link.id);
    let all = with_link(links, edited, link);
    if edited is Some {
        lemma_without(links, edited->0);
    }
    lemma_without(rest, link.id);
    assert forall|k: int| 0 <= k < all.len() - 1 implies links.contains(#[trigger] all[k]) by {
        assert(all[k] == kept[k]);
        assert(rest.contains(kept[k]));
        let m = choose|m: int| 0 <= m < rest.len() && rest[m] == kept[k];
        assert(rest[m] == all[k]);
        if edited is Some && edited->0 != link.id {
            assert(links.contains(rest[m]));
        } else {
            assert(links[m] == all[k]);
        }
    }
}

/// An address that is none does not cost anything that was entered: all is as it
/// was but for the message, so the address can be corrected and confirmed again.
pub proof fn law_bad_address_loses_nothing(a: AppModel, corrected: Seq<char>)
    requires
        a.pending_link_id is Some,
        a.pending_link_mode is Some,
        trimmed(a.input_buffer).len() > 0,
        !is_socket_addr(trimmed(a.input_buffer)),
        is_socket_addr(trimmed(corrected)),
        trimmed(corrected).len() > 0,
    ensures
        address_confirmed(a) == (AppModel { message: address_confirmed(a).message, ..a }),
        address_confirmed(AppModel { input_buffer: corrected, ..address_confirmed(a) }).config
            == address_confirmed(AppModel { input_buffer: corrected, ..a }).config,
        address_confirmed(AppModel { input_buffer: corrected, ..address_confirmed(a) }).dirty,
{
}

/// What the daemon answered is shown, and an error is shown in place of the status;
/// nothing else changes by it but the snapshot before and the time.
pub proof fn law_answer_is_shown(a: AppModel, s: StatusModel, e: Seq<char>, now: u128)
    ensures
        with_status(a, Ok(s), now).status_snapshot == Some(s),
        with_status(a, Ok(s), now).status_error is None,
        with_status(a, Ok(s), now).status_captured_at == Some(now),
        with_status(a, Err(e), now).status_snapshot is None,
        with_status(a, Err(e), now).status_error == Some(e),
        with_status(a, Ok(s), now) == (AppModel {
            previous_snapshot: with_status(a, Ok(s), now).previous_snapshot,
            status_captured_at: Some(now),
            status_snapshot: Some(s),
            status_error: None,
            ..a
        }),
        with_status(a, Err(e), now) == (AppModel {
            previous_snapshot: with_status(a, Err(e), now).previous_snapshot,
            status_snapshot: None,
            status_error: Some(e),
            ..a
        }),
{
}

/// A link's throughput is what its own counters have grown by between the two
/// snapshots; a counter that fell, because the daemon was started again, counts as
/// nothing.
pub proof fn law_rate_is_of_the_links_own_counters(
    a: AppModel,
    then: u128,
    before: StatusModel,
    now: u128,
    after: StatusModel,
    i: int,
    j: int,
)
    requires
        a.previous_snapshot == Some((then, before)),
        a.status_snapshot == Some(after),
        a.status_captured_at == Some(now),
        then < now,
        0 <= i < before.links.len(),
        0 <= j < after.links.len(),
        before.links[i].id == after.links[j].id,
        forall|k: int| 0 <= k < i ==> (#[trigger] before.links[k]).id != before.links[i].id,
        forall|k: int| 0 <= k < j ==> (#[trigger] after.links[k]).id != after.links[j].id,
    ensures
        ({
            let p = before.links[i].stats;
            let c = after.links[j].stats;
            progress_of(a, after.links[j].id) == Some(
                (
                    if c.bytes_forward >= p.bytes_forward {
                        c.bytes_forward - p.bytes_forward
                    } else {
                        0
                    },
                    if c.bytes_back >= p.bytes_back {
                        c.bytes_back - p.bytes_back
                    } else {
                        0
                    },
                    now - then,
                ),
            )
        }),
{
    lemma_found_snapshot(before.links, i);
    lemma_found_snapshot(after.links, j);
}

proof fn lemma_found_snapshot(links: Seq<LinkSnapshotModel>, i: int)
    requires
        0 <= i < links.len(),
        forall|k: int| 0 <= k < i ==> (#[trigger] links[k]).id != links[i].id,
    ensures
        find_snapshot(links, links[i].id) == Some(links[i]),
{
    let names = links.map_values(|l: LinkSnapshotModel| l.id);
    let id = links[i].id;
    names.index_of_first_ensures(id);
    assert(names[i] == id);
    let k = names.index_of_first(id)->0;
    assert(links[k].id == names[k]);
    if k < i {
        assert(links[k].id != id);
    }
}

/// What all links have carried is what each of them has, taken together; a link of
/// which nothing is known adds nothing.
pub proof fn law_total_is_the_sum_of_the_links(
    a: AppModel,
    links: Seq<LinkSnapshotModel>,
    l: LinkSnapshotModel,
)
    ensures
        progress_of_all(a, Seq::empty()) is None,
        progress_of(a, l.id) is None ==> progress_of_all(a, links.push(l)) == progress_of_all(
            a,
            links,
        ),
        progress_of(a, l.id) is Some && progress_of_all(a, links) is None ==> progress_of_all(
            a,
            links.push(l),
        ) == progress_of(a, l.id),
        progress_of(a, l.id) is Some && progress_of_all(a, links) is Some ==> {
            let one = progress_of(a, l.id)->0;
            let sum = progress_of_all(a, links)->0;
            let all = progress_of_all(a, links.push(l))->0;
            &&& progress_of_all(a, links.push(l)) is Some
            &&& all.0 == sum.0 + one.0
            &&& all.1 == sum.1 + one.1
            &&& all.2 == one.2
        },
        a.status_snapshot matches Some(s) ==> total_progress_of(a) == progress_of_all(a, s.links),
        a.status_snapshot is None ==> total_progress_of(a) is None,
{
    assert(links.push(l).drop_last() =~= links);
}

/// One step in a menu goes to the next or the previous entry, and from the last to the
/// first and back.
pub proof fn law_menus_wrap_around(cursor: nat, len: nat)
    requires
        cursor < len,
    ensures
        moved(cursor, 1, len) == (if cursor + 1 < len {
            cursor + 1
        } else {
            0
        }),
        moved(cursor, -1, len) == (if cursor > 0 {
            cursor - 1
        } else {
            len - 1
        }),
        moved(moved(cursor, 1, len), -1, len) == cursor,
{
    let n = len as int;
    if cursor + 1 < len {
        vstd::arithmetic::div_mod::lemma_small_mod((cursor + 1) as nat, len);
    } else {
        vstd::arithmetic::div_mod::lemma_mod_self_0(n);
    }
    if cursor > 0 {
        vstd::arithmetic::div_mod::lemma_small_mod((cursor - 1) as nat, len);
    } else {
        vstd::arithmetic::div_mod::lemma_small_mod((len - 1) as nat, len);
        vstd::arithmetic::div_mod::lemma_mod_add_multiples_vanish(-1, n);
    }
    if cursor + 1 < len {
        vstd::arithmetic::div_mod::lemma_small_mod(cursor, len);
    } else {
        vstd::arithmetic::div_mod::lemma_small_mod((len - 1) as nat, len);
        vstd::arithmetic::div_mod::lemma_mod_add_multiples_vanish(-1, n);
    }
}

/// The tabs come one after the other and all of them come.
pub proof fn law_tabs_go_round(tab: Tab)
    ensures
        tab_after(Tab::Status) == Tab::Links,
        tab_after(tab_after(tab_after(tab))) == tab,
        tab_after(tab) != tab,
        tab_after(tab_after(tab)) != tab,
{
}

/// The link that is made of what was entered has that name and mode, and the address
/// where this side needs it: a client listens for a forward link and dials for a
/// reverse one, a server the other way round.
pub proof fn law_new_link_has_what_was_entered(
    role: Role,
    id: Seq<char>,
    mode: LinkMode,
    addr: Seq<char>,
)
    ensures
        new_link(role, id, mode, addr).id == id,
        new_link(role, id, mode, addr).mode == mode,
        (role is Client && mode is Forward) || (role is Server && mode is Reverse) ==> new_link(
            role,
            id,
            mode,
            addr,
        ).listen == Some(addr) && new_link(role, id, mode, addr).target is None,
        (role is Server && mode is Forward) || (role is Client && mode is Reverse) ==> new_link(
            role,
            id,
            mode,
            addr,
        ).target == Some(addr) && new_link(role, id, mode, addr).listen is None,
{
}

/// Adding a link from nothing: where a name, a mode and an address are entered one
/// after the other, the link that is made of them is in the configuration and
/// selected, and all others are left alone.
pub proof fn law_adding_a_link_adds_it(a: AppModel, id: Seq<char>, mode: LinkMode, addr: Seq<char>)
    requires
        trimmed(id).len() > 0,
        trimmed(addr).len() > 0,
        is_socket_addr(trimmed(addr)),
    ensures
        ({
            let asked = AppModel { template_selected: TEMPLATE_COUNT as nat, ..adding(a) };
            let named = id_confirmed(AppModel { input_buffer: id, ..template_chosen(asked) });
            let settled = mode_chosen(named, mode);
            let done = address_confirmed(AppModel { input_buffer: addr, ..settled });
            &&& adding(a).mode == Mode::ChooseTemplate
            &&& template_chosen(asked).mode == Mode::AddLinkId
            &&& named.mode == Mode::AddLinkMode
            &&& settled.mode == Mode::AddLinkAddress
            &&& done.mode == Mode::Normal
            &&& done.dirty
            &&& done.config.links.len() > 0
            &&& done.links_selected == done.config.links.len() - 1
            &&& done.config.links.last() == new_link(
                a.config.role,
                trimmed(id),
                mode,
                trimmed(addr),
            )
            &&& forall|i: int|
                0 <= i < a.config.links.len() && (#[trigger] a.config.links[i]).id != trimmed(id)
                    ==> done.config.links.contains(a.config.links[i])
            &&& done.config == (ConfigModel { links: done.config.links, ..a.config })
            &&& done.pending_link_id is None && done.pending_link_mode is None
                && done.editing_original_id is None
        }),
{
    let link = new_link(a.config.role, trimmed(id), mode, trimmed(addr));
    law_link_is_replaced_not_doubled(a.config.links, None, link);
}

/// A template settles the mode and suggests a name and an address on this machine; with
/// all of them accepted, the link is made of them.
pub proof fn law_template_suggests_the_link(a: AppModel, k: int)
    requires
        0 <= k < TEMPLATE_COUNT,
        a.template_selected == k,
        trimmed(template_at(k).default_id@).len() > 0,
    ensures
        ({
            let chosen = template_chosen(a);
            let named = id_confirmed(chosen);
            &&& chosen.input_buffer == template_at(k).default_id@
            &&& chosen.pending_link_mode == Some(template_at(k).mode)
            &&& named.mode == Mode::AddLinkAddress
            &&& named.pending_link_id == Some(trimmed(template_at(k).default_id@))
            &&& named.input_buffer == "127.0.0.1:"@ + dec(template_at(k).default_port as nat)
        }),
{
}

/// Editing a link starts with its name and, once the name is confirmed and the mode is
/// chosen, with its address; where nothing is changed, the link is in the configuration
/// as it was.
pub proof fn law_editing_starts_with_what_is_there(a: AppModel)
    requires
        a.links_selected < a.config.links.len(),
        is_valid_link(a.config.role, a.config.links[a.links_selected as int]),
        trimmed(a.config.links[a.links_selected as int].id)
            == a.config.links[a.links_selected as int].id,
        a.config.links[a.links_selected as int].id.len() > 0,
        trimmed(link_address(a.config.links[a.links_selected as int])) == link_address(
            a.config.links[a.links_selected as int],
        ),
    ensures
        ({
            let link = a.config.links[a.links_selected as int];
            let started = editing(a);
            let settled = mode_chosen(id_confirmed(started), link.mode);
            let done = address_confirmed(settled);
            &&& started.mode == Mode::AddLinkId
            &&& started.input_buffer == link.id
            &&& started.editing_original_id == Some(link.id)
            &&& settled.mode == Mode::AddLinkAddress
            &&& settled.input_buffer == (if link.listen is Some {
                link.listen->0
            } else {
                link.target->0
            })
            &&& done.config.links.last() == link
            &&& forall|i: int|
                0 <= i < a.config.links.len() && (#[trigger] a.config.links[i]).id != link.id
                    ==> done.config.links.contains(a.config.links[i])
        }),
{
    let link = a.config.links[a.links_selected as int];
    let addr = link_address(link);
    crate::net::law_names_are_no_socket_addresses(addr);
    law_link_is_replaced_not_doubled(
        a.config.links,
        Some(link.id),
        new_link(a.config.role, link.id, link.mode, addr),
    );
}

/// Removing takes the selected link out and leaves all others as they are, in order.
pub proof fn law_removing_takes_the_selected_link(a: AppModel)
    requires
        a.links_selected < a.config.links.len(),
    ensures
        ({
            let k = a.links_selected as int;
            let after = link_removed(a);
            &&& after.config.links.len() == a.config.links.len() - 1
            &&& forall|i: int| 0 <= i < k ==> after.config.links[i] == #[trigger] a.config.links[i]
            &&& forall|i: int|
                k < i < a.config.links.len() ==> after.config.links[i - 1]
                    == #[trigger] a.config.links[i]
            &&& after.config == (ConfigModel { links: after.config.links, ..a.config })
            &&& after.dirty
            &&& after.mode == Mode::Normal
            &&& after.links_selected == (if k > 0 {
                k - 1
            } else {
                0
            })
        }),
{
}

/// Giving up leaves the configuration, what is to be saved and the cursors as they
/// were, and nothing of what was entered.
pub proof fn law_giving_up_changes_nothing(a: AppModel)
    ensures
        cancelled(a).config == a.config,
        cancelled(a).dirty == a.dirty,
        cancelled(a).links_selected == a.links_selected,
        cancelled(a).tab == a.tab,
        cancelled(a).mode == Mode::Normal,
        cancelled(a).input_buffer.len() == 0,
        cancelled(a).pending_link_id is None,
        cancelled(a).pending_link_mode is None,
        cancelled(a).pending_default_address is None,
        cancelled(a).editing_original_id is None,
        trimmed(a.input_buffer).len() == 0 ==> id_confirmed(a) == cancelled(a),
        trimmed(a.input_buffer).len() == 0 ==> address_confirmed(a).config == a.config,
{
}

/// There is nothing to save any more exactly once the configuration has been written;
/// a refusal or a failure keeps everything and says why.
pub proof fn law_saving_settles_the_changes(a: AppModel, e: Seq<char>)
    ensures
        save_done(a, Ok(())).dirty == false,
        save_done(a, Ok(())).config == a.config,
        save_done(a, Ok(())).message == Some("saved "@ + a.config_path),
        save_done(a, Err(e)).dirty == a.dirty,
        save_done(a, Err(e)).config == a.config,
        save_done(a, Err(e)).message == Some("refused to save — "@ + dec(1) + " problem(s): "@ + e),
        save_checked(a).config == a.config,
        save_checked(a).dirty == a.dirty,
        errors_in(a.config).len() > 0 ==> save_checked(a).message == Some(
            "refused to save — "@ + dec(errors_in(a.config).len()) + " problem(s): "@ + joined(
                errors_in(a.config),
                "; "@,
            ),
        ),
        errors_in(a.config).len() == 0 ==> save_checked(a) == a,
{
}

/// Picking an action asks for that very action of the menu, and asks back unless it
/// only shows the log.
pub proof fn law_picked_action_is_the_selected_one(a: AppModel)
    requires
        a.service_menu_selected < SERVICE_MENU_LEN,
        a.mode == Mode::Normal,
    ensures
        action_picked(a).pending_service_action == Some(
            SERVICE_MENU@[a.service_menu_selected as int],
        ),
        action_picked(a).mode == Mode::ConfirmServiceAction <==> SERVICE_MENU@[a.service_menu_selected as int]
            != ServiceAction::ViewLogs,
        action_picked(a).config == a.config,
{
}

/// No two actions go by the same name, nor do two that the system's own command is
/// called for go by the same word.
pub proof fn law_actions_have_their_own_words(x: ServiceAction, y: ServiceAction)
    ensures
        label_of(x) == label_of(y) ==> x == y,
        verb_of(x) == verb_of(y) && verb_of(x).len() > 0 ==> x == y,
        verb_of(x).len() == 0 <==> x == ServiceAction::InstallUnit || x == ServiceAction::ViewLogs,
{
    reveal_strlit("Start");
    reveal_strlit("Stop");
    reveal_strlit("Restart");
    reveal_strlit("Enable at boot");
    reveal_strlit("Disable at boot");
    reveal_strlit("Install systemd unit");
    reveal_strlit("View recent logs");
    reveal_strlit("start");
    reveal_strlit("stop");
    reveal_strlit("restart");
    reveal_strlit("enable");
    reveal_strlit("disable");
    reveal_strlit("");
    let a = label_of(x);
    let b = label_of(y);
    assert(a == b ==> a[0] == b[0] && a[2] == b[2]);
    let v = verb_of(x);
    let w = verb_of(y);
    assert(v == w && v.len() > 0 ==> v[0] == w[0] && v[2] == w[2]);
}

/// The console starts with the configuration as it was loaded, nothing to save, nothing
/// known of the daemon and nothing being entered.
pub proof fn law_console_starts_afresh(
    config_path: Seq<char>,
    socket_path: Seq<char>,
    config: ConfigModel,
)
    ensures
        ({
            let a = fresh_app(config_path, socket_path, config);
            &&& a.config == config
            &&& a.config_path == config_path
            &&& a.socket_path == socket_path
            &&& !a.dirty && !a.should_quit
            &&& a.tab == Tab::Status && a.mode == Mode::Normal
            &&& a.links_selected == 0 && a.template_selected == 0 && a.service_menu_selected == 0
            &&& a.input_buffer.len() == 0
            &&& a.status_snapshot is None && a.status_error is None && a.previous_snapshot is None
            &&& a.status_captured_at is None && a.service_state is None && a.enabled_state is None
            &&& a.pending_service_action is None && a.message is None && a.pending_link_id is None
            &&& a.pending_link_mode is None && a.pending_default_address is None
                && a.editing_original_id is None
        }),
{
}

/// The messages name the link or the address that they are about.
pub proof fn law_messages_name_the_link(a: AppModel)
    ensures
        a.links_selected < a.config.links.len() ==> link_removed(a).message == Some(
            "removed \""@ + a.config.links[a.links_selected as int].id
                + "\" (unsaved — press s to write)"@,
        ),
        a.links_selected >= a.config.links.len() ==> link_removed(a) == (AppModel {
            mode: Mode::Normal,
            ..a
        }),
        a.pending_link_id is Some && a.pending_link_mode is Some && trimmed(a.input_buffer).len() > 0
            ==> address_confirmed(a).message == Some(
            if is_socket_addr(trimmed(a.input_buffer)) {
                (if a.editing_original_id is Some {
                    "updated"@
                } else {
                    "added"@
                }) + " \""@ + a.pending_link_id->0
                    + "\" (unsaved — press s to write, or the daemon won't see it until restart)"@
            } else {
                "\""@ + trimmed(a.input_buffer)
                    + "\" isn't a valid host:port (e.g. 127.0.0.1:5432) — fix it and press enter"@
            },
        ),
        a.pending_link_id is Some && a.pending_link_mode is Some && trimmed(a.input_buffer).len()
            == 0 ==> address_confirmed(a).message == Some("cancelled: address can't be empty"@),
        !(a.pending_link_id is Some && a.pending_link_mode is Some) ==> address_confirmed(a).config
            == a.config && address_confirmed(a).mode == Mode::Normal,
{
}

proof fn lemma_without_push(links: Seq<LinkModel>, l: LinkModel, id: Seq<char>)
    ensures
        without(links.push(l), id) == (if l.id == id {
            without(links, id)
        } else {
            without(links, id).push(l)
        }),
    decreases links.len(),
{
    let all = links.push(l);
    if links.len() == 0 {
        assert(all.drop_first() =~= Seq::<LinkModel>::empty());
        assert(without(all.drop_first(), id) =~= Seq::<LinkModel>::empty());
        assert(without(all, id) =~= (if l.id == id {
            without(links, id)
        } else {
            without(links, id).push(l)
        }));
    } else {
        lemma_without_push(links.drop_first(), l, id);
        assert(all.drop_first() =~= links.drop_first().push(l));
        assert(all[0] == links[0]);
        assert(without(all, id) =~= (if l.id == id {
            without(links, id)
        } else {
            without(links, id).push(l)
        }));
    }
}

proof fn lemma_without_is_filter(links: Seq<LinkModel>, id: Seq<char>)
    ensures
        without(links, id) == links.filter(|l: LinkModel| l.id != id),
    decreases links.len(),
{
    reveal(Seq::filter);
    let kept = |l: LinkModel| l.id != id;
    if links.len() == 0 {
        assert(without(links, id) =~= links.filter(kept));
    } else {
        let front = links.drop_last();
        lemma_without_is_filter(front, id);
        lemma_without_push(front, links.last(), id);
        assert(front.push(links.last()) =~= links);
        assert(links.filter(kept) == (if kept(links.last()) {
            front.filter(kept).push(links.last())
        } else {
            front.filter(kept)
        }));
    }
}

/// The links after one was added or edited: those that have neither its name nor the
/// name that it had, in their order, and behind them the link itself.
pub proof fn law_links_after_an_edit(
    links: Seq<LinkModel>,
    edited: Option<Seq<char>>,
    link: LinkModel,
)
    ensures
        edited is None || edited == Some(link.id) ==> with_link(links, edited, link) == links.filter(
            |l: LinkModel| l.id != link.id,
        ).push(link),
        edited is Some ==> with_link(links, edited, link) == links.filter(
            |l: LinkModel| l.id != edited->0,
        ).filter(|l: LinkModel| l.id != link.id).push(link),
{
    lemma_without_is_filter(links, link.id);
    if edited is Some {
        lemma_without_is_filter(links, edited->0);
        lemma_without_is_filter(without(links, edited->0), link.id);
        if edited->0 == link.id {
            lemma_without(links, link.id);
            lemma_without_nothing(without(links, link.id), link.id);
        }
    }
}

proof fn lemma_without_nothing(links: Seq<LinkModel>, id: Seq<char>)
    requires
        !has_link(links, id),
    ensures
        without(links, id) == links,
    decreases links.len(),
{
    if links.len() > 0 {
        let rest = links.drop_first();
        assert(links[0].id != id);
        if has_link(rest, id) {
            let k = choose|k: int| 0 <= k < rest.len() && (#[trigger] rest[k]).id == id;
            assert(links[k + 1].id == id);
        }
        lemma_without_nothing(rest, id);
        assert(seq![links[0]] + rest =~= links);
    } else {
        assert(without(links, id) =~= links);
    }
}

/// Nothing is known of the throughput of a link that is not in both snapshots, where
/// there are no two of them, or where no time has passed between them.
pub proof fn law_no_rate_without_the_link(a: AppModel, id: Seq<char>)
    ensures
        progress_of(a, id) is Some ==> {
            &&& a.previous_snapshot matches Some((then, before)) && a.status_captured_at
                matches Some(now) && then < now && exists|i: int|
                0 <= i < before.links.len() && (#[trigger] before.links[i]).id == id
            &&& a.status_snapshot matches Some(after) && exists|i: int|
                0 <= i < after.links.len() && (#[trigger] after.links[i]).id == id
        },
{
    if let (Some((then, before)), Some(after)) = (a.previous_snapshot, a.status_snapshot) {
        lemma_snapshot_has(before.links, id);
        lemma_snapshot_has(after.links, id);
    }
}

proof fn lemma_snapshot_has(links: Seq<LinkSnapshotModel>, id: Seq<char>)
    ensures
        find_snapshot(links, id) is Some ==> exists|i: int|
            0 <= i < links.len() && (#[trigger] links[i]).id == id,
{
    let names = links.map_values(|l: LinkSnapshotModel| l.id);
    names.index_of_first_ensures(id);
    if find_snapshot(links, id) is Some {
        let k = names.index_of_first(id)->0;
        assert(links[k].id == names[k]);
    }
}

/// The model of the console has what the console has.
pub proof fn law_model_has_what_the_console_has(a: App)
    ensures
        a@.config_path == a.config_path@,
        a@.socket_path == a.socket_path@,
        a@.config == a.config@,
        a@.dirty == a.dirty,
        a@.tab == a.tab,
        a@.mode == a.mode,
        a@.input_buffer == a.input_buffer@,
        a@.links_selected == a.links_selected,
        a@.template_selected == a.template_selected,
        a@.service_menu_selected == a.service_menu_selected,
        a@.status_snapshot is Some <==> a.status_snapshot is Some,
        a.status_snapshot is Some ==> a@.status_snapshot->0 == a.status_snapshot->0@,
        a@.status_error is Some <==> a.status_error is Some,
        a.status_error is Some ==> a@.status_error->0 == a.status_error->0@,
        a@.previous_snapshot is Some <==> a.previous_snapshot is Some,
        a.previous_snapshot matches Some((then, before)) ==> a@.previous_snapshot == Some(
            (then, before@),
        ),
        a@.status_captured_at == a.status_captured_at,
        a@.pending_service_action == a.pending_service_action,
        a@.message is Some <==> a.message is Some,
        a.message is Some ==> a@.message->0 == a.message->0@,
        a@.should_quit == a.should_quit,
        a@.pending_link_mode == a.pending_link_mode,
        a@.pending_link_id is Some <==> a.pending_link_id is Some,
        a.pending_link_id is Some ==> a@.pending_link_id->0 == a.pending_link_id->0@,
{
}

/// A cursor that is moved by any number of entries goes round the menu as often as it
/// takes; in an empty menu it stays.
pub proof fn law_moves_go_round(cursor: nat, delta: int, len: nat)
    ensures
        len == 0 ==> moved(cursor, delta, len) == cursor,
        len > 0 ==> moved(cursor, delta, len) < len && (cursor + delta - moved(cursor, delta, len)) % (
        len as int) == 0,
{
    if len > 0 {
        let n = len as int;
        let sum = cursor + delta;
        vstd::arithmetic::div_mod::lemma_fundamental_div_mod(sum, n);
        let q = sum / n;
        assert(sum - sum % n == q * n) by (nonlinear_arith)
            requires
                sum == n * q + sum % n,
        ;
        vstd::arithmetic::div_mod::lemma_mod_multiples_basic(q, n);
    }
}

/// The menu of the service, and the words of its actions.
pub proof fn law_menu_of_the_service(i: int)
    requires
        0 <= i < 7,
    ensures
        SERVICE_MENU_LEN == 7,
        SERVICE_MENU@ == seq![
            ServiceAction::Start,
            ServiceAction::Stop,
            ServiceAction::Restart,
            ServiceAction::Enable,
            ServiceAction::Disable,
            ServiceAction::InstallUnit,
            ServiceAction::ViewLogs,
        ],
        verb_of(SERVICE_MENU@[i]) == seq![
            "start"@,
            "stop"@,
            "restart"@,
            "enable"@,
            "disable"@,
            ""@,
            ""@,
        ][i],
        label_of(SERVICE_MENU@[i]) == seq![
            "Start"@,
            "Stop"@,
            "Restart"@,
            "Enable at boot"@,
            "Disable at boot"@,
            "Install systemd unit"@,
            "View recent logs"@,
        ][i],
{
    assert(SERVICE_MENU@ =~= seq![
        ServiceAction::Start,
        ServiceAction::Stop,
        ServiceAction::Restart,
        ServiceAction::Enable,
        ServiceAction::Disable,
        ServiceAction::InstallUnit,
        ServiceAction::ViewLogs,
    ]);
}

} // verus!
