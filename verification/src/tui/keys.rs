//! What the keys do.

use super::app::{
    action_picked, address_confirmed, adding, cancelled, editing, errors_in, id_confirmed,
    law_menus_wrap_around,
    link_removed, mode_chosen, moved, save_checked, tab_after, template_chosen, App, AppModel,
    Mode, ServiceAction, Tab, SERVICE_MENU_LEN,
};
use super::templates::TEMPLATE_COUNT;
use crate::config::LinkMode;
use crate::text::{chars_of, string_of};
use vstd::prelude::*;
use vstd::slice::slice_subrange;

verus! {

/// A key.
#[derive(Debug, Clone, Copy, PartialEq, Eq, Structural)]
pub enum Key {
    /// A character.
    Char(char),
    /// The enter key.
    Enter,
    /// The escape key.
    Esc,
    /// The tabulator.
    Tab,
    /// The backspace key.
    Backspace,
    /// The arrow up.
    Up,
    /// The arrow down.
    Down,
    /// Any other key.
    Other,
}

/// What has to be done outside after a key.
#[derive(Debug, Clone, Copy, PartialEq, Eq, Structural)]
pub enum Outcome {
    /// Nothing.
    Nothing,
    /// The configuration is to be written.
    WriteConfig,
    /// The daemon is to be asked for its status.
    RefreshStatus,
    /// An action is to be run on the service.
    RunService(ServiceAction),
}

/// The move that a key means in a menu.
pub open spec fn menu_move(key: Key) -> Option<int> {
    match key {
        Key::Char('j') => Some(1),
        Key::Down => Some(1),
        Key::Char('k') => Some(-1),
        Key::Up => Some(-1),
        _ => None,
    }
}

/// What a key does on the tab of the links.
pub open spec fn links_key(a: AppModel, key: Key) -> (AppModel, Outcome) {
    match menu_move(key) {
        Some(delta) => (
            AppModel {
                links_selected: moved(a.links_selected, delta, a.config.links.len()),
                ..a
            },
            Outcome::Nothing,
        ),
        None => match key {
            Key::Char('a') => (adding(a), Outcome::Nothing),
            Key::Char('e') => (editing(a), Outcome::Nothing),
            Key::Char('d') => (
                if a.links_selected < a.config.links.len() {
                    AppModel { mode: Mode::ConfirmRemoveLink, ..a }
                } else {
                    a
                },
                Outcome::Nothing,
            ),
            Key::Char('s') => (
                save_checked(a),
                if errors_in(a.config).len() == 0 {
                    Outcome::WriteConfig
                } else {
                    Outcome::Nothing
                },
            ),
            _ => (a, Outcome::Nothing),
        },
    }
}

/// What a key does on the tab of the service. What needs no confirmation is run at
/// once.
pub open spec fn service_key(a: AppModel, key: Key) -> (AppModel, Outcome) {
    match menu_move(key) {
        Some(delta) => (
            AppModel {
                service_menu_selected: moved(
                    a.service_menu_selected,
                    delta,
                    SERVICE_MENU_LEN as nat,
                ),
                ..a
            },
            Outcome::Nothing,
        ),
        None => match key {
            Key::Enter => {
                let picked = action_picked(a);
                if picked.mode == Mode::Normal {
                    (
                        AppModel { pending_service_action: None, ..picked },
                        Outcome::RunService(picked.pending_service_action->0),
                    )
                } else {
                    (picked, Outcome::Nothing)
                }
            },
            _ => (a, Outcome::Nothing),
        },
    }
}

/// What a key does while nothing in particular is going on.
pub open spec fn normal_key(a: AppModel, key: Key) -> (AppModel, Outcome) {
    match key {
        Key::Char('q') => (AppModel { should_quit: true, ..a }, Outcome::Nothing),
        Key::Esc => (AppModel { should_quit: true, ..a }, Outcome::Nothing),
        Key::Tab => (AppModel { tab: tab_after(a.tab), ..a }, Outcome::Nothing),
        Key::Char('1') => (AppModel { tab: Tab::Status, ..a }, Outcome::Nothing),
        Key::Char('2') => (AppModel { tab: Tab::Links, ..a }, Outcome::Nothing),
        Key::Char('3') => (AppModel { tab: Tab::Service, ..a }, Outcome::Nothing),
        _ => match a.tab {
            Tab::Links => links_key(a, key),
            Tab::Service => service_key(a, key),
            Tab::Status => (
                a,
                if key == Key::Char('r') {
                    Outcome::RefreshStatus
                } else {
                    Outcome::Nothing
                },
            ),
        },
    }
}

/// What a key does in the menu of templates.
pub open spec fn template_key(a: AppModel, key: Key) -> AppModel {
    match menu_move(key) {
        Some(delta) => AppModel {
            template_selected: moved(a.template_selected, delta, (TEMPLATE_COUNT + 1) as nat),
            ..a
        },
        None => match key {
            Key::Esc => cancelled(a),
            Key::Enter => template_chosen(a),
            _ => a,
        },
    }
}

/// What a key does while a name or an address is being typed.
pub open spec fn text_key(a: AppModel, key: Key) -> AppModel {
    match key {
        Key::Esc => cancelled(a),
        Key::Enter => if a.mode == Mode::AddLinkId {
            id_confirmed(a)
        } else {
            address_confirmed(a)
        },
        Key::Backspace => AppModel {
            input_buffer: if a.input_buffer.len() > 0 {
                a.input_buffer.drop_last()
            } else {
                a.input_buffer
            },
            ..a
        },
        Key::Char(c) => AppModel { input_buffer: a.input_buffer.push(c), ..a },
        _ => a,
    }
}

/// What a key does while the mode of a link is being chosen.
pub open spec fn mode_key(a: AppModel, key: Key) -> AppModel {
    match key {
        Key::Esc => cancelled(a),
        Key::Char('f') => mode_chosen(a, LinkMode::Forward),
        Key::Char('F') => mode_chosen(a, LinkMode::Forward),
        Key::Char('r') => mode_chosen(a, LinkMode::Reverse),
        Key::Char('R') => mode_chosen(a, LinkMode::Reverse),
        _ => a,
    }
}

/// Whether a key means yes.
pub open spec fn is_yes(key: Key) -> bool {
    key == Key::Char('y') || key == Key::Char('Y')
}

/// What a key does: the new state, and what has to be done outside. The message
/// that was shown is gone.
pub open spec fn key_step(before: AppModel, key: Key) -> (AppModel, Outcome) {
    let a = AppModel { message: None, ..before };
    match a.mode {
        Mode::Normal => normal_key(a, key),
        Mode::ChooseTemplate => (template_key(a, key), Outcome::Nothing),
        Mode::AddLinkId => (text_key(a, key), Outcome::Nothing),
        Mode::AddLinkAddress => (text_key(a, key), Outcome::Nothing),
        Mode::AddLinkMode => (mode_key(a, key), Outcome::Nothing),
        Mode::ConfirmRemoveLink => (
            if is_yes(key) {
                link_removed(a)
            } else {
                AppModel { mode: Mode::Normal, ..a }
            },
            Outcome::Nothing,
        ),
        Mode::ConfirmServiceAction => (
            AppModel { pending_service_action: None, mode: Mode::Normal, ..a },
            match a.pending_service_action {
                Some(action) if is_yes(key) => Outcome::RunService(action),
                _ => Outcome::Nothing,
            },
        ),
    }
}

fn menu_delta(key: Key) -> (r: Option<isize>)
    ensures
        menu_move(key) == (match r {
            Some(d) => Some(d as int),
            None => None,
        }),
{
    match key {
        Key::Char('j') => Some(1),
        Key::Down => Some(1),
        Key::Char('k') => Some(-1),
        Key::Up => Some(-1),
        _ => None,
    }
}

fn handle_links_key(app: &mut App, key: Key) -> (o: Outcome)
    ensures
        (final(app)@, o) == links_key(old(app)@, key),
{
    if let Some(delta) = menu_delta(key) {
        app.move_link_selection(delta);
        return Outcome::Nothing;
    }
    match key {
        Key::Char('a') => {
            app.begin_add_link();
        },
        Key::Char('e') => {
            app.begin_edit_link();
        },
        Key::Char('d') => {
            if app.selected_link().is_some() {
                app.mode = Mode::ConfirmRemoveLink;
            }
        },
        Key::Char('s') => {
            if app.save_config() {
                return Outcome::WriteConfig;
            }
        },
        _ => {},
    }
    Outcome::Nothing
}

fn handle_service_key(app: &mut App, key: Key) -> (o: Outcome)
    requires
        old(app).service_menu_selected < SERVICE_MENU_LEN,
    ensures
        (final(app)@, o) == service_key(old(app)@, key),
{
    if let Some(delta) = menu_delta(key) {
        app.move_service_selection(delta);
        return Outcome::Nothing;
    }
    match key {
        Key::Enter => {
            app.activate_selected_service_action();
            if app.mode == Mode::Normal {
                return take_pending_action(app);
            }
            Outcome::Nothing
        },
        _ => Outcome::Nothing,
    }
}

/// Takes the action out that has been asked for, to be run.
fn take_pending_action(app: &mut App) -> (o: Outcome)
    ensures
        final(app)@ == (AppModel { pending_service_action: None, ..old(app)@ }),
        o == (match old(app)@.pending_service_action {
            Some(action) => Outcome::RunService(action),
            None => Outcome::Nothing,
        }),
{
    match app.pending_service_action.take() {
        Some(action) => Outcome::RunService(action),
        None => Outcome::Nothing,
    }
}

fn handle_normal(app: &mut App, key: Key) -> (o: Outcome)
    requires
        old(app).service_menu_selected < SERVICE_MENU_LEN,
    ensures
        (final(app)@, o) == normal_key(old(app)@, key),
{
    match key {
        Key::Char('q') => {
            app.should_quit = true;
            Outcome::Nothing
        },
        Key::Esc => {
            app.should_quit = true;
            Outcome::Nothing
        },
        Key::Tab => {
            app.next_tab();
            Outcome::Nothing
        },
        Key::Char('1') => {
            app.tab = Tab::Status;
            Outcome::Nothing
        },
        Key::Char('2') => {
            app.tab = Tab::Links;
            Outcome::Nothing
        },
        Key::Char('3') => {
            app.tab = Tab::Service;
            Outcome::Nothing
        },
        _ => match app.tab {
            Tab::Links => handle_links_key(app, key),
            Tab::Service => handle_service_key(app, key),
            Tab::Status => if key == Key::Char('r') {
                Outcome::RefreshStatus
            } else {
                Outcome::Nothing
            },
        },
    }
}

fn handle_choose_template(app: &mut App, key: Key)
    ensures
        final(app)@ == template_key(old(app)@, key),
{
    if let Some(delta) = menu_delta(key) {
        app.move_template_selection(delta);
        return ;
    }
    match key {
        Key::Esc => app.cancel_link_wizard(),
        Key::Enter => app.confirm_template_choice(),
        _ => {},
    }
}

fn handle_link_text_input(app: &mut App, key: Key)
    ensures
        final(app)@ == text_key(old(app)@, key),
{
    match key {
        Key::Esc => app.cancel_link_wizard(),
        Key::Enter => {
            if app.mode == Mode::AddLinkId {
                app.confirm_link_id();
            } else {
                app.confirm_link_address();
            }
        },
        Key::Backspace => {
            let v = chars_of(app.input_buffer.as_str());
            if v.len() > 0 {
                app.input_buffer = string_of(slice_subrange(&v, 0, v.len() - 1));
                assert(app.input_buffer@ =~= old(app)@.input_buffer.drop_last());
            }
        },
        Key::Char(c) => app.input_buffer.push(c),
        _ => {},
    }
}

fn handle_link_mode_choice(app: &mut App, key: Key)
    ensures
        final(app)@ == mode_key(old(app)@, key),
{
    match key {
        Key::Esc => app.cancel_link_wizard(),
        Key::Char('f') => app.choose_link_mode(LinkMode::Forward),
        Key::Char('F') => app.choose_link_mode(LinkMode::Forward),
        Key::Char('r') => app.choose_link_mode(LinkMode::Reverse),
        Key::Char('R') => app.choose_link_mode(LinkMode::Reverse),
        _ => {},
    }
}

/// Takes a key in. Says what has to be done outside.
#[verifier::rlimit(40)]
pub fn handle_key(app: &mut App, key: Key) -> (o: Outcome)
    requires
        old(app).service_menu_selected < SERVICE_MENU_LEN,
    ensures
        (final(app)@, o) == key_step(old(app)@, key),
        final(app).service_menu_selected < SERVICE_MENU_LEN,
{
    app.message = None;
    let yes = key == Key::Char('y') || key == Key::Char('Y');
    match app.mode {
        Mode::Normal => handle_normal(app, key),
        Mode::ChooseTemplate => {
            handle_choose_template(app, key);
            Outcome::Nothing
        },
        Mode::AddLinkId => {
            handle_link_text_input(app, key);
            Outcome::Nothing
        },
        Mode::AddLinkAddress => {
            handle_link_text_input(app, key);
            Outcome::Nothing
        },
        Mode::AddLinkMode => {
            handle_link_mode_choice(app, key);
            Outcome::Nothing
        },
        Mode::ConfirmRemoveLink => {
            if yes {
                app.remove_selected_link();
            } else {
                app.mode = Mode::Normal;
            }
            Outcome::Nothing
        },
        Mode::ConfirmServiceAction => {
            if yes {
                app.mode = Mode::Normal;
                return take_pending_action(app);
            }
            app.cancel_service_action();
            Outcome::Nothing
        },
    }
}

/// What to refresh while no key is pressed.
#[derive(Debug, Clone, Copy, PartialEq, Eq, Structural)]
pub enum Refresh {
    /// Nothing.
    Nothing,
    /// The daemon's status.
    Status,
    /// What the system says of the service.
    Service,
}

/// What the tab that is shown needs while no key is pressed.
pub fn idle_refresh(tab: Tab) -> (r: Refresh)
    ensures
        r == (match tab {
            Tab::Status => Refresh::Status,
            Tab::Service => Refresh::Service,
            Tab::Links => Refresh::Nothing,
        }),
{
    match tab {
        Tab::Status => Refresh::Status,
        Tab::Service => Refresh::Service,
        Tab::Links => Refresh::Nothing,
    }
}

// ---------------------------------------------------------------------
// What every key keeps
// ---------------------------------------------------------------------

/// Whether every cursor is on an entry of its menu; that of the links may be on the
/// first place of an empty list.
pub open spec fn cursors_are_in_range(a: AppModel) -> bool {
    &&& a.links_selected == 0 || a.links_selected < a.config.links.len()
    &&& a.template_selected <= TEMPLATE_COUNT
    &&& a.service_menu_selected < SERVICE_MENU_LEN
}

/// No key takes a cursor out of its menu.
pub proof fn law_cursors_stay_in_range(a: AppModel, key: Key)
    requires
        cursors_are_in_range(a),
    ensures
        cursors_are_in_range(key_step(a, key).0),
{
}

/// A configuration is written only when it is valid, and an action that changes the
/// system is run only after a yes.
pub proof fn law_nothing_happens_unasked(a: AppModel, key: Key)
    requires
        cursors_are_in_range(a),
    ensures
        key_step(a, key).1 == Outcome::WriteConfig ==> errors_in(a.config).len() == 0 && key
            == Key::Char('s'),
        key_step(a, key).1 matches Outcome::RunService(action) ==> (action
            != ServiceAction::ViewLogs ==> a.mode == Mode::ConfirmServiceAction && is_yes(key)
            && a.pending_service_action == Some(action)),
{
}

/// Whatever a key does, the paths are as they were, and the configuration only
/// changes in its links, and only together with the mark that there is something to
/// save.
#[verifier::rlimit(40)]
pub proof fn law_only_links_are_edited(a: AppModel, key: Key)
    ensures
        key_step(a, key).0.config_path == a.config_path,
        key_step(a, key).0.socket_path == a.socket_path,
        key_step(a, key).0.config == (crate::config::ConfigModel {
            links: key_step(a, key).0.config.links,
            ..a.config
        }),
        key_step(a, key).0.config.links != a.config.links ==> key_step(a, key).0.dirty,
{
}

/// What is typed is what stands in the input: a character is put behind it, and a
/// backspace takes the last one away again.
pub proof fn law_typing_edits_the_input(a: AppModel, c: char)
    requires
        a.mode == Mode::AddLinkId || a.mode == Mode::AddLinkAddress,
    ensures
        key_step(a, Key::Char(c)) == (
            AppModel { input_buffer: a.input_buffer.push(c), message: None, ..a },
            Outcome::Nothing,
        ),
        key_step(key_step(a, Key::Char(c)).0, Key::Backspace).0.input_buffer == a.input_buffer,
        a.input_buffer.len() == 0 ==> key_step(a, Key::Backspace).0.input_buffer.len() == 0,
{
    assert(a.input_buffer.push(c).drop_last() =~= a.input_buffer);
}

/// Escape leaves whatever is being entered or asked, and changes nothing in the
/// configuration; where nothing is, it leaves the console.
pub proof fn law_escape_leaves(a: AppModel)
    ensures
        a.mode == Mode::Normal ==> key_step(a, Key::Esc).0.should_quit,
        a.mode != Mode::Normal ==> key_step(a, Key::Esc).0.mode == Mode::Normal && key_step(
            a,
            Key::Esc,
        ).0.should_quit == a.should_quit,
        key_step(a, Key::Esc).0.config == a.config,
        key_step(a, Key::Esc).0.dirty == a.dirty,
        key_step(a, Key::Esc).1 == Outcome::Nothing,
{
}

/// The console is left by `q` or escape while nothing is being entered, and by nothing
/// else.
#[verifier::rlimit(40)]
pub proof fn law_only_quit_keys_quit(a: AppModel, key: Key)
    requires
        !a.should_quit,
    ensures
        key_step(a, key).0.should_quit <==> a.mode == Mode::Normal && (key == Key::Char('q') || key
            == Key::Esc),
{
}

/// The number keys show their tab and the tabulator the next one, from every tab.
pub proof fn law_tab_keys_show_tabs(a: AppModel)
    requires
        a.mode == Mode::Normal,
    ensures
        key_step(a, Key::Char('1')).0.tab == Tab::Status,
        key_step(a, Key::Char('2')).0.tab == Tab::Links,
        key_step(a, Key::Char('3')).0.tab == Tab::Service,
        key_step(a, Key::Tab).0.tab == (match a.tab {
            Tab::Status => Tab::Links,
            Tab::Links => Tab::Service,
            Tab::Service => Tab::Status,
        }),
{
}

/// A link is removed by `d` and then a yes, and only the selected one; after anything
/// but a yes all links are as they were.
pub proof fn law_link_is_removed_after_a_yes(a: AppModel, key: Key)
    requires
        a.mode == Mode::Normal,
        a.tab == Tab::Links,
        a.links_selected < a.config.links.len(),
    ensures
        ({
            let asked = key_step(a, Key::Char('d')).0;
            let answered = key_step(asked, key).0;
            &&& asked.mode == Mode::ConfirmRemoveLink
            &&& asked.config == a.config
            &&& answered.mode == Mode::Normal
            &&& key == Key::Char('y') || key == Key::Char('Y') ==> answered.config.links
                == a.config.links.remove(a.links_selected as int)
            &&& key != Key::Char('y') && key != Key::Char('Y') ==> answered.config.links
                == a.config.links
        }),
{
}

/// On the tab of the links, `a` starts adding, `e` starts editing the selected link, and
/// `s` has the configuration written exactly if nothing is wrong with it.
pub proof fn law_keys_of_the_links(a: AppModel)
    requires
        a.mode == Mode::Normal,
        a.tab == Tab::Links,
    ensures
        key_step(a, Key::Char('a')).0.mode == Mode::ChooseTemplate,
        a.links_selected < a.config.links.len() ==> key_step(a, Key::Char('e')).0.mode
            == Mode::AddLinkId && key_step(a, Key::Char('e')).0.input_buffer
            == a.config.links[a.links_selected as int].id,
        a.links_selected >= a.config.links.len() ==> key_step(a, Key::Char('e')).0.mode
            == Mode::Normal && key_step(a, Key::Char('d')).0.mode == Mode::Normal,
        key_step(a, Key::Char('s')).1 == Outcome::WriteConfig <==> errors_in(a.config).len() == 0,
        key_step(a, Key::Char('s')).0.config == a.config,
{
}

/// The arrows and `j` and `k` move in the menu that is shown, down and up.
pub proof fn law_keys_move_in_the_menu(a: AppModel)
    requires
        cursors_are_in_range(a),
    ensures
        a.mode == Mode::Normal && a.tab == Tab::Links && a.config.links.len() > 0 ==> {
            &&& key_step(a, Key::Down).0.links_selected == (if a.links_selected + 1
                < a.config.links.len() {
                a.links_selected + 1
            } else {
                0
            })
            &&& key_step(a, Key::Up).0.links_selected == (if a.links_selected > 0 {
                a.links_selected - 1
            } else {
                a.config.links.len() - 1
            })
        },
        a.mode == Mode::Normal && a.tab == Tab::Service ==> {
            &&& key_step(a, Key::Down).0.service_menu_selected == (if a.service_menu_selected < 6 {
                a.service_menu_selected + 1
            } else {
                0
            })
            &&& key_step(a, Key::Up).0.service_menu_selected == (if a.service_menu_selected > 0 {
                a.service_menu_selected - 1
            } else {
                6
            })
        },
        a.mode == Mode::ChooseTemplate ==> {
            &&& key_step(a, Key::Down).0.template_selected == (if a.template_selected < 8 {
                a.template_selected + 1
            } else {
                0
            })
            &&& key_step(a, Key::Up).0.template_selected == (if a.template_selected > 0 {
                a.template_selected - 1
            } else {
                8
            })
        },
        key_step(a, Key::Char('j')) == key_step(a, Key::Down) || a.mode == Mode::AddLinkId || a.mode
            == Mode::AddLinkAddress,
        key_step(a, Key::Char('k')) == key_step(a, Key::Up) || a.mode == Mode::AddLinkId || a.mode
            == Mode::AddLinkAddress,
{
    if a.links_selected < a.config.links.len() {
        law_menus_wrap_around(a.links_selected, a.config.links.len());
    }
    law_menus_wrap_around(a.service_menu_selected, SERVICE_MENU_LEN as nat);
    law_menus_wrap_around(a.template_selected, (TEMPLATE_COUNT + 1) as nat);
}

/// While the mode of a link is asked for, `f` settles forward and `r` reverse, of either
/// case, and nothing else does.
pub proof fn law_mode_keys_settle_the_mode(a: AppModel, key: Key)
    requires
        a.mode == Mode::AddLinkMode,
    ensures
        ({
            let after = key_step(a, key).0;
            &&& key == Key::Char('f') || key == Key::Char('F') ==> after.pending_link_mode == Some(
                LinkMode::Forward,
            ) && after.mode == Mode::AddLinkAddress
            &&& key == Key::Char('r') || key == Key::Char('R') ==> after.pending_link_mode == Some(
                LinkMode::Reverse,
            ) && after.mode == Mode::AddLinkAddress
            &&& key != Key::Char('f') && key != Key::Char('F') && key != Key::Char('r') && key
                != Key::Char('R') && key != Key::Esc ==> after == (AppModel { message: None, ..a })
        }),
{
}

/// Enter takes what was entered: the template, the name or the address.
pub proof fn law_enter_takes_what_was_entered(a: AppModel)
    ensures
        ({
            let b = AppModel { message: None, ..a };
            let after = key_step(a, Key::Enter).0;
            &&& a.mode == Mode::ChooseTemplate ==> after == template_chosen(b)
            &&& a.mode == Mode::AddLinkId ==> after == id_confirmed(b)
            &&& a.mode == Mode::AddLinkAddress ==> after == address_confirmed(b)
        }),
{
}

/// On the tab of the service, enter picks the selected action. One that changes the
/// system runs exactly if a yes follows, and then that very one; viewing the log runs
/// at once.
pub proof fn law_service_action_runs_after_a_yes(a: AppModel, key: Key)
    requires
        a.mode == Mode::Normal,
        a.tab == Tab::Service,
        a.service_menu_selected < SERVICE_MENU_LEN,
    ensures
        ({
            let action = crate::tui::app::SERVICE_MENU@[a.service_menu_selected as int];
            let (asked, first) = key_step(a, Key::Enter);
            let (answered, second) = key_step(asked, key);
            &&& action == ServiceAction::ViewLogs ==> first == Outcome::RunService(action)
            &&& action != ServiceAction::ViewLogs ==> {
                &&& first == Outcome::Nothing
                &&& second == (if key == Key::Char('y') || key == Key::Char('Y') {
                    Outcome::RunService(action)
                } else {
                    Outcome::Nothing
                })
                &&& answered.mode == Mode::Normal
                &&& answered.pending_service_action is None
            }
        }),
{
}

/// The status is asked for by `r` on its tab, and by no other key.
pub proof fn law_refresh_key(a: AppModel, key: Key)
    ensures
        key_step(a, key).1 == Outcome::RefreshStatus <==> a.mode == Mode::Normal && a.tab
            == Tab::Status && key == Key::Char('r'),
{
}

/// A key that means nothing where it is pressed changes nothing but that the message is
/// gone.
#[verifier::rlimit(40)]
pub proof fn law_other_keys_do_nothing(a: AppModel, key: Key)
    requires
        match a.mode {
            Mode::Normal => {
                &&& key != Key::Esc && key != Key::Tab && key != Key::Char('q')
                &&& key != Key::Char('1') && key != Key::Char('2') && key != Key::Char('3')
                &&& a.tab == Tab::Status ==> key != Key::Char('r')
                &&& a.tab != Tab::Status ==> key != Key::Up && key != Key::Down && key != Key::Char(
                    'j',
                ) && key != Key::Char('k')
                &&& a.tab == Tab::Links ==> key != Key::Char('a') && key != Key::Char('e') && key
                    != Key::Char('d') && key != Key::Char('s')
                &&& a.tab == Tab::Service ==> key != Key::Enter
            },
            Mode::ChooseTemplate => key == Key::Tab || key == Key::Backspace || key == Key::Other,
            Mode::AddLinkId => key == Key::Tab || key == Key::Up || key == Key::Down || key
                == Key::Other,
            Mode::AddLinkAddress => key == Key::Tab || key == Key::Up || key == Key::Down || key
                == Key::Other,
            _ => false,
        },
    ensures
        key_step(a, key) == (AppModel { message: None, ..a }, Outcome::Nothing),
{
}

} // verus!
