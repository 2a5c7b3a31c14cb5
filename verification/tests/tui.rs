//! The console: its state, its keys and its texts.

use ghostport::config::{Config, LinkConfig, LinkMode, Role};
use ghostport::keys::{encode_public_key, generate};
use ghostport::stats::{LinkSnapshot, StatusSnapshot};
use ghostport::tui::app::{move_cursor, App, Mode, ServiceAction, Tab, SERVICE_MENU};
use ghostport::tui::format::{bytes, duration, rate};
use ghostport::tui::keys::{handle_key, idle_refresh, Key, Outcome, Refresh};
use ghostport::tui::service::{service_answer, service_command};
use ghostport::tui::templates;
use ghostport::tui::view;

fn sample_config() -> Config {
    Config {
        role: Role::Client,
        private_key_path: "/tmp/identity.key".to_string(),
        peer_public_key: Some(encode_public_key(&generate().public)),
        peers: vec![],
        listen_control: None,
        listen_data: None,
        server_control_addr: Some("example.com:9000".to_string()),
        server_data_addr: Some("example.com:9001".to_string()),
        links: vec![],
    }
}

fn sample_app() -> App {
    App::new(
        "/tmp/config.toml".to_string(),
        "/tmp/nonexistent.sock".to_string(),
        sample_config(),
    )
}

fn link(id: &str, mode: LinkMode, listen: Option<&str>, target: Option<&str>) -> LinkConfig {
    LinkConfig {
        id: id.to_string(),
        mode,
        listen: listen.map(|s| s.to_string()),
        target: target.map(|s| s.to_string()),
    }
}

fn snapshot(forward: u64, back: u64) -> StatusSnapshot {
    StatusSnapshot {
        role: "client".to_string(),
        uptime_secs: 65,
        control_connected: true,
        control_connected_since_secs_ago: Some(3665),
        control_peer_addr: Some("1.2.3.4:5".to_string()),
        control_peer_name: None,
        links: vec![LinkSnapshot {
            id: "db".to_string(),
            mode: "forward".to_string(),
            active_streams: 1,
            total_streams: 2,
            bytes_forward: forward,
            bytes_back: back,
        }],
    }
}

#[test]
fn add_link_wizard_produces_a_correctly_shaped_forward_link() {
    let mut app = sample_app();

    app.begin_add_link();
    assert_eq!(app.mode, Mode::ChooseTemplate);
    app.template_selected = templates::custom_index();
    app.confirm_template_choice();
    assert_eq!(app.mode, Mode::AddLinkId);

    app.input_buffer = "db".to_string();
    app.confirm_link_id();
    assert_eq!(app.mode, Mode::AddLinkMode);

    app.choose_link_mode(LinkMode::Forward);
    assert_eq!(app.mode, Mode::AddLinkAddress);
    assert_eq!(app.pending_link_needs_listen(), Some(true));

    app.input_buffer = "127.0.0.1:5432".to_string();
    app.confirm_link_address();

    assert!(app.dirty);
    let link = app.config.links.iter().find(|l| l.id == "db").unwrap();
    assert_eq!(link.listen.as_deref(), Some("127.0.0.1:5432"));
    assert!(link.target.is_none());
}

#[test]
fn template_choice_prefills_id_and_skips_the_mode_step() {
    let mut app = sample_app();

    app.begin_add_link();
    app.template_selected = 0;
    app.confirm_template_choice();

    assert_eq!(app.mode, Mode::AddLinkId);
    assert_eq!(app.input_buffer, "ssh");

    app.confirm_link_id();
    assert_eq!(app.mode, Mode::AddLinkAddress);
    assert_eq!(app.input_buffer, "127.0.0.1:22");
    assert_eq!(app.pending_link_needs_listen(), Some(true));

    app.confirm_link_address();
    let link = app.config.links.iter().find(|l| l.id == "ssh").unwrap();
    assert_eq!(link.mode, LinkMode::Forward);
    assert_eq!(link.listen.as_deref(), Some("127.0.0.1:22"));
}

#[test]
fn adding_a_link_with_an_existing_id_replaces_it() {
    let mut app = sample_app();
    app.config.links.push(link("db", LinkMode::Reverse, None, Some("old")));

    app.begin_add_link();
    app.template_selected = templates::custom_index();
    app.confirm_template_choice();
    app.input_buffer = "db".to_string();
    app.confirm_link_id();
    app.choose_link_mode(LinkMode::Forward);
    app.input_buffer = "127.0.0.1:5432".to_string();
    app.confirm_link_address();

    assert_eq!(app.config.links.iter().filter(|l| l.id == "db").count(), 1);
    assert_eq!(
        app.config.links.iter().find(|l| l.id == "db").unwrap().mode,
        LinkMode::Forward
    );
}

#[test]
fn edit_prefills_current_values_and_updates_in_place() {
    let mut app = sample_app();
    app.config.links.push(link("db", LinkMode::Forward, Some("127.0.0.1:5432"), None));
    app.links_selected = 0;

    app.begin_edit_link();
    assert_eq!(app.mode, Mode::AddLinkId);
    assert_eq!(app.input_buffer, "db");
    assert!(app.is_editing());

    app.confirm_link_id();
    assert_eq!(app.mode, Mode::AddLinkMode);

    app.choose_link_mode(LinkMode::Forward);
    assert_eq!(app.input_buffer, "127.0.0.1:5432");

    app.input_buffer = "127.0.0.1:2222".to_string();
    app.confirm_link_address();

    assert_eq!(app.config.links.len(), 1, "must update in place, not create a second entry");
    assert_eq!(app.config.links[0].listen.as_deref(), Some("127.0.0.1:2222"));
    assert!(app.message.as_deref().unwrap_or_default().contains("updated"));
}

#[test]
fn editing_and_changing_the_id_removes_the_old_entry() {
    let mut app = sample_app();
    app.config.links.push(link("old-name", LinkMode::Forward, Some("127.0.0.1:1"), None));
    app.links_selected = 0;

    app.begin_edit_link();
    app.input_buffer = "new-name".to_string();
    app.confirm_link_id();
    app.choose_link_mode(LinkMode::Forward);
    app.input_buffer = "127.0.0.1:1".to_string();
    app.confirm_link_address();

    assert_eq!(app.config.links.len(), 1);
    assert_eq!(app.config.links[0].id, "new-name");
    assert!(!app.config.links.iter().any(|l| l.id == "old-name"));
}

#[test]
fn save_writes_a_valid_config_and_clears_dirty() {
    let mut app = sample_app();

    app.begin_add_link();
    app.template_selected = templates::custom_index();
    app.confirm_template_choice();
    app.input_buffer = "dev".to_string();
    app.confirm_link_id();
    app.choose_link_mode(LinkMode::Reverse);
    assert_eq!(app.pending_link_needs_listen(), Some(false));
    app.input_buffer = "127.0.0.1:3000".to_string();
    app.confirm_link_address();
    assert!(app.dirty);

    assert!(app.save_config());
    assert_eq!(app.config.links.len(), 1);
    assert_eq!(app.config.links[0].target.as_deref(), Some("127.0.0.1:3000"));
    app.config_written(Ok(()));
    assert!(!app.dirty);
}

#[test]
fn an_invalid_config_is_never_written() {
    let mut app = sample_app();
    app.dirty = true;
    app.config.server_data_addr = None;
    assert!(!app.save_config());
    assert!(app.dirty);
    assert!(app.message.is_some());

    let mut app = sample_app();
    app.dirty = true;
    assert!(app.save_config());
    app.config_written(Err("disk full".to_string()));
    assert!(app.dirty);
    assert!(app.message.as_deref().unwrap_or_default().contains("disk full"));
}

#[test]
fn remove_selected_link_marks_dirty_and_removes_it() {
    let mut app = sample_app();
    app.config.links.push(link("a", LinkMode::Forward, Some("x"), None));
    app.config.links.push(link("b", LinkMode::Forward, Some("y"), None));
    app.links_selected = 0;

    app.remove_selected_link();

    assert!(app.dirty);
    assert_eq!(app.config.links.len(), 1);
    assert_eq!(app.config.links[0].id, "b");
}

#[test]
fn empty_link_id_cancels_without_creating_anything() {
    let mut app = sample_app();

    app.begin_add_link();
    app.template_selected = templates::custom_index();
    app.confirm_template_choice();
    app.input_buffer.clear();
    app.confirm_link_id();

    assert_eq!(app.mode, Mode::Normal);
    assert!(app.config.links.is_empty());
    assert!(!app.dirty);
}

#[test]
fn invalid_address_is_rejected_without_losing_the_wizard_progress() {
    let mut app = sample_app();

    app.begin_add_link();
    app.template_selected = templates::custom_index();
    app.confirm_template_choice();
    app.input_buffer = "dev".to_string();
    app.confirm_link_id();
    app.choose_link_mode(LinkMode::Reverse);

    app.input_buffer = "not-a-real-address".to_string();
    app.confirm_link_address();

    assert_eq!(app.mode, Mode::AddLinkAddress);
    assert!(app.message.as_deref().unwrap_or_default().contains("isn't a valid host:port"));
    assert!(app.config.links.is_empty());

    app.input_buffer = "127.0.0.1:3000".to_string();
    app.confirm_link_address();
    assert_eq!(app.mode, Mode::Normal);
    assert_eq!(app.config.links.len(), 1);
}

#[test]
fn link_address_input_status_reflects_validity_live() {
    let mut app = sample_app();
    app.begin_add_link();
    app.template_selected = templates::custom_index();
    app.confirm_template_choice();
    app.input_buffer = "dev".to_string();
    app.confirm_link_id();
    app.choose_link_mode(LinkMode::Reverse);

    assert_eq!(app.link_address_input_status(), None);

    app.input_buffer = "not-valid".to_string();
    assert_eq!(app.link_address_input_status(), Some(false));

    app.input_buffer = "127.0.0.1:3000".to_string();
    assert_eq!(app.link_address_input_status(), Some(true));
}

#[test]
fn service_menu_navigation_wraps_around() {
    let mut app = sample_app();

    assert_eq!(app.service_menu_selected, 0);
    app.move_service_selection(-1);
    assert_eq!(app.service_menu_selected, SERVICE_MENU.len() - 1);
    app.move_service_selection(1);
    assert_eq!(app.service_menu_selected, 0);
}

#[test]
fn view_logs_activates_without_a_confirm_prompt() {
    let mut app = sample_app();

    let logs_index = SERVICE_MENU.iter().position(|a| *a == ServiceAction::ViewLogs).unwrap();
    app.service_menu_selected = logs_index;
    app.activate_selected_service_action();

    assert_eq!(app.mode, Mode::Normal, "view-logs shouldn't need a y/n confirm");
    assert_eq!(app.pending_service_action, Some(ServiceAction::ViewLogs));
}

#[test]
fn start_action_requires_confirmation() {
    let mut app = sample_app();

    app.service_menu_selected =
        SERVICE_MENU.iter().position(|a| *a == ServiceAction::Start).unwrap();
    app.activate_selected_service_action();

    assert_eq!(app.mode, Mode::ConfirmServiceAction);
    assert_eq!(app.pending_service_action, Some(ServiceAction::Start));
}

#[test]
fn link_rate_is_none_until_two_samples_exist() {
    let mut app = sample_app();
    assert_eq!(app.link_progress("anything"), None);
    app.apply_status(Ok(snapshot(100, 10)), 1_000);
    assert_eq!(app.link_progress("db"), None);
    app.apply_status(Ok(snapshot(350, 30)), 3_000);
    assert_eq!(app.link_progress("db"), Some((250, 20, 2_000)));
    assert_eq!(app.link_progress("anything"), None);
}

#[test]
fn a_rate_spans_the_time_without_answers() {
    let mut app = sample_app();
    app.apply_status(Ok(snapshot(100, 10)), 1_000);
    app.apply_status(Ok(snapshot(350, 30)), 3_000);
    app.apply_status(Err("refused".to_string()), 4_000);
    assert_eq!(app.link_progress("db"), None);
    app.apply_status(Err("refused".to_string()), 5_000);
    app.apply_status(Ok(snapshot(550, 35)), 7_000);
    assert_eq!(app.link_progress("db"), Some((200, 5, 4_000)));
}

#[test]
fn the_total_rate_sums_all_links() {
    let two = |db: u64, web: u64| {
        let mut s = snapshot(db, 1);
        let mut other = s.links[0].clone();
        other.id = "web".to_string();
        other.bytes_forward = web;
        s.links.push(other);
        s
    };
    let mut app = sample_app();
    assert_eq!(app.total_progress(), None);
    app.apply_status(Ok(snapshot(100, 1)), 1_000);
    assert_eq!(app.total_progress(), None);
    app.apply_status(Ok(two(150, 5)), 2_000);
    assert_eq!(app.total_progress(), Some((50, 0, 1_000)));
    app.apply_status(Ok(two(160, 25)), 4_000);
    assert_eq!(app.total_progress(), Some((30, 0, 2_000)));
}

#[test]
fn a_daemon_that_stops_answering_is_told() {
    let mut app = sample_app();
    assert_eq!(view::unreachable_line(&app), "daemon not reachable: no data yet");
    app.apply_status(Ok(snapshot(1, 1)), 1);
    assert!(app.status_snapshot.is_some());
    app.apply_status(Err("refused".to_string()), 2);
    assert!(app.status_snapshot.is_none());
    assert_eq!(view::unreachable_line(&app), "daemon not reachable: refused");
}

#[test]
fn duration_formats_each_scale() {
    assert_eq!(duration(0), "0s");
    assert_eq!(duration(45), "45s");
    assert_eq!(duration(65), "1m 5s");
    assert_eq!(duration(3665), "1h 1m 5s");
    assert_eq!(duration(90065), "1d 1h 1m");
}

#[test]
fn durations_below_a_day_are_told_apart() {
    let mut seen = std::collections::HashSet::new();
    for t in 0..86400 {
        assert!(seen.insert(duration(t)), "{t}");
    }
    assert_eq!(duration(86400), duration(86459));
}

#[test]
fn bytes_formats_each_scale() {
    assert_eq!(bytes(0), "0 B");
    assert_eq!(bytes(512), "512 B");
    assert_eq!(bytes(2048), "2.0 KB");
    assert_eq!(bytes(5 * 1024 * 1024), "5.0 MB");
}

#[test]
fn rate_appends_per_second() {
    assert_eq!(rate(2048), "2.0 KB/s");
}

#[test]
fn amounts_are_rounded_to_a_tenth() {
    assert_eq!(bytes(1023), "1023 B");
    assert_eq!(bytes(1024), "1.0 KB");
    assert_eq!(bytes(1536), "1.5 KB");
    assert_eq!(bytes(1024 * 1024 - 1), "1024.0 KB");
    assert_eq!(bytes(3 * 1024 * 1024 * 1024), "3.0 GB");
    assert_eq!(rate(0), "0 B/s");
}

fn float_amount(n: u64) -> String {
    let units = ["B", "KB", "MB", "GB", "TB"];
    if n < 1024 {
        return format!("{n} B");
    }
    let mut value = n as f64;
    let mut unit = 0;
    while value >= 1024.0 && unit < 4 {
        value /= 1024.0;
        unit += 1;
    }
    format!("{value:.1} {}", units[unit])
}

#[test]
fn amounts_agree_with_floating_point() {
    let mut n: u64 = 1;
    for i in 0..20_000u64 {
        n = n.wrapping_mul(6364136223846793005).wrapping_add(1442695040888963407);
        let v = n >> (i % 60);
        assert_eq!(bytes(v), float_amount(v), "{v}");
    }
    for shift in 0..64 {
        let p = 1u64 << shift;
        for v in [p - 1, p, p + 1, p.wrapping_mul(3) / 2, p + p / 20, p + 3 * (p / 20)] {
            assert_eq!(bytes(v), float_amount(v), "{v}");
        }
    }
    assert_eq!(bytes(u64::MAX), float_amount(u64::MAX));
    for k in 0..2_000u64 {
        let v = 1024 + k * 512 / 10;
        assert_eq!(bytes(v), float_amount(v), "{v}");
        let v = (1 << 53) + k;
        assert_eq!(bytes(v), float_amount(v), "{v}");
    }
}

#[test]
fn cursors_wrap_around() {
    assert_eq!(move_cursor(0, -1, 3), 2);
    assert_eq!(move_cursor(2, 1, 3), 0);
    assert_eq!(move_cursor(1, 1, 3), 2);
    assert_eq!(move_cursor(0, 1, 0), 0);
}

#[test]
fn keys_switch_tabs_and_quit() {
    let mut app = sample_app();
    assert_eq!(app.tab, Tab::Status);
    handle_key(&mut app, Key::Tab);
    assert_eq!(app.tab, Tab::Links);
    handle_key(&mut app, Key::Char('3'));
    assert_eq!(app.tab, Tab::Service);
    handle_key(&mut app, Key::Char('1'));
    assert_eq!(app.tab, Tab::Status);
    handle_key(&mut app, Key::Char('q'));
    assert!(app.should_quit);
}

#[test]
fn a_link_is_added_by_keys_alone() {
    let mut app = sample_app();
    app.tab = Tab::Links;
    handle_key(&mut app, Key::Char('a'));
    assert_eq!(app.mode, Mode::ChooseTemplate);
    handle_key(&mut app, Key::Enter);
    assert_eq!(app.input_buffer, "ssh");
    handle_key(&mut app, Key::Backspace);
    assert_eq!(app.input_buffer, "ss");
    handle_key(&mut app, Key::Char('x'));
    handle_key(&mut app, Key::Enter);
    assert_eq!(app.mode, Mode::AddLinkAddress);
    handle_key(&mut app, Key::Enter);
    assert_eq!(app.config.links[0].id, "ssx");
    assert_eq!(handle_key(&mut app, Key::Char('s')), Outcome::WriteConfig);
    handle_key(&mut app, Key::Char('d'));
    assert_eq!(app.mode, Mode::ConfirmRemoveLink);
    handle_key(&mut app, Key::Char('n'));
    assert_eq!(app.config.links.len(), 1);
    handle_key(&mut app, Key::Char('d'));
    handle_key(&mut app, Key::Char('y'));
    assert!(app.config.links.is_empty());
}

#[test]
fn nothing_is_run_before_it_is_confirmed() {
    let mut app = sample_app();
    app.tab = Tab::Service;
    assert_eq!(handle_key(&mut app, Key::Enter), Outcome::Nothing);
    assert_eq!(app.mode, Mode::ConfirmServiceAction);
    let chosen = app.pending_service_action.unwrap();
    assert_eq!(handle_key(&mut app, Key::Char('y')), Outcome::RunService(chosen));

    let mut app = sample_app();
    app.tab = Tab::Service;
    handle_key(&mut app, Key::Enter);
    assert_eq!(handle_key(&mut app, Key::Char('n')), Outcome::Nothing);
    assert_eq!(app.pending_service_action, None);
}

#[test]
fn what_is_refreshed_while_idle() {
    assert_eq!(idle_refresh(Tab::Status), Refresh::Status);
    assert_eq!(idle_refresh(Tab::Links), Refresh::Nothing);
    assert_eq!(idle_refresh(Tab::Service), Refresh::Service);
}

#[test]
fn commands_behind_the_menu() {
    assert_eq!(
        service_command(ServiceAction::Restart),
        vec!["sudo", "systemctl", "restart", "ghostport"]
    );
    assert_eq!(
        service_command(ServiceAction::ViewLogs),
        vec!["journalctl", "-u", "ghostport", "-n", "50", "--no-pager"]
    );
    assert_eq!(
        service_command(ServiceAction::InstallUnit),
        vec!["sudo", "tee", "/etc/systemd/system/ghostport.service"]
    );
    assert_eq!(service_answer("active\n"), Some("active".to_string()));
    assert_eq!(service_answer(" \n"), None);
}

#[test]
fn templates_in_order() {
    assert_eq!(templates::custom_index(), templates::TEMPLATE_COUNT);
    assert_eq!(templates::menu_len(), templates::TEMPLATE_COUNT + 1);
    let first = templates::template(0).unwrap();
    assert_eq!(first.default_id, "ssh");
    assert_eq!(first.default_port, 22);
    assert!(templates::template(templates::TEMPLATE_COUNT).is_none());
}

#[test]
fn texts_of_the_status_tab() {
    let snap = snapshot(2048, 10);
    assert_eq!(view::peer_line(&snap), Some("  (1.2.3.4:5, 1h 1m 5s ago)".to_string()));
    assert_eq!(
        view::status_row(&snap.links[0]),
        vec!["db", "forward", "1", "2", "2.0 KB", "10 B"]
    );
    let mut links = snapshot(u64::MAX, 10).links;
    links.extend(snap.links);
    assert_eq!(
        view::total_row(&links),
        vec!["TOTAL", "", "2", "4", "16777216.0 TB", "20 B"]
    );
}

#[test]
fn texts_of_the_other_tabs() {
    let mut app = sample_app();
    assert_eq!(view::links_title(&app), " links ");
    app.dirty = true;
    assert_eq!(view::links_title(&app), " links (unsaved changes) ");
    assert_eq!(
        view::link_row(&link("db", LinkMode::Forward, Some("127.0.0.1:1"), None)),
        vec!["db", "forward", "listen", "127.0.0.1:1"]
    );
    assert_eq!(
        view::link_row(&link("dev", LinkMode::Reverse, None, Some("127.0.0.1:2"))),
        vec!["dev", "reverse", "target", "127.0.0.1:2"]
    );
    let lines = view::service_lines(&app);
    assert_eq!(lines[0], "state: unknown");
    assert_eq!(lines[1], "at boot: unknown");
    assert_eq!(lines.len(), 3 + SERVICE_MENU.len());
    assert!(lines[3].starts_with("> "));
    assert!(lines[4].starts_with("  "));
    assert_eq!(view::footer(&app), "tab/1-3 switch  q quit");
    assert_eq!(view::input_label(&app), None);
    app.mode = Mode::AddLinkId;
    app.input_buffer = "a".to_string();
    assert_eq!(view::input_label(&app), Some("link id"));
    assert_eq!(view::input_text(&app), "a_");
    app.message = Some("hello".to_string());
    assert_eq!(view::footer(&app), "hello");
}

#[test]
fn colours_are_read_from_their_texts() {
    assert_eq!(view::hex_to_rgb("#ff3b52"), (255, 59, 82));
    assert_eq!(view::hex_to_rgb("00FF7f"), (0, 255, 127));
    assert_eq!(view::hex_to_rgb(""), (255, 255, 255));
    assert_eq!(view::hex_to_rgb("zz0102"), (255, 1, 2));
}
