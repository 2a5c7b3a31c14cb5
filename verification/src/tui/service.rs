//! The commands behind the service tab.

use super::app::{verb_of, ServiceAction};
use crate::text::{trim, trimmed};
use vstd::prelude::*;

verus! {

/// The name of the service.
pub open spec fn service_name() -> Seq<char> {
    "ghostport"@
}

/// The command for an action: all but viewing the log need more rights. The unit
/// file is written by what its content is piped into.
pub open spec fn command_words(action: ServiceAction) -> Seq<Seq<char>> {
    match action {
        ServiceAction::InstallUnit => seq![
            "sudo"@,
            "tee"@,
            "/etc/systemd/system/ghostport.service"@,
        ],
        ServiceAction::ViewLogs => seq![
            "journalctl"@,
            "-u"@,
            service_name(),
            "-n"@,
            "50"@,
            "--no-pager"@,
        ],
        _ => seq!["sudo"@, "systemctl"@, verb_of(action), service_name()],
    }
}

/// The command for an action.
pub fn service_command(action: ServiceAction) -> (list: Vec<String>)
    ensures
        list.deep_view() == command_words(action),
{
    let mut list: Vec<String> = Vec::new();
    match action {
        ServiceAction::InstallUnit => {
            list.push("sudo".to_string());
            list.push("tee".to_string());
            list.push("/etc/systemd/system/ghostport.service".to_string());
        },
        ServiceAction::ViewLogs => {
            list.push("journalctl".to_string());
            list.push("-u".to_string());
            list.push("ghostport".to_string());
            list.push("-n".to_string());
            list.push("50".to_string());
            list.push("--no-pager".to_string());
        },
        _ => {
            list.push("sudo".to_string());
            list.push("systemctl".to_string());
            list.push(action.systemctl_verb().to_string());
            list.push("ghostport".to_string());
        },
    }
    assert(list.deep_view() =~= command_words(action));
    list
}

/// What the system says of the service, out of what a query printed; nothing where
/// it printed nothing.
pub fn service_answer(output: &str) -> (r: Option<String>)
    ensures
        r.deep_view() == (if trimmed(output@).len() == 0 {
            None
        } else {
            Some(trimmed(output@))
        }),
{
    let t = trim(output);
    if t.as_str().is_empty() {
        None
    } else {
        Some(t)
    }
}

/// Whatever changes the system is run with more rights, by the system's own command for
/// the service, whose word is that of the action; viewing the log is not.
pub proof fn law_commands_name_action_and_service(action: ServiceAction)
    ensures
        command_words(action)[0] == "sudo"@ <==> action != ServiceAction::ViewLogs,
        action != ServiceAction::ViewLogs && action != ServiceAction::InstallUnit
            ==> command_words(action) == seq!["sudo"@, "systemctl"@, verb_of(action), "ghostport"@],
        command_words(ServiceAction::ViewLogs) == seq![
            "journalctl"@,
            "-u"@,
            "ghostport"@,
            "-n"@,
            "50"@,
            "--no-pager"@,
        ],
        command_words(ServiceAction::InstallUnit) == seq![
            "sudo"@,
            "tee"@,
            "/etc/systemd/system/ghostport.service"@,
        ],
{
    reveal_strlit("sudo");
    reveal_strlit("journalctl");
    assert("journalctl"@.len() != "sudo"@.len());
}

} // verus!
