//! Link templates for the first step of adding a link: common cases with
//! sensible defaults. Typing everything by hand is always possible too.

use crate::config::LinkMode;
use vstd::prelude::*;

verus! {

/// A common kind of link.
#[derive(Debug, Clone, Copy)]
pub struct LinkTemplate {
    /// What it is called in the menu.
    pub name: &'static str,
    /// Which way it carries connections.
    pub mode: LinkMode,
    /// The name that is suggested for the link.
    pub default_id: &'static str,
    /// The port that is suggested.
    pub default_port: u16,
}

/// How many templates there are.
pub const TEMPLATE_COUNT: usize = 8;

/// The templates, in the order of the menu.
pub open spec fn template_at(i: int) -> LinkTemplate {
    if i == 0 {
        LinkTemplate {
            name: "SSH",
            mode: LinkMode::Forward,
            default_id: "ssh",
            default_port: 22,
        }
    } else if i == 1 {
        LinkTemplate {
            name: "HTTP",
            mode: LinkMode::Forward,
            default_id: "http",
            default_port: 80,
        }
    } else if i == 2 {
        LinkTemplate {
            name: "HTTPS",
            mode: LinkMode::Forward,
            default_id: "https",
            default_port: 443,
        }
    } else if i == 3 {
        LinkTemplate {
            name: "PostgreSQL",
            mode: LinkMode::Forward,
            default_id: "postgres",
            default_port: 5432,
        }
    } else if i == 4 {
        LinkTemplate {
            name: "MySQL / MariaDB",
            mode: LinkMode::Forward,
            default_id: "mysql",
            default_port: 3306,
        }
    } else if i == 5 {
        LinkTemplate {
            name: "Redis",
            mode: LinkMode::Forward,
            default_id: "redis",
            default_port: 6379,
        }
    } else if i == 6 {
        LinkTemplate {
            name: "Expose local dev server",
            mode: LinkMode::Reverse,
            default_id: "dev",
            default_port: 3000,
        }
    } else {
        LinkTemplate {
            name: "Expose local web server",
            mode: LinkMode::Reverse,
            default_id: "web",
            default_port: 8080,
        }
    }
}

/// The template at a place in the menu.
pub fn template(index: usize) -> (t: Option<LinkTemplate>)
    ensures
        match t {
            Some(t) => index < TEMPLATE_COUNT && t == template_at(index as int),
            None => index >= TEMPLATE_COUNT,
        },
{
    let t = match index {
        0 => LinkTemplate {
            name: "SSH",
            mode: LinkMode::Forward,
            default_id: "ssh",
            default_port: 22,
        },
        1 => LinkTemplate {
            name: "HTTP",
            mode: LinkMode::Forward,
            default_id: "http",
            default_port: 80,
        },
        2 => LinkTemplate {
            name: "HTTPS",
            mode: LinkMode::Forward,
            default_id: "https",
            default_port: 443,
        },
        3 => LinkTemplate {
            name: "PostgreSQL",
            mode: LinkMode::Forward,
            default_id: "postgres",
            default_port: 5432,
        },
        4 => LinkTemplate {
            name: "MySQL / MariaDB",
            mode: LinkMode::Forward,
            default_id: "mysql",
            default_port: 3306,
        },
        5 => LinkTemplate {
            name: "Redis",
            mode: LinkMode::Forward,
            default_id: "redis",
            default_port: 6379,
        },
        6 => LinkTemplate {
            name: "Expose local dev server",
            mode: LinkMode::Reverse,
            default_id: "dev",
            default_port: 3000,
        },
        7 => LinkTemplate {
            name: "Expose local web server",
            mode: LinkMode::Reverse,
            default_id: "web",
            default_port: 8080,
        },
        _ => {
            return None;
        },
    };
    Some(t)
}

/// The place in the menu that means "custom": one past the last template.
pub fn custom_index() -> (i: usize)
    ensures
        i == TEMPLATE_COUNT,
{
    TEMPLATE_COUNT
}

/// How many places the menu has.
pub fn menu_len() -> (n: usize)
    ensures
        n == TEMPLATE_COUNT + 1,
{
    TEMPLATE_COUNT + 1
}

/// The templates: what each of them is called, which way it carries connections, and
/// the name and the port that it suggests.
pub proof fn law_templates_of_the_menu(i: int)
    requires
        0 <= i < TEMPLATE_COUNT,
    ensures
        TEMPLATE_COUNT == 8,
        template_at(i).mode is Reverse <==> i >= 6,
        template_at(i).default_port == seq![22u16, 80, 443, 5432, 3306, 6379, 3000, 8080][i],
        template_at(i).default_id@ == seq![
            "ssh"@,
            "http"@,
            "https"@,
            "postgres"@,
            "mysql"@,
            "redis"@,
            "dev"@,
            "web"@,
        ][i],
        template_at(i).name@ == seq![
            "SSH"@,
            "HTTP"@,
            "HTTPS"@,
            "PostgreSQL"@,
            "MySQL / MariaDB"@,
            "Redis"@,
            "Expose local dev server"@,
            "Expose local web server"@,
        ][i],
{
}

} // verus!
