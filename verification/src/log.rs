//! The lines that the daemon prints about its connections.

use crate::theme::{marked, push_marked, Palette, PaletteModel};
use vstd::prelude::*;

verus! {

/// A line to print.
pub struct LogLine {
    /// Whether it goes to the error output.
    pub to_stderr: bool,
    /// The text, without a line end.
    pub text: String,
}

/// How a message is coloured.
#[derive(Debug, Clone, Copy, PartialEq, Eq, Structural)]
pub enum Tone {
    /// All is well.
    Good,
    /// Something to look at.
    Doubtful,
    /// Something failed.
    Bad,
}

/// The mark of the colour that goes with a tone.
pub open spec fn tone_mark(p: PaletteModel, tone: Tone) -> Seq<char> {
    match tone {
        Tone::Good => p.green,
        Tone::Doubtful => p.orange,
        Tone::Bad => p.red,
    }
}

/// The line for a message of the daemon.
pub open spec fn daemon_text(p: PaletteModel, tone: Tone, message: Seq<char>) -> Seq<char> {
    "ghostport: "@ + marked(tone_mark(p, tone), message)
}

/// The line for a message about a link.
pub open spec fn link_text(
    p: PaletteModel,
    link_id: Seq<char>,
    tone: Tone,
    message: Seq<char>,
) -> Seq<char> {
    "ghostport: ["@ + marked(p.cyan, link_id) + "] "@ + marked(tone_mark(p, tone), message)
}

/// The line for a message about a link, of which only the link's name is
/// coloured.
pub open spec fn plain_link_text(
    p: PaletteModel,
    link_id: Seq<char>,
    message: Seq<char>,
) -> Seq<char> {
    "ghostport: ["@ + marked(p.cyan, link_id) + "] "@ + message
}

fn push_toned(s: &mut String, p: &Palette, tone: Tone, message: &str)
    ensures
        final(s)@ == old(s)@ + marked(tone_mark(p@, tone), message@),
{
    match tone {
        Tone::Good => push_marked(s, p.green.as_str(), message),
        Tone::Doubtful => push_marked(s, p.orange.as_str(), message),
        Tone::Bad => push_marked(s, p.red.as_str(), message),
    }
}

/// The line for a message of the daemon.
pub fn daemon_line(p: &Palette, to_stderr: bool, tone: Tone, message: &str) -> (l: LogLine)
    ensures
        l.to_stderr == to_stderr,
        l.text@ == daemon_text(p@, tone, message@),
{
    let mut text = "ghostport: ".to_string();
    push_toned(&mut text, p, tone, message);
    LogLine { to_stderr, text }
}

/// The line for a message about a link.
pub fn link_line(p: &Palette, to_stderr: bool, link_id: &str, tone: Tone, message: &str) -> (l: LogLine)
    ensures
        l.to_stderr == to_stderr,
        l.text@ == link_text(p@, link_id@, tone, message@),
{
    let mut text = "ghostport: [".to_string();
    push_marked(&mut text, p.cyan.as_str(), link_id);
    text.push_str("] ");
    push_toned(&mut text, p, tone, message);
    LogLine { to_stderr, text }
}

/// The line for a message about a link, of which only the link's name is
/// coloured.
pub fn plain_link_line(p: &Palette, to_stderr: bool, link_id: &str, message: &str) -> (l: LogLine)
    ensures
        l.to_stderr == to_stderr,
        l.text@ == plain_link_text(p@, link_id@, message@),
{
    let mut text = "ghostport: [".to_string();
    push_marked(&mut text, p.cyan.as_str(), link_id);
    text.push_str("] ");
    text.push_str(message);
    LogLine { to_stderr, text }
}

/// A line tells its message in the colour of its tone, and one about a link tells its
/// name before that: green where all is well, orange for what is doubtful, red for what
/// failed. Every colour is switched off again.
pub proof fn law_lines_tell_link_and_message(
    p: PaletteModel,
    link_id: Seq<char>,
    tone: Tone,
    message: Seq<char>,
)
    ensures
        ({
            let mark = match tone {
                Tone::Good => p.green,
                Tone::Doubtful => p.orange,
                Tone::Bad => p.red,
            };
            let link = "ghostport: ["@ + p.cyan + link_id + "\x1b[0m"@ + "] "@;
            &&& daemon_text(p, tone, message) == "ghostport: "@ + mark + message + "\x1b[0m"@
            &&& link_text(p, link_id, tone, message) == link + mark + message + "\x1b[0m"@
            &&& plain_link_text(p, link_id, message) == link + message
        }),
{
    let mark = match tone {
        Tone::Good => p.green,
        Tone::Doubtful => p.orange,
        Tone::Bad => p.red,
    };
    let link = "ghostport: ["@ + p.cyan + link_id + "\x1b[0m"@ + "] "@;
    assert(daemon_text(p, tone, message) =~= "ghostport: "@ + mark + message + "\x1b[0m"@);
    assert(link_text(p, link_id, tone, message) =~= link + mark + message + "\x1b[0m"@);
    assert(plain_link_text(p, link_id, message) =~= link + message);
}

} // verus!
