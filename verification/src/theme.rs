//! Small helpers that colour plain terminal output. Which colours come is up to
//! the palette in force; that a text comes in one, and between which marks, is
//! not.

use crate::text::dec;
use vstd::prelude::*;

verus! {

/// The mark that switches the terminal to a colour.
pub open spec fn colour_mark(r: u8, g: u8, b: u8) -> Seq<char> {
    "\x1b[38;2;"@ + dec(r as nat) + ";"@ + dec(g as nat) + ";"@ + dec(b as nat) + "m"@
}

/// Whether a text is the mark of some colour.
pub open spec fn is_colour_mark(s: Seq<char>) -> bool {
    exists|r: u8, g: u8, b: u8| s == #[trigger] colour_mark(r, g, b)
}

/// The mark that switches the terminal back.
pub open spec fn reset_mark() -> Seq<char> {
    "\x1b[0m"@
}

/// The mark that switches the terminal to bold.
pub open spec fn bold_mark() -> Seq<char> {
    "\x1b[1m"@
}

/// Whether `s` is `text` in some colour.
pub open spec fn is_coloured(s: Seq<char>, text: Seq<char>) -> bool {
    exists|mark: Seq<char>| #[trigger] is_colour_mark(mark) && s == mark + text + reset_mark()
}

/// `cybercore::palette::acid_green`: the mark of a colour, which the theme in
/// force picks.
#[verifier::external_body]
fn acid_green() -> (s: String)
    ensures
        is_colour_mark(s@),
{
    cybercore::palette::acid_green()
}

/// `cybercore::palette::orange`: the mark of a colour, which the theme in force
/// picks.
#[verifier::external_body]
fn orange() -> (s: String)
    ensures
        is_colour_mark(s@),
{
    cybercore::palette::orange()
}

/// `cybercore::palette::red`: the mark of a colour, which the theme in force
/// picks.
#[verifier::external_body]
fn red() -> (s: String)
    ensures
        is_colour_mark(s@),
{
    cybercore::palette::red()
}

/// `cybercore::palette::cyan`: the mark of a colour, which the theme in force
/// picks.
#[verifier::external_body]
fn cyan() -> (s: String)
    ensures
        is_colour_mark(s@),
{
    cybercore::palette::cyan()
}

/// `cybercore::palette::purple`: the mark of a colour, which the theme in force
/// picks.
#[verifier::external_body]
fn purple() -> (s: String)
    ensures
        is_colour_mark(s@),
{
    cybercore::palette::purple()
}

/// `cybercore::palette::hot_pink`: the mark of a colour, which the theme in force
/// picks.
#[verifier::external_body]
fn hot_pink() -> (s: String)
    ensures
        is_colour_mark(s@),
{
    cybercore::palette::hot_pink()
}

/// `cybercore::palette::RESET`.
#[verifier::external_body]
fn reset() -> (s: &'static str)
    ensures
        s@ == reset_mark(),
{
    cybercore::palette::RESET
}

/// `cybercore::palette::BOLD`.
#[verifier::external_body]
fn bold() -> (s: &'static str)
    ensures
        s@ == bold_mark(),
{
    cybercore::palette::BOLD
}

/// Puts `text` behind a mark, and the mark that switches back behind it.
pub fn wrap(mark: String, text: &str) -> (s: String)
    ensures
        s@ == mark@ + text@ + reset_mark(),
{
    let mut s = mark;
    s.push_str(text);
    s.push_str(reset());
    s
}

/// `s` in the palette's success colour.
pub fn ok(s: &str) -> (r: String)
    ensures
        is_coloured(r@, s@),
{
    wrap(acid_green(), s)
}

/// `s` in the palette's warning colour.
pub fn warn(s: &str) -> (r: String)
    ensures
        is_coloured(r@, s@),
{
    wrap(orange(), s)
}

/// `s` in the palette's error colour.
pub fn err(s: &str) -> (r: String)
    ensures
        is_coloured(r@, s@),
{
    wrap(red(), s)
}

/// `s` in the palette's accent colour, used for the names of links.
pub fn accent(s: &str) -> (r: String)
    ensures
        is_coloured(r@, s@),
{
    wrap(cyan(), s)
}

/// `s` in bold success colour, for what has to stand out more.
pub fn emphasis(s: &str) -> (r: String)
    ensures
        exists|mark: Seq<char>| #[trigger]
            is_colour_mark(mark) && r@ == bold_mark() + mark + s@ + reset_mark(),
{
    let green = acid_green();
    let mut mark = bold().to_string();
    mark.push_str(green.as_str());
    let r = wrap(mark, s);
    assert(is_colour_mark(green@) && r@ == bold_mark() + green@ + s@ + reset_mark());
    r
}

/// The marks of the palette, for output in many colours.
pub struct Palette {
    /// Success.
    pub green: String,
    /// Warnings and amounts of data.
    pub orange: String,
    /// Errors.
    pub red: String,
    /// Accents and forward links.
    pub cyan: String,
    /// Roles.
    pub purple: String,
    /// Reverse links.
    pub pink: String,
}

/// What a `Palette` says.
#[verifier::ext_equal]
pub struct PaletteModel {
    pub green: Seq<char>,
    pub orange: Seq<char>,
    pub red: Seq<char>,
    pub cyan: Seq<char>,
    pub purple: Seq<char>,
    pub pink: Seq<char>,
}

impl View for Palette {
    type V = PaletteModel;

    open spec fn view(&self) -> PaletteModel {
        PaletteModel {
            green: self.green@,
            orange: self.orange@,
            red: self.red@,
            cyan: self.cyan@,
            purple: self.purple@,
            pink: self.pink@,
        }
    }
}

/// Whether all marks of a palette are marks of colours.
pub open spec fn is_palette(p: PaletteModel) -> bool {
    &&& is_colour_mark(p.green)
    &&& is_colour_mark(p.orange)
    &&& is_colour_mark(p.red)
    &&& is_colour_mark(p.cyan)
    &&& is_colour_mark(p.purple)
    &&& is_colour_mark(p.pink)
}

impl Palette {
    /// The palette in force.
    pub fn load() -> (p: Palette)
        ensures
            is_palette(p@),
    {
        Palette {
            green: acid_green(),
            orange: orange(),
            red: red(),
            cyan: cyan(),
            purple: purple(),
            pink: hot_pink(),
        }
    }
}

/// A text behind a mark, and the mark that switches back behind it.
pub open spec fn marked(mark: Seq<char>, text: Seq<char>) -> Seq<char> {
    mark + text + reset_mark()
}

/// Appends a text in a colour.
pub fn push_marked(s: &mut String, mark: &str, text: &str)
    ensures
        final(s)@ == old(s)@ + marked(mark@, text@),
{
    s.push_str(mark);
    s.push_str(text);
    s.push_str(reset());
    assert(s@ =~= old(s)@ + marked(mark@, text@));
}

/// Appends a text in bold and in a colour.
pub fn push_bold(s: &mut String, mark: &str, text: &str)
    ensures
        final(s)@ == old(s)@ + marked(bold_mark() + mark@, text@),
{
    s.push_str(bold());
    s.push_str(mark);
    s.push_str(text);
    s.push_str(reset());
    assert(s@ =~= old(s)@ + marked(bold_mark() + mark@, text@));
}

/// The model of a palette has the marks of the palette.
pub proof fn law_model_has_what_the_palette_has(p: Palette, text: Seq<char>)
    ensures
        p@.green == p.green@,
        p@.orange == p.orange@,
        p@.red == p.red@,
        p@.cyan == p.cyan@,
        p@.purple == p.purple@,
        p@.pink == p.pink@,
        marked(p@.green, text) == p.green@ + text + "\x1b[0m"@,
{
}

} // verus!
