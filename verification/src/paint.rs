//! Coloured and bold terminal text, through `ansi_term`.
use vstd::prelude::*;

verus! {

/// The colours the task display uses.
#[derive(Debug, Clone, Copy, PartialEq, Eq)]
pub enum Paint {
    Red,
    Green,
    Yellow,
    Blue,
}

/// The SGR code of a foreground colour.
pub open spec fn colour_code(p: Paint) -> Seq<char> {
    match p {
        Paint::Red => "31"@,
        Paint::Green => "32"@,
        Paint::Yellow => "33"@,
        Paint::Blue => "34"@,
    }
}

/// `text` between the escape codes that colour it and reset the style.
pub open spec fn painted(p: Paint, text: Seq<char>) -> Seq<char> {
    "\x1B["@ + colour_code(p) + "m"@ + text + "\x1B[0m"@
}

/// `text` between the escape codes that make it bold and reset the style.
pub open spec fn bolded(text: Seq<char>) -> Seq<char> {
    "\x1B[1m"@ + text + "\x1B[0m"@
}

/// `ansi_term::Colour::paint`, shown as text. The claim: the text is written between
/// the prefix `ESC [ <code> m` of the colour's normal style and the reset `ESC [ 0 m`,
/// as `ansi_term`'s `write_to_any`, `write_prefix` and `write_suffix` do.
#[verifier::external_body]
pub(crate) fn paint(p: Paint, text: &str) -> (s: String)
    ensures
        s@ == painted(p, text@),
{
    let colour = match p {
        Paint::Red => ansi_term::Colour::Red,
        Paint::Green => ansi_term::Colour::Green,
        Paint::Yellow => ansi_term::Colour::Yellow,
        Paint::Blue => ansi_term::Colour::Blue,
    };
    colour.paint(text).to_string()
}

/// `ansi_term::Style::paint` with the bold default style, shown as text. The claim:
/// the text is written between `ESC [ 1 m` and the reset `ESC [ 0 m`.
#[verifier::external_body]
pub(crate) fn bold(text: &str) -> (s: String)
    ensures
        s@ == bolded(text@),
{
    ansi_term::Style::default().bold().paint(text).to_string()
}

} // verus!
