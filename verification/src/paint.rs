//! Painting text with the terminal colours of the `colored` crate.

use colored::Colorize;
use vstd::prelude::*;

verus! {

/// The escape character that starts a terminal control sequence.
pub open spec fn esc() -> char {
    '\u{1b}'
}

/// The sequence that resets the terminal's colour: `ESC [ 0 m`.
pub open spec fn reset_seq() -> Seq<char> {
    seq![esc(), '[', '0', 'm']
}

/// The sequence that selects the colour with the given SGR code: `ESC [ code m`.
pub open spec fn style_seq(code: Seq<char>) -> Seq<char> {
    seq![esc(), '['] + code + seq!['m']
}

/// `s` with the style sequence put back after each reset sequence in it.
pub open spec fn restyle_resets(code: Seq<char>, s: Seq<char>) -> Seq<char>
    decreases s.len(),
{
    if s.len() >= 4 && s.take(4) == reset_seq() {
        reset_seq() + style_seq(code) + restyle_resets(code, s.skip(4))
    } else if s.len() > 0 {
        seq![s[0]] + restyle_resets(code, s.drop_first())
    } else {
        seq![]
    }
}

/// `s` painted with the colour `code`.
pub open spec fn styled(code: Seq<char>, s: Seq<char>) -> Seq<char> {
    style_seq(code) + restyle_resets(code, s) + reset_seq()
}

/// `out` is `src` painted with `code`, or `src` itself where the terminal gets no colours.
pub open spec fn painted(out: Seq<char>, src: Seq<char>, code: Seq<char>) -> bool {
    out == src || out == styled(code, src)
}

pub open spec fn bright_red_code() -> Seq<char> {
    seq!['9', '1']
}

pub open spec fn bright_blue_code() -> Seq<char> {
    seq!['9', '4']
}

pub open spec fn bright_green_code() -> Seq<char> {
    seq!['9', '2']
}

pub open spec fn white_code() -> Seq<char> {
    seq!['3', '7']
}

/// Calls `colored::Colorize::bright_red` on `src` and prints the result with `to_string`.
/// Whether colours are written depends on the environment (`NO_COLOR`, `CLICOLOR`,
/// `CLICOLOR_FORCE`, whether standard output is a terminal), so the contract admits both
/// outcomes: `src` unchanged, or `src` wrapped in `ESC[91m` and `ESC[0m` with the colour
/// put back after each reset sequence inside it.
#[verifier::external_body]
pub(crate) fn bright_red(src: &str) -> (res: String)
    ensures
        painted(res@, src@, bright_red_code()),
{
    src.bright_red().to_string()
}

/// Calls `colored::Colorize::bright_blue` on `src` and prints the result with `to_string`;
/// as for `bright_red`, with the code `94`.
#[verifier::external_body]
pub(crate) fn bright_blue(src: &str) -> (res: String)
    ensures
        painted(res@, src@, bright_blue_code()),
{
    src.bright_blue().to_string()
}

/// Calls `colored::Colorize::bright_green` on `src` and prints the result with
/// `to_string`; as for `bright_red`, with the code `92`.
#[verifier::external_body]
pub(crate) fn bright_green(src: &str) -> (res: String)
    ensures
        painted(res@, src@, bright_green_code()),
{
    src.bright_green().to_string()
}

/// Calls `colored::Colorize::white` on `src` and prints the result with `to_string`; as
/// for `bright_red`, with the code `37`.
#[verifier::external_body]
pub(crate) fn white(src: &str) -> (res: String)
    ensures
        painted(res@, src@, white_code()),
{
    src.white().to_string()
}

} // verus!
