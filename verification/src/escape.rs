//! The control sequences that move the cursor, set the colour and blank the
//! screen, as the `termion` crate writes them.

use vstd::prelude::*;

verus! {

/// The character of the decimal digit `d`.
pub open spec fn digit(d: int) -> char {
    seq!['0', '1', '2', '3', '4', '5', '6', '7', '8', '9'][d]
}

/// `n` in decimal digits, without sign or leading zeros.
pub open spec fn decimal(n: nat) -> Seq<char>
    decreases n,
{
    if n < 10 {
        seq![digit(n as int)]
    } else {
        decimal(n / 10).push(digit((n % 10) as int))
    }
}

/// The two characters that introduce a control sequence.
pub open spec fn introducer() -> Seq<char> {
    seq!['\u{1b}', '[']
}

/// The sequence that moves the cursor to column `x` of row `y`, both counted
/// from 1: the row comes first.
pub open spec fn cursor_to(x: int, y: int) -> Seq<char> {
    introducer() + decimal(y as nat) + seq![';'] + decimal(x as nat) + seq!['H']
}

/// The sequence that sets the foreground to the colour of the three
/// components.
pub open spec fn rgb_foreground(r: u8, g: u8, b: u8) -> Seq<char> {
    introducer() + seq!['3', '8', ';', '2', ';'] + decimal(r as nat) + seq![';'] + decimal(
        g as nat,
    ) + seq![';'] + decimal(b as nat) + seq!['m']
}

/// The sequence that blanks the whole screen.
pub open spec fn clear_screen() -> Seq<char> {
    introducer() + seq!['2', 'J']
}

/// Formats `termion::cursor::Goto(x, y)`, which writes the introducer, the row
/// `y`, a semicolon, the column `x` and the letter `H`, the numbers in plain
/// decimal. In a debug build the formatting fails on the position (0, 0),
/// which is left out here.
#[verifier::external_body]
pub(crate) fn goto(x: u16, y: u16) -> (code: String)
    requires
        x != 0 || y != 0,
    ensures
        code@ == cursor_to(x as int, y as int),
{
    format!("{}", termion::cursor::Goto(x, y))
}

/// Formats `termion::color::Fg(termion::color::Rgb(r, g, b))`. That writes the
/// introducer, `38;2;`, the three components in plain decimal with semicolons
/// between them, and the letter `m`; or nothing at all, where the variable
/// `NO_COLOR` is set for the process. Which of the two it is cannot be told
/// from the arguments.
#[verifier::external_body]
pub(crate) fn foreground(r: u8, g: u8, b: u8) -> (code: String)
    ensures
        code@ == rgb_foreground(r, g, b) || code@ == Seq::<char>::empty(),
{
    format!("{}", termion::color::Fg(termion::color::Rgb(r, g, b)))
}

/// Formats `termion::clear::All`, which writes the introducer and `2J`.
#[verifier::external_body]
pub(crate) fn clear_all() -> (code: String)
    ensures
        code@ == clear_screen(),
{
    format!("{}", termion::clear::All)
}

} // verus!
