//! ANSI colouring of terminal text.  Whether colour is used (a terminal,
//! no `NO_COLOR`, no `--no-color`) is decided once by the caller.

use vstd::prelude::*;
use crate::text::owned;

verus! {

/// `text` between the escape `code` and the reset escape, or `text` alone
/// without colour.
pub open spec fn painted(code: Seq<char>, text: Seq<char>, use_color: bool) -> Seq<char> {
    if use_color {
        code + text + "\x1b[0m"@
    } else {
        text
    }
}

fn paint(code: &str, s: &str, use_color: bool) -> (r: String)
    ensures
        r@ == painted(code@, s@, use_color),
{
    if use_color {
        let mut r = owned(code);
        r.append(s);
        r.append("\x1b[0m");
        r
    } else {
        owned(s)
    }
}

/// Green text.
pub fn green(s: &str, use_color: bool) -> (r: String)
    ensures
        r@ == painted("\x1b[32m"@, s@, use_color),
{
    paint("\x1b[32m", s, use_color)
}

/// Yellow text.
pub fn yellow(s: &str, use_color: bool) -> (r: String)
    ensures
        r@ == painted("\x1b[33m"@, s@, use_color),
{
    paint("\x1b[33m", s, use_color)
}

/// Cyan text.
pub fn cyan(s: &str, use_color: bool) -> (r: String)
    ensures
        r@ == painted("\x1b[36m"@, s@, use_color),
{
    paint("\x1b[36m", s, use_color)
}

/// Red text.
pub fn red(s: &str, use_color: bool) -> (r: String)
    ensures
        r@ == painted("\x1b[31m"@, s@, use_color),
{
    paint("\x1b[31m", s, use_color)
}

/// Bold text.
pub fn bold(s: &str, use_color: bool) -> (r: String)
    ensures
        r@ == painted("\x1b[1m"@, s@, use_color),
{
    paint("\x1b[1m", s, use_color)
}

/// Dimmed text.
pub fn dim(s: &str, use_color: bool) -> (r: String)
    ensures
        r@ == painted("\x1b[2m"@, s@, use_color),
{
    paint("\x1b[2m", s, use_color)
}

} // verus!
