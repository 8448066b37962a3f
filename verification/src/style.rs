//! Terminal styles for the command output. Whether escape codes are written
//! depends on the terminal and environment, so each styled text is either the
//! text itself or the text wrapped in the style's escape codes.
use vstd::prelude::*;

use colored::Colorize;

use crate::text::{append_chars, chars_of, contains, decimal, decimal_exec, ends_with, push_str,
    starts_with, string_of, eq_lit};

verus! {

/// A terminal style.
#[derive(Debug, Clone, Copy, PartialEq, Eq, Structural)]
pub enum Paint {
    Bold,
    BoldCyan,
    Blue,
    BoldWhite,
    Dimmed,
    BoldYellow,
    BoldRed,
    Cyan,
    BoldGreen,
    Green,
    Red,
}

/// The escape sequence that starts a style.
pub open spec fn paint_prefix(p: Paint) -> Seq<char> {
    match p {
        Paint::Bold => "\x1b[1m"@,
        Paint::BoldCyan => "\x1b[1;36m"@,
        Paint::Blue => "\x1b[34m"@,
        Paint::BoldWhite => "\x1b[1;37m"@,
        Paint::Dimmed => "\x1b[2m"@,
        Paint::BoldYellow => "\x1b[1;33m"@,
        Paint::BoldRed => "\x1b[1;31m"@,
        Paint::Cyan => "\x1b[36m"@,
        Paint::BoldGreen => "\x1b[1;32m"@,
        Paint::Green => "\x1b[32m"@,
        Paint::Red => "\x1b[31m"@,
    }
}

/// The escape sequence that ends a style.
pub open spec fn reset_code() -> Seq<char> {
    "\x1b[0m"@
}

/// `r` is `text` in style `p`: the text itself when colors are off, else the
/// text between the style's start and the reset (for a text that holds no
/// reset of its own, exactly that).
pub open spec fn painted(r: Seq<char>, text: Seq<char>, p: Paint) -> bool {
    r == text || (starts_with(r, paint_prefix(p)) && ends_with(r, reset_code()) && (!contains(
        text,
        reset_code(),
    ) ==> r == paint_prefix(p) + text + reset_code()))
}

/// Styles a text with `colored` (`bold`, `dimmed` and the colors, then
/// `to_string`). The result is the text itself when `colored` decides not to
/// colorize (terminal, `CLICOLOR`, overrides), otherwise the style's escape
/// sequence, the text (with the style repeated after any reset it holds) and
/// a reset; which of the two is not stated.
#[verifier::external_body]
fn paint(text: &str, p: Paint) -> (r: String)
    ensures
        painted(r@, text@, p),
{
    match p {
        Paint::Bold => text.bold(),
        Paint::BoldCyan => text.bold().cyan(),
        Paint::Blue => text.blue(),
        Paint::BoldWhite => text.bold().white(),
        Paint::Dimmed => text.dimmed(),
        Paint::BoldYellow => text.yellow().bold(),
        Paint::BoldRed => text.red().bold(),
        Paint::Cyan => text.cyan(),
        Paint::BoldGreen => text.green().bold(),
        Paint::Green => text.green(),
        Paint::Red => text.red(),
    }.to_string()
}

/// A section heading: bold cyan.
pub fn heading(text: &str) -> (r: String)
    ensures
        painted(r@, text@, Paint::BoldCyan),
{
    paint(text, Paint::BoldCyan)
}

/// A label: bold.
pub fn label(text: &str) -> (r: String)
    ensures
        painted(r@, text@, Paint::Bold),
{
    paint(text, Paint::Bold)
}

/// A file path: blue.
pub fn path(text: &str) -> (r: String)
    ensures
        painted(r@, text@, Paint::Blue),
{
    paint(text, Paint::Blue)
}

/// Emphasized text: bold white.
pub fn emphasis(text: &str) -> (r: String)
    ensures
        painted(r@, text@, Paint::BoldWhite),
{
    paint(text, Paint::BoldWhite)
}

/// Secondary text: dimmed.
pub fn muted(text: &str) -> (r: String)
    ensures
        painted(r@, text@, Paint::Dimmed),
{
    paint(text, Paint::Dimmed)
}

/// A warning: bold yellow.
pub fn warning(text: &str) -> (r: String)
    ensures
        painted(r@, text@, Paint::BoldYellow),
{
    paint(text, Paint::BoldYellow)
}

/// An error: bold red.
pub fn error(text: &str) -> (r: String)
    ensures
        painted(r@, text@, Paint::BoldRed),
{
    paint(text, Paint::BoldRed)
}

/// Information: cyan.
pub fn info(text: &str) -> (r: String)
    ensures
        painted(r@, text@, Paint::Cyan),
{
    paint(text, Paint::Cyan)
}

/// The decimal text of a signed number.
pub open spec fn signed_decimal(v: int) -> Seq<char> {
    if v < 0 {
        "-"@ + decimal((-v) as nat)
    } else {
        decimal(v as nat)
    }
}

fn signed_decimal_exec(v: i64) -> (r: Vec<char>)
    ensures
        r@ == signed_decimal(v as int),
{
    if v < 0 {
        let m: u128 = (-(v as i128)) as u128;
        let mut out = chars_of("-");
        let d = crate::text::decimal_wide(m);
        append_chars(&mut out, d.as_slice());
        out
    } else {
        crate::text::decimal_wide(v as u128)
    }
}

/// A score: its decimal text in bold green.
pub fn score_value(value: i64) -> (r: String)
    ensures
        painted(r@, signed_decimal(value as int), Paint::BoldGreen),
{
    let d = signed_decimal_exec(value);
    let s = string_of(d.as_slice());
    paint(s.as_str(), Paint::BoldGreen)
}

/// The style of a count: file counts bold green, skipped counts bold yellow
/// (dimmed when zero), error counts bold red (green when zero), others plain.
pub open spec fn metric_paint(name: Seq<char>, value: usize) -> Option<Paint> {
    if name == "files"@ {
        Some(Paint::BoldGreen)
    } else if name == "skipped"@ {
        if value > 0 {
            Some(Paint::BoldYellow)
        } else {
            Some(Paint::Dimmed)
        }
    } else if name == "errors"@ {
        if value > 0 {
            Some(Paint::BoldRed)
        } else {
            Some(Paint::Green)
        }
    } else {
        None
    }
}

/// A count, styled by what it counts.
pub fn metric_value(name: &str, value: usize) -> (r: String)
    ensures
        match metric_paint(name@, value) {
            None => r@ == decimal(value as nat),
            Some(p) => painted(r@, decimal(value as nat), p),
        },
{
    let nc = chars_of(name);
    let d = decimal_exec(value);
    let s = string_of(d.as_slice());
    if eq_lit(nc.as_slice(), "files") {
        paint(s.as_str(), Paint::BoldGreen)
    } else if eq_lit(nc.as_slice(), "skipped") {
        if value > 0 {
            paint(s.as_str(), Paint::BoldYellow)
        } else {
            paint(s.as_str(), Paint::Dimmed)
        }
    } else if eq_lit(nc.as_slice(), "errors") {
        if value > 0 {
            paint(s.as_str(), Paint::BoldRed)
        } else {
            paint(s.as_str(), Paint::Green)
        }
    } else {
        s
    }
}

/// A skipped item in verbose output: the kind as a warning, the path, and the
/// reason in parentheses, muted.
pub fn skip_verbose(kind: &str, item_path: &str, reason: &str) -> (r: String)
    ensures
        exists|a: Seq<char>, b: Seq<char>, c: Seq<char>|
            {
                &&& painted(a, kind@, Paint::BoldYellow)
                &&& painted(b, item_path@, Paint::Blue)
                &&& painted(c, "("@ + reason@ + ")"@, Paint::Dimmed)
                &&& r@ == a + " "@ + b + " "@ + c
            },
{
    let a = warning(kind);
    let b = path(item_path);
    let mut rc = chars_of("(");
    let reason_chars = chars_of(reason);
    append_chars(&mut rc, reason_chars.as_slice());
    push_str(&mut rc, ")");
    let rs = string_of(rc.as_slice());
    let c = muted(rs.as_str());
    let mut out = chars_of(a.as_str());
    push_str(&mut out, " ");
    push_str(&mut out, b.as_str());
    push_str(&mut out, " ");
    push_str(&mut out, c.as_str());
    string_of(out.as_slice())
}

/// An error in verbose output: `error:` in the error style, then the context
/// and detail in red.
pub fn error_verbose(context: &str, detail: &str) -> (r: String)
    ensures
        exists|a: Seq<char>, b: Seq<char>|
            {
                &&& painted(a, "error:"@, Paint::BoldRed)
                &&& painted(b, context@ + " ("@ + detail@ + ")"@, Paint::Red)
                &&& r@ == a + " "@ + b
            },
{
    let a = error("error:");
    let mut mc = chars_of(context);
    push_str(&mut mc, " (");
    push_str(&mut mc, detail);
    push_str(&mut mc, ")");
    let ms = string_of(mc.as_slice());
    let b = paint(ms.as_str(), Paint::Red);
    let mut out = chars_of(a.as_str());
    push_str(&mut out, " ");
    push_str(&mut out, b.as_str());
    string_of(out.as_slice())
}

} // verus!
