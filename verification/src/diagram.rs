//! The layout of vertical box diagrams: widths, margins and paddings.
use vstd::prelude::*;

use crate::text::chars_of;

verus! {

/// Boxes are at least this wide inside.
pub const MIN_INNER_WIDTH: usize = 20;

/// The terminal width that diagrams are centered in.
pub const TERMINAL_WIDTH: usize = 80;

/// One box of a diagram: a primary and a secondary line.
#[derive(Debug)]
pub struct BoxLine {
    pub primary: String,
    pub secondary: String,
}

/// The number of characters of a text.
pub fn char_count(text: &str) -> (r: usize)
    ensures
        r == text@.len(),
{
    text.unicode_len()
}

/// The widest line among the first `n` boxes, at least `MIN_INNER_WIDTH`.
pub open spec fn widest(lines: Seq<BoxLine>, n: nat) -> nat
    decreases n,
{
    if n == 0 {
        MIN_INNER_WIDTH as nat
    } else {
        let w = widest(lines, (n - 1) as nat);
        let a = lines[n - 1].primary@.len();
        let b = lines[n - 1].secondary@.len();
        let m = if a > w {
            a
        } else {
            w
        };
        if b > m {
            b
        } else {
            m
        }
    }
}

/// The inner width of the boxes: the widest line plus four.
pub fn inner_width_for_lines(lines: &Vec<BoxLine>) -> (r: usize)
    requires
        widest(lines@, lines@.len()) + 4 <= usize::MAX,
    ensures
        r == widest(lines@, lines@.len()) + 4,
{
    let mut w: usize = MIN_INNER_WIDTH;
    let mut i: usize = 0;
    while i < lines.len()
        invariant
            i <= lines@.len(),
            w == widest(lines@, i as nat),
        decreases lines.len() - i,
    {
        let a = char_count(lines[i].primary.as_str());
        let b = char_count(lines[i].secondary.as_str());
        if a > w {
            w = a;
        }
        if b > w {
            w = b;
        }
        i = i + 1;
    }
    w + 4
}

/// The left margin that centers a box of outer width `box_outer_width`:
/// half the free width, at least two.
pub open spec fn margin_for(box_outer_width: nat) -> nat {
    let free = if box_outer_width < TERMINAL_WIDTH {
        (TERMINAL_WIDTH - box_outer_width) as nat
    } else {
        0
    };
    (if free < 4 {
        4
    } else {
        free
    }) / 2
}

/// The indentation that centers a box of outer width `box_outer_width`.
pub fn diagram_indent(box_outer_width: usize) -> (r: String)
    ensures
        r@ == Seq::new(margin_for(box_outer_width as nat), |i: int| ' '),
{
    let free = if box_outer_width < TERMINAL_WIDTH {
        TERMINAL_WIDTH - box_outer_width
    } else {
        0
    };
    let margin = (if free < 4 {
        4
    } else {
        free
    }) / 2;
    let mut out: Vec<char> = Vec::new();
    let mut i: usize = 0;
    while i < margin
        invariant
            i <= margin,
            out@ == Seq::new(i as nat, |k: int| ' '),
        decreases margin - i,
    {
        out.push(' ');
        assert(out@ =~= Seq::new((i + 1) as nat, |k: int| ' '));
        i = i + 1;
    }
    crate::text::string_of(out.as_slice())
}

/// The spaces left and right of a text of `len` characters centered in a row
/// of `inner_width`.
pub fn row_padding(inner_width: usize, len: usize) -> (r: (usize, usize))
    ensures
        len <= inner_width ==> r.0 == (inner_width - len) / 2 && r.0 + r.1 + len == inner_width,
        len > inner_width ==> r.0 == 0 && r.1 == 0,
{
    let free = if len <= inner_width {
        inner_width - len
    } else {
        0
    };
    let left = free / 2;
    (left, free - left)
}

/// The border lengths left and right of the connector on a box's bottom edge.
pub fn tee_split(inner_width: usize) -> (r: (usize, usize))
    ensures
        r.0 == inner_width / 2,
        inner_width > 0 ==> r.0 + 1 + r.1 == inner_width,
        inner_width == 0 ==> r.1 == 0,
{
    let left = inner_width / 2;
    let right = if inner_width - left >= 1 {
        inner_width - left - 1
    } else {
        0
    };
    (left, right)
}

/// The column of the connector between boxes: after the indent and the
/// left border, half the inner width in.
pub fn tee_column(indent_len: usize, inner_width: usize) -> (r: usize)
    requires
        indent_len + 1 + inner_width / 2 <= usize::MAX,
    ensures
        r == indent_len + 1 + inner_width / 2,
{
    indent_len + 1 + inner_width / 2
}

} // verus!
