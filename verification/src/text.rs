//! Building text: runs of one character, and cells padded to a width.
//!
//! A width counts characters (Unicode scalar values), for every string alike.

use vstd::prelude::*;
use vstd::string::*;

verus! {

/// `count` copies of `c`.
pub open spec fn run(c: char, count: nat) -> Seq<char> {
    Seq::new(count, |i: int| c)
}

/// `text` pushed to the right edge of a cell of `width` characters. A text
/// that is as wide as the cell, or wider, stays as it is.
pub open spec fn right_aligned(text: Seq<char>, width: nat) -> Seq<char> {
    if text.len() >= width {
        text
    } else {
        run(' ', (width - text.len()) as nat) + text
    }
}

/// `text` at the left edge of a cell of `width` characters.
pub open spec fn left_aligned(text: Seq<char>, width: nat) -> Seq<char> {
    if text.len() >= width {
        text
    } else {
        text + run(' ', (width - text.len()) as nat)
    }
}

/// `text` in the middle of a cell of `width` characters. Where the blanks
/// cannot be shared evenly, the odd one goes to the right.
pub open spec fn centered(text: Seq<char>, width: nat) -> Seq<char> {
    if text.len() >= width {
        text
    } else {
        let slack = (width - text.len()) as nat;
        let before = slack / 2;
        run(' ', before) + text + run(' ', (slack - before) as nat)
    }
}

/// A padded cell is as wide as asked for, unless the text alone is wider.
pub proof fn lemma_cell_width(text: Seq<char>, width: nat)
    ensures
        right_aligned(text, width).len() == if text.len() >= width { text.len() } else { width },
        left_aligned(text, width).len() == right_aligned(text, width).len(),
        centered(text, width).len() == right_aligned(text, width).len(),
{
}

/// Appends `count` copies of the one character that `unit` holds.
pub(crate) fn push_run(out: &mut String, unit: &str, count: usize)
    requires
        unit@.len() == 1,
    ensures
        final(out)@ == old(out)@ + run(unit@[0], count as nat),
{
    let mut done: usize = 0;
    while done < count
        invariant
            done <= count,
            unit@.len() == 1,
            out@ == old(out)@ + run(unit@[0], done as nat),
        decreases count - done,
    {
        out.append(unit);
        done = done + 1;
    }
}

/// Appends `count` blanks.
pub fn push_blanks(out: &mut String, count: usize)
    ensures
        final(out)@ == old(out)@ + run(' ', count as nat),
{
    proof {
        reveal_strlit(" ");
    }
    push_run(out, " ", count);
}

/// Appends `text`, right-aligned in `width` characters.
pub fn push_right_aligned(out: &mut String, text: &str, width: usize)
    ensures
        final(out)@ == old(out)@ + right_aligned(text@, width as nat),
{
    let len: usize = text.unicode_len();
    if len < width {
        push_blanks(out, width - len);
    }
    out.append(text);
}

/// Appends `text`, left-aligned in `width` characters.
pub fn push_left_aligned(out: &mut String, text: &str, width: usize)
    ensures
        final(out)@ == old(out)@ + left_aligned(text@, width as nat),
{
    let len: usize = text.unicode_len();
    out.append(text);
    if len < width {
        push_blanks(out, width - len);
    }
}

/// Appends `text`, centered in `width` characters.
pub fn push_centered(out: &mut String, text: &str, width: usize)
    ensures
        final(out)@ == old(out)@ + centered(text@, width as nat),
{
    let len: usize = text.unicode_len();
    if len < width {
        let slack: usize = width - len;
        let before: usize = slack / 2;
        push_blanks(out, before);
        out.append(text);
        push_blanks(out, slack - before);
    } else {
        out.append(text);
    }
}

} // verus!
