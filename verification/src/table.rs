//! The table: two columns, a header, one line per row, in a box.
//!
//! ```text
//! ┏━━━━━━━━━━━━━━━━━━━━━━━━━━┯━━━━━━━━━━━━━━━━━━┓
//! ┃       Team member        │       Time       ┃
//! ┠──────────────────────────┼──────────────────┨
//! ┃  Alex (America/Montreal) │ Mon Jan 01 09:00 ┃
//! ┃ John Doe (Europe/Dublin) │ Mon Jan 01 14:00 ┃
//! ┗━━━━━━━━━━━━━━━━━━━━━━━━━━┷━━━━━━━━━━━━━━━━━━┛
//! ```
//!
//! Each column is as wide as its widest entry, the header included, with one
//! blank on either side. Headers are centered, the left column is
//! right-aligned and the right column left-aligned.

use vstd::prelude::*;
use vstd::string::*;
use crate::text::{
    centered, left_aligned, lemma_cell_width, push_centered, push_left_aligned, push_right_aligned,
    push_run, right_aligned, run,
};

verus! {

/// What a table shows below its header: for each row the left and the right
/// entry.
pub type Cells = Seq<(Seq<char>, Seq<char>)>;

/// The width of the left column: the longest of the header and the left
/// entries.
pub open spec fn left_width(header: Seq<char>, rows: Cells) -> nat
    decreases rows.len(),
{
    if rows.len() == 0 {
        header.len()
    } else {
        let above = left_width(header, rows.drop_last());
        if rows.last().0.len() > above {
            rows.last().0.len()
        } else {
            above
        }
    }
}

/// The width of the right column: the longest of the header and the right
/// entries.
pub open spec fn right_width(header: Seq<char>, rows: Cells) -> nat
    decreases rows.len(),
{
    if rows.len() == 0 {
        header.len()
    } else {
        let above = right_width(header, rows.drop_last());
        if rows.last().1.len() > above {
            rows.last().1.len()
        } else {
            above
        }
    }
}

/// A horizontal rule over both columns: each column's width in `fill`, padded
/// by one more `fill` on either side, between the two corners and around the
/// joint.
pub open spec fn rule(
    open: char,
    fill: char,
    joint: char,
    close: char,
    left: nat,
    right: nat,
) -> Seq<char> {
    seq![open, fill] + run(fill, left) + seq![fill, joint, fill] + run(fill, right) + seq![
        fill,
        close,
    ]
}

/// The upper edge of the box.
pub open spec fn top_border(left: nat, right: nat) -> Seq<char> {
    rule('┏', '━', '┯', '┓', left, right)
}

/// The rule between the header and the rows.
pub open spec fn divider(left: nat, right: nat) -> Seq<char> {
    rule('┠', '─', '┼', '┨', left, right)
}

/// The lower edge of the box.
pub open spec fn bottom_border(left: nat, right: nat) -> Seq<char> {
    rule('┗', '━', '┷', '┛', left, right)
}

/// A line of the box that holds two cells.
pub open spec fn boxed(left_cell: Seq<char>, right_cell: Seq<char>) -> Seq<char> {
    seq!['┃', ' '] + left_cell + seq![' ', '│', ' '] + right_cell + seq![' ', '┃']
}

/// The header line: both headers centered.
pub open spec fn header_line(h1: Seq<char>, h2: Seq<char>, left: nat, right: nat) -> Seq<char> {
    boxed(centered(h1, left), centered(h2, right))
}

/// The line of one row: the left entry right-aligned, the right entry
/// left-aligned.
pub open spec fn row_line(row: (Seq<char>, Seq<char>), left: nat, right: nat) -> Seq<char> {
    boxed(right_aligned(row.0, left), left_aligned(row.1, right))
}

/// The lines of the table from top to bottom: the upper edge, the header, the
/// divider, one line per row in the rows' order, the lower edge.
pub open spec fn table_lines(h1: Seq<char>, h2: Seq<char>, rows: Cells) -> Seq<Seq<char>> {
    let left = left_width(h1, rows);
    let right = right_width(h2, rows);
    seq![top_border(left, right), header_line(h1, h2, left, right), divider(left, right)]
        + Seq::new(rows.len(), |i: int| row_line(rows[i], left, right)) + seq![
        bottom_border(left, right),
    ]
}

/// `lines` as one text, each line ended by a line feed.
pub open spec fn stacked(lines: Seq<Seq<char>>) -> Seq<char>
    decreases lines.len(),
{
    if lines.len() == 0 {
        Seq::empty()
    } else {
        stacked(lines.drop_last()) + lines.last() + seq!['\n']
    }
}

/// The table as one text.
pub open spec fn table_text(h1: Seq<char>, h2: Seq<char>, rows: Cells) -> Seq<char> {
    stacked(table_lines(h1, h2, rows))
}

/// Each column is at least as wide as its header and as every entry in it,
/// and no wider than the widest of them.
pub proof fn lemma_widths_are_maxima(h1: Seq<char>, h2: Seq<char>, rows: Cells)
    ensures
        h1.len() <= left_width(h1, rows),
        h2.len() <= right_width(h2, rows),
        forall|i: int|
            0 <= i < rows.len() ==> (#[trigger] rows[i]).0.len() <= left_width(h1, rows),
        forall|i: int|
            0 <= i < rows.len() ==> (#[trigger] rows[i]).1.len() <= right_width(h2, rows),
        left_width(h1, rows) == h1.len() || exists|i: int|
            0 <= i < rows.len() && (#[trigger] rows[i]).0.len() == left_width(h1, rows),
        right_width(h2, rows) == h2.len() || exists|i: int|
            0 <= i < rows.len() && (#[trigger] rows[i]).1.len() == right_width(h2, rows),
    decreases rows.len(),
{
    if rows.len() > 0 {
        let above = rows.drop_last();
        lemma_widths_are_maxima(h1, h2, above);
        assert forall|i: int| 0 <= i < rows.len() implies (#[trigger] rows[i]).0.len()
            <= left_width(h1, rows) && rows[i].1.len() <= right_width(h2, rows) by {
            if i < above.len() {
                assert(above[i] == rows[i]);
            }
        }
        // A width that the last row does not set was set above it.
        if left_width(h1, rows) == left_width(h1, above) && left_width(h1, above) != h1.len() {
            let i = choose|i: int|
                0 <= i < above.len() && (#[trigger] above[i]).0.len() == left_width(h1, above);
            assert(rows[i] == above[i]);
        }
        if right_width(h2, rows) == right_width(h2, above) && right_width(h2, above) != h2.len() {
            let i = choose|i: int|
                0 <= i < above.len() && (#[trigger] above[i]).1.len() == right_width(h2, above);
            assert(rows[i] == above[i]);
        }
    }
}

/// A table has four lines besides its rows, and every line is equally wide:
/// the two columns, their padding and the three bars.
pub proof fn lemma_table_is_aligned(h1: Seq<char>, h2: Seq<char>, rows: Cells)
    ensures
        table_lines(h1, h2, rows).len() == rows.len() + 4,
        forall|k: int|
            0 <= k < rows.len() + 4 ==> (#[trigger] table_lines(h1, h2, rows)[k]).len()
                == left_width(h1, rows) + right_width(h2, rows) + 7,
{
    lemma_widths_are_maxima(h1, h2, rows);
    let left = left_width(h1, rows);
    let right = right_width(h2, rows);
    let lines = table_lines(h1, h2, rows);
    lemma_cell_width(h1, left);
    lemma_cell_width(h2, right);
    assert forall|k: int| 0 <= k < rows.len() + 4 implies (#[trigger] lines[k]).len() == left
        + right + 7 by {
        if 3 <= k < rows.len() + 3 {
            let row = rows[k - 3];
            lemma_cell_width(row.0, left);
            lemma_cell_width(row.1, right);
        }
    }
}

/// A table without rows is the box around its header alone: the upper edge,
/// the header line with both headers in full, the divider and the lower edge,
/// each column as wide as its header.
pub proof fn lemma_table_without_rows(h1: Seq<char>, h2: Seq<char>)
    ensures
        table_lines(h1, h2, Seq::empty()) == seq![
            top_border(h1.len(), h2.len()),
            boxed(h1, h2),
            divider(h1.len(), h2.len()),
            bottom_border(h1.len(), h2.len()),
        ],
{
}

/// The widths of the two columns.
pub fn column_widths(h1: &str, h2: &str, rows: &Vec<(String, String)>) -> (widths: (usize, usize))
    ensures
        widths.0 == left_width(h1@, rows.deep_view()),
        widths.1 == right_width(h2@, rows.deep_view()),
{
    let mut left: usize = h1.unicode_len();
    let mut right: usize = h2.unicode_len();
    let mut i: usize = 0;
    while i < rows.len()
        invariant
            i <= rows.len(),
            left == left_width(h1@, rows.deep_view().take(i as int)),
            right == right_width(h2@, rows.deep_view().take(i as int)),
        decreases rows.len() - i,
    {
        proof {
            let seen = rows.deep_view().take(i + 1);
            assert(seen.drop_last() =~= rows.deep_view().take(i as int));
        }
        let l: usize = rows[i].0.as_str().unicode_len();
        let r: usize = rows[i].1.as_str().unicode_len();
        if l > left {
            left = l;
        }
        if r > right {
            right = r;
        }
        i = i + 1;
    }
    proof {
        assert(rows.deep_view().take(rows.len() as int) =~= rows.deep_view());
    }
    (left, right)
}

fn rule_line(
    open: &str,
    fill: &str,
    joint: &str,
    close: &str,
    left: usize,
    right: usize,
) -> (line: String)
    requires
        open@.len() == 1,
        fill@.len() == 1,
        joint@.len() == 1,
        close@.len() == 1,
    ensures
        line@ == rule(open@[0], fill@[0], joint@[0], close@[0], left as nat, right as nat),
{
    let mut line = String::new();
    line.append(open);
    push_run(&mut line, fill, 1);
    push_run(&mut line, fill, left);
    push_run(&mut line, fill, 1);
    line.append(joint);
    push_run(&mut line, fill, 1);
    push_run(&mut line, fill, right);
    push_run(&mut line, fill, 1);
    line.append(close);
    line
}

fn top_line(left: usize, right: usize) -> (line: String)
    ensures
        line@ == top_border(left as nat, right as nat),
{
    proof {
        reveal_strlit("┏");
        reveal_strlit("━");
        reveal_strlit("┯");
        reveal_strlit("┓");
    }
    rule_line("┏", "━", "┯", "┓", left, right)
}

fn divider_line(left: usize, right: usize) -> (line: String)
    ensures
        line@ == divider(left as nat, right as nat),
{
    proof {
        reveal_strlit("┠");
        reveal_strlit("─");
        reveal_strlit("┼");
        reveal_strlit("┨");
    }
    rule_line("┠", "─", "┼", "┨", left, right)
}

fn bottom_line(left: usize, right: usize) -> (line: String)
    ensures
        line@ == bottom_border(left as nat, right as nat),
{
    proof {
        reveal_strlit("┗");
        reveal_strlit("━");
        reveal_strlit("┷");
        reveal_strlit("┛");
    }
    rule_line("┗", "━", "┷", "┛", left, right)
}

fn header_text(h1: &str, h2: &str, left: usize, right: usize) -> (line: String)
    ensures
        line@ == header_line(h1@, h2@, left as nat, right as nat),
{
    proof {
        reveal_strlit("┃ ");
        reveal_strlit(" │ ");
        reveal_strlit(" ┃");
    }
    let mut line = String::new();
    line.append("┃ ");
    push_centered(&mut line, h1, left);
    line.append(" │ ");
    push_centered(&mut line, h2, right);
    line.append(" ┃");
    line
}

fn row_text(label: &str, time: &str, left: usize, right: usize) -> (line: String)
    ensures
        line@ == row_line((label@, time@), left as nat, right as nat),
{
    proof {
        reveal_strlit("┃ ");
        reveal_strlit(" │ ");
        reveal_strlit(" ┃");
    }
    let mut line = String::new();
    line.append("┃ ");
    push_right_aligned(&mut line, label, left);
    line.append(" │ ");
    push_left_aligned(&mut line, time, right);
    line.append(" ┃");
    line
}

/// Lays the table out, one string per line and no line ends.
pub fn render_lines(h1: &str, h2: &str, rows: &Vec<(String, String)>) -> (lines: Vec<String>)
    ensures
        lines.deep_view() == table_lines(h1@, h2@, rows.deep_view()),
        lines.len() == rows.len() + 4,
{
    let (left, right) = column_widths(h1, h2, rows);
    let ghost cells = rows.deep_view();
    let ghost head = seq![
        top_border(left as nat, right as nat),
        header_line(h1@, h2@, left as nat, right as nat),
        divider(left as nat, right as nat),
    ];
    let mut lines: Vec<String> = Vec::new();
    lines.push(top_line(left, right));
    lines.push(header_text(h1, h2, left, right));
    lines.push(divider_line(left, right));
    let mut i: usize = 0;
    while i < rows.len()
        invariant
            i <= rows.len(),
            cells == rows.deep_view(),
            lines.deep_view() == head + Seq::new(
                i as nat,
                |k: int| row_line(cells[k], left as nat, right as nat),
            ),
        decreases rows.len() - i,
    {
        let ghost before = lines.deep_view();
        let line = row_text(rows[i].0.as_str(), rows[i].1.as_str(), left, right);
        lines.push(line);
        proof {
            assert(lines.deep_view() =~= before.push(
                row_line(cells[i as int], left as nat, right as nat),
            ));
        }
        i = i + 1;
    }
    lines.push(bottom_line(left, right));
    lines
}

/// Lays the table out as one text, each line ended by a line feed.
pub fn render(h1: &str, h2: &str, rows: &Vec<(String, String)>) -> (text: String)
    ensures
        text@ == table_text(h1@, h2@, rows.deep_view()),
{
    proof {
        reveal_strlit("\n");
    }
    let lines = render_lines(h1, h2, rows);
    let mut text = String::new();
    let mut i: usize = 0;
    while i < lines.len()
        invariant
            i <= lines.len(),
            "\n"@ == seq!['\n'],
            text@ == stacked(lines.deep_view().take(i as int)),
        decreases lines.len() - i,
    {
        proof {
            let seen = lines.deep_view().take(i + 1);
            assert(seen.drop_last() =~= lines.deep_view().take(i as int));
        }
        text.append(lines[i].as_str());
        text.append("\n");
        i = i + 1;
    }
    proof {
        assert(lines.deep_view().take(lines.len() as int) =~= lines.deep_view());
    }
    text
}

} // verus!
