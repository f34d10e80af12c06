//! The table in which a stored report is shown.

use crate::render::{decimal, highlighted, push_decimal};
use crate::text::{chars_of, texts};
use crate::types::{entry_views, MatchEntry, MatchEntryView, Report, ReportView};
use vstd::prelude::*;

verus! {

/// The width to which the file column is filled.
pub const FILE_WIDTH: usize = 44;

/// The width to which the line column is filled.
pub const LINE_WIDTH: usize = 6;

/// `count` spaces.
pub open spec fn spaces(count: nat) -> Seq<char> {
    Seq::new(count, |i: int| ' ')
}

/// `cell` filled with spaces on the right up to `width` characters. A cell
/// that is wider stays as it is.
pub open spec fn pad_right(cell: Seq<char>, width: nat) -> Seq<char> {
    if cell.len() >= width {
        cell
    } else {
        cell + spaces((width - cell.len()) as nat)
    }
}

/// `cell` filled with spaces on the left up to `width` characters. A cell
/// that is wider stays as it is.
pub open spec fn pad_left(cell: Seq<char>, width: nat) -> Seq<char> {
    if cell.len() >= width {
        cell
    } else {
        spaces((width - cell.len()) as nat) + cell
    }
}

/// The cell that shows a matched text: the text itself, or the text between
/// the escape sequences for bold yellow where colors are asked for.
pub open spec fn match_cell(text: Seq<char>, use_colors: bool) -> Seq<char> {
    if use_colors {
        highlighted(text)
    } else {
        text
    }
}

/// The row of one match: the file cell filled to 44 characters, the line
/// number right-aligned in 6, and the match cell, between bars.
pub open spec fn row_text(file_cell: Seq<char>, entry: MatchEntryView, use_colors: bool) -> Seq<
    char,
> {
    "│ "@ + pad_right(file_cell, FILE_WIDTH as nat) + " │ "@ + pad_left(
        decimal(entry.line),
        LINE_WIDTH as nat,
    ) + " │ "@ + match_cell(entry.matched_text, use_colors) + " │"@
}

/// The upper border of the table.
pub open spec fn top_border() -> Seq<char> {
    "┌──────────────────────────────────────────────┬────────┬────────────────────────────────────────────┐"@
}

/// The line that names the columns.
pub open spec fn column_names() -> Seq<char> {
    "│ FILE                                         │ LINE   │ MATCH                                      │"@
}

/// The border between the column names and the rows.
pub open spec fn inner_border() -> Seq<char> {
    "├──────────────────────────────────────────────┼────────┼────────────────────────────────────────────┤"@
}

/// The lower border of the table.
pub open spec fn bottom_border() -> Seq<char> {
    "└──────────────────────────────────────────────┴────────┴────────────────────────────────────────────┘"@
}

/// The rows of the first `count` matches, in the order of the report.
pub open spec fn rows_text(
    file_cells: Seq<Seq<char>>,
    matches: Seq<MatchEntryView>,
    use_colors: bool,
    count: int,
) -> Seq<Seq<char>> {
    Seq::new(count as nat, |i: int| row_text(file_cells[i], matches[i], use_colors))
}

/// The lines of the table: the title, the upper border, the column names,
/// the inner border, one row for each match of the report in its order, and
/// the lower border.
pub open spec fn table_text(
    title: Seq<char>,
    file_cells: Seq<Seq<char>>,
    report: ReportView,
    use_colors: bool,
) -> Seq<Seq<char>> {
    seq![title, top_border(), column_names(), inner_border()] + rows_text(
        file_cells,
        report.matches,
        use_colors,
        report.matches.len() as int,
    ) + seq![bottom_border()]
}

/// Appends `count` spaces to `out`.
fn push_spaces(out: &mut String, count: usize)
    ensures
        final(out)@ == old(out)@ + spaces(count as nat),
{
    let mut k: usize = 0;
    while k < count
        invariant
            k <= count,
            out@ == old(out)@ + spaces(k as nat),
        decreases count - k,
    {
        out.push(' ');
        k += 1;
        proof {
            assert(out@ =~= old(out)@ + spaces(k as nat));
        }
    }
}

/// How many spaces fill a cell of `len` characters up to `width`.
fn fill(len: usize, width: usize) -> (count: usize)
    ensures
        count == if len >= width { 0 } else { width - len },
{
    if len >= width {
        0
    } else {
        width - len
    }
}

/// Renders the row of one match.
pub fn table_row(file_cell: &str, entry: &MatchEntry, use_colors: bool) -> (row: String)
    ensures
        row@ == row_text(file_cell@, entry@, use_colors),
{
    let mut number = String::new();
    push_decimal(&mut number, entry.line);
    let mut row = "│ ".to_owned();
    row.append(file_cell);
    push_spaces(&mut row, fill(chars_of(file_cell).len(), FILE_WIDTH));
    row.append(" │ ");
    push_spaces(&mut row, fill(chars_of(number.as_str()).len(), LINE_WIDTH));
    row.append(number.as_str());
    row.append(" │ ");
    if use_colors {
        row.append("\x1b[33;1m");
        row.append(entry.matched_text.as_str());
        row.append("\x1b[0m");
    } else {
        row.append(entry.matched_text.as_str());
    }
    row.append(" │");
    proof {
        assert(number@ == decimal(entry@.line));
        assert(row@ =~= row_text(file_cell@, entry@, use_colors));
    }
    row
}

/// Renders the table of `report` under `title`. `file_cells` holds, for each
/// match in the order of the report, the text to show in its file column: the
/// path of the match, styled or plain.
pub fn table_lines(title: &str, file_cells: &Vec<String>, report: &Report, use_colors: bool) -> (lines:
    Vec<String>)
    requires
        file_cells@.len() == report.matches@.len(),
    ensures
        texts(lines@) == table_text(title@, texts(file_cells@), report@, use_colors),
{
    let mut lines: Vec<String> = Vec::new();
    lines.push(title.to_owned());
    lines.push(
        "┌──────────────────────────────────────────────┬────────┬────────────────────────────────────────────┐".to_owned(),
    );
    lines.push(
        "│ FILE                                         │ LINE   │ MATCH                                      │".to_owned(),
    );
    lines.push(
        "├──────────────────────────────────────────────┼────────┼────────────────────────────────────────────┤".to_owned(),
    );
    let ghost head = seq![title@, top_border(), column_names(), inner_border()];
    let ghost cells = texts(file_cells@);
    let ghost matches = entry_views(report.matches@);
    let mut i: usize = 0;
    proof {
        assert(texts(lines@) =~= head + rows_text(cells, matches, use_colors, 0));
    }
    while i < report.matches.len()
        invariant
            i <= report.matches.len(),
            file_cells@.len() == report.matches@.len(),
            cells == texts(file_cells@),
            matches == entry_views(report.matches@),
            texts(lines@) == head + rows_text(cells, matches, use_colors, i as int),
        decreases report.matches.len() - i,
    {
        let ghost had = texts(lines@);
        let row = table_row(file_cells[i].as_str(), &report.matches[i], use_colors);
        proof {
            assert(row@ == row_text(cells[i as int], matches[i as int], use_colors));
            assert(rows_text(cells, matches, use_colors, i + 1) =~= rows_text(
                cells,
                matches,
                use_colors,
                i as int,
            ).push(row@));
        }
        lines.push(row);
        i += 1;
        proof {
            assert(texts(lines@) =~= had.push(row@));
        }
    }
    lines.push(
        "└──────────────────────────────────────────────┴────────┴────────────────────────────────────────────┘".to_owned(),
    );
    proof {
        assert(texts(lines@) =~= table_text(title@, cells, report@, use_colors));
    }
    lines
}

} // verus!
