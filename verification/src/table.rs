//! Column-aligned text tables.

use vstd::prelude::*;

use crate::text::{push_chars, push_spaces, to_chars, trimmed_end};

verus! {

#[derive(Clone, Copy, Debug, PartialEq, Eq, Structural)]
pub enum Align {
    Left,
    Right,
}

/// The texts of a list of string slices.
pub open spec fn strs(v: Seq<&str>) -> Seq<Seq<char>> {
    v.map_values(|s: &str| s@)
}

/// The texts of a list of rows.
pub open spec fn cells(rows: Seq<Vec<String>>) -> Seq<Seq<Seq<char>>> {
    rows.map_values(|r: Vec<String>| crate::text::texts(r@))
}

/// The widest text in column `i`, in the headers and the first `n` rows.
pub open spec fn col_width(
    headers: Seq<Seq<char>>,
    rows: Seq<Seq<Seq<char>>>,
    n: int,
    i: int,
) -> int
    decreases n,
{
    if n <= 0 {
        headers[i].len() as int
    } else {
        let above = col_width(headers, rows, n - 1, i);
        if i < rows[n - 1].len() && rows[n - 1][i].len() > above {
            rows[n - 1][i].len() as int
        } else {
            above
        }
    }
}

pub open spec fn align_at(aligns: Seq<Align>, i: int) -> Align {
    if i < aligns.len() {
        aligns[i]
    } else {
        Align::Left
    }
}

/// One cell: padded on the left where the column is right-aligned, else on the
/// right unless it is the last of its row, with two spaces before the next
/// column.
pub open spec fn cell_text(
    row: Seq<Seq<char>>,
    widths: Seq<int>,
    aligns: Seq<Align>,
    i: int,
) -> Seq<char> {
    let cols = widths.len();
    let pad = crate::text::spaces(widths[i] - row[i].len());
    let last = i + 1 >= cols || i + 1 >= row.len();
    (if align_at(aligns, i) == Align::Right {
        pad + row[i]
    } else if last {
        row[i]
    } else {
        row[i] + pad
    }) + (if i + 1 < cols {
        "  "@
    } else {
        Seq::empty()
    })
}

/// The first `n` cells of a row.
pub open spec fn cells_text(
    row: Seq<Seq<char>>,
    widths: Seq<int>,
    aligns: Seq<Align>,
    n: int,
) -> Seq<char>
    decreases n,
{
    if n <= 0 {
        Seq::empty()
    } else {
        cells_text(row, widths, aligns, n - 1) + cell_text(row, widths, aligns, n - 1)
    }
}

/// A row as a line, without trailing white space.
pub open spec fn row_text(row: Seq<Seq<char>>, widths: Seq<int>, aligns: Seq<Align>) -> Seq<char> {
    let n = if row.len() < widths.len() {
        row.len()
    } else {
        widths.len()
    };
    crate::text::trim_end(cells_text(row, widths, aligns, n as int)).push('\n')
}

pub open spec fn rows_text(
    rows: Seq<Seq<Seq<char>>>,
    widths: Seq<int>,
    aligns: Seq<Align>,
    n: int,
) -> Seq<char>
    decreases n,
{
    if n <= 0 {
        Seq::empty()
    } else {
        rows_text(rows, widths, aligns, n - 1) + row_text(rows[n - 1], widths, aligns)
    }
}

/// Every column as wide as its widest cell.
pub open spec fn col_widths(headers: Seq<Seq<char>>, rows: Seq<Seq<Seq<char>>>) -> Seq<int> {
    Seq::new(headers.len(), |i: int| col_width(headers, rows, rows.len() as int, i))
}

/// The header line, then one line per row.
pub open spec fn table_text(
    headers: Seq<Seq<char>>,
    aligns: Seq<Align>,
    rows: Seq<Seq<Seq<char>>>,
) -> Seq<char> {
    let widths = col_widths(headers, rows);
    row_text(headers, widths, aligns) + rows_text(rows, widths, aligns, rows.len() as int)
}

/// No cell is wider than its column, so the columns line up.
pub proof fn law_columns_hold_their_cells(
    headers: Seq<Seq<char>>,
    rows: Seq<Seq<Seq<char>>>,
    n: int,
    i: int,
)
    requires
        0 <= i < headers.len(),
        0 <= n <= rows.len(),
    ensures
        headers[i].len() <= col_width(headers, rows, n, i),
        forall|k: int|
            0 <= k < n && i < rows[k].len() ==> (#[trigger] rows[k])[i].len() <= col_width(
                headers,
                rows,
                n,
                i,
            ),
    decreases n,
{
    if n > 0 {
        law_columns_hold_their_cells(headers, rows, n - 1, i);
    }
}

fn measure(headers: &[&str], rows: &[Vec<String>]) -> (r: Vec<usize>)
    ensures
        crate::order::indices(r@) == col_widths(strs(headers@), cells(rows@)),
{
    let ghost hs = strs(headers@);
    let ghost rs = cells(rows@);
    let mut out: Vec<usize> = Vec::new();
    let mut i: usize = 0;
    while i < headers.len()
        invariant
            i <= headers@.len(),
            hs == strs(headers@),
            rs == cells(rows@),
            out@.len() == i,
            forall|k: int|
                0 <= k < i ==> #[trigger] out@[k] as int == col_width(hs, rs, rs.len() as int, k),
        decreases headers@.len() - i,
    {
        let mut width: usize = to_chars(headers[i]).len();
        let mut j: usize = 0;
        assert(hs[i as int] == headers@[i as int]@);
        while j < rows.len()
            invariant
                i < headers@.len(),
                j <= rows@.len(),
                hs == strs(headers@),
                rs == cells(rows@),
                width == col_width(hs, rs, j as int, i as int),
            decreases rows@.len() - j,
        {
            let row = &rows[j];
            assert(rs[j as int] == crate::text::texts(row@));
            assert(rs[j as int].len() == row@.len());
            if i < row.len() {
                assert(rs[j as int][i as int] == row@[i as int]@);
                let n: usize = to_chars(row[i].as_str()).len();
                if n > width {
                    width = n;
                }
            }
            j = j + 1;
        }
        out.push(width);
        i = i + 1;
    }
    assert(crate::order::indices(out@) =~= col_widths(hs, rs));
    out
}

fn push_cell(
    out: &mut String,
    cell: &str,
    width: usize,
    right: bool,
    last: bool,
    gap: bool,
)
    ensures
        ({
            let pad = crate::text::spaces(width - cell@.len());
            final(out)@ == old(out)@ + ((if right {
                pad + cell@
            } else if last {
                cell@
            } else {
                cell@ + pad
            }) + (if gap {
                "  "@
            } else {
                Seq::empty()
            }))
        }),
{
    let n: usize = to_chars(cell).len();
    let pad: usize = if width > n {
        width - n
    } else {
        0
    };
    assert(crate::text::spaces(width - cell@.len()) =~= crate::text::spaces(pad as int));
    if right {
        push_spaces(out, pad);
        out.append(cell);
    } else {
        out.append(cell);
        if !last {
            push_spaces(out, pad);
        }
    }
    if gap {
        out.append("  ");
    }
    let ghost body = (if right {
        crate::text::spaces(pad as int) + cell@
    } else if last {
        cell@
    } else {
        cell@ + crate::text::spaces(pad as int)
    });
    assert(out@ =~= old(out)@ + (body + (if gap {
        "  "@
    } else {
        Seq::empty()
    })));
}

fn push_row(out: &mut String, row: &Vec<String>, widths: &Vec<usize>, aligns: &[Align])
    ensures
        final(out)@ == old(out)@ + row_text(
            crate::text::texts(row@),
            crate::order::indices(widths@),
            aligns@,
        ),
{
    let ghost cs = crate::text::texts(row@);
    let ghost ws = crate::order::indices(widths@);
    let cols: usize = widths.len();
    let n: usize = if row.len() < cols {
        row.len()
    } else {
        cols
    };
    let mut line = String::new();
    let mut i: usize = 0;
    while i < n
        invariant
            i <= n <= row@.len(),
            n <= cols == widths@.len(),
            n == row@.len() || n == cols,
            cs == crate::text::texts(row@),
            ws == crate::order::indices(widths@),
            line@ == cells_text(cs, ws, aligns@, i as int),
        decreases n - i,
    {
        let right = i < aligns.len() && matches!(aligns[i], Align::Right);
        let last = i + 1 >= n;
        let gap = i + 1 < cols;
        assert(cs[i as int] == row@[i as int]@);
        assert(ws[i as int] == widths@[i as int] as int);
        push_cell(&mut line, row[i].as_str(), widths[i], right, last, gap);
        assert(cells_text(cs, ws, aligns@, i + 1) == cells_text(cs, ws, aligns@, i as int)
            + cell_text(cs, ws, aligns@, i as int));
        i = i + 1;
    }
    let v = to_chars(line.as_str());
    push_chars(out, trimmed_end(v.as_slice()));
    out.push('\n');
    assert(out@ =~= old(out)@ + row_text(cs, ws, aligns@));
}

/// Minimal column-aligned table. Widths come from the content, so output stays
/// readable whether there are three rows or five hundred.
pub fn table(headers: &[&str], aligns: &[Align], rows: &[Vec<String>]) -> (r: String)
    ensures
        r@ == table_text(strs(headers@), aligns@, cells(rows@)),
{
    let widths = measure(headers, rows);
    let ghost hs = strs(headers@);
    let ghost rs = cells(rows@);
    let ghost ws = col_widths(hs, rs);
    let mut header_cells: Vec<String> = Vec::new();
    let mut i: usize = 0;
    while i < headers.len()
        invariant
            i <= headers@.len(),
            crate::text::texts(header_cells@) == strs(headers@).take(i as int),
        decreases headers@.len() - i,
    {
        let ghost before = header_cells@;
        let cell: String = headers[i].to_owned();
        header_cells.push(cell);
        proof {
            assert(strs(headers@)[i as int] == cell@);
            assert(crate::text::texts(header_cells@) =~= crate::text::texts(before).push(cell@));
            assert(strs(headers@).take(i + 1) =~= strs(headers@).take(i as int).push(cell@));
        }
        i = i + 1;
    }
    assert(strs(headers@).take(i as int) =~= hs);
    let mut out = String::new();
    push_row(&mut out, &header_cells, &widths, aligns);
    assert(out@ =~= row_text(hs, ws, aligns@));
    let mut j: usize = 0;
    assert(out@ =~= row_text(hs, ws, aligns@) + rows_text(rs, ws, aligns@, 0));
    while j < rows.len()
        invariant
            j <= rows@.len(),
            rs == cells(rows@),
            ws == crate::order::indices(widths@),
            out@ == row_text(hs, ws, aligns@) + rows_text(rs, ws, aligns@, j as int),
        decreases rows@.len() - j,
    {
        push_row(&mut out, &rows[j], &widths, aligns);
        assert(rs[j as int] == crate::text::texts(rows@[j as int]@));
        assert(out@ =~= row_text(hs, ws, aligns@) + rows_text(rs, ws, aligns@, j + 1));
        j = j + 1;
    }
    out
}

/// A column is as wide as its widest cell, the header's with the rest: some cell fills it.
pub proof fn law_a_column_is_as_wide_as_its_widest_cell(
    headers: Seq<Seq<char>>,
    rows: Seq<Seq<Seq<char>>>,
    i: int,
)
    requires
        0 <= i < headers.len(),
    ensures
        col_widths(headers, rows).len() == headers.len(),
        col_widths(headers, rows)[i] >= headers[i].len(),
        forall|k: int|
            0 <= k < rows.len() && i < (#[trigger] rows[k]).len() ==> rows[k][i].len()
                <= col_widths(headers, rows)[i],
        col_widths(headers, rows)[i] == headers[i].len() || exists|k: int|
            0 <= k < rows.len() && i < (#[trigger] rows[k]).len() && col_widths(headers, rows)[i]
                == rows[k][i].len(),
{
    law_columns_hold_their_cells(headers, rows, rows.len() as int, i);
    lemma_width_is_some(headers, rows, rows.len() as int, i);
}

proof fn lemma_width_is_some(
    headers: Seq<Seq<char>>,
    rows: Seq<Seq<Seq<char>>>,
    n: int,
    i: int,
)
    requires
        0 <= i < headers.len(),
        0 <= n <= rows.len(),
    ensures
        col_width(headers, rows, n, i) == headers[i].len() || exists|k: int|
            0 <= k < n && i < (#[trigger] rows[k]).len() && col_width(headers, rows, n, i)
                == rows[k][i].len(),
    decreases n,
{
    if n > 0 {
        lemma_width_is_some(headers, rows, n - 1, i);
        let w = col_width(headers, rows, n, i);
        if w == col_width(headers, rows, n - 1, i) {
            if w != headers[i].len() {
                let k = choose|k: int|
                    0 <= k < n - 1 && i < (#[trigger] rows[k]).len() && w == rows[k][i].len();
                assert(i < rows[k].len());
            }
        } else {
            assert(i < rows[n - 1].len() && w == rows[n - 1][i].len());
        }
    }
}

/// A cell is filled up with spaces to the width of its column, in front where the column
/// stands to the right and behind where it stands to the left, with two spaces to the next;
/// the last on a line is not filled up behind.
pub proof fn law_a_cell_is_filled_up(
    row: Seq<Seq<char>>,
    widths: Seq<int>,
    aligns: Seq<Align>,
    i: int,
)
    requires
        0 <= i < row.len(),
        i < widths.len(),
        row[i].len() <= widths[i],
    ensures
        ({
            let cell = cell_text(row, widths, aligns, i);
            let right = i < aligns.len() && aligns[i] == Align::Right;
            let gap = if i + 1 < widths.len() {
                2int
            } else {
                0
            };
            let last = i + 1 >= widths.len() || i + 1 >= row.len();
            &&& right ==> cell.len() == widths[i] + gap && cell.subrange(
                widths[i] - row[i].len(),
                widths[i],
            ) == row[i]
            &&& !right && !last ==> cell.len() == widths[i] + gap && cell.take(
                row[i].len() as int,
            ) == row[i]
            &&& !right && last ==> cell.len() == row[i].len() + gap && cell.take(
                row[i].len() as int,
            ) == row[i]
            &&& forall|k: int|
                0 <= k < cell.len() && (if right {
                    k < widths[i] - row[i].len() || k >= widths[i]
                } else {
                    k >= row[i].len()
                }) ==> #[trigger] cell[k] == ' '
        }),
{
    reveal_strlit("  ");
    let cell = cell_text(row, widths, aligns, i);
    let right = i < aligns.len() && aligns[i] == Align::Right;
    if right {
        assert(cell.subrange(widths[i] - row[i].len(), widths[i]) =~= row[i]);
    } else {
        assert(cell.take(row[i].len() as int) =~= row[i]);
    }
}

/// A line holds its cells one behind the other, without spaces at its end; and a table is
/// the line of its headers and then that of each row, in order.
pub proof fn law_a_table_is_line_by_line(
    headers: Seq<Seq<char>>,
    aligns: Seq<Align>,
    rows: Seq<Seq<Seq<char>>>,
    row: Seq<Seq<char>>,
)
    requires
        col_widths(headers, rows.push(row)) == col_widths(headers, rows),
    ensures
        table_text(headers, aligns, rows.push(row)) == table_text(headers, aligns, rows) + row_text(
            row,
            col_widths(headers, rows),
            aligns,
        ),
        table_text(headers, aligns, Seq::<Seq<Seq<char>>>::empty()) == row_text(
            headers,
            col_widths(headers, Seq::<Seq<Seq<char>>>::empty()),
            aligns,
        ),
{
    let more = rows.push(row);
    let w = col_widths(headers, rows);
    lemma_rows_front(rows, row, w, aligns, rows.len() as int);
    assert(table_text(headers, aligns, more) =~= table_text(headers, aligns, rows) + row_text(
        row,
        w,
        aligns,
    ));
    assert(table_text(headers, aligns, Seq::<Seq<Seq<char>>>::empty()) =~= row_text(
        headers,
        col_widths(headers, Seq::<Seq<Seq<char>>>::empty()),
        aligns,
    ));
}

proof fn lemma_rows_front(
    rows: Seq<Seq<Seq<char>>>,
    row: Seq<Seq<char>>,
    widths: Seq<int>,
    aligns: Seq<Align>,
    n: int,
)
    requires
        0 <= n <= rows.len(),
    ensures
        rows_text(rows.push(row), widths, aligns, n) == rows_text(rows, widths, aligns, n),
    decreases n,
{
    if n > 0 {
        lemma_rows_front(rows, row, widths, aligns, n - 1);
        assert(rows.push(row)[n - 1] == rows[n - 1]);
    }
}

} // verus!
