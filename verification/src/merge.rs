//! Merge-range detection and handling.
//!
//! Merged ranges are inferred from content alone: within a row, a run of
//! empty cells immediately after a non-empty cell is a horizontal range
//! anchored at that cell; down a column the same pattern gives a vertical
//! range.  `Preserve` marks every cell of a range `Merged`, with the span
//! recorded only on the anchor; vertical marking runs second and so wins on
//! cells claimed by both.  `Expand` then copies each merged cell's content
//! from its range's anchor and turns the cell back into a data cell.

use vstd::prelude::*;
use vstd::string::*;
use vstd::pervasive::VecAdditionalExecFns;
use crate::chars::is_blank;
use crate::table_model::{
    TableData, TableRow, TableCell, CellType, TableExtractor, MergeCellsHandling, cell_is_empty,
    grid_max_cols,
};

verus! {

/// The ranges a pending run yields when it is closed: one range when it
/// spans more than its anchor, none otherwise.
pub open spec fn flush_run(cur: Option<(int, int)>) -> Seq<(int, int)> {
    match cur {
        Some((s, e)) => if e > s {
            seq![(s, e)]
        } else {
            Seq::empty()
        },
        None => Seq::empty(),
    }
}

/// The horizontal ranges of one row, scanning from position `j` with the
/// pending run `cur`: a run starts at an empty cell right after a non-empty
/// one and grows while cells stay empty.
pub open spec fn h_scan(cells: Seq<TableCell>, j: int, cur: Option<(int, int)>) -> Seq<(int, int)>
    decreases cells.len() - j,
{
    if j < 0 || j >= cells.len() {
        flush_run(cur)
    } else if cell_is_empty(cells[j]) {
        match cur {
            Some((s, e)) => h_scan(cells, j + 1, Some((s, j))),
            None => if j > 0 && !cell_is_empty(cells[j - 1]) {
                h_scan(cells, j + 1, Some((j - 1, j)))
            } else {
                h_scan(cells, j + 1, None)
            },
        }
    } else {
        flush_run(cur) + h_scan(cells, j + 1, None)
    }
}

/// The vertical ranges of one column, scanning from row `r`: rows without a
/// cell in the column are passed over; a run starts at an empty cell whose
/// immediate predecessor row has a non-empty cell there.
pub open spec fn v_scan(rows: Seq<TableRow>, col: int, r: int, cur: Option<(int, int)>) -> Seq<
    (int, int),
>
    decreases rows.len() - r,
{
    if r < 0 || r >= rows.len() {
        flush_run(cur)
    } else if col >= rows[r].cells@.len() {
        v_scan(rows, col, r + 1, cur)
    } else if cell_is_empty(rows[r].cells@[col]) {
        match cur {
            Some((s, e)) => v_scan(rows, col, r + 1, Some((s, r))),
            None => if r > 0 && col < rows[r - 1].cells@.len() && !cell_is_empty(
                rows[r - 1].cells@[col],
            ) {
                v_scan(rows, col, r + 1, Some((r - 1, r)))
            } else {
                v_scan(rows, col, r + 1, None)
            },
        }
    } else {
        flush_run(cur) + v_scan(rows, col, r + 1, None)
    }
}

/// The first range covering `x`, if any.
pub open spec fn cover(ranges: Seq<(int, int)>, x: int) -> Option<(int, int)>
    decreases ranges.len(),
{
    if ranges.len() == 0 {
        None
    } else if ranges[0].0 <= x <= ranges[0].1 {
        Some(ranges[0])
    } else {
        cover(ranges.drop_first(), x)
    }
}

/// A cell with its kind and spans replaced as `set_merged` does.
pub open spec fn as_merged(c: TableCell, colspan: Option<usize>, rowspan: Option<usize>)
    -> TableCell {
    TableCell { cell_type: CellType::Merged, colspan, rowspan, ..c }
}

/// What marking leaves at position `(r, c)`: a vertical range wins over a
/// horizontal one because it is applied second; a cell in no range is left
/// alone.
pub open spec fn marked_state(t: TableData, r: int, c: int) -> TableCell {
    let cell = t.rows@[r].cells@[c];
    let vc = cover(v_scan(t.rows@, c, 0, None), r);
    let hc = cover(h_scan(t.rows@[r].cells@, 0, None), c);
    match vc {
        Some((s, e)) => as_merged(
            cell,
            None,
            if r == s {
                Some((e - s + 1) as usize)
            } else {
                None
            },
        ),
        None => match hc {
            Some((s, e)) => as_merged(
                cell,
                if c == s {
                    Some((e - s + 1) as usize)
                } else {
                    None
                },
                None,
            ),
            None => cell,
        },
    }
}

/// Rows agree on everything merge marking may not touch: cell count, flags,
/// position, and every cell's content and formatting.
/// Cells agree on everything merge marking may not touch.
pub open spec fn cell_same(x: TableCell, y: TableCell) -> bool {
    x.content == y.content && x.formatted_content == y.formatted_content && x.alignment
        == y.alignment && x.formatting == y.formatting
}

pub open spec fn same_shape(a: TableRow, b: TableRow) -> bool {
    a.cells@.len() == b.cells@.len() && a.is_header == b.is_header && a.row_index == b.row_index
        && forall|j: int| 0 <= j < a.cells@.len() ==> cell_same(#[trigger] a.cells@[j], b.cells@[j])
}

/// Tables agree row by row on everything merge marking may not touch.
pub open spec fn same_grid(a: TableData, b: TableData) -> bool {
    a.rows@.len() == b.rows@.len() && forall|q: int|
        0 <= q < a.rows@.len() ==> same_shape(#[trigger] a.rows@[q], b.rows@[q])
}

/// Row sequences agree on their texts: same shape cell for cell, with the
/// header flags and positions left free.
pub open spec fn rows_texts(a: Seq<TableRow>, b: Seq<TableRow>) -> bool {
    a.len() == b.len() && forall|q: int|
        0 <= q < a.len() ==> (#[trigger] a[q]).cells@.len() == b[q].cells@.len() && (forall|j: int|
            0 <= j < a[q].cells@.len() ==> cell_same(#[trigger] a[q].cells@[j], b[q].cells@[j]))
}

/// Same-shaped tables have the same texts.
pub proof fn lemma_grid_texts(a: TableData, b: TableData)
    requires
        same_grid(a, b),
    ensures
        rows_texts(a.rows@, b.rows@),
{
    assert forall|q: int|
        0 <= q < a.rows@.len() implies (#[trigger] a.rows@[q]).cells@.len()
        == b.rows@[q].cells@.len() && (forall|j: int|
        0 <= j < a.rows@[q].cells@.len() ==> cell_same(
            #[trigger] a.rows@[q].cells@[j],
            b.rows@[q].cells@[j],
        )) by {
        assert(same_shape(a.rows@[q], b.rows@[q]));
    }
}

/// Horizontal scanning reads only cell contents, so rows of the same shape
/// scan alike.
pub proof fn lemma_h_scan_shape(a: Seq<TableCell>, b: Seq<TableCell>, j: int, cur: Option<(int, int)>)
    requires
        a.len() == b.len(),
        forall|q: int| 0 <= q < a.len() ==> (#[trigger] a[q]).content == b[q].content,
    ensures
        h_scan(a, j, cur) == h_scan(b, j, cur),
    decreases a.len() - j,
{
    if 0 <= j < a.len() {
        assert(cell_is_empty(a[j]) == cell_is_empty(b[j]));
        if j > 0 {
            assert(cell_is_empty(a[j - 1]) == cell_is_empty(b[j - 1]));
        }
        if cell_is_empty(a[j]) {
            match cur {
                Some((s, e)) => lemma_h_scan_shape(a, b, j + 1, Some((s, j))),
                None => if j > 0 && !cell_is_empty(a[j - 1]) {
                    lemma_h_scan_shape(a, b, j + 1, Some((j - 1, j)))
                } else {
                    lemma_h_scan_shape(a, b, j + 1, None)
                },
            }
        } else {
            lemma_h_scan_shape(a, b, j + 1, None);
        }
    }
}

/// Vertical scanning reads only cell contents, so grids of the same texts
/// scan alike.
pub proof fn lemma_v_scan_shape(
    a: Seq<TableRow>,
    b: Seq<TableRow>,
    col: int,
    r: int,
    cur: Option<(int, int)>,
)
    requires
        0 <= col,
        rows_texts(a, b),
    ensures
        v_scan(a, col, r, cur) == v_scan(b, col, r, cur),
    decreases a.len() - r,
{
    if 0 <= r < a.len() {
        let ar = a[r];
        let br = b[r];
        assert(ar.cells@.len() == br.cells@.len());
        if col < a[r].cells@.len() {
            assert(cell_same(ar.cells@[col], br.cells@[col]));
            assert(cell_is_empty(a[r].cells@[col]) == cell_is_empty(b[r].cells@[col]));
            if r > 0 && col < a[r - 1].cells@.len() {
                let ap = a[r - 1];
                let bp = b[r - 1];
                assert(cell_same(ap.cells@[col], bp.cells@[col]));
                assert(cell_is_empty(a[r - 1].cells@[col]) == cell_is_empty(b[r - 1].cells@[col]));
            }
            if cell_is_empty(a[r].cells@[col]) {
                match cur {
                    Some((s, e)) => lemma_v_scan_shape(a, b, col, r + 1, Some((s, r))),
                    None => if r > 0 && col < a[r - 1].cells@.len() && !cell_is_empty(
                        a[r - 1].cells@[col],
                    ) {
                        lemma_v_scan_shape(a, b, col, r + 1, Some((r - 1, r)))
                    } else {
                        lemma_v_scan_shape(a, b, col, r + 1, None)
                    },
                }
            } else {
                lemma_v_scan_shape(a, b, col, r + 1, None);
            }
        } else {
            lemma_v_scan_shape(a, b, col, r + 1, cur);
        }
    }
}

/// A covering range is one of the scan's ranges.
proof fn lemma_cover_member(ranges: Seq<(int, int)>, x: int)
    ensures
        match cover(ranges, x) {
            Some(rg) => exists|q: int| 0 <= q < ranges.len() && ranges[q] == rg,
            None => true,
        },
    decreases ranges.len(),
{
    if ranges.len() > 0 && !(ranges[0].0 <= x <= ranges[0].1) {
        lemma_cover_member(ranges.drop_first(), x);
        match cover(ranges, x) {
            Some(rg) => {
                let q = choose|q: int|
                    0 <= q < ranges.drop_first().len() && ranges.drop_first()[q] == rg;
                assert(ranges[q + 1] == rg);
            },
            None => {},
        }
    }
}

/// The horizontal ranges of the cells, in scan order.
fn h_ranges_exec(cells: &Vec<TableCell>) -> (out: Vec<(usize, usize)>)
    ensures
        out@.map_values(|p: (usize, usize)| (p.0 as int, p.1 as int)) == h_scan(cells@, 0, None),
        forall|q: int|
            0 <= q < out@.len() ==> (#[trigger] out@[q]).0 < out@[q].1 < cells@.len(),
{
    let n = cells.len();
    let mut out: Vec<(usize, usize)> = Vec::new();
    let mut j: usize = 0;
    let mut cur: Option<(usize, usize)> = None;
    proof {
        assert(out@.map_values(|p: (usize, usize)| (p.0 as int, p.1 as int)) + h_scan(
            cells@,
            0,
            None,
        ) =~= h_scan(cells@, 0, None));
    }
    while j < n
        invariant
            n == cells@.len(),
            j <= n,
            match cur {
                Some((s, e)) => 0 <= s < e < n && e < j,
                None => true,
            },
            out@.map_values(|p: (usize, usize)| (p.0 as int, p.1 as int)) + h_scan(
                cells@,
                j as int,
                match cur {
                    Some((s, e)) => Some((s as int, e as int)),
                    None => None,
                },
            ) == h_scan(cells@, 0, None),
            forall|q: int|
                0 <= q < out@.len() ==> (#[trigger] out@[q]).0 < out@[q].1 < n,
        decreases n - j,
    {
        let ghost out0 = out@;
        if cells[j].is_empty() {
            match cur {
                Some((s, _)) => {
                    cur = Some((s, j));
                },
                None => {
                    if j > 0 && !cells[j - 1].is_empty() {
                        cur = Some((j - 1, j));
                    }
                },
            }
        } else {
            match cur {
                Some((s, e)) => {
                    if e > s {
                        out.push((s, e));
                        proof {
                            assert(out@.map_values(|p: (usize, usize)| (p.0 as int, p.1 as int))
                                =~= out0.map_values(
                                |p: (usize, usize)| (p.0 as int, p.1 as int),
                            ).push((s as int, e as int)));
                            assert(out0.map_values(|p: (usize, usize)| (p.0 as int, p.1 as int))
                                + (seq![(s as int, e as int)] + h_scan(cells@, j + 1, None))
                                =~= out@.map_values(|p: (usize, usize)| (p.0 as int, p.1 as int))
                                + h_scan(cells@, j + 1, None));
                        }
                    }
                    cur = None;
                },
                None => {},
            }
        }
        j = j + 1;
    }
    let ghost out1 = out@;
    match cur {
        Some((s, e)) => {
            out.push((s, e));
            proof {
                assert(h_scan(cells@, n as int, Some((s as int, e as int))) =~= seq![
                    (s as int, e as int),
                ]);
                assert(out@.map_values(|p: (usize, usize)| (p.0 as int, p.1 as int)) =~= out1
                    .map_values(|p: (usize, usize)| (p.0 as int, p.1 as int)).push(
                    (s as int, e as int),
                ));
                assert(out@.map_values(|p: (usize, usize)| (p.0 as int, p.1 as int)) =~= out1
                    .map_values(|p: (usize, usize)| (p.0 as int, p.1 as int)) + seq![
                    (s as int, e as int),
                ]);
            }
        },
        None => {
            proof {
                assert(out@.map_values(|p: (usize, usize)| (p.0 as int, p.1 as int)) + h_scan(
                    cells@,
                    n as int,
                    None,
                ) =~= out@.map_values(|p: (usize, usize)| (p.0 as int, p.1 as int)));
            }
        },
    }
    out
}

/// The vertical ranges of column `col`, in scan order.
fn v_ranges_exec(rows: &Vec<TableRow>, col: usize) -> (out: Vec<(usize, usize)>)
    ensures
        out@.map_values(|p: (usize, usize)| (p.0 as int, p.1 as int)) == v_scan(
            rows@,
            col as int,
            0,
            None,
        ),
        forall|q: int| 0 <= q < out@.len() ==> (#[trigger] out@[q]).0 < out@[q].1 < rows@.len(),
{
    let n = rows.len();
    let mut out: Vec<(usize, usize)> = Vec::new();
    let mut r: usize = 0;
    let mut cur: Option<(usize, usize)> = None;
    proof {
        assert(out@.map_values(|p: (usize, usize)| (p.0 as int, p.1 as int)) + v_scan(
            rows@,
            col as int,
            0,
            None,
        ) =~= v_scan(rows@, col as int, 0, None));
    }
    while r < n
        invariant
            n == rows@.len(),
            r <= n,
            match cur {
                Some((s, e)) => 0 <= s < e < n && e < r,
                None => true,
            },
            out@.map_values(|p: (usize, usize)| (p.0 as int, p.1 as int)) + v_scan(
                rows@,
                col as int,
                r as int,
                match cur {
                    Some((s, e)) => Some((s as int, e as int)),
                    None => None,
                },
            ) == v_scan(rows@, col as int, 0, None),
            forall|q: int| 0 <= q < out@.len() ==> (#[trigger] out@[q]).0 < out@[q].1 < n,
        decreases n - r,
    {
        let ghost out0 = out@;
        let row = &rows[r];
        if col < row.cells.len() {
            if row.cells[col].is_empty() {
                match cur {
                    Some((s, _)) => {
                        cur = Some((s, r));
                    },
                    None => {
                        if r > 0 {
                            let prev = &rows[r - 1];
                            if col < prev.cells.len() && !prev.cells[col].is_empty() {
                                cur = Some((r - 1, r));
                            }
                        }
                    },
                }
            } else {
                match cur {
                    Some((s, e)) => {
                        if e > s {
                            out.push((s, e));
                            proof {
                                assert(out@.map_values(
                                    |p: (usize, usize)| (p.0 as int, p.1 as int),
                                ) =~= out0.map_values(
                                    |p: (usize, usize)| (p.0 as int, p.1 as int),
                                ).push((s as int, e as int)));
                                assert(out0.map_values(
                                    |p: (usize, usize)| (p.0 as int, p.1 as int),
                                ) + (seq![(s as int, e as int)] + v_scan(
                                    rows@,
                                    col as int,
                                    r + 1,
                                    None,
                                )) =~= out@.map_values(|p: (usize, usize)| (p.0 as int, p.1 as int))
                                    + v_scan(rows@, col as int, r + 1, None));
                            }
                        }
                        cur = None;
                    },
                    None => {},
                }
            }
        }
        r = r + 1;
    }
    let ghost out1 = out@;
    match cur {
        Some((s, e)) => {
            out.push((s, e));
            proof {
                assert(v_scan(rows@, col as int, n as int, Some((s as int, e as int))) =~= seq![
                    (s as int, e as int),
                ]);
                assert(out@.map_values(|p: (usize, usize)| (p.0 as int, p.1 as int)) =~= out1
                    .map_values(|p: (usize, usize)| (p.0 as int, p.1 as int)).push(
                    (s as int, e as int),
                ));
                assert(out@.map_values(|p: (usize, usize)| (p.0 as int, p.1 as int)) =~= out1
                    .map_values(|p: (usize, usize)| (p.0 as int, p.1 as int)) + seq![
                    (s as int, e as int),
                ]);
            }
        },
        None => {
            proof {
                assert(out@.map_values(|p: (usize, usize)| (p.0 as int, p.1 as int)) + v_scan(
                    rows@,
                    col as int,
                    n as int,
                    None,
                ) =~= out@.map_values(|p: (usize, usize)| (p.0 as int, p.1 as int)));
            }
        },
    }
    out
}

/// The first stored range covering `x`, mirroring `cover`.
fn cover_exec(ranges: &Vec<(usize, usize)>, x: usize) -> (r: Option<(usize, usize)>)
    ensures
        match r {
            Some(p) => cover(
                ranges@.map_values(|p2: (usize, usize)| (p2.0 as int, p2.1 as int)),
                x as int,
            ) == Some((p.0 as int, p.1 as int)),
            None => cover(
                ranges@.map_values(|p2: (usize, usize)| (p2.0 as int, p2.1 as int)),
                x as int,
            ) is None,
        },
{
    let n = ranges.len();
    let mut i: usize = 0;
    let ghost mapped = ranges@.map_values(|p2: (usize, usize)| (p2.0 as int, p2.1 as int));
    proof {
        assert(mapped.skip(0) =~= mapped);
    }
    while i < n
        invariant
            n == ranges@.len(),
            i <= n,
            mapped == ranges@.map_values(|p2: (usize, usize)| (p2.0 as int, p2.1 as int)),
            cover(mapped, x as int) == cover(mapped.skip(i as int), x as int),
        decreases n - i,
    {
        proof {
            assert(mapped.skip(i as int)[0] == mapped[i as int]);
        }
        let p = ranges[i];
        if p.0 <= x && x <= p.1 {
            return Some(p);
        }
        proof {
            assert(mapped.skip(i as int).drop_first() =~= mapped.skip(i + 1));
        }
        i = i + 1;
    }
    proof {
        assert(mapped.skip(n as int) =~= Seq::<(int, int)>::empty());
    }
    None
}

impl TableExtractor {
    /// Detects horizontal and vertical merge ranges from the empty-cell
    /// pattern and marks every covered cell `Merged`, recording the span on
    /// the anchor alone.  Contents, formatting and every table-level field
    /// stay untouched.
    pub fn mark_merged_cells(&self, table: &mut TableData)
        ensures
            final(table).rows@.len() == old(table).rows@.len(),
            forall|r: int|
                0 <= r < old(table).rows@.len() ==> (#[trigger] final(table).rows@[r]).cells@.len()
                    == old(table).rows@[r].cells@.len() && final(table).rows@[r].is_header == old(
                    table,
                ).rows@[r].is_header && final(table).rows@[r].row_index == old(
                    table,
                ).rows@[r].row_index,
            forall|r: int, c: int|
                0 <= r < old(table).rows@.len() && 0 <= c < old(table).rows@[r].cells@.len()
                    ==> final(table).rows@[r].cells@[c] == marked_state(*old(table), r, c),
            final(table).headers == old(table).headers,
            final(table).has_header == old(table).has_header,
            final(table).column_count == old(table).column_count,
            final(table).row_count == old(table).row_count,
            final(table).table_id == old(table).table_id,
            final(table).title == old(table).title,
    {
        let nrows = table.rows.len();
        let ghost orig = *table;
        let mut r: usize = 0;
        while r < nrows
            invariant
                nrows == table.rows@.len(),
                nrows == orig.rows@.len(),
                r <= nrows,
                same_grid(*table, orig),
                forall|q: int|
                    0 <= q < nrows ==> (#[trigger] table.rows@[q]).is_header
                        == orig.rows@[q].is_header && table.rows@[q].row_index
                        == orig.rows@[q].row_index,
                forall|q: int, c: int|
                    0 <= q < r && 0 <= c < orig.rows@[q].cells@.len() ==> (
                    #[trigger] table.rows@[q].cells@[c]) == marked_state(orig, q, c),
                forall|q: int| r <= q < nrows ==> (#[trigger] table.rows@[q]) == orig.rows@[q],
                table.headers == orig.headers,
                table.has_header == orig.has_header,
                table.column_count == orig.column_count,
                table.row_count == orig.row_count,
                table.table_id == orig.table_id,
                table.title == orig.title,
            decreases nrows - r,
        {
            let ncells = table.rows[r].cells.len();
            // Vertical covers for this row's cells, from the live grid; the
            // scans agree with the original because contents never change.
            let mut vcovs: Vec<Option<(usize, usize)>> = Vec::new();
            let mut c: usize = 0;
            while c < ncells
                invariant
                    nrows == table.rows@.len(),
                    nrows == orig.rows@.len(),
                    r < nrows,
                    ncells == table.rows@[r as int].cells@.len(),
                    same_grid(*table, orig),
                    c <= ncells,
                    vcovs@.len() == c,
                    forall|j: int|
                        0 <= j < c ==> match (#[trigger] vcovs@[j]) {
                            Some(p) => cover(v_scan(orig.rows@, j, 0, None), r as int) == Some(
                                (p.0 as int, p.1 as int),
                            ) && p.0 < p.1 < nrows,
                            None => cover(v_scan(orig.rows@, j, 0, None), r as int) is None,
                        },
                decreases ncells - c,
            {
                let vr = v_ranges_exec(&table.rows, c);
                proof {
                    lemma_grid_texts(*table, orig);
                    lemma_v_scan_shape(table.rows@, orig.rows@, c as int, 0, None);
                }
                let cv = cover_exec(&vr, r);
                proof {
                    match cv {
                        Some(p) => {
                            lemma_cover_member(v_scan(table.rows@, c as int, 0, None), r as int);
                        },
                        None => {},
                    }
                }
                vcovs.push(cv);
                c = c + 1;
            }
            // Pull the row out, rewrite its cells, and put it back.
            let mut row = TableRow::new(0);
            table.rows.set_and_swap(r, &mut row);
            let ghost row0 = row;
            let hr = h_ranges_exec(&row.cells);
            proof {
                lemma_h_scan_shape(row.cells@, orig.rows@[r as int].cells@, 0, None);
            }
            let mut c2: usize = 0;
            while c2 < ncells
                invariant
                    ncells == row.cells@.len(),
                    ncells == row0.cells@.len(),
                    row.is_header == row0.is_header,
                    row.row_index == row0.row_index,
                    nrows == orig.rows@.len(),
                    r < nrows,
                    row0 == orig.rows@[r as int],
                    row0.cells@.len() == orig.rows@[r as int].cells@.len(),
                    same_shape(row0, orig.rows@[r as int]),
                    c2 <= ncells,
                    hr@.map_values(|p: (usize, usize)| (p.0 as int, p.1 as int)) == h_scan(
                        orig.rows@[r as int].cells@,
                        0,
                        None,
                    ),
                    forall|q: int|
                        0 <= q < hr@.len() ==> (#[trigger] hr@[q]).0 < hr@[q].1 < ncells,
                    vcovs@.len() == ncells,
                    forall|j: int|
                        0 <= j < ncells ==> match (#[trigger] vcovs@[j]) {
                            Some(p) => cover(v_scan(orig.rows@, j, 0, None), r as int) == Some(
                                (p.0 as int, p.1 as int),
                            ) && p.0 < p.1 < nrows,
                            None => cover(v_scan(orig.rows@, j, 0, None), r as int) is None,
                        },
                    forall|j: int|
                        0 <= j < c2 ==> (#[trigger] row.cells@[j]) == marked_state(orig, r as int, j),
                    forall|j: int| c2 <= j < ncells ==> (#[trigger] row.cells@[j]) == row0.cells@[j],
                decreases ncells - c2,
            {
                let mut tmpc = TableCell::empty();
                row.cells.set_and_swap(c2, &mut tmpc);
                let newc: TableCell;
                match vcovs[c2] {
                    Some((s, e)) => {
                        let span: Option<usize> = if r == s {
                            Some(e - s + 1)
                        } else {
                            None
                        };
                        newc = TableCell {
                            cell_type: CellType::Merged,
                            colspan: None,
                            rowspan: span,
                            ..tmpc
                        };
                    },
                    None => {
                        let hcov = cover_exec(&hr, c2);
                        proof {
                            match hcov {
                                Some(p) => {
                                    lemma_cover_member(
                                        hr@.map_values(
                                            |p2: (usize, usize)| (p2.0 as int, p2.1 as int),
                                        ),
                                        c2 as int,
                                    );
                    let ghost hmapped = hr@.map_values(
                                        |p2: (usize, usize)| (p2.0 as int, p2.1 as int),
                                    );
                                    let q = choose|q: int|
                                        0 <= q < hmapped.len() && #[trigger] hmapped[q] == (
                                        p.0 as int, p.1 as int);
                                    assert(hr@[q].0 < hr@[q].1 < ncells);
                                },
                                None => {},
                            }
                        }
                        match hcov {
                            Some((s, e)) => {
                                let span: Option<usize> = if c2 == s {
                                    Some(e - s + 1)
                                } else {
                                    None
                                };
                                newc = TableCell {
                                    cell_type: CellType::Merged,
                                    colspan: span,
                                    rowspan: None,
                                    ..tmpc
                                };
                            },
                            None => {
                                newc = tmpc;
                            },
                        }
                    },
                }
                row.cells.set(c2, newc);
                proof {
                    assert(row.cells@[c2 as int] == marked_state(orig, r as int, c2 as int));
                }
                c2 = c2 + 1;
            }
            table.rows.set(r, row);
            proof {
                assert(same_shape(table.rows@[r as int], orig.rows@[r as int]));
                assert(same_grid(*table, orig));
            }
            r = r + 1;
        }
    }
}

/// The position expansion copies from: the covering vertical range's anchor
/// row, else the covering horizontal range's anchor column, else the cell
/// itself.
pub open spec fn anchor_of(t: TableData, r: int, c: int) -> (int, int) {
    match cover(v_scan(t.rows@, c, 0, None), r) {
        Some((s, e)) => (s, c),
        None => match cover(h_scan(t.rows@[r].cells@, 0, None), c) {
            Some((s, e)) => (r, s),
            None => (r, c),
        },
    }
}

/// The content a cell shows after expansion: its anchor's original content
/// where the anchor names a valid cell, its own content otherwise.
pub open spec fn expanded_content(t: TableData, r: int, c: int) -> Seq<char> {
    let (ar, ac) = anchor_of(t, r, c);
    if 0 <= ar < t.rows@.len() && 0 <= ac < t.rows@[ar].cells@.len() {
        t.rows@[ar].cells@[ac].content@
    } else {
        t.rows@[r].cells@[c].content@
    }
}

impl TableExtractor {
    /// Marks merged ranges, then rewrites every merged cell: its content
    /// becomes its anchor's original content and its kind returns to `Data`;
    /// spans and formatting stay as marking left them.
    pub fn expand_merged_cells(&self, table: &mut TableData)
        ensures
            final(table).rows@.len() == old(table).rows@.len(),
            forall|r: int|
                0 <= r < old(table).rows@.len() ==> (#[trigger] final(table).rows@[r]).cells@.len()
                    == old(table).rows@[r].cells@.len() && final(table).rows@[r].is_header == old(
                    table,
                ).rows@[r].is_header && final(table).rows@[r].row_index == old(
                    table,
                ).rows@[r].row_index,
            forall|r: int, c: int|
                0 <= r < old(table).rows@.len() && 0 <= c < old(table).rows@[r].cells@.len() ==> {
                    let m = marked_state(*old(table), r, c);
                    let fc = #[trigger] final(table).rows@[r].cells@[c];
                    if m.cell_type is Merged {
                        fc.cell_type is Data && fc.colspan == m.colspan && fc.rowspan == m.rowspan
                            && fc.alignment == m.alignment && fc.formatting == m.formatting
                            && fc.content@ == expanded_content(*old(table), r, c)
                            && fc.formatted_content@ == expanded_content(*old(table), r, c)
                    } else {
                        fc == m
                    }
                },
            final(table).headers == old(table).headers,
            final(table).has_header == old(table).has_header,
            final(table).column_count == old(table).column_count,
            final(table).row_count == old(table).row_count,
            final(table).table_id == old(table).table_id,
            final(table).title == old(table).title,
    {
        let ghost orig = *table;
        self.mark_merged_cells(table);
        let nrows = table.rows.len();
        proof {
            assert forall|q: int|
                0 <= q < orig.rows@.len() implies same_shape(
                #[trigger] table.rows@[q],
                orig.rows@[q],
            ) by {
                assert forall|j: int|
                    0 <= j < table.rows@[q].cells@.len() implies cell_same(
                    #[trigger] table.rows@[q].cells@[j],
                    orig.rows@[q].cells@[j],
                ) by {
                    assert(table.rows@[q].cells@[j] == marked_state(orig, q, j));
                }
            }
            assert(same_grid(*table, orig));
        }
        // Anchors and a snapshot of the original contents, taken before any
        // cell changes.
        let mut anchors: Vec<Vec<Option<(usize, usize)>>> = Vec::new();
        let mut snap: Vec<Vec<String>> = Vec::new();
        let mut r: usize = 0;
        while r < nrows
            invariant
                nrows == table.rows@.len(),
                nrows == orig.rows@.len(),
                r <= nrows,
                same_grid(*table, orig),
                anchors@.len() == r,
                snap@.len() == r,
                forall|q: int|
                    0 <= q < r ==> (#[trigger] anchors@[q])@.len() == orig.rows@[q].cells@.len(),
                forall|q: int|
                    0 <= q < r ==> (#[trigger] snap@[q])@.len() == orig.rows@[q].cells@.len(),
                forall|q: int, j: int|
                    0 <= q < r && 0 <= j < orig.rows@[q].cells@.len() ==> (#[trigger] anchors@[q]@[j])
                        == (match anchor_of(orig, q, j) {
                        (ar, ac) => if 0 <= ar < orig.rows@.len() && 0 <= ac
                            < orig.rows@[ar].cells@.len() {
                            Some((ar as usize, ac as usize))
                        } else {
                            None
                        },
                    }),
                forall|q: int, j: int|
                    0 <= q < r && 0 <= j < orig.rows@[q].cells@.len() ==> (#[trigger] snap@[q]@[j])@
                        == orig.rows@[q].cells@[j].content@,
            decreases nrows - r,
        {
            let ncells = table.rows[r].cells.len();
            let mut arow: Vec<Option<(usize, usize)>> = Vec::new();
            let mut srow: Vec<String> = Vec::new();
            let mut c: usize = 0;
            let hr = h_ranges_exec(&table.rows[r].cells);
            proof {
                assert(same_shape(table.rows@[r as int], orig.rows@[r as int]));
                lemma_h_scan_shape(
                    table.rows@[r as int].cells@,
                    orig.rows@[r as int].cells@,
                    0,
                    None,
                );
            }
            while c < ncells
                invariant
                    nrows == table.rows@.len(),
                    nrows == orig.rows@.len(),
                    r < nrows,
                    ncells == table.rows@[r as int].cells@.len(),
                    ncells == orig.rows@[r as int].cells@.len(),
                    same_grid(*table, orig),
                    same_shape(table.rows@[r as int], orig.rows@[r as int]),
                    hr@.map_values(|p: (usize, usize)| (p.0 as int, p.1 as int)) == h_scan(
                        orig.rows@[r as int].cells@,
                        0,
                        None,
                    ),
                    c <= ncells,
                    arow@.len() == c,
                    srow@.len() == c,
                    forall|j: int|
                        0 <= j < c ==> (#[trigger] arow@[j]) == (match anchor_of(
                            orig,
                            r as int,
                            j,
                        ) {
                            (ar, ac) => if 0 <= ar < orig.rows@.len() && 0 <= ac
                                < orig.rows@[ar].cells@.len() {
                                Some((ar as usize, ac as usize))
                            } else {
                                None
                            },
                        }),
                    forall|j: int|
                        0 <= j < c ==> (#[trigger] srow@[j])@ == orig.rows@[r as int].cells@[j].content@,
                decreases ncells - c,
            {
                let vr = v_ranges_exec(&table.rows, c);
                proof {
                    lemma_grid_texts(*table, orig);
                    lemma_v_scan_shape(table.rows@, orig.rows@, c as int, 0, None);
                }
                let vcov = cover_exec(&vr, r);
                let anc: Option<(usize, usize)>;
                match vcov {
                    Some((sv, _)) => {
                        if sv < nrows && c < table.rows[sv].cells.len() {
                            proof {
                                let ghost svi = sv as int;
                                assert(table.rows@[svi].cells@.len()
                                    == orig.rows@[svi].cells@.len());
                            }
                            anc = Some((sv, c));
                        } else {
                            anc = None;
                        }
                    },
                    None => {
                        match cover_exec(&hr, c) {
                            Some((sh, _)) => {
                                if sh < ncells {
                                    anc = Some((r, sh));
                                } else {
                                    anc = None;
                                }
                            },
                            None => {
                                anc = Some((r, c));
                            },
                        }
                    },
                }
                arow.push(anc);
                let cellref = &table.rows[r].cells[c];
                proof {
                    assert(cell_same(
                        table.rows@[r as int].cells@[c as int],
                        orig.rows@[r as int].cells@[c as int],
                    ));
                }
                srow.push(cellref.content.clone());
                c = c + 1;
            }
            anchors.push(arow);
            snap.push(srow);
            r = r + 1;
        }
        // Rewrite the merged cells.
        let ghost marked = *table;
        let mut r2: usize = 0;
        while r2 < nrows
            invariant
                nrows == table.rows@.len(),
                nrows == orig.rows@.len(),
                nrows == marked.rows@.len(),
                r2 <= nrows,
                anchors@.len() == nrows,
                snap@.len() == nrows,
                forall|q: int|
                    0 <= q < nrows ==> (#[trigger] anchors@[q])@.len() == orig.rows@[q].cells@.len(),
                forall|q: int|
                    0 <= q < nrows ==> (#[trigger] snap@[q])@.len() == orig.rows@[q].cells@.len(),
                forall|q: int, j: int|
                    0 <= q < nrows && 0 <= j < orig.rows@[q].cells@.len() ==> (
                    #[trigger] anchors@[q]@[j]) == (match anchor_of(orig, q, j) {
                        (ar, ac) => if 0 <= ar < orig.rows@.len() && 0 <= ac
                            < orig.rows@[ar].cells@.len() {
                            Some((ar as usize, ac as usize))
                        } else {
                            None
                        },
                    }),
                forall|q: int, j: int|
                    0 <= q < nrows && 0 <= j < orig.rows@[q].cells@.len() ==> (#[trigger] snap@[q]@[j])@
                        == orig.rows@[q].cells@[j].content@,
                forall|q: int|
                    0 <= q < nrows ==> (#[trigger] marked.rows@[q]).cells@.len()
                        == orig.rows@[q].cells@.len() && marked.rows@[q].is_header == orig.rows@[q].is_header
                        && marked.rows@[q].row_index == orig.rows@[q].row_index,
                forall|q: int, j: int|
                    0 <= q < nrows && 0 <= j < orig.rows@[q].cells@.len() ==> (
                    #[trigger] marked.rows@[q].cells@[j]) == marked_state(orig, q, j),
                forall|q: int|
                    0 <= q < nrows ==> (#[trigger] table.rows@[q]).cells@.len()
                        == orig.rows@[q].cells@.len() && table.rows@[q].is_header == orig.rows@[q].is_header
                        && table.rows@[q].row_index == orig.rows@[q].row_index,
                forall|q: int, j: int|
                    0 <= q < nrows && r2 <= q && 0 <= j < orig.rows@[q].cells@.len() ==> (
                    #[trigger] table.rows@[q].cells@[j]) == marked_state(orig, q, j),
                forall|q: int, j: int|
                    0 <= q < r2 && 0 <= j < orig.rows@[q].cells@.len() ==> {
                        let m = marked_state(orig, q, j);
                        let fc = #[trigger] table.rows@[q].cells@[j];
                        if m.cell_type is Merged {
                            fc.cell_type is Data && fc.colspan == m.colspan && fc.rowspan
                                == m.rowspan && fc.alignment == m.alignment && fc.formatting
                                == m.formatting && fc.content@ == expanded_content(orig, q, j)
                                && fc.formatted_content@ == expanded_content(orig, q, j)
                        } else {
                            fc == m
                        }
                    },
                table.headers == marked.headers,
                table.has_header == marked.has_header,
                table.column_count == marked.column_count,
                table.row_count == marked.row_count,
                table.table_id == marked.table_id,
                table.title == marked.title,
            decreases nrows - r2,
        {
            let ncells = table.rows[r2].cells.len();
            let mut row = TableRow::new(0);
            table.rows.set_and_swap(r2, &mut row);
            let ghost row0 = row;
            let mut c2: usize = 0;
            while c2 < ncells
                invariant
                    nrows == orig.rows@.len(),
                    r2 < nrows,
                    ncells == row.cells@.len(),
                    ncells == orig.rows@[r2 as int].cells@.len(),
                    row0.cells@.len() == ncells,
                    row.is_header == row0.is_header,
                    row.row_index == row0.row_index,
                    anchors@.len() == nrows,
                    snap@.len() == nrows,
                    forall|q: int|
                        0 <= q < nrows ==> (#[trigger] anchors@[q])@.len()
                            == orig.rows@[q].cells@.len(),
                    forall|q: int|
                        0 <= q < nrows ==> (#[trigger] snap@[q])@.len()
                            == orig.rows@[q].cells@.len(),
                    forall|q: int, j: int|
                        0 <= q < nrows && 0 <= j < orig.rows@[q].cells@.len() ==> (
                        #[trigger] anchors@[q]@[j]) == (match anchor_of(orig, q, j) {
                            (ar, ac) => if 0 <= ar < orig.rows@.len() && 0 <= ac
                                < orig.rows@[ar].cells@.len() {
                                Some((ar as usize, ac as usize))
                            } else {
                                None
                            },
                        }),
                    forall|q: int, j: int|
                        0 <= q < nrows && 0 <= j < orig.rows@[q].cells@.len() ==> (
                        #[trigger] snap@[q]@[j])@ == orig.rows@[q].cells@[j].content@,
                    forall|j: int|
                        0 <= j < ncells ==> (#[trigger] row0.cells@[j]) == marked_state(
                            orig,
                            r2 as int,
                            j,
                        ),
                    c2 <= ncells,
                    forall|j: int|
                        c2 <= j < ncells ==> (#[trigger] row.cells@[j]) == row0.cells@[j],
                    forall|j: int|
                        0 <= j < c2 ==> {
                            let m = marked_state(orig, r2 as int, j);
                            let fc = #[trigger] row.cells@[j];
                            if m.cell_type is Merged {
                                fc.cell_type is Data && fc.colspan == m.colspan && fc.rowspan
                                    == m.rowspan && fc.alignment == m.alignment && fc.formatting
                                    == m.formatting && fc.content@ == expanded_content(
                                    orig,
                                    r2 as int,
                                    j,
                                ) && fc.formatted_content@ == expanded_content(orig, r2 as int, j)
                            } else {
                                fc == m
                            }
                        },
                decreases ncells - c2,
            {
                let merged_here = row.cells[c2].is_merged();
                if merged_here {
                    let content: String;
                    match anchors[r2][c2] {
                        Some((ar, ac)) => {
                            content = snap[ar][ac].clone();
                        },
                        None => {
                            content = snap[r2][c2].clone();
                        },
                    }
                    proof {
                        assert(content@ == expanded_content(orig, r2 as int, c2 as int)) by {
                            assert(marked_state(orig, r2 as int, c2 as int).cell_type
                                is Merged);
                        }
                    }
                    let content2 = content.clone();
                    let mut tmpc = TableCell::empty();
                    row.cells.set_and_swap(c2, &mut tmpc);
                    let newc = TableCell {
                        content,
                        formatted_content: content2,
                        cell_type: CellType::Data,
                        ..tmpc
                    };
                    row.cells.set(c2, newc);
                }
                c2 = c2 + 1;
            }
            table.rows.set(r2, row);
            r2 = r2 + 1;
        }
    }

    /// Applies the configured merge policy: `Ignore` leaves the table alone,
    /// `Preserve` marks ranges, `Expand` marks and then fills them; the
    /// effect is given exactly, stage-style, by `merge_stage`.
    pub fn handle_merged_cells(&self, table: &mut TableData)
        ensures
            crate::extract::merge_stage(
                self.config.merge_cells_handling,
                *old(table),
                *final(table),
            ),
    {
        match self.config.merge_cells_handling {
            MergeCellsHandling::Ignore => {},
            MergeCellsHandling::Preserve => {
                self.mark_merged_cells(table);
            },
            MergeCellsHandling::Expand => {
                self.expand_merged_cells(table);
            },
        }
    }
}

/// Re-running merge marking cannot flip a marked cell: on any table whose
/// contents agree with `t` (as a table already marked does), marking decides
/// the same ranges, so every cell marked `Merged` from `t` is marked
/// `Merged` again, with the same spans.
pub proof fn lemma_mark_stable(t: TableData, t2: TableData, r: int, c: int)
    requires
        rows_texts(t2.rows@, t.rows@),
        0 <= r < t.rows@.len(),
        0 <= c < t.rows@[r].cells@.len(),
    ensures
        cover(v_scan(t2.rows@, c, 0, None), r) == cover(v_scan(t.rows@, c, 0, None), r),
        cover(h_scan(t2.rows@[r].cells@, 0, None), c) == cover(
            h_scan(t.rows@[r].cells@, 0, None),
            c,
        ),
        (cover(v_scan(t.rows@, c, 0, None), r) is Some || cover(
            h_scan(t.rows@[r].cells@, 0, None),
            c,
        ) is Some) ==> marked_state(t2, r, c).cell_type is Merged && marked_state(
            t2,
            r,
            c,
        ).colspan == marked_state(t, r, c).colspan && marked_state(t2, r, c).rowspan
            == marked_state(t, r, c).rowspan,
{
    lemma_v_scan_shape(t2.rows@, t.rows@, c, 0, None);
    assert forall|j: int|
        0 <= j < t2.rows@[r].cells@.len() implies (#[trigger] t2.rows@[r].cells@[j]).content
        == t.rows@[r].cells@[j].content by {
        assert(cell_same(t2.rows@[r].cells@[j], t.rows@[r].cells@[j]));
    }
    lemma_h_scan_shape(t2.rows@[r].cells@, t.rows@[r].cells@, 0, None);
}

} // verus!
