//! Data model of the table-structure inference engine: cells, rows, tables,
//! formatting records and the extraction configuration.
//!
//! A cell is `Empty` exactly when its trimmed content is the empty string;
//! `column_count` and `row_count` of a table are derived from the rows by
//! `update_statistics` and kept by `add_row`.

use vstd::prelude::*;
use vstd::string::*;
use vstd::pervasive::VecAdditionalExecFns;
use crate::chars::{is_blank, lemma_blank_trim, trim_chars, chars_vec};

verus! {

/// Kind of a table cell.
#[derive(Debug, Clone)]
pub enum CellType {
    Header,
    Data,
    Merged,
    Empty,
}

/// Horizontal alignment of a cell's text.
#[derive(Debug, Clone)]
pub enum CellAlignment {
    Left,
    Center,
    Right,
    Justify,
}

/// Character formatting attached to a cell.
#[derive(Debug, Clone)]
pub struct CellFormatting {
    pub bold: bool,
    pub italic: bool,
    pub underline: bool,
    pub background_color: Option<String>,
    pub text_color: Option<String>,
    pub font_size: Option<u32>,
    pub font_family: Option<String>,
}

/// One table cell: its plain content, the content with markup applied, the
/// spans set on merge anchors, and its kind.
#[derive(Debug, Clone)]
pub struct TableCell {
    pub content: String,
    pub formatted_content: String,
    pub colspan: Option<usize>,
    pub rowspan: Option<usize>,
    pub alignment: Option<CellAlignment>,
    pub formatting: Option<CellFormatting>,
    pub cell_type: CellType,
}

/// One table row: its cells, whether it is the header row, and its 0-based
/// position in the table.
#[derive(Debug, Clone)]
pub struct TableRow {
    pub cells: Vec<TableCell>,
    pub is_header: bool,
    pub row_index: usize,
}

/// A whole extracted table with its derived statistics and detected headers.
#[derive(Debug, Clone)]
pub struct TableData {
    pub rows: Vec<TableRow>,
    pub headers: Option<Vec<String>>,
    pub has_header: bool,
    pub column_count: usize,
    pub row_count: usize,
    pub table_id: Option<String>,
    pub title: Option<String>,
}

/// How much fidelity the downstream renderer should attempt; the inference
/// passes themselves do not read it.
#[derive(Debug, Clone)]
pub enum TableExtractionMode {
    Simple,
    Structured,
    Formatted,
    Full,
}

/// What to do with detected merged-cell ranges.
#[derive(Debug, Clone)]
pub enum MergeCellsHandling {
    Ignore,
    Preserve,
    Expand,
}

/// Output format preference handed to renderers.
#[derive(Debug, Clone)]
pub enum TableOutputFormat {
    PlainText,
    CSV,
    TSV,
    Markdown,
    JSON,
    HTML,
}

/// Configuration of the extraction pipeline.
#[derive(Debug, Clone)]
pub struct TableExtractionConfig {
    pub mode: TableExtractionMode,
    pub detect_headers: bool,
    pub preserve_formatting: bool,
    pub include_empty_cells: bool,
    pub merge_cells_handling: MergeCellsHandling,
    pub output_format: TableOutputFormat,
}

/// Inferred kind of a cell's data.
#[derive(Debug, Clone, PartialEq, Eq, Structural)]
pub enum CellDataType {
    Empty,
    Number,
    Text,
    Date,
    Boolean,
}

/// The inference engine: a configuration wired to the header, merge and
/// filter passes.
pub struct TableExtractor {
    pub config: TableExtractionConfig,
}

impl TableExtractor {
    /// An extractor with the given configuration.
    pub fn new(config: TableExtractionConfig) -> (e: TableExtractor)
        ensures
            e.config == config,
    {
        TableExtractor { config }
    }
}

/// A cell is empty exactly when its trimmed content is the empty string.
pub open spec fn cell_is_empty(c: TableCell) -> bool {
    is_blank(c.content@)
}

/// A row is empty when it has no cells or only empty ones.
pub open spec fn row_is_empty(r: TableRow) -> bool {
    forall|i: int| 0 <= i < r.cells@.len() ==> cell_is_empty(#[trigger] r.cells@[i])
}

/// The largest cell count over the rows.
pub open spec fn grid_max_cols(rows: Seq<TableRow>) -> nat
    decreases rows.len(),
{
    if rows.len() == 0 {
        0
    } else {
        let rest = grid_max_cols(rows.drop_last());
        let last = rows.last().cells@.len();
        if last > rest {
            last
        } else {
            rest
        }
    }
}

/// The table's derived statistics agree with its rows.
pub open spec fn stats_ok(t: TableData) -> bool {
    t.row_count == t.rows@.len() && t.column_count == grid_max_cols(t.rows@)
}

impl TableData {
    /// A fresh table: no rows, no headers, zero counts.
    pub fn new() -> (t: TableData)
        ensures
            t.rows@.len() == 0,
            t.headers is None,
            !t.has_header,
            t.column_count == 0,
            t.row_count == 0,
            t.table_id is None,
            t.title is None,
            stats_ok(t),
    {
        TableData {
            rows: Vec::new(),
            headers: None,
            has_header: false,
            column_count: 0,
            row_count: 0,
            table_id: None,
            title: None,
        }
    }

    /// A fresh table; the capacity hint changes nothing observable.
    pub fn with_capacity(row_capacity: usize) -> (t: TableData)
        ensures
            t.rows@.len() == 0,
            t.headers is None,
            !t.has_header,
            t.column_count == 0,
            t.row_count == 0,
            t.table_id is None,
            t.title is None,
            stats_ok(t),
    {
        TableData {
            rows: Vec::with_capacity(row_capacity),
            headers: None,
            has_header: false,
            column_count: 0,
            row_count: 0,
            table_id: None,
            title: None,
        }
    }

    /// Appends a row, counts it, and widens `column_count` to the row's cell
    /// count where needed.
    pub fn add_row(&mut self, row: TableRow)
        requires
            old(self).row_count < usize::MAX,
        ensures
            final(self).rows@ == old(self).rows@.push(row),
            final(self).row_count == old(self).row_count + 1,
            final(self).column_count == if row.cells@.len() > old(self).column_count {
                row.cells@.len() as usize
            } else {
                old(self).column_count
            },
            final(self).headers == old(self).headers,
            final(self).has_header == old(self).has_header,
            final(self).table_id == old(self).table_id,
            final(self).title == old(self).title,
            stats_ok(*old(self)) ==> stats_ok(*final(self)),
    {
        proof {
            assert(self.rows@.push(row).drop_last() =~= self.rows@);
        }
        self.row_count = self.row_count + 1;
        if row.cells.len() > self.column_count {
            self.column_count = row.cells.len();
        }
        self.rows.push(row);
    }

    /// The number of rows.
    pub fn row_count(&self) -> (n: usize)
        ensures
            n == self.row_count,
    {
        self.row_count
    }

    /// The number of columns.
    pub fn column_count(&self) -> (n: usize)
        ensures
            n == self.column_count,
    {
        self.column_count
    }

    /// Whether the table holds no rows.
    pub fn is_empty(&self) -> (r: bool)
        ensures
            r == (self.rows@.len() == 0),
    {
        self.rows.len() == 0
    }

    /// The cell at `row`/`col`, if both indices are in range.
    pub fn get_cell(&self, row: usize, col: usize) -> (r: Option<&TableCell>)
        ensures
            match r {
                Some(c) => row < self.rows@.len() && col < self.rows@[row as int].cells@.len()
                    && *c == self.rows@[row as int].cells@[col as int],
                None => row >= self.rows@.len() || col >= self.rows@[row as int].cells@.len(),
            },
    {
        if row < self.rows.len() {
            let r = &self.rows[row];
            if col < r.cells.len() {
                Some(&r.cells[col])
            } else {
                None
            }
        } else {
            None
        }
    }

    /// The row at `row`, if in range.
    pub fn get_row(&self, row: usize) -> (r: Option<&TableRow>)
        ensures
            match r {
                Some(rw) => row < self.rows@.len() && *rw == self.rows@[row as int],
                None => row >= self.rows@.len(),
            },
    {
        if row < self.rows.len() {
            Some(&self.rows[row])
        } else {
            None
        }
    }

    /// Column `col` of every row, `None` where a row is too short.
    pub fn get_column<'a>(&'a self, col: usize) -> (r: Vec<Option<&'a TableCell>>)
        ensures
            r@.len() == self.rows@.len(),
            forall|i: int| 0 <= i < r@.len() ==> (
                if col < (#[trigger] self.rows@[i]).cells@.len() {
                    match r@[i] {
                        Some(c) => *c == self.rows@[i].cells@[col as int],
                        None => false,
                    }
                } else {
                    r@[i] is None
                }
            ),
    {
        let mut out: Vec<Option<&'a TableCell>> = Vec::new();
        let mut i: usize = 0;
        while i < self.rows.len()
            invariant
                i <= self.rows@.len(),
                out@.len() == i,
                forall|j: int| 0 <= j < i ==> (
                    if col < (#[trigger] self.rows@[j]).cells@.len() {
                        match out@[j] {
                            Some(c) => *c == self.rows@[j].cells@[col as int],
                            None => false,
                        }
                    } else {
                        out@[j] is None
                    }
                ),
            decreases self.rows@.len() - i,
        {
            let row = &self.rows[i];
            if col < row.cells.len() {
                out.push(Some(&row.cells[col]));
            } else {
                out.push(None);
            }
            i = i + 1;
        }
        out
    }

    /// Records the given headers and raises the header flag.
    pub fn set_headers(&mut self, headers: Vec<String>)
        ensures
            *final(self) == (TableData {
                has_header: true,
                headers: Some(headers),
                ..*old(self)
            }),
    {
        self.has_header = true;
        self.headers = Some(headers);
    }

    /// Recomputes `row_count` and `column_count` from the rows.
    pub fn update_statistics(&mut self)
        ensures
            *final(self) == (TableData {
                row_count: final(self).row_count,
                column_count: final(self).column_count,
                ..*old(self)
            }),
            stats_ok(*final(self)),
    {
        self.row_count = self.rows.len();
        let mut m: usize = 0;
        let mut i: usize = 0;
        while i < self.rows.len()
            invariant
                i <= self.rows@.len(),
                m == grid_max_cols(self.rows@.subrange(0, i as int)),
            decreases self.rows@.len() - i,
        {
            proof {
                assert(self.rows@.subrange(0, i + 1).drop_last() =~= self.rows@.subrange(
                    0,
                    i as int,
                ));
                assert(self.rows@.subrange(0, i + 1).last() == self.rows@[i as int]);
            }
            if self.rows[i].cells.len() > m {
                m = self.rows[i].cells.len();
            }
            i = i + 1;
        }
        proof {
            assert(self.rows@.subrange(0, self.rows@.len() as int) =~= self.rows@);
        }
        self.column_count = m;
    }
}

impl TableRow {
    /// A fresh row at position `row_index`.
    pub fn new(row_index: usize) -> (r: TableRow)
        ensures
            r.cells@.len() == 0,
            !r.is_header,
            r.row_index == row_index,
    {
        TableRow { cells: Vec::new(), is_header: false, row_index }
    }

    /// A fresh row; the capacity hint changes nothing observable.
    pub fn with_capacity(row_index: usize, cell_capacity: usize) -> (r: TableRow)
        ensures
            r.cells@.len() == 0,
            !r.is_header,
            r.row_index == row_index,
    {
        TableRow { cells: Vec::with_capacity(cell_capacity), is_header: false, row_index }
    }

    /// Appends a cell.
    pub fn add_cell(&mut self, cell: TableCell)
        ensures
            *final(self) == (TableRow { cells: final(self).cells, ..*old(self) }),
            final(self).cells@ == old(self).cells@.push(cell),
    {
        self.cells.push(cell);
    }

    /// The number of cells.
    pub fn cell_count(&self) -> (n: usize)
        ensures
            n == self.cells@.len(),
    {
        self.cells.len()
    }

    /// Whether the row has no cells or only empty ones.
    pub fn is_empty(&self) -> (r: bool)
        ensures
            r == row_is_empty(*self),
    {
        let mut i: usize = 0;
        while i < self.cells.len()
            invariant
                i <= self.cells@.len(),
                forall|j: int| 0 <= j < i ==> cell_is_empty(#[trigger] self.cells@[j]),
            decreases self.cells@.len() - i,
        {
            if !self.cells[i].is_empty() {
                return false;
            }
            i = i + 1;
        }
        true
    }

    /// Marks the row as the header row and each cell as a header cell.
    pub fn mark_as_header(&mut self)
        ensures
            final(self).is_header,
            final(self).row_index == old(self).row_index,
            final(self).cells@.len() == old(self).cells@.len(),
            forall|i: int| 0 <= i < old(self).cells@.len() ==> final(self).cells@[i] == (TableCell {
                cell_type: CellType::Header,
                ..old(self).cells@[i]
            }),
    {
        self.is_header = true;
        let n = self.cells.len();
        let mut i: usize = 0;
        while i < n
            invariant
                n == self.cells@.len(),
                self.cells@.len() == old(self).cells@.len(),
                self.is_header,
                self.row_index == old(self).row_index,
                i <= n,
                forall|j: int| 0 <= j < i ==> self.cells@[j] == (TableCell {
                    cell_type: CellType::Header,
                    ..old(self).cells@[j]
                }),
                forall|j: int| i <= j < n ==> self.cells@[j] == old(self).cells@[j],
            decreases n - i,
        {
            let mut tmp = TableCell::empty();
            self.cells.set_and_swap(i, &mut tmp);
            let cell = TableCell { cell_type: CellType::Header, ..tmp };
            self.cells.set(i, cell);
            i = i + 1;
        }
    }

    /// The non-empty cells, in order.
    pub fn non_empty_cells<'a>(&'a self) -> (r: Vec<&'a TableCell>)
        ensures
            r@.map_values(|c: &TableCell| *c) == self.cells@.filter(
                |c: TableCell| !cell_is_empty(c),
            ),
    {
        let mut out: Vec<&'a TableCell> = Vec::new();
        let mut i: usize = 0;
        proof {
            assert(self.cells@.subrange(0, 0) =~= Seq::<TableCell>::empty());
            assert(out@.map_values(|c: &TableCell| *c) =~= self.cells@.subrange(0, 0).filter(
                |c: TableCell| !cell_is_empty(c),
            ));
        }
        while i < self.cells.len()
            invariant
                i <= self.cells@.len(),
                out@.map_values(|c: &TableCell| *c) == self.cells@.subrange(0, i as int).filter(
                    |c: TableCell| !cell_is_empty(c),
                ),
            decreases self.cells@.len() - i,
        {
            proof {
                reveal_with_fuel(Seq::filter, 2);
                assert(self.cells@.subrange(0, i + 1).drop_last() =~= self.cells@.subrange(
                    0,
                    i as int,
                ));
                assert(self.cells@.subrange(0, i + 1).last() == self.cells@[i as int]);
            }
            let ghost before = out@;
            if !self.cells[i].is_empty() {
                out.push(&self.cells[i]);
                proof {
                    assert(out@.map_values(|c: &TableCell| *c) =~= before.map_values(
                        |c: &TableCell| *c,
                    ).push(self.cells@[i as int]));
                }
            }
            i = i + 1;
        }
        proof {
            assert(self.cells@.subrange(0, self.cells@.len() as int) =~= self.cells@);
        }
        out
    }
}

impl TableCell {
    /// A data cell with the given content; the formatted copy starts equal.
    pub fn new(content: String) -> (c: TableCell)
        ensures
            c.content == content,
            c.content@ == content@,
            c.formatted_content@ == content@,
            c.colspan is None,
            c.rowspan is None,
            c.alignment is None,
            c.formatting is None,
            c.cell_type is Data,
    {
        let formatted = content.clone();
        TableCell {
            content,
            formatted_content: formatted,
            colspan: None,
            rowspan: None,
            alignment: None,
            formatting: None,
            cell_type: CellType::Data,
        }
    }

    /// A data cell with content and formatting.
    pub fn with_formatting(content: String, formatting: CellFormatting) -> (c: TableCell)
        ensures
            c.content@ == content@,
            c.formatted_content@ == content@,
            c.colspan is None,
            c.rowspan is None,
            c.alignment is None,
            c.formatting == Some(formatting),
            c.cell_type is Data,
    {
        let formatted = content.clone();
        TableCell {
            content,
            formatted_content: formatted,
            colspan: None,
            rowspan: None,
            alignment: None,
            formatting: Some(formatting),
            cell_type: CellType::Data,
        }
    }

    /// An empty cell.
    pub fn empty() -> (c: TableCell)
        ensures
            c.content@ == Seq::<char>::empty(),
            c.formatted_content@ == Seq::<char>::empty(),
            c.colspan is None,
            c.rowspan is None,
            c.alignment is None,
            c.formatting is None,
            c.cell_type is Empty,
            cell_is_empty(c),
    {
        TableCell {
            content: String::new(),
            formatted_content: String::new(),
            colspan: None,
            rowspan: None,
            alignment: None,
            formatting: None,
            cell_type: CellType::Empty,
        }
    }

    /// Whether the trimmed content is the empty string.
    pub fn is_empty(&self) -> (r: bool)
        ensures
            r == cell_is_empty(*self),
    {
        let v = chars_vec(self.content.as_str());
        let t = trim_chars(&v);
        proof {
            lemma_blank_trim(self.content@);
        }
        t.len() == 0
    }

    /// Whether the cell belongs to a merged range.
    pub fn is_merged(&self) -> (r: bool)
        ensures
            r == (self.cell_type is Merged),
    {
        match self.cell_type {
            CellType::Merged => true,
            _ => false,
        }
    }

    /// Whether the cell is a header cell.
    pub fn is_header(&self) -> (r: bool)
        ensures
            r == (self.cell_type is Header),
    {
        match self.cell_type {
            CellType::Header => true,
            _ => false,
        }
    }

    /// Marks the cell merged with the given spans.
    pub fn set_merged(&mut self, colspan: Option<usize>, rowspan: Option<usize>)
        ensures
            *final(self) == (TableCell {
                cell_type: CellType::Merged,
                colspan,
                rowspan,
                ..*old(self)
            }),
    {
        self.cell_type = CellType::Merged;
        self.colspan = colspan;
        self.rowspan = rowspan;
    }

    /// Sets the cell's alignment.
    pub fn set_alignment(&mut self, alignment: CellAlignment)
        ensures
            *final(self) == (TableCell { alignment: Some(alignment), ..*old(self) }),
    {
        self.alignment = Some(alignment);
    }

    /// The content's length in characters.
    pub fn content_length(&self) -> (n: usize)
        ensures
            n == self.content@.len(),
    {
        self.content.as_str().unicode_len()
    }
}

} // verus!
