//! The spreadsheet model and its renderers: sheets of plain string cells,
//! written out as CSV records, JSON workbooks, or boxed text tables, each
//! writer with an exact contract.

use vstd::prelude::*;
use vstd::string::*;
use crate::chars::{chars_vec, push_char, dec_str};
use crate::render::{json_str, json_string_of, push_usize};
use crate::ppt_output::{byte_len_upto, utf8_w, byte_len, lemma_byte_len_bound};

verus! {

/// One sheet: its name and its grid of cell texts.
#[derive(Debug, Clone)]
pub struct Sheet {
    pub name: String,
    pub data: Vec<Vec<String>>,
}

/// A parsed workbook: its sheets, in order.
#[derive(Debug, Clone)]
pub struct ExcelData {
    pub sheets: Vec<Sheet>,
}

/// A spreadsheet output format with its options.
#[derive(Debug, Clone)]
pub enum OutputFormat {
    Csv { delimiter: u8, quote_char: u8, has_headers: bool },
    Json { pretty: bool },
    Table { max_width: Option<usize>, borders: bool },
}

impl OutputFormat {
    /// Comma-separated values with a header row.
    pub fn csv() -> (f: OutputFormat)
        ensures
            f == (OutputFormat::Csv { delimiter: 44u8, quote_char: 34u8, has_headers: true }),
    {
        OutputFormat::Csv { delimiter: 44, quote_char: 34, has_headers: true }
    }

    /// CSV with a custom delimiter.
    pub fn csv_with_delimiter(delimiter: u8) -> (f: OutputFormat)
        ensures
            f == (OutputFormat::Csv { delimiter, quote_char: 34u8, has_headers: true }),
    {
        OutputFormat::Csv { delimiter, quote_char: 34, has_headers: true }
    }

    /// CSV without a header row.
    pub fn csv_no_headers() -> (f: OutputFormat)
        ensures
            f == (OutputFormat::Csv { delimiter: 44u8, quote_char: 34u8, has_headers: false }),
    {
        OutputFormat::Csv { delimiter: 44, quote_char: 34, has_headers: false }
    }

    /// Compact JSON.
    pub fn json() -> (f: OutputFormat)
        ensures
            f == (OutputFormat::Json { pretty: false }),
    {
        OutputFormat::Json { pretty: false }
    }

    /// Indented JSON.
    pub fn json_pretty() -> (f: OutputFormat)
        ensures
            f == (OutputFormat::Json { pretty: true }),
    {
        OutputFormat::Json { pretty: true }
    }

    /// A boxed text table.
    pub fn table() -> (f: OutputFormat)
        ensures
            f == (OutputFormat::Table { max_width: None, borders: true }),
    {
        OutputFormat::Table { max_width: None, borders: true }
    }

    /// A text table without borders.
    pub fn table_no_borders() -> (f: OutputFormat)
        ensures
            f == (OutputFormat::Table { max_width: None, borders: false }),
    {
        OutputFormat::Table { max_width: None, borders: false }
    }

    /// A boxed table capped at a total width.
    pub fn table_with_width(max_width: usize) -> (f: OutputFormat)
        ensures
            f == (OutputFormat::Table { max_width: Some(max_width), borders: true }),
    {
        OutputFormat::Table { max_width: Some(max_width), borders: true }
    }
}

/// A CSV field must be quoted when it holds the delimiter, the quote
/// character, or a line break.
pub open spec fn csv_needs_quote(s: Seq<char>, delim: char, quote: char) -> bool {
    exists|k: int|
        0 <= k < s.len() && ((#[trigger] s[k]) == delim || s[k] == quote || s[k] == '\n' || s[k]
            == '\r')
}

/// The first `k` characters of a quoted field body: quote characters are
/// doubled.
pub open spec fn csv_esc_upto(s: Seq<char>, quote: char, k: int) -> Seq<char>
    decreases k,
{
    if k <= 0 {
        Seq::empty()
    } else {
        csv_esc_upto(s, quote, k - 1) + (if s[k - 1] == quote {
            seq![quote, quote]
        } else {
            seq![s[k - 1]]
        })
    }
}

/// A rendered CSV field: quoted with doubled quotes when needed, bare
/// otherwise.
pub open spec fn csv_field(s: Seq<char>, delim: char, quote: char) -> Seq<char> {
    if csv_needs_quote(s, delim, quote) {
        seq![quote] + csv_esc_upto(s, quote, s.len() as int) + seq![quote]
    } else {
        s
    }
}

/// The first `k` fields of a record, delimiter-separated.
pub open spec fn csv_record_upto(fields: Seq<Seq<char>>, delim: char, quote: char, k: int) -> Seq<
    char,
>
    decreases k,
{
    if k <= 0 {
        Seq::empty()
    } else if k == 1 {
        csv_field(fields[0], delim, quote)
    } else {
        csv_record_upto(fields, delim, quote, k - 1) + seq![delim] + csv_field(
            fields[k - 1],
            delim,
            quote,
        )
    }
}

/// One CSV record: the fields and a line break.
pub open spec fn csv_record(fields: Seq<Seq<char>>, delim: char, quote: char) -> Seq<char> {
    csv_record_upto(fields, delim, quote, fields.len() as int) + "\n"@
}

/// The first `k` rows of a sheet as CSV records.
pub open spec fn csv_rows_upto(rows: Seq<Vec<String>>, delim: char, quote: char, k: int) -> Seq<
    char,
>
    decreases k,
{
    if k <= 0 {
        Seq::empty()
    } else {
        csv_rows_upto(rows, delim, quote, k - 1) + csv_record(
            rows[k - 1]@.map_values(|s: String| s@),
            delim,
            quote,
        )
    }
}

/// A whole sheet as CSV: its rows in order, nothing for an empty sheet.
pub open spec fn csv_sheet(s: Sheet, delim: char, quote: char) -> Seq<char> {
    csv_rows_upto(s.data@, delim, quote, s.data@.len() as int)
}

/// Appends one CSV field.
fn push_csv_field(out: &mut String, field: &str, delim: char, quote: char)
    ensures
        final(out)@ == old(out)@ + csv_field(field@, delim, quote),
{
    let v = chars_vec(field);
    let n = v.len();
    let mut needs = false;
    let mut i: usize = 0;
    while i < n
        invariant
            v@ == field@,
            n == v@.len(),
            i <= n,
            needs == exists|k: int|
                0 <= k < i && ((#[trigger] v@[k]) == delim || v@[k] == quote || v@[k] == '\n'
                    || v@[k] == '\r'),
        decreases n - i,
    {
        let c = v[i];
        if c == delim || c == quote || c == '\n' || c == '\r' {
            needs = true;
        }
        i = i + 1;
    }
    if !needs {
        out.append(field);
        return;
    }
    push_char(out, quote);
    let ghost base = out@;
    let mut q: usize = 0;
    while q < n
        invariant
            v@ == field@,
            n == v@.len(),
            q <= n,
            out@ == base + csv_esc_upto(field@, quote, q as int),
        decreases n - q,
    {
        let c = v[q];
        if c == quote {
            push_char(out, quote);
            push_char(out, quote);
            proof {
                assert(out@ =~= base + csv_esc_upto(field@, quote, q + 1));
            }
        } else {
            push_char(out, c);
            proof {
                assert(out@ =~= base + csv_esc_upto(field@, quote, q + 1));
            }
        }
        q = q + 1;
    }
    push_char(out, quote);
    proof {
        assert(out@ =~= old(out)@ + csv_field(field@, delim, quote));
    }
}

/// Appends one row as a CSV record.
pub(crate) fn push_csv_record(out: &mut String, row: &Vec<String>, delim: char, quote: char)
    ensures
        final(out)@ == old(out)@ + csv_record(row@.map_values(|s: String| s@), delim, quote),
{
    let ghost fields = row@.map_values(|s: String| s@);
    let n = row.len();
    let mut i: usize = 0;
    while i < n
        invariant
            fields == row@.map_values(|s: String| s@),
            n == row@.len(),
            i <= n,
            out@ == old(out)@ + csv_record_upto(fields, delim, quote, i as int),
        decreases n - i,
    {
        proof {
            assert(fields[i as int] == row@[i as int]@);
        }
        if i > 0 {
            push_char(out, delim);
        }
        push_csv_field(out, row[i].as_str(), delim, quote);
        proof {
            if i == 0 {
                assert(out@ =~= old(out)@ + csv_record_upto(fields, delim, quote, 1));
            }
        }
        i = i + 1;
    }
    out.append("\n");
}

/// The CSV renderer.
pub struct CsvOutput {
    pub delimiter: u8,
    pub quote_char: u8,
    pub has_headers: bool,
}

/// A workbook as CSV: sheets in order; from the second sheet on (or already
/// for the first when more follow) a name comment announces each sheet.
pub open spec fn csv_book_upto(sheets: Seq<Sheet>, delim: char, quote: char, k: int) -> Seq<char>
    decreases k,
{
    if k <= 0 {
        Seq::empty()
    } else {
        csv_book_upto(sheets, delim, quote, k - 1) + (if k == 1 {
            if sheets.len() > 1 {
                "# Sheet: "@ + sheets[0].name@ + "\n"@
            } else {
                Seq::empty()
            }
        } else {
            "\n"@ + "# Sheet: "@ + sheets[k - 1].name@ + "\n"@
        }) + csv_sheet(sheets[k - 1], delim, quote)
    }
}

impl CsvOutput {
    /// A CSV renderer with the given delimiter, quote and header flag.
    pub fn new(delimiter: u8, quote_char: u8, has_headers: bool) -> (o: CsvOutput)
        ensures
            o.delimiter == delimiter,
            o.quote_char == quote_char,
            o.has_headers == has_headers,
    {
        CsvOutput { delimiter, quote_char, has_headers }
    }

    /// Renders one sheet as CSV records.
    pub fn write_sheet(&self, sheet: &Sheet) -> (r: String)
        ensures
            r@ == csv_sheet(*sheet, self.delimiter as char, self.quote_char as char),
    {
        let delim = self.delimiter as char;
        let quote = self.quote_char as char;
        let mut out = String::new();
        let n = sheet.data.len();
        let mut i: usize = 0;
        proof {
            assert(out@ =~= csv_rows_upto(sheet.data@, delim, quote, 0));
        }
        while i < n
            invariant
                delim == self.delimiter as char,
                quote == self.quote_char as char,
                n == sheet.data@.len(),
                i <= n,
                out@ == csv_rows_upto(sheet.data@, delim, quote, i as int),
            decreases n - i,
        {
            push_csv_record(&mut out, &sheet.data[i], delim, quote);
            i = i + 1;
        }
        out
    }

    /// Renders a whole workbook as CSV, sheets announced by name comments
    /// when more than one is present.
    pub fn write_excel_data(&self, data: &ExcelData) -> (r: String)
        ensures
            r@ == csv_book_upto(
                data.sheets@,
                self.delimiter as char,
                self.quote_char as char,
                data.sheets@.len() as int,
            ),
    {
        let delim = self.delimiter as char;
        let quote = self.quote_char as char;
        let mut out = String::new();
        let n = data.sheets.len();
        let mut i: usize = 0;
        proof {
            assert(out@ =~= csv_book_upto(data.sheets@, delim, quote, 0));
        }
        while i < n
            invariant
                delim == self.delimiter as char,
                quote == self.quote_char as char,
                n == data.sheets@.len(),
                i <= n,
                out@ == csv_book_upto(data.sheets@, delim, quote, i as int),
            decreases n - i,
        {
            let ghost before = out@;
            if i > 0 {
                let mut head = String::from_str("\n");
                head.append("# Sheet: ");
                head.append(data.sheets[i].name.as_str());
                head.append("\n");
                out.append(head.as_str());
            } else if n > 1 {
                let mut head = String::from_str("# Sheet: ");
                head.append(data.sheets[0].name.as_str());
                head.append("\n");
                out.append(head.as_str());
            }
            let body = self.write_sheet(&data.sheets[i]);
            out.append(body.as_str());
            proof {
                assert(out@ =~= csv_book_upto(data.sheets@, delim, quote, i + 1));
            }
            i = i + 1;
        }
        out
    }
}

impl Default for CsvOutput {
    /// Comma-delimited, double-quoted, headers on.
    fn default() -> (o: Self)
        ensures
            o.delimiter == 44u8,
            o.quote_char == 34u8,
            o.has_headers,
    {
        CsvOutput { delimiter: 44, quote_char: 34, has_headers: true }
    }
}

/// One sheet as JSON: its name, its row and column counts, and its grid.
pub open spec fn json_sheet_obj(s: Sheet) -> Seq<char> {
    "{\"name\":"@ + json_str(s.name@) + ",\"rows\":"@ + dec_str(s.data@.len()) + ",\"columns\":"@
        + dec_str(
        if s.data@.len() > 0 {
            s.data@[0]@.len()
        } else {
            0
        },
    ) + ",\"data\":"@ + json_grid(s.data@) + "}"@
}

/// A grid of strings as a JSON array of arrays.
pub open spec fn json_grid_upto(rows: Seq<Vec<String>>, k: int) -> Seq<char>
    decreases k,
{
    if k <= 0 {
        Seq::empty()
    } else if k == 1 {
        json_row_arr(rows[0]@.map_values(|s: String| s@))
    } else {
        json_grid_upto(rows, k - 1) + ","@ + json_row_arr(rows[k - 1]@.map_values(|s: String| s@))
    }
}

pub open spec fn json_grid(rows: Seq<Vec<String>>) -> Seq<char> {
    "["@ + json_grid_upto(rows, rows.len() as int) + "]"@
}

pub open spec fn json_row_arr_upto(items: Seq<Seq<char>>, k: int) -> Seq<char>
    decreases k,
{
    if k <= 0 {
        Seq::empty()
    } else if k == 1 {
        json_str(items[0])
    } else {
        json_row_arr_upto(items, k - 1) + ","@ + json_str(items[k - 1])
    }
}

pub open spec fn json_row_arr(items: Seq<Seq<char>>) -> Seq<char> {
    "["@ + json_row_arr_upto(items, items.len() as int) + "]"@
}

/// A workbook as JSON: its sheets.
pub open spec fn json_book_upto(sheets: Seq<Sheet>, k: int) -> Seq<char>
    decreases k,
{
    if k <= 0 {
        Seq::empty()
    } else if k == 1 {
        json_sheet_obj(sheets[0])
    } else {
        json_book_upto(sheets, k - 1) + ","@ + json_sheet_obj(sheets[k - 1])
    }
}

/// A row of strings as a JSON array.
fn row_arr_json(items: &Vec<String>) -> (r: String)
    ensures
        r@ == json_row_arr(items@.map_values(|s: String| s@)),
{
    let ghost iv = items@.map_values(|s: String| s@);
    let mut out = String::from_str("[");
    let n = items.len();
    let mut i: usize = 0;
    proof {
        assert(out@ =~= "["@ + json_row_arr_upto(iv, 0));
    }
    while i < n
        invariant
            iv == items@.map_values(|s: String| s@),
            n == items@.len(),
            i <= n,
            out@ == "["@ + json_row_arr_upto(iv, i as int),
        decreases n - i,
    {
        proof {
            assert(iv[i as int] == items@[i as int]@);
        }
        if i > 0 {
            out.append(",");
        }
        let j = json_string_of(items[i].as_str());
        out.append(j.as_str());
        proof {
            assert(out@ =~= "["@ + json_row_arr_upto(iv, i + 1));
        }
        i = i + 1;
    }
    out.append("]");
    out
}

/// The JSON renderer.
pub struct JsonOutput {
    pub pretty: bool,
}

impl JsonOutput {
    /// A JSON renderer; the pretty flag writes the sheet fields one per
    /// indented line.
    pub fn new(pretty: bool) -> (o: JsonOutput)
        ensures
            o.pretty == pretty,
    {
        JsonOutput { pretty }
    }

    /// Renders one sheet as a JSON object, a newline after it.
    #[verifier::rlimit(100)]
    #[verifier::spinoff_prover]
    pub fn write_sheet(&self, sheet: &Sheet) -> (r: String)
        ensures
            !self.pretty ==> r@ == json_sheet_obj(*sheet) + "\n"@,
            self.pretty ==> r@ == json_sheet_pretty(*sheet) + "\n"@,
    {
        if !self.pretty {
            let mut out = self.sheet_obj(sheet);
            out.append("\n");
            return out;
        }
        let mut out = String::from_str("{\n  \"name\": ");
        let nj = json_string_of(sheet.name.as_str());
        out.append(nj.as_str());
        out.append(",\n  \"rows\": ");
        push_usize(&mut out, sheet.data.len());
        out.append(",\n  \"columns\": ");
        let cols: usize = if sheet.data.len() > 0 {
            sheet.data[0].len()
        } else {
            0
        };
        push_usize(&mut out, cols);
        out.append(",\n  \"data\": ");
        let g = self.grid_json(&sheet.data);
        out.append(g.as_str());
        out.append("\n}");
        out.append("\n");
        proof {
            assert(out@ =~= json_sheet_pretty(*sheet) + "\n"@);
        }
        out
    }

    /// Renders the whole workbook, a newline after it.
    pub fn write_excel_data(&self, data: &ExcelData) -> (r: String)
        ensures
            !self.pretty ==> r@ == "{\"sheets\":["@ + json_book_upto(
                data.sheets@,
                data.sheets@.len() as int,
            ) + "]}"@ + "\n"@,
            self.pretty ==> r@ == "{\n  \"sheets\": ["@ + json_book_upto(
                data.sheets@,
                data.sheets@.len() as int,
            ) + "]\n}"@ + "\n"@,
    {
        let mut out: String;
        if self.pretty {
            out = String::from_str("{\n  \"sheets\": [");
        } else {
            out = String::from_str("{\"sheets\":[");
        }
        let ghost base = out@;
        let n = data.sheets.len();
        let mut i: usize = 0;
        proof {
            assert(out@ =~= base + json_book_upto(data.sheets@, 0));
        }
        while i < n
            invariant
                n == data.sheets@.len(),
                i <= n,
                out@ == base + json_book_upto(data.sheets@, i as int),
            decreases n - i,
        {
            if i > 0 {
                out.append(",");
            }
            let sj = self.sheet_obj(&data.sheets[i]);
            out.append(sj.as_str());
            proof {
                assert(out@ =~= base + json_book_upto(data.sheets@, i + 1));
            }
            i = i + 1;
        }
        if self.pretty {
            out.append("]\n}");
        } else {
            out.append("]}");
        }
        out.append("\n");
        out
    }

    /// One sheet's compact JSON object.
    #[verifier::rlimit(100)]
    #[verifier::spinoff_prover]
    fn sheet_obj(&self, sheet: &Sheet) -> (r: String)
        ensures
            r@ == json_sheet_obj(*sheet),
    {
        let mut out = String::from_str("{\"name\":");
        let nj = json_string_of(sheet.name.as_str());
        out.append(nj.as_str());
        out.append(",\"rows\":");
        push_usize(&mut out, sheet.data.len());
        out.append(",\"columns\":");
        let cols: usize = if sheet.data.len() > 0 {
            sheet.data[0].len()
        } else {
            0
        };
        push_usize(&mut out, cols);
        out.append(",\"data\":");
        let g = self.grid_json(&sheet.data);
        out.append(g.as_str());
        out.append("}");
        proof {
            assert(out@ =~= json_sheet_obj(*sheet));
        }
        out
    }

    /// A grid's compact JSON array of arrays.
    fn grid_json(&self, rows: &Vec<Vec<String>>) -> (r: String)
        ensures
            r@ == json_grid(rows@),
    {
        let mut out = String::from_str("[");
        let n = rows.len();
        let mut i: usize = 0;
        proof {
            assert(out@ =~= "["@ + json_grid_upto(rows@, 0));
        }
        while i < n
            invariant
                n == rows@.len(),
                i <= n,
                out@ == "["@ + json_grid_upto(rows@, i as int),
            decreases n - i,
        {
            if i > 0 {
                out.append(",");
            }
            let rj = row_arr_json(&rows[i]);
            out.append(rj.as_str());
            proof {
                assert(out@ =~= "["@ + json_grid_upto(rows@, i + 1));
            }
            i = i + 1;
        }
        out.append("]");
        out
    }
}

/// One sheet's fields on indented lines, data compact.
pub open spec fn json_sheet_pretty(s: Sheet) -> Seq<char> {
    "{\n  \"name\": "@ + json_str(s.name@) + ",\n  \"rows\": "@ + dec_str(s.data@.len())
        + ",\n  \"columns\": "@ + dec_str(
        if s.data@.len() > 0 {
            s.data@[0]@.len()
        } else {
            0
        },
    ) + ",\n  \"data\": "@ + json_grid(s.data@) + "\n}"@
}

/// The widest row of a grid.
pub open spec fn grid_cols(rows: Seq<Vec<String>>) -> int
    decreases rows.len(),
{
    if rows.len() == 0 {
        0
    } else {
        let rest = grid_cols(rows.drop_last());
        if rows.last()@.len() > rest {
            rows.last()@.len() as int
        } else {
            rest
        }
    }
}

/// The raw width of column `j`: the largest byte length among its cells.
pub open spec fn colw(rows: Seq<Vec<String>>, j: int) -> int
    decreases rows.len(),
{
    if rows.len() == 0 {
        0
    } else {
        let rest = colw(rows.drop_last(), j);
        let last = rows.last()@;
        if 0 <= j < last.len() {
            let w = byte_len_upto(last[j]@, last[j]@.len() as int);
            if w > rest {
                w
            } else {
                rest
            }
        } else {
            rest
        }
    }
}

/// The sum of the first `k` raw column widths.
pub open spec fn total_w(rows: Seq<Vec<String>>, k: int) -> int
    decreases k,
{
    if k <= 0 {
        0
    } else {
        total_w(rows, k - 1) + colw(rows, k - 1)
    }
}

/// The width column `j` renders at: its raw width, capped at the average
/// share when a total cap is set and exceeded.
pub open spec fn render_w(rows: Seq<Vec<String>>, mw: Option<usize>, j: int) -> int {
    let w = colw(rows, j);
    match mw {
        Some(cap) => if total_w(rows, grid_cols(rows)) > cap {
            let share = cap as int / grid_cols(rows);
            if w < share {
                w
            } else {
                share
            }
        } else {
            w
        },
        None => w,
    }
}

/// The longest prefix of `s` whose bytes fit the budget.
pub open spec fn take_bytes(s: Seq<char>, budget: int) -> Seq<char>
    decreases s.len(),
{
    if s.len() == 0 || utf8_w(s[0]) > budget {
        Seq::empty()
    } else {
        seq![s[0]] + take_bytes(s.drop_first(), budget - utf8_w(s[0]))
    }
}

/// A cell cut to its column: left alone when it fits, else clipped to the
/// width with an ellipsis.
pub open spec fn trunc_cell(s: Seq<char>, w: int) -> Seq<char> {
    if byte_len_upto(s, s.len() as int) > w {
        take_bytes(s, w - 1) + seq!['\u{2026}']
    } else {
        s
    }
}

/// The cell padded with spaces to its column width.
pub open spec fn pad_cell(s: Seq<char>, w: int) -> Seq<char> {
    let t = trunc_cell(s, w);
    let b = byte_len_upto(t, t.len() as int);
    t + crate::chars::char_repeat(' ', if w > b { (w - b) as nat } else { 0 })
}

/// A horizontal border rule over the first `k` columns, joined by `mid`.
pub open spec fn rule_upto(rows: Seq<Vec<String>>, mw: Option<usize>, k: int, mid: char) -> Seq<
    char,
>
    decreases k,
{
    if k <= 0 {
        Seq::empty()
    } else {
        rule_upto(rows, mw, k - 1, mid) + crate::chars::char_repeat(
            '\u{2500}',
            (render_w(rows, mw, k - 1) + 2) as nat,
        ) + (if k < grid_cols(rows) {
            seq![mid]
        } else {
            Seq::empty()
        })
    }
}

/// One bordered row's first `k` cells, each padded between spaces, with
/// dividers between the columns.
pub open spec fn brow_upto(
    rows: Seq<Vec<String>>,
    mw: Option<usize>,
    row: Seq<String>,
    k: int,
) -> Seq<char>
    decreases k,
{
    if k <= 0 {
        Seq::empty()
    } else {
        brow_upto(rows, mw, row, k - 1) + (if k - 1 < grid_cols(rows) {
            " "@ + pad_cell(row[k - 1]@, render_w(rows, mw, k - 1)) + " "@ + (if k - 1 < grid_cols(
                rows,
            ) - 1 {
                seq!['\u{2502}']
            } else {
                Seq::empty()
            })
        } else {
            Seq::empty()
        })
    }
}

/// The bordered rows, each walled, a header rule after the first when more
/// rows follow.
pub open spec fn brows_upto(rows: Seq<Vec<String>>, mw: Option<usize>, k: int) -> Seq<char>
    decreases k,
{
    if k <= 0 {
        Seq::empty()
    } else {
        brows_upto(rows, mw, k - 1) + seq!['\u{2502}'] + brow_upto(
            rows,
            mw,
            rows[k - 1]@,
            rows[k - 1]@.len() as int,
        ) + "\u{2502}\n"@ + (if k == 1 && rows.len() > 1 {
            seq!['\u{251c}'] + rule_upto(rows, mw, grid_cols(rows), '\u{253c}') + "\u{2524}\n"@
        } else {
            Seq::empty()
        })
    }
}

/// A whole bordered table: top rule, rows, bottom rule.
pub open spec fn bordered_table(rows: Seq<Vec<String>>, mw: Option<usize>) -> Seq<char> {
    seq!['\u{250c}'] + rule_upto(rows, mw, grid_cols(rows), '\u{252c}') + "\u{2510}\n"@
        + brows_upto(rows, mw, rows.len() as int) + seq!['\u{2514}'] + rule_upto(
        rows,
        mw,
        grid_cols(rows),
        '\u{2534}',
    ) + "\u{2518}\n"@
}

/// One borderless row's first `k` cells, padded, two spaces between
/// columns.
pub open spec fn srow_upto(
    rows: Seq<Vec<String>>,
    mw: Option<usize>,
    row: Seq<String>,
    k: int,
) -> Seq<char>
    decreases k,
{
    if k <= 0 {
        Seq::empty()
    } else {
        srow_upto(rows, mw, row, k - 1) + (if k - 1 < grid_cols(rows) {
            pad_cell(row[k - 1]@, render_w(rows, mw, k - 1)) + (if k - 1 < grid_cols(rows) - 1 {
                "  "@
            } else {
                Seq::empty()
            })
        } else {
            Seq::empty()
        })
    }
}

/// The borderless rows, one line each.
pub open spec fn srows_upto(rows: Seq<Vec<String>>, mw: Option<usize>, k: int) -> Seq<char>
    decreases k,
{
    if k <= 0 {
        Seq::empty()
    } else {
        srows_upto(rows, mw, k - 1) + srow_upto(rows, mw, rows[k - 1]@, rows[k - 1]@.len() as int)
            + "\n"@
    }
}

/// The rendered table: bordered or plain, empty for an empty grid.
pub open spec fn table_text(rows: Seq<Vec<String>>, mw: Option<usize>, borders: bool) -> Seq<char> {
    if rows.len() == 0 {
        Seq::empty()
    } else if borders {
        bordered_table(rows, mw)
    } else {
        srows_upto(rows, mw, rows.len() as int)
    }
}

/// The boxed-table renderer.
pub struct TableOutput {
    pub max_width: Option<usize>,
    pub borders: bool,
}

/// Raw widths are never negative.
proof fn lemma_colw_nonneg(rows: Seq<Vec<String>>, j: int)
    ensures
        0 <= colw(rows, j),
    decreases rows.len(),
{
    if rows.len() > 0 {
        lemma_colw_nonneg(rows.drop_last(), j);
        let last = rows.last()@;
        if 0 <= j < last.len() {
            lemma_byte_len_bound(last[j]@, last[j]@.len() as int);
        }
    }
}

impl TableOutput {
    /// A table renderer with the given cap and border choice.
    pub fn new(max_width: Option<usize>, borders: bool) -> (o: TableOutput)
        ensures
            o.max_width == max_width,
            o.borders == borders,
    {
        TableOutput { max_width, borders }
    }

    /// Renders a grid as a text table.
    pub fn create_table(&self, data: &Vec<Vec<String>>) -> (r: String)
        ensures
            r@ == table_text(data@, self.max_width, self.borders),
    {
        let n = data.len();
        if n == 0 {
            return String::new();
        }
        // The widest row.
        let mut maxc: usize = 0;
        let mut i: usize = 0;
        proof {
            assert(data@.subrange(0, 0) =~= Seq::<Vec<String>>::empty());
        }
        while i < n
            invariant
                n == data@.len(),
                i <= n,
                maxc == grid_cols(data@.subrange(0, i as int)),
            decreases n - i,
        {
            proof {
                assert(data@.subrange(0, i + 1).drop_last() =~= data@.subrange(0, i as int));
                assert(data@.subrange(0, i + 1).last() == data@[i as int]);
            }
            if data[i].len() > maxc {
                maxc = data[i].len();
            }
            i = i + 1;
        }
        proof {
            assert(data@.subrange(0, n as int) =~= data@);
        }
        // Each column's rendered width.
        let widths = self.column_widths(data, maxc);
        let mut out = String::new();
        if self.borders {
            push_char(&mut out, '\u{250c}');
            self.push_rule(&mut out, &widths, maxc, '\u{252c}', data);
            out.append("\u{2510}\n");
            let ghost top = out@;
            let mut r: usize = 0;
            while r < n
                invariant
                    n == data@.len(),
                    n > 0,
                    maxc == grid_cols(data@),
                    widths@.len() == maxc,
                    forall|q: int|
                        0 <= q < maxc ==> widths@[q] == render_w(data@, self.max_width, q),
                    forall|q: int| 0 <= q < maxc ==> widths@[q] <= 0x3fffffffffffffffc,
                    r <= n,
                    out@ == top + brows_upto(data@, self.max_width, r as int),
                decreases n - r,
            {
                push_char(&mut out, '\u{2502}');
                self.push_brow(&mut out, &widths, maxc, &data[r], data);
                out.append("\u{2502}\n");
                if r == 0 && n > 1 {
                    push_char(&mut out, '\u{251c}');
                    self.push_rule(&mut out, &widths, maxc, '\u{253c}', data);
                    out.append("\u{2524}\n");
                }
                proof {
                    assert(out@ =~= top + brows_upto(data@, self.max_width, r + 1));
                }
                r = r + 1;
            }
            push_char(&mut out, '\u{2514}');
            self.push_rule(&mut out, &widths, maxc, '\u{2534}', data);
            out.append("\u{2518}\n");
            proof {
                assert(out@ =~= table_text(data@, self.max_width, self.borders));
            }
        } else {
            let mut r: usize = 0;
            while r < n
                invariant
                    n == data@.len(),
                    maxc == grid_cols(data@),
                    widths@.len() == maxc,
                    forall|q: int|
                        0 <= q < maxc ==> widths@[q] == render_w(data@, self.max_width, q),
                    forall|q: int| 0 <= q < maxc ==> widths@[q] <= 0x3fffffffffffffffc,
                    r <= n,
                    out@ == srows_upto(data@, self.max_width, r as int),
                decreases n - r,
            {
                self.push_srow(&mut out, &widths, maxc, &data[r], data);
                out.append("\n");
                proof {
                    assert(out@ =~= srows_upto(data@, self.max_width, r + 1));
                }
                r = r + 1;
            }
        }
        out
    }

    /// The rendered width of every column.
    fn column_widths(&self, data: &Vec<Vec<String>>, maxc: usize) -> (ws: Vec<u128>)
        requires
            maxc == grid_cols(data@),
        ensures
            ws@.len() == maxc,
            forall|q: int| 0 <= q < maxc ==> ws@[q] == render_w(data@, self.max_width, q),
            forall|q: int| 0 <= q < maxc ==> ws@[q] <= 0x3fffffffffffffffc,
    {
        let n = data.len();
        // Raw widths.
        let mut raw: Vec<u128> = Vec::new();
        let mut j: usize = 0;
        while j < maxc
            invariant
                n == data@.len(),
                maxc == grid_cols(data@),
                j <= maxc,
                raw@.len() == j,
                forall|q: int| 0 <= q < j ==> raw@[q] == colw(data@, q),
                forall|q: int| 0 <= q < j ==> raw@[q] <= 0x3fffffffffffffffc,
            decreases maxc - j,
        {
            let mut w: u128 = 0;
            let mut i: usize = 0;
            proof {
                assert(data@.subrange(0, 0) =~= Seq::<Vec<String>>::empty());
            }
            while i < n
                invariant
                    n == data@.len(),
                    j < maxc,
                    i <= n,
                    w == colw(data@.subrange(0, i as int), j as int),
                    w <= 0x3fffffffffffffffc,
                decreases n - i,
            {
                proof {
                    assert(data@.subrange(0, i + 1).drop_last() =~= data@.subrange(0, i as int));
                    assert(data@.subrange(0, i + 1).last() == data@[i as int]);
                }
                let row = &data[i];
                if j < row.len() {
                    let cv = chars_vec(row[j].as_str());
                    let cn = cv.len();
                    let b = byte_len(&cv);
                    proof {
                        lemma_byte_len_bound(cv@, cn as int);
                        assert(b <= 4 * cn);
                    }
                    if b > w {
                        w = b;
                    }
                }
                i = i + 1;
            }
            proof {
                assert(data@.subrange(0, n as int) =~= data@);
            }
            raw.push(w);
            j = j + 1;
        }
        // The cap, when set and exceeded.
        match self.max_width {
            Some(cap) => {
                // Whether the raw total exceeds the cap, with a saturating
                // running sum.
                let limit: u128 = cap as u128 + 1;
                let mut acc: u128 = 0;
                let mut k: usize = 0;
                while k < maxc
                    invariant
                        maxc == grid_cols(data@),
                        raw@.len() == maxc,
                        forall|q: int| 0 <= q < maxc ==> raw@[q] == colw(data@, q),
                        forall|q: int| 0 <= q < maxc ==> raw@[q] <= 0x3fffffffffffffffc,
                        limit == cap as int + 1,
                        k <= maxc,
                        acc == if total_w(data@, k as int) > cap {
                            limit as int
                        } else {
                            total_w(data@, k as int)
                        },
                    decreases maxc - k,
                {
                    proof {
                        lemma_total_w_nonneg(data@, k as int);
                    }
                    let next = acc + raw[k];
                    if next > limit {
                        acc = limit;
                    } else {
                        acc = next;
                    }
                    k = k + 1;
                }
                if acc > cap as u128 {
                    let share = (cap / maxc) as u128;
                    let mut out: Vec<u128> = Vec::new();
                    let mut q: usize = 0;
                    while q < maxc
                        invariant
                            maxc == grid_cols(data@),
                            raw@.len() == maxc,
                            forall|z: int| 0 <= z < maxc ==> raw@[z] == colw(data@, z),
                            share == cap as int / grid_cols(data@),
                            total_w(data@, grid_cols(data@)) > cap,
                            self.max_width == Some(cap),
                            q <= maxc,
                            out@.len() == q,
                            forall|z: int|
                                0 <= z < q ==> out@[z] == render_w(data@, self.max_width, z),
                            forall|z: int| 0 <= z < q ==> out@[z] <= 0x3fffffffffffffffc,
                        decreases maxc - q,
                    {
                        let w = raw[q];
                        if w < share {
                            out.push(w);
                        } else {
                            out.push(share);
                        }
                        q = q + 1;
                    }
                    out
                } else {
                    proof {
                        assert forall|q: int|
                            0 <= q < maxc implies raw@[q] == render_w(
                            data@,
                            self.max_width,
                            q,
                        ) by {}
                    }
                    raw
                }
            },
            None => {
                proof {
                    assert forall|q: int|
                        0 <= q < maxc implies raw@[q] == render_w(data@, self.max_width, q) by {}
                }
                raw
            },
        }
    }

    /// Appends a border rule over all columns.
    fn push_rule(
        &self,
        out: &mut String,
        widths: &Vec<u128>,
        maxc: usize,
        mid: char,
        data: &Vec<Vec<String>>,
    )
        requires
            maxc == grid_cols(data@),
            widths@.len() == maxc,
            forall|q: int| 0 <= q < maxc ==> widths@[q] == render_w(data@, self.max_width, q),
            forall|q: int| 0 <= q < maxc ==> widths@[q] <= 0x3fffffffffffffffc,
        ensures
            final(out)@ == old(out)@ + rule_upto(data@, self.max_width, maxc as int, mid),
    {
        let mut j: usize = 0;
        while j < maxc
            invariant
                maxc == grid_cols(data@),
                widths@.len() == maxc,
                forall|q: int| 0 <= q < maxc ==> widths@[q] == render_w(data@, self.max_width, q),
                forall|q: int| 0 <= q < maxc ==> widths@[q] <= 0x3fffffffffffffffc,
                j <= maxc,
                out@ == old(out)@ + rule_upto(data@, self.max_width, j as int, mid),
            decreases maxc - j,
        {
            let w = widths[j];
            proof {
                lemma_render_w_nonneg(data@, self.max_width, j as int);
            }
            push_chars_u128(out, '\u{2500}', w + 2);
            if j + 1 < maxc {
                push_char(out, mid);
            }
            proof {
                assert(out@ =~= old(out)@ + rule_upto(data@, self.max_width, j + 1, mid));
            }
            j = j + 1;
        }
    }

    /// Appends one bordered row's cells.
    fn push_brow(
        &self,
        out: &mut String,
        widths: &Vec<u128>,
        maxc: usize,
        row: &Vec<String>,
        data: &Vec<Vec<String>>,
    )
        requires
            maxc == grid_cols(data@),
            widths@.len() == maxc,
            forall|q: int| 0 <= q < maxc ==> widths@[q] == render_w(data@, self.max_width, q),
            forall|q: int| 0 <= q < maxc ==> widths@[q] <= 0x3fffffffffffffffc,
        ensures
            final(out)@ == old(out)@ + brow_upto(data@, self.max_width, row@, row@.len() as int),
    {
        let n = row.len();
        let mut j: usize = 0;
        while j < n
            invariant
                maxc == grid_cols(data@),
                widths@.len() == maxc,
                forall|q: int| 0 <= q < maxc ==> widths@[q] == render_w(data@, self.max_width, q),
                forall|q: int| 0 <= q < maxc ==> widths@[q] <= 0x3fffffffffffffffc,
                n == row@.len(),
                j <= n,
                out@ == old(out)@ + brow_upto(data@, self.max_width, row@, j as int),
            decreases n - j,
        {
            if j < maxc {
                out.append(" ");
                self.push_padded(out, row[j].as_str(), widths[j], data, j);
                out.append(" ");
                if j < maxc - 1 {
                    push_char(out, '\u{2502}');
                }
            }
            proof {
                assert(out@ =~= old(out)@ + brow_upto(data@, self.max_width, row@, j + 1));
            }
            j = j + 1;
        }
    }

    /// Appends one borderless row's cells.
    fn push_srow(
        &self,
        out: &mut String,
        widths: &Vec<u128>,
        maxc: usize,
        row: &Vec<String>,
        data: &Vec<Vec<String>>,
    )
        requires
            maxc == grid_cols(data@),
            widths@.len() == maxc,
            forall|q: int| 0 <= q < maxc ==> widths@[q] == render_w(data@, self.max_width, q),
            forall|q: int| 0 <= q < maxc ==> widths@[q] <= 0x3fffffffffffffffc,
        ensures
            final(out)@ == old(out)@ + srow_upto(data@, self.max_width, row@, row@.len() as int),
    {
        let n = row.len();
        let mut j: usize = 0;
        while j < n
            invariant
                maxc == grid_cols(data@),
                widths@.len() == maxc,
                forall|q: int| 0 <= q < maxc ==> widths@[q] == render_w(data@, self.max_width, q),
                forall|q: int| 0 <= q < maxc ==> widths@[q] <= 0x3fffffffffffffffc,
                n == row@.len(),
                j <= n,
                out@ == old(out)@ + srow_upto(data@, self.max_width, row@, j as int),
            decreases n - j,
        {
            if j < maxc {
                self.push_padded(out, row[j].as_str(), widths[j], data, j);
                if j < maxc - 1 {
                    out.append("  ");
                }
            }
            proof {
                assert(out@ =~= old(out)@ + srow_upto(data@, self.max_width, row@, j + 1));
            }
            j = j + 1;
        }
    }

    /// Appends a cell clipped and padded to its column width.
    fn push_padded(
        &self,
        out: &mut String,
        cell: &str,
        w: u128,
        data: &Vec<Vec<String>>,
        j: usize,
    )
        requires
            w == render_w(data@, self.max_width, j as int),
            w <= 0x3fffffffffffffffc,
        ensures
            final(out)@ == old(out)@ + pad_cell(cell@, w as int),
    {
        let v = chars_vec(cell);
        let n = v.len();
        let b = byte_len(&v);
        proof {
            lemma_byte_len_bound(v@, n as int);
        }
        let ghost base = out@;
        let ghost t = trunc_cell(cell@, w as int);
        let mut used: u128 = 0;
        if b > w {
            // Clip to the byte budget, then the ellipsis.
            let budget: u128 = if w >= 1 {
                w - 1
            } else {
                0
            };
            let ghost wb: int = w as int - 1;
            proof {
                if w == 0 {
                    if v@.len() > 0 {
                        assert(utf8_w(v@[0]) >= 1);
                    }
                    assert(take_bytes(cell@, 0) =~= take_bytes(cell@, -1));
                }
                assert(take_bytes(cell@, budget as int) == take_bytes(cell@, wb));
                assert(v@.skip(0) =~= v@);
            }
            let ghost pre = take_bytes(cell@, budget as int);
            proof {
                assert(byte_len_upto(v@, 0) == 0);
                assert(n > 0);
            }
            let mut i: usize = 0;
            let mut left: u128 = budget;
            while i < n
                invariant_except_break
                    n == v@.len(),
                    v@ == cell@,
                    i < n,
                    left <= budget,
                    budget <= w,
                    w <= 0x3fffffffffffffffc,
                    pre == take_bytes(v@, budget as int),
                    used + left == budget,
                    out@ + take_bytes(v@.skip(i as int), left as int) == base + pre,
                    out@ == base + out@.skip(base.len() as int),
                    used == byte_len_upto(
                        out@.skip(base.len() as int),
                        out@.skip(base.len() as int).len() as int,
                    ),
                ensures
                    out@ == base + pre,
                    used == byte_len_upto(pre, pre.len() as int),
                    used <= w,
                decreases n - i,
            {
                let c = v[i];
                let code = c as u32;
                let cw: u128 = if code < 0x80 {
                    1
                } else if code < 0x800 {
                    2
                } else if code < 0x10000 {
                    3
                } else {
                    4
                };
                proof {
                    assert(v@.skip(i as int)[0] == v@[i as int]);
                    assert(cw == utf8_w(c));
                }
                if cw > left {
                    proof {
                        assert(take_bytes(v@.skip(i as int), left as int) =~= Seq::<char>::empty());
                        assert(out@ =~= out@ + take_bytes(v@.skip(i as int), left as int));
                        assert(out@.skip(base.len() as int) =~= pre);
                    }
                    break;
                }
                let ghost app0 = out@.skip(base.len() as int);
                push_char(out, c);
                proof {
                    assert(v@.skip(i as int).drop_first() =~= v@.skip(i + 1));
                    assert(take_bytes(v@.skip(i as int), left as int) == seq![v@[i as int]]
                        + take_bytes(v@.skip(i + 1), (left - cw) as int));
                    assert(out@ + take_bytes(v@.skip(i + 1), (left - cw) as int) =~= base + pre);
                    let app1 = out@.skip(base.len() as int);
                    assert(app1 =~= app0 + seq![c]);
                    assert(byte_len_upto(app1, app1.len() as int) == byte_len_upto(
                        app1,
                        app1.len() - 1,
                    ) + utf8_w(app1[app1.len() - 1]));
                    lemma_byte_upto_congruent(app1, app0, app0.len() as int);
                }
                left = left - cw;
                used = used + cw;
                i = i + 1;
                if i == n {
                    proof {
                        assert(v@.skip(n as int) =~= Seq::<char>::empty());
                        assert(take_bytes(v@.skip(n as int), left as int) =~= Seq::<char>::empty());
                        assert(out@ =~= out@ + take_bytes(v@.skip(n as int), left as int));
                        assert(out@.skip(base.len() as int) =~= pre);
                    }
                    break;
                }
            }
            push_char(out, '\u{2026}');
            proof {
                assert(t == pre + seq!['\u{2026}']);
                assert(out@ =~= base + t);
                assert(utf8_w('\u{2026}') == 3);
                assert(byte_len_upto(t, t.len() as int) == byte_len_upto(t, t.len() - 1) + utf8_w(
                    t[t.len() - 1],
                ));
                lemma_byte_upto_congruent(t, pre, pre.len() as int);
            }
            used = used + 3;
        } else {
            out.append(cell);
            used = b;
            proof {
                assert(t == cell@);
            }
        }
        proof {
            assert(used == byte_len_upto(t, t.len() as int));
        }
        if used < w {
            push_chars_u128(out, ' ', w - used);
        } else {
            proof {
                assert(crate::chars::char_repeat(' ', 0) =~= Seq::<char>::empty());
            }
        }
        proof {
            assert(out@ =~= base + pad_cell(cell@, w as int));
        }
    }
}

/// Byte counting over a shared prefix agrees.
proof fn lemma_byte_upto_congruent(a: Seq<char>, b: Seq<char>, k: int)
    requires
        0 <= k <= a.len(),
        k <= b.len(),
        forall|j: int| 0 <= j < k ==> a[j] == b[j],
    ensures
        byte_len_upto(a, k) == byte_len_upto(b, k),
    decreases k,
{
    if k > 0 {
        lemma_byte_upto_congruent(a, b, k - 1);
    }
}

/// Appends `n` copies of a character, counted widely.
fn push_chars_u128(out: &mut String, c: char, n: u128)
    ensures
        final(out)@ == old(out)@ + crate::chars::char_repeat(c, n as nat),
{
    let mut i: u128 = 0;
    while i < n
        invariant
            i <= n,
            out@ == old(out)@ + crate::chars::char_repeat(c, i as nat),
        decreases n - i,
    {
        push_char(out, c);
        i = i + 1;
    }
}

/// Column totals are sums of non-negative widths.
proof fn lemma_total_w_nonneg(rows: Seq<Vec<String>>, k: int)
    ensures
        k >= 0 ==> total_w(rows, k) >= 0,
    decreases k,
{
    if k > 0 {
        lemma_total_w_nonneg(rows, k - 1);
        lemma_colw_nonneg(rows, k - 1);
    }
}

/// Rendered widths are never negative.
proof fn lemma_render_w_nonneg(rows: Seq<Vec<String>>, mw: Option<usize>, j: int)
    ensures
        render_w(rows, mw, j) >= 0,
{
    lemma_colw_nonneg(rows, j);
    if mw is Some {
        vstd::arithmetic::div_mod::lemma_div_is_ordered_by_denominator(0, 1, 1);
    }
}

impl TableOutput {
    /// Renders one sheet: a name banner, then the table or an empty-sheet
    /// note.
    pub fn write_sheet(&self, sheet: &Sheet) -> (r: String)
        ensures
            r@ == "=== Sheet: "@ + sheet.name@ + " ===\n"@ + (if sheet.data@.len() > 0 {
                table_text(sheet.data@, self.max_width, self.borders) + "\n"@
            } else {
                "(Empty sheet)\n"@
            }),
    {
        let mut out = String::from_str("=== Sheet: ");
        out.append(sheet.name.as_str());
        out.append(" ===\n");
        if sheet.data.len() > 0 {
            let t = self.create_table(&sheet.data);
            out.append(t.as_str());
            out.append("\n");
        } else {
            out.append("(Empty sheet)\n");
        }
        out
    }

    /// Renders the whole workbook, sheets separated by blank lines.
    pub fn write_excel_data(&self, data: &ExcelData) -> (r: String)
        ensures
            r@ == tables_book_upto(*self, data.sheets@, data.sheets@.len() as int),
    {
        let mut out = String::new();
        let n = data.sheets.len();
        let mut i: usize = 0;
        proof {
            assert(out@ =~= tables_book_upto(*self, data.sheets@, 0));
        }
        while i < n
            invariant
                n == data.sheets@.len(),
                i <= n,
                out@ == tables_book_upto(*self, data.sheets@, i as int),
            decreases n - i,
        {
            if i > 0 {
                out.append("\n\n");
            }
            let s = self.write_sheet(&data.sheets[i]);
            out.append(s.as_str());
            proof {
                assert(out@ =~= tables_book_upto(*self, data.sheets@, i + 1));
            }
            i = i + 1;
        }
        out
    }
}

/// The workbook's sheets as banners and tables, blank lines between them.
pub open spec fn tables_book_upto(o: TableOutput, sheets: Seq<Sheet>, k: int) -> Seq<char>
    decreases k,
{
    if k <= 0 {
        Seq::empty()
    } else {
        tables_book_upto(o, sheets, k - 1) + (if k > 1 {
            "\n\n"@
        } else {
            Seq::empty()
        }) + "=== Sheet: "@ + sheets[k - 1].name@ + " ===\n"@ + (if sheets[k - 1].data@.len()
            > 0 {
            table_text(sheets[k - 1].data@, o.max_width, o.borders) + "\n"@
        } else {
            "(Empty sheet)\n"@
        })
    }
}

/// Dispatches a workbook to the renderer the format names.
pub struct OutputProcessor;

impl OutputProcessor {
    /// A processor.
    pub fn new() -> (p: OutputProcessor) {
        OutputProcessor
    }

    /// Renders a workbook in the named format.
    pub fn process(&self, data: &ExcelData, format: &OutputFormat) -> (r: String)
        ensures
            match *format {
                OutputFormat::Csv { delimiter, quote_char, has_headers } => r@ == csv_book_upto(
                    data.sheets@,
                    delimiter as char,
                    quote_char as char,
                    data.sheets@.len() as int,
                ),
                OutputFormat::Json { pretty } => (!pretty ==> r@ == "{\"sheets\":["@
                    + json_book_upto(data.sheets@, data.sheets@.len() as int) + "]}"@ + "\n"@) && (
                pretty ==> r@ == "{\n  \"sheets\": ["@ + json_book_upto(
                    data.sheets@,
                    data.sheets@.len() as int,
                ) + "]\n}"@ + "\n"@),
                OutputFormat::Table { max_width, borders } => r@ == tables_book_upto(
                    TableOutput { max_width, borders },
                    data.sheets@,
                    data.sheets@.len() as int,
                ),
            },
    {
        match format {
            OutputFormat::Csv { delimiter, quote_char, has_headers } => {
                let o = CsvOutput::new(*delimiter, *quote_char, *has_headers);
                o.write_excel_data(data)
            },
            OutputFormat::Json { pretty } => {
                let o = JsonOutput::new(*pretty);
                o.write_excel_data(data)
            },
            OutputFormat::Table { max_width, borders } => {
                let o = TableOutput::new(*max_width, *borders);
                o.write_excel_data(data)
            },
        }
    }

    /// Renders one sheet in the named format.
    pub fn process_sheet(&self, sheet: &Sheet, format: &OutputFormat) -> (r: String)
        ensures
            match *format {
                OutputFormat::Csv { delimiter, quote_char, has_headers } => r@ == csv_sheet(
                    *sheet,
                    delimiter as char,
                    quote_char as char,
                ),
                OutputFormat::Json { pretty } => (!pretty ==> r@ == json_sheet_obj(*sheet)
                    + "\n"@) && (pretty ==> r@ == json_sheet_pretty(*sheet) + "\n"@),
                OutputFormat::Table { max_width, borders } => r@ == "=== Sheet: "@ + sheet.name@
                    + " ===\n"@ + (if sheet.data@.len() > 0 {
                    table_text(sheet.data@, max_width, borders) + "\n"@
                } else {
                    "(Empty sheet)\n"@
                }),
            },
    {
        match format {
            OutputFormat::Csv { delimiter, quote_char, has_headers } => {
                let o = CsvOutput::new(*delimiter, *quote_char, *has_headers);
                o.write_sheet(sheet)
            },
            OutputFormat::Json { pretty } => {
                let o = JsonOutput::new(*pretty);
                o.write_sheet(sheet)
            },
            OutputFormat::Table { max_width, borders } => {
                let o = TableOutput::new(*max_width, *borders);
                o.write_sheet(sheet)
            },
        }
    }
}

} // verus!
