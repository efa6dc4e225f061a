//! The header detector: five independent signals, each an exact rational
//! score in `[0, 1]`, combined with fixed weights and compared against a
//! 0.6 threshold.
//!
//! The signals: formatting differences between the first row and the first
//! three data rows; header-like content in the first row; data-type
//! consistency down each column over the first five data rows; shorter text
//! in the first row than in the data rows; and uniqueness of the first row's
//! entries.  All arithmetic is exact: scores are integer fractions and the
//! weighted comparison clears denominators with 384-bit integers.

use vstd::prelude::*;
use vstd::string::*;
use vstd::pervasive::VecAdditionalExecFns;
use vstd::arithmetic::mul::{lemma_mul_upper_bound, lemma_mul_nonnegative, lemma_mul_inequality,
    lemma_mul_is_commutative};
use crate::wide::{Wide, val, wide_cap};
use crate::chars::{
    lower_seq, trim_seq, contains_seq, split_ws_from, is_digit_char, chars_vec, trim_chars,
    lower_chars, contains_chars, split_ws, eq_chars, lemma_blank_trim, is_blank,
};
use crate::classify::classify_text;
use crate::classify::classify_chars;
use crate::table_model::{
    TableData, TableRow, TableCell, CellFormatting, CellDataType, TableExtractor,
};
use crate::merge::{cell_same, rows_texts};

verus! {

/// An exact score: the fraction `num / den`, with `num <= den`.
pub struct Score {
    pub num: u128,
    pub den: u128,
}

/// A well-formed score has a positive denominator and lies in `[0, 1]`.
pub open spec fn score_wf(s: Score) -> bool {
    1 <= s.den && s.num <= s.den
}

/// Whether a formatting record carries any formatting at all.
pub open spec fn has_fmt(f: CellFormatting) -> bool {
    f.bold || f.italic || f.underline || f.background_color is Some || f.text_color is Some
        || f.font_size is Some || f.font_family is Some
}

/// Whether a cell carries any formatting.
pub open spec fn cell_has_fmt(c: TableCell) -> bool {
    match c.formatting {
        Some(f) => has_fmt(f),
        None => false,
    }
}

/// Whether a cell's text is bold.
pub open spec fn cell_bold(c: TableCell) -> bool {
    match c.formatting {
        Some(f) => f.bold,
        None => false,
    }
}

/// Formatting presence or boldness differs between the two cells.
pub open spec fn fmt_differs(a: TableCell, b: TableCell) -> bool {
    cell_has_fmt(a) != cell_has_fmt(b) || cell_bold(a) != cell_bold(b)
}

/// The data rows sampled by the formatting and length signals: the first
/// three rows after the first.
pub open spec fn data3(t: TableData) -> Seq<TableRow> {
    if t.rows@.len() <= 1 {
        Seq::empty()
    } else if t.rows@.len() >= 4 {
        t.rows@.subrange(1, 4)
    } else {
        t.rows@.subrange(1, t.rows@.len() as int)
    }
}

/// The data rows sampled by the consistency signal: the first five rows
/// after the first.
pub open spec fn data5(t: TableData) -> Seq<TableRow> {
    if t.rows@.len() <= 1 {
        Seq::empty()
    } else if t.rows@.len() >= 6 {
        t.rows@.subrange(1, 6)
    } else {
        t.rows@.subrange(1, t.rows@.len() as int)
    }
}

/// How many of the rows have a cell in column `i`.
pub open spec fn cmp_rows(data: Seq<TableRow>, i: int) -> int
    decreases data.len(),
{
    if data.len() == 0 {
        0
    } else {
        cmp_rows(data.drop_last(), i) + (if i < data.last().cells@.len() {
            1int
        } else {
            0int
        })
    }
}

/// In how many of the rows the cell in column `i` differs in formatting
/// from `c`.
pub open spec fn diff_rows(c: TableCell, data: Seq<TableRow>, i: int) -> int
    decreases data.len(),
{
    if data.len() == 0 {
        0
    } else {
        diff_rows(c, data.drop_last(), i) + (if i < data.last().cells@.len() && fmt_differs(
            c,
            data.last().cells@[i],
        ) {
            1int
        } else {
            0int
        })
    }
}

/// Total comparisons for the first `k` cells of the first row.
pub open spec fn fmt_den_upto(first: Seq<TableCell>, data: Seq<TableRow>, k: int) -> int
    decreases k,
{
    if k <= 0 {
        0
    } else {
        fmt_den_upto(first, data, k - 1) + cmp_rows(data, k - 1)
    }
}

/// Total differing comparisons for the first `k` cells of the first row.
pub open spec fn fmt_num_upto(first: Seq<TableCell>, data: Seq<TableRow>, k: int) -> int
    decreases k,
{
    if k <= 0 {
        0
    } else {
        fmt_num_upto(first, data, k - 1) + diff_rows(first[k - 1], data, k - 1)
    }
}

/// The formatting-difference score of the table, as a fraction.
pub open spec fn fmt_score_frac(t: TableData) -> (int, int) {
    if t.rows@.len() == 0 {
        (0, 1)
    } else {
        let first = t.rows@[0].cells@;
        let den = fmt_den_upto(first, data3(t), first.len() as int);
        if den == 0 {
            (0, 1)
        } else {
            (fmt_num_upto(first, data3(t), first.len() as int), den)
        }
    }
}

proof fn lemma_cmp_rows_bounds(c: TableCell, data: Seq<TableRow>, i: int)
    ensures
        0 <= diff_rows(c, data, i) <= cmp_rows(data, i) <= data.len(),
    decreases data.len(),
{
    if data.len() > 0 {
        lemma_cmp_rows_bounds(c, data.drop_last(), i);
    }
}

proof fn lemma_fmt_upto_bounds(first: Seq<TableCell>, data: Seq<TableRow>, k: int)
    requires
        0 <= k,
    ensures
        0 <= fmt_num_upto(first, data, k) <= fmt_den_upto(first, data, k) <= k * data.len(),
    decreases k,
{
    if k > 0 {
        lemma_fmt_upto_bounds(first, data, k - 1);
        lemma_cmp_rows_bounds(first[k - 1], data, k - 1);
        assert((k - 1) * data.len() + data.len() == k * data.len()) by (nonlinear_arith) {}
    } else {
        assert(k * data.len() == 0) by (nonlinear_arith)
            requires
                k == 0,
        {}
    }
}

impl TableExtractor {
    /// The formatting-difference signal: over the first three data rows, the
    /// fraction of column-wise comparisons where formatting presence or
    /// boldness differs from the first row's cell.
    pub fn check_formatting_difference(&self, table: &TableData) -> (s: Score)
        ensures
            score_wf(s),
            (s.num as int, s.den as int) == fmt_score_frac(*table),
            s.den <= 0x3C0000000000000000,
    {
        if table.rows.len() == 0 {
            return Score { num: 0, den: 1 };
        }
        let nrows = table.rows.len();
        let dend: usize = if nrows >= 4 {
            4
        } else {
            nrows
        };
        let ghost data = data3(*table);
        proof {
            assert(data.len() == dend - 1);
        }
        let first = &table.rows[0];
        let n1 = first.cells.len();
        let mut num: u128 = 0;
        let mut den: u128 = 0;
        let mut i: usize = 0;
        proof {
            lemma_fmt_upto_bounds(first.cells@, data, n1 as int);
        }
        while i < n1
            invariant
                table.rows@.len() > 0,
                first == table.rows@[0],
                n1 == first.cells@.len(),
                data == data3(*table),
                data.len() <= 3,
                dend <= table.rows@.len(),
                1 <= dend <= 4,
                data.len() == dend - 1,
                forall|q: int| 0 <= q < data.len() ==> data[q] == table.rows@[q + 1],
                i <= n1,
                num == fmt_num_upto(first.cells@, data, i as int),
                den == fmt_den_upto(first.cells@, data, i as int),
                num <= den <= (i as int) * 3,
            decreases n1 - i,
        {
            proof {
                lemma_fmt_upto_bounds(first.cells@, data, i as int);
                lemma_cmp_rows_bounds(first.cells@[i as int], data, i as int);
            }
            let mut r: usize = 1;
            let mut cnum: u128 = 0;
            let mut cden: u128 = 0;
            while r < dend
                invariant
                    table.rows@.len() > 0,
                    first == table.rows@[0],
                    i < n1,
                    n1 == first.cells@.len(),
                    data == data3(*table),
                    dend <= table.rows@.len(),
                    1 <= dend <= 4,
                    data.len() == dend - 1,
                    forall|q: int| 0 <= q < data.len() ==> data[q] == table.rows@[q + 1],
                    1 <= r <= dend,
                    cnum == diff_rows(first.cells@[i as int], data.subrange(0, r - 1), i as int),
                    cden == cmp_rows(data.subrange(0, r - 1), i as int),
                    cnum <= cden <= r - 1,
                decreases dend - r,
            {
                proof {
                    assert(data.subrange(0, r as int).drop_last() =~= data.subrange(0, r - 1));
                    assert(data.subrange(0, r as int).last() == table.rows@[r as int]);
                }
                let row = &table.rows[r];
                if i < row.cells.len() {
                    cden = cden + 1;
                    let a = &first.cells[i];
                    let b = &row.cells[i];
                    let a_has = match &a.formatting {
                        Some(f) => f.bold || f.italic || f.underline
                            || f.background_color.is_some() || f.text_color.is_some()
                            || f.font_size.is_some() || f.font_family.is_some(),
                        None => false,
                    };
                    let b_has = match &b.formatting {
                        Some(f) => f.bold || f.italic || f.underline
                            || f.background_color.is_some() || f.text_color.is_some()
                            || f.font_size.is_some() || f.font_family.is_some(),
                        None => false,
                    };
                    let a_bold = match &a.formatting {
                        Some(f) => f.bold,
                        None => false,
                    };
                    let b_bold = match &b.formatting {
                        Some(f) => f.bold,
                        None => false,
                    };
                    if a_has != b_has || a_bold != b_bold {
                        cnum = cnum + 1;
                    }
                }
                r = r + 1;
            }
            proof {
                assert(data.subrange(0, dend - 1) =~= data);
            }
            num = num + cnum;
            den = den + cden;
            i = i + 1;
        }
        if den == 0 {
            return Score { num: 0, den: 1 };
        }
        proof {
            assert(n1 <= 0xffffffffffffffff);
            lemma_mul_upper_bound(n1 as int, 0xffffffffffffffff, 3, 3);
        }
        Score { num, den }
    }
}

/// The lowered text contains one of the header keywords.
pub open spec fn kw_in(l: Seq<char>) -> bool {
    contains_seq(l, "name"@) || contains_seq(l, "id"@) || contains_seq(l, "title"@)
        || contains_seq(l, "date"@) || contains_seq(l, "time"@) || contains_seq(l, "type"@)
        || contains_seq(l, "status"@) || contains_seq(l, "amount"@) || contains_seq(l, "count"@)
        || contains_seq(l, "number"@) || contains_seq(l, "code"@) || contains_seq(
        l,
        "description"@,
    )
}

/// A run of more than three consecutive digits starts somewhere in `s`.
pub open spec fn has_digit_run4(s: Seq<char>) -> bool {
    exists|k: int|
        0 <= k && k + 4 <= s.len() && is_digit_char(s[k]) && is_digit_char(s[k + 1])
            && is_digit_char(s[k + 2]) && is_digit_char(#[trigger] s[k + 3])
}

/// Some word begins with an ASCII capital.
pub open spec fn cap_word_in(words: Seq<Seq<char>>) -> bool {
    exists|w: int|
        0 <= w < words.len() && words[w].len() > 0 && 'A' <= words[w][0] && words[w][0] <= 'Z'
}

/// A first-row cell looks like a header: it mentions a header keyword, or it
/// is short without any run of more than three digits, or it contains a
/// capitalized word.
pub open spec fn header_like(c: TableCell) -> bool {
    let tr = trim_seq(c.content@);
    let l = lower_seq(tr);
    kw_in(l) || (2 < l.len() && l.len() < 30 && !has_digit_run4(l)) || cap_word_in(
        split_ws_from(tr, 0),
    )
}

/// Count of header-like cells among the first `k`.
pub open spec fn like_upto(cells: Seq<TableCell>, k: int) -> int
    decreases k,
{
    if k <= 0 {
        0
    } else {
        like_upto(cells, k - 1) + (if header_like(cells[k - 1]) {
            1int
        } else {
            0int
        })
    }
}

/// The content-pattern score of the first row, as a fraction.
pub open spec fn content_score_frac(r: TableRow) -> (int, int) {
    if r.cells@.len() == 0 {
        (0, 1)
    } else {
        (like_upto(r.cells@, r.cells@.len() as int), r.cells@.len() as int)
    }
}

proof fn lemma_like_upto_bounds(cells: Seq<TableCell>, k: int)
    requires
        0 <= k,
    ensures
        0 <= like_upto(cells, k) <= k,
    decreases k,
{
    if k > 0 {
        lemma_like_upto_bounds(cells, k - 1);
    }
}

/// Whether this cell's text looks like a header entry.
fn is_header_like(c: &TableCell) -> (r: bool)
    ensures
        r == header_like(*c),
{
    let raw = chars_vec(c.content.as_str());
    let tr = trim_chars(&raw);
    let l = lower_chars(&tr);
    let kws: [&str; 12] = [
        "name", "id", "title", "date", "time", "type", "status", "amount", "count", "number",
        "code", "description",
    ];
    let mut k: usize = 0;
    let mut found = false;
    while k < 12
        invariant
            l@ == lower_seq(trim_seq(c.content@)),
            kws@.len() == 12,
            kws@ == seq![
                "name", "id", "title", "date", "time", "type", "status", "amount", "count",
                "number", "code", "description",
            ],
            k <= 12,
            found ==> kw_in(l@),
            !found ==> forall|j: int| 0 <= j < k ==> !contains_seq(l@, (#[trigger] kws@[j])@),
        decreases 12 - k,
    {
        let t = chars_vec(kws[k]);
        if contains_chars(&l, &t) {
            proof {
                assert(contains_seq(l@, kws@[k as int]@));
            }
            found = true;
        }
        k = k + 1;
    }
    proof {
        if !found {
            assert(!kw_in(l@)) by {
                assert(kws@[0]@ == "name"@ && kws@[1]@ == "id"@ && kws@[2]@ == "title"@ && kws@[3]@
                    == "date"@ && kws@[4]@ == "time"@ && kws@[5]@ == "type"@ && kws@[6]@
                    == "status"@ && kws@[7]@ == "amount"@ && kws@[8]@ == "count"@ && kws@[9]@
                    == "number"@ && kws@[10]@ == "code"@ && kws@[11]@ == "description"@);
            }
        }
    }
    if found {
        return true;
    }
    let n = l.len();
    if n > 2 && n < 30 {
        let mut run_found = false;
        let mut k: usize = 0;
        while k < n
            invariant
                n == l@.len(),
                k <= n,
                run_found == exists|j: int|
                    0 <= j && j + 4 <= n && j < k && is_digit_char(l@[j]) && is_digit_char(
                        l@[j + 1],
                    ) && is_digit_char(l@[j + 2]) && is_digit_char(#[trigger] l@[j + 3]),
            decreases n - k,
        {
            if n - k >= 4 && '0' <= l[k] && l[k] <= '9' && '0' <= l[k + 1] && l[k + 1] <= '9'
                && '0' <= l[k + 2] && l[k + 2] <= '9' && '0' <= l[k + 3] && l[k + 3] <= '9' {
                run_found = true;
            }
            k = k + 1;
        }
        proof {
            assert(run_found == has_digit_run4(l@)) by {
                if has_digit_run4(l@) {
                    let j = choose|j: int|
                        0 <= j && j + 4 <= l@.len() && is_digit_char(l@[j]) && is_digit_char(
                            l@[j + 1],
                        ) && is_digit_char(l@[j + 2]) && is_digit_char(#[trigger] l@[j + 3]);
                    assert(j < n);
                }
            }
        }
        if !run_found {
            return true;
        }
    }
    let words = split_ws(&tr);
    let mut w: usize = 0;
    while w < words.len()
        invariant
            tr@ == trim_seq(c.content@),
            words@.map_values(|x: Vec<char>| x@) == split_ws_from(tr@, 0),
            w <= words@.len(),
            forall|j: int|
                0 <= j < w ==> !((#[trigger] split_ws_from(tr@, 0)[j]).len() > 0 && 'A'
                    <= split_ws_from(tr@, 0)[j][0] && split_ws_from(tr@, 0)[j][0] <= 'Z'),
        decreases words@.len() - w,
    {
        let word = &words[w];
        proof {
            let ghost mapped = words@.map_values(|x: Vec<char>| x@);
            assert(split_ws_from(tr@, 0)[w as int] == mapped[w as int]);
        }
        if word.len() > 0 && 'A' <= word[0] && word[0] <= 'Z' {
            proof {
                assert(cap_word_in(split_ws_from(tr@, 0)));
            }
            return true;
        }
        w = w + 1;
    }
    proof {
        assert(!cap_word_in(split_ws_from(tr@, 0)));
    }
    false
}

impl TableExtractor {
    /// The content-pattern signal: the fraction of first-row cells whose text
    /// looks like a header entry.
    pub fn check_header_content_pattern(&self, first_row: &TableRow) -> (s: Score)
        ensures
            score_wf(s),
            (s.num as int, s.den as int) == content_score_frac(*first_row),
            s.den <= 0xffffffffffffffff,
    {
        let n = first_row.cells.len();
        if n == 0 {
            return Score { num: 0, den: 1 };
        }
        let mut cnt: u128 = 0;
        let mut i: usize = 0;
        while i < n
            invariant
                n == first_row.cells@.len(),
                i <= n,
                cnt == like_upto(first_row.cells@, i as int),
                cnt <= i,
            decreases n - i,
        {
            if is_header_like(&first_row.cells[i]) {
                cnt = cnt + 1;
            }
            i = i + 1;
        }
        Score { num: cnt, den: n as u128 }
    }
}

/// The classified types found in column `col` of the sampled rows.
pub open spec fn col_types(data: Seq<TableRow>, col: int) -> Seq<CellDataType>
    decreases data.len(),
{
    if data.len() == 0 {
        Seq::empty()
    } else {
        col_types(data.drop_last(), col) + (if col < data.last().cells@.len() {
            seq![classify_text(data.last().cells@[col].content@)]
        } else {
            Seq::empty()
        })
    }
}

/// How many entries of `ts` equal `ty`.
pub open spec fn ty_cnt(ts: Seq<CellDataType>, ty: CellDataType) -> int
    decreases ts.len(),
{
    if ts.len() == 0 {
        0
    } else {
        ty_cnt(ts.drop_last(), ty) + (if ts.last() == ty {
            1int
        } else {
            0int
        })
    }
}

/// The count of the most common type in `ts`.
pub open spec fn maj_cnt(ts: Seq<CellDataType>) -> int {
    let a = ty_cnt(ts, CellDataType::Empty);
    let b = ty_cnt(ts, CellDataType::Number);
    let c = ty_cnt(ts, CellDataType::Text);
    let d = ty_cnt(ts, CellDataType::Date);
    let e = ty_cnt(ts, CellDataType::Boolean);
    let m1 = if a > b { a } else { b };
    let m2 = if m1 > c { m1 } else { c };
    let m3 = if m2 > d { m2 } else { d };
    if m3 > e { m3 } else { e }
}

/// Sum over the first `k` columns of `60 / n` times the majority count,
/// where `n` is the number of sampled cells in the column.
pub open spec fn cons_num_upto(data: Seq<TableRow>, k: int) -> int
    decreases k,
{
    if k <= 0 {
        0
    } else {
        cons_num_upto(data, k - 1) + (if col_types(data, k - 1).len() > 0 {
            (60int / col_types(data, k - 1).len() as int) * maj_cnt(col_types(data, k - 1))
        } else {
            0int
        })
    }
}

/// How many of the first `k` columns have at least one sampled cell.
pub open spec fn cons_cols_upto(data: Seq<TableRow>, k: int) -> int
    decreases k,
{
    if k <= 0 {
        0
    } else {
        cons_cols_upto(data, k - 1) + (if col_types(data, k - 1).len() > 0 {
            1int
        } else {
            0int
        })
    }
}

/// The widest data row's cell count.
pub open spec fn max_data_cols(t: TableData) -> int {
    if t.rows@.len() <= 1 {
        0
    } else {
        crate::table_model::grid_max_cols(t.rows@.skip(1)) as int
    }
}

/// The data-type-consistency score of the table, as a fraction with
/// denominator `60 *` the number of populated columns.
pub open spec fn cons_score_frac(t: TableData) -> (int, int) {
    let data = data5(t);
    let mc = max_data_cols(t);
    if cons_cols_upto(data, mc) == 0 {
        (0, 1)
    } else {
        (cons_num_upto(data, mc), 60 * cons_cols_upto(data, mc))
    }
}

proof fn lemma_ty_cnt_bound(ts: Seq<CellDataType>, ty: CellDataType)
    ensures
        0 <= ty_cnt(ts, ty) <= ts.len(),
    decreases ts.len(),
{
    if ts.len() > 0 {
        lemma_ty_cnt_bound(ts.drop_last(), ty);
    }
}

proof fn lemma_cons_upto_bounds(data: Seq<TableRow>, k: int)
    requires
        0 <= k,
        data.len() <= 5,
    ensures
        0 <= cons_cols_upto(data, k) <= k,
        0 <= cons_num_upto(data, k) <= 60 * cons_cols_upto(data, k),
    decreases k,
{
    if k > 0 {
        lemma_cons_upto_bounds(data, k - 1);
        let ts = col_types(data, k - 1);
        lemma_col_types_len(data, k - 1);
        if ts.len() > 0 {
            lemma_ty_cnt_bound(ts, CellDataType::Empty);
            lemma_ty_cnt_bound(ts, CellDataType::Number);
            lemma_ty_cnt_bound(ts, CellDataType::Text);
            lemma_ty_cnt_bound(ts, CellDataType::Date);
            lemma_ty_cnt_bound(ts, CellDataType::Boolean);
            assert((60int / ts.len() as int) * maj_cnt(ts) <= 60) by (nonlinear_arith)
                requires
                    1 <= ts.len() <= 5,
                    0 <= maj_cnt(ts) <= ts.len(),
            {}
            assert((60int / ts.len() as int) * maj_cnt(ts) >= 0) by (nonlinear_arith)
                requires
                    1 <= ts.len() <= 5,
                    0 <= maj_cnt(ts),
            {}
        }
    }
}

proof fn lemma_col_types_len(data: Seq<TableRow>, col: int)
    ensures
        0 <= col_types(data, col).len() <= data.len(),
    decreases data.len(),
{
    if data.len() > 0 {
        lemma_col_types_len(data.drop_last(), col);
    }
}

impl TableExtractor {
    /// The data-type-consistency signal: per column, the fraction of sampled
    /// cells sharing the column's most common type, averaged over the
    /// populated columns.
    pub fn check_data_type_consistency(&self, table: &TableData) -> (s: Score)
        ensures
            score_wf(s),
            (s.num as int, s.den as int) == cons_score_frac(*table),
            s.den <= 0x3C0000000000000000,
    {
        let nrows = table.rows.len();
        let dend: usize = if nrows <= 1 {
            1
        } else if nrows >= 6 {
            6
        } else {
            nrows
        };
        let ghost data = data5(*table);
        proof {
            if nrows <= 1 {
                assert(data =~= Seq::<TableRow>::empty());
            }
            assert(data.len() == dend - 1);
        }
        // Largest cell count over all data rows.
        let mut mcols: usize = 0;
        if nrows > 1 {
            let mut r: usize = 1;
            proof {
                assert(table.rows@.skip(1).subrange(0, 0) =~= Seq::<TableRow>::empty());
            }
            while r < nrows
                invariant
                    nrows == table.rows@.len(),
                    nrows > 1,
                    1 <= r <= nrows,
                    mcols == crate::table_model::grid_max_cols(
                        table.rows@.skip(1).subrange(0, r - 1),
                    ),
                decreases nrows - r,
            {
                proof {
                    assert(table.rows@.skip(1).subrange(0, r as int).drop_last()
                        =~= table.rows@.skip(1).subrange(0, r - 1));
                    assert(table.rows@.skip(1).subrange(0, r as int).last()
                        == table.rows@[r as int]);
                }
                if table.rows[r].cells.len() > mcols {
                    mcols = table.rows[r].cells.len();
                }
                r = r + 1;
            }
            proof {
                assert(table.rows@.skip(1).subrange(0, nrows - 1) =~= table.rows@.skip(1));
            }
        }
        proof {
            assert(mcols as int == max_data_cols(*table));
            lemma_cons_upto_bounds(data, mcols as int);
        }
        let mut num: u128 = 0;
        let mut cols: u128 = 0;
        let mut col: usize = 0;
        while col < mcols
            invariant
                nrows == table.rows@.len(),
                data == data5(*table),
                data.len() <= 5,
                1 <= dend <= 6,
                dend <= nrows || (nrows <= 1 && dend == 1),
                data.len() == dend - 1,
                forall|q: int| 0 <= q < data.len() ==> data[q] == table.rows@[q + 1],
                col <= mcols,
                num == cons_num_upto(data, col as int),
                cols == cons_cols_upto(data, col as int),
                cols <= col,
                num <= 60 * cols,
            decreases mcols - col,
        {
            proof {
                lemma_cons_upto_bounds(data, col as int);
            }
            let mut ts: Vec<CellDataType> = Vec::new();
            let mut r2: usize = 1;
            proof {
                assert(ts@ =~= col_types(data.subrange(0, 0), col as int));
            }
            while r2 < dend
                invariant
                    nrows == table.rows@.len(),
                    data == data5(*table),
                    1 <= dend <= 6,
                    dend <= nrows || (nrows <= 1 && dend == 1),
                    data.len() == dend - 1,
                    forall|q: int| 0 <= q < data.len() ==> data[q] == table.rows@[q + 1],
                    1 <= r2 <= dend,
                    ts@ == col_types(data.subrange(0, r2 - 1), col as int),
                decreases dend - r2,
            {
                proof {
                    assert(data.subrange(0, r2 as int).drop_last() =~= data.subrange(0, r2 - 1));
                    assert(data.subrange(0, r2 as int).last() == table.rows@[r2 as int]);
                }
                let row = &table.rows[r2];
                if col < row.cells.len() {
                    let cv = chars_vec(row.cells[col].content.as_str());
                    ts.push(classify_chars(&cv));
                    proof {
                        assert(ts@ =~= col_types(data.subrange(0, r2 as int), col as int));
                    }
                } else {
                    proof {
                        assert(ts@ =~= col_types(data.subrange(0, r2 as int), col as int));
                    }
                }
                r2 = r2 + 1;
            }
            proof {
                assert(data.subrange(0, dend - 1) =~= data);
            }
            let tlen = ts.len();
            if tlen > 0 {
                let mut ca: usize = 0;
                let mut cb: usize = 0;
                let mut cc: usize = 0;
                let mut cd: usize = 0;
                let mut ce: usize = 0;
                let mut q: usize = 0;
                while q < tlen
                    invariant
                        tlen == ts@.len(),
                        q <= tlen,
                        ca == ty_cnt(ts@.subrange(0, q as int), CellDataType::Empty),
                        cb == ty_cnt(ts@.subrange(0, q as int), CellDataType::Number),
                        cc == ty_cnt(ts@.subrange(0, q as int), CellDataType::Text),
                        cd == ty_cnt(ts@.subrange(0, q as int), CellDataType::Date),
                        ce == ty_cnt(ts@.subrange(0, q as int), CellDataType::Boolean),
                        ca <= q && cb <= q && cc <= q && cd <= q && ce <= q,
                    decreases tlen - q,
                {
                    proof {
                        assert(ts@.subrange(0, q + 1).drop_last() =~= ts@.subrange(0, q as int));
                        assert(ts@.subrange(0, q + 1).last() == ts@[q as int]);
                    }
                    match ts[q] {
                        CellDataType::Empty => { ca = ca + 1; },
                        CellDataType::Number => { cb = cb + 1; },
                        CellDataType::Text => { cc = cc + 1; },
                        CellDataType::Date => { cd = cd + 1; },
                        CellDataType::Boolean => { ce = ce + 1; },
                    }
                    q = q + 1;
                }
                proof {
                    assert(ts@.subrange(0, tlen as int) =~= ts@);
                }
                let m1 = if ca > cb { ca } else { cb };
                let m2 = if m1 > cc { m1 } else { cc };
                let m3 = if m2 > cd { m2 } else { cd };
                let mj = if m3 > ce { m3 } else { ce };
                proof {
                    lemma_col_types_len(data, col as int);
                    lemma_ty_cnt_bound(ts@, CellDataType::Empty);
                    lemma_ty_cnt_bound(ts@, CellDataType::Number);
                    lemma_ty_cnt_bound(ts@, CellDataType::Text);
                    lemma_ty_cnt_bound(ts@, CellDataType::Date);
                    lemma_ty_cnt_bound(ts@, CellDataType::Boolean);
                    assert((60int / tlen as int) * (mj as int) <= 60) by (nonlinear_arith)
                        requires
                            1 <= tlen <= 5,
                            0 <= mj <= tlen,
                    {}
                    assert((60int / tlen as int) * (mj as int) >= 0) by (nonlinear_arith)
                        requires
                            1 <= tlen <= 5,
                            0 <= mj,
                    {}
                }
                let share = (60 / tlen) * mj;
                num = num + share as u128;
                cols = cols + 1;
            }
            col = col + 1;
        }
        if cols == 0 {
            return Score { num: 0, den: 1 };
        }
        proof {
            assert(cols <= 0xffffffffffffffff);
        }
        Score { num, den: 60 * cols }
    }
}

/// Sum of the content lengths of the first `k` cells.
pub open spec fn len_sum_upto(cells: Seq<TableCell>, k: int) -> int
    decreases k,
{
    if k <= 0 {
        0
    } else {
        len_sum_upto(cells, k - 1) + cells[k - 1].content@.len()
    }
}

/// The whole row's content length.
pub open spec fn row_len_sum(cells: Seq<TableCell>) -> int {
    len_sum_upto(cells, cells.len() as int)
}

/// The rows of a sample that have at least one cell, in order.
pub open spec fn with_cells(rows: Seq<TableRow>) -> Seq<TableRow>
    decreases rows.len(),
{
    if rows.len() == 0 {
        Seq::empty()
    } else {
        with_cells(rows.drop_last()) + (if rows.last().cells@.len() > 0 {
            seq![rows.last()]
        } else {
            Seq::empty()
        })
    }
}

/// The sampled data rows that have at least one cell.
pub open spec fn lrows3(t: TableData) -> Seq<TableRow> {
    with_cells(data3(t))
}

/// Dropping cell-less rows never lengthens the sample.
proof fn lemma_with_cells_len(rows: Seq<TableRow>)
    ensures
        with_cells(rows).len() <= rows.len(),
    decreases rows.len(),
{
    if rows.len() > 0 {
        lemma_with_cells_len(rows.drop_last());
    }
}

/// The cleared-denominator form of "the average data-row cell length exceeds
/// the first row's average by at least a fifth", over up to three sampled
/// rows `rs` with first-row sum `s0` over `n0` cells.
pub open spec fn avg_gt(rs: Seq<TableRow>, s0: int, n0: int) -> bool {
    if rs.len() == 1 {
        let sa = row_len_sum(rs[0].cells@);
        let na = rs[0].cells@.len() as int;
        ((sa * n0) * 5) > ((s0 * na) * 6)
    } else if rs.len() == 2 {
        let sa = row_len_sum(rs[0].cells@);
        let na = rs[0].cells@.len() as int;
        let sb = row_len_sum(rs[1].cells@);
        let nb = rs[1].cells@.len() as int;
        ((((sa * nb) + (sb * na)) * n0) * 5) > ((((s0 * na) * nb)) * 12)
    } else if rs.len() == 3 {
        let sa = row_len_sum(rs[0].cells@);
        let na = rs[0].cells@.len() as int;
        let sb = row_len_sum(rs[1].cells@);
        let nb = rs[1].cells@.len() as int;
        let sc = row_len_sum(rs[2].cells@);
        let nc = rs[2].cells@.len() as int;
        ((((((sa * nb) * nc) + ((sb * na) * nc)) + ((sc * na) * nb)) * n0) * 5) > (((((s0 * na)
            * nb) * nc) * 18)
        )
    } else {
        false
    }
}

/// The text-length score's numerator over the fixed denominator 5:
/// 4 when the first row is short and the data rows run longer, 2 when the
/// first row is short on its own, 0 otherwise.
pub open spec fn length_num(t: TableData) -> int {
    if t.rows@.len() <= 1 {
        0
    } else {
        let first = t.rows@[0].cells@;
        let n0 = first.len() as int;
        let s0 = row_len_sum(first);
        let rs = lrows3(t);
        if rs.len() > 0 && n0 > 0 && s0 > 0 && s0 < 50 * n0 && avg_gt(rs, s0, n0) {
            4
        } else if n0 > 0 && s0 > 0 && s0 < 30 * n0 {
            2
        } else {
            0
        }
    }
}

/// The row's total content length in characters.
fn row_sum_exec(row: &TableRow) -> (s: u128)
    ensures
        s == row_len_sum(row.cells@),
        s <= 0xffffffffffffffffffffffffffffffff,
{
    let n = row.cells.len();
    let mut s: u128 = 0;
    let mut i: usize = 0;
    while i < n
        invariant
            n == row.cells@.len(),
            i <= n,
            s == len_sum_upto(row.cells@, i as int),
            s <= (i as int) * 0xffffffffffffffff,
        decreases n - i,
    {
        let l = row.cells[i].content_length();
        proof {
            assert(l <= 0xffffffffffffffff);
            assert((i as int) * 0xffffffffffffffff + 0xffffffffffffffff == (i + 1)
                * 0xffffffffffffffff) by (nonlinear_arith) {}
            assert((i + 1) * 0xffffffffffffffff <= 0xffffffffffffffff * 0xffffffffffffffff)
                by (nonlinear_arith)
                requires
                    0 <= i + 1 <= 0xffffffffffffffff,
            {}
        }
        s = s + l as u128;
        i = i + 1;
    }
    s
}

impl TableExtractor {
    /// The text-length signal: 0.8 when the first row's average cell length
    /// is under 50 and the data rows run at least a fifth longer, 0.4 when
    /// the first row's average is under 30, 0 otherwise; as a fraction over
    /// 5.
    pub fn check_text_length_pattern(&self, table: &TableData) -> (s: Score)
        ensures
            score_wf(s),
            s.num == length_num(*table),
            s.den == 5,
    {
        let nrows = table.rows.len();
        if nrows <= 1 {
            return Score { num: 0, den: 5 };
        }
        let dend: usize = if nrows >= 4 {
            4
        } else {
            nrows
        };
        let ghost data = data3(*table);
        proof {
            assert(data.len() == dend - 1);
        }
        let first = &table.rows[0];
        let n0 = first.cells.len();
        let s0 = row_sum_exec(first);
        // Collect the sums and cell counts of the sampled rows with cells.
        let mut sums: Vec<u128> = Vec::new();
        let mut lens: Vec<u128> = Vec::new();
        let mut r: usize = 1;
        proof {
            assert(data.subrange(0, 0) =~= Seq::<TableRow>::empty());
            assert(with_cells(data.subrange(0, 0)) =~= Seq::<TableRow>::empty());
        }
        while r < dend
            invariant
                nrows == table.rows@.len(),
                nrows > 1,
                data == data3(*table),
                1 <= dend <= 4,
                dend <= nrows,
                data.len() == dend - 1,
                forall|q: int| 0 <= q < data.len() ==> data[q] == table.rows@[q + 1],
                1 <= r <= dend,
                sums@.len() == lens@.len(),
                sums@.len() == with_cells(data.subrange(0, r - 1)).len(),
                forall|q: int| 0 <= q < sums@.len() ==> sums@[q] == row_len_sum(
                    (#[trigger] with_cells(data.subrange(0, r - 1))[q]).cells@,
                ),
                forall|q: int| 0 <= q < lens@.len() ==> lens@[q] == (
                #[trigger] with_cells(data.subrange(0, r - 1))[q]).cells@.len(),
                forall|q: int| 0 <= q < lens@.len() ==> (#[trigger] lens@[q])
                    <= 0xffffffffffffffff,
            decreases dend - r,
        {
            proof {
                assert(data.subrange(0, r as int).drop_last() =~= data.subrange(0, r - 1));
                assert(data.subrange(0, r as int).last() == table.rows@[r as int]);
            }
            let row = &table.rows[r];
            if row.cells.len() > 0 {
                let rsum = row_sum_exec(row);
                sums.push(rsum);
                lens.push(row.cells.len() as u128);
                proof {
                    assert(with_cells(data.subrange(0, r as int)) =~= with_cells(
                        data.subrange(0, r - 1),
                    ).push(table.rows@[r as int]));
                }
            } else {
                proof {
                    assert(with_cells(data.subrange(0, r as int)) =~= with_cells(
                        data.subrange(0, r - 1),
                    ));
                }
            }
            r = r + 1;
        }
        proof {
            assert(data.subrange(0, dend - 1) =~= data);
        }
        let ghost rs = lrows3(*table);
        let k = sums.len();
        proof {
            assert(rs == with_cells(data));
            assert(k == rs.len());
            assert(rs.len() <= data.len()) by {
                lemma_with_cells_len(data);
            }
        }
        // The first 0.8 branch.
        if k > 0 && n0 > 0 && s0 > 0 && s0 < 50 * (n0 as u128) {
            let n0w = n0 as u128;
            let exceeded: bool;
            if k == 1 {
                proof {
                    assert(n0w <= 0xffffffffffffffff);
                    assert(lens@[0] <= 0xffffffffffffffff);
                    lemma_term_bounds2(sums@[0] as int, n0w as int);
                    lemma_term_bounds2(s0 as int, lens@[0] as int);
                }
                let lhs = Wide::from_u128(sums[0]).mul128(n0w).mul64(5);
                let rhs = Wide::from_u128(s0).mul128(lens[0]).mul64(6);
                exceeded = lhs.gt(&rhs);
            } else if k == 2 {
                proof {
                    assert(n0w <= 0xffffffffffffffff);
                    assert(lens@[0] <= 0xffffffffffffffff && lens@[1] <= 0xffffffffffffffff);
                    lemma_term_bounds1(sums@[0] as int, lens@[1] as int);
                    lemma_term_bounds1(sums@[1] as int, lens@[0] as int);
                    lemma_pair_bounds(
                        sums@[0] as int,
                        lens@[1] as int,
                        sums@[1] as int,
                        lens@[0] as int,
                        n0w as int,
                    );
                    lemma_term_bounds3(s0 as int, lens@[0] as int, lens@[1] as int);
                }
                let a = Wide::from_u128(sums[0]).mul128(lens[1]);
                let b = Wide::from_u128(sums[1]).mul128(lens[0]);
                let lhs = a.add(&b).mul128(n0w).mul64(5);
                let rhs = Wide::from_u128(s0).mul128(lens[0]).mul128(lens[1]).mul64(12);
                exceeded = lhs.gt(&rhs);
            } else {
                proof {
                    assert(n0w <= 0xffffffffffffffff);
                    assert(lens@[0] <= 0xffffffffffffffff && lens@[1] <= 0xffffffffffffffff
                        && lens@[2] <= 0xffffffffffffffff);
                    lemma_term_bounds3(sums@[0] as int, lens@[1] as int, lens@[2] as int);
                    lemma_term_bounds3(sums@[1] as int, lens@[0] as int, lens@[2] as int);
                    lemma_term_bounds3(sums@[2] as int, lens@[0] as int, lens@[1] as int);
                    lemma_triple_bounds(
                        sums@[0] as int,
                        lens@[1] as int,
                        sums@[1] as int,
                        lens@[0] as int,
                        sums@[2] as int,
                        lens@[2] as int,
                        n0w as int,
                    );
                    lemma_term_bounds4(s0 as int, lens@[0] as int, lens@[1] as int,
                        lens@[2] as int);
                }
                let a = Wide::from_u128(sums[0]).mul128(lens[1]).mul128(lens[2]);
                let b = Wide::from_u128(sums[1]).mul128(lens[0]).mul128(lens[2]);
                let c = Wide::from_u128(sums[2]).mul128(lens[0]).mul128(lens[1]);
                let lhs = a.add(&b).add(&c).mul128(n0w).mul64(5);
                let rhs = Wide::from_u128(s0).mul128(lens[0]).mul128(lens[1]).mul128(
                    lens[2],
                ).mul64(18);
                exceeded = lhs.gt(&rhs);
            }
            if exceeded {
                proof {
                    assert(avg_gt(rs, s0 as int, n0 as int));
                }
                return Score { num: 4, den: 5 };
            }
            proof {
                assert(!avg_gt(rs, s0 as int, n0 as int));
            }
        }
        if n0 > 0 && s0 > 0 && s0 < 30 * (n0 as u128) {
            return Score { num: 2, den: 5 };
        }
        Score { num: 0, den: 5 }
    }
}

/// Bound lemmas for the cleared-denominator products: each names the exact
/// largest factors that can appear and shows the running product stays under
/// the 384-bit cap.
proof fn lemma_term_bounds1(x: int, n: int)
    requires
        0 <= x <= 0xffffffffffffffffffffffffffffffff,
        0 <= n <= 0xffffffffffffffff,
    ensures
        x * n < wide_cap(),
        0 <= x * n,
{
    assert(0xffffffffffffffffffffffffffffffff * 0xffffffffffffffff < wide_cap());
    lemma_mul_upper_bound(x, 0xffffffffffffffffffffffffffffffff, n, 0xffffffffffffffff);
    lemma_mul_nonnegative(x, n);
}

proof fn lemma_term_bounds2(x: int, n: int)
    requires
        0 <= x <= 0xffffffffffffffffffffffffffffffff,
        0 <= n <= 0xffffffffffffffff,
    ensures
        x * n < wide_cap(),
        (x * n) * 5 < wide_cap(),
        (x * n) * 6 < wide_cap(),
        0 <= x * n,
{
    lemma_mul_upper_bound(x, 0xffffffffffffffffffffffffffffffff, n, 0xffffffffffffffff);
    lemma_mul_nonnegative(x, n);
    let bxn: int = (0xffffffffffffffffffffffffffffffff as int) * (0xffffffffffffffff as int);
    lemma_mul_upper_bound(x * n, bxn, 6, 6);
    lemma_mul_nonnegative(x * n, 5);
    lemma_mul_nonnegative(x * n, 6);
    lemma_mul_inequality(5, 6, x * n);
    lemma_mul_is_commutative(5, x * n);
    lemma_mul_is_commutative(6, x * n);
}

proof fn lemma_term_bounds3(x: int, n: int, n2: int)
    requires
        0 <= x <= 0xffffffffffffffffffffffffffffffff,
        0 <= n <= 0xffffffffffffffff,
        0 <= n2 <= 0xffffffffffffffff,
    ensures
        x * n < wide_cap(),
        (x * n) * n2 < wide_cap(),
        ((x * n) * n2) * 5 < wide_cap(),
        ((x * n) * n2) * 12 < wide_cap(),
        0 <= (x * n) * n2,
{
    lemma_mul_upper_bound(x, 0xffffffffffffffffffffffffffffffff, n, 0xffffffffffffffff);
    lemma_mul_nonnegative(x, n);
    let bxn: int = (0xffffffffffffffffffffffffffffffff as int) * (0xffffffffffffffff as int);
    lemma_mul_upper_bound(x * n, bxn, n2, 0xffffffffffffffff);
    lemma_mul_nonnegative(x * n, n2);
    let p = (x * n) * n2;
    let bp: int = ((0xffffffffffffffffffffffffffffffff as int) * (0xffffffffffffffff as int)) * (
        0xffffffffffffffff as int);
    lemma_mul_upper_bound(p, bp, 12, 12);
    lemma_mul_nonnegative(p, 5);
    lemma_mul_nonnegative(p, 12);
    lemma_mul_inequality(5, 12, p);
    lemma_mul_is_commutative(5, p);
    lemma_mul_is_commutative(12, p);
}

proof fn lemma_term_bounds4(x: int, n: int, n2: int, n3: int)
    requires
        0 <= x <= 0xffffffffffffffffffffffffffffffff,
        0 <= n <= 0xffffffffffffffff,
        0 <= n2 <= 0xffffffffffffffff,
        0 <= n3 <= 0xffffffffffffffff,
    ensures
        x * n < wide_cap(),
        (x * n) * n2 < wide_cap(),
        ((x * n) * n2) * n3 < wide_cap(),
        (((x * n) * n2) * n3) * 18 < wide_cap(),
        0 <= ((x * n) * n2) * n3,
{
    lemma_term_bounds3(x, n, n2);
    let bxn: int = (0xffffffffffffffffffffffffffffffff as int) * (0xffffffffffffffff as int);
    lemma_mul_upper_bound(x, 0xffffffffffffffffffffffffffffffff, n, 0xffffffffffffffff);
    lemma_mul_upper_bound(x * n, bxn, n2, 0xffffffffffffffff);
    let p = (x * n) * n2;
    let bp: int = bxn * (0xffffffffffffffff as int);
    lemma_mul_upper_bound(p, bp, n3, 0xffffffffffffffff);
    lemma_mul_nonnegative(p, n3);
    let q = p * n3;
    let bq: int = bp * (0xffffffffffffffff as int);
    lemma_mul_upper_bound(q, bq, 18, 18);
    lemma_mul_nonnegative(q, 18);
}

/// Two cleared products and their sum stay under the cap after the final
/// two factors.
proof fn lemma_pair_bounds(sa: int, nb: int, sb: int, na: int, n0: int)
    requires
        0 <= sa <= 0xffffffffffffffffffffffffffffffff,
        0 <= sb <= 0xffffffffffffffffffffffffffffffff,
        0 <= na <= 0xffffffffffffffff,
        0 <= nb <= 0xffffffffffffffff,
        0 <= n0 <= 0xffffffffffffffff,
    ensures
        (sa * nb) + (sb * na) < wide_cap(),
        ((sa * nb) + (sb * na)) * n0 < wide_cap(),
        (((sa * nb) + (sb * na)) * n0) * 5 < wide_cap(),
        0 <= ((sa * nb) + (sb * na)) * n0,
{
    let bxn: int = (0xffffffffffffffffffffffffffffffff as int) * (0xffffffffffffffff as int);
    lemma_mul_upper_bound(sa, 0xffffffffffffffffffffffffffffffff, nb, 0xffffffffffffffff);
    lemma_mul_upper_bound(sb, 0xffffffffffffffffffffffffffffffff, na, 0xffffffffffffffff);
    lemma_mul_nonnegative(sa, nb);
    lemma_mul_nonnegative(sb, na);
    let su = (sa * nb) + (sb * na);
    lemma_mul_upper_bound(su, 2 * bxn, n0, 0xffffffffffffffff);
    lemma_mul_nonnegative(su, n0);
    let bsu: int = (2 * bxn) * (0xffffffffffffffff as int);
    lemma_mul_upper_bound(su * n0, bsu, 5, 5);
    lemma_mul_nonnegative(su * n0, 5);
    lemma_mul_inequality(1, 5, su * n0);
    lemma_mul_is_commutative(1, su * n0);
    lemma_mul_is_commutative(5, su * n0);
}

/// Three cleared products and their sum stay under the cap after the final
/// two factors.
proof fn lemma_triple_bounds(sa: int, nb: int, sb: int, na: int, sc: int, nc: int, n0: int)
    requires
        0 <= sa <= 0xffffffffffffffffffffffffffffffff,
        0 <= sb <= 0xffffffffffffffffffffffffffffffff,
        0 <= sc <= 0xffffffffffffffffffffffffffffffff,
        0 <= na <= 0xffffffffffffffff,
        0 <= nb <= 0xffffffffffffffff,
        0 <= nc <= 0xffffffffffffffff,
        0 <= n0 <= 0xffffffffffffffff,
    ensures
        ((sa * nb) * nc) + ((sb * na) * nc) < wide_cap(),
        (((sa * nb) * nc) + ((sb * na) * nc)) + ((sc * na) * nb) < wide_cap(),
        ((((sa * nb) * nc) + ((sb * na) * nc)) + ((sc * na) * nb)) * n0 < wide_cap(),
        (((((sa * nb) * nc) + ((sb * na) * nc)) + ((sc * na) * nb)) * n0) * 5 < wide_cap(),
        0 <= ((((sa * nb) * nc) + ((sb * na) * nc)) + ((sc * na) * nb)) * n0,
{
    let bxn: int = (0xffffffffffffffffffffffffffffffff as int) * (0xffffffffffffffff as int);
    let bp: int = bxn * (0xffffffffffffffff as int);
    lemma_mul_upper_bound(sa, 0xffffffffffffffffffffffffffffffff, nb, 0xffffffffffffffff);
    lemma_mul_upper_bound(sb, 0xffffffffffffffffffffffffffffffff, na, 0xffffffffffffffff);
    lemma_mul_upper_bound(sc, 0xffffffffffffffffffffffffffffffff, na, 0xffffffffffffffff);
    lemma_mul_nonnegative(sa, nb);
    lemma_mul_nonnegative(sb, na);
    lemma_mul_nonnegative(sc, na);
    lemma_mul_upper_bound(sa * nb, bxn, nc, 0xffffffffffffffff);
    lemma_mul_upper_bound(sb * na, bxn, nc, 0xffffffffffffffff);
    lemma_mul_upper_bound(sc * na, bxn, nb, 0xffffffffffffffff);
    lemma_mul_nonnegative(sa * nb, nc);
    lemma_mul_nonnegative(sb * na, nc);
    lemma_mul_nonnegative(sc * na, nb);
    let su = (((sa * nb) * nc) + ((sb * na) * nc)) + ((sc * na) * nb);
    lemma_mul_upper_bound(su, 3 * bp, n0, 0xffffffffffffffff);
    lemma_mul_nonnegative(su, n0);
    let bsu: int = (3 * bp) * (0xffffffffffffffff as int);
    lemma_mul_upper_bound(su * n0, bsu, 5, 5);
    lemma_mul_nonnegative(su * n0, 5);
    lemma_mul_inequality(1, 5, su * n0);
    lemma_mul_is_commutative(1, su * n0);
    lemma_mul_is_commutative(5, su * n0);
}

/// The items the uniqueness signal compares: each non-blank first-row cell's
/// trimmed, lowered text, in order, over the first `k` cells.
pub open spec fn uq_items_upto(cells: Seq<TableCell>, k: int) -> Seq<Seq<char>>
    decreases k,
{
    if k <= 0 {
        Seq::empty()
    } else {
        uq_items_upto(cells, k - 1) + (if lower_seq(trim_seq(cells[k - 1].content@)).len() > 0 {
            seq![lower_seq(trim_seq(cells[k - 1].content@))]
        } else {
            Seq::empty()
        })
    }
}

/// How many of the first `k` items have no earlier equal.
pub open spec fn distinct_upto(items: Seq<Seq<char>>, k: int) -> int
    decreases k,
{
    if k <= 0 {
        0
    } else {
        distinct_upto(items, k - 1) + (if forall|j: int|
            0 <= j < k - 1 ==> (#[trigger] items[j]) != items[k - 1] {
            1int
        } else {
            0int
        })
    }
}

/// The uniqueness score of the first row, as a fraction.
pub open spec fn uniq_score_frac(r: TableRow) -> (int, int) {
    let items = uq_items_upto(r.cells@, r.cells@.len() as int);
    if items.len() == 0 {
        (0, 1)
    } else {
        (distinct_upto(items, items.len() as int), items.len() as int)
    }
}

proof fn lemma_uq_bounds(cells: Seq<TableCell>, k: int)
    requires
        0 <= k,
    ensures
        uq_items_upto(cells, k).len() <= k,
    decreases k,
{
    if k > 0 {
        lemma_uq_bounds(cells, k - 1);
    }
}

proof fn lemma_distinct_bounds(items: Seq<Seq<char>>, k: int)
    requires
        0 <= k,
    ensures
        0 <= distinct_upto(items, k) <= k,
    decreases k,
{
    if k > 0 {
        lemma_distinct_bounds(items, k - 1);
    }
}

impl TableExtractor {
    /// The uniqueness signal: the fraction of non-empty first-row entries
    /// (lowered) that have no earlier duplicate.
    pub fn check_header_uniqueness(&self, first_row: &TableRow) -> (s: Score)
        ensures
            score_wf(s),
            (s.num as int, s.den as int) == uniq_score_frac(*first_row),
            s.den <= 0xffffffffffffffff,
    {
        let n = first_row.cells.len();
        let mut items: Vec<Vec<char>> = Vec::new();
        let mut i: usize = 0;
        proof {
            lemma_uq_bounds(first_row.cells@, n as int);
        }
        while i < n
            invariant
                n == first_row.cells@.len(),
                i <= n,
                items@.map_values(|x: Vec<char>| x@) == uq_items_upto(first_row.cells@, i as int),
                items@.len() <= i,
            decreases n - i,
        {
            let raw = chars_vec(first_row.cells[i].content.as_str());
            let tr = trim_chars(&raw);
            let lo = lower_chars(&tr);
            let ghost before = items@;
            if lo.len() > 0 {
                items.push(lo);
                proof {
                    assert(items@.map_values(|x: Vec<char>| x@) =~= before.map_values(
                        |x: Vec<char>| x@,
                    ).push(lower_seq(trim_seq(first_row.cells@[i as int].content@))));
                }
            }
            i = i + 1;
        }
        let m = items.len();
        if m == 0 {
            return Score { num: 0, den: 1 };
        }
        proof {
            assert(m <= 0xffffffffffffffff);
        }
        let ghost iview = items@.map_values(|x: Vec<char>| x@);
        let mut cnt: u128 = 0;
        let mut p: usize = 0;
        proof {
            lemma_distinct_bounds(iview, m as int);
        }
        while p < m
            invariant
                m == items@.len(),
                iview == items@.map_values(|x: Vec<char>| x@),
                p <= m,
                cnt == distinct_upto(iview, p as int),
                cnt <= p,
            decreases m - p,
        {
            let mut fresh = true;
            let mut j: usize = 0;
            while j < p
                invariant
                    m == items@.len(),
                    iview == items@.map_values(|x: Vec<char>| x@),
                    p < m,
                    j <= p,
                    fresh == (forall|q: int|
                        0 <= q < j ==> (#[trigger] iview[q]) != iview[p as int]),
                decreases p - j,
            {
                if eq_chars(&items[j], &items[p]) {
                    proof {
                        assert(iview[j as int] == iview[p as int]);
                    }
                    fresh = false;
                }
                j = j + 1;
            }
            if fresh {
                cnt = cnt + 1;
            }
            p = p + 1;
        }
        Score { num: cnt, den: m as u128 }
    }
}

/// One weighted, denominator-cleared term of the confidence comparison.
pub open spec fn conf_term(x: int, coef: int, f1: int, f2: int, f3: int, f4: int) -> int {
    ((((x * coef) * f1) * f2) * f3) * f4
}

/// The weighted-confidence comparison with all denominators cleared: the five
/// signals at weights 30/25/20/15/10 (percent) against the 0.6 threshold.
pub open spec fn conf_exceeds(
    n1: int, d1: int,
    n2: int, d2: int,
    n3: int, d3: int,
    n4: int,
    n5: int, d5: int,
) -> bool {
    conf_term(n1, 150, d2, d3, d5, 1) + conf_term(n2, 125, d1, d3, d5, 1) + conf_term(
        n3,
        100,
        d1,
        d2,
        d5,
        1,
    ) + conf_term(n4, 15, d1, d2, d3, d5) + conf_term(n5, 50, d1, d2, d3, 1) > conf_term(
        d1,
        300,
        d2,
        d3,
        d5,
        1,
    )
}

/// Whether the table's first row is judged a header: confidence strictly
/// above 0.6.
pub open spec fn header_confident(t: TableData) -> bool {
    t.rows@.len() > 0 && {
        let (n1, d1) = fmt_score_frac(t);
        let (n2, d2) = content_score_frac(t.rows@[0]);
        let (n3, d3) = cons_score_frac(t);
        let n4 = length_num(t);
        let (n5, d5) = uniq_score_frac(t.rows@[0]);
        conf_exceeds(n1, d1, n2, d2, n3, d3, n4, n5, d5)
    }
}

/// A bound every cleared-denominator confidence term stays under; 32 of
/// them still fit a `Wide`.
pub open spec fn term_cap() -> int {
    wide_cap() / 32
}

/// One cleared-denominator term, as a 384-bit integer.
fn term_exec(x: u128, coef: u64, f1: u128, f2: u128, f3: u128, f4: u128) -> (w: Wide)
    requires
        x <= 0x3C0000000000000000,
        coef <= 512,
        f1 <= 0x3C0000000000000000,
        f2 <= 0x3C0000000000000000,
        f3 <= 0x3C0000000000000000,
        f4 <= 0x3C0000000000000000,
    ensures
        val(w) == conf_term(x as int, coef as int, f1 as int, f2 as int, f3 as int, f4 as int),
        val(w) <= term_cap(),
        0 <= val(w),
{
    proof {
        lemma_conf_bounds(x as int, coef as int, f1 as int, f2 as int, f3 as int, f4 as int);
    }
    let a = Wide::from_u128(x);
    let b = a.mul64(coef);
    let c = b.mul128(f1);
    let d = c.mul128(f2);
    let e = d.mul128(f3);
    e.mul128(f4)
}

/// The running products in a confidence term stay far below the cap.
proof fn lemma_conf_bounds(x: int, coef: int, f1: int, f2: int, f3: int, f4: int)
    requires
        0 <= x <= 0x3C0000000000000000,
        0 <= coef <= 512,
        0 <= f1 <= 0x3C0000000000000000,
        0 <= f2 <= 0x3C0000000000000000,
        0 <= f3 <= 0x3C0000000000000000,
        0 <= f4 <= 0x3C0000000000000000,
    ensures
        0 <= x * coef,
        x * coef < wide_cap(),
        0 <= (x * coef) * f1,
        (x * coef) * f1 < wide_cap(),
        0 <= ((x * coef) * f1) * f2,
        ((x * coef) * f1) * f2 < wide_cap(),
        0 <= (((x * coef) * f1) * f2) * f3,
        (((x * coef) * f1) * f2) * f3 < wide_cap(),
        0 <= ((((x * coef) * f1) * f2) * f3) * f4,
        ((((x * coef) * f1) * f2) * f3) * f4 <= term_cap(),
    {
    lemma_mul_upper_bound(x, 0x3C0000000000000000, coef, 512);
    lemma_mul_nonnegative(x, coef);
    lemma_mul_upper_bound(x * coef, 0x78000000000000000000, f1, 0x3C0000000000000000);
    lemma_mul_nonnegative(x * coef, f1);
    assert(0x78000000000000000000 * 0x3C0000000000000000
        == (0x78000000000000000000 as int) * (0x3C0000000000000000 as int));
    let fb: int = 0x3C0000000000000000;
    let b1: int = (0x78000000000000000000 as int) * fb;
    lemma_mul_upper_bound((x * coef) * f1, b1, f2, fb);
    lemma_mul_nonnegative((x * coef) * f1, f2);
    let b2: int = b1 * fb;
    lemma_mul_upper_bound(((x * coef) * f1) * f2, b2, f3, fb);
    lemma_mul_nonnegative(((x * coef) * f1) * f2, f3);
    let b3: int = b2 * fb;
    lemma_mul_upper_bound((((x * coef) * f1) * f2) * f3, b3, f4, fb);
    lemma_mul_nonnegative((((x * coef) * f1) * f2) * f3, f4);
    assert(b3 * fb <= term_cap());
}

/// The headers a detected header row yields: each first-row cell's trimmed
/// content.
pub open spec fn headers_of(r: TableRow) -> Seq<Seq<char>> {
    r.cells@.map_values(|c: TableCell| trim_seq(c.content@))
}

impl TableExtractor {
    /// Decides whether the first row is a header.  When confidence exceeds
    /// the threshold, records the trimmed first-row contents as headers,
    /// raises the header flag, and marks the first row's cells as header
    /// cells; otherwise leaves the table untouched.  A table with no rows is
    /// left untouched.
    pub fn detect_table_headers(&self, table: &mut TableData)
        ensures
            !header_confident(*old(table)) ==> *final(table) == *old(table),
            header_confident(*old(table)) ==> {
                &&& final(table).has_header
                &&& match final(table).headers {
                    Some(h) => h@.map_values(|s: String| s@) == headers_of(old(table).rows@[0]),
                    None => false,
                }
                &&& final(table).rows@.len() == old(table).rows@.len()
                &&& final(table).rows@[0].is_header
                &&& final(table).rows@[0].row_index == old(table).rows@[0].row_index
                &&& final(table).rows@[0].cells@.len() == old(table).rows@[0].cells@.len()
                &&& forall|i: int|
                    0 <= i < old(table).rows@[0].cells@.len() ==> final(table).rows@[0].cells@[i]
                        == (TableCell {
                        cell_type: crate::table_model::CellType::Header,
                        ..old(table).rows@[0].cells@[i]
                    })
                &&& forall|q: int|
                    1 <= q < old(table).rows@.len() ==> final(table).rows@[q]
                        == old(table).rows@[q]
                &&& final(table).column_count == old(table).column_count
                &&& final(table).row_count == old(table).row_count
                &&& final(table).table_id == old(table).table_id
                &&& final(table).title == old(table).title
            },
    {
        if table.rows.len() == 0 {
            return;
        }
        let s1 = self.check_formatting_difference(table);
        let s3 = self.check_data_type_consistency(table);
        let s4 = self.check_text_length_pattern(table);
        let first = &table.rows[0];
        let s2 = self.check_header_content_pattern(first);
        let s5 = self.check_header_uniqueness(first);

        let t1 = term_exec(s1.num, 150, s2.den, s3.den, s5.den, 1);
        let t2 = term_exec(s2.num, 125, s1.den, s3.den, s5.den, 1);
        let t3 = term_exec(s3.num, 100, s1.den, s2.den, s5.den, 1);
        let t4 = term_exec(s4.num, 15, s1.den, s2.den, s3.den, s5.den);
        let t5 = term_exec(s5.num, 50, s1.den, s2.den, s3.den, 1);
        let rhs = term_exec(s1.den, 300, s2.den, s3.den, s5.den, 1);
        let lhs = t1.add(&t2).add(&t3).add(&t4).add(&t5);
        let exceeds = lhs.gt(&rhs);
        proof {
            assert(exceeds == header_confident(*table));
        }
        if !exceeds {
            return;
        }
        // Record the trimmed first-row contents as the headers.
        let n = table.rows[0].cells.len();
        let mut hs: Vec<String> = Vec::new();
        let mut i: usize = 0;
        while i < n
            invariant
                table.rows@.len() > 0,
                n == table.rows@[0].cells@.len(),
                i <= n,
                hs@.map_values(|s: String| s@) == table.rows@[0].cells@.subrange(
                    0,
                    i as int,
                ).map_values(|c: TableCell| trim_seq(c.content@)),
            decreases n - i,
        {
            let row0 = &table.rows[0];
            let raw = chars_vec(row0.cells[i].content.as_str());
            let tr = trim_chars(&raw);
            let st = crate::chars::string_of(&tr);
            let ghost before = hs@;
            hs.push(st);
            proof {
                assert(hs@.map_values(|s: String| s@) =~= before.map_values(|s: String| s@).push(
                    trim_seq(table.rows@[0].cells@[i as int].content@),
                ));
                assert(table.rows@[0].cells@.subrange(0, i + 1).map_values(
                    |c: TableCell| trim_seq(c.content@),
                ) =~= table.rows@[0].cells@.subrange(0, i as int).map_values(
                    |c: TableCell| trim_seq(c.content@),
                ).push(trim_seq(table.rows@[0].cells@[i as int].content@)));
            }
            i = i + 1;
        }
        proof {
            assert(table.rows@[0].cells@.subrange(0, n as int) =~= table.rows@[0].cells@);
        }
        table.set_headers(hs);
        let mut tmp = TableRow::new(0);
        table.rows.set_and_swap(0, &mut tmp);
        tmp.mark_as_header();
        let ghost marked = tmp;
        table.rows.set(0, tmp);
        proof {
            assert(table.rows@ =~= old(table).rows@.update(0, marked));
        }
    }
}

/// Cells with the same text and formatting compare alike in the formatting
/// signal, and rows with the same texts count alike.
proof fn lemma_cmp_corr(ca: TableCell, cb: TableCell, da: Seq<TableRow>, db: Seq<TableRow>, i: int)
    requires
        0 <= i,
        cell_same(ca, cb),
        rows_texts(da, db),
    ensures
        cmp_rows(da, i) == cmp_rows(db, i),
        diff_rows(ca, da, i) == diff_rows(cb, db, i),
    decreases da.len(),
{
    if da.len() > 0 {
        let ka = da.drop_last();
        let kb = db.drop_last();
        assert(rows_texts(ka, kb)) by {
            assert forall|q: int|
                0 <= q < ka.len() implies (#[trigger] ka[q]).cells@.len() == kb[q].cells@.len() && (
            forall|j: int|
                0 <= j < ka[q].cells@.len() ==> cell_same(
                    #[trigger] ka[q].cells@[j],
                    kb[q].cells@[j],
                )) by {
                assert(ka[q] == da[q] && kb[q] == db[q]);
                assert(da[q].cells@.len() == db[q].cells@.len());
            }
        }
        lemma_cmp_corr(ca, cb, ka, kb, i);
        assert(da.last().cells@.len() == db.last().cells@.len());
        if 0 <= i < da.last().cells@.len() {
            assert(cell_same(da.last().cells@[i], db.last().cells@[i]));
        }
    }
}

/// First rows with the same texts score alike in the formatting signal.
proof fn lemma_fmt_upto_corr(
    fa: Seq<TableCell>,
    fb: Seq<TableCell>,
    da: Seq<TableRow>,
    db: Seq<TableRow>,
    k: int,
)
    requires
        rows_texts(da, db),
        fa.len() == fb.len(),
        k <= fa.len(),
        forall|j: int| 0 <= j < fa.len() ==> cell_same(#[trigger] fa[j], fb[j]),
    ensures
        fmt_den_upto(fa, da, k) == fmt_den_upto(fb, db, k),
        fmt_num_upto(fa, da, k) == fmt_num_upto(fb, db, k),
    decreases k,
{
    if k > 0 {
        lemma_fmt_upto_corr(fa, fb, da, db, k - 1);
        lemma_cmp_corr(fa[k - 1], fb[k - 1], da, db, k - 1);
    }
}

/// Cells with the same text look alike to the content-pattern signal.
proof fn lemma_like_upto_corr(ca: Seq<TableCell>, cb: Seq<TableCell>, k: int)
    requires
        ca.len() == cb.len(),
        k <= ca.len(),
        forall|j: int| 0 <= j < ca.len() ==> cell_same(#[trigger] ca[j], cb[j]),
    ensures
        like_upto(ca, k) == like_upto(cb, k),
    decreases k,
{
    if k > 0 {
        lemma_like_upto_corr(ca, cb, k - 1);
        assert(cell_same(ca[k - 1], cb[k - 1]));
        assert(header_like(ca[k - 1]) == header_like(cb[k - 1]));
    }
}

/// Columns of rows with the same texts classify alike.
proof fn lemma_col_types_corr(da: Seq<TableRow>, db: Seq<TableRow>, col: int)
    requires
        0 <= col,
        rows_texts(da, db),
    ensures
        col_types(da, col) == col_types(db, col),
    decreases da.len(),
{
    if da.len() > 0 {
        let ka = da.drop_last();
        let kb = db.drop_last();
        assert(rows_texts(ka, kb)) by {
            assert forall|q: int|
                0 <= q < ka.len() implies (#[trigger] ka[q]).cells@.len() == kb[q].cells@.len() && (
            forall|j: int|
                0 <= j < ka[q].cells@.len() ==> cell_same(
                    #[trigger] ka[q].cells@[j],
                    kb[q].cells@[j],
                )) by {
                assert(ka[q] == da[q] && kb[q] == db[q]);
            }
        }
        lemma_col_types_corr(ka, kb, col);
        assert(da.last().cells@.len() == db.last().cells@.len());
        if 0 <= col < da.last().cells@.len() {
            assert(cell_same(da.last().cells@[col], db.last().cells@[col]));
        }
    }
}

/// Rows with the same texts give the same consistency sums.
proof fn lemma_cons_upto_corr(da: Seq<TableRow>, db: Seq<TableRow>, k: int)
    requires
        rows_texts(da, db),
    ensures
        cons_num_upto(da, k) == cons_num_upto(db, k),
        cons_cols_upto(da, k) == cons_cols_upto(db, k),
    decreases k,
{
    if k > 0 {
        lemma_cons_upto_corr(da, db, k - 1);
        lemma_col_types_corr(da, db, k - 1);
    }
}

/// Cells with the same text sum to the same lengths.
proof fn lemma_len_upto_corr(ca: Seq<TableCell>, cb: Seq<TableCell>, k: int)
    requires
        ca.len() == cb.len(),
        k <= ca.len(),
        forall|j: int| 0 <= j < ca.len() ==> cell_same(#[trigger] ca[j], cb[j]),
    ensures
        len_sum_upto(ca, k) == len_sum_upto(cb, k),
    decreases k,
{
    if k > 0 {
        lemma_len_upto_corr(ca, cb, k - 1);
        assert(cell_same(ca[k - 1], cb[k - 1]));
    }
}

/// Dropping cell-less rows keeps the texts in step.
proof fn lemma_with_cells_corr(da: Seq<TableRow>, db: Seq<TableRow>)
    requires
        rows_texts(da, db),
    ensures
        rows_texts(with_cells(da), with_cells(db)),
    decreases da.len(),
{
    if da.len() > 0 {
        let ka = da.drop_last();
        let kb = db.drop_last();
        assert(rows_texts(ka, kb)) by {
            assert forall|q: int|
                0 <= q < ka.len() implies (#[trigger] ka[q]).cells@.len() == kb[q].cells@.len() && (
            forall|j: int|
                0 <= j < ka[q].cells@.len() ==> cell_same(
                    #[trigger] ka[q].cells@[j],
                    kb[q].cells@[j],
                )) by {
                assert(ka[q] == da[q] && kb[q] == db[q]);
            }
        }
        lemma_with_cells_corr(ka, kb);
        assert(da.last().cells@.len() == db.last().cells@.len());
        let wa = with_cells(da);
        let wb = with_cells(db);
        assert(rows_texts(wa, wb)) by {
            let pa = with_cells(ka);
            let pb = with_cells(kb);
            assert forall|q: int|
                0 <= q < wa.len() implies (#[trigger] wa[q]).cells@.len() == wb[q].cells@.len() && (
            forall|j: int|
                0 <= j < wa[q].cells@.len() ==> cell_same(
                    #[trigger] wa[q].cells@[j],
                    wb[q].cells@[j],
                )) by {
                if q < pa.len() {
                    assert(wa[q] == pa[q] && wb[q] == pb[q]);
                } else {
                    assert(wa[q] == da.last() && wb[q] == db.last());
                    assert forall|j: int|
                        0 <= j < da.last().cells@.len() implies cell_same(
                        #[trigger] da.last().cells@[j],
                        db.last().cells@[j],
                    ) by {
                        assert(da[da.len() - 1].cells@.len() == db[db.len() - 1].cells@.len());
                    }
                }
            }
        }
    }
}

/// Samples with the same texts decide the length comparison alike.
proof fn lemma_avg_gt_corr(ra: Seq<TableRow>, rb: Seq<TableRow>, s0: int, n0: int)
    requires
        rows_texts(ra, rb),
    ensures
        avg_gt(ra, s0, n0) == avg_gt(rb, s0, n0),
{
    if 1 <= ra.len() <= 3 {
        assert forall|q: int|
            0 <= q < ra.len() implies row_len_sum((#[trigger] ra[q]).cells@) == row_len_sum(
            rb[q].cells@,
        ) && ra[q].cells@.len() == rb[q].cells@.len() by {
            lemma_len_upto_corr(ra[q].cells@, rb[q].cells@, ra[q].cells@.len() as int);
        }
    }
}

/// Header rows with the same texts record the same headers.
pub proof fn lemma_headers_of_corr(a: TableRow, b: TableRow)
    requires
        a.cells@.len() == b.cells@.len(),
        forall|j: int| 0 <= j < a.cells@.len() ==> cell_same(#[trigger] a.cells@[j], b.cells@[j]),
    ensures
        headers_of(a) == headers_of(b),
{
    let ha = headers_of(a);
    let hb = headers_of(b);
    assert forall|j: int| 0 <= j < ha.len() implies ha[j] == hb[j] by {
        assert(cell_same(a.cells@[j], b.cells@[j]));
    }
    assert(ha =~= hb);
}

/// The confidence decision reads only the rows' texts and formatting, so
/// tables with the same texts are judged alike.
pub proof fn lemma_confident_texts(a: TableData, b: TableData)
    requires
        rows_texts(a.rows@, b.rows@),
    ensures
        header_confident(a) == header_confident(b),
{
    if a.rows@.len() == 0 {
        return;
    }
    let fa = a.rows@[0].cells@;
    let fb = b.rows@[0].cells@;
    assert(fa.len() == fb.len());
    assert forall|j: int| 0 <= j < fa.len() implies cell_same(#[trigger] fa[j], fb[j]) by {}
    // Sampled row windows carry the texts over.
    assert(rows_texts(data3(a), data3(b))) by {
        let da = data3(a);
        let db = data3(b);
        assert forall|q: int|
            0 <= q < da.len() implies (#[trigger] da[q]).cells@.len() == db[q].cells@.len() && (
        forall|j: int|
            0 <= j < da[q].cells@.len() ==> cell_same(#[trigger] da[q].cells@[j], db[q].cells@[j]))
            by {
            assert(da[q] == a.rows@[q + 1] && db[q] == b.rows@[q + 1]);
        }
    }
    assert(rows_texts(data5(a), data5(b))) by {
        let da = data5(a);
        let db = data5(b);
        assert forall|q: int|
            0 <= q < da.len() implies (#[trigger] da[q]).cells@.len() == db[q].cells@.len() && (
        forall|j: int|
            0 <= j < da[q].cells@.len() ==> cell_same(#[trigger] da[q].cells@[j], db[q].cells@[j]))
            by {
            assert(da[q] == a.rows@[q + 1] && db[q] == b.rows@[q + 1]);
        }
    }
    // Signal one: formatting differences.
    lemma_fmt_upto_corr(fa, fb, data3(a), data3(b), fa.len() as int);
    assert(fmt_score_frac(a) == fmt_score_frac(b));
    // Signal two: content patterns.
    lemma_like_upto_corr(fa, fb, fa.len() as int);
    assert(content_score_frac(a.rows@[0]) == content_score_frac(b.rows@[0]));
    // Signal three: type consistency.
    assert(max_data_cols(a) == max_data_cols(b)) by {
        if a.rows@.len() > 1 {
            let sa = a.rows@.skip(1);
            let sb = b.rows@.skip(1);
            assert forall|q: int|
                0 <= q < sa.len() implies (#[trigger] sa[q]).cells@.len() == sb[q].cells@.len() by {
                assert(sa[q] == a.rows@[q + 1] && sb[q] == b.rows@[q + 1]);
            }
            crate::extract::lemma_same_lens_same_max(sa, sb);
        }
    }
    lemma_cons_upto_corr(data5(a), data5(b), max_data_cols(a));
    assert(cons_score_frac(a) == cons_score_frac(b));
    // Signal four: text lengths.
    assert(length_num(a) == length_num(b)) by {
        if a.rows@.len() > 1 {
            lemma_len_upto_corr(fa, fb, fa.len() as int);
            lemma_with_cells_corr(data3(a), data3(b));
            lemma_avg_gt_corr(lrows3(a), lrows3(b), row_len_sum(fa), fa.len() as int);
        }
    }
    // Signal five: uniqueness.
    assert(uniq_score_frac(a.rows@[0]) == uniq_score_frac(b.rows@[0])) by {
        lemma_uq_upto_corr(fa, fb, fa.len() as int);
    }
}

/// Cells with the same text produce the same uniqueness items.
proof fn lemma_uq_upto_corr(ca: Seq<TableCell>, cb: Seq<TableCell>, k: int)
    requires
        ca.len() == cb.len(),
        k <= ca.len(),
        forall|j: int| 0 <= j < ca.len() ==> cell_same(#[trigger] ca[j], cb[j]),
    ensures
        uq_items_upto(ca, k) == uq_items_upto(cb, k),
    decreases k,
{
    if k > 0 {
        lemma_uq_upto_corr(ca, cb, k - 1);
        assert(cell_same(ca[k - 1], cb[k - 1]));
    }
}

} // verus!
