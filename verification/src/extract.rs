//! The extraction pipeline and the classifier-facing methods of the engine.
//!
//! `extract_table` builds a table from a raw grid of cell strings and runs
//! the fixed pipeline: statistics, header detection, merge handling, and
//! empty-cell filtering, each gated by the configuration.

use vstd::prelude::*;
use vstd::string::*;
use vstd::pervasive::VecAdditionalExecFns;
use crate::chars::{trim_seq, lower_seq, chars_vec, trim_chars, string_of, eq_chars, lower_chars,
    is_blank, lemma_blank_trim};
use crate::classify::{
    classify_text, classify_chars, is_numeric_text, numeric_text, is_currency_text, currency_text,
    is_percent_text, percent_text, is_formatted_number_text, formatted_number_text,
    is_scientific_text, scientific_text, is_date_text, date_text, is_relative_text, relative_text,
    is_boolean_text, boolean_text,
};
use crate::table_model::{
    TableData, TableRow, TableCell, CellType, CellFormatting, CellDataType, TableExtractor,
    TableExtractionConfig, TableExtractionMode, MergeCellsHandling, TableOutputFormat,
    cell_is_empty, grid_max_cols, stats_ok,
};
use crate::header::{header_confident, headers_of, lemma_confident_texts, lemma_headers_of_corr};
use crate::merge::{cell_same, rows_texts, marked_state, lemma_mark_stable, cover, v_scan, h_scan};

verus! {

/// The predicate empty-cell filtering keeps.
pub open spec fn keeps_cell(c: TableCell) -> bool {
    !cell_is_empty(c)
}

/// The statistics stage: the two counters recomputed from the rows, nothing
/// else touched.
pub open spec fn stats_stage(t0: TableData, t1: TableData) -> bool {
    t1 == (TableData { row_count: t1.row_count, column_count: t1.column_count, ..t0 })
        && stats_ok(t1)
}

/// The header stage: when detection is on and the confidence threshold is
/// passed, the trimmed first-row contents become the headers, the header
/// flags are raised and the first row's cells turn into header cells;
/// in every other case the table is untouched.
pub open spec fn header_stage(detect: bool, t1: TableData, t2: TableData) -> bool {
    if detect && header_confident(t1) {
        &&& t2.has_header
        &&& match t2.headers {
            Some(h) => h@.map_values(|s: String| s@) == crate::header::headers_of(t1.rows@[0]),
            None => false,
        }
        &&& t2.rows@.len() == t1.rows@.len()
        &&& t2.rows@[0].is_header
        &&& t2.rows@[0].row_index == t1.rows@[0].row_index
        &&& t2.rows@[0].cells@.len() == t1.rows@[0].cells@.len()
        &&& forall|i: int|
            0 <= i < t1.rows@[0].cells@.len() ==> #[trigger] t2.rows@[0].cells@[i] == (TableCell {
                cell_type: CellType::Header,
                ..t1.rows@[0].cells@[i]
            })
        &&& forall|q: int| 1 <= q < t1.rows@.len() ==> #[trigger] t2.rows@[q] == t1.rows@[q]
        &&& t2.column_count == t1.column_count
        &&& t2.row_count == t1.row_count
        &&& t2.table_id == t1.table_id
        &&& t2.title == t1.title
    } else {
        t2 == t1
    }
}

/// The merge stage: untouched under `Ignore`; every cell becomes its
/// `marked_state` under `Preserve`; under `Expand`, merged cells in addition
/// take their anchor's content and return to data cells.
pub open spec fn merge_stage(policy: MergeCellsHandling, t2: TableData, t3: TableData) -> bool {
    match policy {
        MergeCellsHandling::Ignore => t3 == t2,
        MergeCellsHandling::Preserve => {
            &&& t3.rows@.len() == t2.rows@.len()
            &&& forall|r: int|
                0 <= r < t2.rows@.len() ==> (#[trigger] t3.rows@[r]).cells@.len()
                    == t2.rows@[r].cells@.len() && t3.rows@[r].is_header == t2.rows@[r].is_header
                    && t3.rows@[r].row_index == t2.rows@[r].row_index
            &&& forall|r: int, c: int|
                0 <= r < t2.rows@.len() && 0 <= c < t2.rows@[r].cells@.len()
                    ==> #[trigger] t3.rows@[r].cells@[c] == crate::merge::marked_state(t2, r, c)
            &&& t3.headers == t2.headers
            &&& t3.has_header == t2.has_header
            &&& t3.column_count == t2.column_count
            &&& t3.row_count == t2.row_count
            &&& t3.table_id == t2.table_id
            &&& t3.title == t2.title
        },
        MergeCellsHandling::Expand => {
            &&& t3.rows@.len() == t2.rows@.len()
            &&& forall|r: int|
                0 <= r < t2.rows@.len() ==> (#[trigger] t3.rows@[r]).cells@.len()
                    == t2.rows@[r].cells@.len() && t3.rows@[r].is_header == t2.rows@[r].is_header
                    && t3.rows@[r].row_index == t2.rows@[r].row_index
            &&& forall|r: int, c: int|
                0 <= r < t2.rows@.len() && 0 <= c < t2.rows@[r].cells@.len() ==> {
                    let m = crate::merge::marked_state(t2, r, c);
                    let fc = #[trigger] t3.rows@[r].cells@[c];
                    if m.cell_type is Merged {
                        fc.cell_type is Data && fc.colspan == m.colspan && fc.rowspan == m.rowspan
                            && fc.alignment == m.alignment && fc.formatting == m.formatting
                            && fc.content@ == crate::merge::expanded_content(t2, r, c)
                            && fc.formatted_content@ == crate::merge::expanded_content(t2, r, c)
                    } else {
                        fc == m
                    }
                }
            &&& t3.headers == t2.headers
            &&& t3.has_header == t2.has_header
            &&& t3.column_count == t2.column_count
            &&& t3.row_count == t2.row_count
            &&& t3.table_id == t2.table_id
            &&& t3.title == t2.title
        },
    }
}

/// The filter stage: untouched when empty cells are kept; otherwise every
/// row keeps exactly its non-empty cells and the column count is the new
/// widest row.
pub open spec fn filter_stage(keep_empty: bool, t3: TableData, t4: TableData) -> bool {
    if keep_empty {
        t4 == t3
    } else {
        &&& t4.rows@.len() == t3.rows@.len()
        &&& forall|r: int|
            0 <= r < t3.rows@.len() ==> (#[trigger] t4.rows@[r]).cells@
                == t3.rows@[r].cells@.filter(|c: TableCell| keeps_cell(c)) && t4.rows@[r].is_header
                == t3.rows@[r].is_header && t4.rows@[r].row_index == t3.rows@[r].row_index
        &&& t4.column_count == grid_max_cols(t4.rows@)
        &&& t4.row_count == t3.row_count
        &&& t4.headers == t3.headers
        &&& t4.has_header == t3.has_header
        &&& t4.table_id == t3.table_id
        &&& t4.title == t3.title
    }
}

/// The whole pipeline: the four stages in their fixed order, each related
/// to the next exactly.
pub open spec fn pipeline_stages(
    cfg: TableExtractionConfig,
    t0: TableData,
    t1: TableData,
    t2: TableData,
    t3: TableData,
    t4: TableData,
) -> bool {
    stats_stage(t0, t1) && header_stage(cfg.detect_headers, t1, t2) && merge_stage(
        cfg.merge_cells_handling,
        t2,
        t3,
    ) && filter_stage(cfg.include_empty_cells, t3, t4)
}

/// A table built from a raw grid, before the pipeline runs: one row per
/// grid row in order, each raw cell trimmed into a data cell or an empty
/// cell.
pub open spec fn built_from(grid: Seq<Vec<String>>, t0: TableData) -> bool {
    &&& t0.rows@.len() == grid.len()
    &&& t0.headers is None
    &&& !t0.has_header
    &&& t0.table_id is None
    &&& t0.title is None
    &&& forall|i: int|
        0 <= i < grid.len() ==> {
            let row = #[trigger] t0.rows@[i];
            &&& row.row_index == i
            &&& !row.is_header
            &&& row.cells@.len() == grid[i]@.len()
            &&& forall|j: int|
                0 <= j < grid[i]@.len() ==> {
                    let cell = #[trigger] row.cells@[j];
                    &&& cell.content@ == trim_seq(grid[i]@[j]@)
                    &&& cell.formatted_content@ == trim_seq(grid[i]@[j]@)
                    &&& cell.colspan is None
                    &&& cell.rowspan is None
                    &&& cell.alignment is None
                    &&& cell.formatting is None
                    &&& cell.cell_type == (if is_blank(grid[i]@[j]@) {
                        CellType::Empty
                    } else {
                        CellType::Data
                    })
                }
        }
}

impl TableExtractor {
    /// Drops every empty cell from every row and recomputes the column
    /// count as the new widest row.
    pub fn filter_empty_cells(&self, table: &mut TableData)
        ensures
            final(table).rows@.len() == old(table).rows@.len(),
            forall|r: int|
                0 <= r < old(table).rows@.len() ==> (#[trigger] final(table).rows@[r]).cells@
                    == old(table).rows@[r].cells@.filter(|c: TableCell| keeps_cell(c)) && final(table).rows@[r].is_header == old(table).rows@[r].is_header && final(table).rows@[r].row_index == old(table).rows@[r].row_index,
            final(table).column_count == grid_max_cols(final(table).rows@),
            final(table).row_count == old(table).row_count,
            final(table).headers == old(table).headers,
            final(table).has_header == old(table).has_header,
            final(table).table_id == old(table).table_id,
            final(table).title == old(table).title,
    {
        let nrows = table.rows.len();
        let ghost orig = *table;
        let mut r: usize = 0;
        while r < nrows
            invariant
                nrows == table.rows@.len(),
                nrows == orig.rows@.len(),
                r <= nrows,
                forall|q: int|
                    0 <= q < r ==> (#[trigger] table.rows@[q]).cells@ == orig.rows@[q].cells@.filter(
                        |c: TableCell| keeps_cell(c),
                    ) && table.rows@[q].is_header == orig.rows@[q].is_header
                        && table.rows@[q].row_index == orig.rows@[q].row_index,
                forall|q: int| r <= q < nrows ==> (#[trigger] table.rows@[q]) == orig.rows@[q],
                table.headers == orig.headers,
                table.has_header == orig.has_header,
                table.column_count == orig.column_count,
                table.row_count == orig.row_count,
                table.table_id == orig.table_id,
                table.title == orig.title,
            decreases nrows - r,
        {
            let mut row = TableRow::new(0);
            table.rows.set_and_swap(r, &mut row);
            let ghost row0 = row;
            let mut kept: Vec<TableCell> = Vec::new();
            let total = row.cells.len();
            let mut src = row.cells;
            let ghost all = row0.cells@;
            let mut i: usize = 0;
            proof {
                assert(all.subrange(0, 0) =~= Seq::<TableCell>::empty());
                assert(all.subrange(0, 0).filter(|c: TableCell| keeps_cell(c)) =~= Seq::<
                    TableCell,
                >::empty());
                assert(src@ =~= all.subrange(0, all.len() as int));
            }
            while src.len() > 0
                invariant
                    total == all.len(),
                    i <= all.len(),
                    src@ == all.subrange(i as int, all.len() as int),
                    kept@ == all.subrange(0, i as int).filter(|c: TableCell| keeps_cell(c)),
                decreases src@.len(),
            {
                proof {
                    reveal_with_fuel(Seq::filter, 2);
                    assert(all.subrange(0, i + 1).drop_last() =~= all.subrange(0, i as int));
                    assert(all.subrange(0, i + 1).last() == all[i as int]);
                    assert(src@[0] == all[i as int]);
                }
                let c = src.remove(0);
                if !c.is_empty() {
                    kept.push(c);
                }
                proof {
                    assert(src@ =~= all.subrange(i + 1, all.len() as int));
                }
                i = i + 1;
            }
            proof {
                assert(all.subrange(0, all.len() as int) =~= all);
            }
            let newrow = TableRow { cells: kept, is_header: row.is_header, row_index: row.row_index };
            table.rows.set(r, newrow);
            r = r + 1;
        }
        // Recompute the column count over the filtered rows.
        let mut m: usize = 0;
        let mut q: usize = 0;
        proof {
            assert(table.rows@.subrange(0, 0) =~= Seq::<TableRow>::empty());
        }
        while q < nrows
            invariant
                nrows == table.rows@.len(),
                q <= nrows,
                m == grid_max_cols(table.rows@.subrange(0, q as int)),
            decreases nrows - q,
        {
            proof {
                assert(table.rows@.subrange(0, q + 1).drop_last() =~= table.rows@.subrange(
                    0,
                    q as int,
                ));
                assert(table.rows@.subrange(0, q + 1).last() == table.rows@[q as int]);
            }
            if table.rows[q].cells.len() > m {
                m = table.rows[q].cells.len();
            }
            q = q + 1;
        }
        proof {
            assert(table.rows@.subrange(0, nrows as int) =~= table.rows@);
        }
        table.column_count = m;
    }

    /// Runs the pipeline on a built table: statistics, header detection when
    /// configured, merge handling, and empty-cell filtering when configured.
    /// The three intermediate states exist and are pinned stage by stage by
    /// `pipeline_stages`; the statistics invariant holds afterwards, and
    /// with empty cells kept no cell has been dropped.
    pub fn process_table_data(&self, table: &mut TableData)
        ensures
            stats_ok(*final(table)),
            exists|t1: TableData, t2: TableData, t3: TableData|
                #[trigger] pipeline_stages(
                    self.config,
                    *old(table),
                    t1,
                    t2,
                    t3,
                    *final(table),
                ),
            final(table).rows@.len() == old(table).rows@.len(),
            final(table).table_id == old(table).table_id,
            final(table).title == old(table).title,
            !self.config.detect_headers ==> final(table).headers == old(table).headers && final(table).has_header == old(table).has_header,
            self.config.include_empty_cells ==> forall|r: int|
                0 <= r < old(table).rows@.len() ==> (#[trigger] final(table).rows@[r]).cells@.len()
                    == old(table).rows@[r].cells@.len(),
    {
        table.update_statistics();
        let ghost g1 = *table;
        proof {
            assert(stats_stage(*old(table), g1));
        }
        if self.config.detect_headers {
            self.detect_table_headers(table);
            proof {
                lemma_same_lens_same_max(table.rows@, g1.rows@);
            }
        }
        let ghost g2 = *table;
        proof {
            assert(header_stage(self.config.detect_headers, g1, g2));
        }
        self.handle_merged_cells(table);
        let ghost g3 = *table;
        proof {
            assert(merge_stage(self.config.merge_cells_handling, g2, g3));
            match self.config.merge_cells_handling {
                MergeCellsHandling::Ignore => {},
                MergeCellsHandling::Preserve => {
                    lemma_same_lens_same_max(table.rows@, g2.rows@);
                },
                MergeCellsHandling::Expand => {
                    lemma_same_lens_same_max(table.rows@, g2.rows@);
                },
            }
        }
        if !self.config.include_empty_cells {
            self.filter_empty_cells(table);
        }
        proof {
            assert(filter_stage(self.config.include_empty_cells, g3, *table));
            assert(pipeline_stages(self.config, *old(table), g1, g2, g3, *table));
        }
    }

    /// Builds a table from a raw grid of cell strings and runs the pipeline
    /// on it.  Each raw string is trimmed; a blank string gives an empty
    /// cell, anything else a data cell (`built_from` gives the built table
    /// exactly), and `pipeline_stages` then pins every stage of the
    /// processing, so the result is a function of the grid and the
    /// configuration alone.
    pub fn extract_table(&self, grid: &Vec<Vec<String>>) -> (t: TableData)
        ensures
            stats_ok(t),
            t.rows@.len() == grid@.len(),
            t.table_id is None,
            t.title is None,
            !self.config.detect_headers ==> t.headers is None && !t.has_header,
            exists|t0: TableData, t1: TableData, t2: TableData, t3: TableData|
                built_from(grid@, t0) && #[trigger] pipeline_stages(
                    self.config,
                    t0,
                    t1,
                    t2,
                    t3,
                    t,
                ),
    {
        let mut table = TableData::with_capacity(grid.len());
        let mut i: usize = 0;
        while i < grid.len()
            invariant
                i <= grid@.len(),
                table.rows@.len() == i,
                table.row_count == i,
                table.headers is None,
                !table.has_header,
                table.table_id is None,
                table.title is None,
                forall|q: int|
                    0 <= q < i ==> {
                        let row = #[trigger] table.rows@[q];
                        &&& row.row_index == q
                        &&& !row.is_header
                        &&& row.cells@.len() == grid@[q]@.len()
                        &&& forall|j: int|
                            0 <= j < grid@[q]@.len() ==> {
                                let cell = #[trigger] row.cells@[j];
                                &&& cell.content@ == trim_seq(grid@[q]@[j]@)
                                &&& cell.formatted_content@ == trim_seq(grid@[q]@[j]@)
                                &&& cell.colspan is None
                                &&& cell.rowspan is None
                                &&& cell.alignment is None
                                &&& cell.formatting is None
                                &&& cell.cell_type == (if is_blank(grid@[q]@[j]@) {
                                    CellType::Empty
                                } else {
                                    CellType::Data
                                })
                            }
                    },
            decreases grid@.len() - i,
        {
            let raw_row = &grid[i];
            let mut row = TableRow::with_capacity(i, raw_row.len());
            let mut j: usize = 0;
            while j < raw_row.len()
                invariant
                    raw_row@ == grid@[i as int]@,
                    i < grid@.len(),
                    j <= raw_row@.len(),
                    row.cells@.len() == j,
                    !row.is_header,
                    row.row_index == i,
                    forall|k: int|
                        0 <= k < j ==> {
                            let cell = #[trigger] row.cells@[k];
                            &&& cell.content@ == trim_seq(raw_row@[k]@)
                            &&& cell.formatted_content@ == trim_seq(raw_row@[k]@)
                            &&& cell.colspan is None
                            &&& cell.rowspan is None
                            &&& cell.alignment is None
                            &&& cell.formatting is None
                            &&& cell.cell_type == (if is_blank(raw_row@[k]@) {
                                CellType::Empty
                            } else {
                                CellType::Data
                            })
                        },
                decreases raw_row@.len() - j,
            {
                let chars = chars_vec(raw_row[j].as_str());
                let trimmed = trim_chars(&chars);
                proof {
                    lemma_blank_trim(raw_row@[j as int]@);
                }
                let cell = if trimmed.len() == 0 {
                    TableCell::empty()
                } else {
                    TableCell::new(string_of(&trimmed))
                };
                row.add_cell(cell);
                j = j + 1;
            }
            proof {
                assert(i < usize::MAX) by {
                    assert(i < grid@.len());
                }
            }
            table.add_row(row);
            i = i + 1;
        }
        let ghost built = table;
        proof {
            assert(built_from(grid@, built));
        }
        self.process_table_data(&mut table);
        proof {
            let (t1, t2, t3) = choose|t1: TableData, t2: TableData, t3: TableData|
                #[trigger] pipeline_stages(self.config, built, t1, t2, t3, table);
            assert(built_from(grid@, built) && pipeline_stages(
                self.config,
                built,
                t1,
                t2,
                t3,
                table,
            ));
        }
        table
    }

    /// Classifies a cell's text: empty, numeric, date, boolean, or plain
    /// text, in that order.
    pub fn detect_cell_data_type(&self, content: &str) -> (r: CellDataType)
        ensures
            r == classify_text(content@),
    {
        let v = chars_vec(content);
        classify_chars(&v)
    }

    /// The numeric test, applied to the trimmed text.
    pub fn is_numeric_type(&self, text: &str) -> (r: bool)
        ensures
            r == is_numeric_text(trim_seq(text@)),
    {
        let v = chars_vec(text);
        let t = trim_chars(&v);
        numeric_text(&t)
    }

    /// The currency test.
    pub fn is_currency_pattern(&self, text: &str) -> (r: bool)
        ensures
            r == is_currency_text(text@),
    {
        let v = chars_vec(text);
        currency_text(&v)
    }

    /// The percentage test.
    pub fn is_percentage_pattern(&self, text: &str) -> (r: bool)
        ensures
            r == is_percent_text(text@),
    {
        let v = chars_vec(text);
        percent_text(&v)
    }

    /// The comma-grouped number test.
    pub fn is_formatted_number(&self, text: &str) -> (r: bool)
        ensures
            r == is_formatted_number_text(text@),
    {
        let v = chars_vec(text);
        formatted_number_text(&v)
    }

    /// The scientific-notation test.
    pub fn is_scientific_notation(&self, text: &str) -> (r: bool)
        ensures
            r == is_scientific_text(text@),
    {
        let v = chars_vec(text);
        scientific_text(&v)
    }

    /// The boolean-token test.
    pub fn is_boolean_type(&self, text: &str) -> (r: bool)
        ensures
            r == is_boolean_text(text@),
    {
        let v = chars_vec(text);
        boolean_text(&v)
    }

    /// The date and time test.
    pub fn is_date_pattern(&self, text: &str) -> (r: bool)
        ensures
            r == is_date_text(text@),
    {
        let v = chars_vec(text);
        date_text(&v)
    }

    /// The relative-date test.
    pub fn is_relative_date(&self, text: &str) -> (r: bool)
        ensures
            r == is_relative_text(text@),
    {
        let v = chars_vec(text);
        relative_text(&v)
    }

    /// Joins two formatting records; the overlay's set values win.
    pub fn merge_formatting(&self, base: CellFormatting, overlay: CellFormatting) -> (r:
        CellFormatting)
        ensures
            r.bold == (base.bold || overlay.bold),
            r.italic == (base.italic || overlay.italic),
            r.underline == (base.underline || overlay.underline),
            r.font_size == if overlay.font_size is Some {
                overlay.font_size
            } else {
                base.font_size
            },
            r.font_family == if overlay.font_family is Some {
                overlay.font_family
            } else {
                base.font_family
            },
            r.text_color == if overlay.text_color is Some {
                overlay.text_color
            } else {
                base.text_color
            },
            r.background_color == if overlay.background_color is Some {
                overlay.background_color
            } else {
                base.background_color
            },
    {
        let mut out = base;
        if overlay.bold {
            out.bold = true;
        }
        if overlay.italic {
            out.italic = true;
        }
        if overlay.underline {
            out.underline = true;
        }
        if overlay.font_size.is_some() {
            out.font_size = overlay.font_size;
        }
        if overlay.font_family.is_some() {
            out.font_family = overlay.font_family;
        }
        if overlay.text_color.is_some() {
            out.text_color = overlay.text_color;
        }
        if overlay.background_color.is_some() {
            out.background_color = overlay.background_color;
        }
        out
    }

    /// Maps a named highlight colour to its hex form; anything else is
    /// taken as a hex value already and only prefixed.
    pub fn convert_highlight_to_hex(&self, highlight: &str) -> (r: String)
        ensures
            r@ == hex_of_highlight(highlight@),
    {
        let v = chars_vec(highlight);
        let l = lower_chars(&v);
        let names: [&str; 15] = [
            "yellow", "green", "cyan", "magenta", "blue", "red", "darkblue", "darkcyan",
            "darkgreen", "darkmagenta", "darkred", "darkyellow", "darkgray", "lightgray", "black",
        ];
        let hexes: [&str; 15] = [
            "#FFFF00", "#00FF00", "#00FFFF", "#FF00FF", "#0000FF", "#FF0000", "#000080",
            "#008080", "#008000", "#800080", "#800000", "#808000", "#808080", "#C0C0C0",
            "#000000",
        ];
        let mut k: usize = 0;
        while k < 15
            invariant
                l@ == lower_seq(highlight@),
                names@.len() == 15,
                hexes@.len() == 15,
                names@ == seq![
                    "yellow", "green", "cyan", "magenta", "blue", "red", "darkblue", "darkcyan",
                    "darkgreen", "darkmagenta", "darkred", "darkyellow", "darkgray", "lightgray",
                    "black",
                ],
                hexes@ == seq![
                    "#FFFF00", "#00FF00", "#00FFFF", "#FF00FF", "#0000FF", "#FF0000", "#000080",
                    "#008080", "#008000", "#800080", "#800000", "#808000", "#808080", "#C0C0C0",
                    "#000000",
                ],
                k <= 15,
                forall|j: int| 0 <= j < k ==> l@ != (#[trigger] names@[j])@,
            decreases 15 - k,
        {
            let nm = chars_vec(names[k]);
            if eq_chars(&l, &nm) {
                proof {
                    assert(l@ == names@[k as int]@);
                }
                let out = String::from_str(hexes[k]);
                proof {
                    assert(out@ == hexes@[k as int]@);
                    assert(hex_of_highlight(highlight@) == out@) by {
                        lemma_highlight_table();
                    }
                }
                return out;
            }
            k = k + 1;
        }
        proof {
            lemma_highlight_table();
            assert(names@[0]@ == "yellow"@ && names@[1]@ == "green"@ && names@[2]@ == "cyan"@
                && names@[3]@ == "magenta"@ && names@[4]@ == "blue"@ && names@[5]@ == "red"@
                && names@[6]@ == "darkblue"@ && names@[7]@ == "darkcyan"@ && names@[8]@
                == "darkgreen"@ && names@[9]@ == "darkmagenta"@ && names@[10]@ == "darkred"@
                && names@[11]@ == "darkyellow"@ && names@[12]@ == "darkgray"@ && names@[13]@
                == "lightgray"@ && names@[14]@ == "black"@);
        }
        let mut out = String::from_str("#");
        out.append(highlight);
        proof {
            reveal_strlit("#");
            assert(out@ =~= seq!['#'] + highlight@);
        }
        out
    }
}

/// The highlight table: each known colour name's hex form, decided on the
/// lowered text; an unknown name is prefixed with `#` unchanged.
pub open spec fn hex_of_highlight(s: Seq<char>) -> Seq<char> {
    let l = lower_seq(s);
    if l == "yellow"@ { "#FFFF00"@ } else if l == "green"@ { "#00FF00"@ }
    else if l == "cyan"@ { "#00FFFF"@ } else if l == "magenta"@ { "#FF00FF"@ }
    else if l == "blue"@ { "#0000FF"@ } else if l == "red"@ { "#FF0000"@ }
    else if l == "darkblue"@ { "#000080"@ } else if l == "darkcyan"@ { "#008080"@ }
    else if l == "darkgreen"@ { "#008000"@ } else if l == "darkmagenta"@ { "#800080"@ }
    else if l == "darkred"@ { "#800000"@ } else if l == "darkyellow"@ { "#808000"@ }
    else if l == "darkgray"@ { "#808080"@ } else if l == "lightgray"@ { "#C0C0C0"@ }
    else if l == "black"@ { "#000000"@ }
    else { seq!['#'] + s }
}

/// The colour names are pairwise distinct, so at most one table row applies.
proof fn lemma_highlight_table()
    ensures
        "yellow"@ != "green"@ && "yellow"@ != "cyan"@,
{
    reveal_strlit("yellow");
    reveal_strlit("green");
    reveal_strlit("cyan");
    assert("yellow"@.len() == 6 && "green"@.len() == 5 && "cyan"@.len() == 4);
}

/// Grids whose rows have equal cell counts share their widest-row count.
pub proof fn lemma_same_lens_same_max(a: Seq<TableRow>, b: Seq<TableRow>)
    requires
        a.len() == b.len(),
        forall|q: int| 0 <= q < a.len() ==> (#[trigger] a[q]).cells@.len() == b[q].cells@.len(),
    ensures
        grid_max_cols(a) == grid_max_cols(b),
    decreases a.len(),
{
    if a.len() > 0 {
        lemma_same_lens_same_max(a.drop_last(), b.drop_last());
        assert(a.drop_last().len() == b.drop_last().len());
        assert(a.last().cells@.len() == b.last().cells@.len());
    }
}

impl CellFormatting {
    /// A formatting record with nothing set.
    pub fn new() -> (f: CellFormatting)
        ensures
            !f.bold && !f.italic && !f.underline,
            f.background_color is None,
            f.text_color is None,
            f.font_size is None,
            f.font_family is None,
    {
        CellFormatting {
            bold: false,
            italic: false,
            underline: false,
            background_color: None,
            text_color: None,
            font_size: None,
            font_family: None,
        }
    }

    /// Bold-only formatting.
    pub fn bold() -> (f: CellFormatting)
        ensures
            f.bold && !f.italic && !f.underline,
            f.background_color is None,
            f.text_color is None,
            f.font_size is None,
            f.font_family is None,
    {
        CellFormatting { bold: true, ..CellFormatting::new() }
    }

    /// Italic-only formatting.
    pub fn italic() -> (f: CellFormatting)
        ensures
            !f.bold && f.italic && !f.underline,
            f.background_color is None,
            f.text_color is None,
            f.font_size is None,
            f.font_family is None,
    {
        CellFormatting { italic: true, ..CellFormatting::new() }
    }

    /// Whether anything at all is set.
    pub fn has_formatting(&self) -> (r: bool)
        ensures
            r == crate::header::has_fmt(*self),
    {
        self.bold || self.italic || self.underline || self.background_color.is_some()
            || self.text_color.is_some() || self.font_size.is_some() || self.font_family.is_some()
    }

    /// Wraps the text in the markers for the set attributes: bold, then
    /// italic, then underline.
    pub fn apply_to_text(&self, text: &str) -> (r: String)
        ensures
            r@ == applied_text(*self, text@),
    {
        let mut out = String::from_str(text);
        if self.bold {
            let mut wrapped = String::from_str("**");
            wrapped.append(out.as_str());
            wrapped.append("**");
            out = wrapped;
        }
        if self.italic {
            let mut wrapped = String::from_str("*");
            wrapped.append(out.as_str());
            wrapped.append("*");
            out = wrapped;
        }
        if self.underline {
            let mut wrapped = String::from_str("__");
            wrapped.append(out.as_str());
            wrapped.append("__");
            out = wrapped;
        }
        out
    }
}

/// Markup application: bold, italic and underline markers wrap the text in
/// that order.
pub open spec fn applied_text(f: CellFormatting, s: Seq<char>) -> Seq<char> {
    let r1 = if f.bold {
        "**"@ + s + "**"@
    } else {
        s
    };
    let r2 = if f.italic {
        "*"@ + r1 + "*"@
    } else {
        r1
    };
    if f.underline {
        "__"@ + r2 + "__"@
    } else {
        r2
    }
}

impl TableExtractionConfig {
    /// The default configuration: structured extraction, header detection
    /// on, merges preserved, empty cells dropped.
    pub fn new() -> (c: TableExtractionConfig)
        ensures
            c.mode is Structured,
            c.detect_headers,
            !c.preserve_formatting,
            !c.include_empty_cells,
            c.merge_cells_handling is Preserve,
            c.output_format is PlainText,
    {
        TableExtractionConfig {
            mode: TableExtractionMode::Structured,
            detect_headers: true,
            preserve_formatting: false,
            include_empty_cells: false,
            merge_cells_handling: MergeCellsHandling::Preserve,
            output_format: TableOutputFormat::PlainText,
        }
    }

    /// Plain text extraction: no header detection, merges ignored.
    pub fn simple() -> (c: TableExtractionConfig)
        ensures
            c.mode is Simple,
            !c.detect_headers,
            !c.preserve_formatting,
            !c.include_empty_cells,
            c.merge_cells_handling is Ignore,
            c.output_format is PlainText,
    {
        TableExtractionConfig {
            mode: TableExtractionMode::Simple,
            detect_headers: false,
            preserve_formatting: false,
            include_empty_cells: false,
            merge_cells_handling: MergeCellsHandling::Ignore,
            output_format: TableOutputFormat::PlainText,
        }
    }

    /// Everything on: formatting kept, empty cells kept, JSON preferred.
    pub fn full() -> (c: TableExtractionConfig)
        ensures
            c.mode is Full,
            c.detect_headers,
            c.preserve_formatting,
            c.include_empty_cells,
            c.merge_cells_handling is Preserve,
            c.output_format is JSON,
    {
        TableExtractionConfig {
            mode: TableExtractionMode::Full,
            detect_headers: true,
            preserve_formatting: true,
            include_empty_cells: true,
            merge_cells_handling: MergeCellsHandling::Preserve,
            output_format: TableOutputFormat::JSON,
        }
    }

    /// Sets header detection.
    pub fn with_headers(self, detect: bool) -> (c: TableExtractionConfig)
        ensures
            c == (TableExtractionConfig { detect_headers: detect, ..self }),
    {
        TableExtractionConfig { detect_headers: detect, ..self }
    }

    /// Sets formatting preservation.
    pub fn with_formatting(self, preserve: bool) -> (c: TableExtractionConfig)
        ensures
            c == (TableExtractionConfig { preserve_formatting: preserve, ..self }),
    {
        TableExtractionConfig { preserve_formatting: preserve, ..self }
    }

    /// Sets the output format preference.
    pub fn with_output_format(self, format: TableOutputFormat) -> (c: TableExtractionConfig)
        ensures
            c == (TableExtractionConfig { output_format: format, ..c }),
            c.mode == self.mode,
            c.detect_headers == self.detect_headers,
            c.preserve_formatting == self.preserve_formatting,
            c.include_empty_cells == self.include_empty_cells,
            c.merge_cells_handling == self.merge_cells_handling,
            c.output_format == format,
    {
        TableExtractionConfig { output_format: format, ..self }
    }

    /// Sets the extraction mode.
    pub fn with_mode(self, mode: TableExtractionMode) -> (c: TableExtractionConfig)
        ensures
            c.mode == mode,
            c.detect_headers == self.detect_headers,
            c.preserve_formatting == self.preserve_formatting,
            c.include_empty_cells == self.include_empty_cells,
            c.merge_cells_handling == self.merge_cells_handling,
            c.output_format == self.output_format,
    {
        TableExtractionConfig { mode, ..self }
    }

    /// Sets the merge policy.
    pub fn with_merge_cells_handling(self, handling: MergeCellsHandling) -> (c:
        TableExtractionConfig)
        ensures
            c.merge_cells_handling == handling,
            c.mode == self.mode,
            c.detect_headers == self.detect_headers,
            c.preserve_formatting == self.preserve_formatting,
            c.include_empty_cells == self.include_empty_cells,
            c.output_format == self.output_format,
    {
        TableExtractionConfig { merge_cells_handling: handling, ..self }
    }

    /// Sets empty-cell inclusion.
    pub fn with_empty_cells(self, keep: bool) -> (c: TableExtractionConfig)
        ensures
            c.include_empty_cells == keep,
            c.mode == self.mode,
            c.detect_headers == self.detect_headers,
            c.preserve_formatting == self.preserve_formatting,
            c.merge_cells_handling == self.merge_cells_handling,
            c.output_format == self.output_format,
    {
        TableExtractionConfig { include_empty_cells: keep, ..self }
    }
}

/// Filtering a row's cells twice keeps exactly what one pass keeps: the
/// empty-cell filter is idempotent.
pub proof fn lemma_filter_cells_idempotent(cells: Seq<TableCell>)
    ensures
        cells.filter(|c: TableCell| keeps_cell(c)).filter(|c: TableCell| keeps_cell(c))
            == cells.filter(|c: TableCell| keeps_cell(c)),
    decreases cells.len(),
{
    reveal_with_fuel(Seq::filter, 2);
    if cells.len() == 0 {
        assert(cells.filter(|c: TableCell| keeps_cell(c)) =~= Seq::<TableCell>::empty());
        assert(cells.filter(|c: TableCell| keeps_cell(c)).filter(|c: TableCell| keeps_cell(c))
            =~= Seq::<TableCell>::empty());
    } else {
        lemma_filter_cells_idempotent(cells.drop_last());
        let f = |c: TableCell| keeps_cell(c);
        if keeps_cell(cells.last()) {
            assert(cells.filter(f) == cells.drop_last().filter(f).push(cells.last()));
            assert(cells.filter(f).drop_last() =~= cells.drop_last().filter(f));
            assert(cells.filter(f).last() == cells.last());
        } else {
            assert(cells.filter(f) == cells.drop_last().filter(f));
        }
    }
}

/// Filtering a table whose rows hold no empty cells changes nothing: on a
/// table already filtered, the pass is a no-op.
pub proof fn lemma_filter_cells_noop(cells: Seq<TableCell>)
    requires
        forall|j: int| 0 <= j < cells.len() ==> !cell_is_empty(#[trigger] cells[j]),
    ensures
        cells.filter(|c: TableCell| keeps_cell(c)) == cells,
    decreases cells.len(),
{
    reveal_with_fuel(Seq::filter, 2);
    if cells.len() == 0 {
        assert(cells.filter(|c: TableCell| keeps_cell(c)) =~= cells);
    } else {
        lemma_filter_cells_noop(cells.drop_last());
        let f = |c: TableCell| keeps_cell(c);
        assert(keeps_cell(cells.last()));
        assert(cells.filter(f) == cells.drop_last().filter(f).push(cells.last()));
        assert(cells.drop_last().push(cells.last()) =~= cells);
    }
}

/// Texts relate to themselves.
proof fn lemma_texts_refl(rows: Seq<TableRow>)
    ensures
        rows_texts(rows, rows),
{
    assert forall|q: int|
        0 <= q < rows.len() implies (#[trigger] rows[q]).cells@.len() == rows[q].cells@.len() && (
    forall|j: int|
        0 <= j < rows[q].cells@.len() ==> cell_same(
            #[trigger] rows[q].cells@[j],
            rows[q].cells@[j],
        )) by {}
}

/// Texts relate both ways.
proof fn lemma_texts_sym(a: Seq<TableRow>, b: Seq<TableRow>)
    requires
        rows_texts(a, b),
    ensures
        rows_texts(b, a),
{
    assert forall|q: int|
        0 <= q < b.len() implies (#[trigger] b[q]).cells@.len() == a[q].cells@.len() && (forall|
            j: int,
        |
            0 <= j < b[q].cells@.len() ==> cell_same(#[trigger] b[q].cells@[j], a[q].cells@[j]))
        by {
        assert forall|j: int|
            0 <= j < b[q].cells@.len() implies cell_same(
            #[trigger] b[q].cells@[j],
            a[q].cells@[j],
        ) by {
            assert(cell_same(a[q].cells@[j], b[q].cells@[j]));
        }
    }
}

/// Texts chain through intermediate states.
proof fn lemma_texts_trans(a: Seq<TableRow>, b: Seq<TableRow>, c: Seq<TableRow>)
    requires
        rows_texts(a, b),
        rows_texts(b, c),
    ensures
        rows_texts(a, c),
{
    assert forall|q: int|
        0 <= q < a.len() implies (#[trigger] a[q]).cells@.len() == c[q].cells@.len() && (forall|
            j: int,
        |
            0 <= j < a[q].cells@.len() ==> cell_same(#[trigger] a[q].cells@[j], c[q].cells@[j]))
        by {
        assert(a[q].cells@.len() == b[q].cells@.len());
        assert forall|j: int|
            0 <= j < a[q].cells@.len() implies cell_same(
            #[trigger] a[q].cells@[j],
            c[q].cells@[j],
        ) by {
            assert(cell_same(a[q].cells@[j], b[q].cells@[j]));
            assert(cell_same(b[q].cells@[j], c[q].cells@[j]));
        }
    }
}

/// With empty cells kept and merges preserved, no stage of the pipeline
/// changes a cell's text or formatting.
proof fn lemma_stage_texts(
    cfg: TableExtractionConfig,
    t0: TableData,
    t1: TableData,
    t2: TableData,
    t3: TableData,
    t4: TableData,
)
    requires
        cfg.include_empty_cells,
        cfg.merge_cells_handling is Preserve,
        pipeline_stages(cfg, t0, t1, t2, t3, t4),
    ensures
        rows_texts(t0.rows@, t1.rows@),
        rows_texts(t1.rows@, t2.rows@),
        rows_texts(t2.rows@, t4.rows@),
        rows_texts(t0.rows@, t4.rows@),
{
    lemma_texts_refl(t0.rows@);
    assert(t1.rows@ == t0.rows@);
    lemma_texts_refl(t1.rows@);
    // Header stage: only the first row's cell kinds may change.
    assert(rows_texts(t1.rows@, t2.rows@)) by {
        if cfg.detect_headers && header_confident(t1) {
            assert forall|q: int|
                0 <= q < t1.rows@.len() implies (#[trigger] t1.rows@[q]).cells@.len()
                == t2.rows@[q].cells@.len() && (forall|j: int|
                0 <= j < t1.rows@[q].cells@.len() ==> cell_same(
                    #[trigger] t1.rows@[q].cells@[j],
                    t2.rows@[q].cells@[j],
                )) by {
                if q == 0 {
                    assert forall|j: int|
                        0 <= j < t1.rows@[0].cells@.len() implies cell_same(
                        #[trigger] t1.rows@[0].cells@[j],
                        t2.rows@[0].cells@[j],
                    ) by {
                        assert(t2.rows@[0].cells@[j] == (TableCell {
                            cell_type: CellType::Header,
                            ..t1.rows@[0].cells@[j]
                        }));
                    }
                } else {
                    assert(t2.rows@[q] == t1.rows@[q]);
                    lemma_texts_refl(t1.rows@);
                }
            }
        } else {
            assert(t2 == t1);
        }
    }
    // Merge stage under Preserve: marking keeps every text.
    assert(rows_texts(t2.rows@, t3.rows@)) by {
        assert forall|q: int|
            0 <= q < t2.rows@.len() implies (#[trigger] t2.rows@[q]).cells@.len()
            == t3.rows@[q].cells@.len() && (forall|j: int|
            0 <= j < t2.rows@[q].cells@.len() ==> cell_same(
                #[trigger] t2.rows@[q].cells@[j],
                t3.rows@[q].cells@[j],
            )) by {
            assert forall|j: int|
                0 <= j < t2.rows@[q].cells@.len() implies cell_same(
                #[trigger] t2.rows@[q].cells@[j],
                t3.rows@[q].cells@[j],
            ) by {
                assert(t3.rows@[q].cells@[j] == marked_state(t2, q, j));
            }
        }
    }
    // Filter stage skipped.
    assert(t4 == t3);
    lemma_texts_trans(t1.rows@, t2.rows@, t4.rows@);
    lemma_texts_trans(t0.rows@, t1.rows@, t4.rows@);
}

/// Running the pipeline a second time over its own output, with header
/// detection re-run, merges preserved and empty cells kept, changes neither
/// the recorded headers nor any merged cell: detection sees the same texts
/// and decides the same way, and marking finds the same ranges.  The first
/// run must start from a table without merged cells, as a freshly built
/// table is; a table that arrives with a merged cell the content scans do
/// not justify can lose that mark when detection claims its row.
pub proof fn lemma_pipeline_rerun_stable(
    cfg: TableExtractionConfig,
    p0: TableData,
    p1: TableData,
    p2: TableData,
    p3: TableData,
    t0: TableData,
    q1: TableData,
    q2: TableData,
    q3: TableData,
    t4: TableData,
)
    requires
        cfg.include_empty_cells,
        cfg.merge_cells_handling is Preserve,
        forall|r: int, c: int|
            0 <= r < p0.rows@.len() && 0 <= c < p0.rows@[r].cells@.len() ==> !((
            #[trigger] p0.rows@[r].cells@[c]).cell_type is Merged),
        pipeline_stages(cfg, p0, p1, p2, p3, t0),
        pipeline_stages(cfg, t0, q1, q2, q3, t4),
    ensures
        t4.has_header == t0.has_header,
        match (t4.headers, t0.headers) {
            (Some(h4), Some(h0)) => h4@.map_values(|s: String| s@) == h0@.map_values(
                |s: String| s@,
            ),
            (None, None) => true,
            _ => false,
        },
        t4.rows@.len() == t0.rows@.len(),
        forall|r: int, c: int|
            0 <= r < t0.rows@.len() && 0 <= c < t0.rows@[r].cells@.len() && (
            #[trigger] t0.rows@[r].cells@[c]).cell_type is Merged ==> t4.rows@[r].cells@[c].cell_type
                is Merged && t4.rows@[r].cells@[c].colspan == t0.rows@[r].cells@[c].colspan
                && t4.rows@[r].cells@[c].rowspan == t0.rows@[r].cells@[c].rowspan,
{
    lemma_stage_texts(cfg, p0, p1, p2, p3, t0);
    lemma_stage_texts(cfg, t0, q1, q2, q3, t4);
    // Detection decides the same way on both runs.
    assert(q1.rows@ == t0.rows@);
    assert(p1.rows@ == p0.rows@);
    lemma_texts_trans(p1.rows@, p2.rows@, t0.rows@);
    assert(rows_texts(p1.rows@, q1.rows@));
    lemma_confident_texts(p1, q1);
    let detected = cfg.detect_headers && header_confident(p1);
    // Headers and the flag survive the second run.
    assert(t0.headers == p2.headers && t0.has_header == p2.has_header);
    assert(t4.headers == q2.headers && t4.has_header == q2.has_header);
    if detected {
        assert(p1.rows@.len() > 0);
        assert forall|j: int|
            0 <= j < p1.rows@[0].cells@.len() implies cell_same(
            #[trigger] p1.rows@[0].cells@[j],
            q1.rows@[0].cells@[j],
        ) by {}
        lemma_headers_of_corr(p1.rows@[0], q1.rows@[0]);
        assert(headers_of(p1.rows@[0]) == headers_of(q1.rows@[0]));
    } else {
        assert(q2 == q1);
        assert(q1.headers == t0.headers && q1.has_header == t0.has_header);
    }
    // Merged cells come only from detected ranges, which both runs find
    // alike.
    assert forall|r: int, c: int|
        0 <= r < t0.rows@.len() && 0 <= c < t0.rows@[r].cells@.len() && (
        #[trigger] t0.rows@[r].cells@[c]).cell_type is Merged implies t4.rows@[r].cells@[c].cell_type
        is Merged && t4.rows@[r].cells@[c].colspan == t0.rows@[r].cells@[c].colspan
        && t4.rows@[r].cells@[c].rowspan == t0.rows@[r].cells@[c].rowspan by {
        assert(p2.rows@.len() == t0.rows@.len() && p2.rows@[r].cells@.len()
            == t0.rows@[r].cells@.len());
        assert(t0.rows@[r].cells@[c] == marked_state(p2, r, c));
        // The base cell of the first run is never merged, so the mark can
        // only come from a covering range.
        assert(!(p2.rows@[r].cells@[c].cell_type is Merged)) by {
            if cfg.detect_headers && header_confident(p1) {
                if r == 0 {
                    assert(p2.rows@[0].cells@[c] == (TableCell {
                        cell_type: CellType::Header,
                        ..p1.rows@[0].cells@[c]
                    }));
                } else {
                    assert(p2.rows@[r] == p1.rows@[r]);
                    assert(!(p0.rows@[r].cells@[c].cell_type is Merged));
                }
            } else {
                assert(p2 == p1);
                assert(!(p0.rows@[r].cells@[c].cell_type is Merged));
            }
        }
        assert(cover(v_scan(p2.rows@, c, 0, None), r) is Some || cover(
            h_scan(p2.rows@[r].cells@, 0, None),
            c,
        ) is Some);
        // The second run marks the same ranges over the same texts.
        lemma_texts_sym(q1.rows@, q2.rows@);
        lemma_texts_sym(p2.rows@, t0.rows@);
        lemma_texts_trans(q2.rows@, t0.rows@, p2.rows@);
        lemma_mark_stable(p2, q2, r, c);
        assert(t4.rows@[r].cells@[c] == marked_state(q2, r, c));
    }
}

} // verus!
