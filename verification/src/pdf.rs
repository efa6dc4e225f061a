//! The page model of a print document and the table-extraction rules that
//! read tables out of its plain text: candidate lines, cell splitting,
//! normalization and validation, with a text renderer for the result.

use vstd::prelude::*;
use vstd::string::*;
use crate::chars::{
    chars_vec, string_of, push_char, trim_chars, trim_seq, is_ws, is_ws_char, is_digit_char,
    contains_seq, matches_at, contains_chars, match_at, split_from_char, split_char, lines_of,
    lines_vec, wrun, lemma_wrun_props, scan_ws, usize_to_string, dec_str,
};
use crate::ppt_model::{cnt_occ, count_occ};

verus! {

/// A table found on a page: the page number, the grid, and the header row
/// when the first row looks like one.
#[derive(Debug, Clone)]
pub struct Table {
    pub page: usize,
    pub data: Vec<Vec<String>>,
    pub headers: Option<Vec<String>>,
}

/// One page: its number, its text, and its tables.
#[derive(Debug, Clone)]
pub struct Page {
    pub number: usize,
    pub text: String,
    pub tables: Vec<Table>,
}

/// Document properties, dates already rendered as text.
#[derive(Debug, Clone)]
pub struct PdfMetadata {
    pub title: Option<String>,
    pub author: Option<String>,
    pub subject: Option<String>,
    pub creator: Option<String>,
    pub producer: Option<String>,
    pub creation_date: Option<String>,
    pub modification_date: Option<String>,
    pub page_count: usize,
    pub file_size: u64,
}

/// A parsed document: pages, properties and every table found.
#[derive(Debug, Clone)]
pub struct PdfData {
    pub pages: Vec<Page>,
    pub metadata: PdfMetadata,
    pub tables: Vec<Table>,
}

/// The table-extraction rules.
pub struct PdfParser;

/// A three-character run of whitespace starts somewhere in `s`.
pub open spec fn has_ws_run3(s: Seq<char>) -> bool {
    exists|k: int|
        0 <= k && k + 3 <= s.len() && is_ws_char(s[k]) && is_ws_char(s[k + 1]) && is_ws_char(
            #[trigger] s[k + 2],
        )
}

/// A trimmed line could be a table row: it is five to two hundred characters,
/// is no heading, comment or link, and shows a tab, a wide gap or two pipes.
pub open spec fn row_candidate(line: Seq<char>) -> bool {
    let t = trim_seq(line);
    t.len() >= 5 && !(t[0] == '#') && !matches_at(t, "//"@, 0) && !matches_at(t, "/*"@, 0)
        && !matches_at(t, "http"@, 0) && !contains_seq(t, "://"@) && t.len() <= 200 && (
    contains_seq(t, seq!['\t']) || has_ws_run3(t) || cnt_occ(t, seq!['|'], 0) >= 2)
}

/// The position where the cell that starts at `i` ends: the first start of a
/// two-character whitespace gap, or the end of the line.
pub open spec fn gap_at(s: Seq<char>, i: int) -> int
    decreases s.len() - i,
{
    if i < 0 || i + 2 > s.len() {
        s.len() as int
    } else if is_ws_char(s[i]) && is_ws_char(s[i + 1]) {
        i
    } else {
        gap_at(s, i + 1)
    }
}

proof fn lemma_gap_at(s: Seq<char>, i: int)
    requires
        0 <= i <= s.len(),
    ensures
        i <= gap_at(s, i) <= s.len(),
        gap_at(s, i) + 2 <= s.len() ==> is_ws_char(s[gap_at(s, i)]) && is_ws_char(
            s[gap_at(s, i) + 1],
        ),
        gap_at(s, i) + 2 > s.len() ==> gap_at(s, i) == s.len(),
    decreases s.len() - i,
{
    if i + 2 <= s.len() && !(is_ws_char(s[i]) && is_ws_char(s[i + 1])) {
        lemma_gap_at(s, i + 1);
    }
}

/// The pieces of `s` from `i` on, cut at whitespace gaps of two or more.
pub open spec fn split_gaps(s: Seq<char>, i: int) -> Seq<Seq<char>>
    decreases s.len() - i,
    when 0 <= i <= s.len()
    via split_gaps_dec
{
    let e = gap_at(s, i);
    if e >= s.len() {
        seq![s.subrange(i, s.len() as int)]
    } else {
        seq![s.subrange(i, e)] + split_gaps(s, e + 2 + wrun(s, e + 2))
    }
}

#[via_fn]
proof fn split_gaps_dec(s: Seq<char>, i: int) {
    let e = gap_at(s, i);
    lemma_gap_at(s, i);
    if e < s.len() {
        lemma_wrun_props(s, e + 2);
    }
}

/// Pipe segments are kept up to the first empty one, unless the line closes
/// with a pipe.
pub open spec fn take_nonempty(segs: Seq<Seq<char>>) -> Seq<Seq<char>>
    decreases segs.len(),
{
    if segs.len() == 0 || segs[0].len() == 0 {
        Seq::empty()
    } else {
        seq![segs[0]] + take_nonempty(segs.drop_first())
    }
}

/// The raw cells of a pipe-separated line: the split, without a leading
/// empty piece, cut at the first empty piece unless the line ends in a pipe.
pub open spec fn pipe_cells(t: Seq<char>) -> Seq<Seq<char>> {
    let segs0 = split_from_char(t, '|', 0);
    let segs1 = if t.len() > 0 && t[0] == '|' {
        segs0.drop_first()
    } else {
        segs0
    };
    if t.len() > 0 && t[t.len() - 1] == '|' {
        segs1
    } else {
        take_nonempty(segs1)
    }
}

/// The index of the first non-empty cell, or the length.
pub open spec fn first_filled(cells: Seq<Seq<char>>, i: int) -> int
    decreases cells.len() - i,
{
    if i < 0 || i >= cells.len() {
        cells.len() as int
    } else if cells[i].len() > 0 {
        i
    } else {
        first_filled(cells, i + 1)
    }
}

/// One past the index of the last non-empty cell, or zero.
pub open spec fn last_filled(cells: Seq<Seq<char>>, i: int) -> int
    decreases i,
{
    if i <= 0 || i > cells.len() {
        0
    } else if cells[i - 1].len() > 0 {
        i
    } else {
        last_filled(cells, i - 1)
    }
}

/// The cells of one line: split at tabs when any, else at pipes when at
/// least two, else at wide whitespace gaps; each cell trimmed, and empty
/// edges dropped. Anything shorter than two cells is no row.
pub open spec fn cells_of_line(line: Seq<char>) -> Seq<Seq<char>> {
    let t = trim_seq(line);
    let raw = if contains_seq(t, seq!['\t']) {
        split_from_char(t, '\t', 0)
    } else if cnt_occ(t, seq!['|'], 0) >= 2 {
        pipe_cells(t)
    } else {
        split_gaps(t, 0)
    };
    let cells = raw.map_values(|c: Seq<char>| trim_seq(c));
    let a = first_filled(cells, 0);
    let b = last_filled(cells, cells.len() as int);
    if a < b && b > a + 1 {
        cells.subrange(a, b)
    } else {
        Seq::empty()
    }
}

impl PdfParser {
    /// A parser.
    pub fn new() -> (p: PdfParser) {
        PdfParser
    }

    /// Whether a line could be a table row.
    pub fn could_be_table_row(&self, line: &str) -> (r: bool)
        ensures
            r == row_candidate(line@),
    {
        let v = chars_vec(line);
        let t = trim_chars(&v);
        let n = t.len();
        if n < 5 || n > 200 {
            return false;
        }
        if t[0] == '#' {
            return false;
        }
        let slash2 = chars_vec("//");
        let slashstar = chars_vec("/*");
        let http = chars_vec("http");
        let link = chars_vec("://");
        proof {
            reveal_strlit("//");
            reveal_strlit("/*");
            reveal_strlit("http");
            reveal_strlit("://");
        }
        if match_at(&t, &slash2, 0) || match_at(&t, &slashstar, 0) || match_at(&t, &http, 0) {
            return false;
        }
        if contains_chars(&t, &link) {
            return false;
        }
        // A tab anywhere.
        let mut has_tab = false;
        let mut i: usize = 0;
        while i < n
            invariant
                n == t@.len(),
                i <= n,
                has_tab == exists|k: int| 0 <= k < i && (#[trigger] t@[k]) == '\t',
            decreases n - i,
        {
            if t[i] == '\t' {
                has_tab = true;
            }
            i = i + 1;
        }
        if has_tab {
            proof {
                assert(contains_seq(t@, seq!['\t'])) by {
                    let k = choose|k: int| 0 <= k < n && t@[k] == '\t';
                    assert(t@.subrange(k, k + 1) =~= seq!['\t']);
                    assert(matches_at(t@, seq!['\t'], k));
                }
            }
            return true;
        }
        // A run of three whitespace characters.
        let mut has_gap = false;
        let mut j: usize = 0;
        while j + 3 <= n
            invariant
                n == t@.len(),
                n <= 200,
                j <= n,
                has_gap == exists|k: int|
                    0 <= k < j && k + 3 <= n && is_ws_char(t@[k]) && is_ws_char(t@[k + 1])
                        && is_ws_char(#[trigger] t@[k + 2]),
            decreases n - j,
        {
            if is_ws(t[j]) && is_ws(t[j + 1]) && is_ws(t[j + 2]) {
                has_gap = true;
            }
            j = j + 1;
        }
        if has_gap {
            return true;
        }
        proof {
            assert(!has_ws_run3(t@)) by {
                if has_ws_run3(t@) {
                    let k = choose|k: int|
                        0 <= k && k + 3 <= t@.len() && is_ws_char(t@[k]) && is_ws_char(t@[k + 1])
                            && is_ws_char(#[trigger] t@[k + 2]);
                    assert(0 <= k < n && k + 3 <= n);
                }
            }
        }
        // At least two pipes.
        let pipe = chars_vec("|");
        proof {
            reveal_strlit("|");
            assert(pipe@ =~= seq!['|']);
        }
        let pipes = count_occ(&t, &pipe);
        proof {
            if contains_seq(t@, seq!['\t']) {
                let k = choose|k: int| matches_at(t@, seq!['\t'], k);
                assert(t@.subrange(k, k + 1)[0] == t@[k]);
                assert(t@[k] == '\t');
                assert(false);
            }
        }
        pipes >= 2
    }
}

/// Splits at whitespace gaps of two or more characters.
fn split_on_gaps(t: &Vec<char>) -> (out: Vec<Vec<char>>)
    ensures
        out@.map_values(|c: Vec<char>| c@) == split_gaps(t@, 0),
{
    let n = t.len();
    let mut out: Vec<Vec<char>> = Vec::new();
    let mut i: usize = 0;
    let mut done = false;
    proof {
        assert(out@.map_values(|c: Vec<char>| c@) + split_gaps(t@, 0) =~= split_gaps(t@, 0));
    }
    while !done
        invariant
            n == t@.len(),
            i <= n,
            !done ==> out@.map_values(|c: Vec<char>| c@) + split_gaps(t@, i as int) == split_gaps(
                t@,
                0,
            ),
            done ==> out@.map_values(|c: Vec<char>| c@) == split_gaps(t@, 0),
        decreases n - i + (if done { 0int } else { 1int }),
    {
        // The end of the cell that starts at `i`.
        let mut j: usize = i;
        while n >= 2 && j < n - 1 && !(is_ws(t[j]) && is_ws(t[j + 1]))
            invariant
                n == t@.len(),
                i <= j <= n,
                gap_at(t@, i as int) == gap_at(t@, j as int),
            decreases n - j,
        {
            j = j + 1;
        }
        let e: usize = if n >= 2 && j < n - 1 {
            j
        } else {
            n
        };
        proof {
            assert(e == gap_at(t@, i as int));
        }
        let mut cell: Vec<char> = Vec::new();
        let mut k: usize = i;
        while k < e
            invariant
                i <= k <= e <= n,
                n == t@.len(),
                cell@ == t@.subrange(i as int, k as int),
            decreases e - k,
        {
            cell.push(t[k]);
            proof {
                assert(cell@ =~= t@.subrange(i as int, k + 1));
            }
            k = k + 1;
        }
        let ghost out0 = out@;
        out.push(cell);
        proof {
            assert(out@.map_values(|c: Vec<char>| c@) =~= out0.map_values(|c: Vec<char>| c@).push(
                t@.subrange(i as int, e as int),
            ));
        }
        if e >= n {
            done = true;
            proof {
                assert(split_gaps(t@, i as int) =~= seq![t@.subrange(i as int, n as int)]);
                assert(out@.map_values(|c: Vec<char>| c@) =~= out0.map_values(|c: Vec<char>| c@)
                    + split_gaps(t@, i as int));
            }
        } else {
            let run = scan_ws(t, e + 2);
            proof {
                assert(split_gaps(t@, i as int) == seq![t@.subrange(i as int, e as int)]
                    + split_gaps(t@, e + 2 + wrun(t@, e + 2)));
                assert(out0.map_values(|c: Vec<char>| c@) + split_gaps(t@, i as int)
                    =~= out@.map_values(|c: Vec<char>| c@) + split_gaps(
                    t@,
                    e + 2 + wrun(t@, e + 2),
                ));
                lemma_wrun_props(t@, e + 2);
            }
            i = e + 2 + run;
        }
    }
    out
}

/// Trims every cell of a split row.
fn trim_cells(raw: &Vec<Vec<char>>) -> (out: Vec<Vec<char>>)
    ensures
        out@.map_values(|c: Vec<char>| c@) == raw@.map_values(|c: Vec<char>| c@).map_values(
            |c: Seq<char>| trim_seq(c),
        ),
{
    let ghost target = raw@.map_values(|c: Vec<char>| c@).map_values(|c: Seq<char>| trim_seq(c));
    let n = raw.len();
    let mut out: Vec<Vec<char>> = Vec::new();
    let mut i: usize = 0;
    while i < n
        invariant
            n == raw@.len(),
            target == raw@.map_values(|c: Vec<char>| c@).map_values(|c: Seq<char>| trim_seq(c)),
            i <= n,
            out@.map_values(|c: Vec<char>| c@) =~= target.subrange(0, i as int),
        decreases n - i,
    {
        let tcell = trim_chars(&raw[i]);
        let ghost out0 = out@;
        out.push(tcell);
        proof {
            assert(out@.map_values(|c: Vec<char>| c@) =~= out0.map_values(
                |c: Vec<char>| c@,
            ).push(trim_seq(raw@[i as int]@)));
            assert(target[i as int] == trim_seq(raw@[i as int]@));
            assert(out@.map_values(|c: Vec<char>| c@) =~= target.subrange(0, i + 1));
        }
        i = i + 1;
    }
    proof {
        assert(target.subrange(0, n as int) =~= target);
    }
    out
}

impl PdfParser {
    /// Parses one line into its trimmed cells; a line that yields fewer than
    /// two filled cells yields none.
    pub fn parse_table_row(&self, line: &str) -> (r: Vec<String>)
        ensures
            r@.map_values(|s: String| s@) == cells_of_line(line@),
    {
        let v = chars_vec(line);
        let t = trim_chars(&v);
        let n = t.len();
        // Which separator rules the line.
        let mut has_tab = false;
        let mut i: usize = 0;
        while i < n
            invariant
                n == t@.len(),
                i <= n,
                has_tab == exists|k: int| 0 <= k < i && (#[trigger] t@[k]) == '\t',
            decreases n - i,
        {
            if t[i] == '\t' {
                has_tab = true;
            }
            i = i + 1;
        }
        proof {
            if has_tab {
                let k = choose|k: int| 0 <= k < n && t@[k] == '\t';
                assert(t@.subrange(k, k + 1) =~= seq!['\t']);
                assert(matches_at(t@, seq!['\t'], k));
            } else if contains_seq(t@, seq!['\t']) {
                let k = choose|k: int| matches_at(t@, seq!['\t'], k);
                assert(t@.subrange(k, k + 1)[0] == t@[k]);
                assert(false);
            }
        }
        let raw: Vec<Vec<char>>;
        if has_tab {
            raw = split_char(&t, '\t');
        } else {
            let pipe = chars_vec("|");
            proof {
                reveal_strlit("|");
                assert(pipe@ =~= seq!['|']);
            }
            let pipes = count_occ(&t, &pipe);
            if pipes >= 2 {
                let segs = split_char(&t, '|');
                let ghost segs0 = split_from_char(t@, '|', 0);
                let mut kept: Vec<Vec<char>> = Vec::new();
                let start: usize = if n > 0 && t[0] == '|' {
                    1
                } else {
                    0
                };
                let ghost segs1 = if t@.len() > 0 && t@[0] == '|' {
                    segs0.drop_first()
                } else {
                    segs0
                };
                proof {
                    crate::chars::lemma_crun_props(t@, '|', 0);
                    assert(segs0.len() > 0);
                    assert(segs1 =~= segs0.subrange(start as int, segs0.len() as int));
                }
                if n > 0 && t[n - 1] == '|' {
                    // Keep every segment.
                    let mut q: usize = start;
                    while q < segs.len()
                        invariant
                            segs@.map_values(|w: Vec<char>| w@) == segs0,
                            start <= q <= segs@.len(),
                            segs1 =~= segs0.subrange(start as int, segs0.len() as int),
                            kept@.map_values(|w: Vec<char>| w@) =~= segs0.subrange(
                                start as int,
                                q as int,
                            ),
                        decreases segs@.len() - q,
                    {
                        let mut c: Vec<char> = Vec::new();
                        let seg = &segs[q];
                        let mut z: usize = 0;
                        while z < seg.len()
                            invariant
                                z <= seg@.len(),
                                c@ =~= seg@.subrange(0, z as int),
                            decreases seg@.len() - z,
                        {
                            c.push(seg[z]);
                            proof {
                                assert(c@ =~= seg@.subrange(0, z + 1));
                            }
                            z = z + 1;
                        }
                        proof {
                            assert(c@ =~= seg@);
                        }
                        let ghost kept0 = kept@;
                        kept.push(c);
                        proof {
                            assert(kept@.map_values(|w: Vec<char>| w@) =~= kept0.map_values(
                                |w: Vec<char>| w@,
                            ).push(segs0[q as int]));
                            assert(kept@.map_values(|w: Vec<char>| w@) =~= segs0.subrange(
                                start as int,
                                q + 1,
                            ));
                        }
                        q = q + 1;
                    }
                    proof {
                        assert(kept@.map_values(|w: Vec<char>| w@) =~= segs1);
                        assert(segs1 =~= pipe_cells(t@));
                    }
                } else {
                    // Keep segments up to the first empty one.
                    let mut q: usize = start;
                    let mut stopped = false;
                    while q < segs.len() && !stopped
                        invariant
                            segs@.map_values(|w: Vec<char>| w@) == segs0,
                            start <= q <= segs@.len(),
                            segs1 =~= segs0.subrange(start as int, segs0.len() as int),
                            !stopped ==> kept@.map_values(|w: Vec<char>| w@) + take_nonempty(
                                segs0.subrange(q as int, segs0.len() as int),
                            ) =~= take_nonempty(segs1),
                            stopped ==> kept@.map_values(|w: Vec<char>| w@) =~= take_nonempty(
                                segs1,
                            ),
                        decreases segs@.len() - q + (if stopped { 0int } else { 1int }),
                    {
                        let seg = &segs[q];
                        if seg.len() == 0 {
                            proof {
                                let tail = segs0.subrange(q as int, segs0.len() as int);
                                assert(tail[0].len() == 0);
                                assert(take_nonempty(tail) =~= Seq::<Seq<char>>::empty());
                            }
                            stopped = true;
                        } else {
                            let mut c: Vec<char> = Vec::new();
                            let mut z: usize = 0;
                            while z < seg.len()
                                invariant
                                    z <= seg@.len(),
                                    c@ =~= seg@.subrange(0, z as int),
                                decreases seg@.len() - z,
                            {
                                c.push(seg[z]);
                                proof {
                                    assert(c@ =~= seg@.subrange(0, z + 1));
                                }
                                z = z + 1;
                            }
                            proof {
                                assert(c@ =~= seg@);
                            }
                            let ghost kept0 = kept@;
                            kept.push(c);
                            proof {
                                assert(kept@.map_values(|w: Vec<char>| w@) =~= kept0.map_values(
                                    |w: Vec<char>| w@,
                                ).push(segs0[q as int]));
                                let tail = segs0.subrange(q as int, segs0.len() as int);
                                assert(tail[0] == segs0[q as int]);
                                assert(tail.drop_first() =~= segs0.subrange(
                                    q + 1,
                                    segs0.len() as int,
                                ));
                                assert(take_nonempty(tail) =~= seq![segs0[q as int]]
                                    + take_nonempty(segs0.subrange(q + 1, segs0.len() as int)));
                            }
                            q = q + 1;
                        }
                    }
                    proof {
                        if !stopped {
                            assert(segs0.subrange(q as int, segs0.len() as int)
                                =~= Seq::<Seq<char>>::empty());
                            assert(take_nonempty(Seq::<Seq<char>>::empty())
                                =~= Seq::<Seq<char>>::empty());
                        }
                        assert(kept@.map_values(|w: Vec<char>| w@) =~= take_nonempty(segs1));
                        assert(take_nonempty(segs1) =~= pipe_cells(t@));
                    }
                }
                raw = kept;
            } else {
                raw = split_on_gaps(&t);
            }
        }
        let cells = trim_cells(&raw);
        let ghost cv = raw@.map_values(|c: Vec<char>| c@).map_values(|c: Seq<char>| trim_seq(c));
        let m = cells.len();
        // The filled stretch.
        let mut a: usize = 0;
        while a < m && cells[a].len() == 0
            invariant
                m == cells@.len(),
                cv == cells@.map_values(|c: Vec<char>| c@),
                a <= m,
                first_filled(cv, 0) == first_filled(cv, a as int),
            decreases m - a,
        {
            a = a + 1;
        }
        let mut b: usize = m;
        while b > 0 && cells[b - 1].len() == 0
            invariant
                m == cells@.len(),
                cv == cells@.map_values(|c: Vec<char>| c@),
                b <= m,
                last_filled(cv, m as int) == last_filled(cv, b as int),
            decreases b,
        {
            b = b - 1;
        }
        proof {
            assert(a == first_filled(cv, 0));
            assert(b == last_filled(cv, m as int));
        }
        let mut out: Vec<String> = Vec::new();
        if a < b && b > a + 1 {
            let mut w: usize = a;
            while w < b
                invariant
                    m == cells@.len(),
                    cv == cells@.map_values(|c: Vec<char>| c@),
                    a <= w <= b <= m,
                    out@.map_values(|s: String| s@) =~= cv.subrange(a as int, w as int),
                decreases b - w,
            {
                let sv = string_of(&cells[w]);
                let ghost outp = out@;
                out.push(sv);
                proof {
                    assert(out@.map_values(|s: String| s@) =~= outp.map_values(
                        |s: String| s@,
                    ).push(cv[w as int]));
                    assert(out@.map_values(|s: String| s@) =~= cv.subrange(a as int, w + 1));
                }
                w = w + 1;
            }
            proof {
                assert(out@.map_values(|s: String| s@) =~= cells_of_line(line@));
            }
        } else {
            proof {
                assert(out@.map_values(|s: String| s@) =~= cells_of_line(line@));
            }
        }
        out
    }
}

/// The parsed rows of a block's lines, in order, empty parses dropped.
pub open spec fn raw_rows(lines: Seq<Seq<char>>, k: int) -> Seq<Seq<Seq<char>>>
    decreases k,
{
    if k <= 0 {
        Seq::empty()
    } else {
        raw_rows(lines, k - 1) + (if cells_of_line(lines[k - 1]).len() > 0 {
            seq![cells_of_line(lines[k - 1])]
        } else {
            Seq::empty()
        })
    }
}

/// The widest row.
pub open spec fn rows_maxc(rows: Seq<Seq<Seq<char>>>) -> int
    decreases rows.len(),
{
    if rows.len() == 0 {
        0
    } else {
        let rest = rows_maxc(rows.drop_last());
        if rows.last().len() > rest {
            rows.last().len() as int
        } else {
            rest
        }
    }
}

/// A row padded with empty cells to `m` columns.
pub open spec fn pad_row(row: Seq<Seq<char>>, m: int) -> Seq<Seq<char>> {
    Seq::new(m as nat, |j: int| if j < row.len() {
        row[j]
    } else {
        Seq::empty()
    })
}

/// A block's lines as one normalized table: every row padded to the widest.
pub open spec fn table_of_lines(lines: Seq<Seq<char>>) -> Seq<Seq<Seq<char>>> {
    let rows = raw_rows(lines, lines.len() as int);
    rows.map_values(|row: Seq<Seq<char>>| pad_row(row, rows_maxc(rows)))
}

/// The candidate blocks: maximal stretches of at least two candidate lines.
pub open spec fn blocks_from(lines: Seq<Seq<char>>, i: int, cur: Seq<Seq<char>>) -> Seq<
    Seq<Seq<char>>,
>
    decreases lines.len() - i,
{
    if i < 0 || i >= lines.len() {
        if cur.len() >= 2 {
            seq![cur]
        } else {
            Seq::empty()
        }
    } else if row_candidate(lines[i]) {
        blocks_from(lines, i + 1, cur.push(lines[i]))
    } else {
        (if cur.len() >= 2 {
            seq![cur]
        } else {
            Seq::empty()
        }) + blocks_from(lines, i + 1, Seq::empty())
    }
}

/// The count of non-blank cells.
pub open spec fn filled_cells(data: Seq<Seq<Seq<char>>>, k: int) -> int
    decreases k,
{
    if k <= 0 {
        0
    } else {
        filled_cells(data, k - 1) + row_filled(data[k - 1], data[k - 1].len() as int)
    }
}

pub open spec fn row_filled(row: Seq<Seq<char>>, k: int) -> int
    decreases k,
{
    if k <= 0 {
        0
    } else {
        row_filled(row, k - 1) + (if !crate::chars::is_blank(row[k - 1]) {
            1int
        } else {
            0int
        })
    }
}

/// A normalized grid counts as a table: two rows and two columns at least,
/// equal row widths, and no fewer filled cells than rows.
pub open spec fn valid_table(data: Seq<Seq<Seq<char>>>) -> bool {
    data.len() >= 2 && data[0].len() >= 2 && (forall|i: int|
        0 <= i < data.len() ==> (#[trigger] data[i]).len() == data[0].len()) && filled_cells(
        data,
        data.len() as int,
    ) >= data.len()
}

/// The count of short, digit-free, non-empty cells.
pub open spec fn headerish_cells(row: Seq<Seq<char>>, k: int) -> int
    decreases k,
{
    if k <= 0 {
        0
    } else {
        headerish_cells(row, k - 1) + (if row[k - 1].len() > 0 && row[k - 1].len() < 30 && (
        forall|j: int| 0 <= j < row[k - 1].len() ==> !is_digit_char(#[trigger] row[k - 1][j])) {
            1int
        } else {
            0int
        })
    }
}

/// A row reads as a header when most of its cells are short, digit-free
/// texts.
pub open spec fn header_row(row: Seq<Seq<char>>) -> bool {
    headerish_cells(row, row.len() as int) > row.len() as int / 2
}

/// The grid a table holds, viewed.
pub open spec fn tbl_data(t: Table) -> Seq<Seq<Seq<char>>> {
    t.data@.map_values(|row: Vec<String>| row@.map_values(|s: String| s@))
}

/// The valid tables among the blocks' normalized grids.
pub open spec fn block_tables(blocks: Seq<Seq<Seq<char>>>, k: int) -> Seq<Seq<Seq<Seq<char>>>>
    decreases k,
{
    if k <= 0 {
        Seq::empty()
    } else {
        block_tables(blocks, k - 1) + (if table_of_lines(blocks[k - 1]).len() > 0 && valid_table(
            table_of_lines(blocks[k - 1]),
        ) {
            seq![table_of_lines(blocks[k - 1])]
        } else {
            Seq::empty()
        })
    }
}

impl PdfParser {
    /// Parses a block's lines and pads every row to the widest.
    pub fn parse_and_normalize_table(&self, lines: &Vec<String>) -> (r: Vec<Vec<String>>)
        ensures
            r@.map_values(|row: Vec<String>| row@.map_values(|s: String| s@)) == table_of_lines(
                lines@.map_values(|s: String| s@),
            ),
    {
        let ghost lv = lines@.map_values(|s: String| s@);
        let n = lines.len();
        let mut rows: Vec<Vec<String>> = Vec::new();
        let mut maxc: usize = 0;
        let mut i: usize = 0;
        proof {
            assert(rows@.map_values(|row: Vec<String>| row@.map_values(|s: String| s@))
                =~= raw_rows(lv, 0));
            assert(rows_maxc(raw_rows(lv, 0)) == 0);
        }
        while i < n
            invariant
                n == lines@.len(),
                lv == lines@.map_values(|s: String| s@),
                i <= n,
                rows@.map_values(|row: Vec<String>| row@.map_values(|s: String| s@)) == raw_rows(
                    lv,
                    i as int,
                ),
                maxc == rows_maxc(raw_rows(lv, i as int)),
            decreases n - i,
        {
            let cells = self.parse_table_row(lines[i].as_str());
            proof {
                assert(lv[i as int] == lines@[i as int]@);
            }
            if cells.len() > 0 {
                if cells.len() > maxc {
                    maxc = cells.len();
                }
                let ghost rows0 = rows@;
                rows.push(cells);
                proof {
                    let f = |row: Vec<String>| row@.map_values(|s: String| s@);
                    assert(rows@.map_values(f) =~= rows0.map_values(f).push(
                        cells_of_line(lv[i as int]),
                    ));
                    assert(rows@.map_values(f) =~= raw_rows(lv, i + 1));
                    assert(raw_rows(lv, i + 1).drop_last() =~= raw_rows(lv, i as int));
                }
            } else {
                proof {
                    assert(raw_rows(lv, i + 1) =~= raw_rows(lv, i as int));
                }
            }
            i = i + 1;
        }
        let ghost allrows = raw_rows(lv, n as int);
        // Pad every row to the widest.
        let m = rows.len();
        let mut out: Vec<Vec<String>> = Vec::new();
        let mut q: usize = 0;
        while q < m
            invariant
                m == rows@.len(),
                rows@.map_values(|row: Vec<String>| row@.map_values(|s: String| s@)) == allrows,
                maxc == rows_maxc(allrows),
                q <= m,
                out@.map_values(|row: Vec<String>| row@.map_values(|s: String| s@))
                    =~= allrows.map_values(
                    |row: Seq<Seq<char>>| pad_row(row, rows_maxc(allrows)),
                ).subrange(0, q as int),
            decreases m - q,
        {
            let mut row: Vec<String> = Vec::new();
            let rlen = rows[q].len();
            let mut z: usize = 0;
            proof {
                assert(allrows[q as int] == rows@[q as int]@.map_values(|s: String| s@));
                lemma_rows_maxc(allrows, q as int);
                assert(rlen <= maxc);
            }
            while z < rlen
                invariant
                    q < m,
                    m == rows@.len(),
                    allrows[q as int] == rows@[q as int]@.map_values(|s: String| s@),
                    rlen == rows@[q as int]@.len(),
                    z <= rlen,
                    row@.map_values(|s: String| s@) =~= allrows[q as int].subrange(0, z as int),
                decreases rlen - z,
            {
                let c = rows[q][z].clone();
                let ghost row0 = row@;
                row.push(c);
                proof {
                    assert(row@.map_values(|s: String| s@) =~= row0.map_values(|s: String| s@).push(
                        allrows[q as int][z as int],
                    ));
                    assert(row@.map_values(|s: String| s@) =~= allrows[q as int].subrange(
                        0,
                        z + 1,
                    ));
                }
                z = z + 1;
            }
            while z < maxc
                invariant
                    q < m,
                    rlen <= z <= maxc || (z <= rlen && rlen <= maxc),
                    z >= rlen,
                    allrows[q as int] == rows@[q as int]@.map_values(|s: String| s@),
                    rlen == rows@[q as int]@.len(),
                    row@.map_values(|s: String| s@) =~= pad_row(allrows[q as int], z as int),
                decreases maxc - z,
            {
                let ghost row0 = row@;
                row.push(String::new());
                proof {
                    assert(row@.map_values(|s: String| s@) =~= row0.map_values(
                        |s: String| s@,
                    ).push(Seq::<char>::empty()));
                    assert(row@.map_values(|s: String| s@) =~= pad_row(allrows[q as int], z + 1));
                }
                z = z + 1;
            }
            proof {
                assert(allrows[q as int].subrange(0, rlen as int) =~= allrows[q as int]);
                if rlen == maxc {
                    assert(row@.map_values(|s: String| s@) =~= pad_row(
                        allrows[q as int],
                        maxc as int,
                    ));
                }
            }
            let ghost out0 = out@;
            out.push(row);
            proof {
                let f = |row: Vec<String>| row@.map_values(|s: String| s@);
                assert(out@.map_values(f) =~= out0.map_values(f).push(
                    pad_row(allrows[q as int], rows_maxc(allrows)),
                ));
                assert(out@.map_values(f) =~= allrows.map_values(
                    |row: Seq<Seq<char>>| pad_row(row, rows_maxc(allrows)),
                ).subrange(0, q + 1));
            }
            q = q + 1;
        }
        proof {
            let padded = allrows.map_values(|row: Seq<Seq<char>>| pad_row(row, rows_maxc(allrows)));
            assert(padded.subrange(0, m as int) =~= padded);
        }
        out
    }

    /// Gathers maximal stretches of candidate lines, two lines or more.
    pub fn find_potential_table_blocks(&self, text: &str) -> (r: Vec<Vec<String>>)
        ensures
            r@.map_values(|b: Vec<String>| b@.map_values(|s: String| s@)) == blocks_from(
                lines_of(text@),
                0,
                Seq::empty(),
            ),
    {
        let v = chars_vec(text);
        let lines = lines_vec(&v);
        let ghost ls = lines_of(text@);
        let n = lines.len();
        let mut out: Vec<Vec<String>> = Vec::new();
        let mut cur: Vec<String> = Vec::new();
        let mut i: usize = 0;
        proof {
            assert(cur@.map_values(|s: String| s@) =~= Seq::<Seq<char>>::empty());
            assert(out@.map_values(|b: Vec<String>| b@.map_values(|s: String| s@))
                + blocks_from(ls, 0, cur@.map_values(|s: String| s@)) =~= blocks_from(
                ls,
                0,
                Seq::empty(),
            ));
        }
        while i < n
            invariant
                n == lines@.len(),
                lines@.map_values(|l: Vec<char>| l@) == ls,
                i <= n,
                cur@.map_values(|s: String| s@).len() == cur@.len(),
                out@.map_values(|b: Vec<String>| b@.map_values(|s: String| s@)) + blocks_from(
                    ls,
                    i as int,
                    cur@.map_values(|s: String| s@),
                ) == blocks_from(ls, 0, Seq::empty()),
            decreases n - i,
        {
            let lstr = string_of(&lines[i]);
            proof {
                assert(ls[i as int] == lines@[i as int]@);
            }
            if self.could_be_table_row(lstr.as_str()) {
                let ghost cur0 = cur@;
                cur.push(lstr);
                proof {
                    assert(cur@.map_values(|s: String| s@) =~= cur0.map_values(|s: String| s@).push(
                        ls[i as int],
                    ));
                }
            } else {
                if cur.len() >= 2 {
                    let ghost out0 = out@;
                    out.push(cur);
                    proof {
                        let f = |b: Vec<String>| b@.map_values(|s: String| s@);
                        assert(out@.map_values(f) =~= out0.map_values(f).push(
                            out@[out@.len() - 1]@.map_values(|s: String| s@),
                        ));
                    }
                    cur = Vec::new();
                } else {
                    cur = Vec::new();
                }
                proof {
                    assert(cur@.map_values(|s: String| s@) =~= Seq::<Seq<char>>::empty());
                }
            }
            i = i + 1;
        }
        if cur.len() >= 2 {
            let ghost out0 = out@;
            out.push(cur);
            proof {
                let f = |b: Vec<String>| b@.map_values(|s: String| s@);
                assert(out@.map_values(f) =~= out0.map_values(f).push(
                    out@[out@.len() - 1]@.map_values(|s: String| s@),
                ));
            }
        }
        proof {
            assert(out@.map_values(|b: Vec<String>| b@.map_values(|s: String| s@)) =~= blocks_from(
                ls,
                0,
                Seq::empty(),
            ));
        }
        out
    }

    /// Whether a normalized grid counts as a table.
    pub fn is_valid_table(&self, data: &Vec<Vec<String>>) -> (r: bool)
        ensures
            r == valid_table(
                data@.map_values(|row: Vec<String>| row@.map_values(|s: String| s@)),
            ),
    {
        let ghost dv = data@.map_values(|row: Vec<String>| row@.map_values(|s: String| s@));
        let n = data.len();
        if n < 2 {
            return false;
        }
        let cols = data[0].len();
        if cols < 2 {
            return false;
        }
        let mut same = true;
        let mut filled: u128 = 0;
        let mut i: usize = 0;
        while i < n
            invariant
                n == data@.len(),
                dv == data@.map_values(|row: Vec<String>| row@.map_values(|s: String| s@)),
                cols == dv[0].len(),
                i <= n,
                same == forall|k: int| 0 <= k < i ==> (#[trigger] dv[k]).len() == cols,
                filled == filled_cells(dv, i as int),
                filled <= (i as int) * 0xffffffffffffffff,
            decreases n - i,
        {
            if data[i].len() != cols {
                same = false;
            }
            let rl = data[i].len();
            let mut rc: usize = 0;
            let mut j: usize = 0;
            while j < rl
                invariant
                    i < n,
                    n == data@.len(),
                    dv == data@.map_values(|row: Vec<String>| row@.map_values(|s: String| s@)),
                    rl == dv[i as int].len(),
                    j <= rl,
                    rc == row_filled(dv[i as int], j as int),
                    rc <= j,
                decreases rl - j,
            {
                let tc = trim_chars(&chars_vec(data[i][j].as_str()));
                proof {
                    assert(dv[i as int][j as int] == data@[i as int]@[j as int]@);
                    crate::chars::lemma_blank_trim(dv[i as int][j as int]);
                }
                if tc.len() > 0 {
                    rc = rc + 1;
                }
                j = j + 1;
            }
            proof {
                assert(filled_cells(dv, i + 1) == filled_cells(dv, i as int) + row_filled(
                    dv[i as int],
                    dv[i as int].len() as int,
                ));
                lemma_row_filled_bound(dv[i as int], dv[i as int].len() as int);
                lemma_filled_step(i as int);
            }
            filled = filled + rc as u128;
            i = i + 1;
        }
        same && filled >= n as u128
    }

    /// Whether a row reads as a header.
    pub fn looks_like_header(&self, row: &Vec<String>) -> (r: bool)
        ensures
            r == header_row(row@.map_values(|s: String| s@)),
    {
        let ghost rv = row@.map_values(|s: String| s@);
        let n = row.len();
        let mut cnt: usize = 0;
        let mut i: usize = 0;
        while i < n
            invariant
                n == row@.len(),
                rv == row@.map_values(|s: String| s@),
                i <= n,
                cnt == headerish_cells(rv, i as int),
                cnt <= i,
            decreases n - i,
        {
            let cv = chars_vec(row[i].as_str());
            let cl = cv.len();
            proof {
                assert(rv[i as int] == row@[i as int]@);
            }
            if cl > 0 && cl < 30 {
                let mut free = true;
                let mut j: usize = 0;
                while j < cl
                    invariant
                        i < n,
                        cv@ == rv[i as int],
                        cl == cv@.len(),
                        j <= cl,
                        free == forall|k: int|
                            0 <= k < j ==> !is_digit_char(#[trigger] cv@[k]),
                    decreases cl - j,
                {
                    if crate::chars::is_digit(cv[j]) {
                        free = false;
                    }
                    j = j + 1;
                }
                if free {
                    cnt = cnt + 1;
                }
            }
            i = i + 1;
        }
        cnt > n / 2
    }
}

proof fn lemma_rows_maxc(rows: Seq<Seq<Seq<char>>>, q: int)
    requires
        0 <= q < rows.len(),
    ensures
        rows[q].len() <= rows_maxc(rows),
        rows_maxc(rows) >= 0,
    decreases rows.len(),
{
    if rows.len() > 0 {
        if q == rows.len() - 1 {
            if rows.len() > 1 {
                lemma_rows_maxc(rows.drop_last(), 0);
            }
        } else {
            lemma_rows_maxc(rows.drop_last(), q);
            assert(rows.drop_last()[q] == rows[q]);
        }
    }
}

proof fn lemma_row_filled_bound(row: Seq<Seq<char>>, k: int)
    ensures
        k >= 0 ==> 0 <= row_filled(row, k) <= k,
    decreases k,
{
    if k > 0 {
        lemma_row_filled_bound(row, k - 1);
    }
}

proof fn lemma_filled_step(i: int)
    requires
        0 <= i <= 0xfffffffffffffffe,
    ensures
        (i as int) * 0xffffffffffffffff + 0xffffffffffffffff == (i + 1) * 0xffffffffffffffff,
        (i + 1) * 0xffffffffffffffff < 0xffffffffffffffffffffffffffffffff,
{
    assert((i + 1) * 0xffffffffffffffff == i * 0xffffffffffffffff + 0xffffffffffffffff)
        by (nonlinear_arith);
    assert((i + 1) * 0xffffffffffffffff <= 0xffffffffffffffff * 0xffffffffffffffff)
        by (nonlinear_arith)
        requires
            0 <= i <= 0xfffffffffffffffe,
    ;
}

impl PdfParser {
    /// Extracts every table the text shows for one page.
    pub fn extract_tables_from_text(&self, text: &str, page: usize) -> (r: Vec<Table>)
        ensures
            ({
                let datas = block_tables(
                    blocks_from(lines_of(text@), 0, Seq::empty()),
                    blocks_from(lines_of(text@), 0, Seq::empty()).len() as int,
                );
                &&& r@.len() == datas.len()
                &&& forall|j: int|
                    0 <= j < datas.len() ==> tbl_data(#[trigger] r@[j]) == datas[j] && r@[j].page
                        == page && (r@[j].headers is Some <==> header_row(datas[j][0])) && (
                    r@[j].headers is Some ==> r@[j].headers->0@.map_values(|s: String| s@)
                        == datas[j][0])
            }),
    {
        let blocks = self.find_potential_table_blocks(text);
        let ghost bv = blocks@.map_values(|b: Vec<String>| b@.map_values(|s: String| s@));
        let n = blocks.len();
        let mut out: Vec<Table> = Vec::new();
        let mut i: usize = 0;
        while i < n
            invariant
                n == blocks@.len(),
                bv == blocks@.map_values(|b: Vec<String>| b@.map_values(|s: String| s@)),
                i <= n,
                out@.len() == block_tables(bv, i as int).len(),
                forall|j: int|
                    0 <= j < out@.len() ==> tbl_data(#[trigger] out@[j]) == block_tables(
                        bv,
                        i as int,
                    )[j] && out@[j].page == page && (out@[j].headers is Some <==> header_row(
                        block_tables(bv, i as int)[j][0],
                    )) && (out@[j].headers is Some ==> out@[j].headers->0@.map_values(
                        |s: String| s@,
                    ) == block_tables(bv, i as int)[j][0]),
            decreases n - i,
        {
            proof {
                assert(bv[i as int] == blocks@[i as int]@.map_values(|s: String| s@));
            }
            let data = self.parse_and_normalize_table(&blocks[i]);
            let ghost dvv = data@.map_values(|row: Vec<String>| row@.map_values(|s: String| s@));
            proof {
                assert(dvv == table_of_lines(bv[i as int]));
            }
            if data.len() > 0 && self.is_valid_table(&data) {
                let headers: Option<Vec<String>> = if self.looks_like_header(&data[0]) {
                    Some(data[0].clone())
                } else {
                    None
                };
                let t = Table { page, data, headers };
                proof {
                    assert(tbl_data(t) == dvv);
                    assert(block_tables(bv, i + 1) =~= block_tables(bv, i as int).push(dvv));
                }
                out.push(t);
            } else {
                proof {
                    assert(block_tables(bv, i + 1) =~= block_tables(bv, i as int));
                }
            }
            i = i + 1;
        }
        out
    }

    /// Every page's tables, in page order.
    pub fn extract_all_tables(&self, pages: &Vec<Page>) -> (r: Vec<Table>)
        ensures
            r@.map_values(|t: Table| tview(t)) == tviews_of_pages(pages@, pages@.len() as int),
    {
        let mut out: Vec<Table> = Vec::new();
        let n = pages.len();
        let mut i: usize = 0;
        proof {
            assert(out@.map_values(|t: Table| tview(t)) =~= tviews_of_pages(pages@, 0));
        }
        while i < n
            invariant
                n == pages@.len(),
                i <= n,
                out@.map_values(|t: Table| tview(t)) == tviews_of_pages(pages@, i as int),
            decreases n - i,
        {
            let m = pages[i].tables.len();
            let mut j: usize = 0;
            while j < m
                invariant
                    i < n,
                    n == pages@.len(),
                    m == pages@[i as int].tables@.len(),
                    j <= m,
                    out@.map_values(|t: Table| tview(t)) == tviews_of_pages(pages@, i as int)
                        + pages@[i as int].tables@.map_values(|t: Table| tview(t)).subrange(
                        0,
                        j as int,
                    ),
                decreases m - j,
            {
                let src = &pages[i].tables[j];
                let grid = clone_grid(&src.data);
                let headers: Option<Vec<String>> = match &src.headers {
                    Some(h) => Some(clone_row(h)),
                    None => None,
                };
                let t = Table { page: src.page, data: grid, headers };
                let ghost out0 = out@;
                proof {
                    assert(tview(t) == tview(pages@[i as int].tables@[j as int]));
                }
                out.push(t);
                proof {
                    assert(out@.map_values(|t: Table| tview(t)) =~= out0.map_values(
                        |t: Table| tview(t),
                    ).push(tview(pages@[i as int].tables@[j as int])));
                    assert(out@.map_values(|t: Table| tview(t)) =~= tviews_of_pages(
                        pages@,
                        i as int,
                    ) + pages@[i as int].tables@.map_values(|t: Table| tview(t)).subrange(
                        0,
                        j + 1,
                    ));
                }
                j = j + 1;
            }
            proof {
                let mv = pages@[i as int].tables@.map_values(|t: Table| tview(t));
                assert(mv.subrange(0, m as int) =~= mv);
                assert(out@.map_values(|t: Table| tview(t)) =~= tviews_of_pages(pages@, i + 1));
            }
            i = i + 1;
        }
        out
    }
}

/// A table's content, viewed: page, grid, headers.
pub open spec fn tview(t: Table) -> (nat, Seq<Seq<Seq<char>>>, Option<Seq<Seq<char>>>) {
    (
        t.page as nat,
        tbl_data(t),
        match t.headers {
            Some(h) => Some(h@.map_values(|s: String| s@)),
            None => None,
        },
    )
}

/// The first `k` pages' table views, concatenated.
pub open spec fn tviews_of_pages(pages: Seq<Page>, k: int) -> Seq<
    (nat, Seq<Seq<Seq<char>>>, Option<Seq<Seq<char>>>),
>
    decreases k,
{
    if k <= 0 {
        Seq::empty()
    } else {
        tviews_of_pages(pages, k - 1) + pages[k - 1].tables@.map_values(|t: Table| tview(t))
    }
}

/// A row of cells, copied.
fn clone_row(row: &Vec<String>) -> (r: Vec<String>)
    ensures
        r@.map_values(|s: String| s@) == row@.map_values(|s: String| s@),
{
    let n = row.len();
    let mut out: Vec<String> = Vec::new();
    let mut i: usize = 0;
    while i < n
        invariant
            n == row@.len(),
            i <= n,
            out@.map_values(|s: String| s@) =~= row@.map_values(|s: String| s@).subrange(
                0,
                i as int,
            ),
        decreases n - i,
    {
        let c = row[i].clone();
        let ghost out0 = out@;
        out.push(c);
        proof {
            assert(out@.map_values(|s: String| s@) =~= out0.map_values(|s: String| s@).push(
                row@[i as int]@,
            ));
            assert(out@.map_values(|s: String| s@) =~= row@.map_values(|s: String| s@).subrange(
                0,
                i + 1,
            ));
        }
        i = i + 1;
    }
    proof {
        let mv = row@.map_values(|s: String| s@);
        assert(mv.subrange(0, n as int) =~= mv);
    }
    out
}

/// A grid of cells, copied.
fn clone_grid(grid: &Vec<Vec<String>>) -> (r: Vec<Vec<String>>)
    ensures
        r@.map_values(|row: Vec<String>| row@.map_values(|s: String| s@)) == grid@.map_values(
            |row: Vec<String>| row@.map_values(|s: String| s@),
        ),
{
    let ghost gv = grid@.map_values(|row: Vec<String>| row@.map_values(|s: String| s@));
    let n = grid.len();
    let mut out: Vec<Vec<String>> = Vec::new();
    let mut i: usize = 0;
    while i < n
        invariant
            n == grid@.len(),
            gv == grid@.map_values(|row: Vec<String>| row@.map_values(|s: String| s@)),
            i <= n,
            out@.map_values(|row: Vec<String>| row@.map_values(|s: String| s@)) =~= gv.subrange(
                0,
                i as int,
            ),
        decreases n - i,
    {
        let c = clone_row(&grid[i]);
        let ghost out0 = out@;
        out.push(c);
        proof {
            let f = |row: Vec<String>| row@.map_values(|s: String| s@);
            assert(out@.map_values(f) =~= out0.map_values(f).push(gv[i as int]));
            assert(out@.map_values(f) =~= gv.subrange(0, i + 1));
        }
        i = i + 1;
    }
    proof {
        assert(gv.subrange(0, n as int) =~= gv);
    }
    out
}

/// The plain-text renderer.
pub struct TextOutput;

/// Pages joined: from the second page on, a numbered page separator.
pub open spec fn pages_text_upto(pages: Seq<Page>, k: int) -> Seq<char>
    decreases k,
{
    if k <= 0 {
        Seq::empty()
    } else {
        pages_text_upto(pages, k - 1) + (if k > 1 {
            "\n--- Page "@ + dec_str(pages[k - 1].number as nat) + " ---\n\n"@
        } else {
            Seq::empty()
        }) + pages[k - 1].text@
    }
}

/// One table as text: a numbered banner, the optional header row with a
/// dashed rule as long as it, and the rows, tab-separated.
pub open spec fn table_text_block(t: Table, idx: int) -> Seq<char> {
    "--- Table "@ + dec_str(idx as nat) + " (Page "@ + dec_str(t.page as nat) + ") ---\n"@ + (
    match t.headers {
        Some(h) => {
            let joined_h = crate::render::joined(h@.map_values(|s: String| s@), seq!['\t']);
            joined_h + "\n"@ + crate::chars::char_repeat('-', joined_h.len()) + "\n"@
        },
        None => Seq::empty(),
    }) + rows_tsv(t.data@, t.data@.len() as int)
}

/// Rows as tab-separated lines.
pub open spec fn rows_tsv(rows: Seq<Vec<String>>, k: int) -> Seq<char>
    decreases k,
{
    if k <= 0 {
        Seq::empty()
    } else {
        rows_tsv(rows, k - 1) + crate::render::joined(
            rows[k - 1]@.map_values(|s: String| s@),
            seq!['\t'],
        ) + "\n"@
    }
}

/// The table blocks, blank lines between them.
pub open spec fn tables_text_upto(tables: Seq<Table>, k: int) -> Seq<char>
    decreases k,
{
    if k <= 0 {
        Seq::empty()
    } else {
        tables_text_upto(tables, k - 1) + (if k > 1 {
            "\n"@
        } else {
            Seq::empty()
        }) + table_text_block(tables[k - 1], k)
    }
}

impl TextOutput {
    /// A renderer.
    pub fn new() -> (o: TextOutput) {
        TextOutput
    }

    /// A page's text, as it stands.
    pub fn write_page(&self, page: &Page) -> (r: String)
        ensures
            r@ == page.text@,
    {
        page.text.clone()
    }

    /// Every page's text, numbered separators between pages.
    pub fn write_pdf_data(&self, data: &PdfData) -> (r: String)
        ensures
            r@ == pages_text_upto(data.pages@, data.pages@.len() as int),
    {
        let mut out = String::new();
        let n = data.pages.len();
        let mut i: usize = 0;
        proof {
            assert(out@ =~= pages_text_upto(data.pages@, 0));
        }
        while i < n
            invariant
                n == data.pages@.len(),
                i <= n,
                out@ == pages_text_upto(data.pages@, i as int),
            decreases n - i,
        {
            if i > 0 {
                out.append("\n--- Page ");
                let ns = usize_to_string(data.pages[i].number);
                out.append(ns.as_str());
                out.append(" ---\n\n");
            }
            out.append(data.pages[i].text.as_str());
            proof {
                assert(out@ =~= pages_text_upto(data.pages@, i + 1));
            }
            i = i + 1;
        }
        out
    }

    /// The tables as banners, header rules and tab-separated rows.
    #[verifier::rlimit(100)]
    #[verifier::spinoff_prover]
    pub fn write_tables(&self, tables: &Vec<Table>) -> (r: String)
        ensures
            r@ == tables_text_upto(tables@, tables@.len() as int),
    {
        let mut out = String::new();
        let n = tables.len();
        let mut i: usize = 0;
        proof {
            reveal_strlit("\t");
            assert("\t"@ =~= seq!['\t']);
            assert(out@ =~= tables_text_upto(tables@, 0));
        }
        while i < n
            invariant
                n == tables@.len(),
                i <= n,
                out@ == tables_text_upto(tables@, i as int),
            decreases n - i,
        {
            proof {
                reveal_strlit("\t");
                assert("\t"@ =~= seq!['\t']);
            }
            if i > 0 {
                out.append("\n");
            }
            let ghost base = out@;
            out.append("--- Table ");
            let ns = usize_to_string(i + 1);
            out.append(ns.as_str());
            out.append(" (Page ");
            let ps = usize_to_string(tables[i].page);
            out.append(ps.as_str());
            out.append(") ---\n");
            match &tables[i].headers {
                Some(h) => {
                    let hj = crate::render::join_strings(h, "\t");
                    out.append(hj.as_str());
                    out.append("\n");
                    let hv = chars_vec(hj.as_str());
                    let mut d: usize = 0;
                    let dn = hv.len();
                    let ghost mid = out@;
                    while d < dn
                        invariant
                            d <= dn,
                            out@ == mid + crate::chars::char_repeat('-', d as nat),
                        decreases dn - d,
                    {
                        push_char(&mut out, '-');
                        d = d + 1;
                    }
                    out.append("\n");
                },
                None => {},
            }
            let dn2 = tables[i].data.len();
            let mut q: usize = 0;
            let ghost rbase = out@;
            while q < dn2
                invariant
                    i < n,
                    n == tables@.len(),
                    dn2 == tables@[i as int].data@.len(),
                    q <= dn2,
                    out@ == rbase + rows_tsv(tables@[i as int].data@, q as int),
                decreases dn2 - q,
            {
                proof {
                    reveal_strlit("\t");
                    assert("\t"@ =~= seq!['\t']);
                }
                let rj = crate::render::join_strings(&tables[i].data[q], "\t");
                out.append(rj.as_str());
                out.append("\n");
                proof {
                    assert(out@ =~= rbase + rows_tsv(tables@[i as int].data@, q + 1));
                }
                q = q + 1;
            }
            proof {
                assert(out@ =~= tables_text_upto(tables@, i + 1));
            }
            i = i + 1;
        }
        out
    }
}

/// `s` with every occurrence of `pat` replaced by `rep`, scanning left to
/// right without overlap.
pub open spec fn replace_seq(s: Seq<char>, pat: Seq<char>, rep: Seq<char>) -> Seq<char>
    decreases s.len(),
    when pat.len() >= 1
{
    if s.len() == 0 {
        s
    } else if matches_at(s, pat, 0) {
        rep + replace_seq(s.skip(pat.len() as int), pat, rep)
    } else {
        seq![s[0]] + replace_seq(s.drop_first(), pat, rep)
    }
}

/// A match within a suffix is a match at the offset position.
proof fn lemma_match_shift(s: Seq<char>, pat: Seq<char>, i: int)
    requires
        0 <= i <= s.len(),
    ensures
        matches_at(s.skip(i), pat, 0) == matches_at(s, pat, i),
{
    if i + pat.len() <= s.len() {
        assert(s.skip(i).subrange(0, pat.len() as int) =~= s.subrange(i, i + pat.len()));
    }
}

/// Replaces every occurrence of `pat` with `rep`.
fn replace_all(v: &Vec<char>, pat: &Vec<char>, rep: &Vec<char>) -> (out: Vec<char>)
    requires
        pat@.len() >= 1,
    ensures
        out@ == replace_seq(v@, pat@, rep@),
{
    let n = v.len();
    let pn = pat.len();
    let mut out: Vec<char> = Vec::new();
    let mut i: usize = 0;
    proof {
        assert(v@.skip(0) =~= v@);
    }
    while i < n
        invariant
            n == v@.len(),
            pn == pat@.len(),
            pn >= 1,
            i <= n,
            out@ + replace_seq(v@.skip(i as int), pat@, rep@) == replace_seq(v@, pat@, rep@),
        decreases n - i,
    {
        let hit = if pn <= n - i {
            match_at(v, pat, i)
        } else {
            false
        };
        proof {
            lemma_match_shift(v@, pat@, i as int);
        }
        if hit {
            let mut z: usize = 0;
            let ghost mid = out@;
            while z < rep.len()
                invariant
                    z <= rep@.len(),
                    out@ == mid + rep@.subrange(0, z as int),
                decreases rep@.len() - z,
            {
                out.push(rep[z]);
                proof {
                    assert(out@ =~= mid + rep@.subrange(0, z + 1));
                }
                z = z + 1;
            }
            proof {
                assert(rep@.subrange(0, rep@.len() as int) =~= rep@);
                assert(v@.skip(i as int).skip(pn as int) =~= v@.skip(i + pn));
                assert(replace_seq(v@.skip(i as int), pat@, rep@) == rep@ + replace_seq(
                    v@.skip(i + pn),
                    pat@,
                    rep@,
                ));
                assert(out@ + replace_seq(v@.skip(i + pn), pat@, rep@) =~= replace_seq(
                    v@,
                    pat@,
                    rep@,
                ));
            }
            i = i + pn;
        } else {
            out.push(v[i]);
            proof {
                assert(v@.skip(i as int)[0] == v@[i as int]);
                assert(v@.skip(i as int).drop_first() =~= v@.skip(i + 1));
                assert(replace_seq(v@.skip(i as int), pat@, rep@) == seq![v@[i as int]]
                    + replace_seq(v@.skip(i + 1), pat@, rep@));
                assert(out@ + replace_seq(v@.skip(i + 1), pat@, rep@) =~= replace_seq(
                    v@,
                    pat@,
                    rep@,
                ));
            }
            i = i + 1;
        }
    }
    proof {
        assert(v@.skip(n as int) =~= Seq::<char>::empty());
        assert(replace_seq(Seq::<char>::empty(), pat@, rep@) =~= Seq::<char>::empty());
        assert(out@ =~= out@ + Seq::<char>::empty());
    }
    out
}

/// A cell fit for a Markdown table: pipes escaped, line breaks flattened,
/// then trimmed.
pub open spec fn md_cell(s: Seq<char>) -> Seq<char> {
    trim_seq(
        replace_seq(
            replace_seq(replace_seq(s, seq!['|'], seq!['\\', '|']), seq!['\n'], seq![' ']),
            seq!['\r'],
            Seq::empty(),
        ),
    )
}

/// Page text fit for Markdown: triple breaks collapsed and the marker
/// characters escaped.
pub open spec fn md_text(s: Seq<char>) -> Seq<char> {
    replace_seq(
        replace_seq(
            replace_seq(
                replace_seq(
                    replace_seq(s, seq!['\n', '\n', '\n'], seq!['\n', '\n']),
                    seq!['*'],
                    seq!['\\', '*'],
                ),
                seq!['_'],
                seq!['\\', '_'],
            ),
            seq!['#'],
            seq!['\\', '#'],
        ),
        seq!['`'],
        seq!['\\', '`'],
    )
}

/// The Markdown renderer.
pub struct MarkdownOutput {
    pub include_metadata: bool,
}

/// A table as Markdown: the header row (the first row when none is given),
/// a rule, and the data rows, short rows filled with empty cells.
pub open spec fn md_table(t: Table) -> Seq<char> {
    if t.data@.len() == 0 {
        Seq::empty()
    } else {
        let headers = match t.headers {
            Some(h) => h@.map_values(|s: String| s@),
            None => t.data@[0]@.map_values(|s: String| s@),
        };
        let rows_from: int = if t.headers is Some {
            0
        } else {
            1
        };
        md_header_cells(headers, headers.len() as int) + "\n"@ + md_rule(headers.len() as int)
            + "\n"@ + md_rows(t.data@, headers.len() as int, rows_from, t.data@.len() as int)
    }
}

/// The header cells: a pipe, then each escaped cell between spaces and a
/// pipe.
pub open spec fn md_header_cells(cells: Seq<Seq<char>>, k: int) -> Seq<char>
    decreases k,
{
    if k <= 0 {
        seq!['|']
    } else {
        md_header_cells(cells, k - 1) + " "@ + md_cell(cells[k - 1]) + " |"@
    }
}

/// The separator rule under the header.
pub open spec fn md_rule(k: int) -> Seq<char>
    decreases k,
{
    if k <= 0 {
        seq!['|']
    } else {
        md_rule(k - 1) + " --- |"@
    }
}

/// One data row: cells up to the header width, then empty fills.
pub open spec fn md_row(row: Seq<Seq<char>>, hlen: int, k: int) -> Seq<char>
    decreases k,
{
    if k <= 0 {
        seq!['|']
    } else {
        md_row(row, hlen, k - 1) + (if k - 1 < row.len() {
            if k - 1 < hlen {
                " "@ + md_cell(row[k - 1]) + " |"@
            } else {
                Seq::empty()
            }
        } else {
            "  |"@
        })
    }
}

/// The data rows from `from` on, one line each.
pub open spec fn md_rows(rows: Seq<Vec<String>>, hlen: int, from: int, k: int) -> Seq<char>
    decreases k - from,
{
    if k <= from {
        Seq::empty()
    } else {
        md_rows(rows, hlen, from, k - 1) + md_row(
            rows[k - 1]@.map_values(|s: String| s@),
            hlen,
            (if rows[k - 1]@.len() > hlen {
                rows[k - 1]@.len() as int
            } else {
                hlen
            }),
        ) + "\n"@
    }
}

impl MarkdownOutput {
    /// A Markdown renderer; the flag writes the document properties first.
    pub fn new(include_metadata: bool) -> (o: MarkdownOutput)
        ensures
            o.include_metadata == include_metadata,
    {
        MarkdownOutput { include_metadata }
    }

    /// Escapes one table cell.
    pub fn escape_markdown_table_cell(&self, cell: &str) -> (r: String)
        ensures
            r@ == md_cell(cell@),
    {
        let v = chars_vec(cell);
        let pipe = chars_vec("|");
        let pipe_esc = chars_vec("\\|");
        let nl = chars_vec("\n");
        let sp = chars_vec(" ");
        let cr = chars_vec("\r");
        let none: Vec<char> = Vec::new();
        proof {
            reveal_strlit("|");
            reveal_strlit("\\|");
            reveal_strlit("\n");
            reveal_strlit(" ");
            reveal_strlit("\r");
            assert(pipe@ =~= seq!['|']);
            assert(pipe_esc@ =~= seq!['\\', '|']);
            assert(nl@ =~= seq!['\n']);
            assert(sp@ =~= seq![' ']);
            assert(cr@ =~= seq!['\r']);
            assert(none@ =~= Seq::<char>::empty());
        }
        let a = replace_all(&v, &pipe, &pipe_esc);
        let b = replace_all(&a, &nl, &sp);
        let c = replace_all(&b, &cr, &none);
        let t = trim_chars(&c);
        string_of(&t)
    }

    /// Escapes page text.
    pub fn format_text_content(&self, text: &str) -> (r: String)
        ensures
            r@ == md_text(text@),
    {
        let v = chars_vec(text);
        let nl3 = chars_vec("\n\n\n");
        let nl2 = chars_vec("\n\n");
        let star = chars_vec("*");
        let star_esc = chars_vec("\\*");
        let under = chars_vec("_");
        let under_esc = chars_vec("\\_");
        let hash = chars_vec("#");
        let hash_esc = chars_vec("\\#");
        let tick = chars_vec("`");
        let tick_esc = chars_vec("\\`");
        proof {
            reveal_strlit("\n\n\n");
            reveal_strlit("\n\n");
            reveal_strlit("*");
            reveal_strlit("\\*");
            reveal_strlit("_");
            reveal_strlit("\\_");
            reveal_strlit("#");
            reveal_strlit("\\#");
            reveal_strlit("`");
            reveal_strlit("\\`");
            assert(nl3@ =~= seq!['\n', '\n', '\n']);
            assert(nl2@ =~= seq!['\n', '\n']);
            assert(star@ =~= seq!['*']);
            assert(star_esc@ =~= seq!['\\', '*']);
            assert(under@ =~= seq!['_']);
            assert(under_esc@ =~= seq!['\\', '_']);
            assert(hash@ =~= seq!['#']);
            assert(hash_esc@ =~= seq!['\\', '#']);
            assert(tick@ =~= seq!['`']);
            assert(tick_esc@ =~= seq!['\\', '`']);
        }
        let a = replace_all(&v, &nl3, &nl2);
        let b = replace_all(&a, &star, &star_esc);
        let c = replace_all(&b, &under, &under_esc);
        let d = replace_all(&c, &hash, &hash_esc);
        let e = replace_all(&d, &tick, &tick_esc);
        string_of(&e)
    }
}

impl MarkdownOutput {
    /// One table as a Markdown grid.
    #[verifier::rlimit(100)]
    #[verifier::spinoff_prover]
    pub fn write_table_markdown(&self, table: &Table) -> (r: String)
        ensures
            r@ == md_table(*table),
    {
        let mut out = String::new();
        if table.data.len() == 0 {
            return out;
        }
        let headers: &Vec<String> = match &table.headers {
            Some(h) => h,
            None => &table.data[0],
        };
        let hn = headers.len();
        let ghost hv = headers@.map_values(|s: String| s@);
        out.append("|");
        let mut i: usize = 0;
        proof {
            reveal_strlit("|");
            assert(out@ =~= md_header_cells(hv, 0));
        }
        while i < hn
            invariant
                hn == headers@.len(),
                hv == headers@.map_values(|s: String| s@),
                i <= hn,
                out@ == md_header_cells(hv, i as int),
            decreases hn - i,
        {
            out.append(" ");
            let e = self.escape_markdown_table_cell(headers[i].as_str());
            out.append(e.as_str());
            out.append(" |");
            proof {
                assert(hv[i as int] == headers@[i as int]@);
                assert(out@ =~= md_header_cells(hv, i + 1));
            }
            i = i + 1;
        }
        out.append("\n");
        let ghost afterh = out@;
        out.append("|");
        let mut q: usize = 0;
        proof {
            assert(out@ =~= afterh + md_rule(0));
        }
        while q < hn
            invariant
                hn == headers@.len(),
                q <= hn,
                out@ == afterh + md_rule(q as int),
            decreases hn - q,
        {
            out.append(" --- |");
            proof {
                assert(out@ =~= afterh + md_rule(q + 1));
            }
            q = q + 1;
        }
        out.append("\n");
        let ghost afterr = out@;
        let from: usize = if table.headers.is_some() {
            0
        } else {
            1
        };
        let dn = table.data.len();
        let mut w: usize = from;
        proof {
            assert(out@ =~= afterr + md_rows(table.data@, hn as int, from as int, from as int));
        }
        while w < dn
            invariant
                dn == table.data@.len(),
                hn == headers@.len(),
                hv == headers@.map_values(|s: String| s@),
                from <= w <= dn,
                out@ == afterr + md_rows(table.data@, hn as int, from as int, w as int),
            decreases dn - w,
        {
            let row = &table.data[w];
            let rn = row.len();
            let ghost rv = row@.map_values(|s: String| s@);
            let lim: usize = if rn > hn {
                rn
            } else {
                hn
            };
            let ghost rowbase = out@;
            out.append("|");
            let mut z: usize = 0;
            proof {
                reveal_strlit("|");
                assert(out@ =~= rowbase + md_row(rv, hn as int, 0));
            }
            while z < lim
                invariant
                    rn == row@.len(),
                    rv == row@.map_values(|s: String| s@),
                    lim == (if rn > hn { rn } else { hn }),
                    z <= lim,
                    out@ == rowbase + md_row(rv, hn as int, z as int),
                decreases lim - z,
            {
                if z < rn {
                    if z < hn {
                        out.append(" ");
                        let e = self.escape_markdown_table_cell(row[z].as_str());
                        out.append(e.as_str());
                        out.append(" |");
                    }
                } else {
                    out.append("  |");
                }
                proof {
                    if z < rn {
                        assert(rv[z as int] == row@[z as int]@);
                    }
                    assert(out@ =~= rowbase + md_row(rv, hn as int, z + 1));
                }
                z = z + 1;
            }
            out.append("\n");
            proof {
                assert(out@ =~= afterr + md_rows(table.data@, hn as int, from as int, w + 1));
            }
            w = w + 1;
        }
        proof {
            assert(out@ =~= md_table(*table));
        }
        out
    }

    /// One page: a heading, the escaped text, and its tables.
    pub fn write_page(&self, page: &Page) -> (r: String)
        ensures
            r@ == md_page(*page),
    {
        let mut out = String::from_str("# Page ");
        let ns = usize_to_string(page.number);
        out.append(ns.as_str());
        out.append("\n\n");
        let body = self.format_text_content(page.text.as_str());
        out.append(body.as_str());
        out.append("\n");
        if page.tables.len() > 0 {
            out.append("\n## Tables\n\n");
            let tn = page.tables.len();
            let mut i: usize = 0;
            let ghost base = out@;
            proof {
                assert(out@ =~= base + md_page_tables(page.tables@, 0));
            }
            while i < tn
                invariant
                    tn == page.tables@.len(),
                    i <= tn,
                    out@ == base + md_page_tables(page.tables@, i as int),
                decreases tn - i,
            {
                out.append("### Table ");
                let ts = usize_to_string(i + 1);
                out.append(ts.as_str());
                out.append("\n\n");
                let tb = self.write_table_markdown(&page.tables[i]);
                out.append(tb.as_str());
                out.append("\n");
                proof {
                    assert(out@ =~= base + md_page_tables(page.tables@, i + 1));
                }
                i = i + 1;
            }
        }
        proof {
            assert(out@ =~= md_page(*page));
        }
        out
    }

    /// The tables alone, numbered.
    pub fn write_tables(&self, tables: &Vec<Table>) -> (r: String)
        ensures
            r@ == "# Tables\n\n"@ + md_tables_upto(tables@, tables@.len() as int),
    {
        let mut out = String::from_str("# Tables\n\n");
        let ghost base = out@;
        let n = tables.len();
        let mut i: usize = 0;
        proof {
            assert(out@ =~= base + md_tables_upto(tables@, 0));
        }
        while i < n
            invariant
                n == tables@.len(),
                i <= n,
                out@ == base + md_tables_upto(tables@, i as int),
            decreases n - i,
        {
            out.append("## Table ");
            let ts = usize_to_string(i + 1);
            out.append(ts.as_str());
            out.append(" (Page ");
            let ps = usize_to_string(tables[i].page);
            out.append(ps.as_str());
            out.append(")\n\n");
            let tb = self.write_table_markdown(&tables[i]);
            out.append(tb.as_str());
            out.append("\n");
            proof {
                assert(out@ =~= base + md_tables_upto(tables@, i + 1));
            }
            i = i + 1;
        }
        out
    }
}

/// A page as Markdown: heading, escaped text, then its numbered tables.
pub open spec fn md_page(p: Page) -> Seq<char> {
    "# Page "@ + dec_str(p.number as nat) + "\n\n"@ + md_text(p.text@) + "\n"@ + (
    if p.tables@.len() > 0 {
        "\n## Tables\n\n"@ + md_page_tables(p.tables@, p.tables@.len() as int)
    } else {
        Seq::empty()
    })
}

/// A page's tables with third-level numbered headings.
pub open spec fn md_page_tables(tables: Seq<Table>, k: int) -> Seq<char>
    decreases k,
{
    if k <= 0 {
        Seq::empty()
    } else {
        md_page_tables(tables, k - 1) + "### Table "@ + dec_str(k as nat) + "\n\n"@ + md_table(
            tables[k - 1],
        ) + "\n"@
    }
}

/// Numbered tables with their page of origin.
pub open spec fn md_tables_upto(tables: Seq<Table>, k: int) -> Seq<char>
    decreases k,
{
    if k <= 0 {
        Seq::empty()
    } else {
        md_tables_upto(tables, k - 1) + "## Table "@ + dec_str(k as nat) + " (Page "@ + dec_str(
            tables[k - 1].page as nat,
        ) + ")\n\n"@ + md_table(tables[k - 1]) + "\n"@
    }
}

/// A cell fit for CSV: trimmed, line breaks flattened, tabs widened.
pub open spec fn csv_clean(s: Seq<char>) -> Seq<char> {
    replace_seq(
        replace_seq(replace_seq(trim_seq(s), seq!['\n'], seq![' ']), seq!['\r'], Seq::empty()),
        seq!['\t'],
        seq![' '],
    )
}

/// Page text flattened for a one-record CSV: breaks to spaces, returns
/// dropped.
pub open spec fn page_clean(s: Seq<char>) -> Seq<char> {
    replace_seq(replace_seq(s, seq!['\n'], seq![' ']), seq!['\r'], Seq::empty())
}

/// A table row padded to `m` columns and cleaned cell by cell.
pub open spec fn csv_norm_row(row: Seq<Seq<char>>, m: int) -> Seq<Seq<char>> {
    Seq::new(m as nat, |j: int| csv_clean(if j < row.len() {
        row[j]
    } else {
        Seq::empty()
    }))
}

/// Whether a cleaned row still shows anything.
pub open spec fn csv_row_kept(row: Seq<Seq<char>>) -> bool {
    exists|j: int| 0 <= j < row.len() && !crate::chars::is_blank(#[trigger] row[j])
}

/// The first `k` rows of a table, normalized and the blank ones dropped.
pub open spec fn csv_norm_upto(rows: Seq<Seq<Seq<char>>>, m: int, k: int) -> Seq<Seq<Seq<char>>>
    decreases k,
{
    if k <= 0 {
        Seq::empty()
    } else {
        csv_norm_upto(rows, m, k - 1) + (if csv_row_kept(csv_norm_row(rows[k - 1], m)) {
            seq![csv_norm_row(rows[k - 1], m)]
        } else {
            Seq::empty()
        })
    }
}

/// A whole table normalized for CSV; empty when it has no columns.
pub open spec fn csv_norm(t: Table) -> Seq<Seq<Seq<char>>> {
    let rows = tbl_data(t);
    let m = crate::excel::grid_cols(t.data@);
    if t.data@.len() == 0 || m == 0 {
        Seq::empty()
    } else {
        csv_norm_upto(rows, m, rows.len() as int)
    }
}

/// The CSV renderer for extracted tables and page text.
pub struct CsvOutput {
    pub delimiter: u8,
    pub quote_char: u8,
    pub has_headers: bool,
}

/// The header row padded with numbered column names and cut to the width.
pub open spec fn csv_headers(h: Seq<Seq<char>>, m: int) -> Seq<Seq<char>> {
    Seq::new(m as nat, |j: int| if j < h.len() {
        h[j]
    } else {
        "Column_"@ + dec_str((j + 1) as nat)
    })
}

/// The separator record announcing a table, padded to its width.
pub open spec fn csv_sep_row(page: nat, m: int) -> Seq<Seq<char>> {
    Seq::new(
        if m >= 1 {
            m as nat
        } else {
            1
        },
        |j: int| if j == 0 {
            "--- Table from Page "@ + dec_str(page) + " ---"@
        } else {
            Seq::empty()
        },
    )
}

/// One table's CSV records; a separator first when one came before.
pub open spec fn csv_table(t: Table, d: char, q: char, hh: bool, sep: bool) -> Seq<char> {
    let nt = csv_norm(t);
    if t.data@.len() == 0 || nt.len() == 0 {
        Seq::empty()
    } else {
        (if sep {
            crate::excel::csv_record(csv_sep_row(t.page as nat, nt[0].len() as int), d, q)
        } else {
            Seq::empty()
        }) + (if hh && t.headers is Some {
            crate::excel::csv_record(
                csv_headers(t.headers->0@.map_values(|s: String| s@), nt[0].len() as int),
                d,
                q,
            )
        } else {
            Seq::empty()
        }) + csv_records(nt, d, q, nt.len() as int)
    }
}

/// Rows as CSV records.
pub open spec fn csv_records(rows: Seq<Seq<Seq<char>>>, d: char, q: char, k: int) -> Seq<char>
    decreases k,
{
    if k <= 0 {
        Seq::empty()
    } else {
        csv_records(rows, d, q, k - 1) + crate::excel::csv_record(rows[k - 1], d, q)
    }
}

/// Whether one of the first `k` tables put out records.
pub open spec fn csv_any(tables: Seq<Table>, k: int) -> bool
    decreases k,
{
    if k <= 0 {
        false
    } else {
        csv_any(tables, k - 1) || (tables[k - 1].data@.len() > 0 && csv_norm(tables[k - 1]).len()
            > 0)
    }
}

/// The first `k` tables' records.
pub open spec fn csv_tables(tables: Seq<Table>, d: char, q: char, hh: bool, k: int) -> Seq<char>
    decreases k,
{
    if k <= 0 {
        Seq::empty()
    } else {
        csv_tables(tables, d, q, hh, k - 1) + csv_table(
            tables[k - 1],
            d,
            q,
            hh,
            csv_any(tables, k - 1),
        )
    }
}

/// Every normalized row is `m` cells wide.
proof fn lemma_csv_norm_len(rows: Seq<Seq<Seq<char>>>, m: int, k: int)
    requires
        m >= 0,
    ensures
        forall|idx: int|
            0 <= idx < csv_norm_upto(rows, m, k).len() ==> (#[trigger] csv_norm_upto(
                rows,
                m,
                k,
            )[idx]).len() == m,
    decreases k,
{
    if k > 0 {
        lemma_csv_norm_len(rows, m, k - 1);
        let prev = csv_norm_upto(rows, m, k - 1);
        let cur = csv_norm_upto(rows, m, k);
        assert forall|idx: int| 0 <= idx < cur.len() implies (#[trigger] cur[idx]).len() == m by {
            if idx < prev.len() {
                assert(cur[idx] == prev[idx]);
            } else {
                assert(cur[idx] == csv_norm_row(rows[k - 1], m));
            }
        }
    }
}

/// Cleans one cell for CSV.
fn csv_clean_exec(cell: &str) -> (r: String)
    ensures
        r@ == csv_clean(cell@),
{
    let v = chars_vec(cell);
    let t = trim_chars(&v);
    let nl = chars_vec("\n");
    let sp = chars_vec(" ");
    let cr = chars_vec("\r");
    let tab = chars_vec("\t");
    let none: Vec<char> = Vec::new();
    proof {
        reveal_strlit("\n");
        reveal_strlit(" ");
        reveal_strlit("\r");
        reveal_strlit("\t");
        assert(nl@ =~= seq!['\n']);
        assert(sp@ =~= seq![' ']);
        assert(cr@ =~= seq!['\r']);
        assert(tab@ =~= seq!['\t']);
        assert(none@ =~= Seq::<char>::empty());
    }
    let a = replace_all(&t, &nl, &sp);
    let b = replace_all(&a, &cr, &none);
    let c = replace_all(&b, &tab, &sp);
    string_of(&c)
}

impl CsvOutput {
    /// A CSV renderer with the given delimiter, quote and header flag.
    pub fn new(delimiter: u8, quote_char: u8, has_headers: bool) -> (o: CsvOutput)
        ensures
            o.delimiter == delimiter,
            o.quote_char == quote_char,
            o.has_headers == has_headers,
    {
        CsvOutput { delimiter, quote_char, has_headers }
    }

    /// Renders tables as CSV records, name comments between tables.
    #[verifier::rlimit(100)]
    #[verifier::spinoff_prover]
    pub fn write_tables(&self, tables: &Vec<Table>) -> (r: String)
        ensures
            r@ == csv_tables(
                tables@,
                self.delimiter as char,
                self.quote_char as char,
                self.has_headers,
                tables@.len() as int,
            ),
    {
        let d = self.delimiter as char;
        let q = self.quote_char as char;
        let mut out = String::new();
        let n = tables.len();
        let mut first = true;
        let mut i: usize = 0;
        proof {
            assert(out@ =~= csv_tables(tables@, d, q, self.has_headers, 0));
        }
        while i < n
            invariant
                d == self.delimiter as char,
                q == self.quote_char as char,
                n == tables@.len(),
                i <= n,
                first == !csv_any(tables@, i as int),
                out@ == csv_tables(tables@, d, q, self.has_headers, i as int),
            decreases n - i,
        {
            let t = &tables[i];
            let ghost nt = csv_norm(tables@[i as int]);
            if t.data.len() == 0 {
                proof {
                    assert(csv_table(tables@[i as int], d, q, self.has_headers, !first)
                        =~= Seq::<char>::empty());
                    assert(out@ =~= csv_tables(tables@, d, q, self.has_headers, i + 1));
                }
                i = i + 1;
                continue;
            }
            // Normalize: pad to the widest row and clean each cell, dropping
            // rows with nothing left.
            let mut maxc: usize = 0;
            let rn = t.data.len();
            let mut z: usize = 0;
            proof {
                assert(t.data@.subrange(0, 0) =~= Seq::<Vec<String>>::empty());
            }
            while z < rn
                invariant
                    rn == t.data@.len(),
                    z <= rn,
                    maxc == crate::excel::grid_cols(t.data@.subrange(0, z as int)),
                decreases rn - z,
            {
                proof {
                    assert(t.data@.subrange(0, z + 1).drop_last() =~= t.data@.subrange(
                        0,
                        z as int,
                    ));
                    assert(t.data@.subrange(0, z + 1).last() == t.data@[z as int]);
                }
                if t.data[z].len() > maxc {
                    maxc = t.data[z].len();
                }
                z = z + 1;
            }
            proof {
                assert(t.data@.subrange(0, rn as int) =~= t.data@);
            }
            if maxc == 0 {
                proof {
                    assert(csv_table(tables@[i as int], d, q, self.has_headers, !first)
                        =~= Seq::<char>::empty());
                    assert(out@ =~= csv_tables(tables@, d, q, self.has_headers, i + 1));
                }
                i = i + 1;
                continue;
            }
            let ghost rows = tbl_data(tables@[i as int]);
            let mut norm: Vec<Vec<String>> = Vec::new();
            let mut w: usize = 0;
            proof {
                assert(norm@.map_values(|row: Vec<String>| row@.map_values(|s: String| s@))
                    =~= csv_norm_upto(rows, maxc as int, 0));
            }
            while w < rn
                invariant
                    rn == t.data@.len(),
                    t == tables@[i as int],
                    i < n,
                    n == tables@.len(),
                    rows == tbl_data(tables@[i as int]),
                    maxc >= 1,
                    w <= rn,
                    norm@.map_values(|row: Vec<String>| row@.map_values(|s: String| s@))
                        == csv_norm_upto(rows, maxc as int, w as int),
                decreases rn - w,
            {
                let src = &t.data[w];
                let sl = src.len();
                let mut row: Vec<String> = Vec::new();
                let mut kept = false;
                let mut j: usize = 0;
                proof {
                    assert(rows[w as int] == t.data@[w as int]@.map_values(|s: String| s@));
                }
                while j < maxc
                    invariant
                        sl == src@.len(),
                        src == &t.data@[w as int],
                        w < rn,
                        rn == t.data@.len(),
                        rows[w as int] == t.data@[w as int]@.map_values(|s: String| s@),
                        j <= maxc,
                        row@.map_values(|s: String| s@) =~= csv_norm_row(
                            rows[w as int],
                            maxc as int,
                        ).subrange(0, j as int),
                        kept == exists|y: int|
                            0 <= y < j && !crate::chars::is_blank(
                                #[trigger] csv_norm_row(rows[w as int], maxc as int)[y],
                            ),
                    decreases maxc - j,
                {
                    let cleaned: String = if j < sl {
                        csv_clean_exec(src[j].as_str())
                    } else {
                        csv_clean_exec("")
                    };
                    proof {
                        if j >= sl {
                            reveal_strlit("");
                            assert(""@ =~= Seq::<char>::empty());
                        }
                        assert(cleaned@ == csv_norm_row(rows[w as int], maxc as int)[j as int]);
                    }
                    let cv = trim_chars(&chars_vec(cleaned.as_str()));
                    proof {
                        crate::chars::lemma_blank_trim(cleaned@);
                    }
                    if cv.len() > 0 {
                        kept = true;
                    }
                    let ghost row0 = row@;
                    row.push(cleaned);
                    proof {
                        assert(row@.map_values(|s: String| s@) =~= row0.map_values(
                            |s: String| s@,
                        ).push(csv_norm_row(rows[w as int], maxc as int)[j as int]));
                        assert(row@.map_values(|s: String| s@) =~= csv_norm_row(
                            rows[w as int],
                            maxc as int,
                        ).subrange(0, j + 1));
                    }
                    j = j + 1;
                }
                proof {
                    let nr = csv_norm_row(rows[w as int], maxc as int);
                    assert(nr.subrange(0, maxc as int) =~= nr);
                    assert(kept == csv_row_kept(nr));
                }
                if kept {
                    let ghost norm0 = norm@;
                    norm.push(row);
                    proof {
                        let f = |row: Vec<String>| row@.map_values(|s: String| s@);
                        assert(norm@.map_values(f) =~= norm0.map_values(f).push(
                            csv_norm_row(rows[w as int], maxc as int),
                        ));
                        assert(norm@.map_values(f) =~= csv_norm_upto(rows, maxc as int, w + 1));
                    }
                } else {
                    proof {
                        assert(csv_norm_upto(rows, maxc as int, w + 1) =~= csv_norm_upto(
                            rows,
                            maxc as int,
                            w as int,
                        ));
                    }
                }
                w = w + 1;
            }
            proof {
                assert(nt == csv_norm_upto(rows, maxc as int, rn as int));
                assert(norm@.map_values(|row: Vec<String>| row@.map_values(|s: String| s@)) == nt);
            }
            if norm.len() == 0 {
                proof {
                    assert(csv_table(tables@[i as int], d, q, self.has_headers, !first)
                        =~= Seq::<char>::empty());
                    assert(out@ =~= csv_tables(tables@, d, q, self.has_headers, i + 1));
                }
                i = i + 1;
                continue;
            }
            let width = norm[0].len();
            proof {
                lemma_csv_norm_len(rows, maxc as int, rn as int);
                assert(nt[0].len() == width);
                assert(width == maxc);
            }
            let ghost tbase = out@;
            if !first {
                // The separator record.
                let mut sep: Vec<String> = Vec::new();
                let mut head = String::from_str("--- Table from Page ");
                let ps = usize_to_string(t.page);
                head.append(ps.as_str());
                head.append(" ---");
                let ghost hview = head@;
                sep.push(head);
                proof {
                    let sr = csv_sep_row(tables@[i as int].page as nat, width as int);
                    assert(sep@.map_values(|s: String| s@) =~= seq![hview]);
                    assert(sr[0] == hview);
                    assert(sep@.map_values(|s: String| s@) =~= sr.subrange(0, 1));
                }
                let mut y: usize = 1;
                while y < width
                    invariant
                        1 <= y,
                        y <= width || width == 0,
                        sep@.map_values(|s: String| s@) =~= csv_sep_row(
                            tables@[i as int].page as nat,
                            width as int,
                        ).subrange(0, y as int),
                        width == nt[0].len(),
                        nt == csv_norm(tables@[i as int]),
                        i < n,
                        n == tables@.len(),
                    decreases width - y,
                {
                    let ghost sep0 = sep@;
                    sep.push(String::new());
                    proof {
                        assert(sep@.map_values(|s: String| s@) =~= sep0.map_values(
                            |s: String| s@,
                        ).push(Seq::<char>::empty()));
                        assert(sep@.map_values(|s: String| s@) =~= csv_sep_row(
                            tables@[i as int].page as nat,
                            width as int,
                        ).subrange(0, y + 1));
                    }
                    y = y + 1;
                }
                proof {
                    let sr = csv_sep_row(tables@[i as int].page as nat, width as int);
                    assert(sr.len() == width as int);
                    assert(sep@.map_values(|s: String| s@) =~= sr);
                }
                crate::excel::push_csv_record(&mut out, &sep, d, q);
            }
            let ghost hbase = out@;
            if self.has_headers {
                match &t.headers {
                    Some(h) => {
                        let hn = h.len();
                        let mut hrow: Vec<String> = Vec::new();
                        let ghost hv = h@.map_values(|s: String| s@);
                        let mut y: usize = 0;
                        while y < width
                            invariant
                                hn == h@.len(),
                                hv == h@.map_values(|s: String| s@),
                                y <= width,
                                hrow@.map_values(|s: String| s@) =~= csv_headers(
                                    hv,
                                    width as int,
                                ).subrange(0, y as int),
                            decreases width - y,
                        {
                            let cell: String = if y < hn {
                                h[y].clone()
                            } else {
                                let mut c = String::from_str("Column_");
                                let cs = usize_to_string(y + 1);
                                c.append(cs.as_str());
                                c
                            };
                            proof {
                                assert(cell@ == csv_headers(hv, width as int)[y as int]);
                            }
                            let ghost h0 = hrow@;
                            hrow.push(cell);
                            proof {
                                assert(hrow@.map_values(|s: String| s@) =~= h0.map_values(
                                    |s: String| s@,
                                ).push(csv_headers(hv, width as int)[y as int]));
                                assert(hrow@.map_values(|s: String| s@) =~= csv_headers(
                                    hv,
                                    width as int,
                                ).subrange(0, y + 1));
                            }
                            y = y + 1;
                        }
                        proof {
                            let ch = csv_headers(hv, width as int);
                            assert(ch.subrange(0, width as int) =~= ch);
                        }
                        crate::excel::push_csv_record(&mut out, &hrow, d, q);
                    },
                    None => {},
                }
            }
            // The data records.
            let ghost rbase = out@;
            let nn = norm.len();
            let mut u: usize = 0;
            while u < nn
                invariant
                    nn == norm@.len(),
                    norm@.map_values(|row: Vec<String>| row@.map_values(|s: String| s@)) == nt,
                    u <= nn,
                    out@ == rbase + csv_records(nt, d, q, u as int),
                decreases nn - u,
            {
                proof {
                    assert(nt[u as int] == norm@[u as int]@.map_values(|s: String| s@));
                }
                crate::excel::push_csv_record(&mut out, &norm[u], d, q);
                proof {
                    assert(out@ =~= rbase + csv_records(nt, d, q, u + 1));
                }
                u = u + 1;
            }
            proof {
                assert(out@ =~= tbase + csv_table(tables@[i as int], d, q, self.has_headers, !first));
                assert(out@ =~= csv_tables(tables@, d, q, self.has_headers, i + 1));
                assert(csv_any(tables@, i + 1));
            }
            first = false;
            i = i + 1;
        }
        out
    }

    /// Renders a page without tables as a one-record CSV of its flattened
    /// text; a page with tables renders them instead.
    pub fn write_page(&self, page: &Page) -> (r: String)
        ensures
            page.tables@.len() == 0 ==> r@ == (if self.has_headers {
                crate::excel::csv_record(
                    seq!["Content"@],
                    self.delimiter as char,
                    self.quote_char as char,
                )
            } else {
                Seq::empty()
            }) + crate::excel::csv_record(
                seq![page_clean(page.text@)],
                self.delimiter as char,
                self.quote_char as char,
            ),
            page.tables@.len() > 0 ==> r@ == csv_tables(
                page.tables@,
                self.delimiter as char,
                self.quote_char as char,
                self.has_headers,
                page.tables@.len() as int,
            ),
    {
        let d = self.delimiter as char;
        let q = self.quote_char as char;
        if page.tables.len() > 0 {
            return self.write_tables(&page.tables);
        }
        let mut out = String::new();
        if self.has_headers {
            let mut hrow: Vec<String> = Vec::new();
            hrow.push(String::from_str("Content"));
            proof {
                assert(hrow@.map_values(|s: String| s@) =~= seq!["Content"@]);
            }
            crate::excel::push_csv_record(&mut out, &hrow, d, q);
        }
        let v = chars_vec(page.text.as_str());
        let nl = chars_vec("\n");
        let sp = chars_vec(" ");
        let cr = chars_vec("\r");
        let none: Vec<char> = Vec::new();
        proof {
            reveal_strlit("\n");
            reveal_strlit(" ");
            reveal_strlit("\r");
            assert(nl@ =~= seq!['\n']);
            assert(sp@ =~= seq![' ']);
            assert(cr@ =~= seq!['\r']);
            assert(none@ =~= Seq::<char>::empty());
        }
        let a = replace_all(&v, &nl, &sp);
        let b = replace_all(&a, &cr, &none);
        let cleaned = string_of(&b);
        let mut crow: Vec<String> = Vec::new();
        crow.push(cleaned);
        proof {
            assert(crow@.map_values(|s: String| s@) =~= seq![page_clean(page.text@)]);
        }
        crate::excel::push_csv_record(&mut out, &crow, d, q);
        out
    }
}

} // verus!
