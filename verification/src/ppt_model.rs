//! The presentation model: slides, their tables and lists, and metadata,
//! together with the content heuristics that find titles, table rows and
//! list items in extracted slide text.

use vstd::prelude::*;
use vstd::string::*;
use crate::chars::{
    is_ws_char, wrun, drun, matches_at, chars_vec, scan_ws, string_of, match_at, is_digit_char, dec_str,
    trim_chars, trim_seq, usize_to_string, split_from_char, split_char, crun, scan_to_char,
};

verus! {

/// A moment in civil time, held as plain calendar and clock fields.
#[derive(Debug, Clone)]
pub struct Timestamp {
    pub year: u32,
    pub month: u8,
    pub day: u8,
    pub hour: u8,
    pub minute: u8,
    pub second: u8,
}

/// `n` in decimal, left-padded with zeros to `w` digits.
pub open spec fn zero_pad(n: nat, w: int) -> Seq<char> {
    let d = dec_str(n);
    if d.len() >= w {
        d
    } else {
        crate::chars::char_repeat('0', (w - d.len()) as nat) + d
    }
}

/// The timestamp's date: year, month and day, zero-padded, dash-separated.
pub open spec fn ts_date(t: Timestamp) -> Seq<char> {
    zero_pad(t.year as nat, 4) + "-"@ + zero_pad(t.month as nat, 2) + "-"@ + zero_pad(
        t.day as nat,
        2,
    )
}

/// The timestamp written out in full, UTC-labelled.
pub open spec fn ts_full(t: Timestamp) -> Seq<char> {
    ts_date(t) + " "@ + zero_pad(t.hour as nat, 2) + ":"@ + zero_pad(t.minute as nat, 2) + ":"@
        + zero_pad(t.second as nat, 2) + " UTC"@
}

/// Appends `n` zero-padded to `w` digits.
fn push_zero_pad(out: &mut String, n: usize, w: usize)
    ensures
        final(out)@ == old(out)@ + zero_pad(n as nat, w as int),
{
    let d = usize_to_string(n);
    let dl = d.as_str().unicode_len();
    if dl >= w {
        out.append(d.as_str());
    } else {
        let ghost base = out@;
        let zs = crate::chars::repeat_char('0', w - dl);
        out.append(zs.as_str());
        out.append(d.as_str());
        proof {
            assert(out@ =~= base + zero_pad(n as nat, w as int));
        }
    }
}

impl Timestamp {
    /// A timestamp from its fields.
    pub fn new(year: u32, month: u8, day: u8, hour: u8, minute: u8, second: u8) -> (t: Timestamp)
        ensures
            t == (Timestamp { year, month, day, hour, minute, second }),
    {
        Timestamp { year, month, day, hour, minute, second }
    }

    /// The date alone.
    pub fn format_date(&self) -> (r: String)
        ensures
            r@ == ts_date(*self),
    {
        let mut out = String::new();
        push_zero_pad(&mut out, self.year as usize, 4);
        proof {
            assert(out@ =~= zero_pad(self.year as nat, 4));
        }
        out.append("-");
        push_zero_pad(&mut out, self.month as usize, 2);
        out.append("-");
        push_zero_pad(&mut out, self.day as usize, 2);
        out
    }

    /// The full form with the UTC label.
    pub fn format_full(&self) -> (r: String)
        ensures
            r@ == ts_full(*self),
    {
        let mut out = self.format_date();
        out.append(" ");
        push_zero_pad(&mut out, self.hour as usize, 2);
        out.append(":");
        push_zero_pad(&mut out, self.minute as usize, 2);
        out.append(":");
        push_zero_pad(&mut out, self.second as usize, 2);
        out.append(" UTC");
        out
    }
}

/// One slide: its title, text runs, notes, and the tables and lists found in
/// the text.
#[derive(Debug, Clone)]
pub struct Slide {
    pub number: usize,
    pub title: Option<String>,
    pub content: Vec<String>,
    pub notes: Option<String>,
    pub tables: Vec<Table>,
    pub lists: Vec<List>,
}

/// A table found on a slide.
#[derive(Debug, Clone)]
pub struct Table {
    pub slide_number: usize,
    pub rows: Vec<Vec<String>>,
    pub headers: Option<Vec<String>>,
}

/// A list found on a slide.
#[derive(Debug, Clone)]
pub struct List {
    pub slide_number: usize,
    pub list_type: ListType,
    pub items: Vec<String>,
}

/// Ordered or unordered.
#[derive(Debug, Clone)]
pub enum ListType {
    Ordered,
    Unordered,
}

/// Presentation metadata.
#[derive(Debug, Clone)]
pub struct PptMetadata {
    pub title: Option<String>,
    pub author: Option<String>,
    pub subject: Option<String>,
    pub creator: Option<String>,
    pub creation_date: Option<Timestamp>,
    pub modification_date: Option<Timestamp>,
    pub slide_count: usize,
    pub file_size: u64,
    pub application: Option<String>,
}

/// A parsed presentation.
#[derive(Debug, Clone)]
pub struct PptData {
    pub slides: Vec<Slide>,
    pub metadata: PptMetadata,
    pub slide_count: usize,
}

/// The number of non-overlapping occurrences of `pat` in `s` from `i` on,
/// as `str::matches` counts them.
pub open spec fn cnt_occ(s: Seq<char>, pat: Seq<char>, i: int) -> int
    decreases s.len() - i,
{
    if i < 0 || i >= s.len() || pat.len() == 0 {
        0
    } else if matches_at(s, pat, i) && i + pat.len() <= s.len() {
        if pat.len() >= 1 {
            1 + cnt_occ(s, pat, i + pat.len() as int)
        } else {
            0
        }
    } else {
        cnt_occ(s, pat, i + 1)
    }
}

/// Counts non-overlapping occurrences of `pat`.
pub fn count_occ(v: &Vec<char>, pat: &Vec<char>) -> (r: usize)
    requires
        pat@.len() >= 1,
    ensures
        r == cnt_occ(v@, pat@, 0),
{
    let n = v.len();
    let m = pat.len();
    let mut cnt: usize = 0;
    let mut i: usize = 0;
    while i < n
        invariant
            n == v@.len(),
            m == pat@.len(),
            m >= 1,
            i <= n,
            cnt <= i,
            cnt + cnt_occ(v@, pat@, i as int) == cnt_occ(v@, pat@, 0),
        decreases n - i,
    {
        let hit = if m <= n - i {
            match_at(v, pat, i)
        } else {
            false
        };
        proof {
            if m > n - i {
                assert(!matches_at(v@, pat@, i as int));
            }
        }
        if hit {
            cnt = cnt + 1;
            i = i + m;
        } else {
            i = i + 1;
        }
    }
    cnt
}

/// Title heuristic: short, no closing punctuation, and some capital letter.
pub open spec fn title_like(s: Seq<char>) -> bool {
    s.len() < 100 && (s.len() == 0 || (s.last() != '.' && s.last() != '!' && s.last() != '?')) && (
    exists|k: int| 0 <= k < s.len() && 'A' <= s[k] && s[k] <= 'Z')
}

/// Table-row heuristic: a tab, two pipes, or two double-space gaps.
pub open spec fn table_row_like(s: Seq<char>) -> bool {
    (exists|k: int| 0 <= k < s.len() && s[k] == '\t') || cnt_occ(s, seq!['|'], 0) >= 2 || cnt_occ(
        s,
        seq![' ', ' '],
        0,
    ) >= 2
}

/// Header-row heuristic: every cell short and free of digits.
pub open spec fn header_row_like(cells: Seq<Seq<char>>) -> bool {
    forall|q: int|
        0 <= q < cells.len() ==> (#[trigger] cells[q]).len() < 30 && (forall|k: int|
            0 <= k < cells[q].len() ==> !is_digit_char(cells[q][k]))
}

/// List-item heuristic: a bullet, dash or star marker, or a digit followed
/// by a dot, after leading whitespace.
pub open spec fn list_item_like(s: Seq<char>) -> bool {
    let t = s.skip(wrun(s, 0));
    matches_at(t, seq!['\u{2022}', ' '], 0) || matches_at(t, seq!['-', ' '], 0) || matches_at(
        t,
        seq!['*', ' '],
        0,
    ) || (t.len() > 2 && is_digit_char(t[0]) && t[1] == '.')
}


/// The numeric value of a decimal digit character.
pub open spec fn digit_of(c: char) -> int {
    if c == '0' { 0 } else if c == '1' { 1 } else if c == '2' { 2 } else if c == '3' { 3 }
    else if c == '4' { 4 } else if c == '5' { 5 } else if c == '6' { 6 } else if c == '7' { 7 }
    else if c == '8' { 8 } else { 9 }
}

/// The value of the first `k` digits starting at `i`.
pub open spec fn digits_val(s: Seq<char>, i: int, k: int) -> int
    decreases k,
{
    if k <= 0 {
        0
    } else {
        digits_val(s, i, k - 1) * 10 + digit_of(s[i + k - 1])
    }
}

/// A slide part name fragment sits at `i`: the slide word, a maximal digit
/// run, and the XML suffix.
pub open spec fn slide_num_at(s: Seq<char>, i: int) -> bool {
    matches_at(s, seq!['s', 'l', 'i', 'd', 'e'], i) && drun(s, i + 5) > 0 && matches_at(
        s,
        seq!['.', 'x', 'm', 'l'],
        i + 5 + drun(s, i + 5),
    )
}

/// The slide number a part name yields, scanning from `i`: the digits of
/// the first slide fragment, or nothing when no fragment occurs or its
/// number does not fit a machine word.
pub open spec fn slide_num_from(s: Seq<char>, i: int) -> Option<usize>
    decreases s.len() - i,
{
    if i < 0 || i >= s.len() {
        None
    } else if slide_num_at(s, i) {
        let d = drun(s, i + 5);
        if digits_val(s, i + 5, d) <= usize::MAX {
            Some(digits_val(s, i + 5, d) as usize)
        } else {
            None
        }
    } else {
        slide_num_from(s, i + 1)
    }
}

/// Prefix digit values only grow.
proof fn lemma_digits_val_grows(s: Seq<char>, i: int, k: int)
    requires
        0 <= k,
    ensures
        digits_val(s, i, k) >= 0 ==> digits_val(s, i, k + 1) >= digits_val(s, i, k),
        digits_val(s, i, 0) == 0,
{
    assert(digits_val(s, i, k + 1) == digits_val(s, i, k) * 10 + digit_of(s[i + k]));
    assert(digit_of(s[i + k]) >= 0);
    if digits_val(s, i, k) >= 0 {
        assert(digits_val(s, i, k) * 10 >= digits_val(s, i, k));
    }
}

/// A list item's body once its marker is removed: two characters after a
/// bullet, dash or star marker; the trimmed text after the first dot
/// otherwise, or the whole trimmed-start text when no dot occurs.
pub open spec fn list_item_text(s: Seq<char>) -> Seq<char> {
    let t = s.skip(wrun(s, 0));
    if matches_at(t, seq!['\u{2022}', ' '], 0) || matches_at(t, seq!['-', ' '], 0) || matches_at(
        t,
        seq!['*', ' '],
        0,
    ) {
        t.skip(2)
    } else if crun(t, '.', 0) < t.len() {
        trim_seq(t.subrange(crun(t, '.', 0) + 1, t.len() as int))
    } else {
        t
    }
}

/// The presentation parser's pure decision rules.
pub struct PptParser;

impl PptParser {
    /// A parser.
    pub fn new() -> (p: PptParser) {
        PptParser
    }

    /// Whether a text reads as a slide title.
    pub fn looks_like_title(&self, text: &str) -> (r: bool)
        ensures
            r == title_like(text@),
    {
        let v = chars_vec(text);
        let n = v.len();
        if n >= 100 {
            return false;
        }
        if n > 0 && (v[n - 1] == '.' || v[n - 1] == '!' || v[n - 1] == '?') {
            return false;
        }
        let mut i: usize = 0;
        while i < n
            invariant
                n == v@.len(),
                v@ == text@,
                n < 100,
                n == 0 || (v@[n - 1] != '.' && v@[n - 1] != '!' && v@[n - 1] != '?'),
                i <= n,
                forall|k: int| 0 <= k < i ==> !('A' <= v@[k] && v@[k] <= 'Z'),
            decreases n - i,
        {
            if 'A' <= v[i] && v[i] <= 'Z' {
                proof {
                    assert('A' <= text@[i as int] && text@[i as int] <= 'Z');
                }
                return true;
            }
            i = i + 1;
        }
        false
    }

    /// Whether a text reads as one row of a table.
    pub fn looks_like_table_row(&self, text: &str) -> (r: bool)
        ensures
            r == table_row_like(text@),
    {
        let v = chars_vec(text);
        let n = v.len();
        let mut i: usize = 0;
        while i < n
            invariant
                n == v@.len(),
                v@ == text@,
                i <= n,
                forall|k: int| 0 <= k < i ==> v@[k] != '\t',
            decreases n - i,
        {
            if v[i] == '\t' {
                return true;
            }
            i = i + 1;
        }
        let pipe = pat_pipe();
        if count_occ(&v, &pipe) >= 2 {
            return true;
        }
        let gap = pat_gap();
        count_occ(&v, &gap) >= 2
    }

    /// Whether every cell of a row reads as a header entry.
    pub fn looks_like_header(&self, row: &Vec<String>) -> (r: bool)
        ensures
            r == header_row_like(row@.map_values(|s: String| s@)),
    {
        let ghost cells = row@.map_values(|s: String| s@);
        let n = row.len();
        let mut q: usize = 0;
        while q < n
            invariant
                cells == row@.map_values(|s: String| s@),
                n == row@.len(),
                q <= n,
                forall|j: int|
                    0 <= j < q ==> (#[trigger] cells[j]).len() < 30 && (forall|k: int|
                        0 <= k < cells[j].len() ==> !is_digit_char(cells[j][k])),
            decreases n - q,
        {
            let v = chars_vec(row[q].as_str());
            proof {
                assert(cells[q as int] == row@[q as int]@);
            }
            if v.len() >= 30 {
                proof {
                    assert(cells[q as int].len() >= 30);
                }
                return false;
            }
            let mut k: usize = 0;
            while k < v.len()
                invariant
                    q < n,
                    n == row@.len(),
                    cells == row@.map_values(|s: String| s@),
                    v@ == row@[q as int]@,
                    k <= v@.len(),
                    forall|j: int| 0 <= j < k ==> !is_digit_char(v@[j]),
                decreases v@.len() - k,
            {
                if '0' <= v[k] && v[k] <= '9' {
                    proof {
                        assert(cells[q as int] == row@[q as int]@);
                        assert(is_digit_char(cells[q as int][k as int]));
                    }
                    return false;
                }
                k = k + 1;
            }
            proof {
                assert(cells[q as int] == row@[q as int]@);
                assert(cells[q as int].len() < 30);
            }
            q = q + 1;
        }
        true
    }

    /// Whether a text reads as a list item.
    pub fn looks_like_list_item(&self, text: &str) -> (r: bool)
        ensures
            r == list_item_like(text@),
    {
        let v = chars_vec(text);
        let w = scan_ws(&v, 0);
        let n = v.len();
        let ghost t = text@.skip(wrun(text@, 0));
        proof {
            assert(t.len() == n - w);
            assert forall|k: int| 0 <= k < t.len() implies t[k] == v@[w + k] by {}
        }
        if n - w >= 2 {
            let a = v[w];
            let b = v[w + 1];
            if (a == '\u{2022}' && b == ' ') || (a == '-' && b == ' ') || (a == '*' && b == ' ') {
                proof {
                    if a == '\u{2022}' && b == ' ' {
                        assert(t.subrange(0, 2) =~= seq!['\u{2022}', ' ']);
                    } else if a == '-' && b == ' ' {
                        assert(t.subrange(0, 2) =~= seq!['-', ' ']);
                    } else {
                        assert(t.subrange(0, 2) =~= seq!['*', ' ']);
                    }
                }
                return true;
            }
            if n - w > 2 && '0' <= a && a <= '9' && b == '.' {
                return true;
            }
        }
        proof {
            if matches_at(t, seq!['\u{2022}', ' '], 0) {
                assert(t.subrange(0, 2) =~= seq!['\u{2022}', ' ']);
                assert(t[0] == '\u{2022}' && t[1] == ' ');
            }
            if matches_at(t, seq!['-', ' '], 0) {
                assert(t.subrange(0, 2) =~= seq!['-', ' ']);
                assert(t[0] == '-' && t[1] == ' ');
            }
            if matches_at(t, seq!['*', ' '], 0) {
                assert(t.subrange(0, 2) =~= seq!['*', ' ']);
                assert(t[0] == '*' && t[1] == ' ');
            }
        }
        false
    }

    /// The digits of a slide file's name, as a number: the text between the
    /// slide prefix and the dot of the first slide fragment; nothing when no
    /// fragment occurs or the number does not fit.
    pub fn extract_slide_number(&self, filename: &str) -> (r: Option<usize>)
        ensures
            r == slide_num_from(filename@, 0),
    {
        let v = chars_vec(filename);
        let pat = chars_vec("slide");
        let sfx = chars_vec(".xml");
        proof {
            reveal_strlit("slide");
            reveal_strlit(".xml");
            assert(pat@ =~= seq!['s', 'l', 'i', 'd', 'e']);
            assert(sfx@ =~= seq!['.', 'x', 'm', 'l']);
        }
        let n = v.len();
        let mut i: usize = 0;
        while i < n
            invariant
                i <= n,
                n == v@.len(),
                v@ == filename@,
                pat@ == seq!['s', 'l', 'i', 'd', 'e'],
                sfx@ == seq!['.', 'x', 'm', 'l'],
                slide_num_from(filename@, 0) == slide_num_from(filename@, i as int),
            decreases n - i,
        {
            let here: bool;
            if n - i >= 5 && match_at(&v, &pat, i) {
                let d = crate::chars::scan_digits(&v, i + 5);
                let sfx_here = if d > 0 && n - (i + 5 + d) >= 4 {
                    match_at(&v, &sfx, i + 5 + d)
                } else {
                    false
                };
                proof {
                    if d > 0 && n - (i + 5 + d) < 4 {
                        assert(!matches_at(v@, seq!['.', 'x', 'm', 'l'], i + 5 + d));
                    }
                }
                here = d > 0 && sfx_here;
                if here {
                    proof {
                        assert(slide_num_at(filename@, i as int));
                        crate::chars::lemma_drun_props(v@, i + 5);
                    }
                    // Parse the digits; an overflowing number yields nothing.
                    let mut num: usize = 0;
                    let mut q: usize = i + 5;
                    let mut overflow = false;
                    while q < i + 5 + d
                        invariant
                            i + 5 <= q <= i + 5 + d,
                            i + 5 + d <= n,
                            n == v@.len(),
                            v@ == filename@,
                            d == drun(v@, i + 5),
                            forall|k: int| i + 5 <= k < i + 5 + d ==> is_digit_char(#[trigger] v@[k]),
                            !overflow ==> num == digits_val(v@, i + 5, q - (i + 5))
                                && digits_val(v@, i + 5, q - (i + 5)) <= usize::MAX,
                            overflow ==> digits_val(v@, i + 5, q - (i + 5)) > usize::MAX,
                        decreases i + 5 + d - q,
                    {
                        let ghost kk = q - (i + 5);
                        let ghost prev = digits_val(v@, i + 5, kk);
                        let c = v[q];
                        let digit: usize = if c == '0' { 0 } else if c == '1' { 1 }
                            else if c == '2' { 2 } else if c == '3' { 3 } else if c == '4' { 4 }
                            else if c == '5' { 5 } else if c == '6' { 6 } else if c == '7' { 7 }
                            else if c == '8' { 8 } else { 9 };
                        proof {
                            assert(is_digit_char(v@[q as int]));
                            assert(digit == digit_of(v@[q as int]));
                            assert(digits_val(v@, i + 5, kk + 1) == prev * 10 + digit_of(
                                v@[q as int],
                            ));
                        }
                        if overflow {
                            proof {
                                assert(prev > usize::MAX);
                                assert(prev * 10 >= prev) by (nonlinear_arith)
                                    requires
                                        prev > 0,
                                {}
                            }
                        } else if num > (usize::MAX - digit) / 10 {
                            overflow = true;
                            proof {
                                vstd::arithmetic::div_mod::lemma_fundamental_div_mod(
                                    usize::MAX - digit,
                                    10,
                                );
                                assert(prev * 10 + digit > usize::MAX);
                            }
                        } else {
                            proof {
                                vstd::arithmetic::div_mod::lemma_fundamental_div_mod(
                                    usize::MAX - digit,
                                    10,
                                );
                                assert(prev * 10 + digit <= usize::MAX);
                            }
                            num = num * 10 + digit;
                        }
                        q = q + 1;
                    }
                    if !overflow {
                        return Some(num);
                    }
                    return None;
                }
            } else {
                here = false;
                proof {
                    if n - i < 5 {
                        assert(!matches_at(v@, seq!['s', 'l', 'i', 'd', 'e'], i as int));
                    }
                }
            }
            proof {
                assert(!slide_num_at(filename@, i as int));
            }
            i = i + 1;
        }
        None
    }

    /// The body of a recognized list item: bullet, dash and star markers
    /// drop their two leading characters; a numbered item keeps what follows
    /// its first dot, trimmed.
    pub fn list_item_body(&self, text: &str) -> (r: String)
        ensures
            r@ == list_item_text(text@),
    {
        let v = chars_vec(text);
        let w = scan_ws(&v, 0);
        let n = v.len();
        let t = crate::doc_output::copy_range(&v, w, n);
        proof {
            assert(t@ =~= text@.skip(wrun(text@, 0)));
        }
        let marked = if t.len() >= 2 {
            let a = t[0];
            let b = t[1];
            (a == '\u{2022}' && b == ' ') || (a == '-' && b == ' ') || (a == '*' && b == ' ')
        } else {
            false
        };
        proof {
            let ts = text@.skip(wrun(text@, 0));
            if ts.len() >= 2 {
                if ts[0] == '\u{2022}' && ts[1] == ' ' {
                    assert(ts.subrange(0, 2) =~= seq!['\u{2022}', ' ']);
                } else {
                    assert(!matches_at(ts, seq!['\u{2022}', ' '], 0) || ts.subrange(0, 2)
                        =~= seq!['\u{2022}', ' ']);
                }
                if ts[0] == '-' && ts[1] == ' ' {
                    assert(ts.subrange(0, 2) =~= seq!['-', ' ']);
                }
                if ts[0] == '*' && ts[1] == ' ' {
                    assert(ts.subrange(0, 2) =~= seq!['*', ' ']);
                }
                if matches_at(ts, seq!['\u{2022}', ' '], 0) {
                    assert(ts.subrange(0, 2) =~= seq!['\u{2022}', ' ']);
                }
                if matches_at(ts, seq!['-', ' '], 0) {
                    assert(ts.subrange(0, 2) =~= seq!['-', ' ']);
                }
                if matches_at(ts, seq!['*', ' '], 0) {
                    assert(ts.subrange(0, 2) =~= seq!['*', ' ']);
                }
            }
        }
        if marked {
            let body = crate::doc_output::copy_range(&t, 2, t.len());
            proof {
                assert(body@ =~= text@.skip(wrun(text@, 0)).skip(2));
            }
            return string_of(&body);
        }
        let k = scan_to_char(&t, '.', 0);
        if k < t.len() {
            let after = crate::doc_output::copy_range(&t, k + 1, t.len());
            let trimmed = trim_chars(&after);
            proof {
                let ts = text@.skip(wrun(text@, 0));
                assert(after@ =~= ts.subrange(crun(ts, '.', 0) + 1, ts.len() as int));
            }
            return string_of(&trimmed);
        }
        proof {
            let ts = text@.skip(wrun(text@, 0));
            crate::chars::lemma_crun_props(ts, '.', 0);
        }
        string_of(&t)
    }
}

fn pat_pipe() -> (v: Vec<char>)
    ensures
        v@ == seq!['|'],
{
    let mut v: Vec<char> = Vec::new();
    v.push('|');
    proof {
        assert(v@ =~= seq!['|']);
    }
    v
}

fn pat_gap() -> (v: Vec<char>)
    ensures
        v@ == seq![' ', ' '],
{
    let mut v: Vec<char> = Vec::new();
    v.push(' ');
    v.push(' ');
    proof {
        assert(v@ =~= seq![' ', ' ']);
    }
    v
}

} // verus!
