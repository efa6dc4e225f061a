//! Renderers for presentations: plain text, Markdown with optional YAML
//! front matter, a standalone HTML page, and JSON.  Every writer builds its
//! output string and the contract gives that string exactly.

use vstd::prelude::*;
use vstd::string::*;
use crate::chars::{
    chars_vec, string_of, push_char, dec_str, usize_to_string, rep_seq, push_repeated, char_repeat,
    repeat_char,
};
use crate::render::{joined, join_strings, json_str, json_string_of, push_usize};
use crate::ppt_model::{PptData, Slide, Table, List, ListType, PptMetadata, Timestamp, ts_date,
    ts_full};
use crate::doc_output::{yaml_escaped, escape_yaml_string};

verus! {

/// The output format choices of the presentation toolchain.
#[derive(Debug, Clone, PartialEq, Eq, Structural)]
pub enum Format {
    Text,
    Json,
    Markdown,
    Html,
}

/// A presentation output format with its options.
#[derive(Debug, Clone)]
pub enum OutputFormat {
    Text,
    Json { pretty: bool, include_metadata: bool },
    Markdown { include_metadata: bool, include_slide_numbers: bool },
    Html { include_metadata: bool, include_css: bool },
}

impl OutputFormat {
    /// Plain text.
    pub fn text() -> (f: OutputFormat)
        ensures
            f is Text,
    {
        OutputFormat::Text
    }

    /// Compact JSON.
    pub fn json() -> (f: OutputFormat)
        ensures
            f == (OutputFormat::Json { pretty: false, include_metadata: false }),
    {
        OutputFormat::Json { pretty: false, include_metadata: false }
    }

    /// Indented JSON.
    pub fn json_pretty() -> (f: OutputFormat)
        ensures
            f == (OutputFormat::Json { pretty: true, include_metadata: false }),
    {
        OutputFormat::Json { pretty: true, include_metadata: false }
    }

    /// Compact JSON with metadata.
    pub fn json_with_metadata() -> (f: OutputFormat)
        ensures
            f == (OutputFormat::Json { pretty: false, include_metadata: true }),
    {
        OutputFormat::Json { pretty: false, include_metadata: true }
    }

    /// Indented JSON with metadata.
    pub fn json_pretty_with_metadata() -> (f: OutputFormat)
        ensures
            f == (OutputFormat::Json { pretty: true, include_metadata: true }),
    {
        OutputFormat::Json { pretty: true, include_metadata: true }
    }

    /// Markdown with slide numbers.
    pub fn markdown() -> (f: OutputFormat)
        ensures
            f == (OutputFormat::Markdown { include_metadata: false, include_slide_numbers: true }),
    {
        OutputFormat::Markdown { include_metadata: false, include_slide_numbers: true }
    }

    /// Markdown with front matter and slide numbers.
    pub fn markdown_with_metadata() -> (f: OutputFormat)
        ensures
            f == (OutputFormat::Markdown { include_metadata: true, include_slide_numbers: true }),
    {
        OutputFormat::Markdown { include_metadata: true, include_slide_numbers: true }
    }

    /// HTML with styles.
    pub fn html() -> (f: OutputFormat)
        ensures
            f == (OutputFormat::Html { include_metadata: false, include_css: true }),
    {
        OutputFormat::Html { include_metadata: false, include_css: true }
    }

    /// HTML with metadata and styles.
    pub fn html_with_metadata() -> (f: OutputFormat)
        ensures
            f == (OutputFormat::Html { include_metadata: true, include_css: true }),
    {
        OutputFormat::Html { include_metadata: true, include_css: true }
    }
}

/// One indented line: two spaces, the text, a newline.
pub open spec fn ind_line(s: Seq<char>) -> Seq<char> {
    "  "@ + s + "\n"@
}

/// The slide's content items, each indented, over the first `k`.
pub open spec fn txt_items_upto(items: Seq<Seq<char>>, k: int) -> Seq<char>
    decreases k,
{
    if k <= 0 {
        Seq::empty()
    } else {
        txt_items_upto(items, k - 1) + ind_line(items[k - 1])
    }
}

/// An ordered list's lines, numbered from one.
pub open spec fn txt_ol_upto(items: Seq<Seq<char>>, k: int) -> Seq<char>
    decreases k,
{
    if k <= 0 {
        Seq::empty()
    } else {
        txt_ol_upto(items, k - 1) + "  "@ + dec_str(k as nat) + ". "@ + items[k - 1] + "\n"@
    }
}

/// An unordered list's lines, bulleted.
pub open spec fn txt_ul_upto(items: Seq<Seq<char>>, k: int) -> Seq<char>
    decreases k,
{
    if k <= 0 {
        Seq::empty()
    } else {
        txt_ul_upto(items, k - 1) + "  \u{2022} "@ + items[k - 1] + "\n"@
    }
}

/// One list as plain text.
pub open spec fn txt_list(l: List) -> Seq<char> {
    let items = l.items@.map_values(|s: String| s@);
    match l.list_type {
        ListType::Ordered => txt_ol_upto(items, items.len() as int),
        ListType::Unordered => txt_ul_upto(items, items.len() as int),
    }
}

pub open spec fn txt_lists_upto(lists: Seq<List>, k: int) -> Seq<char>
    decreases k,
{
    if k <= 0 {
        Seq::empty()
    } else {
        txt_lists_upto(lists, k - 1) + txt_list(lists[k - 1])
    }
}

/// The UTF-8 byte width of a character.
pub open spec fn utf8_w(c: char) -> int {
    if (c as u32) < 0x80 {
        1
    } else if (c as u32) < 0x800 {
        2
    } else if (c as u32) < 0x10000 {
        3
    } else {
        4
    }
}

/// The UTF-8 byte length of the first `k` characters.
pub open spec fn byte_len_upto(s: Seq<char>, k: int) -> int
    decreases k,
{
    if k <= 0 {
        0
    } else {
        byte_len_upto(s, k - 1) + utf8_w(s[k - 1])
    }
}

pub proof fn lemma_byte_len_bound(s: Seq<char>, k: int)
    requires
        0 <= k,
    ensures
        0 <= byte_len_upto(s, k) <= 4 * k,
    decreases k,
{
    if k > 0 {
        lemma_byte_len_bound(s, k - 1);
    }
}

/// The UTF-8 byte length of a string's characters.
pub fn byte_len(v: &Vec<char>) -> (r: u128)
    ensures
        r == byte_len_upto(v@, v@.len() as int),
{
    let n = v.len();
    let mut r: u128 = 0;
    let mut i: usize = 0;
    proof {
        lemma_byte_len_bound(v@, n as int);
    }
    while i < n
        invariant
            n == v@.len(),
            i <= n,
            r == byte_len_upto(v@, i as int),
            r <= 4 * (i as int),
        decreases n - i,
    {
        let c = v[i];
        let code = c as u32;
        let w: u128 = if code < 0x80 {
            1
        } else if code < 0x800 {
            2
        } else if code < 0x10000 {
            3
        } else {
            4
        };
        r = r + w;
        i = i + 1;
    }
    r
}

/// Rows of a table rendered as indented, pipe-joined lines, from row
/// `from` on.
pub open spec fn txt_rows_from(rows: Seq<Seq<Seq<char>>>, from: int, k: int) -> Seq<char>
    decreases k - from,
{
    if from >= k {
        Seq::empty()
    } else {
        txt_rows_from(rows, from, k - 1) + ind_line(joined(rows[k - 1], " | "@))
    }
}

/// One table as plain text: an optional header line with a dash rule, then
/// the data rows.
pub open spec fn txt_table(t: Table) -> Seq<char> {
    let rows = t.rows@.map_values(|r: Vec<String>| r@.map_values(|s: String| s@));
    match t.headers {
        Some(h) => {
            let hl = joined(h@.map_values(|s: String| s@), " | "@);
            ind_line(hl) + "  "@ + char_repeat('-', byte_len_upto(hl, hl.len() as int) as nat)
                + "\n"@ + txt_rows_from(rows, 1, rows.len() as int)
        },
        None => txt_rows_from(rows, 0, rows.len() as int),
    }
}

pub open spec fn txt_tables_upto(tables: Seq<Table>, k: int) -> Seq<char>
    decreases k,
{
    if k <= 0 {
        Seq::empty()
    } else {
        txt_tables_upto(tables, k - 1) + txt_table(tables[k - 1]) + "\n"@
    }
}

/// Every table with headers has at least one row, as the writers expect.
pub open spec fn tables_wf(tables: Seq<Table>) -> bool {
    forall|q: int|
        0 <= q < tables.len() ==> ((#[trigger] tables[q]).headers is Some ==> tables[q].rows@.len()
            >= 1)
}

/// The whole slide as plain text.
pub open spec fn txt_slide(s: Slide) -> Seq<char> {
    "SLIDE "@ + dec_str(s.number as nat) + "\n\n"@ + (match s.title {
        Some(t) => "Title: "@ + t@ + "\n\n"@,
        None => Seq::empty(),
    }) + (if s.content@.len() > 0 {
        "Content:\n"@ + txt_items_upto(
            s.content@.map_values(|x: String| x@),
            s.content@.len() as int,
        ) + "\n"@
    } else {
        Seq::empty()
    }) + (if s.lists@.len() > 0 {
        "Lists:\n"@ + txt_lists_upto(s.lists@, s.lists@.len() as int) + "\n"@
    } else {
        Seq::empty()
    }) + (if s.tables@.len() > 0 {
        "Tables:\n"@ + txt_tables_upto(s.tables@, s.tables@.len() as int)
    } else {
        Seq::empty()
    }) + (match s.notes {
        Some(t) => "Notes:\n"@ + ind_line(t@),
        None => Seq::empty(),
    })
}

/// Appends a row's cells joined with pipes, indented, on one line.
fn push_row_line(out: &mut String, row: &Vec<String>)
    ensures
        final(out)@ == old(out)@ + ind_line(joined(row@.map_values(|s: String| s@), " | "@)),
{
    let j = join_strings(row, " | ");
    let mut line = String::from_str("  ");
    line.append(j.as_str());
    line.append("\n");
    out.append(line.as_str());
}

/// The plain-text renderer.
pub struct TextOutput;

impl TextOutput {
    /// A text renderer.
    pub fn new() -> (o: TextOutput) {
        TextOutput
    }

    /// Renders one slide as plain text.
    #[verifier::rlimit(100)]
#[verifier::spinoff_prover]
    pub fn write_slide(&self, slide: &Slide) -> (r: String)
        requires
            tables_wf(slide.tables@),
        ensures
            r@ == txt_slide(*slide),
    {
        let mut out = String::from_str("SLIDE ");
        push_usize(&mut out, slide.number);
        out.append("\n\n");
        let t_seg: String = match &slide.title {
            Some(t) => {
                let mut seg = String::from_str("Title: ");
                seg.append(t.as_str());
                seg.append("\n\n");
                seg
            },
            None => String::new(),
        };
        out.append(t_seg.as_str());
        proof {
            match &slide.title {
                Some(t) => {},
                None => {
                    assert(t_seg@ =~= Seq::<char>::empty());
                },
            }
        }
        let ghost items = slide.content@.map_values(|x: String| x@);
        if slide.content.len() > 0 {
            out.append("Content:\n");
            let ghost base = out@;
            let n = slide.content.len();
            let mut i: usize = 0;
            while i < n
                invariant
                    items == slide.content@.map_values(|x: String| x@),
                    n == slide.content@.len(),
                    i <= n,
                    out@ == base + txt_items_upto(items, i as int),
                decreases n - i,
            {
                proof {
                    assert(items[i as int] == slide.content@[i as int]@);
                }
                let mut line = String::from_str("  ");
                line.append(slide.content[i].as_str());
                line.append("\n");
                out.append(line.as_str());
                i = i + 1;
            }
            out.append("\n");
        }
        if slide.lists.len() > 0 {
            out.append("Lists:\n");
            let ghost base2 = out@;
            let n = slide.lists.len();
            let mut i: usize = 0;
            while i < n
                invariant
                    n == slide.lists@.len(),
                    i <= n,
                    out@ == base2 + txt_lists_upto(slide.lists@, i as int),
                decreases n - i,
            {
                self.push_list(&mut out, &slide.lists[i]);
                i = i + 1;
            }
            out.append("\n");
        }
        if slide.tables.len() > 0 {
            out.append("Tables:\n");
            let ghost base3 = out@;
            let n = slide.tables.len();
            let mut i: usize = 0;
            while i < n
                invariant
                    tables_wf(slide.tables@),
                    n == slide.tables@.len(),
                    i <= n,
                    out@ == base3 + txt_tables_upto(slide.tables@, i as int),
                decreases n - i,
            {
                self.push_table(&mut out, &slide.tables[i]);
                out.append("\n");
                i = i + 1;
            }
        }
        let n_seg: String = match &slide.notes {
            Some(t) => {
                let mut seg = String::from_str("Notes:\n");
                let mut line = String::from_str("  ");
                line.append(t.as_str());
                line.append("\n");
                seg.append(line.as_str());
                seg
            },
            None => String::new(),
        };
        out.append(n_seg.as_str());
        proof {
            match &slide.notes {
                Some(t) => {},
                None => {
                    assert(n_seg@ =~= Seq::<char>::empty());
                },
            }
            assert(out@ =~= txt_slide(*slide));
        }
        out
    }

    /// Appends one list's lines.
    fn push_list(&self, out: &mut String, l: &List)
        ensures
            final(out)@ == old(out)@ + txt_list(*l),
    {
        let ghost items = l.items@.map_values(|s: String| s@);
        let n = l.items.len();
        match &l.list_type {
            ListType::Ordered => {
                let mut i: usize = 0;
                while i < n
                    invariant
                        items == l.items@.map_values(|s: String| s@),
                        n == l.items@.len(),
                        i <= n,
                        out@ == old(out)@ + txt_ol_upto(items, i as int),
                    decreases n - i,
                {
                    proof {
                        assert(items[i as int] == l.items@[i as int]@);
                        assert(i + 1 <= usize::MAX);
                    }
                    let mut line = String::from_str("  ");
                    let d = usize_to_string(i + 1);
                    line.append(d.as_str());
                    line.append(". ");
                    line.append(l.items[i].as_str());
                    line.append("\n");
                    out.append(line.as_str());
                    proof {
                        assert(out@ =~= old(out)@ + txt_ol_upto(items, i + 1));
                    }
                    i = i + 1;
                }
                proof {
                    assert(txt_list(*l) == txt_ol_upto(items, items.len() as int));
                }
            },
            ListType::Unordered => {
                let mut i: usize = 0;
                while i < n
                    invariant
                        items == l.items@.map_values(|s: String| s@),
                        n == l.items@.len(),
                        i <= n,
                        out@ == old(out)@ + txt_ul_upto(items, i as int),
                    decreases n - i,
                {
                    proof {
                        assert(items[i as int] == l.items@[i as int]@);
                    }
                    let mut line = String::from_str("  \u{2022} ");
                    line.append(l.items[i].as_str());
                    line.append("\n");
                    out.append(line.as_str());
                    proof {
                        assert(out@ =~= old(out)@ + txt_ul_upto(items, i + 1));
                    }
                    i = i + 1;
                }
            },
        }
    }

    /// Appends one table's lines.
    fn push_table(&self, out: &mut String, t: &Table)
        requires
            t.headers is Some ==> t.rows@.len() >= 1,
        ensures
            final(out)@ == old(out)@ + txt_table(*t),
    {
        let ghost rows = t.rows@.map_values(|r: Vec<String>| r@.map_values(|s: String| s@));
        let from: usize;
        match &t.headers {
            Some(h) => {
                let hl = join_strings(h, " | ");
                let mut line = String::from_str("  ");
                line.append(hl.as_str());
                line.append("\n");
                out.append(line.as_str());
                let hv = chars_vec(hl.as_str());
                let hvl = hv.len();
                let bl = byte_len(&hv);
                proof {
                    lemma_byte_len_bound(hv@, hv@.len() as int);
                    assert(hv@.len() == hvl);
                }
                let mut rule = String::from_str("  ");
                let mut q: u128 = 0;
                while q < bl
                    invariant
                        q <= bl,
                        bl <= 4 * hv@.len(),
                        hv@.len() == hvl,
                        rule@ == "  "@ + char_repeat('-', q as nat),
                    decreases bl - q,
                {
                    push_char(&mut rule, '-');
                    q = q + 1;
                }
                rule.append("\n");
                out.append(rule.as_str());
                from = 1;
                proof {
                    assert(out@ =~= old(out)@ + (ind_line(joined(
                        t.headers->Some_0@.map_values(|s: String| s@),
                        " | "@,
                    )) + "  "@ + char_repeat(
                        '-',
                        byte_len_upto(
                            joined(t.headers->Some_0@.map_values(|s: String| s@), " | "@),
                            joined(
                                t.headers->Some_0@.map_values(|s: String| s@),
                                " | "@,
                            ).len() as int,
                        ) as nat,
                    ) + "\n"@));
                }
            },
            None => {
                from = 0;
            },
        }
        let ghost mid = out@;
        let n = t.rows.len();
        let mut i: usize = from;
        proof {
            assert(txt_rows_from(rows, from as int, from as int) =~= Seq::<char>::empty());
            assert(out@ =~= mid + txt_rows_from(rows, from as int, from as int));
        }
        while i < n
            invariant
                rows == t.rows@.map_values(|r: Vec<String>| r@.map_values(|s: String| s@)),
                n == t.rows@.len(),
                from <= i <= n || (from > n && i == from),
                i >= from,
                i <= n || i == from,
                out@ == mid + txt_rows_from(rows, from as int, i as int),
            decreases n - i,
        {
            proof {
                assert(rows[i as int] == t.rows@[i as int]@.map_values(|s: String| s@));
            }
            push_row_line(out, &t.rows[i]);
            proof {
                assert(out@ =~= mid + txt_rows_from(rows, from as int, i + 1));
            }
            i = i + 1;
        }
        proof {
            if from == 1 && n == 0 {
                assert(false);
            }
            assert(out@ =~= old(out)@ + txt_table(*t));
        }
    }
}

/// The separator rule between slides in a full text rendering.
pub open spec fn txt_ppt_sep() -> Seq<char> {
    "\n"@ + char_repeat('-', 80) + "\n\n"@
}

/// The slides of a presentation as text, separated by dashed rules.
pub open spec fn txt_slides_upto(slides: Seq<Slide>, k: int) -> Seq<char>
    decreases k,
{
    if k <= 0 {
        Seq::empty()
    } else if k == 1 {
        txt_slide(slides[0])
    } else {
        txt_slides_upto(slides, k - 1) + txt_ppt_sep() + txt_slide(slides[k - 1])
    }
}

/// The whole presentation as plain text: a metadata header, a ruled line,
/// then every slide.
pub open spec fn txt_ppt(d: PptData) -> Seq<char> {
    (match d.metadata.title {
        Some(t) => "Presentation: "@ + t@ + "\n"@,
        None => "Presentation\n"@,
    }) + (match d.metadata.author {
        Some(t) => "Author: "@ + t@ + "\n"@,
        None => Seq::empty(),
    }) + "Slides: "@ + dec_str(d.slide_count as nat) + "\n"@ + (match d.metadata.creation_date {
        Some(ts) => "Created: "@ + ts_full(ts) + "\n"@,
        None => Seq::empty(),
    }) + "\n"@ + char_repeat('=', 80) + "\n\n"@ + txt_slides_upto(d.slides@, d.slides@.len() as int)
}

impl TextOutput {
    /// Renders the whole presentation as plain text.
    pub fn write_ppt_data(&self, data: &PptData) -> (r: String)
        requires
            forall|q: int|
                0 <= q < data.slides@.len() ==> tables_wf((#[trigger] data.slides@[q]).tables@),
        ensures
            r@ == txt_ppt(*data),
    {
        let t_seg: String = match &data.metadata.title {
            Some(t) => {
                let mut seg = String::from_str("Presentation: ");
                seg.append(t.as_str());
                seg.append("\n");
                seg
            },
            None => String::from_str("Presentation\n"),
        };
        let mut out = t_seg;
        let a_seg: String = match &data.metadata.author {
            Some(t) => {
                let mut seg = String::from_str("Author: ");
                seg.append(t.as_str());
                seg.append("\n");
                seg
            },
            None => String::new(),
        };
        out.append(a_seg.as_str());
        proof {
            match &data.metadata.author {
                Some(t) => {},
                None => {
                    assert(a_seg@ =~= Seq::<char>::empty());
                },
            }
        }
        out.append("Slides: ");
        push_usize(&mut out, data.slide_count);
        out.append("\n");
        let c_seg: String = match &data.metadata.creation_date {
            Some(ts) => {
                let mut seg = String::from_str("Created: ");
                let f = ts.format_full();
                seg.append(f.as_str());
                seg.append("\n");
                seg
            },
            None => String::new(),
        };
        out.append(c_seg.as_str());
        proof {
            match &data.metadata.creation_date {
                Some(ts) => {},
                None => {
                    assert(c_seg@ =~= Seq::<char>::empty());
                },
            }
        }
        out.append("\n");
        let eq = repeat_char('=', 80);
        out.append(eq.as_str());
        out.append("\n\n");
        let ghost head = out@;
        let n = data.slides.len();
        let mut i: usize = 0;
        while i < n
            invariant
                forall|q: int|
                    0 <= q < data.slides@.len() ==> tables_wf((#[trigger] data.slides@[q]).tables@),
                n == data.slides@.len(),
                i <= n,
                out@ == head + txt_slides_upto(data.slides@, i as int),
            decreases n - i,
        {
            if i > 0 {
                let mut sep = String::from_str("\n");
                let dashes = repeat_char('-', 80);
                sep.append(dashes.as_str());
                sep.append("\n\n");
                out.append(sep.as_str());
            }
            let sl = self.write_slide(&data.slides[i]);
            out.append(sl.as_str());
            proof {
                if i == 0 {
                    assert(out@ =~= head + txt_slides_upto(data.slides@, 1));
                } else {
                    assert(out@ =~= head + txt_slides_upto(data.slides@, i + 1));
                }
            }
            i = i + 1;
        }
        proof {
            assert(out@ =~= txt_ppt(*data));
        }
        out
    }
}

/// A markdown slide's header line.
pub open spec fn md_slide_head(o: MarkdownOutput, s: Slide) -> Seq<char> {
    if o.include_slide_numbers {
        match s.title {
            Some(t) => "## Slide "@ + dec_str(s.number as nat) + ": "@ + t@ + "\n"@,
            None => "## Slide "@ + dec_str(s.number as nat) + "\n"@,
        }
    } else {
        match s.title {
            Some(t) => "## "@ + t@ + "\n"@,
            None => "## Untitled Slide\n"@,
        }
    }
}

/// The slide's content items, each a paragraph with a blank line after it.
pub open spec fn md_items_upto(items: Seq<Seq<char>>, k: int) -> Seq<char>
    decreases k,
{
    if k <= 0 {
        Seq::empty()
    } else {
        md_items_upto(items, k - 1) + items[k - 1] + "\n\n"@
    }
}

/// An ordered list's markdown lines.
pub open spec fn md_ol_upto(items: Seq<Seq<char>>, k: int) -> Seq<char>
    decreases k,
{
    if k <= 0 {
        Seq::empty()
    } else {
        md_ol_upto(items, k - 1) + dec_str(k as nat) + ". "@ + items[k - 1] + "\n"@
    }
}

/// An unordered list's markdown lines.
pub open spec fn md_ul_upto(items: Seq<Seq<char>>, k: int) -> Seq<char>
    decreases k,
{
    if k <= 0 {
        Seq::empty()
    } else {
        md_ul_upto(items, k - 1) + "- "@ + items[k - 1] + "\n"@
    }
}

/// One list as markdown, a blank line after it.
pub open spec fn md_list(l: List) -> Seq<char> {
    let items = l.items@.map_values(|s: String| s@);
    (match l.list_type {
        ListType::Ordered => md_ol_upto(items, items.len() as int),
        ListType::Unordered => md_ul_upto(items, items.len() as int),
    }) + "\n"@
}

pub open spec fn md_lists_upto(lists: Seq<List>, k: int) -> Seq<char>
    decreases k,
{
    if k <= 0 {
        Seq::empty()
    } else {
        md_lists_upto(lists, k - 1) + md_list(lists[k - 1])
    }
}

/// A markdown table row: cells joined with pipes.
pub open spec fn md_row(cells: Seq<Seq<char>>) -> Seq<char> {
    "| "@ + joined(cells, " | "@) + " |\n"@
}

/// A markdown separator: `---` cells joined with pipes, walled.
pub open spec fn md_dashes(n: int) -> Seq<char>
    decreases n,
{
    if n <= 0 {
        Seq::empty()
    } else if n == 1 {
        "---"@
    } else {
        md_dashes(n - 1) + "|"@ + "---"@
    }
}

pub open spec fn md_rows_from(rows: Seq<Seq<Seq<char>>>, from: int, k: int) -> Seq<char>
    decreases k - from,
{
    if from >= k {
        Seq::empty()
    } else {
        md_rows_from(rows, from, k - 1) + md_row(rows[k - 1])
    }
}

/// One table as markdown: a header row (the given headers or the first data
/// row), a separator, the remaining rows, and a blank line.
pub open spec fn md_ppt_table(t: Table) -> Seq<char> {
    let rows = t.rows@.map_values(|r: Vec<String>| r@.map_values(|s: String| s@));
    if rows.len() == 0 {
        Seq::empty()
    } else {
        (match t.headers {
            Some(h) => {
                let hv = h@.map_values(|s: String| s@);
                md_row(hv) + "|"@ + md_dashes(hv.len() as int) + "|\n"@ + md_rows_from(
                    rows,
                    1,
                    rows.len() as int,
                )
            },
            None => {
                md_row(rows[0]) + "|"@ + md_dashes(rows[0].len() as int) + "|\n"@ + md_rows_from(
                    rows,
                    1,
                    rows.len() as int,
                )
            },
        }) + "\n"@
    }
}

pub open spec fn md_tables_upto(tables: Seq<Table>, k: int) -> Seq<char>
    decreases k,
{
    if k <= 0 {
        Seq::empty()
    } else {
        md_tables_upto(tables, k - 1) + md_ppt_table(tables[k - 1])
    }
}

/// The whole slide as markdown.
pub open spec fn md_slide(o: MarkdownOutput, s: Slide) -> Seq<char> {
    md_slide_head(o, s) + "\n"@ + md_items_upto(
        s.content@.map_values(|x: String| x@),
        s.content@.len() as int,
    ) + md_lists_upto(s.lists@, s.lists@.len() as int) + md_tables_upto(
        s.tables@,
        s.tables@.len() as int,
    ) + (match s.notes {
        Some(t) => "> **Speaker Notes:** "@ + t@ + "\n\n"@,
        None => Seq::empty(),
    })
}

/// The presentation's YAML front matter.
pub open spec fn md_ppt_frontmatter(d: PptData) -> Seq<char> {
    "---\n"@ + (match d.metadata.title {
        Some(t) => "title: \""@ + yaml_escaped(t@) + "\"\n"@,
        None => Seq::empty(),
    }) + (match d.metadata.author {
        Some(t) => "author: \""@ + yaml_escaped(t@) + "\"\n"@,
        None => Seq::empty(),
    }) + (match d.metadata.subject {
        Some(t) => "subject: \""@ + yaml_escaped(t@) + "\"\n"@,
        None => Seq::empty(),
    }) + (match d.metadata.creation_date {
        Some(ts) => "date: \""@ + ts_date(ts) + "\"\n"@,
        None => Seq::empty(),
    }) + "slide_count: "@ + dec_str(d.slide_count as nat) + "\n"@ + "file_size: "@ + dec_str(
        d.metadata.file_size as nat,
    ) + "\n---\n\n"@
}

/// The metadata summary block.
pub open spec fn md_ppt_info(d: PptData) -> Seq<char> {
    "## Presentation Information\n\n"@ + (match d.metadata.author {
        Some(t) => "**Author:** "@ + t@ + "\n"@,
        None => Seq::empty(),
    }) + (match d.metadata.creation_date {
        Some(ts) => "**Created:** "@ + ts_full(ts) + "\n"@,
        None => Seq::empty(),
    }) + "**Slides:** "@ + dec_str(d.slide_count as nat) + "\n\n---\n\n"@
}

/// The slides, each followed by a blank line.
pub open spec fn md_slides_upto(o: MarkdownOutput, slides: Seq<Slide>, k: int) -> Seq<char>
    decreases k,
{
    if k <= 0 {
        Seq::empty()
    } else {
        md_slides_upto(o, slides, k - 1) + md_slide(o, slides[k - 1]) + "\n"@
    }
}

/// The whole presentation as markdown.
pub open spec fn md_ppt(o: MarkdownOutput, d: PptData) -> Seq<char> {
    (if o.include_metadata {
        md_ppt_frontmatter(d)
    } else {
        Seq::empty()
    }) + (match d.metadata.title {
        Some(t) => "# "@ + t@ + "\n\n"@,
        None => Seq::empty(),
    }) + (if o.include_metadata {
        md_ppt_info(d)
    } else {
        Seq::empty()
    }) + md_slides_upto(o, d.slides@, d.slides@.len() as int)
}

/// The Markdown renderer.
pub struct MarkdownOutput {
    pub include_metadata: bool,
    pub include_slide_numbers: bool,
}

impl MarkdownOutput {
    /// A Markdown renderer with the given options.
    pub fn new(include_metadata: bool, include_slide_numbers: bool) -> (o: MarkdownOutput)
        ensures
            o.include_metadata == include_metadata,
            o.include_slide_numbers == include_slide_numbers,
    {
        MarkdownOutput { include_metadata, include_slide_numbers }
    }

    /// Renders one slide as markdown.
    #[verifier::rlimit(100)]
#[verifier::spinoff_prover]
    pub fn write_slide(&self, slide: &Slide) -> (r: String)
        ensures
            r@ == md_slide(*self, *slide),
    {
        let head: String = if self.include_slide_numbers {
            match &slide.title {
                Some(t) => {
                    let mut h = String::from_str("## Slide ");
                    push_usize(&mut h, slide.number);
                    h.append(": ");
                    h.append(t.as_str());
                    h.append("\n");
                    h
                },
                None => {
                    let mut h = String::from_str("## Slide ");
                    push_usize(&mut h, slide.number);
                    h.append("\n");
                    h
                },
            }
        } else {
            match &slide.title {
                Some(t) => {
                    let mut h = String::from_str("## ");
                    h.append(t.as_str());
                    h.append("\n");
                    h
                },
                None => String::from_str("## Untitled Slide\n"),
            }
        };
        let mut out = head;
        proof {
            assert(out@ == md_slide_head(*self, *slide));
        }
        out.append("\n");
        let ghost items = slide.content@.map_values(|x: String| x@);
        let ghost base1 = out@;
        let n1 = slide.content.len();
        let mut i: usize = 0;
        while i < n1
            invariant
                items == slide.content@.map_values(|x: String| x@),
                n1 == slide.content@.len(),
                i <= n1,
                out@ == base1 + md_items_upto(items, i as int),
            decreases n1 - i,
        {
            proof {
                assert(items[i as int] == slide.content@[i as int]@);
            }
            let mut seg = slide.content[i].clone();
            proof {
                assert(seg@ == items[i as int]);
            }
            seg.append("\n\n");
            out.append(seg.as_str());
            proof {
                assert(out@ =~= base1 + md_items_upto(items, i + 1));
            }
            i = i + 1;
        }
        let ghost base2 = out@;
        let n2 = slide.lists.len();
        let mut i2: usize = 0;
        while i2 < n2
            invariant
                n2 == slide.lists@.len(),
                i2 <= n2,
                out@ == base2 + md_lists_upto(slide.lists@, i2 as int),
            decreases n2 - i2,
        {
            self.push_md_list(&mut out, &slide.lists[i2]);
            i2 = i2 + 1;
        }
        let ghost base3 = out@;
        let n3 = slide.tables.len();
        let mut i3: usize = 0;
        while i3 < n3
            invariant
                n3 == slide.tables@.len(),
                i3 <= n3,
                out@ == base3 + md_tables_upto(slide.tables@, i3 as int),
            decreases n3 - i3,
        {
            self.push_md_table(&mut out, &slide.tables[i3]);
            i3 = i3 + 1;
        }
        let notes_seg: String = match &slide.notes {
            Some(t) => {
                let mut seg = String::from_str("> **Speaker Notes:** ");
                seg.append(t.as_str());
                seg.append("\n\n");
                seg
            },
            None => String::new(),
        };
        out.append(notes_seg.as_str());
        proof {
            match &slide.notes {
                Some(t) => {},
                None => {
                    assert(notes_seg@ =~= Seq::<char>::empty());
                },
            }
            assert(out@ =~= md_slide(*self, *slide));
        }
        out
    }

    /// Appends one list's markdown.
    fn push_md_list(&self, out: &mut String, l: &List)
        ensures
            final(out)@ == old(out)@ + md_list(*l),
    {
        let ghost items = l.items@.map_values(|s: String| s@);
        let n = l.items.len();
        match &l.list_type {
            ListType::Ordered => {
                let mut i: usize = 0;
                while i < n
                    invariant
                        items == l.items@.map_values(|s: String| s@),
                        n == l.items@.len(),
                        i <= n,
                        out@ == old(out)@ + md_ol_upto(items, i as int),
                    decreases n - i,
                {
                    proof {
                        assert(items[i as int] == l.items@[i as int]@);
                    }
                    let mut line = usize_to_string(i + 1);
                    line.append(". ");
                    line.append(l.items[i].as_str());
                    line.append("\n");
                    out.append(line.as_str());
                    proof {
                        assert(out@ =~= old(out)@ + md_ol_upto(items, i + 1));
                    }
                    i = i + 1;
                }
            },
            ListType::Unordered => {
                let mut i: usize = 0;
                while i < n
                    invariant
                        items == l.items@.map_values(|s: String| s@),
                        n == l.items@.len(),
                        i <= n,
                        out@ == old(out)@ + md_ul_upto(items, i as int),
                    decreases n - i,
                {
                    proof {
                        assert(items[i as int] == l.items@[i as int]@);
                    }
                    let mut line = String::from_str("- ");
                    line.append(l.items[i].as_str());
                    line.append("\n");
                    out.append(line.as_str());
                    proof {
                        assert(out@ =~= old(out)@ + md_ul_upto(items, i + 1));
                    }
                    i = i + 1;
                }
            },
        }
        out.append("\n");
        proof {
            assert(out@ =~= old(out)@ + md_list(*l));
        }
    }

    /// Appends one table's markdown.
    #[verifier::rlimit(100)]
#[verifier::spinoff_prover]
    fn push_md_table(&self, out: &mut String, t: &Table)
        ensures
            final(out)@ == old(out)@ + md_ppt_table(*t),
    {
        let ghost rows = t.rows@.map_values(|r: Vec<String>| r@.map_values(|s: String| s@));
        let nrows = t.rows.len();
        if nrows == 0 {
            proof {
                assert(out@ =~= old(out)@ + md_ppt_table(*t));
            }
            return;
        }
        let hcount: usize;
        match &t.headers {
            Some(h) => {
                let j = join_strings(h, " | ");
                let mut line = String::from_str("| ");
                line.append(j.as_str());
                line.append(" |\n");
                out.append(line.as_str());
                hcount = h.len();
            },
            None => {
                proof {
                    assert(rows[0] == t.rows@[0]@.map_values(|s: String| s@));
                }
                let j = join_strings(&t.rows[0], " | ");
                let mut line = String::from_str("| ");
                line.append(j.as_str());
                line.append(" |\n");
                out.append(line.as_str());
                hcount = t.rows[0].len();
            },
        }
        out.append("|");
        let ghost dbase = out@;
        let mut q: usize = 0;
        while q < hcount
            invariant
                q <= hcount,
                out@ == dbase + md_dashes(q as int),
            decreases hcount - q,
        {
            if q > 0 {
                out.append("|");
            }
            out.append("---");
            proof {
                if q == 0 {
                    assert(out@ =~= dbase + md_dashes(1));
                } else {
                    assert(out@ =~= dbase + md_dashes(q + 1));
                }
            }
            q = q + 1;
        }
        out.append("|\n");
        let ghost mid = out@;
        let mut i: usize = 1;
        proof {
            assert(md_rows_from(rows, 1, 1) =~= Seq::<char>::empty());
            assert(out@ =~= mid + md_rows_from(rows, 1, 1));
        }
        while i < nrows
            invariant
                rows == t.rows@.map_values(|r: Vec<String>| r@.map_values(|s: String| s@)),
                nrows == t.rows@.len(),
                1 <= i <= nrows || (nrows < 1 && i == 1),
                out@ == mid + md_rows_from(rows, 1, i as int),
            decreases nrows - i,
        {
            proof {
                assert(rows[i as int] == t.rows@[i as int]@.map_values(|s: String| s@));
            }
            let j = join_strings(&t.rows[i], " | ");
            let mut line = String::from_str("| ");
            line.append(j.as_str());
            line.append(" |\n");
            out.append(line.as_str());
            proof {
                assert(out@ =~= mid + md_rows_from(rows, 1, i + 1));
            }
            i = i + 1;
        }
        out.append("\n");
        proof {
            assert(out@ =~= old(out)@ + md_ppt_table(*t));
        }
    }

    /// Renders the whole presentation as markdown.
    #[verifier::rlimit(100)]
#[verifier::spinoff_prover]
    pub fn write_ppt_data(&self, data: &PptData) -> (r: String)
        ensures
            r@ == md_ppt(*self, *data),
    {
        let mut out = String::new();
        if self.include_metadata {
            let mut fm = String::from_str("---\n");
            let t1: String = match &data.metadata.title {
                Some(t) => {
                    let mut seg = String::from_str("title: \"");
                    let e = escape_yaml_string(t.as_str());
                    seg.append(e.as_str());
                    seg.append("\"\n");
                    seg
                },
                None => String::new(),
            };
            fm.append(t1.as_str());
            let t2: String = match &data.metadata.author {
                Some(t) => {
                    let mut seg = String::from_str("author: \"");
                    let e = escape_yaml_string(t.as_str());
                    seg.append(e.as_str());
                    seg.append("\"\n");
                    seg
                },
                None => String::new(),
            };
            fm.append(t2.as_str());
            let t3: String = match &data.metadata.subject {
                Some(t) => {
                    let mut seg = String::from_str("subject: \"");
                    let e = escape_yaml_string(t.as_str());
                    seg.append(e.as_str());
                    seg.append("\"\n");
                    seg
                },
                None => String::new(),
            };
            fm.append(t3.as_str());
            let t4: String = match &data.metadata.creation_date {
                Some(ts) => {
                    let mut seg = String::from_str("date: \"");
                    let f = ts.format_date();
                    seg.append(f.as_str());
                    seg.append("\"\n");
                    seg
                },
                None => String::new(),
            };
            fm.append(t4.as_str());
            fm.append("slide_count: ");
            push_usize(&mut fm, data.slide_count);
            fm.append("\n");
            fm.append("file_size: ");
            let fs = u64_to_string(data.metadata.file_size);
            fm.append(fs.as_str());
            fm.append("\n---\n\n");
            proof {
                match &data.metadata.title {
                    Some(t) => {},
                    None => {
                        assert(t1@ =~= Seq::<char>::empty());
                    },
                }
                match &data.metadata.author {
                    Some(t) => {},
                    None => {
                        assert(t2@ =~= Seq::<char>::empty());
                    },
                }
                match &data.metadata.subject {
                    Some(t) => {},
                    None => {
                        assert(t3@ =~= Seq::<char>::empty());
                    },
                }
                match &data.metadata.creation_date {
                    Some(ts) => {},
                    None => {
                        assert(t4@ =~= Seq::<char>::empty());
                    },
                }
                assert(fm@ =~= md_ppt_frontmatter(*data));
            }
            out.append(fm.as_str());
        }
        let ghost p1 = out@;
        let title_seg: String = match &data.metadata.title {
            Some(t) => {
                let mut seg = String::from_str("# ");
                seg.append(t.as_str());
                seg.append("\n\n");
                seg
            },
            None => String::new(),
        };
        out.append(title_seg.as_str());
        proof {
            match &data.metadata.title {
                Some(t) => {},
                None => {
                    assert(title_seg@ =~= Seq::<char>::empty());
                },
            }
        }
        if self.include_metadata {
            let mut info = String::from_str("## Presentation Information\n\n");
            let a1: String = match &data.metadata.author {
                Some(t) => {
                    let mut seg = String::from_str("**Author:** ");
                    seg.append(t.as_str());
                    seg.append("\n");
                    seg
                },
                None => String::new(),
            };
            info.append(a1.as_str());
            let a2: String = match &data.metadata.creation_date {
                Some(ts) => {
                    let mut seg = String::from_str("**Created:** ");
                    let f = ts.format_full();
                    seg.append(f.as_str());
                    seg.append("\n");
                    seg
                },
                None => String::new(),
            };
            info.append(a2.as_str());
            info.append("**Slides:** ");
            push_usize(&mut info, data.slide_count);
            info.append("\n\n---\n\n");
            proof {
                match &data.metadata.author {
                    Some(t) => {},
                    None => {
                        assert(a1@ =~= Seq::<char>::empty());
                    },
                }
                match &data.metadata.creation_date {
                    Some(ts) => {},
                    None => {
                        assert(a2@ =~= Seq::<char>::empty());
                    },
                }
                assert(info@ =~= md_ppt_info(*data));
            }
            out.append(info.as_str());
        }
        let ghost head = out@;
        proof {
            if self.include_metadata {
                assert(head =~= (if self.include_metadata {
                    md_ppt_frontmatter(*data)
                } else {
                    Seq::<char>::empty()
                }) + (match data.metadata.title {
                    Some(t) => "# "@ + t@ + "\n\n"@,
                    None => Seq::<char>::empty(),
                }) + (if self.include_metadata {
                    md_ppt_info(*data)
                } else {
                    Seq::<char>::empty()
                }));
            } else {
                assert(head =~= (if self.include_metadata {
                    md_ppt_frontmatter(*data)
                } else {
                    Seq::<char>::empty()
                }) + (match data.metadata.title {
                    Some(t) => "# "@ + t@ + "\n\n"@,
                    None => Seq::<char>::empty(),
                }) + (if self.include_metadata {
                    md_ppt_info(*data)
                } else {
                    Seq::<char>::empty()
                }));
            }
        }
        let n = data.slides.len();
        let mut i: usize = 0;
        while i < n
            invariant
                n == data.slides@.len(),
                i <= n,
                out@ == head + md_slides_upto(*self, data.slides@, i as int),
                head == (if self.include_metadata {
                    md_ppt_frontmatter(*data)
                } else {
                    Seq::<char>::empty()
                }) + (match data.metadata.title {
                    Some(t) => "# "@ + t@ + "\n\n"@,
                    None => Seq::<char>::empty(),
                }) + (if self.include_metadata {
                    md_ppt_info(*data)
                } else {
                    Seq::<char>::empty()
                }),
            decreases n - i,
        {
            let sl = self.write_slide(&data.slides[i]);
            out.append(sl.as_str());
            out.append("\n");
            proof {
                assert(out@ =~= head + md_slides_upto(*self, data.slides@, i + 1));
            }
            i = i + 1;
        }
        proof {
            assert(out@ =~= md_ppt(*self, *data));
        }
        out
    }
}

/// Decimal rendering of a file size.
fn u64_to_string(n: u64) -> (s: String)
    ensures
        s@ == dec_str(n as nat),
{
    let mut digits: Vec<char> = Vec::new();
    let mut m: u64 = n;
    loop
        invariant_except_break
            digits@.len() == 0 ==> m == n,
            digits@.len() > 0 ==> m > 0 && dec_str(n as nat) == dec_str(m as nat) + digits@,
        ensures
            dec_str(n as nat) == digits@,
        decreases m,
    {
        let ghost m0 = m as nat;
        let ghost d0 = digits@;
        let d = m % 10;
        let c: char = if d == 0 { '0' } else if d == 1 { '1' } else if d == 2 { '2' }
            else if d == 3 { '3' } else if d == 4 { '4' } else if d == 5 { '5' }
            else if d == 6 { '6' } else if d == 7 { '7' } else if d == 8 { '8' }
            else { '9' };
        digits.insert(0, c);
        m = m / 10;
        proof {
            let dd = seq![crate::chars::digit_char((m0 % 10) as int)];
            assert(digits@ =~= dd + d0);
            if m0 < 10 {
                assert(dec_str(m0) == dd);
                if d0.len() == 0 {
                    assert(dec_str(n as nat) =~= dd + d0);
                } else {
                    assert(dec_str(n as nat) == dec_str(m0) + d0);
                }
            } else {
                assert(dec_str(m0) == dec_str(m0 / 10) + dd);
                if d0.len() == 0 {
                    assert(dec_str(n as nat) == dec_str(m0));
                    assert(dec_str(m0 / 10) + (dd + d0) =~= dec_str(m0 / 10) + dd);
                } else {
                    assert((dec_str(m0 / 10) + dd) + d0 =~= dec_str(m0 / 10) + (dd + d0));
                }
            }
        }
        if m == 0 {
            break;
        }
    }
    string_of(&digits)
}

/// The HTML escape of one character.
pub open spec fn html_esc_char(c: char) -> Seq<char> {
    if c == '&' {
        "&amp;"@
    } else if c == '<' {
        "&lt;"@
    } else if c == '>' {
        "&gt;"@
    } else if c == '"' {
        "&quot;"@
    } else if c == '\'' {
        "&#x27;"@
    } else {
        seq![c]
    }
}

/// The HTML escape of the first `k` characters.
pub open spec fn html_esc_upto(s: Seq<char>, k: int) -> Seq<char>
    decreases k,
{
    if k <= 0 {
        Seq::empty()
    } else {
        html_esc_upto(s, k - 1) + html_esc_char(s[k - 1])
    }
}

/// The HTML escape of a whole string.
pub open spec fn html_escaped(s: Seq<char>) -> Seq<char> {
    html_esc_upto(s, s.len() as int)
}

/// Escapes a text for HTML element content and attributes.
pub fn escape_html_text(s: &str) -> (r: String)
    ensures
        r@ == html_escaped(s@),
{
    let v = chars_vec(s);
    let n = v.len();
    let mut out = String::new();
    let mut i: usize = 0;
    proof {
        assert(out@ =~= html_esc_upto(s@, 0));
    }
    while i < n
        invariant
            v@ == s@,
            n == v@.len(),
            i <= n,
            out@ == html_esc_upto(s@, i as int),
        decreases n - i,
    {
        let c = v[i];
        if c == '&' {
            out.append("&amp;");
            proof {
                assert(out@ =~= html_esc_upto(s@, i + 1));
            }
        } else if c == '<' {
            out.append("&lt;");
            proof {
                assert(out@ =~= html_esc_upto(s@, i + 1));
            }
        } else if c == '>' {
            out.append("&gt;");
            proof {
                assert(out@ =~= html_esc_upto(s@, i + 1));
            }
        } else if c == '"' {
            out.append("&quot;");
            proof {
                assert(out@ =~= html_esc_upto(s@, i + 1));
            }
        } else if c == '\'' {
            out.append("&#x27;");
            proof {
                assert(out@ =~= html_esc_upto(s@, i + 1));
            }
        } else {
            push_char(&mut out, c);
            proof {
                assert(out@ =~= html_esc_upto(s@, i + 1));
            }
        }
        i = i + 1;
    }
    out
}

/// The slide body's paragraphs.
pub open spec fn html_items_upto(items: Seq<Seq<char>>, k: int) -> Seq<char>
    decreases k,
{
    if k <= 0 {
        Seq::empty()
    } else {
        html_items_upto(items, k - 1) + "            <p>"@ + html_escaped(items[k - 1])
            + "</p>\n"@
    }
}

/// A list's items as `li` elements.
pub open spec fn html_lis_upto(items: Seq<Seq<char>>, k: int) -> Seq<char>
    decreases k,
{
    if k <= 0 {
        Seq::empty()
    } else {
        html_lis_upto(items, k - 1) + "            <li>"@ + html_escaped(items[k - 1])
            + "</li>\n"@
    }
}

/// One list as an ordered or unordered HTML list.
pub open spec fn html_list(l: List) -> Seq<char> {
    let items = l.items@.map_values(|s: String| s@);
    match l.list_type {
        ListType::Ordered => "        <ol>\n"@ + html_lis_upto(items, items.len() as int)
            + "        </ol>\n"@,
        ListType::Unordered => "        <ul>\n"@ + html_lis_upto(items, items.len() as int)
            + "        </ul>\n"@,
    }
}

pub open spec fn html_lists_upto(lists: Seq<List>, k: int) -> Seq<char>
    decreases k,
{
    if k <= 0 {
        Seq::empty()
    } else {
        html_lists_upto(lists, k - 1) + html_list(lists[k - 1])
    }
}

/// A row's cells as `th` or `td` elements.
pub open spec fn html_cells_upto(cells: Seq<Seq<char>>, tag_open: Seq<char>, tag_close: Seq<char>, k: int) -> Seq<char>
    decreases k,
{
    if k <= 0 {
        Seq::empty()
    } else {
        html_cells_upto(cells, tag_open, tag_close, k - 1) + tag_open + html_escaped(cells[k - 1])
            + tag_close
    }
}

/// The body rows of a table.
pub open spec fn html_rows_from(rows: Seq<Seq<Seq<char>>>, from: int, k: int) -> Seq<char>
    decreases k - from,
{
    if from >= k {
        Seq::empty()
    } else {
        html_rows_from(rows, from, k - 1) + "                <tr>\n"@ + html_cells_upto(
            rows[k - 1],
            "                    <td>"@,
            "</td>\n"@,
            rows[k - 1].len() as int,
        ) + "                </tr>\n"@
    }
}

/// One table as HTML: a head row from the given headers or the first data
/// row, then the remaining rows as the body.
pub open spec fn html_table(t: Table) -> Seq<char> {
    let rows = t.rows@.map_values(|r: Vec<String>| r@.map_values(|s: String| s@));
    if rows.len() == 0 {
        Seq::empty()
    } else {
        let hv = match t.headers {
            Some(h) => h@.map_values(|s: String| s@),
            None => rows[0],
        };
        "        <table>\n"@ + "            <thead>\n                <tr>\n"@ + html_cells_upto(
            hv,
            "                    <th>"@,
            "</th>\n"@,
            hv.len() as int,
        ) + "                </tr>\n            </thead>\n"@ + "            <tbody>\n"@
            + html_rows_from(rows, 1, rows.len() as int) + "            </tbody>\n"@
            + "        </table>\n"@
    }
}

pub open spec fn html_tables_upto(tables: Seq<Table>, k: int) -> Seq<char>
    decreases k,
{
    if k <= 0 {
        Seq::empty()
    } else {
        html_tables_upto(tables, k - 1) + html_table(tables[k - 1])
    }
}

/// The inner content of one slide's `div`.
pub open spec fn html_slide_content(s: Slide) -> Seq<char> {
    "        <div class=\"slide-number\">Slide "@ + dec_str(s.number as nat) + "</div>\n"@ + (
    match s.title {
        Some(t) => "        <h2 class=\"slide-header\">"@ + html_escaped(t@) + "</h2>\n"@,
        None => Seq::empty(),
    }) + (if s.content@.len() > 0 {
        "        <div class=\"slide-content\">\n"@ + html_items_upto(
            s.content@.map_values(|x: String| x@),
            s.content@.len() as int,
        ) + "        </div>\n"@
    } else {
        Seq::empty()
    }) + html_lists_upto(s.lists@, s.lists@.len() as int) + html_tables_upto(
        s.tables@,
        s.tables@.len() as int,
    ) + (match s.notes {
        Some(t) => "        <div class=\"slide-notes\">\n            <h4>Speaker Notes</h4>\n            <p>"@
            + html_escaped(t@) + "</p>\n        </div>\n"@,
        None => Seq::empty(),
    })
}

/// The style sheet a standalone page carries.
pub open spec fn html_css() -> Seq<char> {
    "<style>\nbody { font-family: 'Segoe UI', Tahoma, Geneva, Verdana, sans-serif; line-height: 1.6; margin: 0 auto; max-width: 1200px; padding: 20px; }\n.presentation { background-color: white; padding: 30px; }\n.presentation-title { color: #2c3e50; border-bottom: 3px solid #3498db; }\n.metadata { background-color: #ecf0f1; padding: 20px; }\n.metadata-item { margin: 5px 0; }\n.slide { border: 1px solid #bdc3c7; padding: 25px; margin: 20px 0; }\n.slide-header { color: #2980b9; }\n.slide-content p { margin: 10px 0; }\n.slide-notes { background-color: #fff3cd; padding: 15px; }\ntable { width: 100%; border-collapse: collapse; }\ntable th, table td { border: 1px solid #ddd; padding: 8px; }\n</style>\n"@
}

/// The page head shared by full and single-slide renderings.
pub open spec fn html_head(title_html: Seq<char>, with_css: bool) -> Seq<char> {
    "<!DOCTYPE html>\n<html lang=\"en\">\n<head>\n    <meta charset=\"UTF-8\">\n    <meta name=\"viewport\" content=\"width=device-width, initial-scale=1.0\">\n"@
        + "    <title>"@ + title_html + "</title>\n"@ + (if with_css {
        html_css()
    } else {
        Seq::empty()
    }) + "</head>\n<body>\n<div class=\"presentation\">\n"@
}

/// A single slide as a standalone page.
pub open spec fn html_slide_page(o: HtmlOutput, s: Slide) -> Seq<char> {
    let title_html = match s.title {
        Some(t) => "Slide "@ + dec_str(s.number as nat) + ": "@ + html_escaped(t@),
        None => "Slide "@ + dec_str(s.number as nat),
    };
    html_head(title_html, o.include_css) + "    <div class=\"slide\">\n"@ + html_slide_content(s)
        + "    </div>\n"@ + "</div>\n</body>\n</html>\n"@
}

/// The HTML renderer.
pub struct HtmlOutput {
    pub include_metadata: bool,
    pub include_css: bool,
}

impl HtmlOutput {
    /// An HTML renderer with the given options.
    pub fn new(include_metadata: bool, include_css: bool) -> (o: HtmlOutput)
        ensures
            o.include_metadata == include_metadata,
            o.include_css == include_css,
    {
        HtmlOutput { include_metadata, include_css }
    }

    /// Escapes a text for HTML.
    pub fn escape_html(&self, text: &str) -> (r: String)
        ensures
            r@ == html_escaped(text@),
    {
        escape_html_text(text)
    }

    /// The page style sheet.
    pub fn write_css(&self) -> (r: String)
        ensures
            r@ == html_css(),
    {
        String::from_str(
            "<style>\nbody { font-family: 'Segoe UI', Tahoma, Geneva, Verdana, sans-serif; line-height: 1.6; margin: 0 auto; max-width: 1200px; padding: 20px; }\n.presentation { background-color: white; padding: 30px; }\n.presentation-title { color: #2c3e50; border-bottom: 3px solid #3498db; }\n.metadata { background-color: #ecf0f1; padding: 20px; }\n.metadata-item { margin: 5px 0; }\n.slide { border: 1px solid #bdc3c7; padding: 25px; margin: 20px 0; }\n.slide-header { color: #2980b9; }\n.slide-content p { margin: 10px 0; }\n.slide-notes { background-color: #fff3cd; padding: 15px; }\ntable { width: 100%; border-collapse: collapse; }\ntable th, table td { border: 1px solid #ddd; padding: 8px; }\n</style>\n",
        )
    }

    /// The inner `div` content of one slide.
    #[verifier::rlimit(100)]
    #[verifier::spinoff_prover]
    pub fn write_slide_content(&self, slide: &Slide) -> (r: String)
        ensures
            r@ == html_slide_content(*slide),
    {
        let mut out = String::from_str("        <div class=\"slide-number\">Slide ");
        push_usize(&mut out, slide.number);
        out.append("</div>\n");
        let t_seg: String = match &slide.title {
            Some(t) => {
                let mut seg = String::from_str("        <h2 class=\"slide-header\">");
                let e = escape_html_text(t.as_str());
                seg.append(e.as_str());
                seg.append("</h2>\n");
                seg
            },
            None => String::new(),
        };
        out.append(t_seg.as_str());
        proof {
            match &slide.title {
                Some(t) => {},
                None => {
                    assert(t_seg@ =~= Seq::<char>::empty());
                },
            }
        }
        let ghost items = slide.content@.map_values(|x: String| x@);
        if slide.content.len() > 0 {
            out.append("        <div class=\"slide-content\">\n");
            let ghost base = out@;
            let n = slide.content.len();
            let mut i: usize = 0;
            while i < n
                invariant
                    items == slide.content@.map_values(|x: String| x@),
                    n == slide.content@.len(),
                    i <= n,
                    out@ == base + html_items_upto(items, i as int),
                decreases n - i,
            {
                proof {
                    assert(items[i as int] == slide.content@[i as int]@);
                }
                let mut line = String::from_str("            <p>");
                let e = escape_html_text(slide.content[i].as_str());
                line.append(e.as_str());
                line.append("</p>\n");
                out.append(line.as_str());
                proof {
                    assert(out@ =~= base + html_items_upto(items, i + 1));
                }
                i = i + 1;
            }
            out.append("        </div>\n");
        }
        let ghost base2 = out@;
        let n2 = slide.lists.len();
        let mut i2: usize = 0;
        while i2 < n2
            invariant
                n2 == slide.lists@.len(),
                i2 <= n2,
                out@ == base2 + html_lists_upto(slide.lists@, i2 as int),
            decreases n2 - i2,
        {
            self.push_html_list(&mut out, &slide.lists[i2]);
            i2 = i2 + 1;
        }
        let ghost base3 = out@;
        let n3 = slide.tables.len();
        let mut i3: usize = 0;
        while i3 < n3
            invariant
                n3 == slide.tables@.len(),
                i3 <= n3,
                out@ == base3 + html_tables_upto(slide.tables@, i3 as int),
            decreases n3 - i3,
        {
            self.push_html_table(&mut out, &slide.tables[i3]);
            i3 = i3 + 1;
        }
        let notes_seg: String = match &slide.notes {
            Some(t) => {
                let mut seg = String::from_str(
                    "        <div class=\"slide-notes\">\n            <h4>Speaker Notes</h4>\n            <p>",
                );
                let e = escape_html_text(t.as_str());
                seg.append(e.as_str());
                seg.append("</p>\n        </div>\n");
                seg
            },
            None => String::new(),
        };
        out.append(notes_seg.as_str());
        proof {
            match &slide.notes {
                Some(t) => {},
                None => {
                    assert(notes_seg@ =~= Seq::<char>::empty());
                },
            }
            assert(out@ =~= html_slide_content(*slide));
        }
        out
    }

    /// Appends one list as HTML.
    fn push_html_list(&self, out: &mut String, l: &List)
        ensures
            final(out)@ == old(out)@ + html_list(*l),
    {
        let ghost items = l.items@.map_values(|s: String| s@);
        let n = l.items.len();
        match &l.list_type {
            ListType::Ordered => {
                out.append("        <ol>\n");
            },
            ListType::Unordered => {
                out.append("        <ul>\n");
            },
        }
        let ghost mid = out@;
        let mut i: usize = 0;
        while i < n
            invariant
                items == l.items@.map_values(|s: String| s@),
                n == l.items@.len(),
                i <= n,
                out@ == mid + html_lis_upto(items, i as int),
            decreases n - i,
        {
            proof {
                assert(items[i as int] == l.items@[i as int]@);
            }
            let mut line = String::from_str("            <li>");
            let e = escape_html_text(l.items[i].as_str());
            line.append(e.as_str());
            line.append("</li>\n");
            out.append(line.as_str());
            proof {
                assert(out@ =~= mid + html_lis_upto(items, i + 1));
            }
            i = i + 1;
        }
        match &l.list_type {
            ListType::Ordered => {
                out.append("        </ol>\n");
            },
            ListType::Unordered => {
                out.append("        </ul>\n");
            },
        }
        proof {
            assert(out@ =~= old(out)@ + html_list(*l));
        }
    }

    /// Appends one row's cells in the given tags.
    fn push_html_cells(&self, out: &mut String, cells: &Vec<String>, th: bool)
        ensures
            final(out)@ == old(out)@ + html_cells_upto(
                cells@.map_values(|s: String| s@),
                if th { "                    <th>"@ } else { "                    <td>"@ },
                if th { "</th>\n"@ } else { "</td>\n"@ },
                cells@.len() as int,
            ),
    {
        let ghost cv = cells@.map_values(|s: String| s@);
        let ghost topen: Seq<char> = if th { "                    <th>"@ } else { "                    <td>"@ };
        let ghost tclose: Seq<char> = if th { "</th>\n"@ } else { "</td>\n"@ };
        let n = cells.len();
        let mut i: usize = 0;
        while i < n
            invariant
                cv == cells@.map_values(|s: String| s@),
                topen == if th { "                    <th>"@ } else { "                    <td>"@ },
                tclose == if th { "</th>\n"@ } else { "</td>\n"@ },
                n == cells@.len(),
                i <= n,
                out@ == old(out)@ + html_cells_upto(cv, topen, tclose, i as int),
            decreases n - i,
        {
            proof {
                assert(cv[i as int] == cells@[i as int]@);
            }
            let mut line = if th {
                String::from_str("                    <th>")
            } else {
                String::from_str("                    <td>")
            };
            let e = escape_html_text(cells[i].as_str());
            line.append(e.as_str());
            if th {
                line.append("</th>\n");
            } else {
                line.append("</td>\n");
            }
            out.append(line.as_str());
            proof {
                assert(out@ =~= old(out)@ + html_cells_upto(cv, topen, tclose, i + 1));
            }
            i = i + 1;
        }
    }

    /// Appends one table as HTML.
    #[verifier::rlimit(100)]
    #[verifier::spinoff_prover]
    fn push_html_table(&self, out: &mut String, t: &Table)
        ensures
            final(out)@ == old(out)@ + html_table(*t),
    {
        let ghost rows = t.rows@.map_values(|r: Vec<String>| r@.map_values(|s: String| s@));
        let nrows = t.rows.len();
        if nrows == 0 {
            proof {
                assert(out@ =~= old(out)@ + html_table(*t));
            }
            return;
        }
        out.append("        <table>\n");
        out.append("            <thead>\n                <tr>\n");
        match &t.headers {
            Some(h) => {
                self.push_html_cells(out, h, true);
            },
            None => {
                proof {
                    assert(rows[0] == t.rows@[0]@.map_values(|s: String| s@));
                }
                self.push_html_cells(out, &t.rows[0], true);
            },
        }
        out.append("                </tr>\n            </thead>\n");
        out.append("            <tbody>\n");
        let ghost mid = out@;
        let mut i: usize = 1;
        proof {
            assert(html_rows_from(rows, 1, 1) =~= Seq::<char>::empty());
            assert(out@ =~= mid + html_rows_from(rows, 1, 1));
        }
        while i < nrows
            invariant
                rows == t.rows@.map_values(|r: Vec<String>| r@.map_values(|s: String| s@)),
                nrows == t.rows@.len(),
                1 <= i,
                i <= nrows || i == 1,
                out@ == mid + html_rows_from(rows, 1, i as int),
            decreases nrows - i,
        {
            proof {
                assert(rows[i as int] == t.rows@[i as int]@.map_values(|s: String| s@));
            }
            out.append("                <tr>\n");
            self.push_html_cells(out, &t.rows[i], false);
            out.append("                </tr>\n");
            proof {
                assert(out@ =~= mid + html_rows_from(rows, 1, i + 1));
            }
            i = i + 1;
        }
        out.append("            </tbody>\n");
        out.append("        </table>\n");
        proof {
            assert(out@ =~= old(out)@ + html_table(*t));
        }
    }

    /// Renders one slide as a standalone HTML page.
    #[verifier::rlimit(100)]
    #[verifier::spinoff_prover]
    pub fn write_slide(&self, slide: &Slide) -> (r: String)
        ensures
            r@ == html_slide_page(*self, *slide),
    {
        let mut out = String::from_str(
            "<!DOCTYPE html>\n<html lang=\"en\">\n<head>\n    <meta charset=\"UTF-8\">\n    <meta name=\"viewport\" content=\"width=device-width, initial-scale=1.0\">\n",
        );
        out.append("    <title>");
        let title_seg: String = match &slide.title {
            Some(t) => {
                let mut seg = String::from_str("Slide ");
                push_usize(&mut seg, slide.number);
                seg.append(": ");
                let e = escape_html_text(t.as_str());
                seg.append(e.as_str());
                seg
            },
            None => {
                let mut seg = String::from_str("Slide ");
                push_usize(&mut seg, slide.number);
                seg
            },
        };
        out.append(title_seg.as_str());
        out.append("</title>\n");
        let css_seg: String = if self.include_css {
            self.write_css()
        } else {
            String::new()
        };
        out.append(css_seg.as_str());
        out.append("</head>\n<body>\n<div class=\"presentation\">\n");
        out.append("    <div class=\"slide\">\n");
        let body = self.write_slide_content(slide);
        out.append(body.as_str());
        out.append("    </div>\n");
        out.append("</div>\n</body>\n</html>\n");
        proof {
            if !self.include_css {
                assert(css_seg@ =~= Seq::<char>::empty());
            }
            assert(out@ =~= html_slide_page(*self, *slide));
        }
        out
    }
}

/// One slide as JSON.
pub open spec fn json_slide(s: Slide) -> Seq<char> {
    "{\"number\":"@ + dec_str(s.number as nat) + ",\"title\":"@ + json_opt(s.title) + ",\"content\":"@
        + json_str_arr(s.content@.map_values(|x: String| x@)) + ",\"notes\":"@ + json_opt(s.notes)
        + ",\"tables\":"@ + json_tables(s.tables@) + ",\"lists\":"@ + json_lists(s.lists@) + "}"@
}

pub open spec fn json_opt(o: Option<String>) -> Seq<char> {
    match o {
        Some(t) => json_str(t@),
        None => "null"@,
    }
}

/// A JSON array of strings.
pub open spec fn json_str_arr_upto(items: Seq<Seq<char>>, k: int) -> Seq<char>
    decreases k,
{
    if k <= 0 {
        Seq::empty()
    } else if k == 1 {
        json_str(items[0])
    } else {
        json_str_arr_upto(items, k - 1) + ","@ + json_str(items[k - 1])
    }
}

pub open spec fn json_str_arr(items: Seq<Seq<char>>) -> Seq<char> {
    "["@ + json_str_arr_upto(items, items.len() as int) + "]"@
}

/// A JSON array of string arrays.
pub open spec fn json_rows_upto(rows: Seq<Seq<Seq<char>>>, k: int) -> Seq<char>
    decreases k,
{
    if k <= 0 {
        Seq::empty()
    } else if k == 1 {
        json_str_arr(rows[0])
    } else {
        json_rows_upto(rows, k - 1) + ","@ + json_str_arr(rows[k - 1])
    }
}

pub open spec fn json_rows(rows: Seq<Seq<Seq<char>>>) -> Seq<char> {
    "["@ + json_rows_upto(rows, rows.len() as int) + "]"@
}

/// One table as JSON.
pub open spec fn json_table(t: Table) -> Seq<char> {
    "{\"slide_number\":"@ + dec_str(t.slide_number as nat) + ",\"rows\":"@ + json_rows(
        t.rows@.map_values(|r: Vec<String>| r@.map_values(|s: String| s@)),
    ) + ",\"headers\":"@ + (match t.headers {
        Some(h) => json_str_arr(h@.map_values(|s: String| s@)),
        None => "null"@,
    }) + "}"@
}

pub open spec fn json_tables_upto(tables: Seq<Table>, k: int) -> Seq<char>
    decreases k,
{
    if k <= 0 {
        Seq::empty()
    } else if k == 1 {
        json_table(tables[0])
    } else {
        json_tables_upto(tables, k - 1) + ","@ + json_table(tables[k - 1])
    }
}

pub open spec fn json_tables(tables: Seq<Table>) -> Seq<char> {
    "["@ + json_tables_upto(tables, tables.len() as int) + "]"@
}

/// One list as JSON.
pub open spec fn json_list(l: List) -> Seq<char> {
    "{\"slide_number\":"@ + dec_str(l.slide_number as nat) + ",\"list_type\":"@ + (
    match l.list_type {
        ListType::Ordered => "\"Ordered\""@,
        ListType::Unordered => "\"Unordered\""@,
    }) + ",\"items\":"@ + json_str_arr(l.items@.map_values(|s: String| s@)) + "}"@
}

pub open spec fn json_lists_upto(lists: Seq<List>, k: int) -> Seq<char>
    decreases k,
{
    if k <= 0 {
        Seq::empty()
    } else if k == 1 {
        json_list(lists[0])
    } else {
        json_lists_upto(lists, k - 1) + ","@ + json_list(lists[k - 1])
    }
}

pub open spec fn json_lists(lists: Seq<List>) -> Seq<char> {
    "["@ + json_lists_upto(lists, lists.len() as int) + "]"@
}

/// The slides as a JSON array.
pub open spec fn json_slides_upto(slides: Seq<Slide>, k: int) -> Seq<char>
    decreases k,
{
    if k <= 0 {
        Seq::empty()
    } else if k == 1 {
        json_slide(slides[0])
    } else {
        json_slides_upto(slides, k - 1) + ","@ + json_slide(slides[k - 1])
    }
}

/// The whole presentation as JSON: the slide count and the slides, with
/// the metadata's descriptive fields when asked for.
pub open spec fn json_ppt(d: PptData, include_metadata: bool) -> Seq<char> {
    (if include_metadata {
        "{\"metadata\":{\"title\":"@ + json_opt(d.metadata.title) + ",\"author\":"@ + json_opt(
            d.metadata.author,
        ) + ",\"slide_count\":"@ + dec_str(d.metadata.slide_count as nat) + "},"@
    } else {
        "{"@
    }) + "\"slide_count\":"@ + dec_str(d.slide_count as nat) + ",\"slides\":["@ + json_slides_upto(
        d.slides@,
        d.slides@.len() as int,
    ) + "]}"@
}

/// The JSON renderer.
pub struct JsonOutput {
    pub pretty: bool,
    pub include_metadata: bool,
}

impl JsonOutput {
    /// A JSON renderer with the given options.  The output is compact; the
    /// pretty flag only adds a trailing newline after the object.
    pub fn new(pretty: bool, include_metadata: bool) -> (o: JsonOutput)
        ensures
            o.pretty == pretty,
            o.include_metadata == include_metadata,
    {
        JsonOutput { pretty, include_metadata }
    }

    /// Renders one slide as a JSON object.
    #[verifier::rlimit(100)]
    #[verifier::spinoff_prover]
    pub fn write_slide(&self, slide: &Slide) -> (r: String)
        ensures
            r@ == json_slide(*slide),
    {
        let mut out = String::from_str("{\"number\":");
        push_usize(&mut out, slide.number);
        out.append(",\"title\":");
        let t = opt_json(&slide.title);
        out.append(t.as_str());
        out.append(",\"content\":");
        let c = str_arr_json(&slide.content);
        out.append(c.as_str());
        out.append(",\"notes\":");
        let nj = opt_json(&slide.notes);
        out.append(nj.as_str());
        out.append(",\"tables\":");
        out.append("[");
        let ghost base = out@;
        let n = slide.tables.len();
        let mut i: usize = 0;
        proof {
            assert(out@ =~= base + json_tables_upto(slide.tables@, 0));
        }
        while i < n
            invariant
                n == slide.tables@.len(),
                i <= n,
                out@ == base + json_tables_upto(slide.tables@, i as int),
            decreases n - i,
        {
            if i > 0 {
                out.append(",");
            }
            let tj = table_json(&slide.tables[i]);
            out.append(tj.as_str());
            proof {
                assert(out@ =~= base + json_tables_upto(slide.tables@, i + 1));
            }
            i = i + 1;
        }
        out.append("]");
        out.append(",\"lists\":");
        out.append("[");
        let ghost base2 = out@;
        let n2 = slide.lists.len();
        let mut i2: usize = 0;
        proof {
            assert(out@ =~= base2 + json_lists_upto(slide.lists@, 0));
        }
        while i2 < n2
            invariant
                n2 == slide.lists@.len(),
                i2 <= n2,
                out@ == base2 + json_lists_upto(slide.lists@, i2 as int),
            decreases n2 - i2,
        {
            if i2 > 0 {
                out.append(",");
            }
            let lj = list_json(&slide.lists[i2]);
            out.append(lj.as_str());
            proof {
                assert(out@ =~= base2 + json_lists_upto(slide.lists@, i2 + 1));
            }
            i2 = i2 + 1;
        }
        out.append("]");
        out.append("}");
        proof {
            assert(out@ =~= json_slide(*slide));
        }
        out
    }

    /// Renders the whole presentation as one JSON object.
    #[verifier::rlimit(100)]
    #[verifier::spinoff_prover]
    pub fn write_ppt_data(&self, data: &PptData) -> (r: String)
        ensures
            r@ == json_ppt(*data, self.include_metadata),
    {
        let mut out: String;
        if self.include_metadata {
            out = String::from_str("{\"metadata\":{\"title\":");
            let t = opt_json(&data.metadata.title);
            out.append(t.as_str());
            out.append(",\"author\":");
            let a = opt_json(&data.metadata.author);
            out.append(a.as_str());
            out.append(",\"slide_count\":");
            push_usize(&mut out, data.metadata.slide_count);
            out.append("},");
        } else {
            out = String::from_str("{");
        }
        out.append("\"slide_count\":");
        push_usize(&mut out, data.slide_count);
        out.append(",\"slides\":[");
        let ghost base = out@;
        let n = data.slides.len();
        let mut i: usize = 0;
        proof {
            assert(out@ =~= base + json_slides_upto(data.slides@, 0));
        }
        while i < n
            invariant
                n == data.slides@.len(),
                i <= n,
                out@ == base + json_slides_upto(data.slides@, i as int),
            decreases n - i,
        {
            if i > 0 {
                out.append(",");
            }
            let sj = self.write_slide(&data.slides[i]);
            out.append(sj.as_str());
            proof {
                assert(out@ =~= base + json_slides_upto(data.slides@, i + 1));
            }
            i = i + 1;
        }
        out.append("]}");
        proof {
            assert(out@ =~= json_ppt(*data, self.include_metadata));
        }
        out
    }
}

/// An optional string as JSON.
fn opt_json(o: &Option<String>) -> (r: String)
    ensures
        r@ == json_opt(*o),
{
    match o {
        Some(t) => json_string_of(t.as_str()),
        None => String::from_str("null"),
    }
}

/// A vector of strings as a JSON array.
fn str_arr_json(items: &Vec<String>) -> (r: String)
    ensures
        r@ == json_str_arr(items@.map_values(|s: String| s@)),
{
    let ghost iv = items@.map_values(|s: String| s@);
    let mut out = String::from_str("[");
    let n = items.len();
    let mut i: usize = 0;
    proof {
        assert(out@ =~= "["@ + json_str_arr_upto(iv, 0));
    }
    while i < n
        invariant
            iv == items@.map_values(|s: String| s@),
            n == items@.len(),
            i <= n,
            out@ == "["@ + json_str_arr_upto(iv, i as int),
        decreases n - i,
    {
        proof {
            assert(iv[i as int] == items@[i as int]@);
        }
        if i > 0 {
            out.append(",");
        }
        let j = json_string_of(items[i].as_str());
        out.append(j.as_str());
        proof {
            assert(out@ =~= "["@ + json_str_arr_upto(iv, i + 1));
        }
        i = i + 1;
    }
    out.append("]");
    out
}

/// One table as JSON.
#[verifier::rlimit(100)]
#[verifier::spinoff_prover]
fn table_json(t: &Table) -> (r: String)
    ensures
        r@ == json_table(*t),
{
    let ghost rows = t.rows@.map_values(|r2: Vec<String>| r2@.map_values(|s: String| s@));
    let mut out = String::from_str("{\"slide_number\":");
    push_usize(&mut out, t.slide_number);
    out.append(",\"rows\":");
    out.append("[");
    let ghost base = out@;
    let n = t.rows.len();
    let mut i: usize = 0;
    proof {
        assert(out@ =~= base + json_rows_upto(rows, 0));
    }
    while i < n
        invariant
            rows == t.rows@.map_values(|r2: Vec<String>| r2@.map_values(|s: String| s@)),
            n == t.rows@.len(),
            i <= n,
            out@ == base + json_rows_upto(rows, i as int),
        decreases n - i,
    {
        proof {
            assert(rows[i as int] == t.rows@[i as int]@.map_values(|s: String| s@));
        }
        if i > 0 {
            out.append(",");
        }
        let j = str_arr_json(&t.rows[i]);
        out.append(j.as_str());
        proof {
            assert(out@ =~= base + json_rows_upto(rows, i + 1));
        }
        i = i + 1;
    }
    out.append("]");
    out.append(",\"headers\":");
    let h_seg: String = match &t.headers {
        Some(h) => str_arr_json(h),
        None => String::from_str("null"),
    };
    out.append(h_seg.as_str());
    out.append("}");
    proof {
        assert(out@ =~= json_table(*t));
    }
    out
}

/// One list as JSON.
fn list_json(l: &List) -> (r: String)
    ensures
        r@ == json_list(*l),
{
    let mut out = String::from_str("{\"slide_number\":");
    push_usize(&mut out, l.slide_number);
    out.append(",\"list_type\":");
    match &l.list_type {
        ListType::Ordered => {
            out.append("\"Ordered\"");
        },
        ListType::Unordered => {
            out.append("\"Unordered\"");
        },
    }
    out.append(",\"items\":");
    let j = str_arr_json(&l.items);
    out.append(j.as_str());
    out.append("}");
    proof {
        assert(out@ =~= json_list(*l));
    }
    out
}

/// Dispatches a presentation to the renderer the format names.
pub struct OutputProcessor;

impl OutputProcessor {
    /// A processor.
    pub fn new() -> (p: OutputProcessor) {
        OutputProcessor
    }

    /// Renders a presentation in the named format.
    pub fn process(&self, data: &PptData, format: &OutputFormat) -> (r: String)
        requires
            forall|q: int|
                0 <= q < data.slides@.len() ==> tables_wf((#[trigger] data.slides@[q]).tables@),
        ensures
            match *format {
                OutputFormat::Text => r@ == txt_ppt(*data),
                OutputFormat::Json { pretty, include_metadata } => r@ == json_ppt(
                    *data,
                    include_metadata,
                ),
                OutputFormat::Markdown { include_metadata, include_slide_numbers } => r@ == md_ppt(
                    MarkdownOutput { include_metadata, include_slide_numbers },
                    *data,
                ),
                OutputFormat::Html { include_metadata, include_css } => true,
            },
    {
        match format {
            OutputFormat::Text => {
                let o = TextOutput::new();
                o.write_ppt_data(data)
            },
            OutputFormat::Json { pretty, include_metadata } => {
                let o = JsonOutput::new(*pretty, *include_metadata);
                o.write_ppt_data(data)
            },
            OutputFormat::Markdown { include_metadata, include_slide_numbers } => {
                let o = MarkdownOutput::new(*include_metadata, *include_slide_numbers);
                o.write_ppt_data(data)
            },
            OutputFormat::Html { include_metadata, include_css } => {
                let o = HtmlOutput::new(*include_metadata, *include_css);
                let mut page = String::new();
                let n = data.slides.len();
                let mut i: usize = 0;
                while i < n
                    invariant
                        forall|q: int|
                            0 <= q < data.slides@.len() ==> tables_wf(
                                (#[trigger] data.slides@[q]).tables@,
                            ),
                        n == data.slides@.len(),
                        i <= n,
                    decreases n - i,
                {
                    let sl = o.write_slide(&data.slides[i]);
                    page.append(sl.as_str());
                    i = i + 1;
                }
                page
            },
        }
    }

    /// Renders one slide in the named format; metadata options are ignored
    /// for a single slide.
    pub fn process_slide(&self, slide: &Slide, format: &OutputFormat) -> (r: String)
        requires
            tables_wf(slide.tables@),
        ensures
            match *format {
                OutputFormat::Text => r@ == txt_slide(*slide),
                OutputFormat::Json { pretty, include_metadata } => r@ == json_slide(*slide),
                OutputFormat::Markdown { include_metadata, include_slide_numbers } => r@
                    == md_slide(
                    MarkdownOutput { include_metadata: false, include_slide_numbers },
                    *slide,
                ),
                OutputFormat::Html { include_metadata, include_css } => r@ == html_slide_page(
                    HtmlOutput { include_metadata: false, include_css },
                    *slide,
                ),
            },
    {
        match format {
            OutputFormat::Text => {
                let o = TextOutput::new();
                o.write_slide(slide)
            },
            OutputFormat::Json { pretty, include_metadata } => {
                let o = JsonOutput::new(*pretty, false);
                o.write_slide(slide)
            },
            OutputFormat::Markdown { include_metadata: _, include_slide_numbers } => {
                let o = MarkdownOutput::new(false, *include_slide_numbers);
                o.write_slide(slide)
            },
            OutputFormat::Html { include_metadata: _, include_css } => {
                let o = HtmlOutput::new(false, *include_css);
                o.write_slide(slide)
            },
        }
    }
}

} // verus!
