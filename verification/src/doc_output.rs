//! Renderers for parsed documents: plain text, Markdown with optional YAML
//! front matter, and JSON.  Each writer builds its whole output string, and
//! the contracts give that string exactly.

use vstd::prelude::*;
use vstd::string::*;
use crate::chars::{
    trim_seq, chars_vec, trim_chars, string_of, push_char, lines_of, lines_vec, split_from_char,
    split_char, rep_seq, push_repeated, char_repeat, repeat_char, crun, scan_to_char, dec_str,
    usize_to_string,
    is_blank, lemma_blank_trim, lemma_crun_props,
};
use crate::render::{joined, join_strings, json_str, push_json_str, push_usize};
use crate::doc_model::{DocData, DocMetadata, DocSection, SectionType, FormatInfo};

verus! {

/// A document output format with its options.
#[derive(Debug, Clone)]
pub enum OutputFormat {
    Text { preserve_formatting: bool, include_metadata: bool, line_numbers: bool },
    Markdown { preserve_structure: bool, include_metadata: bool },
    Json { pretty: bool, include_formatting: bool },
}

impl OutputFormat {
    /// Bare text.
    pub fn text() -> (f: OutputFormat)
        ensures
            f == (OutputFormat::Text {
                preserve_formatting: false,
                include_metadata: false,
                line_numbers: false,
            }),
    {
        OutputFormat::Text {
            preserve_formatting: false,
            include_metadata: false,
            line_numbers: false,
        }
    }

    /// Text with a metadata header.
    pub fn text_with_metadata() -> (f: OutputFormat)
        ensures
            f == (OutputFormat::Text {
                preserve_formatting: false,
                include_metadata: true,
                line_numbers: false,
            }),
    {
        OutputFormat::Text {
            preserve_formatting: false,
            include_metadata: true,
            line_numbers: false,
        }
    }

    /// Text with numbered lines.
    pub fn text_with_line_numbers() -> (f: OutputFormat)
        ensures
            f == (OutputFormat::Text {
                preserve_formatting: false,
                include_metadata: false,
                line_numbers: true,
            }),
    {
        OutputFormat::Text {
            preserve_formatting: false,
            include_metadata: false,
            line_numbers: true,
        }
    }

    /// Structured Markdown.
    pub fn markdown() -> (f: OutputFormat)
        ensures
            f == (OutputFormat::Markdown { preserve_structure: true, include_metadata: false }),
    {
        OutputFormat::Markdown { preserve_structure: true, include_metadata: false }
    }

    /// Markdown with YAML front matter.
    pub fn markdown_with_metadata() -> (f: OutputFormat)
        ensures
            f == (OutputFormat::Markdown { preserve_structure: true, include_metadata: true }),
    {
        OutputFormat::Markdown { preserve_structure: true, include_metadata: true }
    }

    /// Compact JSON.
    pub fn json() -> (f: OutputFormat)
        ensures
            f == (OutputFormat::Json { pretty: false, include_formatting: false }),
    {
        OutputFormat::Json { pretty: false, include_formatting: false }
    }

    /// Indented JSON with formatting records.
    pub fn json_pretty() -> (f: OutputFormat)
        ensures
            f == (OutputFormat::Json { pretty: true, include_formatting: true }),
    {
        OutputFormat::Json { pretty: true, include_formatting: true }
    }
}

/// The YAML escape of one character inside a quoted scalar.
pub open spec fn yaml_esc_char(c: char) -> Seq<char> {
    if c == '"' {
        seq!['\\', '"']
    } else if c == '\n' {
        seq!['\\', 'n']
    } else if c == '\r' {
        seq!['\\', 'r']
    } else {
        seq![c]
    }
}

/// The YAML escape of the first `k` characters.
pub open spec fn yaml_esc_upto(s: Seq<char>, k: int) -> Seq<char>
    decreases k,
{
    if k <= 0 {
        Seq::empty()
    } else {
        yaml_esc_upto(s, k - 1) + yaml_esc_char(s[k - 1])
    }
}

/// The YAML escape of a whole string.
pub open spec fn yaml_escaped(s: Seq<char>) -> Seq<char> {
    yaml_esc_upto(s, s.len() as int)
}

/// Escapes quotes and line breaks for a quoted YAML scalar.
pub fn escape_yaml_string(s: &str) -> (r: String)
    ensures
        r@ == yaml_escaped(s@),
{
    let v = chars_vec(s);
    let n = v.len();
    let mut out = String::new();
    let mut i: usize = 0;
    proof {
        assert(out@ =~= yaml_esc_upto(s@, 0));
    }
    while i < n
        invariant
            v@ == s@,
            n == v@.len(),
            i <= n,
            out@ == yaml_esc_upto(s@, i as int),
        decreases n - i,
    {
        let c = v[i];
        if c == '"' {
            out.append("\\\"");
            proof {
                reveal_strlit("\\\"");
                assert(out@ =~= yaml_esc_upto(s@, i + 1));
            }
        } else if c == '\n' {
            out.append("\\n");
            proof {
                reveal_strlit("\\n");
                assert(out@ =~= yaml_esc_upto(s@, i + 1));
            }
        } else if c == '\r' {
            out.append("\\r");
            proof {
                reveal_strlit("\\r");
                assert(out@ =~= yaml_esc_upto(s@, i + 1));
            }
        } else {
            push_char(&mut out, c);
            proof {
                assert(out@ =~= yaml_esc_upto(s@, i + 1));
            }
        }
        i = i + 1;
    }
    out
}

/// Markdown markup application: bold, then italic, then underline tags.
pub open spec fn md_applied(f: FormatInfo, s: Seq<char>) -> Seq<char> {
    let r1 = if f.bold {
        "**"@ + s + "**"@
    } else {
        s
    };
    let r2 = if f.italic {
        "*"@ + r1 + "*"@
    } else {
        r1
    };
    if f.underline {
        "<u>"@ + r2 + "</u>"@
    } else {
        r2
    }
}

/// Wraps text in the Markdown markers the formatting asks for.
pub fn apply_markdown_formatting(text: &str, formatting: &FormatInfo) -> (r: String)
    ensures
        r@ == md_applied(*formatting, text@),
{
    let mut out = String::from_str(text);
    if formatting.bold {
        let mut w = String::from_str("**");
        w.append(out.as_str());
        w.append("**");
        out = w;
    }
    if formatting.italic {
        let mut w = String::from_str("*");
        w.append(out.as_str());
        w.append("*");
        out = w;
    }
    if formatting.underline {
        let mut w = String::from_str("<u>");
        w.append(out.as_str());
        w.append("</u>");
        out = w;
    }
    out
}

/// One Markdown table row: the line's tab-separated cells walled with pipes.
pub open spec fn md_table_row(line: Seq<char>) -> Seq<char> {
    "| "@ + joined(split_from_char(line, '\t', 0), " | "@) + " |"@ + "\n"@
}

/// The Markdown separator row for `n` columns.
pub open spec fn md_sep_row(n: int) -> Seq<char> {
    "|"@ + rep_seq(" --- |"@, n) + "\n"@
}

/// The Markdown form of a tab-and-newline table: each line becomes a piped
/// row; a separator follows the first row when more lines exist.
pub open spec fn md_table_upto(ls: Seq<Seq<char>>, k: int) -> Seq<char>
    decreases k,
{
    if k <= 0 {
        Seq::empty()
    } else {
        md_table_upto(ls, k - 1) + md_table_row(ls[k - 1]) + (if k == 1 && ls.len() > 1 {
            md_sep_row(split_from_char(ls[0], '\t', 0).len() as int)
        } else {
            Seq::empty()
        })
    }
}

pub open spec fn md_table(content: Seq<char>) -> Seq<char> {
    md_table_upto(lines_of(content), lines_of(content).len() as int)
}

/// Renders a tab-separated table as Markdown.
pub fn convert_table_to_markdown(table_content: &str) -> (r: String)
    ensures
        r@ == md_table(table_content@),
{
    let v = chars_vec(table_content);
    let ls = lines_vec(&v);
    let ghost lviews = ls@.map_values(|w: Vec<char>| w@);
    let n = ls.len();
    let mut out = String::new();
    let mut i: usize = 0;
    proof {
        assert(out@ =~= md_table_upto(lviews, 0));
    }
    while i < n
        invariant
            lviews == ls@.map_values(|w: Vec<char>| w@),
            lviews == lines_of(table_content@),
            n == ls@.len(),
            i <= n,
            out@ == md_table_upto(lviews, i as int),
        decreases n - i,
    {
        let line = &ls[i];
        let cells = split_char(line, '\t');
        let mut parts: Vec<String> = Vec::new();
        let mut q: usize = 0;
        while q < cells.len()
            invariant
                q <= cells@.len(),
                parts@.len() == q,
                forall|j: int| 0 <= j < q ==> (#[trigger] parts@[j])@ == cells@[j]@,
            decreases cells@.len() - q,
        {
            parts.push(string_of(&cells[q]));
            q = q + 1;
        }
        let joined_cells = join_strings(&parts, " | ");
        proof {
            assert(parts@.map_values(|s: String| s@) =~= cells@.map_values(|w: Vec<char>| w@));
            assert(lviews[i as int] == ls@[i as int]@);
        }
        out.append("| ");
        out.append(joined_cells.as_str());
        out.append(" |");
        out.append("\n");
        proof {
            assert(out@ =~= md_table_upto(lviews, i as int) + md_table_row(lviews[i as int]));
        }
        if i == 0 && n > 1 {
            out.append("|");
            push_repeated(&mut out, " --- |", cells.len());
            out.append("\n");
            proof {
                assert(out@ =~= md_table_upto(lviews, i as int) + md_table_row(lviews[i as int])
                    + md_sep_row(split_from_char(lviews[0], '\t', 0).len() as int));
                assert(out@ =~= md_table_upto(lviews, i + 1));
            }
        } else {
            proof {
                assert(md_table_upto(lviews, i + 1) =~= md_table_upto(lviews, i as int)
                    + md_table_row(lviews[i as int]) + Seq::<char>::empty());
                assert(out@ =~= md_table_upto(lviews, i + 1));
            }
        }
        i = i + 1;
    }
    out
}

/// The Markdown form of one section.
pub open spec fn md_section(s: DocSection) -> Seq<char> {
    match s.section_type {
        SectionType::Heading(level) => char_repeat('#', level as nat) + " "@ + s.content@,
        SectionType::List => "- "@ + s.content@,
        SectionType::Table => md_table(s.content@),
        SectionType::Image => "!["@ + "\u{56fe}\u{7247}"@ + "]("@ + s.content@ + ")"@,
        SectionType::Hyperlink => {
            let k = crun(s.content@, '|', 0);
            if k < s.content@.len() {
                "["@ + trim_seq(s.content@.subrange(0, k)) + "]("@ + trim_seq(
                    s.content@.subrange(k + 1, s.content@.len() as int),
                ) + ")"@
            } else {
                "["@ + s.content@ + "]("@ + s.content@ + ")"@
            }
        },
        SectionType::Header => "> **"@ + "\u{9875}\u{7709}"@ + "**: "@ + s.content@,
        SectionType::Footer => "> **"@ + "\u{9875}\u{811a}"@ + "**: "@ + s.content@,
        SectionType::Paragraph => match s.formatting {
            Some(f) => md_applied(f, s.content@),
            None => s.content@,
        },
    }
}

/// Renders one section as Markdown.
pub fn convert_section_to_markdown(section: &DocSection) -> (r: String)
    ensures
        r@ == md_section(*section),
{
    match &section.section_type {
        SectionType::Heading(level) => {
            let lv: u8 = *level;
            let mut out = repeat_char('#', lv as usize);
            out.append(" ");
            out.append(section.content.as_str());
            out
        },
        SectionType::List => {
            let mut out = String::from_str("- ");
            out.append(section.content.as_str());
            out
        },
        SectionType::Table => convert_table_to_markdown(section.content.as_str()),
        SectionType::Image => {
            let mut out = String::from_str("![");
            out.append("\u{56fe}\u{7247}");
            out.append("](");
            out.append(section.content.as_str());
            out.append(")");
            out
        },
        SectionType::Hyperlink => {
            let v = chars_vec(section.content.as_str());
            let k = scan_to_char(&v, '|', 0);
            if k < v.len() {
                let before: Vec<char> = copy_range(&v, 0, k);
                let after: Vec<char> = copy_range(&v, k + 1, v.len());
                let bt = trim_chars(&before);
                let at = trim_chars(&after);
                let mut out = String::from_str("[");
                out.append(string_of(&bt).as_str());
                out.append("](");
                out.append(string_of(&at).as_str());
                out.append(")");
                out
            } else {
                let mut out = String::from_str("[");
                out.append(section.content.as_str());
                out.append("](");
                out.append(section.content.as_str());
                out.append(")");
                out
            }
        },
        SectionType::Header => {
            let mut out = String::from_str("> **");
            out.append("\u{9875}\u{7709}");
            out.append("**: ");
            out.append(section.content.as_str());
            out
        },
        SectionType::Footer => {
            let mut out = String::from_str("> **");
            out.append("\u{9875}\u{811a}");
            out.append("**: ");
            out.append(section.content.as_str());
            out
        },
        SectionType::Paragraph => {
            match &section.formatting {
                Some(f) => apply_markdown_formatting(section.content.as_str(), f),
                None => section.content.clone(),
            }
        },
    }
}

/// A copy of `v[a..b]`.
pub fn copy_range(v: &Vec<char>, a: usize, b: usize) -> (r: Vec<char>)
    requires
        a <= b <= v@.len(),
    ensures
        r@ == v@.subrange(a as int, b as int),
{
    let mut r: Vec<char> = Vec::new();
    let mut i: usize = a;
    while i < b
        invariant
            a <= i <= b <= v@.len(),
            r@ == v@.subrange(a as int, i as int),
        decreases b - i,
    {
        r.push(v[i]);
        i = i + 1;
        proof {
            assert(r@ =~= v@.subrange(a as int, i as int));
        }
    }
    r
}

/// The Markdown body over the first `k` sections: each section's Markdown,
/// a newline, and an extra blank line after headings and tables.
pub open spec fn md_sections_upto(sections: Seq<DocSection>, k: int) -> Seq<char>
    decreases k,
{
    if k <= 0 {
        Seq::empty()
    } else {
        md_sections_upto(sections, k - 1) + md_section(sections[k - 1]) + "\n"@ + (
        match sections[k - 1].section_type {
            SectionType::Heading(_) => "\n"@,
            SectionType::Table => "\n"@,
            _ => Seq::empty(),
        })
    }
}

/// The descriptive lines of the front matter.
pub open spec fn fm_head(m: DocMetadata) -> Seq<char> {
    (match m.title {
        Some(t) => "title: \""@ + yaml_escaped(t@) + "\"\n"@,
        None => Seq::empty(),
    }) + (match m.author {
        Some(t) => "author: \""@ + yaml_escaped(t@) + "\"\n"@,
        None => Seq::empty(),
    }) + (match m.subject {
        Some(t) => "subject: \""@ + yaml_escaped(t@) + "\"\n"@,
        None => Seq::empty(),
    }) + (match m.created {
        Some(t) => "created: \""@ + t@ + "\"\n"@,
        None => Seq::empty(),
    }) + (match m.modified {
        Some(t) => "modified: \""@ + t@ + "\"\n"@,
        None => Seq::empty(),
    })
}

/// The counting lines of the front matter.
pub open spec fn fm_counts(m: DocMetadata) -> Seq<char> {
    "word_count: "@ + dec_str(m.word_count as nat) + "\n"@ + "paragraph_count: "@ + dec_str(
        m.paragraph_count as nat,
    ) + "\n"@ + "character_count: "@ + dec_str(m.character_count as nat) + "\n"@ + (
    match m.page_count {
        Some(p) => "page_count: "@ + dec_str(p as nat) + "\n"@,
        None => Seq::empty(),
    })
}

/// The YAML front matter for a document's metadata.
pub open spec fn md_frontmatter(m: DocMetadata) -> Seq<char> {
    "---\n"@ + fm_head(m) + fm_counts(m) + "---\n"@
}

/// Appends the descriptive front-matter lines.
#[verifier::rlimit(100)]
fn push_fm_head(out: &mut String, m: &DocMetadata)
    ensures
        final(out)@ == old(out)@ + fm_head(*m),
{
    let ghost base = out@;
    let ghost s1 = match &m.title {
        Some(t) => "title: \""@ + yaml_escaped(t@) + "\"\n"@,
        None => Seq::<char>::empty(),
    };
    let ghost s2 = match &m.author {
        Some(t) => "author: \""@ + yaml_escaped(t@) + "\"\n"@,
        None => Seq::<char>::empty(),
    };
    let ghost s3 = match &m.subject {
        Some(t) => "subject: \""@ + yaml_escaped(t@) + "\"\n"@,
        None => Seq::<char>::empty(),
    };
    let ghost s4 = match &m.created {
        Some(t) => "created: \""@ + t@ + "\"\n"@,
        None => Seq::<char>::empty(),
    };
    let ghost s5 = match &m.modified {
        Some(t) => "modified: \""@ + t@ + "\"\n"@,
        None => Seq::<char>::empty(),
    };
    match &m.title {
        Some(t) => {
            let mut line = String::from_str("title: \"");
            let e = escape_yaml_string(t.as_str());
            line.append(e.as_str());
            line.append("\"\n");
            out.append(line.as_str());
        },
        None => {},
    }
    proof {
        assert(out@ =~= base + s1);
    }
    match &m.author {
        Some(t) => {
            let mut line = String::from_str("author: \"");
            let e = escape_yaml_string(t.as_str());
            line.append(e.as_str());
            line.append("\"\n");
            out.append(line.as_str());
        },
        None => {},
    }
    proof {
        assert(out@ =~= (base + s1) + s2);
    }
    match &m.subject {
        Some(t) => {
            let mut line = String::from_str("subject: \"");
            let e = escape_yaml_string(t.as_str());
            line.append(e.as_str());
            line.append("\"\n");
            out.append(line.as_str());
        },
        None => {},
    }
    proof {
        assert(out@ =~= ((base + s1) + s2) + s3);
    }
    match &m.created {
        Some(t) => {
            let mut line = String::from_str("created: \"");
            line.append(t.as_str());
            line.append("\"\n");
            out.append(line.as_str());
        },
        None => {},
    }
    proof {
        assert(out@ =~= (((base + s1) + s2) + s3) + s4);
    }
    match &m.modified {
        Some(t) => {
            let mut line = String::from_str("modified: \"");
            line.append(t.as_str());
            line.append("\"\n");
            out.append(line.as_str());
        },
        None => {},
    }
    proof {
        assert(out@ =~= ((((base + s1) + s2) + s3) + s4) + s5);
        assert(fm_head(*m) == (((s1 + s2) + s3) + s4) + s5);
        assert(out@ =~= base + fm_head(*m));
    }
}

/// Appends the counting front-matter lines.
#[verifier::rlimit(100)]
fn push_fm_counts(out: &mut String, m: &DocMetadata)
    ensures
        final(out)@ == old(out)@ + fm_counts(*m),
{
    let ghost base = out@;
    out.append("word_count: ");
    push_usize(out, m.word_count);
    out.append("\n");
    out.append("paragraph_count: ");
    push_usize(out, m.paragraph_count);
    out.append("\n");
    out.append("character_count: ");
    push_usize(out, m.character_count);
    out.append("\n");
    match m.page_count {
        Some(p) => {
            out.append("page_count: ");
            push_usize(out, p);
            out.append("\n");
        },
        None => {},
    }
    proof {
        assert(final(out)@ =~= base + fm_counts(*m));
    }
}

/// Writes the metadata as YAML front matter.
pub fn write_metadata_as_frontmatter(metadata: &DocMetadata) -> (r: String)
    ensures
        r@ == md_frontmatter(*metadata),
{
    let mut out = String::from_str("---\n");
    push_fm_head(&mut out, metadata);
    push_fm_counts(&mut out, metadata);
    out.append("---\n");
    out
}

/// The Markdown renderer.
pub struct MarkdownOutput {
    pub preserve_structure: bool,
    pub include_metadata: bool,
}

/// The non-structured Markdown body: each non-blank line of the raw text,
/// each followed by a blank line.
pub open spec fn md_raw_upto(ls: Seq<Seq<char>>, k: int) -> Seq<char>
    decreases k,
{
    if k <= 0 {
        Seq::empty()
    } else {
        md_raw_upto(ls, k - 1) + (if trim_seq(ls[k - 1]).len() > 0 {
            ls[k - 1] + "\n\n"@
        } else {
            Seq::empty()
        })
    }
}

/// The whole Markdown document.
pub open spec fn md_doc(o: MarkdownOutput, d: DocData) -> Seq<char> {
    (if o.include_metadata {
        md_frontmatter(d.metadata) + "\n"@
    } else {
        Seq::empty()
    }) + (if o.preserve_structure {
        md_sections_upto(d.sections@, d.sections@.len() as int)
    } else {
        md_raw_upto(lines_of(d.raw_text@), lines_of(d.raw_text@).len() as int)
    })
}

impl MarkdownOutput {
    /// A Markdown renderer with the given options.
    pub fn new(preserve_structure: bool, include_metadata: bool) -> (o: MarkdownOutput)
        ensures
            o.preserve_structure == preserve_structure,
            o.include_metadata == include_metadata,
    {
        MarkdownOutput { preserve_structure, include_metadata }
    }

    /// Renders the sections, one per line, blank lines after headings and
    /// tables.
    pub fn write_sections(&self, sections: &Vec<DocSection>) -> (r: String)
        ensures
            r@ == md_sections_upto(sections@, sections@.len() as int),
    {
        let n = sections.len();
        let mut out = String::new();
        let mut i: usize = 0;
        proof {
            assert(out@ =~= md_sections_upto(sections@, 0));
        }
        while i < n
            invariant
                n == sections@.len(),
                i <= n,
                out@ == md_sections_upto(sections@, i as int),
            decreases n - i,
        {
            let md = convert_section_to_markdown(&sections[i]);
            out.append(md.as_str());
            out.append("\n");
            match &sections[i].section_type {
                SectionType::Heading(_) => {
                    out.append("\n");
                },
                SectionType::Table => {
                    out.append("\n");
                },
                _ => {
                    proof {
                        assert(out@ =~= md_sections_upto(sections@, i as int) + md_section(
                            sections@[i as int],
                        ) + "\n"@ + Seq::<char>::empty());
                    }
                },
            }
            i = i + 1;
        }
        out
    }

    /// Renders the whole document: optional front matter, then the
    /// structured sections or the raw text line by line.
    pub fn write_doc_data(&self, data: &DocData) -> (r: String)
        ensures
            r@ == md_doc(*self, *data),
    {
        let mut out = String::new();
        if self.include_metadata {
            let fm = write_metadata_as_frontmatter(&data.metadata);
            out.append(fm.as_str());
            out.append("\n");
        }
        let ghost head = out@;
        if self.preserve_structure {
            let body = self.write_sections(&data.sections);
            out.append(body.as_str());
        } else {
            let v = chars_vec(data.raw_text.as_str());
            let ls = lines_vec(&v);
            let ghost lviews = ls@.map_values(|w: Vec<char>| w@);
            let n = ls.len();
            let mut i: usize = 0;
            while i < n
                invariant
                    lviews == ls@.map_values(|w: Vec<char>| w@),
                    lviews == lines_of(data.raw_text@),
                    n == ls@.len(),
                    i <= n,
                    out@ == head + md_raw_upto(lviews, i as int),
                decreases n - i,
            {
                let line = &ls[i];
                let t = trim_chars(line);
                proof {
                    assert(lviews[i as int] == ls@[i as int]@);
                }
                if t.len() > 0 {
                    out.append(string_of(line).as_str());
                    out.append("\n\n");
                }
                i = i + 1;
            }
        }
        proof {
            if self.include_metadata {
                assert(out@ =~= md_doc(*self, *data));
            } else {
                assert(head =~= Seq::<char>::empty());
                assert(out@ =~= md_doc(*self, *data));
            }
        }
        out
    }
}

/// Decimal rendering of a wide counter.
fn u128_to_string(n: u128) -> (s: String)
    ensures
        s@ == dec_str(n as nat),
{
    let mut digits: Vec<char> = Vec::new();
    let mut m: u128 = n;
    loop
        invariant_except_break
            digits@.len() == 0 ==> m == n,
            digits@.len() > 0 ==> m > 0 && dec_str(n as nat) == dec_str(m as nat) + digits@,
        ensures
            dec_str(n as nat) == digits@,
        decreases m,
    {
        let ghost m0 = m as nat;
        let ghost d0 = digits@;
        let d = m % 10;
        let c: char = if d == 0 { '0' } else if d == 1 { '1' } else if d == 2 { '2' }
            else if d == 3 { '3' } else if d == 4 { '4' } else if d == 5 { '5' }
            else if d == 6 { '6' } else if d == 7 { '7' } else if d == 8 { '8' }
            else { '9' };
        digits.insert(0, c);
        m = m / 10;
        proof {
            let dd = seq![crate::chars::digit_char((m0 % 10) as int)];
            assert(digits@ =~= dd + d0);
            if m0 < 10 {
                assert(dec_str(m0) == dd);
                if d0.len() == 0 {
                    assert(dec_str(n as nat) =~= dd + d0);
                } else {
                    assert(dec_str(n as nat) == dec_str(m0) + d0);
                }
            } else {
                assert(dec_str(m0) == dec_str(m0 / 10) + dd);
                if d0.len() == 0 {
                    assert(dec_str(n as nat) == dec_str(m0));
                    assert(dec_str(m0 / 10) + (dd + d0) =~= dec_str(m0 / 10) + dd);
                } else {
                    assert((dec_str(m0 / 10) + dd) + d0 =~= dec_str(m0 / 10) + (dd + d0));
                }
            }
        }
        if m == 0 {
            break;
        }
    }
    string_of(&digits)
}

/// A counter right-aligned in four columns, as the text renderer numbers
/// lines.
pub open spec fn pad4(n: int) -> Seq<char> {
    let d = dec_str(n as nat);
    if d.len() >= 4 {
        d
    } else {
        char_repeat(' ', (4 - d.len()) as nat) + d
    }
}

/// Appends the counter padded to four columns.
fn push_pad4(out: &mut String, n: u128)
    ensures
        final(out)@ == old(out)@ + pad4(n as int),
{
    let ds = u128_to_string(n);
    let dl = ds.as_str().unicode_len();
    if dl >= 4 {
        out.append(ds.as_str());
    } else {
        let sp = repeat_char(' ', 4 - dl);
        let ghost base = out@;
        out.append(sp.as_str());
        out.append(ds.as_str());
        proof {
            assert(out@ =~= base + pad4(n as int));
        }
    }
}

/// The plain-text form of one section, with its kind's marker.
pub open spec fn txt_section(s: DocSection) -> Seq<char> {
    match s.section_type {
        SectionType::Heading(level) => char_repeat('#', level as nat) + " "@ + s.content@,
        SectionType::List => "\u{2022} "@ + s.content@,
        SectionType::Table => "["@ + "\u{8868}\u{683c}"@ + "] "@ + s.content@,
        SectionType::Image => "["@ + "\u{56fe}\u{7247}"@ + "] "@ + s.content@,
        SectionType::Hyperlink => "["@ + "\u{94fe}\u{63a5}"@ + "] "@ + s.content@,
        SectionType::Header => "["@ + "\u{9875}\u{7709}"@ + "] "@ + s.content@,
        SectionType::Footer => "["@ + "\u{9875}\u{811a}"@ + "] "@ + s.content@,
        SectionType::Paragraph => s.content@,
    }
}

/// Renders one section as marked plain text.
pub fn format_section_content(section: &DocSection) -> (r: String)
    ensures
        r@ == txt_section(*section),
{
    match &section.section_type {
        SectionType::Heading(level) => {
            let lv: u8 = *level;
            let mut out = repeat_char('#', lv as usize);
            out.append(" ");
            out.append(section.content.as_str());
            out
        },
        SectionType::List => {
            let mut out = String::from_str("\u{2022} ");
            out.append(section.content.as_str());
            out
        },
        SectionType::Table => {
            let mut out = String::from_str("[");
            out.append("\u{8868}\u{683c}");
            out.append("] ");
            out.append(section.content.as_str());
            out
        },
        SectionType::Image => {
            let mut out = String::from_str("[");
            out.append("\u{56fe}\u{7247}");
            out.append("] ");
            out.append(section.content.as_str());
            out
        },
        SectionType::Hyperlink => {
            let mut out = String::from_str("[");
            out.append("\u{94fe}\u{63a5}");
            out.append("] ");
            out.append(section.content.as_str());
            out
        },
        SectionType::Header => {
            let mut out = String::from_str("[");
            out.append("\u{9875}\u{7709}");
            out.append("] ");
            out.append(section.content.as_str());
            out
        },
        SectionType::Footer => {
            let mut out = String::from_str("[");
            out.append("\u{9875}\u{811a}");
            out.append("] ");
            out.append(section.content.as_str());
            out
        },
        SectionType::Paragraph => section.content.clone(),
    }
}

/// The numbered lines of a text, starting at line `start`.
pub open spec fn numbered_upto(ls: Seq<Seq<char>>, k: int, start: int) -> Seq<char>
    decreases k,
{
    if k <= 0 {
        Seq::empty()
    } else {
        numbered_upto(ls, k - 1, start) + pad4(start + k - 1) + ": "@ + ls[k - 1] + "\n"@
    }
}

/// The plain-text renderer.
pub struct TextOutput {
    pub preserve_formatting: bool,
    pub include_metadata: bool,
    pub line_numbers: bool,
}

/// The text of the first `k` sections, with the running line counter; the
/// counter advances only when lines are numbered.
pub open spec fn txt_sections_upto(o: TextOutput, sections: Seq<DocSection>, k: int) -> (
    Seq<char>,
    int,
)
    decreases k,
{
    if k <= 0 {
        (Seq::empty(), 1)
    } else {
        let (prev, ln) = txt_sections_upto(o, sections, k - 1);
        let fc = if o.preserve_formatting {
            txt_section(sections[k - 1])
        } else {
            sections[k - 1].content@
        };
        if o.line_numbers {
            let ls = lines_of(fc);
            (prev + numbered_upto(ls, ls.len() as int, ln), ln + ls.len())
        } else {
            (prev + fc + "\n"@, ln)
        }
    }
}

/// The metadata header of the plain-text form.
pub open spec fn txt_metadata(m: DocMetadata) -> Seq<char> {
    "=== "@ + "\u{6587}\u{6863}\u{5143}\u{6570}\u{636e}"@ + " ===\n"@ + (match m.title {
        Some(t) => "\u{6807}\u{9898}: "@ + t@ + "\n"@,
        None => Seq::empty(),
    }) + (match m.author {
        Some(t) => "\u{4f5c}\u{8005}: "@ + t@ + "\n"@,
        None => Seq::empty(),
    }) + (match m.subject {
        Some(t) => "\u{4e3b}\u{9898}: "@ + t@ + "\n"@,
        None => Seq::empty(),
    }) + (match m.created {
        Some(t) => "\u{521b}\u{5efa}\u{65f6}\u{95f4}: "@ + t@ + "\n"@,
        None => Seq::empty(),
    }) + (match m.modified {
        Some(t) => "\u{4fee}\u{6539}\u{65f6}\u{95f4}: "@ + t@ + "\n"@,
        None => Seq::empty(),
    }) + "\u{6bb5}\u{843d}\u{6570}: "@ + dec_str(m.paragraph_count as nat) + "\n"@
        + "\u{5b57}\u{6570}: "@ + dec_str(m.word_count as nat) + "\n"@
        + "\u{5b57}\u{7b26}\u{6570}: "@ + dec_str(m.character_count as nat) + "\n"@ + (
    match m.page_count {
        Some(p) => "\u{9875}\u{6570}: "@ + dec_str(p as nat) + "\n"@,
        None => Seq::empty(),
    }) + "\n=== "@ + "\u{6587}\u{6863}\u{5185}\u{5bb9}"@ + " ===\n"@
}

/// Writes the metadata header of the plain-text form.
#[verifier::rlimit(100)]
#[verifier::spinoff_prover]
fn write_metadata(m: &DocMetadata) -> (r: String)
    ensures
        r@ == txt_metadata(*m),
{
    let mut out = String::from_str("=== ");
    out.append("\u{6587}\u{6863}\u{5143}\u{6570}\u{636e}");
    out.append(" ===\n");
    let ghost base = out@;
    let ghost t1 = match &m.title {
        Some(t) => "\u{6807}\u{9898}: "@ + t@ + "\n"@,
        None => Seq::<char>::empty(),
    };
    let ghost t2 = match &m.author {
        Some(t) => "\u{4f5c}\u{8005}: "@ + t@ + "\n"@,
        None => Seq::<char>::empty(),
    };
    let ghost t3 = match &m.subject {
        Some(t) => "\u{4e3b}\u{9898}: "@ + t@ + "\n"@,
        None => Seq::<char>::empty(),
    };
    let ghost t4 = match &m.created {
        Some(t) => "\u{521b}\u{5efa}\u{65f6}\u{95f4}: "@ + t@ + "\n"@,
        None => Seq::<char>::empty(),
    };
    let ghost t5 = match &m.modified {
        Some(t) => "\u{4fee}\u{6539}\u{65f6}\u{95f4}: "@ + t@ + "\n"@,
        None => Seq::<char>::empty(),
    };
    match &m.title {
        Some(t) => {
            let mut line = String::from_str("\u{6807}\u{9898}: ");
            line.append(t.as_str());
            line.append("\n");
            out.append(line.as_str());
        },
        None => {},
    }
    proof {
        assert(out@ =~= base + t1);
    }
    match &m.author {
        Some(t) => {
            let mut line = String::from_str("\u{4f5c}\u{8005}: ");
            line.append(t.as_str());
            line.append("\n");
            out.append(line.as_str());
        },
        None => {},
    }
    proof {
        assert(out@ =~= (base + t1) + t2);
    }
    match &m.subject {
        Some(t) => {
            let mut line = String::from_str("\u{4e3b}\u{9898}: ");
            line.append(t.as_str());
            line.append("\n");
            out.append(line.as_str());
        },
        None => {},
    }
    proof {
        assert(out@ =~= ((base + t1) + t2) + t3);
    }
    match &m.created {
        Some(t) => {
            let mut line = String::from_str("\u{521b}\u{5efa}\u{65f6}\u{95f4}: ");
            line.append(t.as_str());
            line.append("\n");
            out.append(line.as_str());
        },
        None => {},
    }
    proof {
        assert(out@ =~= (((base + t1) + t2) + t3) + t4);
    }
    match &m.modified {
        Some(t) => {
            let mut line = String::from_str("\u{4fee}\u{6539}\u{65f6}\u{95f4}: ");
            line.append(t.as_str());
            line.append("\n");
            out.append(line.as_str());
        },
        None => {},
    }
    proof {
        assert(out@ =~= ((((base + t1) + t2) + t3) + t4) + t5);
    }
    let ghost five = out@;
    let mut c1 = String::from_str("\u{6bb5}\u{843d}\u{6570}: ");
    let d1 = usize_to_string(m.paragraph_count);
    c1.append(d1.as_str());
    c1.append("\n");
    out.append(c1.as_str());
    let mut c2 = String::from_str("\u{5b57}\u{6570}: ");
    let d2 = usize_to_string(m.word_count);
    c2.append(d2.as_str());
    c2.append("\n");
    out.append(c2.as_str());
    let mut c3 = String::from_str("\u{5b57}\u{7b26}\u{6570}: ");
    let d3 = usize_to_string(m.character_count);
    c3.append(d3.as_str());
    c3.append("\n");
    out.append(c3.as_str());
    proof {
        assert(out@ =~= ((five + ("\u{6bb5}\u{843d}\u{6570}: "@ + dec_str(
            m.paragraph_count as nat,
        ) + "\n"@)) + ("\u{5b57}\u{6570}: "@ + dec_str(m.word_count as nat) + "\n"@)) + (
        "\u{5b57}\u{7b26}\u{6570}: "@ + dec_str(m.character_count as nat) + "\n"@));
    }
    match m.page_count {
        Some(p) => {
            let mut line = String::from_str("\u{9875}\u{6570}: ");
            let dp = usize_to_string(p);
            line.append(dp.as_str());
            line.append("\n");
            out.append(line.as_str());
        },
        None => {},
    }
    let mut tail = String::from_str("\n=== ");
    tail.append("\u{6587}\u{6863}\u{5185}\u{5bb9}");
    tail.append(" ===\n");
    out.append(tail.as_str());
    proof {
        assert(out@ =~= txt_metadata(*m));
    }
    out
}

/// The whole plain-text document.
pub open spec fn txt_doc(o: TextOutput, d: DocData) -> Seq<char> {
    (if o.include_metadata {
        txt_metadata(d.metadata) + "\n"@
    } else {
        Seq::empty()
    }) + (if o.preserve_formatting {
        txt_sections_upto(o, d.sections@, d.sections@.len() as int).0
    } else if o.line_numbers {
        numbered_upto(lines_of(d.raw_text@), lines_of(d.raw_text@).len() as int, 1)
    } else {
        d.raw_text@ + "\n"@
    })
}

impl TextOutput {
    /// A text renderer with the given options.
    pub fn new(preserve_formatting: bool, include_metadata: bool, line_numbers: bool) -> (o:
        TextOutput)
        ensures
            o.preserve_formatting == preserve_formatting,
            o.include_metadata == include_metadata,
            o.line_numbers == line_numbers,
    {
        TextOutput { preserve_formatting, include_metadata, line_numbers }
    }

    /// Renders the sections as plain text, numbering lines when configured.
    /// The section count is capped so that the line counter cannot wrap.
    pub fn write_sections(&self, sections: &Vec<DocSection>) -> (r: String)
        requires
            sections@.len() <= 0x8000000000000000,
        ensures
            r@ == txt_sections_upto(*self, sections@, sections@.len() as int).0,
    {
        let n = sections.len();
        let mut out = String::new();
        let mut ln: u128 = 1;
        let mut i: usize = 0;
        proof {
            assert(out@ =~= txt_sections_upto(*self, sections@, 0).0);
        }
        while i < n
            invariant
                n == sections@.len(),
                i <= n,
                out@ == txt_sections_upto(*self, sections@, i as int).0,
                ln as int == txt_sections_upto(*self, sections@, i as int).1,
                ln as int <= 1 + (i as int) * 0x10000000000000000,
            decreases n - i,
        {
            let fc = if self.preserve_formatting {
                format_section_content(&sections[i])
            } else {
                sections[i].content.clone()
            };
            proof {
                assert(fc@ == if self.preserve_formatting {
                    txt_section(sections@[i as int])
                } else {
                    sections@[i as int].content@
                });
            }
            if self.line_numbers {
                let v = chars_vec(fc.as_str());
                let vl = v.len();
                let ls = lines_vec(&v);
                let ghost lviews = ls@.map_values(|w: Vec<char>| w@);
                proof {
                    lemma_lines_count(fc@);
                    assert(fc@.len() == vl);
                    assert(lviews.len() <= fc@.len() + 1);
                    assert(fc@.len() + 1 <= 0x10000000000000000);
                }
                let m = ls.len();
                let ghost ln0 = ln as int;
                let ghost base = out@;
                let mut q: usize = 0;
                while q < m
                    invariant
                        lviews == ls@.map_values(|w: Vec<char>| w@),
                        m == ls@.len(),
                        q <= m,
                        ln as int == ln0 + q,
                        ln0 + m <= 0xffffffffffffffffffffffffffffffff,
                        out@ == base + numbered_upto(lviews, q as int, ln0),
                    decreases m - q,
                {
                    proof {
                        assert(lviews[q as int] == ls@[q as int]@);
                    }
                    push_pad4(&mut out, ln);
                    out.append(": ");
                    out.append(string_of(&ls[q]).as_str());
                    out.append("\n");
                    ln = ln + 1;
                    q = q + 1;
                    proof {
                        assert(out@ =~= base + numbered_upto(lviews, q as int, ln0));
                    }
                }
            } else {
                out.append(fc.as_str());
                out.append("\n");
            }
            i = i + 1;
        }
        out
    }

    /// Renders the whole document as plain text.
    /// The section count is capped so that the line counter cannot wrap.
    pub fn write_doc_data(&self, data: &DocData) -> (r: String)
        requires
            data.sections@.len() <= 0x8000000000000000,
        ensures
            r@ == txt_doc(*self, *data),
    {
        let mut out = String::new();
        if self.include_metadata {
            let md = write_metadata(&data.metadata);
            out.append(md.as_str());
            out.append("\n");
        }
        let ghost head = out@;
        if self.preserve_formatting {
            let body = self.write_sections(&data.sections);
            out.append(body.as_str());
        } else if self.line_numbers {
            let v = chars_vec(data.raw_text.as_str());
            let vl = v.len();
            let ls = lines_vec(&v);
            let ghost lviews = ls@.map_values(|w: Vec<char>| w@);
            proof {
                lemma_lines_count(data.raw_text@);
                assert(data.raw_text@.len() == vl);
            }
            let m = ls.len();
            let mut ln: u128 = 1;
            let mut q: usize = 0;
            while q < m
                invariant
                    lviews == ls@.map_values(|w: Vec<char>| w@),
                    m == ls@.len(),
                    q <= m,
                    ln as int == 1 + q,
                    m <= 0x10000000000000000,
                    out@ == head + numbered_upto(lviews, q as int, 1),
                decreases m - q,
            {
                proof {
                    assert(lviews[q as int] == ls@[q as int]@);
                }
                push_pad4(&mut out, ln);
                out.append(": ");
                out.append(string_of(&ls[q]).as_str());
                out.append("\n");
                ln = ln + 1;
                q = q + 1;
                proof {
                    assert(out@ =~= head + numbered_upto(lviews, q as int, 1));
                }
            }
        } else {
            out.append(data.raw_text.as_str());
            out.append("\n");
        }
        proof {
            if self.include_metadata {
                assert(out@ =~= txt_doc(*self, *data));
            } else {
                assert(head =~= Seq::<char>::empty());
                assert(out@ =~= txt_doc(*self, *data));
            }
        }
        out
    }
}

/// A text has at most one line more than it has characters.
proof fn lemma_lines_count(s: Seq<char>)
    ensures
        lines_of(s).len() <= s.len() + 1,
{
    if s.len() > 0 {
        lemma_split_count(s, '\n', 0);
    }
}

/// Splitting cannot yield more parts than characters plus one.
proof fn lemma_split_count(s: Seq<char>, sep: char, i: int)
    requires
        0 <= i <= s.len(),
    ensures
        split_from_char(s, sep, i).len() <= s.len() - i + 1,
    decreases s.len() - i,
{
    crate::chars::lemma_crun_props(s, sep, i);
    let k = crun(s, sep, i);
    if !(i + k >= s.len()) {
        lemma_split_count(s, sep, i + k + 1);
    }
}

/// The JSON form of a section kind tag.
pub open spec fn json_sectype(t: SectionType) -> Seq<char> {
    match t {
        SectionType::Paragraph => "{\"type\":\"paragraph\"}"@,
        SectionType::Heading(level) => "{\"type\":\"heading\",\"level\":"@ + dec_str(
            level as nat,
        ) + "}"@,
        SectionType::Table => "{\"type\":\"table\"}"@,
        SectionType::List => "{\"type\":\"list\"}"@,
        SectionType::Image => "{\"type\":\"image\"}"@,
        SectionType::Footer => "{\"type\":\"footer\"}"@,
        SectionType::Header => "{\"type\":\"header\"}"@,
        SectionType::Hyperlink => "{\"type\":\"hyperlink\"}"@,
    }
}

/// The optional font-size member.
pub open spec fn json_fs_part(o: Option<u32>) -> Seq<char> {
    match o {
        Some(n) => ",\"font_size\":"@ + dec_str(n as nat),
        None => Seq::empty(),
    }
}

/// The optional font-family member.
pub open spec fn json_ff_part(o: Option<String>) -> Seq<char> {
    match o {
        Some(t) => ",\"font_family\":"@ + json_str(t@),
        None => Seq::empty(),
    }
}

/// The JSON form of a formatting record.
pub open spec fn json_fmt(f: FormatInfo) -> Seq<char> {
    "{\"bold\":"@ + json_bool(f.bold) + ",\"italic\":"@ + json_bool(f.italic)
        + ",\"underline\":"@ + json_bool(f.underline) + json_fs_part(f.font_size) + json_ff_part(
        f.font_family,
    ) + "}"@
}

pub open spec fn json_bool(b: bool) -> Seq<char> {
    if b {
        "true"@
    } else {
        "false"@
    }
}

/// The JSON form of one section.
pub open spec fn json_section(s: DocSection, include_formatting: bool) -> Seq<char> {
    "{\"section_type\":"@ + json_sectype(s.section_type) + ",\"content\":"@ + json_str(s.content@)
        + ",\"level\":"@ + (match s.level {
        Some(l) => dec_str(l as nat),
        None => "null"@,
    }) + (if include_formatting {
        match s.formatting {
            Some(f) => ",\"formatting\":"@ + json_fmt(f),
            None => Seq::empty(),
        }
    } else {
        Seq::empty()
    }) + "}"@
}

/// The first `k` sections as JSON, joined by the separator.
pub open spec fn json_sections_upto(
    sections: Seq<DocSection>,
    include_formatting: bool,
    sep: Seq<char>,
    k: int,
) -> Seq<char>
    decreases k,
{
    if k <= 0 {
        Seq::empty()
    } else if k == 1 {
        json_section(sections[0], include_formatting)
    } else {
        json_sections_upto(sections, include_formatting, sep, k - 1) + sep + json_section(
            sections[k - 1],
            include_formatting,
        )
    }
}

/// The sections array: compact on one line, or one element per indented
/// line.
pub open spec fn json_sections_arr(
    sections: Seq<DocSection>,
    include_formatting: bool,
    pretty: bool,
) -> Seq<char> {
    if sections.len() == 0 {
        "[]"@
    } else if pretty {
        "[\n  "@ + json_sections_upto(sections, include_formatting, ",\n  "@, sections.len() as int)
            + "\n]"@
    } else {
        "["@ + json_sections_upto(sections, include_formatting, ","@, sections.len() as int)
            + "]"@
    }
}

/// The JSON form of the metadata.
pub open spec fn json_metadata(m: DocMetadata) -> Seq<char> {
    "{\"title\":"@ + json_opt_str(m.title) + ",\"author\":"@ + json_opt_str(m.author)
        + ",\"subject\":"@ + json_opt_str(m.subject) + ",\"created\":"@ + json_opt_str(m.created)
        + ",\"modified\":"@ + json_opt_str(m.modified) + ",\"word_count\":"@ + dec_str(
        m.word_count as nat,
    ) + ",\"paragraph_count\":"@ + dec_str(m.paragraph_count as nat) + ",\"page_count\":"@ + (
    match m.page_count {
        Some(p) => dec_str(p as nat),
        None => "null"@,
    }) + ",\"character_count\":"@ + dec_str(m.character_count as nat) + "}"@
}

pub open spec fn json_opt_str(o: Option<String>) -> Seq<char> {
    match o {
        Some(t) => json_str(t@),
        None => "null"@,
    }
}

/// The whole document as JSON: content, raw text, metadata and sections.
pub open spec fn json_doc(d: DocData, include_formatting: bool, pretty: bool) -> Seq<char> {
    if pretty {
        "{\n  \"content\": "@ + json_str(d.content@) + ",\n  \"raw_text\": "@ + json_str(
            d.raw_text@,
        ) + ",\n  \"metadata\": "@ + json_metadata(d.metadata) + ",\n  \"sections\": "@
            + json_sections_arr(d.sections@, include_formatting, false) + "\n}"@
    } else {
        "{\"content\":"@ + json_str(d.content@) + ",\"raw_text\":"@ + json_str(d.raw_text@)
            + ",\"metadata\":"@ + json_metadata(d.metadata) + ",\"sections\":"@
            + json_sections_arr(d.sections@, include_formatting, false) + "}"@
    }
}

/// One section's JSON.
fn json_section_string(s: &DocSection, include_formatting: bool) -> (r: String)
    ensures
        r@ == json_section(*s, include_formatting),
{
    let mut out = String::from_str("{\"section_type\":");
    match &s.section_type {
        SectionType::Paragraph => out.append("{\"type\":\"paragraph\"}"),
        SectionType::Heading(level) => {
            let lv: u8 = *level;
            out.append("{\"type\":\"heading\",\"level\":");
            push_usize(&mut out, lv as usize);
            out.append("}");
        },
        SectionType::Table => out.append("{\"type\":\"table\"}"),
        SectionType::List => out.append("{\"type\":\"list\"}"),
        SectionType::Image => out.append("{\"type\":\"image\"}"),
        SectionType::Footer => out.append("{\"type\":\"footer\"}"),
        SectionType::Header => out.append("{\"type\":\"header\"}"),
        SectionType::Hyperlink => out.append("{\"type\":\"hyperlink\"}"),
    }
    out.append(",\"content\":");
    let cj = crate::render::json_string_of(s.content.as_str());
    out.append(cj.as_str());
    out.append(",\"level\":");
    match s.level {
        Some(l) => {
            push_usize(&mut out, l as usize);
        },
        None => {
            out.append("null");
        },
    }
    let fseg: String = if include_formatting {
        match &s.formatting {
            Some(f) => {
                let mut seg = String::from_str(",\"formatting\":");
                let fj = json_fmt_string(f);
                seg.append(fj.as_str());
                seg
            },
            None => String::new(),
        }
    } else {
        String::new()
    };
    out.append(fseg.as_str());
    out.append("}");
    proof {
        let ghost fpart: Seq<char> = if include_formatting {
            match &s.formatting {
                Some(f) => ",\"formatting\":"@ + json_fmt(*f),
                None => Seq::<char>::empty(),
            }
        } else {
            Seq::<char>::empty()
        };
        assert(fseg@ == fpart) by {
            if include_formatting {
                match &s.formatting {
                    Some(f) => {},
                    None => {
                        assert(fseg@ =~= Seq::<char>::empty());
                    },
                }
            } else {
                assert(fseg@ =~= Seq::<char>::empty());
            }
        }
        assert(out@ =~= json_section(*s, include_formatting));
    }
    out
}

/// Appends one section's JSON.
fn push_json_section(out: &mut String, s: &DocSection, include_formatting: bool)
    ensures
        final(out)@ == old(out)@ + json_section(*s, include_formatting),
{
    let j = json_section_string(s, include_formatting);
    out.append(j.as_str());
}

/// One formatting record's JSON.
fn json_fmt_string(f: &FormatInfo) -> (r: String)
    ensures
        r@ == json_fmt(*f),
{
    let mut out = String::from_str("{\"bold\":");
    if f.bold {
        out.append("true");
    } else {
        out.append("false");
    }
    out.append(",\"italic\":");
    if f.italic {
        out.append("true");
    } else {
        out.append("false");
    }
    out.append(",\"underline\":");
    if f.underline {
        out.append("true");
    } else {
        out.append("false");
    }
    let fs_seg: String = match f.font_size {
        Some(n) => {
            let mut seg = String::from_str(",\"font_size\":");
            let d = usize_to_string(n as usize);
            seg.append(d.as_str());
            seg
        },
        None => String::new(),
    };
    out.append(fs_seg.as_str());
    let ff_seg: String = match &f.font_family {
        Some(t) => {
            let mut seg = String::from_str(",\"font_family\":");
            let body = crate::render::json_string_of(t.as_str());
            seg.append(body.as_str());
            seg
        },
        None => String::new(),
    };
    out.append(ff_seg.as_str());
    out.append("}");
    proof {
        assert(fs_seg@ == json_fs_part(f.font_size)) by {
            match f.font_size {
                Some(n) => {},
                None => {
                    assert(fs_seg@ =~= Seq::<char>::empty());
                },
            }
        }
        assert(ff_seg@ == json_ff_part(f.font_family)) by {
            match &f.font_family {
                Some(t) => {},
                None => {
                    assert(ff_seg@ =~= Seq::<char>::empty());
                },
            }
        }
    }
    out
}

/// An optional string as JSON.
fn opt_str_string(o: &Option<String>) -> (r: String)
    ensures
        r@ == json_opt_str(*o),
{
    match o {
        Some(t) => crate::render::json_string_of(t.as_str()),
        None => String::from_str("null"),
    }
}

/// The JSON renderer.
pub struct JsonOutput {
    pub pretty: bool,
    pub include_formatting: bool,
}

impl JsonOutput {
    /// A JSON renderer with the given options.
    pub fn new(pretty: bool, include_formatting: bool) -> (o: JsonOutput)
        ensures
            o.pretty == pretty,
            o.include_formatting == include_formatting,
    {
        JsonOutput { pretty, include_formatting }
    }

    /// Renders the sections as a JSON array, one line each when pretty.
    pub fn write_sections(&self, sections: &Vec<DocSection>) -> (r: String)
        ensures
            r@ == json_sections_arr(sections@, self.include_formatting, self.pretty) + "\n"@,
    {
        let n = sections.len();
        let mut out = String::new();
        if n == 0 {
            out.append("[]");
            out.append("\n");
            proof {
                assert(out@ =~= json_sections_arr(sections@, self.include_formatting, self.pretty)
                    + "\n"@);
            }
            return out;
        }
        if self.pretty {
            out.append("[\n  ");
        } else {
            out.append("[");
        }
        let ghost head = out@;
        let ghost sep: Seq<char> = if self.pretty {
            ",\n  "@
        } else {
            ","@
        };
        let mut i: usize = 0;
        while i < n
            invariant
                n == sections@.len(),
                n > 0,
                i <= n,
                sep == if self.pretty { ",\n  "@ } else { ","@ },
                out@ == head + json_sections_upto(
                    sections@,
                    self.include_formatting,
                    sep,
                    i as int,
                ),
            decreases n - i,
        {
            if i > 0 {
                if self.pretty {
                    out.append(",\n  ");
                } else {
                    out.append(",");
                }
            }
            push_json_section(&mut out, &sections[i], self.include_formatting);
            proof {
                assert(out@ =~= head + json_sections_upto(
                    sections@,
                    self.include_formatting,
                    sep,
                    i + 1,
                ));
            }
            i = i + 1;
        }
        if self.pretty {
            out.append("\n]");
        } else {
            out.append("]");
        }
        out.append("\n");
        proof {
            assert(out@ =~= json_sections_arr(sections@, self.include_formatting, self.pretty)
                + "\n"@);
        }
        out
    }

    /// Renders the whole document as one JSON object.
    pub fn write_doc_data(&self, data: &DocData) -> (r: String)
        ensures
            r@ == json_doc(*data, self.include_formatting, self.pretty) + "\n"@,
    {
        let mut out = String::new();
        if self.pretty {
            out.append("{\n  \"content\": ");
        } else {
            out.append("{\"content\":");
        }
        push_json_str(&mut out, data.content.as_str());
        if self.pretty {
            out.append(",\n  \"raw_text\": ");
        } else {
            out.append(",\"raw_text\":");
        }
        push_json_str(&mut out, data.raw_text.as_str());
        if self.pretty {
            out.append(",\n  \"metadata\": ");
        } else {
            out.append(",\"metadata\":");
        }
        self.push_metadata(&mut out, &data.metadata);
        if self.pretty {
            out.append(",\n  \"sections\": ");
        } else {
            out.append(",\"sections\":");
        }
        let ghost mid = out@;
        let n = data.sections.len();
        if n == 0 {
            out.append("[]");
        } else {
            out.append("[");
            let mut i: usize = 0;
            while i < n
                invariant
                    n == data.sections@.len(),
                    n > 0,
                    i <= n,
                    out@ == mid + "["@ + json_sections_upto(
                        data.sections@,
                        self.include_formatting,
                        ","@,
                        i as int,
                    ),
                decreases n - i,
            {
                if i > 0 {
                    out.append(",");
                }
                push_json_section(&mut out, &data.sections[i], self.include_formatting);
                proof {
                    assert(out@ =~= mid + "["@ + json_sections_upto(
                        data.sections@,
                        self.include_formatting,
                        ","@,
                        i + 1,
                    ));
                }
                i = i + 1;
            }
            out.append("]");
        }
        proof {
            assert(out@ =~= mid + json_sections_arr(
                data.sections@,
                self.include_formatting,
                false,
            ));
        }
        if self.pretty {
            out.append("\n}");
        } else {
            out.append("}");
        }
        out.append("\n");
        proof {
            assert(out@ =~= json_doc(*data, self.include_formatting, self.pretty) + "\n"@);
        }
        out
    }

    /// Appends the metadata object.
    fn push_metadata(&self, out: &mut String, m: &DocMetadata)
        ensures
            final(out)@ == old(out)@ + json_metadata(*m),
    {
        let mut b = String::from_str("{\"title\":");
        let s1 = opt_str_string(&m.title);
        b.append(s1.as_str());
        b.append(",\"author\":");
        let s2 = opt_str_string(&m.author);
        b.append(s2.as_str());
        b.append(",\"subject\":");
        let s3 = opt_str_string(&m.subject);
        b.append(s3.as_str());
        b.append(",\"created\":");
        let s4 = opt_str_string(&m.created);
        b.append(s4.as_str());
        b.append(",\"modified\":");
        let s5 = opt_str_string(&m.modified);
        b.append(s5.as_str());
        b.append(",\"word_count\":");
        push_usize(&mut b, m.word_count);
        b.append(",\"paragraph_count\":");
        push_usize(&mut b, m.paragraph_count);
        b.append(",\"page_count\":");
        match m.page_count {
            Some(p) => {
                push_usize(&mut b, p);
            },
            None => {
                b.append("null");
            },
        }
        b.append(",\"character_count\":");
        push_usize(&mut b, m.character_count);
        b.append("}");
        proof {
            assert(b@ =~= json_metadata(*m));
        }
        out.append(b.as_str());
    }
}

/// Dispatches a document to the renderer the format names.
pub struct OutputProcessor;

impl OutputProcessor {
    /// A processor.
    pub fn new() -> (p: OutputProcessor) {
        OutputProcessor
    }

    /// Renders a document in the named format.
    pub fn process(&self, data: &DocData, format: &OutputFormat) -> (r: String)
        requires
            data.sections@.len() <= 0x8000000000000000,
        ensures
            match *format {
                OutputFormat::Text { preserve_formatting, include_metadata, line_numbers } => r@
                    == txt_doc(
                    TextOutput { preserve_formatting, include_metadata, line_numbers },
                    *data,
                ),
                OutputFormat::Markdown { preserve_structure, include_metadata } => r@ == md_doc(
                    MarkdownOutput { preserve_structure, include_metadata },
                    *data,
                ),
                OutputFormat::Json { pretty, include_formatting } => r@ == json_doc(
                    *data,
                    include_formatting,
                    pretty,
                ) + "\n"@,
            },
    {
        match format {
            OutputFormat::Text { preserve_formatting, include_metadata, line_numbers } => {
                let o = TextOutput::new(*preserve_formatting, *include_metadata, *line_numbers);
                o.write_doc_data(data)
            },
            OutputFormat::Markdown { preserve_structure, include_metadata } => {
                let o = MarkdownOutput::new(*preserve_structure, *include_metadata);
                o.write_doc_data(data)
            },
            OutputFormat::Json { pretty, include_formatting } => {
                let o = JsonOutput::new(*pretty, *include_formatting);
                o.write_doc_data(data)
            },
        }
    }

    /// Renders bare sections in the named format; metadata options are
    /// ignored as there is no document around them.
    pub fn process_sections(&self, sections: &Vec<DocSection>, format: &OutputFormat) -> (r:
        String)
        requires
            sections@.len() <= 0x8000000000000000,
        ensures
            match *format {
                OutputFormat::Text { preserve_formatting, include_metadata, line_numbers } => r@
                    == txt_sections_upto(
                    TextOutput { preserve_formatting, include_metadata: false, line_numbers },
                    sections@,
                    sections@.len() as int,
                ).0,
                OutputFormat::Markdown { preserve_structure, include_metadata } => r@
                    == md_sections_upto(sections@, sections@.len() as int),
                OutputFormat::Json { pretty, include_formatting } => r@ == json_sections_arr(
                    sections@,
                    include_formatting,
                    pretty,
                ) + "\n"@,
            },
    {
        match format {
            OutputFormat::Text { preserve_formatting, include_metadata: _, line_numbers } => {
                let o = TextOutput::new(*preserve_formatting, false, *line_numbers);
                o.write_sections(sections)
            },
            OutputFormat::Markdown { preserve_structure, include_metadata: _ } => {
                let o = MarkdownOutput::new(*preserve_structure, false);
                o.write_sections(sections)
            },
            OutputFormat::Json { pretty, include_formatting } => {
                let o = JsonOutput::new(*pretty, *include_formatting);
                o.write_sections(sections)
            },
        }
    }
}

} // verus!
