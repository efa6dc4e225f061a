//! The word-processing document model: parsed content, metadata and
//! sections, together with the text-cleaning utilities and the heading
//! heuristic used while building it.

use vstd::prelude::*;
use vstd::string::*;
use crate::chars::{
    is_ws_char, trim_seq, lower_seq, split_ws_from, contains_seq, chars_vec, trim_chars,
    lower_chars, contains_chars, string_of, push_char, is_digit_char, scan_digits,
};
use crate::render::{joined, join_strings};

verus! {

/// A parsed document: its assembled content, metadata, structured sections,
/// and cleaned plain text.
#[derive(Debug, Clone)]
pub struct DocData {
    pub content: String,
    pub metadata: DocMetadata,
    pub sections: Vec<DocSection>,
    pub raw_text: String,
}

/// Document metadata: descriptive fields and the text statistics.
#[derive(Debug, Clone)]
pub struct DocMetadata {
    pub title: Option<String>,
    pub author: Option<String>,
    pub subject: Option<String>,
    pub created: Option<String>,
    pub modified: Option<String>,
    pub word_count: usize,
    pub paragraph_count: usize,
    pub page_count: Option<usize>,
    pub character_count: usize,
}

/// One structural piece of a document.
#[derive(Debug, Clone)]
pub struct DocSection {
    pub section_type: SectionType,
    pub content: String,
    pub level: Option<u8>,
    pub formatting: Option<FormatInfo>,
}

/// The kinds of document sections.
#[derive(Debug, Clone)]
pub enum SectionType {
    Paragraph,
    Heading(u8),
    Table,
    List,
    Image,
    Footer,
    Header,
    Hyperlink,
}

/// Character formatting carried by a section.
#[derive(Debug, Clone)]
pub struct FormatInfo {
    pub bold: bool,
    pub italic: bool,
    pub underline: bool,
    pub font_size: Option<u32>,
    pub font_family: Option<String>,
}

/// Plain-text access shared by parsed values.
pub trait TextExtractor {
    /// The plain text.
    fn extract_text(&self) -> String;

    /// The text with light markup applied.
    fn extract_formatted_text(&self) -> String;

    /// The number of whitespace-separated words.
    fn word_count(&self) -> usize;

    /// The number of characters.
    fn character_count(&self) -> usize;
}

impl TextExtractor for DocData {
    fn extract_text(&self) -> String {
        self.raw_text.clone()
    }

    fn extract_formatted_text(&self) -> String {
        self.content.clone()
    }

    fn word_count(&self) -> usize {
        self.metadata.word_count
    }

    fn character_count(&self) -> usize {
        self.metadata.character_count
    }
}

impl TextExtractor for DocSection {
    fn extract_text(&self) -> String {
        self.content.clone()
    }

    fn extract_formatted_text(&self) -> String {
        match &self.section_type {
            SectionType::Heading(level) => {
                let lv: u8 = *level;
                let mut out = crate::chars::repeat_char('#', lv as usize);
                out.append(" ");
                out.append(self.content.as_str());
                out
            },
            SectionType::List => {
                let mut out = String::from_str("- ");
                out.append(self.content.as_str());
                out
            },
            SectionType::Table => {
                let mut out = String::from_str("| ");
                out.append(self.content.as_str());
                out.append(" |");
                out
            },
            _ => self.content.clone(),
        }
    }

    fn word_count(&self) -> usize {
        let v = chars_vec(self.content.as_str());
        let words = crate::chars::split_ws(&v);
        words.len()
    }

    fn character_count(&self) -> usize {
        self.content.as_str().unicode_len()
    }
}

/// A control character, as `char::is_control` counts them: the C0 and C1
/// ranges and delete.
pub open spec fn is_control_char(c: char) -> bool {
    (c as u32) < 0x20 || (c as u32) == 0x7f || (0x80 <= (c as u32) && (c as u32) <= 0x9f)
}

/// The characters kept by control stripping: everything but control
/// characters, except newline and tab which stay.
pub open spec fn keeps_clean(c: char) -> bool {
    !is_control_char(c) || c == '\n' || c == '\t'
}

/// Line-break normalization from position `i` on: a `\r\n` pair and a lone
/// `\r` both become `\n`.
pub open spec fn norm_breaks_from(s: Seq<char>, i: int) -> Seq<char>
    decreases s.len() - i,
{
    if i < 0 || i >= s.len() {
        Seq::empty()
    } else if s[i] == '\r' && i + 1 < s.len() && s[i + 1] == '\n' {
        seq!['\n'] + norm_breaks_from(s, i + 2)
    } else if s[i] == '\r' {
        seq!['\n'] + norm_breaks_from(s, i + 1)
    } else {
        seq![s[i]] + norm_breaks_from(s, i + 1)
    }
}

/// Whitespace collapsing: the trimmed text's words joined by single spaces.
pub open spec fn collapsed_ws(s: Seq<char>) -> Seq<char> {
    joined(split_ws_from(trim_seq(s), 0), seq![' '])
}

/// The full cleaning pipeline on a text.
pub open spec fn cleaned_text(s: Seq<char>) -> Seq<char> {
    collapsed_ws(norm_breaks_from(s.filter(|c: char| keeps_clean(c)), 0))
}

/// Text-cleaning utilities.
pub struct TextCleaner;

impl TextCleaner {
    /// Collapses every whitespace run to one space and trims the ends.
    pub fn clean_whitespace(text: &str) -> (r: String)
        ensures
            r@ == collapsed_ws(text@),
    {
        let v = chars_vec(text);
        let t = trim_chars(&v);
        let words = crate::chars::split_ws(&t);
        let mut parts: Vec<String> = Vec::new();
        let mut i: usize = 0;
        while i < words.len()
            invariant
                i <= words@.len(),
                parts@.len() == i,
                forall|j: int| 0 <= j < i ==> (#[trigger] parts@[j])@ == words@[j]@,
            decreases words@.len() - i,
        {
            parts.push(string_of(&words[i]));
            i = i + 1;
        }
        let out = join_strings(&parts, " ");
        proof {
            reveal_strlit(" ");
            assert(" "@ =~= seq![' ']);
            assert(parts@.map_values(|s: String| s@) =~= words@.map_values(|w: Vec<char>| w@));
        }
        out
    }

    /// Drops control characters, keeping newlines and tabs.
    pub fn remove_control_chars(text: &str) -> (r: String)
        ensures
            r@ == text@.filter(|c: char| keeps_clean(c)),
    {
        let v = chars_vec(text);
        let mut out: Vec<char> = Vec::new();
        let mut i: usize = 0;
        proof {
            assert(v@.subrange(0, 0) =~= Seq::<char>::empty());
            assert(v@.subrange(0, 0).filter(|c: char| keeps_clean(c)) =~= Seq::<char>::empty());
        }
        while i < v.len()
            invariant
                v@ == text@,
                i <= v@.len(),
                out@ == v@.subrange(0, i as int).filter(|c: char| keeps_clean(c)),
            decreases v@.len() - i,
        {
            proof {
                reveal_with_fuel(Seq::filter, 2);
                assert(v@.subrange(0, i + 1).drop_last() =~= v@.subrange(0, i as int));
                assert(v@.subrange(0, i + 1).last() == v@[i as int]);
            }
            let c = v[i];
            let code = c as u32;
            let control = code < 0x20 || code == 0x7f || (0x80 <= code && code <= 0x9f);
            if !control || c == '\n' || c == '\t' {
                out.push(c);
            }
            i = i + 1;
        }
        proof {
            assert(v@.subrange(0, v@.len() as int) =~= v@);
        }
        string_of(&out)
    }

    /// Turns `\r\n` pairs and lone `\r` characters into `\n`.
    pub fn normalize_line_breaks(text: &str) -> (r: String)
        ensures
            r@ == norm_breaks_from(text@, 0),
    {
        let v = chars_vec(text);
        let n = v.len();
        let mut out = String::new();
        let mut i: usize = 0;
        proof {
            assert(out@ + norm_breaks_from(text@, 0) =~= norm_breaks_from(text@, 0));
        }
        while i < n
            invariant
                v@ == text@,
                n == v@.len(),
                i <= n,
                out@ + norm_breaks_from(text@, i as int) == norm_breaks_from(text@, 0),
            decreases n - i,
        {
            let ghost out0 = out@;
            if v[i] == '\r' && i + 1 < n && v[i + 1] == '\n' {
                push_char(&mut out, '\n');
                proof {
                    assert(out@ + norm_breaks_from(text@, i + 2) =~= out0 + (seq!['\n']
                        + norm_breaks_from(text@, i + 2)));
                }
                i = i + 2;
            } else if v[i] == '\r' {
                push_char(&mut out, '\n');
                proof {
                    assert(out@ + norm_breaks_from(text@, i + 1) =~= out0 + (seq!['\n']
                        + norm_breaks_from(text@, i + 1)));
                }
                i = i + 1;
            } else {
                push_char(&mut out, v[i]);
                proof {
                    assert(out@ + norm_breaks_from(text@, i + 1) =~= out0 + (seq![v@[i as int]]
                        + norm_breaks_from(text@, i + 1)));
                }
                i = i + 1;
            }
        }
        proof {
            assert(norm_breaks_from(text@, n as int) =~= Seq::<char>::empty());
            assert(out@ =~= out@ + norm_breaks_from(text@, n as int));
        }
        out
    }

    /// The whole cleaning pass: strip controls, normalize breaks, collapse
    /// whitespace.
    pub fn clean_text(text: &str) -> (r: String)
        ensures
            r@ == cleaned_text(text@),
    {
        let stripped = Self::remove_control_chars(text);
        let normalized = Self::normalize_line_breaks(stripped.as_str());
        Self::clean_whitespace(normalized.as_str())
    }
}

/// The heading heuristic's answer on a paragraph's text: known section
/// keywords give level 2; otherwise short text with a digit or very short
/// text is ranked by length; long text is no heading.
pub open spec fn heading_level_of(s: Seq<char>) -> Option<u8> {
    let l = lower_seq(s);
    let tl = trim_seq(s).len();
    if contains_seq(l, "chapter"@) || contains_seq(l, "section"@) {
        Some(2u8)
    } else if tl < 100 && ((exists|k: int| 0 <= k < s.len() && is_digit_char(s[k])) || tl < 50) {
        if tl < 20 {
            Some(1u8)
        } else if tl < 35 {
            Some(2u8)
        } else {
            Some(3u8)
        }
    } else {
        None
    }
}

/// Guesses a heading level for a paragraph, or `None` for body text.
pub fn detect_heading_level_simple(text: &str) -> (r: Option<u8>)
    ensures
        r == heading_level_of(text@),
{
    let v = chars_vec(text);
    let l = lower_chars(&v);
    let chapter = chars_vec("chapter");
    let section = chars_vec("section");
    if contains_chars(&l, &chapter) || contains_chars(&l, &section) {
        return Some(2);
    }
    let t = trim_chars(&v);
    let tl = t.len();
    let mut has_digit = false;
    let mut i: usize = 0;
    while i < v.len()
        invariant
            v@ == text@,
            i <= v@.len(),
            has_digit == exists|k: int| 0 <= k < i && is_digit_char(v@[k]),
        decreases v@.len() - i,
    {
        if '0' <= v[i] && v[i] <= '9' {
            has_digit = true;
        }
        i = i + 1;
    }
    if tl < 100 && (has_digit || tl < 50) {
        if tl < 20 {
            Some(1)
        } else if tl < 35 {
            Some(2)
        } else {
            Some(3)
        }
    } else {
        None
    }
}

} // verus!
