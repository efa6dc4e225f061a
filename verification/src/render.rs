//! Shared rendering helpers: joining, line assembly, and JSON string
//! escaping, each with an exact specification.

use vstd::prelude::*;
use vstd::string::*;
use crate::chars::{chars_vec, string_of, push_char, dec_str, usize_to_string};

verus! {

/// The first `k` parts joined with `sep` between them.
pub open spec fn joined_upto(parts: Seq<Seq<char>>, sep: Seq<char>, k: int) -> Seq<char>
    decreases k,
{
    if k <= 0 {
        Seq::empty()
    } else if k == 1 {
        parts[0]
    } else {
        joined_upto(parts, sep, k - 1) + sep + parts[k - 1]
    }
}

/// All parts joined with `sep`, as `[T]::join` builds it.
pub open spec fn joined(parts: Seq<Seq<char>>, sep: Seq<char>) -> Seq<char> {
    joined_upto(parts, sep, parts.len() as int)
}

/// Joins string parts with a separator.
pub fn join_strings(parts: &Vec<String>, sep: &str) -> (r: String)
    ensures
        r@ == joined(parts@.map_values(|s: String| s@), sep@),
{
    let ghost views = parts@.map_values(|s: String| s@);
    let mut out = String::new();
    let mut i: usize = 0;
    proof {
        assert(out@ =~= joined_upto(views, sep@, 0));
    }
    while i < parts.len()
        invariant
            views == parts@.map_values(|s: String| s@),
            i <= parts@.len(),
            out@ == joined_upto(views, sep@, i as int),
        decreases parts@.len() - i,
    {
        if i > 0 {
            out.append(sep);
        }
        out.append(parts[i].as_str());
        proof {
            if i == 0 {
                assert(out@ =~= views[0]);
            }
        }
        i = i + 1;
    }
    out
}

/// The JSON escape of one character, as compact serialization writes it.
pub open spec fn json_esc_char(c: char) -> Seq<char> {
    if c == '"' {
        seq!['\\', '"']
    } else if c == '\\' {
        seq!['\\', '\\']
    } else if c == '\u{8}' {
        seq!['\\', 'b']
    } else if c == '\u{c}' {
        seq!['\\', 'f']
    } else if c == '\n' {
        seq!['\\', 'n']
    } else if c == '\r' {
        seq!['\\', 'r']
    } else if c == '\t' {
        seq!['\\', 't']
    } else if (c as u32) < 0x20 {
        seq!['\\', 'u', '0', '0', hex_digit(((c as u32) / 16) as int), hex_digit(
            ((c as u32) % 16) as int,
        )]
    } else {
        seq![c]
    }
}

/// Lowercase hexadecimal digit.
pub open spec fn hex_digit(d: int) -> char {
    if d == 0 { '0' } else if d == 1 { '1' } else if d == 2 { '2' } else if d == 3 { '3' }
    else if d == 4 { '4' } else if d == 5 { '5' } else if d == 6 { '6' } else if d == 7 { '7' }
    else if d == 8 { '8' } else if d == 9 { '9' } else if d == 10 { 'a' } else if d == 11 { 'b' }
    else if d == 12 { 'c' } else if d == 13 { 'd' } else if d == 14 { 'e' } else { 'f' }
}

/// The body of a JSON string: every character escaped, in order, over the
/// first `k` characters.
pub open spec fn json_esc_upto(s: Seq<char>, k: int) -> Seq<char>
    decreases k,
{
    if k <= 0 {
        Seq::empty()
    } else {
        json_esc_upto(s, k - 1) + json_esc_char(s[k - 1])
    }
}

/// A full JSON string literal: quote, escaped body, quote.
pub open spec fn json_str(s: Seq<char>) -> Seq<char> {
    seq!['"'] + json_esc_upto(s, s.len() as int) + seq!['"']
}

/// The JSON string literal for `s`, as a new string.
pub fn json_string_of(s: &str) -> (r: String)
    ensures
        r@ == json_str(s@),
{
    let v = chars_vec(s);
    let n = v.len();
    let mut out = String::new();
    push_char(&mut out, '"');
    proof {
        assert(out@ =~= seq!['"']);
    }
    let ghost base = out@;
    let mut i: usize = 0;
    while i < n
        invariant
            n == v@.len(),
            v@ == s@,
            i <= n,
            out@ == base + json_esc_upto(s@, i as int),
        decreases n - i,
    {
        let c = v[i];
        if c == '"' {
            out.append("\\\"");
            proof {
                reveal_strlit("\\\"");
                assert(out@ =~= base + json_esc_upto(s@, i + 1));
            }
        } else if c == '\\' {
            out.append("\\\\");
            proof {
                reveal_strlit("\\\\");
                assert(out@ =~= base + json_esc_upto(s@, i + 1));
            }
        } else if c == '\u{8}' {
            out.append("\\b");
            proof {
                reveal_strlit("\\b");
                assert(out@ =~= base + json_esc_upto(s@, i + 1));
            }
        } else if c == '\u{c}' {
            out.append("\\f");
            proof {
                reveal_strlit("\\f");
                assert(out@ =~= base + json_esc_upto(s@, i + 1));
            }
        } else if c == '\n' {
            out.append("\\n");
            proof {
                reveal_strlit("\\n");
                assert(out@ =~= base + json_esc_upto(s@, i + 1));
            }
        } else if c == '\r' {
            out.append("\\r");
            proof {
                reveal_strlit("\\r");
                assert(out@ =~= base + json_esc_upto(s@, i + 1));
            }
        } else if c == '\t' {
            out.append("\\t");
            proof {
                reveal_strlit("\\t");
                assert(out@ =~= base + json_esc_upto(s@, i + 1));
            }
        } else if (c as u32) < 0x20 {
            out.append("\\u00");
            let hi = (c as u32) / 16;
            let lo = (c as u32) % 16;
            let hc: char = if hi == 0 { '0' } else { '1' };
            push_char(&mut out, hc);
            let lc: char = if lo == 0 { '0' } else if lo == 1 { '1' } else if lo == 2 { '2' }
                else if lo == 3 { '3' } else if lo == 4 { '4' } else if lo == 5 { '5' }
                else if lo == 6 { '6' } else if lo == 7 { '7' } else if lo == 8 { '8' }
                else if lo == 9 { '9' } else if lo == 10 { 'a' } else if lo == 11 { 'b' }
                else if lo == 12 { 'c' } else if lo == 13 { 'd' } else if lo == 14 { 'e' }
                else { 'f' };
            push_char(&mut out, lc);
            proof {
                reveal_strlit("\\u00");
                assert(hc == hex_digit(hi as int));
                assert(lc == hex_digit(lo as int));
                assert(out@ =~= base + json_esc_upto(s@, i + 1));
            }
        } else {
            push_char(&mut out, c);
            proof {
                assert(out@ =~= base + json_esc_upto(s@, i + 1));
            }
        }
        i = i + 1;
    }
    push_char(&mut out, '"');
    out
}

/// Appends the JSON string literal for `s`.
pub fn push_json_str(out: &mut String, s: &str)
    ensures
        final(out)@ == old(out)@ + json_str(s@),
{
    let j = json_string_of(s);
    out.append(j.as_str());
}

/// Appends a decimal integer.
pub fn push_usize(out: &mut String, n: usize)
    ensures
        final(out)@ == old(out)@ + dec_str(n as nat),
{
    let s = usize_to_string(n);
    out.append(s.as_str());
}

} // verus!
