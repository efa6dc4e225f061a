//! Character-level text utilities shared by the whole crate: whitespace
//! classification, ASCII case folding, trimming, substring search and decimal
//! formatting, each with an exact specification.

use vstd::prelude::*;
use vstd::string::*;

verus! {

/// Whitespace characters as Rust's `char::is_whitespace` counts them
/// (the Unicode `White_Space` property).
pub open spec fn is_ws_char(c: char) -> bool {
    c == ' ' || c == '\t' || c == '\n' || c == '\r'
        || c == '\u{b}' || c == '\u{c}' || c == '\u{85}' || c == '\u{a0}'
        || c == '\u{1680}'
        || ('\u{2000}' <= c && c <= '\u{200a}')
        || c == '\u{2028}' || c == '\u{2029}' || c == '\u{202f}'
        || c == '\u{205f}' || c == '\u{3000}'
}

pub fn is_ws(c: char) -> (r: bool)
    ensures
        r == is_ws_char(c),
{
    c == ' ' || c == '\t' || c == '\n' || c == '\r'
        || c == '\u{b}' || c == '\u{c}' || c == '\u{85}' || c == '\u{a0}'
        || c == '\u{1680}'
        || ('\u{2000}' <= c && c <= '\u{200a}')
        || c == '\u{2028}' || c == '\u{2029}' || c == '\u{202f}'
        || c == '\u{205f}' || c == '\u{3000}'
}

pub open spec fn is_digit_char(c: char) -> bool {
    '0' <= c && c <= '9'
}

pub fn is_digit(c: char) -> (r: bool)
    ensures
        r == is_digit_char(c),
{
    '0' <= c && c <= '9'
}

/// Case folding over the alphabets the token vocabularies use: `A`..`Z`
/// map to `a`..`z`, the Cyrillic capitals map to their lowercase forms, and
/// every other character is left alone.
pub open spec fn lower_char(c: char) -> char {
    if 'A' <= c && c <= 'Z' {
        (((c as u32) + 32) as char)
    } else if '\u{410}' <= c && c <= '\u{42f}' {
        (((c as u32) + 32) as char)
    } else if c == '\u{401}' {
        '\u{451}'
    } else {
        c
    }
}

pub fn to_lower(c: char) -> (r: char)
    ensures
        r == lower_char(c),
{
    if 'A' <= c && c <= 'Z' {
        (((c as u32) + 32) as u8) as char
    } else if '\u{410}' <= c && c <= '\u{42f}' {
        cyr_lower(c)
    } else if c == '\u{401}' {
        '\u{451}'
    } else {
        c
    }
}

/// The lowercase form of a Cyrillic capital, letter by letter.
fn cyr_lower(c: char) -> (r: char)
    requires
        '\u{410}' <= c && c <= '\u{42f}',
    ensures
        r as u32 == (c as u32) + 32,
{
    if c == '\u{410}' {
        '\u{430}'
    } else if c == '\u{411}' {
        '\u{431}'
    } else if c == '\u{412}' {
        '\u{432}'
    } else if c == '\u{413}' {
        '\u{433}'
    } else if c == '\u{414}' {
        '\u{434}'
    } else if c == '\u{415}' {
        '\u{435}'
    } else if c == '\u{416}' {
        '\u{436}'
    } else if c == '\u{417}' {
        '\u{437}'
    } else if c == '\u{418}' {
        '\u{438}'
    } else if c == '\u{419}' {
        '\u{439}'
    } else if c == '\u{41a}' {
        '\u{43a}'
    } else if c == '\u{41b}' {
        '\u{43b}'
    } else if c == '\u{41c}' {
        '\u{43c}'
    } else if c == '\u{41d}' {
        '\u{43d}'
    } else if c == '\u{41e}' {
        '\u{43e}'
    } else if c == '\u{41f}' {
        '\u{43f}'
    } else if c == '\u{420}' {
        '\u{440}'
    } else if c == '\u{421}' {
        '\u{441}'
    } else if c == '\u{422}' {
        '\u{442}'
    } else if c == '\u{423}' {
        '\u{443}'
    } else if c == '\u{424}' {
        '\u{444}'
    } else if c == '\u{425}' {
        '\u{445}'
    } else if c == '\u{426}' {
        '\u{446}'
    } else if c == '\u{427}' {
        '\u{447}'
    } else if c == '\u{428}' {
        '\u{448}'
    } else if c == '\u{429}' {
        '\u{449}'
    } else if c == '\u{42a}' {
        '\u{44a}'
    } else if c == '\u{42b}' {
        '\u{44b}'
    } else if c == '\u{42c}' {
        '\u{44c}'
    } else if c == '\u{42d}' {
        '\u{44d}'
    } else if c == '\u{42e}' {
        '\u{44e}'
    } else if c == '\u{42f}' {
        '\u{44f}'
    } else {
        '\u{44f}'
    }
}

/// Pointwise ASCII lowering of a character sequence.
pub open spec fn lower_seq(s: Seq<char>) -> Seq<char> {
    s.map_values(|c: char| lower_char(c))
}

/// The characters of `s`, as a vector.
pub fn chars_vec(s: &str) -> (v: Vec<char>)
    ensures
        v@ == s@,
{
    let n: usize = s.unicode_len();
    let mut v: Vec<char> = Vec::new();
    let mut i: usize = 0;
    while i < n
        invariant
            n == s@.len(),
            i <= n,
            v@ == s@.subrange(0, i as int),
        decreases n - i,
    {
        v.push(s.get_char(i));
        i = i + 1;
        proof {
            assert(v@ =~= s@.subrange(0, i as int));
        }
    }
    proof {
        assert(v@ =~= s@);
    }
    v
}

/// A `String` holding exactly the characters of `v`.
pub fn string_of(v: &Vec<char>) -> (s: String)
    ensures
        s@ == v@,
{
    let mut s = String::new();
    let mut i: usize = 0;
    while i < v.len()
        invariant
            i <= v@.len(),
            s@ == v@.subrange(0, i as int),
        decreases v@.len() - i,
    {
        push_char(&mut s, v[i]);
        i = i + 1;
        proof {
            assert(s@ =~= v@.subrange(0, i as int));
        }
    }
    proof {
        assert(s@ =~= v@);
    }
    s
}

/// Relies on std's `String::push`: appends one character.
#[verifier::external_body]
pub fn push_char(s: &mut String, c: char) -> (r: ())
    ensures
        final(s)@ == old(s)@ + seq![c],
{
    s.push(c);
}

/// Index of the first non-whitespace character, or `len` if all blank.
pub open spec fn start_trim_idx(s: Seq<char>) -> int
    decreases s.len(),
{
    if s.len() == 0 {
        0
    } else if is_ws_char(s[0]) {
        1 + start_trim_idx(s.drop_first())
    } else {
        0
    }
}

/// One past the last non-whitespace character, or `0` if all blank.
pub open spec fn end_trim_idx(s: Seq<char>) -> int
    decreases s.len(),
{
    if s.len() == 0 {
        0
    } else if is_ws_char(s[s.len() - 1]) {
        end_trim_idx(s.drop_last())
    } else {
        s.len() as int
    }
}

/// `s` with leading and trailing whitespace removed, as `str::trim` does.
pub open spec fn trim_seq(s: Seq<char>) -> Seq<char> {
    if start_trim_idx(s) == s.len() {
        Seq::empty()
    } else {
        s.subrange(start_trim_idx(s), end_trim_idx(s))
    }
}

pub proof fn lemma_start_trim_idx(s: Seq<char>)
    ensures
        0 <= start_trim_idx(s) <= s.len(),
        forall|j: int| 0 <= j < start_trim_idx(s) ==> is_ws_char(s[j]),
        start_trim_idx(s) < s.len() ==> !is_ws_char(s[start_trim_idx(s)]),
    decreases s.len(),
{
    if s.len() > 0 && is_ws_char(s[0]) {
        lemma_start_trim_idx(s.drop_first());
        assert forall|j: int| 0 <= j < start_trim_idx(s) implies is_ws_char(s[j]) by {
            if j > 0 {
                assert(s.drop_first()[j - 1] == s[j]);
            }
        }
        if start_trim_idx(s) < s.len() {
            assert(s.drop_first()[start_trim_idx(s) - 1] == s[start_trim_idx(s)]);
        }
    }
}

pub proof fn lemma_end_trim_idx(s: Seq<char>)
    ensures
        0 <= end_trim_idx(s) <= s.len(),
        forall|j: int| end_trim_idx(s) <= j < s.len() ==> is_ws_char(s[j]),
        end_trim_idx(s) > 0 ==> !is_ws_char(s[end_trim_idx(s) - 1]),
    decreases s.len(),
{
    if s.len() > 0 && is_ws_char(s[s.len() - 1]) {
        lemma_end_trim_idx(s.drop_last());
        assert forall|j: int| end_trim_idx(s) <= j < s.len() implies is_ws_char(s[j]) by {
            if j < s.len() - 1 {
                assert(s.drop_last()[j] == s[j]);
            }
        }
    }
}

/// If any character is non-blank, the start index lies strictly before the
/// end index.
pub proof fn lemma_trim_order(s: Seq<char>)
    ensures
        start_trim_idx(s) < s.len() ==> start_trim_idx(s) < end_trim_idx(s),
    decreases s.len(),
{
    lemma_start_trim_idx(s);
    lemma_end_trim_idx(s);
    if start_trim_idx(s) < s.len() {
        let i = start_trim_idx(s);
        if end_trim_idx(s) <= i {
            assert(is_ws_char(s[i]));
            assert(false);
        }
    }
}

/// Whether the string is blank: nothing but whitespace.
pub open spec fn is_blank(s: Seq<char>) -> bool {
    forall|j: int| 0 <= j < s.len() ==> is_ws_char(s[j])
}

pub proof fn lemma_blank_trim(s: Seq<char>)
    ensures
        is_blank(s) <==> trim_seq(s).len() == 0,
{
    lemma_start_trim_idx(s);
    lemma_end_trim_idx(s);
    lemma_trim_order(s);
    if start_trim_idx(s) == s.len() {
        assert(is_blank(s));
    } else {
        assert(!is_ws_char(s[start_trim_idx(s)]));
        assert(trim_seq(s).len() > 0);
    }
}

/// The trimmed copy of the characters of `v`.
pub fn trim_chars(v: &Vec<char>) -> (r: Vec<char>)
    ensures
        r@ == trim_seq(v@),
{
    let n = v.len();
    let mut a: usize = 0;
    while a < n && is_ws(v[a])
        invariant
            a <= n,
            n == v@.len(),
            forall|j: int| 0 <= j < a ==> is_ws_char(v@[j]),
        decreases n - a,
    {
        a = a + 1;
    }
    proof {
        lemma_start_trim_idx(v@);
        assert(a == start_trim_idx(v@)) by {
            if a < start_trim_idx(v@) {
                assert(is_ws_char(v@[a as int]));
            }
            if start_trim_idx(v@) < a {
                assert(is_ws_char(v@[start_trim_idx(v@)]));
            }
        }
    }
    if a == n {
        let r: Vec<char> = Vec::new();
        proof {
            assert(r@ =~= trim_seq(v@));
        }
        return r;
    }
    let mut b: usize = n;
    while b > a && is_ws(v[b - 1])
        invariant
            a <= b <= n,
            n == v@.len(),
            a == start_trim_idx(v@),
            a < n,
            !is_ws_char(v@[a as int]),
            forall|j: int| b <= j < n ==> is_ws_char(v@[j]),
        decreases b,
    {
        b = b - 1;
    }
    proof {
        lemma_end_trim_idx(v@);
        assert(b == end_trim_idx(v@)) by {
            if b < end_trim_idx(v@) {
                assert(is_ws_char(v@[end_trim_idx(v@) - 1]));
            }
            if end_trim_idx(v@) < b {
                assert(!is_ws_char(v@[(b - 1) as int]));
                assert(is_ws_char(v@[(b - 1) as int]));
            }
        }
    }
    let mut r: Vec<char> = Vec::new();
    let mut i: usize = a;
    while i < b
        invariant
            a <= i <= b <= n,
            n == v@.len(),
            r@ == v@.subrange(a as int, i as int),
        decreases b - i,
    {
        r.push(v[i]);
        i = i + 1;
        proof {
            assert(r@ =~= v@.subrange(a as int, i as int));
        }
    }
    r
}

/// Lowered copy of the characters of `v`.
pub fn lower_chars(v: &Vec<char>) -> (r: Vec<char>)
    ensures
        r@ == lower_seq(v@),
{
    let mut r: Vec<char> = Vec::new();
    let mut i: usize = 0;
    while i < v.len()
        invariant
            i <= v@.len(),
            r@ == lower_seq(v@.subrange(0, i as int)),
        decreases v@.len() - i,
    {
        r.push(to_lower(v[i]));
        i = i + 1;
        proof {
            assert(r@ =~= lower_seq(v@.subrange(0, i as int)));
        }
    }
    proof {
        assert(r@ =~= lower_seq(v@));
    }
    r
}

/// Whether the character sequences are equal.
pub fn eq_chars(a: &Vec<char>, b: &Vec<char>) -> (r: bool)
    ensures
        r == (a@ == b@),
{
    if a.len() != b.len() {
        proof {
            assert(a@ != b@);
        }
        return false;
    }
    let mut i: usize = 0;
    while i < a.len()
        invariant
            a@.len() == b@.len(),
            i <= a@.len(),
            forall|j: int| 0 <= j < i ==> a@[j] == b@[j],
        decreases a@.len() - i,
    {
        if a[i] != b[i] {
            proof {
                assert(a@ != b@);
            }
            return false;
        }
        i = i + 1;
    }
    proof {
        assert(a@ =~= b@);
    }
    true
}

/// `t` occurs in `s` starting at position `i`.
pub open spec fn matches_at(s: Seq<char>, t: Seq<char>, i: int) -> bool {
    0 <= i && i + t.len() <= s.len() && s.subrange(i, i + t.len()) == t
}

/// `t` occurs somewhere in `s`.
pub open spec fn contains_seq(s: Seq<char>, t: Seq<char>) -> bool {
    exists|i: int| matches_at(s, t, i)
}

/// Whether `needle` occurs in `hay`, as `str::contains` decides it.
pub fn contains_chars(hay: &Vec<char>, needle: &Vec<char>) -> (r: bool)
    ensures
        r == contains_seq(hay@, needle@),
{
    let m = needle.len();
    let n = hay.len();
    if m > n {
        proof {
            assert forall|i: int| !matches_at(hay@, needle@, i) by {}
        }
        return false;
    }
    if m == 0 {
        proof {
            assert(hay@.subrange(0, 0) =~= needle@);
            assert(matches_at(hay@, needle@, 0));
        }
        return true;
    }
    let mut i: usize = 0;
    while i <= n - m
        invariant
            0 < m <= n,
            m == needle@.len(),
            n == hay@.len(),
            i <= n - m + 1,
            forall|k: int| 0 <= k < i ==> !matches_at(hay@, needle@, k),
        decreases n - i,
    {
        if match_at(hay, needle, i) {
            return true;
        }
        i = i + 1;
    }
    proof {
        assert forall|k: int| !matches_at(hay@, needle@, k) by {
            if 0 <= k && k + m <= n {
                assert(k < i);
            }
        }
    }
    false
}

/// Whether `needle` occurs in `hay` at position `i`.
pub fn match_at(hay: &Vec<char>, needle: &Vec<char>, i: usize) -> (r: bool)
    requires
        i + needle@.len() <= hay@.len(),
    ensures
        r == matches_at(hay@, needle@, i as int),
{
    let m = needle.len();
    let hl = hay.len();
    let mut j: usize = 0;
    while j < m
        invariant
            m == needle@.len(),
            hl == hay@.len(),
            i + m <= hl,
            j <= m,
            forall|k: int| 0 <= k < j ==> hay@[i + k] == needle@[k],
        decreases m - j,
    {
        if hay[i + j] != needle[j] {
            proof {
                assert(hay@.subrange(i as int, i + m) != needle@) by {
                    assert(hay@.subrange(i as int, i + m)[j as int] == hay@[i + j]);
                }
            }
            return false;
        }
        j = j + 1;
    }
    proof {
        assert(hay@.subrange(i as int, i + m) =~= needle@);
    }
    true
}

/// Length of the run of decimal digits starting at `i`.
pub open spec fn drun(s: Seq<char>, i: int) -> int
    decreases s.len() - i,
{
    if 0 <= i < s.len() && is_digit_char(s[i]) {
        1 + drun(s, i + 1)
    } else {
        0
    }
}

/// Length of the run of whitespace starting at `i`.
pub open spec fn wrun(s: Seq<char>, i: int) -> int
    decreases s.len() - i,
{
    if 0 <= i < s.len() && is_ws_char(s[i]) {
        1 + wrun(s, i + 1)
    } else {
        0
    }
}

/// Length of the run of non-whitespace starting at `i`.
pub open spec fn nwrun(s: Seq<char>, i: int) -> int
    decreases s.len() - i,
{
    if 0 <= i < s.len() && !is_ws_char(s[i]) {
        1 + nwrun(s, i + 1)
    } else {
        0
    }
}

/// Length of the run of lowercase ASCII letters starting at `i`.
pub open spec fn lrun(s: Seq<char>, i: int) -> int
    decreases s.len() - i,
{
    if 0 <= i < s.len() && 'a' <= s[i] && s[i] <= 'z' {
        1 + lrun(s, i + 1)
    } else {
        0
    }
}

/// A run that is digits throughout `[i, j)` and stops at `j` has length
/// `j - i`.
pub proof fn lemma_drun(s: Seq<char>, i: int, j: int)
    requires
        0 <= i <= j <= s.len(),
        forall|k: int| i <= k < j ==> is_digit_char(s[k]),
        j == s.len() || !is_digit_char(s[j]),
    ensures
        drun(s, i) == j - i,
    decreases j - i,
{
    if i < j {
        lemma_drun(s, i + 1, j);
    }
}

pub proof fn lemma_wrun(s: Seq<char>, i: int, j: int)
    requires
        0 <= i <= j <= s.len(),
        forall|k: int| i <= k < j ==> is_ws_char(s[k]),
        j == s.len() || !is_ws_char(s[j]),
    ensures
        wrun(s, i) == j - i,
    decreases j - i,
{
    if i < j {
        lemma_wrun(s, i + 1, j);
    }
}

pub proof fn lemma_nwrun(s: Seq<char>, i: int, j: int)
    requires
        0 <= i <= j <= s.len(),
        forall|k: int| i <= k < j ==> !is_ws_char(s[k]),
        j == s.len() || is_ws_char(s[j]),
    ensures
        nwrun(s, i) == j - i,
    decreases j - i,
{
    if i < j {
        lemma_nwrun(s, i + 1, j);
    }
}

pub proof fn lemma_lrun(s: Seq<char>, i: int, j: int)
    requires
        0 <= i <= j <= s.len(),
        forall|k: int| i <= k < j ==> 'a' <= s[k] && s[k] <= 'z',
        j == s.len() || !('a' <= s[j] && s[j] <= 'z'),
    ensures
        lrun(s, i) == j - i,
    decreases j - i,
{
    if i < j {
        lemma_lrun(s, i + 1, j);
    }
}

/// The run is non-negative, stays inside the string, covers only digits and
/// stops at a non-digit.
pub proof fn lemma_drun_props(s: Seq<char>, i: int)
    requires
        0 <= i <= s.len(),
    ensures
        0 <= drun(s, i),
        i + drun(s, i) <= s.len(),
        forall|k: int| i <= k < i + drun(s, i) ==> is_digit_char(s[k]),
        i + drun(s, i) < s.len() ==> !is_digit_char(s[i + drun(s, i)]),
    decreases s.len() - i,
{
    if i < s.len() && is_digit_char(s[i]) {
        lemma_drun_props(s, i + 1);
    }
}

pub proof fn lemma_wrun_props(s: Seq<char>, i: int)
    requires
        0 <= i <= s.len(),
    ensures
        0 <= wrun(s, i),
        i + wrun(s, i) <= s.len(),
        forall|k: int| i <= k < i + wrun(s, i) ==> is_ws_char(s[k]),
        i + wrun(s, i) < s.len() ==> !is_ws_char(s[i + wrun(s, i)]),
    decreases s.len() - i,
{
    if i < s.len() && is_ws_char(s[i]) {
        lemma_wrun_props(s, i + 1);
    }
}

pub proof fn lemma_nwrun_props(s: Seq<char>, i: int)
    requires
        0 <= i <= s.len(),
    ensures
        0 <= nwrun(s, i),
        i + nwrun(s, i) <= s.len(),
        forall|k: int| i <= k < i + nwrun(s, i) ==> !is_ws_char(s[k]),
        i + nwrun(s, i) < s.len() ==> is_ws_char(s[i + nwrun(s, i)]),
    decreases s.len() - i,
{
    if i < s.len() && !is_ws_char(s[i]) {
        lemma_nwrun_props(s, i + 1);
    }
}

/// Scans the digit run starting at `i`.
pub fn scan_digits(v: &Vec<char>, i: usize) -> (r: usize)
    requires
        i <= v@.len(),
    ensures
        r == drun(v@, i as int),
        i + r <= v@.len(),
{
    let n = v.len();
    let mut j: usize = i;
    while j < n && is_digit(v[j])
        invariant
            i <= j <= n,
            n == v@.len(),
            forall|k: int| i <= k < j ==> is_digit_char(v@[k]),
        decreases n - j,
    {
        j = j + 1;
    }
    proof {
        lemma_drun(v@, i as int, j as int);
    }
    j - i
}

/// Scans the whitespace run starting at `i`.
pub fn scan_ws(v: &Vec<char>, i: usize) -> (r: usize)
    requires
        i <= v@.len(),
    ensures
        r == wrun(v@, i as int),
        i + r <= v@.len(),
{
    let n = v.len();
    let mut j: usize = i;
    while j < n && is_ws(v[j])
        invariant
            i <= j <= n,
            n == v@.len(),
            forall|k: int| i <= k < j ==> is_ws_char(v@[k]),
        decreases n - j,
    {
        j = j + 1;
    }
    proof {
        lemma_wrun(v@, i as int, j as int);
    }
    j - i
}

/// Scans the non-whitespace run starting at `i`.
pub fn scan_non_ws(v: &Vec<char>, i: usize) -> (r: usize)
    requires
        i <= v@.len(),
    ensures
        r == nwrun(v@, i as int),
        i + r <= v@.len(),
{
    let n = v.len();
    let mut j: usize = i;
    while j < n && !is_ws(v[j])
        invariant
            i <= j <= n,
            n == v@.len(),
            forall|k: int| i <= k < j ==> !is_ws_char(v@[k]),
        decreases n - j,
    {
        j = j + 1;
    }
    proof {
        lemma_nwrun(v@, i as int, j as int);
    }
    j - i
}

/// Scans the lowercase-letter run starting at `i`.
pub fn scan_lower(v: &Vec<char>, i: usize) -> (r: usize)
    requires
        i <= v@.len(),
    ensures
        r == lrun(v@, i as int),
        i + r <= v@.len(),
{
    let n = v.len();
    let mut j: usize = i;
    while j < n && 'a' <= v[j] && v[j] <= 'z'
        invariant
            i <= j <= n,
            n == v@.len(),
            forall|k: int| i <= k < j ==> 'a' <= v@[k] && v@[k] <= 'z',
        decreases n - j,
    {
        j = j + 1;
    }
    proof {
        lemma_lrun(v@, i as int, j as int);
    }
    j - i
}

/// `s` with every leading copy of `c` removed, as `str::trim_start_matches`
/// leaves it for a one-character pattern.
pub open spec fn strip_lead(s: Seq<char>, c: char) -> Seq<char>
    decreases s.len(),
{
    if s.len() > 0 && s[0] == c {
        strip_lead(s.drop_first(), c)
    } else {
        s
    }
}

/// `s` with every trailing copy of `c` removed, as `str::trim_end_matches`
/// leaves it for a one-character pattern.
pub open spec fn strip_trail(s: Seq<char>, c: char) -> Seq<char>
    decreases s.len(),
{
    if s.len() > 0 && s.last() == c {
        strip_trail(s.drop_last(), c)
    } else {
        s
    }
}

pub proof fn lemma_strip_lead(s: Seq<char>, c: char, a: int)
    requires
        0 <= a <= s.len(),
        forall|k: int| 0 <= k < a ==> s[k] == c,
        a == s.len() || s[a] != c,
    ensures
        strip_lead(s, c) == s.subrange(a, s.len() as int),
    decreases a,
{
    if a == 0 {
        assert(s.subrange(0, s.len() as int) =~= s);
    } else {
        lemma_strip_lead(s.drop_first(), c, a - 1);
        assert(s.drop_first().subrange(a - 1, s.drop_first().len() as int) =~= s.subrange(
            a,
            s.len() as int,
        ));
    }
}

pub proof fn lemma_strip_trail(s: Seq<char>, c: char, b: int)
    requires
        0 <= b <= s.len(),
        forall|k: int| b <= k < s.len() ==> s[k] == c,
        b == 0 || s[b - 1] != c,
    ensures
        strip_trail(s, c) == s.subrange(0, b),
    decreases s.len(),
{
    if b == s.len() {
        assert(s.subrange(0, s.len() as int) =~= s);
        if s.len() > 0 && s.last() == c {
            assert(b == 0 || s[b - 1] != c);
            assert(false);
        }
    } else {
        assert(s.last() == c);
        lemma_strip_trail(s.drop_last(), c, b);
    }
}

/// Copy of `v` with leading and trailing copies of `c` removed.
pub fn strip_matches(v: &Vec<char>, c: char) -> (r: Vec<char>)
    ensures
        r@ == strip_trail(strip_lead(v@, c), c),
{
    let n = v.len();
    let mut a: usize = 0;
    while a < n && v[a] == c
        invariant
            a <= n,
            n == v@.len(),
            forall|k: int| 0 <= k < a ==> v@[k] == c,
        decreases n - a,
    {
        a = a + 1;
    }
    proof {
        lemma_strip_lead(v@, c, a as int);
    }
    let mut b: usize = n;
    while b > a && v[b - 1] == c
        invariant
            a <= b <= n,
            n == v@.len(),
            forall|k: int| b <= k < n ==> v@[k] == c,
        decreases b,
    {
        b = b - 1;
    }
    proof {
        let mid = v@.subrange(a as int, n as int);
        assert forall|k: int| (b - a) <= k < mid.len() implies mid[k] == c by {
            assert(mid[k] == v@[a + k]);
        }
        if b > a {
            assert(mid[b - a - 1] == v@[(b - 1) as int]);
        }
        lemma_strip_trail(mid, c, b - a);
        assert(mid.subrange(0, b - a) =~= v@.subrange(a as int, b as int));
    }
    let mut r: Vec<char> = Vec::new();
    let mut i: usize = a;
    while i < b
        invariant
            a <= i <= b <= n,
            n == v@.len(),
            r@ == v@.subrange(a as int, i as int),
        decreases b - i,
    {
        r.push(v[i]);
        i = i + 1;
        proof {
            assert(r@ =~= v@.subrange(a as int, i as int));
        }
    }
    proof {
        assert(r@ =~= v@.subrange(a as int, b as int));
    }
    r
}

/// `s` with every copy of `c` removed, as `str::replace` with an empty
/// replacement leaves it.
pub open spec fn remove_char(s: Seq<char>, c: char) -> Seq<char> {
    s.filter(|x: char| x != c)
}

/// Copy of `v` without any occurrence of `c`.
pub fn without_char(v: &Vec<char>, c: char) -> (r: Vec<char>)
    ensures
        r@ == remove_char(v@, c),
{
    let mut r: Vec<char> = Vec::new();
    let mut i: usize = 0;
    proof {
        assert(v@.subrange(0, 0) =~= Seq::<char>::empty());
        assert(remove_char(v@.subrange(0, 0), c) =~= Seq::<char>::empty());
    }
    while i < v.len()
        invariant
            i <= v@.len(),
            r@ == remove_char(v@.subrange(0, i as int), c),
        decreases v@.len() - i,
    {
        proof {
            reveal_with_fuel(Seq::filter, 2);
            assert(v@.subrange(0, i + 1).drop_last() =~= v@.subrange(0, i as int));
            assert(v@.subrange(0, i + 1).last() == v@[i as int]);
        }
        if v[i] != c {
            r.push(v[i]);
        }
        i = i + 1;
    }
    proof {
        assert(v@.subrange(0, v@.len() as int) =~= v@);
    }
    r
}

/// The whitespace-separated words of `s` from position `i` on, as
/// `str::split_whitespace` yields them.
pub open spec fn split_ws_from(s: Seq<char>, i: int) -> Seq<Seq<char>>
    decreases s.len() - i,
{
    if i < 0 || i >= s.len() {
        Seq::empty()
    } else {
        let a = i + wrun(s, i);
        if !(i <= a && a < s.len()) {
            Seq::empty()
        } else {
            let b = a + nwrun(s, a);
            if !(a < b && b <= s.len()) {
                Seq::empty()
            } else {
                seq![s.subrange(a, b)] + split_ws_from(s, b)
            }
        }
    }
}

/// The whitespace-separated words of `v`.
pub fn split_ws(v: &Vec<char>) -> (r: Vec<Vec<char>>)
    ensures
        r@.map_values(|w: Vec<char>| w@) == split_ws_from(v@, 0),
{
    let n = v.len();
    let mut out: Vec<Vec<char>> = Vec::new();
    let mut pos: usize = 0;
    proof {
        assert(out@.map_values(|w: Vec<char>| w@) + split_ws_from(v@, 0) =~= split_ws_from(v@, 0));
    }
    while pos < n
        invariant
            pos <= n,
            n == v@.len(),
            out@.map_values(|w: Vec<char>| w@) + split_ws_from(v@, pos as int) == split_ws_from(
                v@,
                0,
            ),
        decreases n - pos,
    {
        let ghost out0 = out@;
        let a = pos + scan_ws(v, pos);
        if a == n {
            proof {
                assert(split_ws_from(v@, pos as int) =~= Seq::<Seq<char>>::empty());
                assert(out@.map_values(|w: Vec<char>| w@) =~= out@.map_values(|w: Vec<char>| w@)
                    + split_ws_from(v@, pos as int));
            }
            pos = n;
        } else {
            let b = a + scan_non_ws(v, a);
            let mut word: Vec<char> = Vec::new();
            let mut k: usize = a;
            while k < b
                invariant
                    a <= k <= b <= n,
                    n == v@.len(),
                    word@ == v@.subrange(a as int, k as int),
                decreases b - k,
            {
                word.push(v[k]);
                k = k + 1;
                proof {
                    assert(word@ =~= v@.subrange(a as int, k as int));
                }
            }
            proof {
                lemma_wrun_props(v@, pos as int);
                lemma_nwrun_props(v@, a as int);
                assert(!is_ws_char(v@[a as int]));
                assert(nwrun(v@, a as int) > 0);
                assert(split_ws_from(v@, pos as int) == seq![v@.subrange(a as int, b as int)]
                    + split_ws_from(v@, b as int));
            }
            out.push(word);
            pos = b;
            proof {
                assert(out@.map_values(|w: Vec<char>| w@) =~= out0.map_values(
                    |w: Vec<char>| w@,
                ).push(v@.subrange(a as int, b as int)));
                assert(out@.map_values(|w: Vec<char>| w@) + split_ws_from(v@, pos as int)
                    =~= (out0.map_values(|w: Vec<char>| w@) + (seq![
                    v@.subrange(a as int, b as int),
                ] + split_ws_from(v@, b as int))));
            }
        }
    }
    proof {
        assert(split_ws_from(v@, n as int) =~= Seq::<Seq<char>>::empty());
        assert(out@.map_values(|w: Vec<char>| w@) =~= out@.map_values(|w: Vec<char>| w@)
            + split_ws_from(v@, n as int));
    }
    out
}

/// Length of the run of characters other than `sep` starting at `i`.
pub open spec fn crun(s: Seq<char>, sep: char, i: int) -> int
    decreases s.len() - i,
{
    if 0 <= i < s.len() && s[i] != sep {
        1 + crun(s, sep, i + 1)
    } else {
        0
    }
}

pub proof fn lemma_crun_props(s: Seq<char>, sep: char, i: int)
    requires
        0 <= i <= s.len(),
    ensures
        0 <= crun(s, sep, i),
        i + crun(s, sep, i) <= s.len(),
        i + crun(s, sep, i) < s.len() ==> s[i + crun(s, sep, i)] == sep,
    decreases s.len() - i,
{
    if i < s.len() && s[i] != sep {
        lemma_crun_props(s, sep, i + 1);
    }
}

/// Scans the run of characters other than `sep` starting at `i`.
pub fn scan_to_char(v: &Vec<char>, sep: char, i: usize) -> (r: usize)
    requires
        i <= v@.len(),
    ensures
        r == crun(v@, sep, i as int),
        i + r <= v@.len(),
{
    let n = v.len();
    let mut j: usize = i;
    while j < n && v[j] != sep
        invariant
            i <= j <= n,
            n == v@.len(),
            forall|k: int| i <= k < j ==> v@[k] != sep,
        decreases n - j,
    {
        j = j + 1;
    }
    proof {
        lemma_crun_split(v@, sep, i as int, j as int);
    }
    j - i
}

proof fn lemma_crun_split(s: Seq<char>, sep: char, i: int, j: int)
    requires
        0 <= i <= j <= s.len(),
        forall|k: int| i <= k < j ==> s[k] != sep,
        j == s.len() || s[j] == sep,
    ensures
        crun(s, sep, i) == j - i,
    decreases j - i,
{
    if i < j {
        lemma_crun_split(s, sep, i + 1, j);
    }
}

/// The parts of `s` split on `sep` from position `i`, empty parts kept, as
/// `str::split` yields them.
pub open spec fn split_from_char(s: Seq<char>, sep: char, i: int) -> Seq<Seq<char>>
    decreases s.len() - i,
{
    if !(0 <= i <= s.len()) {
        Seq::empty()
    } else {
        let k = crun(s, sep, i);
        if !(0 <= k && i + k <= s.len()) {
            Seq::empty()
        } else {
            let part = s.subrange(i, i + k);
            if i + k >= s.len() {
                seq![part]
            } else {
                seq![part] + split_from_char(s, sep, i + k + 1)
            }
        }
    }
}

/// Splits on a separator character, keeping empty parts.
pub fn split_char(v: &Vec<char>, sep: char) -> (out: Vec<Vec<char>>)
    ensures
        out@.map_values(|w: Vec<char>| w@) == split_from_char(v@, sep, 0),
{
    let n = v.len();
    let mut out: Vec<Vec<char>> = Vec::new();
    let mut pos: usize = 0;
    let mut done = false;
    proof {
        assert(out@.map_values(|w: Vec<char>| w@) + split_from_char(v@, sep, 0) =~= split_from_char(
            v@,
            sep,
            0,
        ));
    }
    while !done
        invariant
            n == v@.len(),
            pos <= n,
            !done ==> out@.map_values(|w: Vec<char>| w@) + split_from_char(v@, sep, pos as int)
                == split_from_char(v@, sep, 0),
            done ==> out@.map_values(|w: Vec<char>| w@) == split_from_char(v@, sep, 0),
        decreases n - pos + if done { 0int } else { 1int },
    {
        let ghost out0 = out@;
        let k = scan_to_char(v, sep, pos);
        proof {
            lemma_crun_props(v@, sep, pos as int);
        }
        let mut part: Vec<char> = Vec::new();
        let mut q: usize = pos;
        while q < pos + k
            invariant
                pos + k <= n,
                n == v@.len(),
                pos <= q <= pos + k,
                part@ == v@.subrange(pos as int, q as int),
            decreases pos + k - q,
        {
            part.push(v[q]);
            q = q + 1;
            proof {
                assert(part@ =~= v@.subrange(pos as int, q as int));
            }
        }
        out.push(part);
        proof {
            assert(out@.map_values(|w: Vec<char>| w@) =~= out0.map_values(|w: Vec<char>| w@).push(
                v@.subrange(pos as int, pos + k),
            ));
        }
        if pos + k >= n {
            done = true;
            proof {
                assert(split_from_char(v@, sep, pos as int) =~= seq![
                    v@.subrange(pos as int, pos + k),
                ]);
                assert(out@.map_values(|w: Vec<char>| w@) =~= out0.map_values(|w: Vec<char>| w@)
                    + split_from_char(v@, sep, pos as int));
            }
        } else {
            proof {
                assert(split_from_char(v@, sep, pos as int) =~= seq![
                    v@.subrange(pos as int, pos + k),
                ] + split_from_char(v@, sep, pos + k + 1));
                assert(out0.map_values(|w: Vec<char>| w@) + split_from_char(v@, sep, pos as int)
                    =~= out@.map_values(|w: Vec<char>| w@) + split_from_char(
                    v@,
                    sep,
                    pos + k + 1,
                ));
            }
            pos = pos + k + 1;
        }
    }
    out
}

/// A line with one trailing carriage return removed.
pub open spec fn strip_one_cr(p: Seq<char>) -> Seq<char> {
    if p.len() > 0 && p.last() == '\r' {
        p.drop_last()
    } else {
        p
    }
}

/// The lines of `s`, as `str::lines` yields them: split on newlines, one
/// trailing carriage return stripped from each, and no final empty line.
pub open spec fn lines_of(s: Seq<char>) -> Seq<Seq<char>> {
    if s.len() == 0 {
        Seq::empty()
    } else {
        let parts = split_from_char(s, '\n', 0);
        let kept = if parts.len() > 0 && parts.last().len() == 0 {
            parts.drop_last()
        } else {
            parts
        };
        kept.map_values(|p: Seq<char>| strip_one_cr(p))
    }
}

/// Splits into lines as `str::lines` does.
pub fn lines_vec(v: &Vec<char>) -> (out: Vec<Vec<char>>)
    ensures
        out@.map_values(|w: Vec<char>| w@) == lines_of(v@),
{
    if v.len() == 0 {
        let out: Vec<Vec<char>> = Vec::new();
        proof {
            assert(out@.map_values(|w: Vec<char>| w@) =~= lines_of(v@));
        }
        return out;
    }
    let raw = split_char(v, '\n');
    let mut out: Vec<Vec<char>> = Vec::new();
    let keep: usize = if raw.len() > 0 && raw[raw.len() - 1].len() == 0 {
        raw.len() - 1
    } else {
        raw.len()
    };
    proof {
        let parts = split_from_char(v@, '\n', 0);
        assert(raw@.map_values(|w: Vec<char>| w@).len() == parts.len());
        if raw@.len() > 0 {
            assert(raw@.map_values(|w: Vec<char>| w@)[raw@.len() - 1] == parts.last());
        }
    }
    let mut i: usize = 0;
    while i < keep
        invariant
            keep <= raw@.len(),
            i <= keep,
            out@.len() == i,
            forall|j: int| 0 <= j < i ==> (#[trigger] out@[j])@ == strip_one_cr(raw@[j]@),
        decreases keep - i,
    {
        let line = &raw[i];
        let ln = line.len();
        let mut copy: Vec<char> = Vec::new();
        let upto: usize = if ln > 0 && line[ln - 1] == '\r' {
            ln - 1
        } else {
            ln
        };
        let mut q: usize = 0;
        while q < upto
            invariant
                upto <= line@.len(),
                q <= upto,
                copy@ == line@.subrange(0, q as int),
            decreases upto - q,
        {
            copy.push(line[q]);
            q = q + 1;
            proof {
                assert(copy@ =~= line@.subrange(0, q as int));
            }
        }
        proof {
            assert(copy@ =~= strip_one_cr(line@));
        }
        out.push(copy);
        i = i + 1;
    }
    proof {
        let parts = split_from_char(v@, '\n', 0);
        let kept = if parts.len() > 0 && parts.last().len() == 0 {
            parts.drop_last()
        } else {
            parts
        };
        let outv = out@.map_values(|w: Vec<char>| w@);
        let keptv = kept.map_values(|p: Seq<char>| strip_one_cr(p));
        assert(outv.len() == keptv.len());
        assert forall|j: int| 0 <= j < kept.len() implies outv[j] == #[trigger] keptv[j] by {
            assert(kept[j] == parts[j]);
            assert(parts[j] == raw@.map_values(|w: Vec<char>| w@)[j]);
            assert(outv[j] == out@[j]@);
        }
        assert(outv =~= keptv);
    }
    out
}

/// `n` copies of `p` in a row.
pub open spec fn rep_seq(p: Seq<char>, n: int) -> Seq<char>
    decreases n,
{
    if n <= 0 {
        Seq::empty()
    } else {
        rep_seq(p, n - 1) + p
    }
}

/// Appends `n` copies of `t` to the string.
pub fn push_repeated(out: &mut String, t: &str, n: usize)
    ensures
        final(out)@ == old(out)@ + rep_seq(t@, n as int),
{
    let mut i: usize = 0;
    while i < n
        invariant
            i <= n,
            out@ == old(out)@ + rep_seq(t@, i as int),
        decreases n - i,
    {
        out.append(t);
        i = i + 1;
    }
}

/// The decimal digit character for `d`.
pub open spec fn digit_char(d: int) -> char {
    if d == 0 { '0' } else if d == 1 { '1' } else if d == 2 { '2' }
    else if d == 3 { '3' } else if d == 4 { '4' } else if d == 5 { '5' }
    else if d == 6 { '6' } else if d == 7 { '7' } else if d == 8 { '8' }
    else { '9' }
}

/// Decimal notation of `n`, without sign and without leading zeros
/// (`0` is written `"0"`).
pub open spec fn dec_str(n: nat) -> Seq<char>
    decreases n,
{
    if n < 10 {
        seq![digit_char(n as int)]
    } else {
        dec_str(n / 10) + seq![digit_char((n % 10) as int)]
    }
}

/// Decimal rendering of a machine integer.
pub fn usize_to_string(n: usize) -> (s: String)
    ensures
        s@ == dec_str(n as nat),
{
    let mut digits: Vec<char> = Vec::new();
    let mut m: usize = n;
    loop
        invariant_except_break
            digits@.len() == 0 ==> m == n,
            digits@.len() > 0 ==> m > 0 && dec_str(n as nat) == dec_str(m as nat) + digits@,
        ensures
            dec_str(n as nat) == digits@,
        decreases m,
    {
        let ghost m0 = m as nat;
        let ghost d0 = digits@;
        let d = m % 10;
        let c: char = if d == 0 { '0' } else if d == 1 { '1' } else if d == 2 { '2' }
            else if d == 3 { '3' } else if d == 4 { '4' } else if d == 5 { '5' }
            else if d == 6 { '6' } else if d == 7 { '7' } else if d == 8 { '8' }
            else { '9' };
        digits.insert(0, c);
        m = m / 10;
        proof {
            let dd = seq![digit_char((m0 % 10) as int)];
            assert(digits@ =~= dd + d0);
            if m0 < 10 {
                assert(dec_str(m0) == dd);
                if d0.len() == 0 {
                    assert(dec_str(n as nat) =~= dd + d0);
                } else {
                    assert(dec_str(n as nat) == dec_str(m0) + d0);
                }
            } else {
                assert(dec_str(m0) == dec_str(m0 / 10) + dd);
                if d0.len() == 0 {
                    assert(dec_str(n as nat) == dec_str(m0));
                    assert(dec_str(m0 / 10) + (dd + d0) =~= dec_str(m0 / 10) + dd);
                } else {
                    assert((dec_str(m0 / 10) + dd) + d0 =~= dec_str(m0 / 10) + (dd + d0));
                }
            }
        }
        if m == 0 {
            break;
        }
    }
    string_of(&digits)
}

/// `n` copies of `c` in a row.
pub open spec fn char_repeat(c: char, n: nat) -> Seq<char>
    decreases n,
{
    if n == 0 {
        Seq::empty()
    } else {
        char_repeat(c, (n - 1) as nat) + seq![c]
    }
}

/// The string of `n` copies of `c`, as `str::repeat` builds it.
pub fn repeat_char(c: char, n: usize) -> (s: String)
    ensures
        s@ == char_repeat(c, n as nat),
{
    let mut s = String::new();
    let mut i: usize = 0;
    while i < n
        invariant
            i <= n,
            s@ == char_repeat(c, i as nat),
        decreases n - i,
    {
        push_char(&mut s, c);
        i = i + 1;
    }
    s
}

} // verus!
