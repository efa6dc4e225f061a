//! The cell-type classifier: pure recognizers that decide whether a cell's
//! trimmed text reads as a number (plain, currency, percentage,
//! thousands-separated or scientific), a date or time, a boolean token, or
//! plain text.
//!
//! Numeric validity follows the grammar that `f64::from_str` documents:
//! an optional sign, then `inf`, `infinity` or `nan` (case-insensitive) or a
//! decimal number with optional fraction and exponent.

use vstd::prelude::*;
use crate::chars::{
    drun, wrun, lrun, lower_seq, lower_char, remove_char, strip_lead, strip_trail, matches_at,
    contains_seq, split_ws_from, is_digit_char, is_ws_char, scan_digits, scan_ws, scan_lower,
    to_lower, lower_chars, strip_matches, without_char, match_at, contains_chars, split_ws,
    eq_chars, chars_vec, lemma_strip_trail, trim_seq, trim_chars,
};
use crate::table_model::CellDataType;

verus! {

/// Position after an optional leading sign.
pub open spec fn after_sign(s: Seq<char>) -> int {
    if s.len() > 0 && (s[0] == '+' || s[0] == '-') {
        1
    } else {
        0
    }
}

/// From position `i`, the rest of `s` spells `inf`, `infinity` or `nan`,
/// case-insensitively.
pub open spec fn inf_nan_from(s: Seq<char>, i: int) -> bool {
    let l = lower_seq(s);
    (s.len() == i + 3 && l[i] == 'i' && l[i + 1] == 'n' && l[i + 2] == 'f')
    || (s.len() == i + 8 && l[i] == 'i' && l[i + 1] == 'n' && l[i + 2] == 'f' && l[i + 3] == 'i'
        && l[i + 4] == 'n' && l[i + 5] == 'i' && l[i + 6] == 't' && l[i + 7] == 'y')
    || (s.len() == i + 3 && l[i] == 'n' && l[i + 1] == 'a' && l[i + 2] == 'n')
}

/// From position `i`, the rest of `s` is empty or a full exponent part:
/// `e`/`E`, an optional sign, and at least one digit reaching the end.
pub open spec fn exp_ok_from(s: Seq<char>, i: int) -> bool {
    i == s.len() || (0 <= i < s.len() && (s[i] == 'e' || s[i] == 'E') && {
        let j = if i + 1 < s.len() && (s[i + 1] == '+' || s[i + 1] == '-') {
            i + 2
        } else {
            i + 1
        };
        drun(s, j) > 0 && j + drun(s, j) == s.len()
    })
}

/// From position `i`, the rest of `s` is a decimal number: digits with an
/// optional fraction and exponent, or a fraction such as `.5`.
pub open spec fn number_from(s: Seq<char>, i: int) -> bool {
    let d = drun(s, i);
    if d == 0 {
        0 <= i < s.len() && s[i] == '.' && {
            let d2 = drun(s, i + 1);
            d2 > 0 && exp_ok_from(s, i + 1 + d2)
        }
    } else if i + d == s.len() {
        true
    } else if s[i + d] == '.' {
        let d2 = drun(s, i + d + 1);
        exp_ok_from(s, i + d + 1 + d2)
    } else {
        exp_ok_from(s, i + d)
    }
}

/// `s` is accepted by `f64::from_str`: an optional sign, then an infinity or
/// NaN keyword or a decimal number.
pub open spec fn is_float_str(s: Seq<char>) -> bool {
    inf_nan_from(s, after_sign(s)) || number_from(s, after_sign(s))
}

/// Checks the exponent-or-end rule at `i`.
fn exp_ok_exec(v: &Vec<char>, i: usize) -> (r: bool)
    requires
        i <= v@.len(),
    ensures
        r == exp_ok_from(v@, i as int),
{
    let n = v.len();
    if i == n {
        return true;
    }
    if v[i] != 'e' && v[i] != 'E' {
        return false;
    }
    let j: usize = if i + 1 < n && (v[i + 1] == '+' || v[i + 1] == '-') {
        i + 2
    } else {
        i + 1
    };
    let d = scan_digits(v, j);
    d > 0 && j + d == n
}

/// Checks the decimal-number rule at `i`.
fn number_exec(v: &Vec<char>, i: usize) -> (r: bool)
    requires
        i <= v@.len(),
    ensures
        r == number_from(v@, i as int),
{
    let n = v.len();
    let d = scan_digits(v, i);
    if d == 0 {
        if i < n && v[i] == '.' {
            let d2 = scan_digits(v, i + 1);
            d2 > 0 && exp_ok_exec(v, i + 1 + d2)
        } else {
            false
        }
    } else if i + d == n {
        true
    } else if v[i + d] == '.' {
        let d2 = scan_digits(v, i + d + 1);
        exp_ok_exec(v, i + d + 1 + d2)
    } else {
        exp_ok_exec(v, i + d)
    }
}

/// Whether `v` is accepted by `f64::from_str`.
pub fn accepts_float(v: &Vec<char>) -> (r: bool)
    ensures
        r == is_float_str(v@),
{
    let n = v.len();
    let i: usize = if n > 0 && (v[0] == '+' || v[0] == '-') {
        1
    } else {
        0
    };
    if n == i + 3 {
        let a = to_lower(v[i]);
        let b = to_lower(v[i + 1]);
        let c = to_lower(v[i + 2]);
        if (a == 'i' && b == 'n' && c == 'f') || (a == 'n' && b == 'a' && c == 'n') {
            proof {
                assert(lower_seq(v@)[i as int] == lower_char(v@[i as int]));
                assert(lower_seq(v@)[i + 1] == lower_char(v@[i + 1]));
                assert(lower_seq(v@)[i + 2] == lower_char(v@[i + 2]));
            }
            return true;
        }
    }
    if n == i + 8 {
        let ok = to_lower(v[i]) == 'i' && to_lower(v[i + 1]) == 'n' && to_lower(v[i + 2]) == 'f'
            && to_lower(v[i + 3]) == 'i' && to_lower(v[i + 4]) == 'n' && to_lower(v[i + 5]) == 'i'
            && to_lower(v[i + 6]) == 't' && to_lower(v[i + 7]) == 'y';
        if ok {
            proof {
                assert forall|k: int| i <= k < i + 8 implies lower_seq(v@)[k] == lower_char(
                    v@[k],
                ) by {}
            }
            return true;
        }
    }
    proof {
        if inf_nan_from(v@, i as int) {
            assert(lower_seq(v@)[i as int] == lower_char(v@[i as int]));
            assert(lower_seq(v@)[i + 1] == lower_char(v@[i + 1]));
            assert(lower_seq(v@)[i + 2] == lower_char(v@[i + 2]));
            if v@.len() == i + 8 {
                assert(lower_seq(v@)[i + 3] == lower_char(v@[i + 3]));
                assert(lower_seq(v@)[i + 4] == lower_char(v@[i + 4]));
                assert(lower_seq(v@)[i + 5] == lower_char(v@[i + 5]));
                assert(lower_seq(v@)[i + 6] == lower_char(v@[i + 6]));
                assert(lower_seq(v@)[i + 7] == lower_char(v@[i + 7]));
            }
        }
    }
    number_exec(v, i)
}

/// The currency symbols the classifier knows.
pub open spec fn cur_sym(k: int) -> char {
    if k == 0 { '$' } else if k == 1 { '€' } else if k == 2 { '¥' }
    else if k == 3 { '£' } else if k == 4 { '₹' } else if k == 5 { '₽' }
    else if k == 6 { '₩' } else if k == 7 { '₪' } else if k == 8 { '₦' }
    else { '₡' }
}

fn cur_sym_exec(k: usize) -> (c: char)
    requires
        k < 10,
    ensures
        c == cur_sym(k as int),
{
    if k == 0 { '$' } else if k == 1 { '€' } else if k == 2 { '¥' }
    else if k == 3 { '£' } else if k == 4 { '₹' } else if k == 5 { '₽' }
    else if k == 6 { '₩' } else if k == 7 { '₪' } else if k == 8 { '₦' }
    else { '₡' }
}

/// `s` begins or ends with the symbol, and what is left after stripping the
/// symbol from both ends and dropping thousands separators is a number.
pub open spec fn cur_sym_match(s: Seq<char>, c: char) -> bool {
    s.len() > 0 && (s[0] == c || s.last() == c) && is_float_str(
        remove_char(strip_trail(strip_lead(s, c), c), ','),
    )
}

/// The three-letter currency codes the classifier knows.
pub open spec fn cur_code(k: int) -> Seq<char> {
    if k == 0 { seq!['U', 'S', 'D'] } else if k == 1 { seq!['E', 'U', 'R'] }
    else if k == 2 { seq!['G', 'B', 'P'] } else if k == 3 { seq!['J', 'P', 'Y'] }
    else if k == 4 { seq!['C', 'N', 'Y'] } else if k == 5 { seq!['I', 'N', 'R'] }
    else if k == 6 { seq!['R', 'U', 'B'] } else { seq!['K', 'R', 'W'] }
}

fn cur_code_exec(k: usize) -> (v: Vec<char>)
    requires
        k < 8,
    ensures
        v@ == cur_code(k as int),
{
    let mut v: Vec<char> = Vec::new();
    if k == 0 { v.push('U'); v.push('S'); v.push('D'); }
    else if k == 1 { v.push('E'); v.push('U'); v.push('R'); }
    else if k == 2 { v.push('G'); v.push('B'); v.push('P'); }
    else if k == 3 { v.push('J'); v.push('P'); v.push('Y'); }
    else if k == 4 { v.push('C'); v.push('N'); v.push('Y'); }
    else if k == 5 { v.push('I'); v.push('N'); v.push('R'); }
    else if k == 6 { v.push('R'); v.push('U'); v.push('B'); }
    else { v.push('K'); v.push('R'); v.push('W'); }
    proof {
        assert(v@ =~= cur_code(k as int));
    }
    v
}

/// `s` begins or ends with the code, splits on whitespace into exactly two
/// words, and one word is the code while the other is a number.
pub open spec fn cur_code_match(s: Seq<char>, code: Seq<char>) -> bool {
    (matches_at(s, code, 0) || matches_at(s, code, s.len() - code.len())) && {
        let parts = split_ws_from(s, 0);
        parts.len() == 2 && ((parts[0] == code && is_float_str(parts[1])) || (parts[1] == code
            && is_float_str(parts[0])))
    }
}

/// The currency test: a known symbol at either end around a number, or a
/// known code next to a number.
pub open spec fn is_currency_text(s: Seq<char>) -> bool {
    (exists|k: int| 0 <= k < 10 && cur_sym_match(s, cur_sym(k))) || (exists|k: int|
        0 <= k < 8 && cur_code_match(s, cur_code(k)))
}

/// Whether `v` reads as a currency amount.
pub fn currency_text(v: &Vec<char>) -> (r: bool)
    ensures
        r == is_currency_text(v@),
{
    let n = v.len();
    let mut k: usize = 0;
    while k < 10
        invariant
            k <= 10,
            n == v@.len(),
            forall|j: int| 0 <= j < k ==> !cur_sym_match(v@, cur_sym(j)),
        decreases 10 - k,
    {
        let c = cur_sym_exec(k);
        if n > 0 && (v[0] == c || v[n - 1] == c) {
            let stripped = strip_matches(v, c);
            let cleaned = without_char(&stripped, ',');
            if accepts_float(&cleaned) {
                proof {
                    assert(cur_sym_match(v@, cur_sym(k as int)));
                }
                return true;
            }
        }
        k = k + 1;
    }
    let mut k2: usize = 0;
    while k2 < 8
        invariant
            k2 <= 8,
            n == v@.len(),
            forall|j: int| 0 <= j < 10 ==> !cur_sym_match(v@, cur_sym(j)),
            forall|j: int| 0 <= j < k2 ==> !cur_code_match(v@, cur_code(j)),
        decreases 8 - k2,
    {
        let code = cur_code_exec(k2);
        let at_start = if n >= 3 { match_at(v, &code, 0) } else { false };
        let at_end = if n >= 3 { match_at(v, &code, n - 3) } else { false };
        proof {
            if n < 3 {
                assert(!matches_at(v@, cur_code(k2 as int), 0));
                assert(!matches_at(v@, cur_code(k2 as int), v@.len() - 3));
            }
        }
        if at_start || at_end {
            let parts = split_ws(v);
            if parts.len() == 2 {
                proof {
                    assert(split_ws_from(v@, 0)[0] == parts@.map_values(|w: Vec<char>| w@)[0]);
                    assert(split_ws_from(v@, 0)[1] == parts@.map_values(|w: Vec<char>| w@)[1]);
                }
                let p0_is_code = eq_chars(&parts[0], &code);
                let p1_is_code = eq_chars(&parts[1], &code);
                if p0_is_code && accepts_float(&parts[1]) {
                    proof {
                        assert(cur_code_match(v@, cur_code(k2 as int)));
                    }
                    return true;
                }
                if p1_is_code && accepts_float(&parts[0]) {
                    proof {
                        assert(cur_code_match(v@, cur_code(k2 as int)));
                    }
                    return true;
                }
            }
        }
        k2 = k2 + 1;
    }
    false
}

/// The percentage test: a trailing `%` and a number before it.
pub open spec fn is_percent_text(s: Seq<char>) -> bool {
    s.len() > 0 && s.last() == '%' && is_float_str(strip_trail(s, '%'))
}

/// Whether `v` reads as a percentage.
pub fn percent_text(v: &Vec<char>) -> (r: bool)
    ensures
        r == is_percent_text(v@),
{
    let n = v.len();
    if n == 0 || v[n - 1] != '%' {
        return false;
    }
    let mut b: usize = n;
    while b > 0 && v[b - 1] == '%'
        invariant
            b <= n,
            n == v@.len(),
            forall|k: int| b <= k < n ==> v@[k] == '%',
        decreases b,
    {
        b = b - 1;
    }
    proof {
        lemma_strip_trail(v@, '%', b as int);
    }
    let mut num: Vec<char> = Vec::new();
    let mut i: usize = 0;
    while i < b
        invariant
            i <= b <= n,
            n == v@.len(),
            num@ == v@.subrange(0, i as int),
        decreases b - i,
    {
        num.push(v[i]);
        i = i + 1;
        proof {
            assert(num@ =~= v@.subrange(0, i as int));
        }
    }
    accepts_float(&num)
}

/// The thousands-separator test: at least one comma, and a number once the
/// commas are gone.
pub open spec fn is_formatted_number_text(s: Seq<char>) -> bool {
    (exists|k: int| 0 <= k < s.len() && s[k] == ',') && is_float_str(remove_char(s, ','))
}

/// Whether `v` reads as a comma-grouped number.
pub fn formatted_number_text(v: &Vec<char>) -> (r: bool)
    ensures
        r == is_formatted_number_text(v@),
{
    let n = v.len();
    let mut found_sep = false;
    let mut i: usize = 0;
    while i < n
        invariant
            i <= n,
            n == v@.len(),
            found_sep == exists|k: int| 0 <= k < i && v@[k] == ',',
        decreases n - i,
    {
        if v[i] == ',' {
            found_sep = true;
        }
        i = i + 1;
    }
    if !found_sep {
        return false;
    }
    let cleaned = without_char(v, ',');
    accepts_float(&cleaned)
}

/// The scientific-notation test: the lowered text contains an `e` and is a
/// number.
pub open spec fn is_scientific_text(s: Seq<char>) -> bool {
    let l = lower_seq(s);
    (exists|k: int| 0 <= k < l.len() && l[k] == 'e') && is_float_str(l)
}

/// Whether `v` reads as scientific notation.
pub fn scientific_text(v: &Vec<char>) -> (r: bool)
    ensures
        r == is_scientific_text(v@),
{
    let l = lower_chars(v);
    let n = l.len();
    let mut found_sep = false;
    let mut i: usize = 0;
    while i < n
        invariant
            i <= n,
            n == l@.len(),
            found_sep == exists|k: int| 0 <= k < i && l@[k] == 'e',
        decreases n - i,
    {
        if l[i] == 'e' {
            found_sep = true;
        }
        i = i + 1;
    }
    if !found_sep {
        return false;
    }
    accepts_float(&l)
}

/// The whole numeric test, in the order the classifier applies it.
pub open spec fn is_numeric_text(s: Seq<char>) -> bool {
    is_float_str(s) || is_currency_text(s) || is_percent_text(s) || is_formatted_number_text(s)
        || is_scientific_text(s)
}

/// Whether `v` reads as numeric data of any accepted shape.
pub fn numeric_text(v: &Vec<char>) -> (r: bool)
    ensures
        r == is_numeric_text(v@),
{
    if accepts_float(v) {
        return true;
    }
    if currency_text(v) {
        return true;
    }
    if percent_text(v) {
        return true;
    }
    if formatted_number_text(v) {
        return true;
    }
    scientific_text(v)
}

/// A date-part separator: slash or dash.
pub open spec fn is_sd(c: char) -> bool {
    c == '/' || c == '-'
}

/// `D{1,2} sep D{1,2} sep D{2,4}`, spanning the whole string.
pub open spec fn pat_dmy(s: Seq<char>) -> bool {
    let d1 = drun(s, 0);
    1 <= d1 <= 2 && d1 < s.len() && is_sd(s[d1]) && {
        let d2 = drun(s, d1 + 1);
        1 <= d2 <= 2 && d1 + 1 + d2 < s.len() && is_sd(s[d1 + 1 + d2]) && {
            let d3 = drun(s, d1 + d2 + 2);
            2 <= d3 <= 4 && d1 + d2 + 2 + d3 == s.len()
        }
    }
}

/// `D{4} sep D{1,2} sep D{1,2}`, spanning the whole string.
pub open spec fn pat_ymd(s: Seq<char>) -> bool {
    let d1 = drun(s, 0);
    d1 == 4 && 4 < s.len() && is_sd(s[4]) && {
        let d2 = drun(s, 5);
        1 <= d2 <= 2 && 5 + d2 < s.len() && is_sd(s[5 + d2]) && {
            let d3 = drun(s, 6 + d2);
            1 <= d3 <= 2 && 6 + d2 + d3 == s.len()
        }
    }
}

/// ISO date-time `D{4}-D{2}-D{2}TD{2}:D{2}:D{2}`.
pub open spec fn pat_iso_datetime(s: Seq<char>) -> bool {
    s.len() == 19 && drun(s, 0) == 4 && s[4] == '-' && drun(s, 5) == 2 && s[7] == '-' && drun(
        s,
        8,
    ) == 2 && s[10] == 'T' && drun(s, 11) == 2 && s[13] == ':' && drun(s, 14) == 2 && s[16] == ':'
        && drun(s, 17) == 2
}

/// `D{1,2}.D{1,2}.D{2,4}`, spanning the whole string.
pub open spec fn pat_dot_date(s: Seq<char>) -> bool {
    let d1 = drun(s, 0);
    1 <= d1 <= 2 && d1 < s.len() && s[d1] == '.' && {
        let d2 = drun(s, d1 + 1);
        1 <= d2 <= 2 && d1 + 1 + d2 < s.len() && s[d1 + 1 + d2] == '.' && {
            let d3 = drun(s, d1 + d2 + 2);
            2 <= d3 <= 4 && d1 + d2 + 2 + d3 == s.len()
        }
    }
}

/// From `i`, a time `D{1,2}:D{2}` with optional `:D{2}`, reaching the end.
pub open spec fn time_tail(s: Seq<char>, i: int) -> bool {
    let h = drun(s, i);
    1 <= h <= 2 && i + h < s.len() && s[i + h] == ':' && drun(s, i + h + 1) == 2 && {
        let p = i + h + 3;
        p == s.len() || (p < s.len() && s[p] == ':' && drun(s, p + 1) == 2 && p + 3 == s.len())
    }
}

/// A date as in `pat_dmy` followed by whitespace and a time.
pub open spec fn pat_date_time(s: Seq<char>) -> bool {
    let d1 = drun(s, 0);
    1 <= d1 <= 2 && d1 < s.len() && is_sd(s[d1]) && {
        let d2 = drun(s, d1 + 1);
        1 <= d2 <= 2 && d1 + 1 + d2 < s.len() && is_sd(s[d1 + 1 + d2]) && {
            let d3 = drun(s, d1 + d2 + 2);
            2 <= d3 <= 4 && {
                let q = d1 + d2 + 2 + d3;
                let w = wrun(s, q);
                w >= 1 && time_tail(s, q + w)
            }
        }
    }
}

/// A three-letter English month abbreviation begins at `i`.
pub open spec fn month3_at(s: Seq<char>, i: int) -> bool {
    0 <= i && i + 3 <= s.len() && (
        (s[i] == 'J' && s[i + 1] == 'a' && s[i + 2] == 'n')
        || (s[i] == 'F' && s[i + 1] == 'e' && s[i + 2] == 'b')
        || (s[i] == 'M' && s[i + 1] == 'a' && s[i + 2] == 'r')
        || (s[i] == 'A' && s[i + 1] == 'p' && s[i + 2] == 'r')
        || (s[i] == 'M' && s[i + 1] == 'a' && s[i + 2] == 'y')
        || (s[i] == 'J' && s[i + 1] == 'u' && s[i + 2] == 'n')
        || (s[i] == 'J' && s[i + 1] == 'u' && s[i + 2] == 'l')
        || (s[i] == 'A' && s[i + 1] == 'u' && s[i + 2] == 'g')
        || (s[i] == 'S' && s[i + 1] == 'e' && s[i + 2] == 'p')
        || (s[i] == 'O' && s[i + 1] == 'c' && s[i + 2] == 't')
        || (s[i] == 'N' && s[i + 1] == 'o' && s[i + 2] == 'v')
        || (s[i] == 'D' && s[i + 1] == 'e' && s[i + 2] == 'c'))
}

/// Month-name date such as `Dec 25, 2023`: a month word, whitespace, a
/// 1-2-digit day, an optional comma, whitespace, and a 2-4-digit year.
pub open spec fn pat_month_dy(s: Seq<char>) -> bool {
    month3_at(s, 0) && {
        let t = 3 + lrun(s, 3);
        let w = wrun(s, t);
        w >= 1 && {
            let q = t + w;
            let d = drun(s, q);
            1 <= d <= 2 && {
                let q2 = if q + d < s.len() && s[q + d] == ',' {
                    q + d + 1
                } else {
                    q + d
                };
                let w2 = wrun(s, q2);
                w2 >= 1 && {
                    let d2 = drun(s, q2 + w2);
                    2 <= d2 <= 4 && q2 + w2 + d2 == s.len()
                }
            }
        }
    }
}

/// Day-first month-name date such as `25 Dec 2023`.
pub open spec fn pat_d_month_y(s: Seq<char>) -> bool {
    let d = drun(s, 0);
    1 <= d <= 2 && {
        let w = wrun(s, d);
        w >= 1 && month3_at(s, d + w) && {
            let t = d + w + 3 + lrun(s, d + w + 3);
            let w2 = wrun(s, t);
            w2 >= 1 && {
                let d2 = drun(s, t + w2);
                2 <= d2 <= 4 && t + w2 + d2 == s.len()
            }
        }
    }
}

/// End-of-time-pattern: the end of the string, or whitespace and `AM`/`PM`
/// reaching the end.
pub open spec fn ampm_end(s: Seq<char>, p: int) -> bool {
    p == s.len() || (0 <= p && {
        let w = wrun(s, p);
        p + w + 2 == s.len() && (s[p + w] == 'A' || s[p + w] == 'P') && s[p + w + 1] == 'M'
    })
}

/// Time of day `D{1,2}:D{2}`, optional `:D{2}`, optional ` AM`/` PM`.
pub open spec fn pat_time_only(s: Seq<char>) -> bool {
    let h = drun(s, 0);
    1 <= h <= 2 && h < s.len() && s[h] == ':' && drun(s, h + 1) == 2 && {
        let p = h + 3;
        if p < s.len() && s[p] == ':' {
            drun(s, p + 1) == 2 && ampm_end(s, p + 3)
        } else {
            ampm_end(s, p)
        }
    }
}

/// Whether a relative-date unit word begins at `i`, and its length.
pub open spec fn unit_len_at(s: Seq<char>, i: int) -> int {
    if matches_at(s, seq!['d', 'a', 'y'], i) {
        3
    } else if matches_at(s, seq!['w', 'e', 'e', 'k'], i) {
        4
    } else if matches_at(s, seq!['m', 'o', 'n', 't', 'h'], i) {
        5
    } else if matches_at(s, seq!['y', 'e', 'a', 'r'], i) {
        4
    } else {
        0
    }
}

/// After a unit word: an optional plural `s`, whitespace, then `ago` or
/// `from now`.
pub open spec fn rel_tail_ok(s: Seq<char>, p: int) -> bool {
    0 <= p <= s.len() && {
        let p2 = if p < s.len() && s[p] == 's' {
            p + 1
        } else {
            p
        };
        let w2 = wrun(s, p2);
        w2 >= 1 && (matches_at(s, seq!['a', 'g', 'o'], p2 + w2) || matches_at(
            s,
            seq!['f', 'r', 'o', 'm', ' ', 'n', 'o', 'w'],
            p2 + w2,
        ))
    }
}

/// A phrase like `2 days ago` or `3 weeks from now` begins at `i`.
pub open spec fn rel_num_at(s: Seq<char>, i: int) -> bool {
    let d = drun(s, i);
    d > 0 && {
        let w = wrun(s, i + d);
        w > 0 && {
            let u = unit_len_at(s, i + d + w);
            u > 0 && rel_tail_ok(s, i + d + w + u)
        }
    }
}

/// A phrase like `last week`, `next year`, `this month` or `past year`
/// begins at `i`.
pub open spec fn rel_pair_at(s: Seq<char>, i: int) -> bool {
    (matches_at(s, seq!['l', 'a', 's', 't'], i) || matches_at(s, seq!['n', 'e', 'x', 't'], i)
        || matches_at(s, seq!['t', 'h', 'i', 's'], i) || matches_at(
        s,
        seq!['p', 'a', 's', 't'],
        i,
    )) && {
        let w = wrun(s, i + 4);
        w >= 1 && (matches_at(s, seq!['w', 'e', 'e', 'k'], i + 4 + w) || matches_at(
            s,
            seq!['m', 'o', 'n', 't', 'h'],
            i + 4 + w,
        ) || matches_at(s, seq!['y', 'e', 'a', 'r'], i + 4 + w))
    }
}

/// The lowered text mentions one of the known relative-date words.
pub open spec fn rel_term_in(l: Seq<char>) -> bool {
    contains_seq(l, "today"@) || contains_seq(l, "tomorrow"@) || contains_seq(l, "yesterday"@)
        || contains_seq(l, "now"@) || contains_seq(l, "\u{4eca}\u{5929}"@) || contains_seq(
        l,
        "\u{660e}\u{5929}"@,
    ) || contains_seq(l, "\u{6628}\u{5929}"@) || contains_seq(l, "\u{73b0}\u{5728}"@)
        || contains_seq(l, "aujourd'hui"@) || contains_seq(l, "demain"@) || contains_seq(
        l,
        "hier"@,
    ) || contains_seq(l, "\u{441}\u{435}\u{433}\u{43e}\u{434}\u{43d}\u{44f}"@) || contains_seq(
        l,
        "\u{437}\u{430}\u{432}\u{442}\u{440}\u{430}"@,
    ) || contains_seq(l, "\u{432}\u{447}\u{435}\u{440}\u{430}"@)
}

/// The relative-date test, applied to the lowered text.
pub open spec fn is_relative_text(s: Seq<char>) -> bool {
    let l = lower_seq(s);
    rel_term_in(l) || (exists|i: int| rel_num_at(l, i)) || (exists|i: int| rel_pair_at(l, i))
}

/// The whole date test: one of the anchored date or time shapes, or a
/// relative-date phrase.
pub open spec fn is_date_text(s: Seq<char>) -> bool {
    pat_dmy(s) || pat_ymd(s) || pat_iso_datetime(s) || pat_dot_date(s) || pat_date_time(s)
        || pat_month_dy(s) || pat_d_month_y(s) || pat_time_only(s) || is_relative_text(s)
}

fn check_dmy(v: &Vec<char>) -> (r: bool)
    ensures
        r == pat_dmy(v@),
{
    let n = v.len();
    let d1 = scan_digits(v, 0);
    if !(1 <= d1 && d1 <= 2 && d1 < n && (v[d1] == '/' || v[d1] == '-')) {
        return false;
    }
    let d2 = scan_digits(v, d1 + 1);
    if !(1 <= d2 && d2 <= 2 && d1 + 1 + d2 < n && (v[d1 + 1 + d2] == '/' || v[d1 + 1 + d2] == '-'))
    {
        return false;
    }
    let d3 = scan_digits(v, d1 + d2 + 2);
    2 <= d3 && d3 <= 4 && d1 + d2 + 2 + d3 == n
}

fn check_ymd(v: &Vec<char>) -> (r: bool)
    ensures
        r == pat_ymd(v@),
{
    let n = v.len();
    let d1 = scan_digits(v, 0);
    if !(d1 == 4 && 4 < n && (v[4] == '/' || v[4] == '-')) {
        return false;
    }
    let d2 = scan_digits(v, 5);
    if !(1 <= d2 && d2 <= 2 && 5 + d2 < n && (v[5 + d2] == '/' || v[5 + d2] == '-')) {
        return false;
    }
    let d3 = scan_digits(v, 6 + d2);
    1 <= d3 && d3 <= 2 && 6 + d2 + d3 == n
}

fn check_iso_datetime(v: &Vec<char>) -> (r: bool)
    ensures
        r == pat_iso_datetime(v@),
{
    let n = v.len();
    if n != 19 {
        return false;
    }
    scan_digits(v, 0) == 4 && v[4] == '-' && scan_digits(v, 5) == 2 && v[7] == '-' && scan_digits(
        v,
        8,
    ) == 2 && v[10] == 'T' && scan_digits(v, 11) == 2 && v[13] == ':' && scan_digits(v, 14) == 2
        && v[16] == ':' && scan_digits(v, 17) == 2
}

fn check_dot_date(v: &Vec<char>) -> (r: bool)
    ensures
        r == pat_dot_date(v@),
{
    let n = v.len();
    let d1 = scan_digits(v, 0);
    if !(1 <= d1 && d1 <= 2 && d1 < n && v[d1] == '.') {
        return false;
    }
    let d2 = scan_digits(v, d1 + 1);
    if !(1 <= d2 && d2 <= 2 && d1 + 1 + d2 < n && v[d1 + 1 + d2] == '.') {
        return false;
    }
    let d3 = scan_digits(v, d1 + d2 + 2);
    2 <= d3 && d3 <= 4 && d1 + d2 + 2 + d3 == n
}

fn check_time_tail(v: &Vec<char>, i: usize) -> (r: bool)
    requires
        i <= v@.len(),
    ensures
        r == time_tail(v@, i as int),
{
    let n = v.len();
    let h = scan_digits(v, i);
    if !(1 <= h && h <= 2 && i + h < n && v[i + h] == ':') {
        return false;
    }
    if scan_digits(v, i + h + 1) != 2 {
        return false;
    }
    let p = i + h + 3;
    if p == n {
        return true;
    }
    p < n && v[p] == ':' && scan_digits(v, p + 1) == 2 && p + 3 == n
}

fn check_date_time(v: &Vec<char>) -> (r: bool)
    ensures
        r == pat_date_time(v@),
{
    let n = v.len();
    let d1 = scan_digits(v, 0);
    if !(1 <= d1 && d1 <= 2 && d1 < n && (v[d1] == '/' || v[d1] == '-')) {
        return false;
    }
    let d2 = scan_digits(v, d1 + 1);
    if !(1 <= d2 && d2 <= 2 && d1 + 1 + d2 < n && (v[d1 + 1 + d2] == '/' || v[d1 + 1 + d2] == '-'))
    {
        return false;
    }
    let d3 = scan_digits(v, d1 + d2 + 2);
    if !(2 <= d3 && d3 <= 4) {
        return false;
    }
    let q = d1 + d2 + 2 + d3;
    let w = scan_ws(v, q);
    w >= 1 && check_time_tail(v, q + w)
}

fn check_month3_at(v: &Vec<char>, i: usize) -> (r: bool)
    requires
        i <= v@.len(),
    ensures
        r == month3_at(v@, i as int),
{
    let n = v.len();
    if n - i < 3 {
        return false;
    }
    let a = v[i];
    let b = v[i + 1];
    let c = v[i + 2];
    (a == 'J' && b == 'a' && c == 'n') || (a == 'F' && b == 'e' && c == 'b') || (a == 'M' && b
        == 'a' && c == 'r') || (a == 'A' && b == 'p' && c == 'r') || (a == 'M' && b == 'a' && c
        == 'y') || (a == 'J' && b == 'u' && c == 'n') || (a == 'J' && b == 'u' && c == 'l') || (a
        == 'A' && b == 'u' && c == 'g') || (a == 'S' && b == 'e' && c == 'p') || (a == 'O' && b
        == 'c' && c == 't') || (a == 'N' && b == 'o' && c == 'v') || (a == 'D' && b == 'e' && c
        == 'c')
}

fn check_month_dy(v: &Vec<char>) -> (r: bool)
    ensures
        r == pat_month_dy(v@),
{
    let n = v.len();
    if !check_month3_at(v, 0) {
        return false;
    }
    let t = 3 + scan_lower(v, 3);
    let w = scan_ws(v, t);
    if w < 1 {
        return false;
    }
    let q = t + w;
    let d = scan_digits(v, q);
    if !(1 <= d && d <= 2) {
        return false;
    }
    let q2: usize = if q + d < n && v[q + d] == ',' {
        q + d + 1
    } else {
        q + d
    };
    let w2 = scan_ws(v, q2);
    if w2 < 1 {
        return false;
    }
    let d2 = scan_digits(v, q2 + w2);
    2 <= d2 && d2 <= 4 && q2 + w2 + d2 == n
}

fn check_d_month_y(v: &Vec<char>) -> (r: bool)
    ensures
        r == pat_d_month_y(v@),
{
    let n = v.len();
    let d = scan_digits(v, 0);
    if !(1 <= d && d <= 2) {
        return false;
    }
    let w = scan_ws(v, d);
    if w < 1 {
        return false;
    }
    if !check_month3_at(v, d + w) {
        return false;
    }
    let t = d + w + 3 + scan_lower(v, d + w + 3);
    let w2 = scan_ws(v, t);
    if w2 < 1 {
        return false;
    }
    let d2 = scan_digits(v, t + w2);
    2 <= d2 && d2 <= 4 && t + w2 + d2 == n
}

fn check_ampm_end(v: &Vec<char>, p: usize) -> (r: bool)
    requires
        p <= v@.len(),
    ensures
        r == ampm_end(v@, p as int),
{
    let n = v.len();
    if p == n {
        return true;
    }
    let w = scan_ws(v, p);
    let q = p + w;
    n - q == 2 && (v[q] == 'A' || v[q] == 'P') && v[q + 1] == 'M'
}

fn check_time_only(v: &Vec<char>) -> (r: bool)
    ensures
        r == pat_time_only(v@),
{
    let n = v.len();
    let h = scan_digits(v, 0);
    if !(1 <= h && h <= 2 && h < n && v[h] == ':') {
        return false;
    }
    if scan_digits(v, h + 1) != 2 {
        return false;
    }
    let p = h + 3;
    if p < n && v[p] == ':' {
        scan_digits(v, p + 1) == 2 && check_ampm_end(v, p + 3)
    } else {
        check_ampm_end(v, p)
    }
}

/// `needle` occurs at `i` in `hay`, with a bounds guard.
fn word_at(hay: &Vec<char>, needle: &Vec<char>, i: usize) -> (r: bool)
    requires
        i <= hay@.len(),
    ensures
        r == matches_at(hay@, needle@, i as int),
{
    if needle.len() > hay.len() - i {
        return false;
    }
    match_at(hay, needle, i)
}

fn check_rel_tail(l: &Vec<char>, p: usize, ago: &Vec<char>, fromnow: &Vec<char>) -> (r: bool)
    requires
        p <= l@.len(),
        ago@ == seq!['a', 'g', 'o'],
        fromnow@ == seq!['f', 'r', 'o', 'm', ' ', 'n', 'o', 'w'],
    ensures
        r == rel_tail_ok(l@, p as int),
{
    let n = l.len();
    let p2: usize = if p < n && l[p] == 's' {
        p + 1
    } else {
        p
    };
    let w2 = scan_ws(l, p2);
    if w2 < 1 {
        return false;
    }
    word_at(l, ago, p2 + w2) || word_at(l, fromnow, p2 + w2)
}

fn check_rel_num_at(l: &Vec<char>, i: usize, words: &RelWords) -> (r: bool)
    requires
        i <= l@.len(),
        words.wf(),
    ensures
        r == rel_num_at(l@, i as int),
{
    let n = l.len();
    let d = scan_digits(l, i);
    if d == 0 {
        return false;
    }
    let w = scan_ws(l, i + d);
    if w == 0 {
        return false;
    }
    let q = i + d + w;
    if word_at(l, &words.day, q) {
        check_rel_tail(l, q + 3, &words.ago, &words.fromnow)
    } else if word_at(l, &words.week, q) {
        check_rel_tail(l, q + 4, &words.ago, &words.fromnow)
    } else if word_at(l, &words.month, q) {
        check_rel_tail(l, q + 5, &words.ago, &words.fromnow)
    } else if word_at(l, &words.year, q) {
        check_rel_tail(l, q + 4, &words.ago, &words.fromnow)
    } else {
        false
    }
}

fn check_rel_pair_at(l: &Vec<char>, i: usize, words: &RelWords) -> (r: bool)
    requires
        i <= l@.len(),
        words.wf(),
    ensures
        r == rel_pair_at(l@, i as int),
{
    let first = word_at(l, &words.last, i) || word_at(l, &words.next, i) || word_at(
        l,
        &words.this_w,
        i,
    ) || word_at(l, &words.past, i);
    if !first {
        return false;
    }
    if l.len() - i < 4 {
        proof {
            assert(!matches_at(l@, seq!['l', 'a', 's', 't'], i as int));
            assert(!matches_at(l@, seq!['n', 'e', 'x', 't'], i as int));
            assert(!matches_at(l@, seq!['t', 'h', 'i', 's'], i as int));
            assert(!matches_at(l@, seq!['p', 'a', 's', 't'], i as int));
        }
        return false;
    }
    let w = scan_ws(l, i + 4);
    if w < 1 {
        return false;
    }
    word_at(l, &words.week, i + 4 + w) || word_at(l, &words.month, i + 4 + w) || word_at(
        l,
        &words.year,
        i + 4 + w,
    )
}

/// The word list used by the relative-date scanner.
struct RelWords {
    day: Vec<char>,
    week: Vec<char>,
    month: Vec<char>,
    year: Vec<char>,
    ago: Vec<char>,
    fromnow: Vec<char>,
    last: Vec<char>,
    next: Vec<char>,
    this_w: Vec<char>,
    past: Vec<char>,
}

impl RelWords {
    spec fn wf(&self) -> bool {
        self.day@ == seq!['d', 'a', 'y'] && self.week@ == seq!['w', 'e', 'e', 'k'] && self.month@
            == seq!['m', 'o', 'n', 't', 'h'] && self.year@ == seq!['y', 'e', 'a', 'r'] && self.ago@
            == seq!['a', 'g', 'o'] && self.fromnow@ == seq!['f', 'r', 'o', 'm', ' ', 'n', 'o', 'w']
            && self.last@ == seq!['l', 'a', 's', 't'] && self.next@ == seq!['n', 'e', 'x', 't']
            && self.this_w@ == seq!['t', 'h', 'i', 's'] && self.past@ == seq!['p', 'a', 's', 't']
    }

    fn make() -> (w: RelWords)
        ensures
            w.wf(),
    {
        let w = RelWords {
            day: chars_vec("day"),
            week: chars_vec("week"),
            month: chars_vec("month"),
            year: chars_vec("year"),
            ago: chars_vec("ago"),
            fromnow: chars_vec("from now"),
            last: chars_vec("last"),
            next: chars_vec("next"),
            this_w: chars_vec("this"),
            past: chars_vec("past"),
        };
        proof {
            reveal_strlit("day");
            reveal_strlit("week");
            reveal_strlit("month");
            reveal_strlit("year");
            reveal_strlit("ago");
            reveal_strlit("from now");
            reveal_strlit("last");
            reveal_strlit("next");
            reveal_strlit("this");
            reveal_strlit("past");
            assert(w.day@ =~= seq!['d', 'a', 'y']);
            assert(w.week@ =~= seq!['w', 'e', 'e', 'k']);
            assert(w.month@ =~= seq!['m', 'o', 'n', 't', 'h']);
            assert(w.year@ =~= seq!['y', 'e', 'a', 'r']);
            assert(w.ago@ =~= seq!['a', 'g', 'o']);
            assert(w.fromnow@ =~= seq!['f', 'r', 'o', 'm', ' ', 'n', 'o', 'w']);
            assert(w.last@ =~= seq!['l', 'a', 's', 't']);
            assert(w.next@ =~= seq!['n', 'e', 'x', 't']);
            assert(w.this_w@ =~= seq!['t', 'h', 'i', 's']);
            assert(w.past@ =~= seq!['p', 'a', 's', 't']);
        }
        w
    }
}

/// Whether `v` reads as a relative date, as `is_relative_text` defines it.
pub fn relative_text(v: &Vec<char>) -> (r: bool)
    ensures
        r == is_relative_text(v@),
{
    let l = lower_chars(v);
    let terms: [&str; 14] = [
        "today", "tomorrow", "yesterday", "now", "\u{4eca}\u{5929}", "\u{660e}\u{5929}",
        "\u{6628}\u{5929}", "\u{73b0}\u{5728}", "aujourd'hui", "demain", "hier",
        "\u{441}\u{435}\u{433}\u{43e}\u{434}\u{43d}\u{44f}",
        "\u{437}\u{430}\u{432}\u{442}\u{440}\u{430}",
        "\u{432}\u{447}\u{435}\u{440}\u{430}",
    ];
    let mut k: usize = 0;
    while k < 14
        invariant
            l@ == lower_seq(v@),
            terms@.len() == 14,
            terms@ == seq![
                "today", "tomorrow", "yesterday", "now", "\u{4eca}\u{5929}", "\u{660e}\u{5929}",
                "\u{6628}\u{5929}", "\u{73b0}\u{5728}", "aujourd'hui", "demain", "hier",
                "\u{441}\u{435}\u{433}\u{43e}\u{434}\u{43d}\u{44f}",
                "\u{437}\u{430}\u{432}\u{442}\u{440}\u{430}",
                "\u{432}\u{447}\u{435}\u{440}\u{430}",
            ],
            k <= 14,
            forall|j: int| 0 <= j < k ==> !contains_seq(l@, (#[trigger] terms@[j])@),
        decreases 14 - k,
    {
        let t = chars_vec(terms[k]);
        if contains_chars(&l, &t) {
            proof {
                assert(contains_seq(l@, terms@[k as int]@));
            }
            return true;
        }
        k = k + 1;
    }
    proof {
        assert(!rel_term_in(l@)) by {
            assert(terms@[0]@ == "today"@ && terms@[1]@ == "tomorrow"@ && terms@[2]@
                == "yesterday"@ && terms@[3]@ == "now"@);
            assert(terms@[4]@ == "\u{4eca}\u{5929}"@ && terms@[5]@ == "\u{660e}\u{5929}"@
                && terms@[6]@ == "\u{6628}\u{5929}"@ && terms@[7]@ == "\u{73b0}\u{5728}"@);
            assert(terms@[8]@ == "aujourd'hui"@ && terms@[9]@ == "demain"@ && terms@[10]@
                == "hier"@);
            assert(terms@[11]@ == "\u{441}\u{435}\u{433}\u{43e}\u{434}\u{43d}\u{44f}"@
                && terms@[12]@ == "\u{437}\u{430}\u{432}\u{442}\u{440}\u{430}"@ && terms@[13]@
                == "\u{432}\u{447}\u{435}\u{440}\u{430}"@);
        }
    }
    let words = RelWords::make();
    let n = l.len();
    let mut i: usize = 0;
    while i < n
        invariant
            l@ == lower_seq(v@),
            n == l@.len(),
            words.wf(),
            i <= n,
            forall|j: int| 0 <= j < i ==> !rel_num_at(l@, j),
        decreases n - i,
    {
        if check_rel_num_at(&l, i, &words) {
            return true;
        }
        i = i + 1;
    }
    proof {
        assert forall|j: int| !rel_num_at(l@, j) by {
            if 0 <= j < n {
            } else {
                assert(drun(l@, j) == 0);
            }
        }
    }
    let mut i2: usize = 0;
    while i2 < n
        invariant
            l@ == lower_seq(v@),
            n == l@.len(),
            words.wf(),
            i2 <= n,
            forall|j: int| !rel_num_at(l@, j),
            forall|j: int| 0 <= j < i2 ==> !rel_pair_at(l@, j),
        decreases n - i2,
    {
        if check_rel_pair_at(&l, i2, &words) {
            return true;
        }
        i2 = i2 + 1;
    }
    proof {
        assert forall|j: int| !rel_pair_at(l@, j) by {
            if 0 <= j < n {
            } else {
                assert(!matches_at(l@, seq!['l', 'a', 's', 't'], j));
                assert(!matches_at(l@, seq!['n', 'e', 'x', 't'], j));
                assert(!matches_at(l@, seq!['t', 'h', 'i', 's'], j));
                assert(!matches_at(l@, seq!['p', 'a', 's', 't'], j));
            }
        }
    }
    false
}

/// Whether `v` reads as a date, a time, or a relative-date phrase.
pub fn date_text(v: &Vec<char>) -> (r: bool)
    ensures
        r == is_date_text(v@),
{
    if check_dmy(v) {
        return true;
    }
    if check_ymd(v) {
        return true;
    }
    if check_iso_datetime(v) {
        return true;
    }
    if check_dot_date(v) {
        return true;
    }
    if check_date_time(v) {
        return true;
    }
    if check_month_dy(v) {
        return true;
    }
    if check_d_month_y(v) {
        return true;
    }
    if check_time_only(v) {
        return true;
    }
    relative_text(v)
}

/// The boolean token set: yes/no words, checkbox marks, `0`/`1`, and a few
/// translations, compared on the lowered text.
pub open spec fn is_boolean_text(s: Seq<char>) -> bool {
    let l = lower_seq(s);
    l == "true"@ || l == "false"@ || l == "yes"@ || l == "no"@
        || l == "\u{2713}"@ || l == "\u{2717}"@ || l == "\u{2611}"@ || l == "\u{2610}"@
        || l == "x"@ || l == "o"@ || l == "0"@ || l == "1"@
        || l == "\u{662f}"@ || l == "\u{5426}"@ || l == "\u{6709}"@ || l == "\u{7121}"@
        || l == "oui"@ || l == "non"@
        || l == "\u{434}\u{430}"@ || l == "\u{43d}\u{435}\u{442}"@
}

/// Whether the lowered text is one of the boolean tokens.
pub fn boolean_text(v: &Vec<char>) -> (r: bool)
    ensures
        r == is_boolean_text(v@),
{
    let l = lower_chars(v);
    let tokens: [&str; 20] = [
        "true", "false", "yes", "no", "\u{2713}", "\u{2717}", "\u{2611}", "\u{2610}", "x", "o",
        "0", "1", "\u{662f}", "\u{5426}", "\u{6709}", "\u{7121}", "oui", "non",
        "\u{434}\u{430}", "\u{43d}\u{435}\u{442}",
    ];
    let mut k: usize = 0;
    while k < 20
        invariant
            l@ == lower_seq(v@),
            tokens@.len() == 20,
            tokens@ == seq![
                "true", "false", "yes", "no", "\u{2713}", "\u{2717}", "\u{2611}", "\u{2610}", "x",
                "o", "0", "1", "\u{662f}", "\u{5426}", "\u{6709}", "\u{7121}", "oui", "non",
                "\u{434}\u{430}", "\u{43d}\u{435}\u{442}",
            ],
            k <= 20,
            forall|j: int| 0 <= j < k ==> l@ != (#[trigger] tokens@[j])@,
        decreases 20 - k,
    {
        let t = chars_vec(tokens[k]);
        if eq_chars(&l, &t) {
            proof {
                assert(l@ == tokens@[k as int]@);
            }
            return true;
        }
        k = k + 1;
    }
    proof {
        assert(!is_boolean_text(v@)) by {
            assert(tokens@[0]@ == "true"@ && tokens@[1]@ == "false"@ && tokens@[2]@ == "yes"@
                && tokens@[3]@ == "no"@ && tokens@[4]@ == "\u{2713}"@ && tokens@[5]@
                == "\u{2717}"@ && tokens@[6]@ == "\u{2611}"@ && tokens@[7]@ == "\u{2610}"@
                && tokens@[8]@ == "x"@ && tokens@[9]@ == "o"@ && tokens@[10]@ == "0"@
                && tokens@[11]@ == "1"@ && tokens@[12]@ == "\u{662f}"@ && tokens@[13]@
                == "\u{5426}"@ && tokens@[14]@ == "\u{6709}"@ && tokens@[15]@ == "\u{7121}"@
                && tokens@[16]@ == "oui"@ && tokens@[17]@ == "non"@ && tokens@[18]@
                == "\u{434}\u{430}"@ && tokens@[19]@ == "\u{43d}\u{435}\u{442}"@);
        }
    }
    false
}

/// The inferred type of a cell's text: empty when blank after trimming;
/// the binary tokens `0` and `1` read as booleans, not as numbers; then the
/// numeric, date and boolean checks run in that order, and anything left is
/// `Text`.
pub open spec fn classify_text(s: Seq<char>) -> CellDataType {
    let t = trim_seq(s);
    if t.len() == 0 {
        CellDataType::Empty
    } else if t == seq!['0'] || t == seq!['1'] {
        CellDataType::Boolean
    } else if is_numeric_text(t) {
        CellDataType::Number
    } else if is_date_text(t) {
        CellDataType::Date
    } else if is_boolean_text(t) {
        CellDataType::Boolean
    } else {
        CellDataType::Text
    }
}

/// Classifies the trimmed text of a cell.
pub fn classify_chars(v: &Vec<char>) -> (r: CellDataType)
    ensures
        r == classify_text(v@),
{
    let t = trim_chars(v);
    if t.len() == 0 {
        CellDataType::Empty
    } else if t.len() == 1 && (t[0] == '0' || t[0] == '1') {
        proof {
            if t@[0] == '0' {
                assert(t@ =~= seq!['0']);
            } else {
                assert(t@ =~= seq!['1']);
            }
        }
        CellDataType::Boolean
    } else if numeric_text(&t) {
        proof {
            assert(trim_seq(v@) != seq!['0'] && trim_seq(v@) != seq!['1']) by {
                if t@ == seq!['0'] || t@ == seq!['1'] {
                    assert(t@.len() == 1);
                }
            }
        }
        CellDataType::Number
    } else if date_text(&t) {
        CellDataType::Date
    } else if boolean_text(&t) {
        CellDataType::Boolean
    } else {
        CellDataType::Text
    }
}

} // verus!
