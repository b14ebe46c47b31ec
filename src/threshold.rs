use vstd::prelude::*;
use crate::text::{chars_of, digits_value, is_digit};

verus! {

/// Why a threshold text was refused.
#[derive(Clone, Copy, Debug, PartialEq, Eq, Structural)]
pub enum ParseError {
    /// The text is not digits followed by a month unit.
    Malformed,
    /// The number is too large for a non-negative `i32`.
    Negative,
}

/// Unicode `White_Space` characters.
pub open spec fn is_space(c: char) -> bool {
    ||| '\u{9}' <= c <= '\u{d}'
    ||| c == ' '
    ||| c == '\u{85}'
    ||| c == '\u{a0}'
    ||| c == '\u{1680}'
    ||| '\u{2000}' <= c <= '\u{200a}'
    ||| c == '\u{2028}'
    ||| c == '\u{2029}'
    ||| c == '\u{202f}'
    ||| c == '\u{205f}'
    ||| c == '\u{3000}'
}

/// `c` is the lower-case ASCII letter `l` up to case (with the long s `ſ` for `s`).
pub open spec fn folds_to(c: char, l: char) -> bool {
    ||| c == l
    ||| c as int == l as int - 32
    ||| (l == 's' && c == '\u{17f}')
}

/// The month unit: `m`, `month` or `months`, in any case.
pub open spec fn is_unit(u: Seq<char>) -> bool {
    &&& u.len() == 1 || u.len() == 5 || u.len() == 6
    &&& folds_to(u[0], 'm')
    &&& u.len() >= 5 ==> folds_to(u[1], 'o') && folds_to(u[2], 'n') && folds_to(u[3], 't')
        && folds_to(u[4], 'h')
    &&& u.len() == 6 ==> folds_to(u[5], 's')
}

/// First position at or after `i` that does not hold a space.
pub open spec fn skip_space(s: Seq<char>, i: int) -> int
    decreases s.len() - i,
{
    if 0 <= i < s.len() && is_space(s[i]) {
        skip_space(s, i + 1)
    } else {
        i
    }
}

/// First position at or after `i` that does not hold a digit.
pub open spec fn skip_digits(s: Seq<char>, i: int) -> int
    decreases s.len() - i,
{
    if 0 <= i < s.len() && is_digit(s[i]) {
        skip_digits(s, i + 1)
    } else {
        i
    }
}

/// End of `s[..j]` once its trailing spaces are dropped.
pub open spec fn trim_end(s: Seq<char>, j: int) -> int
    decreases j,
{
    if 0 < j <= s.len() && is_space(s[j - 1]) {
        trim_end(s, j - 1)
    } else {
        j
    }
}

/// Where the digits start.
pub open spec fn digits_start(s: Seq<char>) -> int {
    skip_space(s, 0)
}

/// Where the digits end.
pub open spec fn digits_end(s: Seq<char>) -> int {
    skip_digits(s, digits_start(s))
}

/// Where the unit starts.
pub open spec fn unit_start(s: Seq<char>) -> int {
    skip_space(s, digits_end(s))
}

/// Where the unit ends.
pub open spec fn unit_end(s: Seq<char>) -> int {
    trim_end(s, s.len() as int)
}

/// `s` is optional spaces, one or more digits, optional spaces, a month unit and
/// optional spaces.
pub open spec fn is_threshold_text(s: Seq<char>) -> bool {
    &&& digits_start(s) < digits_end(s)
    &&& unit_start(s) <= unit_end(s)
    &&& is_unit(s.subrange(unit_start(s), unit_end(s)))
}

/// The number of months that a threshold text gives.
pub open spec fn threshold_value(s: Seq<char>) -> nat {
    digits_value(s.subrange(digits_start(s), digits_end(s)))
}

fn space_char(c: char) -> (r: bool)
    ensures
        r == is_space(c),
{
    ('\u{9}' <= c && c <= '\u{d}') || c == ' ' || c == '\u{85}' || c == '\u{a0}' || c == '\u{1680}'
        || ('\u{2000}' <= c && c <= '\u{200a}') || c == '\u{2028}' || c == '\u{2029}'
        || c == '\u{202f}' || c == '\u{205f}' || c == '\u{3000}'
}

fn folds_char(c: char, l: char) -> (r: bool)
    requires
        'a' <= l <= 'z',
    ensures
        r == folds_to(c, l),
{
    c == l || (c as u32) == (l as u32) - 32 || (l == 's' && c == '\u{17f}')
}

fn space_end(s: &Vec<char>, i: usize) -> (r: usize)
    requires
        i <= s@.len(),
    ensures
        r as int == skip_space(s@, i as int),
        i <= r <= s@.len(),
{
    let mut j: usize = i;
    while j < s.len() && space_char(s[j])
        invariant
            i <= j <= s@.len(),
            skip_space(s@, j as int) == skip_space(s@, i as int),
        decreases s@.len() - j,
    {
        j = j + 1;
    }
    j
}

fn digit_end(s: &Vec<char>, i: usize) -> (r: usize)
    requires
        i <= s@.len(),
    ensures
        r as int == skip_digits(s@, i as int),
        i <= r <= s@.len(),
{
    let mut j: usize = i;
    while j < s.len() && '0' <= s[j] && s[j] <= '9'
        invariant
            i <= j <= s@.len(),
            skip_digits(s@, j as int) == skip_digits(s@, i as int),
        decreases s@.len() - j,
    {
        j = j + 1;
    }
    j
}

fn trimmed_end(s: &Vec<char>) -> (r: usize)
    ensures
        r as int == trim_end(s@, s@.len() as int),
        r <= s@.len(),
{
    let mut j: usize = s.len();
    while j > 0 && space_char(s[j - 1])
        invariant
            j <= s@.len(),
            trim_end(s@, j as int) == trim_end(s@, s@.len() as int),
        decreases j,
    {
        j = j - 1;
    }
    j
}

fn unit_at(s: &Vec<char>, c: usize, d: usize) -> (r: bool)
    requires
        c <= d <= s@.len(),
    ensures
        r == is_unit(s@.subrange(c as int, d as int)),
{
    let n = d - c;
    if n != 1 && n != 5 && n != 6 {
        return false;
    }
    let head = folds_char(s[c], 'm');
    let word = n < 5 || (folds_char(s[c + 1], 'o') && folds_char(s[c + 2], 'n') && folds_char(
        s[c + 3],
        't',
    ) && folds_char(s[c + 4], 'h'));
    let plural = n < 6 || folds_char(s[c + 5], 's');
    head && word && plural
}

/// Parses a month threshold such as `25m`, ` 12 months ` or `0M`.
pub fn parse_months(s: &str) -> (r: Result<i32, ParseError>)
    ensures
        match r {
            Ok(n) => is_threshold_text(s@) && n as int == threshold_value(s@),
            Err(ParseError::Malformed) => !is_threshold_text(s@),
            Err(ParseError::Negative) => is_threshold_text(s@) && threshold_value(s@) > i32::MAX,
        },
{
    let t = chars_of(s);
    let a = space_end(&t, 0);
    let b = digit_end(&t, a);
    let c = space_end(&t, b);
    let d = trimmed_end(&t);
    if !(a < b && c <= d && unit_at(&t, c, d)) {
        return Err(ParseError::Malformed);
    }
    let mut acc: u64 = 0;
    let mut too_large = false;
    let mut k: usize = a;
    while k < b
        invariant
            a <= k <= b,
            b <= t@.len(),
            b as int == skip_digits(t@, a as int),
            acc <= i32::MAX,
            !too_large ==> acc as int == digits_value(t@.subrange(a as int, k as int)),
            too_large ==> digits_value(t@.subrange(a as int, k as int)) > i32::MAX,
        decreases b - k,
    {
        proof {
            lemma_digits_run(t@, a as int, k as int);
        }
        let dv = (t[k] as u32 - '0' as u32) as u64;
        let ghost before = digits_value(t@.subrange(a as int, k as int));
        assert(t@.subrange(a as int, k + 1 as int).drop_last() == t@.subrange(a as int, k as int));
        assert(digits_value(t@.subrange(a as int, k + 1 as int)) == before * 10 + dv);
        if !too_large {
            let next = acc * 10 + dv;
            if next > i32::MAX as u64 {
                too_large = true;
            } else {
                acc = next;
            }
        } else {
            assert(before * 10 + dv >= before) by (nonlinear_arith);
        }
        k = k + 1;
    }
    if too_large {
        Err(ParseError::Negative)
    } else {
        Ok(acc as i32)
    }
}

/// Every position from `i` up to the end of the digit run starting at `i` holds a digit.
proof fn lemma_digits_run(s: Seq<char>, i: int, k: int)
    requires
        0 <= i <= k < skip_digits(s, i),
    ensures
        is_digit(s[k]),
    decreases k - i,
{
    if i < k {
        lemma_digits_run(s, i + 1, k);
    }
}

} // verus!
