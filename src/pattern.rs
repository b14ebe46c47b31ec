use vstd::prelude::*;
use crate::text::{all_digits, chars_of, digits_value, small_number};

verus! {

/// How an index name writes its date.
#[derive(Clone, Copy, Debug, PartialEq, Eq, Structural)]
pub enum NamingConvention {
    /// `<prefix>YYYY-MM` or `<prefix>YYYY.MM`.
    Month,
    /// `<prefix>YYYY-W`, with an ISO week of one or two digits.
    Week,
}

/// Recognises index names that carry a date after a literal prefix.
pub struct Matcher {
    pub convention: NamingConvention,
    pub prefix: Vec<char>,
}

/// `name` starts with `prefix`.
pub open spec fn has_prefix(prefix: Seq<char>, name: Seq<char>) -> bool {
    prefix.len() <= name.len() && name.subrange(0, prefix.len() as int) == prefix
}

/// `name` is `prefix`, four digits, `-` or `.`, and two digits.
pub open spec fn is_month_name(prefix: Seq<char>, name: Seq<char>) -> bool {
    let p = prefix.len() as int;
    &&& has_prefix(prefix, name)
    &&& name.len() == p + 7
    &&& all_digits(name, p, p + 4)
    &&& name[p + 4] == '-' || name[p + 4] == '.'
    &&& all_digits(name, p + 5, p + 7)
}

/// `name` is `prefix`, four digits, `-`, and one or two digits.
pub open spec fn is_week_name(prefix: Seq<char>, name: Seq<char>) -> bool {
    let p = prefix.len() as int;
    &&& has_prefix(prefix, name)
    &&& name.len() == p + 6 || name.len() == p + 7
    &&& all_digits(name, p, p + 4)
    &&& name[p + 4] == '-'
    &&& all_digits(name, p + 5, name.len() as int)
}

/// The year and the month or week that `name` carries under `convention`, if it has
/// that shape.
pub open spec fn name_date(convention: NamingConvention, prefix: Seq<char>, name: Seq<char>) -> Option<
    (int, int),
> {
    let p = prefix.len() as int;
    let shaped = match convention {
        NamingConvention::Month => is_month_name(prefix, name),
        NamingConvention::Week => is_week_name(prefix, name),
    };
    if shaped {
        Some(
            (
                digits_value(name.subrange(p, p + 4)) as int,
                digits_value(name.subrange(p + 5, name.len() as int)) as int,
            ),
        )
    } else {
        None
    }
}

/// Builds the matcher for `convention`; `prefix` is taken literally.
pub fn build_matcher(convention: NamingConvention, prefix: &str) -> (r: Matcher)
    ensures
        r.convention == convention,
        r.prefix@ == prefix@,
{
    Matcher { convention, prefix: chars_of(prefix) }
}

fn digits_between(s: &Vec<char>, i: usize, j: usize) -> (r: bool)
    requires
        i <= j <= s@.len(),
    ensures
        r == all_digits(s@, i as int, j as int),
{
    let mut k: usize = i;
    while k < j
        invariant
            i <= k <= j,
            j <= s@.len(),
            all_digits(s@, i as int, k as int),
        decreases j - k,
    {
        if !('0' <= s[k] && s[k] <= '9') {
            return false;
        }
        k = k + 1;
    }
    true
}

fn starts_with(prefix: &Vec<char>, name: &Vec<char>) -> (r: bool)
    ensures
        r == has_prefix(prefix@, name@),
{
    if prefix.len() > name.len() {
        return false;
    }
    let mut k: usize = 0;
    while k < prefix.len()
        invariant
            k <= prefix@.len() <= name@.len(),
            name@.subrange(0, k as int) == prefix@.subrange(0, k as int),
        decreases prefix@.len() - k,
    {
        if name[k] != prefix[k] {
            assert(name@.subrange(0, prefix@.len() as int)[k as int] != prefix@[k as int]);
            return false;
        }
        assert(name@.subrange(0, k + 1 as int) =~= name@.subrange(0, k as int).push(name@[k as int]));
        assert(prefix@.subrange(0, k + 1 as int) =~= prefix@.subrange(0, k as int).push(
            prefix@[k as int],
        ));
        k = k + 1;
    }
    assert(prefix@.subrange(0, k as int) =~= prefix@);
    true
}

impl Matcher {
    /// The year and the month or week part of `name`, when it has the shape of
    /// this matcher's convention; nothing otherwise. The numbers are not checked
    /// against the calendar.
    pub fn match_name(&self, name: &str) -> (r: Option<(i32, u32)>)
        ensures
            match r {
                Some((y, part)) => name_date(self.convention, self.prefix@, name@) == Some(
                    (y as int, part as int),
                ),
                None => name_date(self.convention, self.prefix@, name@) is None,
            },
            r matches Some((y, part)) ==> 0 <= y <= 9999 && part <= 9999,
    {
        let t = chars_of(name);
        let p = self.prefix.len();
        if !starts_with(&self.prefix, &t) {
            return None;
        }
        let n = t.len();
        let shaped = match self.convention {
            NamingConvention::Month => n - p == 7 && (t[p + 4] == '-' || t[p + 4] == '.'),
            NamingConvention::Week => (n - p == 6 || n - p == 7) && t[p + 4] == '-',
        };
        if !shaped || !digits_between(&t, p, p + 4) || !digits_between(&t, p + 5, n) {
            return None;
        }
        let year = small_number(&t, p, p + 4);
        let part = small_number(&t, p + 5, n);
        Some((year as i32, part))
    }
}

} // verus!
