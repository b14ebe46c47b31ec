use vstd::prelude::*;
use vstd::std_specs::iter::IteratorSpec;

verus! {

broadcast use vstd::string::axiom_spec_iter, vstd::string::next_postcondition;

/// The characters of `s`, in order.
pub fn chars_of(s: &str) -> (r: Vec<char>)
    ensures
        r@ == s@,
{
    let mut it = s.chars();
    let mut out: Vec<char> = Vec::new();
    loop
        invariant
            it.obeys_prophetic_iter_laws(),
            it.decrease() is Some,
            out@ + it.remaining() == s@,
        ensures
            out@ == s@,
        decreases it.decrease()->0,
    {
        match it.next() {
            Some(c) => {
                out.push(c);
            },
            None => {
                assert(out@ + it.remaining() == out@);
                break;
            },
        }
    }
    out
}

/// An ASCII decimal digit.
pub open spec fn is_digit(c: char) -> bool {
    '0' <= c <= '9'
}

/// The number that a run of decimal digits writes.
pub open spec fn digits_value(d: Seq<char>) -> nat
    decreases d.len(),
{
    if d.len() == 0 {
        0
    } else {
        digits_value(d.drop_last()) * 10 + (d.last() as nat - '0' as nat) as nat
    }
}

/// Powers of ten.
pub open spec fn pow10(n: nat) -> nat
    decreases n,
{
    if n == 0 {
        1
    } else {
        10 * pow10((n - 1) as nat)
    }
}

/// Every character of `s[i..j]` is a digit.
pub open spec fn all_digits(s: Seq<char>, i: int, j: int) -> bool {
    forall|k: int| i <= k < j ==> is_digit(#[trigger] s[k])
}

/// The number written by the digits `s[i..j]`, at most four of them.
pub fn small_number(s: &Vec<char>, i: usize, j: usize) -> (r: u32)
    requires
        i <= j <= s@.len(),
        j - i <= 4,
        all_digits(s@, i as int, j as int),
    ensures
        r as int == digits_value(s@.subrange(i as int, j as int)),
        r < 10000,
{
    let mut acc: u32 = 0;
    let mut k: usize = i;
    while k < j
        invariant
            i <= k <= j,
            j <= s@.len(),
            j - i <= 4,
            all_digits(s@, i as int, j as int),
            acc as int == digits_value(s@.subrange(i as int, k as int)),
            acc < pow10((k - i) as nat),
            pow10((k - i) as nat) <= 10000,
        decreases j - k,
    {
        assert(s@.subrange(i as int, k + 1 as int).drop_last() == s@.subrange(i as int, k as int));
        assert(is_digit(s@[k as int]));
        assert(pow10((k + 1 - i) as nat) == 10 * pow10((k - i) as nat));
        assert(pow10((k + 1 - i) as nat) <= 10000) by {
            assert(k + 1 - i <= 4);
            lemma_pow10_mono((k + 1 - i) as nat, 4);
            reveal_with_fuel(pow10, 5);
        }
        acc = acc * 10 + (s[k] as u32 - '0' as u32);
        k = k + 1;
    }
    acc
}

/// Powers of ten grow with the exponent.
pub proof fn lemma_pow10_mono(m: nat, n: nat)
    requires
        m <= n,
    ensures
        pow10(m) <= pow10(n),
    decreases n - m,
{
    if m < n {
        lemma_pow10_mono(m, (n - 1) as nat);
    }
}

} // verus!
