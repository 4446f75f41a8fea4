//! Decimal rendering of unsigned integers.
//!
//! The object store hands out generation tokens and the store layout prefixes
//! every object path with the folder id, so the crate needs a verified way to
//! turn a `u64` into its decimal digits.  `spec_decimal` is the mathematical
//! definition, `u64_to_string` the executable renderer, and
//! `lemma_spec_decimal_injective` the fact that two different numbers never
//! render to the same digit string — which is what makes a rendered
//! generation counter usable as an optimistic-concurrency token.

use vstd::prelude::*;

verus! {

/// The character for a single decimal digit.
pub open spec fn digit_char(d: int) -> char {
    if d == 0 {
        '0'
    } else if d == 1 {
        '1'
    } else if d == 2 {
        '2'
    } else if d == 3 {
        '3'
    } else if d == 4 {
        '4'
    } else if d == 5 {
        '5'
    } else if d == 6 {
        '6'
    } else if d == 7 {
        '7'
    } else if d == 8 {
        '8'
    } else {
        '9'
    }
}

/// The decimal rendering of a non-negative integer, most significant digit
/// first and without leading zeros.
pub open spec fn spec_decimal(n: int) -> Seq<char>
    decreases n,
{
    if n < 10 {
        seq![digit_char(n)]
    } else {
        spec_decimal(n / 10).push(digit_char(n % 10))
    }
}

/// Two digits in range render to the same character only if they are equal.
proof fn lemma_digit_char_injective(a: int, b: int)
    requires
        0 <= a < 10,
        0 <= b < 10,
        digit_char(a) == digit_char(b),
    ensures
        a == b,
{
}

/// Decimal renderings of distinct non-negative integers are distinct.
pub proof fn lemma_spec_decimal_injective(a: int, b: int)
    requires
        0 <= a,
        0 <= b,
        spec_decimal(a) == spec_decimal(b),
    ensures
        a == b,
    decreases a + b,
{
    if a < 10 && b < 10 {
        assert(spec_decimal(a)[0] == digit_char(a));
        assert(spec_decimal(b)[0] == digit_char(b));
        lemma_digit_char_injective(a, b);
    } else if a < 10 {
        assert(spec_decimal(a).len() == 1);
        assert(spec_decimal(b).len() == spec_decimal(b / 10).len() + 1);
        assert(spec_decimal(b / 10).len() >= 1) by {
            lemma_spec_decimal_len(b / 10);
        }
    } else if b < 10 {
        assert(spec_decimal(b).len() == 1);
        assert(spec_decimal(a).len() == spec_decimal(a / 10).len() + 1);
        assert(spec_decimal(a / 10).len() >= 1) by {
            lemma_spec_decimal_len(a / 10);
        }
    } else {
        let la = spec_decimal(a).len();
        assert(spec_decimal(a).last() == digit_char(a % 10));
        assert(spec_decimal(b).last() == digit_char(b % 10));
        lemma_digit_char_injective(a % 10, b % 10);
        assert(spec_decimal(a).drop_last() =~= spec_decimal(a / 10));
        assert(spec_decimal(b).drop_last() =~= spec_decimal(b / 10));
        lemma_spec_decimal_injective(a / 10, b / 10);
    }
}

/// A decimal rendering always has at least one digit.
pub proof fn lemma_spec_decimal_len(n: int)
    ensures
        spec_decimal(n).len() >= 1,
    decreases n,
{
    if n >= 10 {
        lemma_spec_decimal_len(n / 10);
    }
}

/// The digit characters of a digit sequence, read back to front.
spec fn rev_digit_chars(ds: Seq<u64>) -> Seq<char> {
    Seq::new(ds.len(), |j: int| digit_char(ds[ds.len() - 1 - j] as int))
}

/// Appends the single character of a decimal digit to a string.
fn push_digit(s: &mut String, d: u64)
    requires
        d < 10,
    ensures
        final(s)@ == old(s)@.push(digit_char(d as int)),
{
    let ghost pre = s@;
    if d == 0 {
        proof {
            reveal_strlit("0");
        }
        s.append("0");
    } else if d == 1 {
        proof {
            reveal_strlit("1");
        }
        s.append("1");
    } else if d == 2 {
        proof {
            reveal_strlit("2");
        }
        s.append("2");
    } else if d == 3 {
        proof {
            reveal_strlit("3");
        }
        s.append("3");
    } else if d == 4 {
        proof {
            reveal_strlit("4");
        }
        s.append("4");
    } else if d == 5 {
        proof {
            reveal_strlit("5");
        }
        s.append("5");
    } else if d == 6 {
        proof {
            reveal_strlit("6");
        }
        s.append("6");
    } else if d == 7 {
        proof {
            reveal_strlit("7");
        }
        s.append("7");
    } else if d == 8 {
        proof {
            reveal_strlit("8");
        }
        s.append("8");
    } else {
        proof {
            reveal_strlit("9");
        }
        s.append("9");
    }
    proof {
        assert(s@ =~= pre.push(digit_char(d as int)));
    }
}

/// Renders a `u64` in decimal.
pub fn u64_to_string(n: u64) -> (s: String)
    ensures
        s@ == spec_decimal(n as int),
{
    let mut digits: Vec<u64> = Vec::new();
    let mut m: u64 = n;
    while m >= 10
        invariant
            spec_decimal(n as int) == spec_decimal(m as int) + rev_digit_chars(digits@),
            forall|i: int| 0 <= i < digits@.len() ==> digits@[i] < 10,
        decreases m,
    {
        let ghost old_digits = digits@;
        let d: u64 = m % 10;
        digits.push(d);
        proof {
            assert(rev_digit_chars(digits@) =~= seq![digit_char(d as int)] + rev_digit_chars(
                old_digits,
            ));
            assert(spec_decimal(m as int) == spec_decimal(m as int / 10).push(
                digit_char(m as int % 10),
            ));
            assert(spec_decimal(m as int / 10).push(digit_char(m as int % 10))
                + rev_digit_chars(old_digits) =~= spec_decimal(m as int / 10) + (seq![
                digit_char(d as int),
            ] + rev_digit_chars(old_digits)));
        }
        m = m / 10;
    }
    let ghost old_digits = digits@;
    digits.push(m);
    proof {
        assert(rev_digit_chars(digits@) =~= seq![digit_char(m as int)] + rev_digit_chars(
            old_digits,
        ));
        assert(spec_decimal(m as int) =~= seq![digit_char(m as int)]);
        assert(spec_decimal(n as int) =~= rev_digit_chars(digits@));
    }
    let mut s = String::new();
    let mut i: usize = digits.len();
    while i > 0
        invariant
            i <= digits@.len(),
            forall|k: int| 0 <= k < digits@.len() ==> digits@[k] < 10,
            s@ == Seq::new(
                (digits@.len() - i) as nat,
                |j: int| digit_char(digits@[digits@.len() - 1 - j] as int),
            ),
        decreases i,
    {
        let ghost pre = s@;
        i = i - 1;
        push_digit(&mut s, digits[i]);
        proof {
            assert(s@ =~= Seq::new(
                (digits@.len() - i) as nat,
                |j: int| digit_char(digits@[digits@.len() - 1 - j] as int),
            ));
        }
    }
    proof {
        assert(s@ =~= rev_digit_chars(digits@));
    }
    s
}

} // verus!
