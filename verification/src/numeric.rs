//! Signed base-10 integer literals, and truncating division.
//!
//! `spec_parse_i32` is the mathematical definition of which tokens are
//! integer literals: an optional `+` or `-` sign, one or more ASCII digits,
//! and a value that fits in `i32`. The executable `parse_i32` is proved to
//! return exactly that. `div_trunc` gives the semantics of the division
//! operator: truncation toward zero; the one quotient it cannot represent
//! in `i32`, that of `i32::MIN / -1`, surfaces as an overflow.

use vstd::prelude::*;
use vstd::arithmetic::div_mod::{
    lemma_div_decreases, lemma_div_is_ordered, lemma_div_is_ordered_by_denominator,
    lemma_div_nonincreasing, lemma_div_pos_is_pos, lemma_fundamental_div_mod,
    lemma_mod_division_less_than_divisor,
};

verus! {

/// An ASCII decimal digit.
pub open spec fn is_digit(c: char) -> bool {
    48 <= c as int <= 57
}

/// The numeric value of an ASCII decimal digit.
pub open spec fn digit_val(c: char) -> int {
    c as int - 48
}

pub open spec fn all_digits(t: Seq<char>) -> bool {
    forall|i: int| 0 <= i < t.len() ==> is_digit(#[trigger] t[i])
}

/// The value of a digit string read in base 10.
pub open spec fn digits_val(t: Seq<char>) -> int
    decreases t.len(),
{
    if t.len() == 0 {
        0
    } else {
        digits_val(t.drop_last()) * 10 + digit_val(t.last())
    }
}

/// Which tokens are integer literals, and their value: an optional sign,
/// then one or more digits, denoting a value representable in `i32`.
pub open spec fn spec_parse_i32(t: Seq<char>) -> Option<i32> {
    let digits = if t.len() > 0 && (t[0] == '+' || t[0] == '-') {
        t.skip(1)
    } else {
        t
    };
    let negative = t.len() > 0 && t[0] == '-';
    if digits.len() == 0 || !all_digits(digits) {
        None
    } else {
        let v = if negative {
            -digits_val(digits)
        } else {
            digits_val(digits)
        };
        if i32::MIN <= v <= i32::MAX {
            Some(v as i32)
        } else {
            None
        }
    }
}

proof fn lemma_digits_val_nonneg(t: Seq<char>)
    requires
        all_digits(t),
    ensures
        digits_val(t) >= 0,
    decreases t.len(),
{
    if t.len() > 0 {
        assert(all_digits(t.drop_last())) by {
            assert(forall|i: int|
                0 <= i < t.len() - 1 ==> is_digit(#[trigger] t.drop_last()[i]) == is_digit(t[i]));
        }
        lemma_digits_val_nonneg(t.drop_last());
    }
}

/// Reading more digits never lowers the value.
proof fn lemma_digits_val_prefix(t: Seq<char>, k: int)
    requires
        all_digits(t),
        0 <= k <= t.len(),
    ensures
        digits_val(t.take(k)) <= digits_val(t),
    decreases t.len() - k,
{
    assert(all_digits(t.take(k))) by {
        assert(forall|i: int|
            0 <= i < k ==> is_digit(#[trigger] t.take(k)[i]) == is_digit(t[i]));
    }
    if k == t.len() {
        assert(t.take(k) =~= t);
    } else {
        assert(t.take(k + 1).drop_last() =~= t.take(k));
        assert(t.take(k + 1).last() == t[k]);
        lemma_digits_val_nonneg(t.take(k));
        assert(digits_val(t.take(k + 1)) == digits_val(t.take(k)) * 10 + digit_val(t[k]));
        lemma_digits_val_prefix(t, k + 1);
    }
}

/// An integer literal is nonempty and holds no whitespace: only a sign
/// and digits.
pub proof fn lemma_literal_token_is_word(t: Seq<char>)
    requires
        spec_parse_i32(t) is Some,
    ensures
        t.len() > 0,
        forall|i: int| 0 <= i < t.len() ==> !crate::tokens::is_ascii_space(#[trigger] t[i]),
{
    let signed = t[0] == '+' || t[0] == '-';
    let digits = if signed {
        t.skip(1)
    } else {
        t
    };
    assert(all_digits(digits));
    assert forall|i: int| 0 <= i < t.len() implies !crate::tokens::is_ascii_space(
        #[trigger] t[i],
    ) by {
        if signed && i == 0 {
        } else if signed {
            assert(t[i] == digits[i - 1]);
            assert(is_digit(digits[i - 1]));
        } else {
            assert(is_digit(digits[i]));
        }
    }
}

/// Decide whether `s` is an integer literal, and its value if it is.
pub fn parse_i32(s: &str) -> (r: Option<i32>)
    ensures
        r == spec_parse_i32(s@),
{
    let n: usize = s.unicode_len();
    if n == 0 {
        return None;
    }
    let c0 = s.get_char(0);
    let start: usize = if c0 == '-' || c0 == '+' {
        1
    } else {
        0
    };
    let negative = c0 == '-';
    let ghost digits = if start == 1 {
        s@.skip(1)
    } else {
        s@
    };
    proof {
        assert(digits.len() == n - start);
        assert(forall|j: int|
            0 <= j < digits.len() ==> #[trigger] digits[j] == s@[j + start]);
    }
    if start == n {
        return None;
    }
    let mut i: usize = start;
    let mut acc: i64 = 0;
    while i < n
        invariant
            n == s@.len(),
            n > 0,
            start <= i <= n,
            start < n,
            start == 1 <==> (s@[0] == '+' || s@[0] == '-'),
            digits == (if s@[0] == '+' || s@[0] == '-' {
                s@.skip(1)
            } else {
                s@
            }),
            digits.len() == n - start,
            forall|j: int| 0 <= j < digits.len() ==> #[trigger] digits[j] == s@[j + start],
            all_digits(digits.take(i - start)),
            acc == digits_val(digits.take(i - start)),
            0 <= acc <= 0x8000_0000i64,
        decreases n - i,
    {
        let c = s.get_char(i);
        let d: u32 = c as u32;
        proof {
            assert(digits[i - start] == s@[i as int]);
        }
        if d < 48 || d > 57 {
            proof {
                assert(!is_digit(digits[i - start]));
                assert(!all_digits(digits));
            }
            return None;
        }
        proof {
            assert(digits.take(i - start + 1).drop_last() =~= digits.take(i - start));
            assert(digits.take(i - start + 1).last() == digits[i - start]);
            assert(forall|j: int|
                0 <= j < i - start + 1 ==> is_digit(#[trigger] digits.take(i - start + 1)[j])
                    == is_digit(digits[j]));
        }
        acc = acc * 10 + ((d - 48) as i64);
        i = i + 1;
        if acc > 0x8000_0000i64 {
            // Too many digits already: whatever follows, the value cannot
            // be representable, and a non-digit would reject the token too.
            proof {
                if all_digits(digits) {
                    lemma_digits_val_prefix(digits, i - start);
                    lemma_digits_val_nonneg(digits);
                }
            }
            return None;
        }
    }
    proof {
        assert(digits.take(n - start) =~= digits);
    }
    if negative {
        Some((-acc) as i32)
    } else {
        if acc > 0x7fff_ffffi64 {
            None
        } else {
            Some(acc as i32)
        }
    }
}

/// The decimal digits of `n >= 0`, most significant first; empty for zero.
pub open spec fn digits_of(n: int) -> Seq<char>
    decreases n,
{
    if n <= 0 {
        Seq::empty()
    } else {
        digits_of(n / 10).push(((n % 10) + 48) as char)
    }
}

/// The canonical decimal rendering of `v`: a minus sign for negative
/// values, then the digits, with `0` written as `"0"`.
pub open spec fn dec_literal(v: i32) -> Seq<char> {
    if v == 0 {
        seq!['0']
    } else if v > 0 {
        digits_of(v as int)
    } else {
        seq!['-'] + digits_of(-(v as int))
    }
}

proof fn lemma_digits_of_correct(n: int)
    requires
        n >= 0,
    ensures
        all_digits(digits_of(n)),
        digits_val(digits_of(n)) == n,
        n > 0 ==> digits_of(n).len() > 0,
    decreases n,
{
    if n > 0 {
        lemma_div_decreases(n, 10);
        lemma_div_pos_is_pos(n, 10);
        lemma_digits_of_correct(n / 10);
        lemma_mod_division_less_than_divisor(n, 10);
        let d = ((n % 10) + 48) as char;
        assert(d as int == n % 10 + 48);
        assert(digits_of(n).drop_last() =~= digits_of(n / 10));
        assert(digits_of(n).last() == d);
        assert(digits_val(digits_of(n)) == (n / 10) * 10 + (n % 10));
        lemma_fundamental_div_mod(n, 10);
        assert(all_digits(digits_of(n))) by {
            assert(forall|i: int|
                0 <= i < digits_of(n).len() - 1 ==> #[trigger] digits_of(n)[i] == digits_of(
                    n / 10,
                )[i]);
        }
    }
}

/// Every `i32` value round-trips: its decimal rendering is an integer
/// literal, and it parses back to the value itself.
pub proof fn lemma_dec_literal_parses(v: i32)
    ensures
        spec_parse_i32(dec_literal(v)) == Some(v),
{
    let t = dec_literal(v);
    if v == 0 {
        assert(t.drop_last() =~= Seq::<char>::empty());
        assert(digits_val(Seq::<char>::empty()) == 0);
        assert(all_digits(t));
        assert(digits_val(t) == 0);
    } else if v > 0 {
        lemma_digits_of_correct(v as int);
        assert(t[0] != '+' && t[0] != '-') by {
            assert(is_digit(t[0]));
        }
    } else {
        lemma_digits_of_correct(-(v as int));
        assert(t[0] == '-');
        assert(t.skip(1) =~= digits_of(-(v as int)));
    }
}

/// Division truncating toward zero, for a nonzero divisor, as an exact
/// function of the mathematical arguments.
pub open spec fn div_trunc(x: int, d: int) -> int {
    if x >= 0 && d > 0 {
        x / d
    } else if x < 0 && d < 0 {
        (-x) / (-d)
    } else if x < 0 {
        -((-x) / d)
    } else {
        -(x / (-d))
    }
}

/// The truncating quotient fits in `i32` for every pair of `i32`
/// arguments except `i32::MIN / -1`, the one division that overflows.
pub proof fn lemma_div_trunc_in_range(x: i32, y: i32)
    requires
        y != 0,
        !(x == i32::MIN && y == -1),
    ensures
        i32::MIN <= div_trunc(x as int, y as int) <= i32::MAX,
{
    let xi = x as int;
    let yi = y as int;
    if xi >= 0 && yi > 0 {
        lemma_div_nonincreasing(xi, yi);
        lemma_div_pos_is_pos(xi, yi);
    } else if xi < 0 && yi < 0 {
        lemma_div_nonincreasing(-xi, -yi);
        lemma_div_pos_is_pos(-xi, -yi);
        if -yi >= 2 {
            lemma_div_is_ordered_by_denominator(-xi, 2, -yi);
            assert((-xi) / 2 <= 0x8000_0000int / 2) by {
                lemma_div_is_ordered(-xi, 0x8000_0000int, 2);
            }
            assert(0x8000_0000int / 2 == 0x4000_0000int);
        } else {
            assert(yi == -1);
            assert(xi != i32::MIN);
            assert((-xi) / 1 == -xi);
        }
    } else if xi < 0 {
        lemma_div_nonincreasing(-xi, yi);
        lemma_div_pos_is_pos(-xi, yi);
    } else {
        lemma_div_nonincreasing(xi, -yi);
        lemma_div_pos_is_pos(xi, -yi);
    }
}

} // verus!
