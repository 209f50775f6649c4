//! Decimal-string codec for arbitrary-precision credit quantities.
//!
//! Quantities and ask amounts travel as strings of decimal digits.  This
//! module defines the meaning of such a string ([`dec_value`]), the canonical
//! rendering of a number ([`dec_str_of`]), and verified executable
//! conversions in both directions.

use vstd::prelude::*;
use vstd::string::StrSliceExecFns;
use vstd::string::StringExecFns;

verus! {

/// A decimal digit character, `'0'` through `'9'`.
pub open spec fn is_dec_digit(c: char) -> bool {
    48 <= c as u32 && c as u32 <= 57
}

/// Numeric value of a digit character; 0 for anything else.
pub open spec fn digit_val(c: char) -> nat {
    if is_dec_digit(c) {
        (c as u32 - 48) as nat
    } else {
        0
    }
}

pub open spec fn all_dec_digits(s: Seq<char>) -> bool {
    forall|i: int| 0 <= i < s.len() ==> is_dec_digit(#[trigger] s[i])
}

/// A well-formed quantity encoding: non-empty and all digits.
pub open spec fn is_dec_string(s: Seq<char>) -> bool {
    s.len() > 0 && all_dec_digits(s)
}

/// The number a digit string denotes (most significant digit first).
pub open spec fn dec_value(s: Seq<char>) -> nat
    decreases s.len(),
{
    if s.len() == 0 {
        0
    } else {
        dec_value(s.drop_last()) * 10 + digit_val(s.last())
    }
}

/// Whether the denoted number fits the machine representation used here.
pub open spec fn fits_u128(s: Seq<char>) -> bool {
    dec_value(s) <= u128::MAX
}

/// The digit character for `d` (meaningful for `d < 10`).
pub open spec fn digit_char(d: nat) -> char {
    if d == 0 {
        '0'
    } else if d == 1 {
        '1'
    } else if d == 2 {
        '2'
    } else if d == 3 {
        '3'
    } else if d == 4 {
        '4'
    } else if d == 5 {
        '5'
    } else if d == 6 {
        '6'
    } else if d == 7 {
        '7'
    } else if d == 8 {
        '8'
    } else {
        '9'
    }
}

/// Canonical decimal rendering of `n`: no sign, no leading zeros.
pub open spec fn dec_str_of(n: nat) -> Seq<char>
    decreases n,
{
    if n < 10 {
        seq![digit_char(n)]
    } else {
        dec_str_of(n / 10).push(digit_char(n % 10))
    }
}

/// Extending a prefix by one character multiplies its value by ten and adds
/// the new digit.
pub proof fn lemma_dec_value_take_step(s: Seq<char>, i: int)
    requires
        0 <= i < s.len(),
    ensures
        dec_value(s.take(i + 1)) == dec_value(s.take(i)) * 10 + digit_val(s[i]),
{
    assert(s.take(i + 1).drop_last() =~= s.take(i));
    assert(s.take(i + 1).last() == s[i]);
}

/// The denoted value never shrinks as the prefix grows.
pub proof fn lemma_dec_value_take_monotone(s: Seq<char>, i: int, j: int)
    requires
        0 <= i <= j <= s.len(),
    ensures
        dec_value(s.take(i)) <= dec_value(s.take(j)),
    decreases j - i,
{
    if i < j {
        lemma_dec_value_take_monotone(s, i, j - 1);
        lemma_dec_value_take_step(s, j - 1);
    }
}

/// The canonical rendering is a digit string that denotes the rendered
/// number, and only renders `0` with a leading zero digit.
pub proof fn lemma_dec_str_of_value(n: nat)
    ensures
        is_dec_string(dec_str_of(n)),
        dec_value(dec_str_of(n)) == n,
        dec_str_of(n).len() == 1 ==> n < 10,
    decreases n,
{
    if n < 10 {
        let s = dec_str_of(n);
        assert(s.drop_last() =~= Seq::<char>::empty());
        assert(dec_value(Seq::<char>::empty()) == 0);
        assert(s.last() == digit_char(n));
        assert(dec_value(s) == digit_val(digit_char(n)));
    } else {
        lemma_dec_str_of_value(n / 10);
        let p = dec_str_of(n / 10);
        let c = digit_char(n % 10);
        assert(p.push(c).drop_last() =~= p);
        assert(p.push(c).last() == c);
        assert(digit_val(c) == n % 10);
        assert(dec_value(p.push(c)) == (n / 10) * 10 + n % 10);
        assert((n / 10) * 10 + n % 10 == n) by (nonlinear_arith);
        assert(forall|i: int|
            0 <= i < p.push(c).len() ==> is_dec_digit(#[trigger] p.push(c)[i]));
    }
}

/// The single-character string for a digit.
fn digit_str(d: u128) -> (r: &'static str)
    requires
        d < 10,
    ensures
        r@ =~= seq![digit_char(d as nat)],
{
    proof {
        reveal_strlit("0");
        reveal_strlit("1");
        reveal_strlit("2");
        reveal_strlit("3");
        reveal_strlit("4");
        reveal_strlit("5");
        reveal_strlit("6");
        reveal_strlit("7");
        reveal_strlit("8");
        reveal_strlit("9");
    }
    if d == 0 {
        "0"
    } else if d == 1 {
        "1"
    } else if d == 2 {
        "2"
    } else if d == 3 {
        "3"
    } else if d == 4 {
        "4"
    } else if d == 5 {
        "5"
    } else if d == 6 {
        "6"
    } else if d == 7 {
        "7"
    } else if d == 8 {
        "8"
    } else {
        "9"
    }
}

/// Renders `n` as its canonical decimal string.
pub fn format_u128(n: u128) -> (r: String)
    ensures
        r@ == dec_str_of(n as nat),
    decreases n,
{
    if n < 10 {
        String::from_str(digit_str(n))
    } else {
        let mut prefix = format_u128(n / 10);
        prefix.append(digit_str(n % 10));
        proof {
            assert(prefix@ =~= dec_str_of((n / 10) as nat).push(digit_char((n % 10) as nat)));
        }
        prefix
    }
}

/// Parses a string of decimal digits into a number.
///
/// Returns `Some` exactly when the whole string is one or more decimal
/// digits and the denoted number fits in the machine word; anything else
/// (empty, a sign, a fractional point, other characters, too large) is
/// rejected.
#[verifier::loop_isolation(false)]
pub fn parse_dec_u128(s: &str) -> (r: Option<u128>)
    ensures
        r is Some <==> is_dec_string(s@) && fits_u128(s@),
        r matches Some(v) ==> v as nat == dec_value(s@),
{
    let n = s.unicode_len();
    if n == 0 {
        return None;
    }
    let max_div_10: u128 = u128::MAX / 10;
    let max_mod_10: u128 = u128::MAX % 10;
    let mut acc: u128 = 0;
    let mut i: usize = 0;
    while i < n
        invariant
            i <= n,
            all_dec_digits(s@.take(i as int)),
            acc as nat == dec_value(s@.take(i as int)),
        decreases n - i,
    {
        let c = s.get_char(i);
        let cv = c as u32;
        if cv < 48 || cv > 57 {
            assert(!is_dec_digit(s@[i as int]));
            return None;
        }
        let d = (cv - 48) as u128;
        proof {
            lemma_dec_value_take_step(s@, i as int);
        }
        if acc > max_div_10 || (acc == max_div_10 && d > max_mod_10) {
            proof {
                assert(dec_value(s@.take(i + 1)) > u128::MAX);
                lemma_dec_value_take_monotone(s@, i + 1, n as int);
                assert(s@.take(n as int) =~= s@);
            }
            return None;
        }
        acc = acc * 10 + d;
        i = i + 1;
    }
    proof {
        assert(s@.take(n as int) =~= s@);
    }
    Some(acc)
}

} // verus!
