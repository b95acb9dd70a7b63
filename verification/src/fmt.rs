//! Decimal text for the rendered readout.
//!
//! Temperatures and humidities arrive in tenths, so one digit after the
//! decimal point shows them exactly; the gas concentration is padded to
//! four places as the readout lays it out.

use vstd::prelude::*;
use vstd::string::StringExecFns;

verus! {

/// The character of one decimal digit.
pub open spec fn digit_char(d: int) -> char {
    if d == 0 {
        '0'
    } else if d == 1 {
        '1'
    } else if d == 2 {
        '2'
    } else if d == 3 {
        '3'
    } else if d == 4 {
        '4'
    } else if d == 5 {
        '5'
    } else if d == 6 {
        '6'
    } else if d == 7 {
        '7'
    } else if d == 8 {
        '8'
    } else {
        '9'
    }
}

/// Decimal digits of a nonnegative number, most significant first.
pub open spec fn dec_digits(n: int) -> Seq<char>
    recommends
        n >= 0,
    decreases n,
{
    if n < 10 {
        seq![digit_char(n)]
    } else {
        dec_digits(n / 10).push(digit_char(n % 10))
    }
}

/// Powers of ten.
pub open spec fn pow10(k: nat) -> int
    decreases k,
{
    if k == 0 {
        1
    } else {
        10 * pow10((k - 1) as nat)
    }
}

/// A number is smaller than ten to the power of its digit count.
pub proof fn lemma_dec_digits_len(n: int)
    requires
        0 <= n,
    ensures
        1 <= dec_digits(n).len(),
        n < pow10(dec_digits(n).len()),
    decreases n,
{
    if n < 10 {
        assert(pow10(0) == 1);
        assert(pow10(1) == 10);
    } else {
        lemma_dec_digits_len(n / 10);
        let l = dec_digits(n / 10).len();
        assert(dec_digits(n).len() == l + 1);
        assert(n / 10 < pow10(l));
        assert(n < 10 * pow10(l));
        assert(pow10(l + 1) == 10 * pow10(l));
    }
}

/// A number below ten to the `k` has at most `k` digits.
pub proof fn lemma_dec_digits_len_le(n: int, k: nat)
    requires
        0 <= n,
        n < pow10(k),
        1 <= k,
    ensures
        dec_digits(n).len() <= k,
    decreases k,
{
    if n < 10 {
    } else {
        assert(pow10(k) == 10 * pow10((k - 1) as nat));
        if k == 1 {
            assert(pow10(0) == 1);
            assert(false);
        } else {
            assert(n / 10 < pow10((k - 1) as nat));
            lemma_dec_digits_len_le(n / 10, (k - 1) as nat);
        }
    }
}

/// A value in tenths as decimal text with one fractional digit.
pub open spec fn tenths_str(t: int) -> Seq<char> {
    if t < 0 {
        seq!['-'] + dec_digits((-t) / 10) + seq!['.'] + seq![digit_char((-t) % 10)]
    } else {
        dec_digits(t / 10) + seq!['.'] + seq![digit_char(t % 10)]
    }
}

/// A number padded with spaces on the left to at least four places.
pub open spec fn padded4(n: int) -> Seq<char> {
    if dec_digits(n).len() >= 4 {
        dec_digits(n)
    } else {
        Seq::new((4 - dec_digits(n).len()) as nat, |i: int| ' ') + dec_digits(n)
    }
}

/// One digit as text.
fn digit_str(d: u64) -> (r: &'static str)
    requires
        d < 10,
    ensures
        r@ == seq![digit_char(d as int)],
{
    let r: &'static str = if d == 0 {
        "0"
    } else if d == 1 {
        "1"
    } else if d == 2 {
        "2"
    } else if d == 3 {
        "3"
    } else if d == 4 {
        "4"
    } else if d == 5 {
        "5"
    } else if d == 6 {
        "6"
    } else if d == 7 {
        "7"
    } else if d == 8 {
        "8"
    } else {
        "9"
    };
    proof {
        reveal_strlit("0");
        reveal_strlit("1");
        reveal_strlit("2");
        reveal_strlit("3");
        reveal_strlit("4");
        reveal_strlit("5");
        reveal_strlit("6");
        reveal_strlit("7");
        reveal_strlit("8");
        reveal_strlit("9");
        assert(r@ =~= seq![digit_char(d as int)]);
    }
    r
}

/// Appends the decimal digits of a number.
fn push_dec(s: &mut String, n: u64)
    ensures
        final(s)@ == old(s)@ + dec_digits(n as int),
    decreases n,
{
    let ghost before = s@;
    if n >= 10 {
        push_dec(s, n / 10);
    }
    s.append(digit_str(n % 10));
    proof {
        if n < 10 {
            assert(s@ =~= before + dec_digits(n as int));
        } else {
            assert(s@ =~= before + dec_digits(n as int));
        }
    }
}

/// Formats a value in tenths with one fractional digit, as the panel
/// readout shows temperatures and humidities.
pub fn format_tenths(t: i32) -> (s: String)
    ensures
        s@ == tenths_str(t as int),
{
    let mut s = String::new();
    if t < 0 {
        s.append("-");
        let m: u64 = (-(t as i64)) as u64;
        push_dec(&mut s, m / 10);
        s.append(".");
        s.append(digit_str(m % 10));
        proof {
            reveal_strlit("-");
            reveal_strlit(".");
            assert(m == -(t as int));
            assert(s@ =~= tenths_str(t as int));
        }
    } else {
        let m: u64 = t as u64;
        push_dec(&mut s, m / 10);
        s.append(".");
        s.append(digit_str(m % 10));
        proof {
            reveal_strlit(".");
            assert(s@ =~= tenths_str(t as int));
        }
    }
    s
}

/// Formats a number padded with spaces to at least four places, as the
/// readout lays out the gas concentration.
pub fn format_padded4(n: u16) -> (s: String)
    ensures
        s@ == padded4(n as int),
{
    let mut s = String::new();
    proof {
        reveal_strlit(" ");
        reveal_strlit("  ");
        reveal_strlit("   ");
        lemma_dec_digits_len(n as int);
        if n < 10 {
            assert(dec_digits(n as int).len() == 1);
        } else if n < 100 {
            assert(dec_digits(n as int / 10).len() == 1);
            assert(dec_digits(n as int).len() == 2);
        } else if n < 1000 {
            assert(dec_digits(n as int / 100).len() == 1);
            assert(dec_digits(n as int / 10).len() == 2);
            assert(dec_digits(n as int).len() == 3);
        } else {
            assert(pow10(0) == 1);
            assert(pow10(1) == 10);
            assert(pow10(2) == 100);
            assert(pow10(3) == 1000);
            if dec_digits(n as int).len() <= 3 {
                let l = dec_digits(n as int).len();
                assert(l == 1 || l == 2 || l == 3);
                assert(pow10(l) <= 1000);
                assert(false);
            }
            assert(dec_digits(n as int).len() >= 4);
        }
    }
    if n < 10 {
        s.append("   ");
    } else if n < 100 {
        s.append("  ");
    } else if n < 1000 {
        s.append(" ");
    }
    push_dec(&mut s, n as u64);
    proof {
        assert(s@ =~= padded4(n as int));
    }
    s
}

} // verus!
