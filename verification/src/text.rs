//! Decimal rendering for error messages: node ids as plain decimal
//! numbers, and packet drop rates as fixed-point decimals with trailing
//! zeros trimmed, exactly as the specs below state.

use vstd::prelude::*;
use vstd::string::StringExecFns;

verus! {

/// The character of one decimal digit.
pub open spec fn dec_digit(d: int) -> char {
    if d == 0 {
        '0'
    } else if d == 1 {
        '1'
    } else if d == 2 {
        '2'
    } else if d == 3 {
        '3'
    } else if d == 4 {
        '4'
    } else if d == 5 {
        '5'
    } else if d == 6 {
        '6'
    } else if d == 7 {
        '7'
    } else if d == 8 {
        '8'
    } else {
        '9'
    }
}

/// The decimal digits of a non-negative number, most significant first.
pub open spec fn dec_str(n: int) -> Seq<char>
    decreases n,
{
    if n <= 9 {
        seq![dec_digit(n)]
    } else {
        dec_str(n / 10) + seq![dec_digit(n % 10)]
    }
}

/// The low `k` decimal digits of a number, zero-padded to width `k`.
pub open spec fn pad_digits(f: int, k: nat) -> Seq<char>
    decreases k,
{
    if k == 0 {
        Seq::empty()
    } else {
        pad_digits(f / 10, (k - 1) as nat) + seq![dec_digit(f % 10)]
    }
}

/// The low `k` decimal digits of a number with trailing zeros trimmed;
/// empty when all `k` digits are zero.
pub open spec fn frac_digits(f: int, k: nat) -> Seq<char>
    decreases k,
{
    if k == 0 {
        Seq::empty()
    } else if f % 10 == 0 {
        frac_digits(f / 10, (k - 1) as nat)
    } else {
        pad_digits(f, k)
    }
}

/// A packet drop rate in millionths rendered as a decimal number: an
/// optional sign, the whole part, and the fractional part with trailing
/// zeros trimmed (absent when zero).
pub open spec fn pdr_str(v: int) -> Seq<char> {
    let a = if v < 0 {
        -v
    } else {
        v
    };
    let sign: Seq<char> = if v < 0 {
        seq!['-']
    } else {
        Seq::empty()
    };
    let frac = a % 1_000_000;
    let tail: Seq<char> = if frac == 0 {
        Seq::empty()
    } else {
        seq!['.'] + frac_digits(frac, 6)
    };
    sign + dec_str(a / 1_000_000) + tail
}

/// Appends the character of one decimal digit.
fn push_digit(s: &mut String, d: u64)
    requires
        d < 10,
    ensures
        final (s)@ == old(s)@ + seq![dec_digit(d as int)],
{
    let t: &str = if d == 0 {
        "0"
    } else if d == 1 {
        "1"
    } else if d == 2 {
        "2"
    } else if d == 3 {
        "3"
    } else if d == 4 {
        "4"
    } else if d == 5 {
        "5"
    } else if d == 6 {
        "6"
    } else if d == 7 {
        "7"
    } else if d == 8 {
        "8"
    } else {
        "9"
    };
    proof {
        reveal_strlit("0");
        reveal_strlit("1");
        reveal_strlit("2");
        reveal_strlit("3");
        reveal_strlit("4");
        reveal_strlit("5");
        reveal_strlit("6");
        reveal_strlit("7");
        reveal_strlit("8");
        reveal_strlit("9");
        assert(t@ =~= seq![dec_digit(d as int)]);
    }
    s.append(t);
}

/// Appends the decimal digits of a number.
pub fn append_decimal(s: &mut String, n: u64)
    ensures
        final (s)@ == old(s)@ + dec_str(n as int),
    decreases n,
{
    if n <= 9 {
        push_digit(s, n);
    } else {
        append_decimal(s, n / 10);
        push_digit(s, n % 10);
        assert(s@ =~= old(s)@ + dec_str(n as int));
    }
}

/// Appends the low `k` digits of a number, zero-padded to width `k`.
fn append_padded(s: &mut String, f: u64, k: u64)
    ensures
        final (s)@ == old(s)@ + pad_digits(f as int, k as nat),
    decreases k,
{
    if k != 0 {
        append_padded(s, f / 10, k - 1);
        push_digit(s, f % 10);
        assert(s@ =~= old(s)@ + pad_digits(f as int, k as nat));
    } else {
        assert(s@ =~= old(s)@ + pad_digits(f as int, 0));
    }
}

/// Appends the low `k` digits of a number with trailing zeros trimmed.
fn append_trimmed(s: &mut String, f: u64, k: u64)
    ensures
        final (s)@ == old(s)@ + frac_digits(f as int, k as nat),
    decreases k,
{
    if k == 0 {
        assert(s@ =~= old(s)@ + frac_digits(f as int, 0));
    } else if f % 10 == 0 {
        append_trimmed(s, f / 10, k - 1);
    } else {
        append_padded(s, f, k);
    }
}

/// Appends a packet drop rate in millionths as a decimal number.
pub fn append_pdr(s: &mut String, v: i64)
    ensures
        final (s)@ == old(s)@ + pdr_str(v as int),
{
    let a: u64;
    if v < 0 {
        proof {
            reveal_strlit("-");
            assert("-"@ =~= seq!['-']);
        }
        s.append("-");
        let t = -(v + 1);
        a = (t as u64) + 1;
        assert(a == -(v as int));
    } else {
        a = v as u64;
    }
    let whole = a / 1_000_000;
    let frac = a % 1_000_000;
    append_decimal(s, whole);
    if frac != 0 {
        proof {
            reveal_strlit(".");
            assert("."@ =~= seq!['.']);
        }
        s.append(".");
        append_trimmed(s, frac, 6);
    }
    assert(s@ =~= old(s)@ + pdr_str(v as int));
}

} // verus!
