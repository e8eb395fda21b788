//! The numerals the native tables write read back as the values written:
//! integers, unsigned net numbers and decimal millionths.

use vstd::prelude::*;

use crate::kicad_write::{fixed_text_spec, six_digits, strip_zeros};
use crate::numeral::{
    digits_end, digits_value, lemma_digits_end, lemma_pow10_pos, lemma_pow10_small, numeral_millionths,
    numeral_parts, pow10, sign_len,
};
use crate::snx::{digits_from, parse_i64_spec, IntParse};
use crate::snx_rows::{parse_u32_kind, u32_digits_from};
use crate::text::{decimal, digit_char, signed_decimal};

verus! {

proof fn lemma_digit_char(d: int)
    requires
        0 <= d < 10,
    ensures
        crate::snx::is_digit(digit_char(d)),
        crate::snx::digit_value(digit_char(d)) == d,
        crate::numeral::is_digit(digit_char(d)),
        crate::numeral::digit_value(digit_char(d)) == d,
        digit_char(d) != '-' && digit_char(d) != '+' && digit_char(d) != '.',
{
}

/// The numeral of `n` is a nonempty run of decimal digits.
pub proof fn lemma_decimal_digits(n: nat)
    ensures
        decimal(n).len() >= 1,
        forall|k: int| 0 <= k < decimal(n).len() ==> crate::numeral::is_digit(#[trigger] decimal(n)[k])
            && crate::snx::is_digit(decimal(n)[k]) && decimal(n)[k] != '-' && decimal(n)[k] != '+',
    decreases n,
{
    if n < 10 {
        lemma_digit_char(n as int);
    } else {
        lemma_decimal_digits(n / 10);
        lemma_digit_char((n % 10) as int);
        let p = decimal(n / 10);
        assert forall|k: int| 0 <= k < decimal(n).len() implies crate::numeral::is_digit(#[trigger] decimal(n)[k])
            && crate::snx::is_digit(decimal(n)[k]) && decimal(n)[k] != '-' && decimal(n)[k] != '+' by {
            if k < p.len() {
                assert(decimal(n)[k] == p[k]);
            }
        }
    }
}

/// Reading the digits of `n` at `i` (signed when `neg`) reaches the end
/// of them with the value `n`.
proof fn lemma_read_i64_digits(s: Seq<char>, i: int, n: nat, neg: bool)
    requires
        0 <= i,
        i + decimal(n).len() <= s.len(),
        s.subrange(i, i + decimal(n).len()) == decimal(n),
        if neg {
            n <= 0x8000_0000_0000_0000
        } else {
            n <= 0x7fff_ffff_ffff_ffff
        },
    ensures
        digits_from(s, i, 0, neg) == digits_from(
            s,
            i + decimal(n).len(),
            if neg {
                -n
            } else {
                n as int
            },
            neg,
        ),
    decreases n,
{
    lemma_decimal_digits(n);
    if n < 10 {
        assert(s[i] == decimal(n)[0]);
        lemma_digit_char(n as int);
    } else {
        let p = decimal(n / 10);
        let d = (n % 10) as int;
        lemma_decimal_digits(n / 10);
        assert(s.subrange(i, i + p.len()) =~= p) by {
            assert forall|k: int| 0 <= k < p.len() implies s.subrange(i, i + p.len())[k] == p[k] by {
                assert(s.subrange(i, i + decimal(n).len())[k] == decimal(n)[k]);
            }
        }
        lemma_read_i64_digits(s, i, n / 10, neg);
        assert(s[i + p.len()] == decimal(n)[p.len() as int]);
        lemma_digit_char(d);
        let acc = if neg {
            -((n / 10) as int)
        } else {
            (n / 10) as int
        };
        assert(if neg {
            acc * 10 - d == -n
        } else {
            acc * 10 + d == n
        });
    }
}

/// An `i64` written in decimal reads back as itself.
pub proof fn lemma_int_cell_round_trip(n: i64)
    ensures
        parse_i64_spec(signed_decimal(n as int)) == IntParse::Value(n as int),
{
    let s = signed_decimal(n as int);
    if n < 0 {
        let m = (-(n as int)) as nat;
        lemma_decimal_digits(m);
        assert(s.subrange(1, 1 + decimal(m).len() as int) =~= decimal(m));
        lemma_read_i64_digits(s, 1, m, true);
    } else {
        let m = n as nat;
        lemma_decimal_digits(m);
        assert(s.subrange(0, decimal(m).len() as int) =~= decimal(m));
        lemma_read_i64_digits(s, 0, m, false);
    }
}

proof fn lemma_read_u32_digits(s: Seq<char>, i: int, n: nat)
    requires
        0 <= i,
        i + decimal(n).len() <= s.len(),
        s.subrange(i, i + decimal(n).len()) == decimal(n),
        n <= u32::MAX,
    ensures
        u32_digits_from(s, i, 0) == u32_digits_from(s, i + decimal(n).len(), n as int),
    decreases n,
{
    lemma_decimal_digits(n);
    if n < 10 {
        assert(s[i] == decimal(n)[0]);
        lemma_digit_char(n as int);
    } else {
        let p = decimal(n / 10);
        lemma_decimal_digits(n / 10);
        assert(s.subrange(i, i + p.len()) =~= p) by {
            assert forall|k: int| 0 <= k < p.len() implies s.subrange(i, i + p.len())[k] == p[k] by {
                assert(s.subrange(i, i + decimal(n).len())[k] == decimal(n)[k]);
            }
        }
        lemma_read_u32_digits(s, i, n / 10);
        assert(s[i + p.len()] == decimal(n)[p.len() as int]);
        lemma_digit_char((n % 10) as int);
    }
}

/// A `u32` written in decimal reads back as itself.
pub proof fn lemma_u32_cell_round_trip(n: u32)
    ensures
        parse_u32_kind(decimal(n as nat)) == IntParse::Value(n as int),
{
    let s = decimal(n as nat);
    lemma_decimal_digits(n as nat);
    assert(s.subrange(0, s.len() as int) =~= s);
    lemma_read_u32_digits(s, 0, n as nat);
}

pub proof fn lemma_digits_value_decimal(n: nat)
    ensures
        digits_value(decimal(n)) == n,
    decreases n,
{
    assert(digits_value(Seq::<char>::empty()) == 0);
    if n < 10 {
        lemma_digit_char(n as int);
        assert(decimal(n).drop_last() =~= Seq::<char>::empty());
        assert(decimal(n).last() == digit_char(n as int));
        assert(digits_value(decimal(n)) == digits_value(decimal(n).drop_last()) * 10 + crate::numeral::digit_value(
            decimal(n).last(),
        ));
    } else {
        lemma_digits_value_decimal(n / 10);
        lemma_digit_char((n % 10) as int);
        assert(decimal(n).drop_last() =~= decimal(n / 10));
        assert(decimal(n).last() == digit_char((n % 10) as int));
        assert((n / 10) * 10 + n % 10 == n);
    }
}

proof fn lemma_strip_zeros(s: Seq<char>)
    ensures
        strip_zeros(s).len() <= s.len(),
        strip_zeros(s) =~= s.take(strip_zeros(s).len() as int),
        digits_value(strip_zeros(s)) * pow10((s.len() - strip_zeros(s).len()) as nat) == digits_value(s),
        strip_zeros(s).len() > 0 ==> strip_zeros(s).last() != '0',
    decreases s.len(),
{
    if s.len() > 0 && s.last() == '0' {
        let t = s.drop_last();
        lemma_strip_zeros(t);
        let k = (t.len() - strip_zeros(t).len()) as nat;
        let a = digits_value(strip_zeros(t));
        assert(pow10(k + 1) == 10 * pow10(k));
        assert(a * pow10(k + 1) == 10 * (a * pow10(k))) by (nonlinear_arith)
            requires
                pow10(k + 1) == 10 * pow10(k),
        ;
        assert(digits_value(s) == digits_value(t) * 10 + crate::numeral::digit_value('0'));
        assert(strip_zeros(s).len() == strip_zeros(t).len());
        assert((s.len() - strip_zeros(s).len()) as nat == k + 1);
        assert(strip_zeros(s) =~= s.take(strip_zeros(s).len() as int)) by {
            assert(t.take(strip_zeros(t).len() as int) =~= s.take(strip_zeros(t).len() as int));
        }
    } else {
        assert(s.take(s.len() as int) =~= s);
        lemma_pow10_small();
    }
}

proof fn lemma_six_digits(f: nat)
    requires
        f < 1_000_000,
    ensures
        six_digits(f).len() == 6,
        forall|k: int| 0 <= k < 6 ==> crate::numeral::is_digit(#[trigger] six_digits(f)[k]),
        digits_value(six_digits(f)) == f,
{
    let s = six_digits(f);
    let d0 = (f / 100000) % 10;
    let d1 = (f / 10000) % 10;
    let d2 = (f / 1000) % 10;
    let d3 = (f / 100) % 10;
    let d4 = (f / 10) % 10;
    let d5 = f % 10;
    lemma_digit_char(d0 as int);
    lemma_digit_char(d1 as int);
    lemma_digit_char(d2 as int);
    lemma_digit_char(d3 as int);
    lemma_digit_char(d4 as int);
    lemma_digit_char(d5 as int);
    assert(digits_value(Seq::<char>::empty()) == 0);
    assert(s.take(1).drop_last() =~= Seq::<char>::empty());
    assert(s.take(1).last() == digit_char(d0 as int));
    assert(s.take(2).last() == digit_char(d1 as int));
    assert(s.take(3).last() == digit_char(d2 as int));
    assert(s.take(4).last() == digit_char(d3 as int));
    assert(s.take(5).last() == digit_char(d4 as int));
    assert(s.last() == digit_char(d5 as int));
    assert(s.take(2).drop_last() =~= s.take(1));
    assert(s.take(3).drop_last() =~= s.take(2));
    assert(s.take(4).drop_last() =~= s.take(3));
    assert(s.take(5).drop_last() =~= s.take(4));
    assert(s.drop_last() =~= s.take(5));
    assert(digits_value(s.take(1)) == d0);
    assert(digits_value(s.take(2)) == d0 * 10 + d1);
    assert(digits_value(s.take(3)) == (d0 * 10 + d1) * 10 + d2);
    assert(digits_value(s.take(4)) == ((d0 * 10 + d1) * 10 + d2) * 10 + d3);
    assert(digits_value(s.take(5)) == (((d0 * 10 + d1) * 10 + d2) * 10 + d3) * 10 + d4);
    assert(digits_value(s) == ((((d0 * 10 + d1) * 10 + d2) * 10 + d3) * 10 + d4) * 10 + d5);
    let x = f as int;
    let q1 = x / 10;
    let q2 = q1 / 10;
    let q3 = q2 / 10;
    let q4 = q3 / 10;
    let q5 = q4 / 10;
    vstd::arithmetic::div_mod::lemma_div_denominator(x, 10, 10);
    vstd::arithmetic::div_mod::lemma_div_denominator(x, 100, 10);
    vstd::arithmetic::div_mod::lemma_div_denominator(x, 1000, 10);
    vstd::arithmetic::div_mod::lemma_div_denominator(x, 10000, 10);
    assert(q2 == x / 100);
    assert(q3 == x / 1000);
    assert(q4 == x / 10000);
    assert(q5 == x / 100000);
    assert(q5 < 10);
    assert(x == 10 * q1 + x % 10);
    assert(q1 == 10 * q2 + q1 % 10);
    assert(q2 == 10 * q3 + q2 % 10);
    assert(q3 == 10 * q4 + q3 % 10);
    assert(q4 == 10 * q5 + q4 % 10);
    assert(((((d0 * 10 + d1) * 10 + d2) * 10 + d3) * 10 + d4) * 10 + d5 == f);
}

/// A value in millionths written as a decimal numeral reads back as
/// itself.
pub proof fn lemma_decimal_cell_round_trip(v: i64)
    ensures
        numeral_millionths(fixed_text_spec(v as int)) == Some(v as int),
{
    let a: int = if v < 0 {
        -(v as int)
    } else {
        v as int
    };
    let whole = a / 1_000_000;
    let frac = a % 1_000_000;
    let sign: Seq<char> = if v < 0 {
        seq!['-']
    } else {
        Seq::empty()
    };
    let w = decimal(whole as nat);
    let tail: Seq<char> = if frac == 0 {
        Seq::empty()
    } else {
        seq!['.'] + strip_zeros(six_digits(frac as nat))
    };
    let s = fixed_text_spec(v as int);
    assert(s == sign + w + tail);
    lemma_decimal_digits(whole as nat);
    lemma_digits_value_decimal(whole as nat);
    lemma_pow10_small();
    let st = sign.len() as int;
    assert(sign_len(s) == st);
    let ie = st + w.len();
    assert forall|k: int| st <= k < ie implies crate::numeral::is_digit(s[k]) by {
        assert(s[k] == w[k - st]);
    }
    if frac == 0 {
        lemma_digits_end(s, st, ie);
        assert(s.subrange(st, ie) =~= w);
        assert(numeral_parts(s) == Some((w, Seq::<char>::empty())));
    } else {
        lemma_six_digits(frac as nat);
        let sd = six_digits(frac as nat);
        let fp = strip_zeros(sd);
        lemma_strip_zeros(sd);
        assert(fp.len() > 0) by {
            if fp.len() == 0 {
                assert(pow10((6 - 0) as nat) == 1_000_000);
                assert(digits_value(fp) == 0);
            }
        }
        assert(s[ie] == '.');
        assert(!crate::numeral::is_digit(s[ie]));
        lemma_digits_end(s, st, ie);
        let fe = s.len() as int;
        assert forall|k: int| ie + 1 <= k < fe implies crate::numeral::is_digit(s[k]) by {
            assert(s[k] == fp[k - ie - 1]);
            assert(fp[k - ie - 1] == sd[k - ie - 1]);
        }
        lemma_digits_end(s, ie + 1, fe);
        assert(s.subrange(st, ie) =~= w);
        assert(s.subrange(ie + 1, fe) =~= fp);
        assert(numeral_parts(s) == Some((w, fp)));
        let k = fp.len();
        assert(k <= 6);
        assert(fp.take(k as int) =~= fp);
        lemma_pow10_pos((6 - k) as nat);
        assert(crate::numeral::fraction_millionths(fp) == digits_value(fp) * pow10((6 - k) as nat));
    }
    assert(whole * 1_000_000 + frac == a);
}

} // verus!
