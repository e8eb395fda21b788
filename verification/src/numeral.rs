//! Reading the decimal numerals of KiCad files as integer millionths
//! (nanometres for millimetres, millionths of a degree for angles).

use vstd::prelude::*;

use crate::text::chars_of;

verus! {

pub open spec fn is_digit(c: char) -> bool {
    '0' <= c && c <= '9'
}

pub open spec fn digit_value(c: char) -> int {
    c as int - '0' as int
}

/// The value of a run of decimal digits.
pub open spec fn digits_value(s: Seq<char>) -> int
    decreases s.len(),
{
    if s.len() == 0 {
        0
    } else {
        digits_value(s.drop_last()) * 10 + digit_value(s.last())
    }
}

pub open spec fn pow10(n: nat) -> int
    decreases n,
{
    if n == 0 {
        1
    } else {
        10 * pow10((n - 1) as nat)
    }
}

/// The first position at or after `i` that does not hold a digit.
pub open spec fn digits_end(s: Seq<char>, i: int) -> int
    decreases s.len() - i,
{
    if i < 0 || i >= s.len() || !is_digit(s[i]) {
        i
    } else {
        digits_end(s, i + 1)
    }
}

/// Length of a leading sign.
pub open spec fn sign_len(s: Seq<char>) -> int {
    if s.len() > 0 && (s[0] == '-' || s[0] == '+') {
        1
    } else {
        0
    }
}

/// The first six fraction digits as millionths; a seventh digit of five
/// or more rounds the magnitude up.
pub open spec fn fraction_millionths(f: Seq<char>) -> int {
    let k: nat = if f.len() < 6 {
        f.len()
    } else {
        6
    };
    digits_value(f.take(k as int)) * pow10((6 - k) as nat) + (if f.len() > 6 && digit_value(f[6]) >= 5 {
        1int
    } else {
        0int
    })
}

/// `s` is `[+-]digits[.digits]` with at least one digit; gives the integer
/// digits and the fraction digits.
pub open spec fn numeral_parts(s: Seq<char>) -> Option<(Seq<char>, Seq<char>)> {
    let st = sign_len(s);
    let ie = digits_end(s, st);
    if ie == s.len() {
        if ie > st {
            Some((s.subrange(st, ie), Seq::empty()))
        } else {
            None
        }
    } else if s[ie] == '.' {
        let fe = digits_end(s, ie + 1);
        if fe == s.len() && (ie > st || fe > ie + 1) {
            Some((s.subrange(st, ie), s.subrange(ie + 1, fe)))
        } else {
            None
        }
    } else {
        None
    }
}

/// The value of a decimal numeral in millionths, rounded half away from
/// zero, when `s` is one and the value fits in 64 bits.
pub open spec fn numeral_millionths(s: Seq<char>) -> Option<int> {
    match numeral_parts(s) {
        Some((ip, fp)) => {
            let m = digits_value(ip) * 1_000_000 + fraction_millionths(fp);
            let v = if s.len() > 0 && s[0] == '-' {
                -m
            } else {
                m
            };
            if i64::MIN <= v <= i64::MAX {
                Some(v)
            } else {
                None
            }
        },
        None => None,
    }
}

pub proof fn lemma_digits_end(s: Seq<char>, j: int, i: int)
    requires
        0 <= j <= i <= s.len(),
        forall|k: int| j <= k < i ==> is_digit(s[k]),
        i == s.len() || !is_digit(s[i]),
    ensures
        digits_end(s, j) == i,
    decreases i - j,
{
    if j < i {
        lemma_digits_end(s, j + 1, i);
    }
}

proof fn lemma_digits_value_nonneg(s: Seq<char>)
    requires
        forall|k: int| 0 <= k < s.len() ==> is_digit(s[k]),
    ensures
        digits_value(s) >= 0,
    decreases s.len(),
{
    if s.len() > 0 {
        lemma_digits_value_nonneg(s.drop_last());
    }
}

proof fn lemma_digits_value_bound(s: Seq<char>)
    requires
        forall|k: int| 0 <= k < s.len() ==> is_digit(s[k]),
    ensures
        digits_value(s) < pow10(s.len()),
    decreases s.len(),
{
    if s.len() > 0 {
        lemma_digits_value_bound(s.drop_last());
        assert(pow10(s.len()) == 10 * pow10((s.len() - 1) as nat));
    }
}

/// The value of a KiCad numeral in millionths (`"1.27"` gives
/// 1 270 000); `None` when the text is not a plain decimal numeral or the
/// value does not fit.
pub fn parse_millionths(text: &str) -> (r: Option<i64>)
    ensures
        match r {
            Some(v) => numeral_millionths(text@) == Some(v as int),
            None => numeral_millionths(text@) is None,
        },
{
    let s = chars_of(text);
    let ghost t = s@;
    let n = s.len();
    let mut i: usize = 0;
    let mut neg = false;
    if n > 0 && (s[0] == '-' || s[0] == '+') {
        neg = s[0] == '-';
        i = 1;
    }
    let st = i;
    assert(st as int == sign_len(t));
    // Integer digits, saturating at `cap`: anything that large does not fit.
    let cap: u128 = 100_000_000_000_000;
    let mut acc: u128 = 0;
    while i < n && '0' <= s[i] && s[i] <= '9'
        invariant
            st <= i <= n,
            n == t.len(),
            t == s@,
            cap == 100_000_000_000_000,
            forall|k: int| st <= k < i ==> is_digit(t[k]),
            acc <= cap,
            acc < cap ==> acc as int == digits_value(t.subrange(st as int, i as int)),
            acc == cap ==> digits_value(t.subrange(st as int, i as int)) >= cap,
        decreases n - i,
    {
        let d = (s[i] as u32 - '0' as u32) as u128;
        assert(t.subrange(st as int, i + 1).drop_last() =~= t.subrange(st as int, i as int));
        assert(t.subrange(st as int, i + 1).last() == t[i as int]);
        assert(d as int == digit_value(t[i as int]));
        proof {
            lemma_digits_value_nonneg(t.subrange(st as int, i as int));
        }
        if acc < cap {
            let next = acc * 10 + d;
            acc = if next < cap {
                next
            } else {
                cap
            };
        }
        i += 1;
    }
    let ie = i;
    proof {
        lemma_digits_end(t, st as int, ie as int);
    }
    let mut frac: u128 = 0;
    let mut count: usize = 0;
    let mut round_up = false;
    let mut has_dot = false;
    if i < n && s[i] == '.' {
        has_dot = true;
        i += 1;
        while i < n && '0' <= s[i] && s[i] <= '9'
            invariant
                ie + 1 <= i <= n,
                n == t.len(),
                t == s@,
                count == i - ie - 1,
                forall|k: int| ie + 1 <= k < i ==> is_digit(t[k]),
                frac as int == digits_value(t.subrange(ie + 1, i as int).take(if count < 6 { count as int } else { 6 })),
                frac < 1_000_000,
                round_up == (count > 6 && digit_value(t[ie + 7]) >= 5),
            decreases n - i,
        {
            let d = (s[i] as u32 - '0' as u32) as u128;
            assert(d as int == digit_value(t[i as int]));
            if count < 6 {
                let ghost f0 = t.subrange(ie + 1, i as int).take(count as int);
                assert(t.subrange(ie + 1, i + 1).take(count + 1).drop_last() =~= f0);
                assert(t.subrange(ie + 1, i + 1).take(count + 1).last() == t[i as int]);
                proof {
                    lemma_digits_value_bound(f0);
                    lemma_pow10_small();
                }
                frac = frac * 10 + d;
            } else {
                assert(t.subrange(ie + 1, i + 1).take(6) =~= t.subrange(ie + 1, i as int).take(6));
                if count == 6 {
                    round_up = d >= 5;
                }
            }
            count += 1;
            i += 1;
        }
    }
    let fe = i;
    proof {
        if has_dot {
            lemma_digits_end(t, ie + 1, fe as int);
        }
    }
    if i != n || (ie == st && !(has_dot && fe > ie + 1)) {
        return None;
    }
    let ghost ip = t.subrange(st as int, ie as int);
    let ghost fp = if has_dot {
        t.subrange(ie + 1, fe as int)
    } else {
        Seq::<char>::empty()
    };
    assert(numeral_parts(t) == Some((ip, fp)));
    assert(fp.len() == count as int);
    assert(fp.take(if count < 6 { count as int } else { 6 }) == t.subrange(ie + 1, i as int).take(
        if count < 6 { count as int } else { 6 },
    )) by {
        if !has_dot {
            assert(fp.take(0) =~= t.subrange(ie + 1, i as int).take(0));
        }
    }
    proof {
        lemma_digits_value_nonneg(ip);
        lemma_pow10_small();
    }
    if acc == cap {
        proof {
            lemma_digits_value_nonneg(fp.take(if count < 6 { count as int } else { 6 }));
            lemma_pow10_pos((6 - (if count < 6 { count as int } else { 6 })) as nat);
        }
        assert(fraction_millionths(fp) >= 0) by (nonlinear_arith)
            requires
                digits_value(fp.take(if count < 6 { count as int } else { 6 })) >= 0,
                pow10((6 - (if count < 6 { count as int } else { 6 })) as nat) > 0,
                fraction_millionths(fp) == digits_value(fp.take(if count < 6 { count as int } else { 6 }))
                    * pow10((6 - (if count < 6 { count as int } else { 6 })) as nat) + (if fp.len() > 6 && digit_value(fp[6]) >= 5 {
                    1int
                } else {
                    0int
                }),
        ;
        return None;
    }
    let k: usize = if count < 6 {
        count
    } else {
        6
    };
    let mut scale: u128 = 1;
    let mut j: usize = k;
    while j < 6
        invariant
            k <= j <= 6,
            scale as int == pow10((j - k) as nat),
            scale <= 1_000_000,
        decreases 6 - j,
    {
        proof {
            lemma_pow10_small();
            assert(pow10((j + 1 - k) as nat) == 10 * pow10((j - k) as nat));
            assert(pow10((j - k) as nat) <= 100_000) by {
                assert((j - k) < 6);
            }
        }
        scale = scale * 10;
        j += 1;
    }
    assert((6 - k) as nat == (j - k) as nat);
    assert(frac * scale <= 1_000_000 * 1_000_000) by (nonlinear_arith)
        requires
            frac < 1_000_000,
            scale <= 1_000_000,
    ;
    let fraction: u128 = frac * scale + if round_up {
        1
    } else {
        0
    };
    assert(fraction as int == fraction_millionths(fp));
    let m: u128 = acc * 1_000_000 + fraction;
    assert(m as int == digits_value(ip) * 1_000_000 + fraction_millionths(fp));
    if neg {
        if m <= 9_223_372_036_854_775_808 {
            if m == 9_223_372_036_854_775_808 {
                Some(i64::MIN)
            } else {
                Some(-(m as i64))
            }
        } else {
            None
        }
    } else {
        if m <= 9_223_372_036_854_775_807 {
            Some(m as i64)
        } else {
            None
        }
    }
}

pub proof fn lemma_pow10_small()
    ensures
        pow10(0) == 1,
        pow10(1) == 10,
        pow10(2) == 100,
        pow10(3) == 1000,
        pow10(4) == 10_000,
        pow10(5) == 100_000,
        pow10(6) == 1_000_000,
{
    reveal_with_fuel(pow10, 7);
}

pub proof fn lemma_pow10_pos(n: nat)
    ensures
        pow10(n) > 0,
    decreases n,
{
    if n > 0 {
        lemma_pow10_pos((n - 1) as nat);
    }
}

} // verus!
