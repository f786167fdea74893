//! Arithmetic on whole numbers as the language defines it. Where an
//! operation has no value in `i64` (overflow, division by zero), the
//! language has no result either: the specifications below give `None`.
use vstd::prelude::*;

use crate::parse::ast::Op;

verus! {

/// `b` to the power `e`.
pub open spec fn int_pow(b: int, e: nat) -> int
    decreases e,
{
    if e == 0 {
        1
    } else {
        b * int_pow(b, (e - 1) as nat)
    }
}

/// The magnitude of `x`.
pub open spec fn abs(x: int) -> int {
    if x < 0 {
        -x
    } else {
        x
    }
}

/// Division rounding towards zero.
pub open spec fn trunc_div(l: int, r: int) -> int {
    let q = abs(l) / abs(r);
    if (l < 0) != (r < 0) {
        -q
    } else {
        q
    }
}

/// Whether `x` is a value of `i64`.
pub open spec fn in_i64(x: int) -> bool {
    i64::MIN <= x <= i64::MAX
}

/// The value of `l op r` on whole numbers, where it has one. The remainder
/// (`&`) is the Euclidean one, never negative; the exponent of `^` is the
/// right operand taken modulo 2^32 (its low 32 bits).
pub open spec fn spec_int_op(op: Op, l: i64, r: i64) -> Option<i64> {
    let v: int = match op {
        Op::Add => l + r,
        Op::Sub => l - r,
        Op::Mul => l * r,
        Op::Div => trunc_div(l as int, r as int),
        Op::Mod => (l as int) % abs(r as int),
        Op::Pow => int_pow(l as int, (#[verifier::truncate] (r as u32)) as nat),
    };
    if (op == Op::Div || op == Op::Mod) && (r == 0 || (l == i64::MIN && r == -1)) {
        None
    } else if in_i64(v) {
        Some(v as i64)
    } else {
        None
    }
}

/// The multifactorial `v (v-b) (v-2b) ...` over the positive terms.
pub open spec fn multifactorial(v: int, b: int) -> int
    decreases (if v > 0 { v } else { 0 }),
{
    if v <= 0 || b <= 0 {
        1
    } else {
        v * multifactorial(v - b, b)
    }
}

/// The value of `v` followed by `bangs` exclamation marks, where it has one:
/// the product of the terms `v`, `v - bangs`, `v - 2 bangs`, ... that are
/// positive (1 when there are none).
pub open spec fn spec_factorial(v: i64, bangs: u32) -> Option<i64> {
    if v <= 0 {
        Some(1)
    } else if bangs == 0 {
        None
    } else if in_i64(multifactorial(v as int, bangs as int)) {
        Some(multifactorial(v as int, bangs as int) as i64)
    } else {
        None
    }
}

proof fn lemma_multifactorial_positive(v: int, b: int)
    ensures
        multifactorial(v, b) >= 1,
        v > 0 && b > 0 ==> multifactorial(v, b) >= v,
    decreases (if v > 0 { v } else { 0 }),
{
    if v > 0 && b > 0 {
        lemma_multifactorial_positive(v - b, b);
        let m = multifactorial(v - b, b);
        assert(v * m >= v) by (nonlinear_arith)
            requires
                v > 0,
                m >= 1,
        ;
    }
}

fn magnitude(x: i64) -> (r: u64)
    ensures
        r as int == abs(x as int),
{
    if x >= 0 {
        x as u64
    } else {
        ((-(x + 1)) as u64) + 1
    }
}

proof fn lemma_pow_unit(b: int, e: nat)
    ensures
        b == 0 ==> int_pow(b, e) == (if e == 0 { 1int } else { 0int }),
        b == 1 ==> int_pow(b, e) == 1,
        b == -1 ==> int_pow(b, e) == (if e % 2 == 0 { 1int } else { -1int }),
    decreases e,
{
    if e > 0 {
        lemma_pow_unit(b, (e - 1) as nat);
    }
}

proof fn lemma_pow_grows_strictly(b: int, k: nat, e: nat)
    requires
        abs(b) >= 2,
        k <= e,
    ensures
        abs(int_pow(b, k)) >= 1,
        k < e ==> abs(int_pow(b, k)) < abs(int_pow(b, e)),
    decreases e,
{
    if e > 0 {
        if k < e {
            lemma_pow_grows_strictly(b, k, (e - 1) as nat);
        }
        lemma_pow_grows_strictly(b, (e - 1) as nat, (e - 1) as nat);
        let p = int_pow(b, (e - 1) as nat);
        assert(abs(b * p) >= 2 * abs(p)) by (nonlinear_arith)
            requires
                abs(b) >= 2,
                abs(b) == (if b < 0 { -b } else { b }),
                abs(p) == (if p < 0 { -p } else { p }),
                abs(b * p) == (if b * p < 0 { -(b * p) } else { b * p }),
        ;
    }
}

fn checked_pow(l: i64, e: u32) -> (r: Option<i64>)
    ensures
        r matches Some(v) ==> v as int == int_pow(l as int, e as nat),
        r is None ==> !in_i64(int_pow(l as int, e as nat)),
{
    proof {
        lemma_pow_unit(l as int, e as nat);
    }
    if l == 0 {
        return Some(if e == 0 { 1 } else { 0 });
    }
    if l == 1 {
        return Some(1);
    }
    if l == -1 {
        return Some(if e % 2 == 0 { 1 } else { -1 });
    }
    let mut acc: i64 = 1;
    let mut k: u32 = 0;
    while k < e
        invariant
            k <= e,
            abs(l as int) >= 2,
            acc as int == int_pow(l as int, k as nat),
        decreases e - k,
    {
        proof {
            lemma_pow_grows_strictly(l as int, (k + 1) as nat, e as nat);
            assert(int_pow(l as int, (k + 1) as nat) == l * int_pow(l as int, k as nat));
        }
        match acc.checked_mul(l) {
            Some(v) => {
                acc = v;
            },
            None => {
                return None;
            },
        }
        k = k + 1;
    }
    Some(acc)
}

/// Computes `l op r` on whole numbers, or `None` where it has no value.
pub fn checked_int_op(op: Op, l: i64, r: i64) -> (res: Option<i64>)
    ensures
        res == spec_int_op(op, l, r),
{
    match op {
        Op::Add => l.checked_add(r),
        Op::Sub => l.checked_sub(r),
        Op::Mul => l.checked_mul(r),
        Op::Div => {
            if r == 0 || (l == i64::MIN && r == -1) {
                return None;
            }
            let lm = magnitude(l);
            let rm = magnitude(r);
            let q = lm / rm;
            proof {
                assert(q <= lm) by (nonlinear_arith)
                    requires
                        rm >= 1,
                        q == lm / rm,
                ;
                if (l < 0) == (r < 0) && lm == 0x8000_0000_0000_0000u64 {
                    assert(rm >= 2);
                    assert(q * 2 <= lm) by (nonlinear_arith)
                        requires
                            rm >= 2,
                            q == lm / rm,
                    ;
                }
            }
            if (l < 0) != (r < 0) {
                if q == 0x8000_0000_0000_0000u64 {
                    Some(i64::MIN)
                } else {
                    Some(-(q as i64))
                }
            } else {
                Some(q as i64)
            }
        },
        Op::Mod => {
            if r == 0 || (l == i64::MIN && r == -1) {
                return None;
            }
            let lm = magnitude(l);
            let rm = magnitude(r);
            let m = lm % rm;
            proof {
                let li = l as int;
                let ri = r as int;
                let q = lm as int / rm as int;
                assert(lm as int == q * (rm as int) + m as int) by (nonlinear_arith)
                    requires
                        rm > 0,
                        q == lm as int / rm as int,
                        m as int == lm as int % rm as int,
                ;
                assert(abs(ri) == rm as int);
                if l >= 0 {
                    vstd::arithmetic::div_mod::lemma_fundamental_div_mod_converse(li, rm as int, q, m as int);
                } else if m == 0 {
                    assert(li == (-q) * (rm as int)) by (nonlinear_arith)
                        requires
                            li == -(lm as int),
                            lm as int == q * (rm as int) + m as int,
                            m == 0,
                    ;
                    vstd::arithmetic::div_mod::lemma_fundamental_div_mod_converse(li, rm as int, -q, 0);
                } else {
                    assert(li == (-q - 1) * (rm as int) + (rm - m)) by (nonlinear_arith)
                        requires
                            li == -(lm as int),
                            lm as int == q * (rm as int) + m as int,
                    ;
                    vstd::arithmetic::div_mod::lemma_fundamental_div_mod_converse(li, rm as int, -q - 1, rm - m);
                }
            }
            if l >= 0 || m == 0 {
                Some(m as i64)
            } else {
                Some((rm - m) as i64)
            }
        },
        Op::Pow => checked_pow(l, #[verifier::truncate] (r as u32)),
    }
}

/// Computes the value of `v` followed by `bangs` exclamation marks, or
/// `None` where it has none (see `spec_factorial`).
pub fn checked_factorial(v: i64, bangs: u32) -> (res: Option<i64>)
    ensures
        res == spec_factorial(v, bangs),
{
    if v <= 0 {
        return Some(1);
    }
    if bangs == 0 {
        return None;
    }
    let b = bangs as i64;
    let mut acc: i64 = 1;
    let mut cur: i64 = v;
    proof {
        lemma_multifactorial_positive(v as int, b as int);
    }
    while cur > 0
        invariant
            b >= 1,
            b == bangs,
            cur <= v,
            acc >= 1,
            acc * multifactorial(cur as int, b as int) == multifactorial(v as int, b as int),
        decreases (if cur > 0 { cur as int } else { 0 }),
    {
        let ghost whole = multifactorial(v as int, b as int);
        proof {
            lemma_multifactorial_positive(cur - b, b as int);
            let rest = multifactorial(cur - b, b as int);
            assert(multifactorial(cur as int, b as int) == cur * rest);
            assert(acc * cur <= whole) by (nonlinear_arith)
                requires
                    acc >= 1,
                    cur >= 1,
                    rest >= 1,
                    acc * (cur * rest) == whole,
            ;
            assert(acc * cur * rest == whole) by (nonlinear_arith)
                requires
                    acc * (cur * rest) == whole,
            ;
            assert(acc * cur >= 1) by (nonlinear_arith)
                requires
                    acc >= 1,
                    cur >= 1,
            ;
        }
        match acc.checked_mul(cur) {
            Some(p) => {
                acc = p;
            },
            None => {
                return None;
            },
        }
        cur = cur - b;
    }
    Some(acc)
}

/// Division rounds towards zero: where `r` is not zero and the quotient
/// fits, the result `q` leaves a remainder `l - q r` smaller than `r` in
/// magnitude and of the sign of `l` (or zero).
pub proof fn lemma_division_truncates(l: i64, r: i64)
    requires
        r != 0,
        !(l == i64::MIN && r == -1),
    ensures
        spec_int_op(Op::Div, l, r) matches Some(q) && {
            let m = l - q * r;
            &&& (r > 0 ==> -r < m < r)
            &&& (r < 0 ==> r < m < -r)
            &&& (m == 0 || (m < 0) == (l < 0))
        },
{
    let a = abs(l as int);
    let b = abs(r as int);
    let q0 = a / b;
    let rem = a % b;
    vstd::arithmetic::div_mod::lemma_fundamental_div_mod(a, b);
    vstd::arithmetic::div_mod::lemma_mod_pos_bound(a, b);
    assert(q0 >= 0) by (nonlinear_arith)
        requires
            a >= 0,
            b > 0,
            a == b * q0 + rem,
            0 <= rem < b,
    ;
    assert(q0 <= a) by (nonlinear_arith)
        requires
            a >= 0,
            b >= 1,
            q0 >= 0,
            a == b * q0 + rem,
            0 <= rem < b,
    ;
    if l == i64::MIN && r < 0 {
        assert(2 * q0 <= a) by (nonlinear_arith)
            requires
                b >= 2,
                q0 >= 0,
                a == b * q0 + rem,
                rem >= 0,
        ;
    }
    let q = trunc_div(l as int, r as int);
    assert(in_i64(q));
    let m = l - q * r;
    if l >= 0 && r > 0 {
        assert(m == rem) by (nonlinear_arith)
            requires
                a == l,
                b == r,
                q == q0,
                a == b * q0 + rem,
                m == l - q * r,
        ;
    } else if l >= 0 && r < 0 {
        assert(m == rem) by (nonlinear_arith)
            requires
                a == l,
                b == -r,
                q == -q0,
                a == b * q0 + rem,
                m == l - q * r,
        ;
    } else if l < 0 && r > 0 {
        assert(m == -rem) by (nonlinear_arith)
            requires
                a == -l,
                b == r,
                q == -q0,
                a == b * q0 + rem,
                m == l - q * r,
        ;
    } else {
        assert(m == -rem) by (nonlinear_arith)
            requires
                a == -l,
                b == -r,
                q == q0,
                a == b * q0 + rem,
                m == l - q * r,
        ;
    }
}

} // verus!
