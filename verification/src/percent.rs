//! Shares in percent, to two decimals. A share is worked out as
//! single-precision arithmetic works it out: the two counts, their quotient
//! and its hundredfold are each rounded to 24 significant bits, ties to even,
//! and the outcome is rounded to hundredths, ties to even. All of it is done
//! on whole numbers.

use vstd::prelude::*;
use vstd::string::*;
use vstd::arithmetic::div_mod::{lemma_div_denominator, lemma_fundamental_div_mod};
use vstd::arithmetic::power2::{
    lemma2_to64, lemma2_to64_rest, lemma_pow2_adds, lemma_pow2_pos,
    lemma_pow2_strictly_increases, lemma_pow2_unfold, pow2,
};
use crate::text::{decimal, decimal_text, digit_char, digit_text};

verus! {

/// The first whole number that needs more than 24 bits: two to the 24th.
pub const SIGNIFICAND_LIMIT: u128 = 0x100_0000;

/// The unit in which quotients are held: two to the 56th.
pub const SCALE: u128 = 0x100_0000_0000_0000;

/// The whole number nearest to `n / d`; of two that are equally near, the even one.
pub open spec fn round_half_even(n: nat, d: nat) -> nat {
    let q = n / d;
    let r = n % d;
    if 2 * r < d || (2 * r == d && q % 2 == 0) {
        q
    } else {
        q + 1
    }
}

/// By how many bits `x` is longer than 24 bits.
pub open spec fn excess_bits(x: nat) -> nat
    decreases x,
{
    if x < SIGNIFICAND_LIMIT {
        0
    } else {
        1 + excess_bits(x / 2)
    }
}

/// `n / d` rounded to 24 significant bits, ties to even, for a quotient that
/// is zero or not below two to the 23rd: the multiple of `2^k` nearest to it,
/// where `k` is the number of bits by which its whole part is longer than 24.
pub open spec fn round24_ratio(n: nat, d: nat) -> nat {
    let k = excess_bits(n / d);
    round_half_even(n, d * pow2(k)) * pow2(k)
}

/// The whole number `x` rounded to 24 significant bits, ties to even.
pub open spec fn round24(x: nat) -> nat {
    round24_ratio(x, 1)
}

/// The share of `part` in `total`, in hundredths of a percent, for a total
/// that is not zero. The two counts are rounded to 24 significant bits, then
/// their quotient, then its hundredfold (quotient and hundredfold are held
/// in units of two to the minus 56th); the outcome is rounded to hundredths.
pub open spec fn share_hundredths(part: nat, total: nat) -> nat {
    let quotient = round24_ratio(round24(part) * (SCALE as nat), round24(total));
    let percent = round24(100 * quotient);
    round_half_even(100 * percent, SCALE as nat)
}

/// A share in percent, to two decimals.
#[derive(Clone, Copy, Debug, PartialEq, Eq, Structural)]
pub enum Percentage {
    /// So many hundredths of a percent.
    Hundredths(u64),
    /// A share in nothing of something: infinite.
    Infinite,
    /// A share in nothing of nothing: not a number.
    Undefined,
}

/// The share of `part` in `total`, in percent.
pub open spec fn percentage_of(part: nat, total: nat) -> Percentage {
    if total != 0 {
        Percentage::Hundredths(share_hundredths(part, total) as u64)
    } else if part != 0 {
        Percentage::Infinite
    } else {
        Percentage::Undefined
    }
}

/// A number of hundredths with a decimal point: the whole part, a point and
/// two digits.
pub open spec fn hundredths_text(h: nat) -> Seq<char> {
    decimal_text(h / 100) + seq!['.', digit_char(h / 10 % 10), digit_char(h % 10)]
}

/// How a share is written.
pub open spec fn percentage_text(p: Percentage) -> Seq<char> {
    match p {
        Percentage::Hundredths(h) => hundredths_text(h as nat),
        Percentage::Infinite => seq!['i', 'n', 'f'],
        Percentage::Undefined => seq!['N', 'a', 'N'],
    }
}

/// A number with `k` bits in excess lies below two to the `24 + k`, and, if
/// `k` is not zero, not below two to the `23 + k`.
proof fn lemma_excess_bits(x: nat)
    ensures
        x < SIGNIFICAND_LIMIT * pow2(excess_bits(x)),
        excess_bits(x) > 0 ==> 0x80_0000 * pow2(excess_bits(x)) <= x,
    decreases x,
{
    lemma2_to64();
    if x >= SIGNIFICAND_LIMIT {
        lemma_excess_bits(x / 2);
        let k = excess_bits(x / 2);
        lemma_pow2_unfold(k + 1);
        lemma_pow2_pos(k);
    }
}

/// A number below two to the `24 + j` has at most `j` bits in excess.
proof fn lemma_excess_bound(x: nat, j: nat)
    requires
        x < SIGNIFICAND_LIMIT * pow2(j),
    ensures
        excess_bits(x) <= j,
    decreases x,
{
    lemma2_to64();
    if x >= SIGNIFICAND_LIMIT && j > 0 {
        lemma_pow2_unfold(j);
        lemma_excess_bound(x / 2, (j - 1) as nat);
    }
}

/// Two to the 76th, spelled out.
proof fn lemma_pow2_76()
    ensures
        pow2(76) == 0x1000_0000_0000_0000_0000,
{
    lemma2_to64();
    lemma2_to64_rest();
    lemma_pow2_adds(64, 12);
}

fn nearest(n: u128, d: u128) -> (r: u128)
    requires
        d > 0,
    ensures
        r == round_half_even(n as nat, d as nat),
        r <= n / d + 1,
        d * r <= 2 * n,
{
    let q = n / d;
    let rest = n % d;
    proof {
        lemma_fundamental_div_mod(n as int, d as int);
        assert(d * q <= n) by (nonlinear_arith)
            requires
                n == d * q + rest,
                rest >= 0,
                d > 0,
        ;
    }
    if rest < d - rest || (rest == d - rest && q % 2 == 0) {
        assert(d * q <= 2 * n);
        q
    } else {
        assert(rest >= 1 && d >= 2);
        assert(q < u128::MAX) by (nonlinear_arith)
            requires
                d * q <= n,
                d >= 2,
                n <= u128::MAX,
        ;
        assert(d * (q + 1) <= 2 * n) by (nonlinear_arith)
            requires
                n == d * q + rest,
                2 * rest >= d,
        ;
        q + 1
    }
}

fn excess(x: u128) -> (k: u32)
    ensures
        k == excess_bits(x as nat),
        k <= 104,
    decreases x,
{
    proof {
        lemma2_to64();
        lemma2_to64_rest();
        lemma_pow2_adds(64, 40);
        assert(pow2(104) == 0x1_0000_0000_0000_0000_0000_0000_00);
        lemma_excess_bound(x as nat, 104);
    }
    if x < SIGNIFICAND_LIMIT {
        0
    } else {
        proof {
            lemma_excess_bound((x / 2) as nat, 104);
        }
        1 + excess(x / 2)
    }
}

fn power_of_two(k: u32) -> (p: u128)
    requires
        k <= 76,
    ensures
        p == pow2(k as nat),
        p <= 0x1000_0000_0000_0000_0000,
    decreases k,
{
    proof {
        lemma2_to64();
        lemma_pow2_76();
    }
    if k == 0 {
        1
    } else {
        proof {
            lemma_pow2_unfold(k as nat);
            if k < 76 {
                lemma_pow2_strictly_increases(k as nat, 76);
            }
        }
        2 * power_of_two(k - 1)
    }
}

fn round24_of_ratio(n: u128, d: u128) -> (r: u128)
    requires
        0 < d <= 0x2_0000_0000,
        n / d < 0x1_0000_0000_0000_0000_0000_0000_0,
    ensures
        r == round24_ratio(n as nat, d as nat),
        r <= 2 * (n / d) + 1,
        n / d >= 1 ==> r >= 1,
{
    let f = n / d;
    let k = excess(f);
    proof {
        lemma2_to64();
        lemma_pow2_76();
        assert(SIGNIFICAND_LIMIT * pow2(76) == 0x1_0000_0000_0000_0000_0000_0000_0);
        lemma_excess_bound(f as nat, 76);
        lemma_excess_bits(f as nat);
        lemma_pow2_pos(k as nat);
    }
    let p = power_of_two(k);
    assert(0 < d * p <= 0x2_0000_0000 * 0x1000_0000_0000_0000_0000) by (nonlinear_arith)
        requires
            0 < d <= 0x2_0000_0000,
            0 < p <= 0x1000_0000_0000_0000_0000,
    ;
    let m = nearest(n, d * p);
    proof {
        lemma_div_denominator(n as int, d as int, p as int);
        assert(n as int / (d * p) == f as int / (p as int));
        assert(f as int / (p as int) < SIGNIFICAND_LIMIT) by (nonlinear_arith)
            requires
                f < SIGNIFICAND_LIMIT * p,
                p > 0,
        ;
        assert(m <= SIGNIFICAND_LIMIT);
        assert(m * p <= SIGNIFICAND_LIMIT * p) by (nonlinear_arith)
            requires
                m <= SIGNIFICAND_LIMIT,
                p > 0,
        ;
        assert(SIGNIFICAND_LIMIT * p <= SIGNIFICAND_LIMIT * 0x1000_0000_0000_0000_0000)
            by (nonlinear_arith)
            requires
                p <= 0x1000_0000_0000_0000_0000,
        ;
        if k == 0 {
            lemma2_to64();
            assert(p == 1);
            assert(m * p == m && d * p == d) by (nonlinear_arith)
                requires
                    p == 1,
            ;
        } else {
            assert(0x80_0000 * p <= f);
            assert(f as int / (p as int) >= 1) by (nonlinear_arith)
                requires
                    0x80_0000 * p <= f,
                    p > 0,
            ;
            assert(m * p >= 1) by (nonlinear_arith)
                requires
                    m >= 1,
                    p >= 1,
            ;
        }
    }
    m * p
}

/// The share of `part` in `total`, in percent, to two decimals.
pub fn get_percentage(part: u32, total: u32) -> (p: Percentage)
    ensures
        p == percentage_of(part as nat, total as nat),
        total != 0 ==> p == Percentage::Hundredths(
            share_hundredths(part as nat, total as nat) as u64,
        ) && share_hundredths(part as nat, total as nat) <= u64::MAX,
{
    if total == 0 {
        return if part != 0 {
            Percentage::Infinite
        } else {
            Percentage::Undefined
        };
    }
    let a = round24_of_ratio(part as u128, 1);
    let b = round24_of_ratio(total as u128, 1);
    proof {
        assert(b > 0);
        assert((a * SCALE) / (b as int) <= a * SCALE) by (nonlinear_arith)
            requires
                b > 0,
                a >= 0,
        ;
    }
    let quotient = round24_of_ratio(a * SCALE, b);
    let percent = round24_of_ratio(100 * quotient, 1);
    let h = nearest(100 * percent, SCALE);
    assert(h <= u64::MAX);
    Percentage::Hundredths(h as u64)
}

impl Percentage {
    /// Writes the share with two decimals, or `inf` or `NaN`.
    pub fn render(&self) -> (r: String)
        ensures
            r@ == percentage_text(*self),
    {
        match self {
            Percentage::Hundredths(h) => {
                let mut s = decimal(*h / 100);
                proof {
                    reveal_strlit(".");
                }
                s.append(".");
                s.append(digit_text(*h / 10 % 10));
                s.append(digit_text(*h % 10));
                assert(s@ =~= hundredths_text(*h as nat));
                s
            },
            Percentage::Infinite => {
                proof {
                    reveal_strlit("inf");
                }
                let s = String::from_str("inf");
                assert(s@ =~= percentage_text(*self));
                s
            },
            Percentage::Undefined => {
                proof {
                    reveal_strlit("NaN");
                }
                let s = String::from_str("NaN");
                assert(s@ =~= percentage_text(*self));
                s
            },
        }
    }
}

} // verus!
