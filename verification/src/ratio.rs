//! Exact nonnegative fractions and the avoidance ratio built from them.

use vstd::prelude::*;
use vstd::std_specs::cmp::PartialEqSpecImpl;

verus! {

/// A nonnegative fraction `num / den`; it stands for a number when `den > 0`.
/// Two fractions compare equal when they stand for the same number.
#[derive(Debug, Clone, Copy)]
pub struct Fraction {
    pub num: u64,
    pub den: u64,
}

/// Distance between two integers.
pub open spec fn abs_diff(a: int, b: int) -> int {
    if a >= b {
        a - b
    } else {
        b - a
    }
}

impl Fraction {
    /// The fraction stands for a number.
    pub open spec fn wf(self) -> bool {
        self.den > 0
    }

    /// `self < other` as numbers.
    pub open spec fn lt_value(self, other: Fraction) -> bool {
        self.num * other.den < other.num * self.den
    }

    /// `self == other` as numbers.
    pub open spec fn eq_value(self, other: Fraction) -> bool {
        self.num * other.den == other.num * self.den
    }

    /// `self <= other` as numbers.
    pub open spec fn le_value(self, other: Fraction) -> bool {
        self.num * other.den <= other.num * self.den
    }

    /// The fraction `num / den`.
    pub fn new(num: u64, den: u64) -> (f: Fraction)
        requires
            den > 0,
        ensures
            f.num == num,
            f.den == den,
            f.wf(),
    {
        Fraction { num, den }
    }

    /// The number zero.
    pub fn zero() -> (f: Fraction)
        ensures
            f.num == 0,
            f.den == 1,
    {
        Fraction { num: 0, den: 1 }
    }

    /// Whether `self < other` as numbers.
    pub fn less_than(&self, other: &Fraction) -> (b: bool)
        ensures
            b == self.lt_value(*other),
    {
        proof {
            lemma_u64_product_fits(self.num, other.den);
            lemma_u64_product_fits(other.num, self.den);
        }
        (self.num as u128) * (other.den as u128) < (other.num as u128) * (self.den as u128)
    }

    /// Whether `self >= other` as numbers.
    pub fn at_least(&self, other: &Fraction) -> (b: bool)
        ensures
            b == other.le_value(*self),
    {
        !self.less_than(other)
    }
}

/// The product of two `u64` values fits in a `u128`.
pub proof fn lemma_u64_product_fits(a: u64, b: u64)
    ensures
        0 <= (a as int) * (b as int) <= (u64::MAX as int) * (u64::MAX as int),
        (u64::MAX as int) * (u64::MAX as int) < u128::MAX,
{
    assert(0 <= (a as int) * (b as int) <= (u64::MAX as int) * (u64::MAX as int))
        by (nonlinear_arith)
        requires
            a <= u64::MAX,
            b <= u64::MAX,
    ;
}

/// A ratio of avoidances to choices: a fraction, or infinite when only the
/// divisor is zero. Two finite ratios compare equal when their fractions
/// stand for the same number.
#[derive(Debug, Clone, Copy)]
pub enum Ratio {
    Finite(Fraction),
    Infinite,
}

impl PartialEq for Fraction {
    fn eq(&self, other: &Self) -> (res: bool) {
        !self.less_than(other) && !other.less_than(self)
    }
}

impl PartialEqSpecImpl for Fraction {
    open spec fn obeys_eq_spec() -> bool {
        true
    }

    open spec fn eq_spec(&self, other: &Fraction) -> bool {
        self.eq_value(*other)
    }
}

/// Two ratios are the same number: both infinite, or both finite with
/// fractions of the same value.
pub open spec fn same_ratio(a: Ratio, b: Ratio) -> bool {
    match (a, b) {
        (Ratio::Finite(f), Ratio::Finite(g)) => f.eq_value(g),
        (Ratio::Infinite, Ratio::Infinite) => true,
        _ => false,
    }
}

impl PartialEq for Ratio {
    fn eq(&self, other: &Self) -> (res: bool) {
        match self {
            Ratio::Finite(f) => match other {
                Ratio::Finite(g) => f == g,
                Ratio::Infinite => false,
            },
            Ratio::Infinite => match other {
                Ratio::Finite(_) => false,
                Ratio::Infinite => true,
            },
        }
    }
}

impl PartialEqSpecImpl for Ratio {
    open spec fn obeys_eq_spec() -> bool {
        true
    }

    open spec fn eq_spec(&self, other: &Ratio) -> bool {
        same_ratio(*self, *other)
    }
}

/// The ratio `avoids : chooses` as the library defines it: zero when nothing
/// was recorded, infinite when there were avoidances but no choices, and the
/// fraction `avoids / chooses` otherwise.
pub open spec fn ratio_of(avoids: nat, chooses: nat) -> Ratio {
    if chooses == 0 {
        if avoids > 0 {
            Ratio::Infinite
        } else {
            Ratio::Finite(Fraction { num: 0, den: 1 })
        }
    } else {
        Ratio::Finite(Fraction { num: avoids as u64, den: chooses as u64 })
    }
}

/// The ratio lies strictly closer than `tol` to `target`.
pub open spec fn ratio_within(r: Ratio, target: int, tol: Fraction) -> bool {
    match r {
        Ratio::Finite(f) => abs_diff(f.num as int, target * f.den) * tol.den < tol.num * f.den,
        Ratio::Infinite => false,
    }
}

/// The ratio is finite and lies strictly farther than `tol` from `target`.
pub open spec fn ratio_beyond(r: Ratio, target: int, tol: Fraction) -> bool {
    match r {
        Ratio::Finite(f) => abs_diff(f.num as int, target * f.den) * tol.den > tol.num * f.den,
        Ratio::Infinite => false,
    }
}

impl Ratio {
    /// Every fraction in the ratio stands for a number.
    pub open spec fn wf(self) -> bool {
        match self {
            Ratio::Finite(f) => f.wf(),
            Ratio::Infinite => true,
        }
    }

    /// Whether the ratio is finite.
    pub fn is_finite(&self) -> (b: bool)
        ensures
            b == (*self is Finite),
    {
        match self {
            Ratio::Finite(_) => true,
            Ratio::Infinite => false,
        }
    }

    /// The ratio `avoids : chooses` (see [`ratio_of`]).
    pub fn of_counts(avoids: u64, chooses: u64) -> (r: Ratio)
        ensures
            r == ratio_of(avoids as nat, chooses as nat),
            r.wf(),
    {
        if chooses == 0 {
            if avoids > 0 {
                Ratio::Infinite
            } else {
                Ratio::Finite(Fraction { num: 0, den: 1 })
            }
        } else {
            Ratio::Finite(Fraction { num: avoids, den: chooses })
        }
    }

    /// Distance from the ratio to `target`, scaled by the denominator, and the
    /// two products that compare it with `tol`; `None` stands for a left
    /// product too large for a `u128`.
    fn scaled_distance(f: &Fraction, target: u64, tol: &Fraction) -> (res: (Option<u128>, u128))
        ensures
            ({
                let lhs = abs_diff(f.num as int, target * f.den) * tol.den;
                &&& res.1 == tol.num * f.den
                &&& match res.0 {
                    Some(v) => v == lhs,
                    None => lhs > u128::MAX,
                }
            }),
    {
        proof {
            lemma_u64_product_fits(tol.num, f.den);
            lemma_u64_product_fits(target, f.den);
        }
        let scaled_target: u128 = (target as u128) * (f.den as u128);
        let n: u128 = f.num as u128;
        let d: u128 = if n >= scaled_target {
            n - scaled_target
        } else {
            scaled_target - n
        };
        let lhs = d.checked_mul(tol.den as u128);
        let rhs: u128 = (tol.num as u128) * (f.den as u128);
        (lhs, rhs)
    }

    /// Whether the ratio lies strictly closer than `tol` to `target`.
    pub fn within(&self, target: u64, tol: &Fraction) -> (b: bool)
        ensures
            b == ratio_within(*self, target as int, *tol),
    {
        match self {
            Ratio::Finite(f) => {
                let (lhs, rhs) = Self::scaled_distance(f, target, tol);
                match lhs {
                    Some(l) => l < rhs,
                    None => false,
                }
            },
            Ratio::Infinite => false,
        }
    }

    /// Whether the ratio is finite and lies strictly farther than `tol` from
    /// `target`.
    pub fn beyond(&self, target: u64, tol: &Fraction) -> (b: bool)
        ensures
            b == ratio_beyond(*self, target as int, *tol),
    {
        match self {
            Ratio::Finite(f) => {
                let (lhs, rhs) = Self::scaled_distance(f, target, tol);
                match lhs {
                    Some(l) => l > rhs,
                    None => true,
                }
            },
            Ratio::Infinite => false,
        }
    }
}


/// A ratio closer than a tolerance to a target is never also farther than
/// that tolerance from it: a tracker near the expected ratio never violates
/// the conservation law with the same threshold.
pub proof fn law_within_excludes_beyond(r: Ratio, target: int, tol: Fraction)
    ensures
        ratio_within(r, target, tol) ==> !ratio_beyond(r, target, tol),
{
}

/// An infinite ratio is neither near a target nor counted as deviating
/// from it: there is not enough data to judge.
pub proof fn law_infinite_not_judged(target: int, tol: Fraction)
    ensures
        !ratio_within(Ratio::Infinite, target, tol),
        !ratio_beyond(Ratio::Infinite, target, tol),
{
}


/// The finite ratios of a list, as fractions, in order.
pub open spec fn finite_parts(s: Seq<Ratio>) -> Seq<Fraction>
    decreases s.len(),
{
    if s.len() == 0 {
        Seq::empty()
    } else {
        match s.last() {
            Ratio::Finite(f) => finite_parts(s.drop_last()).push(f),
            Ratio::Infinite => finite_parts(s.drop_last()),
        }
    }
}

/// The finite ratios of a list, as fractions, in order; infinite ones are
/// left out.
pub fn finite_fractions(ratios: &[Ratio]) -> (res: Vec<Fraction>)
    ensures
        res@ == finite_parts(ratios@),
{
    let mut res: Vec<Fraction> = Vec::new();
    let mut i: usize = 0;
    while i < ratios.len()
        invariant
            i <= ratios@.len(),
            res@ == finite_parts(ratios@.take(i as int)),
        decreases ratios@.len() - i,
    {
        proof {
            assert(ratios@.take(i + 1).drop_last() =~= ratios@.take(i as int));
        }
        match ratios[i] {
            Ratio::Finite(f) => res.push(f),
            Ratio::Infinite => {},
        }
        i = i + 1;
    }
    proof {
        assert(ratios@.take(i as int) =~= ratios@);
    }
    res
}


/// Whether a ratio is near a target, or beyond it, depends only on the
/// ratio's value: scaling numerator and denominator by the same positive
/// factor gives the same verdict.
pub proof fn law_verdict_depends_on_value(num: u64, den: u64, k: nat, target: int, tol: Fraction)
    requires
        k > 0,
        k * num <= u64::MAX,
        k * den <= u64::MAX,
    ensures
        ratio_within(Ratio::Finite(Fraction { num, den }), target, tol) == ratio_within(
            Ratio::Finite(Fraction { num: (k * num) as u64, den: (k * den) as u64 }),
            target,
            tol,
        ),
        ratio_beyond(Ratio::Finite(Fraction { num, den }), target, tol) == ratio_beyond(
            Ratio::Finite(Fraction { num: (k * num) as u64, den: (k * den) as u64 }),
            target,
            tol,
        ),
{
    let d = abs_diff(num as int, target * den);
    let dk = abs_diff((k * num) as int, target * (k * den));
    assert(dk == k * d) by (nonlinear_arith)
        requires
            d == abs_diff(num as int, target * den),
            dk == abs_diff((k * num) as int, target * (k * den)),
            k > 0,
    ;
    let q = tol.den as int;
    let p = tol.num as int;
    assert((k * d) * q < p * (k * den) <==> d * q < p * den) by (nonlinear_arith)
        requires
            k > 0,
    ;
    assert((k * d) * q > p * (k * den) <==> d * q > p * den) by (nonlinear_arith)
        requires
            k > 0,
    ;
}

/// A ratio `num / den` with `den > 0` is near a target exactly when its
/// distance to the target, measured as a number, is below the tolerance:
/// the whole numbers `n` within `tol` of an integral ratio `n / 1` are
/// those with `|n - target| * tol.den < tol.num`.
pub proof fn law_verdict_on_whole_ratios(n: u64, target: int, tol: Fraction)
    ensures
        ratio_within(Ratio::Finite(Fraction { num: n, den: 1 }), target, tol) <==> abs_diff(
            n as int,
            target,
        ) * tol.den < tol.num,
        ratio_beyond(Ratio::Finite(Fraction { num: n, den: 1 }), target, tol) <==> abs_diff(
            n as int,
            target,
        ) * tol.den > tol.num,
{
}

} // verus!
