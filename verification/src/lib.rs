//! A verified backtesting engine for trading strategies.
//!
//! Prices, quantities and balances are fixed-point integers: a price is a
//! number of minor currency units per lot, a quantity is a number of lots, and
//! an amount of money is a signed number of minor currency units.

use vstd::prelude::*;

pub mod collector;
pub mod engine;
pub mod errors;
pub mod optimizer;

verus! {

/// The quotient of `a` by `b`, rounded toward zero.
pub open spec fn quotient(a: int, b: int) -> int
    recommends
        b != 0,
{
    if a >= 0 {
        if b > 0 {
            a / b
        } else {
            -(a / (-b))
        }
    } else {
        if b > 0 {
            -((-a) / b)
        } else {
            (-a) / (-b)
        }
    }
}

/// `percent` hundredths of `x`, rounded toward zero.
pub open spec fn percent_of(x: int, percent: int) -> int {
    quotient(x * percent, 100)
}

/// The change from `from` to `to`, in percent of `from`, rounded toward zero.
pub open spec fn percent_change(from: int, to: int) -> int
    recommends
        from != 0,
{
    quotient((to - from) * 100, from)
}

/// Percentage arithmetic on amounts.
pub trait PercentCalculus<Rhs = Self>: Sized {
    /// `self` raised by `rhs` percent can be computed and represented.
    spec fn addpercent_in_range(self, rhs: Rhs) -> bool;

    /// `self` lowered by `rhs` percent can be computed and represented.
    spec fn subpercent_in_range(self, rhs: Rhs) -> bool;

    /// `rhs` percent of `self` can be computed.
    spec fn how_many_in_range(self, rhs: Rhs) -> bool;

    /// The change from `self` to `new` is defined and can be represented.
    spec fn change_in_range(self, new: Self) -> bool;

    /// What [`PercentCalculus::addpercent`] returns.
    spec fn raised_by(self, rhs: Rhs) -> Self;

    /// What [`PercentCalculus::subpercent`] returns.
    spec fn lowered_by(self, rhs: Rhs) -> Self;

    /// What [`PercentCalculus::how_many`] returns.
    spec fn share(self, rhs: Rhs) -> Self;

    /// What [`PercentCalculus::change`] returns.
    spec fn change_to(self, new: Self) -> Self;

    /// 100 + 10% = 110
    fn addpercent(self, rhs: Rhs) -> (r: Self)
        requires
            self.addpercent_in_range(rhs),
        ensures
            r == self.raised_by(rhs),
    ;

    /// 100 - 10% = 90
    fn subpercent(self, rhs: Rhs) -> (r: Self)
        requires
            self.subpercent_in_range(rhs),
        ensures
            r == self.lowered_by(rhs),
    ;

    /// 100 for 10% => 10
    fn how_many(self, percent: Rhs) -> (r: Self)
        requires
            self.how_many_in_range(percent),
        ensures
            r == self.share(percent),
    ;

    /// 100 by 110 => 10%
    fn change(self, new: Self) -> (r: Self)
        requires
            self.change_in_range(new),
        ensures
            r == self.change_to(new),
    ;
}

/// Divides `a` by `b`, rounding toward zero.
fn divide(a: i128, b: i128) -> (r: i128)
    requires
        b != 0,
        i128::MIN < a,
        i128::MIN < b,
    ensures
        r == quotient(a as int, b as int),
{
    if a >= 0 {
        if b > 0 {
            a / b
        } else {
            -(a / (-b))
        }
    } else {
        if b > 0 {
            -((-a) / b)
        } else {
            (-a) / (-b)
        }
    }
}

/// A hundredth of `a`, rounded toward zero.
fn hundredth(a: i128) -> (r: i128)
    ensures
        r == quotient(a as int, 100),
{
    if a == i128::MIN {
        -1701411834604692317316873037158841057
    } else {
        proof {
            lemma_quotient_bound(a as int, 100);
        }
        divide(a, 100)
    }
}

impl PercentCalculus for i128 {
    open spec fn addpercent_in_range(self, rhs: i128) -> bool {
        &&& i128::MIN <= self * rhs <= i128::MAX
        &&& i128::MIN <= self + percent_of(self as int, rhs as int) <= i128::MAX
    }

    open spec fn subpercent_in_range(self, rhs: i128) -> bool {
        &&& i128::MIN <= self * rhs <= i128::MAX
        &&& i128::MIN <= self - percent_of(self as int, rhs as int) <= i128::MAX
    }

    open spec fn how_many_in_range(self, rhs: i128) -> bool {
        i128::MIN <= self * rhs <= i128::MAX
    }

    open spec fn change_in_range(self, new: i128) -> bool {
        &&& self != 0
        &&& i128::MIN < self
        &&& i128::MIN < (new - self) * 100 <= i128::MAX
    }

    open spec fn raised_by(self, rhs: i128) -> i128 {
        (self + percent_of(self as int, rhs as int)) as i128
    }

    open spec fn lowered_by(self, rhs: i128) -> i128 {
        (self - percent_of(self as int, rhs as int)) as i128
    }

    open spec fn share(self, rhs: i128) -> i128 {
        percent_of(self as int, rhs as int) as i128
    }

    open spec fn change_to(self, new: i128) -> i128 {
        percent_change(self as int, new as int) as i128
    }

    fn addpercent(self, percent: i128) -> (r: i128) {
        self + hundredth(self * percent)
    }

    fn subpercent(self, percent: i128) -> (r: i128) {
        self - hundredth(self * percent)
    }

    fn how_many(self, percent: i128) -> (r: i128) {
        hundredth(self * percent)
    }

    fn change(self, new: i128) -> (r: i128) {
        proof {
            lemma_quotient_bound((new - self) * 100, self as int);
        }
        divide((new - self) * 100, self)
    }
}

/// A quotient is no larger in magnitude than its dividend.
pub proof fn lemma_quotient_bound(a: int, b: int)
    requires
        b != 0,
    ensures
        a >= 0 ==> -a <= quotient(a, b) <= a,
        a <= 0 ==> a <= quotient(a, b) <= -a,
{
    let m = if a >= 0 { a } else { -a };
    let d = if b > 0 { b } else { -b };
    assert(0 <= m / d <= m) by (nonlinear_arith)
        requires
            m >= 0,
            d > 0,
    ;
}

} // verus!
