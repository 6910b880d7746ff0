//! Comparison of `Dt` values (by attoseconds only) and the operator traits.
use vstd::prelude::*;
use crate::arith::{clamp128, tdiv};
use crate::dt::Dt;
use crate::scale::Scale;

verus! {

/// The value `a * rhs` gives (`Dt::mul`).
pub open spec fn mul_result(a: Dt, rhs: i64) -> Dt {
    if rhs == 0 || a.attos == 0 {
        Dt { attos: 0, scale: Scale::TAI, target: Scale::TAI }
    } else {
        Dt { attos: clamp128(a.attos * rhs) as i128, scale: a.scale, target: a.target }
    }
}

/// The value `a / rhs` gives (`Dt::div`).
pub open spec fn div_result(a: Dt, rhs: i64) -> Dt {
    if rhs == 0 || a.attos == 0 {
        Dt { attos: 0, scale: Scale::TAI, target: Scale::TAI }
    } else {
        Dt { attos: tdiv(a.attos as int, rhs as int) as i128, scale: a.scale, target: a.target }
    }
}

impl Dt {
    /// Orders by the attosecond counts alone.
    pub fn cmp(&self, other: &Self) -> (r: core::cmp::Ordering)
        ensures
            (r == core::cmp::Ordering::Less) == (self.attos < other.attos),
            (r == core::cmp::Ordering::Equal) == (self.attos == other.attos),
            (r == core::cmp::Ordering::Greater) == (self.attos > other.attos),
    {
        if self.attos < other.attos {
            core::cmp::Ordering::Less
        } else if self.attos > other.attos {
            core::cmp::Ordering::Greater
        } else {
            core::cmp::Ordering::Equal
        }
    }

    /// The smaller of the two by attoseconds; `self` on a tie.
    pub fn min(self, other: Self) -> (r: Self)
        ensures
            r == (if other.attos < self.attos { other } else { self }),
    {
        if other.attos < self.attos { other } else { self }
    }

    /// The larger of the two by attoseconds; `self` on a tie.
    pub fn max(self, other: Self) -> (r: Self)
        ensures
            r == (if self.attos < other.attos { other } else { self }),
    {
        if self.attos < other.attos { other } else { self }
    }

    /// Equal attosecond counts (scales are not consulted).
    pub fn eq(&self, other: &Self) -> (r: bool)
        ensures
            r == (self.attos == other.attos),
    {
        self.attos == other.attos
    }

    /// `self.attos < other.attos`.
    pub fn lt(&self, other: &Self) -> (r: bool)
        ensures
            r == (self.attos < other.attos),
    {
        self.attos < other.attos
    }

    /// `self.attos > other.attos`.
    pub fn gt(&self, other: &Self) -> (r: bool)
        ensures
            r == (self.attos > other.attos),
    {
        self.attos > other.attos
    }

    /// `self.attos <= other.attos`.
    pub fn le(&self, other: &Self) -> (r: bool)
        ensures
            r == (self.attos <= other.attos),
    {
        self.attos <= other.attos
    }

    /// `self.attos >= other.attos`.
    pub fn ge(&self, other: &Self) -> (r: bool)
        ensures
            r == (self.attos >= other.attos),
    {
        self.attos >= other.attos
    }
}

impl PartialEq for Dt {
    fn eq(&self, other: &Self) -> (r: bool) {
        self.attos == other.attos
    }
}

impl vstd::std_specs::cmp::PartialEqSpecImpl for Dt {
    open spec fn obeys_eq_spec() -> bool {
        true
    }

    open spec fn eq_spec(&self, other: &Self) -> bool {
        self.attos == other.attos
    }
}

impl Eq for Dt {}

impl PartialOrd for Dt {
    fn partial_cmp(&self, other: &Self) -> (r: Option<core::cmp::Ordering>) {
        Some(Dt::cmp(self, other))
    }
}

impl vstd::std_specs::cmp::PartialOrdSpecImpl for Dt {
    open spec fn obeys_partial_cmp_spec() -> bool {
        true
    }

    open spec fn partial_cmp_spec(&self, other: &Self) -> Option<core::cmp::Ordering> {
        if self.attos < other.attos {
            Some(core::cmp::Ordering::Less)
        } else if self.attos > other.attos {
            Some(core::cmp::Ordering::Greater)
        } else {
            Some(core::cmp::Ordering::Equal)
        }
    }
}

impl core::ops::Add for Dt {
    type Output = Dt;

    fn add(self, rhs: Dt) -> (r: Dt) {
        Dt::add(&self, rhs)
    }
}

impl vstd::std_specs::ops::AddSpecImpl for Dt {
    open spec fn obeys_add_spec() -> bool {
        true
    }

    open spec fn add_req(self, rhs: Dt) -> bool {
        true
    }

    open spec fn add_spec(self, rhs: Dt) -> Dt {
        Dt { attos: clamp128(self.attos + rhs.attos) as i128, scale: self.scale, target: self.target }
    }
}

impl core::ops::Sub for Dt {
    type Output = Dt;

    fn sub(self, rhs: Dt) -> (r: Dt) {
        Dt::sub(&self, rhs)
    }
}

impl vstd::std_specs::ops::SubSpecImpl for Dt {
    open spec fn obeys_sub_spec() -> bool {
        true
    }

    open spec fn sub_req(self, rhs: Dt) -> bool {
        true
    }

    open spec fn sub_spec(self, rhs: Dt) -> Dt {
        Dt { attos: clamp128(self.attos - rhs.attos) as i128, scale: self.scale, target: self.target }
    }
}

impl core::ops::Mul<i64> for Dt {
    type Output = Dt;

    fn mul(self, rhs: i64) -> (r: Dt) {
        Dt::mul(self, rhs)
    }
}

impl vstd::std_specs::ops::MulSpecImpl<i64> for Dt {
    open spec fn obeys_mul_spec() -> bool {
        true
    }

    open spec fn mul_req(self, rhs: i64) -> bool {
        true
    }

    open spec fn mul_spec(self, rhs: i64) -> Dt {
        mul_result(self, rhs)
    }
}

impl core::ops::Div<i64> for Dt {
    type Output = Dt;

    fn div(self, rhs: i64) -> (r: Dt) {
        Dt::div(self, rhs)
    }
}

impl vstd::std_specs::ops::DivSpecImpl<i64> for Dt {
    open spec fn obeys_div_spec() -> bool {
        true
    }

    open spec fn div_req(self, rhs: i64) -> bool {
        !(self.attos == i128::MIN && rhs == -1)
    }

    open spec fn div_spec(self, rhs: i64) -> Dt {
        div_result(self, rhs)
    }
}

impl core::ops::Neg for Dt {
    type Output = Dt;

    fn neg(self) -> (r: Dt) {
        Dt::neg(self)
    }
}

impl vstd::std_specs::ops::NegSpecImpl for Dt {
    open spec fn obeys_neg_spec() -> bool {
        true
    }

    open spec fn neg_req(self) -> bool {
        self.attos != i128::MIN
    }

    open spec fn neg_spec(self) -> Dt {
        Dt { attos: (-self.attos) as i128, scale: self.scale, target: self.target }
    }
}

} // verus!
