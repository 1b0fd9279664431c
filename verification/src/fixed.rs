//! A fixed-point number type: the signal path on a machine without floating
//! point.
//!
//! Results that do not fit stop at the end of the range, quotients and
//! products are rounded toward zero, and a quotient by zero is zero. So every
//! operation is total and a function of its operands, which is all that the
//! signal path asks.

use crate::num;
use core::cmp::Ordering;
use core::ops::{Add, Div, Mul, Neg, Sub};
use vstd::prelude::*;
use vstd::std_specs::cmp::{PartialEqSpecImpl, PartialOrdSpecImpl};
use vstd::std_specs::convert::FromSpecImpl;
use vstd::std_specs::ops::{
    AddSpec, AddSpecImpl, DivSpecImpl, MulSpec, MulSpecImpl, NegSpecImpl, SubSpecImpl,
};

verus! {

/// Steps to one.
pub const ONE: i64 = 65536;

/// `raw` steps.
#[derive(Debug, Clone, Copy)]
pub struct Fixed {
    pub raw: i64,
}

/// The number of `n` steps, or the end of the range it lies beyond.
pub open spec fn fitted(n: int) -> Fixed {
    if n < i64::MIN {
        Fixed { raw: i64::MIN }
    } else if n > i64::MAX {
        Fixed { raw: i64::MAX }
    } else {
        Fixed { raw: n as i64 }
    }
}

/// The magnitude of an integer.
pub open spec fn size(n: int) -> int {
    if n < 0 {
        -n
    } else {
        n
    }
}

/// `n / d` rounded toward zero, for a result with the given sign.
pub open spec fn signed(negative: bool, magnitude: int) -> int {
    if negative {
        -magnitude
    } else {
        magnitude
    }
}

fn fit(n: i128) -> (r: Fixed)
    ensures
        r == fitted(n as int),
{
    if n < i64::MIN as i128 {
        Fixed { raw: i64::MIN }
    } else if n > i64::MAX as i128 {
        Fixed { raw: i64::MAX }
    } else {
        Fixed { raw: n as i64 }
    }
}

fn get_size(n: i64) -> (r: u128)
    ensures
        r == size(n as int),
        r <= 0x8000_0000_0000_0000,
{
    if n < 0 {
        (-(n as i128)) as u128
    } else {
        n as u128
    }
}

/// The number with that sign and magnitude.
fn fit_signed(negative: bool, magnitude: u128) -> (r: Fixed)
    ensures
        r == fitted(signed(negative, magnitude as int)),
{
    if magnitude > 0x8000_0000_0000_0000 {
        if negative {
            Fixed { raw: i64::MIN }
        } else {
            Fixed { raw: i64::MAX }
        }
    } else if negative {
        fit(-(magnitude as i128))
    } else {
        fit(magnitude as i128)
    }
}

impl Fixed {
    pub open spec fn product(self, rhs: Fixed) -> Fixed {
        fitted(
            signed(
                (self.raw < 0) != (rhs.raw < 0),
                size(self.raw as int) * size(rhs.raw as int) / (ONE as int),
            ),
        )
    }

    pub open spec fn quotient(self, rhs: Fixed) -> Fixed {
        if rhs.raw == 0 {
            Fixed { raw: 0 }
        } else {
            fitted(
                signed(
                    (self.raw < 0) != (rhs.raw < 0),
                    size(self.raw as int) * (ONE as int) / size(rhs.raw as int),
                ),
            )
        }
    }
}

impl Add for Fixed {
    type Output = Fixed;

    fn add(self, rhs: Fixed) -> Fixed {
        fit(self.raw as i128 + rhs.raw as i128)
    }
}

impl AddSpecImpl for Fixed {
    open spec fn obeys_add_spec() -> bool {
        true
    }

    open spec fn add_req(self, rhs: Fixed) -> bool {
        true
    }

    open spec fn add_spec(self, rhs: Fixed) -> Fixed {
        fitted(self.raw + rhs.raw)
    }
}

impl Sub for Fixed {
    type Output = Fixed;

    fn sub(self, rhs: Fixed) -> Fixed {
        fit(self.raw as i128 - rhs.raw as i128)
    }
}

impl SubSpecImpl for Fixed {
    open spec fn obeys_sub_spec() -> bool {
        true
    }

    open spec fn sub_req(self, rhs: Fixed) -> bool {
        true
    }

    open spec fn sub_spec(self, rhs: Fixed) -> Fixed {
        fitted(self.raw - rhs.raw)
    }
}

impl Mul for Fixed {
    type Output = Fixed;

    fn mul(self, rhs: Fixed) -> Fixed {
        let a: u128 = get_size(self.raw);
        let b: u128 = get_size(rhs.raw);
        assert(a * b <= 0x8000_0000_0000_0000u128 * 0x8000_0000_0000_0000u128) by (nonlinear_arith)
            requires
                a <= 0x8000_0000_0000_0000,
                b <= 0x8000_0000_0000_0000,
        ;
        fit_signed((self.raw < 0) != (rhs.raw < 0), a * b / (ONE as u128))
    }
}

impl MulSpecImpl for Fixed {
    open spec fn obeys_mul_spec() -> bool {
        true
    }

    open spec fn mul_req(self, rhs: Fixed) -> bool {
        true
    }

    open spec fn mul_spec(self, rhs: Fixed) -> Fixed {
        self.product(rhs)
    }
}

impl Div for Fixed {
    type Output = Fixed;

    fn div(self, rhs: Fixed) -> Fixed {
        if rhs.raw == 0 {
            return Fixed { raw: 0 };
        }
        let a: u128 = get_size(self.raw);
        let b: u128 = get_size(rhs.raw);
        let one: u128 = ONE as u128;
        assert(0 <= a * one <= 0x8000_0000_0000_0000u128 * 65536) by (nonlinear_arith)
            requires
                a <= 0x8000_0000_0000_0000,
                one == 65536,
        ;
        fit_signed((self.raw < 0) != (rhs.raw < 0), a * one / b)
    }
}

impl DivSpecImpl for Fixed {
    open spec fn obeys_div_spec() -> bool {
        true
    }

    open spec fn div_req(self, rhs: Fixed) -> bool {
        true
    }

    open spec fn div_spec(self, rhs: Fixed) -> Fixed {
        self.quotient(rhs)
    }
}

impl Neg for Fixed {
    type Output = Fixed;

    fn neg(self) -> Fixed {
        fit(-(self.raw as i128))
    }
}

impl NegSpecImpl for Fixed {
    open spec fn obeys_neg_spec() -> bool {
        true
    }

    open spec fn neg_req(self) -> bool {
        true
    }

    open spec fn neg_spec(self) -> Fixed {
        fitted(-self.raw)
    }
}

impl From<i16> for Fixed {
    fn from(n: i16) -> Fixed {
        Fixed { raw: n as i64 * ONE }
    }
}

impl FromSpecImpl<i16> for Fixed {
    open spec fn obeys_from_spec() -> bool {
        true
    }

    open spec fn from_spec(n: i16) -> Fixed {
        Fixed { raw: (n * ONE) as i64 }
    }
}

impl PartialEq for Fixed {
    fn eq(&self, other: &Fixed) -> (r: bool) {
        self.raw == other.raw
    }
}

impl PartialEqSpecImpl for Fixed {
    open spec fn obeys_eq_spec() -> bool {
        true
    }

    open spec fn eq_spec(&self, other: &Fixed) -> bool {
        self.raw == other.raw
    }
}

impl PartialOrd for Fixed {
    fn partial_cmp(&self, other: &Fixed) -> (r: Option<Ordering>) {
        if self.raw < other.raw {
            Some(Ordering::Less)
        } else if self.raw == other.raw {
            Some(Ordering::Equal)
        } else {
            Some(Ordering::Greater)
        }
    }
}

impl PartialOrdSpecImpl for Fixed {
    open spec fn obeys_partial_cmp_spec() -> bool {
        true
    }

    open spec fn partial_cmp_spec(&self, other: &Fixed) -> Option<Ordering> {
        if self.raw < other.raw {
            Some(Ordering::Less)
        } else if self.raw == other.raw {
            Some(Ordering::Equal)
        } else {
            Some(Ordering::Greater)
        }
    }
}

/// In fixed point one leaves a product alone and nought a sum.
pub proof fn law_fixed_point_has_units()
    ensures
        num::has_units::<Fixed>(),
{
    let zero = num::whole::<Fixed>(0);
    let one = num::whole::<Fixed>(1);
    assert(zero.raw == 0 && one.raw == ONE);
    assert forall|x: Fixed| #[trigger] MulSpec::mul_spec(x, one) == x by {
        let a = size(x.raw as int);
        assert(a * size(one.raw as int) / (ONE as int) == a) by (nonlinear_arith)
            requires
                size(one.raw as int) == 65536,
                ONE == 65536,
        ;
    }
    assert forall|x: Fixed| #[trigger] AddSpec::add_spec(zero, x) == x by {}
    assert(size(0) * size(num::whole::<Fixed>(2).raw as int) == 0) by (nonlinear_arith)
        requires
            size(0) == 0,
    ;
    assert(num::ratio::<Fixed>(1, 2).raw == 32768);
    assert(num::ratio::<Fixed>(-1, 2).raw == -32768);
}

/// Fixed point is ordered as numbers are.
pub proof fn law_fixed_point_is_ordered()
    ensures
        num::is_ordered::<Fixed>(),
{
    let zero = num::whole::<Fixed>(0);
    let one = num::whole::<Fixed>(1);
    assert(zero.raw == 0 && one.raw == ONE);
    assert forall|x: Fixed, k: Fixed|
        num::at_most(zero, x) && num::at_most(zero, k) && num::at_most(k, one) && num::is_number(
            #[trigger] MulSpec::mul_spec(x, k),
        ) implies num::at_most(zero, MulSpec::mul_spec(x, k)) && num::at_most(
        MulSpec::mul_spec(x, k),
        x,
    ) by {
        let a = x.raw as int;
        let b = k.raw as int;
        assert(0 <= a * b / 65536 <= a) by (nonlinear_arith)
            requires
                0 <= a,
                0 <= b <= 65536,
        ;
    }
    assert forall|x: Fixed, y: Fixed, k: Fixed|
        num::at_most(x, y) && num::at_most(zero, k) && num::is_number(MulSpec::mul_spec(x, k))
            && num::is_number(MulSpec::mul_spec(y, k)) implies num::at_most(
        #[trigger] MulSpec::mul_spec(x, k),
        #[trigger] MulSpec::mul_spec(y, k),
    ) by {
        let b = k.raw as int;
        let (p, q) = (size(x.raw as int), size(y.raw as int));
        assert(0 <= p * b / 65536 && 0 <= q * b / 65536 && (p <= q ==> p * b / 65536 <= q * b
            / 65536) && (q <= p ==> q * b / 65536 <= p * b / 65536)) by (nonlinear_arith)
            requires
                0 <= p,
                0 <= q,
                0 <= b,
        ;
    }
}

/// The signal path can run on fixed point: its arithmetic is what the path
/// asks for.
pub proof fn law_fixed_point_is_lawful()
    ensures
        num::lawful::<Fixed>(),
{
}

} // verus!
