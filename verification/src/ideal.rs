//! Real numbers as a number type.
//!
//! No machine computes with them: a number of this type is there for proofs only,
//! and two of them cannot be told apart at run time. They show that arithmetic
//! without rounding, which the laws of the signal path are stated for, is one that
//! the signal path can be written over.

use crate::exact;
use core::cmp::Ordering;
use core::ops::{Add, Div, Mul, Neg, Sub};
use vstd::prelude::*;
use vstd::std_specs::cmp::{PartialEqSpecImpl, PartialOrdSpecImpl};
use vstd::std_specs::convert::FromSpecImpl;
use vstd::std_specs::ops::{
    AddSpec, AddSpecImpl, DivSpec, DivSpecImpl, MulSpec, MulSpecImpl, NegSpec, NegSpecImpl,
    SubSpec, SubSpecImpl,
};

verus! {

#[derive(Clone, Copy)]
pub struct Ideal {
    pub value: Ghost<real>,
}

impl Add for Ideal {
    type Output = Ideal;

    fn add(self, rhs: Ideal) -> Ideal {
        Ideal { value: Ghost(self.value@ + rhs.value@) }
    }
}

impl AddSpecImpl for Ideal {
    open spec fn obeys_add_spec() -> bool {
        true
    }

    open spec fn add_req(self, rhs: Ideal) -> bool {
        true
    }

    open spec fn add_spec(self, rhs: Ideal) -> Ideal {
        Ideal { value: Ghost(self.value@ + rhs.value@) }
    }
}

impl Sub for Ideal {
    type Output = Ideal;

    fn sub(self, rhs: Ideal) -> Ideal {
        Ideal { value: Ghost(self.value@ - rhs.value@) }
    }
}

impl SubSpecImpl for Ideal {
    open spec fn obeys_sub_spec() -> bool {
        true
    }

    open spec fn sub_req(self, rhs: Ideal) -> bool {
        true
    }

    open spec fn sub_spec(self, rhs: Ideal) -> Ideal {
        Ideal { value: Ghost(self.value@ - rhs.value@) }
    }
}

impl Mul for Ideal {
    type Output = Ideal;

    fn mul(self, rhs: Ideal) -> Ideal {
        Ideal { value: Ghost(self.value@ * rhs.value@) }
    }
}

impl MulSpecImpl for Ideal {
    open spec fn obeys_mul_spec() -> bool {
        true
    }

    open spec fn mul_req(self, rhs: Ideal) -> bool {
        true
    }

    open spec fn mul_spec(self, rhs: Ideal) -> Ideal {
        Ideal { value: Ghost(self.value@ * rhs.value@) }
    }
}

impl Div for Ideal {
    type Output = Ideal;

    fn div(self, rhs: Ideal) -> Ideal {
        Ideal { value: Ghost(self.value@ / rhs.value@) }
    }
}

impl DivSpecImpl for Ideal {
    open spec fn obeys_div_spec() -> bool {
        true
    }

    open spec fn div_req(self, rhs: Ideal) -> bool {
        true
    }

    open spec fn div_spec(self, rhs: Ideal) -> Ideal {
        Ideal { value: Ghost(self.value@ / rhs.value@) }
    }
}

impl Neg for Ideal {
    type Output = Ideal;

    fn neg(self) -> Ideal {
        Ideal { value: Ghost(-self.value@) }
    }
}

impl NegSpecImpl for Ideal {
    open spec fn obeys_neg_spec() -> bool {
        true
    }

    open spec fn neg_req(self) -> bool {
        true
    }

    open spec fn neg_spec(self) -> Ideal {
        Ideal { value: Ghost(-self.value@) }
    }
}

impl From<i16> for Ideal {
    fn from(n: i16) -> Ideal {
        Ideal { value: Ghost(n as int as real) }
    }
}

impl FromSpecImpl<i16> for Ideal {
    open spec fn obeys_from_spec() -> bool {
        true
    }

    open spec fn from_spec(n: i16) -> Ideal {
        Ideal { value: Ghost(n as int as real) }
    }
}

impl PartialEq for Ideal {
    /// Nothing is known of the numbers at run time.
    fn eq(&self, other: &Ideal) -> (r: bool) {
        false
    }
}

impl PartialEqSpecImpl for Ideal {
    open spec fn obeys_eq_spec() -> bool {
        false
    }

    open spec fn eq_spec(&self, other: &Ideal) -> bool {
        self.value@ == other.value@
    }
}

impl PartialOrd for Ideal {
    /// Nothing is known of the numbers at run time.
    fn partial_cmp(&self, other: &Ideal) -> (r: Option<Ordering>) {
        None
    }
}

impl PartialOrdSpecImpl for Ideal {
    open spec fn obeys_partial_cmp_spec() -> bool {
        false
    }

    open spec fn partial_cmp_spec(&self, other: &Ideal) -> Option<Ordering> {
        if self.value@ < other.value@ {
            Some(Ordering::Less)
        } else if self.value@ == other.value@ {
            Some(Ordering::Equal)
        } else {
            Some(Ordering::Greater)
        }
    }
}

/// The arithmetic of these numbers is exact.
pub proof fn law_ideal_numbers_are_exact()
    ensures
        exact::is_exact(|x: Ideal| x.value@),
{
}

} // verus!
