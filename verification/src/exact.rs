//! Numbers without rounding.
//!
//! What an operation is for is a matter of real numbers: a level, a gain, a
//! distance. The laws that say so are stated of a number type whose arithmetic
//! is that of the real numbers, and so leave out what rounding adds to it.

use crate::elementary::{self, Elementary};
use crate::num::{self, Sample};
use vstd::prelude::*;
use vstd::std_specs::ops::{AddSpec, DivSpec, MulSpec, NegSpec, SubSpec};

verus! {

/// `v(a)` is the real number that `a` stands for, and every operation on `S` is
/// that of the real numbers. Nothing is said of a quotient by nought.
pub open spec fn is_exact<S: Sample>(v: spec_fn(S) -> real) -> bool {
    &&& forall|a: S, b: S| v(#[trigger] a.add_spec(b)) == v(a) + v(b)
    &&& forall|a: S, b: S| v(#[trigger] a.sub_spec(b)) == v(a) - v(b)
    &&& forall|a: S, b: S| v(#[trigger] a.mul_spec(b)) == v(a) * v(b)
    &&& forall|a: S, b: S| v(b) != 0real ==> v(#[trigger] a.div_spec(b)) == v(a) / v(b)
    &&& forall|a: S| v(#[trigger] a.neg_spec()) == -v(a)
    &&& forall|n: int| -0x8000 <= n < 0x8000 ==> v(#[trigger] num::whole::<S>(n)) == n as real
    &&& forall|a: S, b: S| #[trigger] num::below(a, b) <==> v(a) < v(b)
    &&& forall|a: S, b: S| #[trigger] num::at_most(a, b) <==> v(a) <= v(b)
    &&& forall|a: S, b: S| #[trigger] num::same(a, b) <==> v(a) == v(b)
}

/// The magnitude of a real number.
pub open spec fn size(x: real) -> real {
    if x < 0real {
        -x
    } else {
        x
    }
}

/// `x` held inside `lo` to `hi`.
pub open spec fn held(x: real, lo: real, hi: real) -> real {
    if x < lo {
        lo
    } else if x > hi {
        hi
    } else {
        x
    }
}

/// The functions of the real numbers that the signal path is built on.
pub struct Functions {
    pub root: spec_fn(real) -> real,
    pub exp: spec_fn(real) -> real,
    /// Ten to the power of a number.
    pub ten: spec_fn(real) -> real,
    pub log10: spec_fn(real) -> real,
    pub sinh: spec_fn(real) -> real,
    /// A full turn.
    pub turn: real,
    pub sin: spec_fn(real) -> real,
    pub cos: spec_fn(real) -> real,
}

/// `m` computes these functions, and counts and takes numbers apart as it should.
pub open spec fn computes<S: Sample, M: Elementary<S>>(
    v: spec_fn(S) -> real,
    m: M,
    f: Functions,
) -> bool {
    &&& forall|x: S, y: S| #[trigger] elementary::roots(m, x, y) ==> v(y) == (f.root)(v(x))
    &&& forall|x: S, y: S| #[trigger] elementary::exponential(m, x, y) ==> v(y) == (f.exp)(v(x))
    &&& forall|x: S, y: S| #[trigger] elementary::powers(m, x, y) ==> v(y) == (f.ten)(v(x))
    &&& forall|x: S, y: S| #[trigger] elementary::logarithms(m, x, y) ==> v(y) == (f.log10)(v(x))
    &&& forall|x: S, y: S| #[trigger] elementary::hyperbolic(m, x, y) ==> v(y) == (f.sinh)(v(x))
    &&& forall|x: S, y: S| #[trigger] elementary::angles(m, x, y) ==> v(y) == f.turn * v(x)
    &&& forall|x: S, y: S| #[trigger] elementary::sines(m, x, y) ==> v(y) == (f.sin)(v(x))
    &&& forall|x: S, y: S| #[trigger] elementary::cosines(m, x, y) ==> v(y) == (f.cos)(v(x))
    &&& forall|n: usize, y: S| #[trigger] elementary::counts(m, n, y) ==> v(y) == n as int as real
    &&& forall|x: S, y: (usize, S)| #[trigger]
        elementary::splits(m, x, y) && v(x) >= 0real ==> v(x) == (y.0 as int as real) + v(y.1) && 0real
            <= v(y.1) < 1real
    &&& forall|x: S, n: usize| #[trigger]
        elementary::rounds(m, x, n) && v(x) >= 0real ==> 2real * size((n as int as real) - v(x)) <= 1real
    &&& forall|x: S, n: usize| #[trigger]
        elementary::rounds_up(m, x, n) && v(x) >= 0real ==> v(x) <= (n as int as real) && (n as int as real) < v(x) + 1real
}

/// A number held inside two bounds is so in value.
pub proof fn law_clamping<S: Sample>(v: spec_fn(S) -> real, x: S, lo: S, hi: S)
    requires
        is_exact(v),
    ensures
        v(num::clamped(x, lo, hi)) == held(v(x), v(lo), v(hi)),
        v(num::magnitude(x)) == size(v(x)),
        v(num::larger(lo, hi)) == (if v(lo) < v(hi) {
            v(hi)
        } else {
            v(lo)
        }),
{
}

/// A small fraction has the value it is written with.
pub proof fn law_fractions<S: Sample>(v: spec_fn(S) -> real, n: int, d: int)
    requires
        is_exact(v),
        -0x8000 <= n < 0x8000,
        0 < d < 0x8000,
    ensures
        v(num::ratio::<S>(n, d)) == (n as real) / (d as real),
{
}

} // verus!
