use vstd::prelude::*;

verus! {

/// A fraction `numer / denom` of unsigned integers, not necessarily in
/// lowest terms. A fraction is well formed when its denominator is positive.
///
/// Two fractions compare equal when they denote the same value, so
/// `2 / 4 == 1 / 2`.
#[derive(Clone, Copy, Debug)]
pub struct Rational {
    pub numer: u32,
    pub denom: u32,
}

/// `n` and `d` share no divisor above one.
pub open spec fn coprime(n: int, d: int) -> bool {
    forall|k: int| #![trigger n % k, d % k] 1 < k ==> !(n % k == 0 && d % k == 0)
}

/// The fractions `a / b` and `c / d` denote the same value.
pub open spec fn same_value(a: int, b: int, c: int, d: int) -> bool {
    a * d == c * b
}

/// Relies on num_rational::Ratio::new, which puts a fraction in lowest terms
/// with a positive denominator (and panics on a zero denominator).
#[verifier::external_body]
fn reduce_fraction(numer: u32, denom: u32) -> (r: (u32, u32))
    requires
        denom > 0,
    ensures
        r.1 > 0,
        same_value(r.0 as int, r.1 as int, numer as int, denom as int),
        coprime(r.0 as int, r.1 as int),
{
    let q = num_rational::Ratio::new(numer, denom);
    (*q.numer(), *q.denom())
}

impl Rational {
    /// The fraction is well formed: its denominator is positive.
    pub open spec fn wf(self) -> bool {
        self.denom > 0
    }

    /// The fraction denotes the same value as `n / d`.
    pub open spec fn denotes(self, n: int, d: int) -> bool {
        same_value(self.numer as int, self.denom as int, n, d)
    }

    /// The fraction `numer / denom` in lowest terms.
    pub fn new(numer: u32, denom: u32) -> (r: Rational)
        requires
            denom > 0,
        ensures
            r.wf(),
            r.denotes(numer as int, denom as int),
            coprime(r.numer as int, r.denom as int),
    {
        let (n, d) = reduce_fraction(numer, denom);
        Rational { numer: n, denom: d }
    }

    /// The fraction `numer / denom` exactly as written.
    pub fn new_raw(numer: u32, denom: u32) -> (r: Rational)
        ensures
            r.numer == numer,
            r.denom == denom,
    {
        Rational { numer, denom }
    }

    /// The integer `n`, as `n / 1`.
    pub fn from_integer(n: u32) -> (r: Rational)
        ensures
            r.numer == n,
            r.denom == 1,
    {
        Rational { numer: n, denom: 1 }
    }
}

impl PartialEq for Rational {
    fn eq(&self, other: &Rational) -> (r: bool)
        ensures
            r == self.denotes(other.numer as int, other.denom as int),
    {
        proof {
            assert(self.numer * other.denom <= u32::MAX * u32::MAX) by (nonlinear_arith);
            assert(other.numer * self.denom <= u32::MAX * u32::MAX) by (nonlinear_arith);
        }
        (self.numer as u64) * (other.denom as u64) == (other.numer as u64) * (self.denom as u64)
    }
}

impl vstd::std_specs::cmp::PartialEqSpecImpl for Rational {
    open spec fn obeys_eq_spec() -> bool {
        true
    }

    open spec fn eq_spec(&self, other: &Rational) -> bool {
        self.denotes(other.numer as int, other.denom as int)
    }
}

} // verus!
