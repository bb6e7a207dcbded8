use vstd::prelude::*;

verus! {

/// A nonnegative exact ratio of two 64-bit integers: the library's
/// representation for monetary amounts and exchange rates.
///
/// Arithmetic is exact: results carry the unreduced numerator and
/// denominator, and every operation reports overflow instead of rounding.
#[derive(Clone, Copy, Debug)]
pub struct Ratio {
    pub num: u64,
    pub den: u64,
}

/// A product of nonnegative factors grows with each factor.
proof fn lemma_mul_le(a: int, b: int, c: int, d: int)
    by (nonlinear_arith)
    requires
        0 <= a <= c,
        0 <= b <= d,
    ensures
        a * b <= c * d,
{
}

/// Two ratios denote the same rational number.
pub open spec fn same_value(a: Ratio, b: Ratio) -> bool {
    a.num * b.den == b.num * a.den
}

/// `a` denotes a rational number at least as large as `b`'s.
pub open spec fn at_least(a: Ratio, b: Ratio) -> bool {
    a.num * b.den >= b.num * a.den
}

impl Ratio {
    /// A ratio is well formed when its denominator is nonzero.
    pub open spec fn wf(self) -> bool {
        self.den >= 1
    }

    /// The ratio denotes a strictly positive number.
    pub open spec fn positive(self) -> bool {
        self.num >= 1
    }

    pub fn from_u64(n: u64) -> (r: Ratio)
        ensures
            r.wf(),
            r.num == n,
            r.den == 1,
    {
        Ratio { num: n, den: 1 }
    }

    /// Whether `self` and `other` denote the same rational number.
    pub fn eq_value(&self, other: &Ratio) -> (r: bool)
        requires
            self.wf(),
            other.wf(),
        ensures
            r == same_value(*self, *other),
    {
        proof {
            lemma_mul_le(self.num as int, other.den as int, u64::MAX as int, u64::MAX as int);
            lemma_mul_le(other.num as int, self.den as int, u64::MAX as int, u64::MAX as int);
        }
        let p1: u128 = (self.num as u128) * (other.den as u128);
        let p2: u128 = (other.num as u128) * (self.den as u128);
        p1 == p2
    }

    /// Whether `self` denotes a number at least as large as `other`.
    pub fn ge_value(&self, other: &Ratio) -> (r: bool)
        requires
            self.wf(),
            other.wf(),
        ensures
            r == at_least(*self, *other),
    {
        proof {
            lemma_mul_le(self.num as int, other.den as int, u64::MAX as int, u64::MAX as int);
            lemma_mul_le(other.num as int, self.den as int, u64::MAX as int, u64::MAX as int);
        }
        let p1: u128 = (self.num as u128) * (other.den as u128);
        let p2: u128 = (other.num as u128) * (self.den as u128);
        p1 >= p2
    }

    /// Exact sum; `None` exactly when the unreduced result does not fit in `u64`.
    pub fn checked_add(&self, other: &Ratio) -> (r: Option<Ratio>)
        requires
            self.wf(),
            other.wf(),
        ensures
            match r {
                Some(c) => c.wf()
                    && c.num == self.num * other.den + other.num * self.den
                    && c.den == self.den * other.den,
                None => self.num * other.den + other.num * self.den > u64::MAX
                    || self.den * other.den > u64::MAX,
            },
    {
        proof {
            lemma_mul_le(self.den as int, other.den as int, u64::MAX as int, u64::MAX as int);
            lemma_mul_le(self.num as int, other.den as int, u64::MAX as int, u64::MAX as int);
            lemma_mul_le(other.num as int, self.den as int, u64::MAX as int, u64::MAX as int);
        }
        let d: u128 = (self.den as u128) * (other.den as u128);
        let p1: u128 = (self.num as u128) * (other.den as u128);
        let p2: u128 = (other.num as u128) * (self.den as u128);
        if d > (u64::MAX as u128) {
            return None;
        }
        if p1 > (u64::MAX as u128) {
            return None;
        }
        let s: u128 = p1 + p2;
        if s > (u64::MAX as u128) {
            return None;
        }
        proof {
            assert((self.den as int) * (other.den as int) >= 1) by (nonlinear_arith)
                requires
                    self.den >= 1,
                    other.den >= 1,
            ;
        }
        Some(Ratio { num: s as u64, den: d as u64 })
    }

    /// Exact difference; requires that the result is nonnegative.
    /// `None` exactly when the unreduced result does not fit in `u64`.
    pub fn checked_sub(&self, other: &Ratio) -> (r: Option<Ratio>)
        requires
            self.wf(),
            other.wf(),
            at_least(*self, *other),
        ensures
            match r {
                Some(c) => c.wf()
                    && c.num == self.num * other.den - other.num * self.den
                    && c.den == self.den * other.den,
                None => self.num * other.den - other.num * self.den > u64::MAX
                    || self.den * other.den > u64::MAX,
            },
    {
        proof {
            lemma_mul_le(self.den as int, other.den as int, u64::MAX as int, u64::MAX as int);
            lemma_mul_le(self.num as int, other.den as int, u64::MAX as int, u64::MAX as int);
            lemma_mul_le(other.num as int, self.den as int, u64::MAX as int, u64::MAX as int);
        }
        let d: u128 = (self.den as u128) * (other.den as u128);
        let p1: u128 = (self.num as u128) * (other.den as u128);
        let p2: u128 = (other.num as u128) * (self.den as u128);
        if d > (u64::MAX as u128) {
            return None;
        }
        let s: u128 = p1 - p2;
        if s > (u64::MAX as u128) {
            return None;
        }
        proof {
            assert((self.den as int) * (other.den as int) >= 1) by (nonlinear_arith)
                requires
                    self.den >= 1,
                    other.den >= 1,
            ;
        }
        Some(Ratio { num: s as u64, den: d as u64 })
    }

    /// Exact product; `None` exactly when the unreduced result does not fit in `u64`.
    pub fn checked_mul(&self, other: &Ratio) -> (r: Option<Ratio>)
        requires
            self.wf(),
            other.wf(),
        ensures
            match r {
                Some(c) => c.wf()
                    && c.num == self.num * other.num
                    && c.den == self.den * other.den,
                None => self.num * other.num > u64::MAX
                    || self.den * other.den > u64::MAX,
            },
    {
        proof {
            lemma_mul_le(self.num as int, other.num as int, u64::MAX as int, u64::MAX as int);
            lemma_mul_le(self.den as int, other.den as int, u64::MAX as int, u64::MAX as int);
        }
        let n: u128 = (self.num as u128) * (other.num as u128);
        let d: u128 = (self.den as u128) * (other.den as u128);
        if n > (u64::MAX as u128) {
            return None;
        }
        if d > (u64::MAX as u128) {
            return None;
        }
        proof {
            assert((self.den as int) * (other.den as int) >= 1) by (nonlinear_arith)
                requires
                    self.den >= 1,
                    other.den >= 1,
            ;
        }
        Some(Ratio { num: n as u64, den: d as u64 })
    }

    /// Exact quotient by a strictly positive ratio.
    /// `None` exactly when the unreduced result does not fit in `u64`.
    pub fn checked_div(&self, other: &Ratio) -> (r: Option<Ratio>)
        requires
            self.wf(),
            other.wf(),
            other.positive(),
        ensures
            match r {
                Some(c) => c.wf()
                    && c.num == self.num * other.den
                    && c.den == self.den * other.num,
                None => self.num * other.den > u64::MAX
                    || self.den * other.num > u64::MAX,
            },
    {
        proof {
            lemma_mul_le(self.num as int, other.den as int, u64::MAX as int, u64::MAX as int);
            lemma_mul_le(self.den as int, other.num as int, u64::MAX as int, u64::MAX as int);
        }
        let n: u128 = (self.num as u128) * (other.den as u128);
        let d: u128 = (self.den as u128) * (other.num as u128);
        if n > (u64::MAX as u128) {
            return None;
        }
        if d > (u64::MAX as u128) {
            return None;
        }
        proof {
            assert((self.den as int) * (other.num as int) >= 1) by (nonlinear_arith)
                requires
                    self.den >= 1,
                    other.num >= 1,
            ;
        }
        Some(Ratio { num: n as u64, den: d as u64 })
    }
}

} // verus!
