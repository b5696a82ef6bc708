//! "Nice" numbers for chart axes: rounding a span to 1, 2 or 5 times a power
//! of ten, and widening a range to whole multiples of a nice tick.
use vstd::prelude::*;
use crate::arith::{dec_sum, dec_difference, finite_of};
use crate::decimal::{
    Decimal, pow10, abs_int, digits_of, lemma_digits_of, lemma_digit_count_bound, lemma_pow10_positive,
    lemma_pow10_monotone, lemma_pow10_18, lemma_digit_count_le, lemma_pow10_add, lemma_compare_at,
    lemma_le_trans, lemma_scaled_neg, lemma_scaled_self, pow10_i128, COEF_LIMIT,
};

verus! {

/// The number of decimal digits of `n` (one for zero).
pub fn digit_count(n: u64) -> (r: u32)
    ensures
        r == digits_of(n as nat).len(),
        1 <= r <= 20,
{
    let mut m: u64 = n;
    let mut c: u32 = 1;
    proof {
        reveal_with_fuel(pow10, 21);
        lemma_digit_count_le(n as nat, 20);
    }
    while m >= 10
        invariant
            digits_of(n as nat).len() == digits_of(m as nat).len() + c - 1,
            1 <= c,
            c + digits_of(m as nat).len() <= 21,
        decreases m,
    {
        proof {
            lemma_digits_of(m as nat);
        }
        m = m / 10;
        c = c + 1;
    }
    proof {
        lemma_digits_of(m as nat);
    }
    c
}

/// Provides the functions `abs`, `floor`, `ceil`, `decomp` and `nice`.
pub trait Dec64Nice: Sized {
    /// The numbers that the operations accept.
    spec fn nice_domain(&self) -> bool;

    spec fn abs_of(&self) -> Self;

    spec fn floor_of(&self) -> Self;

    spec fn ceil_of(&self) -> Self;

    spec fn decomp_of(&self) -> (i32, Self);

    spec fn nice_of(&self, round: bool) -> Self;

    /// Return absolute value
    fn abs(self) -> (r: Self)
        requires
            self.nice_domain(),
        ensures
            r == self.abs_of(),
    ;

    /// Return floor (largest integer not above the input)
    fn floor(self) -> (r: Self)
        requires
            self.nice_domain(),
        ensures
            r == self.floor_of(),
    ;

    /// Return ceiling (smallest integer not below the input)
    fn ceil(self) -> (r: Self)
        requires
            self.nice_domain(),
        ensures
            r == self.ceil_of(),
    ;

    /// Return exponent and mantissa such that 1 <= |mantissa| < 10
    fn decomp(self) -> (r: (i32, Self))
        requires
            self.nice_domain(),
        ensures
            r == self.decomp_of(),
    ;

    /// Round to a near 'nice' number
    fn nice(self, round: bool) -> (r: Self)
        requires
            self.nice_domain(),
        ensures
            r == self.nice_of(round),
    ;
}

/// The number of digits of the coefficient's magnitude.
pub open spec fn coef_digits(d: Decimal) -> int {
    digits_of(abs_int(d.coef as int) as nat).len() as int
}

/// The nice multiplier for a mantissa magnitude `a` in `[1, 10)`: with
/// `round`, the nearest of 1, 2, 5, 10 by the thresholds 1.5, 3 and 7;
/// without, the smallest of them not below `a`.
pub open spec fn nice_multiplier(a: Decimal, round: bool) -> i64 {
    if round {
        if a.lt(Decimal { coef: 15, exp: -1i32 }) {
            1
        } else if a.lt(Decimal { coef: 3, exp: 0 }) {
            2
        } else if a.lt(Decimal { coef: 7, exp: 0 }) {
            5
        } else {
            10
        }
    } else {
        if a.le(Decimal { coef: 1, exp: 0 }) {
            1
        } else if a.lt(Decimal { coef: 2, exp: 0 }) {
            2
        } else if a.lt(Decimal { coef: 5, exp: 0 }) {
            5
        } else {
            10
        }
    }
}

impl Dec64Nice for Decimal {
    open spec fn nice_domain(&self) -> bool {
        self.wf()
    }

    open spec fn abs_of(&self) -> Decimal {
        Decimal { coef: abs_int(self.coef as int) as i64, exp: self.exp }
    }

    open spec fn floor_of(&self) -> Decimal {
        if self.exp >= 0 {
            *self
        } else {
            Decimal { coef: ((self.coef as int) / pow10((-self.exp) as nat)) as i64, exp: 0 }
        }
    }

    open spec fn ceil_of(&self) -> Decimal {
        if self.exp >= 0 {
            *self
        } else {
            Decimal { coef: (-((-(self.coef as int)) / pow10((-self.exp) as nat))) as i64, exp: 0 }
        }
    }

    /// The mantissa keeps the coefficient, and the exponent moves to the
    /// power of ten: the value is unchanged.
    open spec fn decomp_of(&self) -> (i32, Decimal) {
        let k = coef_digits(*self);
        ((self.exp + k - 1) as i32, Decimal { coef: self.coef, exp: (1 - k) as i32 })
    }

    open spec fn nice_of(&self, round: bool) -> Decimal {
        if self.coef == 0 {
            Decimal { coef: 0, exp: 0 }
        } else {
            let (e, m) = self.decomp_of();
            let nm = nice_multiplier(m.abs_of(), round);
            Decimal {
                coef: if self.coef < 0 {
                    (-nm) as i64
                } else {
                    nm
                },
                exp: e,
            }
        }
    }

    fn abs(self) -> (r: Decimal) {
        Decimal { coef: self.magnitude() as i64, exp: self.exp }
    }

    fn floor(self) -> (r: Decimal) {
        if self.exp >= 0 {
            self
        } else {
            let k: i64 = -(self.exp as i64);
            proof {
                lemma_pow10_positive(k as nat);
            }
            if k >= 19 {
                proof {
                    lemma_pow10_monotone(18, k as nat);
                    lemma_pow10_18();
                    lemma_floor_small(self.coef as int, pow10(k as nat));
                }
                if self.coef >= 0 {
                    Decimal { coef: 0, exp: 0 }
                } else {
                    Decimal { coef: -1, exp: 0 }
                }
            } else {
                proof {
                    lemma_pow10_monotone(k as nat, 18);
                    lemma_pow10_18();
                }
                let p = pow10_i128(k as u32) as i64;
                Decimal { coef: floor_div(self.coef, p), exp: 0 }
            }
        }
    }

    fn ceil(self) -> (r: Decimal) {
        let f = self.neg().floor();
        proof {
            if self.exp < 0 {
                lemma_pow10_positive((-self.exp) as nat);
                lemma_floor_div_bound((-self.coef) as int, pow10((-self.exp) as nat));
            }
        }
        f.neg()
    }

    fn decomp(self) -> (r: (i32, Decimal)) {
        let k = digit_count(self.magnitude());
        proof {
            lemma_digit_count_bound(abs_int(self.coef as int) as nat);
        }
        ((self.exp as i64 + k as i64 - 1) as i32, Decimal { coef: self.coef, exp: (1 - k as i64) as i32 })
    }

    fn nice(self, round: bool) -> (r: Decimal) {
        if self.coef == 0 {
            return Decimal { coef: 0, exp: 0 };
        }
        let (e, m) = self.decomp();
        proof {
            lemma_digit_count_bound(abs_int(self.coef as int) as nat);
        }
        let a = m.abs();
        let nm: i64 = if round {
            if a.less_than(&Decimal { coef: 15, exp: -1 }) {
                1
            } else if a.less_than(&Decimal { coef: 3, exp: 0 }) {
                2
            } else if a.less_than(&Decimal { coef: 7, exp: 0 }) {
                5
            } else {
                10
            }
        } else {
            if a.compare(&Decimal { coef: 1, exp: 0 }) <= 0 {
                1
            } else if a.less_than(&Decimal { coef: 2, exp: 0 }) {
                2
            } else if a.less_than(&Decimal { coef: 5, exp: 0 }) {
                5
            } else {
                10
            }
        };
        Decimal {
            coef: if self.coef < 0 {
                -nm
            } else {
                nm
            },
            exp: e,
        }
    }
}

/// For a magnitude below the divisor, the floor quotient is 0 or -1.
pub proof fn lemma_floor_small(x: int, p: int)
    requires
        -p < x < p,
        p > 0,
    ensures
        x >= 0 ==> x / p == 0,
        x < 0 ==> x / p == -1,
{
    if x >= 0 {
        vstd::arithmetic::div_mod::lemma_fundamental_div_mod_converse(x, p, 0, x);
    } else {
        vstd::arithmetic::div_mod::lemma_fundamental_div_mod_converse(x, p, -1, x + p);
    }
}

/// The floor quotient is no larger in magnitude than the dividend, give or
/// take one.
pub proof fn lemma_floor_div_bound(x: int, p: int)
    requires
        p >= 1,
    ensures
        x >= 0 ==> 0 <= x / p <= x,
        x < 0 ==> x <= x / p < 0,
{
    vstd::arithmetic::div_mod::lemma_fundamental_div_mod(x, p);
    let q = x / p;
    let r = x % p;
    assert(0 <= r < p) by {
        vstd::arithmetic::div_mod::lemma_mod_bound(x, p);
    }
    if x >= 0 {
        assert(0 <= q <= x) by (nonlinear_arith)
            requires x == p * q + r, 0 <= r < p, p >= 1, x >= 0;
    } else {
        assert(x <= q < 0) by (nonlinear_arith)
            requires x == p * q + r, 0 <= r < p, p >= 1, x < 0;
    }
}

/// The floor of `n / d` for a positive divisor.
pub fn floor_div(n: i64, d: i64) -> (q: i64)
    requires
        d > 0,
        -COEF_LIMIT < n < COEF_LIMIT,
    ensures
        q == n / d,
{
    proof {
        lemma_floor_div_bound(n as int, d as int);
    }
    if n >= 0 {
        n / d
    } else {
        let m = -n;
        let q0 = m / d;
        let r0 = m % d;
        proof {
            vstd::arithmetic::div_mod::lemma_fundamental_div_mod(m as int, d as int);
            vstd::arithmetic::div_mod::lemma_mod_bound(m as int, d as int);
            lemma_floor_div_bound(m as int, d as int);
        }
        if r0 == 0 {
            proof {
                assert(n == (-q0) * d + 0) by (nonlinear_arith)
                    requires m == d * q0 + r0, r0 == 0, n == -m;
                vstd::arithmetic::div_mod::lemma_fundamental_div_mod_converse(n as int, d as int, -q0, 0);
            }
            -q0
        } else {
            proof {
                assert(n == (-q0 - 1) * d + (d - r0)) by (nonlinear_arith)
                    requires m == d * q0 + r0, n == -m;
                vstd::arithmetic::div_mod::lemma_fundamental_div_mod_converse(n as int, d as int, -q0 - 1, d - r0);
            }
            -q0 - 1
        }
    }
}


/// A tick size: 5, 10, 25 or 50 times a power of ten.
pub open spec fn is_tick(d: Decimal) -> bool {
    (d.coef == 5 || d.coef == 10 || d.coef == 25 || d.coef == 50) && -1000 <= d.exp <= 1000
}

pub open spec fn min_exp(a: Decimal, b: Decimal, c: Decimal) -> int {
    if a.exp <= b.exp && a.exp <= c.exp {
        a.exp as int
    } else if b.exp <= c.exp {
        b.exp as int
    } else {
        c.exp as int
    }
}

/// `r` is the largest multiple of `d` that is not above `x`:
/// `r == floor(x / d) * d`.
pub open spec fn is_floor_multiple(r: Decimal, x: Decimal, d: Decimal) -> bool {
    let m = min_exp(r, x, d);
    r.scaled(m) <= x.scaled(m) < r.scaled(m) + d.scaled(m) && r.scaled(m) % d.scaled(m) == 0
}

/// `r` is the smallest multiple of `d` that is not below `x`:
/// `r == ceil(x / d) * d`.
pub open spec fn is_ceil_multiple(r: Decimal, x: Decimal, d: Decimal) -> bool {
    let m = min_exp(r, x, d);
    r.scaled(m) - d.scaled(m) < x.scaled(m) <= r.scaled(m) && r.scaled(m) % d.scaled(m) == 0
}

/// `floor(x / d) * d`, exactly.
#[verifier::rlimit(40)]
fn floor_multiple(x: Decimal, d: Decimal) -> (r: Decimal)
    requires
        x.is_dec64(),
        is_tick(d),
    ensures
        r.wf(),
        is_floor_multiple(r, x, d),
{
    let dc = d.coef;
    proof {
        lemma_pow10_positive(0);
    }
    if x.exp >= d.exp {
        let s: i32 = x.exp - d.exp;
        let ghost m = d.exp as int;
        proof {
            lemma_scaled_self(d);
        }
        if s >= 2 {
            proof {
                let t = pow10((s - 2) as nat);
                lemma_pow10_add(2, (s - 2) as nat);
                reveal_with_fuel(pow10, 3);
                assert(pow10(s as nat) == 100 * t);
                let q = x.coef * t * (100int / (dc as int));
                assert(x.coef * (100 * t) == q * dc + 0) by (nonlinear_arith)
                    requires
                        q == x.coef * t * (100int / (dc as int)),
                        dc == 5 || dc == 10 || dc == 25 || dc == 50;
                assert(x.scaled(m) == x.coef * pow10(s as nat));
                vstd::arithmetic::div_mod::lemma_fundamental_div_mod_converse(x.scaled(m), dc as int, q, 0);
                assert(min_exp(x, x, d) == m);
                assert(is_floor_multiple(x, x, d));
            }
            x
        } else {
            let n: i64 = if s == 1 {
                x.coef * 10
            } else {
                x.coef
            };
            proof {
                reveal_with_fuel(pow10, 2);
                assert((x.exp - m) as nat == s as nat);
                if s == 1 {
                    assert(pow10(1) == 10);
                    assert(x.scaled(m) == x.coef * 10);
                } else {
                    lemma_scaled_self(x);
                }
                assert(x.scaled(m) == n);
            }
            let k = floor_div(n, dc);
            proof {
                vstd::arithmetic::div_mod::lemma_fundamental_div_mod(n as int, dc as int);
                vstd::arithmetic::div_mod::lemma_mod_bound(n as int, dc as int);
                lemma_floor_div_bound(n as int, dc as int);
                assert(-COEF_LIMIT < k * dc < COEF_LIMIT) by (nonlinear_arith)
                    requires
                        n == dc * k + n % dc, 0 <= n % dc < dc, 1 <= dc <= 50,
                        -100_000_000_000_000_000 < n < 100_000_000_000_000_000;
                vstd::arithmetic::div_mod::lemma_fundamental_div_mod_converse(k * dc, dc as int, k as int, 0);
            }
            let r = Decimal { coef: k * dc, exp: d.exp };
            proof {
                lemma_scaled_self(r);
                assert(k * dc == dc * k) by (nonlinear_arith);
                assert(r.scaled(m) <= x.scaled(m) < r.scaled(m) + d.scaled(m));
                assert(r.scaled(m) % d.scaled(m) == 0);
                assert(min_exp(r, x, d) == m);
                assert(is_floor_multiple(r, x, d));
            }
            r
        }
    } else {
        let s: i32 = d.exp - x.exp;
        let ghost m = x.exp as int;
        let ghost p = pow10(s as nat);
        proof {
            lemma_scaled_self(x);
        }
        proof {
            lemma_pow10_positive(s as nat);
        }
        if s >= 17 {
            proof {
                lemma_pow10_monotone(16, s as nat);
                reveal_with_fuel(pow10, 17);
                assert(d.scaled(m) == dc * p);
                assert(dc * p >= p) by (nonlinear_arith)
                    requires dc >= 1, p >= 1;
            }
            if x.coef >= 0 {
                let r = Decimal { coef: 0, exp: d.exp };
                proof {
                    assert(r.scaled(m) == 0);
                    vstd::arithmetic::div_mod::lemma_fundamental_div_mod_converse(0, dc * p, 0, 0);
                    assert(is_floor_multiple(r, x, d));
                }
                r
            } else {
                let r = Decimal { coef: -dc, exp: d.exp };
                proof {
                    assert(r.scaled(m) == (-dc) * p);
                    assert((-dc) * p == (-1) * (dc * p) + 0) by (nonlinear_arith);
                    vstd::arithmetic::div_mod::lemma_fundamental_div_mod_converse((-dc) * p, dc * p, -1, 0);
                    assert(is_floor_multiple(r, x, d));
                }
                r
            }
        } else {
            proof {
                lemma_pow10_monotone(s as nat, 16);
                reveal_with_fuel(pow10, 17);
                assert(dc * p <= 50 * 10_000_000_000_000_000) by (nonlinear_arith)
                    requires 1 <= dc <= 50, 1 <= p <= 10_000_000_000_000_000;
                assert(dc * p >= 1) by (nonlinear_arith)
                    requires 1 <= dc, 1 <= p;
            }
            let den: i64 = dc * (pow10_i128(s as u32) as i64);
            let k = floor_div(x.coef, den);
            proof {
                vstd::arithmetic::div_mod::lemma_fundamental_div_mod(x.coef as int, den as int);
                vstd::arithmetic::div_mod::lemma_mod_bound(x.coef as int, den as int);
                lemma_floor_div_bound(x.coef as int, den as int);
                assert(-COEF_LIMIT < k * dc < COEF_LIMIT) by (nonlinear_arith)
                    requires
                        1 <= dc <= 50, -10_000_000_000_000_000 < k < 10_000_000_000_000_000;
                vstd::arithmetic::div_mod::lemma_fundamental_div_mod_converse(k * den, den as int, k as int, 0);
            }
            let r = Decimal { coef: k * dc, exp: d.exp };
            proof {
                assert(r.scaled(m) == (k * dc) * p);
                assert((k * dc) * p == k * (dc * p)) by (nonlinear_arith);
                assert(d.scaled(m) == dc * p);
                assert(is_floor_multiple(r, x, d));
            }
            r
        }
    }
}

/// `ceil(x / d) * d`, exactly.
#[verifier::rlimit(40)]
fn ceil_multiple(x: Decimal, d: Decimal) -> (r: Decimal)
    requires
        x.is_dec64(),
        is_tick(d),
    ensures
        r.wf(),
        is_ceil_multiple(r, x, d),
{
    let nx = x.neg();
    let f = floor_multiple(nx, d);
    let r = f.neg();
    proof {
        let m = min_exp(r, x, d);
        assert(m == min_exp(f, nx, d));
        lemma_scaled_neg(x, m);
        lemma_scaled_neg(f, m);
        let dd = d.scaled(m);
        let q = f.scaled(m) / dd;
        lemma_pow10_positive((d.exp - m) as nat);
        assert(dd >= 1) by (nonlinear_arith)
            requires dd == d.coef * pow10((d.exp - m) as nat), d.coef >= 1, pow10((d.exp - m) as nat) >= 1;
        vstd::arithmetic::div_mod::lemma_fundamental_div_mod(f.scaled(m), dd);
        assert(-f.scaled(m) == (-q) * dd + 0) by (nonlinear_arith)
            requires f.scaled(m) == dd * q + 0;
        vstd::arithmetic::div_mod::lemma_fundamental_div_mod_converse(-f.scaled(m), dd, -q, 0);
    }
    r
}

/// The bounds of a nice range before rounding: the two ends in order, or,
/// when they are equal, the number and that number plus one.
pub open spec fn ordered_ends(min: Decimal, max: Decimal) -> Option<(Decimal, Decimal)> {
    if min.same_value(max) {
        match finite_of(dec_sum(min.coef as int, min.exp as int, 1, 0)) {
            Some(b) => Some((min, b)),
            None => None,
        }
    } else if max.lt(min) {
        Some((max, min))
    } else {
        Some((min, max))
    }
}

/// The tick of the range from `a` to `b`: the span rounded up to a nice
/// number, rounded again to the nearest nice number, over twenty.
pub open spec fn tick_of(a: Decimal, b: Decimal) -> Option<Decimal> {
    match finite_of(dec_difference(b.coef as int, b.exp as int, a.coef as int, a.exp as int)) {
        Some(span) => {
            let n = span.nice_of(false).nice_of(true);
            if n.coef > 0 {
                Some(Decimal { coef: (n.coef * 5) as i64, exp: (n.exp - 2) as i32 })
            } else {
                None
            }
        },
        None => None,
    }
}

/// Creates nicely rounded min/max from the input: the range from `min` to
/// `max` (in either order), widened to whole multiples of its tick.
/// `None` when the rounded arithmetic on the ends gives no finite positive
/// span: for distinct ends, exactly when their difference overflows; for
/// equal ends, also when adding one is lost to rounding.
#[verifier::rlimit(40)]
pub fn dec_nice_range(min: Decimal, max: Decimal) -> (r: Option<(Decimal, Decimal)>)
    requires
        min.is_dec64(),
        max.is_dec64(),
    ensures
        r is Some <==> (ordered_ends(min, max) matches Some((a, b)) && tick_of(a, b) is Some),
        r matches Some((lo, hi)) ==> ({
            let (a, b) = ordered_ends(min, max)->0;
            let d = tick_of(a, b)->0;
            is_floor_multiple(lo, a, d) && is_ceil_multiple(hi, b, d) && lo.wf() && hi.wf()
        }),
        r matches Some((lo, hi)) ==> lo.le(min) && lo.le(max) && min.le(hi) && max.le(hi),
        !min.same_value(max) ==> (r is Some <==> ({
            let (a, b) = if max.lt(min) {
                (max, min)
            } else {
                (min, max)
            };
            finite_of(dec_difference(b.coef as int, b.exp as int, a.coef as int, a.exp as int)) is Some
        })),
{
    let (a, b) = if min.value_eq(&max) {
        match min.add(&Decimal::from_int(1)) {
            Some(b) => (min, b),
            None => return None,
        }
    } else if max.less_than(&min) {
        (max, min)
    } else {
        (min, max)
    };
    proof {
        if !min.same_value(max) && !max.lt(min) {
            lemma_compare_at(min, max, min_exp(min, max, min));
        }
    }
    let span = match b.sub(&a) {
        Some(span) => span,
        None => return None,
    };
    let n1 = span.nice(false);
    proof {
        lemma_digit_count_bound(abs_int(span.coef as int) as nat);
        reveal_with_fuel(pow10, 17);
        lemma_digit_count_le(abs_int(span.coef as int) as nat, 16);
        lemma_digits_of(abs_int(n1.coef as int) as nat);
        lemma_digits_of((abs_int(n1.coef as int) / 10) as nat);
    }
    let n = n1.nice(true);
    if n.coef <= 0 {
        return None;
    }
    let d = Decimal { coef: n.coef * 5, exp: n.exp - 2 };
    let lo = floor_multiple(a, d);
    let hi = ceil_multiple(b, d);
    proof {
        lemma_floor_le(lo, a, d);
        lemma_ceil_ge(hi, b, d);
        if min.same_value(max) {
            lemma_compare_at(min, max, min_exp(min, max, min));
            lemma_compare_at(max, min, min_exp(min, max, min));
            lemma_le_trans(lo, min, max);
            lemma_le_trans(max, min, b);
            lemma_le_trans(min, b, hi);
            lemma_le_trans(max, b, hi);
        } else if max.lt(min) {
            lemma_le_trans(lo, max, min);
            lemma_le_trans(max, min, hi);
        } else {
            lemma_le_trans(lo, min, max);
            lemma_le_trans(min, max, hi);
        }
    }
    Some((lo, hi))
}

pub proof fn lemma_floor_le(r: Decimal, x: Decimal, d: Decimal)
    requires
        is_floor_multiple(r, x, d),
    ensures
        r.le(x),
{
    lemma_compare_at(r, x, min_exp(r, x, d));
}

pub proof fn lemma_ceil_ge(r: Decimal, x: Decimal, d: Decimal)
    requires
        is_ceil_multiple(r, x, d),
    ensures
        x.le(r),
{
    lemma_compare_at(x, r, min_exp(r, x, d));
}

} // verus!
