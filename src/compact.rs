//! Compact display of small numbers for chart labels: `0.0657` is written
//! `1\657`, the count of zeros after the point, then the significant digits.
use vstd::prelude::*;
use crate::decimal::{
    Decimal, pow10, abs_int, digits_of, plain_text, int_text, normalized, strip_zeros, push_int,
    push_range, string_from_chars, lemma_pow10_positive, lemma_pow10_monotone, lemma_pow10_18,
    lemma_strip_zeros, lemma_strip_count, lemma_digits_of, lemma_digit_count_le, pow10_i128,
    COEF_LIMIT, EXP_LIMIT, padded_digits,
};
use crate::nice::{digit_count, Dec64Nice};

verus! {

/// Provides the functions `nice`, `round_to` and `compact_str`.
pub trait Nice: Sized {
    /// The numbers that the operations accept.
    spec fn compact_domain(&self) -> bool;

    spec fn nice_value(&self, round: bool) -> Self;

    spec fn rounded(&self, n: nat) -> Self;

    spec fn compact_text(&self) -> Seq<char>;

    /// Round to a near 'nice' number
    fn nice(self, round: bool) -> (r: Self)
        requires
            self.compact_domain(),
        ensures
            r == self.nice_value(round),
    ;

    /// Round to `n` digits after the point, halves away from zero
    fn round_to(self, n: u32) -> (r: Self)
        requires
            self.compact_domain(),
            n <= 900,
        ensures
            r == self.rounded(n as nat),
    ;

    /// Generate a compact string, using the \ notation.
    #[verifier::rlimit(40)]
    fn compact_str(self) -> (r: String)
        requires
            self.compact_domain(),
        ensures
            r@ == self.compact_text(),
    ;
}

/// `d` rounded to `n` digits after the point, halves away from zero.
pub open spec fn rounded_to(d: Decimal, n: nat) -> Decimal {
    if d.exp >= -(n as int) {
        d
    } else {
        let k = (-(n as int) - d.exp) as nat;
        let a = abs_int(d.coef as int);
        let p = pow10(k);
        let q = a / p + (if 2 * (a % p) >= p {
            1int
        } else {
            0int
        });
        Decimal {
            coef: (if d.coef < 0 {
                -q
            } else {
                q
            }) as i64,
            exp: (-(n as int)) as i32,
        }
    }
}

/// How a number is written once rounded to eight digits after the point:
/// plain notation without trailing zeros; what rounds to zero is `0`, with
/// the sign of the number.
pub open spec fn label_text(d: Decimal) -> Seq<char> {
    let r = rounded_to(d, 8);
    if r.coef == 0 {
        if d.coef < 0 {
            seq!['-', '0']
        } else {
            seq!['0']
        }
    } else {
        plain_text(normalized(r))
    }
}

/// The compact text of a number. Zero is `0`. A number below one tenth in
/// magnitude is written `N\M` (with a leading `-` when negative): `N` is the
/// count of zeros after the point (one more when the number is an exact
/// power of ten), and `M` the digits of the number shifted left by `N`
/// places, rounded to eight digits, after its leading `0.`; if that shifted
/// number rounds to one, or any other number, it is written as
/// `label_text`.
pub open spec fn compact_of(d: Decimal) -> Seq<char> {
    if d.coef == 0 {
        seq!['0']
    } else {
        let (u, e) = strip_zeros(abs_int(d.coef as int) as nat, d.exp as int);
        let a = e + digits_of(u).len() - 1;
        if a < -1 {
            let z = if u == 1 {
                -a
            } else {
                -(a + 1)
            };
            let t = label_text(Decimal { coef: u as i64, exp: (e + z) as i32 });
            if t.len() > 2 {
                let sign = if d.coef < 0 {
                    seq!['-']
                } else {
                    Seq::<char>::empty()
                };
                sign + int_text(z) + seq!['\\'] + t.subrange(2, t.len() as int)
            } else {
                label_text(d)
            }
        } else {
            label_text(d)
        }
    }
}

impl Nice for Decimal {
    open spec fn compact_domain(&self) -> bool {
        self.is_dec64()
    }

    open spec fn nice_value(&self, round: bool) -> Decimal {
        self.nice_of(round)
    }

    open spec fn rounded(&self, n: nat) -> Decimal {
        rounded_to(*self, n)
    }

    open spec fn compact_text(&self) -> Seq<char> {
        compact_of(*self)
    }

    fn nice(self, round: bool) -> (r: Decimal) {
        Dec64Nice::nice(self, round)
    }

    fn round_to(self, n: u32) -> (r: Decimal) {
        round_decimal(self, n)
    }

    fn compact_str(self) -> (r: String) {
        let mut out: Vec<char> = Vec::new();
        if self.coef == 0 {
            out.push('0');
            assert(out@ =~= compact_of(self));
            return string_from_chars(&out);
        }
        let s = self.normalize();
        proof {
            lemma_strip_zeros(abs_int(self.coef as int) as nat, self.exp as int);
            lemma_strip_count(abs_int(self.coef as int) as nat, self.exp as int);
            crate::decimal::lemma_digit_count_bound(abs_int(self.coef as int) as nat);
        }
        let u = s.magnitude();
        let ghost st = strip_zeros(abs_int(self.coef as int) as nat, self.exp as int);
        assert(u == st.0 && s.exp == st.1);
        let k = digit_count(u);
        let a: i64 = s.exp as i64 + k as i64 - 1;
        if a < -1 {
            let z: i64 = if u == 1 {
                -a
            } else {
                -(a + 1)
            };
            let y = Decimal { coef: u as i64, exp: (s.exp as i64 + z) as i32 };
            let t = label_chars(y);
            if t.len() > 2 {
                if self.coef < 0 {
                    out.push('-');
                }
                push_int(z, &mut out);
                out.push('\\');
                push_range(&t, 2, t.len(), &mut out);
                assert(out@ =~= compact_of(self));
            } else {
                out = label_chars(self);
            }
        } else {
            out = label_chars(self);
        }
        string_from_chars(&out)
    }
}

/// The characters of `label_text(d)`.
fn label_chars(d: Decimal) -> (r: Vec<char>)
    requires
        d.wf(),
        d.exp <= 400,
    ensures
        r@ == label_text(d),
{
    let r = round_decimal(d, 8);
    if r.coef == 0 {
        let mut out: Vec<char> = Vec::new();
        if d.coef < 0 {
            out.push('-');
        }
        out.push('0');
        assert(out@ =~= label_text(d));
        return out;
    }
    let n = r.normalize();
    n.plain_chars()
}

/// Rounds to `n` digits after the point, halves away from zero.
#[verifier::rlimit(40)]
fn round_decimal(d: Decimal, n: u32) -> (r: Decimal)
    requires
        d.wf(),
        n <= 900,
    ensures
        r == rounded_to(d, n as nat),
        r.wf(),
        r.exp <= if d.exp > 0 { d.exp as int } else { 0 },
{
    if d.exp as i64 >= -(n as i64) {
        return d;
    }
    let k: i64 = -(n as i64) - d.exp as i64;
    let a = d.magnitude();
    proof {
        lemma_pow10_positive(k as nat);
        lemma_pow10_18();
    }
    let q: u64 = if k >= 19 {
        proof {
            lemma_pow10_monotone(19, k as nat);
            reveal_with_fuel(pow10, 20);
            vstd::arithmetic::div_mod::lemma_fundamental_div_mod_converse(a as int, pow10(k as nat), 0, a as int);
        }
        0
    } else {
        proof {
            lemma_pow10_monotone(k as nat, 18);
            lemma_pow10_monotone(1, k as nat);
            reveal_with_fuel(pow10, 2);
        }
        let p = pow10_i128(k as u32) as u64;
        let q0 = a / p;
        let rem = a % p;
        proof {
            vstd::arithmetic::div_mod::lemma_fundamental_div_mod(a as int, p as int);
            vstd::arithmetic::div_mod::lemma_mod_bound(a as int, p as int);
            assert(q0 <= a / 10) by (nonlinear_arith)
                requires a == p * q0 + rem, 0 <= rem < p, p >= 10, q0 >= 0;
        }
        if 2 * rem >= p {
            q0 + 1
        } else {
            q0
        }
    };
    let c: i64 = if d.coef < 0 {
        -(q as i64)
    } else {
        q as i64
    };
    Decimal { coef: c, exp: -(n as i32) }
}

/// Writing a negative number compactly writes its magnitude with a `-` in
/// front.
pub proof fn lemma_compact_negation(x: Decimal)
    requires
        x.is_dec64(),
        x.coef > 0,
    ensures
        compact_of(Decimal { coef: (-x.coef) as i64, exp: x.exp }) == seq!['-'] + compact_of(x),
{
    let y = Decimal { coef: (-x.coef) as i64, exp: x.exp };
    assert(abs_int(y.coef as int) == abs_int(x.coef as int));
    lemma_label_negation(x);
    let (u, e) = strip_zeros(abs_int(x.coef as int) as nat, x.exp as int);
    let a = e + digits_of(u).len() - 1;
    if a < -1 {
        let z = if u == 1 {
            -a
        } else {
            -(a + 1)
        };
        let t = label_text(Decimal { coef: u as i64, exp: (e + z) as i32 });
        if t.len() > 2 {
            assert(seq!['-'] + int_text(z) + seq!['\\'] + t.subrange(2, t.len() as int) =~= seq!['-'] + (
            Seq::<char>::empty() + int_text(z) + seq!['\\'] + t.subrange(2, t.len() as int)));
        }
    }
}

/// A label of a negative number is the label of its magnitude with a `-`
/// in front.
pub proof fn lemma_label_negation(x: Decimal)
    requires
        x.is_dec64(),
        x.coef > 0,
    ensures
        label_text(Decimal { coef: (-x.coef) as i64, exp: x.exp }) == seq!['-'] + label_text(x),
{
    let y = Decimal { coef: (-x.coef) as i64, exp: x.exp };
    let r = rounded_to(x, 8);
    let ry = rounded_to(y, 8);
    assert(abs_int(y.coef as int) == abs_int(x.coef as int));
    if x.exp < -8 {
        let k = (-8 - x.exp) as nat;
        lemma_pow10_positive(k);
        crate::nice::lemma_floor_div_bound(abs_int(x.coef as int), pow10(k));
    }
    assert(ry.coef == -r.coef && ry.exp == r.exp);
    if r.coef != 0 {
        let q = abs_int(r.coef as int) as nat;
        assert(abs_int(ry.coef as int) == q);
        let (u, e) = strip_zeros(q, r.exp as int);
        lemma_strip_zeros(q, r.exp as int);
        let nx = normalized(r);
        let ny = normalized(ry);
        assert(ny.coef == -nx.coef && ny.exp == nx.exp);
        assert(nx.coef > 0);
        let ds = digits_of(u);
        if nx.exp >= 0 {
            assert(plain_text(ny) =~= seq!['-'] + plain_text(nx));
        } else {
            assert(padded_digits(ny.coef as int, (-nx.exp) as nat) == padded_digits(nx.coef as int, (-nx.exp) as nat));
            assert(plain_text(ny) =~= seq!['-'] + plain_text(nx));
        }
    }
}

} // verus!
