//! Rounded decimal arithmetic and parsing, computed by the `dec` crate's
//! 64-bit decimal floating point in its default context.
//!
//! Each operation hands the `dec` crate plain coefficients and exponents and
//! takes back the coefficient, the exponent and whether the result is finite.
use vstd::prelude::*;
use crate::decimal::{
    Decimal, chars_of, plain_parts_text, all_digits, digits_value, price_text, plain_text, abs_int,
    digits_of, lemma_digits_of, lemma_digits_value_of, lemma_digits_value_zeros, zeros, padded_digits,
    is_digit, digit_char, shows_plain, lemma_pow10_positive, pow10, lemma_digits_value_trailing_zeros,
    lemma_digits_of_shifted, lemma_strip_zeros, strip_zeros,
};
use dec::Decimal64;

verus! {

/// What `dec` parses from a text: coefficient, exponent and finiteness, or
/// nothing when the text is no number.
pub uninterp spec fn dec_parsed(s: Seq<char>) -> Option<(i64, i32, bool)>;

/// The rounded sum of two numbers, as `dec` computes it.
pub uninterp spec fn dec_sum(ac: int, ae: int, bc: int, be: int) -> (i64, i32, bool);

/// The rounded difference of two numbers, as `dec` computes it.
pub uninterp spec fn dec_difference(ac: int, ae: int, bc: int, be: int) -> (i64, i32, bool);

/// The rounded product of two numbers, as `dec` computes it.
pub uninterp spec fn dec_product(ac: int, ae: int, bc: int, be: int) -> (i64, i32, bool);

/// The rounded quotient of two numbers, as `dec` computes it.
pub uninterp spec fn dec_quotient(ac: int, ae: int, bc: int, be: int) -> (i64, i32, bool);

/// A finite 64-bit decimal has at most 16 digits and an exponent in
/// `[-398, 369]`.
pub open spec fn dec64_bounded(t: (i64, i32, bool)) -> bool {
    t.2 ==> (-10_000_000_000_000_000 < t.0 < 10_000_000_000_000_000 && -398 <= t.1 <= 369)
}

/// The number that a result of `dec` stands for, if it is finite.
pub open spec fn finite_of(t: (i64, i32, bool)) -> Option<Decimal> {
    if t.2 {
        Some(Decimal { coef: t.0, exp: t.1 })
    } else {
        None
    }
}

/// A plain decimal text of at most 16 digits, with at most 398 after the
/// point, reads exactly: the digits without the point make the
/// coefficient, and the count of digits after the point, negated, is the
/// exponent.
pub open spec fn reads_plain_exactly(s: Seq<char>, r: Option<(i64, i32, bool)>) -> bool {
    forall|neg: bool, a: Seq<char>, f: Seq<char>|
        s == #[trigger] plain_parts_text(neg, a, f) && a.len() > 0 && all_digits(a) && all_digits(f)
            && digits_value(a + f) < 10_000_000_000_000_000 && f.len() <= 398 ==> r == Some(
            (
                (if neg {
                    -digits_value(a + f)
                } else {
                    digits_value(a + f)
                }) as i64,
                (-(f.len() as int)) as i32,
                true,
            ),
        )
}

/// Relies on `Decimal64`'s `FromStr` (the `dec` crate's default context),
/// and on its `coefficient`, `exponent` and `is_finite`. A plain decimal
/// text of at most 16 digits, with at most 398 after the point, is read
/// exactly: the digits without the point make the coefficient, and the
/// count of digits after the point, negated, is the exponent.
#[verifier::external_body]
fn dec64_parse(s: &str) -> (r: Option<(i64, i32, bool)>)
    ensures
        r == dec_parsed(s@),
        r matches Some(t) ==> dec64_bounded(t),
        reads_plain_exactly(s@, r),
{
    match s.parse::<Decimal64>() {
        Ok(z) => Some((z.coefficient(), z.exponent(), z.is_finite())),
        Err(_) => None,
    }
}

/// Relies on `Decimal64`'s `Add` (the `dec` crate's default context). Both
/// operands are exact in that format when they are 64-bit decimal values, and
/// rounding is monotone: adding a number that is not negative gives no less.
#[verifier::external_body]
fn dec64_add(a: Decimal, b: Decimal) -> (r: (i64, i32, bool))
    ensures
        r == dec_sum(a.coef as int, a.exp as int, b.coef as int, b.exp as int),
        dec64_bounded(r),
        a.is_dec64() && b.is_dec64() && b.coef >= 0 && r.2 ==> a.le(Decimal { coef: r.0, exp: r.1 }),
{
    let x: Decimal64 = format!("{}E{}", a.coef, a.exp).parse().unwrap_or(Decimal64::NAN);
    let y: Decimal64 = format!("{}E{}", b.coef, b.exp).parse().unwrap_or(Decimal64::NAN);
    let z = x + y;
    (z.coefficient(), z.exponent(), z.is_finite())
}

/// Relies on `Decimal64`'s `Sub` (the `dec` crate's default context). Both
/// operands are exact in that format when they are 64-bit decimal values;
/// their exact difference is then a multiple of the smallest subnormal, and
/// rounding is monotone, so a positive difference stays positive.
#[verifier::external_body]
fn dec64_sub(a: Decimal, b: Decimal) -> (r: (i64, i32, bool))
    ensures
        r == dec_difference(a.coef as int, a.exp as int, b.coef as int, b.exp as int),
        dec64_bounded(r),
        a.is_dec64() && b.is_dec64() && b.lt(a) && r.2 ==> r.0 > 0,
{
    let x: Decimal64 = format!("{}E{}", a.coef, a.exp).parse().unwrap_or(Decimal64::NAN);
    let y: Decimal64 = format!("{}E{}", b.coef, b.exp).parse().unwrap_or(Decimal64::NAN);
    let z = x - y;
    (z.coefficient(), z.exponent(), z.is_finite())
}

/// Relies on `Decimal64`'s `Mul` (the `dec` crate's default context).
#[verifier::external_body]
fn dec64_mul(a: Decimal, b: Decimal) -> (r: (i64, i32, bool))
    ensures
        r == dec_product(a.coef as int, a.exp as int, b.coef as int, b.exp as int),
        dec64_bounded(r),
{
    let x: Decimal64 = format!("{}E{}", a.coef, a.exp).parse().unwrap_or(Decimal64::NAN);
    let y: Decimal64 = format!("{}E{}", b.coef, b.exp).parse().unwrap_or(Decimal64::NAN);
    let z = x * y;
    (z.coefficient(), z.exponent(), z.is_finite())
}

/// Relies on `Decimal64`'s `Div` (the `dec` crate's default context); a zero
/// divisor gives an infinity or a NaN, which is not finite.
#[verifier::external_body]
fn dec64_div(a: Decimal, b: Decimal) -> (r: (i64, i32, bool))
    ensures
        r == dec_quotient(a.coef as int, a.exp as int, b.coef as int, b.exp as int),
        dec64_bounded(r),
        b.coef == 0 ==> !r.2,
{
    let x: Decimal64 = format!("{}E{}", a.coef, a.exp).parse().unwrap_or(Decimal64::NAN);
    let y: Decimal64 = format!("{}E{}", b.coef, b.exp).parse().unwrap_or(Decimal64::NAN);
    let z = x / y;
    (z.coefficient(), z.exponent(), z.is_finite())
}

/// Keeps a finite result of `dec`.
fn finite(t: (i64, i32, bool)) -> (r: Option<Decimal>)
    requires
        dec64_bounded(t),
    ensures
        r == finite_of(t),
        r matches Some(d) ==> d.wf() && d.is_dec64(),
{
    if t.2 {
        Some(Decimal { coef: t.0, exp: t.1 })
    } else {
        None
    }
}

impl Decimal {
    /// The rounded sum; `None` when it is not finite.
    pub fn add(&self, other: &Decimal) -> (r: Option<Decimal>)
        ensures
            r == finite_of(dec_sum(self.coef as int, self.exp as int, other.coef as int, other.exp as int)),
            r matches Some(d) ==> d.wf() && d.is_dec64(),
            self.is_dec64() && other.is_dec64() && other.coef >= 0 ==> (r matches Some(d) ==> self.le(d)),
    {
        finite(dec64_add(*self, *other))
    }

    /// The rounded difference; `None` when it is not finite.
    pub fn sub(&self, other: &Decimal) -> (r: Option<Decimal>)
        ensures
            r matches Some(d) ==> d.is_dec64(),
            r == finite_of(dec_difference(self.coef as int, self.exp as int, other.coef as int, other.exp as int)),
            r matches Some(d) ==> d.wf(),
            self.is_dec64() && other.is_dec64() && other.lt(*self) ==> (r matches Some(d) ==> d.coef > 0),
    {
        finite(dec64_sub(*self, *other))
    }

    /// The rounded product; `None` when it is not finite.
    pub fn mul(&self, other: &Decimal) -> (r: Option<Decimal>)
        ensures
            r matches Some(d) ==> d.is_dec64(),
            r == finite_of(dec_product(self.coef as int, self.exp as int, other.coef as int, other.exp as int)),
            r matches Some(d) ==> d.wf(),
    {
        finite(dec64_mul(*self, *other))
    }

    /// The rounded quotient; `None` when it is not finite (a zero divisor
    /// among others).
    pub fn div(&self, other: &Decimal) -> (r: Option<Decimal>)
        ensures
            r matches Some(d) ==> d.is_dec64(),
            r == finite_of(dec_quotient(self.coef as int, self.exp as int, other.coef as int, other.exp as int)),
            r matches Some(d) ==> d.wf(),
            other.coef == 0 ==> r is None,
    {
        finite(dec64_div(*self, *other))
    }
}

/// Whether the text holds a `.`.
pub open spec fn has_point(s: Seq<char>) -> bool {
    exists|i: int| 0 <= i < s.len() && s[i] == '.'
}

/// The text without its trailing `0` characters.
pub open spec fn trim_zeros(s: Seq<char>) -> Seq<char>
    decreases s.len(),
{
    if s.len() > 0 && s.last() == '0' {
        trim_zeros(s.drop_last())
    } else {
        s
    }
}

/// The text that a price is read from: trailing zeros after a decimal
/// point carry no value and are dropped.
pub open spec fn price_source(s: Seq<char>) -> Seq<char> {
    if has_point(s) {
        trim_zeros(s)
    } else {
        s
    }
}

/// The number that a price text stands for, if it is one and is finite.
pub open spec fn price_of(s: Seq<char>) -> Option<Decimal> {
    match dec_parsed(price_source(s)) {
        Some(t) => finite_of(t),
        None => None,
    }
}

/// Reads a price from a text; trailing zeros after a decimal point are
/// dropped first. `None` when the text is no finite number.
#[verifier::rlimit(40)]
pub fn parse_dec(s: &str) -> (r: Option<Decimal>)
    ensures
        r == price_of(s@),
        r matches Some(d) ==> d.wf() && d.is_dec64(),
        reads_plain_decimal(price_source(s@), r),
        forall|d: Decimal|
            #![trigger price_text(Some(d))]
            s@ == price_text(Some(d)) && reparses(d) ==> (r matches Some(e) && price_text(Some(e)) == s@)
                && (d.exp <= 0 ==> r == Some(d)),
{
    let cs = chars_of(s);
    let mut point = false;
    let mut i: usize = 0;
    while i < cs.len()
        invariant
            i <= cs@.len(),
            cs@ == s@,
            point <==> exists|j: int| 0 <= j < i && cs@[j] == '.',
        decreases cs.len() - i,
    {
        if cs[i] == '.' {
            point = true;
        }
        i = i + 1;
    }
    let mut end: usize = cs.len();
    assert(point == has_point(s@));
    if point {
        assert(cs@.subrange(0, cs@.len() as int) =~= s@);
        while end > 0 && cs[end - 1] == '0'
            invariant
                end <= cs@.len(),
                trim_zeros(cs@.subrange(0, end as int)) == trim_zeros(s@),
            decreases end,
        {
            assert(cs@.subrange(0, end as int).drop_last() =~= cs@.subrange(0, end - 1));
            end = end - 1;
        }
        assert(trim_zeros(cs@.subrange(0, end as int)) == cs@.subrange(0, end as int));
    } else {
        assert(cs@.subrange(0, end as int) =~= s@);
    }
    let mut kept: Vec<char> = Vec::new();
    crate::decimal::push_range(&cs, 0, end, &mut kept);
    let text = crate::decimal::string_from_chars(&kept);
    let parsed = dec64_parse(text.as_str());
    assert(text@ == price_source(s@));
    proof {
        lemma_reading_back(s@, text@, parsed);
        lemma_plain_reading(text@, parsed);
    }
    match parsed {
        Some(t) => finite(t),
        None => None,
    }
}

/// A plain decimal text of at most 16 digits, with at most 398 after the
/// point, stands for the number whose coefficient is its digits without
/// the point and whose exponent is the count of digits after the point,
/// negated.
pub open spec fn reads_plain_decimal(s: Seq<char>, r: Option<Decimal>) -> bool {
    forall|neg: bool, a: Seq<char>, f: Seq<char>|
        s == #[trigger] plain_parts_text(neg, a, f) && a.len() > 0 && all_digits(a) && all_digits(f)
            && digits_value(a + f) < 10_000_000_000_000_000 && f.len() <= 398 ==> r == Some(
            Decimal {
                coef: (if neg {
                    -digits_value(a + f)
                } else {
                    digits_value(a + f)
                }) as i64,
                exp: (-(f.len() as int)) as i32,
            },
        )
}

/// What `dec` reads from a plain decimal text is the number it stands for.
proof fn lemma_plain_reading(text: Seq<char>, parsed: Option<(i64, i32, bool)>)
    requires
        reads_plain_exactly(text, parsed),
    ensures
        reads_plain_decimal(text, finite_of_parsed(parsed)),
{
}

/// The number that a reading of `dec` stands for, if it is finite.
pub open spec fn finite_of_parsed(p: Option<(i64, i32, bool)>) -> Option<Decimal> {
    match p {
        Some(t) => finite_of(t),
        None => None,
    }
}

/// A number that formatting writes in plain notation, with no trailing
/// zero after its point, in at most 16 digits: such a text reads back as a
/// number that is written the same.
pub open spec fn reparses(d: Decimal) -> bool {
    &&& d.is_dec64()
    &&& shows_plain(d)
    &&& d.exp < 0 ==> abs_int(d.coef as int) % 10 != 0
    &&& d.exp > 0 ==> abs_int(d.coef as int) * pow10(d.exp as nat) < 10_000_000_000_000_000
}


/// Reads a number from a text as it is; `None` when the text is no finite
/// number.
pub fn parse_decimal(s: &str) -> (r: Option<Decimal>)
    ensures
        r == match dec_parsed(s@) {
            Some(t) => finite_of(t),
            None => None,
        },
        r matches Some(d) ==> d.wf() && d.is_dec64(),
{
    match dec64_parse(s) {
        Some(t) => finite(t),
        None => None,
    }
}


/// The parts of a number in plain notation, when it has no trailing zero
/// after its point: the sign, the digits before the point and those after.
pub proof fn lemma_plain_text_parts(d: Decimal) -> (r: (bool, Seq<char>, Seq<char>))
    requires
        d.is_dec64(),
        d.exp <= 0,
        d.exp == 0 || abs_int(d.coef as int) % 10 != 0,
    ensures
        plain_text(d) == plain_parts_text(r.0, r.1, r.2),
        price_source(plain_text(d)) == plain_text(d),
        r.1.len() > 0,
        all_digits(r.1),
        all_digits(r.2),
        digits_value(r.1 + r.2) == abs_int(d.coef as int),
        r.2.len() == -d.exp,
        r.0 == (d.coef < 0),
{
    if d.exp == 0 {
        lemma_integer_parts(d)
    } else {
        lemma_fraction_parts(d)
    }
}

/// The parts of an integer in plain notation: no point at all.
proof fn lemma_integer_parts(d: Decimal) -> (r: (bool, Seq<char>, Seq<char>))
    requires
        d.is_dec64(),
        d.exp == 0,
    ensures
        plain_text(d) == plain_parts_text(r.0, r.1, r.2),
        price_source(plain_text(d)) == plain_text(d),
        r.1.len() > 0,
        all_digits(r.1),
        all_digits(r.2),
        digits_value(r.1 + r.2) == abs_int(d.coef as int),
        r.2.len() == 0,
        r.0 == (d.coef < 0),
{
    let t = plain_text(d);
    let n = abs_int(d.coef as int) as nat;
    let neg = d.coef < 0;
    let ds = digits_of(n);
    lemma_digits_of(n);
    lemma_digits_value_of(n);
    assert(zeros(0) =~= Seq::<char>::empty());
    assert(t =~= plain_parts_text(neg, ds, Seq::empty()));
    assert(ds + Seq::<char>::empty() =~= ds);
    assert(!has_point(t)) by {
        assert forall|i: int| 0 <= i < t.len() implies t[i] != '.' by {
            if !(neg && i == 0) {
                let j = if neg {
                    i - 1
                } else {
                    i
                };
                assert(t[i] == ds[j]);
            }
        }
    }
    (neg, ds, Seq::empty())
}

/// The padded digits of a coefficient are digits, and read as its magnitude.
proof fn lemma_padded_value(c: int, k: nat)
    ensures
        all_digits(padded_digits(c, k)),
        digits_value(padded_digits(c, k)) == abs_int(c),
        padded_digits(c, k).len() >= k + 1,
        padded_digits(c, k).last() == digits_of(abs_int(c) as nat).last(),
{
    let n = abs_int(c) as nat;
    let ds = digits_of(n);
    lemma_digits_of(n);
    lemma_digits_value_of(n);
    let p = padded_digits(c, k);
    let z = if ds.len() < k + 1 {
        (k + 1 - ds.len()) as nat
    } else {
        0nat
    };
    assert(p =~= zeros(z) + ds);
    lemma_digits_value_zeros(z, ds);
    assert forall|i: int| 0 <= i < p.len() implies is_digit(#[trigger] p[i]) by {
        if i >= z {
            assert(p[i] == ds[i - z]);
        }
    }
}

/// The parts of a number with digits after its point, the last of them
/// not a zero.
#[verifier::rlimit(40)]
proof fn lemma_fraction_parts(d: Decimal) -> (r: (bool, Seq<char>, Seq<char>))
    requires
        d.is_dec64(),
        d.exp < 0,
        abs_int(d.coef as int) % 10 != 0,
    ensures
        plain_text(d) == plain_parts_text(r.0, r.1, r.2),
        price_source(plain_text(d)) == plain_text(d),
        r.1.len() > 0,
        all_digits(r.1),
        all_digits(r.2),
        digits_value(r.1 + r.2) == abs_int(d.coef as int),
        r.2.len() == -d.exp,
        r.0 == (d.coef < 0),
{
    let n = abs_int(d.coef as int) as nat;
    let neg = d.coef < 0;
    let k = (-d.exp) as nat;
    let p = padded_digits(d.coef as int, k);
    lemma_padded_value(d.coef as int, k);
    let h = p.subrange(0, p.len() - k);
    let f = p.subrange(p.len() - k, p.len() as int);
    let sign = if neg {
        seq!['-']
    } else {
        Seq::<char>::empty()
    };
    let t = sign + h + seq!['.'] + f;
    assert(plain_text(d) == t);
    assert(h + f =~= p);
    assert(all_digits(h)) by {
        assert forall|i: int| 0 <= i < h.len() implies is_digit(#[trigger] h[i]) by {
            assert(h[i] == p[i]);
        }
    }
    assert(all_digits(f)) by {
        assert forall|i: int| 0 <= i < f.len() implies is_digit(#[trigger] f[i]) by {
            assert(f[i] == p[p.len() - k + i]);
        }
    }
    assert(t =~= plain_parts_text(neg, h, f));
    assert(t[(sign.len() + h.len()) as int] == '.');
    assert(has_point(t));
    assert(t.last() == p.last());
    lemma_digits_of(n);
    assert(digits_of(n).last() == digit_char(n % 10)) by {
        if n >= 10 {
            assert(digits_of(n) == digits_of(n / 10).push(digit_char(n % 10)));
        }
    }
    assert(trim_zeros(t) == t);
    (neg, h, f)
}

/// The parts of a number with a positive exponent in plain notation: its
/// digits and the zeros of the exponent, no point.
#[verifier::rlimit(40)]
proof fn lemma_shifted_parts(d: Decimal) -> (r: (bool, Seq<char>, Seq<char>))
    requires
        d.is_dec64(),
        d.exp > 0,
    ensures
        plain_text(d) == plain_parts_text(r.0, r.1, r.2),
        price_source(plain_text(d)) == plain_text(d),
        r.1.len() > 0,
        all_digits(r.1),
        all_digits(r.2),
        digits_value(r.1 + r.2) == abs_int(d.coef as int) * pow10(d.exp as nat),
        r.2.len() == 0,
        r.0 == (d.coef < 0),
{
    let t = plain_text(d);
    let n = abs_int(d.coef as int) as nat;
    let neg = d.coef < 0;
    let ds = digits_of(n);
    let m: nat = if d.coef == 0 {
        0
    } else {
        d.exp as nat
    };
    let z = zeros(m);
    lemma_digits_of(n);
    lemma_digits_value_of(n);
    lemma_digits_value_trailing_zeros(ds, m);
    if d.coef == 0 {
        assert(pow10(0) == 1);
    }
    let a = ds + z;
    assert(t =~= plain_parts_text(neg, a, Seq::empty()));
    assert(a + Seq::<char>::empty() =~= a);
    assert(all_digits(a)) by {
        assert forall|i: int| 0 <= i < a.len() implies is_digit(#[trigger] a[i]) by {
            if i >= ds.len() {
                assert(a[i] == z[i - ds.len()]);
            } else {
                assert(a[i] == ds[i]);
            }
        }
    }
    assert(!has_point(t)) by {
        assert forall|i: int| 0 <= i < t.len() implies t[i] != '.' by {
            if !(neg && i == 0) {
                let j = if neg {
                    i - 1
                } else {
                    i
                };
                assert(t[i] == a[j]);
            }
        }
    }
    (neg, a, Seq::empty())
}

/// A positive-exponent number, read back from its text as an integer, is
/// written the same.
proof fn lemma_shifted_reads_back(d: Decimal)
    requires
        d.is_dec64(),
        d.exp > 0,
        abs_int(d.coef as int) * pow10(d.exp as nat) < 10_000_000_000_000_000,
    ensures
        ({
            let v = abs_int(d.coef as int) * pow10(d.exp as nat);
            let e = Decimal {
                coef: (if d.coef < 0 {
                    -v
                } else {
                    v
                }) as i64,
                exp: 0,
            };
            price_text(Some(e)) == plain_text(d)
        }),
{
    let n = abs_int(d.coef as int) as nat;
    let v = n * pow10(d.exp as nat);
    lemma_pow10_positive(d.exp as nat);
    if n == 0 {
        assert(v == 0) by (nonlinear_arith)
            requires v == n * pow10(d.exp as nat), n == 0;
        let e = Decimal { coef: 0, exp: 0 };
        assert(zeros(0) =~= Seq::<char>::empty());
        assert(plain_text(e) =~= plain_text(d));
        return;
    }
    assert(v >= n) by (nonlinear_arith)
        requires v == n * pow10(d.exp as nat), pow10(d.exp as nat) >= 1, n >= 1;
    let e = Decimal {
        coef: (if d.coef < 0 {
            -v
        } else {
            v
        }) as i64,
        exp: 0,
    };
    assert(abs_int(e.coef as int) == v);
    lemma_strip_zeros(v as nat, 0);
    lemma_digits_of(strip_zeros(v as nat, 0).0);
    assert(shows_plain(e));
    lemma_digits_of_shifted(n, d.exp as nat);
    assert(zeros(0) =~= Seq::<char>::empty());
    assert(plain_text(e) =~= plain_text(d));
}

/// A price text in plain notation reads back as a number written the same
/// (as the same number, when its exponent is not positive).
#[verifier::rlimit(40)]
proof fn lemma_reading_back(s: Seq<char>, text: Seq<char>, parsed: Option<(i64, i32, bool)>)
    requires
        text == price_source(s),
        reads_plain_exactly(text, parsed),
    ensures
        forall|d: Decimal|
            #![trigger price_text(Some(d))]
            s == price_text(Some(d)) && reparses(d) ==> (finite_of_parsed(parsed) matches Some(e)
                && price_text(Some(e)) == s) && (d.exp <= 0 ==> finite_of_parsed(parsed) == Some(d)),
{
    assert forall|d: Decimal|
        #![trigger price_text(Some(d))]
        s == price_text(Some(d)) && reparses(d) implies (finite_of_parsed(parsed) matches Some(e)
            && price_text(Some(e)) == s) && (d.exp <= 0 ==> finite_of_parsed(parsed) == Some(d)) by {
        if d.exp <= 0 {
            let parts = lemma_plain_text_parts(d);
            assert(plain_parts_text(parts.0, parts.1, parts.2) == text);
        } else {
            let parts = lemma_shifted_parts(d);
            assert(plain_parts_text(parts.0, parts.1, parts.2) == text);
            lemma_shifted_reads_back(d);
        }
    }
}

} // verus!
