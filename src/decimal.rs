//! A finite decimal number `coef * 10^exp`, and its plain-notation text.
use vstd::prelude::*;
use vstd::std_specs::iter::IteratorSpec;

verus! {

/// Largest magnitude (exclusive) that a coefficient may have.
pub const COEF_LIMIT: i64 = 1_000_000_000_000_000_000;

/// Largest magnitude that an exponent may have.
pub const EXP_LIMIT: i32 = 1000;

/// `10^n`.
pub open spec fn pow10(n: nat) -> int
    decreases n,
{
    if n == 0 {
        1
    } else {
        10 * pow10((n - 1) as nat)
    }
}

pub open spec fn abs_int(x: int) -> int {
    if x < 0 {
        -x
    } else {
        x
    }
}

/// A finite decimal number: `coef * 10^exp`.
///
/// Numbers of equal value may have different coefficients: `1.0` is
/// `10 * 10^-1` and `1` is `1 * 10^0`. The representation is kept, as it
/// decides how a number is written.
#[derive(Clone, Copy, Debug)]
pub struct Decimal {
    pub coef: i64,
    pub exp: i32,
}

impl Decimal {
    /// The coefficient and exponent stay within the bounds that all
    /// arithmetic of this crate is proved for.
    pub open spec fn wf(self) -> bool {
        -COEF_LIMIT < self.coef < COEF_LIMIT && -EXP_LIMIT <= self.exp <= EXP_LIMIT
    }

    /// The value times `10^-m`, for an `m` no larger than the exponent.
    pub open spec fn scaled(self, m: int) -> int {
        self.coef * pow10((self.exp - m) as nat)
    }

    /// The common scale at which two numbers are compared.
    pub open spec fn common_exp(a: Decimal, b: Decimal) -> int {
        if a.exp <= b.exp {
            a.exp as int
        } else {
            b.exp as int
        }
    }

    /// `self < other` as numbers.
    pub open spec fn lt(self, other: Decimal) -> bool {
        let m = Decimal::common_exp(self, other);
        self.scaled(m) < other.scaled(m)
    }

    /// `self == other` as numbers.
    pub open spec fn same_value(self, other: Decimal) -> bool {
        let m = Decimal::common_exp(self, other);
        self.scaled(m) == other.scaled(m)
    }

    /// `self <= other` as numbers.
    pub open spec fn le(self, other: Decimal) -> bool {
        self.lt(other) || self.same_value(other)
    }

    /// Builds the number `coef * 10^exp`.
    pub fn new(coef: i64, exp: i32) -> (r: Decimal)
        ensures
            r.coef == coef,
            r.exp == exp,
    {
        Decimal { coef, exp }
    }

    /// The integer `n`.
    pub fn from_int(n: i32) -> (r: Decimal)
        ensures
            r.coef == n,
            r.exp == 0,
            r.wf(),
    {
        Decimal { coef: n as i64, exp: 0 }
    }

    /// The number with the opposite sign.
    pub fn neg(self) -> (r: Decimal)
        requires
            self.wf(),
        ensures
            r.coef == -self.coef,
            r.exp == self.exp,
            r.wf(),
    {
        Decimal { coef: -self.coef, exp: self.exp }
    }
}

/// The decimal digits of `n`, most significant first, without leading zeros.
pub open spec fn digits_of(n: nat) -> Seq<char>
    decreases n,
{
    if n < 10 {
        seq![digit_char(n)]
    } else {
        digits_of(n / 10).push(digit_char(n % 10))
    }
}

pub open spec fn digit_char(d: nat) -> char {
    ((d + 48) as u8) as char
}

pub open spec fn is_digit(c: char) -> bool {
    '0' <= c <= '9'
}

pub open spec fn all_digits(s: Seq<char>) -> bool {
    forall|i: int| 0 <= i < s.len() ==> is_digit(#[trigger] s[i])
}

/// `n` zeros.
pub open spec fn zeros(n: nat) -> Seq<char> {
    Seq::new(n, |i: int| '0')
}

/// The decimal text of an integer, with a leading `-` when it is negative.
pub open spec fn int_text(x: int) -> Seq<char> {
    if x < 0 {
        seq!['-'] + digits_of((-x) as nat)
    } else {
        digits_of(x as nat)
    }
}

/// The digits of `|coef|`, padded with leading zeros so that at least one
/// digit stands before the decimal point once `k` digits are moved after it.
pub open spec fn padded_digits(coef: int, k: nat) -> Seq<char> {
    let ds = digits_of(abs_int(coef) as nat);
    if ds.len() < k + 1 {
        zeros((k + 1 - ds.len()) as nat) + ds
    } else {
        ds
    }
}

/// A number in plain notation: an optional `-`, the integer digits (a zero
/// with a positive exponent is just `0`), and, for a negative exponent, a
/// `.` followed by exactly `-exp` digits.
pub open spec fn plain_text(d: Decimal) -> Seq<char> {
    let sign = if d.coef < 0 {
        seq!['-']
    } else {
        Seq::<char>::empty()
    };
    if d.exp >= 0 {
        sign + digits_of(abs_int(d.coef as int) as nat) + zeros(
            if d.coef == 0 {
                0
            } else {
                d.exp as nat
            },
        )
    } else {
        let k = (-d.exp) as nat;
        let p = padded_digits(d.coef as int, k);
        sign + p.subrange(0, p.len() - k) + seq!['.'] + p.subrange(p.len() - k, p.len() as int)
    }
}


pub proof fn lemma_digits_of(n: nat)
    ensures
        digits_of(n).len() >= 1,
        all_digits(digits_of(n)),
        n < 10 ==> digits_of(n).len() == 1,
        n >= 10 ==> digits_of(n).len() == digits_of(n / 10).len() + 1,
    decreases n,
{
    if n >= 10 {
        lemma_digits_of(n / 10);
        assert(all_digits(digits_of(n))) by {
            let s = digits_of(n);
            assert forall|i: int| 0 <= i < s.len() implies is_digit(#[trigger] s[i]) by {
                if i < s.len() - 1 {
                    assert(s[i] == digits_of(n / 10)[i]);
                }
            }
        }
    }
}

/// Appends the decimal digits of `n`.
pub fn push_digits(n: u64, out: &mut Vec<char>)
    ensures
        final(out)@ == old(out)@ + digits_of(n as nat),
    decreases n,
{
    if n >= 10 {
        push_digits(n / 10, out);
    }
    let c = ((n % 10) as u8 + 48u8) as char;
    out.push(c);
    proof {
        if n >= 10 {
            assert(digits_of(n as nat) == digits_of((n / 10) as nat).push(digit_char((n % 10) as nat)));
        }
    }
    assert(final(out)@ =~= old(out)@ + digits_of(n as nat));
}

/// Appends the text of `x`, with a `-` when it is negative.
pub fn push_int(x: i64, out: &mut Vec<char>)
    requires
        x > i64::MIN,
    ensures
        final(out)@ == old(out)@ + int_text(x as int),
{
    if x < 0 {
        out.push('-');
        push_digits((-x) as u64, out);
        assert(final(out)@ =~= old(out)@ + int_text(x as int));
    } else {
        push_digits(x as u64, out);
    }
}

/// Appends `n` copies of `c`.
pub fn push_repeated(c: char, n: usize, out: &mut Vec<char>)
    ensures
        final(out)@ == old(out)@ + Seq::new(n as nat, |i: int| c),
{
    let ghost start = out@;
    let mut i: usize = 0;
    while i < n
        invariant
            i <= n,
            out@ == start + Seq::new(i as nat, |j: int| c),
        decreases n - i,
    {
        out.push(c);
        i = i + 1;
        assert(out@ =~= start + Seq::new(i as nat, |j: int| c));
    }
}

/// Appends `s[from..to]`.
pub fn push_range(s: &Vec<char>, from: usize, to: usize, out: &mut Vec<char>)
    requires
        from <= to <= s@.len(),
    ensures
        final(out)@ == old(out)@ + s@.subrange(from as int, to as int),
{
    let ghost start = out@;
    let mut i: usize = from;
    while i < to
        invariant
            from <= i <= to <= s@.len(),
            out@ == start + s@.subrange(from as int, i as int),
        decreases to - i,
    {
        out.push(s[i]);
        i = i + 1;
        assert(out@ =~= start + s@.subrange(from as int, i as int));
    }
}

/// Relies on `String`'s `FromIterator<char>`: the string holds the characters
/// in the order given.
#[verifier::external_body]
pub(crate) fn string_from_chars(v: &Vec<char>) -> (r: String)
    ensures
        r@ == v@,
{
    v.iter().collect()
}

/// The characters of a string, in order.
pub fn chars_of(s: &str) -> (r: Vec<char>)
    ensures
        r@ == s@,
{
    broadcast use vstd::string::group_string_axioms;

    let mut it = s.chars();
    let mut out: Vec<char> = Vec::new();
    loop
        invariant
            out@ + it.remaining() == s@,
            it.obeys_prophetic_iter_laws(),
        ensures
            out@ == s@,
        decreases s@.len() - out@.len(),
    {
        match it.next() {
            Some(c) => {
                out.push(c);
                assert(out@ + it.remaining() =~= s@);
            },
            None => {
                assert(out@ =~= s@);
                break;
            },
        }
    }
    out
}

impl Decimal {
    /// The magnitude of the coefficient.
    pub fn magnitude(&self) -> (r: u64)
        requires
            self.wf(),
        ensures
            r as int == abs_int(self.coef as int),
    {
        if self.coef < 0 {
            (-self.coef) as u64
        } else {
            self.coef as u64
        }
    }

    /// The characters of the number in plain notation.
    pub fn plain_chars(&self) -> (r: Vec<char>)
        requires
            self.wf(),
        ensures
            r@ == plain_text(*self),
    {
        let mut out: Vec<char> = Vec::new();
        if self.coef < 0 {
            out.push('-');
        }
        let ghost sign = out@;
        let mut ds: Vec<char> = Vec::new();
        push_digits(self.magnitude(), &mut ds);
        assert(ds@ =~= digits_of(abs_int(self.coef as int) as nat));
        if self.exp >= 0 {
            push_range(&ds, 0, ds.len(), &mut out);
            if self.coef != 0 {
                push_repeated('0', self.exp as usize, &mut out);
            }
            assert(ds@.subrange(0, ds@.len() as int) =~= ds@);
            assert(out@ =~= plain_text(*self));
        } else {
            let k: usize = (-(self.exp as i64)) as usize;
            let mut p: Vec<char> = Vec::new();
            if ds.len() < k + 1 {
                push_repeated('0', k + 1 - ds.len(), &mut p);
            }
            push_range(&ds, 0, ds.len(), &mut p);
            assert(ds@.subrange(0, ds@.len() as int) =~= ds@);
            assert(p@ =~= padded_digits(self.coef as int, k as nat));
            let n = p.len();
            push_range(&p, 0, n - k, &mut out);
            out.push('.');
            push_range(&p, n - k, n, &mut out);
            assert(out@ =~= plain_text(*self));
        }
        out
    }
}


/// The magnitude and exponent once trailing zeros of the magnitude are moved
/// into the exponent.
pub open spec fn strip_zeros(u: nat, e: int) -> (nat, int)
    decreases u,
{
    if u != 0 && u % 10 == 0 {
        strip_zeros(u / 10, e + 1)
    } else {
        (u, e)
    }
}

/// The display text of a price. No number gives `-`. A number below one
/// tenth in magnitude is written `N\M`: `M` is its significant digits (with
/// the sign) and `N` counts the zeros before them, the one before the point
/// included. Any other number is written in plain notation.
pub open spec fn price_text(d: Option<Decimal>) -> Seq<char> {
    match d {
        None => seq!['-'],
        Some(d) => {
            let (u, e) = strip_zeros(abs_int(d.coef as int) as nat, d.exp as int);
            let di = digits_of(u).len() as int;
            if e + di < 0 {
                (if d.coef < 0 {
                    seq!['-']
                } else {
                    Seq::<char>::empty()
                }) + int_text(-(e + di)) + seq!['\\'] + digits_of(u)
            } else {
                plain_text(d)
            }
        },
    }
}

/// Formats a price for display (see `price_text`).
#[verifier::rlimit(40)]
pub fn fmt_dec(d: Option<Decimal>) -> (r: String)
    requires
        d matches Some(x) ==> x.wf(),
    ensures
        r@ == price_text(d),
        r@ == seq!['-'] || is_plain_number(r@) || is_compact(r@),
{
    proof {
        lemma_price_text_shape(d);
    }
    let mut out: Vec<char> = Vec::new();
    match d {
        None => {
            out.push('-');
            assert(out@ =~= price_text(d));
        },
        Some(x) => {
            let mag = x.magnitude();
            let mut u: u64 = mag;
            let mut e: i64 = x.exp as i64;
            while u != 0 && u % 10 == 0
                invariant
                    strip_zeros(u as nat, e as int) == strip_zeros(mag as nat, x.exp as int),
                    u <= mag,
                    e - x.exp <= mag - u,
                    e >= x.exp,
                    mag < COEF_LIMIT,
                    -EXP_LIMIT <= x.exp <= EXP_LIMIT,
                decreases u,
            {
                u = u / 10;
                e = e + 1;
            }
            let mut ds: Vec<char> = Vec::new();
            push_digits(u, &mut ds);
            proof {
                lemma_digits_of(u as nat);
            }
            assert(ds@.len() <= 20) by {
                lemma_digit_count_bound(u as nat);
            }
            let di = ds.len() as i64;
            if e + di < 0 {
                if x.coef < 0 {
                    out.push('-');
                }
                push_int(-(e + di), &mut out);
                out.push('\\');
                push_digits(u, &mut out);
                assert(out@ =~= price_text(d));
            } else {
                out = x.plain_chars();
            }
        },
    }
    string_from_chars(&out)
}

pub proof fn lemma_digit_count_bound(n: nat)
    requires
        n < COEF_LIMIT,
    ensures
        digits_of(n).len() <= 19,
{
    lemma_pow10_18();
    lemma_digit_count_le(n, 18);
}

/// A number below `10^k` has at most `k` digits (or one, when `k` is zero).
pub proof fn lemma_digit_count_le(n: nat, k: nat)
    requires
        n < pow10(k),
    ensures
        digits_of(n).len() <= k + 1,
        k >= 1 ==> digits_of(n).len() <= k,
    decreases k,
{
    lemma_digits_of(n);
    if n >= 10 && k > 0 {
        lemma_digit_count_le(n / 10, (k - 1) as nat);
    }
}


pub proof fn lemma_pow10_18()
    ensures
        pow10(18) == COEF_LIMIT,
{
    reveal_with_fuel(pow10, 19);
}


pub proof fn lemma_pow10_positive(n: nat)
    ensures
        pow10(n) >= 1,
    decreases n,
{
    if n > 0 {
        lemma_pow10_positive((n - 1) as nat);
    }
}

pub proof fn lemma_pow10_monotone(a: nat, b: nat)
    requires
        a <= b,
    ensures
        pow10(a) <= pow10(b),
    decreases b,
{
    lemma_pow10_positive(b);
    if a < b {
        lemma_pow10_monotone(a, (b - 1) as nat);
    }
}

pub proof fn lemma_pow10_add(a: nat, b: nat)
    ensures
        pow10(a + b) == pow10(a) * pow10(b),
    decreases b,
{
    if b > 0 {
        lemma_pow10_add(a, (b - 1) as nat);
        assert(pow10(a + b) == 10 * pow10((a + b - 1) as nat));
        assert(pow10(a) * pow10(b) == pow10(a) * (10 * pow10((b - 1) as nat)));
        assert(pow10(a) * (10 * pow10((b - 1) as nat)) == 10 * (pow10(a) * pow10((b - 1) as nat)))
            by (nonlinear_arith);
    }
}

/// `10^n` as an exact 128-bit integer.
pub fn pow10_i128(n: u32) -> (r: i128)
    requires
        n <= 36,
    ensures
        r == pow10(n as nat),
{
    let mut r: i128 = 1;
    let mut i: u32 = 0;
    while i < n
        invariant
            i <= n <= 36,
            r == pow10(i as nat),
        decreases n - i,
    {
        proof {
            lemma_pow10_monotone((i + 1) as nat, 36);
            reveal_with_fuel(pow10, 37);
        }
        r = r * 10;
        i = i + 1;
    }
    r
}

/// The sign of `x`: -1, 0 or 1.
pub open spec fn sign_of(x: int) -> int {
    if x < 0 {
        -1
    } else if x == 0 {
        0
    } else {
        1
    }
}

/// The sign of `c * 10^k - x`.
fn cmp_scaled(c: i64, k: u32, x: i64) -> (r: i8)
    requires
        -COEF_LIMIT < c < COEF_LIMIT,
        -COEF_LIMIT < x < COEF_LIMIT,
    ensures
        r as int == sign_of(c * pow10(k as nat) - x),
{
    if k >= 19 {
        proof {
            lemma_pow10_monotone(19, k as nat);
            reveal_with_fuel(pow10, 20);
            let p = pow10(k as nat);
            if c > 0 {
                assert(c * p >= p) by (nonlinear_arith)
                    requires c >= 1, p >= 1;
            } else if c < 0 {
                assert(c * p <= -p) by (nonlinear_arith)
                    requires c <= -1, p >= 1;
            }
        }
        if c == 0 {
            if x > 0 {
                -1
            } else if x == 0 {
                0
            } else {
                1
            }
        } else if c > 0 {
            1
        } else {
            -1
        }
    } else {
        let p = pow10_i128(k);
        proof {
            lemma_pow10_monotone(k as nat, 18);
            lemma_pow10_18();
            lemma_pow10_positive(k as nat);
            assert(-COEF_LIMIT * COEF_LIMIT <= c * p <= COEF_LIMIT * COEF_LIMIT) by (nonlinear_arith)
                requires -COEF_LIMIT < c < COEF_LIMIT, 1 <= p <= COEF_LIMIT;
        }
        let v: i128 = c as i128 * p;
        if v > x as i128 {
            1
        } else if v == x as i128 {
            0
        } else {
            -1
        }
    }
}

impl Decimal {
    /// Compares two numbers by value: -1 when `self` is smaller, 0 when
    /// they are equal, 1 when it is larger.
    pub fn compare(&self, other: &Decimal) -> (r: i8)
        requires
            self.wf(),
            other.wf(),
        ensures
            r == -1 <==> self.lt(*other),
            r == 0 <==> self.same_value(*other),
            r == 1 <==> other.lt(*self),
            -1 <= r <= 1,
    {
        if self.exp <= other.exp {
            let k = (other.exp as i64 - self.exp as i64) as u32;
            assert(self.scaled(self.exp as int) == self.coef);
            let c = cmp_scaled(other.coef, k, self.coef);
            -c
        } else {
            let k = (self.exp as i64 - other.exp as i64) as u32;
            assert(other.scaled(other.exp as int) == other.coef);
            cmp_scaled(self.coef, k, other.coef)
        }
    }

    /// `self < other` as numbers.
    pub fn less_than(&self, other: &Decimal) -> (r: bool)
        requires
            self.wf(),
            other.wf(),
        ensures
            r == self.lt(*other),
    {
        self.compare(other) == -1
    }

    /// `self == other` as numbers.
    pub fn value_eq(&self, other: &Decimal) -> (r: bool)
        requires
            self.wf(),
            other.wf(),
        ensures
            r == self.same_value(*other),
    {
        self.compare(other) == 0
    }
}


impl Decimal {
    /// A value of the 64-bit decimal format: at most 16 digits, and an
    /// exponent in `[-398, 369]`.
    pub open spec fn is_dec64(self) -> bool {
        -10_000_000_000_000_000 < self.coef < 10_000_000_000_000_000 && -398 <= self.exp <= 369
    }
}

/// Scaling to a finer exponent multiplies by a power of ten.
pub proof fn lemma_scaled_shift(a: Decimal, m: int, c: int)
    requires
        m <= c <= a.exp,
    ensures
        a.scaled(m) == a.scaled(c) * pow10((c - m) as nat),
{
    lemma_pow10_add((a.exp - c) as nat, (c - m) as nat);
    assert(((a.exp - c) as nat + (c - m) as nat) as nat == (a.exp - m) as nat);
    let x = pow10((a.exp - c) as nat);
    let y = pow10((c - m) as nat);
    assert(a.coef * (x * y) == (a.coef * x) * y) by (nonlinear_arith);
}

/// Two numbers compare as their values scaled to any exponent no larger
/// than both of theirs.
pub proof fn lemma_compare_at(a: Decimal, b: Decimal, m: int)
    requires
        m <= a.exp,
        m <= b.exp,
    ensures
        a.lt(b) <==> a.scaled(m) < b.scaled(m),
        a.same_value(b) <==> a.scaled(m) == b.scaled(m),
        a.le(b) <==> a.scaled(m) <= b.scaled(m),
{
    let c = Decimal::common_exp(a, b);
    lemma_scaled_shift(a, m, c);
    lemma_scaled_shift(b, m, c);
    let p = pow10((c - m) as nat);
    lemma_pow10_positive((c - m) as nat);
    let x = a.scaled(c);
    let y = b.scaled(c);
    assert(x < y <==> x * p < y * p) by (nonlinear_arith)
        requires p >= 1;
    assert(x == y <==> x * p == y * p) by (nonlinear_arith)
        requires p >= 1;
}

/// The order of values is transitive.
pub proof fn lemma_le_trans(a: Decimal, b: Decimal, c: Decimal)
    requires
        a.le(b),
        b.le(c),
    ensures
        a.le(c),
{
    let m = if a.exp <= b.exp && a.exp <= c.exp {
        a.exp as int
    } else if b.exp <= c.exp {
        b.exp as int
    } else {
        c.exp as int
    };
    lemma_compare_at(a, b, m);
    lemma_compare_at(b, c, m);
    lemma_compare_at(a, c, m);
}

/// Negation negates the scaled value.
pub proof fn lemma_scaled_neg(a: Decimal, m: int)
    requires
        m <= a.exp,
        a.wf(),
    ensures
        (Decimal { coef: (-a.coef) as i64, exp: a.exp }).scaled(m) == -a.scaled(m),
{
    let p = pow10((a.exp - m) as nat);
    assert((-a.coef) * p == -(a.coef * p)) by (nonlinear_arith);
}


/// At its own exponent, a number scales to its coefficient.
pub proof fn lemma_scaled_self(a: Decimal)
    ensures
        a.scaled(a.exp as int) == a.coef,
{
    assert(pow10(0) == 1);
}


/// The number with the trailing zeros of its coefficient moved into the
/// exponent (zero stays as it is).
pub open spec fn normalized(d: Decimal) -> Decimal {
    let (u, e) = strip_zeros(abs_int(d.coef as int) as nat, d.exp as int);
    Decimal {
        coef: (if d.coef < 0 {
            -(u as int)
        } else {
            u as int
        }) as i64,
        exp: e as i32,
    }
}

pub proof fn lemma_strip_zeros(u: nat, e: int)
    ensures
        strip_zeros(u, e).0 <= u,
        e <= strip_zeros(u, e).1 <= e + u,
        u == 0 ==> strip_zeros(u, e) == (u, e),
        u != 0 ==> strip_zeros(u, e).0 != 0,
    decreases u,
{
    if u != 0 && u % 10 == 0 {
        lemma_strip_zeros(u / 10, e + 1);
    }
}

impl Decimal {
    /// The same number with the trailing zeros of its coefficient moved into
    /// the exponent.
    pub fn normalize(&self) -> (r: Decimal)
        requires
            self.wf(),
            self.exp <= EXP_LIMIT - 20,
        ensures
            r == normalized(*self),
            r.wf(),
    {
        let mag = self.magnitude();
        let mut u: u64 = mag;
        let mut e: i64 = self.exp as i64;
        while u != 0 && u % 10 == 0
            invariant
                strip_zeros(u as nat, e as int) == strip_zeros(mag as nat, self.exp as int),
                u <= mag,
                e - self.exp <= mag - u,
                e >= self.exp,
                mag < COEF_LIMIT,
                -EXP_LIMIT <= self.exp <= EXP_LIMIT - 20,
            decreases u,
        {
            u = u / 10;
            e = e + 1;
        }
        proof {
            lemma_strip_zeros(u as nat, e as int);
            lemma_pow10_18();
            lemma_digit_count_le(mag as nat, 18);
            lemma_strip_count(mag as nat, self.exp as int);
        }
        let c: i64 = if self.coef < 0 {
            -(u as i64)
        } else {
            u as i64
        };
        Decimal { coef: c, exp: e as i32 }
    }
}

/// Stripping moves at most as many zeros as the number has digits.
pub proof fn lemma_strip_count(u: nat, e: int)
    ensures
        strip_zeros(u, e).1 <= e + digits_of(u).len() - 1,
    decreases u,
{
    lemma_digits_of(u);
    if u != 0 && u % 10 == 0 {
        lemma_strip_count(u / 10, e + 1);
    }
}


/// Appends the characters of `s`.
pub fn push_str(s: &str, out: &mut Vec<char>)
    ensures
        final(out)@ == old(out)@ + s@,
{
    let cs = chars_of(s);
    push_range(&cs, 0, cs.len(), out);
    assert(cs@.subrange(0, cs@.len() as int) =~= s@);
}


/// Whether two texts are equal.
pub fn text_eq(a: &str, b: &str) -> (r: bool)
    ensures
        r == (a@ == b@),
{
    let x = chars_of(a);
    let y = chars_of(b);
    if x.len() != y.len() {
        assert(x@.len() != y@.len());
        return false;
    }
    let mut i: usize = 0;
    while i < x.len()
        invariant
            i <= x@.len() == y@.len(),
            x@ == a@,
            y@ == b@,
            x@.subrange(0, i as int) == y@.subrange(0, i as int),
        decreases x.len() - i,
    {
        if x[i] != y[i] {
            assert(a@[i as int] != b@[i as int]);
            return false;
        }
        assert(x@.subrange(0, i + 1) =~= x@.subrange(0, i as int).push(x@[i as int]));
        assert(y@.subrange(0, i + 1) =~= y@.subrange(0, i as int).push(y@[i as int]));
        i = i + 1;
    }
    assert(x@ =~= x@.subrange(0, i as int));
    assert(y@ =~= y@.subrange(0, i as int));
    true
}


/// A number in plain notation: digits, at most one `.`, and a `-` only in
/// front.
pub open spec fn is_plain_number(t: Seq<char>) -> bool {
    &&& t.len() > 0
    &&& forall|i: int| 0 <= i < t.len() ==> is_digit(#[trigger] t[i]) || t[i] == '.' || (i == 0 && t[i] == '-')
    &&& forall|i: int, j: int| 0 <= i < t.len() && 0 <= j < t.len() && #[trigger] t[i] == '.' && #[trigger] t[j] == '.' ==> i == j
}

/// Digits, with an optional `-` in front.
pub open spec fn is_signed_number(t: Seq<char>) -> bool {
    (t.len() > 0 && all_digits(t)) || (t.len() > 1 && t[0] == '-' && all_digits(t.drop_first()))
}

/// The compact form `N\\M`, with an optional `-` in front: a count of
/// zeros, a backslash, and the significant digits.
pub open spec fn is_compact(t: Seq<char>) -> bool {
    exists|k: int|
        0 < k < t.len() - 1 && #[trigger] t[k] == '\\' && is_signed_number(t.subrange(0, k)) && all_digits(
            t.subrange(k + 1, t.len() as int),
        )
}

/// The text of a price is the placeholder `-`, a number in plain notation,
/// or the compact form.
#[verifier::rlimit(40)]
pub proof fn lemma_price_text_shape(d: Option<Decimal>)
    requires
        d matches Some(x) ==> x.wf(),
    ensures
        price_text(d) == seq!['-'] || is_plain_number(price_text(d)) || is_compact(price_text(d)),
{
    match d {
        None => {},
        Some(x) => {
            let (u, e) = strip_zeros(abs_int(x.coef as int) as nat, x.exp as int);
            let di = digits_of(u).len() as int;
            lemma_digits_of(u);
            if e + di < 0 {
                let sign = if x.coef < 0 {
                    seq!['-']
                } else {
                    Seq::<char>::empty()
                };
                let n = (-(e + di)) as nat;
                let a = digits_of(n);
                let b = digits_of(u);
                lemma_digits_of(n);
                assert(int_text(-(e + di)) == a);
                let t = sign + a + seq!['\\'] + b;
                let k = sign.len() + a.len();
                assert(t.subrange(0, k as int) =~= sign + a);
                assert(t.subrange(k as int + 1, t.len() as int) =~= b);
                assert(t[k as int] == '\\');
                if x.coef < 0 {
                    assert((sign + a).drop_first() =~= a);
                }
                assert(is_compact(t));
            } else {
                lemma_plain_text_shape(x);
            }
        },
    }
}

#[verifier::rlimit(40)]
pub proof fn lemma_plain_text_shape(x: Decimal)
    requires
        x.wf(),
    ensures
        is_plain_number(plain_text(x)),
{
    let sign = if x.coef < 0 {
        seq!['-']
    } else {
        Seq::<char>::empty()
    };
    let ds = digits_of(abs_int(x.coef as int) as nat);
    lemma_digits_of(abs_int(x.coef as int) as nat);
    let t = plain_text(x);
    if x.exp >= 0 {
        let z = zeros(
            if x.coef == 0 {
                0
            } else {
                x.exp as nat
            },
        );
        assert(t == sign + ds + z);
        assert forall|i: int| 0 <= i < t.len() implies is_digit(#[trigger] t[i]) || (i == 0 && t[i] == '-') by {
            if i >= sign.len() + ds.len() {
                assert(t[i] == z[i - sign.len() - ds.len()]);
            } else if i >= sign.len() {
                assert(t[i] == ds[i - sign.len()]);
            }
        }
    } else {
        let k = (-x.exp) as nat;
        let p = padded_digits(x.coef as int, k);
        assert(all_digits(p)) by {
            if ds.len() < k + 1 {
                let z = zeros((k + 1 - ds.len()) as nat);
                assert forall|i: int| 0 <= i < p.len() implies is_digit(#[trigger] p[i]) by {
                    if i >= z.len() {
                        assert(p[i] == ds[i - z.len()]);
                    }
                }
            }
        }
        assert(p.len() >= k + 1);
        let h = p.subrange(0, p.len() - k);
        let f = p.subrange(p.len() - k, p.len() as int);
        assert(t == sign + h + seq!['.'] + f);
        let pos = sign.len() + h.len();
        assert forall|i: int| 0 <= i < t.len() implies (is_digit(#[trigger] t[i]) && i != pos) || (i == pos
            && t[i] == '.') || (i == 0 && t[i] == '-') by {
            if i > pos {
                assert(t[i] == f[i - pos - 1]);
                assert(f[i - pos - 1] == p[p.len() - k + i - pos - 1]);
            } else if i < pos && i >= sign.len() {
                assert(t[i] == h[i - sign.len()]);
                assert(h[i - sign.len()] == p[i - sign.len()]);
            }
        }
    }
}


/// The value of a digit string.
pub open spec fn digits_value(s: Seq<char>) -> int
    decreases s.len(),
{
    if s.len() == 0 {
        0
    } else {
        digits_value(s.drop_last()) * 10 + (s.last() as int - '0' as int)
    }
}

pub proof fn lemma_digits_value_nonneg(s: Seq<char>)
    requires
        all_digits(s),
    ensures
        digits_value(s) >= 0,
        s.len() > 0 ==> digits_value(s) >= digits_value(s.drop_last()),
    decreases s.len(),
{
    if s.len() > 0 {
        assert(all_digits(s.drop_last())) by {
            assert forall|i: int| 0 <= i < s.drop_last().len() implies is_digit(
                #[trigger] s.drop_last()[i],
            ) by {
                assert(s.drop_last()[i] == s[i]);
            }
        }
        lemma_digits_value_nonneg(s.drop_last());
        assert(is_digit(s[s.len() - 1]));
    }
}


/// The text of a number written plainly: an optional `-`, the digits
/// before the point and, when there are any after it, a `.` and those.
pub open spec fn plain_parts_text(neg: bool, a: Seq<char>, f: Seq<char>) -> Seq<char> {
    (if neg {
        seq!['-']
    } else {
        Seq::<char>::empty()
    }) + a + (if f.len() > 0 {
        seq!['.'] + f
    } else {
        Seq::<char>::empty()
    })
}


/// Reading the digits of a number gives the number back.
pub proof fn lemma_digits_value_of(n: nat)
    ensures
        digits_value(digits_of(n)) == n,
    decreases n,
{
    let s = digits_of(n);
    if n >= 10 {
        lemma_digits_value_of(n / 10);
        assert(s.drop_last() =~= digits_of(n / 10));
        assert(s.last() == digit_char(n % 10));
        assert(digits_value(s) == digits_value(s.drop_last()) * 10 + (s.last() as int - '0' as int));
    } else {
        assert(s.drop_last() =~= Seq::<char>::empty());
        assert(s.last() == digit_char(n));
        assert(digits_value(s) == digits_value(s.drop_last()) * 10 + (s.last() as int - '0' as int));
    }
    assert(digit_char(n % 10) as int - '0' as int == n % 10);
}

/// Leading zeros do not change the value of a digit string.
pub proof fn lemma_digits_value_zeros(m: nat, s: Seq<char>)
    ensures
        digits_value(zeros(m) + s) == digits_value(s),
    decreases s.len(),
{
    if s.len() == 0 {
        assert(zeros(m) + s =~= zeros(m));
        lemma_digits_value_all_zeros(m);
    } else {
        lemma_digits_value_zeros(m, s.drop_last());
        assert((zeros(m) + s).drop_last() =~= zeros(m) + s.drop_last());
    }
}

pub proof fn lemma_digits_value_all_zeros(m: nat)
    ensures
        digits_value(zeros(m)) == 0,
    decreases m,
{
    if m > 0 {
        lemma_digits_value_all_zeros((m - 1) as nat);
        assert(zeros(m).drop_last() =~= zeros((m - 1) as nat));
    }
}

/// Whether a number is written in plain notation (not in the compact form).
pub open spec fn shows_plain(d: Decimal) -> bool {
    let (u, e) = strip_zeros(abs_int(d.coef as int) as nat, d.exp as int);
    e + digits_of(u).len() >= 0
}


/// Trailing zeros multiply the value of a digit string by a power of ten.
pub proof fn lemma_digits_value_trailing_zeros(s: Seq<char>, m: nat)
    ensures
        digits_value(s + zeros(m)) == digits_value(s) * pow10(m),
    decreases m,
{
    if m == 0 {
        assert(s + zeros(0) =~= s);
    } else {
        lemma_digits_value_trailing_zeros(s, (m - 1) as nat);
        assert((s + zeros(m)).drop_last() =~= s + zeros((m - 1) as nat));
        assert((s + zeros(m)).last() == '0');
        let v = digits_value(s);
        let p = pow10((m - 1) as nat);
        assert(v * p * 10 == v * (10 * p)) by (nonlinear_arith);
    }
}

/// The digits of a positive number times a power of ten are its digits
/// followed by that many zeros.
pub proof fn lemma_digits_of_shifted(n: nat, m: nat)
    requires
        n >= 1,
    ensures
        digits_of((n * pow10(m)) as nat) == digits_of(n) + zeros(m),
    decreases m,
{
    if m == 0 {
        assert(digits_of(n) + zeros(0) =~= digits_of(n));
    } else {
        lemma_digits_of_shifted(n, (m - 1) as nat);
        let q = n * pow10((m - 1) as nat);
        lemma_pow10_positive((m - 1) as nat);
        assert(q >= 1) by (nonlinear_arith)
            requires n >= 1, pow10((m - 1) as nat) >= 1, q == n * pow10((m - 1) as nat);
        assert(n * pow10(m) == q * 10) by (nonlinear_arith)
            requires q == n * pow10((m - 1) as nat), pow10(m) == 10 * pow10((m - 1) as nat);
        let x = (q * 10) as nat;
        assert(x / 10 == q && x % 10 == 0);
        assert(digits_of(x) == digits_of(q as nat).push(digit_char(0)));
        assert(digits_of(n) + zeros(m) =~= (digits_of(n) + zeros((m - 1) as nat)).push('0'));
    }
}

} // verus!
