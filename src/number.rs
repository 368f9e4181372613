use vstd::prelude::*;

verus! {

/// The largest magnitude of a numerator or a denominator.
pub const NUM_MAX: i64 = 0x7fff_ffff_ffff_ffff;

/// Greatest common divisor, by Euclid's algorithm.
pub open spec fn gcd(a: nat, b: nat) -> nat
    decreases b,
{
    if b == 0 {
        a
    } else {
        gcd(b, a % b)
    }
}

pub open spec fn abs(n: int) -> nat {
    if n < 0 {
        (-n) as nat
    } else {
        n as nat
    }
}

/// The fraction `n / d` (with `d > 0`) divided through by the greatest
/// common divisor of its two parts.
pub open spec fn reduce(n: int, d: int) -> (int, int) {
    let g = gcd(abs(n), abs(d));
    if g == 0 {
        (n, d)
    } else if n < 0 {
        (-((abs(n) / g) as int), abs(d) as int / g as int)
    } else {
        ((abs(n) / g) as int, abs(d) as int / g as int)
    }
}

pub open spec fn in_range(n: int, d: int) -> bool {
    -(NUM_MAX as int) <= n <= NUM_MAX as int && 1 <= d <= NUM_MAX as int
}

/// The number `n / d` in lowest terms, when both parts fit.
pub open spec fn make(n: int, d: int) -> Option<(int, int)> {
    let r = reduce(n, d);
    if in_range(r.0, r.1) {
        Some(r)
    } else {
        None
    }
}

/// A number of the language: an exact fraction `num / den` with a positive
/// denominator. Arithmetic that leaves the range of the two parts fails
/// instead of rounding.
#[derive(Debug, Clone, Copy, PartialEq, Eq, Structural)]
pub struct Number {
    pub num: i64,
    pub den: i64,
}

pub open spec fn add_spec(a: (int, int), b: (int, int)) -> Option<(int, int)> {
    make(a.0 * b.1 + b.0 * a.1, a.1 * b.1)
}

pub open spec fn sub_spec(a: (int, int), b: (int, int)) -> Option<(int, int)> {
    make(a.0 * b.1 - b.0 * a.1, a.1 * b.1)
}

pub open spec fn mul_spec(a: (int, int), b: (int, int)) -> Option<(int, int)> {
    make(a.0 * b.0, a.1 * b.1)
}

/// Division by a non-zero number.
pub open spec fn div_spec(a: (int, int), b: (int, int)) -> Option<(int, int)> {
    if b.0 < 0 {
        make(-(a.0 * b.1), a.1 * abs(b.0))
    } else {
        make(a.0 * b.1, a.1 * b.0)
    }
}

/// `a < b` as fractions with positive denominators.
pub open spec fn lt_spec(a: (int, int), b: (int, int)) -> bool {
    a.0 * b.1 < b.0 * a.1
}

/// `a == b` as fractions with positive denominators.
pub open spec fn eq_spec(a: (int, int), b: (int, int)) -> bool {
    a.0 * b.1 == b.0 * a.1
}

pub open spec fn digit_char(d: nat) -> char {
    if d == 0 {
        '0'
    } else if d == 1 {
        '1'
    } else if d == 2 {
        '2'
    } else if d == 3 {
        '3'
    } else if d == 4 {
        '4'
    } else if d == 5 {
        '5'
    } else if d == 6 {
        '6'
    } else if d == 7 {
        '7'
    } else if d == 8 {
        '8'
    } else {
        '9'
    }
}

/// The decimal digits of `q`, most significant first.
pub open spec fn digits_of(q: nat) -> Seq<char>
    decreases q,
{
    if q < 10 {
        seq![digit_char(q)]
    } else {
        digits_of(q / 10) + seq![digit_char(q % 10)]
    }
}

/// The first `k` digits after the point of the fraction `r / d` (`r < d`),
/// stopping early where the expansion ends.
pub open spec fn frac_digits(r: nat, d: nat, k: nat) -> Seq<char>
    decreases k,
{
    if k == 0 || r == 0 || d == 0 {
        Seq::empty()
    } else {
        seq![digit_char((r * 10) / d)] + frac_digits((r * 10) % d, d, (k - 1) as nat)
    }
}

/// How many digits after the point a number is written with, at most.
pub const FRAC_DIGITS: u64 = 16;

/// A number written out: an integer as its digits; otherwise the integer
/// part, a point and at most `k` digits of the fraction, cut off (not
/// rounded).
pub open spec fn number_text_digits(n: int, d: int, k: nat) -> Seq<char> {
    let sign: Seq<char> = if n < 0 {
        seq!['-']
    } else {
        Seq::empty()
    };
    let q = abs(n) / abs(d);
    let r = abs(n) % abs(d);
    if d <= 0 {
        Seq::empty()
    } else if r == 0 {
        sign + digits_of(q)
    } else {
        sign + digits_of(q) + seq!['.'] + frac_digits(r, abs(d), k)
    }
}

/// How a number is printed, with at most `FRAC_DIGITS` digits after the
/// point.
pub open spec fn number_text(n: int, d: int) -> Seq<char> {
    number_text_digits(n, d, FRAC_DIGITS as nat)
}

impl Number {
    pub open spec fn wf(self) -> bool {
        in_range(self.num as int, self.den as int)
    }

    /// The fraction that the number stands for.
    pub open spec fn frac(self) -> (int, int) {
        (self.num as int, self.den as int)
    }

    pub open spec fn from_pair(p: (int, int)) -> Number {
        Number { num: p.0 as i64, den: p.1 as i64 }
    }

    /// The integer `n`.
    pub fn from_int(n: i64) -> (r: Number)
        requires
            n >= -NUM_MAX,
        ensures
            r.wf(),
            r.frac() == (n as int, 1int),
    {
        Number { num: n, den: 1 }
    }

    pub fn is_zero(&self) -> (r: bool)
        ensures
            r == (self.num == 0),
    {
        self.num == 0
    }

    /// The fraction `n / d` in lowest terms, when it fits.
    pub fn normalize(n: i128, d: i128) -> (r: Option<Number>)
        requires
            -0x7fff_ffff_ffff_ffff_ffff_ffff_ffff_ffff <= n,
            1 <= d,
        ensures
            match make(n as int, d as int) {
                Some(p) => r == Some(Number::from_pair(p)) && r.unwrap().wf(),
                None => r.is_none(),
            },
    {
        let an: u128 = if n < 0 {
            (-n) as u128
        } else {
            n as u128
        };
        let ad: u128 = d as u128;
        let g = gcd_exec(an, ad);
        proof { lemma_gcd_positive(an as nat, ad as nat); }
        let qn: u128 = an / g;
        let qd: u128 = ad / g;
        if qn > NUM_MAX as u128 || qd > NUM_MAX as u128 || qd < 1 {
            return None;
        }
        let rn: i64 = if n < 0 {
            -(qn as i64)
        } else {
            qn as i64
        };
        Some(Number { num: rn, den: qd as i64 })
    }

    pub fn add(&self, o: &Number) -> (r: Option<Number>)
        requires
            self.wf(),
            o.wf(),
        ensures
            match add_spec(self.frac(), o.frac()) {
                Some(p) => r == Some(Number::from_pair(p)) && r.unwrap().wf(),
                None => r.is_none(),
            },
    {
        let (a, b, c, d) = (self.num as i128, self.den as i128, o.num as i128, o.den as i128);
        proof {
            lemma_product_bounds(a as int, d as int, c as int, b as int);
            lemma_product_bounds(b as int, d as int, b as int, d as int);
            lemma_positive_product(b as int, d as int);
        }
        Number::normalize(a * d + c * b, b * d)
    }

    pub fn sub(&self, o: &Number) -> (r: Option<Number>)
        requires
            self.wf(),
            o.wf(),
        ensures
            match sub_spec(self.frac(), o.frac()) {
                Some(p) => r == Some(Number::from_pair(p)) && r.unwrap().wf(),
                None => r.is_none(),
            },
    {
        let (a, b, c, d) = (self.num as i128, self.den as i128, o.num as i128, o.den as i128);
        proof {
            lemma_product_bounds(a as int, d as int, c as int, b as int);
            lemma_product_bounds(b as int, d as int, b as int, d as int);
            lemma_positive_product(b as int, d as int);
        }
        Number::normalize(a * d - c * b, b * d)
    }

    pub fn mul(&self, o: &Number) -> (r: Option<Number>)
        requires
            self.wf(),
            o.wf(),
        ensures
            match mul_spec(self.frac(), o.frac()) {
                Some(p) => r == Some(Number::from_pair(p)) && r.unwrap().wf(),
                None => r.is_none(),
            },
    {
        let (a, b, c, d) = (self.num as i128, self.den as i128, o.num as i128, o.den as i128);
        proof {
            lemma_product_bounds(a as int, c as int, b as int, d as int);
            lemma_positive_product(b as int, d as int);
        }
        Number::normalize(a * c, b * d)
    }

    /// Division; the divisor must not be zero.
    pub fn div(&self, o: &Number) -> (r: Option<Number>)
        requires
            self.wf(),
            o.wf(),
            o.num != 0,
        ensures
            match div_spec(self.frac(), o.frac()) {
                Some(p) => r == Some(Number::from_pair(p)) && r.unwrap().wf(),
                None => r.is_none(),
            },
    {
        let (a, b, c, d) = (self.num as i128, self.den as i128, o.num as i128, o.den as i128);
        if c < 0 {
            proof {
                lemma_product_bounds(a as int, d as int, b as int, -c as int);
                lemma_positive_product(b as int, -c as int);
            }
            Number::normalize(-(a * d), b * (-c))
        } else {
            proof {
                lemma_product_bounds(a as int, d as int, b as int, c as int);
                lemma_positive_product(b as int, c as int);
            }
            Number::normalize(a * d, b * c)
        }
    }

    pub fn neg(&self) -> (r: Number)
        requires
            self.wf(),
        ensures
            r.wf(),
            r.frac() == (-self.frac().0, self.frac().1),
    {
        Number { num: -self.num, den: self.den }
    }

    pub fn lt(&self, o: &Number) -> (r: bool)
        requires
            self.wf(),
            o.wf(),
        ensures
            r == lt_spec(self.frac(), o.frac()),
    {
        let (a, b, c, d) = (self.num as i128, self.den as i128, o.num as i128, o.den as i128);
        proof { lemma_product_bounds(a as int, d as int, c as int, b as int); }
        a * d < c * b
    }

    pub fn num_eq(&self, o: &Number) -> (r: bool)
        requires
            self.wf(),
            o.wf(),
        ensures
            r == eq_spec(self.frac(), o.frac()),
    {
        let (a, b, c, d) = (self.num as i128, self.den as i128, o.num as i128, o.den as i128);
        proof { lemma_product_bounds(a as int, d as int, c as int, b as int); }
        a * d == c * b
    }

    /// The number as it is printed.
    pub fn to_text(&self) -> (r: String)
        requires
            self.wf(),
        ensures
            r@ == number_text(self.num as int, self.den as int),
    {
        self.to_text_digits(FRAC_DIGITS)
    }

    /// The number with at most `k` digits after the point.
    pub fn to_text_digits(&self, k: u64) -> (r: String)
        requires
            self.wf(),
        ensures
            r@ == number_text_digits(self.num as int, self.den as int, k as nat),
    {
        let an: u64 = if self.num < 0 {
            (-self.num) as u64
        } else {
            self.num as u64
        };
        let d: u64 = self.den as u64;
        let q = an / d;
        let rem = an % d;
        let mut s = if self.num < 0 {
            String::from_str("-")
        } else {
            String::new()
        };
        proof { reveal_strlit("-"); }
        let ds = digits(q);
        s.append(ds.as_str());
        if rem != 0 {
            s.append(".");
            proof { reveal_strlit("."); }
            let fs = frac_text(rem as u128, d as u128, k);
            s.append(fs.as_str());
        }
        s
    }
}

proof fn lemma_positive_product(x: int, y: int)
    requires
        1 <= x,
        1 <= y,
    ensures
        1 <= x * y,
{
    assert(1 <= x * y) by (nonlinear_arith)
        requires 1 <= x, 1 <= y;
}

proof fn lemma_product_bounds(a: int, b: int, c: int, d: int)
    requires
        -0x7fff_ffff_ffff_ffff <= a <= 0x7fff_ffff_ffff_ffff,
        -0x7fff_ffff_ffff_ffff <= b <= 0x7fff_ffff_ffff_ffff,
        -0x7fff_ffff_ffff_ffff <= c <= 0x7fff_ffff_ffff_ffff,
        -0x7fff_ffff_ffff_ffff <= d <= 0x7fff_ffff_ffff_ffff,
    ensures
        -0x3fff_ffff_ffff_ffff_0000_0000_0000_0001 <= a * b <= 0x3fff_ffff_ffff_ffff_0000_0000_0000_0001,
        -0x3fff_ffff_ffff_ffff_0000_0000_0000_0001 <= c * d <= 0x3fff_ffff_ffff_ffff_0000_0000_0000_0001,
{
    assert(-0x3fff_ffff_ffff_ffff_0000_0000_0000_0001 <= a * b <= 0x3fff_ffff_ffff_ffff_0000_0000_0000_0001) by (nonlinear_arith)
        requires
            -0x7fff_ffff_ffff_ffff <= a <= 0x7fff_ffff_ffff_ffff,
            -0x7fff_ffff_ffff_ffff <= b <= 0x7fff_ffff_ffff_ffff;
    assert(-0x3fff_ffff_ffff_ffff_0000_0000_0000_0001 <= c * d <= 0x3fff_ffff_ffff_ffff_0000_0000_0000_0001) by (nonlinear_arith)
        requires
            -0x7fff_ffff_ffff_ffff <= c <= 0x7fff_ffff_ffff_ffff,
            -0x7fff_ffff_ffff_ffff <= d <= 0x7fff_ffff_ffff_ffff;
}

proof fn lemma_gcd_positive(a: nat, b: nat)
    requires
        b > 0,
    ensures
        gcd(a, b) > 0,
    decreases b,
{
    reveal_with_fuel(gcd, 2);
    if a % b > 0 {
        lemma_gcd_positive(b, a % b);
    } else {
        assert(gcd(b, a % b) == b);
    }
}

fn gcd_exec(a: u128, b: u128) -> (r: u128)
    ensures
        r == gcd(a as nat, b as nat),
{
    let mut x = a;
    let mut y = b;
    while y != 0
        invariant
            gcd(x as nat, y as nat) == gcd(a as nat, b as nat),
        decreases y,
    {
        let t = x % y;
        x = y;
        y = t;
    }
    x
}

fn digit_str(d: u64) -> (r: &'static str)
    requires
        d < 10,
    ensures
        r@ == seq![digit_char(d as nat)],
{
    proof {
        reveal_strlit("0");
        reveal_strlit("1");
        reveal_strlit("2");
        reveal_strlit("3");
        reveal_strlit("4");
        reveal_strlit("5");
        reveal_strlit("6");
        reveal_strlit("7");
        reveal_strlit("8");
        reveal_strlit("9");
    }
    if d == 0 {
        "0"
    } else if d == 1 {
        "1"
    } else if d == 2 {
        "2"
    } else if d == 3 {
        "3"
    } else if d == 4 {
        "4"
    } else if d == 5 {
        "5"
    } else if d == 6 {
        "6"
    } else if d == 7 {
        "7"
    } else if d == 8 {
        "8"
    } else {
        "9"
    }
}

/// The decimal digits of `q`.
pub fn digits(q: u64) -> (r: String)
    ensures
        r@ == digits_of(q as nat),
    decreases q,
{
    if q < 10 {
        String::from_str(digit_str(q))
    } else {
        let mut s = digits(q / 10);
        s.append(digit_str(q % 10));
        s
    }
}

fn frac_text(r: u128, d: u128, k: u64) -> (s: String)
    requires
        r < d,
        d <= NUM_MAX,
    ensures
        s@ == frac_digits(r as nat, d as nat, k as nat),
    decreases k,
{
    if k == 0 || r == 0 {
        String::new()
    } else {
        proof {
            let ri = r as int;
            let di = d as int;
            assert((ri * 10) / di < 10) by (nonlinear_arith)
                requires ri < di, di > 0;
        }
        let mut s = String::from_str(digit_str(((r * 10) / d) as u64));
        let rest = frac_text((r * 10) % d, d, k - 1);
        s.append(rest.as_str());
        s
    }
}

} // verus!
