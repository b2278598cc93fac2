//! Exact rational numbers in sign-magnitude form.
//!
//! The language's numeric values are exact rationals rather than machine
//! floats: every decimal literal is represented without rounding, and the
//! arithmetic of the evaluator is exact whenever the reduced result fits the
//! fixed-width fields. Operations report `None` when it does not.

use vstd::arithmetic::div_mod::*;
use vstd::prelude::*;

verus! {

/// Greatest common divisor by Euclid's rule; the reference definition for
/// the executable `gcd_u128` below.
pub open spec fn spec_gcd(a: nat, b: nat) -> nat
    decreases b,
{
    if b == 0 {
        a
    } else {
        spec_gcd(b, a % b)
    }
}

/// `spec_gcd` yields a common divisor, and a positive one when either
/// argument is positive.
pub proof fn lemma_gcd_divides(a: nat, b: nat)
    requires
        a > 0 || b > 0,
    ensures
        spec_gcd(a, b) >= 1,
        a % spec_gcd(a, b) == 0,
        b % spec_gcd(a, b) == 0,
    decreases b,
{
    let g = spec_gcd(a, b);
    if b == 0 {
        assert(a % a == 0) by {
            lemma_mod_self_0(a as int);
        }
        assert(0int % a as int == 0) by {
            lemma_small_mod(0, a);
        }
    } else {
        lemma_gcd_divides(b, a % b);
        assert(g >= 1);
        assert(b % g == 0);
        assert((a % b) % g == 0);
        let q = a as int / b as int;
        lemma_fundamental_div_mod(a as int, b as int);
        assert(a as int == b as int * q + a as int % b as int);
        assert(0int % g as int == 0) by {
            lemma_small_mod(0, g);
        }
        assert((b as int * q) % g as int == 0) by {
            lemma_mul_mod_noop_left(b as int, q, g as int);
            assert((b as int % g as int) * q == 0);
        }
        assert(a as int % g as int == 0) by {
            lemma_add_mod_noop(b as int * q, a as int % b as int, g as int);
        }
    }
}

/// Euclid's algorithm; relied on by every normalizing constructor.
pub fn gcd_u128(a: u128, b: u128) -> (g: u128)
    ensures
        g as nat == spec_gcd(a as nat, b as nat),
    decreases b,
{
    if b == 0 {
        a
    } else {
        gcd_u128(b, a % b)
    }
}

pub open spec fn int_abs(n: int) -> nat {
    if n >= 0 {
        n as nat
    } else {
        (-n) as nat
    }
}

/// The gcd used to reduce the fraction `n / d`.
pub open spec fn norm_gcd(n: int, d: int) -> nat {
    spec_gcd(int_abs(n), d as nat)
}

/// Magnitude of the numerator of `n / d` in lowest terms.
pub open spec fn norm_num(n: int, d: int) -> nat {
    int_abs(n) / norm_gcd(n, d)
}

/// Denominator of `n / d` in lowest terms.
pub open spec fn norm_den(n: int, d: int) -> nat {
    (d as nat) / norm_gcd(n, d)
}

/// Whether the value `n / d`, reduced, fits the fields of `Rational`.
pub open spec fn rat_fits(n: int, d: int) -> bool {
    norm_num(n, d) <= u64::MAX && norm_den(n, d) <= u32::MAX
}

/// The canonical `Rational` holding the value `n / d` (meaningful when
/// `rat_fits(n, d)` and `d >= 1`).
pub open spec fn spec_norm(n: int, d: int) -> Rational {
    Rational {
        negative: n < 0,
        numer: norm_num(n, d) as u64,
        denom: norm_den(n, d) as u32,
    }
}

/// The well-formed `Rational` whose value is the fraction `n / d`
/// (meaningful when the parts fit its fields, as every stored value does).
pub open spec fn rat_of_view(n: int, d: int) -> Rational {
    Rational { negative: n < 0, numer: int_abs(n) as u64, denom: d as u32 }
}

/// An exact rational number: `numer / denom`, negated when `negative`.
/// Functions of this module expect and preserve `wf()`.
#[derive(Clone, Copy, Debug, PartialEq, Eq, Structural)]
pub struct Rational {
    pub negative: bool,
    pub numer: u64,
    pub denom: u32,
}

impl Rational {
    /// The signed numerator, as a mathematical integer.
    pub open spec fn num_int(self) -> int {
        if self.negative {
            -(self.numer as int)
        } else {
            self.numer as int
        }
    }

    /// The denominator, as a mathematical integer.
    pub open spec fn den_int(self) -> int {
        self.denom as int
    }

    /// Well-formedness: a positive denominator, and no negative zero.
    pub open spec fn wf(self) -> bool {
        self.denom >= 1 && (self.negative ==> self.numer >= 1)
    }
}

/// A well-formed rational is recovered exactly from the signed fraction it
/// denotes.
pub proof fn lemma_rat_of_view(r: Rational)
    requires
        r.wf(),
    ensures
        rat_of_view(r.num_int(), r.den_int()) == r,
{
}

/// Exactness of reduction: the reduced parts scale back to the original
/// fraction, the reduced denominator is positive, and the reduced numerator
/// is positive whenever `n` is nonzero.
pub proof fn lemma_norm_props(n: int, d: int)
    requires
        d >= 1,
    ensures
        norm_gcd(n, d) >= 1,
        norm_num(n, d) * norm_gcd(n, d) == int_abs(n),
        norm_den(n, d) * norm_gcd(n, d) == d,
        norm_den(n, d) >= 1,
        n != 0 ==> norm_num(n, d) >= 1,
{
    let a = int_abs(n);
    let g = norm_gcd(n, d);
    lemma_gcd_divides(a, d as nat);
    assert(a as int % g as int == 0);
    assert(d % g as int == 0);
    lemma_fundamental_div_mod(a as int, g as int);
    lemma_fundamental_div_mod(d, g as int);
    assert(a as int == g as int * (a as int / g as int));
    assert(d == g as int * (d / g as int));
    assert(norm_num(n, d) as int == a as int / g as int);
    assert(norm_den(n, d) as int == d / g as int);
    assert(norm_num(n, d) * g == a) by (nonlinear_arith)
        requires
            norm_num(n, d) as int == a as int / g as int,
            a as int == g as int * (a as int / g as int),
    ;
    assert(norm_den(n, d) * g == d) by (nonlinear_arith)
        requires
            norm_den(n, d) as int == d / g as int,
            d == g as int * (d / g as int),
    ;
    if norm_den(n, d) == 0 {
        assert(d == 0);
        assert(false);
    }
    if n != 0 && norm_num(n, d) == 0 {
        assert(a == 0) by (nonlinear_arith)
            requires
                norm_num(n, d) * g == a,
                norm_num(n, d) == 0,
        ;
        assert(false);
    }
}

/// The value represented by `spec_norm(n, d)` is exactly `n / d`, stated by
/// cross-multiplication.
pub proof fn lemma_norm_value(n: int, d: int)
    requires
        d >= 1,
        rat_fits(n, d),
    ensures
        spec_norm(n, d).wf(),
        spec_norm(n, d).num_int() * d == n * spec_norm(n, d).den_int(),
{
    lemma_norm_props(n, d);
    let q = spec_norm(n, d);
    let g = norm_gcd(n, d);
    let nn = norm_num(n, d);
    let dd = norm_den(n, d);
    assert(q.num_int() * d == n * q.den_int()) by {
        assert(nn * g == int_abs(n));
        assert(dd * g == d);
        assert(nn as int * d == nn as int * (dd as int * g as int));
        assert(nn as int * (dd as int * g as int) == (nn as int * g as int) * dd as int)
            by (nonlinear_arith);
        if n >= 0 {
            assert(q.num_int() == nn as int);
            assert(nn as int * g as int == n);
        } else {
            assert(q.num_int() == -(nn as int));
            assert(nn as int * g as int == -n);
            assert((-(nn as int)) * d == -(nn as int * d)) by (nonlinear_arith);
            assert((-n) * dd as int == -(n * dd as int)) by (nonlinear_arith);
        }
    }
}

/// Reduce `n / d` (sign given apart) and pack it, reporting `None` when the
/// reduced parts do not fit.
fn normalize128(negative: bool, n: u128, d: u128) -> (r: Option<Rational>)
    requires
        d >= 1,
    ensures
        ({
            let sn = if negative { -(n as int) } else { n as int };
            match r {
                Some(q) => rat_fits(sn, d as int) && q.wf() && q == spec_norm(sn, d as int),
                None => !rat_fits(sn, d as int),
            }
        }),
{
    let ghost sn: int = if negative { -(n as int) } else { n as int };
    proof {
        assert(int_abs(sn) == n as nat);
        lemma_norm_props(sn, d as int);
    }
    let g = gcd_u128(n, d);
    let nn = n / g;
    let dd = d / g;
    proof {
        assert(nn as nat == norm_num(sn, d as int));
        assert(dd as nat == norm_den(sn, d as int));
    }
    if nn <= u64::MAX as u128 && dd <= u32::MAX as u128 {
        let q = Rational {
            negative: negative && nn > 0,
            numer: nn as u64,
            denom: dd as u32,
        };
        proof {
            assert((negative && nn > 0) == (sn < 0));
        }
        Some(q)
    } else {
        None
    }
}

impl Rational {
    /// The canonical rational with value `numer / denom`, negated when
    /// `negative` (a zero numerator always yields the non-negative zero).
    pub fn new(negative: bool, numer: u64, denom: u32) -> (r: Rational)
        requires
            denom >= 1,
        ensures
            r.wf(),
            r == spec_norm(
                if negative { -(numer as int) } else { numer as int },
                denom as int,
            ),
    {
        let ghost sn: int = if negative { -(numer as int) } else { numer as int };
        proof {
            lemma_norm_props(sn, denom as int);
            let g = norm_gcd(sn, denom as int);
            assert(norm_num(sn, denom as int) <= int_abs(sn)) by {
                lemma_div_is_ordered_by_denominator(int_abs(sn) as int, 1, g as int);
                lemma_div_basics(int_abs(sn) as int);
            }
            assert(norm_den(sn, denom as int) <= denom as nat) by {
                lemma_div_is_ordered_by_denominator(denom as int, 1, g as int);
                lemma_div_basics(denom as int);
            }
        }
        let r = normalize128(negative, numer as u128, denom as u128);
        r.unwrap()
    }

    /// Exact negation; never overflows, and keeps zero non-negative.
    pub fn neg(self) -> (r: Rational)
        requires
            self.wf(),
        ensures
            r.wf(),
            r.num_int() == -self.num_int(),
            r.den_int() == self.den_int(),
    {
        if self.numer == 0 {
            self
        } else {
            Rational { negative: !self.negative, numer: self.numer, denom: self.denom }
        }
    }

    /// Whether the value is zero.
    pub fn is_zero(self) -> (r: bool)
        requires
            self.wf(),
        ensures
            r == (self.num_int() == 0),
    {
        self.numer == 0
    }
}

proof fn lemma_mul_le(a: int, b: int, x: int, y: int)
    by (nonlinear_arith)
    requires
        0 <= a <= x,
        0 <= b <= y,
    ensures
        a * b <= x * y,
{
}

proof fn lemma_mul_pos(a: int, b: int)
    by (nonlinear_arith)
    requires
        a >= 1,
        b >= 1,
    ensures
        a * b >= 1,
{
}

/// `(±m) * b == ±(m * b)`, the bridge between sign-magnitude fields and the
/// signed products in contracts.
proof fn lemma_signed_prod(neg: bool, m: int, b: int, p: int)
    by (nonlinear_arith)
    requires
        p == m * b,
    ensures
        (if neg { -m } else { m }) * b == (if neg { -p } else { p }),
{
}

/// Signed numerator of the exact sum of two well-formed rationals.
pub open spec fn sum_num(a: Rational, b: Rational) -> int {
    a.num_int() * b.den_int() + b.num_int() * a.den_int()
}

/// Signed numerator of the exact difference of two well-formed rationals.
pub open spec fn diff_num(a: Rational, b: Rational) -> int {
    a.num_int() * b.den_int() - b.num_int() * a.den_int()
}

/// Denominator shared by the exact sum, difference and product.
pub open spec fn prod_den(a: Rational, b: Rational) -> int {
    a.den_int() * b.den_int()
}

/// Signed numerator of the exact product.
pub open spec fn prod_num(a: Rational, b: Rational) -> int {
    a.num_int() * b.num_int()
}

/// Signed numerator of the exact quotient `a / b`.
pub open spec fn div_num(a: Rational, b: Rational) -> int {
    (if a.negative != b.negative {
        -(a.numer as int)
    } else {
        a.numer as int
    }) * b.den_int()
}

/// Denominator of the exact quotient `a / b` (positive when `b` is nonzero).
pub open spec fn div_den(a: Rational, b: Rational) -> int {
    a.den_int() * (b.numer as int)
}

impl Rational {
    /// Exact addition: the result is `sum_num / prod_den` in lowest terms,
    /// or `None` when that reduced fraction does not fit.
    pub fn checked_add(self, other: Rational) -> (r: Option<Rational>)
        requires
            self.wf(),
            other.wf(),
        ensures
            match r {
                Some(q) => rat_fits(sum_num(self, other), prod_den(self, other)) && q.wf()
                    && q == spec_norm(sum_num(self, other), prod_den(self, other)),
                None => !rat_fits(sum_num(self, other), prod_den(self, other)),
            },
    {
        proof {
            lemma_mul_le(self.numer as int, other.denom as int, u64::MAX as int, u32::MAX as int);
            lemma_mul_le(other.numer as int, self.denom as int, u64::MAX as int, u32::MAX as int);
            lemma_mul_le(self.denom as int, other.denom as int, u32::MAX as int, u32::MAX as int);
            lemma_mul_pos(self.denom as int, other.denom as int);
        }
        let t1: u128 = (self.numer as u128) * (other.denom as u128);
        let t2: u128 = (other.numer as u128) * (self.denom as u128);
        let dd: u128 = (self.denom as u128) * (other.denom as u128);
        proof {
            lemma_signed_prod(self.negative, self.numer as int, other.denom as int, t1 as int);
            lemma_signed_prod(other.negative, other.numer as int, self.denom as int, t2 as int);
        }
        if self.negative == other.negative {
            normalize128(self.negative, t1 + t2, dd)
        } else if t1 >= t2 {
            normalize128(self.negative, t1 - t2, dd)
        } else {
            normalize128(other.negative, t2 - t1, dd)
        }
    }

    /// Exact subtraction, as `checked_add` of the negation.
    pub fn checked_sub(self, other: Rational) -> (r: Option<Rational>)
        requires
            self.wf(),
            other.wf(),
        ensures
            match r {
                Some(q) => rat_fits(diff_num(self, other), prod_den(self, other)) && q.wf()
                    && q == spec_norm(diff_num(self, other), prod_den(self, other)),
                None => !rat_fits(diff_num(self, other), prod_den(self, other)),
            },
    {
        let o = other.neg();
        proof {
            assert(o.num_int() * self.den_int() == -(other.num_int() * self.den_int()))
                by (nonlinear_arith)
                requires
                    o.num_int() == -other.num_int(),
            ;
            assert(sum_num(self, o) == diff_num(self, other));
            assert(prod_den(self, o) == prod_den(self, other));
        }
        self.checked_add(o)
    }

    /// Exact multiplication: the result is `prod_num / prod_den` in lowest
    /// terms, or `None` when that reduced fraction does not fit.
    pub fn checked_mul(self, other: Rational) -> (r: Option<Rational>)
        requires
            self.wf(),
            other.wf(),
        ensures
            match r {
                Some(q) => rat_fits(prod_num(self, other), prod_den(self, other)) && q.wf()
                    && q == spec_norm(prod_num(self, other), prod_den(self, other)),
                None => !rat_fits(prod_num(self, other), prod_den(self, other)),
            },
    {
        proof {
            lemma_mul_le(self.numer as int, other.numer as int, u64::MAX as int, u64::MAX as int);
            lemma_mul_le(self.denom as int, other.denom as int, u32::MAX as int, u32::MAX as int);
            lemma_mul_pos(self.denom as int, other.denom as int);
        }
        let mag: u128 = (self.numer as u128) * (other.numer as u128);
        let dd: u128 = (self.denom as u128) * (other.denom as u128);
        proof {
            lemma_signed_prod(self.negative, self.numer as int, other.num_int(),
                self.numer as int * other.num_int());
            lemma_signed_prod(other.negative, other.numer as int, self.numer as int, mag as int);
        }
        normalize128(self.negative != other.negative, mag, dd)
    }

    /// Exact division by a nonzero rational: the result is
    /// `div_num / div_den` in lowest terms, or `None` when that reduced
    /// fraction does not fit.
    pub fn checked_div(self, other: Rational) -> (r: Option<Rational>)
        requires
            self.wf(),
            other.wf(),
            other.num_int() != 0,
        ensures
            match r {
                Some(q) => rat_fits(div_num(self, other), div_den(self, other)) && q.wf()
                    && q == spec_norm(div_num(self, other), div_den(self, other)),
                None => !rat_fits(div_num(self, other), div_den(self, other)),
            },
    {
        proof {
            lemma_mul_le(self.numer as int, other.denom as int, u64::MAX as int, u32::MAX as int);
            lemma_mul_le(self.denom as int, other.numer as int, u32::MAX as int, u64::MAX as int);
            lemma_mul_pos(self.denom as int, other.numer as int);
        }
        let mag: u128 = (self.numer as u128) * (other.denom as u128);
        let dd: u128 = (self.denom as u128) * (other.numer as u128);
        proof {
            lemma_signed_prod(self.negative != other.negative, self.numer as int,
                other.denom as int, mag as int);
        }
        normalize128(self.negative != other.negative, mag, dd)
    }

    /// Exact order: `self < other`, stated by cross-multiplication.
    pub fn lt(self, other: Rational) -> (r: bool)
        requires
            self.wf(),
            other.wf(),
        ensures
            r == (self.num_int() * other.den_int() < other.num_int() * self.den_int()),
    {
        proof {
            lemma_mul_le(self.numer as int, other.denom as int, u64::MAX as int, u32::MAX as int);
            lemma_mul_le(other.numer as int, self.denom as int, u64::MAX as int, u32::MAX as int);
        }
        let t1: u128 = (self.numer as u128) * (other.denom as u128);
        let t2: u128 = (other.numer as u128) * (self.denom as u128);
        proof {
            lemma_signed_prod(self.negative, self.numer as int, other.denom as int, t1 as int);
            lemma_signed_prod(other.negative, other.numer as int, self.denom as int, t2 as int);
            if self.negative {
                lemma_mul_pos(self.numer as int, other.denom as int);
            }
            if other.negative {
                lemma_mul_pos(other.numer as int, self.denom as int);
            }
        }
        if self.negative == other.negative {
            if self.negative {
                t2 < t1
            } else {
                t1 < t2
            }
        } else {
            if self.negative {
                // strictly negative < non-negative
                true
            } else {
                false
            }
        }
    }

    /// Exact order: `self <= other`, stated by cross-multiplication.
    pub fn le(self, other: Rational) -> (r: bool)
        requires
            self.wf(),
            other.wf(),
        ensures
            r == (self.num_int() * other.den_int() <= other.num_int() * self.den_int()),
    {
        !other.lt(self)
    }

    /// Renders the value for output: an optional minus sign, the integer
    /// part, and either a terminating decimal expansion or, for a value
    /// without one, the reduced fraction itself.
    pub fn display_string(self) -> (s: String)
        requires
            self.wf(),
        ensures
            s@ == rat_display(self),
    {
        let mut s = String::new();
        if self.negative {
            s.append("-");
            proof {
                reveal_strlit("-");
                assert(s@ =~= seq!['-']);
            }
        }
        let den: u64 = self.denom as u64;
        let ip = self.numer / den;
        let rem = self.numer % den;
        if rem == 0 {
            push_dec_digits(&mut s, ip as u128);
            proof {
                assert(s@ =~= rat_display(self));
            }
        } else if frac_terminates(rem, den, FRAC_FUEL) {
            push_dec_digits(&mut s, ip as u128);
            s.append(".");
            proof {
                reveal_strlit(".");
            }
            let ghost before = s@;
            push_frac_digits(&mut s, rem, den, FRAC_FUEL);
            proof {
                assert(s@ =~= rat_display(self));
            }
        } else {
            push_dec_digits(&mut s, self.numer as u128);
            s.append("/");
            proof {
                reveal_strlit("/");
            }
            push_dec_digits(&mut s, self.denom as u128);
            proof {
                assert(s@ =~= rat_display(self));
            }
        }
        s
    }

    /// Exact value equality, stated by cross-multiplication.
    pub fn eq_val(self, other: Rational) -> (r: bool)
        requires
            self.wf(),
            other.wf(),
        ensures
            r == (self.num_int() * other.den_int() == other.num_int() * self.den_int()),
    {
        proof {
            lemma_mul_le(self.numer as int, other.denom as int, u64::MAX as int, u32::MAX as int);
            lemma_mul_le(other.numer as int, self.denom as int, u64::MAX as int, u32::MAX as int);
        }
        let t1: u128 = (self.numer as u128) * (other.denom as u128);
        let t2: u128 = (other.numer as u128) * (self.denom as u128);
        proof {
            lemma_signed_prod(self.negative, self.numer as int, other.denom as int, t1 as int);
            lemma_signed_prod(other.negative, other.numer as int, self.denom as int, t2 as int);
            if self.negative {
                lemma_mul_pos(self.numer as int, other.denom as int);
            }
            if other.negative {
                lemma_mul_pos(other.numer as int, self.denom as int);
            }
        }
        if self.negative == other.negative {
            t1 == t2
        } else {
            false
        }
    }
}

/// Digit budget for the decimal expansion of a fraction; every denominator
/// with a terminating expansion that fits a `u32` terminates well within it.
pub const FRAC_FUEL: u32 = 64;

/// The decimal digit character for `d` (digits above nine do not arise).
pub open spec fn digit_char(d: nat) -> char {
    if d == 0 {
        '0'
    } else if d == 1 {
        '1'
    } else if d == 2 {
        '2'
    } else if d == 3 {
        '3'
    } else if d == 4 {
        '4'
    } else if d == 5 {
        '5'
    } else if d == 6 {
        '6'
    } else if d == 7 {
        '7'
    } else if d == 8 {
        '8'
    } else {
        '9'
    }
}

/// The usual base-ten rendering of `n`, most significant digit first.
pub open spec fn dec_digits(n: nat) -> Seq<char>
    decreases n,
{
    if n < 10 {
        seq![digit_char(n)]
    } else {
        dec_digits(n / 10) + seq![digit_char(n % 10)]
    }
}

/// Digits after the decimal point of `rem / den` by long division, `None`
/// when the expansion does not terminate within `fuel` digits.
pub open spec fn frac_digits(rem: nat, den: nat, fuel: nat) -> Option<Seq<char>>
    decreases fuel,
{
    if rem == 0 {
        Some(Seq::empty())
    } else if fuel == 0 {
        None
    } else {
        match frac_digits((rem * 10) % den, den, (fuel - 1) as nat) {
            Some(tail) => Some(seq![digit_char((rem * 10) / den)] + tail),
            None => None,
        }
    }
}

/// The rendered form of a well-formed rational: sign, integer part, and
/// either `.` with the terminating expansion or `/` with the denominator.
pub open spec fn rat_display(r: Rational) -> Seq<char> {
    let sign: Seq<char> = if r.negative {
        seq!['-']
    } else {
        Seq::empty()
    };
    let ip = r.numer as nat / r.denom as nat;
    let rem = r.numer as nat % r.denom as nat;
    if rem == 0 {
        sign + dec_digits(ip)
    } else {
        match frac_digits(rem, r.denom as nat, FRAC_FUEL as nat) {
            Some(ds) => sign + dec_digits(ip) + seq!['.'] + ds,
            None => sign + dec_digits(r.numer as nat) + seq!['/'] + dec_digits(r.denom as nat),
        }
    }
}

/// The one-character string for a single decimal digit.
fn digit_str(d: u128) -> (s: &'static str)
    requires
        d < 10,
    ensures
        s@ == seq![digit_char(d as nat)],
{
    let s: &'static str = if d == 0 {
        "0"
    } else if d == 1 {
        "1"
    } else if d == 2 {
        "2"
    } else if d == 3 {
        "3"
    } else if d == 4 {
        "4"
    } else if d == 5 {
        "5"
    } else if d == 6 {
        "6"
    } else if d == 7 {
        "7"
    } else if d == 8 {
        "8"
    } else {
        "9"
    };
    proof {
        reveal_strlit("0");
        reveal_strlit("1");
        reveal_strlit("2");
        reveal_strlit("3");
        reveal_strlit("4");
        reveal_strlit("5");
        reveal_strlit("6");
        reveal_strlit("7");
        reveal_strlit("8");
        reveal_strlit("9");
        assert(s@ =~= seq![digit_char(d as nat)]);
    }
    s
}

/// Appends the base-ten rendering of `n`.
pub fn push_dec_digits(s: &mut String, n: u128)
    ensures
        final(s)@ == old(s)@ + dec_digits(n as nat),
    decreases n,
{
    if n < 10 {
        s.append(digit_str(n));
    } else {
        proof {
            assert(n / 10 < n) by (nonlinear_arith)
                requires
                    n >= 10,
            ;
        }
        push_dec_digits(s, n / 10);
        s.append(digit_str(n % 10));
        proof {
            assert(final(s)@ =~= old(s)@ + dec_digits(n as nat));
        }
    }
}

/// Whether long division of `rem / den` terminates within `fuel` digits.
fn frac_terminates(rem: u64, den: u64, fuel: u32) -> (ok: bool)
    requires
        1 <= den <= u32::MAX,
        rem < den,
    ensures
        ok == (frac_digits(rem as nat, den as nat, fuel as nat) is Some),
    decreases fuel,
{
    if rem == 0 {
        true
    } else if fuel == 0 {
        false
    } else {
        frac_terminates((rem * 10) % den, den, fuel - 1)
    }
}

/// Appends the digits of the terminating expansion of `rem / den`.
fn push_frac_digits(s: &mut String, rem: u64, den: u64, fuel: u32)
    requires
        1 <= den <= u32::MAX,
        rem < den,
        frac_digits(rem as nat, den as nat, fuel as nat) is Some,
    ensures
        final(s)@ == old(s)@ + frac_digits(rem as nat, den as nat, fuel as nat).unwrap(),
    decreases fuel,
{
    if rem > 0 {
        let d = (rem * 10) / den;
        proof {
            assert(d < 10) by (nonlinear_arith)
                requires
                    rem < den,
                    1 <= den,
                    d as int == (rem as int * 10) / (den as int),
            ;
        }
        s.append(digit_str(d as u128));
        push_frac_digits(s, (rem * 10) % den, den, fuel - 1);
        proof {
            assert(final(s)@ =~= old(s)@ + frac_digits(rem as nat, den as nat,
                fuel as nat).unwrap());
        }
    }
}

} // verus!
