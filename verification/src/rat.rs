//! Exact rational coefficients. A `Rat` is a numerator over a positive
//! denominator, both machine integers; every arithmetic operation is proved
//! to compute exactly the textbook fraction formula over the mathematical
//! model `RatModel`. Values are compared by cross-multiplication, so a value
//! need not be in lowest terms to be understood correctly.

use vstd::arithmetic::div_mod::{
    lemma_div_multiples_vanish, lemma_fundamental_div_mod, lemma_mod_multiples_basic,
    lemma_mod_self_0, lemma_small_mod,
};
use vstd::prelude::*;
use vstd::string::*;

use crate::num_text::{dec_seq, u128_to_string};

verus! {

/// Mathematical model of a rational value: an integer numerator over a
/// positive integer denominator (not necessarily in lowest terms).
pub struct RatModel {
    pub n: int,
    pub d: int,
}

impl RatModel {
    /// Well-formed: positive denominator, and a numerator strictly above the
    /// machine minimum so that negation always stays representable.
    pub open spec fn wf(self) -> bool {
        &&& self.d >= 1
        &&& self.d <= i128::MAX as int
        &&& self.n > i128::MIN as int
        &&& self.n <= i128::MAX as int
    }
}

/// Two rationals denote the same value: cross-multiplication equality.
pub open spec fn rat_equiv(a: RatModel, b: RatModel) -> bool {
    a.n * b.d == b.n * a.d
}

pub open spec fn rat_zero() -> RatModel {
    RatModel { n: 0, d: 1 }
}

pub open spec fn rat_one() -> RatModel {
    RatModel { n: 1, d: 1 }
}

pub open spec fn rat_from_int(v: int) -> RatModel {
    RatModel { n: v, d: 1 }
}

/// Sign-normalized construction from a numerator and a nonzero denominator.
pub open spec fn rat_new_s(n: int, d: int) -> RatModel {
    if d >= 0 {
        RatModel { n: n, d: d }
    } else {
        RatModel { n: -n, d: -d }
    }
}

pub open spec fn rat_add_s(a: RatModel, b: RatModel) -> RatModel {
    RatModel { n: a.n * b.d + b.n * a.d, d: a.d * b.d }
}

pub open spec fn rat_neg_s(a: RatModel) -> RatModel {
    RatModel { n: -a.n, d: a.d }
}

pub open spec fn rat_sub_s(a: RatModel, b: RatModel) -> RatModel {
    rat_add_s(a, rat_neg_s(b))
}

pub open spec fn rat_mul_s(a: RatModel, b: RatModel) -> RatModel {
    RatModel { n: a.n * b.n, d: a.d * b.d }
}

/// The reciprocal, with the sign kept on the numerator side.
pub open spec fn rat_inv_s(a: RatModel) -> RatModel
    recommends
        a.n != 0,
{
    if a.n >= 0 {
        RatModel { n: a.d, d: a.n }
    } else {
        RatModel { n: -a.d, d: -a.n }
    }
}

pub open spec fn rat_div_s(a: RatModel, b: RatModel) -> RatModel
    recommends
        b.n != 0,
{
    rat_mul_s(a, rat_inv_s(b))
}

pub open spec fn rat_is_neg(a: RatModel) -> bool {
    a.n < 0
}

pub open spec fn rat_abs_s(a: RatModel) -> RatModel {
    if a.n < 0 {
        rat_neg_s(a)
    } else {
        a
    }
}

/// A machine-representable value, strictly above the minimum so negation
/// stays representable.
pub open spec fn in_i128(x: int) -> bool {
    (i128::MIN as int) < x <= (i128::MAX as int)
}

/// The intermediate products and the final numerator and denominator of an
/// addition all fit the machine representation.
pub open spec fn rat_add_fits(a: RatModel, b: RatModel) -> bool {
    &&& in_i128(a.n * b.d)
    &&& in_i128(b.n * a.d)
    &&& in_i128(a.n * b.d + b.n * a.d)
    &&& a.d * b.d <= i128::MAX as int
}

/// The products of a multiplication fit the machine representation.
pub open spec fn rat_mul_fits(a: RatModel, b: RatModel) -> bool {
    &&& in_i128(a.n * b.n)
    &&& a.d * b.d <= i128::MAX as int
}

/// The cross products of a comparison fit the machine representation.
pub open spec fn rat_cmp_fits(a: RatModel, b: RatModel) -> bool {
    &&& in_i128(a.n * b.d)
    &&& in_i128(b.n * a.d)
}

/// The decimal text of an integer: a minus sign, when negative, followed by
/// the digits of the magnitude.
pub open spec fn int_dec(i: int) -> Seq<char> {
    if i < 0 {
        seq!['-'] + dec_seq((-i) as nat)
    } else {
        dec_seq(i as nat)
    }
}

/// The greatest common divisor, by the classic remainder recursion.
pub open spec fn gcd(a: nat, b: nat) -> nat
    decreases b,
{
    if b == 0 {
        a
    } else {
        gcd(b, a % b)
    }
}

pub open spec fn int_abs(i: int) -> int {
    if i < 0 {
        -i
    } else {
        i
    }
}

/// The fraction brought to lowest terms: numerator and denominator divided
/// by their greatest common divisor.
pub open spec fn rat_reduce(r: RatModel) -> RatModel
    recommends
        r.d >= 1,
{
    let g = gcd(r.d as nat, int_abs(r.n) as nat) as int;
    RatModel { n: r.n / g, d: r.d / g }
}

/// The text of a rational, in lowest terms: the numerator alone when the
/// reduced denominator is one, else numerator, a slash, denominator.
pub open spec fn rat_render(r: RatModel) -> Seq<char> {
    let rr = rat_reduce(r);
    if rr.d == 1 {
        int_dec(rr.n)
    } else {
        int_dec(rr.n) + seq!['/'] + int_dec(rr.d)
    }
}

/// The gcd of a positive number and any number is positive and divides
/// both.
proof fn lemma_gcd_divides(a: nat, b: nat)
    requires
        a >= 1,
    ensures
        1 <= gcd(a, b) <= a,
        a % gcd(a, b) == 0,
        b % gcd(a, b) == 0,
    decreases b,
{
    let g = gcd(a, b);
    if b == 0 {
        lemma_mod_self_0(a as int);
        lemma_small_mod(0, a);
    } else {
        lemma_gcd_divides(b, a % b);
        let gi = g as int;
        let ai = a as int;
        let bi = b as int;
        let ri = (a % b) as int;
        lemma_fundamental_div_mod(ai, bi);
        lemma_fundamental_div_mod(bi, gi);
        lemma_fundamental_div_mod(ri, gi);
        let k = (bi / gi) * (ai / bi) + (ri / gi);
        assert(ai == k * gi) by (nonlinear_arith)
            requires
                ai == bi * (ai / bi) + ri,
                bi == gi * (bi / gi) + (bi % gi),
                ri == gi * (ri / gi) + (ri % gi),
                bi % gi == 0,
                ri % gi == 0,
                k == (bi / gi) * (ai / bi) + (ri / gi),
        ;
        lemma_mod_multiples_basic(k, gi);
        assert(gi <= ai) by (nonlinear_arith)
            requires
                ai == k * gi,
                ai >= 1,
                gi >= 1,
        ;
        assert(g <= a);
    }
}

/// An exact divisor cancels: dividing a multiple of `g` by `g` undoes the
/// multiplication, for the negated multiple too.
proof fn lemma_exact_div(m: int, g: int)
    requires
        g >= 1,
        m >= 0,
        m % g == 0,
    ensures
        m / g >= 0,
        m == g * (m / g),
        (-m) / g == -(m / g),
        m >= 1 ==> m / g >= 1,
{
    lemma_fundamental_div_mod(m, g);
    let q = m / g;
    assert(m == g * q);
    lemma_div_multiples_vanish(-q, g);
    assert(g * (-q) == -m) by (nonlinear_arith)
        requires
            m == g * q,
    ;
    assert(q >= 0) by (nonlinear_arith)
        requires
            m >= 0,
            g >= 1,
            m == g * q,
    ;
    if m >= 1 {
        assert(q >= 1) by (nonlinear_arith)
            requires
                m >= 1,
                g >= 1,
                m == g * q,
        ;
    }
}

/// An exact rational coefficient or bound value.
#[derive(Clone, Copy, PartialEq, Eq, Structural, Debug)]
pub struct Rat {
    n: i128,
    d: i128,
}

impl View for Rat {
    type V = RatModel;

    closed spec fn view(&self) -> RatModel {
        RatModel { n: self.n as int, d: self.d as int }
    }
}

impl Rat {
    /// Builds the fraction `n / d`, moving any sign of the denominator onto
    /// the numerator.
    pub fn new(n: i128, d: i128) -> (r: Rat)
        requires
            d != 0,
            n > i128::MIN,
            d > i128::MIN,
        ensures
            r@.wf(),
            r@ == rat_new_s(n as int, d as int),
    {
        if d >= 0 {
            Rat { n, d }
        } else {
            Rat { n: -n, d: -d }
        }
    }

    pub fn from_int(v: i128) -> (r: Rat)
        requires
            v > i128::MIN,
        ensures
            r@.wf(),
            r@ == rat_from_int(v as int),
    {
        Rat { n: v, d: 1 }
    }

    pub fn zero() -> (r: Rat)
        ensures
            r@.wf(),
            r@ == rat_zero(),
    {
        Rat { n: 0, d: 1 }
    }

    pub fn one() -> (r: Rat)
        ensures
            r@.wf(),
            r@ == rat_one(),
    {
        Rat { n: 1, d: 1 }
    }

    pub fn add(self, other: Rat) -> (r: Rat)
        requires
            self@.wf(),
            other@.wf(),
            rat_add_fits(self@, other@),
        ensures
            r@.wf(),
            r@ == rat_add_s(self@, other@),
    {
        proof {
            assert(self@.d * other@.d >= 1) by (nonlinear_arith)
                requires
                    self@.d >= 1,
                    other@.d >= 1,
            ;
        }
        Rat { n: self.n * other.d + other.n * self.d, d: self.d * other.d }
    }

    pub fn neg(self) -> (r: Rat)
        requires
            self@.wf(),
        ensures
            r@.wf(),
            r@ == rat_neg_s(self@),
    {
        Rat { n: -self.n, d: self.d }
    }

    pub fn sub(self, other: Rat) -> (r: Rat)
        requires
            self@.wf(),
            other@.wf(),
            rat_add_fits(self@, rat_neg_s(other@)),
        ensures
            r@.wf(),
            r@ == rat_sub_s(self@, other@),
    {
        self.add(other.neg())
    }

    pub fn mul(self, other: Rat) -> (r: Rat)
        requires
            self@.wf(),
            other@.wf(),
            rat_mul_fits(self@, other@),
        ensures
            r@.wf(),
            r@ == rat_mul_s(self@, other@),
    {
        proof {
            assert(self@.d * other@.d >= 1) by (nonlinear_arith)
                requires
                    self@.d >= 1,
                    other@.d >= 1,
            ;
        }
        Rat { n: self.n * other.n, d: self.d * other.d }
    }

    /// The reciprocal. Division by a rational whose value is zero is outside
    /// the domain, as it is for the underlying mathematical field.
    pub fn inv(self) -> (r: Rat)
        requires
            self@.wf(),
            self@.n != 0,
        ensures
            r@.wf(),
            r@ == rat_inv_s(self@),
    {
        if self.n >= 0 {
            Rat { n: self.d, d: self.n }
        } else {
            Rat { n: -self.d, d: -self.n }
        }
    }

    pub fn div(self, other: Rat) -> (r: Rat)
        requires
            self@.wf(),
            other@.wf(),
            other@.n != 0,
            rat_mul_fits(self@, rat_inv_s(other@)),
        ensures
            r@.wf(),
            r@ == rat_div_s(self@, other@),
    {
        self.mul(other.inv())
    }

    pub fn is_negative(&self) -> (r: bool)
        ensures
            r == rat_is_neg(self@),
    {
        self.n < 0
    }

    pub fn abs(self) -> (r: Rat)
        requires
            self@.wf(),
        ensures
            r@.wf(),
            r@ == rat_abs_s(self@),
    {
        if self.n < 0 {
            self.neg()
        } else {
            self
        }
    }

    /// Exact value equality by cross-multiplication; representations in
    /// different terms (such as doubled numerator and denominator) compare
    /// equal.
    pub fn eq_value(&self, other: &Rat) -> (r: bool)
        requires
            rat_cmp_fits(self@, other@),
        ensures
            r == rat_equiv(self@, other@),
    {
        self.n * other.d == other.n * self.d
    }

    /// Renders the exact value in lowest terms: `n` when the reduced
    /// denominator is one, else `n/d`.
    pub fn to_text(&self) -> (s: String)
        requires
            self@.wf(),
        ensures
            s@ == rat_render(self@),
    {
        proof {
            reveal_strlit("-");
            reveal_strlit("/");
        }
        let neg = self.n < 0;
        let mag: u128 = if neg {
            (-self.n) as u128
        } else {
            self.n as u128
        };
        let g = gcd_exec(self.d as u128, mag);
        proof {
            lemma_gcd_divides(self@.d as nat, int_abs(self@.n) as nat);
            lemma_exact_div(int_abs(self@.n), g as int);
            lemma_exact_div(self@.d, g as int);
        }
        let rmag = mag / g;
        let rd = (self.d as u128) / g;
        let ghost rr = rat_reduce(self@);
        proof {
            assert(rr.d == rd);
            if neg {
                assert(rr.n == -(rmag as int));
            } else {
                assert(rr.n == rmag as int);
            }
        }
        let mut s: String = if neg {
            let mut t = String::from_str("-");
            let digits = u128_to_string(rmag);
            t.append(digits.as_str());
            proof {
                assert(t@ =~= int_dec(rr.n));
            }
            t
        } else {
            u128_to_string(rmag)
        };
        if rd != 1 {
            s.append("/");
            let den = u128_to_string(rd);
            s.append(den.as_str());
            proof {
                assert(s@ =~= rat_render(self@));
            }
        }
        s
    }
}

/// The greatest common divisor of a positive number and any number.
fn gcd_exec(a: u128, b: u128) -> (g: u128)
    requires
        a >= 1,
    ensures
        g as nat == gcd(a as nat, b as nat),
        g >= 1,
{
    let mut x = a;
    let mut y = b;
    while y != 0
        invariant
            x >= 1,
            gcd(x as nat, y as nat) == gcd(a as nat, b as nat),
        decreases y,
    {
        let t = x % y;
        x = y;
        y = t;
    }
    x
}


} // verus!


