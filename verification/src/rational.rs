//! Exact rational arithmetic.
//!
//! Every quantity of the scoring pipeline (normalized matrix entries,
//! sequence weights, the scaling constant lambda, conservation scores)
//! is a rational number, so the library computes with exact fractions
//! of 64-bit integers rather than approximating.  A value is modelled
//! by the ghost pair [`Q`] (numerator, positive denominator); two pairs
//! denote the same rational exactly when they cross-multiply equally
//! ([`q_eq`]).  Executable values are [`Rat`]: a reduced fraction whose
//! intermediates are computed in 128 bits, so that no operation here
//! can overflow silently; an operation whose reduced result does not
//! fit 64 bits reports that, exactly ([`q_fits`]).

use vstd::prelude::*;
use vstd::arithmetic::div_mod::{
    lemma_div_basics, lemma_div_is_ordered_by_denominator, lemma_div_pos_is_pos,
    lemma_fundamental_div_mod, lemma_mod_multiples_basic, lemma_mod_self_0, lemma_small_mod,
};

verus! {

/// Mathematical value of a rational number: numerator `n` over
/// denominator `d`, well formed when `d` is positive.
pub ghost struct Q {
    pub n: int,
    pub d: int,
}

pub open spec fn q_wf(q: Q) -> bool {
    1 <= q.d
}

/// The integer `i` as a rational.
pub open spec fn q_int(i: int) -> Q {
    Q { n: i, d: 1 }
}

/// `a` and `b` denote the same rational number.
pub open spec fn q_eq(a: Q, b: Q) -> bool {
    a.n * b.d == b.n * a.d
}

/// `a <= b` as rationals (meaningful for well-formed pairs).
pub open spec fn q_le(a: Q, b: Q) -> bool {
    a.n * b.d <= b.n * a.d
}

pub open spec fn q_add(a: Q, b: Q) -> Q {
    Q { n: a.n * b.d + b.n * a.d, d: a.d * b.d }
}

pub open spec fn q_mul(a: Q, b: Q) -> Q {
    Q { n: a.n * b.n, d: a.d * b.d }
}

/// The reciprocal, with the sign moved into the numerator so that the
/// denominator stays positive.  Meaningful when `a.n != 0`.
pub open spec fn q_inv(a: Q) -> Q {
    if 0 <= a.n {
        Q { n: a.d, d: a.n }
    } else {
        Q { n: -a.d, d: -a.n }
    }
}

pub open spec fn iabs(x: int) -> int {
    if 0 <= x {
        x
    } else {
        -x
    }
}

/// Greatest common divisor by Euclid's recursion.
pub open spec fn gcd_spec(a: int, b: int) -> int
    decreases a,
    when 0 <= a && 1 <= b
{
    if a == 0 {
        b
    } else {
        gcd_spec(b % a, a)
    }
}

/// Numerator of the fully reduced form of `n / d`.
pub open spec fn q_norm_n(n: int, d: int) -> int
    recommends
        1 <= d,
{
    if 0 <= n {
        iabs(n) / gcd_spec(iabs(n), d)
    } else {
        -(iabs(n) / gcd_spec(iabs(n), d))
    }
}

/// Denominator of the fully reduced form of `n / d`.
pub open spec fn q_norm_d(n: int, d: int) -> int
    recommends
        1 <= d,
{
    d / gcd_spec(iabs(n), d)
}

/// The fully reduced (canonical) form of the pair `q`.
pub open spec fn q_canon(q: Q) -> Q {
    Q { n: q_norm_n(q.n, q.d), d: q_norm_d(q.n, q.d) }
}

/// The reduced form of the rational `q` fits a 64-bit fraction.
pub open spec fn q_fits(q: Q) -> bool {
    &&& i64::MIN as int <= q_norm_n(q.n, q.d)
    &&& q_norm_n(q.n, q.d) <= i64::MAX as int
    &&& q_norm_d(q.n, q.d) <= i64::MAX as int
}

/// If `g` divides `a` and `b % a`, it divides `b`.
proof fn lemma_divides_transfer(g: int, a: int, b: int)
    requires
        1 <= g,
        1 <= a,
        0 <= b,
        a % g == 0,
        (b % a) % g == 0,
    ensures
        b % g == 0,
{
    lemma_fundamental_div_mod(b, a);
    lemma_fundamental_div_mod(a, g);
    lemma_fundamental_div_mod(b % a, g);
    let q = b / a;
    let k = (a / g) * q + (b % a) / g;
    assert(b == k * g) by (nonlinear_arith)
        requires
            b == a * (b / a) + b % a,
            a == g * (a / g),
            b % a == g * ((b % a) / g),
            q == b / a,
            k == (a / g) * q + (b % a) / g,
    ;
    lemma_mod_multiples_basic(k, g);
}

/// The gcd is positive and divides both of its arguments.
proof fn lemma_gcd_divides(a: int, b: int)
    requires
        0 <= a,
        1 <= b,
    ensures
        1 <= gcd_spec(a, b),
        a % gcd_spec(a, b) == 0,
        b % gcd_spec(a, b) == 0,
    decreases a,
{
    if a == 0 {
        lemma_small_mod(0, b as nat);
        lemma_mod_self_0(b);
    } else {
        lemma_gcd_divides(b % a, a);
        let g = gcd_spec(b % a, a);
        lemma_divides_transfer(g, a, b);
    }
}

/// Bound on the product of an i64 value and a positive i64 value.
proof fn lemma_prod_bound(x: int, y: int) by (nonlinear_arith)
    requires
        -0x8000_0000_0000_0000 <= x <= 0x7FFF_FFFF_FFFF_FFFF,
        1 <= y <= 0x7FFF_FFFF_FFFF_FFFF,
    ensures
        -0x3FFF_FFFF_FFFF_FFFF_8000_0000_0000_0000 <= x * y,
        x * y <= 0x3FFF_FFFF_FFFF_FFFF_8000_0000_0000_0000,
{
}

/// Bound on the product of two i64 values.
proof fn lemma_sq_bound(x: int, y: int) by (nonlinear_arith)
    requires
        -0x8000_0000_0000_0000 <= x <= 0x7FFF_FFFF_FFFF_FFFF,
        -0x8000_0000_0000_0000 <= y <= 0x7FFF_FFFF_FFFF_FFFF,
    ensures
        -0x4000_0000_0000_0000_0000_0000_0000_0000 <= x * y,
        x * y <= 0x4000_0000_0000_0000_0000_0000_0000_0000,
{
}

/// The product of two positive i64 values is positive and bounded.
proof fn lemma_pos_prod(x: int, y: int) by (nonlinear_arith)
    requires
        1 <= x <= 0x7FFF_FFFF_FFFF_FFFF,
        1 <= y <= 0x7FFF_FFFF_FFFF_FFFF,
    ensures
        1 <= x * y,
        x * y <= 0x4000_0000_0000_0000_0000_0000_0000_0000,
{
}

/// Denoting the same rational is transitive.
pub proof fn lemma_q_eq_trans(a: Q, b: Q, c: Q) by (nonlinear_arith)
    requires
        q_wf(a),
        q_wf(b),
        q_wf(c),
        q_eq(a, b),
        q_eq(b, c),
    ensures
        q_eq(a, c),
{
}

/// Sums of equal rationals are equal.
pub proof fn lemma_q_add_congr(a: Q, a2: Q, b: Q, b2: Q)
    requires
        q_wf(a),
        q_wf(a2),
        q_wf(b),
        q_wf(b2),
        q_eq(a, a2),
        q_eq(b, b2),
    ensures
        q_eq(q_add(a, b), q_add(a2, b2)),
{
    lemma_add_congr_terms(a.n, a.d, a2.n, a2.d, b.n, b.d, b2.n, b2.d);
}

/// Rearranging one four-factor product.
proof fn lemma_pairing(x: int, y: int, z: int, w: int) by (nonlinear_arith)
    ensures
        (x * y) * (z * w) == (x * z) * (y * w),
        (x * y) * (z * w) == (x * w) * (y * z),
        (x * y) * (z * w) == (x * w) * (z * y),
{
}

/// Term-level form of [`lemma_q_add_congr`].
proof fn lemma_add_congr_terms(
    an: int,
    ad: int,
    cn: int,
    cd: int,
    bn: int,
    bd: int,
    en: int,
    ed: int,
)
    requires
        an * cd == cn * ad,
        bn * ed == en * bd,
    ensures
        (an * bd + bn * ad) * (cd * ed) == (cn * ed + en * cd) * (ad * bd),
{
    assert((an * bd + bn * ad) * (cd * ed) == (an * bd) * (cd * ed) + (bn * ad) * (cd * ed))
        by (nonlinear_arith);
    lemma_pairing(an, bd, cd, ed);
    assert((an * cd) * (bd * ed) == (cn * ad) * (bd * ed));
    lemma_pairing(cn, ad, bd, ed);
    lemma_pairing(bn, ad, cd, ed);
    assert((bn * ed) * (ad * cd) == (en * bd) * (ad * cd));
    lemma_pairing(en, bd, ad, cd);
    assert((cn * ed) * (ad * bd) + (en * cd) * (ad * bd) == (cn * ed + en * cd) * (ad * bd))
        by (nonlinear_arith);
}

/// Products of equal rationals are equal.
pub proof fn lemma_q_mul_congr(a: Q, a2: Q, b: Q, b2: Q) by (nonlinear_arith)
    requires
        q_wf(a),
        q_wf(a2),
        q_wf(b),
        q_wf(b2),
        q_eq(a, a2),
        q_eq(b, b2),
    ensures
        q_eq(q_mul(a, b), q_mul(a2, b2)),
{
}

/// Sums and products of well-formed rationals are well formed.
pub proof fn lemma_q_ops_wf(a: Q, b: Q) by (nonlinear_arith)
    requires
        q_wf(a),
        q_wf(b),
    ensures
        q_wf(q_add(a, b)),
        q_wf(q_mul(a, b)),
{
}

/// An executable rational: a reduced fraction of 64-bit integers with
/// a positive denominator.  Its mathematical value is `self@`.
#[derive(Clone, Copy, PartialEq, Eq, Structural, Debug)]
pub struct Rat {
    num: i64,
    den: i64,
}

impl View for Rat {
    type V = Q;

    closed spec fn view(&self) -> Q {
        Q { n: self.num as int, d: self.den as int }
    }
}

/// Greatest common divisor of `a` and `b` by Euclid's algorithm.
fn gcd_u128(a: u128, b: u128) -> (g: u128)
    requires
        1 <= b,
    ensures
        1 <= g,
        g as int == gcd_spec(a as int, b as int),
        (a as int) % (g as int) == 0,
        (b as int) % (g as int) == 0,
{
    let mut x = a;
    let mut y = b;
    while x != 0
        invariant
            1 <= y,
            gcd_spec(x as int, y as int) == gcd_spec(a as int, b as int),
        decreases x,
    {
        let t = y % x;
        y = x;
        x = t;
    }
    proof {
        lemma_gcd_divides(a as int, b as int);
    }
    y
}

/// Fully reduce `num / den` to a 64-bit fraction, or report that the
/// reduced fraction does not fit.
fn reduce(num: i128, den: i128) -> (r: Option<Rat>)
    requires
        1 <= den,
        i128::MIN < num,
    ensures
        r matches Some(c) ==> c.wf() && c@.n == q_norm_n(num as int, den as int) && c@.d
            == q_norm_d(num as int, den as int) && q_eq(c@, Q { n: num as int, d: den as int }),
        r is Some <==> q_fits(Q { n: num as int, d: den as int }),
{
    let neg = num < 0;
    let magi: i128 = if neg {
        -num
    } else {
        num
    };
    let magu: u128 = magi as u128;
    let denu: u128 = den as u128;
    let g = gcd_u128(magu, denu);
    proof {
        assert(magu as int == iabs(num as int));
        lemma_fundamental_div_mod(magu as int, g as int);
        lemma_fundamental_div_mod(denu as int, g as int);
        lemma_div_pos_is_pos(magu as int, g as int);
        lemma_div_pos_is_pos(denu as int, g as int);
        lemma_div_is_ordered_by_denominator(magu as int, 1, g as int);
        lemma_div_is_ordered_by_denominator(denu as int, 1, g as int);
        lemma_div_basics(magu as int);
        lemma_div_basics(denu as int);
    }
    let nm: u128 = magu / g;
    let dn: u128 = denu / g;
    proof {
        assert(1 <= dn as int) by (nonlinear_arith)
            requires
                denu as int == (g as int) * (dn as int),
                1 <= g as int,
                1 <= denu as int,
                0 <= dn as int,
        ;
    }
    let ni: i128 = if neg {
        -(nm as i128)
    } else {
        nm as i128
    };
    proof {
        assert(ni as int == q_norm_n(num as int, den as int));
        assert(dn as int == q_norm_d(num as int, den as int));
    }
    if i64::MIN as i128 <= ni && ni <= i64::MAX as i128 && dn <= i64::MAX as u128 {
        let c = Rat { num: ni as i64, den: dn as i64 };
        proof {
            if neg {
                assert(c@.n * den == num * c@.d) by (nonlinear_arith)
                    requires
                        c@.n == -(nm as int),
                        num as int == -(magu as int),
                        magu as int == (g as int) * (nm as int),
                        den as int == (g as int) * (dn as int),
                        c@.d == dn as int,
                        den == den as int,
                        num == num as int,
                ;
            } else {
                assert(c@.n * den == num * c@.d) by (nonlinear_arith)
                    requires
                        c@.n == nm as int,
                        num as int == magu as int,
                        magu as int == (g as int) * (nm as int),
                        den as int == (g as int) * (dn as int),
                        c@.d == dn as int,
                        den == den as int,
                        num == num as int,
                ;
            }
        }
        Some(c)
    } else {
        None
    }
}

impl Rat {
    /// The denominator is positive; every `Rat` built by this module
    /// satisfies it.
    pub open spec fn wf(self) -> bool {
        q_wf(self@)
    }

    /// The rational `num / den`, fully reduced.
    pub fn new(num: i64, den: i64) -> (r: Rat)
        requires
            1 <= den,
        ensures
            r.wf(),
            q_eq(r@, Q { n: num as int, d: den as int }),
    {
        proof {
            lemma_gcd_divides(iabs(num as int), den as int);
            let g = gcd_spec(iabs(num as int), den as int);
            lemma_div_is_ordered_by_denominator(iabs(num as int), 1, g);
            lemma_div_is_ordered_by_denominator(den as int, 1, g);
            lemma_div_basics(iabs(num as int));
            lemma_div_basics(den as int);
            lemma_div_pos_is_pos(iabs(num as int), g);
        }
        match reduce(num as i128, den as i128) {
            Some(c) => c,
            None => {
                proof {
                    assert(false);
                }
                vstd::pervasive::unreached()
            },
        }
    }

    /// The rational `num / den` held as exactly that pair, without
    /// reduction, so that callers can pin the representation.
    pub fn frac(num: i64, den: i64) -> (r: Rat)
        requires
            1 <= den,
        ensures
            r.wf(),
            r@ == (Q { n: num as int, d: den as int }),
    {
        Rat { num, den }
    }

    /// Fully reduce `num / den`, or report that the reduced fraction
    /// does not fit 64 bits.
    pub fn checked_new(num: i128, den: i128) -> (r: Option<Rat>)
        requires
            1 <= den,
            i128::MIN < num,
        ensures
            r matches Some(c) ==> c.wf() && c@ == q_canon(Q { n: num as int, d: den as int })
                && q_eq(c@, Q { n: num as int, d: den as int }),
            r is Some <==> q_fits(Q { n: num as int, d: den as int }),
    {
        reduce(num, den)
    }

    /// The integer `i` as a rational.
    pub fn from_int(i: i64) -> (r: Rat)
        ensures
            r.wf(),
            r@ == q_int(i as int),
    {
        Rat { num: i, den: 1 }
    }

    /// Zero.
    pub fn zero() -> (r: Rat)
        ensures
            r.wf(),
            r@ == q_int(0),
    {
        Rat { num: 0, den: 1 }
    }

    /// One.
    pub fn one() -> (r: Rat)
        ensures
            r.wf(),
            r@ == q_int(1),
    {
        Rat { num: 1, den: 1 }
    }

    /// Numerator of the reduced fraction.
    pub fn num(&self) -> (r: i64)
        ensures
            r as int == self@.n,
    {
        self.num
    }

    /// Denominator of the reduced fraction.
    pub fn den(&self) -> (r: i64)
        ensures
            r as int == self@.d,
    {
        self.den
    }

    /// Exact sum, or `None` when the reduced sum does not fit 64 bits.
    pub fn checked_add(&self, other: &Rat) -> (r: Option<Rat>)
        requires
            self.wf(),
            other.wf(),
        ensures
            r matches Some(c) ==> c.wf() && c@ == q_canon(q_add(self@, other@)) && q_eq(
                c@,
                q_add(self@, other@),
            ),
            r is Some <==> q_fits(q_add(self@, other@)),
    {
        let an = self.num as i128;
        let ad = self.den as i128;
        let bn = other.num as i128;
        let bd = other.den as i128;
        proof {
            lemma_prod_bound(an as int, bd as int);
            lemma_prod_bound(bn as int, ad as int);
            lemma_pos_prod(ad as int, bd as int);
        }
        let n = an * bd + bn * ad;
        let d = ad * bd;
        reduce(n, d)
    }

    /// Exact product, or `None` when the reduced product does not fit
    /// 64 bits.
    pub fn checked_mul(&self, other: &Rat) -> (r: Option<Rat>)
        requires
            self.wf(),
            other.wf(),
        ensures
            r matches Some(c) ==> c.wf() && c@ == q_canon(q_mul(self@, other@)) && q_eq(
                c@,
                q_mul(self@, other@),
            ),
            r is Some <==> q_fits(q_mul(self@, other@)),
    {
        let an = self.num as i128;
        let ad = self.den as i128;
        let bn = other.num as i128;
        let bd = other.den as i128;
        proof {
            lemma_sq_bound(an as int, bn as int);
            lemma_pos_prod(ad as int, bd as int);
        }
        let n = an * bn;
        let d = ad * bd;
        reduce(n, d)
    }

    /// Exact reciprocal of a nonzero rational.  `None` only in the one
    /// 64-bit corner where the flipped fraction cannot be represented.
    pub fn invert(&self) -> (r: Option<Rat>)
        requires
            self.wf(),
            self@.n != 0,
        ensures
            r matches Some(c) ==> c.wf() && c@ == q_inv(self@) && q_eq(c@, q_inv(self@)),
            r is Some <==> self@.n != i64::MIN as int,
    {
        if self.num == i64::MIN {
            None
        } else if self.num < 0 {
            Some(Rat { num: -self.den, den: -self.num })
        } else {
            Some(Rat { num: self.den, den: self.num })
        }
    }

    /// Exact comparison.
    pub fn le(&self, other: &Rat) -> (r: bool)
        requires
            self.wf(),
            other.wf(),
        ensures
            r == q_le(self@, other@),
    {
        proof {
            lemma_prod_bound(self.num as int, other.den as int);
            lemma_prod_bound(other.num as int, self.den as int);
        }
        (self.num as i128) * (other.den as i128) <= (other.num as i128) * (self.den as i128)
    }

    /// Exact equality of the denoted rationals.
    pub fn eq_rat(&self, other: &Rat) -> (r: bool)
        requires
            self.wf(),
            other.wf(),
        ensures
            r == q_eq(self@, other@),
    {
        proof {
            lemma_prod_bound(self.num as int, other.den as int);
            lemma_prod_bound(other.num as int, self.den as int);
        }
        (self.num as i128) * (other.den as i128) == (other.num as i128) * (self.den as i128)
    }

    /// Whether the denoted rational is zero.
    pub fn is_zero(&self) -> (r: bool)
        requires
            self.wf(),
        ensures
            r == (self@.n == 0),
    {
        self.num == 0
    }
}

} // verus!
