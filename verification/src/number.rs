//! Exact decimal numbers.
//!
//! A runtime number is a canonical scaled decimal: `mantissa / 10^scale`
//! with `scale` at most 18, `mantissa` within the symmetric `i64` range,
//! and no trailing zero in the fraction (`scale == 0` or the mantissa is
//! not divisible by ten).  Canonical form makes structural equality agree
//! with numeric equality.  Arithmetic is exact: an operation returns
//! `None` when its exact result has no canonical representation in this
//! range.
use crate::chars::{
    dec_digits, dec_digits_fixed, lemma_pow10_adds, lemma_pow10_increases, lemma_pow10_pos, pow10,
};
use vstd::arithmetic::div_mod::{
    lemma_fundamental_div_mod, lemma_fundamental_div_mod_converse,
};
use vstd::prelude::*;

verus! {

/// Largest admitted mantissa magnitude.
pub open spec fn max_mantissa() -> int {
    0x7fff_ffff_ffff_ffff
}

/// Largest admitted scale.
pub open spec fn max_scale() -> nat {
    18
}

#[derive(Debug, Clone, Copy, PartialEq, Eq, Structural)]
pub struct Number {
    pub mantissa: i64,
    pub scale: u32,
}

/// Strip factors of ten from the mantissa into the scale.
pub open spec fn canon(m: int, s: nat) -> (int, nat)
    decreases s,
{
    if s > 0 && m % 10 == 0 {
        canon(m / 10, (s - 1) as nat)
    } else {
        (m, s)
    }
}

/// A canonical pair small enough to be stored.
pub open spec fn fits(m: int, s: nat) -> bool {
    -max_mantissa() <= m <= max_mantissa() && s <= max_scale()
}

/// The canonical number for `m / 10^s`; meaningful when the canonical
/// form fits.
pub open spec fn norm_num(m: int, s: nat) -> Number {
    Number { mantissa: canon(m, s).0 as i64, scale: canon(m, s).1 as u32 }
}

/// The stored form of an exact value `m / 10^s`, when it has one.
pub open spec fn make(m: int, s: nat) -> Option<Number> {
    let c = canon(m, s);
    if fits(c.0, c.1) {
        Some(Number { mantissa: c.0 as i64, scale: c.1 as u32 })
    } else {
        None
    }
}

impl Number {
    /// Canonical well-formed decimal.
    pub open spec fn inv(self) -> bool {
        self.scale <= max_scale() && -max_mantissa() <= self.mantissa && (self.scale == 0
            || self.mantissa % 10 != 0)
    }

    /// `self` and `other` denote the same rational value.
    pub open spec fn same_value(self, other: Number) -> bool {
        self.mantissa * pow10(other.scale as nat) == other.mantissa * pow10(self.scale as nat)
    }

    pub open spec fn is_zero(self) -> bool {
        self.mantissa == 0
    }

    /// `self < other` as rational values.
    pub open spec fn spec_lt(self, other: Number) -> bool {
        self.mantissa * pow10(other.scale as nat) < other.mantissa * pow10(self.scale as nat)
    }

    pub open spec fn spec_le(self, other: Number) -> bool {
        self.mantissa * pow10(other.scale as nat) <= other.mantissa * pow10(self.scale as nat)
    }

    pub open spec fn spec_neg(self) -> Number {
        Number { mantissa: (-self.mantissa) as i64, scale: self.scale }
    }

    /// Exact sum, when representable.
    pub open spec fn spec_add(self, other: Number) -> Option<Number> {
        make(
            self.mantissa * pow10(other.scale as nat) + other.mantissa * pow10(self.scale as nat),
            self.scale as nat + other.scale as nat,
        )
    }

    /// Exact difference, when representable.
    pub open spec fn spec_sub(self, other: Number) -> Option<Number> {
        make(
            self.mantissa * pow10(other.scale as nat) - other.mantissa * pow10(self.scale as nat),
            self.scale as nat + other.scale as nat,
        )
    }

    /// Exact product, when representable.
    pub open spec fn spec_mul(self, other: Number) -> Option<Number> {
        make(self.mantissa * other.mantissa, self.scale as nat + other.scale as nat)
    }

    /// Whether `q` is exactly `self / other`.
    pub open spec fn divides_to(self, other: Number, q: Number) -> bool {
        q.inv() && q.mantissa * (other.mantissa * pow10(self.scale as nat)) == (self.mantissa
            * pow10(other.scale as nat)) * pow10(q.scale as nat)
    }

    /// Exact quotient, when it has a canonical representation.
    pub open spec fn spec_div(self, other: Number) -> Option<Number> {
        if exists|q: Number| self.divides_to(other, q) {
            Some(choose|q: Number| self.divides_to(other, q))
        } else {
            None
        }
    }
}

pub proof fn lemma_canon(m: int, s: nat)
    ensures
        canon(m, s).1 <= s,
        canon(m, s).0 * pow10(s) == m * pow10(canon(m, s).1),
        canon(m, s).1 == 0 || canon(m, s).0 % 10 != 0,
        m >= 0 ==> 0 <= canon(m, s).0 <= m,
        m <= 0 ==> m <= canon(m, s).0 <= 0,
        m == 0 ==> canon(m, s) == (0int, 0nat),
    decreases s,
{
    if s > 0 && m % 10 == 0 {
        let q = m / 10;
        lemma_fundamental_div_mod(m, 10);
        assert(m == 10 * q);
        lemma_canon(q, (s - 1) as nat);
        let c = canon(q, (s - 1) as nat);
        assert(canon(m, s) == c);
        assert(c.0 * pow10((s - 1) as nat) == q * pow10(c.1));
        assert(pow10(s) == 10 * pow10((s - 1) as nat));
        assert(c.0 * (10 * pow10((s - 1) as nat)) == 10 * (c.0 * pow10((s - 1) as nat)))
            by (nonlinear_arith);
        assert(10 * (q * pow10(c.1)) == (10 * q) * pow10(c.1)) by (nonlinear_arith);
        if m > 0 {
            assert(0 <= q <= m) by (nonlinear_arith)
                requires
                    m == 10 * q && m > 0,
            ;
        }
        if m < 0 {
            assert(m <= q <= 0) by (nonlinear_arith)
                requires
                    m == 10 * q && m < 0,
            ;
        }
        if m == 0 {
            assert(q == 0);
        }
    }
}

pub proof fn lemma_canon_neg(m: int, s: nat)
    ensures
        canon(-m, s).0 == -canon(m, s).0,
        canon(-m, s).1 == canon(m, s).1,
    decreases s,
{
    if s > 0 {
        if m % 10 == 0 {
            lemma_fundamental_div_mod(m, 10);
            let q = m / 10;
            assert(m == 10 * q);
            assert(-m == (-q) * 10 + 0) by (nonlinear_arith)
                requires
                    m == 10 * q,
            ;
            lemma_fundamental_div_mod_converse(-m, 10, -q, 0);
            assert((-m) % 10 == 0 && (-m) / 10 == -q);
            lemma_canon_neg(q, (s - 1) as nat);
        } else {
            lemma_fundamental_div_mod(m, 10);
            let r = m % 10;
            assert(0 < r < 10);
            assert(-m == (-(m / 10) - 1) * 10 + (10 - r)) by (nonlinear_arith)
                requires
                    m == 10 * (m / 10) + r,
            ;
            lemma_fundamental_div_mod_converse(-m, 10, -(m / 10) - 1, 10 - r);
            assert((-m) % 10 == 10 - r);
            assert((-m) % 10 != 0);
        }
    }
}

/// A value already canonical is its own canonical form.
pub proof fn lemma_canon_fixpoint(m: int, s: nat)
    requires
        s == 0 || m % 10 != 0,
    ensures
        canon(m, s) == (m, s),
{
}

/// Two canonical well-formed numbers with one value are one number.
pub proof fn lemma_value_unique(a: Number, b: Number)
    requires
        a.inv(),
        b.inv(),
        a.same_value(b),
    ensures
        a == b,
{
    let sa = a.scale as nat;
    let sb = b.scale as nat;
    lemma_pow10_pos(sa);
    lemma_pow10_pos(sb);
    if sa == sb {
        assert(a.mantissa == b.mantissa) by (nonlinear_arith)
            requires
                a.mantissa * pow10(sb) == b.mantissa * pow10(sa) && sa == sb && pow10(sa) >= 1,
        ;
    } else if sa < sb {
        lemma_larger_scale_has_trailing_zero(a.mantissa as int, sa, b.mantissa as int, sb);
    } else {
        assert(b.mantissa * pow10(sa) == a.mantissa * pow10(sb));
        lemma_larger_scale_has_trailing_zero(b.mantissa as int, sb, a.mantissa as int, sa);
    }
}

/// Helper: if one value carries a strictly larger scale, its mantissa
/// ends in a zero digit.
proof fn lemma_larger_scale_has_trailing_zero(m1: int, s1: nat, m2: int, s2: nat)
    requires
        s1 < s2,
        m1 * pow10(s2) == m2 * pow10(s1),
    ensures
        m2 % 10 == 0,
{
    let k = (s2 - s1) as nat;
    lemma_pow10_adds(s1, k);
    lemma_pow10_pos(s1);
    lemma_pow10_pos((k - 1) as nat);
    assert(pow10(s2) == pow10(s1) * pow10(k));
    assert(m1 * (pow10(s1) * pow10(k)) == (m1 * pow10(k)) * pow10(s1)) by (nonlinear_arith);
    assert((m1 * pow10(k)) * pow10(s1) == m2 * pow10(s1));
    assert(m1 * pow10(k) == m2) by (nonlinear_arith)
        requires
            (m1 * pow10(k)) * pow10(s1) == m2 * pow10(s1) && pow10(s1) >= 1,
    ;
    assert(pow10(k) == 10 * pow10((k - 1) as nat));
    assert(m2 == (m1 * pow10((k - 1) as nat)) * 10 + 0) by (nonlinear_arith)
        requires
            m2 == m1 * (10 * pow10((k - 1) as nat)),
    ;
    lemma_fundamental_div_mod_converse(m2, 10, m1 * pow10((k - 1) as nat), 0);
    assert(m2 % 10 == 0);
}

/// Negation flips divisibility by ten for no integer.
pub proof fn lemma_neg_mod10(m: int)
    ensures
        (m % 10 == 0) <==> ((-m) % 10 == 0),
{
    if m % 10 == 0 {
        lemma_fundamental_div_mod(m, 10);
        assert(-m == (-(m / 10)) * 10 + 0) by (nonlinear_arith)
            requires
                m == 10 * (m / 10),
        ;
        lemma_fundamental_div_mod_converse(-m, 10, -(m / 10), 0);
    } else {
        lemma_fundamental_div_mod(m, 10);
        let r = m % 10;
        assert(-m == (-(m / 10) - 1) * 10 + (10 - r)) by (nonlinear_arith)
            requires
                m == 10 * (m / 10) + r,
        ;
        lemma_fundamental_div_mod_converse(-m, 10, -(m / 10) - 1, 10 - r);
    }
}

pub proof fn lemma_pow10_18()
    ensures
        pow10(18) == 1000000000000000000,
{
    reveal_with_fuel(pow10, 20);
}

fn pow10_u64(e: u32) -> (r: u64)
    requires
        e <= 18,
    ensures
        r == pow10(e as nat),
{
    let mut r: u64 = 1;
    let mut i: u32 = 0;
    while i < e
        invariant
            i <= e <= 18,
            r == pow10(i as nat),
        decreases e - i,
    {
        proof {
            lemma_pow10_increases(i as nat + 1, 18);
            lemma_pow10_18();
            assert(pow10(i as nat + 1) == 10 * pow10(i as nat));
        }
        r = r * 10;
        i = i + 1;
    }
    r
}

fn abs_u64(m: i64) -> (r: u64)
    requires
        m > i64::MIN,
    ensures
        m >= 0 ==> r == m,
        m < 0 ==> r as int == -(m as int),
{
    if m < 0 {
        (-m) as u64
    } else {
        m as u64
    }
}

/// Divide trailing zeros of the mantissa into the scale.
fn canon_run(mag0: u128, s0: u32) -> (r: (u128, u32))
    ensures
        canon(mag0 as int, s0 as nat) == (r.0 as int, r.1 as nat),
{
    let mut mag: u128 = mag0;
    let mut s: u32 = s0;
    while s > 0 && mag % 10 == 0
        invariant
            canon(mag0 as int, s0 as nat) == canon(mag as int, s as nat),
        decreases s,
    {
        proof {
            lemma_fundamental_div_mod(mag as int, 10);
        }
        mag = mag / 10;
        s = s - 1;
    }
    (mag, s)
}

/// Store the signed exact value `mag / 10^s`, when it fits.
fn store(neg: bool, mag: u128, s: u32) -> (r: Option<Number>)
    ensures
        r == make(if neg { -(mag as int) } else { mag as int }, s as nat),
        r matches Some(n) ==> n.inv(),
{
    let c = canon_run(mag, s);
    proof {
        lemma_canon(mag as int, s as nat);
        if neg {
            lemma_canon_neg(mag as int, s as nat);
        }
    }
    if c.0 <= 0x7fff_ffff_ffff_ffffu128 && c.1 <= 18 {
        let m64: i64 = if neg {
            -(c.0 as i64)
        } else {
            c.0 as i64
        };
        Some(Number { mantissa: m64, scale: c.1 })
    } else {
        None
    }
}

impl Number {
    /// Mantissas brought to the common scale, as wide integers.
    fn aligned(&self, other: &Number) -> (r: (i128, i128))
        requires
            self.inv(),
            other.inv(),
        ensures
            r.0 == self.mantissa * pow10(other.scale as nat),
            r.1 == other.mantissa * pow10(self.scale as nat),
            -0x7fff_ffff_ffff_ffff * 1000000000000000000 <= r.0 <= 0x7fff_ffff_ffff_ffff
                * 1000000000000000000,
            -0x7fff_ffff_ffff_ffff * 1000000000000000000 <= r.1 <= 0x7fff_ffff_ffff_ffff
                * 1000000000000000000,
    {
        let pa: u64 = pow10_u64(other.scale);
        let pb: u64 = pow10_u64(self.scale);
        proof {
            lemma_pow10_18();
            lemma_pow10_pos(other.scale as nat);
            lemma_pow10_pos(self.scale as nat);
            lemma_pow10_increases(other.scale as nat, 18);
            lemma_pow10_increases(self.scale as nat, 18);
            lemma_mul_bound(self.mantissa as int, pa as int);
            lemma_mul_bound(other.mantissa as int, pb as int);
        }
        ((self.mantissa as i128) * (pa as i128), (other.mantissa as i128) * (pb as i128))
    }

    pub fn negated(&self) -> (r: Number)
        requires
            self.inv(),
        ensures
            r == self.spec_neg(),
            r.inv(),
    {
        proof {
            lemma_neg_mod10(self.mantissa as int);
        }
        Number { mantissa: -self.mantissa, scale: self.scale }
    }

    pub fn plus(&self, other: &Number) -> (r: Option<Number>)
        requires
            self.inv(),
            other.inv(),
        ensures
            r == self.spec_add(*other),
            r matches Some(n) ==> n.inv(),
    {
        let a = self.aligned(other);
        let sum: i128 = a.0 + a.1;
        let neg: bool = sum < 0;
        let mag: u128 = if neg {
            (-sum) as u128
        } else {
            sum as u128
        };
        store(neg, mag, self.scale + other.scale)
    }

    pub fn minus(&self, other: &Number) -> (r: Option<Number>)
        requires
            self.inv(),
            other.inv(),
        ensures
            r == self.spec_sub(*other),
            r matches Some(n) ==> n.inv(),
    {
        let a = self.aligned(other);
        let diff: i128 = a.0 - a.1;
        let neg: bool = diff < 0;
        let mag: u128 = if neg {
            (-diff) as u128
        } else {
            diff as u128
        };
        store(neg, mag, self.scale + other.scale)
    }

    pub fn times(&self, other: &Number) -> (r: Option<Number>)
        requires
            self.inv(),
            other.inv(),
        ensures
            r == self.spec_mul(*other),
            r matches Some(n) ==> n.inv(),
    {
        proof {
            lemma_mul_bound_i64(self.mantissa as int, other.mantissa as int);
            assert(-0x7fff_ffff_ffff_ffff * 0x7fff_ffff_ffff_ffff >= i128::MIN
                && 0x7fff_ffff_ffff_ffff * 0x7fff_ffff_ffff_ffff <= i128::MAX);
        }
        let prod: i128 = (self.mantissa as i128) * (other.mantissa as i128);
        let neg: bool = prod < 0;
        let mag: u128 = if neg {
            (-prod) as u128
        } else {
            prod as u128
        };
        store(neg, mag, self.scale + other.scale)
    }

    pub fn less_than(&self, other: &Number) -> (r: bool)
        requires
            self.inv(),
            other.inv(),
        ensures
            r == self.spec_lt(*other),
    {
        let a = self.aligned(other);
        a.0 < a.1
    }

    pub fn at_most(&self, other: &Number) -> (r: bool)
        requires
            self.inv(),
            other.inv(),
        ensures
            r == self.spec_le(*other),
    {
        let a = self.aligned(other);
        a.0 <= a.1
    }

    /// The canonical number read from an unsigned mantissa and scale.
    pub fn from_digits(mag: u64, s: u32) -> (r: Number)
        requires
            mag <= i64::MAX,
            s <= 18,
        ensures
            Some(r) == make(mag as int, s as nat),
            r.inv(),
    {
        proof {
            lemma_canon(mag as int, s as nat);
        }
        let st = store(false, mag as u128, s);
        match st {
            Some(n) => n,
            None => {
                proof {
                    assert(fits(canon(mag as int, s as nat).0, canon(mag as int, s as nat).1));
                }
                Number { mantissa: 0, scale: 0 }
            },
        }
    }

    /// Exact long division; `None` when the quotient has no canonical
    /// decimal representation in range.
    pub fn divided_by(&self, other: &Number) -> (r: Option<Number>)
        requires
            self.inv(),
            other.inv(),
            other.mantissa != 0,
        ensures
            r == self.spec_div(*other),
            r matches Some(n) ==> n.inv(),
    {
        let ghost sx = self.scale as nat;
        let ghost sy = other.scale as nat;
        let ghost sa = self.mantissa * pow10(sy);
        let ghost sb = other.mantissa * pow10(sx);
        let ma: u64 = abs_u64(self.mantissa);
        let mb: u64 = abs_u64(other.mantissa);
        let pa: u64 = pow10_u64(other.scale);
        let pb: u64 = pow10_u64(self.scale);
        let neg: bool = (self.mantissa < 0) != (other.mantissa < 0);
        proof {
            lemma_pow10_18();
            lemma_pow10_pos(sx);
            lemma_pow10_pos(sy);
            lemma_pow10_increases(sx, 18);
            lemma_pow10_increases(sy, 18);
            lemma_mul_bound(ma as int, pa as int);
            lemma_mul_bound(mb as int, pb as int);
        }
        let a_mag: u128 = (ma as u128) * (pa as u128);
        let b_mag: u128 = (mb as u128) * (pb as u128);
        proof {
            lemma_abs_mul(self.mantissa as int, pow10(sy));
            lemma_abs_mul(other.mantissa as int, pow10(sx));
            assert(a_mag == vstd::math::abs(sa));
            assert(b_mag == vstd::math::abs(sb));
            assert(b_mag >= 1) by (nonlinear_arith)
                requires
                    b_mag == (mb as int) * (pb as int) && mb >= 1 && pb >= 1,
            ;
            assert(b_mag <= 0x7fff_ffff_ffff_ffff * 1000000000000000000) by (nonlinear_arith)
                requires
                    b_mag == (mb as int) * (pb as int) && mb <= 0x7fff_ffff_ffff_ffff && 1 <= pb
                        <= 1000000000000000000,
            ;
            if self.mantissa < 0 {
                assert(sa < 0) by (nonlinear_arith)
                    requires
                        sa == self.mantissa * pow10(sy) && self.mantissa < 0 && pow10(sy) >= 1,
                ;
            } else {
                assert(sa >= 0) by (nonlinear_arith)
                    requires
                        sa == self.mantissa * pow10(sy) && self.mantissa >= 0 && pow10(sy) >= 1,
                ;
            }
            if other.mantissa < 0 {
                assert(sb < 0) by (nonlinear_arith)
                    requires
                        sb == other.mantissa * pow10(sx) && other.mantissa < 0 && pow10(sx) >= 1,
                ;
            } else {
                assert(sb > 0) by (nonlinear_arith)
                    requires
                        sb == other.mantissa * pow10(sx) && other.mantissa > 0 && pow10(sx) >= 1,
                ;
            }
            assert(sa == if self.mantissa < 0 { -(a_mag as int) } else { a_mag as int });
            assert(sb == if other.mantissa < 0 { -(b_mag as int) } else { b_mag as int });
            lemma_fundamental_div_mod(a_mag as int, b_mag as int);
            assert(pow10(0) == 1);
            assert((a_mag / b_mag) * b_mag + a_mag % b_mag == a_mag) by (nonlinear_arith)
                requires
                    a_mag == b_mag * (a_mag / b_mag) + a_mag % b_mag,
            ;
        }
        let mut m: u128 = a_mag / b_mag;
        let mut rem: u128 = a_mag % b_mag;
        let mut s: u32 = 0;
        while rem != 0 && s < 18 && m <= 0x7fff_ffff_ffff_ffffu128
            invariant
                1 <= b_mag <= 0x7fff_ffff_ffff_ffff * 1000000000000000000,
                rem < b_mag,
                s <= 18,
                m * b_mag + rem == a_mag * pow10(s as nat),
                sa == (if self.mantissa < 0 { -(a_mag as int) } else { a_mag as int }),
                sb == (if other.mantissa < 0 { -(b_mag as int) } else { b_mag as int }),
                rem == 0 ==> (s == 0 || m % 10 != 0),
                forall|qm: int, qs: nat| #![trigger qm * b_mag, pow10(qs)]
                    qs < s ==> qm * b_mag != a_mag * pow10(qs),
            decreases 18 - s,
        {
            let d: u128 = (rem * 10) / b_mag;
            let new_rem: u128 = (rem * 10) % b_mag;
            proof {
                lemma_fundamental_div_mod((rem * 10) as int, b_mag as int);
                assert(d < 10) by (nonlinear_arith)
                    requires
                        d * b_mag + new_rem == rem * 10 && 0 <= new_rem && rem < b_mag && 1
                            <= b_mag && d >= 0,
                ;
                assert((m * 10 + d) * b_mag + new_rem == a_mag * pow10(s as nat + 1))
                    by (nonlinear_arith)
                    requires
                        m * b_mag + rem == a_mag * pow10(s as nat) && d * b_mag + new_rem == rem
                            * 10 && pow10(s as nat + 1) == 10 * pow10(s as nat),
                ;
                if new_rem == 0 {
                    assert(d != 0) by (nonlinear_arith)
                        requires
                            d * b_mag + new_rem == rem * 10 && new_rem == 0 && rem >= 1 && d >= 0
                                && b_mag >= 1,
                    ;
                    vstd::arithmetic::div_mod::lemma_fundamental_div_mod_converse(
                        (m * 10 + d) as int,
                        10,
                        m as int,
                        d as int,
                    );
                }
                assert forall|qm: int, qs: nat| #![trigger qm * b_mag, pow10(qs)]
                    qs < s + 1 implies qm * b_mag != a_mag * pow10(qs) by {
                    if qs == s as nat {
                        if qm * b_mag == a_mag * pow10(qs) {
                            assert(qm * b_mag == m * b_mag + rem);
                            assert(false) by (nonlinear_arith)
                                requires
                                    qm * b_mag == m * b_mag + rem && 0 < rem < b_mag,
                            ;
                        }
                    }
                }
            }
            m = m * 10 + d;
            rem = new_rem;
            s = s + 1;
        }
        if rem == 0 && m <= 0x7fff_ffff_ffff_ffffu128 {
            let q = Number {
                mantissa: if neg {
                    -(m as i64)
                } else {
                    m as i64
                },
                scale: s,
            };
            proof {
                lemma_neg_mod10(m as int);
                assert(q.inv());
                assert(m * b_mag == a_mag * pow10(s as nat));
                let qm = q.mantissa as int;
                assert(qm == (if neg { -(m as int) } else { m as int }));
                assert(qm * sb == sa * pow10(s as nat)) by (nonlinear_arith)
                    requires
                        m * b_mag == a_mag * pow10(s as nat) && qm == (if neg {
                            -(m as int)
                        } else {
                            m as int
                        }) && neg == ((self.mantissa < 0) != (other.mantissa < 0)) && sa == (
                        if self.mantissa < 0 {
                            -(a_mag as int)
                        } else {
                            a_mag as int
                        }) && sb == (if other.mantissa < 0 {
                            -(b_mag as int)
                        } else {
                            b_mag as int
                        }),
                ;
                assert(self.divides_to(*other, q));
                let qq = choose|qc: Number| self.divides_to(*other, qc);
                lemma_div_unique(*self, *other, qq, q);
            }
            Some(q)
        } else {
            proof {
                assert forall|qc: Number| !self.divides_to(*other, qc) by {
                    if self.divides_to(*other, qc) {
                        lemma_divides_to_mag(*self, *other, qc);
                        let qmm = vstd::math::abs(qc.mantissa as int);
                        let qs = qc.scale as nat;
                        assert(qmm * b_mag == a_mag * pow10(qs));
                        assert(qs >= s);
                        lemma_pow10_adds(s as nat, (qs - s) as nat);
                        lemma_pow10_pos((qs - s) as nat);
                        assert(qmm * b_mag == (m * b_mag + rem) * pow10((qs - s) as nat))
                            by (nonlinear_arith)
                            requires
                                qmm * b_mag == a_mag * pow10(qs) && pow10(qs) == pow10(s as nat)
                                    * pow10((qs - s) as nat) && m * b_mag + rem == a_mag * pow10(
                                    s as nat,
                                ),
                        ;
                        if s == 18 && rem != 0 {
                            assert(qs == s);
                            assert(pow10((qs - s) as nat) == 1);
                            assert(false) by (nonlinear_arith)
                                requires
                                    qmm * b_mag == (m * b_mag + rem) * 1 && 0 < rem < b_mag,
                            ;
                        } else {
                            assert(m > 0x7fff_ffff_ffff_ffff);
                            assert(qmm >= m) by (nonlinear_arith)
                                requires
                                    qmm * b_mag == (m * b_mag + rem) * pow10((qs - s) as nat)
                                        && pow10((qs - s) as nat) >= 1 && rem >= 0 && b_mag >= 1
                                        && qmm >= 0,
                            ;
                        }
                    }
                }
            }
            None
        }
    }
}

/// Canonical decimal text of a number: an optional minus sign, the
/// integer digits, and, for a positive scale, a dot followed by exactly
/// `scale` fraction digits.
pub open spec fn number_text(n: Number) -> Seq<char> {
    let mag = vstd::math::abs(n.mantissa as int);
    let sign = if n.mantissa < 0 {
        seq!['-']
    } else {
        Seq::<char>::empty()
    };
    if n.scale == 0 {
        sign + dec_digits(mag)
    } else {
        sign + dec_digits((mag as int / pow10(n.scale as nat)) as nat) + seq!['.']
            + dec_digits_fixed((mag as int % pow10(n.scale as nat)) as nat, n.scale as nat)
    }
}

/// The text of one decimal digit.
fn digit_str(d: u64) -> (r: &'static str)
    requires
        d < 10,
    ensures
        r@ == seq![crate::chars::digit_char(d as int)],
{
    proof {
        reveal_strlit("0");
        reveal_strlit("1");
        reveal_strlit("2");
        reveal_strlit("3");
        reveal_strlit("4");
        reveal_strlit("5");
        reveal_strlit("6");
        reveal_strlit("7");
        reveal_strlit("8");
        reveal_strlit("9");
        assert("0"@ =~= seq!['0']);
        assert("1"@ =~= seq!['1']);
        assert("2"@ =~= seq!['2']);
        assert("3"@ =~= seq!['3']);
        assert("4"@ =~= seq!['4']);
        assert("5"@ =~= seq!['5']);
        assert("6"@ =~= seq!['6']);
        assert("7"@ =~= seq!['7']);
        assert("8"@ =~= seq!['8']);
        assert("9"@ =~= seq!['9']);
    }
    if d == 0 {
        "0"
    } else if d == 1 {
        "1"
    } else if d == 2 {
        "2"
    } else if d == 3 {
        "3"
    } else if d == 4 {
        "4"
    } else if d == 5 {
        "5"
    } else if d == 6 {
        "6"
    } else if d == 7 {
        "7"
    } else if d == 8 {
        "8"
    } else {
        "9"
    }
}

fn dec_digits_exec(n: u64) -> (r: String)
    ensures
        r@ == dec_digits(n as nat),
    decreases n,
{
    proof {
        lemma_fundamental_div_mod(n as int, 10);
    }
    if n < 10 {
        let d = digit_str(n);
        d.to_owned()
    } else {
        let mut r = dec_digits_exec(n / 10);
        r.append(digit_str(n % 10));
        r
    }
}

fn dec_digits_fixed_exec(n: u64, w: u32) -> (r: String)
    ensures
        r@ == dec_digits_fixed(n as nat, w as nat),
    decreases w,
{
    if w == 0 {
        let r = String::new();
        proof {
            assert(r@ =~= dec_digits_fixed(n as nat, 0));
        }
        r
    } else {
        let mut r = dec_digits_fixed_exec(n / 10, w - 1);
        r.append(digit_str(n % 10));
        r
    }
}

impl Number {
    /// Render the canonical decimal text.
    pub fn text(&self) -> (r: String)
        requires
            self.inv(),
        ensures
            r@ == number_text(*self),
    {
        let mag: u64 = abs_u64(self.mantissa);
        let mut out = String::new();
        if self.mantissa < 0 {
            proof {
                reveal_strlit("-");
                assert("-"@ =~= seq!['-']);
            }
            out.append("-");
        }
        if self.scale == 0 {
            let ds = dec_digits_exec(mag);
            out.append(ds.as_str());
            proof {
                assert(out@ =~= number_text(*self));
            }
        } else {
            let p: u64 = pow10_u64(self.scale);
            proof {
                lemma_pow10_pos(self.scale as nat);
            }
            let ip: u64 = mag / p;
            let fp: u64 = mag % p;
            let ds = dec_digits_exec(ip);
            out.append(ds.as_str());
            proof {
                reveal_strlit(".");
                assert("."@ =~= seq!['.']);
            }
            out.append(".");
            let fs = dec_digits_fixed_exec(fp, self.scale);
            out.append(fs.as_str());
            proof {
                assert(out@ =~= number_text(*self));
            }
        }
        out
    }
}

/// The absolute value distributes over a product.
proof fn lemma_abs_mul(x: int, y: int)
    ensures
        vstd::math::abs(x * y) == vstd::math::abs(x) * vstd::math::abs(y),
{
    if x >= 0 && y >= 0 {
        assert(x * y >= 0) by (nonlinear_arith)
            requires
                x >= 0 && y >= 0,
        ;
    } else if x >= 0 && y < 0 {
        assert(x * y <= 0 && x * y == -(x * (-y))) by (nonlinear_arith)
            requires
                x >= 0 && y < 0,
        ;
    } else if x < 0 && y >= 0 {
        assert(x * y <= 0 && x * y == -((-x) * y)) by (nonlinear_arith)
            requires
                x < 0 && y >= 0,
        ;
    } else {
        assert(x * y >= 0 && x * y == (-x) * (-y)) by (nonlinear_arith)
            requires
                x < 0 && y < 0,
        ;
    }
}

/// A stored result is always canonical and in range.
pub proof fn lemma_make_inv(m: int, s: nat)
    ensures
        make(m, s) matches Some(n) ==> n.inv(),
{
    lemma_canon(m, s);
}

/// Negation keeps a number canonical.
pub proof fn lemma_neg_inv(n: Number)
    requires
        n.inv(),
    ensures
        n.spec_neg().inv(),
{
    lemma_neg_mod10(n.mantissa as int);
}

/// An exact quotient is unique.
pub proof fn lemma_div_unique(x: Number, y: Number, q1: Number, q2: Number)
    requires
        y.mantissa != 0,
        x.divides_to(y, q1),
        x.divides_to(y, q2),
    ensures
        q1 == q2,
{
    let sx = x.scale as nat;
    let sy = y.scale as nat;
    let s1 = q1.scale as nat;
    let s2 = q2.scale as nat;
    let a = x.mantissa * pow10(sy);
    let b = y.mantissa * pow10(sx);
    lemma_pow10_pos(sx);
    lemma_pow10_pos(sy);
    lemma_pow10_pos(s1);
    lemma_pow10_pos(s2);
    assert(b != 0) by (nonlinear_arith)
        requires
            y.mantissa != 0 && pow10(sx) >= 1 && b == y.mantissa * pow10(sx),
    ;
    assert((q1.mantissa * pow10(s2)) * b == (q2.mantissa * pow10(s1)) * b) by (nonlinear_arith)
        requires
            q1.mantissa * b == a * pow10(s1) && q2.mantissa * b == a * pow10(s2),
    ;
    assert(q1.mantissa * pow10(s2) == q2.mantissa * pow10(s1)) by (nonlinear_arith)
        requires
            (q1.mantissa * pow10(s2)) * b == (q2.mantissa * pow10(s1)) * b && b != 0,
    ;
    lemma_value_unique(q1, q2);
}

/// The quotient equation carried over to magnitudes.
proof fn lemma_divides_to_mag(x: Number, y: Number, q: Number)
    requires
        y.mantissa != 0,
        x.divides_to(y, q),
    ensures
        vstd::math::abs(q.mantissa as int) * (vstd::math::abs(y.mantissa as int) * pow10(
            x.scale as nat,
        )) == (vstd::math::abs(x.mantissa as int) * pow10(y.scale as nat)) * pow10(q.scale as nat),
{
    let sx = x.scale as nat;
    let sy = y.scale as nat;
    let sq = q.scale as nat;
    let a = x.mantissa * pow10(sy);
    let b = y.mantissa * pow10(sx);
    lemma_pow10_pos(sx);
    lemma_pow10_pos(sy);
    lemma_pow10_pos(sq);
    lemma_abs_mul(q.mantissa as int, b);
    lemma_abs_mul(y.mantissa as int, pow10(sx));
    lemma_abs_mul(x.mantissa as int, pow10(sy));
    lemma_abs_mul(a, pow10(sq));
    assert(vstd::math::abs(pow10(sx)) == pow10(sx));
    assert(vstd::math::abs(pow10(sy)) == pow10(sy));
    assert(vstd::math::abs(pow10(sq)) == pow10(sq));
    assert(vstd::math::abs(q.mantissa * b) == vstd::math::abs(a * pow10(sq)));
    assert(vstd::math::abs(q.mantissa as int) * (vstd::math::abs(y.mantissa as int) * pow10(sx))
        == vstd::math::abs(q.mantissa as int) * vstd::math::abs(b)) by (nonlinear_arith)
        requires
            vstd::math::abs(b) == vstd::math::abs(y.mantissa as int) * vstd::math::abs(
                pow10(sx),
            ) && vstd::math::abs(pow10(sx)) == pow10(sx),
    ;
    assert((vstd::math::abs(x.mantissa as int) * pow10(sy)) * pow10(sq) == vstd::math::abs(a)
        * vstd::math::abs(pow10(sq))) by (nonlinear_arith)
        requires
            vstd::math::abs(a) == vstd::math::abs(x.mantissa as int) * vstd::math::abs(
                pow10(sy),
            ) && vstd::math::abs(pow10(sy)) == pow10(sy) && vstd::math::abs(pow10(sq)) == pow10(
                sq,
            ),
    ;
}

/// Bound on a product of an `i64`-sized factor and a power of ten
/// factor no larger than `10^18`.
proof fn lemma_mul_bound(m: int, p: int)
    requires
        -0x7fff_ffff_ffff_ffff <= m <= 0x7fff_ffff_ffff_ffff,
        1 <= p <= 1000000000000000000,
    ensures
        -0x7fff_ffff_ffff_ffff * 1000000000000000000 <= m * p <= 0x7fff_ffff_ffff_ffff
            * 1000000000000000000,
{
    assert(m * p <= 0x7fff_ffff_ffff_ffff * 1000000000000000000 && -0x7fff_ffff_ffff_ffff
        * 1000000000000000000 <= m * p) by (nonlinear_arith)
        requires
            -0x7fff_ffff_ffff_ffff <= m <= 0x7fff_ffff_ffff_ffff && 1 <= p
                <= 1000000000000000000,
    ;
}

proof fn lemma_mul_bound_i64(m: int, n: int)
    requires
        -0x7fff_ffff_ffff_ffff <= m <= 0x7fff_ffff_ffff_ffff,
        -0x7fff_ffff_ffff_ffff <= n <= 0x7fff_ffff_ffff_ffff,
    ensures
        -0x7fff_ffff_ffff_ffff * 0x7fff_ffff_ffff_ffff <= m * n <= 0x7fff_ffff_ffff_ffff
            * 0x7fff_ffff_ffff_ffff,
{
    assert(m * n <= 0x7fff_ffff_ffff_ffff * 0x7fff_ffff_ffff_ffff && -0x7fff_ffff_ffff_ffff
        * 0x7fff_ffff_ffff_ffff <= m * n) by (nonlinear_arith)
        requires
            -0x7fff_ffff_ffff_ffff <= m <= 0x7fff_ffff_ffff_ffff && -0x7fff_ffff_ffff_ffff <= n
                <= 0x7fff_ffff_ffff_ffff,
    ;
}

} // verus!
