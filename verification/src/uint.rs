//! Unsigned 256-bit integers, as far as scaling and decimal text need them.
//!
//! A value is held as four 64-bit limbs, least significant first, and is
//! viewed as the natural number that the limbs spell in base 2^64.

use vstd::prelude::*;

verus! {

/// Two to the power 64: the weight of the second limb.
pub open spec fn limb_base() -> nat {
    0x1_0000_0000_0000_0000
}

/// Two to the power 256: the least number that no [`Uint256`] holds.
pub open spec fn uint256_bound() -> nat {
    limb_base() * limb_base() * limb_base() * limb_base()
}

/// The number that four limbs spell, least significant limb first.
pub open spec fn limbs_value(l0: u64, l1: u64, l2: u64, l3: u64) -> nat {
    (l0 as nat) + (l1 as nat) * limb_base() + (l2 as nat) * (limb_base() * limb_base()) + (
    l3 as nat) * (limb_base() * limb_base() * limb_base())
}

/// An unsigned integer below 2^256.
#[derive(Clone, Copy, Debug, PartialEq, Eq)]
pub struct Uint256 {
    pub limbs: [u64; 4],
}

impl View for Uint256 {
    type V = nat;

    open spec fn view(&self) -> nat {
        limbs_value(self.limbs[0], self.limbs[1], self.limbs[2], self.limbs[3])
    }
}

/// Every four limbs spell a number below 2^256.
pub proof fn lemma_limbs_value_bound(l0: u64, l1: u64, l2: u64, l3: u64)
    ensures
        limbs_value(l0, l1, l2, l3) < uint256_bound(),
{
    let b = limb_base() as int;
    assert((l1 as int) * b <= (b - 1) * b) by (nonlinear_arith)
        requires
            0 <= l1 as int <= b - 1,
            b > 0,
    ;
    assert((l2 as int) * (b * b) <= (b - 1) * (b * b)) by (nonlinear_arith)
        requires
            0 <= l2 as int <= b - 1,
            b > 0,
    ;
    assert((l3 as int) * (b * b * b) <= (b - 1) * (b * b * b)) by (nonlinear_arith)
        requires
            0 <= l3 as int <= b - 1,
            b > 0,
    ;
    assert((b - 1) + (b - 1) * b + (b - 1) * (b * b) + (b - 1) * (b * b * b) == b * b * b * b - 1)
        by (nonlinear_arith);
}

/// One step of a long division: divides the two-limb number `high, low` by
/// `d`, where `high` is the remainder that the step above left.
fn div_step(high: u64, low: u64, d: u64) -> (qr: (u64, u64))
    requires
        high < d,
    ensures
        high * limb_base() + low == qr.0 * d + qr.1,
        qr.1 < d,
{
    let cur: u128 = (high as u128) * 0x1_0000_0000_0000_0000u128 + (low as u128);
    let q: u128 = cur / (d as u128);
    let r: u128 = cur % (d as u128);
    proof {
        vstd::arithmetic::div_mod::lemma_fundamental_div_mod(cur as int, d as int);
        assert(q < 0x1_0000_0000_0000_0000) by (nonlinear_arith)
            requires
                cur == (d as int) * (q as int) + (r as int),
                cur < (high as int + 1) * 0x1_0000_0000_0000_0000,
                high < d,
                0 <= r,
                0 <= q,
        ;
        assert((d as int) * (q as int) == (q as int) * (d as int)) by (nonlinear_arith);
    }
    (q as u64, r as u64)
}

/// One step of a long multiplication: `limb * m + carry` as a low limb and
/// the carry into the next step.
fn mul_step(limb: u64, m: u64, carry: u64) -> (lc: (u64, u64))
    ensures
        limb * m + carry == lc.1 * limb_base() + lc.0,
{
    assert((limb as int) * (m as int) <= 0xffff_ffff_ffff_ffff * 0xffff_ffff_ffff_ffff)
        by (nonlinear_arith)
        requires
            0 <= limb as int <= 0xffff_ffff_ffff_ffff,
            0 <= m as int <= 0xffff_ffff_ffff_ffff,
    ;
    let p: u128 = (limb as u128) * (m as u128) + (carry as u128);
    let lo: u128 = p % 0x1_0000_0000_0000_0000u128;
    let hi: u128 = p / 0x1_0000_0000_0000_0000u128;
    (lo as u64, hi as u64)
}

impl Uint256 {
    /// The number that a `Uint256` holds is below 2^256.
    pub proof fn lemma_bounded(self)
        ensures
            self@ < uint256_bound(),
    {
        lemma_limbs_value_bound(self.limbs[0], self.limbs[1], self.limbs[2], self.limbs[3]);
    }

    /// The number that the four limbs spell, least significant first.
    pub fn from_limbs(limbs: [u64; 4]) -> (n: Uint256)
        ensures
            n.limbs == limbs,
            n@ == limbs_value(limbs[0], limbs[1], limbs[2], limbs[3]),
    {
        Uint256 { limbs }
    }

    /// The same number in 256 bits.
    pub fn from_u128(x: u128) -> (n: Uint256)
        ensures
            n@ == x,
    {
        let lo: u128 = x % 0x1_0000_0000_0000_0000u128;
        let hi: u128 = x / 0x1_0000_0000_0000_0000u128;
        let n = Uint256 { limbs: [lo as u64, hi as u64, 0, 0] };
        assert(n.limbs[0] == lo && n.limbs[1] == hi && n.limbs[2] == 0 && n.limbs[3] == 0);
        assert(n@ == lo + hi * limb_base());
        n
    }

    /// The number as a `u128`, where it fits.
    pub fn to_u128(&self) -> (x: Option<u128>)
        ensures
            x is Some <==> self@ <= u128::MAX,
            x is Some ==> x->0 == self@,
    {
        proof {
            let b = limb_base() as int;
            assert(0 <= (self.limbs[2] as int) * (b * b)) by (nonlinear_arith)
                requires
                    0 <= self.limbs[2] as int,
                    b > 0,
            ;
            assert(self.limbs[2] != 0 ==> b * b <= (self.limbs[2] as int) * (b * b))
                by (nonlinear_arith)
                requires
                    0 <= self.limbs[2] as int,
                    b > 0,
            ;
            assert(0 <= (self.limbs[3] as int) * (b * b * b)) by (nonlinear_arith)
                requires
                    0 <= self.limbs[3] as int,
                    b > 0,
            ;
            assert(self.limbs[3] != 0 ==> b * b <= (self.limbs[3] as int) * (b * b * b))
                by (nonlinear_arith)
                requires
                    0 <= self.limbs[3] as int,
                    b > 0,
            ;
        }
        if self.limbs[2] != 0 || self.limbs[3] != 0 {
            None
        } else {
            Some((self.limbs[1] as u128) * 0x1_0000_0000_0000_0000u128 + (self.limbs[0] as u128))
        }
    }

    /// Whether the number is zero.
    pub fn is_zero(&self) -> (z: bool)
        ensures
            z == (self@ == 0),
    {
        proof {
            let b = limb_base() as int;
            assert(self.limbs[1] != 0 ==> 0 < (self.limbs[1] as int) * b) by (nonlinear_arith)
                requires
                    0 <= self.limbs[1] as int,
                    b > 0,
            ;
            assert(self.limbs[2] != 0 ==> 0 < (self.limbs[2] as int) * (b * b))
                by (nonlinear_arith)
                requires
                    0 <= self.limbs[2] as int,
                    b > 0,
            ;
            assert(self.limbs[3] != 0 ==> 0 < (self.limbs[3] as int) * (b * b * b))
                by (nonlinear_arith)
                requires
                    0 <= self.limbs[3] as int,
                    b > 0,
            ;
        }
        self.limbs[0] == 0 && self.limbs[1] == 0 && self.limbs[2] == 0 && self.limbs[3] == 0
    }

    /// Quotient and remainder of the division by a non-zero `d`.
    pub fn div_rem(&self, d: u64) -> (qr: (Uint256, u64))
        requires
            d > 0,
        ensures
            self@ == qr.0@ * d + qr.1,
            qr.1 < d,
            qr.0@ == self@ / (d as nat),
            qr.1 == self@ % (d as nat),
    {
        let (q3, r3) = div_step(0, self.limbs[3], d);
        let (q2, r2) = div_step(r3, self.limbs[2], d);
        let (q1, r1) = div_step(r2, self.limbs[1], d);
        let (q0, r0) = div_step(r1, self.limbs[0], d);
        let q = Uint256 { limbs: [q0, q1, q2, q3] };
        proof {
            let b = limb_base() as int;
            let dd = d as int;
            let (t0, t1, t2, t3) = (q0 * dd, q1 * dd, q2 * dd, q3 * dd);
            let (l0, l1, l2, l3) = (
                self.limbs[0] as int,
                self.limbs[1] as int,
                self.limbs[2] as int,
                self.limbs[3] as int,
            );
            assert(l3 * (b * b * b) == t3 * (b * b * b) + (r3 * b) * (b * b)) by (nonlinear_arith)
                requires
                    l3 == t3 + r3,
            ;
            assert((r3 * b) * (b * b) + l2 * (b * b) == t2 * (b * b) + (r2 * b) * b)
                by (nonlinear_arith)
                requires
                    r3 * b + l2 == t2 + r2,
            ;
            assert((r2 * b) * b + l1 * b == t1 * b + r1 * b) by (nonlinear_arith)
                requires
                    r2 * b + l1 == t1 + r1,
            ;
            assert((q0 + q1 * b + q2 * (b * b) + q3 * (b * b * b)) * dd == t0 + t1 * b + t2 * (b
                * b) + t3 * (b * b * b)) by (nonlinear_arith)
                requires
                    t0 == q0 * dd,
                    t1 == q1 * dd,
                    t2 == q2 * dd,
                    t3 == q3 * dd,
            ;
            assert(self@ == q@ * d + r0);
            vstd::arithmetic::div_mod::lemma_fundamental_div_mod_converse(
                self@ as int,
                dd,
                q@ as int,
                r0 as int,
            );
        }
        (q, r0)
    }

    /// The number times `m` plus `a`, where that is below 2^256.
    pub fn mul_add(&self, m: u64, a: u64) -> (r: Option<Uint256>)
        ensures
            r is Some <==> self@ * m + a < uint256_bound(),
            r is Some ==> r->0@ == self@ * m + a,
    {
        let (w0, c0) = mul_step(self.limbs[0], m, a);
        let (w1, c1) = mul_step(self.limbs[1], m, c0);
        let (w2, c2) = mul_step(self.limbs[2], m, c1);
        let (w3, c3) = mul_step(self.limbs[3], m, c2);
        let product = Uint256 { limbs: [w0, w1, w2, w3] };
        proof {
            let b = limb_base() as int;
            let mm = m as int;
            let (l0, l1, l2, l3) = (
                self.limbs[0] as int,
                self.limbs[1] as int,
                self.limbs[2] as int,
                self.limbs[3] as int,
            );
            let (t0, t1, t2, t3) = (l0 * mm, l1 * mm, l2 * mm, l3 * mm);
            assert(t1 * b + c0 * b == (c1 * b) * b + w1 * b) by (nonlinear_arith)
                requires
                    t1 + c0 == c1 * b + w1,
            ;
            assert(t2 * (b * b) + (c1 * b) * b == (c2 * b) * (b * b) + w2 * (b * b))
                by (nonlinear_arith)
                requires
                    t2 + c1 == c2 * b + w2,
            ;
            assert(t3 * (b * b * b) + (c2 * b) * (b * b) == c3 * (b * b * b * b) + w3 * (b * b
                * b)) by (nonlinear_arith)
                requires
                    t3 + c2 == c3 * b + w3,
            ;
            assert((l0 + l1 * b + l2 * (b * b) + l3 * (b * b * b)) * mm == t0 + t1 * b + t2 * (b
                * b) + t3 * (b * b * b)) by (nonlinear_arith)
                requires
                    t0 == l0 * mm,
                    t1 == l1 * mm,
                    t2 == l2 * mm,
                    t3 == l3 * mm,
            ;
            assert(self@ == l0 + l1 * b + l2 * (b * b) + l3 * (b * b * b));
            assert(self@ * m == t0 + t1 * b + t2 * (b * b) + t3 * (b * b * b));
            assert(product@ == w0 + w1 * b + w2 * (b * b) + w3 * (b * b * b));
            assert(self@ * m + a == product@ + c3 * (b * b * b * b));
            lemma_limbs_value_bound(w0, w1, w2, w3);
            assert(c3 == 0 ==> c3 * (b * b * b * b) == 0) by (nonlinear_arith);
            assert(c3 != 0 ==> c3 * (b * b * b * b) >= b * b * b * b) by (nonlinear_arith)
                requires
                    c3 >= 0,
                    b > 0,
            ;
        }
        if c3 != 0 {
            None
        } else {
            Some(product)
        }
    }
}

} // verus!
