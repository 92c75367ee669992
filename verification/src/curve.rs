//! The Stark curve over the field, and the Pedersen hash built on it.
//!
//! Points are affine with an infinity flag, exactly as wide as the hash
//! needs: the doubling and addition formulas are specified as the direct
//! composition of field operations that the code performs.

use vstd::prelude::*;

verus! {

use vstd::arithmetic::div_mod::{
    lemma_fundamental_div_mod_converse,
    lemma_small_mod,
};
use vstd::arithmetic::mul::{lemma_mul_basics, lemma_mul_inequality, lemma_mul_is_commutative};
use vstd::arithmetic::power2::pow2;
use crate::field::{Fp, prime, f_add, f_sub, f_mul, f_inv, bits_to_nat, limbs_nat};

/// A point on the elliptic curve over the field, in affine coordinates.
#[derive(Clone, Copy, Debug, PartialEq, Eq)]
pub struct CurvePoint {
    pub x: Fp,
    pub y: Fp,
    pub infinity: bool,
}

/// The mathematical value of a point: both coordinates and the infinity flag.
pub open spec fn pt(p: CurvePoint) -> (nat, nat, bool) {
    (p.x@, p.y@, p.infinity)
}

/// Doubling: `lambda = (3x^2 + 1) / 2y`, then the chord construction.
/// When `y` is zero the inverse degenerates to zero and the result is the
/// corresponding fixed value; the curve has no such point, so the case never
/// arises for points on the curve.
pub open spec fn curve_double_pt(q: (nat, nat, bool)) -> (nat, nat, bool) {
    if q.2 {
        q
    } else {
        let lam = f_mul(f_add(f_mul(3, f_mul(q.0, q.0)), 1), f_inv(f_mul(2, q.1)));
        let rx = f_sub(f_sub(f_mul(lam, lam), q.0), q.0);
        let ry = f_sub(f_mul(lam, f_sub(q.0, rx)), q.1);
        (rx, ry, false)
    }
}

/// Addition: `lambda = (y2 - y1) / (x2 - x1)`, then the chord construction.
/// When the abscissas coincide the inverse degenerates to zero, as above.
pub open spec fn curve_add_pt(p: (nat, nat, bool), q: (nat, nat, bool)) -> (nat, nat, bool) {
    if p.2 {
        q
    } else if q.2 {
        p
    } else {
        let lam = f_mul(f_sub(q.1, p.1), f_inv(f_sub(q.0, p.0)));
        let rx = f_sub(f_sub(f_mul(lam, lam), p.0), q.0);
        let ry = f_sub(f_mul(lam, f_sub(p.0, rx)), p.1);
        (rx, ry, false)
    }
}

/// Scalar multiplication by double-and-add, most significant bit first.
pub open spec fn curve_mul_pt(p: (nat, nat, bool), k: nat) -> (nat, nat, bool)
    decreases k,
{
    if k == 0 {
        (0, 0, true)
    } else {
        let r = curve_double_pt(curve_mul_pt(p, k / 2));
        if k % 2 == 1 {
            curve_add_pt(r, p)
        } else {
            r
        }
    }
}

impl CurvePoint {
    /// Both coordinates are reduced field elements.
    pub open spec fn wf(&self) -> bool {
        self.x.wf() && self.y.wf()
    }

    /// The identity of the curve group.
    pub fn identity() -> (r: CurvePoint)
        ensures
            r.wf(),
            pt(r) == (0nat, 0nat, true),
    {
        CurvePoint { x: Fp::zero(), y: Fp::zero(), infinity: true }
    }

    /// Doubles the point.
    pub fn double(&self) -> (r: CurvePoint)
        requires
            self.wf(),
        ensures
            r.wf(),
            pt(r) == curve_double_pt(pt(*self)),
    {
        if self.infinity {
            return *self;
        }
        let one = Fp::one();
        let two = one.add(&one);
        let three = two.add(&one);
        proof {
            lemma_small_mod(2, prime());
            lemma_small_mod(3, prime());
        }
        let dividend = three.mul(&self.x.mul(&self.x)).add(&one);
        let divisor_inv = two.mul(&self.y).invert();
        let lambda = dividend.mul(&divisor_inv);
        let result_x = lambda.mul(&lambda).sub(&self.x).sub(&self.x);
        let result_y = lambda.mul(&self.x.sub(&result_x)).sub(&self.y);
        CurvePoint { x: result_x, y: result_y, infinity: false }
    }

    /// Adds another point.
    pub fn add(&self, other: &CurvePoint) -> (r: CurvePoint)
        requires
            self.wf(),
            other.wf(),
        ensures
            r.wf(),
            pt(r) == curve_add_pt(pt(*self), pt(*other)),
    {
        if self.infinity {
            return *other;
        }
        if other.infinity {
            return *self;
        }
        let dividend = other.y.sub(&self.y);
        let divisor_inv = other.x.sub(&self.x).invert();
        let lambda = dividend.mul(&divisor_inv);
        let result_x = lambda.mul(&lambda).sub(&self.x).sub(&other.x);
        let result_y = lambda.mul(&self.x.sub(&result_x)).sub(&self.y);
        CurvePoint { x: result_x, y: result_y, infinity: false }
    }

    /// Multiplies the point by the scalar carried by `bits`, least
    /// significant bit first.
    pub fn multiply(&self, bits: &Vec<bool>) -> (r: CurvePoint)
        requires
            self.wf(),
        ensures
            r.wf(),
            pt(r) == curve_mul_pt(pt(*self), bits_to_nat(bits@)),
    {
        let mut product = CurvePoint::identity();
        let mut j = bits.len();
        proof {
            assert(bits@.skip(j as int) =~= Seq::<bool>::empty());
        }
        while j > 0
            invariant
                j <= bits@.len(),
                self.wf(),
                product.wf(),
                pt(product) == curve_mul_pt(pt(*self), bits_to_nat(bits@.skip(j as int))),
            decreases j,
        {
            j = j - 1;
            proof {
                let s = bits@.skip(j as int);
                assert(s.drop_first() =~= bits@.skip(j as int + 1));
                assert(s[0] == bits@[j as int]);
                let q = bits_to_nat(bits@.skip(j as int + 1));
                let b: nat = if bits@[j as int] {
                    1
                } else {
                    0
                };
                assert(bits_to_nat(s) == b + 2 * q);
                lemma_fundamental_div_mod_converse((b + 2 * q) as int, 2, q as int, b as int);
            }
            product = product.double();
            if *bits.get(j).unwrap_or(&false) {
                product = product.add(self);
            }
        }
        proof {
            assert(bits@.skip(0) =~= bits@);
        }
        product
    }
}

/// The canonical coordinates of the hash constant `P0`.
pub open spec fn p0_pt() -> (nat, nat, bool) {
    (0x49ee3eba8c1600700ee1b87eb599f16716b0b1022947733551fde4050ca6804nat, 0x3ca0cfe4b3bc6ddf346d49d06ea0ed34e621062c0e056c1d0405d266e10268anat, false)
}

/// The canonical coordinates of the hash constant `P1`.
pub open spec fn p1_pt() -> (nat, nat, bool) {
    (0x234287dcbaffe7f969c748655fca9e58fa8120b6d56eb0c1080d17957ebe47bnat, 0x3b056f100f96fb21e889527d41f4e39940135dd7a6c94cc6ed0268ee89e5615nat, false)
}

/// The canonical coordinates of the hash constant `P2`.
pub open spec fn p2_pt() -> (nat, nat, bool) {
    (0x4fa56f376c83db33f9dab2656558f3399099ec1de5e3018b7a6932dba8aa378nat, 0x3fa0984c931c9e38113e0c0e47e4401562761f92a7a23b45168f4e80ff5b54dnat, false)
}

/// The canonical coordinates of the hash constant `P3`.
pub open spec fn p3_pt() -> (nat, nat, bool) {
    (0x4ba4cc166be8dec764910f75b45f74b40c690c74709e90f3aa372f0bd2d6997nat, 0x40301cf5c1751f4b971e46c4ede85fcac5c59a5ce5ae7c48151f27b24b219cnat, false)
}

/// The canonical coordinates of the hash constant `P4`.
pub open spec fn p4_pt() -> (nat, nat, bool) {
    (0x54302dcb0e6cc1c6e44cca8f61a63bb2ca65048d53fb325d36ff12c49a58202nat, 0x1b77b3e37d13504b348046268d8ae25ce98ad783c25561a879dcc77e99c2426nat, false)
}

/// The Stark curve constant `P0` of the hash.
pub fn pedersen_p0() -> (r: CurvePoint)
    ensures
        r.wf(),
        pt(r) == p0_pt(),
{
    CurvePoint {
        x: Fp { limbs: [0x551fde4050ca6804, 0x716b0b1022947733, 0xee1b87eb599f16, 0x49ee3eba8c16007] },
        y: Fp { limbs: [0xd0405d266e10268a, 0x4e621062c0e056c1, 0xf346d49d06ea0ed3, 0x3ca0cfe4b3bc6dd] },
        infinity: false,
    }
}

/// The Stark curve constant `P1` of the hash.
pub fn pedersen_p1() -> (r: CurvePoint)
    ensures
        r.wf(),
        pt(r) == p1_pt(),
{
    CurvePoint {
        x: Fp { limbs: [0x1080d17957ebe47b, 0x8fa8120b6d56eb0c, 0x969c748655fca9e5, 0x234287dcbaffe7f] },
        y: Fp { limbs: [0x6ed0268ee89e5615, 0x940135dd7a6c94cc, 0x1e889527d41f4e39, 0x3b056f100f96fb2] },
        infinity: false,
    }
}

/// The Stark curve constant `P2` of the hash.
pub fn pedersen_p2() -> (r: CurvePoint)
    ensures
        r.wf(),
        pt(r) == p2_pt(),
{
    CurvePoint {
        x: Fp { limbs: [0xb7a6932dba8aa378, 0x99099ec1de5e3018, 0x3f9dab2656558f33, 0x4fa56f376c83db3] },
        y: Fp { limbs: [0x5168f4e80ff5b54d, 0x562761f92a7a23b4, 0x8113e0c0e47e4401, 0x3fa0984c931c9e3] },
        infinity: false,
    }
}

/// The Stark curve constant `P3` of the hash.
pub fn pedersen_p3() -> (r: CurvePoint)
    ensures
        r.wf(),
        pt(r) == p3_pt(),
{
    CurvePoint {
        x: Fp { limbs: [0x3aa372f0bd2d6997, 0x40c690c74709e90f, 0x764910f75b45f74b, 0x4ba4cc166be8dec] },
        y: Fp { limbs: [0x48151f27b24b219c, 0xcac5c59a5ce5ae7c, 0x4b971e46c4ede85f, 0x40301cf5c1751f] },
        infinity: false,
    }
}

/// The Stark curve constant `P4` of the hash.
pub fn pedersen_p4() -> (r: CurvePoint)
    ensures
        r.wf(),
        pt(r) == p4_pt(),
{
    CurvePoint {
        x: Fp { limbs: [0xd36ff12c49a58202, 0x2ca65048d53fb325, 0x6e44cca8f61a63bb, 0x54302dcb0e6cc1c] },
        y: Fp { limbs: [0x879dcc77e99c2426, 0xce98ad783c25561a, 0xb348046268d8ae25, 0x1b77b3e37d13504] },
        infinity: false,
    }
}


/// The Pedersen hash of `a` and `b`: the abscissa of
/// `P0 + a_low * P1 + a_high * P2 + b_low * P3 + b_high * P4`, where the low
/// part is the lowest 248 bits of a value and the high part the rest.
pub open spec fn pedersen_spec(av: nat, bv: nat) -> nat {
    let acc1 = curve_add_pt(p0_pt(), curve_mul_pt(p1_pt(), av % pow2(248)));
    let acc2 = curve_add_pt(acc1, curve_mul_pt(p2_pt(), av / pow2(248)));
    let acc3 = curve_add_pt(acc2, curve_mul_pt(p3_pt(), bv % pow2(248)));
    let acc4 = curve_add_pt(acc3, curve_mul_pt(p4_pt(), bv / pow2(248)));
    acc4.0
}

/// A copy of the given range of a bit vector.
fn bits_range(bits: &Vec<bool>, lo: usize, hi: usize) -> (r: Vec<bool>)
    requires
        lo <= hi <= bits@.len(),
    ensures
        r@ == bits@.subrange(lo as int, hi as int),
{
    let mut v: Vec<bool> = Vec::new();
    let mut j = lo;
    while j < hi
        invariant
            lo <= j <= hi <= bits@.len(),
            v@ =~= bits@.subrange(lo as int, j as int),
        decreases hi - j,
    {
        v.push(*bits.get(j).unwrap_or(&false));
        proof {
            assert(v@ =~= bits@.subrange(lo as int, j as int + 1));
        }
        j = j + 1;
    }
    proof {
        assert(v@ =~= bits@.subrange(lo as int, hi as int));
    }
    v
}

/// A bit sequence is worth less than `2^len`.
proof fn lemma_bits_bound(s: Seq<bool>)
    ensures
        bits_to_nat(s) < pow2(s.len()),
    decreases s.len(),
{
    vstd::arithmetic::power2::lemma2_to64();
    if s.len() == 0 {
    } else {
        lemma_bits_bound(s.drop_first());
        vstd::arithmetic::power2::lemma_pow2_unfold(s.len());
    }
}

/// A bit sequence splits at `k` into its low `k` bits and the rest.
proof fn lemma_bits_split(s: Seq<bool>, k: int)
    requires
        0 <= k <= s.len(),
    ensures
        bits_to_nat(s) == bits_to_nat(s.take(k)) + pow2(k as nat) * bits_to_nat(s.skip(k)),
    decreases k,
{
    vstd::arithmetic::power2::lemma2_to64();
    if k == 0 {
        assert(s.take(0) =~= Seq::<bool>::empty());
        assert(s.skip(0) =~= s);
        lemma_mul_basics(bits_to_nat(s) as int);
    } else {
        let sd = s.drop_first();
        lemma_bits_split(sd, k - 1);
        assert(sd.take(k - 1) =~= s.take(k).drop_first());
        assert(sd.skip(k - 1) =~= s.skip(k));
        assert(s.take(k)[0] == s[0]);
        vstd::arithmetic::power2::lemma_pow2_unfold(k as nat);
        let x = bits_to_nat(s.skip(k));
        assert(2 * (pow2((k - 1) as nat) * x) == pow2(k as nat) * x) by (nonlinear_arith)
            requires
                pow2(k as nat) == 2 * pow2((k - 1) as nat),
        ;
    }
}

/// The low and high parts of a 256-bit sequence carrying a value below
/// `2^252` are that value's remainder and quotient by `2^248`.
#[verifier::rlimit(60)]
proof fn lemma_bits_parts(s: Seq<bool>, v: nat)
    requires
        s.len() == 256,
        bits_to_nat(s) == v,
        v < prime(),
    ensures
        bits_to_nat(s.subrange(0, 248)) == v % pow2(248),
        bits_to_nat(s.subrange(248, 252)) == v / pow2(248),
{
    vstd::arithmetic::power2::lemma2_to64();
    vstd::arithmetic::power2::lemma2_to64_rest();
    crate::field::shift_64_facts();
    vstd::arithmetic::power2::lemma_pow2_adds(192, 60);
    vstd::arithmetic::power2::lemma_pow2_adds(192, 56);
    vstd::arithmetic::power2::lemma_pow2_adds(248, 4);
    assert(0x1000000000000000000000000000000000000000000000000nat * 0x1000000000000000nat == 0x1000000000000000000000000000000000000000000000000000000000000000nat) by (nonlinear_arith);
    assert(0x1000000000000000000000000000000000000000000000000nat * 0x100000000000000nat == 0x100000000000000000000000000000000000000000000000000000000000000nat) by (nonlinear_arith);
    assert(0x100000000000000000000000000000000000000000000000000000000000000nat * 16nat == 0x1000000000000000000000000000000000000000000000000000000000000000nat) by (nonlinear_arith);
    assert(pow2(252) == 0x1000000000000000000000000000000000000000000000000000000000000000nat);
    assert(pow2(248) == 0x100000000000000000000000000000000000000000000000000000000000000nat);
    lemma_bits_split(s, 248);
    assert(s.subrange(0, 248) =~= s.take(248));
    lemma_bits_bound(s.take(248));
    lemma_fundamental_div_mod_converse(v as int, pow2(248) as int, bits_to_nat(
        s.skip(248)) as int, bits_to_nat(s.take(248)) as int);
    let hi = s.skip(248);
    lemma_bits_split(hi, 4);
    assert(hi.take(4) =~= s.subrange(248, 252));
    // v < p < 2^252, so the quotient fits in four bits and the top bits are zero
    assert(prime() <= pow2(252));
    if bits_to_nat(hi) >= 16 {
        lemma_mul_inequality(16int, bits_to_nat(hi) as int, pow2(248) as int);
        lemma_mul_is_commutative(pow2(248) as int, bits_to_nat(hi) as int);
        lemma_mul_is_commutative(16int, pow2(248) as int);
        assert(16 * pow2(248) == pow2(252));
        assert(false);
    }
    if bits_to_nat(hi.skip(4)) >= 1 {
        lemma_mul_inequality(1int, bits_to_nat(hi.skip(4)) as int, 16int);
        lemma_mul_is_commutative(16int, bits_to_nat(hi.skip(4)) as int);
        lemma_mul_basics(16int);
        assert(false);
    }
    lemma_mul_basics(bits_to_nat(hi.skip(4)) as int);
    lemma_mul_basics(pow2(4) as int);
}

/// Performs the Stark Pedersen hash on `a` and `b`.
pub fn pedersen_hash(a: Fp, b: Fp) -> (r: Fp)
    requires
        a.wf(),
        b.wf(),
    ensures
        r.wf(),
        r@ == pedersen_spec(a@, b@),
{
    let ghost av = a@;
    let ghost bv = b@;
    let mut result = pedersen_p0();
    let abits = a.into_bits();
    let bbits = b.into_bits();
    proof {
        lemma_bits_parts(abits@, av);
        lemma_bits_parts(bbits@, bv);
    }

    let tmp = pedersen_p1().multiply(&bits_range(&abits, 0, 248));
    result = result.add(&tmp);

    let tmp = pedersen_p2().multiply(&bits_range(&abits, 248, 252));
    result = result.add(&tmp);

    let tmp = pedersen_p3().multiply(&bits_range(&bbits, 0, 248));
    result = result.add(&tmp);

    let tmp = pedersen_p4().multiply(&bits_range(&bbits, 248, 252));
    result = result.add(&tmp);

    result.x
}

} // verus!
