//! Arithmetic in the prime field of the Stark curve.
//!
//! A field element is held as four little-endian 64-bit limbs whose value is
//! always below the modulus `p = 2^251 + 17 * 2^192 + 1`.  Every operation is
//! specified directly over the mathematical value of its operands.

use vstd::prelude::*;

verus! {

use vstd::arithmetic::div_mod::{
    lemma_fundamental_div_mod,
    lemma_fundamental_div_mod_converse_mod,
    lemma_small_mod,
    lemma_mod_multiples_vanish,
    lemma_mul_mod_noop_general,
};
use vstd::arithmetic::mul::{
    lemma_mul_basics,
    lemma_mul_upper_bound,
    lemma_mul_is_distributive_sub_other_way,
    lemma_mul_inequality,
    lemma_mul_is_distributive_add,
    lemma_mul_is_distributive_add_other_way,
    lemma_mul_is_associative,
    lemma_mul_is_commutative,
};
use vstd::arithmetic::power::pow;
use vstd::arithmetic::power2::pow2;
use vstd::bits::{lemma_u128_shr_is_div, lemma_u64_shr_is_div};

/// The modulus `p = 2^251 + 17 * 2^192 + 1` of the field.
pub open spec fn prime() -> nat {
    0x800000000000011000000000000000000000000000000000000000000000001nat
}

/// Top limb of the modulus; the lower three limbs are `[1, 0, 0]`.
pub const P_TOP: u64 = 0x800000000000011;

/// The value carried by four little-endian 64-bit limbs.
pub open spec fn limbs_nat(l: [u64; 4]) -> nat {
    (l[0] as nat) + (l[1] as nat) * 0x10000000000000000 + (l[2] as nat)
        * 0x100000000000000000000000000000000 + (l[3] as nat)
        * 0x1000000000000000000000000000000000000000000000000nat
}

/// Sum in the field: `(a + b) % p`.
pub open spec fn f_add(a: nat, b: nat) -> nat {
    (a + b) % prime()
}

/// Difference in the field: `(a + p - b) % p`, for `b <= p`.
pub open spec fn f_sub(a: nat, b: nat) -> nat {
    ((a + prime() - b) % (prime() as int)) as nat
}

/// Product in the field: `(a * b) % p`.
pub open spec fn f_mul(a: nat, b: nat) -> nat {
    (a * b) % prime()
}

/// Multiplicative inverse by Fermat exponentiation: `a^(p - 2) % p`.
/// Zero, which has no inverse, is mapped to zero.
pub open spec fn f_inv(a: nat) -> nat {
    (pow(a as int, (prime() - 2) as nat) % (prime() as int)) as nat
}

/// An element of the field.
#[derive(Clone, Copy, PartialEq, Eq, Debug)]
pub struct Fp {
    pub limbs: [u64; 4],
}

impl View for Fp {
    type V = nat;

    open spec fn view(&self) -> nat {
        limbs_nat(self.limbs)
    }
}

impl Fp {
    /// The representation invariant: the carried value is reduced.
    pub open spec fn wf(&self) -> bool {
        self@ < prime()
    }

    /// The additive identity.
    pub fn zero() -> (r: Fp)
        ensures
            r.wf(),
            r@ == 0,
    {
        Fp { limbs: [0, 0, 0, 0] }
    }

    /// The multiplicative identity.
    pub fn one() -> (r: Fp)
        ensures
            r.wf(),
            r@ == 1,
    {
        Fp { limbs: [1, 0, 0, 0] }
    }
}

/// `lo + hi * 2^64 == a + b + cin`: one step of a carry chain.
fn addc(a: u64, b: u64, cin: u64) -> (r: (u64, u64))
    requires
        cin <= 1,
    ensures
        (r.0 as nat) + (r.1 as nat) * 0x10000000000000000 == a + b + cin,
        r.1 <= 1,
{
    let t: u128 = a as u128 + b as u128 + cin as u128;
    proof {
        shift_64_facts();
        lemma_u128_shr_is_div(t, 64);
        lemma_fundamental_div_mod(t as int, 0x10000000000000000);
        assert((t >> 64u128) == t as nat / 0x10000000000000000nat);
        assert(t as nat / 0x10000000000000000nat <= 1);
    }
    let lo: u64 = (t % 0x10000000000000000u128) as u64;
    let hi: u64 = (t >> 64u128) as u64;
    (lo, hi)
}

/// `a - b - bin == r.0 - r.1 * 2^64`: one step of a borrow chain.
fn subb(a: u64, b: u64, bin: u64) -> (r: (u64, u64))
    requires
        bin <= 1,
    ensures
        (a as int) - (b as int) - (bin as int) == (r.0 as int) - (r.1 as int) * 0x10000000000000000,
        r.1 <= 1,
{
    let t: u128 = 0x10000000000000000u128 + a as u128 - b as u128 - bin as u128;
    let lo: u64 = (t % 0x10000000000000000u128) as u64;
    let bout: u64 = if t >= 0x10000000000000000u128 {
        0
    } else {
        1
    };
    proof {
        lemma_fundamental_div_mod(t as int, 0x10000000000000000);
        assert(t as int == 0x10000000000000000 * (t as int / 0x10000000000000000) + (t as int
            % 0x10000000000000000));
    }
    (lo, bout)
}

/// Facts about `pow2` at the limb boundaries used throughout.
#[verifier::rlimit(100)]
#[verifier::spinoff_prover]
pub(crate) proof fn shift_64_facts()
    ensures
        pow2(64) == 0x10000000000000000,
        pow2(128) == 0x100000000000000000000000000000000,
        pow2(192) == 0x1000000000000000000000000000000000000000000000000nat,
        pow2(256) == 0x10000000000000000000000000000000000000000000000000000000000000000nat,
        pow2(320) == 0x100000000000000000000000000000000000000000000000000000000000000000000000000000000nat,
        pow2(384) == 0x1000000000000000000000000000000000000000000000000000000000000000000000000000000000000000000000000nat,
        pow2(448) == 0x10000000000000000000000000000000000000000000000000000000000000000000000000000000000000000000000000000000000000000nat,
{
    vstd::arithmetic::power2::lemma2_to64();
    vstd::arithmetic::power2::lemma_pow2_adds(64, 64);
    vstd::arithmetic::power2::lemma_pow2_adds(128, 64);
    vstd::arithmetic::power2::lemma_pow2_adds(192, 64);
    vstd::arithmetic::power2::lemma_pow2_adds(256, 64);
    vstd::arithmetic::power2::lemma_pow2_adds(320, 64);
    vstd::arithmetic::power2::lemma_pow2_adds(384, 64);
    assert(0x10000000000000000nat * 0x10000000000000000nat == 0x100000000000000000000000000000000nat) by (nonlinear_arith);
    assert(0x100000000000000000000000000000000nat * 0x10000000000000000nat == 0x1000000000000000000000000000000000000000000000000nat) by (nonlinear_arith);
    assert(0x1000000000000000000000000000000000000000000000000nat * 0x10000000000000000nat == 0x10000000000000000000000000000000000000000000000000000000000000000nat) by (nonlinear_arith);
    assert(0x10000000000000000000000000000000000000000000000000000000000000000nat * 0x10000000000000000nat == 0x100000000000000000000000000000000000000000000000000000000000000000000000000000000nat) by (nonlinear_arith);
    assert(0x100000000000000000000000000000000000000000000000000000000000000000000000000000000nat * 0x10000000000000000nat == 0x1000000000000000000000000000000000000000000000000000000000000000000000000000000000000000000000000nat) by (nonlinear_arith);
    assert(0x1000000000000000000000000000000000000000000000000000000000000000000000000000000000000000000000000nat * 0x10000000000000000nat == 0x10000000000000000000000000000000000000000000000000000000000000000000000000000000000000000000000000000000000000000nat) by (nonlinear_arith);
}

/// Whether the value of `l` is at least `p`.
fn geq_p(l: &[u64; 4]) -> (r: bool)
    ensures
        r <==> limbs_nat(*l) >= prime(),
{
    if l[3] > P_TOP {
        true
    } else if l[3] < P_TOP {
        false
    } else {
        l[2] > 0 || l[1] > 0 || l[0] >= 1
    }
}

/// Subtracts `p` once if the value is at least `p`.
fn reduce_once(l: [u64; 4]) -> (r: [u64; 4])
    ensures
        limbs_nat(r) as int == if limbs_nat(l) >= prime() {
            limbs_nat(l) - prime()
        } else {
            limbs_nat(l) as int
        },
{
    if geq_p(&l) {
        let (d0, b0) = subb(l[0], 1, 0);
        let (d1, b1) = subb(l[1], 0, b0);
        let (d2, b2) = subb(l[2], 0, b1);
        let (d3, b3) = subb(l[3], P_TOP, b2);
        let r = [d0, d1, d2, d3];
        proof {
            assert(limbs_nat(r) + (b3 as nat) * 0x10000000000000000000000000000000000000000000000000000000000000000nat
                == limbs_nat(l) - prime());
            assert(b3 == 0);
        }
        r
    } else {
        l
    }
}

impl Fp {
    /// Field addition.
    pub fn add(&self, rhs: &Fp) -> (r: Fp)
        requires
            self.wf(),
            rhs.wf(),
        ensures
            r.wf(),
            r@ == f_add(self@, rhs@),
    {
        let a = &self.limbs;
        let b = &rhs.limbs;
        let (s0, c0) = addc(a[0], b[0], 0);
        let (s1, c1) = addc(a[1], b[1], c0);
        let (s2, c2) = addc(a[2], b[2], c1);
        let (s3, c3) = addc(a[3], b[3], c2);
        let s = [s0, s1, s2, s3];
        proof {
            assert(limbs_nat(s) + (c3 as nat) * 0x10000000000000000000000000000000000000000000000000000000000000000nat
                == self@ + rhs@);
            assert(c3 == 0);
            lemma_mod_sub_once((self@ + rhs@) as int);
        }
        let r = reduce_once(s);
        Fp { limbs: r }
    }

    /// Field subtraction.
    pub fn sub(&self, rhs: &Fp) -> (r: Fp)
        requires
            self.wf(),
            rhs.wf(),
        ensures
            r.wf(),
            r@ == f_sub(self@, rhs@),
    {
        let a = &self.limbs;
        let b = &rhs.limbs;
        // a + p, which cannot overflow four limbs since a < p < 2^252.
        let (s0, c0) = addc(a[0], 1, 0);
        let (s1, c1) = addc(a[1], 0, c0);
        let (s2, c2) = addc(a[2], 0, c1);
        let (s3, c3) = addc(a[3], P_TOP, c2);
        let s = [s0, s1, s2, s3];
        proof {
            assert(limbs_nat(s) + (c3 as nat) * 0x10000000000000000000000000000000000000000000000000000000000000000nat
                == self@ + prime());
            assert(c3 == 0);
        }
        // (a + p) - b, which cannot borrow since b < p.
        let (d0, b0) = subb(s[0], b[0], 0);
        let (d1, b1) = subb(s[1], b[1], b0);
        let (d2, b2) = subb(s[2], b[2], b1);
        let (d3, b3) = subb(s[3], b[3], b2);
        let d = [d0, d1, d2, d3];
        proof {
            assert(limbs_nat(d) + (b3 as nat) * 0x10000000000000000000000000000000000000000000000000000000000000000nat
                == self@ + prime() - rhs@);
            assert(b3 == 0);
            lemma_mod_sub_once((self@ + prime() - rhs@) as int);
        }
        let r = reduce_once(d);
        Fp { limbs: r }
    }
}

/// For `0 <= x < 2p`, taking `x % p` is subtracting `p` at most once.
proof fn lemma_mod_sub_once(x: int)
    requires
        0 <= x < 2 * prime(),
    ensures
        x % (prime() as int) == if x >= prime() {
            x - prime()
        } else {
            x
        },
{
    if x >= prime() {
        lemma_mod_multiples_vanish(-1, x, prime() as int);
        lemma_small_mod((x - prime()) as nat, prime());
    } else {
        lemma_small_mod(x as nat, prime());
    }
}















/// `lo + hi * 2^64 == a + b * c + d`: one step of a multiply-accumulate chain.
fn mac(a: u64, b: u64, c: u64, d: u64) -> (r: (u64, u64))
    ensures
        (r.0 as nat) + (r.1 as nat) * 0x10000000000000000 == a + (b as nat) * (c as nat) + d,
{
    proof {
        assert((b as nat) * (c as nat) <= 0xfffffffffffffffe0000000000000001) by (nonlinear_arith)
            requires
                b <= 0xffffffffffffffffu64,
                c <= 0xffffffffffffffffu64,
        ;
    }
    let t: u128 = a as u128 + (b as u128) * (c as u128) + d as u128;
    proof {
        shift_64_facts();
        lemma_u128_shr_is_div(t, 64);
        lemma_fundamental_div_mod(t as int, 0x10000000000000000);
    }
    let lo: u64 = (t % 0x10000000000000000u128) as u64;
    let hi: u64 = (t >> 64u128) as u64;
    (lo, hi)
}

/// The value carried by eight little-endian 64-bit limbs.
pub open spec fn wide_nat(l: [u64; 8]) -> nat {
    (l[0] as nat) + (l[1] as nat) * 0x10000000000000000 + (l[2] as nat)
        * 0x100000000000000000000000000000000 + (l[3] as nat)
        * 0x1000000000000000000000000000000000000000000000000nat + (l[4] as nat)
        * 0x10000000000000000000000000000000000000000000000000000000000000000nat + (l[5] as nat)
        * 0x100000000000000000000000000000000000000000000000000000000000000000000000000000000nat + (
    l[6] as nat)
        * 0x1000000000000000000000000000000000000000000000000000000000000000000000000000000000000000000000000nat
        + (l[7] as nat)
        * 0x10000000000000000000000000000000000000000000000000000000000000000000000000000000000000000000000000000000000000000nat
}

/// `x * (b0 + b1*2^64 + b2*2^128 + b3*2^192)` distributed over the limbs.
proof fn lemma_scale_limbs(x: nat, b0: nat, b1: nat, b2: nat, b3: nat, bsum: nat)
    requires
        bsum == b0 + b1 * 0x10000000000000000 + b2 * 0x100000000000000000000000000000000 + b3
            * 0x1000000000000000000000000000000000000000000000000nat,
    ensures
        x * bsum == x * b0 + (x * b1) * 0x10000000000000000 + (x * b2)
            * 0x100000000000000000000000000000000 + (x * b3)
            * 0x1000000000000000000000000000000000000000000000000nat,
{
    let c1 = 0x10000000000000000nat;
    let c2 = 0x100000000000000000000000000000000nat;
    let c3 = 0x1000000000000000000000000000000000000000000000000nat;
    lemma_mul_is_distributive_add(x as int, (b0 + b1 * c1 + b2 * c2) as int, (b3 * c3) as int);
    lemma_mul_is_distributive_add(x as int, (b0 + b1 * c1) as int, (b2 * c2) as int);
    lemma_mul_is_distributive_add(x as int, b0 as int, (b1 * c1) as int);
    lemma_mul_is_associative(x as int, b1 as int, c1 as int);
    lemma_mul_is_associative(x as int, b2 as int, c2 as int);
    lemma_mul_is_associative(x as int, b3 as int, c3 as int);
}

/// Distributes `(v0 + v1*2^64 + v2*2^128 + v3*2^192 + v4*2^256) * c` over the terms.
proof fn lemma_distribute_five(v0: nat, v1: nat, v2: nat, v3: nat, v4: nat, c: nat)
    ensures
        (v0 + v1 * 0x10000000000000000 + v2 * 0x100000000000000000000000000000000 + v3 * 0x1000000000000000000000000000000000000000000000000nat + v4 * 0x10000000000000000000000000000000000000000000000000000000000000000nat) * c == v0 * c + (v1 * c) * 0x10000000000000000 + (v2
            * c) * 0x100000000000000000000000000000000 + (v3 * c) * 0x1000000000000000000000000000000000000000000000000nat + (v4 * c) * 0x10000000000000000000000000000000000000000000000000000000000000000nat,
{
    let s1 = v0 + v1 * 0x10000000000000000;
    let s2 = s1 + v2 * 0x100000000000000000000000000000000;
    let s3 = s2 + v3 * 0x1000000000000000000000000000000000000000000000000nat;
    lemma_mul_is_distributive_add_other_way(c as int, s3 as int, (v4 * 0x10000000000000000000000000000000000000000000000000000000000000000nat) as int);
    lemma_mul_is_distributive_add_other_way(c as int, s2 as int, (v3 * 0x1000000000000000000000000000000000000000000000000nat) as int);
    lemma_mul_is_distributive_add_other_way(c as int, s1 as int, (v2 * 0x100000000000000000000000000000000) as int);
    lemma_mul_is_distributive_add_other_way(c as int, v0 as int, (v1 * 0x10000000000000000) as int);
    lemma_swap_scale(v1, 0x10000000000000000nat, c);
    lemma_swap_scale(v2, 0x100000000000000000000000000000000nat, c);
    lemma_swap_scale(v3, 0x1000000000000000000000000000000000000000000000000nat, c);
    lemma_swap_scale(v4, 0x10000000000000000000000000000000000000000000000000000000000000000nat, c);
}

/// `(v * k) * c == (v * c) * k`.
proof fn lemma_swap_scale(v: nat, k: nat, c: nat)
    ensures
        (v * k) * c == (v * c) * k,
{
    lemma_mul_is_associative(v as int, k as int, c as int);
    lemma_mul_is_commutative(k as int, c as int);
    lemma_mul_is_associative(v as int, c as int, k as int);
}

/// The value of one five-limb row.
pub open spec fn row_val(x0: nat, x1: nat, x2: nat, x3: nat, x4: nat) -> nat {
    x0 + x1 * 0x10000000000000000 + x2 * 0x100000000000000000000000000000000 + x3 * 0x1000000000000000000000000000000000000000000000000nat + x4 * 0x10000000000000000000000000000000000000000000000000000000000000000nat
}

/// Shifts a row value up by 1 limb position(s).
proof fn lemma_row_shift1(x0: nat, x1: nat, x2: nat, x3: nat, x4: nat)
    ensures
        row_val(x0, x1, x2, x3, x4) * 0x10000000000000000 == x0 * 0x10000000000000000 + x1 * 0x100000000000000000000000000000000 + x2 * 0x1000000000000000000000000000000000000000000000000nat + x3 * 0x10000000000000000000000000000000000000000000000000000000000000000nat + x4 * 0x100000000000000000000000000000000000000000000000000000000000000000000000000000000nat,
{
    lemma_distribute_five(x0, x1, x2, x3, x4, 0x10000000000000000nat);
    shift_64_facts();
    vstd::arithmetic::power2::lemma_pow2_adds(64, 64);
    assert(0x10000000000000000nat * 0x10000000000000000nat == 0x100000000000000000000000000000000nat);
    vstd::arithmetic::power2::lemma_pow2_adds(64, 128);
    assert(0x10000000000000000nat * 0x100000000000000000000000000000000nat == 0x1000000000000000000000000000000000000000000000000nat);
    vstd::arithmetic::power2::lemma_pow2_adds(64, 192);
    assert(0x10000000000000000nat * 0x1000000000000000000000000000000000000000000000000nat == 0x10000000000000000000000000000000000000000000000000000000000000000nat);
    vstd::arithmetic::power2::lemma_pow2_adds(64, 256);
    assert(0x10000000000000000nat * 0x10000000000000000000000000000000000000000000000000000000000000000nat == 0x100000000000000000000000000000000000000000000000000000000000000000000000000000000nat);
    lemma_mul_is_associative(x1 as int, 0x10000000000000000int, 0x10000000000000000int);
    lemma_mul_is_associative(x2 as int, 0x10000000000000000int, 0x100000000000000000000000000000000int);
    lemma_mul_is_associative(x3 as int, 0x10000000000000000int, 0x1000000000000000000000000000000000000000000000000int);
    lemma_mul_is_associative(x4 as int, 0x10000000000000000int, 0x10000000000000000000000000000000000000000000000000000000000000000int);
}

/// Shifts a row value up by 2 limb position(s).
proof fn lemma_row_shift2(x0: nat, x1: nat, x2: nat, x3: nat, x4: nat)
    ensures
        row_val(x0, x1, x2, x3, x4) * 0x100000000000000000000000000000000 == x0 * 0x100000000000000000000000000000000 + x1 * 0x1000000000000000000000000000000000000000000000000nat + x2 * 0x10000000000000000000000000000000000000000000000000000000000000000nat + x3 * 0x100000000000000000000000000000000000000000000000000000000000000000000000000000000nat + x4 * 0x1000000000000000000000000000000000000000000000000000000000000000000000000000000000000000000000000nat,
{
    lemma_distribute_five(x0, x1, x2, x3, x4, 0x100000000000000000000000000000000nat);
    shift_64_facts();
    vstd::arithmetic::power2::lemma_pow2_adds(128, 64);
    assert(0x100000000000000000000000000000000nat * 0x10000000000000000nat == 0x1000000000000000000000000000000000000000000000000nat);
    vstd::arithmetic::power2::lemma_pow2_adds(128, 128);
    assert(0x100000000000000000000000000000000nat * 0x100000000000000000000000000000000nat == 0x10000000000000000000000000000000000000000000000000000000000000000nat);
    vstd::arithmetic::power2::lemma_pow2_adds(128, 192);
    assert(0x100000000000000000000000000000000nat * 0x1000000000000000000000000000000000000000000000000nat == 0x100000000000000000000000000000000000000000000000000000000000000000000000000000000nat);
    vstd::arithmetic::power2::lemma_pow2_adds(128, 256);
    assert(0x100000000000000000000000000000000nat * 0x10000000000000000000000000000000000000000000000000000000000000000nat == 0x1000000000000000000000000000000000000000000000000000000000000000000000000000000000000000000000000nat);
    lemma_mul_is_associative(x1 as int, 0x100000000000000000000000000000000int, 0x10000000000000000int);
    lemma_mul_is_associative(x2 as int, 0x100000000000000000000000000000000int, 0x100000000000000000000000000000000int);
    lemma_mul_is_associative(x3 as int, 0x100000000000000000000000000000000int, 0x1000000000000000000000000000000000000000000000000int);
    lemma_mul_is_associative(x4 as int, 0x100000000000000000000000000000000int, 0x10000000000000000000000000000000000000000000000000000000000000000int);
}

/// Shifts a row value up by 3 limb position(s).
proof fn lemma_row_shift3(x0: nat, x1: nat, x2: nat, x3: nat, x4: nat)
    ensures
        row_val(x0, x1, x2, x3, x4) * 0x1000000000000000000000000000000000000000000000000nat == x0 * 0x1000000000000000000000000000000000000000000000000nat + x1 * 0x10000000000000000000000000000000000000000000000000000000000000000nat + x2 * 0x100000000000000000000000000000000000000000000000000000000000000000000000000000000nat + x3 * 0x1000000000000000000000000000000000000000000000000000000000000000000000000000000000000000000000000nat + x4 * 0x10000000000000000000000000000000000000000000000000000000000000000000000000000000000000000000000000000000000000000nat,
{
    lemma_distribute_five(x0, x1, x2, x3, x4, 0x1000000000000000000000000000000000000000000000000nat);
    shift_64_facts();
    vstd::arithmetic::power2::lemma_pow2_adds(192, 64);
    assert(0x1000000000000000000000000000000000000000000000000nat * 0x10000000000000000nat == 0x10000000000000000000000000000000000000000000000000000000000000000nat);
    vstd::arithmetic::power2::lemma_pow2_adds(192, 128);
    assert(0x1000000000000000000000000000000000000000000000000nat * 0x100000000000000000000000000000000nat == 0x100000000000000000000000000000000000000000000000000000000000000000000000000000000nat);
    vstd::arithmetic::power2::lemma_pow2_adds(192, 192);
    assert(0x1000000000000000000000000000000000000000000000000nat * 0x1000000000000000000000000000000000000000000000000nat == 0x1000000000000000000000000000000000000000000000000000000000000000000000000000000000000000000000000nat);
    vstd::arithmetic::power2::lemma_pow2_adds(192, 256);
    assert(0x1000000000000000000000000000000000000000000000000nat * 0x10000000000000000000000000000000000000000000000000000000000000000nat == 0x10000000000000000000000000000000000000000000000000000000000000000000000000000000000000000000000000000000000000000nat);
    lemma_mul_is_associative(x1 as int, 0x1000000000000000000000000000000000000000000000000int, 0x10000000000000000int);
    lemma_mul_is_associative(x2 as int, 0x1000000000000000000000000000000000000000000000000int, 0x100000000000000000000000000000000int);
    lemma_mul_is_associative(x3 as int, 0x1000000000000000000000000000000000000000000000000int, 0x1000000000000000000000000000000000000000000000000int);
    lemma_mul_is_associative(x4 as int, 0x1000000000000000000000000000000000000000000000000int, 0x10000000000000000000000000000000000000000000000000000000000000000int);
}

/// Adds `m` times the value of `b` to the four-limb value `y`, producing five limbs.
fn mul_row(y0: u64, y1: u64, y2: u64, y3: u64, m: u64, b: &[u64; 4]) -> (r: (u64, u64, u64, u64, u64))
    ensures
        row_val(r.0 as nat, r.1 as nat, r.2 as nat, r.3 as nat, r.4 as nat) == row_val(
            y0 as nat, y1 as nat, y2 as nat, y3 as nat, 0) + (m as nat) * limbs_nat(*b),
{
    let (z0, c) = mac(y0, m, b[0], 0);
    let (z1, c) = mac(y1, m, b[1], c);
    let (z2, c) = mac(y2, m, b[2], c);
    let (z3, c) = mac(y3, m, b[3], c);
    let z4 = c;
    proof {
        lemma_scale_limbs(m as nat, b[0] as nat, b[1] as nat, b[2] as nat, b[3] as nat,
            limbs_nat(*b));
    }
    (z0, z1, z2, z3, z4)
}

/// Schoolbook product of two four-limb values as an eight-limb value.
#[verifier::rlimit(100)]
#[verifier::spinoff_prover]
fn mul_wide(a: &[u64; 4], b: &[u64; 4]) -> (r: [u64; 8])
    ensures
        wide_nat(r) == limbs_nat(*a) * limbs_nat(*b),
{
    let (r0, t1, t2, t3, t4) = mul_row(0, 0, 0, 0, a[0], b);
    let (r1, u2, u3, u4, u5) = mul_row(t1, t2, t3, t4, a[1], b);
    let (r2, v3, v4, v5, v6) = mul_row(u2, u3, u4, u5, a[2], b);
    let (r3, r4, r5, r6, r7) = mul_row(v3, v4, v5, v6, a[3], b);
    let r = [r0, r1, r2, r3, r4, r5, r6, r7];
    proof {
        let av = limbs_nat(*a);
        let bv = limbs_nat(*b);
        let p0 = (a[0] as nat) * bv;
        let p1 = (a[1] as nat) * bv;
        let p2 = (a[2] as nat) * bv;
        let p3 = (a[3] as nat) * bv;
        lemma_row_shift1(r1 as nat, u2 as nat, u3 as nat, u4 as nat, u5 as nat);
        lemma_row_shift1(t1 as nat, t2 as nat, t3 as nat, t4 as nat, 0);
        lemma_row_shift2(r2 as nat, v3 as nat, v4 as nat, v5 as nat, v6 as nat);
        lemma_row_shift2(u2 as nat, u3 as nat, u4 as nat, u5 as nat, 0);
        lemma_row_shift3(r3 as nat, r4 as nat, r5 as nat, r6 as nat, r7 as nat);
        lemma_row_shift3(v3 as nat, v4 as nat, v5 as nat, v6 as nat, 0);
        lemma_mul_is_distributive_add_other_way(0x10000000000000000int,
            row_val(t1 as nat, t2 as nat, t3 as nat, t4 as nat, 0) as int, p1 as int);
        lemma_mul_is_distributive_add_other_way(0x100000000000000000000000000000000int,
            row_val(u2 as nat, u3 as nat, u4 as nat, u5 as nat, 0) as int, p2 as int);
        lemma_mul_is_distributive_add_other_way(0x1000000000000000000000000000000000000000000000000int,
            row_val(v3 as nat, v4 as nat, v5 as nat, v6 as nat, 0) as int, p3 as int);
        assert(wide_nat(r) == p0 + p1 * 0x10000000000000000 + p2 * 0x100000000000000000000000000000000 + p3 * 0x1000000000000000000000000000000000000000000000000nat);
        lemma_scale_limbs(bv, a[0] as nat, a[1] as nat, a[2] as nat, a[3] as nat, av);
        lemma_mul_is_commutative(av as int, bv as int);
        lemma_mul_is_commutative(bv as int, a[0] as int);
        lemma_mul_is_commutative(bv as int, a[1] as int);
        lemma_mul_is_commutative(bv as int, a[2] as int);
        lemma_mul_is_commutative(bv as int, a[3] as int);
        assert(av * bv == p0 + p1 * 0x10000000000000000 + p2 * 0x100000000000000000000000000000000 + p3 * 0x1000000000000000000000000000000000000000000000000nat);
    }
    r
}


/// The negation of `x` modulo `2^64`, so that `x + neg_limb(x)` is `0` or `2^64`.
fn neg_limb(x: u64) -> (m: u64)
    ensures
        (x as nat) + m == 0 || (x as nat) + m == 0x10000000000000000nat,
{
    if x == 0 {
        0
    } else {
        (0xffffffffffffffffu64 - x) + 1
    }
}

/// `(lo + hi * 2^64) * 2^e` spread over two positions.
proof fn lemma_shift_pair(lo: nat, hi: nat, v: nat, e: nat)
    requires
        lo + hi * pow2(64) == v,
    ensures
        lo * pow2(e) + hi * pow2(e + 64) == v * pow2(e),
{
    lemma_mul_is_distributive_add_other_way(pow2(e) as int, lo as int, (hi * pow2(64)) as int);
    lemma_mul_is_associative(hi as int, pow2(64) as int, pow2(e) as int);
    vstd::arithmetic::power2::lemma_pow2_adds(64, e);
    lemma_mul_is_commutative(pow2(64) as int, pow2(e) as int);
}

/// `m * p`, shifted by `2^e`, written over the three limb positions it occupies.
proof fn lemma_m_times_p(m: nat, mkl: nat, mkh: nat, e: nat)
    requires
        mkl + mkh * pow2(64) == m * 0x800000000000011nat,
    ensures
        (m * prime()) * pow2(e) == m * pow2(e) + mkl * pow2(e + 192) + mkh * pow2(e + 256),
{
    shift_64_facts();
    assert(0x800000000000011nat * 0x1000000000000000000000000000000000000000000000000nat
        == 0x800000000000011000000000000000000000000000000000000000000000000nat) by (nonlinear_arith);
    assert(prime() == 1 + 0x800000000000011nat * pow2(192));
    lemma_mul_is_distributive_add(m as int, 1int, (0x800000000000011nat * pow2(192)) as int);
    lemma_mul_is_associative(m as int, 0x800000000000011int, pow2(192) as int);
    assert(m * prime() == m + (m * 0x800000000000011nat) * pow2(192));
    lemma_mul_is_distributive_add_other_way(pow2(e) as int, m as int, ((m * 0x800000000000011nat)
        * pow2(192)) as int);
    lemma_mul_is_associative((m * 0x800000000000011nat) as int, pow2(192) as int, pow2(e) as int);
    vstd::arithmetic::power2::lemma_pow2_adds(192, e);
    lemma_mul_is_commutative(pow2(192) as int, pow2(e) as int);
    assert((m * prime()) * pow2(e) == m * pow2(e) + (m * 0x800000000000011nat) * pow2(192 + e));
    lemma_shift_pair(mkl, mkh, m * 0x800000000000011nat, (192 + e) as nat);
    assert(mkl * pow2(192 + e) + mkh * pow2(192 + e + 64) == (m * 0x800000000000011nat) * pow2(192
        + e));
    vstd::arithmetic::power2::lemma_pow2_adds(e, 192);
    vstd::arithmetic::power2::lemma_pow2_adds(e, 256);
}

/// One folding round of the reduction: clears limb 0 by adding a multiple of `p`.
#[verifier::rlimit(60)]
fn redc_round0(t: [u64; 8], m: u64, mkl: u64, mkh: u64) -> (r: ([u64; 8], u64))
    requires
        (t[0] as nat) + m == 0 || (t[0] as nat) + m == 0x10000000000000000nat,
    ensures
        wide_nat(r.0) + (r.1 as nat) * 0x100000000000000000000000000000000000000000000000000000000000000000000000000000000000000000000000000000000000000000000000000000000nat == wide_nat(t) + (m as nat) + (mkl as nat) * 0x1000000000000000000000000000000000000000000000000nat + (mkh as nat) * 0x10000000000000000000000000000000000000000000000000000000000000000nat,
        r.1 <= 1,

        r.0[0] == 0,
{
    let (z, c) = addc(t[0], m, 0);
    let (s1, c1) = addc(t[1], 0, c);
    let (s2, c2) = addc(t[2], 0, c1);
    let (s3, c3) = addc(t[3], mkl, c2);
    let (s4, c4) = addc(t[4], mkh, c3);
    let (s5, c5) = addc(t[5], 0, c4);
    let (s6, c6) = addc(t[6], 0, c5);
    let (s7, c7) = addc(t[7], 0, c6);
    let out = [z, s1, s2, s3, s4, s5, s6, s7];
    proof {
        assert((z as nat) + (s1 as nat) * 0x10000000000000000nat + (s2 as nat) * 0x100000000000000000000000000000000nat + (s3 as nat) * 0x1000000000000000000000000000000000000000000000000nat + (s4 as nat) * 0x10000000000000000000000000000000000000000000000000000000000000000nat + (s5 as nat) * 0x100000000000000000000000000000000000000000000000000000000000000000000000000000000nat + (s6 as nat) * 0x1000000000000000000000000000000000000000000000000000000000000000000000000000000000000000000000000nat + (s7 as nat) * 0x10000000000000000000000000000000000000000000000000000000000000000000000000000000000000000000000000000000000000000nat + (c7 as nat) * 0x100000000000000000000000000000000000000000000000000000000000000000000000000000000000000000000000000000000000000000000000000000000nat == (t[0] as nat) + (t[1] as nat) * 0x10000000000000000nat + (t[2] as nat) * 0x100000000000000000000000000000000nat + (t[3] as nat) * 0x1000000000000000000000000000000000000000000000000nat + (t[4] as nat) * 0x10000000000000000000000000000000000000000000000000000000000000000nat + (t[5] as nat) * 0x100000000000000000000000000000000000000000000000000000000000000000000000000000000nat + (t[6] as nat) * 0x1000000000000000000000000000000000000000000000000000000000000000000000000000000000000000000000000nat + (t[7] as nat) * 0x10000000000000000000000000000000000000000000000000000000000000000000000000000000000000000000000000000000000000000nat + (m as nat) + (mkl as nat) * 0x1000000000000000000000000000000000000000000000000nat + (mkh as nat) * 0x10000000000000000000000000000000000000000000000000000000000000000nat);
        assert(wide_nat(out) == (z as nat) + (s1 as nat) * 0x10000000000000000nat + (s2 as nat) * 0x100000000000000000000000000000000nat + (s3 as nat) * 0x1000000000000000000000000000000000000000000000000nat + (s4 as nat) * 0x10000000000000000000000000000000000000000000000000000000000000000nat + (s5 as nat) * 0x100000000000000000000000000000000000000000000000000000000000000000000000000000000nat + (s6 as nat) * 0x1000000000000000000000000000000000000000000000000000000000000000000000000000000000000000000000000nat + (s7 as nat) * 0x10000000000000000000000000000000000000000000000000000000000000000000000000000000000000000000000000000000000000000nat);
        assert(wide_nat(t) == (t[0] as nat) + (t[1] as nat) * 0x10000000000000000nat + (t[2] as nat) * 0x100000000000000000000000000000000nat + (t[3] as nat) * 0x1000000000000000000000000000000000000000000000000nat + (t[4] as nat) * 0x10000000000000000000000000000000000000000000000000000000000000000nat + (t[5] as nat) * 0x100000000000000000000000000000000000000000000000000000000000000000000000000000000nat + (t[6] as nat) * 0x1000000000000000000000000000000000000000000000000000000000000000000000000000000000000000000000000nat + (t[7] as nat) * 0x10000000000000000000000000000000000000000000000000000000000000000000000000000000000000000000000000000000000000000nat);
    }
    (out, c7)
}

/// One folding round of the reduction: clears limb 1 by adding a multiple of `p`.
#[verifier::rlimit(60)]
fn redc_round1(t: [u64; 8], m: u64, mkl: u64, mkh: u64) -> (r: ([u64; 8], u64))
    requires
        (t[1] as nat) + m == 0 || (t[1] as nat) + m == 0x10000000000000000nat,
    ensures
        wide_nat(r.0) + (r.1 as nat) * 0x100000000000000000000000000000000000000000000000000000000000000000000000000000000000000000000000000000000000000000000000000000000nat == wide_nat(t) + (m as nat) * 0x10000000000000000nat + (mkl as nat) * 0x10000000000000000000000000000000000000000000000000000000000000000nat + (mkh as nat) * 0x100000000000000000000000000000000000000000000000000000000000000000000000000000000nat,
        r.1 <= 1,
        r.0[0] == t[0],
        r.0[1] == 0,
{
    let (z, c) = addc(t[1], m, 0);
    let (s2, c1) = addc(t[2], 0, c);
    let (s3, c2) = addc(t[3], 0, c1);
    let (s4, c3) = addc(t[4], mkl, c2);
    let (s5, c4) = addc(t[5], mkh, c3);
    let (s6, c5) = addc(t[6], 0, c4);
    let (s7, c6) = addc(t[7], 0, c5);
    let out = [t[0], z, s2, s3, s4, s5, s6, s7];
    proof {
        assert((t[0] as nat) + (z as nat) * 0x10000000000000000nat + (s2 as nat) * 0x100000000000000000000000000000000nat + (s3 as nat) * 0x1000000000000000000000000000000000000000000000000nat + (s4 as nat) * 0x10000000000000000000000000000000000000000000000000000000000000000nat + (s5 as nat) * 0x100000000000000000000000000000000000000000000000000000000000000000000000000000000nat + (s6 as nat) * 0x1000000000000000000000000000000000000000000000000000000000000000000000000000000000000000000000000nat + (s7 as nat) * 0x10000000000000000000000000000000000000000000000000000000000000000000000000000000000000000000000000000000000000000nat + (c6 as nat) * 0x100000000000000000000000000000000000000000000000000000000000000000000000000000000000000000000000000000000000000000000000000000000nat == (t[0] as nat) + (t[1] as nat) * 0x10000000000000000nat + (t[2] as nat) * 0x100000000000000000000000000000000nat + (t[3] as nat) * 0x1000000000000000000000000000000000000000000000000nat + (t[4] as nat) * 0x10000000000000000000000000000000000000000000000000000000000000000nat + (t[5] as nat) * 0x100000000000000000000000000000000000000000000000000000000000000000000000000000000nat + (t[6] as nat) * 0x1000000000000000000000000000000000000000000000000000000000000000000000000000000000000000000000000nat + (t[7] as nat) * 0x10000000000000000000000000000000000000000000000000000000000000000000000000000000000000000000000000000000000000000nat + (m as nat) * 0x10000000000000000nat + (mkl as nat) * 0x10000000000000000000000000000000000000000000000000000000000000000nat + (mkh as nat) * 0x100000000000000000000000000000000000000000000000000000000000000000000000000000000nat);
        assert(wide_nat(out) == (t[0] as nat) + (z as nat) * 0x10000000000000000nat + (s2 as nat) * 0x100000000000000000000000000000000nat + (s3 as nat) * 0x1000000000000000000000000000000000000000000000000nat + (s4 as nat) * 0x10000000000000000000000000000000000000000000000000000000000000000nat + (s5 as nat) * 0x100000000000000000000000000000000000000000000000000000000000000000000000000000000nat + (s6 as nat) * 0x1000000000000000000000000000000000000000000000000000000000000000000000000000000000000000000000000nat + (s7 as nat) * 0x10000000000000000000000000000000000000000000000000000000000000000000000000000000000000000000000000000000000000000nat);
        assert(wide_nat(t) == (t[0] as nat) + (t[1] as nat) * 0x10000000000000000nat + (t[2] as nat) * 0x100000000000000000000000000000000nat + (t[3] as nat) * 0x1000000000000000000000000000000000000000000000000nat + (t[4] as nat) * 0x10000000000000000000000000000000000000000000000000000000000000000nat + (t[5] as nat) * 0x100000000000000000000000000000000000000000000000000000000000000000000000000000000nat + (t[6] as nat) * 0x1000000000000000000000000000000000000000000000000000000000000000000000000000000000000000000000000nat + (t[7] as nat) * 0x10000000000000000000000000000000000000000000000000000000000000000000000000000000000000000000000000000000000000000nat);
    }
    (out, c6)
}

/// One folding round of the reduction: clears limb 2 by adding a multiple of `p`.
#[verifier::rlimit(60)]
fn redc_round2(t: [u64; 8], m: u64, mkl: u64, mkh: u64) -> (r: ([u64; 8], u64))
    requires
        (t[2] as nat) + m == 0 || (t[2] as nat) + m == 0x10000000000000000nat,
    ensures
        wide_nat(r.0) + (r.1 as nat) * 0x100000000000000000000000000000000000000000000000000000000000000000000000000000000000000000000000000000000000000000000000000000000nat == wide_nat(t) + (m as nat) * 0x100000000000000000000000000000000nat + (mkl as nat) * 0x100000000000000000000000000000000000000000000000000000000000000000000000000000000nat + (mkh as nat) * 0x1000000000000000000000000000000000000000000000000000000000000000000000000000000000000000000000000nat,
        r.1 <= 1,
        r.0[0] == t[0],
        r.0[1] == t[1],
        r.0[2] == 0,
{
    let (z, c) = addc(t[2], m, 0);
    let (s3, c1) = addc(t[3], 0, c);
    let (s4, c2) = addc(t[4], 0, c1);
    let (s5, c3) = addc(t[5], mkl, c2);
    let (s6, c4) = addc(t[6], mkh, c3);
    let (s7, c5) = addc(t[7], 0, c4);
    let out = [t[0], t[1], z, s3, s4, s5, s6, s7];
    proof {
        assert((t[0] as nat) + (t[1] as nat) * 0x10000000000000000nat + (z as nat) * 0x100000000000000000000000000000000nat + (s3 as nat) * 0x1000000000000000000000000000000000000000000000000nat + (s4 as nat) * 0x10000000000000000000000000000000000000000000000000000000000000000nat + (s5 as nat) * 0x100000000000000000000000000000000000000000000000000000000000000000000000000000000nat + (s6 as nat) * 0x1000000000000000000000000000000000000000000000000000000000000000000000000000000000000000000000000nat + (s7 as nat) * 0x10000000000000000000000000000000000000000000000000000000000000000000000000000000000000000000000000000000000000000nat + (c5 as nat) * 0x100000000000000000000000000000000000000000000000000000000000000000000000000000000000000000000000000000000000000000000000000000000nat == (t[0] as nat) + (t[1] as nat) * 0x10000000000000000nat + (t[2] as nat) * 0x100000000000000000000000000000000nat + (t[3] as nat) * 0x1000000000000000000000000000000000000000000000000nat + (t[4] as nat) * 0x10000000000000000000000000000000000000000000000000000000000000000nat + (t[5] as nat) * 0x100000000000000000000000000000000000000000000000000000000000000000000000000000000nat + (t[6] as nat) * 0x1000000000000000000000000000000000000000000000000000000000000000000000000000000000000000000000000nat + (t[7] as nat) * 0x10000000000000000000000000000000000000000000000000000000000000000000000000000000000000000000000000000000000000000nat + (m as nat) * 0x100000000000000000000000000000000nat + (mkl as nat) * 0x100000000000000000000000000000000000000000000000000000000000000000000000000000000nat + (mkh as nat) * 0x1000000000000000000000000000000000000000000000000000000000000000000000000000000000000000000000000nat);
        assert(wide_nat(out) == (t[0] as nat) + (t[1] as nat) * 0x10000000000000000nat + (z as nat) * 0x100000000000000000000000000000000nat + (s3 as nat) * 0x1000000000000000000000000000000000000000000000000nat + (s4 as nat) * 0x10000000000000000000000000000000000000000000000000000000000000000nat + (s5 as nat) * 0x100000000000000000000000000000000000000000000000000000000000000000000000000000000nat + (s6 as nat) * 0x1000000000000000000000000000000000000000000000000000000000000000000000000000000000000000000000000nat + (s7 as nat) * 0x10000000000000000000000000000000000000000000000000000000000000000000000000000000000000000000000000000000000000000nat);
        assert(wide_nat(t) == (t[0] as nat) + (t[1] as nat) * 0x10000000000000000nat + (t[2] as nat) * 0x100000000000000000000000000000000nat + (t[3] as nat) * 0x1000000000000000000000000000000000000000000000000nat + (t[4] as nat) * 0x10000000000000000000000000000000000000000000000000000000000000000nat + (t[5] as nat) * 0x100000000000000000000000000000000000000000000000000000000000000000000000000000000nat + (t[6] as nat) * 0x1000000000000000000000000000000000000000000000000000000000000000000000000000000000000000000000000nat + (t[7] as nat) * 0x10000000000000000000000000000000000000000000000000000000000000000000000000000000000000000000000000000000000000000nat);
    }
    (out, c5)
}

/// One folding round of the reduction: clears limb 3 by adding a multiple of `p`.
#[verifier::rlimit(60)]
fn redc_round3(t: [u64; 8], m: u64, mkl: u64, mkh: u64) -> (r: ([u64; 8], u64))
    requires
        (t[3] as nat) + m == 0 || (t[3] as nat) + m == 0x10000000000000000nat,
    ensures
        wide_nat(r.0) + (r.1 as nat) * 0x100000000000000000000000000000000000000000000000000000000000000000000000000000000000000000000000000000000000000000000000000000000nat == wide_nat(t) + (m as nat) * 0x1000000000000000000000000000000000000000000000000nat + (mkl as nat) * 0x1000000000000000000000000000000000000000000000000000000000000000000000000000000000000000000000000nat + (mkh as nat) * 0x10000000000000000000000000000000000000000000000000000000000000000000000000000000000000000000000000000000000000000nat,
        r.1 <= 1,
        r.0[0] == t[0],
        r.0[1] == t[1],
        r.0[2] == t[2],
        r.0[3] == 0,
{
    let (z, c) = addc(t[3], m, 0);
    let (s4, c1) = addc(t[4], 0, c);
    let (s5, c2) = addc(t[5], 0, c1);
    let (s6, c3) = addc(t[6], mkl, c2);
    let (s7, c4) = addc(t[7], mkh, c3);
    let out = [t[0], t[1], t[2], z, s4, s5, s6, s7];
    proof {
        assert((t[0] as nat) + (t[1] as nat) * 0x10000000000000000nat + (t[2] as nat) * 0x100000000000000000000000000000000nat + (z as nat) * 0x1000000000000000000000000000000000000000000000000nat + (s4 as nat) * 0x10000000000000000000000000000000000000000000000000000000000000000nat + (s5 as nat) * 0x100000000000000000000000000000000000000000000000000000000000000000000000000000000nat + (s6 as nat) * 0x1000000000000000000000000000000000000000000000000000000000000000000000000000000000000000000000000nat + (s7 as nat) * 0x10000000000000000000000000000000000000000000000000000000000000000000000000000000000000000000000000000000000000000nat + (c4 as nat) * 0x100000000000000000000000000000000000000000000000000000000000000000000000000000000000000000000000000000000000000000000000000000000nat == (t[0] as nat) + (t[1] as nat) * 0x10000000000000000nat + (t[2] as nat) * 0x100000000000000000000000000000000nat + (t[3] as nat) * 0x1000000000000000000000000000000000000000000000000nat + (t[4] as nat) * 0x10000000000000000000000000000000000000000000000000000000000000000nat + (t[5] as nat) * 0x100000000000000000000000000000000000000000000000000000000000000000000000000000000nat + (t[6] as nat) * 0x1000000000000000000000000000000000000000000000000000000000000000000000000000000000000000000000000nat + (t[7] as nat) * 0x10000000000000000000000000000000000000000000000000000000000000000000000000000000000000000000000000000000000000000nat + (m as nat) * 0x1000000000000000000000000000000000000000000000000nat + (mkl as nat) * 0x1000000000000000000000000000000000000000000000000000000000000000000000000000000000000000000000000nat + (mkh as nat) * 0x10000000000000000000000000000000000000000000000000000000000000000000000000000000000000000000000000000000000000000nat);
        assert(wide_nat(out) == (t[0] as nat) + (t[1] as nat) * 0x10000000000000000nat + (t[2] as nat) * 0x100000000000000000000000000000000nat + (z as nat) * 0x1000000000000000000000000000000000000000000000000nat + (s4 as nat) * 0x10000000000000000000000000000000000000000000000000000000000000000nat + (s5 as nat) * 0x100000000000000000000000000000000000000000000000000000000000000000000000000000000nat + (s6 as nat) * 0x1000000000000000000000000000000000000000000000000000000000000000000000000000000000000000000000000nat + (s7 as nat) * 0x10000000000000000000000000000000000000000000000000000000000000000000000000000000000000000000000000000000000000000nat);
        assert(wide_nat(t) == (t[0] as nat) + (t[1] as nat) * 0x10000000000000000nat + (t[2] as nat) * 0x100000000000000000000000000000000nat + (t[3] as nat) * 0x1000000000000000000000000000000000000000000000000nat + (t[4] as nat) * 0x10000000000000000000000000000000000000000000000000000000000000000nat + (t[5] as nat) * 0x100000000000000000000000000000000000000000000000000000000000000000000000000000000nat + (t[6] as nat) * 0x1000000000000000000000000000000000000000000000000000000000000000000000000000000000000000000000000nat + (t[7] as nat) * 0x10000000000000000000000000000000000000000000000000000000000000000000000000000000000000000000000000000000000000000nat);
    }
    (out, c4)
}


/// The four little-endian limbs of `2^512 % p`, used to leave Montgomery form.
fn r2_limbs() -> (r: [u64; 4])
    ensures
        limbs_nat(r) == 0x7ffd4ab5e008810ffffffffff6f800000000001330ffffffffffd737e000401nat,
        limbs_nat(r) < prime(),
{
    [0xfffffd737e000401u64, 0x1330fffffu64, 0xffffffffff6f8000u64, 0x7ffd4ab5e008810u64]
}

/// Reduces an eight-limb value `t < p * 2^256` to `t * 2^-256 % p`, by adding
/// multiples of `p` until the low four limbs clear, then dropping them.
#[verifier::rlimit(100)]
#[verifier::spinoff_prover]
fn redc(t: [u64; 8]) -> (r: [u64; 4])
    requires
        wide_nat(t) < 0x8000000000000110000000000000000000000000000000000000000000000010000000000000000000000000000000000000000000000000000000000000000nat,
    ensures
        limbs_nat(r) < prime(),
        (limbs_nat(r) * 0x10000000000000000000000000000000000000000000000000000000000000000nat) % prime() == wide_nat(t) % prime(),
{
    proof {
        shift_64_facts();
        vstd::arithmetic::power2::lemma2_to64();
        lemma_mul_basics(prime() as int);
    }
    let m0 = neg_limb(t[0]);
    let (mkl0, mkh0) = mac(0, m0, P_TOP, 0);
    let w0 = redc_round0(t, m0, mkl0, mkh0);
    proof {
        lemma_m_times_p(m0 as nat, mkl0 as nat, mkh0 as nat, 0);
        assert(((m0 as nat) * prime()) * pow2(0) == (m0 as nat) + (mkl0 as nat) * 0x1000000000000000000000000000000000000000000000000nat + (mkh0 as nat) * 0x10000000000000000000000000000000000000000000000000000000000000000nat);
        lemma_mul_inequality(m0 as int, 0xffffffffffffffffint, prime() as int);
        assert(0xffffffffffffffffnat * prime() == 0x800000000000010f7ffffffffffffef00000000000000000000000000000000ffffffffffffffffnat) by (nonlinear_arith);
        lemma_mul_inequality(((m0 as nat) * prime()) as int, 0x800000000000010f7ffffffffffffef00000000000000000000000000000000ffffffffffffffffint, 0x1int);
        assert(0x800000000000010f7ffffffffffffef00000000000000000000000000000000ffffffffffffffffnat * 0x1nat == 0x800000000000010f7ffffffffffffef00000000000000000000000000000000ffffffffffffffffnat) by (nonlinear_arith);
        assert(((m0 as nat) * prime()) * pow2(0) <= 0x800000000000010f7ffffffffffffef00000000000000000000000000000000ffffffffffffffffnat);
        assert(w0.1 == 0);
        assert(wide_nat(w0.0) < 0x800000000000011000000000000000000000000000000000800000000000011f7ffffffffffffef00000000000000000000000000000000ffffffffffffffffnat);
        assert(wide_nat(w0.0) == wide_nat(t) + ((m0 as nat) * prime()) * pow2(0));
    }
    let m1 = neg_limb(w0.0[1]);
    let (mkl1, mkh1) = mac(0, m1, P_TOP, 0);
    let w1 = redc_round1(w0.0, m1, mkl1, mkh1);
    proof {
        lemma_m_times_p(m1 as nat, mkl1 as nat, mkh1 as nat, 64);
        assert(((m1 as nat) * prime()) * pow2(64) == (m1 as nat) * 0x10000000000000000nat + (mkl1 as nat) * 0x10000000000000000000000000000000000000000000000000000000000000000nat + (mkh1 as nat) * 0x100000000000000000000000000000000000000000000000000000000000000000000000000000000nat);
        lemma_mul_inequality(m1 as int, 0xffffffffffffffffint, prime() as int);
        assert(0xffffffffffffffffnat * prime() == 0x800000000000010f7ffffffffffffef00000000000000000000000000000000ffffffffffffffffnat) by (nonlinear_arith);
        lemma_mul_inequality(((m1 as nat) * prime()) as int, 0x800000000000010f7ffffffffffffef00000000000000000000000000000000ffffffffffffffffint, 0x10000000000000000int);
        assert(0x800000000000010f7ffffffffffffef00000000000000000000000000000000ffffffffffffffffnat * 0x10000000000000000nat == 0x800000000000010f7ffffffffffffef00000000000000000000000000000000ffffffffffffffff0000000000000000nat) by (nonlinear_arith);
        assert(((m1 as nat) * prime()) * pow2(64) <= 0x800000000000010f7ffffffffffffef00000000000000000000000000000000ffffffffffffffff0000000000000000nat);
        assert(w1.1 == 0);
        assert(wide_nat(w1.0) < 0x800000000000011000000000000000008000000000000110000000000000000f7ffffffffffffef0000000000000000ffffffffffffffffffffffffffffffffnat);
        assert(wide_nat(w1.0) == wide_nat(w0.0) + ((m1 as nat) * prime()) * pow2(64));
    }
    let m2 = neg_limb(w1.0[2]);
    let (mkl2, mkh2) = mac(0, m2, P_TOP, 0);
    let w2 = redc_round2(w1.0, m2, mkl2, mkh2);
    proof {
        lemma_m_times_p(m2 as nat, mkl2 as nat, mkh2 as nat, 128);
        assert(((m2 as nat) * prime()) * pow2(128) == (m2 as nat) * 0x100000000000000000000000000000000nat + (mkl2 as nat) * 0x100000000000000000000000000000000000000000000000000000000000000000000000000000000nat + (mkh2 as nat) * 0x1000000000000000000000000000000000000000000000000000000000000000000000000000000000000000000000000nat);
        lemma_mul_inequality(m2 as int, 0xffffffffffffffffint, prime() as int);
        assert(0xffffffffffffffffnat * prime() == 0x800000000000010f7ffffffffffffef00000000000000000000000000000000ffffffffffffffffnat) by (nonlinear_arith);
        lemma_mul_inequality(((m2 as nat) * prime()) as int, 0x800000000000010f7ffffffffffffef00000000000000000000000000000000ffffffffffffffffint, 0x100000000000000000000000000000000int);
        assert(0x800000000000010f7ffffffffffffef00000000000000000000000000000000ffffffffffffffffnat * 0x100000000000000000000000000000000nat == 0x800000000000010f7ffffffffffffef00000000000000000000000000000000ffffffffffffffff00000000000000000000000000000000nat) by (nonlinear_arith);
        assert(((m2 as nat) * prime()) * pow2(128) <= 0x800000000000010f7ffffffffffffef00000000000000000000000000000000ffffffffffffffff00000000000000000000000000000000nat);
        assert(w2.1 == 0);
        assert(wide_nat(w2.0) < 0x800000000000011080000000000001100000000000000000000000000000000f7ffffffffffffefffffffffffffffffffffffffffffffffffffffffffffffffnat);
        assert(wide_nat(w2.0) == wide_nat(w1.0) + ((m2 as nat) * prime()) * pow2(128));
    }
    let m3 = neg_limb(w2.0[3]);
    let (mkl3, mkh3) = mac(0, m3, P_TOP, 0);
    let w3 = redc_round3(w2.0, m3, mkl3, mkh3);
    proof {
        lemma_m_times_p(m3 as nat, mkl3 as nat, mkh3 as nat, 192);
        assert(((m3 as nat) * prime()) * pow2(192) == (m3 as nat) * 0x1000000000000000000000000000000000000000000000000nat + (mkl3 as nat) * 0x1000000000000000000000000000000000000000000000000000000000000000000000000000000000000000000000000nat + (mkh3 as nat) * 0x10000000000000000000000000000000000000000000000000000000000000000000000000000000000000000000000000000000000000000nat);
        lemma_mul_inequality(m3 as int, 0xffffffffffffffffint, prime() as int);
        assert(0xffffffffffffffffnat * prime() == 0x800000000000010f7ffffffffffffef00000000000000000000000000000000ffffffffffffffffnat) by (nonlinear_arith);
        lemma_mul_inequality(((m3 as nat) * prime()) as int, 0x800000000000010f7ffffffffffffef00000000000000000000000000000000ffffffffffffffffint, 0x1000000000000000000000000000000000000000000000000int);
        assert(0x800000000000010f7ffffffffffffef00000000000000000000000000000000ffffffffffffffffnat * 0x1000000000000000000000000000000000000000000000000nat == 0x800000000000010f7ffffffffffffef00000000000000000000000000000000ffffffffffffffff000000000000000000000000000000000000000000000000nat) by (nonlinear_arith);
        assert(((m3 as nat) * prime()) * pow2(192) <= 0x800000000000010f7ffffffffffffef00000000000000000000000000000000ffffffffffffffff000000000000000000000000000000000000000000000000nat);
        assert(w3.1 == 0);
        assert(wide_nat(w3.0) < 0x1000000000000022000000000000000000000000000000000000000000000001f7ffffffffffffeeffffffffffffffffffffffffffffffffffffffffffffffffnat);
        assert(wide_nat(w3.0) == wide_nat(w2.0) + ((m3 as nat) * prime()) * pow2(192));
    }
    let out = [w3.0[4], w3.0[5], w3.0[6], w3.0[7]];
    proof {
        assert(w3.0[0] == 0 && w3.0[1] == 0 && w3.0[2] == 0 && w3.0[3] == 0);
        assert(wide_nat(w3.0) == (out[0] as nat) * 0x10000000000000000000000000000000000000000000000000000000000000000nat + (out[1] as nat) * 0x100000000000000000000000000000000000000000000000000000000000000000000000000000000nat + (
        out[2] as nat) * 0x1000000000000000000000000000000000000000000000000000000000000000000000000000000000000000000000000nat + (out[3] as nat) * 0x10000000000000000000000000000000000000000000000000000000000000000000000000000000000000000000000000000000000000000nat);
        lemma_distribute_five(out[0] as nat, out[1] as nat, out[2] as nat, out[3] as nat, 0,
            0x10000000000000000000000000000000000000000000000000000000000000000nat);
        lemma_mul_basics(0x10000000000000000000000000000000000000000000000000000000000000000int);
        vstd::arithmetic::power2::lemma_pow2_adds(256, 64);
        vstd::arithmetic::power2::lemma_pow2_adds(256, 128);
        vstd::arithmetic::power2::lemma_pow2_adds(256, 192);
        assert(0x10000000000000000000000000000000000000000000000000000000000000000nat * 0x10000000000000000nat == 0x100000000000000000000000000000000000000000000000000000000000000000000000000000000nat);
        assert(0x10000000000000000000000000000000000000000000000000000000000000000nat * 0x100000000000000000000000000000000nat == 0x1000000000000000000000000000000000000000000000000000000000000000000000000000000000000000000000000nat);
        assert(0x10000000000000000000000000000000000000000000000000000000000000000nat * 0x1000000000000000000000000000000000000000000000000nat == 0x10000000000000000000000000000000000000000000000000000000000000000000000000000000000000000000000000000000000000000nat);
        lemma_mul_is_associative(out[1] as int, 0x10000000000000000000000000000000000000000000000000000000000000000int, 0x10000000000000000int);
        lemma_mul_is_associative(out[2] as int, 0x10000000000000000000000000000000000000000000000000000000000000000int, 0x100000000000000000000000000000000int);
        lemma_mul_is_associative(out[3] as int, 0x10000000000000000000000000000000000000000000000000000000000000000int, 0x1000000000000000000000000000000000000000000000000int);
        assert(limbs_nat(out) * 0x10000000000000000000000000000000000000000000000000000000000000000nat == wide_nat(w3.0));
        // every added quantity is a multiple of p, so the value is unchanged mod p
        let k0 = m0 as nat;
        let k1 = (m1 as nat) * pow2(64);
        let k2 = (m2 as nat) * pow2(128);
        let k3 = (m3 as nat) * pow2(192);
        lemma_swap_mp(m0 as nat, 0);
        lemma_swap_mp(m1 as nat, 64);
        lemma_swap_mp(m2 as nat, 128);
        lemma_swap_mp(m3 as nat, 192);
        assert(limbs_nat(out) * 0x10000000000000000000000000000000000000000000000000000000000000000nat == wide_nat(t) + prime() * k0 + prime() * k1 + prime()
            * k2 + prime() * k3);
        lemma_mod_multiples_vanish(k3 as int, (wide_nat(t) + prime() * k0 + prime() * k1 + prime()
            * k2) as int, prime() as int);
        lemma_mod_multiples_vanish(k2 as int, (wide_nat(t) + prime() * k0 + prime() * k1) as int,
            prime() as int);
        lemma_mod_multiples_vanish(k1 as int, (wide_nat(t) + prime() * k0) as int, prime() as int);
        lemma_mod_multiples_vanish(k0 as int, wide_nat(t) as int, prime() as int);
        assert((limbs_nat(out) * 0x10000000000000000000000000000000000000000000000000000000000000000nat) % prime() == wide_nat(t) % prime());
        // the result is below 2p, so one conditional subtraction reduces it
        assert(limbs_nat(out) * 0x10000000000000000000000000000000000000000000000000000000000000000nat < 0x10000000000000220000000000000000000000000000000000000000000000020000000000000000000000000000000000000000000000000000000000000000nat);
        assert(0x1000000000000022000000000000000000000000000000000000000000000002nat * 0x10000000000000000000000000000000000000000000000000000000000000000nat == 0x10000000000000220000000000000000000000000000000000000000000000020000000000000000000000000000000000000000000000000000000000000000nat) by (nonlinear_arith);
        if limbs_nat(out) >= 0x1000000000000022000000000000000000000000000000000000000000000002nat {
            lemma_mul_inequality(0x1000000000000022000000000000000000000000000000000000000000000002int, limbs_nat(out) as int, 0x10000000000000000000000000000000000000000000000000000000000000000int);
            assert(false);
        }
    }
    let f = reduce_once(out);
    proof {
        if limbs_nat(out) >= prime() {
            lemma_mul_is_distributive_sub_other_way(0x10000000000000000000000000000000000000000000000000000000000000000int, limbs_nat(out) as int,
                prime() as int);
            assert(limbs_nat(out) * 0x10000000000000000000000000000000000000000000000000000000000000000nat == limbs_nat(f) * 0x10000000000000000000000000000000000000000000000000000000000000000nat + prime()
                * 0x10000000000000000000000000000000000000000000000000000000000000000nat);
            lemma_mod_multiples_vanish(0x10000000000000000000000000000000000000000000000000000000000000000int, (limbs_nat(f) * 0x10000000000000000000000000000000000000000000000000000000000000000nat) as int,
                prime() as int);
        }
    }
    f
}

/// `(m * p) * 2^e == p * (m * 2^e)`.
proof fn lemma_swap_mp(m: nat, e: nat)
    ensures
        (m * prime()) * pow2(e) == prime() * (m * pow2(e)),
{
    lemma_mul_is_commutative(m as int, prime() as int);
    lemma_mul_is_associative(prime() as int, m as int, pow2(e) as int);
}

impl Fp {
    /// Field multiplication.
    pub fn mul(&self, rhs: &Fp) -> (r: Fp)
        requires
            self.wf(),
            rhs.wf(),
        ensures
            r.wf(),
            r@ == f_mul(self@, rhs@),
    {
        let w = mul_wide(&self.limbs, &rhs.limbs);
        proof {
            lemma_mul_upper_bound(self@ as int, 0x800000000000011000000000000000000000000000000000000000000000000int, rhs@ as int, 0x800000000000011000000000000000000000000000000000000000000000000int);
            assert(0x800000000000011000000000000000000000000000000000000000000000000nat * 0x800000000000011000000000000000000000000000000000000000000000000nat == 0x400000000000011000000000000121000000000000000000000000000000000000000000000000000000000000000000000000000000000000000000000000nat) by (nonlinear_arith);
        }
        let m1 = redc(w);
        let r2 = r2_limbs();
        let w2 = mul_wide(&m1, &r2);
        proof {
            lemma_mul_upper_bound(limbs_nat(m1) as int, 0x800000000000011000000000000000000000000000000000000000000000000int, limbs_nat(r2) as int, 0x800000000000011000000000000000000000000000000000000000000000000int);
        }
        let m2 = redc(w2);
        proof {
            lemma_montgomery_chain(self@ * rhs@, limbs_nat(m1), limbs_nat(m2));
        }
        Fp { limbs: m2 }
    }
}

/// Two reduction rounds leave `ab % p`: if `x * 2^256 == ab` and
/// `y * 2^256 == x * (2^512 % p)` modulo `p`, with `y < p`, then `y == ab % p`.
#[verifier::rlimit(60)]
proof fn lemma_montgomery_chain(ab: nat, x: nat, y: nat)
    requires
        (x * 0x10000000000000000000000000000000000000000000000000000000000000000nat) % prime() == ab % prime(),
        (y * 0x10000000000000000000000000000000000000000000000000000000000000000nat) % prime() == (x * 0x7ffd4ab5e008810ffffffffff6f800000000001330ffffffffffd737e000401nat) % prime(),
        y < prime(),
    ensures
        y == ab % prime(),
{
    let pr = prime() as int;
    let r4 = 0x10000000000000000000000000000000000000000000000000000000000000000int;
    let rinv = 0x40000000000001100000000000012100000000000000000000000000000000int;
    assert(0x10000000000000000000000000000000000000000000000000000000000000000int * 0x40000000000001100000000000012100000000000000000000000000000000int == 0x800000000000010ffffffffffffffffffffffffffffffffffffffffffffffffint * 0x800000000000011000000000000000000000000000000000000000000000001int + 1) by (nonlinear_arith);
    lemma_fundamental_div_mod_converse_mod(r4 * rinv, pr, 0x800000000000010ffffffffffffffffffffffffffffffffffffffffffffffffint, 1);
    assert((r4 * rinv) % pr == 1);
    assert(0x10000000000000000000000000000000000000000000000000000000000000000int * 0x10000000000000000000000000000000000000000000000000000000000000000int == 0x1fffffffffffffbc000000000000907ffffffffffeccf000000000028c81fffbffint * 0x800000000000011000000000000000000000000000000000000000000000001int + 0x7ffd4ab5e008810ffffffffff6f800000000001330ffffffffffd737e000401int) by (nonlinear_arith);
    lemma_fundamental_div_mod_converse_mod(r4 * r4, pr, 0x1fffffffffffffbc000000000000907ffffffffffeccf000000000028c81fffbffint, 0x7ffd4ab5e008810ffffffffff6f800000000001330ffffffffffd737e000401int);
    assert((r4 * r4) % pr == 0x7ffd4ab5e008810ffffffffff6f800000000001330ffffffffffd737e000401int);
    let yi = y as int;
    let xi = x as int;
    let abi = ab as int;
    // y == y * (r4 * rinv) mod p
    lemma_mul_mod_noop_general(yi, r4 * rinv, pr);
    lemma_mul_basics(yi);
    assert((yi * (r4 * rinv)) % pr == (yi * (((r4 * rinv)) % pr)) % pr);
    assert((yi * (r4 * rinv)) % pr == yi % pr);
    lemma_small_mod(y, prime());
    // y * (r4 * rinv) == (y * r4) * rinv
    lemma_mul_is_associative(yi, r4, rinv);
    lemma_mul_mod_noop_general(yi * r4, rinv, pr);
    assert(((yi * r4) * rinv) % pr == (((yi * r4) % pr) * rinv) % pr);
    assert(((yi * r4) % pr) == (xi * 0x7ffd4ab5e008810ffffffffff6f800000000001330ffffffffffd737e000401int) % pr);
    lemma_mul_mod_noop_general(xi * 0x7ffd4ab5e008810ffffffffff6f800000000001330ffffffffffd737e000401int, rinv, pr);
    assert((((yi * r4) % pr) * rinv) % pr == ((xi * 0x7ffd4ab5e008810ffffffffff6f800000000001330ffffffffffd737e000401int) * rinv) % pr);
    // x * R2 == x * (r4 * r4) mod p
    lemma_mul_mod_noop_general(xi, r4 * r4, pr);
    assert((xi * ((r4 * r4) % pr)) % pr == (xi * (r4 * r4)) % pr);
    lemma_mul_mod_noop_general(xi * (r4 * r4), rinv, pr);
    lemma_mul_mod_noop_general(xi * 0x7ffd4ab5e008810ffffffffff6f800000000001330ffffffffffd737e000401int, rinv, pr);
    assert(((xi * 0x7ffd4ab5e008810ffffffffff6f800000000001330ffffffffffd737e000401int) * rinv) % pr == (((xi * 0x7ffd4ab5e008810ffffffffff6f800000000001330ffffffffffd737e000401int) % pr) * rinv) % pr);
    assert(((xi * (r4 * r4)) * rinv) % pr == (((xi * (r4 * r4)) % pr) * rinv) % pr);
    assert(((xi * 0x7ffd4ab5e008810ffffffffff6f800000000001330ffffffffffd737e000401int) * rinv) % pr == ((xi * (r4 * r4)) * rinv) % pr);
    // regroup: (x * (r4 * r4)) * rinv == (x * r4) * (r4 * rinv)
    lemma_mul_is_associative(xi, r4, r4);
    lemma_mul_is_associative(xi * r4, r4, rinv);
    assert((xi * (r4 * r4)) * rinv == (xi * r4) * (r4 * rinv));
    // apply both known residues
    lemma_mul_mod_noop_general(xi * r4, r4 * rinv, pr);
    assert(((xi * r4) * (r4 * rinv)) % pr == (((xi * r4) % pr) * ((r4 * rinv) % pr)) % pr);
    assert(((xi * r4) % pr) == abi % pr);
    lemma_mul_basics(abi % pr);
    vstd::arithmetic::div_mod::lemma_mod_twice(abi, pr);
    assert(y == ab % prime());
}


/// The value of a little-endian bit sequence.
pub open spec fn bits_to_nat(s: Seq<bool>) -> nat
    decreases s.len(),
{
    if s.len() == 0 {
        0
    } else {
        (if s[0] {
            1nat
        } else {
            0nat
        }) + 2 * bits_to_nat(s.drop_first())
    }
}

/// Appending a bit adds its weighted value.
proof fn lemma_bits_push(s: Seq<bool>, b: bool)
    ensures
        bits_to_nat(s.push(b)) == bits_to_nat(s) + (if b {
            pow2(s.len())
        } else {
            0nat
        }),
    decreases s.len(),
{
    vstd::arithmetic::power2::lemma2_to64();
    if s.len() == 0 {
        assert(s.push(b) =~= seq![b]);
        assert(s.push(b).drop_first() =~= Seq::<bool>::empty());
        assert(s.push(b)[0] == b);
        assert(bits_to_nat(Seq::<bool>::empty()) == 0);
        assert(bits_to_nat(s.push(b)) == (if b {
            1nat
        } else {
            0nat
        }));
        assert(bits_to_nat(s) == 0);
        assert(pow2(0) == 1);
    } else {
        assert(s.push(b).drop_first() =~= s.drop_first().push(b));
        lemma_bits_push(s.drop_first(), b);
        vstd::arithmetic::power2::lemma_pow2_unfold(s.len());
        assert(bits_to_nat(s.push(b)) == (if s[0] {
            1nat
        } else {
            0nat
        }) + 2 * bits_to_nat(s.drop_first().push(b)));
        assert(bits_to_nat(s.drop_first().push(b)) == bits_to_nat(s.drop_first()) + (if b {
            pow2((s.len() - 1) as nat)
        } else {
            0nat
        }));
        assert(pow2(s.len()) == 2 * pow2((s.len() - 1) as nat));
        assert(bits_to_nat(s) == (if s[0] {
            1nat
        } else {
            0nat
        }) + 2 * bits_to_nat(s.drop_first()));
        assert(bits_to_nat(s.push(b)) == bits_to_nat(s) + 2 * (if b {
            pow2((s.len() - 1) as nat)
        } else {
            0nat
        }));
    }
}

/// The value of a prefix one bit longer gains that bit's weight.
proof fn lemma_bits_take_succ(s: Seq<bool>, k: int)
    requires
        0 <= k < s.len(),
    ensures
        bits_to_nat(s.take(k + 1)) == bits_to_nat(s.take(k)) + (if s[k] {
            pow2(k as nat)
        } else {
            0nat
        }),
{
    assert(s.take(k + 1) =~= s.take(k).push(s[k]));
    lemma_bits_push(s.take(k), s[k]);
}

/// Shifts one limb right, pulling in the low bit of the limb above.
fn shr1_pair(lo: u64, hi: u64) -> (r: u64)
    ensures
        r as nat == (lo as nat) / 2 + ((hi as nat) % 2) * 0x8000000000000000,
{
    proof {
        assert(((lo >> 1u64) | (hi << 63u64)) == lo / 2 + (hi % 2) * 0x8000000000000000u64)
            by (bit_vector);
    }
    (lo >> 1u64) | (hi << 63u64)
}

/// Halves a four-limb value.
fn shr1_limbs(c: [u64; 4]) -> (r: [u64; 4])
    ensures
        2 * limbs_nat(r) + ((c[0] as nat) % 2) == limbs_nat(c),
{
    let r0 = shr1_pair(c[0], c[1]);
    let r1 = shr1_pair(c[1], c[2]);
    let r2 = shr1_pair(c[2], c[3]);
    let r3 = c[3] >> 1u64;
    proof {
        shift_64_facts();
        vstd::arithmetic::power2::lemma2_to64();
        lemma_u64_shr_is_div(c[3], 1);
        lemma_fundamental_div_mod(c[0] as int, 2);
        lemma_fundamental_div_mod(c[1] as int, 2);
        lemma_fundamental_div_mod(c[2] as int, 2);
        lemma_fundamental_div_mod(c[3] as int, 2);
    }
    [r0, r1, r2, r3]
}

/// The 256 bits of a four-limb value, least significant first.
fn limbs_to_bits(l: [u64; 4]) -> (r: Vec<bool>)
    ensures
        r@.len() == 256,
        bits_to_nat(r@) == limbs_nat(l),
{
    let mut v: Vec<bool> = Vec::new();
    let mut cur = l;
    let mut k: usize = 0;
    proof {
        vstd::arithmetic::power2::lemma2_to64();
    }
    while k < 256
        invariant
            k <= 256,
            v@.len() == k,
            bits_to_nat(v@) + limbs_nat(cur) * pow2(k as nat) == limbs_nat(l),
        decreases 256 - k,
    {
        let bit = (cur[0] & 1u64) == 1;
        proof {
            vstd::bits::lemma_u64_low_bits_mask_is_mod(cur[0], 1);
            vstd::bits::lemma_low_bits_mask_values();
            vstd::arithmetic::power2::lemma2_to64();
            lemma_bits_push(v@, bit);
            vstd::arithmetic::power2::lemma_pow2_unfold((k + 1) as nat);
        }
        let next = shr1_limbs(cur);
        proof {
            let x = limbs_nat(next);
            let b = (cur[0] as nat) % 2;
            assert((2 * x + b) * pow2(k as nat) == x * (2 * pow2(k as nat)) + b * pow2(k as nat))
                by (nonlinear_arith);
            assert(limbs_nat(cur) * pow2(k as nat) == x * pow2((k + 1) as nat) + b * pow2(
                k as nat));
            assert(bits_to_nat(v@.push(bit)) == bits_to_nat(v@) + (if bit {
                pow2(k as nat)
            } else {
                0nat
            }));
            vstd::bits::lemma_u64_low_bits_mask_is_mod(cur[0], 1);
            vstd::bits::lemma_low_bits_mask_values();
            assert((cur[0] & 1u64) == cur[0] % 2u64);
            assert(b == 0 || b == 1);
            assert(bit <==> b == 1);
            lemma_mul_basics(pow2(k as nat) as int);
            assert((if bit {
                pow2(k as nat)
            } else {
                0nat
            }) == b * pow2(k as nat));
        }
        v.push(bit);
        cur = next;
        k = k + 1;
    }
    proof {
        shift_64_facts();
        if limbs_nat(cur) >= 1 {
            lemma_mul_inequality(1int, limbs_nat(cur) as int, pow2(256) as int);
            lemma_mul_basics(pow2(256) as int);
            assert(false);
        }
        lemma_mul_basics(pow2(256) as int);
    }
    v
}

/// The little-endian limbs of the inversion exponent `p - 2`.
fn exp_limbs() -> (r: [u64; 4])
    ensures
        limbs_nat(r) == prime() - 2,
{
    [0xffffffffffffffffu64, 0xffffffffffffffffu64, 0xffffffffffffffffu64, 0x800000000000010u64]
}

/// `b^e % p`.
pub open spec fn pow_mod(b: nat, e: nat) -> nat {
    (pow(b as int, e) % (prime() as int)) as nat
}

/// The residues of two powers multiply to the residue of the summed power.
proof fn lemma_pow_mod_mul(a: nat, x: nat, y: nat)
    ensures
        f_mul(pow_mod(a, x), pow_mod(a, y)) == pow_mod(a, x + y),
        pow_mod(a, x) < prime(),
{
    vstd::arithmetic::power::lemma_pow_adds(a as int, x, y);
    if a == 0 {
        if x == 0 {
            vstd::arithmetic::power::lemma_pow0(0);
        } else {
            vstd::arithmetic::power::lemma0_pow(x);
        }
        if y == 0 {
            vstd::arithmetic::power::lemma_pow0(0);
        } else {
            vstd::arithmetic::power::lemma0_pow(y);
        }
    } else {
        vstd::arithmetic::power::lemma_pow_positive(a as int, x);
        vstd::arithmetic::power::lemma_pow_positive(a as int, y);
    }
    lemma_mul_mod_noop_general(pow(a as int, x), pow(a as int, y), prime() as int);
}

impl Fp {
    /// Transforms the element into its little endian bit representation.
    pub fn into_bits(self) -> (r: Vec<bool>)
        ensures
            r@.len() == 256,
            bits_to_nat(r@) == self@,
    {
        limbs_to_bits(self.limbs)
    }

    /// The multiplicative inverse, by Fermat exponentiation with `p - 2`;
    /// zero is mapped to zero.
    pub fn invert(&self) -> (r: Fp)
        requires
            self.wf(),
        ensures
            r.wf(),
            r@ == f_inv(self@),
    {
        let bits = limbs_to_bits(exp_limbs());
        let mut result = Fp::one();
        let mut base = *self;
        let mut k: usize = 0;
        proof {
            vstd::arithmetic::power::lemma_pow0(self@ as int);
            vstd::arithmetic::power::lemma_pow1(self@ as int);
            vstd::arithmetic::power2::lemma2_to64();
            lemma_small_mod(1, prime());
            lemma_small_mod(self@, prime());
            assert(bits@.take(0) =~= Seq::<bool>::empty());
        }
        while k < 256
            invariant
                k <= 256,
                bits@.len() == 256,
                bits_to_nat(bits@) == prime() - 2,
                self.wf(),
                result.wf(),
                base.wf(),
                result@ == pow_mod(self@, bits_to_nat(bits@.take(k as int))),
                base@ == pow_mod(self@, pow2(k as nat)),
            decreases 256 - k,
        {
            proof {
                lemma_bits_take_succ(bits@, k as int);
                lemma_pow_mod_mul(self@, bits_to_nat(bits@.take(k as int)), pow2(k as nat));
                lemma_pow_mod_mul(self@, pow2(k as nat), pow2(k as nat));
                vstd::arithmetic::power2::lemma_pow2_unfold((k + 1) as nat);
            }
            if *bits.get(k).unwrap_or(&false) {
                result = result.mul(&base);
            }
            base = base.mul(&base);
            k = k + 1;
        }
        proof {
            assert(bits@.take(256) =~= bits@);
        }
        result
    }
}


/// Whether the character is a decimal digit.
pub open spec fn is_digit(c: char) -> bool {
    48 <= (c as u32) <= 57
}

/// The numeric value of a digit character.
pub open spec fn digit_val(c: char) -> nat {
    (((c as u32) - 48) as nat) % 10
}

/// Whether every character of the sequence is a decimal digit.
pub open spec fn all_digits(s: Seq<char>) -> bool {
    forall|i: int| 0 <= i < s.len() ==> is_digit(#[trigger] s[i])
}

/// The value of a decimal digit string.
pub open spec fn dec_val(s: Seq<char>) -> nat
    decreases s.len(),
{
    if s.len() == 0 {
        0
    } else {
        dec_val(s.drop_last()) * 10 + digit_val(s.last())
    }
}

impl Fp {
    /// Parses a decimal string into a field element, reducing modulo `p`;
    /// fails on an empty string or any non-digit character.
    pub fn from_str_vartime(s: &str) -> (r: Option<Fp>)
        ensures
            r is Some <==> (s@.len() > 0 && all_digits(s@)),
            r is Some ==> r.unwrap().wf() && r.unwrap()@ == dec_val(s@) % prime(),
    {
        let n = s.unicode_len();
        if n == 0 {
            return None;
        }
        let ten = Fp { limbs: [10, 0, 0, 0] };
        let mut acc = Fp::zero();
        let mut i: usize = 0;
        proof {
            assert(s@.take(0) =~= Seq::<char>::empty());
            lemma_small_mod(0, prime());
        }
        while i < n
            invariant
                i <= n,
                n == s@.len(),
                ten.wf(),
                ten@ == 10,
                acc.wf(),
                all_digits(s@.take(i as int)),
                acc@ == dec_val(s@.take(i as int)) % prime(),
            decreases n - i,
        {
            let c = s.get_char(i);
            let v = c as u32;
            if v < 48 || v > 57 {
                proof {
                    assert(!is_digit(s@[i as int]));
                }
                return None;
            }
            let d = Fp { limbs: [(v - 48) as u64, 0, 0, 0] };
            let shifted = acc.mul(&ten);
            let next = shifted.add(&d);
            proof {
                let pre = s@.take(i as int);
                let ext = s@.take(i as int + 1);
                assert(ext.drop_last() =~= pre);
                assert(ext.last() == s@[i as int]);
                assert(d@ == digit_val(s@[i as int]));
                let dv = dec_val(pre);
                vstd::arithmetic::div_mod::lemma_mul_mod_noop_left(dv as int, 10int,
                    prime() as int);
                vstd::arithmetic::div_mod::lemma_add_mod_noop(((dv % prime()) * 10) as int,
                    d@ as int, prime() as int);
                lemma_small_mod(d@, prime());
                vstd::arithmetic::div_mod::lemma_mod_twice((dv * 10) as int, prime() as int);
                vstd::arithmetic::div_mod::lemma_add_mod_noop((dv * 10) as int, d@ as int,
                    prime() as int);
                assert(next@ == (dv * 10 + d@) % prime());
                assert(dec_val(ext) == dv * 10 + digit_val(ext.last()));
            }
            acc = next;
            i = i + 1;
        }
        proof {
            assert(s@.take(n as int) =~= s@);
        }
        Some(acc)
    }
}

} // verus!
