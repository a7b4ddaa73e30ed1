//! The circuit's scalar field: the Pasta base field of the Pallas curve.
//!
//! A field element is held as four little-endian 64-bit limbs whose combined
//! value lies below the modulus.  All arithmetic is delegated to the `ark`
//! field implementation through trusted wrappers; every wrapper's contract
//! states the result as modular arithmetic on the limb value.

use vstd::prelude::*;
use vstd::arithmetic::div_mod::lemma_add_mod_noop_right;
use vstd::arithmetic::div_mod::lemma_div_multiples_vanish_fancy;
use vstd::arithmetic::div_mod::lemma_mod_bound;
use vstd::arithmetic::div_mod::lemma_mod_multiples_vanish;
use vstd::arithmetic::div_mod::lemma_mul_mod_noop_left;
use vstd::arithmetic::div_mod::lemma_mul_mod_noop_right;
use vstd::arithmetic::div_mod::lemma_small_mod;
use vstd::arithmetic::div_mod::lemma_sub_mod_noop;
use vstd::arithmetic::mul::lemma_mul_is_associative;
use ark_ff::Field;
use ark_ff::PrimeField;

verus! {

/// The modulus of the Pallas base field:
/// 2^254 + 45560315531419706090280762371685220353.
pub open spec fn p() -> nat {
    28948022309329048855892746252171976963363056481941560715954676764349967630337nat
}

/// A field element, stored as four little-endian 64-bit limbs.
#[derive(Clone, Copy, PartialEq, Eq, Structural, Debug)]
pub struct Fe {
    pub l0: u64,
    pub l1: u64,
    pub l2: u64,
    pub l3: u64,
}

impl View for Fe {
    type V = nat;

    open spec fn view(&self) -> nat {
        (self.l0
            + self.l1 * 0x10000000000000000nat
            + self.l2 * 0x100000000000000000000000000000000nat
            + self.l3 * 0x1000000000000000000000000000000000000000000000000nat) as nat
    }
}

impl Fe {
    /// The limbs denote a canonical residue: their value lies below the modulus.
    pub open spec fn wf(self) -> bool {
        self@ < p()
    }

    /// The zero element.
    pub fn zero() -> (r: Fe)
        ensures
            r@ == 0,
            r.wf(),
    {
        Fe { l0: 0, l1: 0, l2: 0, l3: 0 }
    }

    /// The unit element.
    pub fn one() -> (r: Fe)
        ensures
            r@ == 1,
            r.wf(),
    {
        Fe { l0: 1, l1: 0, l2: 0, l3: 0 }
    }

    /// Embeds a machine integer into the field.
    pub fn from_u64(x: u64) -> (r: Fe)
        ensures
            r@ == x,
            r.wf(),
    {
        Fe { l0: x, l1: 0, l2: 0, l3: 0 }
    }
}

/// Addition in the field.
pub open spec fn fadd(a: nat, b: nat) -> nat {
    (a + b) % p()
}

/// Subtraction in the field.
pub open spec fn fsub(a: nat, b: nat) -> nat {
    ((a - b) % (p() as int)) as nat
}

/// Multiplication in the field.
pub open spec fn fmul(a: nat, b: nat) -> nat {
    (a * b) % p()
}

/// Negation in the field.
pub open spec fn fneg(a: nat) -> nat {
    fsub(0, a)
}

/// The multiplicative inverse of a nonzero residue; zero maps to zero.
pub open spec fn finv(a: nat) -> nat {
    if a % p() == 0 {
        0
    } else {
        choose|r: nat| r < p() && fmul(a, r) == 1
    }
}

/// Division in the field, with division by zero yielding zero times the dividend.
pub open spec fn fdiv(a: nat, b: nat) -> nat {
    fmul(a, finv(b))
}

/// Relies on the `ark` field addition for `ark_pallas::Fq`, which computes
/// the sum of two canonical residues modulo the Pallas base-field order.
#[verifier::external_body]
pub fn fe_add(a: &Fe, b: &Fe) -> (r: Fe)
    requires
        a.wf(),
        b.wf(),
    ensures
        r@ == fadd(a@, b@),
        r.wf(),
{
    let x = ark_pallas::Fq::from_bigint(ark_ff::BigInt::new([a.l0, a.l1, a.l2, a.l3])).unwrap();
    let y = ark_pallas::Fq::from_bigint(ark_ff::BigInt::new([b.l0, b.l1, b.l2, b.l3])).unwrap();
    let l = (x + y).into_bigint().0;
    Fe { l0: l[0], l1: l[1], l2: l[2], l3: l[3] }
}

/// Relies on the `ark` field subtraction for `ark_pallas::Fq`, which computes
/// the difference of two canonical residues modulo the Pallas base-field order.
#[verifier::external_body]
pub fn fe_sub(a: &Fe, b: &Fe) -> (r: Fe)
    requires
        a.wf(),
        b.wf(),
    ensures
        r@ == fsub(a@, b@),
        r.wf(),
{
    let x = ark_pallas::Fq::from_bigint(ark_ff::BigInt::new([a.l0, a.l1, a.l2, a.l3])).unwrap();
    let y = ark_pallas::Fq::from_bigint(ark_ff::BigInt::new([b.l0, b.l1, b.l2, b.l3])).unwrap();
    let l = (x - y).into_bigint().0;
    Fe { l0: l[0], l1: l[1], l2: l[2], l3: l[3] }
}

/// Relies on the `ark` field multiplication for `ark_pallas::Fq`, which computes
/// the product of two canonical residues modulo the Pallas base-field order.
#[verifier::external_body]
pub fn fe_mul(a: &Fe, b: &Fe) -> (r: Fe)
    requires
        a.wf(),
        b.wf(),
    ensures
        r@ == fmul(a@, b@),
        r.wf(),
{
    let x = ark_pallas::Fq::from_bigint(ark_ff::BigInt::new([a.l0, a.l1, a.l2, a.l3])).unwrap();
    let y = ark_pallas::Fq::from_bigint(ark_ff::BigInt::new([b.l0, b.l1, b.l2, b.l3])).unwrap();
    let l = (x * y).into_bigint().0;
    Fe { l0: l[0], l1: l[1], l2: l[2], l3: l[3] }
}

/// Relies on `ark_ff::Field::inverse`, which returns the multiplicative
/// inverse of a nonzero element and `None` for zero.
#[verifier::external_body]
pub fn fe_inv(a: &Fe) -> (r: Option<Fe>)
    requires
        a.wf(),
    ensures
        a@ == 0 <==> r is None,
        r matches Some(x) ==> x.wf() && fmul(a@, x@) == 1,
{
    let x = ark_pallas::Fq::from_bigint(ark_ff::BigInt::new([a.l0, a.l1, a.l2, a.l3])).unwrap();
    match x.inverse() {
        None => None,
        Some(y) => {
            let l = y.into_bigint().0;
            Some(Fe { l0: l[0], l1: l[1], l2: l[2], l3: l[3] })
        }
    }
}

/// Exponentiation in the field.
pub open spec fn fpow(a: nat, e: nat) -> nat
    decreases e,
{
    if e == 0 {
        1nat
    } else {
        fmul(a, fpow(a, (e - 1) as nat))
    }
}

/// The limb encoding is a base-2^64 positional notation, so two elements
/// with the same value have the same limbs.
pub proof fn lemma_limbs_inj(a: Fe, b: Fe)
    ensures
        (a@ == b@) <==> (a == b),
{
    if a@ == b@ {
        lemma_limb_decomp(a);
        lemma_limb_decomp(b);
    }
}

/// Each limb of an element is a digit of its value in base 2^64.
proof fn lemma_limb_decomp(a: Fe)
    ensures
        a.l0 == a@ % 0x10000000000000000,
        a.l1 == (a@ / 0x10000000000000000nat) % 0x10000000000000000,
        a.l2 == ((a@ / 0x10000000000000000nat) / 0x10000000000000000nat) % 0x10000000000000000,
        a.l3 == ((a@ / 0x10000000000000000nat) / 0x10000000000000000nat) / 0x10000000000000000nat,
{
    let b: int = 0x10000000000000000;
    let v: int = a@ as int;
    let r1: int = a.l1 + a.l2 * b + a.l3 * b * b;
    let r2: int = a.l2 + a.l3 * b;
    assert(v == b * r1 + a.l0) by (nonlinear_arith)
        requires
            v == a.l0 + a.l1 * 0x10000000000000000 + a.l2 * 0x100000000000000000000000000000000
                + a.l3 * 0x1000000000000000000000000000000000000000000000000,
            r1 == a.l1 + a.l2 * b + a.l3 * b * b,
            b == 0x10000000000000000,
    ;
    lemma_mod_multiples_vanish(r1, a.l0 as int, b);
    lemma_small_mod(a.l0 as nat, b as nat);
    lemma_div_multiples_vanish_fancy(r1, a.l0 as int, b);
    assert(v % b == a.l0);
    assert(v / b == r1);
    assert(r1 == b * r2 + a.l1) by (nonlinear_arith)
        requires
            r1 == a.l1 + a.l2 * b + a.l3 * b * b,
            r2 == a.l2 + a.l3 * b,
            b == 0x10000000000000000,
    ;
    lemma_mod_multiples_vanish(r2, a.l1 as int, b);
    lemma_small_mod(a.l1 as nat, b as nat);
    lemma_div_multiples_vanish_fancy(r2, a.l1 as int, b);
    assert(r1 % b == a.l1);
    assert(r1 / b == r2);
    lemma_mod_multiples_vanish(a.l3 as int, a.l2 as int, b);
    lemma_small_mod(a.l2 as nat, b as nat);
    lemma_div_multiples_vanish_fancy(a.l3 as int, a.l2 as int, b);
    assert(r2 % b == a.l2);
    assert(r2 / b == a.l3);
}

impl Fe {
    /// Builds an element from its little-endian limbs, rejecting values
    /// at or above the modulus.
    pub fn from_limbs(l0: u64, l1: u64, l2: u64, l3: u64) -> (r: Option<Fe>)
        ensures
            r matches Some(x) ==> x == (Fe { l0, l1, l2, l3 }) && x.wf(),
            r is None ==> (Fe { l0, l1, l2, l3 })@ >= p(),
    {
        let c = Fe { l0, l1, l2, l3 };
        proof {
            lemma_limb_decomp(c);
        }
        let below = l3 < 0x4000000000000000
            || (l3 == 0x4000000000000000
                && (l2 == 0
                    && (l1 < 0x224698fc094cf91b
                        || (l1 == 0x224698fc094cf91b && l0 < 0x992d30ed00000001))));
        if below {
            Some(c)
        } else {
            None
        }
    }

    /// Compares two elements by value.
    pub fn equals(&self, other: &Fe) -> (r: bool)
        ensures
            r == (self@ == other@),
    {
        proof {
            lemma_limbs_inj(*self, *other);
        }
        self.l0 == other.l0 && self.l1 == other.l1 && self.l2 == other.l2 && self.l3 == other.l3
    }

    /// Tests whether an element is zero.
    pub fn is_zero(&self) -> (r: bool)
        ensures
            r == (self@ == 0),
    {
        proof {
            lemma_limbs_inj(*self, Fe { l0: 0, l1: 0, l2: 0, l3: 0 });
        }
        self.l0 == 0 && self.l1 == 0 && self.l2 == 0 && self.l3 == 0
    }
}

/// Negation, computed as a subtraction from zero.
pub fn fe_neg(a: &Fe) -> (r: Fe)
    requires
        a.wf(),
    ensures
        r@ == fneg(a@),
        r.wf(),
{
    let z = Fe::zero();
    fe_sub(&z, a)
}

/// Doubling, computed as an addition.
pub fn fe_double(a: &Fe) -> (r: Fe)
    requires
        a.wf(),
    ensures
        r@ == fadd(a@, a@),
        r.wf(),
{
    fe_add(a, a)
}

/// Squaring, computed as a multiplication.
pub fn fe_square(a: &Fe) -> (r: Fe)
    requires
        a.wf(),
    ensures
        r@ == fmul(a@, a@),
        r.wf(),
{
    fe_mul(a, a)
}

/// Division by a nonzero element.
pub fn fe_div(a: &Fe, b: &Fe) -> (r: Fe)
    requires
        a.wf(),
        b.wf(),
        b@ != 0,
    ensures
        r@ == fdiv(a@, b@),
        r.wf(),
{
    let i = fe_inv(b).unwrap();
    proof {
        lemma_finv_is(b@, i@);
    }
    fe_mul(a, &i)
}

/// The seventh power, the Poseidon S-box.
pub fn fe_pow7(a: &Fe) -> (r: Fe)
    requires
        a.wf(),
    ensures
        r@ == fpow(a@, 7),
        r.wf(),
{
    proof {
        reveal_with_fuel(fpow, 8);
        lemma_small_mod(a@, p());
        assert(fpow(a@, 1) == fmul(a@, 1));
        assert(fmul(a@, 1) == a@);
    }
    let a2 = fe_mul(a, a);
    let a3 = fe_mul(a, &a2);
    let a4 = fe_mul(a, &a3);
    let a5 = fe_mul(a, &a4);
    let a6 = fe_mul(a, &a5);
    fe_mul(a, &a6)
}

/// The scalar-field modulus of the curve pair, the order of Pallas:
/// 2^254 + 45560315531506369815346746415080538113.
pub open spec fn q() -> nat {
    28948022309329048855892746252171976963363056481941647379679742748393362948097nat
}

/// A scalar-field value, stored as four little-endian 64-bit limbs.
#[derive(Clone, Copy, PartialEq, Eq, Structural, Debug)]
pub struct ScalarLimbs {
    pub l0: u64,
    pub l1: u64,
    pub l2: u64,
    pub l3: u64,
}

impl View for ScalarLimbs {
    type V = nat;

    open spec fn view(&self) -> nat {
        (self.l0
            + self.l1 * 0x10000000000000000nat
            + self.l2 * 0x100000000000000000000000000000000nat
            + self.l3 * 0x1000000000000000000000000000000000000000000000000nat) as nat
    }
}

impl ScalarLimbs {
    /// The limbs denote a canonical scalar-field residue.
    pub open spec fn wf(self) -> bool {
        self@ < q()
    }
}

/// The shifted-scalar relation of the multiplication ladder: `y` is the
/// stored cell value for the scalar `x` of the given bit length when
/// `2·y + 1 + 2^length ≡ x` in the scalar field.
pub open spec fn unshift_rel(y: nat, x: nat, length: nat) -> bool {
    (2 * y + 1 + vstd::arithmetic::power2::pow2(length)) % q() == x % q()
}

/// Relies on the `ark` scalar-field arithmetic for `ark_pallas::Fr`:
/// subtracting the shift `1 + 2^length` and halving.  The result is the
/// unshifted scalar `y` with `2·y + 1 + 2^length ≡ x` in the scalar
/// field.
#[verifier::external_body]
pub fn scalar_unshift(x: &ScalarLimbs, length: usize) -> (r: ScalarLimbs)
    requires
        x.wf(),
    ensures
        r.wf(),
        unshift_rel(r@, x@, length as nat),
{
    let two = ark_pallas::Fr::from(2u64);
    let shift = ark_pallas::Fr::from(1u64) + two.pow([length as u64]);
    let xv = ark_pallas::Fr::from_bigint(ark_ff::BigInt::new([x.l0, x.l1, x.l2, x.l3])).unwrap();
    let y = (xv - shift) / two;
    let l = y.into_bigint().0;
    ScalarLimbs { l0: l[0], l1: l[1], l2: l[2], l3: l[3] }
}

/// Unshifts a scalar and reinterprets it in the circuit field, as the
/// multiplication ladder's scalar cell stores it.  Where the unshifted
/// value does not fit below the circuit modulus, nothing is returned.
pub fn unshifted_scalar(x: &ScalarLimbs, length: usize) -> (r: Option<Fe>)
    requires
        x.wf(),
    ensures
        r matches Some(f) ==> f.wf() && unshift_rel(f@, x@, length as nat),
        r is None ==> exists|y: nat|
            #[trigger] unshift_rel(y, x@, length as nat) && y < q() && y >= p(),
{
    let y = scalar_unshift(x, length);
    let out = Fe::from_limbs(y.l0, y.l1, y.l2, y.l3);
    proof {
        if out is None {
            assert(unshift_rel(y@, x@, length as nat) && y@ < q() && y@ >= p());
        }
    }
    out
}

/// The bit at position `i` of the limb representation of an element.
pub open spec fn fe_bit_spec(f: Fe, i: int) -> bool
    recommends
        0 <= i < 256,
{
    if i < 64 {
        (f.l0 >> (i as u64)) & 1 == 1
    } else if i < 128 {
        (f.l1 >> ((i - 64) as u64)) & 1 == 1
    } else if i < 192 {
        (f.l2 >> ((i - 128) as u64)) & 1 == 1
    } else {
        (f.l3 >> ((i - 192) as u64)) & 1 == 1
    }
}

/// Reads one bit of an element's limb representation.
pub fn fe_bit(f: &Fe, i: usize) -> (r: bool)
    requires
        i < 256,
    ensures
        r == fe_bit_spec(*f, i as int),
{
    if i < 64 {
        (f.l0 >> (i as u64)) & 1 == 1
    } else if i < 128 {
        (f.l1 >> ((i - 64) as u64)) & 1 == 1
    } else if i < 192 {
        (f.l2 >> ((i - 128) as u64)) & 1 == 1
    } else {
        (f.l3 >> ((i - 192) as u64)) & 1 == 1
    }
}

/// A dedicated source of blinding values.
///
/// Relies on `rand::rngs::StdRng`, the standard seedable generator.
#[verifier::external_type_specification]
#[verifier::external_body]
pub struct ExStdRng(rand::rngs::StdRng);

/// Relies on `ark_ff::UniformRand::rand`, which samples a uniformly
/// distributed canonical field element from the given generator.  Nothing
/// is promised of the sampled value beyond canonicity.
#[verifier::external_body]
pub fn fe_rand(rng: &mut rand::rngs::StdRng) -> (r: Fe)
    ensures
        r.wf(),
{
    let x: ark_pallas::Fq = ark_ff::UniformRand::rand(rng);
    let l = x.into_bigint().0;
    Fe { l0: l[0], l1: l[1], l2: l[2], l3: l[3] }
}

/// The power of two used to shift scalars for the multiplication ladder.
pub fn shift(size: usize) -> (r: Fe)
    ensures
        r@ == fpow(2, size as nat),
        r.wf(),
{
    let mut r = Fe::one();
    let mut i: usize = 0;
    while i < size
        invariant
            0 <= i <= size,
            r.wf(),
            r@ == fpow(2, i as nat),
        decreases size - i,
    {
        let d = fe_add(&r, &r);
        proof {
            assert(fadd(r@, r@) == fmul(2, r@));
        }
        r = d;
        i = i + 1;
    }
    r
}

/// Addition by zero is the identity.
pub proof fn lemma_fadd_zero(a: nat)
    requires
        a < p(),
    ensures
        fadd(a, 0) == a,
{
    lemma_small_mod(a, p());
}

/// Adding and then subtracting the same element returns the first summand.
pub proof fn lemma_fsub_fadd_cancel(a: nat, b: nat)
    requires
        a < p(),
        b < p(),
    ensures
        fsub(fadd(a, b), b) == a,
{
    let m = p() as int;
    let s: int = (a + b) as int;
    lemma_sub_mod_noop(s, b as int, m);
    lemma_small_mod(b, p());
    lemma_small_mod(a, p());
    assert((s % m - (b as int) % m) % m == (s - b) % m);
    assert((s - b) % m == (a as int) % m);
}

/// An element has at most one multiplicative inverse.
pub proof fn lemma_finv_unique(a: nat, r1: nat, r2: nat)
    requires
        a < p(),
        r1 < p(),
        r2 < p(),
        fmul(a, r1) == 1,
        fmul(a, r2) == 1,
    ensures
        r1 == r2,
{
    let m = p() as int;
    let x1 = r1 as int;
    let x2 = r2 as int;
    let y = a as int;
    lemma_small_mod(r1, p());
    lemma_small_mod(r2, p());
    // x1 == (x1 * ((y * x2) % m)) % m == (x1 * (y * x2)) % m
    lemma_mul_mod_noop_right(x1, y * x2, m);
    lemma_mul_is_associative(x1, y, x2);
    // ((x1 * y) * x2) % m == (((x1 * y) % m) * x2) % m == (1 * x2) % m == x2
    lemma_mul_mod_noop_left(x1 * y, x2, m);
    assert(x1 * y == y * x1) by (nonlinear_arith);
    assert((y * x2) % m == 1);
    assert((y * x1) % m == 1);
    assert((x1 * ((y * x2) % m)) % m == x1 % m);
    assert((x1 * (y * x2)) % m == ((x1 * y) * x2) % m);
    assert((((x1 * y) % m) * x2) % m == x2 % m);
}

/// The spec-level inverse agrees with any concrete inverse.
pub proof fn lemma_finv_is(a: nat, r: nat)
    requires
        0 < a < p(),
        r < p(),
        fmul(a, r) == 1,
    ensures
        finv(a) == r,
{
    lemma_small_mod(a, p());
    let c = choose|x: nat| x < p() && fmul(a, x) == 1;
    assert(r < p() && fmul(a, r) == 1);
    assert(c < p() && fmul(a, c) == 1);
    lemma_finv_unique(a, c, r);
}

/// A subtraction of canonical residues is zero exactly when they are equal.
pub proof fn lemma_fsub_zero_iff(a: nat, b: nat)
    requires
        a < p(),
        b < p(),
    ensures
        (fsub(a, b) == 0) <==> (a == b),
{
    let m = p() as int;
    if a == b {
        lemma_small_mod(0, p());
    } else if a > b {
        lemma_small_mod((a - b) as nat, p());
    } else {
        vstd::arithmetic::div_mod::lemma_fundamental_div_mod_converse_mod(
            a - b,
            m,
            -1,
            a - b + m,
        );
    }
}

/// Doubling a nonzero canonical residue stays nonzero, because the
/// modulus is odd.
pub proof fn lemma_fdouble_nonzero(b: nat)
    requires
        0 < b < p(),
    ensures
        fadd(b, b) != 0,
{
    let m = p() as int;
    if b + b < p() {
        lemma_small_mod((b + b) as nat, p());
    } else {
        vstd::arithmetic::div_mod::lemma_fundamental_div_mod_converse_mod(
            (b + b) as int,
            m,
            1,
            b + b - m,
        );
        assert(b + b - m != 0);
    }
}

/// A conditional selection between two elements, driven by a boolean bit,
/// returns the first when the bit is one and the second when it is zero.
pub proof fn lemma_cond_select(b: nat, t: nat, f: nat)
    requires
        b == 0 || b == 1,
        t < p(),
        f < p(),
    ensures
        fadd(f, fmul(b, fsub(t, f))) == if b == 1 {
            t
        } else {
            f
        },
{
    let m = p() as int;
    let ti = t as int;
    let fi = f as int;
    let d = fsub(t, f);
    lemma_mod_bound(ti - fi, m);
    if b == 1 {
        lemma_small_mod(d, p());
        assert(fmul(1, d) == d);
        lemma_add_mod_noop_right(fi, ti - fi, m);
        assert((fi + (ti - fi) % m) % m == (fi + (ti - fi)) % m);
        lemma_small_mod(t, p());
    } else {
        lemma_small_mod(0, p());
        assert(fmul(0, d) == 0);
        lemma_small_mod(f, p());
        lemma_small_mod(0, p());
    }
}

} // verus!
