//! Elements of the BN254 scalar field, held as four little-endian limbs.
//!
//! The arithmetic itself is done by `ark_ff` on `ark_bn254::Fr`; the functions
//! here that call it are trusted, and say what they return as arithmetic on
//! natural numbers modulo the field's order.
use ark_bn254::Fr;
use ark_ff::{BigInt, PrimeField, UniformRand};
use vstd::arithmetic::div_mod::{
    lemma_add_mod_noop, lemma_mul_mod_noop, lemma_mul_mod_noop_right, lemma_small_mod,
    lemma_sub_mod_noop,
};
use vstd::prelude::*;

verus! {

/// The order of the field.
pub open spec fn modulus() -> nat {
    21888242871839275222246405745257275088548364400416034343698204186575808495617nat
}

/// The sum of two values in the field.
pub open spec fn fadd(a: nat, b: nat) -> nat {
    (a + b) % modulus()
}

/// The difference of two values in the field.
pub open spec fn fsub(a: nat, b: nat) -> nat {
    ((a as int - b as int) % (modulus() as int)) as nat
}

/// The product of two values in the field.
pub open spec fn fmul(a: nat, b: nat) -> nat {
    (a * b) % modulus()
}

/// Whether `r` is what inversion makes of `a`: zero stays zero, and any other
/// value goes to the reduced value whose product with it is one.
pub open spec fn is_inverse_of(a: nat, r: nat) -> bool {
    if a % modulus() == 0 {
        r == 0
    } else {
        r < modulus() && (a * r) % modulus() == 1
    }
}

/// The inverse of `a` in the field, and zero for zero.
pub open spec fn finv(a: nat) -> nat {
    choose|r: nat| is_inverse_of(a, r)
}

/// Inversion has one result: whatever is the inverse of `a` is `finv(a)`.
pub proof fn lemma_inverse_is_unique(a: nat, r: nat)
    requires
        is_inverse_of(a, r),
    ensures
        finv(a) == r,
{
    let s = finv(a);
    assert(is_inverse_of(a, s));
    if a % modulus() != 0 {
        let p = modulus() as int;
        let ar = (a * r) as int;
        let as_ = (a * s) as int;
        lemma_small_mod(r, modulus());
        lemma_small_mod(s, modulus());
        lemma_mul_mod_noop_right(r as int, as_, p);
        lemma_mul_mod_noop_right(s as int, ar, p);
        assert(r * as_ == s * ar) by (nonlinear_arith)
            requires
                ar == a * r,
                as_ == a * s,
        ;
        assert(r * 1 == r);
        assert(s * 1 == s);
    }
}

/// The values of a sequence of elements.
pub open spec fn values(s: Seq<Fe>) -> Seq<nat> {
    s.map_values(|x: Fe| x@)
}

/// The residue of an integer in the field.
pub open spec fn residue(x: int) -> nat {
    (x % (modulus() as int)) as nat
}

/// The sum of two residues is the residue of the sum.
pub proof fn lemma_fadd_residue(x: int, y: int)
    ensures
        fadd(residue(x), residue(y)) == residue(x + y),
{
    lemma_add_mod_noop(x, y, modulus() as int);
}

/// The difference of two residues is the residue of the difference.
pub proof fn lemma_fsub_residue(x: int, y: int)
    ensures
        fsub(residue(x), residue(y)) == residue(x - y),
{
    lemma_sub_mod_noop(x, y, modulus() as int);
}

/// The product of two residues is the residue of the product.
pub proof fn lemma_fmul_residue(x: int, y: int)
    ensures
        fmul(residue(x), residue(y)) == residue(x * y),
{
    lemma_mul_mod_noop(x, y, modulus() as int);
}

/// A number below the field's order is its own residue.
pub proof fn lemma_residue_of_reduced(x: nat)
    requires
        x < modulus(),
    ensures
        residue(x as int) == x,
{
    lemma_small_mod(x, modulus());
}

/// The residue of an integer is below the field's order, and is its own
/// residue.
pub proof fn lemma_residue_is_reduced(x: int)
    ensures
        residue(x) < modulus(),
        residue(residue(x) as int) == residue(x),
{
    lemma_small_mod(residue(x), modulus());
}

/// Sums of integers with the same residues have the same residue.
pub proof fn lemma_residue_add_congruent(a: int, a2: int, b: int, b2: int)
    requires
        residue(a) == residue(a2),
        residue(b) == residue(b2),
    ensures
        residue(a + b) == residue(a2 + b2),
{
    lemma_fadd_residue(a, b);
    lemma_fadd_residue(a2, b2);
}

/// Differences of integers with the same residues have the same residue.
pub proof fn lemma_residue_sub_congruent(a: int, a2: int, b: int, b2: int)
    requires
        residue(a) == residue(a2),
        residue(b) == residue(b2),
    ensures
        residue(a - b) == residue(a2 - b2),
{
    lemma_fsub_residue(a, b);
    lemma_fsub_residue(a2, b2);
}

/// Products of integers with the same residues have the same residue.
pub proof fn lemma_residue_mul_congruent(a: int, a2: int, b: int, b2: int)
    requires
        residue(a) == residue(a2),
        residue(b) == residue(b2),
    ensures
        residue(a * b) == residue(a2 * b2),
{
    lemma_fmul_residue(a, b);
    lemma_fmul_residue(a2, b2);
}

/// The number that four little-endian limbs of 64 bits stand for.
pub open spec fn limbs_value(l0: u64, l1: u64, l2: u64, l3: u64) -> nat {
    (l0 as nat) + (l1 as nat) * 0x1_0000_0000_0000_0000nat + (l2 as nat)
        * 0x1_0000_0000_0000_0000_0000_0000_0000_0000nat + (l3 as nat)
        * 0x1_0000_0000_0000_0000_0000_0000_0000_0000_0000_0000_0000_0000nat
}

const MODULUS_LIMB_0: u64 = 0x43e1f593f0000001;

const MODULUS_LIMB_1: u64 = 0x2833e84879b97091;

const MODULUS_LIMB_2: u64 = 0xb85045b68181585d;

const MODULUS_LIMB_3: u64 = 0x30644e72e131a029;

/// An element of the field. Its value is always below the field's order.
#[derive(Clone, Copy, Debug, PartialEq, Eq, Hash)]
pub struct Fe {
    limbs: [u64; 4],
}

impl View for Fe {
    type V = nat;

    closed spec fn view(&self) -> nat {
        limbs_value(self.limbs[0], self.limbs[1], self.limbs[2], self.limbs[3])
    }
}

impl Fe {
    #[verifier::type_invariant]
    spec fn reduced(self) -> bool {
        self@ < modulus()
    }

    /// The additive identity.
    pub fn zero() -> (r: Fe)
        ensures
            r@ == 0,
    {
        Fe { limbs: [0, 0, 0, 0] }
    }

    /// The multiplicative identity.
    pub fn one() -> (r: Fe)
        ensures
            r@ == 1,
    {
        Fe { limbs: [1, 0, 0, 0] }
    }

    /// The element that stands for a small integer.
    pub fn from_u64(value: u64) -> (r: Fe)
        ensures
            r@ == value,
    {
        Fe { limbs: [value, 0, 0, 0] }
    }

    /// The element that stands for a small integer.
    pub fn from_u32(value: u32) -> (r: Fe)
        ensures
            r@ == value,
    {
        Fe { limbs: [value as u64, 0, 0, 0] }
    }

    /// Does nothing, and lets the caller know that the value of the element
    /// is below the field's order.
    pub fn bounded(&self)
        ensures
            self@ < modulus(),
    {
        proof {
            use_type_invariant(self);
        }
    }

    /// Whether the element is the additive identity.
    pub fn is_zero(&self) -> (r: bool)
        ensures
            r == (self@ == 0),
    {
        self.limbs[0] == 0 && self.limbs[1] == 0 && self.limbs[2] == 0 && self.limbs[3] == 0
    }

    /// Whether two elements have the same value.
    pub fn equals(&self, other: &Fe) -> (r: bool)
        ensures
            r == (self@ == other@),
    {
        self.limbs[0] == other.limbs[0] && self.limbs[1] == other.limbs[1] && self.limbs[2]
            == other.limbs[2] && self.limbs[3] == other.limbs[3]
    }

    /// The sum of two elements.
    pub fn add(&self, rhs: &Fe) -> (r: Fe)
        ensures
            r@ == fadd(self@, rhs@),
    {
        ark_add(self, rhs)
    }

    /// The difference of two elements.
    pub fn sub(&self, rhs: &Fe) -> (r: Fe)
        ensures
            r@ == fsub(self@, rhs@),
    {
        ark_sub(self, rhs)
    }

    /// The product of two elements.
    pub fn mul(&self, rhs: &Fe) -> (r: Fe)
        ensures
            r@ == fmul(self@, rhs@),
    {
        ark_mul(self, rhs)
    }

    /// The element with the given little-endian limbs, if they stand for a
    /// number below the field's order.
    pub fn from_limbs(limbs: [u64; 4]) -> (r: Option<Fe>)
        ensures
            r is Some <==> limbs_value(limbs[0], limbs[1], limbs[2], limbs[3]) < modulus(),
            r matches Some(x) ==> x@ == limbs_value(limbs[0], limbs[1], limbs[2], limbs[3]),
    {
        let below = if limbs[3] != MODULUS_LIMB_3 {
            limbs[3] < MODULUS_LIMB_3
        } else if limbs[2] != MODULUS_LIMB_2 {
            limbs[2] < MODULUS_LIMB_2
        } else if limbs[1] != MODULUS_LIMB_1 {
            limbs[1] < MODULUS_LIMB_1
        } else {
            limbs[0] < MODULUS_LIMB_0
        };
        if below {
            Some(Fe { limbs })
        } else {
            None
        }
    }

    /// An element drawn at random.
    pub fn random() -> (r: Fe)
        ensures
            r@ < modulus(),
    {
        ark_random()
    }

    /// The little-endian limbs of the element's value.
    pub fn to_limbs(&self) -> (r: [u64; 4])
        ensures
            self@ == limbs_value(r[0], r[1], r[2], r[3]),
    {
        self.limbs
    }
}

/// The sum of two elements, computed by `ark_ff`'s `Add` for `Fp`: the sum of
/// the two values, reduced modulo the field's order.
#[verifier::external_body]
fn ark_add(a: &Fe, b: &Fe) -> (r: Fe)
    ensures
        r@ == fadd(a@, b@),
{
    let x = Fr::from_bigint(BigInt::new(a.limbs)).unwrap();
    let y = Fr::from_bigint(BigInt::new(b.limbs)).unwrap();
    Fe { limbs: (x + y).into_bigint().0 }
}

/// The difference of two elements, computed by `ark_ff`'s `Sub` for `Fp`: the
/// difference of the two values, reduced modulo the field's order.
#[verifier::external_body]
fn ark_sub(a: &Fe, b: &Fe) -> (r: Fe)
    ensures
        r@ == fsub(a@, b@),
{
    let x = Fr::from_bigint(BigInt::new(a.limbs)).unwrap();
    let y = Fr::from_bigint(BigInt::new(b.limbs)).unwrap();
    Fe { limbs: (x - y).into_bigint().0 }
}

/// The product of two elements, computed by `ark_ff`'s `Mul` for `Fp`: the
/// product of the two values, reduced modulo the field's order.
#[verifier::external_body]
fn ark_mul(a: &Fe, b: &Fe) -> (r: Fe)
    ensures
        r@ == fmul(a@, b@),
{
    let x = Fr::from_bigint(BigInt::new(a.limbs)).unwrap();
    let y = Fr::from_bigint(BigInt::new(b.limbs)).unwrap();
    Fe { limbs: (x * y).into_bigint().0 }
}

/// An element drawn by `ark_ff`'s `UniformRand` for `Fp` from the generator
/// `rand::thread_rng`. Nothing is promised of it but that it is an element.
#[verifier::external_body]
fn ark_random() -> (r: Fe)
    ensures
        r@ < modulus(),
{
    Fe { limbs: Fr::rand(&mut rand::thread_rng()).into_bigint().0 }
}

/// Inverts every element of `v` in place, by `ark_ff::fields::batch_inversion`:
/// an element that is zero is left as it is, and any other is replaced by the
/// reduced element whose product with it is one.
#[verifier::external_body]
fn ark_batch_inversion(v: &mut Vec<Fe>)
    ensures
        final(v)@.len() == old(v)@.len(),
        forall|i: int|
            0 <= i < old(v)@.len() ==> is_inverse_of(old(v)@[i]@, #[trigger] final(v)@[i]@),
{
    let mut w: Vec<Fr> = v.iter().map(|x| Fr::from_bigint(BigInt::new(x.limbs)).unwrap()).collect();
    ark_ff::fields::batch_inversion(&mut w);
    *v = w.into_iter().map(|y| Fe { limbs: y.into_bigint().0 }).collect();
}

/// A copy of a vector of elements.
pub fn copy_elements(v: &Vec<Fe>) -> (r: Vec<Fe>)
    ensures
        r@ == v@,
{
    let mut out: Vec<Fe> = Vec::new();
    let mut i: usize = 0;
    while i < v.len()
        invariant
            i <= v@.len(),
            out@ == v@.take(i as int),
        decreases v@.len() - i,
    {
        out.push(v[i]);
        assert(out@ =~= v@.take(i + 1));
        i = i + 1;
    }
    assert(v@.take(i as int) =~= v@);
    out
}

/// Replaces every element of `v` by its inverse, and zero by zero.
pub fn batch_inversion(v: &mut Vec<Fe>)
    ensures
        final(v)@.len() == old(v)@.len(),
        forall|i: int| 0 <= i < old(v)@.len() ==> (#[trigger] final(v)@[i])@ == finv(old(v)@[i]@),
{
    let ghost before = v@;
    ark_batch_inversion(v);
    assert forall|i: int| 0 <= i < before.len() implies (#[trigger] v@[i])@ == finv(
        before[i]@,
    ) by {
        lemma_inverse_is_unique(before[i]@, v@[i]@);
    }
}

} // verus!
