//! Scalars: the integers modulo the prime order of the Ristretto group.
//!
//! A [`Scalar`] keeps the canonical 32-byte little-endian encoding of a number
//! below the group order; its view is that number. The arithmetic is done by
//! `curve25519-dalek`, whose results are stated here as arithmetic modulo the
//! order.

use vstd::prelude::*;
use vstd::std_specs::cmp::PartialEqSpecImpl;
use vstd::arithmetic::power2::pow2;
use crate::bytes::{le_nat, le_bytes, lemma_le_bytes_of_le_nat, lemma_le_nat_injective};

verus! {

/// The order of the Ristretto group: `2^252 + 27742317777372353535851937790883648493`.
pub open spec fn scalar_order() -> nat {
    pow2(252) + 27742317777372353535851937790883648493nat
}

/// The order exceeds every 64-bit number.
pub proof fn lemma_order_is_large()
    ensures
        scalar_order() > 0x1_0000_0000_0000_0000,
{
    vstd::arithmetic::power2::lemma2_to64();
    vstd::arithmetic::power2::lemma_pow2_strictly_increases(64, 252);
}

/// An integer modulo the group order.
#[derive(Clone, Copy, Debug)]
pub struct Scalar {
    bytes: [u8; 32],
}

impl View for Scalar {
    type V = nat;

    closed spec fn view(&self) -> nat {
        le_nat(self.bytes@)
    }
}

impl PartialEq for Scalar {
    /// Whether two scalars are the same number.
    fn eq(&self, other: &Scalar) -> (r: bool) {
        self.equals(other)
    }
}

impl PartialEqSpecImpl for Scalar {
    open spec fn obeys_eq_spec() -> bool {
        true
    }

    open spec fn eq_spec(&self, other: &Scalar) -> bool {
        self@ == other@
    }
}

/// `Scalar::from_bytes_mod_order` on both operands, `+`, then `to_bytes`:
/// the little-endian encoding of the sum modulo the group order.
#[verifier::external_body]
fn dalek_add(a: &[u8; 32], b: &[u8; 32]) -> (r: [u8; 32])
    ensures
        le_nat(r@) == (le_nat(a@) + le_nat(b@)) % scalar_order(),
{
    let x = curve25519_dalek::scalar::Scalar::from_bytes_mod_order(*a);
    let y = curve25519_dalek::scalar::Scalar::from_bytes_mod_order(*b);
    (x + y).to_bytes()
}

/// `Scalar::from_bytes_mod_order` on both operands, `-`, then `to_bytes`:
/// the little-endian encoding of the difference modulo the group order.
#[verifier::external_body]
fn dalek_sub(a: &[u8; 32], b: &[u8; 32]) -> (r: [u8; 32])
    ensures
        le_nat(r@) as int == (le_nat(a@) - le_nat(b@)) % (scalar_order() as int),
{
    let x = curve25519_dalek::scalar::Scalar::from_bytes_mod_order(*a);
    let y = curve25519_dalek::scalar::Scalar::from_bytes_mod_order(*b);
    (x - y).to_bytes()
}

/// `Scalar::from_bytes_mod_order` on both operands, `*`, then `to_bytes`:
/// the little-endian encoding of the product modulo the group order.
#[verifier::external_body]
fn dalek_mul(a: &[u8; 32], b: &[u8; 32]) -> (r: [u8; 32])
    ensures
        le_nat(r@) == (le_nat(a@) * le_nat(b@)) % scalar_order(),
{
    let x = curve25519_dalek::scalar::Scalar::from_bytes_mod_order(*a);
    let y = curve25519_dalek::scalar::Scalar::from_bytes_mod_order(*b);
    (x * y).to_bytes()
}

/// `Scalar::invert` of a number that is not a multiple of the group order:
/// the encoding of a canonical number whose product with the operand is 1
/// modulo the order.
#[verifier::external_body]
fn dalek_invert(a: &[u8; 32]) -> (r: [u8; 32])
    requires
        le_nat(a@) % scalar_order() != 0,
    ensures
        le_nat(r@) < scalar_order(),
        (le_nat(r@) * le_nat(a@)) % scalar_order() == 1,
{
    curve25519_dalek::scalar::Scalar::from_bytes_mod_order(*a).invert().to_bytes()
}

/// `Scalar::from(u64)` then `to_bytes`: the encoding of the number itself.
#[verifier::external_body]
fn dalek_from_u64(x: u64) -> (r: [u8; 32])
    ensures
        le_nat(r@) == x,
{
    curve25519_dalek::scalar::Scalar::from(x).to_bytes()
}

/// `Scalar::random` on the operating system's generator, then `to_bytes`:
/// the encoding of some number below the group order.
#[verifier::external_body]
fn dalek_random() -> (r: [u8; 32])
    ensures
        le_nat(r@) < scalar_order(),
{
    curve25519_dalek::scalar::Scalar::random(&mut rand_core::OsRng).to_bytes()
}

/// `Scalar::from_canonical_bytes` on a slice of 32 bytes: the bytes themselves
/// when they spell a number below the group order, nothing otherwise or when
/// the slice has another length.
#[verifier::external_body]
fn dalek_canonical(b: &[u8]) -> (r: Option<[u8; 32]>)
    ensures
        match r {
            Some(a) => a@ == b@ && le_nat(b@) < scalar_order(),
            None => b@.len() != 32 || le_nat(b@) >= scalar_order(),
        },
{
    let raw: [u8; 32] = b.try_into().ok()?;
    let s: Option<curve25519_dalek::scalar::Scalar> =
        curve25519_dalek::scalar::Scalar::from_canonical_bytes(raw).into();
    match s {
        Some(_) => Some(raw),
        None => None,
    }
}

impl Scalar {
    /// The number is below the group order.
    #[verifier::type_invariant]
    pub closed spec fn wf(self) -> bool {
        le_nat(self.bytes@) < scalar_order()
    }

    /// The 32 bytes that encode the scalar.
    pub closed spec fn encoding(self) -> Seq<u8> {
        self.bytes@
    }

    /// A well-formed scalar is a number below the group order.
    pub proof fn lemma_wf(self)
        requires
            self.wf(),
        ensures
            self@ < scalar_order(),
    {
    }

    /// The encoding is the little-endian spelling of the number on 32 bytes.
    pub proof fn lemma_encoding(self)
        ensures
            self.encoding() == le_bytes(self@, 32),
            self.encoding().len() == 32,
            le_nat(self.encoding()) == self@,
    {
        lemma_le_bytes_of_le_nat(self.bytes@);
    }

    /// The scalar that 32 canonical bytes encode, if they are canonical.
    pub fn from_bytes(b: &[u8]) -> (r: Option<Scalar>)
        ensures
            r is Some <==> b@.len() == 32 && le_nat(b@) < scalar_order(),
            r matches Some(s) ==> s.encoding() == b@ && s@ == le_nat(b@) && s.wf(),
    {
        match dalek_canonical(b) {
            Some(a) => Some(Scalar { bytes: a }),
            None => None,
        }
    }

    /// The encoding of the scalar.
    pub fn to_bytes(&self) -> (r: [u8; 32])
        ensures
            r@ == self.encoding(),
            le_nat(r@) == self@,
    {
        self.bytes
    }

    /// The scalar of a small number.
    pub fn from_u64(x: u64) -> (r: Scalar)
        ensures
            r@ == x,
            r.wf(),
    {
        proof {
            lemma_order_is_large();
        }
        Scalar { bytes: dalek_from_u64(x) }
    }

    /// The scalar zero.
    pub fn zero() -> (r: Scalar)
        ensures
            r@ == 0,
            r.wf(),
    {
        Scalar::from_u64(0)
    }

    /// The scalar one.
    pub fn one() -> (r: Scalar)
        ensures
            r@ == 1,
            r.wf(),
    {
        Scalar::from_u64(1)
    }

    /// A scalar drawn by the operating system's random generator.
    pub fn random() -> (r: Scalar)
        ensures
            r.wf(),
    {
        Scalar { bytes: dalek_random() }
    }

    /// The sum modulo the group order.
    pub fn add(&self, other: &Scalar) -> (r: Scalar)
        ensures
            r@ == (self@ + other@) % scalar_order(),
            r.wf(),
    {
        proof {
            lemma_order_is_large();
        }
        let bytes = dalek_add(&self.bytes, &other.bytes);
        assert(le_nat(bytes@) < scalar_order()) by (nonlinear_arith)
            requires
                le_nat(bytes@) == (le_nat(self.bytes@) + le_nat(other.bytes@)) % scalar_order(),
                scalar_order() > 0,
        ;
        Scalar { bytes }
    }

    /// The difference modulo the group order.
    pub fn sub(&self, other: &Scalar) -> (r: Scalar)
        ensures
            r@ as int == (self@ - other@) % (scalar_order() as int),
            r.wf(),
    {
        proof {
            lemma_order_is_large();
        }
        let bytes = dalek_sub(&self.bytes, &other.bytes);
        assert(le_nat(bytes@) < scalar_order()) by (nonlinear_arith)
            requires
                le_nat(bytes@) as int == (le_nat(self.bytes@) - le_nat(other.bytes@)) % (
                scalar_order() as int),
                scalar_order() > 0,
        ;
        Scalar { bytes }
    }

    /// The product modulo the group order.
    pub fn mul(&self, other: &Scalar) -> (r: Scalar)
        ensures
            r@ == (self@ * other@) % scalar_order(),
            r.wf(),
    {
        proof {
            lemma_order_is_large();
        }
        let bytes = dalek_mul(&self.bytes, &other.bytes);
        assert(le_nat(bytes@) < scalar_order()) by (nonlinear_arith)
            requires
                le_nat(bytes@) == (le_nat(self.bytes@) * le_nat(other.bytes@)) % scalar_order(),
                scalar_order() > 0,
        ;
        Scalar { bytes }
    }

    /// Whether the scalar is zero.
    pub fn is_zero(&self) -> (r: bool)
        ensures
            r == (self@ == 0),
    {
        let zero = Scalar::zero();
        self.equals(&zero)
    }

    /// The inverse modulo the group order of a scalar that is not zero.
    pub fn invert(&self) -> (r: Scalar)
        requires
            self@ != 0,
        ensures
            (r@ * self@) % scalar_order() == 1,
            r.wf(),
    {
        proof {
            use_type_invariant(self);
            vstd::arithmetic::div_mod::lemma_small_mod(self@, scalar_order());
        }
        Scalar { bytes: dalek_invert(&self.bytes) }
    }

    /// Whether two scalars are the same number.
    pub fn equals(&self, other: &Scalar) -> (r: bool)
        ensures
            r == (self@ == other@),
    {
        let same = crate::bytes::bytes_eq(self.bytes.as_slice(), other.bytes.as_slice());
        proof {
            if self@ == other@ {
                lemma_le_nat_injective(self.bytes@, other.bytes@);
            }
        }
        same
    }
}

} // verus!
