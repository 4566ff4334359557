//! Points: the elements of the Ristretto group, kept as their canonical
//! 32-byte encodings.
//!
//! The group is cyclic of prime order, generated by the Ristretto base point,
//! so every element is a multiple `k·B` of the base point with exactly one `k`
//! below the order. The contracts speak of a point through that `k`, its
//! index. The group operations are done by `curve25519-dalek`; what is assumed
//! of them is that they act on indices as addition and multiplication modulo
//! the order.

use vstd::prelude::*;
use vstd::std_specs::cmp::PartialEqSpecImpl;
use crate::bytes::{concat_all, le_nat, put_bytes};
use crate::scalar::{Scalar, scalar_order};

verus! {

/// The canonical encoding of `k·B`, the `k`-fold multiple of the Ristretto
/// base point, as `curve25519-dalek` computes and compresses it.
pub uninterp spec fn ristretto_encoding(k: nat) -> Seq<u8>;

/// Whether a byte string is the encoding of a group element.
pub open spec fn is_point(b: Seq<u8>) -> bool {
    b.len() == 32 && exists|k: nat| k < scalar_order() && #[trigger] ristretto_encoding(k) == b
}

/// The index of the group element that a byte string encodes: the `k` below
/// the order with `k·B` encoded so.
pub open spec fn point_index(b: Seq<u8>) -> nat {
    choose|k: nat| k < scalar_order() && #[trigger] ristretto_encoding(k) == b
}

/// The encoding of a group element is the encoding of its index's multiple
/// of the base point, and the index is below the order.
pub proof fn lemma_point_index(b: Seq<u8>)
    requires
        is_point(b),
    ensures
        point_index(b) < scalar_order(),
        ristretto_encoding(point_index(b)) == b,
{
}

/// `RistrettoPoint::mul_base` on `Scalar::from_bytes_mod_order`, then
/// `compress`: the encoding of the multiple of the base point by the scalar,
/// which is the only index below the order with that encoding.
#[verifier::external_body]
fn dalek_mul_base(s: &[u8; 32]) -> (r: [u8; 32])
    ensures
        r@ == ristretto_encoding(le_nat(s@) % scalar_order()),
        point_index(r@) == le_nat(s@) % scalar_order(),
{
    let k = curve25519_dalek::scalar::Scalar::from_bytes_mod_order(*s);
    curve25519_dalek::ristretto::RistrettoPoint::mul_base(&k).compress().to_bytes()
}

/// `CompressedRistretto::decompress` on both operands, `+`, then `compress`:
/// the encoding of the group element whose index is the sum of the operands'
/// indices modulo the order.
#[verifier::external_body]
fn dalek_point_add(p: &[u8; 32], q: &[u8; 32]) -> (r: [u8; 32])
    requires
        is_point(p@),
        is_point(q@),
    ensures
        is_point(r@),
        point_index(r@) == (point_index(p@) + point_index(q@)) % scalar_order(),
{
    let a = curve25519_dalek::ristretto::CompressedRistretto(*p).decompress().unwrap();
    let b = curve25519_dalek::ristretto::CompressedRistretto(*q).decompress().unwrap();
    (a + b).compress().to_bytes()
}

/// `CompressedRistretto::decompress`, `*` by `Scalar::from_bytes_mod_order`,
/// then `compress`: the encoding of the group element whose index is the
/// product of the scalar and the operand's index modulo the order.
#[verifier::external_body]
fn dalek_point_mul(s: &[u8; 32], p: &[u8; 32]) -> (r: [u8; 32])
    requires
        is_point(p@),
    ensures
        is_point(r@),
        point_index(r@) == (le_nat(s@) * point_index(p@)) % scalar_order(),
{
    let k = curve25519_dalek::scalar::Scalar::from_bytes_mod_order(*s);
    let a = curve25519_dalek::ristretto::CompressedRistretto(*p).decompress().unwrap();
    (a * k).compress().to_bytes()
}

/// `CompressedRistretto::from_slice` then `decompress`: the bytes themselves
/// when they are 32 and encode a group element, nothing otherwise.
#[verifier::external_body]
fn dalek_decode(b: &[u8]) -> (r: Option<[u8; 32]>)
    ensures
        match r {
            Some(a) => a@ == b@ && is_point(b@),
            None => !is_point(b@),
        },
{
    let c = curve25519_dalek::ristretto::CompressedRistretto::from_slice(b).ok()?;
    match c.decompress() {
        Some(_) => Some(c.to_bytes()),
        None => None,
    }
}

/// The encodings of a list of points.
pub open spec fn encodings(ps: Seq<Point>) -> Seq<Seq<u8>> {
    Seq::new(ps.len(), |i: int| ps[i]@)
}

/// Appends the encoding of every point of a list, in order.
pub fn put_points(out: &mut Vec<u8>, ps: &[Point])
    ensures
        final(out)@ == old(out)@ + concat_all(encodings(ps@)),
{
    let ghost before = out@;
    let mut k: usize = 0;
    assert(encodings(ps@).take(0) =~= Seq::<Seq<u8>>::empty());
    assert(before + concat_all(Seq::<Seq<u8>>::empty()) =~= before);
    while k < ps.len()
        invariant
            k <= ps.len(),
            out@ == before + concat_all(encodings(ps@).take(k as int)),
        decreases ps.len() - k,
    {
        let raw = ps[k].to_bytes();
        put_bytes(out, raw.as_slice());
        proof {
            let next = encodings(ps@).take(k + 1);
            assert(next.drop_last() =~= encodings(ps@).take(k as int));
            assert(next.last() == ps@[k as int]@);
            assert(out@ =~= before + concat_all(next));
        }
        k += 1;
    }
    assert(encodings(ps@).take(ps.len() as int) =~= encodings(ps@));
}

/// An element of the Ristretto group.
#[derive(Clone, Copy, Debug)]
pub struct Point {
    bytes: [u8; 32],
}

impl View for Point {
    type V = Seq<u8>;

    /// The 32 bytes that encode the point.
    closed spec fn view(&self) -> Seq<u8> {
        self.bytes@
    }
}

impl PartialEq for Point {
    /// Whether two points are the same group element.
    fn eq(&self, other: &Point) -> (r: bool) {
        self.equals(other)
    }
}

impl PartialEqSpecImpl for Point {
    open spec fn obeys_eq_spec() -> bool {
        true
    }

    open spec fn eq_spec(&self, other: &Point) -> bool {
        self@ == other@
    }
}

impl Point {
    /// The bytes encode a group element.
    #[verifier::type_invariant]
    pub closed spec fn wf(self) -> bool {
        is_point(self.bytes@)
    }

    /// The index of the point: the `k` below the order with `self == k·B`.
    pub open spec fn index(self) -> nat {
        point_index(self@)
    }

    pub proof fn lemma_wf(self)
        requires
            self.wf(),
        ensures
            is_point(self@),
            self@.len() == 32,
            self.index() < scalar_order(),
            ristretto_encoding(self.index()) == self@,
    {
        lemma_point_index(self@);
    }

    /// Points with the same index have the same encoding.
    pub proof fn lemma_same_index(self, other: Point)
        requires
            self.wf(),
            other.wf(),
            self.index() == other.index(),
        ensures
            self@ == other@,
    {
        self.lemma_wf();
        other.lemma_wf();
    }

    /// The base point `B`.
    pub fn generator() -> (r: Point)
        ensures
            r.wf(),
            r.index() == 1,
    {
        let one = Scalar::one();
        Point::mul_base(&one)
    }

    /// The multiple `s·B` of the base point.
    pub fn mul_base(s: &Scalar) -> (r: Point)
        ensures
            r.wf(),
            r.index() == s@,
            r@ == ristretto_encoding(s@),
    {
        proof {
            use_type_invariant(s);
            s.lemma_wf();
            vstd::arithmetic::div_mod::lemma_small_mod(s@, scalar_order());
        }
        let raw = s.to_bytes();
        Point { bytes: dalek_mul_base(&raw) }
    }

    /// The sum of two points.
    pub fn add_point(&self, other: &Point) -> (r: Point)
        ensures
            r.wf(),
            r.index() == (self.index() + other.index()) % scalar_order(),
    {
        proof {
            use_type_invariant(self);
            use_type_invariant(other);
        }
        Point { bytes: dalek_point_add(&self.bytes, &other.bytes) }
    }

    /// The multiple `s·self`.
    pub fn scalar_mul(&self, s: &Scalar) -> (r: Point)
        ensures
            r.wf(),
            r.index() == (s@ * self.index()) % scalar_order(),
    {
        proof {
            use_type_invariant(self);
        }
        let raw = s.to_bytes();
        Point { bytes: dalek_point_mul(&raw, &self.bytes) }
    }

    /// The point that the bytes encode, if they encode one.
    pub fn from_bytes(b: &[u8]) -> (r: Option<Point>)
        ensures
            r is Some <==> is_point(b@),
            r matches Some(p) ==> p@ == b@ && p.wf(),
    {
        match dalek_decode(b) {
            Some(a) => Some(Point { bytes: a }),
            None => None,
        }
    }

    /// The encoding of the point.
    pub fn to_bytes(&self) -> (r: [u8; 32])
        ensures
            r@ == self@,
            is_point(r@),
    {
        proof {
            use_type_invariant(self);
        }
        self.bytes
    }

    /// Whether two points are the same group element.
    pub fn equals(&self, other: &Point) -> (r: bool)
        ensures
            r == (self@ == other@),
            r == (self.index() == other.index()),
    {
        proof {
            use_type_invariant(self);
            use_type_invariant(other);
            if self.index() == other.index() {
                self.lemma_same_index(*other);
            }
        }
        crate::bytes::bytes_eq(self.bytes.as_slice(), other.bytes.as_slice())
    }
}

} // verus!
