//! The deal: what the dealer sends to one verifier.

use vstd::prelude::*;
use vstd::std_specs::cmp::PartialEqSpecImpl;
use vstd::arithmetic::div_mod::{lemma_add_mod_noop, lemma_small_mod};
use crate::bytes::{bytes_eq, lists_eq, views};
use crate::error::VssError;
use crate::point::{is_point, point_index, Point};
use crate::poly::{poly_eval, share_x, PriShare, PubPoly};
use crate::scalar::{lemma_order_is_large, scalar_order, Scalar};
use crate::session::{derive_h, derive_h_spec, valid_t, valid_threshold};

verus! {

/// The shares of one verifier, with the public commitments against which
/// the verifier checks them.
#[derive(Debug)]
pub struct Deal {
    /// The identifier of the run.
    pub session_id: Vec<u8>,
    /// The share of the secret polynomial.
    pub sec_share: PriShare,
    /// The share of the blinding polynomial.
    pub rnd_share: PriShare,
    /// The threshold of the run.
    pub t: u32,
    /// The encodings of the coefficients of the commitment polynomial.
    pub commitments: Vec<Vec<u8>>,
}

/// A deal as a mathematical value.
pub struct DealView {
    pub session_id: Seq<u8>,
    pub sec_index: u32,
    pub sec_value: nat,
    pub rnd_index: u32,
    pub rnd_value: nat,
    pub t: u32,
    pub commitments: Seq<Seq<u8>>,
}

impl View for Deal {
    type V = DealView;

    open spec fn view(&self) -> DealView {
        DealView {
            session_id: self.session_id@,
            sec_index: self.sec_share.i,
            sec_value: self.sec_share.v@,
            rnd_index: self.rnd_share.i,
            rnd_value: self.rnd_share.v@,
            t: self.t,
            commitments: views(self.commitments@),
        }
    }
}

impl DealView {
    /// Both share values are below the group order, as the values of
    /// scalars are.
    pub open spec fn wf(self) -> bool {
        self.sec_value < scalar_order() && self.rnd_value < scalar_order()
    }
}

/// The indices of the group elements that a list of commitments encodes.
pub open spec fn commitment_indices(c: Seq<Seq<u8>>) -> Seq<nat> {
    Seq::new(c.len(), |j: int| point_index(c[j]))
}

/// Whether every commitment of a list encodes a group element.
pub open spec fn commitments_decode(c: Seq<Seq<u8>>) -> bool {
    forall|j: int| 0 <= j < c.len() ==> is_point(#[trigger] c[j])
}

/// The index of `f·G + g·H` for the share values `f` and `g` of a deal,
/// where `h` is the index of `H`.
pub open spec fn share_commitment(d: DealView, h: nat) -> nat {
    (d.sec_value + d.rnd_value * h) % scalar_order()
}

/// Whether the shares of a deal match its commitments: `f·G + g·H` is the
/// value of the commitment polynomial at the share's point.
pub open spec fn share_matches(d: DealView, h: nat) -> bool {
    share_commitment(d, h) == poly_eval(commitment_indices(d.commitments), share_x(d.sec_index))
}

/// What the verification of a deal against a list of verifiers and a
/// session identifier finds: the first of its conditions that fails, or
/// nothing.
pub open spec fn deal_check(d: DealView, verifiers: Seq<Point>, sid: Seq<u8>) -> Result<
    (),
    VssError,
> {
    if !valid_threshold(d.t, verifiers.len()) {
        Err(VssError::InvalidThreshold)
    } else if sid != d.session_id {
        Err(VssError::SessionIdMismatch)
    } else if d.sec_index != d.rnd_index {
        Err(VssError::ShareIndexMismatch)
    } else if d.sec_index >= verifiers.len() {
        Err(VssError::IndexOutOfBounds)
    } else if derive_h_spec(verifiers) is None {
        Err(VssError::HashToPoint)
    } else if !commitments_decode(d.commitments) {
        Err(VssError::InvalidCommitment)
    } else if !share_matches(d, point_index(derive_h_spec(verifiers)->Some_0)) {
        Err(VssError::ShareDoesNotVerify)
    } else {
        Ok(())
    }
}

impl PartialEq for Deal {
    /// Whether two deals are the same value.
    fn eq(&self, other: &Deal) -> (r: bool) {
        bytes_eq(self.session_id.as_slice(), other.session_id.as_slice())
            && self.sec_share.i == other.sec_share.i && self.sec_share.v.equals(&other.sec_share.v)
            && self.rnd_share.i == other.rnd_share.i && self.rnd_share.v.equals(&other.rnd_share.v)
            && self.t == other.t && lists_eq(&self.commitments, &other.commitments)
    }
}

impl PartialEqSpecImpl for Deal {
    open spec fn obeys_eq_spec() -> bool {
        true
    }

    open spec fn eq_spec(&self, other: &Deal) -> bool {
        self@ == other@
    }
}

impl Default for Deal {
    /// The deal that stands for "no deal yet".
    fn default() -> (r: Deal)
        ensures
            r@ == Deal::empty_view(),
    {
        Deal::empty()
    }
}

impl Clone for Deal {
    /// A copy of the deal.
    fn clone(&self) -> (r: Deal)
        ensures
            r@ == self@,
    {
        let mut commitments: Vec<Vec<u8>> = Vec::new();
        let mut k: usize = 0;
        while k < self.commitments.len()
            invariant
                k <= self.commitments.len(),
                commitments@.len() == k,
                forall|j: int| 0 <= j < k ==> (#[trigger] commitments@[j])@ == self.commitments@[j]@,
            decreases self.commitments.len() - k,
        {
            commitments.push(crate::bytes::copy_bytes(self.commitments[k].as_slice()));
            k += 1;
        }
        let d = Deal {
            session_id: crate::bytes::copy_bytes(self.session_id.as_slice()),
            sec_share: self.sec_share,
            rnd_share: self.rnd_share,
            t: self.t,
            commitments,
        };
        assert(d@.commitments =~= self@.commitments);
        d
    }
}

impl Deal {
    /// The deal that stands for "no deal yet": threshold 0, no session
    /// identifier, no commitments, both shares zero at index 0.
    pub open spec fn empty_view() -> DealView {
        DealView {
            session_id: Seq::empty(),
            sec_index: 0,
            sec_value: 0,
            rnd_index: 0,
            rnd_value: 0,
            t: 0,
            commitments: Seq::empty(),
        }
    }

    /// The deal that stands for "no deal yet".
    pub fn empty() -> (r: Deal)
        ensures
            r@ == Deal::empty_view(),
    {
        let d = Deal {
            session_id: Vec::new(),
            sec_share: PriShare { i: 0, v: Scalar::zero() },
            rnd_share: PriShare { i: 0, v: Scalar::zero() },
            t: 0,
            commitments: Vec::new(),
        };
        assert(d@.commitments =~= Seq::<Seq<u8>>::empty());
        d
    }

    /// Verifies the deal against the verifiers of the run and the session
    /// identifier: the threshold is valid, the session identifier is the
    /// given one, both shares have one index that names a verifier, every
    /// commitment decodes, and `f·G + g·H` is the value of the commitment
    /// polynomial at the share's point.
    pub fn verify(&self, verifiers: &[Point], sid: &[u8]) -> (r: Result<(), VssError>)
        ensures
            r == deal_check(self@, verifiers@, sid@),
    {
        if !valid_t(self.t, verifiers) {
            return Err(VssError::InvalidThreshold);
        }
        if !bytes_eq(sid, self.session_id.as_slice()) {
            return Err(VssError::SessionIdMismatch);
        }
        let fi = self.sec_share;
        let gi = self.rnd_share;
        if fi.i != gi.i {
            return Err(VssError::ShareIndexMismatch);
        }
        if fi.i as usize >= verifiers.len() {
            return Err(VssError::IndexOutOfBounds);
        }
        let generator = Point::generator();
        let fig = generator.scalar_mul(&fi.v);
        let h = match derive_h(verifiers) {
            Ok(h) => h,
            Err(e) => {
                return Err(e);
            },
        };
        let gih = h.scalar_mul(&gi.v);
        let ci = fig.add_point(&gih);
        let mut commitments: Vec<Point> = Vec::new();
        let mut k: usize = 0;
        while k < self.commitments.len()
            invariant
                k <= self.commitments.len(),
                commitments@.len() == k,
                forall|j: int| 0 <= j < k ==> (#[trigger] commitments@[j])@ == self.commitments@[j]@,
                forall|j: int| 0 <= j < k ==> is_point(#[trigger] self@.commitments[j]),
                valid_threshold(self.t, verifiers@.len()),
                sid@ == self@.session_id,
                self@.sec_index == self@.rnd_index,
                self@.sec_index < verifiers@.len(),
                derive_h_spec(verifiers@) is Some,
            decreases self.commitments.len() - k,
        {
            match Point::from_bytes(self.commitments[k].as_slice()) {
                Some(p) => {
                    commitments.push(p);
                },
                None => {
                    assert(!is_point(self@.commitments[k as int]));
                    return Err(VssError::InvalidCommitment);
                },
            }
            k += 1;
        }
        let commit_poly = PubPoly::new(generator, commitments);
        let pub_share = commit_poly.eval(fi.i);
        proof {
            use_type_invariant(&fi.v);
            fi.v.lemma_wf();
            lemma_order_is_large();
            let m = scalar_order() as int;
            let f = fi.v@;
            let gh = gi.v@ * h.index();
            assert(fig.index() == f) by {
                assert(f * 1 == f) by (nonlinear_arith);
                lemma_small_mod(f, scalar_order());
            }
            lemma_add_mod_noop(f as int, gh as int, m);
            lemma_small_mod(f, scalar_order());
            assert(ci.index() == share_commitment(self@, h.index()));
            assert(commit_poly.indices() =~= commitment_indices(self@.commitments));
        }
        if !ci.equals(&pub_share.v) {
            return Err(VssError::ShareDoesNotVerify);
        }
        Ok(())
    }
}

} // verus!
