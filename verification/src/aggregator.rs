//! The aggregator: the responses that one participant has collected in one
//! run, and what they say of the deal.

use std::collections::HashMap;
use std::rc::Rc;
use vstd::prelude::*;
use crate::bytes::{bytes_eq, copy_bytes, le32, put_u32};
use crate::deal::{Deal, DealView};
use crate::error::VssError;
use crate::point::Point;
use crate::response::{Response, ResponseView};
use crate::sign::{schnorr_accepts, verify_signature};

verus! {

/// The number of verifiers below `n` whose response in `m` approves.
pub open spec fn approvals(m: Map<u32, ResponseView>, n: nat) -> nat
    decreases n,
{
    if n == 0 {
        0
    } else {
        let i = (n - 1) as u32;
        approvals(m, (n - 1) as nat) + if m.contains_key(i) && m[i].approved {
            1nat
        } else {
            0nat
        }
    }
}

/// Whether every verifier below `n` has a response in `m`.
pub open spec fn all_responded(m: Map<u32, ResponseView>, n: nat) -> bool {
    forall|i: u32| (i as nat) < n ==> #[trigger] m.contains_key(i)
}

/// Where every approval of `m1` is an approval of `m2`, `m2` has at least
/// as many approvals.
pub proof fn lemma_approvals_monotone(
    m1: Map<u32, ResponseView>,
    m2: Map<u32, ResponseView>,
    n: nat,
)
    requires
        forall|i: u32|
            (i as nat) < n && #[trigger] m1.contains_key(i) && m1[i].approved ==> m2.contains_key(i)
                && m2[i].approved,
    ensures
        approvals(m1, n) <= approvals(m2, n),
    decreases n,
{
    if n > 0 {
        lemma_approvals_monotone(m1, m2, (n - 1) as nat);
    }
}

/// The verdict as a count: 1 for an approval, 0 for a complaint.
pub open spec fn approval_count(approved: bool) -> nat {
    if approved {
        1
    } else {
        0
    }
}

/// A response recorded for a verifier that had none adds its verdict to
/// the approvals.
pub proof fn lemma_approvals_insert(m: Map<u32, ResponseView>, k: u32, r: ResponseView, n: nat)
    requires
        !m.contains_key(k),
        n <= u32::MAX,
    ensures
        approvals(m.insert(k, r), n) == approvals(m, n) + if (k as nat) < n {
            approval_count(r.approved)
        } else {
            0
        },
    decreases n,
{
    if n > 0 {
        lemma_approvals_insert(m, k, r, (n - 1) as nat);
    }
}

/// A complaint that becomes an approval adds one to the approvals.
pub proof fn lemma_approvals_flip(m: Map<u32, ResponseView>, k: u32, n: nat)
    requires
        m.contains_key(k),
        !m[k].approved,
        (k as nat) < n,
        n <= u32::MAX,
    ensures
        approvals(m.insert(k, ResponseView { approved: true, ..m[k] }), n) == approvals(m, n) + 1,
    decreases n,
{
    if n > 0 {
        if k as nat == n - 1 {
            let m2 = m.insert(k, ResponseView { approved: true, ..m[k] });
            lemma_approvals_monotone(m, m2, (n - 1) as nat);
            lemma_approvals_monotone(m2, m, (n - 1) as nat);
        } else {
            lemma_approvals_flip(m, k, (n - 1) as nat);
        }
    }
}

/// The views of the responses of a map.
pub open spec fn response_views(m: Map<u32, Response>) -> Map<u32, ResponseView> {
    m.map_values(|r: Response| r@)
}

/// The responses collected by one participant for one run, with the deal
/// that the participant has cached and the mark of a dealer whose
/// justification failed.
pub struct Aggregator {
    dealer: Point,
    verifiers: Rc<Vec<Point>>,
    responses: HashMap<u32, Response>,
    session_id: Vec<u8>,
    deal: Deal,
    threshold: u32,
    bad_dealer: bool,
}

impl Aggregator {
    /// The dealer's public key.
    pub closed spec fn dealer(&self) -> Point {
        self.dealer
    }

    /// The verifiers' public keys.
    pub closed spec fn verifiers(&self) -> Seq<Point> {
        self.verifiers@
    }

    /// The responses recorded, by the index of their issuer.
    pub closed spec fn responses(&self) -> Map<u32, ResponseView> {
        response_views(self.responses@)
    }

    /// The session identifier against which responses are checked.
    pub closed spec fn session(&self) -> Seq<u8> {
        self.session_id@
    }

    /// The deal cached; the empty deal while there is none.
    pub closed spec fn deal(&self) -> DealView {
        self.deal@
    }

    /// The threshold; 0 while the aggregator awaits its deal.
    pub closed spec fn threshold(&self) -> u32 {
        self.threshold
    }

    /// Whether a justification of the dealer has failed.
    pub closed spec fn bad_dealer(&self) -> bool {
        self.bad_dealer
    }

    /// The number of verifiers fits in 32 bits, and every response is
    /// recorded under its own index, which names a verifier.
    pub closed spec fn wf(&self) -> bool {
        &&& self.verifiers@.len() <= u32::MAX
        &&& forall|i: u32| #[trigger]
            self.responses@.contains_key(i) ==> (i as nat) < self.verifiers@.len()
                && self.responses@[i].index == i
    }

    /// The number of verifiers whose response approves.
    pub open spec fn approval_total(&self) -> nat {
        approvals(self.responses(), self.verifiers().len())
    }

    /// Whether at least as many verifiers approve as the threshold asks.
    pub open spec fn has_enough_approvals(&self) -> bool {
        self.approval_total() >= self.threshold()
    }

    /// Whether the deal is certified: the threshold is set, enough
    /// verifiers approve, every verifier has a response, and no
    /// justification of the dealer has failed.
    pub open spec fn certified(&self) -> bool {
        &&& self.threshold() > 0
        &&& self.has_enough_approvals()
        &&& all_responded(self.responses(), self.verifiers().len())
        &&& !self.bad_dealer()
    }

    /// One response for each index at most: every response is recorded
    /// under the index of its issuer, and that index names a verifier.
    pub proof fn lemma_wf(&self)
        requires
            self.wf(),
        ensures
            self.verifiers().len() <= u32::MAX,
            forall|i: u32| #[trigger]
                self.responses().contains_key(i) ==> (i as nat) < self.verifiers().len()
                    && self.responses()[i].index == i,
    {
    }

    /// An aggregator without responses and without a deal.
    pub fn new(dealer: Point, verifiers: Rc<Vec<Point>>, threshold: u32, session_id: Vec<u8>) -> (r:
        Aggregator)
        requires
            verifiers@.len() <= u32::MAX,
        ensures
            r.wf(),
            r.dealer() == dealer,
            r.verifiers() == verifiers@,
            r.threshold() == threshold,
            r.session() == session_id@,
            r.responses() == Map::<u32, ResponseView>::empty(),
            r.deal() == Deal::empty_view(),
            !r.bad_dealer(),
    {
        let r = Aggregator {
            dealer,
            verifiers,
            session_id,
            threshold,
            responses: HashMap::new(),
            deal: Deal::empty(),
            bad_dealer: false,
        };
        assert(r.responses() =~= Map::<u32, ResponseView>::empty());
        r
    }

    /// Records a response, unless its index names no verifier or a response
    /// of that index is already recorded.
    pub fn add_response(&mut self, r: &Response) -> (res: Result<(), VssError>)
        requires
            old(self).wf(),
        ensures
            final(self).wf(),
            final(self).dealer() == old(self).dealer(),
            final(self).verifiers() == old(self).verifiers(),
            final(self).session() == old(self).session(),
            final(self).deal() == old(self).deal(),
            final(self).threshold() == old(self).threshold(),
            final(self).bad_dealer() == old(self).bad_dealer(),
            match res {
                Ok(()) => {
                    &&& r.index < old(self).verifiers().len()
                    &&& !old(self).responses().contains_key(r.index)
                    &&& final(self).responses() == old(self).responses().insert(r.index, r@)
                    &&& final(self).approval_total() == old(self).approval_total() + approval_count(
                        r.approved,
                    )
                },
                Err(e) => {
                    &&& final(self).responses() == old(self).responses()
                    &&& e == if r.index >= old(self).verifiers().len() {
                        VssError::IndexOutOfBounds
                    } else {
                        VssError::DuplicateResponse
                    }
                    &&& r.index >= old(self).verifiers().len() || old(self).responses().contains_key(
                        r.index,
                    )
                },
            },
            old(self).certified() ==> final(self).certified(),
    {
        if self.verifiers.len() <= r.index as usize {
            return Err(VssError::IndexOutOfBounds);
        }
        if self.responses.contains_key(&r.index) {
            return Err(VssError::DuplicateResponse);
        }
        let ghost before = self.responses@;
        self.responses.insert(r.index, r.clone());
        proof {
            assert(response_views(self.responses@) =~= response_views(before).insert(
                r.index,
                r@,
            ));
            lemma_approvals_insert(response_views(before), r.index, r@, self.verifiers@.len());
        }
        Ok(())
    }

    /// What the check of a response finds: the first of its conditions
    /// that fails, or nothing.
    ///
    /// The session identifier is 32 bytes and the aggregator's own; the
    /// index names a verifier; the signature is that verifier's, on the
    /// digest of the response, in the signing context of the index; no
    /// response of that index is recorded yet.
    pub open spec fn response_check(&self, r: ResponseView) -> Result<(), VssError> {
        if r.session_id.len() != 32 || r.session_id != self.session() {
            Err(VssError::SessionIdMismatch)
        } else if r.index >= self.verifiers().len() {
            Err(VssError::IndexOutOfBounds)
        } else if !schnorr_accepts(
            self.verifiers()[r.index as int]@,
            r.signature,
            r.hash(),
            le32(r.index),
        ) {
            Err(VssError::BadSignature)
        } else if self.responses().contains_key(r.index) {
            Err(VssError::DuplicateResponse)
        } else {
            Ok(())
        }
    }

    /// Whether `other` is this aggregator but for its responses.
    pub open spec fn same_run(&self, other: &Aggregator) -> bool {
        &&& self.dealer() == other.dealer()
        &&& self.verifiers() == other.verifiers()
        &&& self.session() == other.session()
        &&& self.deal() == other.deal()
        &&& self.threshold() == other.threshold()
        &&& self.bad_dealer() == other.bad_dealer()
    }

    /// Checks a response and records it if it passes.
    pub fn verify_response(&mut self, r: &Response) -> (res: Result<(), VssError>)
        requires
            old(self).wf(),
        ensures
            final(self).wf(),
            final(self).same_run(old(self)),
            res == old(self).response_check(r@),
            res is Ok ==> final(self).responses() == old(self).responses().insert(r.index, r@),
            res is Ok ==> final(self).approval_total() == old(self).approval_total()
                + approval_count(r.approved),
            res is Err ==> final(self).responses() == old(self).responses(),
            old(self).certified() ==> final(self).certified(),
    {
        if r.session_id.len() != 32 || !bytes_eq(
            r.session_id.as_slice(),
            self.session_id.as_slice(),
        ) {
            return Err(VssError::SessionIdMismatch);
        }
        if r.index as usize >= self.verifiers.len() {
            return Err(VssError::IndexOutOfBounds);
        }
        let key = self.verifiers[r.index as usize].to_bytes();
        let digest = match r.hash_self() {
            Ok(h) => h,
            Err(e) => {
                return Err(e);
            },
        };
        let mut context: Vec<u8> = Vec::new();
        put_u32(&mut context, r.index);
        assert(context@ =~= le32(r.index));
        if !verify_signature(
            key.as_slice(),
            r.signature.as_slice(),
            digest.as_slice(),
            context.as_slice(),
        ) {
            return Err(VssError::BadSignature);
        }
        let ghost expected = self.response_check(r@);
        let res = self.add_response(r);
        proof {
            if let Err(e) = res {
                assert(expected == Err::<(), VssError>(e));
            }
            assert(res is Ok <==> expected is Ok);
            assert(res is Ok ==> res->Ok_0 == expected->Ok_0);
            assert(res =~= expected);
        }
        res
    }

    /// Records a response of the given index and verdict without a
    /// signature, unchecked, under the aggregator's session identifier.
    ///
    /// This bypasses the signature check and is meant for a key
    /// generation layer that runs the protocol on approvals only.
    pub fn unsafe_set_response_dkg(&mut self, index: u32, approved: bool) -> (res: Result<
        (),
        VssError,
    >)
        requires
            old(self).wf(),
        ensures
            final(self).wf(),
            final(self).same_run(old(self)),
            match res {
                Ok(()) => {
                    &&& index < old(self).verifiers().len()
                    &&& !old(self).responses().contains_key(index)
                    &&& final(self).responses() == old(self).responses().insert(
                        index,
                        ResponseView {
                            session_id: old(self).session(),
                            index,
                            approved,
                            signature: Seq::empty(),
                        },
                    )
                    &&& final(self).approval_total() == old(self).approval_total() + approval_count(
                        approved,
                    )
                },
                Err(e) => {
                    &&& final(self).responses() == old(self).responses()
                    &&& e == if index >= old(self).verifiers().len() {
                        VssError::IndexOutOfBounds
                    } else {
                        VssError::DuplicateResponse
                    }
                    &&& index >= old(self).verifiers().len() || old(self).responses().contains_key(
                        index,
                    )
                },
            },
            old(self).certified() ==> final(self).certified(),
    {
        let r = Response {
            session_id: copy_bytes(self.session_id.as_slice()),
            index,
            approved,
            signature: Vec::new(),
        };
        self.add_response(&r)
    }

    /// The response that stands for a verifier that never answered: a
    /// complaint without signature.
    pub open spec fn silent_response(session_id: Seq<u8>, index: u32) -> ResponseView {
        ResponseView { session_id, index, approved: false, signature: Seq::empty() }
    }

    /// Records a complaint without signature for every verifier that has
    /// no response yet. The responses already recorded stay as they are.
    pub fn clean_verifiers(&mut self)
        requires
            old(self).wf(),
        ensures
            final(self).wf(),
            final(self).same_run(old(self)),
            all_responded(final(self).responses(), final(self).verifiers().len()),
            forall|i: u32| #[trigger]
                final(self).responses().contains_key(i) ==> final(self).responses()[i] == if old(self).responses().contains_key(i) {
                    old(self).responses()[i]
                } else {
                    Aggregator::silent_response(old(self).session(), i)
                },
            final(self).approval_total() == old(self).approval_total(),
            old(self).certified() ==> final(self).certified(),
    {
        let n = self.verifiers.len();
        let mut i: usize = 0;
        let ghost before = self.responses();
        while i < n
            invariant
                i <= n,
                n == self.verifiers@.len(),
                self.wf(),
                self.same_run(old(self)),
                before == old(self).responses(),
                forall|j: u32| (j as nat) < i ==> #[trigger] self.responses().contains_key(j),
                forall|j: u32| #[trigger]
                    self.responses().contains_key(j) ==> self.responses()[j] == if before.contains_key(
                        j,
                    ) {
                        before[j]
                    } else {
                        Aggregator::silent_response(old(self).session(), j)
                    },
                forall|j: u32| #[trigger] before.contains_key(j) ==> self.responses().contains_key(j),
            decreases n - i,
        {
            let index = i as u32;
            assert(self.responses().contains_key(index) == self.responses@.contains_key(index));
            if !self.responses.contains_key(&index) {
                let r = Response {
                    session_id: copy_bytes(self.session_id.as_slice()),
                    index,
                    approved: false,
                    signature: Vec::new(),
                };
                let ghost prior = self.responses@;
                self.responses.insert(index, r);
                proof {
                    assert(response_views(self.responses@) =~= response_views(prior).insert(
                        index,
                        r@,
                    ));
                }
            }
            i += 1;
        }
        proof {
            lemma_approvals_monotone(before, self.responses(), n as nat);
            lemma_approvals_monotone(self.responses(), before, n as nat);
        }
    }

    /// The number of verifiers below `upto` that approve.
    fn count_approvals(&self, upto: usize) -> (r: u32)
        requires
            self.wf(),
            upto <= self.verifiers().len(),
        ensures
            r == approvals(self.responses(), upto as nat),
    {
        let mut count: u32 = 0;
        let mut i: usize = 0;
        while i < upto
            invariant
                i <= upto <= self.verifiers@.len() <= u32::MAX,
                count == approvals(self.responses(), i as nat),
                count <= i,
            decreases upto - i,
        {
            let index = i as u32;
            match self.responses.get(&index) {
                Some(r) => {
                    assert(self.responses().contains_key(index) && self.responses()[index] == r@);
                    if r.approved {
                        count += 1;
                    }
                },
                None => {
                    assert(!self.responses().contains_key(index));
                },
            }
            i += 1;
        }
        count
    }

    /// Whether at least as many verifiers approve as the threshold asks.
    pub fn enough_approvals(&self) -> (r: bool)
        requires
            self.wf(),
        ensures
            r == self.has_enough_approvals(),
    {
        self.count_approvals(self.verifiers.len()) >= self.threshold
    }

    /// Whether every verifier has a response.
    fn everyone_responded(&self) -> (r: bool)
        requires
            self.wf(),
        ensures
            r == all_responded(self.responses(), self.verifiers().len()),
    {
        let n = self.verifiers.len();
        let mut i: usize = 0;
        while i < n
            invariant
                i <= n == self.verifiers@.len() <= u32::MAX,
                forall|j: u32| (j as nat) < i ==> #[trigger] self.responses().contains_key(j),
            decreases n - i,
        {
            let index = i as u32;
            if !self.responses.contains_key(&index) {
                assert(!self.responses().contains_key(index));
                return false;
            }
            assert(self.responses().contains_key(index));
            i += 1;
        }
        true
    }

    /// Whether the deal is certified: the threshold is set, enough
    /// verifiers approve, every verifier has a response, and no
    /// justification of the dealer has failed.
    pub fn deal_certified(&self) -> (r: bool)
        requires
            self.wf(),
        ensures
            r == self.certified(),
    {
        if self.threshold == 0 {
            return false;
        }
        let verifiers_stable = self.everyone_responded();
        let too_much_complaints = !verifiers_stable || self.bad_dealer;
        self.enough_approvals() && !too_much_complaints
    }

    /// The threshold; 0 while the aggregator awaits its deal.
    pub(crate) fn threshold_value(&self) -> (r: u32)
        ensures
            r == self.threshold(),
    {
        self.threshold
    }

    /// The deal cached.
    pub(crate) fn cached_deal(&self) -> (r: &Deal)
        ensures
            r@ == self.deal(),
    {
        &self.deal
    }

    /// The verifiers' public keys.
    pub(crate) fn verifier_keys(&self) -> (r: &Vec<Point>)
        ensures
            r@ == self.verifiers(),
    {
        &self.verifiers
    }

    /// The verdict recorded for a verifier, if one is recorded.
    pub(crate) fn verdict_of(&self, index: u32) -> (r: Option<bool>)
        requires
            self.wf(),
        ensures
            r is Some <==> self.responses().contains_key(index),
            r matches Some(a) ==> a == self.responses()[index].approved,
    {
        assert(self.responses().contains_key(index) == self.responses@.contains_key(index));
        match self.responses.get(&index) {
            Some(r) => {
                assert(self.responses()[index] == r@);
                Some(r.approved)
            },
            None => None,
        }
    }

    /// Caches a deal, and takes its session identifier for the
    /// aggregator's own.
    pub(crate) fn cache_deal(&mut self, deal: Deal)
        requires
            old(self).wf(),
        ensures
            final(self).wf(),
            final(self).dealer() == old(self).dealer(),
            final(self).verifiers() == old(self).verifiers(),
            final(self).responses() == old(self).responses(),
            final(self).threshold() == old(self).threshold(),
            final(self).bad_dealer() == old(self).bad_dealer(),
            final(self).session() == deal@.session_id,
            final(self).deal() == deal@,
    {
        self.session_id = copy_bytes(deal.session_id.as_slice());
        self.deal = deal;
    }

    /// Marks the dealer as one whose justification failed.
    pub(crate) fn mark_bad_dealer(&mut self)
        requires
            old(self).wf(),
        ensures
            final(self).wf(),
            final(self).dealer() == old(self).dealer(),
            final(self).verifiers() == old(self).verifiers(),
            final(self).responses() == old(self).responses(),
            final(self).threshold() == old(self).threshold(),
            final(self).session() == old(self).session(),
            final(self).deal() == old(self).deal(),
            final(self).bad_dealer(),
    {
        self.bad_dealer = true;
    }

    /// Turns the complaint recorded for a verifier into an approval.
    pub(crate) fn approve(&mut self, index: u32)
        requires
            old(self).wf(),
            old(self).responses().contains_key(index),
        ensures
            final(self).wf(),
            final(self).same_run(old(self)),
            final(self).responses() == old(self).responses().insert(
                index,
                ResponseView { approved: true, ..old(self).responses()[index] },
            ),
            final(self).approval_total() >= old(self).approval_total(),
            !old(self).responses()[index].approved ==> final(self).approval_total() == old(self).approval_total() + 1,
            old(self).certified() ==> final(self).certified(),
    {
        assert(self.responses().contains_key(index) == self.responses@.contains_key(index));
        let flipped = match self.responses.get(&index) {
            Some(r) => Response {
                session_id: copy_bytes(r.session_id.as_slice()),
                index: r.index,
                approved: true,
                signature: copy_bytes(r.signature.as_slice()),
            },
            None => {
                return ;
            },
        };
        let ghost prior = self.responses@;
        assert(flipped@ == ResponseView { approved: true, ..response_views(prior)[index] });
        self.responses.insert(index, flipped);
        proof {
            assert(response_views(self.responses@) =~= response_views(prior).insert(
                index,
                flipped@,
            ));
            lemma_approvals_monotone(
                response_views(prior),
                response_views(self.responses@),
                self.verifiers@.len(),
            );
            if !response_views(prior)[index].approved {
                lemma_approvals_flip(response_views(prior), index, self.verifiers@.len());
            }
        }
    }
}

} // verus!
