//! What holds of the protocol as a whole: statements that relate several
//! of its operations, each proved from the operations' contracts.

use vstd::prelude::*;
use crate::bytes::{
    concat_all,
    le32,
    lemma_concat_all_fixed,
    lemma_le32_injective,
    lemma_le_bytes_len,
};
use crate::deal::{
    commitment_indices,
    commitments_decode,
    deal_check,
    share_commitment,
    share_matches,
    DealView,
};
use crate::aggregator::{all_responded, approvals, Aggregator};
use crate::dealer::{h_index, honest_commitments, honest_deal, Dealer};
use crate::response::ResponseView;
use crate::error::VssError;
use crate::point::{is_point, point_index, Point};
use crate::interpolation::{
    congruent,
    lemma_congruent_mul,
    lemma_congruent_sub,
    lemma_interpolation_recovers,
};
use crate::poly::{
    commitment_index,
    interpolable,
    interpolate_at_zero,
    is_inverse,
    lemma_commitment_polynomial,
    poly_eval,
    poly_value,
    share_x,
};
use crate::recovery::{deal_xs, deal_ys, same_session};
use crate::response::{EncryptedDealView, JustificationView};
use crate::scalar::{lemma_order_is_large, scalar_order};
use crate::session::{derive_h_spec, session_input};
use crate::shareholder::Verifier;

verus! {

/// Commitment soundness, over the polynomials: where the commitments `c`
/// commit to the polynomials `f` and `g`, the shares `f(x)` and `g(x)`
/// match the value of the commitment polynomial at `x`:
/// `f(x)·G + g(x)·H = C(x)`.
pub proof fn lemma_shares_match_commitments(
    f: Seq<nat>,
    g: Seq<nat>,
    c: Seq<Seq<u8>>,
    h: nat,
    x: nat,
)
    requires
        honest_commitments(c, f, g, h),
    ensures
        commitment_index(poly_eval(f, x), poly_eval(g, x), h) == poly_eval(
            commitment_indices(c),
            x,
        ),
{
    lemma_commitment_polynomial(f, g, commitment_indices(c), h, x);
}

/// Commitment soundness: every deal of a dealer verifies against the
/// verifiers and the session identifier of the run.
pub proof fn lemma_honest_deal_verifies(dealer: Dealer, i: int)
    requires
        dealer.wf(),
        0 <= i < dealer.deals().len(),
    ensures
        deal_check(dealer.deals()[i], dealer.verifiers(), dealer.session()) == Ok::<(), VssError>(
            (),
        ),
{
    dealer.lemma_wf();
    let d = dealer.deals()[i];
    let h = h_index(dealer.verifiers());
    assert(honest_deal(
        d,
        i as u32,
        dealer.session(),
        dealer.threshold(),
        dealer.secret_poly(),
        dealer.blinding_poly(),
        dealer.commitments(),
    ));
    lemma_shares_match_commitments(
        dealer.secret_poly(),
        dealer.blinding_poly(),
        dealer.commitments(),
        h,
        share_x(i as u32),
    );
    assert(commitments_decode(d.commitments));
    assert(share_matches(d, h));
    assert(deal_check(d, dealer.verifiers(), dealer.session()) =~= Ok::<(), VssError>(()));
}

/// Bad-share detection, for the secret share: a deal that verifies no
/// longer verifies once the value of its secret share is another.
pub proof fn lemma_altered_secret_share_fails(
    d: DealView,
    altered: DealView,
    verifiers: Seq<Point>,
    sid: Seq<u8>,
)
    requires
        deal_check(d, verifiers, sid) is Ok,
        d.wf(),
        altered.wf(),
        altered.sec_value != d.sec_value,
        altered == (DealView { sec_value: altered.sec_value, ..d }),
    ensures
        deal_check(altered, verifiers, sid) == Err::<(), VssError>(VssError::ShareDoesNotVerify),
{
    let h = point_index(derive_h_spec(verifiers)->Some_0);
    let m = scalar_order() as int;
    let k = d.rnd_value * h;
    lemma_order_is_large();
    assert(share_commitment(d, h) == (d.sec_value + k) % scalar_order());
    assert(share_commitment(altered, h) == (altered.sec_value + k) % scalar_order());
    if share_commitment(d, h) == share_commitment(altered, h) {
        vstd::arithmetic::div_mod::lemma_mod_equivalence(
            (d.sec_value + k) as int,
            (altered.sec_value + k) as int,
            m,
        );
        let diff = d.sec_value as int - altered.sec_value as int;
        assert((d.sec_value + k) as int - (altered.sec_value + k) as int == diff);
        assert(diff % m == 0);
        if diff > 0 {
            vstd::arithmetic::div_mod::lemma_small_mod(diff as nat, scalar_order());
        } else {
            vstd::arithmetic::div_mod::lemma_mod_equivalence(0, diff, m);
            vstd::arithmetic::div_mod::lemma_small_mod((-diff) as nat, scalar_order());
            vstd::arithmetic::div_mod::lemma_small_mod(0, scalar_order());
        }
        assert(false);
    }
    assert(deal_check(altered, verifiers, sid) =~= Err::<(), VssError>(
        VssError::ShareDoesNotVerify,
    ));
}

/// Numbers below the order that agree modulo the order are equal.
pub proof fn lemma_congruent_below_order(a: nat, b: nat)
    requires
        a < scalar_order(),
        b < scalar_order(),
        congruent(a as int, b as int),
    ensures
        a == b,
{
    vstd::arithmetic::div_mod::lemma_small_mod(a, scalar_order());
    vstd::arithmetic::div_mod::lemma_small_mod(b, scalar_order());
}

/// A factor that has an inverse modulo the order can be cancelled.
pub proof fn lemma_cancel(a: int, b: int, h: nat, r: nat)
    requires
        is_inverse(r, h),
        congruent(a * h, b * h),
    ensures
        congruent(a, b),
{
    lemma_order_is_large();
    vstd::arithmetic::div_mod::lemma_small_mod(1, scalar_order());
    assert(congruent((r * h) as int, 1));
    lemma_congruent_mul(a * h, b * h, r as int, r as int);
    assert((a * h) * r == a * (r * h) && (b * h) * r == b * (r * h)) by (nonlinear_arith);
    lemma_congruent_mul(a, a, (r * h) as int, 1);
    lemma_congruent_mul(b, b, (r * h) as int, 1);
    assert(a * 1 == a && b * 1 == b) by (nonlinear_arith);
}

/// Bad-share detection, for the blinding share: a deal that verifies no
/// longer verifies once the value of its blinding share is another,
/// provided that the second generator has an inverse index, as every
/// generator but the identity has.
pub proof fn lemma_altered_blinding_share_fails(
    d: DealView,
    altered: DealView,
    verifiers: Seq<Point>,
    sid: Seq<u8>,
    r: nat,
)
    requires
        deal_check(d, verifiers, sid) is Ok,
        d.wf(),
        altered.wf(),
        altered.rnd_value != d.rnd_value,
        altered == (DealView { rnd_value: altered.rnd_value, ..d }),
        is_inverse(r, point_index(derive_h_spec(verifiers)->Some_0)),
    ensures
        deal_check(altered, verifiers, sid) == Err::<(), VssError>(VssError::ShareDoesNotVerify),
{
    let h = point_index(derive_h_spec(verifiers)->Some_0);
    let (f, g1, g2) = (d.sec_value as int, d.rnd_value as int, altered.rnd_value as int);
    if share_commitment(d, h) == share_commitment(altered, h) {
        assert(congruent(f + g1 * h, f + g2 * h));
        lemma_congruent_sub(f + g1 * h, f + g2 * h, f, f);
        lemma_cancel(g1, g2, h, r);
        lemma_congruent_below_order(d.rnd_value, altered.rnd_value);
    }
    assert(deal_check(altered, verifiers, sid) =~= Err::<(), VssError>(
        VssError::ShareDoesNotVerify,
    ));
}

/// The power `x^j`.
pub open spec fn power(x: nat, j: nat) -> nat
    decreases j,
{
    if j == 0 {
        1
    } else {
        x * power(x, (j - 1) as nat)
    }
}

/// Changing one coefficient of a polynomial changes its value at `x` by
/// the change of the coefficient times the power of `x`.
pub proof fn lemma_coefficient_change(c: Seq<nat>, j: int, v: nat, x: nat)
    requires
        0 <= j < c.len(),
    ensures
        poly_value(c.update(j, v), x) - poly_value(c, x) == (v - c[j]) * power(x, j as nat),
    decreases j,
{
    let changed = c.update(j, v);
    if j == 0 {
        assert(changed.skip(1) =~= c.skip(1));
        assert((v - c[0]) * 1 == v - c[0]) by (nonlinear_arith);
    } else {
        lemma_coefficient_change(c.skip(1), j - 1, v, x);
        assert(changed.skip(1) =~= c.skip(1).update(j - 1, v));
        assert(c.skip(1)[j - 1] == c[j]);
        let a = poly_value(changed.skip(1), x) as int;
        let b = poly_value(c.skip(1), x) as int;
        let p = power(x, (j - 1) as nat) as int;
        let delta = v - c[j];
        assert(x * a - x * b == delta * (x * p)) by (nonlinear_arith)
            requires
                a - b == delta * p,
        ;
    }
}

/// A power of a number that has an inverse can be cancelled.
pub proof fn lemma_cancel_power(a: int, b: int, x: nat, j: nat, r: nat)
    requires
        is_inverse(r, x),
        congruent(a * power(x, j), b * power(x, j)),
    ensures
        congruent(a, b),
    decreases j,
{
    if j == 0 {
        assert(a * 1 == a && b * 1 == b) by (nonlinear_arith);
    } else {
        let p = power(x, (j - 1) as nat);
        assert(a * (x * p) == (a * p) * x && b * (x * p) == (b * p) * x) by (nonlinear_arith);
        lemma_cancel(a * p, b * p, x, r);
        lemma_cancel_power(a, b, x, (j - 1) as nat, r);
    }
}

/// Bad-share detection, for the commitments: a deal that verifies no
/// longer verifies once one of its commitments is another byte string,
/// provided that the point at which its share is taken has an inverse
/// modulo the order.
pub proof fn lemma_altered_commitment_fails(
    d: DealView,
    altered: DealView,
    verifiers: Seq<Point>,
    sid: Seq<u8>,
    j: int,
    r: nat,
)
    requires
        deal_check(d, verifiers, sid) is Ok,
        0 <= j < d.commitments.len(),
        altered.commitments.len() == d.commitments.len(),
        altered.commitments[j] != d.commitments[j],
        altered == (DealView {
            commitments: d.commitments.update(j, altered.commitments[j]),
            ..d
        }),
        is_inverse(r, share_x(d.sec_index)),
    ensures
        deal_check(altered, verifiers, sid) is Err,
        deal_check(altered, verifiers, sid)->Err_0 == VssError::InvalidCommitment || deal_check(
            altered,
            verifiers,
            sid,
        )->Err_0 == VssError::ShareDoesNotVerify,
{
    let h = point_index(derive_h_spec(verifiers)->Some_0);
    let x = share_x(d.sec_index);
    let c = commitment_indices(d.commitments);
    let c2 = commitment_indices(altered.commitments);
    if commitments_decode(altered.commitments) {
        assert(is_point(d.commitments[j]));
        assert(is_point(altered.commitments[j]));
        crate::point::lemma_point_index(d.commitments[j]);
        crate::point::lemma_point_index(altered.commitments[j]);
        assert(c2 =~= c.update(j, c2[j]));
        assert(c2[j] != c[j]);
        lemma_coefficient_change(c, j, c2[j], x);
        if share_matches(altered, h) {
            assert(share_commitment(altered, h) == share_commitment(d, h));
            assert(poly_eval(c2, x) == poly_eval(c, x));
            let p = power(x, j as nat) as int;
            let (v2, v1) = (c2[j] as int, c[j] as int);
            lemma_congruent_sub(
                poly_value(c2, x) as int,
                poly_value(c, x) as int,
                poly_value(c, x) as int,
                poly_value(c, x) as int,
            );
            assert(congruent((v2 - v1) * p, 0));
            assert(0 * p == 0) by (nonlinear_arith);
            lemma_cancel_power(v2 - v1, 0, x, j as nat, r);
            lemma_congruent_sub(v2 - v1, 0, -v1, -v1);
            lemma_congruent_below_order(c2[j], c[j]);
        }
    }
}

/// Round trip: what a dealer has sealed for the verifier `i`, the verifier
/// of that index in the same run decrypts to the deal of the verifier `i`.
pub proof fn lemma_sealed_deal_opens(dealer: Dealer, verifier: Verifier, ed: EncryptedDealView)
    requires
        dealer.wf(),
        verifier.wf(),
        verifier.verifier_keys() == dealer.verifiers(),
        verifier.dealer_key() == dealer.public_key(),
        dealer.sealed_for(ed, verifier.own_index()),
    ensures
        verifier.decrypted(ed) == Ok::<DealView, VssError>(
            dealer.deals()[verifier.own_index() as int],
        ),
{
    dealer.lemma_wf();
    verifier.lemma_wf();
}

/// An honest deal is taken in and approved: a verifier that awaits its
/// deal accepts what the dealer of its run has sealed for it, and finds
/// that the deal verifies.
pub proof fn lemma_sealed_deal_is_approved(dealer: Dealer, verifier: Verifier, ed: EncryptedDealView)
    requires
        dealer.wf(),
        verifier.wf(),
        verifier.verifier_keys() == dealer.verifiers(),
        verifier.dealer_key() == dealer.public_key(),
        dealer.sealed_for(ed, verifier.own_index()),
        verifier.aggregator().threshold() == 0 || verifier.aggregator().deal().t == 0,
    ensures
        verifier.accept_check(ed) == Ok::<DealView, VssError>(
            dealer.deals()[verifier.own_index() as int],
        ),
        deal_check(
            dealer.deals()[verifier.own_index() as int],
            verifier.verifier_keys(),
            dealer.deals()[verifier.own_index() as int].session_id,
        ) is Ok,
{
    dealer.lemma_wf();
    verifier.lemma_wf();
    let i = verifier.own_index() as int;
    lemma_sealed_deal_opens(dealer, verifier, ed);
    lemma_honest_deal_verifies(dealer, i);
    let d = dealer.deals()[i];
    assert(honest_deal(
        d,
        i as u32,
        dealer.session(),
        dealer.threshold(),
        dealer.secret_poly(),
        dealer.blinding_poly(),
        dealer.commitments(),
    ));
    assert(verifier.accept_check(ed) =~= Ok::<DealView, VssError>(d));
}

/// Justification fixes complaint: the deal of an honest dealer, disclosed
/// in a justification that a verifier of the run admits, passes the
/// verifier's check.
pub proof fn lemma_honest_justification_passes(dealer: Dealer, verifier: Verifier, j: JustificationView)
    requires
        dealer.wf(),
        verifier.wf(),
        verifier.verifier_keys() == dealer.verifiers(),
        verifier.admits(j) is Ok,
        j.deal == dealer.deals()[j.index as int],
    ensures
        verifier.justification_check(j) is Ok,
{
    dealer.lemma_wf();
    lemma_honest_deal_verifies(dealer, j.index as int);
    let d = dealer.deals()[j.index as int];
    assert(honest_deal(
        d,
        j.index,
        dealer.session(),
        dealer.threshold(),
        dealer.secret_poly(),
        dealer.blinding_poly(),
        dealer.commitments(),
    ));
}

/// Whether every byte string of a list has 32 bytes.
pub open spec fn all_32(parts: Seq<Seq<u8>>) -> bool {
    forall|i: int| 0 <= i < parts.len() ==> (#[trigger] parts[i]).len() == 32
}

/// Binding: what is hashed into the session identifier determines the
/// dealer, the verifiers, the commitments and the threshold, as long as
/// keys and commitments have 32 bytes each and there are as many
/// commitments as the threshold says.
pub proof fn lemma_session_input_binds(
    dealer1: Seq<u8>,
    verifiers1: Seq<Seq<u8>>,
    commitments1: Seq<Seq<u8>>,
    t1: u32,
    dealer2: Seq<u8>,
    verifiers2: Seq<Seq<u8>>,
    commitments2: Seq<Seq<u8>>,
    t2: u32,
)
    requires
        dealer1.len() == 32,
        dealer2.len() == 32,
        all_32(verifiers1),
        all_32(verifiers2),
        all_32(commitments1),
        all_32(commitments2),
        commitments1.len() == t1,
        commitments2.len() == t2,
        session_input(dealer1, verifiers1, commitments1, t1) == session_input(
            dealer2,
            verifiers2,
            commitments2,
            t2,
        ),
    ensures
        dealer1 == dealer2,
        verifiers1 == verifiers2,
        commitments1 == commitments2,
        t1 == t2,
{
    let s1 = session_input(dealer1, verifiers1, commitments1, t1);
    let s2 = session_input(dealer2, verifiers2, commitments2, t2);
    let (v1, v2) = (concat_all(verifiers1), concat_all(verifiers2));
    let (c1, c2) = (concat_all(commitments1), concat_all(commitments2));
    lemma_concat_all_fixed(verifiers1, 32);
    lemma_concat_all_fixed(verifiers2, 32);
    lemma_concat_all_fixed(commitments1, 32);
    lemma_concat_all_fixed(commitments2, 32);
    lemma_le_bytes_len(t1 as nat, 4);
    lemma_le_bytes_len(t2 as nat, 4);
    let n = s1.len() as int;
    // the threshold stands in the last four bytes
    assert(s1.subrange(n - 4, n) =~= le32(t1));
    assert(s2.subrange(n - 4, n) =~= le32(t2));
    lemma_le32_injective(t1, t2);
    // as many commitments, hence as many verifiers
    assert(verifiers1.len() * 32 == verifiers2.len() * 32);
    assert(verifiers1.len() == verifiers2.len());
    assert(s1.subrange(0, 32) =~= dealer1);
    assert(s2.subrange(0, 32) =~= dealer2);
    let (lv, lc) = (v1.len() as int, c1.len() as int);
    assert(s1.subrange(32, 32 + lv) =~= v1);
    assert(s2.subrange(32, 32 + lv) =~= v2);
    assert(s1.subrange(32 + lv, 32 + lv + lc) =~= c1);
    assert(s2.subrange(32 + lv, 32 + lv + lc) =~= c2);
    assert(verifiers1 =~= verifiers2);
    assert(commitments1 =~= commitments2);
}

/// Whether `d` is one of the deals of `dealer`: the deal of the verifier
/// that its secret share names.
pub open spec fn dealt_by(dealer: Dealer, d: DealView) -> bool {
    d.sec_index < dealer.deals().len() && d == dealer.deals()[d.sec_index as int]
}

/// Correctness: from any `t` deals of a dealer with the threshold `t`,
/// interpolation of the secret shares gives the secret that the dealer
/// shared, provided that every denominator of Lagrange's formula has an
/// inverse modulo the order, which is what a successful recovery finds.
pub proof fn lemma_recovery_gives_the_secret(dealer: Dealer, deals: Seq<DealView>)
    requires
        dealer.wf(),
        dealer.threshold() <= deals.len(),
        forall|k: int| 0 <= k < dealer.threshold() ==> dealt_by(dealer, #[trigger] deals[k]),
        interpolable(deal_xs(deals, dealer.threshold() as int)),
    ensures
        interpolate_at_zero(
            deal_xs(deals, dealer.threshold() as int),
            deal_ys(deals, dealer.threshold() as int),
        ) == dealer.secret(),
{
    dealer.lemma_wf();
    let t = dealer.threshold() as int;
    let f = dealer.secret_poly();
    let xs = deal_xs(deals, t);
    let ys = deal_ys(deals, t);
    assert forall|k: int| 0 <= k < xs.len() implies #[trigger] ys[k] == poly_eval(f, xs[k]) by {
        let d = deals[k];
        assert(dealt_by(dealer, d));
        assert(honest_deal(
            dealer.deals()[d.sec_index as int],
            d.sec_index,
            dealer.session(),
            dealer.threshold(),
            dealer.secret_poly(),
            dealer.blinding_poly(),
            dealer.commitments(),
        ));
    }
    lemma_interpolation_recovers(f, xs, ys);
    assert(poly_value(f, 0) == f[0]) by {
        assert(0 * poly_value(f.skip(1), 0) == 0) by (nonlinear_arith);
    }
    vstd::arithmetic::div_mod::lemma_small_mod(f[0], scalar_order());
}

/// The deals of one dealer carry one session identifier.
pub proof fn lemma_dealt_deals_share_a_session(dealer: Dealer, deals: Seq<DealView>)
    requires
        dealer.wf(),
        forall|k: int| 0 <= k < deals.len() ==> dealt_by(dealer, #[trigger] deals[k]),
    ensures
        same_session(deals),
{
    dealer.lemma_wf();
    assert forall|k: int| 0 <= k < deals.len() implies (#[trigger] deals[k]).session_id
        == dealer.session() by {
        let d = deals[k];
        assert(dealt_by(dealer, d));
        assert(honest_deal(
            dealer.deals()[d.sec_index as int],
            d.sec_index,
            dealer.session(),
            dealer.threshold(),
            dealer.secret_poly(),
            dealer.blinding_poly(),
            dealer.commitments(),
        ));
    }
}

/// Where each of the first `k` verifiers approves, the approvals among
/// them are `k`.
pub proof fn lemma_approvals_of_all(m: Map<u32, ResponseView>, k: nat)
    requires
        k <= u32::MAX,
        forall|i: u32| (i as nat) < k ==> #[trigger] m.contains_key(i) && m[i].approved,
    ensures
        approvals(m, k) == k,
    decreases k,
{
    if k > 0 {
        lemma_approvals_of_all(m, (k - 1) as nat);
        assert(m.contains_key((k - 1) as u32));
    }
}

/// Unanimous approval certifies: where every verifier has approved, the
/// threshold is set and valid, and no justification has failed, the deal
/// is certified.
pub proof fn lemma_unanimous_approval_certifies(a: Aggregator)
    requires
        a.wf(),
        0 < a.threshold() <= a.verifiers().len(),
        !a.bad_dealer(),
        forall|i: u32|
            (i as nat) < a.verifiers().len() ==> #[trigger] a.responses().contains_key(i)
                && a.responses()[i].approved,
    ensures
        a.certified(),
{
    a.lemma_wf();
    lemma_approvals_of_all(a.responses(), a.verifiers().len());
    assert(all_responded(a.responses(), a.verifiers().len()));
}

} // verus!
