//! Recovery of the secret from the deals of verifiers.

use vstd::prelude::*;
use crate::bytes::bytes_eq;
use crate::deal::{Deal, DealView};
use crate::error::VssError;
use crate::poly::{degenerate, interpolable, interpolate_at_zero, share_x, share_xs, share_ys, PriShare};
use crate::scalar::Scalar;

verus! {

/// Whether every deal of a list carries the session identifier of the
/// first.
pub open spec fn same_session(deals: Seq<DealView>) -> bool {
    forall|k: int| 0 <= k < deals.len() ==> (#[trigger] deals[k]).session_id == deals[0].session_id
}

/// The views of the deals of a list.
pub open spec fn deal_views(deals: Seq<Deal>) -> Seq<DealView> {
    Seq::new(deals.len(), |k: int| deals[k]@)
}

/// The points at which the secret shares of the first `t` deals are taken.
pub open spec fn deal_xs(deals: Seq<DealView>, t: int) -> Seq<nat> {
    Seq::new(t as nat, |k: int| share_x(deals[k].sec_index))
}

/// The values of the secret shares of the first `t` deals.
pub open spec fn deal_ys(deals: Seq<DealView>, t: int) -> Seq<nat> {
    Seq::new(t as nat, |k: int| deals[k].sec_value)
}

/// Recovers the secret from the deals of at least `t` verifiers, by
/// interpolation of the secret shares of the first `t` of them.
///
/// Fails if the deals do not all carry one session identifier, if they are
/// fewer than `t`, or if the first `t` shares admit no interpolation, as
/// when two of them have one index. The deals are not verified here: they
/// are to be deals of a certified run.
pub fn recover_secret(deals: &[Deal], t: u32) -> (r: Result<Scalar, VssError>)
    ensures
        match r {
            Ok(s) => {
                &&& same_session(deal_views(deals@))
                &&& t <= deals@.len()
                &&& !degenerate(deal_xs(deal_views(deals@), t as int))
                &&& interpolable(deal_xs(deal_views(deals@), t as int))
                &&& s@ == interpolate_at_zero(
                    deal_xs(deal_views(deals@), t as int),
                    deal_ys(deal_views(deals@), t as int),
                )
            },
            Err(VssError::SessionIdMismatch) => !same_session(deal_views(deals@)),
            Err(VssError::NotEnoughShares) => same_session(deal_views(deals@)) && deals@.len() < t,
            Err(VssError::DegenerateShares) => {
                &&& same_session(deal_views(deals@))
                &&& t <= deals@.len()
                &&& degenerate(deal_xs(deal_views(deals@), t as int))
            },
            Err(_) => false,
        },
{
    let ghost views = deal_views(deals@);
    let mut shares: Vec<PriShare> = Vec::new();
    let mut k: usize = 0;
    while k < deals.len()
        invariant
            k <= deals.len(),
            views == deal_views(deals@),
            shares@.len() == k,
            forall|j: int| 0 <= j < k ==> (#[trigger] views[j]).session_id == views[0].session_id,
            forall|j: int|
                0 <= j < k ==> (#[trigger] shares@[j]).i == views[j].sec_index && shares@[j].v@
                    == views[j].sec_value,
        decreases deals.len() - k,
    {
        if bytes_eq(deals[0].session_id.as_slice(), deals[k].session_id.as_slice()) {
            shares.push(deals[k].sec_share);
        } else {
            assert(views[k as int].session_id != views[0].session_id);
            return Err(VssError::SessionIdMismatch);
        }
        k += 1;
    }
    let r = crate::poly::recover_secret(shares.as_slice(), t);
    proof {
        if t <= deals@.len() {
            assert(share_xs(shares@.take(t as int)) =~= deal_xs(views, t as int));
            assert(share_ys(shares@.take(t as int)) =~= deal_ys(views, t as int));
        }
    }
    r
}

} // verus!
