//! Sharing a weft: publishing the user's head under the per-user namespace
//! of the shared store, so that others can fetch it.

use vstd::prelude::*;
use crate::error::Fault;

verus! {

pub open spec fn weft_remote_ref_spec(user: Seq<char>) -> Seq<char> {
    "refs/weft/"@ + user
}

/// Everything share decides: where the head goes on the shared store and
/// the push that takes it there.
pub struct SharePlan {
    /// `refs/weft/{user}` on the shared store.
    pub remote_ref: String,
    /// The refspec that publishes the head commit under that reference.
    pub push_refspec: String,
}

/// Decides the share for a user's head, refusing only an uninitialized
/// weft.
pub fn plan_share(user: &str, weft_head: Option<String>) -> (r: Result<SharePlan, Fault>)
    ensures
        match r {
            Ok(p) => {
                &&& weft_head matches Some(h)
                &&& p.remote_ref@ == weft_remote_ref_spec(user@)
                &&& p.push_refspec@ == h@ + ":"@ + weft_remote_ref_spec(user@)
            },
            Err(f) => f == Fault::NotInitialized && weft_head is None,
        },
{
    let head = match weft_head {
        Some(h) => h,
        None => {
            return Err(Fault::NotInitialized);
        },
    };
    let mut remote_ref = String::from_str("refs/weft/");
    remote_ref.append(user);
    let mut push_refspec = head;
    push_refspec.append(":");
    push_refspec.append(remote_ref.as_str());
    proof {
        assert(push_refspec@ =~= weft_head.unwrap()@ + ":"@ + weft_remote_ref_spec(user@));
    }
    Ok(SharePlan { remote_ref, push_refspec })
}

} // verus!
