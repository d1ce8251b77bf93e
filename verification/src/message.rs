//! The notification of one applied balance change.

use vstd::prelude::*;

verus! {

/// One applied balance change, as subscribers are told of it. The time is
/// added by whoever hands the message on.
#[derive(Clone, Debug)]
pub struct BalanceMessage {
    pub user_id: u32,
    pub asset: String,
    pub business: String,
    pub change: String,
}

impl BalanceMessage {
    /// The message of a change whose text is `change`.
    pub fn new(user_id: u32, asset: &str, business: &str, change: String) -> (r: BalanceMessage)
        ensures
            r.user_id == user_id,
            r.asset@ == asset@,
            r.business@ == business@,
            r.change@ == change@,
    {
        BalanceMessage {
            user_id,
            asset: asset.to_owned(),
            business: business.to_owned(),
            change,
        }
    }
}

} // verus!
