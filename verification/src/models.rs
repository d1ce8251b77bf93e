//! The audit record of one applied balance change.

use crate::decimal::Amount;
use vstd::prelude::*;

verus! {

/// The payload of a business event with `number` stored under `key`, as
/// compact JSON text; `None` where the payload is neither a JSON object nor
/// `null`.
pub uninterp spec fn detail_with_number(detail: Seq<char>, key: Seq<char>, number: u64) -> Option<
    Seq<char>,
>;

/// The payload with the event's number stored under `"id"`.
pub open spec fn detail_with_id(detail: Seq<char>, business_id: u64) -> Option<Seq<char>> {
    detail_with_number(detail, "id"@, business_id)
}

/// `serde_json::from_str`, index assignment on the `serde_json::Value` and
/// its `to_string`. Claimed: the text that comes back depends on the payload,
/// the key and the number alone. The body lets only an object or `null` reach
/// the assignment, which would panic on any other value.
#[verifier::external_body]
fn json_with_number(detail: &str, key: &str, number: u64) -> (r: Option<String>)
    ensures
        r is Some <==> detail_with_number(detail@, key@, number) is Some,
        r matches Some(text) ==> detail_with_number(detail@, key@, number) == Some(text@),
{
    match serde_json::from_str::<serde_json::Value>(detail) {
        Ok(mut value) if value.is_object() || value.is_null() => {
            value[key] = serde_json::Value::from(number);
            Some(value.to_string())
        },
        _ => None,
    }
}

/// The payload with the event's number stored under `"id"`, where the payload
/// can take one.
pub fn stamp_detail(detail: &str, business_id: u64) -> (r: Option<String>)
    ensures
        r is Some <==> detail_with_id(detail@, business_id) is Some,
        r matches Some(text) ==> detail_with_id(detail@, business_id) == Some(text@),
{
    json_with_number(detail, "id", business_id)
}

/// The user's number as the audit store keeps it: a signed 32-bit number with
/// the same bits.
pub open spec fn stored_user_id(user_id: u32) -> int {
    if user_id <= i32::MAX {
        user_id as int
    } else {
        user_id - 0x1_0000_0000
    }
}

/// The user's number as the audit store keeps it.
pub fn user_id_to_i32(user_id: u32) -> (r: i32)
    ensures
        r == stored_user_id(user_id),
{
    if user_id <= 0x7fff_ffff {
        user_id as i32
    } else {
        let below: u32 = u32::MAX - user_id;
        -(below as i32) - 1
    }
}

/// One applied balance change, as the audit store takes it. The time is
/// added by whoever hands the record on.
#[derive(Clone, Debug)]
pub struct BalanceHistory {
    pub user_id: i32,
    pub asset: String,
    pub business: String,
    pub change: Amount,
    pub balance: Amount,
    pub detail: String,
}

impl BalanceHistory {
    /// The record of the change `change` that left `balance`, with the
    /// stamped payload `detail`.
    pub fn new(
        user_id: u32,
        asset: &str,
        business: &str,
        change: Amount,
        balance: Amount,
        detail: String,
    ) -> (r: BalanceHistory)
        ensures
            r.user_id == stored_user_id(user_id),
            r.asset@ == asset@,
            r.business@ == business@,
            r.change == change,
            r.balance == balance,
            r.detail@ == detail@,
    {
        BalanceHistory {
            user_id: user_id_to_i32(user_id),
            asset: asset.to_owned(),
            business: business.to_owned(),
            change,
            balance,
            detail,
        }
    }
}

} // verus!
