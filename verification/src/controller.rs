//! The controller in front of the ledger: it applies each business event at most
//! once while the event's marker is kept, and says what is to be recorded.

use crate::asset::BalanceType;
use crate::balance::{changed_by, BalanceManager};
use crate::decimal::Amount;
use crate::dedup::{
    cache_clear, cache_contains, cache_insert, cache_new, marker_limit, markers,
};
use crate::message::BalanceMessage;
use crate::models::{detail_with_id, stamp_detail, stored_user_id, BalanceHistory};
use ttl_cache::TtlCache;
use vstd::pervasive::unreached;
use vstd::prelude::*;

verus! {

/// The number of markers that the controller keeps at most.
pub const MARKER_CAPACITY: usize = 1_000_000;

/// The time that a marker is kept at most, in seconds: an hour.
pub const MARKER_TTL_SECS: u64 = 3600;

/// The time between two calls of `on_timer`, in seconds.
pub const TIMER_INTERVAL_SECS: u64 = 60;

/// What came of one business event.
#[derive(Clone, Debug)]
pub struct BalanceUpdate {
    /// Whether the ledger was changed: `false` for an event already applied.
    pub applied: bool,
    /// The audit record to hand on, if the event asks for one.
    pub history: Option<BalanceHistory>,
    /// The notification to hand on, if the event asks for one.
    pub message: Option<BalanceMessage>,
}

/// Why a business event cannot be applied.
#[derive(Clone, Copy, Debug, PartialEq, Eq, Structural)]
pub enum UpdateError {
    /// The asset is not registered.
    UnknownAsset,
    /// The change takes more than the user has available.
    InsufficientBalance,
    /// The new balance cannot be held exactly.
    Overflow,
    /// The payload is neither a JSON object nor `null`.
    InvalidDetail,
}

/// The key under which an event is remembered.
pub open spec fn event_key(user_id: u32, asset: Seq<char>, business: Seq<char>, business_id: u64) -> (
    u32,
    Seq<char>,
    Seq<char>,
    u64,
) {
    (user_id, asset, business, business_id)
}

/// The size of a change: the change without its sign.
pub open spec fn magnitude(change: Amount) -> Amount {
    Amount {
        mantissa: if change.mantissa >= 0 {
            change.mantissa
        } else {
            (-change.mantissa) as i128
        },
        scale: change.scale,
    }
}

/// The size of a change as the ledger books it: rounded to the asset's
/// precision.
pub open spec fn booked(ledger: BalanceManager, asset: Seq<char>, change: Amount) -> Amount {
    magnitude(change).rounded(ledger.prec(asset))
}

/// Why the ledger cannot take the change, if it cannot.
pub open spec fn first_error(
    ledger: BalanceManager,
    persist: bool,
    user_id: u32,
    asset: Seq<char>,
    business_id: u64,
    change: Amount,
    detail: Seq<char>,
) -> Option<UpdateError> {
    let held = ledger.balance((user_id, BalanceType::AVAILABLE, asset));
    let size = booked(ledger, asset, change);
    if !ledger.asset_manager@.dom().contains(asset) {
        Some(UpdateError::UnknownAsset)
    } else if change.mantissa >= 0 && !held.can_add(&size) {
        Some(UpdateError::Overflow)
    } else if change.mantissa < 0 && held.value() < size.value() {
        Some(UpdateError::InsufficientBalance)
    } else if change.mantissa < 0 && !held.can_sub(&size) {
        Some(UpdateError::Overflow)
    } else if persist && detail_with_id(detail, business_id) is None {
        Some(UpdateError::InvalidDetail)
    } else {
        None
    }
}

/// `after` is `before` with the change booked on the user's available
/// balance: added where it is zero or more, taken where it is less.
pub open spec fn booked_on(
    before: BalanceManager,
    after: BalanceManager,
    user_id: u32,
    asset: Seq<char>,
    change: Amount,
) -> bool {
    let size = booked(before, asset, change).value();
    changed_by(
        before,
        after,
        (user_id, BalanceType::AVAILABLE, asset),
        if change.mantissa >= 0 {
            size
        } else {
            -size
        },
    )
}

/// `history` is the audit record of the event.
pub open spec fn is_history(
    history: BalanceHistory,
    user_id: u32,
    asset: Seq<char>,
    business: Seq<char>,
    business_id: u64,
    change: Amount,
    balance: Amount,
    detail: Seq<char>,
) -> bool {
    &&& history.user_id == stored_user_id(user_id)
    &&& history.asset@ == asset
    &&& history.business@ == business
    &&& history.change == change
    &&& history.balance == balance
    &&& detail_with_id(detail, business_id) == Some(history.detail@)
}

/// `message` is the notification of the event.
pub open spec fn is_message(
    message: BalanceMessage,
    user_id: u32,
    asset: Seq<char>,
    business: Seq<char>,
    change: Amount,
) -> bool {
    &&& message.user_id == user_id
    &&& message.asset@ == asset
    &&& message.business@ == business
    &&& message.change@ == change.text()
}

/// What an applied event hands on: the audit record and the notification
/// exactly where `persist` asks for them, the record with the balance that
/// the change left.
pub open spec fn recorded(
    ledger_after: BalanceManager,
    persist: bool,
    user_id: u32,
    asset: Seq<char>,
    business: Seq<char>,
    business_id: u64,
    change: Amount,
    detail: Seq<char>,
    update: BalanceUpdate,
) -> bool {
    if persist {
        &&& update.history matches Some(history)
        &&& is_history(
            history,
            user_id,
            asset,
            business,
            business_id,
            change,
            ledger_after@[(user_id, BalanceType::AVAILABLE, asset)],
            detail,
        )
        &&& update.message matches Some(message)
        &&& is_message(message, user_id, asset, business, change)
    } else {
        update.history is None && update.message is None
    }
}

/// What one event does to the ledger, given whether its marker was found: a
/// found event is not applied, changes nothing and hands nothing on; any
/// other is applied, booked and recorded.
pub open spec fn stepped(
    found: bool,
    ledger_before: BalanceManager,
    ledger_after: BalanceManager,
    persist: bool,
    user_id: u32,
    asset: Seq<char>,
    business: Seq<char>,
    business_id: u64,
    change: Amount,
    detail: Seq<char>,
    update: BalanceUpdate,
) -> bool {
    if found {
        &&& !update.applied
        &&& ledger_after == ledger_before
        &&& update.history is None
        &&& update.message is None
    } else {
        &&& update.applied
        &&& booked_on(ledger_before, ledger_after, user_id, asset, change)
        &&& recorded(
            ledger_after,
            persist,
            user_id,
            asset,
            business,
            business_id,
            change,
            detail,
            update,
        )
    }
}

/// One event, once the lookup of its marker has answered `found`: a found
/// event is left alone; any other is booked on the user's available balance,
/// with the audit record and the notification where `persist` is set.
pub fn apply_event(
    found: bool,
    balance_manager: &mut BalanceManager,
    persist: bool,
    user_id: u32,
    asset: &str,
    business: &str,
    business_id: u64,
    change: Amount,
    detail: &str,
) -> (r: BalanceUpdate)
    requires
        old(balance_manager).wf(),
        change.wf(),
        !found ==> first_error(
            *old(balance_manager),
            persist,
            user_id,
            asset@,
            business_id,
            change,
            detail@,
        ) is None,
    ensures
        final(balance_manager).wf(),
        stepped(
            found,
            *old(balance_manager),
            *final(balance_manager),
            persist,
            user_id,
            asset@,
            business@,
            business_id,
            change,
            detail@,
            r,
        ),
{
    if found {
        return BalanceUpdate { applied: false, history: None, message: None };
    }
    let abs_change = change.abs();
    let new_balance = if change.is_sign_positive() {
        balance_manager.add(user_id, BalanceType::AVAILABLE, asset, &abs_change)
    } else {
        balance_manager.sub(user_id, BalanceType::AVAILABLE, asset, &abs_change)
    };
    if persist {
        let stamped = match stamp_detail(detail, business_id) {
            Some(text) => text,
            None => unreached(),
        };
        let history = BalanceHistory::new(user_id, asset, business, change, new_balance, stamped);
        let message = BalanceMessage::new(user_id, asset, business, change.to_string());
        BalanceUpdate { applied: true, history: Some(history), message: Some(message) }
    } else {
        BalanceUpdate { applied: true, history: None, message: None }
    }
}

/// The controller that every balance-changing business event passes.
pub struct BalanceUpdateController {
    cache: TtlCache<(u32, String, String, u64), bool>,
}

impl BalanceUpdateController {
    /// The events that the controller may still remember.
    pub closed spec fn seen(&self) -> Set<(u32, Seq<char>, Seq<char>, u64)> {
        markers(self.cache)
    }

    /// The number of events that the controller remembers at most.
    pub closed spec fn capacity(&self) -> nat {
        marker_limit(self.cache)
    }

    /// The controller can remember at least one event.
    pub open spec fn wf(&self) -> bool {
        self.capacity() >= 1
    }

    /// What a call for one event leaves: for an event found remembered,
    /// nothing changed and nothing to record; for any other, the change booked
    /// and the event remembered, with a record and a notification exactly
    /// where `persist` asks for them.
    pub open spec fn outcome(
        before: BalanceUpdateController,
        after: BalanceUpdateController,
        ledger_before: BalanceManager,
        ledger_after: BalanceManager,
        persist: bool,
        user_id: u32,
        asset: Seq<char>,
        business: Seq<char>,
        business_id: u64,
        change: Amount,
        detail: Seq<char>,
        update: BalanceUpdate,
    ) -> bool {
        let key = event_key(user_id, asset, business, business_id);
        &&& after.capacity() == before.capacity()
        &&& if update.applied {
            &&& booked_on(ledger_before, ledger_after, user_id, asset, change)
            &&& after.seen().contains(key)
            &&& after.seen().subset_of(before.seen().insert(key))
            &&& recorded(
                ledger_after,
                persist,
                user_id,
                asset,
                business,
                business_id,
                change,
                detail,
                update,
            )
        } else {
            &&& before.seen().contains(key)
            &&& after.seen() == before.seen()
            &&& ledger_after == ledger_before
            &&& update.history is None
            &&& update.message is None
        }
    }

    /// A controller that remembers nothing yet.
    pub fn new() -> (r: BalanceUpdateController)
        ensures
            r.wf(),
            r.capacity() == MARKER_CAPACITY,
            r.seen() == Set::<(u32, Seq<char>, Seq<char>, u64)>::empty(),
    {
        BalanceUpdateController { cache: cache_new(MARKER_CAPACITY) }
    }

    /// Forgets every event.
    pub fn reset(&mut self)
        ensures
            final(self).seen() == Set::<(u32, Seq<char>, Seq<char>, u64)>::empty(),
            final(self).capacity() == old(self).capacity(),
    {
        cache_clear(&mut self.cache)
    }

    /// The periodic tick: forgets every event, whatever its age.
    pub fn on_timer(&mut self)
        ensures
            final(self).seen() == Set::<(u32, Seq<char>, Seq<char>, u64)>::empty(),
            final(self).capacity() == old(self).capacity(),
    {
        cache_clear(&mut self.cache)
    }

    /// The time between two ticks, in seconds.
    pub fn timer_interval(&self) -> (r: u64)
        ensures
            r == TIMER_INTERVAL_SECS,
    {
        TIMER_INTERVAL_SECS
    }

    /// Applies one business event unless it is found remembered: books the
    /// change on the user's available balance, remembers the event, and, where
    /// `persist` is set, returns the audit record and the notification to hand
    /// on. The ledger is changed whether or not `persist` is set.
    pub fn update_user_balance(
        &mut self,
        balance_manager: &mut BalanceManager,
        persist: bool,
        user_id: u32,
        asset: &str,
        business: String,
        business_id: u64,
        change: Amount,
        detail: &str,
    ) -> (r: BalanceUpdate)
        requires
            old(self).wf(),
            old(balance_manager).wf(),
            change.wf(),
            first_error(*old(balance_manager), persist, user_id, asset@, business_id, change, detail@)
                is None,
        ensures
            final(self).wf(),
            final(self).capacity() == old(self).capacity(),
            final(balance_manager).wf(),
            !old(self).seen().contains(event_key(user_id, asset@, business@, business_id))
                ==> r.applied,
            Self::outcome(
                *old(self),
                *final(self),
                *old(balance_manager),
                *final(balance_manager),
                persist,
                user_id,
                asset@,
                business@,
                business_id,
                change,
                detail@,
                r,
            ),
    {
        let cache_key = (user_id, asset.to_owned(), business.clone(), business_id);
        let found = cache_contains(&self.cache, &cache_key);
        let update = apply_event(
            found,
            balance_manager,
            persist,
            user_id,
            asset,
            business.as_str(),
            business_id,
            change,
            detail,
        );
        if !found {
            cache_insert(&mut self.cache, cache_key, true, MARKER_TTL_SECS);
        }
        update
    }

    /// As `update_user_balance`, for any event: one that the ledger cannot
    /// take, and that is not found remembered, is refused with the reason and
    /// changes nothing.
    pub fn try_update_user_balance(
        &mut self,
        balance_manager: &mut BalanceManager,
        persist: bool,
        user_id: u32,
        asset: &str,
        business: String,
        business_id: u64,
        change: Amount,
        detail: &str,
    ) -> (r: Result<BalanceUpdate, UpdateError>)
        requires
            old(self).wf(),
            old(balance_manager).wf(),
            change.wf(),
        ensures
            final(self).wf(),
            final(self).capacity() == old(self).capacity(),
            final(balance_manager).wf(),
            first_error(*old(balance_manager), persist, user_id, asset@, business_id, change, detail@)
                is None ==> r is Ok,
            !old(self).seen().contains(event_key(user_id, asset@, business@, business_id))
                ==> match r {
                Ok(update) => update.applied,
                Err(e) => first_error(
                    *old(balance_manager),
                    persist,
                    user_id,
                    asset@,
                    business_id,
                    change,
                    detail@,
                ) == Some(e),
            },
            match r {
                Ok(update) => Self::outcome(
                    *old(self),
                    *final(self),
                    *old(balance_manager),
                    *final(balance_manager),
                    persist,
                    user_id,
                    asset@,
                    business@,
                    business_id,
                    change,
                    detail@,
                    update,
                ) && (update.applied ==> first_error(
                    *old(balance_manager),
                    persist,
                    user_id,
                    asset@,
                    business_id,
                    change,
                    detail@,
                ) is None),
                Err(e) => first_error(
                    *old(balance_manager),
                    persist,
                    user_id,
                    asset@,
                    business_id,
                    change,
                    detail@,
                ) == Some(e) && final(self).seen() == old(self).seen() && final(self).capacity()
                    == old(self).capacity() && *final(balance_manager) == *old(balance_manager),
            },
    {
        match check_update(balance_manager, persist, user_id, asset, business_id, &change, detail) {
            None => Ok(
                self.update_user_balance(
                    balance_manager,
                    persist,
                    user_id,
                    asset,
                    business,
                    business_id,
                    change,
                    detail,
                ),
            ),
            Some(e) => {
                let cache_key = (user_id, asset.to_owned(), business, business_id);
                if cache_contains(&self.cache, &cache_key) {
                    Ok(BalanceUpdate { applied: false, history: None, message: None })
                } else {
                    Err(e)
                }
            },
        }
    }
}

/// Why the ledger cannot take the change, if it cannot.
pub fn check_update(
    balance_manager: &BalanceManager,
    persist: bool,
    user_id: u32,
    asset: &str,
    business_id: u64,
    change: &Amount,
    detail: &str,
) -> (r: Option<UpdateError>)
    requires
        balance_manager.wf(),
        change.wf(),
    ensures
        r == first_error(*balance_manager, persist, user_id, asset@, business_id, *change, detail@),
{
    if !balance_manager.asset_manager.asset_exist(asset) {
        return Some(UpdateError::UnknownAsset);
    }
    let prec = balance_manager.asset_manager.asset_prec(asset);
    let size = change.abs().round_dp(prec);
    let held = balance_manager.get(user_id, BalanceType::AVAILABLE, asset);
    if change.is_sign_positive() {
        if held.checked_add(&size).is_none() {
            return Some(UpdateError::Overflow);
        }
    } else {
        if !held.ge(&size) {
            return Some(UpdateError::InsufficientBalance);
        }
        if held.checked_sub(&size).is_none() {
            return Some(UpdateError::Overflow);
        }
    }
    if persist && stamp_detail(detail, business_id).is_none() {
        return Some(UpdateError::InvalidDetail);
    }
    None
}

} // verus!
