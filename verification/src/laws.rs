//! What holds of the ledger whatever it is asked to do.

use crate::asset::BalanceType;
use crate::balance::{changed_by, moved, BalanceManager};
use crate::decimal::{
    lemma_add_undoes_sub, lemma_pow10_adds, lemma_pow10_positive, lemma_round_sign,
    lemma_round_valid,
    lemma_sub_undoes_add, lemma_value_sign, max_scale, pow10, Amount, MAX_SCALE,
};
use vstd::arithmetic::div_mod::lemma_mod_multiples_basic;
use vstd::prelude::*;

verus! {

/// Every stored amount has no more fractional digits than its asset keeps:
/// its scale is within the asset's precision, and its value is a whole number
/// of the smallest steps of that precision.
pub proof fn lemma_stored_within_precision(ledger: BalanceManager, key: (u32, BalanceType, Seq<char>))
    requires
        ledger.wf(),
        ledger@.dom().contains(key),
    ensures
        ledger@[key].scale <= ledger.prec(key.2),
        ledger.prec(key.2) <= MAX_SCALE ==> ledger@[key].value() % pow10(
            (MAX_SCALE - ledger.prec(key.2)) as nat,
        ) == 0,
{
    let amount = ledger@[key];
    let dp = ledger.prec(key.2);
    if dp <= MAX_SCALE {
        let unit = pow10((MAX_SCALE - dp) as nat);
        let up = pow10((dp - amount.scale) as nat);
        lemma_pow10_adds((dp - amount.scale) as nat, (MAX_SCALE - dp) as nat);
        lemma_pow10_positive((MAX_SCALE - dp) as nat);
        assert(amount.value() == (amount.mantissa * up) * unit) by (nonlinear_arith)
            requires
                amount.value() == amount.mantissa * pow10((MAX_SCALE - amount.scale) as nat),
                pow10((MAX_SCALE - amount.scale) as nat) == up * unit,
        ;
        lemma_mod_multiples_basic(amount.mantissa * up, unit);
    }
}

/// A stored amount is never less than zero.
pub proof fn lemma_stored_not_negative(ledger: BalanceManager, key: (u32, BalanceType, Seq<char>))
    requires
        ledger.wf(),
    ensures
        ledger.balance(key).value() >= 0,
{
    let amount = ledger.balance(key);
    lemma_value_sign(amount.mantissa as int, amount.scale as nat);
}

/// Adding an amount to a slot and then taking the same amount from it leaves
/// the slot with the value it had, and every other slot as it was.
pub proof fn lemma_add_then_sub(
    start: BalanceManager,
    added: BalanceManager,
    end: BalanceManager,
    key: (u32, BalanceType, Seq<char>),
    amount: Amount,
)
    requires
        changed_by(start, added, key, amount.rounded(start.prec(key.2)).value()),
        changed_by(added, end, key, -amount.rounded(added.prec(key.2)).value()),
    ensures
        end.balance(key).value() == start.balance(key).value(),
        end@.remove(key) == start@.remove(key),
        end.asset_manager == start.asset_manager,
{
}

/// After an amount was added to a slot, the same amount can be taken from it:
/// the slot holds at least that much, and the difference can be held exactly.
pub proof fn lemma_sub_allowed_after_add(
    start: BalanceManager,
    added: BalanceManager,
    key: (u32, BalanceType, Seq<char>),
    amount: Amount,
)
    requires
        start.wf(),
        added.wf(),
        amount.wf(),
        amount.mantissa >= 0,
        start.balance(key).can_add(&amount.rounded(start.prec(key.2))),
        changed_by(start, added, key, amount.rounded(start.prec(key.2)).value()),
        added@[key].scale <= max_scale(
            start.balance(key).scale as nat,
            amount.rounded(start.prec(key.2)).scale as nat,
        ),
    ensures
        added.balance(key).value() >= amount.rounded(added.prec(key.2)).value(),
        added.balance(key).can_sub(&amount.rounded(added.prec(key.2))),
{
    let size = amount.rounded(start.prec(key.2));
    lemma_round_sign(amount.mantissa as int, amount.scale as nat, start.prec(key.2));
    lemma_round_valid(amount.mantissa as int, amount.scale as nat, start.prec(key.2));
    lemma_sub_undoes_add(start.balance(key), size, added@[key]);
}

/// Freezing an amount and then unfreezing the same amount leaves the user's
/// available and frozen balances with the values they had, and every other
/// slot as it was.
pub proof fn lemma_freeze_then_unfreeze(
    start: BalanceManager,
    frozen: BalanceManager,
    end: BalanceManager,
    user_id: u32,
    asset: Seq<char>,
    amount: Amount,
)
    requires
        frozen.asset_manager == start.asset_manager,
        moved(
            start@,
            frozen@,
            (user_id, BalanceType::AVAILABLE, asset),
            (user_id, BalanceType::FREEZE, asset),
            amount.rounded(start.prec(asset)),
        ),
        moved(
            frozen@,
            end@,
            (user_id, BalanceType::FREEZE, asset),
            (user_id, BalanceType::AVAILABLE, asset),
            amount.rounded(frozen.prec(asset)),
        ),
    ensures
        end.balance((user_id, BalanceType::AVAILABLE, asset)).value() == start.balance(
            (user_id, BalanceType::AVAILABLE, asset),
        ).value(),
        end.balance((user_id, BalanceType::FREEZE, asset)).value() == start.balance(
            (user_id, BalanceType::FREEZE, asset),
        ).value(),
        end@.remove((user_id, BalanceType::AVAILABLE, asset)).remove(
            (user_id, BalanceType::FREEZE, asset),
        ) == start@.remove((user_id, BalanceType::AVAILABLE, asset)).remove(
            (user_id, BalanceType::FREEZE, asset),
        ),
{
    let a = (user_id, BalanceType::AVAILABLE, asset);
    let f = (user_id, BalanceType::FREEZE, asset);
    assert(end@.remove(a).remove(f) =~= end@.remove(f).remove(a));
    assert(frozen@.remove(a).remove(f) =~= frozen@.remove(f).remove(a));
}

/// After an amount was frozen, the same amount can be unfrozen: the frozen
/// balance holds at least that much and the difference can be held exactly;
/// and the available balance can take the amount back wherever what was
/// available before the freeze can be written at the larger of its scale and
/// the amount's.
pub proof fn lemma_unfreeze_allowed_after_freeze(
    start: BalanceManager,
    frozen: BalanceManager,
    user_id: u32,
    asset: Seq<char>,
    amount: Amount,
)
    requires
        start.wf(),
        frozen.wf(),
        frozen.asset_manager == start.asset_manager,
        amount.wf(),
        amount.mantissa >= 0,
        start.balance((user_id, BalanceType::AVAILABLE, asset)).value() >= amount.rounded(
            start.prec(asset),
        ).value(),
        start.balance((user_id, BalanceType::FREEZE, asset)).can_add(
            &amount.rounded(start.prec(asset)),
        ),
        moved(
            start@,
            frozen@,
            (user_id, BalanceType::AVAILABLE, asset),
            (user_id, BalanceType::FREEZE, asset),
            amount.rounded(start.prec(asset)),
        ),
    ensures
        frozen.balance((user_id, BalanceType::FREEZE, asset)).value() >= amount.rounded(
            frozen.prec(asset),
        ).value(),
        frozen.balance((user_id, BalanceType::FREEZE, asset)).can_sub(
            &amount.rounded(frozen.prec(asset)),
        ),
        start.balance((user_id, BalanceType::AVAILABLE, asset)).fits_beside(
            &amount.rounded(start.prec(asset)),
        ) ==> frozen.balance((user_id, BalanceType::AVAILABLE, asset)).can_add(
            &amount.rounded(frozen.prec(asset)),
        ),
{
    let size = amount.rounded(start.prec(asset));
    let a = (user_id, BalanceType::AVAILABLE, asset);
    let f = (user_id, BalanceType::FREEZE, asset);
    lemma_round_sign(amount.mantissa as int, amount.scale as nat, start.prec(asset));
    lemma_round_valid(amount.mantissa as int, amount.scale as nat, start.prec(asset));
    lemma_sub_undoes_add(start.balance(f), size, frozen@[f]);
    if start.balance(a).fits_beside(&size) {
        lemma_add_undoes_sub(start.balance(a), size, frozen@[a]);
    }
}

} // verus!
