//! The totals of one asset over the whole ledger.

use crate::asset::{BalanceMapKey, BalanceType};
use crate::balance::{distinct_keys, holds_key, lemma_slot_at, slots, BalanceManager};
use crate::decimal::{
    lemma_sum_fits_within, lemma_value_sign, pow10, Amount, MAX_MANTISSA, MAX_SCALE,
};
use vstd::prelude::*;
use vstd::set::fold::{is_fun_commutative, lemma_fold_empty, lemma_fold_insert};

verus! {

/// What the ledger holds of one asset: the number of non-zero slots and their
/// sum, for each state, and the sum of both.
#[derive(Clone, Copy, Debug)]
pub struct BalanceStatus {
    pub total: Amount,
    pub available_count: u32,
    pub available: Amount,
    pub frozen_count: u32,
    pub frozen: Amount,
}

impl Default for BalanceStatus {
    fn default() -> (r: BalanceStatus)
        ensures
            r.available_count == 0,
            r.frozen_count == 0,
            r.total == (Amount { mantissa: 0, scale: 0 }),
            r.available == (Amount { mantissa: 0, scale: 0 }),
            r.frozen == (Amount { mantissa: 0, scale: 0 }),
    {
        BalanceStatus {
            total: Amount::zero(),
            available_count: 0,
            available: Amount::zero(),
            frozen_count: 0,
            frozen: Amount::zero(),
        }
    }
}

/// The slots of `asset` in state `state` that hold something other than zero.
pub open spec fn counted(
    held: Map<(u32, BalanceType, Seq<char>), Amount>,
    asset: Seq<char>,
    state: BalanceType,
) -> Set<(u32, BalanceType, Seq<char>)> {
    Set::new(
        |k: (u32, BalanceType, Seq<char>)|
            held.dom().contains(k) && k.2 == asset && k.1 == state && held[k].mantissa != 0,
    )
}

/// Adds the value of one slot to a running sum.
pub open spec fn add_value(held: Map<(u32, BalanceType, Seq<char>), Amount>) -> spec_fn(
    int,
    (u32, BalanceType, Seq<char>),
) -> int {
    |acc: int, k: (u32, BalanceType, Seq<char>)| acc + held[k].value()
}

/// The sum of the values of the given slots.
pub open spec fn value_sum(
    held: Map<(u32, BalanceType, Seq<char>), Amount>,
    keys: Set<(u32, BalanceType, Seq<char>)>,
) -> int {
    keys.fold(0int, add_value(held))
}

/// The largest value that can be written with `dp` fractional digits.
pub open spec fn largest_value(dp: nat) -> int {
    if dp >= MAX_SCALE {
        MAX_MANTISSA as int
    } else {
        MAX_MANTISSA * pow10((MAX_SCALE - dp) as nat)
    }
}

/// Entry `e` belongs to `asset` in state `state` and is not zero.
pub open spec fn counts(e: (BalanceMapKey, Amount), asset: Seq<char>, state: BalanceType) -> bool {
    e.0.asset@ == asset && e.0.balance_type == state && e.1.mantissa != 0
}

/// The counted slots among the first `n` entries of the list.
pub open spec fn seen(
    entries: Seq<(BalanceMapKey, Amount)>,
    n: nat,
    asset: Seq<char>,
    state: BalanceType,
) -> Set<(u32, BalanceType, Seq<char>)>
    decreases n,
{
    if n == 0 {
        Set::empty()
    } else if counts(entries[n - 1], asset, state) {
        seen(entries, (n - 1) as nat, asset, state).insert(entries[n - 1].0@)
    } else {
        seen(entries, (n - 1) as nat, asset, state)
    }
}

/// The counted slots among the first `n` entries are finitely many, at most
/// `n`, and are the keys of the counted entries before `n`.
proof fn lemma_seen(
    entries: Seq<(BalanceMapKey, Amount)>,
    n: nat,
    asset: Seq<char>,
    state: BalanceType,
)
    requires
        n <= entries.len(),
    ensures
        seen(entries, n, asset, state).finite(),
        seen(entries, n, asset, state).len() <= n,
        forall|k: (u32, BalanceType, Seq<char>)| #[trigger]
            seen(entries, n, asset, state).contains(k) <==> exists|j: int|
                0 <= j < n && #[trigger] holds_key(entries, j, k) && counts(
                    entries[j],
                    asset,
                    state,
                ),
    decreases n,
{
    if n > 0 {
        let m = (n - 1) as nat;
        lemma_seen(entries, m, asset, state);
        let prev = seen(entries, m, asset, state);
        let cur = seen(entries, n, asset, state);
        assert forall|k: (u32, BalanceType, Seq<char>)| #[trigger]
            cur.contains(k) <==> exists|j: int|
                0 <= j < n && #[trigger] holds_key(entries, j, k) && counts(
                    entries[j],
                    asset,
                    state,
                ) by {
            if cur.contains(k) {
                if prev.contains(k) {
                    let j = choose|j: int|
                        0 <= j < m && #[trigger] holds_key(entries, j, k) && counts(
                            entries[j],
                            asset,
                            state,
                        );
                    assert(0 <= j < n && holds_key(entries, j, k));
                } else {
                    assert(holds_key(entries, m as int, k));
                }
            }
            if exists|j: int|
                0 <= j < n && #[trigger] holds_key(entries, j, k) && counts(
                    entries[j],
                    asset,
                    state,
                ) {
                let j = choose|j: int|
                    0 <= j < n && #[trigger] holds_key(entries, j, k) && counts(
                        entries[j],
                        asset,
                        state,
                    );
                if j < m {
                    assert(0 <= j < m && holds_key(entries, j, k));
                    assert(prev.contains(k));
                }
            }
        }
    }
}

/// Over the whole list, the counted slots seen are the counted slots held.
proof fn lemma_seen_all(entries: Seq<(BalanceMapKey, Amount)>, asset: Seq<char>, state: BalanceType)
    requires
        distinct_keys(entries),
    ensures
        seen(entries, entries.len(), asset, state) == counted(slots(entries), asset, state),
        counted(slots(entries), asset, state).finite(),
{
    let all = seen(entries, entries.len(), asset, state);
    let held = slots(entries);
    lemma_seen(entries, entries.len(), asset, state);
    assert forall|k: (u32, BalanceType, Seq<char>)| all.contains(k) == counted(
        held,
        asset,
        state,
    ).contains(k) by {
        if all.contains(k) {
            let j = choose|j: int|
                0 <= j < entries.len() && #[trigger] holds_key(entries, j, k) && counts(
                    entries[j],
                    asset,
                    state,
                );
            lemma_slot_at(entries, j);
        }
        if counted(held, asset, state).contains(k) {
            let j = choose|j: int| holds_key(entries, j, k);
            lemma_slot_at(entries, j);
            assert(0 <= j < entries.len() && holds_key(entries, j, k) && counts(
                entries[j],
                asset,
                state,
            ));
        }
    }
    assert(all =~= counted(held, asset, state));
}

/// The counted slots seen grow with the number of entries looked at.
proof fn lemma_seen_grows(
    entries: Seq<(BalanceMapKey, Amount)>,
    a: nat,
    b: nat,
    asset: Seq<char>,
    state: BalanceType,
)
    requires
        a <= b <= entries.len(),
    ensures
        seen(entries, a, asset, state).subset_of(seen(entries, b, asset, state)),
    decreases b,
{
    if a < b {
        lemma_seen_grows(entries, a, (b - 1) as nat, asset, state);
    }
}

/// Adding values to a sum can be done in any order.
proof fn lemma_add_value_commutes(held: Map<(u32, BalanceType, Seq<char>), Amount>)
    ensures
        is_fun_commutative(add_value(held)),
{
    let f = add_value(held);
    assert forall|a1: (u32, BalanceType, Seq<char>), a2: (u32, BalanceType, Seq<char>), b: int|
        #[trigger] f(f(b, a2), a1) == f(f(b, a1), a2) by {}
}

/// A sum over one more slot is the sum so far and that slot's value.
pub proof fn lemma_value_sum_insert(
    held: Map<(u32, BalanceType, Seq<char>), Amount>,
    keys: Set<(u32, BalanceType, Seq<char>)>,
    k: (u32, BalanceType, Seq<char>),
)
    requires
        keys.finite(),
        !keys.contains(k),
    ensures
        value_sum(held, keys.insert(k)) == value_sum(held, keys) + held[k].value(),
{
    lemma_add_value_commutes(held);
    lemma_fold_insert(keys, 0int, add_value(held), k);
}

/// The sum over no slot is zero.
pub proof fn lemma_value_sum_empty(held: Map<(u32, BalanceType, Seq<char>), Amount>)
    ensures
        value_sum(held, Set::empty()) == 0,
{
    lemma_fold_empty::<(u32, BalanceType, Seq<char>), int>(0int, add_value(held));
}

/// Where no slot holds less than zero, a sum over some of the slots is at most
/// the sum over all of them.
pub proof fn lemma_value_sum_grows(
    held: Map<(u32, BalanceType, Seq<char>), Amount>,
    part: Set<(u32, BalanceType, Seq<char>)>,
    whole: Set<(u32, BalanceType, Seq<char>)>,
)
    requires
        whole.finite(),
        part.subset_of(whole),
        forall|k: (u32, BalanceType, Seq<char>)| whole.contains(k) ==> held[k].value() >= 0,
    ensures
        value_sum(held, part) <= value_sum(held, whole),
    decreases whole.len(),
{
    if part =~= whole {
    } else {
        let x = choose|x: (u32, BalanceType, Seq<char>)| whole.contains(x) && !part.contains(x);
        let rest = whole.remove(x);
        assert(part.subset_of(rest));
        lemma_value_sum_grows(held, part, rest);
        lemma_value_sum_insert(held, rest, x);
        assert(rest.insert(x) =~= whole);
    }
}

impl BalanceManager {
    /// The totals of the asset can be held: the ledger has no more slots than
    /// a count can tell, and the sum of the asset's balances, written with
    /// the fractional digits that the asset keeps, has a mantissa of 96 bits.
    pub open spec fn status_fits(&self, asset: Seq<char>) -> bool {
        &&& self.balances.len() <= u32::MAX
        &&& value_sum(self@, counted(self@, asset, BalanceType::AVAILABLE)) + value_sum(
            self@,
            counted(self@, asset, BalanceType::FREEZE),
        ) <= largest_value(self.prec(asset))
    }

    /// `status` is what the ledger holds of `asset`: counts and sums of the
    /// slots that are not zero, by state.
    pub open spec fn is_status(&self, asset: Seq<char>, status: BalanceStatus) -> bool {
        &&& status.total.wf()
        &&& status.available.wf()
        &&& status.frozen.wf()
        &&& counted(self@, asset, BalanceType::AVAILABLE).finite()
        &&& counted(self@, asset, BalanceType::FREEZE).finite()
        &&& status.available_count == counted(self@, asset, BalanceType::AVAILABLE).len()
        &&& status.frozen_count == counted(self@, asset, BalanceType::FREEZE).len()
        &&& status.available.value() == value_sum(
            self@,
            counted(self@, asset, BalanceType::AVAILABLE),
        )
        &&& status.frozen.value() == value_sum(self@, counted(self@, asset, BalanceType::FREEZE))
        &&& status.total.value() == status.available.value() + status.frozen.value()
    }

    /// The totals of one asset over every slot that is not zero. `None` only
    /// where the totals cannot be held.
    pub fn status(&self, asset: &str) -> (r: Option<BalanceStatus>)
        requires
            self.wf(),
        ensures
            r is None ==> !self.status_fits(asset@),
            r matches Some(status) ==> self.is_status(asset@, status),
    {
        let wanted = asset.to_owned();
        let mut result = BalanceStatus::default();
        let ghost entries = self.balances@;
        let ghost held = self@;
        let ghost all_a = counted(held, asset@, BalanceType::AVAILABLE);
        let ghost all_f = counted(held, asset@, BalanceType::FREEZE);
        proof {
            lemma_seen_all(entries, asset@, BalanceType::AVAILABLE);
            lemma_seen_all(entries, asset@, BalanceType::FREEZE);
            lemma_value_sum_empty(held);
            lemma_value_sign(0, 0);
        }
        let mut i: usize = 0;
        while i < self.balances.len()
            invariant
                self.wf(),
                entries == self.balances@,
                held == self@,
                wanted@ == asset@,
                all_a == counted(held, asset@, BalanceType::AVAILABLE),
                all_f == counted(held, asset@, BalanceType::FREEZE),
                all_a == seen(entries, entries.len(), asset@, BalanceType::AVAILABLE),
                all_f == seen(entries, entries.len(), asset@, BalanceType::FREEZE),
                all_a.finite(),
                all_f.finite(),
                i <= entries.len(),
                result.total.wf(),
                result.available.wf(),
                result.frozen.wf(),
                result.total.mantissa >= 0,
                result.available.mantissa >= 0,
                result.frozen.mantissa >= 0,
                self.asset_manager@.dom().contains(asset@) ==> result.total.scale <= self.prec(
                    asset@,
                ) && result.available.scale <= self.prec(asset@) && result.frozen.scale
                    <= self.prec(asset@),
                result.available_count == seen(
                    entries,
                    i as nat,
                    asset@,
                    BalanceType::AVAILABLE,
                ).len(),
                result.frozen_count == seen(entries, i as nat, asset@, BalanceType::FREEZE).len(),
                result.available.value() == value_sum(
                    held,
                    seen(entries, i as nat, asset@, BalanceType::AVAILABLE),
                ),
                result.frozen.value() == value_sum(
                    held,
                    seen(entries, i as nat, asset@, BalanceType::FREEZE),
                ),
                result.total.value() == result.available.value() + result.frozen.value(),
            decreases self.balances.len() - i,
        {
            let entry = &self.balances[i];
            let amount = entry.1;
            let ghost k = entry.0@;
            let ghost seen_a = seen(entries, i as nat, asset@, BalanceType::AVAILABLE);
            let ghost seen_f = seen(entries, i as nat, asset@, BalanceType::FREEZE);
            let ghost next_a = seen(entries, (i + 1) as nat, asset@, BalanceType::AVAILABLE);
            let ghost next_f = seen(entries, (i + 1) as nat, asset@, BalanceType::FREEZE);
            proof {
                lemma_seen(entries, i as nat, asset@, BalanceType::AVAILABLE);
                lemma_seen(entries, i as nat, asset@, BalanceType::FREEZE);
                lemma_seen_grows(
                    entries,
                    (i + 1) as nat,
                    entries.len(),
                    asset@,
                    BalanceType::AVAILABLE,
                );
                lemma_seen_grows(entries, (i + 1) as nat, entries.len(), asset@, BalanceType::FREEZE);
                lemma_slot_at(entries, i as int);
                assert(held.dom().contains(k));
                assert forall|j: int| 0 <= j < i implies !holds_key(entries, j, k) by {
                    if holds_key(entries, j, k) {
                        assert(entries[j].0@ != entries[i as int].0@);
                    }
                }
                assert(!seen_a.contains(k));
                assert(!seen_f.contains(k));
                assert forall|q: (u32, BalanceType, Seq<char>)|
                    all_a.contains(q) implies held[q].value() >= 0 by {
                    lemma_value_sign(held[q].mantissa as int, held[q].scale as nat);
                }
                assert forall|q: (u32, BalanceType, Seq<char>)|
                    all_f.contains(q) implies held[q].value() >= 0 by {
                    lemma_value_sign(held[q].mantissa as int, held[q].scale as nat);
                }
                lemma_value_sum_grows(held, next_a, all_a);
                lemma_value_sum_grows(held, next_f, all_f);
                lemma_value_sign(amount.mantissa as int, amount.scale as nat);
            }
            if entry.0.asset == wanted && !amount.is_zero() {
                let ghost dp: nat = if self.prec(asset@) >= MAX_SCALE {
                    MAX_SCALE as nat
                } else {
                    self.prec(asset@)
                };
                proof {
                    lemma_value_sign(result.total.mantissa as int, result.total.scale as nat);
                    lemma_value_sign(
                        result.available.mantissa as int,
                        result.available.scale as nat,
                    );
                    lemma_value_sign(result.frozen.mantissa as int, result.frozen.scale as nat);
                    if entry.0.balance_type == BalanceType::AVAILABLE {
                        lemma_value_sum_insert(held, seen_a, k);
                    } else {
                        lemma_value_sum_insert(held, seen_f, k);
                    }
                    if self.status_fits(asset@) {
                        assert(pow10(0) == 1);
                        assert(largest_value(self.prec(asset@)) == MAX_MANTISSA * pow10(
                            (MAX_SCALE - dp) as nat,
                        ));
                        lemma_sum_fits_within(
                            result.total.mantissa as int,
                            result.total.scale as nat,
                            amount.mantissa as int,
                            amount.scale as nat,
                            dp,
                        );
                        if entry.0.balance_type == BalanceType::AVAILABLE {
                            lemma_sum_fits_within(
                                result.available.mantissa as int,
                                result.available.scale as nat,
                                amount.mantissa as int,
                                amount.scale as nat,
                                dp,
                            );
                        } else {
                            lemma_sum_fits_within(
                                result.frozen.mantissa as int,
                                result.frozen.scale as nat,
                                amount.mantissa as int,
                                amount.scale as nat,
                                dp,
                            );
                        }
                    }
                }
                match result.total.checked_add(&amount) {
                    Some(v) => {
                        result.total = v;
                    },
                    None => {
                        return None;
                    },
                }
                if entry.0.balance_type == BalanceType::AVAILABLE {
                    if result.available_count == u32::MAX {
                        return None;
                    }
                    result.available_count = result.available_count + 1;
                    match result.available.checked_add(&amount) {
                        Some(v) => {
                            result.available = v;
                        },
                        None => {
                            return None;
                        },
                    }
                } else {
                    if result.frozen_count == u32::MAX {
                        return None;
                    }
                    result.frozen_count = result.frozen_count + 1;
                    match result.frozen.checked_add(&amount) {
                        Some(v) => {
                            result.frozen = v;
                        },
                        None => {
                            return None;
                        },
                    }
                }
                proof {
                    lemma_value_sign(result.total.mantissa as int, result.total.scale as nat);
                    lemma_value_sign(
                        result.available.mantissa as int,
                        result.available.scale as nat,
                    );
                    lemma_value_sign(result.frozen.mantissa as int, result.frozen.scale as nat);
                }
            }
            i = i + 1;
        }
        Some(result)
    }
}

} // verus!
