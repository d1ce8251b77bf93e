//! The ledger: one non-negative amount per user, state and asset.

use crate::asset::{AssetInfo, AssetManager, BalanceMapKey, BalanceType};
use crate::config::Asset;
use crate::decimal::{lemma_value_sign, max_scale, Amount};
use vstd::pervasive::unreached;
use vstd::prelude::*;

verus! {

/// What a list of slots holds under each key: the amount of the entry with
/// that key.
pub open spec fn slots(entries: Seq<(BalanceMapKey, Amount)>) -> Map<
    (u32, BalanceType, Seq<char>),
    Amount,
> {
    Map::new(
        |k: (u32, BalanceType, Seq<char>)| exists|i: int| holds_key(entries, i, k),
        |k: (u32, BalanceType, Seq<char>)| entries[choose|i: int| holds_key(entries, i, k)].1,
    )
}

/// Entry `i` of the list has key `k`.
pub open spec fn holds_key(
    entries: Seq<(BalanceMapKey, Amount)>,
    i: int,
    k: (u32, BalanceType, Seq<char>),
) -> bool {
    0 <= i < entries.len() && entries[i].0@ == k
}

/// No key occurs twice in the list.
pub open spec fn distinct_keys(entries: Seq<(BalanceMapKey, Amount)>) -> bool {
    forall|i: int, j: int|
        0 <= i < j < entries.len() ==> (#[trigger] entries[i]).0@ != (#[trigger] entries[j]).0@
}

/// What the ledger asks of a stored amount: it is a decimal, zero or more, of
/// a registered asset, with no more fractional digits than the asset keeps.
pub open spec fn slot_ok(
    registry: Map<Seq<char>, AssetInfo>,
    key: (u32, BalanceType, Seq<char>),
    amount: Amount,
) -> bool {
    &&& amount.wf()
    &&& amount.mantissa >= 0
    &&& registry.dom().contains(key.2)
    &&& amount.scale <= registry[key.2].prec_save
}

/// The amount under `key`: zero where nothing is stored.
pub open spec fn balance_of(
    held: Map<(u32, BalanceType, Seq<char>), Amount>,
    key: (u32, BalanceType, Seq<char>),
) -> Amount {
    if held.dom().contains(key) {
        held[key]
    } else {
        Amount { mantissa: 0, scale: 0 }
    }
}

/// With distinct keys, the list holds each entry's amount under its key.
pub proof fn lemma_slot_at(entries: Seq<(BalanceMapKey, Amount)>, i: int)
    requires
        distinct_keys(entries),
        0 <= i < entries.len(),
    ensures
        slots(entries).dom().contains(entries[i].0@),
        slots(entries)[entries[i].0@] == entries[i].1,
{
    let k = entries[i].0@;
    assert(holds_key(entries, i, k));
    let j = choose|j: int| holds_key(entries, j, k);
    assert(holds_key(entries, j, k));
    if j < i {
        assert(entries[j].0@ != entries[i].0@);
    } else if i < j {
        assert(entries[i].0@ != entries[j].0@);
    }
}

/// The balance store.
pub struct BalanceManager {
    pub asset_manager: AssetManager,
    pub balances: Vec<(BalanceMapKey, Amount)>,
}

impl View for BalanceManager {
    type V = Map<(u32, BalanceType, Seq<char>), Amount>;

    open spec fn view(&self) -> Map<(u32, BalanceType, Seq<char>), Amount> {
        slots(self.balances@)
    }
}

impl BalanceManager {
    /// The registry has one entry for each name, every slot is stored once,
    /// and every stored amount is a non-negative decimal of a registered
    /// asset within that asset's precision.
    pub open spec fn wf(&self) -> bool {
        &&& self.asset_manager.wf()
        &&& distinct_keys(self.balances@)
        &&& forall|k: (u32, BalanceType, Seq<char>)| #[trigger]
            self@.dom().contains(k) ==> slot_ok(self.asset_manager@, k, self@[k])
    }

    /// The amount of a slot: zero where nothing is stored.
    pub open spec fn balance(&self, key: (u32, BalanceType, Seq<char>)) -> Amount {
        balance_of(self@, key)
    }

    /// The number of fractional digits that balances of the asset keep.
    pub open spec fn prec(&self, asset: Seq<char>) -> nat {
        self.asset_manager@[asset].prec_save as nat
    }

    /// An empty ledger over the registry that the descriptors give.
    pub fn new(asset_config: &[Asset]) -> (r: BalanceManager)
        ensures
            r.wf(),
            r@ == Map::<(u32, BalanceType, Seq<char>), Amount>::empty(),
            r.asset_manager@ == crate::asset::registry_of_config(asset_config@),
    {
        let asset_manager = AssetManager::new(asset_config);
        let r = BalanceManager { asset_manager, balances: Vec::new() };
        assert(r@ =~= Map::<(u32, BalanceType, Seq<char>), Amount>::empty());
        r
    }

    /// Forgets every balance.
    pub fn reset(&mut self)
        ensures
            old(self).asset_manager.wf() ==> final(self).wf(),
            final(self)@ == Map::<(u32, BalanceType, Seq<char>), Amount>::empty(),
            final(self).asset_manager == old(self).asset_manager,
    {
        self.balances.clear();
        assert(self@ =~= Map::<(u32, BalanceType, Seq<char>), Amount>::empty());
    }

    /// The place of the slot in the list, if it is stored.
    fn find(&self, key: &BalanceMapKey) -> (r: Option<usize>)
        ensures
            r matches Some(i) ==> holds_key(self.balances@, i as int, key@),
            r is None ==> forall|i: int| !holds_key(self.balances@, i, key@),
            r is Some <==> self@.dom().contains(key@),
    {
        let mut i: usize = 0;
        while i < self.balances.len()
            invariant
                i <= self.balances.len(),
                forall|j: int| 0 <= j < i ==> !holds_key(self.balances@, j, key@),
            decreases self.balances.len() - i,
        {
            let entry = &self.balances[i];
            if entry.0.user_id == key.user_id && entry.0.balance_type == key.balance_type
                && entry.0.asset == key.asset {
                assert(holds_key(self.balances@, i as int, key@));
                return Some(i);
            }
            i = i + 1;
        }
        None
    }

    /// The amount of the slot: zero where nothing is stored.
    pub fn get_by_key(&self, key: &BalanceMapKey) -> (r: Amount)
        requires
            self.wf(),
        ensures
            r == self.balance(key@),
            r.wf(),
            r.mantissa >= 0,
    {
        match self.find(key) {
            Some(i) => {
                proof {
                    lemma_slot_at(self.balances@, i as int);
                }
                self.balances[i].1
            },
            None => Amount::zero(),
        }
    }

    /// The amount that the user holds of the asset in the given state: zero
    /// where nothing was stored.
    pub fn get(&self, user_id: u32, balance_type: BalanceType, asset: &str) -> (r: Amount)
        requires
            self.wf(),
        ensures
            r == self.balance((user_id, balance_type, asset@)),
            !self@.dom().contains((user_id, balance_type, asset@)) ==> r == (Amount {
                mantissa: 0,
                scale: 0,
            }),
            r.wf(),
            r.mantissa >= 0,
    {
        self.get_by_key(&BalanceMapKey { user_id, balance_type, asset: asset.to_owned() })
    }

    /// The amount as shown to users: rounded to the asset's display precision
    /// where that differs from the precision kept.
    pub fn get_with_round(&self, user_id: u32, balance_type: BalanceType, asset: &str) -> (r:
        Amount)
        requires
            self.wf(),
            self.asset_manager@.dom().contains(asset@),
        ensures
            r.wf(),
            r == if self.asset_manager@[asset@].prec_save == self.asset_manager@[asset@].prec_show {
                self.balance((user_id, balance_type, asset@))
            } else {
                self.balance((user_id, balance_type, asset@)).rounded(
                    self.asset_manager@[asset@].prec_show as nat,
                )
            },
    {
        let balance = self.get(user_id, balance_type, asset);
        let prec_save = self.asset_manager.asset_prec(asset);
        let prec_show = self.asset_manager.asset_prec_show(asset);
        if prec_save == prec_show {
            balance
        } else {
            balance.round_dp(prec_show)
        }
    }

    /// Puts `amount` under `key`, in place of what was there.
    fn store(&mut self, key: BalanceMapKey, amount: Amount)
        requires
            distinct_keys(old(self).balances@),
        ensures
            distinct_keys(final(self).balances@),
            final(self)@ == old(self)@.insert(key@, amount),
            final(self).asset_manager == old(self).asset_manager,
    {
        let ghost before = self.balances@;
        let ghost k = key@;
        match self.find(&key) {
            Some(i) => {
                self.balances[i] = (key, amount);
                let ghost after = self.balances@;
                assert(after == before.update(i as int, after[i as int]));
                assert forall|j: int| 0 <= j < after.len() implies (#[trigger] after[j]).0@
                    == before[j].0@ by {}
                assert(distinct_keys(after)) by {
                    assert forall|a: int, b: int| 0 <= a < b < after.len() implies (
                    #[trigger] after[a]).0@ != (#[trigger] after[b]).0@ by {
                        assert(before[a].0@ != before[b].0@);
                    }
                }
                assert forall|q: (u32, BalanceType, Seq<char>)|
                    slots(after).dom().contains(q) == slots(before).insert(
                        k,
                        amount,
                    ).dom().contains(q) by {
                    if slots(after).dom().contains(q) {
                        let j = choose|j: int| holds_key(after, j, q);
                        assert(holds_key(before, j, q));
                    }
                    if slots(before).dom().contains(q) {
                        let j = choose|j: int| holds_key(before, j, q);
                        assert(holds_key(after, j, q));
                    }
                    if q == k {
                        assert(holds_key(after, i as int, q));
                    }
                }
                assert forall|q: (u32, BalanceType, Seq<char>)|
                    slots(after).dom().contains(q) implies #[trigger] slots(after)[q] == slots(
                    before,
                ).insert(k, amount)[q] by {
                    let j = choose|j: int| holds_key(after, j, q);
                    lemma_slot_at(after, j);
                    if q != k {
                        assert(j != i);
                        lemma_slot_at(before, j);
                    } else {
                        lemma_slot_at(after, i as int);
                    }
                }
                assert(slots(after) =~= slots(before).insert(k, amount));
            },
            None => {
                self.balances.push((key, amount));
                let ghost after = self.balances@;
                let ghost n = before.len() as int;
                assert(after == before.push(after[n]));
                assert(distinct_keys(after)) by {
                    assert forall|a: int, b: int| 0 <= a < b < after.len() implies (
                    #[trigger] after[a]).0@ != (#[trigger] after[b]).0@ by {
                        if b < n {
                            assert(before[a].0@ != before[b].0@);
                        } else {
                            assert(!holds_key(before, a, k));
                        }
                    }
                }
                assert forall|q: (u32, BalanceType, Seq<char>)|
                    slots(after).dom().contains(q) == slots(before).insert(
                        k,
                        amount,
                    ).dom().contains(q) by {
                    if slots(after).dom().contains(q) {
                        let j = choose|j: int| holds_key(after, j, q);
                        if j < n {
                            assert(holds_key(before, j, q));
                        }
                    }
                    if slots(before).dom().contains(q) {
                        let j = choose|j: int| holds_key(before, j, q);
                        assert(holds_key(after, j, q));
                    }
                    if q == k {
                        assert(holds_key(after, n, q));
                    }
                }
                assert forall|q: (u32, BalanceType, Seq<char>)|
                    slots(after).dom().contains(q) implies #[trigger] slots(after)[q] == slots(
                    before,
                ).insert(k, amount)[q] by {
                    let j = choose|j: int| holds_key(after, j, q);
                    lemma_slot_at(after, j);
                    if q != k {
                        assert(j < n);
                        lemma_slot_at(before, j);
                    } else {
                        lemma_slot_at(after, n);
                    }
                }
                assert(slots(after) =~= slots(before).insert(k, amount));
            },
        }
    }

    /// Removes the slot, so that it reads as zero.
    pub fn del(&mut self, user_id: u32, balance_type: BalanceType, asset: &str)
        requires
            old(self).wf(),
        ensures
            final(self).wf(),
            final(self)@ == old(self)@.remove((user_id, balance_type, asset@)),
            final(self).asset_manager == old(self).asset_manager,
    {
        let key = BalanceMapKey { user_id, balance_type, asset: asset.to_owned() };
        let ghost before = self.balances@;
        let ghost k = key@;
        match self.find(&key) {
            Some(i) => {
                self.balances.remove(i);
                let ghost after = self.balances@;
                let ghost n = i as int;
                assert(after == before.remove(n));
                assert(distinct_keys(after)) by {
                    assert forall|a: int, b: int| 0 <= a < b < after.len() implies (
                    #[trigger] after[a]).0@ != (#[trigger] after[b]).0@ by {
                        let a0 = if a < n {
                            a
                        } else {
                            a + 1
                        };
                        let b0 = if b < n {
                            b
                        } else {
                            b + 1
                        };
                        assert(before[a0].0@ != before[b0].0@);
                    }
                }
                assert forall|q: (u32, BalanceType, Seq<char>)|
                    slots(after).dom().contains(q) == slots(before).remove(k).dom().contains(
                        q,
                    ) by {
                    if slots(after).dom().contains(q) {
                        let j = choose|j: int| holds_key(after, j, q);
                        let j0 = if j < n {
                            j
                        } else {
                            j + 1
                        };
                        assert(holds_key(before, j0, q));
                        if q == k {
                            if j0 < n {
                                assert(before[j0].0@ != before[n].0@);
                            } else {
                                assert(before[n].0@ != before[j0].0@);
                            }
                        }
                    }
                    if slots(before).dom().contains(q) && q != k {
                        let j = choose|j: int| holds_key(before, j, q);
                        let j1 = if j < n {
                            j
                        } else {
                            j - 1
                        };
                        assert(holds_key(after, j1, q));
                    }
                }
                assert forall|q: (u32, BalanceType, Seq<char>)|
                    slots(after).dom().contains(q) implies #[trigger] slots(after)[q] == slots(
                    before,
                ).remove(k)[q] by {
                    let j = choose|j: int| holds_key(after, j, q);
                    let j0 = if j < n {
                        j
                    } else {
                        j + 1
                    };
                    lemma_slot_at(after, j);
                    lemma_slot_at(before, j0);
                }
                assert(slots(after) =~= slots(before).remove(k));
            },
            None => {
                assert(slots(before) =~= slots(before).remove(k));
            },
        }
    }

    /// Stores `amount`, rounded to the asset's precision, in place of what the
    /// slot held.
    pub fn set(&mut self, user_id: u32, balance_type: BalanceType, asset: &str, amount: &Amount)
        requires
            old(self).wf(),
            amount.wf(),
            amount.mantissa >= 0,
            old(self).asset_manager@.dom().contains(asset@),
        ensures
            final(self).wf(),
            final(self)@ == old(self)@.insert(
                (user_id, balance_type, asset@),
                amount.rounded(old(self).prec(asset@)),
            ),
            final(self).asset_manager == old(self).asset_manager,
    {
        let key = BalanceMapKey { user_id, balance_type, asset: asset.to_owned() };
        self.set_by_key(key, amount);
    }

    /// Stores `amount`, rounded to the asset's precision, in place of what the
    /// slot held.
    pub fn set_by_key(&mut self, key: BalanceMapKey, amount: &Amount)
        requires
            old(self).wf(),
            amount.wf(),
            amount.mantissa >= 0,
            old(self).asset_manager@.dom().contains(key.asset@),
        ensures
            final(self).wf(),
            final(self)@ == old(self)@.insert(key@, amount.rounded(old(self).prec(key.asset@))),
            final(self).asset_manager == old(self).asset_manager,
    {
        let prec = self.asset_manager.asset_prec(key.asset.as_str());
        let amount = amount.round_dp(prec);
        self.store(key, amount);
    }
}

impl BalanceManager {
    /// Adds `amount`, rounded to the asset's precision, to the slot, and
    /// returns the new balance.
    pub fn add(&mut self, user_id: u32, balance_type: BalanceType, asset: &str, amount: &Amount) -> (r:
        Amount)
        requires
            old(self).wf(),
            amount.wf(),
            amount.mantissa >= 0,
            old(self).asset_manager@.dom().contains(asset@),
            old(self).balance((user_id, balance_type, asset@)).can_add(
                &amount.rounded(old(self).prec(asset@)),
            ),
        ensures
            final(self).wf(),
            final(self)@ == old(self)@.insert((user_id, balance_type, asset@), r),
            changed_by(
                *old(self),
                *final(self),
                (user_id, balance_type, asset@),
                amount.rounded(old(self).prec(asset@)).value(),
            ),
            r.wf(),
            r.mantissa >= 0,
            r.scale <= old(self).prec(asset@),
            r.scale <= max_scale(
                old(self).balance((user_id, balance_type, asset@)).scale as nat,
                amount.rounded(old(self).prec(asset@)).scale as nat,
            ),
    {
        let prec = self.asset_manager.asset_prec(asset);
        let amount = amount.round_dp(prec);
        let key = BalanceMapKey { user_id, balance_type, asset: asset.to_owned() };
        let old_value = self.get_by_key(&key);
        let ghost before = self@;
        let new_value = match old_value.checked_add(&amount) {
            Some(v) => v,
            None => unreached(),
        };
        proof {
            lemma_value_sign(old_value.mantissa as int, old_value.scale as nat);
            lemma_value_sign(amount.mantissa as int, amount.scale as nat);
            lemma_value_sign(new_value.mantissa as int, new_value.scale as nat);
        }
        self.set_by_key(key, &new_value);
        proof {
            let slot = (user_id, balance_type, asset@);
            assert(self@.remove(slot) =~= before.remove(slot));
        }
        new_value
    }

    /// Takes `amount`, rounded to the asset's precision, from the slot, and
    /// returns the new balance. The slot stays stored where it reaches zero.
    pub fn sub(&mut self, user_id: u32, balance_type: BalanceType, asset: &str, amount: &Amount) -> (r:
        Amount)
        requires
            old(self).wf(),
            amount.wf(),
            amount.mantissa >= 0,
            old(self).asset_manager@.dom().contains(asset@),
            old(self).balance((user_id, balance_type, asset@)).value() >= amount.rounded(
                old(self).prec(asset@),
            ).value(),
            old(self).balance((user_id, balance_type, asset@)).can_sub(
                &amount.rounded(old(self).prec(asset@)),
            ),
        ensures
            final(self).wf(),
            final(self)@ == old(self)@.insert((user_id, balance_type, asset@), r),
            changed_by(
                *old(self),
                *final(self),
                (user_id, balance_type, asset@),
                -amount.rounded(old(self).prec(asset@)).value(),
            ),
            r.wf(),
            r.mantissa >= 0,
            r.scale <= old(self).prec(asset@),
            r.scale <= max_scale(
                old(self).balance((user_id, balance_type, asset@)).scale as nat,
                amount.rounded(old(self).prec(asset@)).scale as nat,
            ),
    {
        let prec = self.asset_manager.asset_prec(asset);
        let amount = amount.round_dp(prec);
        let key = BalanceMapKey { user_id, balance_type, asset: asset.to_owned() };
        let old_value = self.get_by_key(&key);
        let ghost before = self@;
        let new_value = match old_value.checked_sub(&amount) {
            Some(v) => v,
            None => unreached(),
        };
        proof {
            lemma_value_sign(new_value.mantissa as int, new_value.scale as nat);
        }
        self.set_by_key(key, &new_value);
        proof {
            let slot = (user_id, balance_type, asset@);
            assert(self@.remove(slot) =~= before.remove(slot));
        }
        new_value
    }

    /// Moves `amount`, rounded to the asset's precision, from the user's
    /// available balance to the frozen one.
    pub fn frozen(&mut self, user_id: u32, asset: &str, amount: &Amount)
        requires
            old(self).wf(),
            amount.wf(),
            amount.mantissa >= 0,
            old(self).asset_manager@.dom().contains(asset@),
            old(self).balance((user_id, BalanceType::AVAILABLE, asset@)).value()
                >= amount.rounded(old(self).prec(asset@)).value(),
            old(self).balance((user_id, BalanceType::AVAILABLE, asset@)).can_sub(
                &amount.rounded(old(self).prec(asset@)),
            ),
            old(self).balance((user_id, BalanceType::FREEZE, asset@)).can_add(
                &amount.rounded(old(self).prec(asset@)),
            ),
        ensures
            final(self).wf(),
            final(self).asset_manager == old(self).asset_manager,
            moved(
                old(self)@,
                final(self)@,
                (user_id, BalanceType::AVAILABLE, asset@),
                (user_id, BalanceType::FREEZE, asset@),
                amount.rounded(old(self).prec(asset@)),
            ),
    {
        let prec = self.asset_manager.asset_prec(asset);
        let amount = amount.round_dp(prec);
        let ghost before = self@;
        let left = self.sub(user_id, BalanceType::AVAILABLE, asset, &amount);
        let held = self.add(user_id, BalanceType::FREEZE, asset, &amount);
        proof {
            let from = (user_id, BalanceType::AVAILABLE, asset@);
            let to = (user_id, BalanceType::FREEZE, asset@);
            assert(self@ == before.insert(from, left).insert(to, held));
            assert(self@.remove(from).remove(to) =~= before.remove(from).remove(to));
        }
    }

    /// Moves `amount`, rounded to the asset's precision, from the user's
    /// frozen balance back to the available one.
    pub fn unfrozen(&mut self, user_id: u32, asset: &str, amount: &Amount)
        requires
            old(self).wf(),
            amount.wf(),
            amount.mantissa >= 0,
            old(self).asset_manager@.dom().contains(asset@),
            old(self).balance((user_id, BalanceType::FREEZE, asset@)).value() >= amount.rounded(
                old(self).prec(asset@),
            ).value(),
            old(self).balance((user_id, BalanceType::FREEZE, asset@)).can_sub(
                &amount.rounded(old(self).prec(asset@)),
            ),
            old(self).balance((user_id, BalanceType::AVAILABLE, asset@)).can_add(
                &amount.rounded(old(self).prec(asset@)),
            ),
        ensures
            final(self).wf(),
            final(self).asset_manager == old(self).asset_manager,
            moved(
                old(self)@,
                final(self)@,
                (user_id, BalanceType::FREEZE, asset@),
                (user_id, BalanceType::AVAILABLE, asset@),
                amount.rounded(old(self).prec(asset@)),
            ),
    {
        let prec = self.asset_manager.asset_prec(asset);
        let amount = amount.round_dp(prec);
        let ghost before = self@;
        let left = self.sub(user_id, BalanceType::FREEZE, asset, &amount);
        let held = self.add(user_id, BalanceType::AVAILABLE, asset, &amount);
        proof {
            let from = (user_id, BalanceType::FREEZE, asset@);
            let to = (user_id, BalanceType::AVAILABLE, asset@);
            assert(self@ == before.insert(from, left).insert(to, held));
            assert(self@.remove(from).remove(to) =~= before.remove(from).remove(to));
        }
    }

    /// What the user holds of the asset, available and frozen together.
    pub fn total(&self, user_id: u32, asset: &str) -> (r: Amount)
        requires
            self.wf(),
            self.balance((user_id, BalanceType::AVAILABLE, asset@)).can_add(
                &self.balance((user_id, BalanceType::FREEZE, asset@)),
            ),
        ensures
            r.wf(),
            r.value() == self.balance((user_id, BalanceType::AVAILABLE, asset@)).value()
                + self.balance((user_id, BalanceType::FREEZE, asset@)).value(),
    {
        let available = self.get(user_id, BalanceType::AVAILABLE, asset);
        let frozen = self.get(user_id, BalanceType::FREEZE, asset);
        match available.checked_add(&frozen) {
            Some(v) => v,
            None => unreached(),
        }
    }
}

/// `after` is `before` with the value of the slot `key` changed by `delta`:
/// the slot is stored, and every other slot is as it was.
pub open spec fn changed_by(
    before: BalanceManager,
    after: BalanceManager,
    key: (u32, BalanceType, Seq<char>),
    delta: int,
) -> bool {
    &&& after.asset_manager == before.asset_manager
    &&& after@.dom().contains(key)
    &&& after@.remove(key) == before@.remove(key)
    &&& after@[key].value() == before.balance(key).value() + delta
}

/// `after` is `before` with the amount `size` moved from the slot `from` to
/// the slot `to`: both are stored, the one holds that much less, the other
/// that much more, each at a scale no larger than the larger of its old scale
/// and that of `size`, and every other slot is as it was.
pub open spec fn moved(
    before: Map<(u32, BalanceType, Seq<char>), Amount>,
    after: Map<(u32, BalanceType, Seq<char>), Amount>,
    from: (u32, BalanceType, Seq<char>),
    to: (u32, BalanceType, Seq<char>),
    size: Amount,
) -> bool {
    &&& after.dom().contains(from)
    &&& after.dom().contains(to)
    &&& after[from].value() == balance_of(before, from).value() - size.value()
    &&& after[to].value() == balance_of(before, to).value() + size.value()
    &&& after[from].scale <= max_scale(balance_of(before, from).scale as nat, size.scale as nat)
    &&& after[to].scale <= max_scale(balance_of(before, to).scale as nat, size.scale as nat)
    &&& after.remove(from).remove(to) == before.remove(from).remove(to)
}

} // verus!
