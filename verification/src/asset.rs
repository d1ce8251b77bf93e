//! The asset registry: which assets exist, and at what precision.

use crate::config::Asset;
use vstd::prelude::*;

verus! {

/// The two states a holding can be in.
#[allow(non_camel_case_types)]
#[derive(Clone, Copy, Debug, PartialEq, Eq, Hash, Structural)]
pub enum BalanceType {
    AVAILABLE,
    FREEZE,
}

impl BalanceType {
    /// The number under which the state is stored.
    pub open spec fn spec_code(self) -> i16 {
        match self {
            BalanceType::AVAILABLE => 1i16,
            BalanceType::FREEZE => 2i16,
        }
    }

    /// The number under which the state is stored: 1 for available, 2 for
    /// frozen.
    pub fn code(self) -> (r: i16)
        ensures
            r == self.spec_code(),
    {
        match self {
            BalanceType::AVAILABLE => 1,
            BalanceType::FREEZE => 2,
        }
    }

    /// The state stored under `code`, if there is one.
    pub fn from_code(code: i16) -> (r: Option<BalanceType>)
        ensures
            r matches Some(t) ==> t.spec_code() == code,
            r is None <==> code != 1 && code != 2,
    {
        if code == 1 {
            Some(BalanceType::AVAILABLE)
        } else if code == 2 {
            Some(BalanceType::FREEZE)
        } else {
            None
        }
    }
}

/// The identity of one ledger slot.
#[derive(Clone, Debug, PartialEq, Eq, Hash)]
pub struct BalanceMapKey {
    pub user_id: u32,
    pub balance_type: BalanceType,
    pub asset: String,
}

impl View for BalanceMapKey {
    type V = (u32, BalanceType, Seq<char>);

    open spec fn view(&self) -> (u32, BalanceType, Seq<char>) {
        (self.user_id, self.balance_type, self.asset@)
    }
}

/// The precisions of one asset.
#[derive(Clone, Copy, Debug, PartialEq, Eq, Hash, Structural)]
pub struct AssetInfo {
    pub prec_save: u32,
    pub prec_show: u32,
}

/// What a list of registry entries says of each name: a later entry replaces
/// an earlier one of the same name.
pub open spec fn registry_of(entries: Seq<(String, AssetInfo)>) -> Map<Seq<char>, AssetInfo>
    decreases entries.len(),
{
    if entries.len() == 0 {
        Map::empty()
    } else {
        registry_of(entries.drop_last()).insert(entries.last().0@, entries.last().1)
    }
}

/// What a list of descriptors says of each name: a later descriptor replaces
/// an earlier one of the same name.
pub open spec fn registry_of_config(config: Seq<Asset>) -> Map<Seq<char>, AssetInfo>
    decreases config.len(),
{
    if config.len() == 0 {
        Map::empty()
    } else {
        registry_of_config(config.drop_last()).insert(
            config.last().name@,
            AssetInfo { prec_save: config.last().prec_save, prec_show: config.last().prec_show },
        )
    }
}

/// No name occurs twice in the list.
pub open spec fn distinct_names(entries: Seq<(String, AssetInfo)>) -> bool {
    forall|i: int, j: int|
        0 <= i < j < entries.len() ==> (#[trigger] entries[i]).0@ != (#[trigger] entries[j]).0@
}

/// The names that a list of entries decides are the names of its entries.
pub proof fn lemma_registry_names(entries: Seq<(String, AssetInfo)>, name: Seq<char>)
    ensures
        registry_of(entries).dom().contains(name) <==> exists|j: int|
            0 <= j < entries.len() && (#[trigger] entries[j]).0@ == name,
    decreases entries.len(),
{
    if entries.len() > 0 {
        let front = entries.drop_last();
        lemma_registry_names(front, name);
        if registry_of(entries).dom().contains(name) {
            if entries.last().0@ == name {
                assert(entries[entries.len() - 1].0@ == name);
            } else {
                let j = choose|j: int| 0 <= j < front.len() && (#[trigger] front[j]).0@ == name;
                assert(entries[j].0@ == name);
            }
        }
        if exists|j: int| 0 <= j < entries.len() && (#[trigger] entries[j]).0@ == name {
            let j = choose|j: int| 0 <= j < entries.len() && (#[trigger] entries[j]).0@ == name;
            if j < front.len() {
                assert(front[j].0@ == name);
            }
        }
    }
}

/// In a list without a repeated name, putting a new entry in the place of the
/// one of its name changes what the list says of that name, and nothing else.
pub proof fn lemma_registry_replace(
    entries: Seq<(String, AssetInfo)>,
    i: int,
    entry: (String, AssetInfo),
)
    requires
        distinct_names(entries),
        0 <= i < entries.len(),
        entry.0@ == entries[i].0@,
    ensures
        registry_of(entries.update(i, entry)) == registry_of(entries).insert(entry.0@, entry.1),
        distinct_names(entries.update(i, entry)),
    decreases entries.len(),
{
    let after = entries.update(i, entry);
    assert forall|a: int, b: int| 0 <= a < b < after.len() implies (#[trigger] after[a]).0@ != (
    #[trigger] after[b]).0@ by {
        assert(entries[a].0@ != entries[b].0@);
    }
    let front = entries.drop_last();
    let last = entries.last();
    if i == entries.len() - 1 {
        assert(after.drop_last() == front);
        assert(registry_of(after) =~= registry_of(entries).insert(entry.0@, entry.1));
    } else {
        assert(distinct_names(front)) by {
            assert forall|a: int, b: int| 0 <= a < b < front.len() implies (#[trigger] front[a]).0@
                != (#[trigger] front[b]).0@ by {
                assert(entries[a].0@ != entries[b].0@);
            }
        }
        lemma_registry_replace(front, i, entry);
        assert(after.drop_last() == front.update(i, entry));
        assert(after.last() == last);
        assert(entries[i].0@ != entries[entries.len() - 1].0@);
        assert(registry_of(after) =~= registry_of(entries).insert(entry.0@, entry.1));
    }
}

/// A list without a repeated name decides as many names as it has entries.
pub proof fn lemma_registry_len(entries: Seq<(String, AssetInfo)>)
    requires
        distinct_names(entries),
    ensures
        registry_of(entries).dom().finite(),
        registry_of(entries).dom().len() == entries.len(),
    decreases entries.len(),
{
    if entries.len() > 0 {
        let front = entries.drop_last();
        assert(distinct_names(front)) by {
            assert forall|a: int, b: int| 0 <= a < b < front.len() implies (#[trigger] front[a]).0@
                != (#[trigger] front[b]).0@ by {
                assert(entries[a].0@ != entries[b].0@);
            }
        }
        lemma_registry_len(front);
        lemma_registry_names(front, entries.last().0@);
        if registry_of(front).dom().contains(entries.last().0@) {
            let j = choose|j: int|
                0 <= j < front.len() && (#[trigger] front[j]).0@ == entries.last().0@;
            assert(entries[j].0@ != entries[entries.len() - 1].0@);
        }
        assert(registry_of(entries).dom() =~= registry_of(front).dom().insert(entries.last().0@));
    } else {
        assert(registry_of(entries).dom() =~= Set::<Seq<char>>::empty());
    }
}

/// The registry of assets, fixed once built: one entry for each name.
#[derive(Clone, Debug)]
pub struct AssetManager {
    pub assets: Vec<(String, AssetInfo)>,
}

impl View for AssetManager {
    type V = Map<Seq<char>, AssetInfo>;

    open spec fn view(&self) -> Map<Seq<char>, AssetInfo> {
        registry_of(self.assets@)
    }
}

impl AssetManager {
    /// No name has two entries.
    pub open spec fn wf(&self) -> bool {
        distinct_names(self.assets@)
    }

    /// The registry that the descriptors give, taken in order. A descriptor
    /// of a name that came before takes the place of the earlier one, so that
    /// the registry has one entry for each name.
    pub fn new(asset_config: &[Asset]) -> (r: AssetManager)
        ensures
            r.wf(),
            r@ == registry_of_config(asset_config@),
            r@.dom().finite(),
            r.assets@.len() == r@.dom().len(),
    {
        let mut r = AssetManager { assets: Vec::new() };
        let mut i: usize = 0;
        while i < asset_config.len()
            invariant
                i <= asset_config.len(),
                r.wf(),
                r@ == registry_of_config(asset_config@.take(i as int)),
            decreases asset_config.len() - i,
        {
            let item = &asset_config[i];
            proof {
                assert(asset_config@.take(i + 1).drop_last() == asset_config@.take(i as int));
            }
            r.register(
                item.name.clone(),
                AssetInfo { prec_save: item.prec_save, prec_show: item.prec_show },
            );
            i = i + 1;
        }
        proof {
            assert(asset_config@.take(i as int) == asset_config@);
            lemma_registry_len(r.assets@);
        }
        r
    }

    /// Gives `name` the precisions `info`, in place of what it had.
    fn register(&mut self, name: String, info: AssetInfo)
        requires
            old(self).wf(),
        ensures
            final(self).wf(),
            final(self)@ == old(self)@.insert(name@, info),
    {
        let ghost before = self.assets@;
        match self.position(name.as_str()) {
            Some(i) => {
                self.assets[i] = (name, info);
                proof {
                    lemma_registry_replace(before, i as int, self.assets@[i as int]);
                    assert(self.assets@ == before.update(i as int, self.assets@[i as int]));
                }
            },
            None => {
                self.assets.push((name, info));
                proof {
                    let after = self.assets@;
                    assert(after.drop_last() == before);
                    lemma_registry_names(before, name@);
                    assert forall|a: int, b: int| 0 <= a < b < after.len() implies (
                    #[trigger] after[a]).0@ != (#[trigger] after[b]).0@ by {
                        if b < before.len() {
                            assert(before[a].0@ != before[b].0@);
                        } else {
                            assert(before[a].0@ != name@);
                        }
                    }
                }
            },
        }
    }

    /// The place of the entry that decides `name`.
    fn position(&self, name: &str) -> (r: Option<usize>)
        ensures
            r is Some <==> self@.dom().contains(name@),
            r matches Some(i) ==> i < self.assets.len() && self.assets[i as int].0@ == name@
                && self.assets[i as int].1 == self@[name@],
    {
        let owned = name.to_owned();
        let mut found: Option<usize> = None;
        let mut i: usize = 0;
        while i < self.assets.len()
            invariant
                i <= self.assets.len(),
                owned@ == name@,
                found is Some <==> registry_of(self.assets@.take(i as int)).dom().contains(name@),
                found matches Some(j) ==> j < i && self.assets[j as int].0@ == name@
                    && self.assets[j as int].1 == registry_of(self.assets@.take(i as int))[name@],
            decreases self.assets.len() - i,
        {
            proof {
                assert(self.assets@.take(i + 1).drop_last() == self.assets@.take(i as int));
            }
            if self.assets[i].0 == owned {
                found = Some(i);
            }
            i = i + 1;
        }
        proof {
            assert(self.assets@.take(i as int) == self.assets@);
        }
        found
    }

    /// Whether the asset is registered.
    pub fn asset_exist(&self, name: &str) -> (r: bool)
        ensures
            r == self@.dom().contains(name@),
    {
        self.position(name).is_some()
    }

    /// The precisions of the asset, if it is registered.
    pub fn asset_get(&self, name: &str) -> (r: Option<&AssetInfo>)
        ensures
            r is Some <==> self@.dom().contains(name@),
            r matches Some(info) ==> *info == self@[name@],
    {
        match self.position(name) {
            Some(i) => Some(&self.assets[i].1),
            None => None,
        }
    }

    /// The number of fractional digits that balances of the asset keep.
    pub fn asset_prec(&self, name: &str) -> (r: u32)
        requires
            self@.dom().contains(name@),
        ensures
            r == self@[name@].prec_save,
    {
        match self.position(name) {
            Some(i) => self.assets[i].1.prec_save,
            None => 0,
        }
    }

    /// The number of fractional digits of the asset shown to users.
    pub fn asset_prec_show(&self, name: &str) -> (r: u32)
        requires
            self@.dom().contains(name@),
        ensures
            r == self@[name@].prec_show,
    {
        match self.position(name) {
            Some(i) => self.assets[i].1.prec_show,
            None => 0,
        }
    }
}

} // verus!
