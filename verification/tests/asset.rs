use exchange_ledger::asset::{AssetInfo, AssetManager, BalanceMapKey, BalanceType};
use exchange_ledger::config::Asset;

fn asset(name: &str, prec_save: u32, prec_show: u32) -> Asset {
    Asset { name: name.to_string(), prec_save, prec_show }
}

#[test]
fn registry_answers_for_each_descriptor() {
    let registry = AssetManager::new(&[asset("BTC", 8, 4), asset("ETH", 6, 6), asset("USDT", 2, 0)]);
    assert!(registry.asset_exist("BTC"));
    assert!(registry.asset_exist("ETH"));
    assert!(registry.asset_exist("USDT"));
    assert!(!registry.asset_exist("DOGE"));
    assert!(!registry.asset_exist("btc"));
    assert!(!registry.asset_exist(""));
    assert_eq!(registry.asset_get("BTC"), Some(&AssetInfo { prec_save: 8, prec_show: 4 }));
    assert_eq!(registry.asset_get("USDT"), Some(&AssetInfo { prec_save: 2, prec_show: 0 }));
    assert_eq!(registry.asset_get("DOGE"), None);
    assert_eq!(registry.asset_prec("BTC"), 8);
    assert_eq!(registry.asset_prec_show("BTC"), 4);
    assert_eq!(registry.asset_prec("ETH"), 6);
    assert_eq!(registry.asset_prec_show("ETH"), 6);
}

#[test]
fn empty_registry_knows_no_asset() {
    let registry = AssetManager::new(&[]);
    assert!(!registry.asset_exist("BTC"));
    assert_eq!(registry.asset_get("BTC"), None);
}

#[test]
fn later_descriptor_replaces_an_earlier_one() {
    let registry = AssetManager::new(&[asset("BTC", 8, 4), asset("ETH", 6, 6), asset("BTC", 3, 1)]);
    assert_eq!(registry.asset_get("BTC"), Some(&AssetInfo { prec_save: 3, prec_show: 1 }));
    assert_eq!(registry.asset_prec("BTC"), 3);
    assert_eq!(registry.asset_prec_show("BTC"), 1);
    assert_eq!(registry.asset_prec("ETH"), 6);
    assert_eq!(registry.assets.len(), 2);
}

#[test]
fn repeated_name_keeps_one_entry() {
    let registry = AssetManager::new(&[asset("BTC", 8, 4), asset("BTC", 6, 2)]);
    assert_eq!(registry.assets.len(), 1);
    assert_eq!(registry.asset_prec("BTC"), 6);
    assert_eq!(registry.asset_prec_show("BTC"), 2);
    let registry = AssetManager::new(&[
        asset("A", 1, 1),
        asset("B", 2, 2),
        asset("A", 3, 3),
        asset("C", 4, 4),
        asset("B", 5, 5),
        asset("A", 6, 6),
    ]);
    assert_eq!(registry.assets.len(), 3);
    assert_eq!(registry.asset_get("A"), Some(&AssetInfo { prec_save: 6, prec_show: 6 }));
    assert_eq!(registry.asset_get("B"), Some(&AssetInfo { prec_save: 5, prec_show: 5 }));
    assert_eq!(registry.asset_get("C"), Some(&AssetInfo { prec_save: 4, prec_show: 4 }));
}

#[test]
fn precisions_are_not_held_against_each_other() {
    let registry = AssetManager::new(&[asset("ODD", 2, 9)]);
    assert_eq!(registry.asset_prec("ODD"), 2);
    assert_eq!(registry.asset_prec_show("ODD"), 9);
}

#[test]
fn balance_type_codes_are_stable() {
    assert_eq!(BalanceType::AVAILABLE.code(), 1);
    assert_eq!(BalanceType::FREEZE.code(), 2);
    assert_eq!(BalanceType::from_code(1), Some(BalanceType::AVAILABLE));
    assert_eq!(BalanceType::from_code(2), Some(BalanceType::FREEZE));
    assert_eq!(BalanceType::from_code(0), None);
    assert_eq!(BalanceType::from_code(3), None);
    assert_eq!(BalanceType::from_code(-1), None);
}

#[test]
fn balance_keys_compare_by_all_three_parts() {
    let key = BalanceMapKey { user_id: 1, balance_type: BalanceType::AVAILABLE, asset: "BTC".to_string() };
    assert_eq!(key, key.clone());
    assert_ne!(key, BalanceMapKey { user_id: 2, balance_type: BalanceType::AVAILABLE, asset: "BTC".to_string() });
    assert_ne!(key, BalanceMapKey { user_id: 1, balance_type: BalanceType::FREEZE, asset: "BTC".to_string() });
    assert_ne!(key, BalanceMapKey { user_id: 1, balance_type: BalanceType::AVAILABLE, asset: "ETH".to_string() });
}
