use exchange_ledger::asset::{BalanceMapKey, BalanceType};
use exchange_ledger::balance::BalanceManager;
use exchange_ledger::config::Asset;
use exchange_ledger::decimal::{Amount, MAX_MANTISSA};

fn assets() -> Vec<Asset> {
    vec![
        Asset { name: "BTC".to_string(), prec_save: 8, prec_show: 4 },
        Asset { name: "ETH".to_string(), prec_save: 6, prec_show: 6 },
        Asset { name: "WIDE".to_string(), prec_save: 40, prec_show: 2 },
        Asset { name: "UNIT".to_string(), prec_save: 0, prec_show: 0 },
    ]
}

fn dec(mantissa: i128, scale: u32) -> Amount {
    Amount::new(mantissa, scale).unwrap()
}

fn same(a: &Amount, b: &Amount) -> bool {
    a.ge(b) && b.ge(a)
}

fn key(user_id: u32, balance_type: BalanceType, asset: &str) -> BalanceMapKey {
    BalanceMapKey { user_id, balance_type, asset: asset.to_string() }
}

#[test]
fn add_rounds_to_the_store_precision() {
    let mut ledger = BalanceManager::new(&assets());
    let r = ledger.add(1, BalanceType::AVAILABLE, "BTC", &dec(1_123_456_789, 9));
    assert_eq!(r.to_string(), "1.12345679");
    assert_eq!(ledger.get(1, BalanceType::AVAILABLE, "BTC").to_string(), "1.12345679");
    assert_eq!(ledger.get_with_round(1, BalanceType::AVAILABLE, "BTC").to_string(), "1.1235");
}

#[test]
fn freeze_moves_from_available_to_frozen() {
    let mut ledger = BalanceManager::new(&assets());
    ledger.add(1, BalanceType::AVAILABLE, "BTC", &dec(1_123_456_789, 9));
    ledger.frozen(1, "BTC", &dec(5, 1));
    assert_eq!(ledger.get(1, BalanceType::AVAILABLE, "BTC").to_string(), "0.62345679");
    assert!(same(&ledger.get(1, BalanceType::FREEZE, "BTC"), &dec(5, 1)));
    assert_eq!(ledger.get(1, BalanceType::FREEZE, "BTC").to_string(), "0.5");
}

#[test]
fn get_of_a_slot_never_written_is_zero() {
    let mut ledger = BalanceManager::new(&assets());
    let z = ledger.get(7, BalanceType::AVAILABLE, "BTC");
    assert_eq!((z.mantissa, z.scale), (0, 0));
    let z = ledger.get(7, BalanceType::FREEZE, "NOPE");
    assert_eq!((z.mantissa, z.scale), (0, 0));
    let z = ledger.get_by_key(&key(7, BalanceType::FREEZE, "ETH"));
    assert_eq!((z.mantissa, z.scale), (0, 0));
    ledger.add(7, BalanceType::AVAILABLE, "BTC", &dec(1, 0));
    let z = ledger.get(7, BalanceType::FREEZE, "BTC");
    assert_eq!((z.mantissa, z.scale), (0, 0));
    let z = ledger.get(8, BalanceType::AVAILABLE, "BTC");
    assert_eq!((z.mantissa, z.scale), (0, 0));
    let z = ledger.get(7, BalanceType::AVAILABLE, "ETH");
    assert_eq!((z.mantissa, z.scale), (0, 0));
    assert!(ledger.balances.len() == 1);
}

#[test]
fn set_rounds_and_replaces() {
    let mut ledger = BalanceManager::new(&assets());
    ledger.set(1, BalanceType::AVAILABLE, "ETH", &dec(12_345_675, 7));
    let v = ledger.get(1, BalanceType::AVAILABLE, "ETH");
    assert_eq!((v.mantissa, v.scale), (1_234_568, 6));
    ledger.set(1, BalanceType::AVAILABLE, "ETH", &dec(3, 0));
    let v = ledger.get(1, BalanceType::AVAILABLE, "ETH");
    assert_eq!((v.mantissa, v.scale), (3, 0));
    assert_eq!(ledger.balances.len(), 1);
    ledger.set_by_key(key(1, BalanceType::FREEZE, "ETH"), &dec(12_345_665, 7));
    let v = ledger.get_by_key(&key(1, BalanceType::FREEZE, "ETH"));
    assert_eq!((v.mantissa, v.scale), (1_234_566, 6));
    assert_eq!(ledger.balances.len(), 2);
    let v = ledger.get(1, BalanceType::AVAILABLE, "ETH");
    assert_eq!((v.mantissa, v.scale), (3, 0));
}

#[test]
fn stored_amounts_stay_within_the_precision() {
    let mut ledger = BalanceManager::new(&assets());
    ledger.set(1, BalanceType::AVAILABLE, "BTC", &dec(123_456_789_123, 11));
    assert!(ledger.get(1, BalanceType::AVAILABLE, "BTC").scale <= 8);
    ledger.add(1, BalanceType::AVAILABLE, "BTC", &dec(999_999_999_999, 12));
    assert!(ledger.get(1, BalanceType::AVAILABLE, "BTC").scale <= 8);
    ledger.sub(1, BalanceType::AVAILABLE, "BTC", &dec(1_000_000_001, 10));
    assert!(ledger.get(1, BalanceType::AVAILABLE, "BTC").scale <= 8);
    ledger.set(1, BalanceType::AVAILABLE, "UNIT", &dec(25, 1));
    let v = ledger.get(1, BalanceType::AVAILABLE, "UNIT");
    assert_eq!((v.mantissa, v.scale), (2, 0));
    ledger.set(1, BalanceType::AVAILABLE, "WIDE", &dec(MAX_MANTISSA, 28));
    let v = ledger.get(1, BalanceType::AVAILABLE, "WIDE");
    assert_eq!((v.mantissa, v.scale), (MAX_MANTISSA, 28));
}

#[test]
fn add_then_sub_gives_the_prior_value() {
    let mut ledger = BalanceManager::new(&assets());
    ledger.set(1, BalanceType::AVAILABLE, "BTC", &dec(25, 1));
    let x = dec(1_123_456_789, 9);
    let up = ledger.add(1, BalanceType::AVAILABLE, "BTC", &x);
    assert!(same(&up, &dec(362_345_679, 8)));
    let down = ledger.sub(1, BalanceType::AVAILABLE, "BTC", &x);
    assert!(same(&down, &dec(25, 1)));
    assert!(same(&ledger.get(1, BalanceType::AVAILABLE, "BTC"), &dec(25, 1)));
}

#[test]
fn add_then_sub_on_an_empty_slot_leaves_a_stored_zero() {
    let mut ledger = BalanceManager::new(&assets());
    ledger.add(1, BalanceType::AVAILABLE, "BTC", &dec(5, 0));
    let r = ledger.sub(1, BalanceType::AVAILABLE, "BTC", &dec(5, 0));
    assert!(r.is_zero());
    assert_eq!(ledger.balances.len(), 1);
    assert!(ledger.get(1, BalanceType::AVAILABLE, "BTC").is_zero());
}

#[test]
fn add_and_sub_of_zero_change_nothing() {
    let mut ledger = BalanceManager::new(&assets());
    ledger.set(1, BalanceType::AVAILABLE, "BTC", &dec(7, 0));
    let r = ledger.add(1, BalanceType::AVAILABLE, "BTC", &Amount::zero());
    assert!(same(&r, &dec(7, 0)));
    let r = ledger.sub(1, BalanceType::AVAILABLE, "BTC", &dec(0, 3));
    assert!(same(&r, &dec(7, 0)));
    let r = ledger.sub(1, BalanceType::AVAILABLE, "BTC", &dec(4, 9));
    assert!(same(&r, &dec(7, 0)));
}

#[test]
fn sub_can_empty_a_slot() {
    let mut ledger = BalanceManager::new(&assets());
    ledger.set(3, BalanceType::FREEZE, "ETH", &dec(1_500_000, 6));
    let r = ledger.sub(3, BalanceType::FREEZE, "ETH", &dec(15, 1));
    assert!(r.is_zero());
    assert!(r.is_sign_positive());
}

#[test]
fn del_makes_a_slot_read_as_zero() {
    let mut ledger = BalanceManager::new(&assets());
    ledger.set(1, BalanceType::AVAILABLE, "BTC", &dec(7, 0));
    ledger.set(2, BalanceType::AVAILABLE, "BTC", &dec(8, 0));
    ledger.set(1, BalanceType::FREEZE, "BTC", &dec(9, 0));
    ledger.del(1, BalanceType::AVAILABLE, "BTC");
    assert!(ledger.get(1, BalanceType::AVAILABLE, "BTC").is_zero());
    assert!(same(&ledger.get(2, BalanceType::AVAILABLE, "BTC"), &dec(8, 0)));
    assert!(same(&ledger.get(1, BalanceType::FREEZE, "BTC"), &dec(9, 0)));
    assert_eq!(ledger.balances.len(), 2);
    ledger.del(1, BalanceType::AVAILABLE, "BTC");
    ledger.del(5, BalanceType::AVAILABLE, "NOPE");
    assert_eq!(ledger.balances.len(), 2);
}

#[test]
fn reset_forgets_every_balance() {
    let mut ledger = BalanceManager::new(&assets());
    ledger.set(1, BalanceType::AVAILABLE, "BTC", &dec(7, 0));
    ledger.set(2, BalanceType::FREEZE, "ETH", &dec(8, 0));
    ledger.reset();
    assert!(ledger.get(1, BalanceType::AVAILABLE, "BTC").is_zero());
    assert!(ledger.get(2, BalanceType::FREEZE, "ETH").is_zero());
    assert_eq!(ledger.balances.len(), 0);
    assert!(ledger.asset_manager.asset_exist("BTC"));
}

#[test]
fn freeze_then_unfreeze_restores_both() {
    let mut ledger = BalanceManager::new(&assets());
    ledger.set(1, BalanceType::AVAILABLE, "BTC", &dec(112_345_679, 8));
    ledger.set(1, BalanceType::FREEZE, "BTC", &dec(25, 2));
    ledger.set(2, BalanceType::AVAILABLE, "BTC", &dec(1, 0));
    let x = dec(123_456_785, 9);
    ledger.frozen(1, "BTC", &x);
    assert!(same(&ledger.get(1, BalanceType::AVAILABLE, "BTC"), &dec(100_000_001, 8)));
    assert!(same(&ledger.get(1, BalanceType::FREEZE, "BTC"), &dec(37_345_678, 8)));
    ledger.unfrozen(1, "BTC", &x);
    assert!(same(&ledger.get(1, BalanceType::AVAILABLE, "BTC"), &dec(112_345_679, 8)));
    assert!(same(&ledger.get(1, BalanceType::FREEZE, "BTC"), &dec(25, 2)));
    assert!(same(&ledger.get(2, BalanceType::AVAILABLE, "BTC"), &dec(1, 0)));
}

#[test]
fn freeze_of_everything_available() {
    let mut ledger = BalanceManager::new(&assets());
    ledger.set(1, BalanceType::AVAILABLE, "ETH", &dec(3, 0));
    ledger.frozen(1, "ETH", &dec(3, 0));
    assert!(ledger.get(1, BalanceType::AVAILABLE, "ETH").is_zero());
    assert!(same(&ledger.get(1, BalanceType::FREEZE, "ETH"), &dec(3, 0)));
    ledger.unfrozen(1, "ETH", &dec(1, 0));
    assert!(same(&ledger.get(1, BalanceType::AVAILABLE, "ETH"), &dec(1, 0)));
    assert!(same(&ledger.get(1, BalanceType::FREEZE, "ETH"), &dec(2, 0)));
}

#[test]
fn total_is_available_and_frozen_together() {
    let mut ledger = BalanceManager::new(&assets());
    assert!(ledger.total(1, "BTC").is_zero());
    ledger.set(1, BalanceType::AVAILABLE, "BTC", &dec(15, 1));
    assert!(same(&ledger.total(1, "BTC"), &dec(15, 1)));
    ledger.set(1, BalanceType::FREEZE, "BTC", &dec(25, 2));
    assert!(same(&ledger.total(1, "BTC"), &dec(175, 2)));
    ledger.frozen(1, "BTC", &dec(1, 0));
    assert!(same(&ledger.total(1, "BTC"), &dec(175, 2)));
    ledger.unfrozen(1, "BTC", &dec(125, 2));
    assert!(same(&ledger.total(1, "BTC"), &dec(175, 2)));
    ledger.sub(1, BalanceType::AVAILABLE, "BTC", &dec(75, 2));
    assert!(same(&ledger.total(1, "BTC"), &dec(1, 0)));
    let sum = ledger
        .get(1, BalanceType::AVAILABLE, "BTC")
        .checked_add(&ledger.get(1, BalanceType::FREEZE, "BTC"))
        .unwrap();
    assert!(same(&ledger.total(1, "BTC"), &sum));
    assert!(ledger.total(1, "ETH").is_zero());
}

#[test]
fn get_with_round_rounds_only_where_the_precisions_differ() {
    let mut ledger = BalanceManager::new(&assets());
    ledger.set(1, BalanceType::AVAILABLE, "ETH", &dec(1_234_565, 6));
    let v = ledger.get_with_round(1, BalanceType::AVAILABLE, "ETH");
    assert_eq!((v.mantissa, v.scale), (1_234_565, 6));
    ledger.set(1, BalanceType::AVAILABLE, "BTC", &dec(112_345_000, 8));
    let v = ledger.get_with_round(1, BalanceType::AVAILABLE, "BTC");
    assert_eq!((v.mantissa, v.scale), (11_234, 4));
    ledger.set(1, BalanceType::AVAILABLE, "BTC", &dec(15, 1));
    let v = ledger.get_with_round(1, BalanceType::AVAILABLE, "BTC");
    assert_eq!((v.mantissa, v.scale), (15, 1));
    let v = ledger.get_with_round(9, BalanceType::AVAILABLE, "BTC");
    assert_eq!((v.mantissa, v.scale), (0, 0));
    ledger.set(1, BalanceType::AVAILABLE, "WIDE", &dec(12_345, 4));
    let v = ledger.get_with_round(1, BalanceType::AVAILABLE, "WIDE");
    assert_eq!((v.mantissa, v.scale), (123, 2));
}

#[test]
fn status_counts_and_sums_by_state() {
    let mut ledger = BalanceManager::new(&assets());
    ledger.set(1, BalanceType::AVAILABLE, "BTC", &dec(15, 1));
    ledger.set(2, BalanceType::AVAILABLE, "BTC", &dec(25, 2));
    ledger.set(3, BalanceType::AVAILABLE, "BTC", &dec(1, 8));
    ledger.set(1, BalanceType::FREEZE, "BTC", &dec(4, 0));
    ledger.set(1, BalanceType::AVAILABLE, "ETH", &dec(100, 0));
    ledger.set(2, BalanceType::FREEZE, "ETH", &dec(7, 0));
    let s = ledger.status("BTC").unwrap();
    assert_eq!(s.available_count, 3);
    assert_eq!(s.frozen_count, 1);
    assert!(same(&s.available, &dec(175_000_001, 8)));
    assert!(same(&s.frozen, &dec(4, 0)));
    assert!(same(&s.total, &dec(575_000_001, 8)));
    let s = ledger.status("ETH").unwrap();
    assert_eq!(s.available_count, 1);
    assert_eq!(s.frozen_count, 1);
    assert!(same(&s.available, &dec(100, 0)));
    assert!(same(&s.frozen, &dec(7, 0)));
    assert!(same(&s.total, &dec(107, 0)));
}

#[test]
fn status_leaves_out_what_is_zero() {
    let mut ledger = BalanceManager::new(&assets());
    ledger.set(1, BalanceType::AVAILABLE, "BTC", &dec(15, 1));
    ledger.set(2, BalanceType::AVAILABLE, "BTC", &dec(0, 0));
    ledger.set(3, BalanceType::FREEZE, "BTC", &dec(4, 9));
    ledger.add(4, BalanceType::FREEZE, "BTC", &dec(2, 0));
    ledger.sub(4, BalanceType::FREEZE, "BTC", &dec(2, 0));
    assert_eq!(ledger.balances.len(), 4);
    let s = ledger.status("BTC").unwrap();
    assert_eq!(s.available_count, 1);
    assert_eq!(s.frozen_count, 0);
    assert!(same(&s.available, &dec(15, 1)));
    assert!(s.frozen.is_zero());
    assert!(same(&s.total, &dec(15, 1)));
}

#[test]
fn status_of_nothing_is_all_zero() {
    let ledger = BalanceManager::new(&assets());
    let s = ledger.status("BTC").unwrap();
    assert_eq!((s.available_count, s.frozen_count), (0, 0));
    assert!(s.total.is_zero() && s.available.is_zero() && s.frozen.is_zero());
    let s = ledger.status("NOPE").unwrap();
    assert_eq!((s.available_count, s.frozen_count), (0, 0));
    assert!(s.total.is_zero() && s.available.is_zero() && s.frozen.is_zero());
}

#[test]
fn status_is_none_where_a_total_cannot_be_held() {
    let mut ledger = BalanceManager::new(&assets());
    ledger.set(1, BalanceType::AVAILABLE, "UNIT", &dec(MAX_MANTISSA, 0));
    ledger.set(2, BalanceType::FREEZE, "UNIT", &dec(1, 0));
    assert!(ledger.status("UNIT").is_none());
    ledger.del(2, BalanceType::FREEZE, "UNIT");
    let s = ledger.status("UNIT").unwrap();
    assert_eq!((s.total.mantissa, s.total.scale), (MAX_MANTISSA, 0));
    assert_eq!((s.available_count, s.frozen_count), (1, 0));
}

#[test]
fn new_ledger_is_empty_over_its_registry() {
    let ledger = BalanceManager::new(&assets());
    assert_eq!(ledger.balances.len(), 0);
    assert_eq!(ledger.asset_manager.asset_prec("BTC"), 8);
    assert_eq!(ledger.asset_manager.asset_prec_show("BTC"), 4);
    assert!(!ledger.asset_manager.asset_exist("NOPE"));
}
