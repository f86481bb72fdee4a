use vault::convert::scale;
use vault::{Error, Ledger, VaultContract};

const VAULT: u64 = 1;
const TOKEN: u64 = 2;
const USER: u64 = 10;
const USER2: u64 = 11;

fn initialized_vault() -> VaultContract {
    let mut v = VaultContract::new(VAULT);
    v.initialize(TOKEN, "Test Vault".to_string(), "TVAULT".to_string(), 18)
        .unwrap();
    v
}

#[test]
fn test_initialize() {
    let v = initialized_vault();
    assert_eq!(v.name(), "Test Vault");
    assert_eq!(v.symbol(), "TVAULT");
    assert_eq!(v.decimals(), 18);
    assert_eq!(v.total_supply(), 0);
    assert_eq!(v.asset(), TOKEN);
}

#[test]
fn defaults_before_initialize() {
    let v = VaultContract::new(VAULT);
    assert_eq!(v.name(), "Vault");
    assert_eq!(v.symbol(), "VAULT");
    assert_eq!(v.decimals(), 18);
    assert_eq!(v.id(), VAULT);
}

#[test]
fn test_initialize_twice() {
    let mut v = initialized_vault();
    let r = v.initialize(TOKEN, "Test Vault 2".to_string(), "TVAULT2".to_string(), 18);
    assert_eq!(r, Err(Error::InvalidAddress));
    assert_eq!(Error::InvalidAddress.code(), 5);
    assert_eq!(v.name(), "Test Vault");
    assert_eq!(v.symbol(), "TVAULT");
}

#[test]
fn test_erc20_functionality() {
    let mut v = initialized_vault();
    let held: i128 = 0;

    assert_eq!(v.balance_of(USER), 0);
    assert_eq!(v.balance_of(USER2), 0);

    let shares = v.deposit(100, USER, held).unwrap();
    assert!(shares > 0);
    assert_eq!(v.balance_of(USER), shares);
    assert_eq!(v.total_supply(), shares);

    assert!(v.transfer(USER, USER2, 50).unwrap());
    assert_eq!(v.balance_of(USER), shares - 50);
    assert_eq!(v.balance_of(USER2), 50);

    assert!(v.approve(USER, USER2, 25));
    assert_eq!(v.allowance(USER, USER2), 25);

    assert!(v.transfer_from(USER2, USER, USER2, 25).unwrap());
    assert_eq!(v.balance_of(USER), shares - 75);
    assert_eq!(v.balance_of(USER2), 75);
    assert_eq!(v.allowance(USER, USER2), 0);
}

#[test]
fn test_vault_deposit() {
    let mut v = initialized_vault();
    let mut held: i128 = 0;

    let shares = v.deposit(100, USER, held).unwrap();
    held += 100;
    assert_eq!(shares, 100);
    assert_eq!(v.balance_of(USER), 100);
    assert_eq!(v.total_supply(), 100);
    assert_eq!(held, 100);

    let shares2 = v.deposit(50, USER, held).unwrap();
    held += 50;
    assert_eq!(shares2, 50);
    assert_eq!(v.balance_of(USER), 150);
    assert_eq!(v.total_supply(), 150);
    assert_eq!(held, 150);
}

#[test]
fn test_vault_mint() {
    let mut v = initialized_vault();
    let mut held: i128 = 0;

    let assets = v.mint(100, USER, held).unwrap();
    held += assets;
    assert_eq!(assets, 100);
    assert_eq!(v.balance_of(USER), 100);
    assert_eq!(v.total_supply(), 100);
    assert_eq!(held, 100);
}

#[test]
fn test_vault_withdraw() {
    let mut v = initialized_vault();
    let mut held: i128 = 0;

    v.deposit(200, USER, held).unwrap();
    held += 200;

    // The vault burns on its own behalf, so the owner lets it spend the shares.
    v.approve(USER, VAULT, 50);
    let shares_burned = v.withdraw(50, USER, held).unwrap();
    held -= 50;
    assert_eq!(shares_burned, 50);
    assert_eq!(v.balance_of(USER), 150);
    assert_eq!(v.total_supply(), 150);
    assert_eq!(held, 150);
    assert_eq!(v.allowance(USER, VAULT), 0);
}

#[test]
fn test_vault_redeem() {
    let mut v = initialized_vault();
    let mut held: i128 = 0;

    v.deposit(200, USER, held).unwrap();
    held += 200;

    // The vault burns on its own behalf, so the owner lets it spend the shares.
    v.approve(USER, VAULT, 50);
    let assets_received = v.redeem(50, USER, held).unwrap();
    held -= assets_received;
    assert_eq!(assets_received, 50);
    assert_eq!(v.balance_of(USER), 150);
    assert_eq!(v.total_supply(), 150);
    assert_eq!(held, 150);
}

#[test]
fn test_conversion_functions() {
    let mut v = initialized_vault();
    let mut held: i128 = 0;

    assert_eq!(v.convert_to_shares(100, held), Some(100));
    assert_eq!(v.convert_to_assets(100, held), Some(100));

    v.deposit(200, USER, held).unwrap();
    held += 200;
    assert_eq!(v.convert_to_shares(100, held), Some(100));
    assert_eq!(v.convert_to_assets(100, held), Some(100));
}

#[test]
fn test_preview_functions() {
    let mut v = initialized_vault();
    let mut held: i128 = 0;

    assert_eq!(v.preview_deposit(100, held), Some(100));
    assert_eq!(v.preview_mint(100, held), Some(100));
    assert_eq!(v.preview_withdraw(100, held), Some(100));
    assert_eq!(v.preview_redeem(100, held), Some(100));

    v.deposit(200, USER, held).unwrap();
    held += 200;
    assert_eq!(v.preview_deposit(100, held), Some(100));
    assert_eq!(v.preview_mint(100, held), Some(100));
    assert_eq!(v.preview_withdraw(100, held), Some(100));
    assert_eq!(v.preview_redeem(100, held), Some(100));
}

#[test]
fn test_max_functions() {
    let mut v = initialized_vault();
    let mut held: i128 = 0;

    assert_eq!(v.max_deposit(USER), i128::MAX);
    assert_eq!(v.max_mint(USER), i128::MAX);
    assert_eq!(v.max_withdraw(USER, held), Some(0));
    assert_eq!(v.max_redeem(USER), 0);

    v.deposit(200, USER, held).unwrap();
    held += 200;
    assert_eq!(v.max_withdraw(USER, held), Some(200));
    assert_eq!(v.max_redeem(USER), 200);
}

#[test]
fn test_deposit_zero_assets() {
    let mut v = initialized_vault();
    assert_eq!(v.deposit(0, USER, 0), Err(Error::ZeroAssets));
    assert_eq!(Error::ZeroAssets.code(), 1);
    assert_eq!(v.total_supply(), 0);
}

#[test]
fn test_mint_zero_shares() {
    let mut v = initialized_vault();
    assert_eq!(v.mint(0, USER, 0), Err(Error::ZeroShares));
    assert_eq!(Error::ZeroShares.code(), 2);
    assert_eq!(v.total_supply(), 0);
}

#[test]
fn test_transfer_insufficient_balance() {
    let mut v = initialized_vault();
    v.deposit(100, USER, 0).unwrap();
    assert_eq!(v.transfer(USER, USER2, 200), Err(Error::InsufficientBalance));
    assert_eq!(Error::InsufficientBalance.code(), 3);
    assert_eq!(v.balance_of(USER), 100);
    assert_eq!(v.balance_of(USER2), 0);
    assert_eq!(v.total_supply(), 100);
}

#[test]
fn test_transfer_from_insufficient_allowance() {
    let mut v = initialized_vault();
    v.deposit(100, USER, 0).unwrap();
    v.approve(USER, USER2, 50);
    assert_eq!(
        v.transfer_from(USER2, USER, USER2, 100),
        Err(Error::InsufficientAllowance)
    );
    assert_eq!(Error::InsufficientAllowance.code(), 4);
    assert_eq!(v.allowance(USER, USER2), 50);
    assert_eq!(v.balance_of(USER), 100);
}

#[test]
fn approve_then_spend_exactly() {
    let mut v = initialized_vault();
    v.deposit(100, USER, 0).unwrap();
    v.approve(USER, USER2, 25);
    assert_eq!(v.transfer_from(USER2, USER, USER2, 25), Ok(true));
    assert_eq!(v.allowance(USER, USER2), 0);
    assert_eq!(
        v.transfer_from(USER2, USER, USER2, 1),
        Err(Error::InsufficientAllowance)
    );
    assert_eq!(v.balance_of(USER), 75);
    assert_eq!(v.balance_of(USER2), 25);
}

#[test]
fn transfer_from_short_balance_keeps_allowance() {
    let mut v = initialized_vault();
    v.deposit(10, USER, 0).unwrap();
    v.approve(USER, USER2, 50);
    assert_eq!(
        v.transfer_from(USER2, USER, USER2, 20),
        Err(Error::InsufficientBalance)
    );
    assert_eq!(v.allowance(USER, USER2), 50);
    assert_eq!(v.balance_of(USER), 10);
}

#[test]
fn unlimited_allowance_is_never_spent() {
    let mut v = initialized_vault();
    v.deposit(100, USER, 0).unwrap();
    v.approve(USER, USER2, i128::MAX);
    for _ in 0..5 {
        assert_eq!(v.transfer_from(USER2, USER, USER2, 10), Ok(true));
        assert_eq!(v.allowance(USER, USER2), i128::MAX);
    }
    assert_eq!(v.balance_of(USER), 50);
    assert_eq!(v.balance_of(USER2), 50);
}

#[test]
fn unlimited_allowance_to_vault_is_never_spent() {
    let mut v = initialized_vault();
    v.deposit(100, USER, 0).unwrap();
    v.approve(USER, VAULT, i128::MAX);
    assert_eq!(v.redeem(30, USER, 100), Ok(30));
    assert_eq!(v.allowance(USER, VAULT), i128::MAX);
}

#[test]
fn self_transfer_keeps_balance() {
    let mut v = initialized_vault();
    v.deposit(100, USER, 0).unwrap();
    assert_eq!(v.transfer(USER, USER, 60), Ok(true));
    assert_eq!(v.balance_of(USER), 100);
    assert_eq!(v.total_supply(), 100);
}

#[test]
fn supply_tracks_sum_of_balances() {
    let mut v = initialized_vault();
    let mut held: i128 = 0;
    v.deposit(100, USER, held).unwrap();
    held += 100;
    v.mint(40, USER2, held).unwrap();
    held += 40;
    v.transfer(USER, USER2, 30).unwrap();
    v.approve(USER2, VAULT, 20);
    let shares = v.withdraw(20, USER2, held).unwrap();
    held -= 20;
    assert_eq!(shares, 20);
    let sum: i128 = v
        .ledger()
        .balance_entries()
        .iter()
        .map(|e| e.1)
        .sum();
    assert_eq!(sum, v.total_supply());
    assert_eq!(v.total_supply(), 120);
    assert_eq!(held, 120);
}

#[test]
fn withdraw_by_vault_needs_no_allowance() {
    let mut v = initialized_vault();
    v.deposit(80, VAULT, 0).unwrap();
    assert_eq!(v.withdraw(30, VAULT, 80), Ok(30));
    assert_eq!(v.balance_of(VAULT), 50);
}

#[test]
fn withdraw_without_allowance_is_refused() {
    let mut v = initialized_vault();
    v.deposit(200, USER, 0).unwrap();
    assert_eq!(v.withdraw(50, USER, 200), Err(Error::InsufficientAllowance));
    assert_eq!(v.balance_of(USER), 200);
}

#[test]
fn redeem_more_than_balance_is_refused() {
    let mut v = initialized_vault();
    v.deposit(20, USER, 0).unwrap();
    v.approve(USER, VAULT, 100);
    assert_eq!(v.redeem(50, USER, 20), Err(Error::InsufficientBalance));
    assert_eq!(v.allowance(USER, VAULT), 100);
    assert_eq!(v.balance_of(USER), 20);
}

#[test]
fn rounding_follows_the_side_of_the_vault() {
    // 3 shares outstanding against 10 assets.
    let mut v = initialized_vault();
    v.deposit(3, USER, 0).unwrap();
    let held: i128 = 10;
    assert_eq!(v.preview_deposit(5, held), Some(1));
    assert_eq!(v.preview_withdraw(5, held), Some(2));
    assert_eq!(v.preview_mint(1, held), Some(4));
    assert_eq!(v.preview_redeem(1, held), Some(3));
    assert_eq!(v.convert_to_shares(-5, held), Some(-2));
    assert_eq!(v.max_withdraw(USER, held), Some(10));
}

#[test]
fn deposit_rounding_to_nothing_is_refused() {
    let mut v = initialized_vault();
    v.deposit(1, USER, 0).unwrap();
    assert_eq!(v.deposit(1, USER, 1000), Err(Error::ZeroShares));
    assert_eq!(v.total_supply(), 1);
}

#[test]
fn redeem_worth_nothing_is_refused() {
    let mut v = initialized_vault();
    v.deposit(1000, USER, 0).unwrap();
    v.approve(USER, VAULT, 1000);
    assert_eq!(v.redeem(1, USER, 1), Err(Error::ZeroAssets));
    assert_eq!(v.balance_of(USER), 1000);
}

#[test]
fn supply_overflow_is_refused() {
    let mut v = initialized_vault();
    v.mint(i128::MAX, USER, 0).unwrap();
    assert_eq!(v.deposit(1, USER2, 0), Err(Error::Overflow));
    assert_eq!(Error::Overflow.code(), 6);
    assert_eq!(v.total_supply(), i128::MAX);
    assert_eq!(v.convert_to_shares(i128::MAX, 1), None);
}

#[test]
fn wide_products_convert_exactly() {
    let big: i128 = 1_000_000_000_000_000_000_000_000_000_000;
    let mut v = initialized_vault();
    v.deposit(big, USER, 0).unwrap();
    assert_eq!(v.convert_to_shares(big, big), Some(big));
    assert_eq!(
        v.convert_to_assets(7 * big / 10, 2 * big),
        Some(14 * big / 10)
    );
    assert_eq!(scale(i128::MAX, i128::MAX, i128::MAX, false), Some(i128::MAX));
    assert_eq!(scale(i128::MIN, i128::MAX, i128::MAX, false), Some(i128::MIN));
    assert_eq!(scale(i128::MIN, 1, 2, true), Some(i128::MIN / 2));
    assert_eq!(scale(7, 1, 2, true), Some(4));
    assert_eq!(scale(7, 1, 2, false), Some(3));
    assert_eq!(scale(-7, 1, 2, true), Some(-3));
    assert_eq!(scale(-7, 1, 2, false), Some(-4));
    assert_eq!(scale(5, 0, 9, true), Some(5));
    assert_eq!(scale(i128::MAX, 2, 1, false), None);
}

#[test]
fn round_trips_never_gain() {
    let mut v = initialized_vault();
    v.deposit(7, USER, 0).unwrap();
    let held: i128 = 19;
    for x in 0..60i128 {
        let a = v.convert_to_assets(x, held).unwrap();
        assert!(v.convert_to_shares(a, held).unwrap() <= x);
        let s = v.convert_to_shares(x, held).unwrap();
        assert!(v.convert_to_assets(s, held).unwrap() <= x);
    }
}

#[test]
fn queries_repeat_without_effect() {
    let mut v = initialized_vault();
    v.deposit(30, USER, 0).unwrap();
    let held: i128 = 47;
    let first = (
        v.preview_deposit(11, held),
        v.preview_mint(11, held),
        v.preview_withdraw(11, held),
        v.preview_redeem(11, held),
        v.max_withdraw(USER, held),
        v.max_redeem(USER),
        v.convert_to_shares(11, held),
        v.convert_to_assets(11, held),
    );
    let second = (
        v.preview_deposit(11, held),
        v.preview_mint(11, held),
        v.preview_withdraw(11, held),
        v.preview_redeem(11, held),
        v.max_withdraw(USER, held),
        v.max_redeem(USER),
        v.convert_to_shares(11, held),
        v.convert_to_assets(11, held),
    );
    assert_eq!(first, second);
    assert_eq!(v.total_supply(), 30);
    assert_eq!(v.balance_of(USER), 30);
}

#[test]
fn deposit_then_redeem_all_returns_deposit() {
    // 40 shares against 80 assets: a deposit of 10 is priced exactly.
    let mut v = initialized_vault();
    v.deposit(40, USER, 0).unwrap();
    let mut held: i128 = 80;
    let shares = v.deposit(10, USER2, held).unwrap();
    held += 10;
    assert_eq!(shares, 5);
    v.approve(USER2, VAULT, shares);
    assert_eq!(v.redeem(shares, USER2, held), Ok(10));
}

#[test]
fn ledger_entries_round_trip() {
    let mut l = Ledger::new();
    l.mint(USER, 70).unwrap();
    l.mint(USER2, 30).unwrap();
    l.set_allowance(USER, USER2, 9);
    assert_eq!(l.burn(USER, 71), Err(Error::InsufficientBalance));
    l.burn(USER, 20).unwrap();
    let mut restored = Ledger::new();
    for (a, b) in l.balance_entries() {
        restored.mint(a, b).unwrap();
    }
    for ((o, s), x) in l.allowance_entries() {
        restored.set_allowance(o, s, x);
    }
    let v = VaultContract::from_ledger(VAULT, restored);
    assert_eq!(v.balance_of(USER), 50);
    assert_eq!(v.balance_of(USER2), 30);
    assert_eq!(v.allowance(USER, USER2), 9);
    assert_eq!(v.total_supply(), 80);
}
