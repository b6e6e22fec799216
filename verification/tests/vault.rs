use flowfi::address::Address;
use flowfi::vault::{VaultContract, VaultError, SHARE_PRICE_SCALE};

fn setup() -> (VaultContract, Address, Address, Address) {
    let admin = Address::new(1);
    let user = Address::new(2);
    let token = Address::new(3);
    let mut vault = VaultContract::new();
    vault.initialize(admin, token).unwrap();
    (vault, admin, user, token)
}

#[test]
fn test_deposit_and_withdraw() {
    let (mut vault, _admin, user, _token) = setup();

    // First deposit
    let shares = vault.deposit(user, 500_000).unwrap();
    assert_eq!(shares, 500_000); // Bootstrap: 1:1
    assert_eq!(vault.balance_of(user), 500_000);
    assert_eq!(vault.total_assets(), 500_000);

    // Withdraw half
    let assets_out = vault.withdraw(user, 250_000).unwrap();
    assert_eq!(assets_out, 250_000);
    assert_eq!(vault.balance_of(user), 250_000);
}

#[test]
fn test_share_price_initially_one() {
    let (vault, _admin, _user, _token) = setup();
    assert_eq!(vault.share_price(), Ok(1_000_000));
}

#[test]
fn vault_initialize_twice_is_refused() {
    let (mut vault, admin, _user, token) = setup();
    assert_eq!(vault.initialize(admin, token), Err(VaultError::AlreadyInitialized));
    assert_eq!(vault.admin(), Some(admin));
    assert_eq!(vault.underlying_token(), Some(token));
}

#[test]
fn fresh_vault_is_empty() {
    let vault = VaultContract::new();
    assert_eq!(vault.admin(), None);
    assert_eq!(vault.total_assets(), 0);
    assert_eq!(vault.total_shares(), 0);
    assert_eq!(vault.balance_of(Address::new(9)), 0);
    assert_eq!(vault.share_price(), Ok(SHARE_PRICE_SCALE));
}

#[test]
fn deposit_before_initialize_is_refused() {
    let mut vault = VaultContract::new();
    assert_eq!(vault.deposit(Address::new(2), 10), Err(VaultError::NotInitialized));
    assert_eq!(vault.total_shares(), 0);
}

#[test]
fn zero_or_negative_deposit_is_refused() {
    let (mut vault, _admin, user, _token) = setup();
    assert_eq!(vault.deposit(user, 0), Err(VaultError::NonPositiveAmount));
    assert_eq!(vault.deposit(user, -5), Err(VaultError::NonPositiveAmount));
    assert_eq!(vault.total_assets(), 0);
}

#[test]
fn zero_or_negative_withdraw_is_refused() {
    let (mut vault, _admin, user, _token) = setup();
    vault.deposit(user, 100).unwrap();
    assert_eq!(vault.withdraw(user, 0), Err(VaultError::NonPositiveShares));
    assert_eq!(vault.withdraw(user, -1), Err(VaultError::NonPositiveShares));
    assert_eq!(vault.balance_of(user), 100);
}

#[test]
fn withdraw_beyond_balance_is_refused() {
    let (mut vault, _admin, user, _token) = setup();
    let other = Address::new(7);
    vault.deposit(user, 100).unwrap();
    vault.deposit(other, 100).unwrap();
    assert_eq!(vault.withdraw(user, 101), Err(VaultError::InsufficientShares));
    assert_eq!(vault.withdraw(Address::new(8), 1), Err(VaultError::InsufficientShares));
    assert_eq!(vault.balance_of(user), 100);
    assert_eq!(vault.total_shares(), 200);
}

#[test]
fn overflowing_deposit_is_refused() {
    let (mut vault, _admin, user, _token) = setup();
    vault.deposit(user, i128::MAX - 10).unwrap();
    assert_eq!(vault.deposit(user, 100), Err(VaultError::ArithmeticOverflow));
    assert_eq!(vault.total_assets(), i128::MAX - 10);
}

#[test]
fn share_price_overflow_is_reported() {
    let (mut vault, _admin, user, _token) = setup();
    vault.deposit(user, i128::MAX / 1_000).unwrap();
    assert_eq!(vault.share_price(), Err(VaultError::ArithmeticOverflow));
}

#[test]
fn proportional_minting_rounds_down() {
    // 1000 tokens backing 300 shares: a deposit of 10 mints 10 * 300 / 1000 = 3.
    let holder = Address::new(2);
    let newcomer = Address::new(5);
    let mut vault = VaultContract::from_parts(
        Some(Address::new(1)),
        Some(Address::new(3)),
        300,
        1000,
        vec![(holder, 300)],
    )
    .unwrap();
    let price_before = vault.share_price().unwrap();
    assert_eq!(price_before, 3_333_333);
    assert_eq!(vault.deposit(newcomer, 10), Ok(3));
    assert_eq!(vault.total_shares(), 303);
    assert_eq!(vault.total_assets(), 1010);
    // No dilution: the price does not fall.
    let price_after = vault.share_price().unwrap();
    assert!(price_after >= price_before);
    // Round trip returns no more than was deposited: 3 * 1010 / 303 = 10.
    assert_eq!(vault.withdraw(newcomer, 3), Ok(10));
    assert_eq!(vault.balance_of(holder), 300);
}

#[test]
fn small_deposit_can_mint_nothing() {
    let holder = Address::new(2);
    let mut vault =
        VaultContract::from_parts(Some(Address::new(1)), Some(Address::new(3)), 1, 10, vec![(holder, 1)]).unwrap();
    assert_eq!(vault.deposit(Address::new(4), 5), Ok(0));
    assert_eq!(vault.total_assets(), 15);
    assert_eq!(vault.total_shares(), 1);
}

#[test]
fn withdraw_pays_rounded_down_share_of_assets() {
    let a = Address::new(2);
    let b = Address::new(4);
    let mut vault =
        VaultContract::from_parts(Some(Address::new(1)), Some(Address::new(3)), 3, 10, vec![(a, 2), (b, 1)]).unwrap();
    // 1 * 10 / 3 = 3
    assert_eq!(vault.withdraw(b, 1), Ok(3));
    assert_eq!(vault.total_assets(), 7);
    // The last shares take everything left.
    assert_eq!(vault.withdraw(a, 2), Ok(7));
    assert_eq!(vault.total_assets(), 0);
    assert_eq!(vault.total_shares(), 0);
    assert_eq!(vault.share_price(), Ok(SHARE_PRICE_SCALE));
}

#[test]
fn other_holders_are_untouched() {
    let (mut vault, _admin, user, _token) = setup();
    let other = Address::new(6);
    vault.deposit(other, 40).unwrap();
    vault.deposit(user, 60).unwrap();
    vault.withdraw(user, 25).unwrap();
    assert_eq!(vault.balance_of(other), 40);
    assert_eq!(vault.balance_of(user), 35);
    assert_eq!(vault.total_shares(), 75);
    assert_eq!(vault.holders(), vec![(other, 40), (user, 35)]);
}

#[test]
fn shares_stay_one_to_one_without_yield() {
    let (mut vault, _admin, user, _token) = setup();
    let other = Address::new(6);
    for (who, amount) in [(user, 17), (other, 1_000), (user, 3)] {
        assert_eq!(vault.deposit(who, amount), Ok(amount));
        assert_eq!(vault.total_assets(), vault.total_shares());
    }
    assert_eq!(vault.withdraw(other, 999), Ok(999));
    assert_eq!(vault.total_assets(), vault.total_shares());
    assert_eq!(vault.share_price(), Ok(SHARE_PRICE_SCALE));
}

#[test]
fn vault_from_parts_rejects_inconsistent_state() {
    let a = Address::new(2);
    let admin = Some(Address::new(1));
    let token = Some(Address::new(3));
    // Balances that do not add up to the supply.
    assert!(VaultContract::from_parts(admin, token, 10, 10, vec![(a, 9)]).is_none());
    // A holder listed twice.
    assert!(VaultContract::from_parts(admin, token, 10, 10, vec![(a, 5), (a, 5)]).is_none());
    // A negative balance.
    assert!(VaultContract::from_parts(admin, token, 0, 0, vec![(a, -1), (Address::new(4), 1)]).is_none());
    // Assets without shares.
    assert!(VaultContract::from_parts(admin, token, 0, 5, vec![]).is_none());
    // Holdings before initialization.
    assert!(VaultContract::from_parts(None, None, 10, 10, vec![(a, 10)]).is_none());
    // A balance sum that overflows.
    assert!(VaultContract::from_parts(admin, token, 1, 1, vec![(a, i128::MAX), (Address::new(4), 2)]).is_none());
    // A consistent state.
    let v = VaultContract::from_parts(admin, token, 10, 12, vec![(a, 10)]).unwrap();
    assert_eq!(v.balance_of(a), 10);
    assert_eq!(v.total_assets(), 12);
}
