use flowfi::address::Address;
use flowfi::rewards::{RewardsContract, REWARD_PRECISION};
use flowfi::strategy_router::StrategyRouterContract;
use flowfi::vault::VaultContract;

struct Protocol {
    vault: VaultContract,
    rewards: RewardsContract,
    router: StrategyRouterContract,
    admin: Address,
    strategist: Address,
    vault_address: Address,
}

fn setup_full_protocol() -> (Protocol, Address, Address) {
    let admin = Address::new(1);
    let strategist = Address::new(2);
    let token = Address::new(3);
    let reward_token = Address::new(4);
    let vault_address = Address::new(5);
    let user_a = Address::new(10);
    let user_b = Address::new(11);

    let mut vault = VaultContract::new();
    vault.initialize(admin, token).unwrap();
    let mut rewards = RewardsContract::new();
    rewards.initialize(admin, reward_token, vault_address, REWARD_PRECISION).unwrap();
    let mut router = StrategyRouterContract::new();
    router.initialize(admin, strategist, vault_address).unwrap();
    (Protocol { vault, rewards, router, admin, strategist, vault_address }, user_a, user_b)
}

/// Deposits into the vault and reports the new balances to the rewards engine.
fn deposit(p: &mut Protocol, user: Address, amount: i128, ledger: u32) -> i128 {
    let minted = p.vault.deposit(user, amount).unwrap();
    p.rewards.update_total_shares(p.vault_address, p.vault.total_shares()).unwrap();
    p.rewards.update_user_shares(user, p.vault.balance_of(user), ledger).unwrap();
    minted
}

#[test]
fn test_two_user_proportional_rewards() {
    let (mut p, user_a, user_b) = setup_full_protocol();

    deposit(&mut p, user_a, 1_000_000, 0);
    deposit(&mut p, user_b, 3_000_000, 0);

    // Advance the ledger by 100.
    let a = p.rewards.pending_rewards(user_a, 100).unwrap();
    let b = p.rewards.pending_rewards(user_b, 100).unwrap();
    assert_eq!(a, 25);
    assert_eq!(b, 75);
    assert_eq!(b, 3 * a);

    // Both claim.
    assert_eq!(p.rewards.claim_rewards(user_a, 100), Ok(25));
    assert_eq!(p.rewards.claim_rewards(user_b, 100), Ok(75));
    assert_eq!(p.rewards.total_distributed(), 100);
    assert_eq!(p.rewards.pending_rewards(user_a, 100), Ok(0));
}

#[test]
fn test_full_withdraw_cycle() {
    let (mut p, user_a, _user_b) = setup_full_protocol();

    let shares = deposit(&mut p, user_a, 2_500_000, 0);
    // Advance the ledger, checkpoint before the balance changes, then
    // withdraw every share.
    p.rewards.checkpoint(user_a, 50).unwrap();
    let returned = p.vault.withdraw(user_a, shares).unwrap();
    p.rewards.update_total_shares(p.vault_address, p.vault.total_shares()).unwrap();
    p.rewards.update_user_shares(user_a, p.vault.balance_of(user_a), 50).unwrap();

    assert_eq!(p.vault.balance_of(user_a), 0);
    assert_eq!(returned, 2_500_000);
    assert_eq!(p.vault.total_shares(), 0);
    assert_eq!(p.vault.total_assets(), 0);
    // Rewards earned while holding stay claimable after the withdrawal.
    assert_eq!(p.rewards.pending_rewards(user_a, 80), Ok(50));
}

#[test]
fn test_strategy_allocation_flow() {
    let (mut p, _user_a, _user_b) = setup_full_protocol();
    let strategy = Address::new(20);

    p.router.add_strategy(p.admin, strategy, 10000).unwrap();
    p.router.allocate(p.vault_address, strategy, 500_000).unwrap();

    assert_eq!(p.router.strategy_info(strategy).unwrap().allocated, 500_000);
    assert_eq!(p.router.total_allocated(), 500_000);
    assert_eq!(p.router.strategy_list(), vec![strategy]);
    let _ = p.strategist;
}
