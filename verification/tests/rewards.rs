use flowfi::address::Address;
use flowfi::rewards::{RewardsContract, RewardsError, UserRewards, REWARD_PRECISION};

const ADMIN: Address = Address { id: 1 };
const REWARD_TOKEN: Address = Address { id: 2 };
const VAULT: Address = Address { id: 3 };

fn setup(rate: i128) -> RewardsContract {
    let mut r = RewardsContract::new();
    r.initialize(ADMIN, REWARD_TOKEN, VAULT, rate).unwrap();
    r
}

#[test]
fn test_pending_rewards_zero_initially() {
    let client = setup(1_000_000_000);
    let user = Address::new(4);
    assert_eq!(client.pending_rewards(user, 0), Ok(0));
}

#[test]
fn rewards_initialize_twice_is_refused() {
    let mut r = setup(5);
    assert_eq!(r.initialize(ADMIN, REWARD_TOKEN, VAULT, 7), Err(RewardsError::AlreadyInitialized));
    assert_eq!(r.reward_rate(), 5);
    assert_eq!(r.reward_token(), Some(REWARD_TOKEN));
    assert_eq!(r.vault(), Some(VAULT));
    assert_eq!(r.admin(), Some(ADMIN));
}

#[test]
fn rewards_roles_are_enforced() {
    let mut fresh = RewardsContract::new();
    assert_eq!(fresh.update_total_shares(VAULT, 10), Err(RewardsError::NotInitialized));
    assert_eq!(fresh.set_reward_rate(ADMIN, 10), Err(RewardsError::NotInitialized));
    let mut r = setup(5);
    assert_eq!(r.update_total_shares(ADMIN, 10), Err(RewardsError::NotVault));
    assert_eq!(r.set_reward_rate(VAULT, 10), Err(RewardsError::NotAdmin));
    assert_eq!(r.total_shares(), 0);
    assert_eq!(r.reward_rate(), 5);
    assert_eq!(r.update_total_shares(VAULT, 10), Ok(()));
    assert_eq!(r.set_reward_rate(ADMIN, 10), Ok(()));
    assert_eq!(r.total_shares(), 10);
    assert_eq!(r.reward_rate(), 10);
}

#[test]
fn rewards_accrue_linearly_with_elapsed_ledgers() {
    // One token per ledger to the whole supply; the user holds half of it.
    let mut r = setup(REWARD_PRECISION);
    let user = Address::new(4);
    r.update_total_shares(VAULT, 1_000).unwrap();
    r.update_user_shares(user, 500, 10).unwrap();
    assert_eq!(r.pending_rewards(user, 10), Ok(0));
    assert_eq!(r.pending_rewards(user, 20), Ok(5));
    assert_eq!(r.pending_rewards(user, 110), Ok(50));
    // A ledger before the checkpoint accrues nothing.
    assert_eq!(r.pending_rewards(user, 5), Ok(0));
}

#[test]
fn rounding_is_toward_zero() {
    // 7 * 3 * 1 / 4 = 5 (5.25), then / 1 with precision folded into the rate.
    let mut r = setup(3 * REWARD_PRECISION);
    let user = Address::new(4);
    r.update_total_shares(VAULT, 4).unwrap();
    r.update_user_shares(user, 1, 0).unwrap();
    assert_eq!(r.pending_rewards(user, 7), Ok(5));
    // A negative rate accrues negative rewards, rounded toward zero.
    r.set_reward_rate(ADMIN, -3 * REWARD_PRECISION).unwrap();
    assert_eq!(r.pending_rewards(user, 7), Ok(-5));
}

#[test]
fn no_accrual_without_shares_or_checkpoint() {
    let mut r = setup(REWARD_PRECISION);
    let user = Address::new(4);
    // Never checkpointed: nothing accrues.
    r.update_total_shares(VAULT, 100).unwrap();
    assert_eq!(r.pending_rewards(user, 1_000), Ok(0));
    // Checkpointed with no shares: nothing accrues.
    r.checkpoint(user, 10).unwrap();
    assert_eq!(r.pending_rewards(user, 1_000), Ok(0));
    // Shares but no total supply: nothing accrues.
    r.update_user_shares(user, 10, 20).unwrap();
    r.update_total_shares(VAULT, 0).unwrap();
    assert_eq!(r.pending_rewards(user, 1_000), Ok(0));
}

#[test]
fn checkpoint_keeps_what_is_owed() {
    let mut r = setup(REWARD_PRECISION);
    let user = Address::new(4);
    r.update_total_shares(VAULT, 10).unwrap();
    r.update_user_shares(user, 10, 0).unwrap();
    let before = r.pending_rewards(user, 30).unwrap();
    assert_eq!(before, 30);
    r.checkpoint(user, 30).unwrap();
    assert_eq!(r.pending_rewards(user, 30), Ok(before));
    let rec: Vec<(Address, UserRewards)> = r.users();
    assert_eq!(rec, vec![(user, UserRewards { last_ledger: Some(30), pending: 30, snapshot: 10 })]);
}

#[test]
fn claim_pays_and_clears() {
    let mut r = setup(REWARD_PRECISION);
    let user = Address::new(4);
    r.update_total_shares(VAULT, 10).unwrap();
    r.update_user_shares(user, 10, 0).unwrap();
    assert_eq!(r.claim_rewards(user, 40), Ok(40));
    assert_eq!(r.pending_rewards(user, 40), Ok(0));
    assert_eq!(r.total_distributed(), 40);
    // Nothing more to claim at the same ledger.
    assert_eq!(r.claim_rewards(user, 40), Ok(0));
    assert_eq!(r.total_distributed(), 40);
    assert_eq!(r.claim_rewards(user, 45), Ok(5));
    assert_eq!(r.total_distributed(), 45);
}

#[test]
fn rate_change_keeps_checkpointed_rewards() {
    let mut r = setup(REWARD_PRECISION);
    let user = Address::new(4);
    r.update_total_shares(VAULT, 10).unwrap();
    r.update_user_shares(user, 10, 0).unwrap();
    r.checkpoint(user, 10).unwrap();
    r.set_reward_rate(ADMIN, 0).unwrap();
    assert_eq!(r.pending_rewards(user, 50), Ok(10));
}

#[test]
fn accrual_products_saturate() {
    let mut r = setup(i128::MAX);
    let user = Address::new(4);
    r.update_total_shares(VAULT, 1).unwrap();
    r.update_user_shares(user, 2, 0).unwrap();
    // elapsed * rate saturates at i128::MAX; times 2 stays at i128::MAX.
    assert_eq!(r.pending_rewards(user, 3), Ok(i128::MAX / REWARD_PRECISION));
}

#[test]
fn unrepresentable_quotient_is_reported() {
    let mut r = setup(i128::MIN);
    let user = Address::new(4);
    r.update_total_shares(VAULT, -1).unwrap();
    r.update_user_shares(user, 1, 0).unwrap();
    // i128::MIN / -1 does not fit.
    assert_eq!(r.pending_rewards(user, 1), Err(RewardsError::ArithmeticOverflow));
    assert_eq!(r.checkpoint(user, 1), Err(RewardsError::ArithmeticOverflow));
    assert_eq!(r.claim_rewards(user, 1), Err(RewardsError::ArithmeticOverflow));
}

#[test]
fn pending_sum_overflow_is_reported() {
    let u = Address::new(4);
    let rec = UserRewards { last_ledger: Some(0), pending: i128::MAX, snapshot: 1 };
    let mut r = RewardsContract::from_parts(Some(ADMIN), Some(REWARD_TOKEN), Some(VAULT), REWARD_PRECISION, 1, 0, vec![(u, rec)]).unwrap();
    assert_eq!(r.pending_rewards(u, 0), Ok(i128::MAX));
    assert_eq!(r.pending_rewards(u, 5), Err(RewardsError::ArithmeticOverflow));
    assert_eq!(r.update_user_shares(u, 7, 5), Err(RewardsError::ArithmeticOverflow));
    assert_eq!(r.users(), vec![(u, rec)]);
}

#[test]
fn payout_total_overflow_is_reported() {
    let u = Address::new(4);
    let rec = UserRewards { last_ledger: Some(0), pending: 1, snapshot: 0 };
    let mut r = RewardsContract::from_parts(Some(ADMIN), Some(REWARD_TOKEN), Some(VAULT), 0, 0, i128::MAX, vec![(u, rec)]).unwrap();
    assert_eq!(r.claim_rewards(u, 3), Err(RewardsError::ArithmeticOverflow));
    assert_eq!(r.total_distributed(), i128::MAX);
    assert_eq!(r.users(), vec![(u, rec)]);
}

#[test]
fn rewards_from_parts_rejects_inconsistent_state() {
    let u = Address::new(4);
    let rec = UserRewards { last_ledger: Some(1), pending: 3, snapshot: 1 };
    assert!(RewardsContract::from_parts(Some(ADMIN), None, Some(VAULT), 0, 0, 0, vec![]).is_none());
    assert!(RewardsContract::from_parts(Some(ADMIN), Some(REWARD_TOKEN), Some(VAULT), 0, 0, -1, vec![]).is_none());
    assert!(RewardsContract::from_parts(None, None, None, 0, 0, 0, vec![(u, rec)]).is_none());
    assert!(RewardsContract::from_parts(None, None, None, 5, 0, 0, vec![]).is_none());
    assert!(RewardsContract::from_parts(Some(ADMIN), Some(REWARD_TOKEN), Some(VAULT), 1, 1, 0, vec![(u, rec), (u, rec)]).is_none());
    let r = RewardsContract::from_parts(Some(ADMIN), Some(REWARD_TOKEN), Some(VAULT), 1, 1, 0, vec![(u, rec)]).unwrap();
    assert_eq!(r.pending_rewards(u, 1), Ok(3));
}

#[test]
fn rewards_never_decrease_as_ledgers_pass() {
    let mut r = setup(7 * REWARD_PRECISION);
    let user = Address::new(4);
    r.update_total_shares(VAULT, 3).unwrap();
    r.update_user_shares(user, 2, 100).unwrap();
    let mut last = r.pending_rewards(user, 0).unwrap();
    assert_eq!(last, 0);
    for ledger in (0u32..300).step_by(7) {
        let now = r.pending_rewards(user, ledger).unwrap();
        assert!(now >= last);
        last = now;
    }
    // 199 ledgers after the checkpoint: 199 * 7 * 2 / 3 = 928.
    assert_eq!(r.pending_rewards(user, 299), Ok(928));
}

#[test]
fn total_distributed_is_sum_of_claims() {
    let mut r = setup(REWARD_PRECISION);
    let a = Address::new(4);
    let b = Address::new(5);
    r.update_total_shares(VAULT, 4).unwrap();
    r.update_user_shares(a, 1, 0).unwrap();
    r.update_user_shares(b, 3, 0).unwrap();
    let mut paid = 0i128;
    paid += r.claim_rewards(a, 40).unwrap();
    r.checkpoint(b, 50).unwrap();
    r.set_reward_rate(ADMIN, 2 * REWARD_PRECISION).unwrap();
    paid += r.claim_rewards(b, 60).unwrap();
    paid += r.claim_rewards(a, 60).unwrap();
    r.update_user_shares(a, 0, 70).unwrap();
    paid += r.claim_rewards(a, 100).unwrap();
    assert_eq!(paid, 10 + 52 + 10 + 5);
    assert_eq!(r.total_distributed(), paid);
}

#[test]
fn compute_pending_counts_only_since_checkpoint() {
    let mut r = setup(REWARD_PRECISION);
    let user = Address::new(4);
    r.update_total_shares(VAULT, 2).unwrap();
    r.update_user_shares(user, 1, 10).unwrap();
    r.checkpoint(user, 20).unwrap();
    assert_eq!(r.compute_pending(user, 30), Ok(5));
    assert_eq!(r.pending_rewards(user, 30), Ok(10));
}
