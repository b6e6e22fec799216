use vstd::prelude::*;
use crate::address::Address;
use crate::address_map::{AddressMap, keys_distinct, lemma_find_key, lemma_put, lemma_put_put, lookup, put};
use crate::math::{checked_trunc_div, lemma_floor_scaling, saturating_mul, saturating_product, trunc_div};
use vstd::arithmetic::div_mod::{lemma_div_denominator, lemma_div_is_ordered};

verus! {

/// The reward rate's fixed-point scale: a rate of `REWARD_PRECISION` pays one
/// token per ledger to the whole supply of shares.
pub const REWARD_PRECISION: i128 = 1_000_000_000;

/// Why the rewards engine refused a call; the state is left as it was.
#[derive(Clone, Copy, Debug, PartialEq, Eq, Structural)]
pub enum RewardsError {
    /// `initialize` on an engine that already has an admin.
    AlreadyInitialized,
    /// A call that needs the admin or the vault before `initialize`.
    NotInitialized,
    /// `set_reward_rate` from someone other than the admin.
    NotAdmin,
    /// `update_total_shares` from someone other than the vault.
    NotVault,
    /// A result that does not fit in an `i128`.
    ArithmeticOverflow,
}

/// What the engine keeps for one user: the ledger of the last checkpoint
/// (none before the first), the rewards accrued up to it and not yet claimed,
/// and the share balance that accrues from it.
#[derive(Clone, Copy, Debug, PartialEq, Eq, Structural)]
pub struct UserRewards {
    pub last_ledger: Option<u32>,
    pub pending: i128,
    pub snapshot: i128,
}

/// The record of a user the engine has never seen.
pub open spec fn fresh_user() -> UserRewards {
    UserRewards { last_ledger: None, pending: 0, snapshot: 0 }
}

/// The engine's state.
pub struct RewardsView {
    pub admin: Option<Address>,
    pub reward_token: Option<Address>,
    pub vault: Option<Address>,
    pub reward_rate: i128,
    pub total_shares: i128,
    pub total_distributed: i128,
    pub users: Seq<(Address, UserRewards)>,
}

/// Rewards accrued over `elapsed` ledgers at `rate` by `user_shares` of
/// `total_shares`: `elapsed * rate * user_shares / total_shares / PRECISION`,
/// with each product held within `i128` and each quotient rounded toward
/// zero; `None` where a quotient does not fit in `i128`.
pub open spec fn accrual(elapsed: int, rate: int, user_shares: int, total_shares: int) -> Option<int> {
    let gross = saturating_product(saturating_product(elapsed, rate), user_shares);
    let per_share = trunc_div(gross, total_shares);
    if per_share > i128::MAX {
        None
    } else {
        Some(trunc_div(per_share, REWARD_PRECISION as int))
    }
}

impl RewardsView {
    /// An engine as deployed, before `initialize`.
    pub open spec fn initial() -> RewardsView {
        RewardsView {
            admin: None,
            reward_token: None,
            vault: None,
            reward_rate: 0,
            total_shares: 0,
            total_distributed: 0,
            users: Seq::empty(),
        }
    }

    /// Each user appears once; the admin, the reward token and the vault are
    /// set together; before that no rate, supply, payout or reward exists;
    /// and payouts are never negative.
    pub open spec fn valid(self) -> bool {
        &&& keys_distinct(self.users)
        &&& (self.admin is Some) == (self.reward_token is Some)
        &&& (self.admin is Some) == (self.vault is Some)
        &&& self.total_distributed >= 0
        &&& self.admin is None ==> {
            &&& self.reward_rate == 0
            &&& self.total_shares == 0
            &&& self.total_distributed == 0
            &&& forall|i: int| 0 <= i < self.users.len() ==> #[trigger] self.users[i].1.pending == 0
        }
    }

    /// The record that the engine keeps for `user`.
    pub open spec fn user(self, user: Address) -> UserRewards {
        match lookup(self.users, user) {
            Some(r) => r,
            None => fresh_user(),
        }
    }

    /// Rewards accrued by `user` since the last checkpoint, at ledger `now`:
    /// none before the first checkpoint, when no ledger has passed, or when
    /// the user's or the total share count is zero.
    pub open spec fn newly_accrued(self, user: Address, now: u32) -> Result<i128, RewardsError> {
        let r = self.user(user);
        let last = match r.last_ledger {
            Some(l) => l,
            None => now,
        };
        if now <= last || r.snapshot == 0 || self.total_shares == 0 {
            Ok(0)
        } else {
            match accrual(now - last, self.reward_rate as int, r.snapshot as int, self.total_shares as int) {
                Some(a) => Ok(a as i128),
                None => Err(RewardsError::ArithmeticOverflow),
            }
        }
    }

    /// The rewards owed to `user` at ledger `now`: those checkpointed plus
    /// those accrued since.
    pub open spec fn pending_rewards(self, user: Address, now: u32) -> Result<i128, RewardsError> {
        match self.newly_accrued(user, now) {
            Ok(a) => {
                let p = self.user(user).pending + a;
                if p > i128::MAX || p < i128::MIN {
                    Err(RewardsError::ArithmeticOverflow)
                } else {
                    Ok(p as i128)
                }
            },
            Err(e) => Err(e),
        }
    }

    /// `initialize`: sets the admin, the reward token, the vault and the rate
    /// once, with zero supply and zero payouts.
    pub open spec fn initialize(self, admin: Address, reward_token: Address, vault: Address, reward_rate: i128) -> (RewardsView, Result<(), RewardsError>) {
        if self.admin is Some {
            (self, Err(RewardsError::AlreadyInitialized))
        } else {
            (
                RewardsView {
                    admin: Some(admin),
                    reward_token: Some(reward_token),
                    vault: Some(vault),
                    reward_rate,
                    total_shares: 0,
                    total_distributed: 0,
                    ..self
                },
                Ok(()),
            )
        }
    }

    /// `checkpoint`: moves what `user` accrued into the checkpointed rewards
    /// and restarts accrual at `now`.
    pub open spec fn checkpoint(self, user: Address, now: u32) -> (RewardsView, Result<(), RewardsError>) {
        match self.pending_rewards(user, now) {
            Ok(p) => (
                RewardsView {
                    users: put(
                        self.users,
                        user,
                        UserRewards { last_ledger: Some(now), pending: p, ..self.user(user) },
                    ),
                    ..self
                },
                Ok(()),
            ),
            Err(e) => (self, Err(e)),
        }
    }

    /// `claim_rewards`: checkpoints `user`, then pays out and clears what is
    /// owed when it is positive; returns the amount paid.
    pub open spec fn claim_rewards(self, user: Address, now: u32) -> (RewardsView, Result<i128, RewardsError>) {
        let (c, r) = self.checkpoint(user, now);
        if r is Err {
            (self, Err(r->Err_0))
        } else {
            let p = c.user(user).pending;
            if p <= 0 {
                (c, Ok(0))
            } else if c.total_distributed + p > i128::MAX {
                (self, Err(RewardsError::ArithmeticOverflow))
            } else {
                (
                    RewardsView {
                        users: put(c.users, user, UserRewards { pending: 0, ..c.user(user) }),
                        total_distributed: (c.total_distributed + p) as i128,
                        ..c
                    },
                    Ok(p),
                )
            }
        }
    }

    /// `update_total_shares`: the vault reports its share supply.
    pub open spec fn update_total_shares(self, caller: Address, total_shares: i128) -> (RewardsView, Result<(), RewardsError>) {
        match self.vault {
            None => (self, Err(RewardsError::NotInitialized)),
            Some(v) => if caller != v {
                (self, Err(RewardsError::NotVault))
            } else {
                (RewardsView { total_shares, ..self }, Ok(()))
            },
        }
    }

    /// `set_reward_rate`: the admin changes the rate.
    pub open spec fn set_reward_rate(self, caller: Address, new_rate: i128) -> (RewardsView, Result<(), RewardsError>) {
        match self.admin {
            None => (self, Err(RewardsError::NotInitialized)),
            Some(a) => if caller != a {
                (self, Err(RewardsError::NotAdmin))
            } else {
                (RewardsView { reward_rate: new_rate, ..self }, Ok(()))
            },
        }
    }

    /// `update_user_shares`: checkpoints `user`, then records the new share
    /// balance that accrues from now on.
    pub open spec fn update_user_shares(self, user: Address, shares: i128, now: u32) -> (RewardsView, Result<(), RewardsError>) {
        let (c, r) = self.checkpoint(user, now);
        if r is Err {
            (self, r)
        } else {
            (
                RewardsView {
                    users: put(c.users, user, UserRewards { snapshot: shares, ..c.user(user) }),
                    ..c
                },
                Ok(()),
            )
        }
    }
}

/// Writing a user's record keeps the table consistent, and leaves every
/// other user's record as it was.
pub proof fn lemma_put_user(v: RewardsView, user: Address, r: UserRewards)
    requires
        keys_distinct(v.users),
    ensures
        keys_distinct(put(v.users, user, r)),
        lookup(put(v.users, user, r), user) == Some(r),
        forall|u: Address| u != user ==> lookup(put(v.users, user, r), u) == lookup(v.users, u),
{
    lemma_put(v.users, user, r);
}

/// Before initialization nothing accrues.
proof fn lemma_nothing_accrues_uninitialized(v: RewardsView, user: Address, now: u32)
    requires
        v.valid(),
        v.admin is None,
    ensures
        v.newly_accrued(user, now) == Ok::<i128, RewardsError>(0),
        v.user(user).pending == 0,
        v.pending_rewards(user, now) == Ok::<i128, RewardsError>(0),
{
    lemma_find_key(v.users, user);
}

/// Rewriting a user's pending amount keeps the invariant when it stays zero
/// before initialization.
proof fn lemma_put_user_valid(v: RewardsView, user: Address, r: UserRewards)
    requires
        v.valid(),
        v.admin is None ==> r.pending == 0,
    ensures
        (RewardsView { users: put(v.users, user, r), ..v }).valid(),
{
    lemma_put(v.users, user, r);
    lemma_find_key(v.users, user);
    let t = put(v.users, user, r);
    if v.admin is None {
        assert forall|i: int| 0 <= i < t.len() implies #[trigger] t[i].1.pending == 0 by {
            if i < v.users.len() && i != crate::address_map::find_key(v.users, user) {
                assert(t[i] == v.users[i]);
            }
        }
    }
}

/// Every operation keeps the invariant.
pub proof fn lemma_operations_keep_valid(
    v: RewardsView,
    caller: Address,
    user: Address,
    token: Address,
    vault: Address,
    amount: i128,
    now: u32,
)
    requires
        v.valid(),
    ensures
        v.initialize(caller, token, vault, amount).0.valid(),
        v.checkpoint(user, now).0.valid(),
        v.claim_rewards(user, now).0.valid(),
        v.update_total_shares(caller, amount).0.valid(),
        v.set_reward_rate(caller, amount).0.valid(),
        v.update_user_shares(user, amount, now).0.valid(),
{
    if v.admin is None {
        lemma_nothing_accrues_uninitialized(v, user, now);
    }
    let (c, r) = v.checkpoint(user, now);
    if r is Ok {
        let rec = UserRewards { last_ledger: Some(now), pending: v.pending_rewards(user, now)->Ok_0, ..v.user(user) };
        lemma_put_user_valid(v, user, rec);
        lemma_put_user(v, user, rec);
        assert(c.user(user) == rec);
        lemma_put_user_valid(c, user, UserRewards { pending: 0, ..c.user(user) });
        lemma_put_user_valid(c, user, UserRewards { snapshot: amount, ..c.user(user) });
    }
}

/// A refused call leaves the engine exactly as it was.
pub proof fn lemma_refusals_change_nothing(v: RewardsView, caller: Address, user: Address, amount: i128, now: u32)
    ensures
        v.initialize(caller, user, user, amount).1 is Err ==> v.initialize(caller, user, user, amount).0 == v,
        v.checkpoint(user, now).1 is Err ==> v.checkpoint(user, now).0 == v,
        v.claim_rewards(user, now).1 is Err ==> v.claim_rewards(user, now).0 == v,
        v.update_total_shares(caller, amount).1 is Err ==> v.update_total_shares(caller, amount).0 == v,
        v.set_reward_rate(caller, amount).1 is Err ==> v.set_reward_rate(caller, amount).0 == v,
        v.update_user_shares(user, amount, now).1 is Err ==> v.update_user_shares(user, amount, now).0 == v,
{
}

/// Checkpointing changes nobody's entitlement: at the checkpoint's ledger
/// the user is owed what was owed before, and every other user is owed, at
/// every ledger, what was owed before.
pub proof fn lemma_checkpoint_keeps_entitlements(v: RewardsView, user: Address, other: Address, now: u32, later: u32)
    requires
        v.valid(),
        v.checkpoint(user, now).1 is Ok,
        other != user,
    ensures
        v.checkpoint(user, now).0.pending_rewards(user, now) == v.pending_rewards(user, now),
        v.checkpoint(user, now).0.pending_rewards(other, later) == v.pending_rewards(other, later),
{
    let rec = UserRewards { last_ledger: Some(now), pending: v.pending_rewards(user, now)->Ok_0, ..v.user(user) };
    lemma_put_user(v, user, rec);
}

/// Claiming pays out exactly what is owed when that is positive (nothing
/// otherwise), leaves nothing owed at that ledger, and adds the payout to the
/// total paid out.
pub proof fn lemma_claim_pays_what_is_owed(v: RewardsView, user: Address, now: u32)
    requires
        v.valid(),
        v.claim_rewards(user, now).1 is Ok,
    ensures
        v.pending_rewards(user, now) is Ok,
        ({
            let owed = v.pending_rewards(user, now)->Ok_0;
            let paid = v.claim_rewards(user, now).1->Ok_0;
            let after = v.claim_rewards(user, now).0;
            &&& paid == if owed > 0 { owed } else { 0 }
            &&& after.pending_rewards(user, now) == Ok::<i128, RewardsError>((owed - paid) as i128)
            &&& after.total_distributed == v.total_distributed + paid
        }),
{
    let owed = v.pending_rewards(user, now)->Ok_0;
    let rec = UserRewards { last_ledger: Some(now), pending: owed, ..v.user(user) };
    lemma_put_user(v, user, rec);
    let c = v.checkpoint(user, now).0;
    assert(c.user(user) == rec);
    if owed > 0 {
        lemma_put_user(c, user, UserRewards { pending: 0, ..rec });
        lemma_operations_keep_valid(v, user, user, user, user, 0, now);
        lemma_put(v.users, user, rec);
    }
}

/// The total paid out never decreases.
pub proof fn lemma_total_distributed_never_decreases(v: RewardsView, caller: Address, user: Address, amount: i128, now: u32)
    requires
        v.valid(),
    ensures
        v.initialize(caller, user, user, amount).0.total_distributed >= v.total_distributed,
        v.checkpoint(user, now).0.total_distributed == v.total_distributed,
        v.claim_rewards(user, now).0.total_distributed >= v.total_distributed,
        v.update_total_shares(caller, amount).0.total_distributed == v.total_distributed,
        v.set_reward_rate(caller, amount).0.total_distributed == v.total_distributed,
        v.update_user_shares(user, amount, now).0.total_distributed == v.total_distributed,
{
    let c = v.checkpoint(user, now).0;
    if v.checkpoint(user, now).1 is Ok {
        let rec = UserRewards { last_ledger: Some(now), pending: v.pending_rewards(user, now)->Ok_0, ..v.user(user) };
        lemma_put_user(v, user, rec);
        assert(c.user(user) == rec);
    }
}

/// Changing the rate or the reported supply leaves every user's record, and
/// so every checkpointed reward, as it was.
pub proof fn lemma_rate_and_supply_changes_keep_records(v: RewardsView, caller: Address, amount: i128)
    ensures
        v.set_reward_rate(caller, amount).0.users == v.users,
        v.update_total_shares(caller, amount).0.users == v.users,
{
}

/// Rewards follow share ownership: of two users checkpointed at the same
/// ledger, one holding `k` times the other's shares accrues `k` times the
/// other's rewards, less at most the `k - 1` that rounding took from the
/// smaller amount (while the products stay within `i128`).
pub proof fn lemma_rewards_proportional_to_shares(v: RewardsView, a: Address, b: Address, now: u32, k: int)
    requires
        v.valid(),
        v.user(a).last_ledger == v.user(b).last_ledger,
        v.user(a).last_ledger matches Some(l) && l < now,
        v.user(a).snapshot > 0,
        k >= 1,
        v.user(b).snapshot == k * v.user(a).snapshot,
        v.reward_rate >= 0,
        v.total_shares > 0,
        (now - v.user(a).last_ledger->Some_0) * v.reward_rate * v.user(b).snapshot <= i128::MAX,
    ensures
        v.newly_accrued(a, now) is Ok,
        v.newly_accrued(b, now) is Ok,
        k * v.newly_accrued(a, now)->Ok_0 <= v.newly_accrued(b, now)->Ok_0,
        v.newly_accrued(b, now)->Ok_0 <= k * v.newly_accrued(a, now)->Ok_0 + k - 1,
{
    let e = (now - v.user(a).last_ledger->Some_0) as int;
    let r = v.reward_rate as int;
    let s = v.user(a).snapshot as int;
    let t = v.total_shares as int;
    let p = REWARD_PRECISION as int;
    assert(e * r >= 0 && e * r <= e * r * s && e * r * s <= e * r * (k * s) && e * r * s >= 0)
        by (nonlinear_arith)
        requires
            e > 0,
            r >= 0,
            s >= 1,
            k >= 1,
    ;
    assert((e * r) * (k * s) == k * ((e * r) * s)) by (nonlinear_arith);
    let x = (e * r) * s;
    assert(saturating_product(e, r) == e * r);
    assert(saturating_product(e * r, s) == x);
    assert(saturating_product(e * r, k * s) == k * x);
    lemma_div_denominator(x, t, p);
    lemma_div_denominator(k * x, t, p);
    crate::math::lemma_floor_div(x, t);
    crate::math::lemma_floor_div(k * x, t);
    crate::math::lemma_floor_div(x / t, p);
    crate::math::lemma_floor_div((k * x) / t, p);
    assert(t * p > 0) by (nonlinear_arith)
        requires
            t > 0,
            p > 0,
    ;
    lemma_floor_scaling(x, k, t * p);
}

/// Accrual grows with elapsed time: with a non-negative rate, a
/// non-negative share balance and a positive supply, more elapsed ledgers
/// never accrue less, and nothing accrued is negative.
pub proof fn lemma_accrual_monotone_in_time(e1: int, e2: int, rate: int, user_shares: int, total_shares: int)
    requires
        0 <= e1 <= e2,
        rate >= 0,
        user_shares >= 0,
        total_shares > 0,
    ensures
        accrual(e1, rate, user_shares, total_shares) is Some,
        accrual(e2, rate, user_shares, total_shares) is Some,
        0 <= accrual(e1, rate, user_shares, total_shares)->Some_0 <= accrual(e2, rate, user_shares, total_shares)->Some_0,
{
    assert(0 <= e1 * rate <= e2 * rate) by (nonlinear_arith)
        requires
            0 <= e1 <= e2,
            rate >= 0,
    ;
    let s1 = saturating_product(e1, rate);
    let s2 = saturating_product(e2, rate);
    assert(0 <= s1 <= s2);
    assert(0 <= s1 * user_shares <= s2 * user_shares) by (nonlinear_arith)
        requires
            0 <= s1 <= s2,
            user_shares >= 0,
    ;
    let g1 = saturating_product(s1, user_shares);
    let g2 = saturating_product(s2, user_shares);
    assert(0 <= g1 <= g2 <= i128::MAX);
    lemma_div_is_ordered(g1, g2, total_shares);
    crate::math::lemma_floor_div(g1, total_shares);
    crate::math::lemma_floor_div(g2, total_shares);
    let p1 = g1 / total_shares;
    let p2 = g2 / total_shares;
    lemma_div_is_ordered(p1, p2, REWARD_PRECISION as int);
    crate::math::lemma_floor_div(p1, REWARD_PRECISION as int);
    crate::math::lemma_floor_div(p2, REWARD_PRECISION as int);
}

/// Rewards never fall as ledgers pass: with a non-negative rate, a
/// non-negative share balance and a positive supply, what a user has accrued
/// since the last checkpoint (and so what the user is owed) at a later ledger
/// is at least what it was at an earlier one.
pub proof fn lemma_rewards_never_decrease_over_time(v: RewardsView, user: Address, earlier: u32, later: u32)
    requires
        v.valid(),
        earlier <= later,
        v.reward_rate >= 0,
        v.user(user).snapshot >= 0,
        v.total_shares > 0,
    ensures
        v.newly_accrued(user, earlier) is Ok,
        v.newly_accrued(user, later) is Ok,
        0 <= v.newly_accrued(user, earlier)->Ok_0 <= v.newly_accrued(user, later)->Ok_0,
        v.pending_rewards(user, earlier) is Ok && v.pending_rewards(user, later) is Ok
            ==> v.pending_rewards(user, earlier)->Ok_0 <= v.pending_rewards(user, later)->Ok_0,
{
    let r = v.user(user);
    let rate = v.reward_rate as int;
    let us = r.snapshot as int;
    let t = v.total_shares as int;
    if let Some(last) = r.last_ledger {
        if earlier > last {
            lemma_accrual_monotone_in_time((earlier - last) as int, (later - last) as int, rate, us, t);
        } else if later > last {
            lemma_accrual_monotone_in_time(0, (later - last) as int, rate, us, t);
        }
    }
}

/// One call on the engine, with its arguments.
pub enum RewardsCall {
    Initialize { admin: Address, reward_token: Address, vault: Address, reward_rate: i128 },
    Checkpoint { user: Address, now: u32 },
    ClaimRewards { user: Address, now: u32 },
    UpdateTotalShares { caller: Address, total_shares: i128 },
    SetRewardRate { caller: Address, new_rate: i128 },
    UpdateUserShares { user: Address, shares: i128, now: u32 },
}

/// The state after one call, and what that call paid out (the amount a
/// successful claim returns; 0 for every other call).
pub open spec fn step(v: RewardsView, call: RewardsCall) -> (RewardsView, int) {
    match call {
        RewardsCall::Initialize { admin, reward_token, vault, reward_rate } =>
            (v.initialize(admin, reward_token, vault, reward_rate).0, 0),
        RewardsCall::Checkpoint { user, now } => (v.checkpoint(user, now).0, 0),
        RewardsCall::ClaimRewards { user, now } => {
            let (w, r) = v.claim_rewards(user, now);
            (w, match r {
                Ok(c) => c as int,
                Err(_) => 0,
            })
        },
        RewardsCall::UpdateTotalShares { caller, total_shares } =>
            (v.update_total_shares(caller, total_shares).0, 0),
        RewardsCall::SetRewardRate { caller, new_rate } => (v.set_reward_rate(caller, new_rate).0, 0),
        RewardsCall::UpdateUserShares { user, shares, now } =>
            (v.update_user_shares(user, shares, now).0, 0),
    }
}

/// The state after a history of calls, made in order.
pub open spec fn replay(v: RewardsView, calls: Seq<RewardsCall>) -> RewardsView
    decreases calls.len(),
{
    if calls.len() == 0 {
        v
    } else {
        step(replay(v, calls.drop_last()), calls.last()).0
    }
}

/// The sum of what the claims of a history of calls paid out.
pub open spec fn total_paid(v: RewardsView, calls: Seq<RewardsCall>) -> int
    decreases calls.len(),
{
    if calls.len() == 0 {
        0
    } else {
        total_paid(v, calls.drop_last()) + step(replay(v, calls.drop_last()), calls.last()).1
    }
}

/// One call keeps the invariant and moves the total paid out by exactly
/// what it paid.
pub proof fn lemma_step_pays_into_total(v: RewardsView, call: RewardsCall)
    requires
        v.valid(),
    ensures
        step(v, call).0.valid(),
        step(v, call).0.total_distributed == v.total_distributed + step(v, call).1,
{
    match call {
        RewardsCall::Initialize { admin, reward_token, vault, reward_rate } => {
            lemma_operations_keep_valid(v, admin, admin, reward_token, vault, reward_rate, 0);
        },
        RewardsCall::Checkpoint { user, now } => {
            lemma_operations_keep_valid(v, user, user, user, user, 0, now);
            lemma_total_distributed_never_decreases(v, user, user, 0, now);
        },
        RewardsCall::ClaimRewards { user, now } => {
            lemma_operations_keep_valid(v, user, user, user, user, 0, now);
            if v.claim_rewards(user, now).1 is Ok {
                lemma_claim_pays_what_is_owed(v, user, now);
            }
        },
        RewardsCall::UpdateTotalShares { caller, total_shares } => {
            lemma_operations_keep_valid(v, caller, caller, caller, caller, total_shares, 0);
        },
        RewardsCall::SetRewardRate { caller, new_rate } => {
            lemma_operations_keep_valid(v, caller, caller, caller, caller, new_rate, 0);
        },
        RewardsCall::UpdateUserShares { user, shares, now } => {
            lemma_operations_keep_valid(v, user, user, user, user, shares, now);
            lemma_total_distributed_never_decreases(v, user, user, shares, now);
        },
    }
}

/// The total paid out is the sum of every claim's payout: over any history
/// of calls, it grows by exactly what the claims paid, and from a freshly
/// deployed engine it equals that sum (0 before any claim).
pub proof fn lemma_total_distributed_is_sum_of_claims(v: RewardsView, calls: Seq<RewardsCall>)
    requires
        v.valid(),
    ensures
        replay(v, calls).valid(),
        replay(v, calls).total_distributed == v.total_distributed + total_paid(v, calls),
        v == RewardsView::initial() ==> replay(v, calls).total_distributed == total_paid(v, calls),
    decreases calls.len(),
{
    if calls.len() > 0 {
        lemma_total_distributed_is_sum_of_claims(v, calls.drop_last());
        lemma_step_pays_into_total(replay(v, calls.drop_last()), calls.last());
    }
}

/// The accrual formula, in absolute terms: a user checkpointed at ledger
/// `last < now` with `s > 0` shares of a supply `t > 0`, at a rate `r >= 0`,
/// has accrued `((now - last) * r * s / t) / REWARD_PRECISION`, rounded
/// down, while that product fits in `i128`; and is owed that on top of the
/// checkpointed rewards.
pub proof fn lemma_accrual_formula(v: RewardsView, user: Address, now: u32)
    requires
        v.valid(),
        v.user(user).last_ledger matches Some(last) && last < now,
        v.user(user).snapshot > 0,
        v.total_shares > 0,
        v.reward_rate >= 0,
        (now - v.user(user).last_ledger->Some_0) * v.reward_rate * v.user(user).snapshot <= i128::MAX,
    ensures
        ({
            let e = (now - v.user(user).last_ledger->Some_0) as int;
            let x = e * v.reward_rate * v.user(user).snapshot;
            let a = x / (v.total_shares as int) / 1_000_000_000;
            &&& v.newly_accrued(user, now) == Ok::<i128, RewardsError>(a as i128)
            &&& v.user(user).pending + a <= i128::MAX ==> v.pending_rewards(user, now) == Ok::<i128, RewardsError>(
                (v.user(user).pending + a) as i128,
            )
        }),
{
    let e = (now - v.user(user).last_ledger->Some_0) as int;
    let r = v.reward_rate as int;
    let s = v.user(user).snapshot as int;
    let t = v.total_shares as int;
    assert(0 <= e * r <= e * r * s) by (nonlinear_arith)
        requires
            e > 0,
            r >= 0,
            s >= 1,
    ;
    assert(saturating_product(e, r) == e * r);
    assert(saturating_product(e * r, s) == e * r * s);
    let x = e * r * s;
    crate::math::lemma_floor_div(x, t);
    crate::math::lemma_floor_div(x / t, REWARD_PRECISION as int);
    lemma_accrual_monotone_in_time(0, e, r, s, t);
}

/// What `update_user_shares` does: it succeeds exactly when what the user
/// is owed at `now` can be computed; then the user's record holds the new
/// share balance, restarts accrual at `now`, and keeps as checkpointed
/// rewards everything owed before the call; nobody else's record, nor the
/// rate, the supply or the payouts, change.
pub proof fn lemma_update_user_shares_outcome(v: RewardsView, user: Address, shares: i128, now: u32, other: Address)
    requires
        v.valid(),
        other != user,
    ensures
        v.update_user_shares(user, shares, now).1 is Ok <==> v.pending_rewards(user, now) is Ok,
        v.update_user_shares(user, shares, now).1 is Ok ==> {
            let w = v.update_user_shares(user, shares, now).0;
            &&& w.user(user).snapshot == shares
            &&& w.user(user).last_ledger == Some(now)
            &&& w.user(user).pending == v.pending_rewards(user, now)->Ok_0
            &&& w.user(other) == v.user(other)
            &&& w.reward_rate == v.reward_rate
            &&& w.total_shares == v.total_shares
            &&& w.total_distributed == v.total_distributed
        },
{
    if v.pending_rewards(user, now) is Ok {
        let rec = UserRewards { last_ledger: Some(now), pending: v.pending_rewards(user, now)->Ok_0, ..v.user(user) };
        lemma_put_user(v, user, rec);
        let c = v.checkpoint(user, now).0;
        assert(c.user(user) == rec);
        assert(c.user(other) == v.user(other));
        lemma_put_user(c, user, UserRewards { snapshot: shares, ..rec });
    }
}

/// What `checkpoint` does: it succeeds exactly when what the user is owed
/// at `now` can be computed; then the user's checkpointed rewards are that
/// amount, accrual restarts at `now`, and the share balance stays.
pub proof fn lemma_checkpoint_outcome(v: RewardsView, user: Address, now: u32)
    requires
        v.valid(),
    ensures
        v.checkpoint(user, now).1 is Ok <==> v.pending_rewards(user, now) is Ok,
        v.checkpoint(user, now).1 is Ok ==> {
            let w = v.checkpoint(user, now).0;
            &&& w.user(user).pending == v.pending_rewards(user, now)->Ok_0
            &&& w.user(user).last_ledger == Some(now)
            &&& w.user(user).snapshot == v.user(user).snapshot
        },
{
    if v.pending_rewards(user, now) is Ok {
        let rec = UserRewards { last_ledger: Some(now), pending: v.pending_rewards(user, now)->Ok_0, ..v.user(user) };
        lemma_put_user(v, user, rec);
    }
}

/// What the admin and the vault change: the vault's report sets the supply
/// and the admin's call sets the rate, each succeeding exactly for its own
/// role once initialized.
pub proof fn lemma_role_updates_outcome(v: RewardsView, caller: Address, amount: i128)
    ensures
        v.update_total_shares(caller, amount).1 is Ok <==> v.vault == Some(caller),
        v.update_total_shares(caller, amount).1 is Ok ==> v.update_total_shares(caller, amount).0.total_shares == amount,
        v.set_reward_rate(caller, amount).1 is Ok <==> v.admin == Some(caller),
        v.set_reward_rate(caller, amount).1 is Ok ==> v.set_reward_rate(caller, amount).0.reward_rate == amount,
{
}

/// The engine's executable state, kept to `RewardsView`'s invariant.
pub struct RewardsContract {
    admin: Option<Address>,
    reward_token: Option<Address>,
    vault: Option<Address>,
    reward_rate: i128,
    total_shares: i128,
    total_distributed: i128,
    users: AddressMap<UserRewards>,
}

impl View for RewardsContract {
    type V = RewardsView;

    closed spec fn view(&self) -> RewardsView {
        RewardsView {
            admin: self.admin,
            reward_token: self.reward_token,
            vault: self.vault,
            reward_rate: self.reward_rate,
            total_shares: self.total_shares,
            total_distributed: self.total_distributed,
            users: self.users@,
        }
    }
}

impl RewardsContract {
    /// An engine as deployed, before `initialize`.
    pub fn new() -> (r: RewardsContract)
        ensures
            r@ == RewardsView::initial(),
            r@.valid(),
    {
        RewardsContract {
            admin: None,
            reward_token: None,
            vault: None,
            reward_rate: 0,
            total_shares: 0,
            total_distributed: 0,
            users: AddressMap::new(),
        }
    }

    /// An engine restored from stored parts; `None` when they break the
    /// invariant.
    pub fn from_parts(
        admin: Option<Address>,
        reward_token: Option<Address>,
        vault: Option<Address>,
        reward_rate: i128,
        total_shares: i128,
        total_distributed: i128,
        users: Vec<(Address, UserRewards)>,
    ) -> (r: Option<RewardsContract>)
        ensures
            ({
                let w = RewardsView {
                    admin,
                    reward_token,
                    vault,
                    reward_rate,
                    total_shares,
                    total_distributed,
                    users: users@,
                };
                &&& r is Some <==> w.valid()
                &&& r matches Some(c) ==> c@ == w
            }),
    {
        if admin.is_some() != reward_token.is_some() || admin.is_some() != vault.is_some()
            || total_distributed < 0 {
            return None;
        }
        if admin.is_none() {
            if reward_rate != 0 || total_shares != 0 || total_distributed != 0 {
                return None;
            }
            let mut i: usize = 0;
            while i < users.len()
                invariant
                    i <= users@.len(),
                    admin is None,
                    forall|j: int| 0 <= j < i ==> #[trigger] users@[j].1.pending == 0,
                decreases users@.len() - i,
            {
                if users[i].1.pending != 0 {
                    assert(users@[i as int].1.pending != 0);
                    return None;
                }
                i = i + 1;
            }
        }
        match AddressMap::from_vec(users) {
            Some(m) => Some(
                RewardsContract {
                    admin,
                    reward_token,
                    vault,
                    reward_rate,
                    total_shares,
                    total_distributed,
                    users: m,
                },
            ),
            None => None,
        }
    }

    /// The admin, once initialized.
    pub fn admin(&self) -> (r: Option<Address>)
        ensures
            r == self@.admin,
    {
        self.admin
    }

    /// The token paid out as rewards, once initialized.
    pub fn reward_token(&self) -> (r: Option<Address>)
        ensures
            r == self@.reward_token,
    {
        self.reward_token
    }

    /// The vault that reports the share supply, once initialized.
    pub fn vault(&self) -> (r: Option<Address>)
        ensures
            r == self@.vault,
    {
        self.vault
    }

    /// The rate, scaled by `REWARD_PRECISION`.
    pub fn reward_rate(&self) -> (r: i128)
        ensures
            r == self@.reward_rate,
    {
        self.reward_rate
    }

    /// The share supply that the vault last reported.
    pub fn total_shares(&self) -> (r: i128)
        ensures
            r == self@.total_shares,
    {
        self.total_shares
    }

    /// The per-user records, in the order in which the users first arrived.
    pub fn users(&self) -> (r: Vec<(Address, UserRewards)>)
        ensures
            r@ == self@.users,
    {
        self.users.to_vec()
    }

    /// Sets the admin, the reward token, the vault and the rate; refused once
    /// the engine has an admin.
    pub fn initialize(&mut self, admin: Address, reward_token: Address, vault: Address, reward_rate: i128) -> (r: Result<(), RewardsError>)
        requires
            old(self)@.valid(),
        ensures
            (final(self)@, r) == old(self)@.initialize(admin, reward_token, vault, reward_rate),
            final(self)@.valid(),
    {
        proof {
            lemma_operations_keep_valid(self@, admin, admin, reward_token, vault, reward_rate, 0);
        }
        if self.admin.is_some() {
            return Err(RewardsError::AlreadyInitialized);
        }
        self.admin = Some(admin);
        self.reward_token = Some(reward_token);
        self.vault = Some(vault);
        self.reward_rate = reward_rate;
        self.total_shares = 0;
        self.total_distributed = 0;
        Ok(())
    }

    /// The record kept for `user`.
    fn user_record(&self, user: Address) -> (r: UserRewards)
        requires
            self@.valid(),
        ensures
            r == self@.user(user),
    {
        match self.users.get(user) {
            Some(r) => r,
            None => UserRewards { last_ledger: None, pending: 0, snapshot: 0 },
        }
    }

    /// Rewards accrued by `user` since the last checkpoint, at ledger
    /// `current_ledger`.
    pub fn compute_pending(&self, user: Address, current_ledger: u32) -> (r: Result<i128, RewardsError>)
        requires
            self@.valid(),
        ensures
            r == self@.newly_accrued(user, current_ledger),
    {
        let rec = self.user_record(user);
        let last_ledger = match rec.last_ledger {
            Some(l) => l,
            None => current_ledger,
        };
        if current_ledger <= last_ledger {
            return Ok(0);
        }
        let elapsed = (current_ledger - last_ledger) as i128;
        let user_shares = rec.snapshot;
        if user_shares == 0 {
            return Ok(0);
        }
        let total_shares = self.total_shares;
        if total_shares == 0 {
            return Ok(0);
        }
        let gross = saturating_mul(saturating_mul(elapsed, self.reward_rate), user_shares);
        match checked_trunc_div(gross, total_shares) {
            Some(per_share) => match checked_trunc_div(per_share, REWARD_PRECISION) {
                Some(a) => Ok(a),
                None => Err(RewardsError::ArithmeticOverflow),
            },
            None => Err(RewardsError::ArithmeticOverflow),
        }
    }

    /// The rewards owed to `user` at ledger `current_ledger`, checkpointed or
    /// not; nothing is changed.
    pub fn pending_rewards(&self, user: Address, current_ledger: u32) -> (r: Result<i128, RewardsError>)
        requires
            self@.valid(),
        ensures
            r == self@.pending_rewards(user, current_ledger),
    {
        let stored = self.user_record(user).pending;
        match self.compute_pending(user, current_ledger) {
            Ok(a) => match stored.checked_add(a) {
                Some(p) => Ok(p),
                None => Err(RewardsError::ArithmeticOverflow),
            },
            Err(e) => Err(e),
        }
    }

    /// Moves what `user` accrued up to `current_ledger` into the
    /// checkpointed rewards and restarts accrual there.
    pub fn checkpoint(&mut self, user: Address, current_ledger: u32) -> (r: Result<(), RewardsError>)
        requires
            old(self)@.valid(),
        ensures
            (final(self)@, r) == old(self)@.checkpoint(user, current_ledger),
            final(self)@.valid(),
    {
        proof {
            lemma_operations_keep_valid(self@, user, user, user, user, 0, current_ledger);
        }
        let p = match self.pending_rewards(user, current_ledger) {
            Ok(p) => p,
            Err(e) => {
                return Err(e);
            },
        };
        let rec = self.user_record(user);
        self.users.put(user, UserRewards { last_ledger: Some(current_ledger), pending: p, snapshot: rec.snapshot });
        Ok(())
    }

    /// Checkpoints `user`, then clears and returns what is owed when it is
    /// positive (0 otherwise), adding it to the total paid out; the caller
    /// transfers that amount of the reward token.
    pub fn claim_rewards(&mut self, user: Address, current_ledger: u32) -> (r: Result<i128, RewardsError>)
        requires
            old(self)@.valid(),
        ensures
            (final(self)@, r) == old(self)@.claim_rewards(user, current_ledger),
            final(self)@.valid(),
    {
        proof {
            lemma_operations_keep_valid(self@, user, user, user, user, 0, current_ledger);
        }
        let p = match self.pending_rewards(user, current_ledger) {
            Ok(p) => p,
            Err(e) => {
                return Err(e);
            },
        };
        let rec = self.user_record(user);
        proof {
            let c = self@.checkpoint(user, current_ledger).0;
            lemma_put_user(self@, user, UserRewards { last_ledger: Some(current_ledger), pending: p, ..rec });
            assert(c.user(user).pending == p);
        }
        if p <= 0 {
            self.users.put(user, UserRewards { last_ledger: Some(current_ledger), pending: p, snapshot: rec.snapshot });
            return Ok(0);
        }
        let new_total = match self.total_distributed.checked_add(p) {
            Some(t) => t,
            None => {
                return Err(RewardsError::ArithmeticOverflow);
            },
        };
        proof {
            lemma_put_put(
                self@.users,
                user,
                UserRewards { last_ledger: Some(current_ledger), pending: p, ..rec },
                UserRewards { last_ledger: Some(current_ledger), pending: 0, ..rec },
            );
        }
        self.users.put(user, UserRewards { last_ledger: Some(current_ledger), pending: 0, snapshot: rec.snapshot });
        self.total_distributed = new_total;
        Ok(p)
    }

    /// The vault reports its share supply; refused from anyone else.
    pub fn update_total_shares(&mut self, caller: Address, total_shares: i128) -> (r: Result<(), RewardsError>)
        requires
            old(self)@.valid(),
        ensures
            (final(self)@, r) == old(self)@.update_total_shares(caller, total_shares),
            final(self)@.valid(),
    {
        proof {
            lemma_operations_keep_valid(self@, caller, caller, caller, caller, total_shares, 0);
        }
        match self.vault {
            None => Err(RewardsError::NotInitialized),
            Some(v) => {
                if caller != v {
                    return Err(RewardsError::NotVault);
                }
                self.total_shares = total_shares;
                Ok(())
            },
        }
    }

    /// The admin changes the reward rate; refused from anyone else. The
    /// caller's authorization is checked by the host, after this check.
    pub fn set_reward_rate(&mut self, caller: Address, new_rate: i128) -> (r: Result<(), RewardsError>)
        requires
            old(self)@.valid(),
        ensures
            (final(self)@, r) == old(self)@.set_reward_rate(caller, new_rate),
            final(self)@.valid(),
    {
        proof {
            lemma_operations_keep_valid(self@, caller, caller, caller, caller, new_rate, 0);
        }
        match self.admin {
            None => Err(RewardsError::NotInitialized),
            Some(a) => {
                if caller != a {
                    return Err(RewardsError::NotAdmin);
                }
                self.reward_rate = new_rate;
                Ok(())
            },
        }
    }

    /// Checkpoints `user` at `current_ledger`, then records `shares` as the
    /// balance that accrues from now on.
    pub fn update_user_shares(&mut self, user: Address, shares: i128, current_ledger: u32) -> (r: Result<(), RewardsError>)
        requires
            old(self)@.valid(),
        ensures
            (final(self)@, r) == old(self)@.update_user_shares(user, shares, current_ledger),
            final(self)@.valid(),
    {
        proof {
            lemma_operations_keep_valid(self@, user, user, user, user, shares, current_ledger);
        }
        let p = match self.pending_rewards(user, current_ledger) {
            Ok(p) => p,
            Err(e) => {
                return Err(e);
            },
        };
        let rec = self.user_record(user);
        proof {
            lemma_put_user(self@, user, UserRewards { last_ledger: Some(current_ledger), pending: p, ..rec });
        }
        proof {
            lemma_put_put(
                self@.users,
                user,
                UserRewards { last_ledger: Some(current_ledger), pending: p, ..rec },
                UserRewards { last_ledger: Some(current_ledger), pending: p, snapshot: shares },
            );
        }
        self.users.put(user, UserRewards { last_ledger: Some(current_ledger), pending: p, snapshot: shares });
        Ok(())
    }

    /// The rewards paid out since deployment.
    pub fn total_distributed(&self) -> (r: i128)
        ensures
            r == self@.total_distributed,
    {
        self.total_distributed
    }
}

} // verus!
