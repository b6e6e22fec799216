use vstd::prelude::*;
use crate::address::Address;
use crate::address_map::{
    AddressMap, find_key, keys_distinct, lemma_find_key, lemma_put, lemma_sum_bounds,
    lemma_sum_prefix_le, lemma_sum_put, lemma_sum_take_next, lookup, put, sum_by,
};

verus! {

/// The most that the weights of all registered strategies may add up to:
/// 100%, in basis points.
pub const MAX_TOTAL_WEIGHT_BPS: u32 = 10000;

/// Why the router refused a call; the state is left as it was.
#[derive(Clone, Copy, Debug, PartialEq, Eq, Structural)]
pub enum RouterError {
    /// `initialize` on a router that already has an admin.
    AlreadyInitialized,
    /// A call that needs a role before `initialize`.
    NotInitialized,
    /// An admin-only call from someone else.
    NotAdmin,
    /// A strategist-only call from someone else.
    NotStrategist,
    /// A vault-only call from someone else.
    NotVault,
    /// A weight above 10000 basis points.
    InvalidWeight,
    /// `add_strategy` for a strategy that is already registered.
    AlreadyRegistered,
    /// A weight that would take the sum of all weights above 10000.
    WeightLimitExceeded,
    /// A call about a strategy that is not registered.
    StrategyNotFound,
    /// An allocation to a deactivated strategy.
    StrategyInactive,
    /// A result that does not fit in an `i128`.
    ArithmeticOverflow,
}

/// A registered strategy: its address, its weight in basis points, whether
/// it takes new capital, and the capital it holds.
#[derive(Clone, Copy, Debug, PartialEq, Eq, Structural)]
pub struct StrategyInfo {
    pub address: Address,
    pub weight_bps: u32,
    pub active: bool,
    pub allocated: i128,
}

/// The number of values of an `i128`.
pub open spec fn i128_span() -> int {
    i128::MAX as int - i128::MIN as int + 1
}

/// How a strategy counts in the sum of weights.
pub open spec fn weight_measure() -> spec_fn(StrategyInfo) -> int {
    |i: StrategyInfo| i.weight_bps as int
}

/// How a strategy counts in the capital allocated.
pub open spec fn allocation_measure() -> spec_fn(StrategyInfo) -> int {
    |i: StrategyInfo| i.allocated as int
}

/// The router's state; strategies are kept in the order of registration.
pub struct RouterView {
    pub admin: Option<Address>,
    pub strategist: Option<Address>,
    pub vault: Option<Address>,
    pub strategies: Seq<(Address, StrategyInfo)>,
    pub total_allocated: i128,
}

impl RouterView {
    /// A router as deployed, before `initialize`.
    pub open spec fn initial() -> RouterView {
        RouterView { admin: None, strategist: None, vault: None, strategies: Seq::empty(), total_allocated: 0 }
    }

    /// Each strategy is registered once under its own address, the weights
    /// add up to at most 10000 basis points,
    /// the total allocated is the sum of the strategies' allocations, the
    /// three roles are set together, and nothing is registered before that.
    pub open spec fn valid(self) -> bool {
        &&& keys_distinct(self.strategies)
        &&& forall|i: int| 0 <= i < self.strategies.len() ==> #[trigger] self.strategies[i].1.address == self.strategies[i].0
        &&& sum_by(self.strategies, weight_measure()) <= MAX_TOTAL_WEIGHT_BPS
        &&& self.total_allocated as int == sum_by(self.strategies, allocation_measure())
        &&& (self.admin is Some) == (self.strategist is Some)
        &&& (self.admin is Some) == (self.vault is Some)
        &&& self.admin is None ==> self.strategies.len() == 0
    }

    /// The addresses of the registered strategies, in order of registration.
    pub open spec fn strategy_list(self) -> Seq<Address> {
        self.strategies.map_values(|e: (Address, StrategyInfo)| e.0)
    }

    /// The sum of all registered strategies' weights.
    pub open spec fn total_weight(self) -> int {
        sum_by(self.strategies, weight_measure())
    }

    /// `strategy_info`: the record of a registered strategy.
    pub open spec fn strategy_info(self, strategy: Address) -> Result<StrategyInfo, RouterError> {
        match lookup(self.strategies, strategy) {
            Some(i) => Ok(i),
            None => Err(RouterError::StrategyNotFound),
        }
    }

    /// The admin check that guards admin-only calls.
    pub open spec fn check_admin(self, caller: Address) -> Result<(), RouterError> {
        match self.admin {
            None => Err(RouterError::NotInitialized),
            Some(a) => if a != caller { Err(RouterError::NotAdmin) } else { Ok(()) },
        }
    }

    /// The strategist check that guards strategist-only calls.
    pub open spec fn check_strategist(self, caller: Address) -> Result<(), RouterError> {
        match self.strategist {
            None => Err(RouterError::NotInitialized),
            Some(a) => if a != caller { Err(RouterError::NotStrategist) } else { Ok(()) },
        }
    }

    /// The vault check that guards vault-only calls.
    pub open spec fn check_vault(self, caller: Address) -> Result<(), RouterError> {
        match self.vault {
            None => Err(RouterError::NotInitialized),
            Some(a) => if a != caller { Err(RouterError::NotVault) } else { Ok(()) },
        }
    }

    /// `initialize`: sets the three roles once, with no strategy and nothing
    /// allocated.
    pub open spec fn initialize(self, admin: Address, strategist: Address, vault: Address) -> (RouterView, Result<(), RouterError>) {
        if self.admin is Some {
            (self, Err(RouterError::AlreadyInitialized))
        } else {
            (
                RouterView {
                    admin: Some(admin),
                    strategist: Some(strategist),
                    vault: Some(vault),
                    strategies: Seq::empty(),
                    total_allocated: 0,
                },
                Ok(()),
            )
        }
    }

    /// `add_strategy`: the admin registers a new, active strategy with nothing
    /// allocated, at the end of the list.
    pub open spec fn add_strategy(self, caller: Address, strategy: Address, weight_bps: u32) -> (RouterView, Result<(), RouterError>) {
        if self.check_admin(caller) is Err {
            (self, Err(self.check_admin(caller)->Err_0))
        } else if weight_bps > MAX_TOTAL_WEIGHT_BPS {
            (self, Err(RouterError::InvalidWeight))
        } else if lookup(self.strategies, strategy) is Some {
            (self, Err(RouterError::AlreadyRegistered))
        } else if self.total_weight() + weight_bps > MAX_TOTAL_WEIGHT_BPS {
            (self, Err(RouterError::WeightLimitExceeded))
        } else {
            (
                RouterView {
                    strategies: self.strategies.push(
                        (strategy, StrategyInfo { address: strategy, weight_bps, active: true, allocated: 0 }),
                    ),
                    ..self
                },
                Ok(()),
            )
        }
    }

    /// `deactivate_strategy`: the admin stops a strategy from taking new
    /// capital; returns the capital it still holds when that is positive, for
    /// a warning.
    pub open spec fn deactivate_strategy(self, caller: Address, strategy: Address) -> (RouterView, Result<Option<i128>, RouterError>) {
        if self.check_admin(caller) is Err {
            (self, Err(self.check_admin(caller)->Err_0))
        } else {
            match lookup(self.strategies, strategy) {
                None => (self, Err(RouterError::StrategyNotFound)),
                Some(info) => (
                    RouterView {
                        strategies: put(self.strategies, strategy, StrategyInfo { active: false, ..info }),
                        ..self
                    },
                    Ok(if info.allocated > 0 { Some(info.allocated) } else { None }),
                ),
            }
        }
    }

    /// `set_weight`: the strategist changes a registered strategy's weight.
    pub open spec fn set_weight(self, caller: Address, strategy: Address, new_weight_bps: u32) -> (RouterView, Result<(), RouterError>) {
        if self.check_strategist(caller) is Err {
            (self, Err(self.check_strategist(caller)->Err_0))
        } else {
            match lookup(self.strategies, strategy) {
                None => (self, Err(RouterError::StrategyNotFound)),
                Some(info) => if new_weight_bps > MAX_TOTAL_WEIGHT_BPS {
                    (self, Err(RouterError::InvalidWeight))
                } else if self.total_weight() - info.weight_bps + new_weight_bps > MAX_TOTAL_WEIGHT_BPS {
                    (self, Err(RouterError::WeightLimitExceeded))
                } else {
                    (
                        RouterView {
                            strategies: put(self.strategies, strategy, StrategyInfo { weight_bps: new_weight_bps, ..info }),
                            ..self
                        },
                        Ok(()),
                    )
                },
            }
        }
    }

    /// `allocate`: the vault records `amount` of capital sent to an active
    /// strategy (a negative amount records capital taken back).
    pub open spec fn allocate(self, caller: Address, strategy: Address, amount: i128) -> (RouterView, Result<(), RouterError>) {
        if self.check_vault(caller) is Err {
            (self, Err(self.check_vault(caller)->Err_0))
        } else {
            match lookup(self.strategies, strategy) {
                None => (self, Err(RouterError::StrategyNotFound)),
                Some(info) => if !info.active {
                    (self, Err(RouterError::StrategyInactive))
                } else if info.allocated + amount > i128::MAX || info.allocated + amount < i128::MIN
                    || self.total_allocated + amount > i128::MAX || self.total_allocated + amount < i128::MIN {
                    (self, Err(RouterError::ArithmeticOverflow))
                } else {
                    (
                        RouterView {
                            strategies: put(
                                self.strategies,
                                strategy,
                                StrategyInfo { allocated: (info.allocated + amount) as i128, ..info },
                            ),
                            total_allocated: (self.total_allocated + amount) as i128,
                            ..self
                        },
                        Ok(()),
                    )
                },
            }
        }
    }
}

/// Rewriting a registered strategy's record, under its own address, keeps
/// the per-entry parts of the invariant and moves the sums by the change of
/// that record.
proof fn lemma_rewrite_strategy(v: RouterView, strategy: Address, info: StrategyInfo)
    requires
        v.valid(),
        lookup(v.strategies, strategy) is Some,
        info.address == strategy,
    ensures
        ({
            let t = put(v.strategies, strategy, info);
            let old = lookup(v.strategies, strategy)->Some_0;
            &&& keys_distinct(t)
            &&& t.len() == v.strategies.len()
            &&& forall|i: int| 0 <= i < t.len() ==> #[trigger] t[i].1.address == t[i].0
            &&& sum_by(t, weight_measure()) == sum_by(v.strategies, weight_measure()) - old.weight_bps + info.weight_bps
            &&& sum_by(t, allocation_measure()) == sum_by(v.strategies, allocation_measure()) - old.allocated + info.allocated
            &&& t.map_values(|e: (Address, StrategyInfo)| e.0) == v.strategy_list()
        }),
{
    let s = v.strategies;
    let t = put(s, strategy, info);
    lemma_put(s, strategy, info);
    lemma_find_key(s, strategy);
    lemma_sum_put(s, strategy, info, weight_measure());
    lemma_sum_put(s, strategy, info, allocation_measure());
    let k = find_key(s, strategy);
    assert forall|i: int| 0 <= i < t.len() implies #[trigger] t[i].1.address == t[i].0 by {
        if i != k {
            assert(t[i] == s[i]);
        }
    }
    assert(t.map_values(|e: (Address, StrategyInfo)| e.0) =~= v.strategy_list());
}

/// The weights are each within bounds and add up to no more than 10000.
pub proof fn lemma_weights_bounded(v: RouterView)
    requires
        v.valid(),
    ensures
        0 <= v.total_weight() <= MAX_TOTAL_WEIGHT_BPS,
        forall|i: int| 0 <= i < v.strategies.len() ==> #[trigger] v.strategies[i].1.weight_bps <= v.total_weight(),
{
    lemma_sum_bounds(v.strategies, weight_measure());
}

/// Every operation keeps the invariant.
pub proof fn lemma_operations_keep_valid(v: RouterView, caller: Address, strategy: Address, weight_bps: u32, amount: i128)
    requires
        v.valid(),
    ensures
        v.initialize(caller, strategy, strategy).0.valid(),
        v.add_strategy(caller, strategy, weight_bps).0.valid(),
        v.deactivate_strategy(caller, strategy).0.valid(),
        v.set_weight(caller, strategy, weight_bps).0.valid(),
        v.allocate(caller, strategy, amount).0.valid(),
{
    let s = v.strategies;
    lemma_find_key(s, strategy);
    lemma_weights_bounded(v);
    match lookup(s, strategy) {
        Some(info) => {
            assert(s[find_key(s, strategy)].1 == info);
            lemma_rewrite_strategy(v, strategy, StrategyInfo { active: false, ..info });
            lemma_rewrite_strategy(v, strategy, StrategyInfo { weight_bps: weight_bps, ..info });
            if i128::MIN <= info.allocated + amount <= i128::MAX {
                lemma_rewrite_strategy(v, strategy, StrategyInfo { allocated: (info.allocated + amount) as i128, ..info });
            }
        },
        None => {
            let x = (strategy, StrategyInfo { address: strategy, weight_bps, active: true, allocated: 0 });
            let t = s.push(x);
            crate::address_map::lemma_sum_push(s, x, weight_measure());
            crate::address_map::lemma_sum_push(s, x, allocation_measure());
            assert forall|i: int| 0 <= i < t.len() implies #[trigger] t[i].1.address == t[i].0 by {
                if i < s.len() {
                    assert(t[i] == s[i]);
                }
            }
            assert(keys_distinct(t)) by {
                assert forall|i: int, j: int| 0 <= i < j < t.len() implies t[i].0 != t[j].0 by {
                    if j < s.len() {
                        assert(t[i] == s[i] && t[j] == s[j]);
                    } else {
                        assert(t[i] == s[i]);
                    }
                }
            }
        },
    }
}

/// A refused call leaves the router exactly as it was.
pub proof fn lemma_refusals_change_nothing(v: RouterView, caller: Address, strategy: Address, weight_bps: u32, amount: i128)
    ensures
        v.initialize(caller, strategy, strategy).1 is Err ==> v.initialize(caller, strategy, strategy).0 == v,
        v.add_strategy(caller, strategy, weight_bps).1 is Err ==> v.add_strategy(caller, strategy, weight_bps).0 == v,
        v.deactivate_strategy(caller, strategy).1 is Err ==> v.deactivate_strategy(caller, strategy).0 == v,
        v.set_weight(caller, strategy, weight_bps).1 is Err ==> v.set_weight(caller, strategy, weight_bps).0 == v,
        v.allocate(caller, strategy, amount).1 is Err ==> v.allocate(caller, strategy, amount).0 == v,
{
}

/// Registration appends to the strategy list; no other operation reorders,
/// adds or removes a strategy.
pub proof fn lemma_strategy_list_grows_in_order(v: RouterView, caller: Address, strategy: Address, weight_bps: u32, amount: i128)
    requires
        v.valid(),
    ensures
        v.add_strategy(caller, strategy, weight_bps).1 is Ok ==> v.add_strategy(caller, strategy, weight_bps).0.strategy_list() == v.strategy_list().push(strategy),
        v.deactivate_strategy(caller, strategy).0.strategy_list() == v.strategy_list(),
        v.set_weight(caller, strategy, weight_bps).0.strategy_list() == v.strategy_list(),
        v.allocate(caller, strategy, amount).0.strategy_list() == v.strategy_list(),
{
    let s = v.strategies;
    lemma_find_key(s, strategy);
    if let Some(info) = lookup(s, strategy) {
        assert(s[find_key(s, strategy)].1 == info);
        lemma_rewrite_strategy(v, strategy, StrategyInfo { active: false, ..info });
        lemma_rewrite_strategy(v, strategy, StrategyInfo { weight_bps: weight_bps, ..info });
        if i128::MIN <= info.allocated + amount <= i128::MAX {
            lemma_rewrite_strategy(v, strategy, StrategyInfo { allocated: (info.allocated + amount) as i128, ..info });
        }
    }
    if v.add_strategy(caller, strategy, weight_bps).1 is Ok {
        let x = (strategy, StrategyInfo { address: strategy, weight_bps, active: true, allocated: 0 });
        assert(s.push(x).map_values(|e: (Address, StrategyInfo)| e.0) =~= v.strategy_list().push(strategy));
    }
}

/// Once registered, a strategy stays registered, and once deactivated it
/// stays inactive, through every operation.
pub proof fn lemma_registration_and_deactivation_are_permanent(
    v: RouterView,
    caller: Address,
    strategy: Address,
    other: Address,
    weight_bps: u32,
    amount: i128,
)
    requires
        v.valid(),
        v.strategy_info(other) is Ok,
    ensures
        ({
            let was = v.strategy_info(other)->Ok_0;
            let stays = |w: RouterView| w.strategy_info(other) is Ok && (!was.active ==> !w.strategy_info(other)->Ok_0.active);
            &&& stays(v.add_strategy(caller, strategy, weight_bps).0)
            &&& stays(v.deactivate_strategy(caller, strategy).0)
            &&& stays(v.set_weight(caller, strategy, weight_bps).0)
            &&& stays(v.allocate(caller, strategy, amount).0)
        }),
{
    let s = v.strategies;
    lemma_find_key(s, strategy);
    lemma_find_key(s, other);
    if let Some(info) = lookup(s, strategy) {
        lemma_put(s, strategy, StrategyInfo { active: false, ..info });
        lemma_put(s, strategy, StrategyInfo { weight_bps: weight_bps, ..info });
        lemma_put(s, strategy, StrategyInfo { allocated: (info.allocated + amount) as i128, ..info });
    } else {
        let x = (strategy, StrategyInfo { address: strategy, weight_bps, active: true, allocated: 0 });
        lemma_put(s, strategy, x.1);
        lemma_find_key(s, strategy);
        assert(put(s, strategy, x.1) == s.push(x));
    }
}

/// An allocation adds exactly `amount` to the strategy's capital and to the
/// total, and leaves the other strategies as they were.
pub proof fn lemma_allocate_moves_exact_amount(v: RouterView, caller: Address, strategy: Address, other: Address, amount: i128)
    requires
        v.valid(),
        v.allocate(caller, strategy, amount).1 is Ok,
        other != strategy,
    ensures
        v.allocate(caller, strategy, amount).0.strategy_info(strategy)->Ok_0.allocated == v.strategy_info(strategy)->Ok_0.allocated + amount,
        v.allocate(caller, strategy, amount).0.total_allocated == v.total_allocated + amount,
        v.allocate(caller, strategy, amount).0.strategy_info(other) == v.strategy_info(other),
{
    let info = lookup(v.strategies, strategy)->Some_0;
    lemma_put(v.strategies, strategy, StrategyInfo { allocated: (info.allocated + amount) as i128, ..info });
}

/// What `set_weight` does: the strategist's call on a registered strategy
/// with a weight of at most 10000 that keeps the sum of weights within 10000
/// succeeds, and then the strategy's weight is the new one while its
/// address, activity and capital stay; every other strategy stays as it was.
pub proof fn lemma_set_weight_outcome(v: RouterView, caller: Address, strategy: Address, w: u32, other: Address)
    requires
        v.valid(),
        other != strategy,
    ensures
        ({
            let r = v.set_weight(caller, strategy, w);
            &&& (v.strategist == Some(caller) && v.strategy_info(strategy) is Ok && w <= 10000
                && v.total_weight() - v.strategy_info(strategy)->Ok_0.weight_bps + w <= 10000) <==> r.1 is Ok
            &&& r.1 is Ok ==> r.0.strategy_info(strategy) == Ok::<StrategyInfo, RouterError>(
                StrategyInfo { weight_bps: w, ..v.strategy_info(strategy)->Ok_0 },
            )
            &&& r.0.strategy_info(other) == v.strategy_info(other)
            &&& r.0.total_allocated == v.total_allocated
        }),
{
    let s = v.strategies;
    lemma_find_key(s, strategy);
    if let Some(info) = lookup(s, strategy) {
        lemma_put(s, strategy, StrategyInfo { weight_bps: w, ..info });
    }
}

/// What `deactivate_strategy` does: the admin's call on a registered
/// strategy succeeds, and then the strategy is inactive whatever capital it
/// holds, with its address, weight and capital kept; the call reports the
/// capital exactly when it is positive; every other strategy stays as it was.
pub proof fn lemma_deactivate_outcome(v: RouterView, caller: Address, strategy: Address, other: Address)
    requires
        v.valid(),
        other != strategy,
    ensures
        ({
            let r = v.deactivate_strategy(caller, strategy);
            &&& (v.admin == Some(caller) && v.strategy_info(strategy) is Ok) <==> r.1 is Ok
            &&& r.1 is Ok ==> {
                let info = v.strategy_info(strategy)->Ok_0;
                &&& r.0.strategy_info(strategy) == Ok::<StrategyInfo, RouterError>(StrategyInfo { active: false, ..info })
                &&& r.1->Ok_0 == if info.allocated > 0 { Some(info.allocated) } else { None::<i128> }
            }
            &&& r.0.strategy_info(other) == v.strategy_info(other)
            &&& r.0.total_allocated == v.total_allocated
        }),
{
    let s = v.strategies;
    lemma_find_key(s, strategy);
    if let Some(info) = lookup(s, strategy) {
        lemma_put(s, strategy, StrategyInfo { active: false, ..info });
    }
}

/// What `add_strategy` does: the admin's call with a new strategy, a weight
/// of at most 10000 and room within the sum of 10000 succeeds, and then the
/// strategy is registered, active, with that weight and no capital; every
/// other strategy stays as it was.
pub proof fn lemma_add_strategy_outcome(v: RouterView, caller: Address, strategy: Address, w: u32, other: Address)
    requires
        v.valid(),
        other != strategy,
    ensures
        ({
            let r = v.add_strategy(caller, strategy, w);
            &&& (v.admin == Some(caller) && v.strategy_info(strategy) is Err && w <= 10000 && v.total_weight() + w
                <= 10000) <==> r.1 is Ok
            &&& r.1 is Ok ==> r.0.strategy_info(strategy) == Ok::<StrategyInfo, RouterError>(
                StrategyInfo { address: strategy, weight_bps: w, active: true, allocated: 0 },
            )
            &&& r.0.strategy_info(other) == v.strategy_info(other)
            &&& r.0.total_allocated == v.total_allocated
        }),
{
    let s = v.strategies;
    lemma_find_key(s, strategy);
    let x = StrategyInfo { address: strategy, weight_bps: w, active: true, allocated: 0 };
    if lookup(s, strategy) is None {
        lemma_put(s, strategy, x);
        assert(put(s, strategy, x) == s.push((strategy, x)));
    }
}

/// When an allocation succeeds: the vault's call on a registered, active
/// strategy succeeds exactly when the strategy's capital and the total stay
/// within the `i128` range, and then both grow by `amount`.
pub proof fn lemma_allocate_outcome(v: RouterView, caller: Address, strategy: Address, amount: i128)
    requires
        v.valid(),
    ensures
        ({
            let r = v.allocate(caller, strategy, amount);
            &&& (v.vault == Some(caller) && v.strategy_info(strategy) is Ok && v.strategy_info(strategy)->Ok_0.active
                && i128::MIN <= v.strategy_info(strategy)->Ok_0.allocated + amount <= i128::MAX
                && i128::MIN <= v.total_allocated + amount <= i128::MAX) <==> r.1 is Ok
            &&& r.1 is Ok ==> r.0.strategy_info(strategy) == Ok::<StrategyInfo, RouterError>(
                StrategyInfo {
                    allocated: (v.strategy_info(strategy)->Ok_0.allocated + amount) as i128,
                    ..v.strategy_info(strategy)->Ok_0
                },
            )
            &&& r.1 is Ok ==> r.0.total_allocated == v.total_allocated + amount
        }),
{
    let s = v.strategies;
    lemma_find_key(s, strategy);
    if let Some(info) = lookup(s, strategy) {
        lemma_put(s, strategy, StrategyInfo { allocated: (info.allocated + amount) as i128, ..info });
    }
}

/// The router's executable state, kept to `RouterView`'s invariant.
pub struct StrategyRouterContract {
    admin: Option<Address>,
    strategist: Option<Address>,
    vault: Option<Address>,
    strategies: AddressMap<StrategyInfo>,
    total_allocated: i128,
}

impl View for StrategyRouterContract {
    type V = RouterView;

    closed spec fn view(&self) -> RouterView {
        RouterView {
            admin: self.admin,
            strategist: self.strategist,
            vault: self.vault,
            strategies: self.strategies@,
            total_allocated: self.total_allocated,
        }
    }
}

impl StrategyRouterContract {
    /// A router as deployed, before `initialize`.
    pub fn new() -> (r: StrategyRouterContract)
        ensures
            r@ == RouterView::initial(),
            r@.valid(),
    {
        StrategyRouterContract {
            admin: None,
            strategist: None,
            vault: None,
            strategies: AddressMap::new(),
            total_allocated: 0,
        }
    }

    /// A router restored from stored parts; `None` when they break the
    /// invariant.
    pub fn from_parts(
        admin: Option<Address>,
        strategist: Option<Address>,
        vault: Option<Address>,
        strategies: Vec<(Address, StrategyInfo)>,
        total_allocated: i128,
    ) -> (r: Option<StrategyRouterContract>)
        ensures
            ({
                let w = RouterView { admin, strategist, vault, strategies: strategies@, total_allocated };
                &&& r is Some <==> w.valid()
                &&& r matches Some(c) ==> c@ == w
            }),
    {
        let ghost w = RouterView { admin, strategist, vault, strategies: strategies@, total_allocated };
        let ghost s = strategies@;
        if admin.is_some() != strategist.is_some() || admin.is_some() != vault.is_some()
            || (admin.is_none() && strategies.len() > 0) {
            return None;
        }
        let n = strategies.len();
        let mut weights: u64 = 0;
        // The sum of the allocations so far is `allocated + wraps * 2^128`:
        // a prefix may leave the `i128` range where the whole does not.
        let mut allocated: i128 = 0;
        let mut wraps: i128 = 0;
        let mut i: usize = 0;
        while i < n
            invariant
                n == s.len(),
                s == strategies@,
                i <= n,
                forall|j: int| 0 <= j < i ==> #[trigger] s[j].1.address == s[j].0,
                weights as int == sum_by(s.take(i as int), weight_measure()),
                weights <= MAX_TOTAL_WEIGHT_BPS,
                allocated + wraps * i128_span() == sum_by(s.take(i as int), allocation_measure()),
                -(i as int) <= wraps <= i,
            decreases n - i,
        {
            proof {
                lemma_sum_take_next(s, i as int, weight_measure());
                lemma_sum_take_next(s, i as int, allocation_measure());
            }
            let e = strategies[i];
            if e.1.address != e.0 {
                return None;
            }
            weights = weights + e.1.weight_bps as u64;
            if weights > MAX_TOTAL_WEIGHT_BPS as u64 {
                proof {
                    lemma_sum_prefix_le(s, (i + 1) as int, weight_measure());
                }
                return None;
            }
            let b = e.1.allocated;
            match allocated.checked_add(b) {
                Some(t) => {
                    allocated = t;
                },
                None => {
                    let ghost w0 = wraps as int;
                    if b > 0 {
                        allocated = (allocated + i128::MIN) + (b + i128::MIN);
                        wraps = wraps + 1;
                    } else {
                        allocated = (allocated + i128::MAX + 1) + (b + i128::MAX + 1);
                        wraps = wraps - 1;
                    }
                    proof {
                        assert((w0 + 1) * i128_span() == w0 * i128_span() + i128_span()) by (nonlinear_arith);
                        assert((w0 - 1) * i128_span() == w0 * i128_span() - i128_span()) by (nonlinear_arith);
                    }
                },
            }
            i = i + 1;
        }
        proof {
            assert(s.take(n as int) =~= s);
        }
        if wraps != 0 || allocated != total_allocated {
            proof {
                if wraps != 0 {
                    assert(allocated + wraps * i128_span() != total_allocated) by (nonlinear_arith)
                        requires
                            wraps != 0,
                            i128::MIN <= allocated <= i128::MAX,
                            i128::MIN <= total_allocated <= i128::MAX,
                    ;
                }
            }
            return None;
        }
        match AddressMap::from_vec(strategies) {
            Some(m) => Some(StrategyRouterContract { admin, strategist, vault, strategies: m, total_allocated }),
            None => None,
        }
    }

    /// The admin, once initialized.
    pub fn admin(&self) -> (r: Option<Address>)
        ensures
            r == self@.admin,
    {
        self.admin
    }

    /// The strategist, once initialized.
    pub fn strategist(&self) -> (r: Option<Address>)
        ensures
            r == self@.strategist,
    {
        self.strategist
    }

    /// The vault, once initialized.
    pub fn vault(&self) -> (r: Option<Address>)
        ensures
            r == self@.vault,
    {
        self.vault
    }

    /// The registered strategies with their records, in order of
    /// registration.
    pub fn strategies(&self) -> (r: Vec<(Address, StrategyInfo)>)
        ensures
            r@ == self@.strategies,
    {
        self.strategies.to_vec()
    }

    /// Sets the admin, the strategist and the vault; refused once the router
    /// has an admin.
    pub fn initialize(&mut self, admin: Address, strategist: Address, vault: Address) -> (r: Result<(), RouterError>)
        requires
            old(self)@.valid(),
        ensures
            (final(self)@, r) == old(self)@.initialize(admin, strategist, vault),
            final(self)@.valid(),
    {
        proof {
            lemma_operations_keep_valid(self@, admin, strategist, 0, 0);
        }
        if self.admin.is_some() {
            return Err(RouterError::AlreadyInitialized);
        }
        self.admin = Some(admin);
        self.strategist = Some(strategist);
        self.vault = Some(vault);
        self.strategies = AddressMap::new();
        self.total_allocated = 0;
        Ok(())
    }

    /// Refuses a caller who is not the admin.
    fn assert_admin(&self, caller: Address) -> (r: Result<(), RouterError>)
        ensures
            r == self@.check_admin(caller),
    {
        match self.admin {
            None => Err(RouterError::NotInitialized),
            Some(a) => if a != caller {
                Err(RouterError::NotAdmin)
            } else {
                Ok(())
            },
        }
    }

    /// Refuses a caller who is not the strategist.
    fn assert_strategist(&self, caller: Address) -> (r: Result<(), RouterError>)
        ensures
            r == self@.check_strategist(caller),
    {
        match self.strategist {
            None => Err(RouterError::NotInitialized),
            Some(a) => if a != caller {
                Err(RouterError::NotStrategist)
            } else {
                Ok(())
            },
        }
    }

    /// Refuses a caller who is not the vault.
    fn assert_vault(&self, caller: Address) -> (r: Result<(), RouterError>)
        ensures
            r == self@.check_vault(caller),
    {
        match self.vault {
            None => Err(RouterError::NotInitialized),
            Some(a) => if a != caller {
                Err(RouterError::NotVault)
            } else {
                Ok(())
            },
        }
    }

    /// The sum of all registered strategies' weights.
    fn total_weight(&self) -> (r: u32)
        requires
            self@.valid(),
        ensures
            r == self@.total_weight(),
    {
        let ghost s = self@.strategies;
        proof {
            lemma_weights_bounded(self@);
        }
        let n = self.strategies.len();
        let mut sum: u32 = 0;
        let mut i: usize = 0;
        while i < n
            invariant
                n == s.len(),
                s == self@.strategies,
                self@.valid(),
                i <= n,
                sum as int == sum_by(s.take(i as int), weight_measure()),
                sum_by(s, weight_measure()) <= MAX_TOTAL_WEIGHT_BPS,
            decreases n - i,
        {
            proof {
                lemma_sum_take_next(s, i as int, weight_measure());
                lemma_sum_prefix_le(s, (i + 1) as int, weight_measure());
            }
            let e = self.strategies.entry(i);
            sum = sum + e.1.weight_bps;
            i = i + 1;
        }
        proof {
            assert(s.take(n as int) =~= s);
        }
        sum
    }

    /// Registers `strategy`, active and with nothing allocated, at weight
    /// `weight_bps`; admin only. The caller's authorization is checked by the
    /// host.
    pub fn add_strategy(&mut self, caller: Address, strategy: Address, weight_bps: u32) -> (r: Result<(), RouterError>)
        requires
            old(self)@.valid(),
        ensures
            (final(self)@, r) == old(self)@.add_strategy(caller, strategy, weight_bps),
            final(self)@.valid(),
    {
        proof {
            lemma_operations_keep_valid(self@, caller, strategy, weight_bps, 0);
            lemma_find_key(self@.strategies, strategy);
        }
        match self.assert_admin(caller) {
            Err(e) => {
                return Err(e);
            },
            Ok(()) => {},
        }
        if weight_bps > MAX_TOTAL_WEIGHT_BPS {
            return Err(RouterError::InvalidWeight);
        }
        if self.strategies.get(strategy).is_some() {
            return Err(RouterError::AlreadyRegistered);
        }
        let total = self.total_weight();
        if total + weight_bps > MAX_TOTAL_WEIGHT_BPS {
            return Err(RouterError::WeightLimitExceeded);
        }
        self.strategies.put(strategy, StrategyInfo { address: strategy, weight_bps, active: true, allocated: 0 });
        Ok(())
    }

    /// Marks `strategy` inactive, so that it takes no new capital; admin
    /// only. Returns the capital the strategy still holds when positive, for
    /// which the caller publishes a warning.
    pub fn deactivate_strategy(&mut self, caller: Address, strategy: Address) -> (r: Result<Option<i128>, RouterError>)
        requires
            old(self)@.valid(),
        ensures
            (final(self)@, r) == old(self)@.deactivate_strategy(caller, strategy),
            final(self)@.valid(),
    {
        proof {
            lemma_operations_keep_valid(self@, caller, strategy, 0, 0);
        }
        match self.assert_admin(caller) {
            Err(e) => {
                return Err(e);
            },
            Ok(()) => {},
        }
        let info = match self.strategies.get(strategy) {
            Some(i) => i,
            None => {
                return Err(RouterError::StrategyNotFound);
            },
        };
        let warning = if info.allocated > 0 {
            Some(info.allocated)
        } else {
            None
        };
        self.strategies.put(strategy, StrategyInfo { active: false, ..info });
        Ok(warning)
    }

    /// Sets the weight of a registered strategy; strategist only. Refused
    /// when the weight exceeds 10000 or would take the sum of all weights
    /// above 10000.
    pub fn set_weight(&mut self, caller: Address, strategy: Address, new_weight_bps: u32) -> (r: Result<(), RouterError>)
        requires
            old(self)@.valid(),
        ensures
            (final(self)@, r) == old(self)@.set_weight(caller, strategy, new_weight_bps),
            final(self)@.valid(),
    {
        proof {
            lemma_operations_keep_valid(self@, caller, strategy, new_weight_bps, 0);
            lemma_weights_bounded(self@);
            lemma_find_key(self@.strategies, strategy);
        }
        match self.assert_strategist(caller) {
            Err(e) => {
                return Err(e);
            },
            Ok(()) => {},
        }
        let info = match self.strategies.get(strategy) {
            Some(i) => i,
            None => {
                return Err(RouterError::StrategyNotFound);
            },
        };
        if new_weight_bps > MAX_TOTAL_WEIGHT_BPS {
            return Err(RouterError::InvalidWeight);
        }
        let total = self.total_weight();
        proof {
            assert(self@.strategies[find_key(self@.strategies, strategy)].1 == info);
        }
        if total - info.weight_bps + new_weight_bps > MAX_TOTAL_WEIGHT_BPS {
            return Err(RouterError::WeightLimitExceeded);
        }
        self.strategies.put(strategy, StrategyInfo { weight_bps: new_weight_bps, ..info });
        Ok(())
    }

    /// Records `amount` of capital sent to an active strategy (a negative
    /// amount records capital taken back); vault only. Refused when the
    /// strategy's or the total allocation would leave the `i128` range.
    pub fn allocate(&mut self, caller: Address, strategy: Address, amount: i128) -> (r: Result<(), RouterError>)
        requires
            old(self)@.valid(),
        ensures
            (final(self)@, r) == old(self)@.allocate(caller, strategy, amount),
            final(self)@.valid(),
    {
        proof {
            lemma_operations_keep_valid(self@, caller, strategy, 0, amount);
        }
        match self.assert_vault(caller) {
            Err(e) => {
                return Err(e);
            },
            Ok(()) => {},
        }
        let info = match self.strategies.get(strategy) {
            Some(i) => i,
            None => {
                return Err(RouterError::StrategyNotFound);
            },
        };
        if !info.active {
            return Err(RouterError::StrategyInactive);
        }
        let new_allocated = match info.allocated.checked_add(amount) {
            Some(a) => a,
            None => {
                return Err(RouterError::ArithmeticOverflow);
            },
        };
        let new_total = match self.total_allocated.checked_add(amount) {
            Some(t) => t,
            None => {
                return Err(RouterError::ArithmeticOverflow);
            },
        };
        self.strategies.put(strategy, StrategyInfo { allocated: new_allocated, ..info });
        self.total_allocated = new_total;
        Ok(())
    }

    /// The record of a registered strategy.
    pub fn strategy_info(&self, strategy: Address) -> (r: Result<StrategyInfo, RouterError>)
        requires
            self@.valid(),
        ensures
            r == self@.strategy_info(strategy),
    {
        match self.strategies.get(strategy) {
            Some(i) => Ok(i),
            None => Err(RouterError::StrategyNotFound),
        }
    }

    /// The addresses of all registered strategies, active or not, in order
    /// of registration.
    pub fn strategy_list(&self) -> (r: Vec<Address>)
        ensures
            r@ == self@.strategy_list(),
    {
        self.strategies.keys()
    }

    /// The capital allocated across all strategies.
    pub fn total_allocated(&self) -> (r: i128)
        ensures
            r == self@.total_allocated,
    {
        self.total_allocated
    }
}

} // verus!
