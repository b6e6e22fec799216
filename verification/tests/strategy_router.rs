use flowfi::address::Address;
use flowfi::strategy_router::{RouterError, StrategyInfo, StrategyRouterContract};

const ADMIN: Address = Address { id: 1 };
const STRATEGIST: Address = Address { id: 2 };
const VAULT: Address = Address { id: 3 };

fn setup() -> StrategyRouterContract {
    let mut r = StrategyRouterContract::new();
    r.initialize(ADMIN, STRATEGIST, VAULT).unwrap();
    r
}

#[test]
fn test_add_and_query_strategy() {
    let mut client = setup();
    let strategy = Address::new(10);
    client.add_strategy(ADMIN, strategy, 5000).unwrap(); // 50%

    let info = client.strategy_info(strategy).unwrap();
    assert_eq!(info.weight_bps, 5000);
    assert!(info.active);
    assert_eq!(info.allocated, 0);
    assert_eq!(info.address, strategy);
}

#[test]
fn router_initialize_twice_is_refused() {
    let mut r = setup();
    assert_eq!(r.initialize(VAULT, VAULT, VAULT), Err(RouterError::AlreadyInitialized));
    assert_eq!(r.admin(), Some(ADMIN));
    assert_eq!(r.strategist(), Some(STRATEGIST));
    assert_eq!(r.vault(), Some(VAULT));
}

#[test]
fn uninitialized_router_refuses_role_calls() {
    let mut r = StrategyRouterContract::new();
    let s = Address::new(10);
    assert_eq!(r.add_strategy(ADMIN, s, 1), Err(RouterError::NotInitialized));
    assert_eq!(r.deactivate_strategy(ADMIN, s), Err(RouterError::NotInitialized));
    assert_eq!(r.set_weight(STRATEGIST, s, 1), Err(RouterError::NotInitialized));
    assert_eq!(r.allocate(VAULT, s, 1), Err(RouterError::NotInitialized));
    assert_eq!(r.strategy_list(), vec![]);
    assert_eq!(r.total_allocated(), 0);
}

#[test]
fn router_roles_are_enforced() {
    let mut r = setup();
    let s = Address::new(10);
    assert_eq!(r.add_strategy(STRATEGIST, s, 1), Err(RouterError::NotAdmin));
    r.add_strategy(ADMIN, s, 1).unwrap();
    assert_eq!(r.deactivate_strategy(STRATEGIST, s), Err(RouterError::NotAdmin));
    assert_eq!(r.set_weight(ADMIN, s, 2), Err(RouterError::NotStrategist));
    assert_eq!(r.allocate(ADMIN, s, 2), Err(RouterError::NotVault));
    assert_eq!(r.strategy_info(s), Ok(StrategyInfo { address: s, weight_bps: 1, active: true, allocated: 0 }));
}

#[test]
fn weights_are_validated() {
    let mut r = setup();
    let a = Address::new(10);
    let b = Address::new(11);
    assert_eq!(r.add_strategy(ADMIN, a, 10_001), Err(RouterError::InvalidWeight));
    r.add_strategy(ADMIN, a, 6000).unwrap();
    assert_eq!(r.add_strategy(ADMIN, a, 1), Err(RouterError::AlreadyRegistered));
    assert_eq!(r.add_strategy(ADMIN, b, 4001), Err(RouterError::WeightLimitExceeded));
    r.add_strategy(ADMIN, b, 4000).unwrap();
    assert_eq!(r.set_weight(STRATEGIST, b, 10_001), Err(RouterError::InvalidWeight));
    assert_eq!(r.set_weight(STRATEGIST, b, 4001), Err(RouterError::WeightLimitExceeded));
    r.set_weight(STRATEGIST, a, 1000).unwrap();
    r.set_weight(STRATEGIST, b, 9000).unwrap();
    assert_eq!(r.strategy_info(b).unwrap().weight_bps, 9000);
    assert_eq!(r.set_weight(STRATEGIST, Address::new(12), 0), Err(RouterError::StrategyNotFound));
}

#[test]
fn strategy_list_keeps_registration_order() {
    let mut r = setup();
    let ids = [Address::new(30), Address::new(10), Address::new(20)];
    for s in ids {
        r.add_strategy(ADMIN, s, 100).unwrap();
    }
    r.deactivate_strategy(ADMIN, ids[1]).unwrap();
    r.set_weight(STRATEGIST, ids[0], 0).unwrap();
    assert_eq!(r.strategy_list(), ids.to_vec());
    assert_eq!(r.strategies().len(), 3);
}

#[test]
fn deactivation_blocks_allocation_and_warns_on_held_capital() {
    let mut r = setup();
    let s = Address::new(10);
    let idle = Address::new(11);
    r.add_strategy(ADMIN, s, 5000).unwrap();
    r.add_strategy(ADMIN, idle, 5000).unwrap();
    r.allocate(VAULT, s, 700).unwrap();
    assert_eq!(r.deactivate_strategy(ADMIN, s), Ok(Some(700)));
    assert_eq!(r.deactivate_strategy(ADMIN, idle), Ok(None));
    assert_eq!(r.allocate(VAULT, s, 1), Err(RouterError::StrategyInactive));
    let info = r.strategy_info(s).unwrap();
    assert!(!info.active);
    assert_eq!(info.allocated, 700);
    // Reweighting does not reactivate it.
    r.set_weight(STRATEGIST, s, 100).unwrap();
    assert!(!r.strategy_info(s).unwrap().active);
    assert_eq!(r.deactivate_strategy(ADMIN, Address::new(12)), Err(RouterError::StrategyNotFound));
    assert_eq!(r.strategy_info(Address::new(12)), Err(RouterError::StrategyNotFound));
}

#[test]
fn allocation_is_validated_and_summed() {
    let mut r = setup();
    let a = Address::new(10);
    let b = Address::new(11);
    r.add_strategy(ADMIN, a, 5000).unwrap();
    r.add_strategy(ADMIN, b, 5000).unwrap();
    assert_eq!(r.allocate(VAULT, Address::new(12), 5), Err(RouterError::StrategyNotFound));
    r.allocate(VAULT, a, 300).unwrap();
    r.allocate(VAULT, b, 200).unwrap();
    r.allocate(VAULT, a, 50).unwrap();
    assert_eq!(r.strategy_info(a).unwrap().allocated, 350);
    assert_eq!(r.strategy_info(b).unwrap().allocated, 200);
    assert_eq!(r.total_allocated(), 550);
    // Zero is recorded as is; a negative amount takes capital back.
    assert_eq!(r.allocate(VAULT, a, 0), Ok(()));
    assert_eq!(r.allocate(VAULT, a, -340), Ok(()));
    assert_eq!(r.strategy_info(a).unwrap().allocated, 10);
    assert_eq!(r.total_allocated(), 210);
    assert_eq!(r.allocate(VAULT, a, -15), Ok(()));
    assert_eq!(r.strategy_info(a).unwrap().allocated, -5);
    assert_eq!(r.total_allocated(), 195);
    assert_eq!(r.allocate(VAULT, b, i128::MAX), Err(RouterError::ArithmeticOverflow));
    assert_eq!(r.allocate(VAULT, a, i128::MIN), Err(RouterError::ArithmeticOverflow));
    assert_eq!(r.total_allocated(), 195);
    assert_eq!(r.strategy_info(b).unwrap().allocated, 200);
}

#[test]
fn router_from_parts_rejects_inconsistent_state() {
    let a = Address::new(10);
    let info = StrategyInfo { address: a, weight_bps: 100, active: true, allocated: 5 };
    let roles = (Some(ADMIN), Some(STRATEGIST), Some(VAULT));
    // Total does not match the allocations.
    assert!(StrategyRouterContract::from_parts(roles.0, roles.1, roles.2, vec![(a, info)], 4).is_none());
    // Record under another address.
    assert!(StrategyRouterContract::from_parts(roles.0, roles.1, roles.2, vec![(Address::new(11), info)], 5).is_none());
    // Weights above 10000.
    let heavy = StrategyInfo { weight_bps: 10_001, ..info };
    assert!(StrategyRouterContract::from_parts(roles.0, roles.1, roles.2, vec![(a, heavy)], 5).is_none());
    // Registered twice.
    assert!(StrategyRouterContract::from_parts(roles.0, roles.1, roles.2, vec![(a, info), (a, info)], 10).is_none());
    // Strategies before initialization.
    assert!(StrategyRouterContract::from_parts(None, None, None, vec![(a, info)], 5).is_none());
    let r = StrategyRouterContract::from_parts(roles.0, roles.1, roles.2, vec![(a, info)], 5).unwrap();
    assert_eq!(r.strategy_info(a), Ok(info));
    // Negative allocations are accepted, and a prefix may leave the i128
    // range where the whole sum does not.
    let b = Address::new(11);
    let c = Address::new(12);
    let big = StrategyInfo { address: a, weight_bps: 0, active: true, allocated: i128::MAX };
    let more = StrategyInfo { address: b, weight_bps: 0, active: true, allocated: 10 };
    let back = StrategyInfo { address: c, weight_bps: 0, active: false, allocated: -20 };
    let r2 = StrategyRouterContract::from_parts(roles.0, roles.1, roles.2, vec![(a, big), (b, more), (c, back)], i128::MAX - 10)
        .unwrap();
    assert_eq!(r2.total_allocated(), i128::MAX - 10);
    // A sum that stays out of range is refused.
    let low = StrategyInfo { address: b, weight_bps: 0, active: true, allocated: i128::MIN };
    let low2 = StrategyInfo { address: c, weight_bps: 0, active: true, allocated: -1 };
    assert!(StrategyRouterContract::from_parts(roles.0, roles.1, roles.2, vec![(b, low), (c, low2)], i128::MAX).is_none());
}
