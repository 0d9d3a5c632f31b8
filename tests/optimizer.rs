use yield_optimizer::{
    calculate_rewards, OptimizerError, Strategy, UserPosition, YieldOptimizer, MIN_DEPOSIT_AMOUNT,
};

fn s(x: &str) -> String {
    x.to_string()
}

fn fresh() -> YieldOptimizer {
    YieldOptimizer::new(s("bob"), s("charlie"), false).unwrap()
}

fn with_two_strategies() -> YieldOptimizer {
    let mut c = fresh();
    assert_eq!(
        c.add_strategy(&s("bob"), s("Lend"), s("Ref"), 500, MIN_DEPOSIT_AMOUNT, 10),
        Ok(0)
    );
    assert_eq!(
        c.add_strategy(&s("bob"), s("Farm"), s("Burrow"), 1200, 5 * MIN_DEPOSIT_AMOUNT, 20),
        Ok(1)
    );
    c
}

fn tvl_of(c: &YieldOptimizer, id: u64) -> u128 {
    c.get_strategy(id).unwrap().tvl
}

#[test]
fn test_new() {
    let contract = YieldOptimizer::new(s("bob"), s("charlie"), false).unwrap();
    assert_eq!(contract.get_total_tvl(), 0);
}

#[test]
fn new_twice_is_refused() {
    assert!(matches!(
        YieldOptimizer::new(s("bob"), s("charlie"), true),
        Err(OptimizerError::AlreadyInitialized)
    ));
}

#[test]
fn add_strategy_records_fields() {
    let c = with_two_strategies();
    let st: Strategy = c.get_strategy(1).unwrap();
    assert_eq!(st.name, "Farm");
    assert_eq!(st.protocol, "Burrow");
    assert_eq!(st.apy, 1200);
    assert_eq!(st.tvl, 0);
    assert_eq!(st.min_deposit, 5 * MIN_DEPOSIT_AMOUNT);
    assert!(st.is_active);
    assert_eq!(st.last_update, 20);
    assert!(c.get_strategy(2).is_none());
}

#[test]
fn only_owner_adds_strategies() {
    let mut c = with_two_strategies();
    assert_eq!(
        c.add_strategy(&s("alice"), s("X"), s("Y"), 1, 1, 30),
        Err(OptimizerError::Unauthorized)
    );
    assert!(c.get_strategy(2).is_none());
}

#[test]
fn only_owner_updates_rates() {
    let mut c = with_two_strategies();
    assert_eq!(c.update_strategy_apy(&s("alice"), 0, 900, 40), Err(OptimizerError::Unauthorized));
    assert_eq!(c.get_strategy(0).unwrap().apy, 500);
    assert_eq!(c.update_strategy_apy(&s("bob"), 0, 900, 40), Ok(()));
    let st = c.get_strategy(0).unwrap();
    assert_eq!(st.apy, 900);
    assert_eq!(st.last_update, 40);
    assert_eq!(c.update_strategy_apy(&s("bob"), 7, 900, 40), Err(OptimizerError::StrategyNotFound));
}

#[test]
fn deposits_sum_into_total_tvl() {
    let mut c = with_two_strategies();
    assert_eq!(c.deposit(&s("alice"), 0, 2 * MIN_DEPOSIT_AMOUNT, 100), Ok(()));
    assert_eq!(c.deposit(&s("dave"), 1, 7 * MIN_DEPOSIT_AMOUNT, 110), Ok(()));
    assert_eq!(c.deposit(&s("alice"), 1, 5 * MIN_DEPOSIT_AMOUNT, 120), Ok(()));
    assert_eq!(c.get_total_tvl(), 14 * MIN_DEPOSIT_AMOUNT);
    assert_eq!(tvl_of(&c, 0), 2 * MIN_DEPOSIT_AMOUNT);
    assert_eq!(tvl_of(&c, 1), 12 * MIN_DEPOSIT_AMOUNT);
}

#[test]
fn deposit_moves_only_its_strategy() {
    let mut c = with_two_strategies();
    c.deposit(&s("alice"), 1, 5 * MIN_DEPOSIT_AMOUNT, 100).unwrap();
    let before0 = tvl_of(&c, 0);
    let before1 = tvl_of(&c, 1);
    c.deposit(&s("alice"), 0, 3 * MIN_DEPOSIT_AMOUNT, 101).unwrap();
    assert_eq!(tvl_of(&c, 0), before0 + 3 * MIN_DEPOSIT_AMOUNT);
    assert_eq!(tvl_of(&c, 1), before1);
}

#[test]
fn deposit_records_position() {
    let mut c = with_two_strategies();
    c.deposit(&s("alice"), 0, 2 * MIN_DEPOSIT_AMOUNT, 100).unwrap();
    c.deposit(&s("alice"), 1, 6 * MIN_DEPOSIT_AMOUNT, 150).unwrap();
    let ps = c.get_user_positions(s("alice"));
    assert_eq!(
        ps,
        vec![
            UserPosition {
                amount: 2 * MIN_DEPOSIT_AMOUNT,
                strategy_id: 0,
                rewards_claimed: 0,
                deposit_timestamp: 100
            },
            UserPosition {
                amount: 6 * MIN_DEPOSIT_AMOUNT,
                strategy_id: 1,
                rewards_claimed: 0,
                deposit_timestamp: 150
            },
        ]
    );
}

#[test]
fn deposit_below_global_minimum_is_refused() {
    let mut c = with_two_strategies();
    assert_eq!(
        c.deposit(&s("alice"), 0, MIN_DEPOSIT_AMOUNT - 1, 100),
        Err(OptimizerError::DepositTooSmall)
    );
    assert_eq!(c.get_total_tvl(), 0);
    assert_eq!(tvl_of(&c, 0), 0);
    assert!(c.get_user_positions(s("alice")).is_empty());
}

#[test]
fn deposit_below_strategy_minimum_is_refused() {
    let mut c = with_two_strategies();
    assert_eq!(
        c.deposit(&s("alice"), 1, 5 * MIN_DEPOSIT_AMOUNT - 1, 100),
        Err(OptimizerError::DepositTooSmall)
    );
    assert_eq!(c.get_total_tvl(), 0);
    assert_eq!(tvl_of(&c, 1), 0);
    assert!(c.get_user_positions(s("alice")).is_empty());
}

#[test]
fn deposit_into_unknown_strategy_is_refused() {
    let mut c = with_two_strategies();
    assert_eq!(
        c.deposit(&s("alice"), 2, MIN_DEPOSIT_AMOUNT, 100),
        Err(OptimizerError::StrategyNotFound)
    );
}

#[test]
fn deposit_past_u128_is_refused() {
    let mut c = with_two_strategies();
    c.deposit(&s("alice"), 0, u128::MAX - MIN_DEPOSIT_AMOUNT, 100).unwrap();
    assert_eq!(
        c.deposit(&s("dave"), 0, 2 * MIN_DEPOSIT_AMOUNT, 100),
        Err(OptimizerError::Overflow)
    );
    assert_eq!(c.get_total_tvl(), u128::MAX - MIN_DEPOSIT_AMOUNT);
    assert!(c.get_user_positions(s("dave")).is_empty());
}

#[test]
fn positions_of_unknown_account_are_empty() {
    let mut c = with_two_strategies();
    assert!(c.get_user_positions(s("eugene")).is_empty());
    c.deposit(&s("alice"), 0, MIN_DEPOSIT_AMOUNT, 100).unwrap();
    assert!(c.get_user_positions(s("eugene")).is_empty());
}

#[test]
fn one_year_at_five_percent() {
    assert_eq!(calculate_rewards(1_000_000, 500, 31_536_000), Some(50_000));
}

#[test]
fn zero_rate_gives_nothing() {
    assert_eq!(calculate_rewards(1_000_000, 0, 31_536_000), Some(0));
    assert_eq!(calculate_rewards(u128::MAX, 0, u64::MAX), Some(0));
    assert_eq!(calculate_rewards(0, 0, 0), Some(0));
}

#[test]
fn reward_rounds_down() {
    // 1_000 * 3 / 10_000 = 0 yearly.
    assert_eq!(calculate_rewards(1_000, 3, 31_536_000), Some(0));
    // yearly 50_000, half a year.
    assert_eq!(calculate_rewards(1_000_000, 500, 15_768_000), Some(25_000));
}

#[test]
fn reward_grows_with_time_and_rate() {
    let a = 7_000_000_000u128;
    let mut last = 0u128;
    for e in [0u64, 1, 1_000, 86_400, 31_536_000, 100_000_000] {
        let r = calculate_rewards(a, 750, e).unwrap();
        assert!(r >= last);
        last = r;
    }
    let mut last = 0u128;
    for apy in [0u64, 1, 50, 500, 10_000, 123_456] {
        let r = calculate_rewards(a, apy, 31_536_000).unwrap();
        assert!(r >= last);
        last = r;
    }
}

#[test]
fn reward_overflow_is_reported() {
    assert_eq!(calculate_rewards(u128::MAX, 2, 1), None);
    assert_eq!(calculate_rewards(u128::MAX / 2, 10_000, 3), None);
}

#[test]
fn claim_pays_accrued_reward() {
    let mut c = with_two_strategies();
    let amount = 10 * MIN_DEPOSIT_AMOUNT;
    c.deposit(&s("alice"), 0, amount, 1_000).unwrap();
    let t = c.claim_rewards(&s("alice"), 0, 1_000 + 31_536_000).unwrap();
    assert_eq!(t.receiver, "alice");
    assert_eq!(t.amount, amount / 20);
    assert_eq!(c.get_user_positions(s("alice"))[0].rewards_claimed, amount / 20);
    // the baseline stays the deposit time: a second claim pays the whole period again
    let t2 = c.claim_rewards(&s("alice"), 0, 1_000 + 31_536_000).unwrap();
    assert_eq!(t2.amount, amount / 20);
    assert_eq!(c.get_user_positions(s("alice"))[0].rewards_claimed, amount / 10);
    assert_eq!(c.get_total_tvl(), amount);
}

#[test]
fn claim_without_positions_is_refused() {
    let mut c = with_two_strategies();
    assert!(matches!(c.claim_rewards(&s("alice"), 0, 5), Err(OptimizerError::NoPositions)));
}

#[test]
fn claim_out_of_range_is_refused() {
    let mut c = with_two_strategies();
    c.deposit(&s("alice"), 0, MIN_DEPOSIT_AMOUNT, 100).unwrap();
    c.deposit(&s("alice"), 0, MIN_DEPOSIT_AMOUNT, 200).unwrap();
    let before = c.get_user_positions(s("alice"));
    assert!(matches!(c.claim_rewards(&s("alice"), 2, 50_000), Err(OptimizerError::InvalidIndex)));
    assert!(matches!(
        c.claim_rewards(&s("alice"), u64::MAX, 50_000),
        Err(OptimizerError::InvalidIndex)
    ));
    assert_eq!(c.get_user_positions(s("alice")), before);
}

#[test]
fn claim_before_deposit_time_is_refused() {
    let mut c = with_two_strategies();
    c.deposit(&s("alice"), 0, MIN_DEPOSIT_AMOUNT, 100).unwrap();
    assert!(matches!(c.claim_rewards(&s("alice"), 0, 99), Err(OptimizerError::Overflow)));
    assert_eq!(c.get_user_positions(s("alice"))[0].rewards_claimed, 0);
}

#[test]
fn claim_with_overflowing_reward_is_refused() {
    let mut c = with_two_strategies();
    c.update_strategy_apy(&s("bob"), 0, u64::MAX, 50).unwrap();
    c.deposit(&s("alice"), 0, 100_000_000 * MIN_DEPOSIT_AMOUNT, 100).unwrap();
    assert!(matches!(c.claim_rewards(&s("alice"), 0, 200), Err(OptimizerError::Overflow)));
    assert_eq!(c.get_user_positions(s("alice"))[0].rewards_claimed, 0);
}

#[test]
fn strategy_tvl_matches_its_positions() {
    let mut c = with_two_strategies();
    c.deposit(&s("alice"), 0, 3 * MIN_DEPOSIT_AMOUNT, 1).unwrap();
    c.deposit(&s("dave"), 1, 9 * MIN_DEPOSIT_AMOUNT, 2).unwrap();
    c.deposit(&s("dave"), 0, 4 * MIN_DEPOSIT_AMOUNT, 3).unwrap();
    c.claim_rewards(&s("dave"), 1, 1_000_000).unwrap();
    for id in 0..2u64 {
        let mut sum = 0u128;
        for who in ["alice", "dave"] {
            for p in c.get_user_positions(s(who)) {
                if p.strategy_id == id {
                    sum += p.amount;
                }
            }
        }
        assert_eq!(tvl_of(&c, id), sum);
    }
}
