use defindex_vault::{Address, ContractError, StrategyParams, Vault};

struct Setup {
    emergency_manager: Address,
    fee_receiver: Address,
    manager: Address,
    defindex_receiver: Address,
    token0: Address,
}

fn setup() -> (Vault, Setup) {
    let s = Setup {
        emergency_manager: Address::new(1),
        fee_receiver: Address::new(2),
        manager: Address::new(3),
        defindex_receiver: Address::new(4),
        token0: Address::new(10),
    };
    let mut vault = Vault::new();
    let tokens = vec![s.token0];
    let ratios = vec![1u32];
    let strategies = vec![StrategyParams::new(String::from("strategy0"), Address::new(20))];
    vault
        .initialize(
            s.emergency_manager,
            s.fee_receiver,
            s.manager,
            s.defindex_receiver,
            &tokens,
            &ratios,
            &strategies,
        )
        .unwrap();
    (vault, s)
}

#[test]
fn test_emergency_withdraw_success() {
    let (mut vault, s) = setup();
    let amount = 1000i128;
    let user = Address::new(100);

    let df_balance = vault.balance(user);
    assert_eq!(df_balance, 0i128);

    vault.deposit(amount, user, 0).unwrap();

    let df_balance = vault.balance(user);
    assert_eq!(df_balance, amount);

    // The targeted strategy reports nothing invested, so pulling the full
    // amount out of it is refused rather than minting idle funds.
    let r = vault.emergency_withdraw(amount, s.emergency_manager, 0, 0);
    assert_eq!(r, Err(ContractError::InsufficientBalance));
    assert_eq!(vault.get_idle_funds().unwrap(), amount);
}

#[test]
fn initialize_twice_fails_and_keeps_configuration() {
    let (mut vault, s) = setup();
    let other_tokens = vec![Address::new(77)];
    let other_ratios = vec![9u32];
    let other_strategies: Vec<StrategyParams> = Vec::new();
    let r = vault.initialize(
        Address::new(91),
        Address::new(92),
        Address::new(93),
        Address::new(94),
        &other_tokens,
        &other_ratios,
        &other_strategies,
    );
    assert_eq!(r, Err(ContractError::AlreadyInitialized));
    assert_eq!(vault.get_token(0).unwrap(), s.token0);
    assert_eq!(vault.get_ratio(0).unwrap(), 1);
    assert_eq!(vault.get_total_tokens().unwrap(), 1);
    assert_eq!(vault.get_manager().unwrap(), s.manager);
    assert_eq!(vault.get_emergency_manager().unwrap(), s.emergency_manager);
    assert_eq!(vault.get_fee_receiver().unwrap(), s.fee_receiver);
}

#[test]
fn initialize_rejects_mismatched_lengths() {
    let mut vault = Vault::new();
    let tokens = vec![Address::new(10), Address::new(11)];
    let ratios = vec![1u32];
    let strategies: Vec<StrategyParams> = Vec::new();
    let r = vault.initialize(
        Address::new(1),
        Address::new(2),
        Address::new(3),
        Address::new(4),
        &tokens,
        &ratios,
        &strategies,
    );
    assert_eq!(r, Err(ContractError::InvalidArgument));
    assert_eq!(vault.get_token(0), Err(ContractError::NotFound));
}

#[test]
fn deposit_and_reports_end_to_end() {
    let (mut vault, s) = setup();
    let user_a = Address::new(100);
    vault.deposit(1000, user_a, 0).unwrap();

    let idle = vault.get_current_idle_funds().unwrap();
    assert_eq!(idle.len(), 1);
    assert_eq!(idle[0], (s.token0, 1000i128));

    let managed = vault.get_total_managed_funds(&vec![0i128]).unwrap();
    assert_eq!(managed.len(), 1);
    assert_eq!(managed[0], (s.token0, 1000i128));

    let invested = vault.get_current_invested_funds(&vec![0i128]).unwrap();
    assert_eq!(invested[0], (s.token0, 0i128));
}

#[test]
fn deposit_issues_proportional_shares() {
    let (mut vault, _s) = setup();
    let user_a = Address::new(100);
    let user_b = Address::new(101);

    // Bootstrap: one share per unit deposited.
    assert_eq!(vault.deposit(1000, user_a, 0), Ok(1000));
    // Same pool, no strategy holdings: pro rata at one share per unit.
    assert_eq!(vault.deposit(500, user_b, 0), Ok(500));
    assert_eq!(vault.balance(user_a), 1000);
    assert_eq!(vault.balance(user_b), 500);
    assert_eq!(vault.total_shares(), 1500);

    // With invested funds reported, later depositors get fewer shares:
    // 300 * 1500 / (1500 idle + 1500 invested) = 150.
    assert_eq!(vault.deposit(300, user_b, 1500), Ok(150));
    assert_eq!(vault.balance(user_b), 650);
    assert_eq!(vault.total_shares(), 1650);
}

#[test]
fn deposit_rejects_bad_arguments() {
    let (mut vault, _s) = setup();
    let user = Address::new(100);
    assert_eq!(vault.deposit(0, user, 0), Err(ContractError::InvalidArgument));
    assert_eq!(vault.deposit(-5, user, 0), Err(ContractError::InvalidArgument));
    assert_eq!(vault.deposit(5, user, -1), Err(ContractError::InvalidArgument));

    let mut uninitialized = Vault::new();
    assert_eq!(uninitialized.deposit(5, user, 0), Err(ContractError::NotInitialized));
}

#[test]
fn deposit_overflow_is_rejected_atomically() {
    let (mut vault, _s) = setup();
    let user = Address::new(100);
    vault.deposit(i128::MAX, user, 0).unwrap();
    assert_eq!(vault.deposit(1, user, 0), Err(ContractError::ArithmeticOverflow));
    assert_eq!(vault.get_idle_funds().unwrap(), i128::MAX);
    assert_eq!(vault.balance(user), i128::MAX);
}

#[test]
fn withdraw_from_idle_funds_only() {
    let (mut vault, _s) = setup();
    let user = Address::new(100);
    vault.deposit(1000, user, 0).unwrap();

    let plan = vault.withdraw(400, user, &vec![0i128]).unwrap();
    assert_eq!(plan.payout, 400);
    assert_eq!(plan.strategy_draws, vec![0i128]);
    assert_eq!(vault.get_idle_funds().unwrap(), 600);
    assert_eq!(vault.balance(user), 600);
    assert_eq!(vault.total_shares(), 600);
}

#[test]
fn withdraw_draws_shortfall_from_strategies_in_order() {
    let (mut vault, _s) = setup();
    let user = Address::new(100);
    vault.deposit(1000, user, 0).unwrap();

    // The strategy reports 500 invested: managed funds are 1500, so
    // redeeming 900 of 1000 shares owes 1350; idle covers 1000 and the
    // strategy covers the remaining 350.
    let plan = vault.withdraw(900, user, &vec![500i128]).unwrap();
    assert_eq!(plan.payout, 1350);
    assert_eq!(plan.strategy_draws, vec![350i128]);
    assert_eq!(vault.get_idle_funds().unwrap(), 0);
    assert_eq!(vault.balance(user), 100);
}

#[test]
fn withdraw_drains_strategies_in_index_order() {
    let mut vault = Vault::new();
    let strategies = vec![
        StrategyParams::new(String::from("first"), Address::new(20)),
        StrategyParams::new(String::from("second"), Address::new(21)),
    ];
    vault
        .initialize(
            Address::new(1),
            Address::new(2),
            Address::new(3),
            Address::new(4),
            &vec![Address::new(10)],
            &vec![1u32],
            &strategies,
        )
        .unwrap();
    let user = Address::new(100);
    vault.deposit(1000, user, 0).unwrap();

    // Strategies report 300 and 700: managed funds are 2000.  Redeeming
    // 600 of 1000 shares owes 1200; idle covers 1000, the first strategy
    // covers the rest, the second is untouched.
    let plan = vault.withdraw(600, user, &vec![300i128, 700i128]).unwrap();
    assert_eq!(plan.payout, 1200);
    assert_eq!(plan.strategy_draws, vec![200i128, 0i128]);
    assert_eq!(vault.get_idle_funds().unwrap(), 0);
    assert_eq!(vault.balance(user), 400);

    // Redeeming the remaining shares drains both strategies fully.
    let plan = vault.withdraw(400, user, &vec![100i128, 700i128]).unwrap();
    assert_eq!(plan.payout, 800);
    assert_eq!(plan.strategy_draws, vec![100i128, 700i128]);
    assert_eq!(vault.balance(user), 0);
    assert_eq!(vault.total_shares(), 0);
}

#[test]
fn withdraw_rejects_excessive_or_invalid_requests() {
    let (mut vault, _s) = setup();
    let user = Address::new(100);
    vault.deposit(1000, user, 0).unwrap();

    assert_eq!(vault.withdraw(1001, user, &vec![0i128]), Err(ContractError::InsufficientBalance));
    assert_eq!(vault.withdraw(0, user, &vec![0i128]), Err(ContractError::InvalidArgument));
    assert_eq!(vault.withdraw(10, user, &Vec::new()), Err(ContractError::InvalidArgument));
    assert_eq!(vault.withdraw(10, user, &vec![-1i128]), Err(ContractError::InvalidArgument));
    assert_eq!(vault.get_idle_funds().unwrap(), 1000);
    assert_eq!(vault.balance(user), 1000);
}

#[test]
fn emergency_withdraw_pulls_reported_funds_into_idle() {
    let (mut vault, s) = setup();
    let user = Address::new(100);
    vault.deposit(1000, user, 0).unwrap();

    // The strategy reports 800 invested; the emergency manager evacuates it.
    vault.emergency_withdraw(800, s.emergency_manager, 0, 800).unwrap();
    assert_eq!(vault.get_idle_funds().unwrap(), 1800);
}

#[test]
fn emergency_withdraw_requires_the_emergency_manager() {
    let (mut vault, s) = setup();
    assert_eq!(
        vault.emergency_withdraw(10, s.manager, 0, 100),
        Err(ContractError::Unauthorized)
    );
    assert_eq!(vault.get_idle_funds().unwrap(), 0);
}

#[test]
fn emergency_withdraw_unknown_strategy_fails() {
    let (mut vault, s) = setup();
    assert_eq!(
        vault.emergency_withdraw(10, s.emergency_manager, 5, 100),
        Err(ContractError::NotFound)
    );
}

#[test]
fn role_setters_are_gated_to_their_holders() {
    let (mut vault, s) = setup();
    let outsider = Address::new(50);
    let replacement = Address::new(51);

    assert_eq!(vault.set_manager(outsider, replacement), Err(ContractError::Unauthorized));
    vault.set_manager(s.manager, replacement).unwrap();
    assert_eq!(vault.get_manager().unwrap(), replacement);

    assert_eq!(vault.set_fee_receiver(outsider, replacement), Err(ContractError::Unauthorized));
    vault.set_fee_receiver(s.fee_receiver, replacement).unwrap();
    assert_eq!(vault.get_fee_receiver().unwrap(), replacement);

    assert_eq!(
        vault.set_emergency_manager(outsider, replacement),
        Err(ContractError::Unauthorized)
    );
    vault.set_emergency_manager(s.emergency_manager, replacement).unwrap();
    assert_eq!(vault.get_emergency_manager().unwrap(), replacement);
}

#[test]
fn role_getters_before_initialize_fail() {
    let vault = Vault::new();
    assert_eq!(vault.get_manager(), Err(ContractError::NotInitialized));
    assert_eq!(vault.get_emergency_manager(), Err(ContractError::NotInitialized));
    assert_eq!(vault.get_fee_receiver(), Err(ContractError::NotInitialized));
}

#[test]
fn report_functions_validate_strategy_balances() {
    let (mut vault, _s) = setup();
    let user = Address::new(100);
    vault.deposit(1000, user, 0).unwrap();

    assert_eq!(
        vault.get_total_managed_funds(&Vec::new()),
        Err(ContractError::InvalidArgument)
    );
    assert_eq!(
        vault.get_current_invested_funds(&vec![-2i128]),
        Err(ContractError::InvalidArgument)
    );
    assert_eq!(
        vault.get_total_managed_funds(&vec![i128::MAX]),
        Err(ContractError::ArithmeticOverflow)
    );
}
