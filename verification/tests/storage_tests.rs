use defindex_vault::{Address, ContractError, StrategyParams, Vault};

fn active_empty_vault() -> Vault {
    let mut vault = Vault::new();
    let tokens: Vec<Address> = Vec::new();
    let ratios: Vec<u32> = Vec::new();
    let strategies: Vec<StrategyParams> = Vec::new();
    vault
        .initialize(
            Address::new(1),
            Address::new(2),
            Address::new(3),
            Address::new(4),
            &tokens,
            &ratios,
            &strategies,
        )
        .unwrap();
    vault
}

#[test]
fn receive_twice_equals_receive_sum() {
    let mut split = active_empty_vault();
    split.receive_idle_funds(700).unwrap();
    split.receive_idle_funds(42).unwrap();

    let mut joined = active_empty_vault();
    joined.receive_idle_funds(742).unwrap();

    assert_eq!(split.get_idle_funds().unwrap(), 742);
    assert_eq!(split.get_idle_funds().unwrap(), joined.get_idle_funds().unwrap());
}

#[test]
fn receive_overflow_leaves_balance_unchanged() {
    let mut vault = active_empty_vault();
    vault.receive_idle_funds(i128::MAX).unwrap();
    let r = vault.receive_idle_funds(1);
    assert_eq!(r, Err(ContractError::ArithmeticOverflow));
    assert_eq!(vault.get_idle_funds().unwrap(), i128::MAX);

    let ok = vault.receive_idle_funds(0);
    assert_eq!(ok, Ok(()));
    assert_eq!(vault.get_idle_funds().unwrap(), i128::MAX);
}

#[test]
fn receive_rejects_negative_amount() {
    let mut vault = active_empty_vault();
    vault.receive_idle_funds(10).unwrap();
    let r = vault.receive_idle_funds(-1);
    assert_eq!(r, Err(ContractError::InvalidArgument));
    assert_eq!(vault.get_idle_funds().unwrap(), 10);
}

#[test]
fn spend_more_than_balance_fails_and_preserves_balance() {
    let mut vault = active_empty_vault();
    vault.receive_idle_funds(100).unwrap();
    let r = vault.spend_idle_funds(101);
    assert_eq!(r, Err(ContractError::InsufficientBalance));
    assert_eq!(vault.get_idle_funds().unwrap(), 100);

    vault.spend_idle_funds(40).unwrap();
    assert_eq!(vault.get_idle_funds().unwrap(), 60);
}

#[test]
fn idle_funds_before_initialize_fail() {
    let mut vault = Vault::new();
    assert_eq!(vault.get_idle_funds(), Err(ContractError::NotInitialized));
    assert_eq!(vault.receive_idle_funds(5), Err(ContractError::NotInitialized));
    assert_eq!(vault.spend_idle_funds(5), Err(ContractError::NotInitialized));
}

#[test]
fn tokens_come_back_in_write_order() {
    let mut vault = Vault::new();
    let a = Address::new(11);
    let b = Address::new(22);
    vault.set_token(0, a);
    vault.set_token(1, b);
    vault.set_total_tokens(2);
    assert_eq!(vault.get_total_tokens().unwrap(), 2);
    let tokens = vault.get_tokens().unwrap();
    assert_eq!(tokens.len(), 2);
    assert_eq!(tokens[0], a);
    assert_eq!(tokens[1], b);
}

#[test]
fn rewriting_an_index_overwrites_it() {
    let mut vault = Vault::new();
    vault.set_token(0, Address::new(5));
    vault.set_token(0, Address::new(6));
    assert_eq!(vault.get_token(0).unwrap(), Address::new(6));

    vault.set_ratio(0, 7);
    vault.set_ratio(0, 9);
    assert_eq!(vault.get_ratio(0).unwrap(), 9);
}

#[test]
fn reading_unset_indices_fails_with_not_found() {
    let vault = Vault::new();
    assert_eq!(vault.get_token(0), Err(ContractError::NotFound));
    assert_eq!(vault.get_ratio(3), Err(ContractError::NotFound));
    assert_eq!(vault.get_strategy(1), Err(ContractError::NotFound));
}

#[test]
fn iterating_past_populated_indices_fails_fast() {
    let mut vault = Vault::new();
    vault.set_token(0, Address::new(1));
    vault.set_token(1, Address::new(2));
    vault.set_total_tokens(3);
    assert_eq!(vault.get_tokens(), Err(ContractError::NotFound));

    vault.set_strategy(0, StrategyParams::new(String::from("s0"), Address::new(30)));
    vault.set_total_strategies(2);
    assert_eq!(vault.get_strategies(), Err(ContractError::NotFound));
}

#[test]
fn counters_before_any_write_fail() {
    let vault = Vault::new();
    assert_eq!(vault.get_total_tokens(), Err(ContractError::NotInitialized));
    assert_eq!(vault.get_total_strategies(), Err(ContractError::NotInitialized));
    assert_eq!(vault.get_tokens(), Err(ContractError::NotInitialized));
    assert_eq!(vault.get_strategies(), Err(ContractError::NotInitialized));
}

#[test]
fn strategies_round_trip() {
    let mut vault = Vault::new();
    let s0 = StrategyParams::new(String::from("alpha"), Address::new(40));
    let s1 = StrategyParams::new(String::from("beta"), Address::new(41));
    vault.set_strategy(0, s0.clone());
    vault.set_strategy(1, s1.clone());
    vault.set_total_strategies(2);
    assert_eq!(vault.get_strategy(0).unwrap(), s0);
    let all = vault.get_strategies().unwrap();
    assert_eq!(all.len(), 2);
    assert_eq!(all[0], s0);
    assert_eq!(all[1], s1);
}

#[test]
fn defindex_receiver_is_role_gated() {
    let mut vault = Vault::new();
    assert_eq!(vault.get_defindex_receiver(), Err(ContractError::NotInitialized));
    assert_eq!(
        vault.set_defindex_receiver(Address::new(9), Address::new(10)),
        Err(ContractError::NotInitialized)
    );

    let mut vault = active_empty_vault();
    let holder = Address::new(4);
    assert_eq!(vault.get_defindex_receiver().unwrap(), holder);
    assert_eq!(
        vault.set_defindex_receiver(Address::new(9), Address::new(10)),
        Err(ContractError::Unauthorized)
    );
    vault.set_defindex_receiver(holder, Address::new(10)).unwrap();
    assert_eq!(vault.get_defindex_receiver().unwrap(), Address::new(10));
}
