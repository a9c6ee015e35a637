use tx_engine::account::Statement;
use tx_engine::amount::MICROS_PER_UNIT;
use tx_engine::client_store::ClientCache;
use tx_engine::errors::TxEngineErrors;
use tx_engine::transaction::{Transaction, TxType};

#[test]
fn test_scenario_single_deposit() {
    let mut cache = ClientCache::new();
    cache
        .add_transaction_to_client_account(7, Transaction::new(1, TxType::Deposit, Some(10 * MICROS_PER_UNIT)))
        .unwrap();
    assert_eq!(
        cache.get_client_account_statement(7).unwrap(),
        Statement::new(10 * MICROS_PER_UNIT, 10 * MICROS_PER_UNIT, 0, false)
    );
}

#[test]
fn test_scenario_dispute_then_chargeback() {
    let mut cache = ClientCache::new();
    cache
        .add_transaction_to_client_account(7, Transaction::new(1, TxType::Deposit, Some(10 * MICROS_PER_UNIT)))
        .unwrap();
    cache
        .add_transaction_to_client_account(7, Transaction::new(1, TxType::Dispute, None))
        .unwrap();
    assert_eq!(
        cache.get_client_account_statement(7).unwrap(),
        Statement::new(10 * MICROS_PER_UNIT, 0, 10 * MICROS_PER_UNIT, false)
    );
    cache
        .add_transaction_to_client_account(7, Transaction::new(1, TxType::Chargeback, None))
        .unwrap();
    assert_eq!(
        cache.get_client_account_statement(7).unwrap(),
        Statement::new(0, 0, 0, true)
    );
}

#[test]
fn test_scenario_withdraw_to_zero_then_overdraw() {
    let mut cache = ClientCache::new();
    cache
        .add_transaction_to_client_account(3, Transaction::new(1, TxType::Deposit, Some(5 * MICROS_PER_UNIT)))
        .unwrap();
    cache
        .add_transaction_to_client_account(3, Transaction::new(2, TxType::Withdraw, Some(5 * MICROS_PER_UNIT)))
        .unwrap();
    assert_eq!(
        cache.get_client_account_statement(3).unwrap(),
        Statement::new(0, 0, 0, false)
    );
    let overdraw =
        cache.add_transaction_to_client_account(3, Transaction::new(3, TxType::Withdraw, Some(MICROS_PER_UNIT)));
    assert_eq!(overdraw, Err(TxEngineErrors::InsufficientFunds));
    assert_eq!(
        cache.get_client_account_statement(3).unwrap(),
        Statement::new(0, 0, 0, false)
    );
}

#[test]
fn test_scenario_withdrawal_dispute_freezes() {
    let mut cache = ClientCache::new();
    cache
        .add_transaction_to_client_account(4, Transaction::new(1, TxType::Deposit, Some(5 * MICROS_PER_UNIT)))
        .unwrap();
    cache
        .add_transaction_to_client_account(4, Transaction::new(2, TxType::Withdraw, Some(5 * MICROS_PER_UNIT)))
        .unwrap();
    let disputed = cache.add_transaction_to_client_account(4, Transaction::new(2, TxType::Dispute, None));
    assert_eq!(disputed, Err(TxEngineErrors::WithdrawDisputeError));
    assert!(cache.get_client_account_statement(4).unwrap().locked);
}

#[test]
fn test_scenario_dispute_of_unknown_id() {
    let mut cache = ClientCache::new();
    let missing = cache.add_transaction_to_client_account(9, Transaction::new(99, TxType::Dispute, None));
    assert_eq!(missing, Err(TxEngineErrors::TxDoesNotExist(99)));
    // The referenced account was created on first reference, with no funds
    // moved by the rejected record.
    assert_eq!(
        cache.get_client_account_statement(9).unwrap(),
        Statement::new(0, 0, 0, false)
    );
}

#[test]
fn test_statement_for_unknown_account() {
    let cache = ClientCache::new();
    assert_eq!(
        cache.get_client_account_statement(1),
        Err(TxEngineErrors::AccountNotFound)
    );
}

#[test]
fn test_clients_listed_in_ascending_order() {
    let mut cache = ClientCache::new();
    for (client, tx) in [(30u16, 1u32), (10, 2), (20, 3)] {
        cache
            .add_transaction_to_client_account(client, Transaction::new(tx, TxType::Deposit, Some(MICROS_PER_UNIT)))
            .unwrap();
    }
    assert_eq!(cache.get_clients_list().unwrap(), vec![10u16, 20, 30]);
}

#[test]
fn test_limits() {
    // Balances live in the i64 range of millionths: a deposit that would
    // push a balance past that range is reported as not applicable.
    let mut cache = ClientCache::new();
    let huge = Transaction::new(1, TxType::Deposit, Some(i64::MAX));
    assert!(cache.can_apply(1, huge));
    cache.add_transaction_to_client_account(1, huge).unwrap();
    assert!(!cache.can_apply(1, Transaction::new(2, TxType::Deposit, Some(1))));
    assert!(cache.can_apply(1, Transaction::new(2, TxType::Deposit, Some(0))));
    assert!(cache.can_apply(2, huge));
}
