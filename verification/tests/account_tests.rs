use tx_engine::account::{Account, Statement};
use tx_engine::amount::MICROS_PER_UNIT;
use tx_engine::errors::TxEngineErrors;
use tx_engine::transaction::{Transaction, TxType};

#[test]
fn test_dispute() {
    let mut account = Account::new();
    account
        .add_transaction(Transaction::new(1, TxType::Deposit, Some(10 * MICROS_PER_UNIT)))
        .unwrap();
    assert_eq!(
        account.get_statement().unwrap(),
        Statement::new(10 * MICROS_PER_UNIT, 10 * MICROS_PER_UNIT, 0, false)
    );
    account
        .add_transaction(Transaction::new(1, TxType::Dispute, None))
        .unwrap();
    assert_eq!(
        account.get_statement().unwrap(),
        Statement::new(10 * MICROS_PER_UNIT, 0, 10 * MICROS_PER_UNIT, false)
    );
}

#[test]
fn test_chargeback() {
    let mut account = Account::new();
    account
        .add_transaction(Transaction::new(1, TxType::Deposit, Some(10 * MICROS_PER_UNIT)))
        .unwrap();
    account
        .add_transaction(Transaction::new(1, TxType::Dispute, None))
        .unwrap();
    account
        .add_transaction(Transaction::new(1, TxType::Chargeback, None))
        .unwrap();
    assert_eq!(account.get_statement().unwrap(), Statement::new(0, 0, 0, true));
}

#[test]
fn test_resolve() {
    let mut account = Account::new();
    account
        .add_transaction(Transaction::new(1, TxType::Deposit, Some(10 * MICROS_PER_UNIT)))
        .unwrap();
    account
        .add_transaction(Transaction::new(1, TxType::Dispute, None))
        .unwrap();
    account
        .add_transaction(Transaction::new(1, TxType::Resolve, None))
        .unwrap();
    assert_eq!(
        account.get_statement().unwrap(),
        Statement::new(10 * MICROS_PER_UNIT, 10 * MICROS_PER_UNIT, 0, false)
    );
}

#[test]
#[should_panic]
fn test_insufficient_funds() {
    let mut acc = Account::new();
    acc.add_transaction(Transaction::new(1, TxType::Deposit, Some(4 * MICROS_PER_UNIT)))
        .unwrap();
    // Panics below because of the unwrap: the account cannot cover 10.
    acc.add_transaction(Transaction::new(2, TxType::Withdraw, Some(10 * MICROS_PER_UNIT)))
        .unwrap();

    // If the transaction was added then check the balance is not less than 0.
    assert_eq!(
        acc.get_statement().unwrap(),
        Statement::new(4 * MICROS_PER_UNIT, 4 * MICROS_PER_UNIT, 0, false)
    );
}

#[test]
#[should_panic]
fn test_withdraw_dispute() {
    let mut acc = Account::new();
    acc.add_transaction(Transaction::new(1, TxType::Deposit, Some(5 * MICROS_PER_UNIT)))
        .unwrap();
    acc.add_transaction(Transaction::new(3, TxType::Withdraw, Some(5 * MICROS_PER_UNIT)))
        .unwrap();
    // Panics below because a withdrawal cannot be disputed.
    acc.add_transaction(Transaction::new(3, TxType::Dispute, None))
        .unwrap();
}

#[test]
fn test_duplicate_id_changes_funds_once() {
    let mut acc = Account::new();
    acc.add_transaction(Transaction::new(1, TxType::Deposit, Some(5 * MICROS_PER_UNIT)))
        .unwrap();
    let second = acc.add_transaction(Transaction::new(1, TxType::Deposit, Some(7 * MICROS_PER_UNIT)));
    assert_eq!(second, Err(TxEngineErrors::TxExists(1)));
    assert_eq!(
        acc.get_statement().unwrap(),
        Statement::new(5 * MICROS_PER_UNIT, 5 * MICROS_PER_UNIT, 0, false)
    );
}

#[test]
fn test_dispute_resolve_restores_split() {
    let mut acc = Account::new();
    acc.add_transaction(Transaction::new(1, TxType::Deposit, Some(3 * MICROS_PER_UNIT)))
        .unwrap();
    acc.add_transaction(Transaction::new(2, TxType::Deposit, Some(4 * MICROS_PER_UNIT)))
        .unwrap();
    let before = acc.get_statement().unwrap();
    acc.add_transaction(Transaction::new(2, TxType::Dispute, None))
        .unwrap();
    acc.add_transaction(Transaction::new(2, TxType::Resolve, None))
        .unwrap();
    assert_eq!(acc.get_statement().unwrap(), before);
}

#[test]
fn test_redispute_after_resolve_rejected() {
    let mut acc = Account::new();
    acc.add_transaction(Transaction::new(1, TxType::Deposit, Some(2 * MICROS_PER_UNIT)))
        .unwrap();
    acc.add_transaction(Transaction::new(1, TxType::Dispute, None))
        .unwrap();
    let twice = acc.add_transaction(Transaction::new(1, TxType::Dispute, None));
    assert_eq!(twice, Err(TxEngineErrors::TxAlreadyDisputed(1)));
    acc.add_transaction(Transaction::new(1, TxType::Resolve, None))
        .unwrap();
    let after_close = acc.add_transaction(Transaction::new(1, TxType::Dispute, None));
    assert_eq!(after_close, Err(TxEngineErrors::TxAlreadyDisputed(1)));
}

#[test]
fn test_resolve_without_dispute_rejected() {
    let mut acc = Account::new();
    acc.add_transaction(Transaction::new(1, TxType::Deposit, Some(MICROS_PER_UNIT)))
        .unwrap();
    assert_eq!(
        acc.add_transaction(Transaction::new(1, TxType::Resolve, None)),
        Err(TxEngineErrors::TxNotDisputed(1))
    );
    assert_eq!(
        acc.add_transaction(Transaction::new(1, TxType::Chargeback, None)),
        Err(TxEngineErrors::TxNotDisputed(1))
    );
}

#[test]
fn test_missing_or_negative_amount_rejected() {
    let mut acc = Account::new();
    assert_eq!(
        acc.add_transaction(Transaction::new(1, TxType::Deposit, None)),
        Err(TxEngineErrors::InvalidInput)
    );
    assert_eq!(
        acc.add_transaction(Transaction::new(2, TxType::Deposit, Some(-1))),
        Err(TxEngineErrors::InvalidInput)
    );
    assert_eq!(
        acc.add_transaction(Transaction::new(3, TxType::Withdraw, None)),
        Err(TxEngineErrors::InvalidInput)
    );
    assert_eq!(acc.get_statement().unwrap(), Statement::new(0, 0, 0, false));
}

#[test]
fn test_locked_account_rejects_everything() {
    let mut acc = Account::new();
    acc.add_transaction(Transaction::new(1, TxType::Deposit, Some(MICROS_PER_UNIT)))
        .unwrap();
    acc.add_transaction(Transaction::new(1, TxType::Dispute, None))
        .unwrap();
    acc.add_transaction(Transaction::new(1, TxType::Chargeback, None))
        .unwrap();
    assert!(acc.is_locked());
    assert_eq!(
        acc.add_transaction(Transaction::new(2, TxType::Deposit, Some(MICROS_PER_UNIT))),
        Err(TxEngineErrors::ClientAccountLocked)
    );
    assert_eq!(
        acc.add_transaction(Transaction::new(2, TxType::Withdraw, Some(MICROS_PER_UNIT))),
        Err(TxEngineErrors::ClientAccountLocked)
    );
    assert_eq!(
        acc.add_transaction(Transaction::new(1, TxType::Resolve, None)),
        Err(TxEngineErrors::ClientAccountLocked)
    );
}

#[test]
fn test_withdrawal_is_guarded_by_total_not_available() {
    // While a dispute holds funds, a withdrawal covered by the total may
    // draw the available balance below zero; the balance equation
    // total == available + held still holds exactly.
    let mut acc = Account::new();
    acc.add_transaction(Transaction::new(1, TxType::Deposit, Some(10 * MICROS_PER_UNIT)))
        .unwrap();
    acc.add_transaction(Transaction::new(1, TxType::Dispute, None))
        .unwrap();
    acc.add_transaction(Transaction::new(2, TxType::Withdraw, Some(5 * MICROS_PER_UNIT)))
        .unwrap();
    assert_eq!(
        acc.get_statement().unwrap(),
        Statement::new(5 * MICROS_PER_UNIT, -5 * MICROS_PER_UNIT, 10 * MICROS_PER_UNIT, false)
    );
}
