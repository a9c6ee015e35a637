use tx_engine::account::{Account, Statement};
use tx_engine::amount::round_dp4;
use tx_engine::cli::{get_args, validate_file};
use tx_engine::errors::TxEngineErrors;
use tx_engine::transaction::{Transaction, TxType};

#[test]
fn test_tx_type_from_str() {
    assert_eq!(TxType::from_str("deposit"), Ok(TxType::Deposit));
    assert_eq!(TxType::from_str("withdrawal"), Ok(TxType::Withdraw));
    assert_eq!(TxType::from_str("dispute"), Ok(TxType::Dispute));
    assert_eq!(TxType::from_str("resolve"), Ok(TxType::Resolve));
    assert_eq!(TxType::from_str("chargeback"), Ok(TxType::Chargeback));
    assert_eq!(TxType::from_str("transfer"), Err(TxEngineErrors::Unknown));
    assert_eq!(TxType::from_str("Deposit"), Err(TxEngineErrors::Unknown));
    assert_eq!(TxType::from_str(""), Err(TxEngineErrors::Unknown));
}

#[test]
fn test_is_disputed() {
    assert!(Transaction::new(1, TxType::Dispute, None).is_disputed());
    assert!(!Transaction::new(1, TxType::Deposit, Some(5)).is_disputed());
    assert!(!Transaction::new(1, TxType::Resolve, None).is_disputed());
}

#[test]
fn test_round_half_even_boundary() {
    // Ties at the fourth decimal place go to the even step.
    assert_eq!(round_dp4(50), 0);
    assert_eq!(round_dp4(150), 200);
    assert_eq!(round_dp4(250), 200);
    assert_eq!(round_dp4(149), 100);
    assert_eq!(round_dp4(151), 200);
    assert_eq!(round_dp4(-50), 0);
    assert_eq!(round_dp4(-150), -200);
    assert_eq!(round_dp4(-149), -100);
    assert_eq!(round_dp4(1_000_000), 1_000_000);
    assert_eq!(round_dp4(i64::MAX), 9_223_372_036_854_775_800);
    assert_eq!(round_dp4(i64::MIN), -9_223_372_036_854_775_800);
}

#[test]
fn test_statement_rounds_to_four_places() {
    let mut acc = Account::new();
    // 123.456789 units settle to 123.456800 on the statement.
    acc.add_transaction(Transaction::new(1, TxType::Deposit, Some(123_456_789)))
        .unwrap();
    assert_eq!(
        acc.get_statement().unwrap(),
        Statement::new(123_456_800, 123_456_800, 0, false)
    );
    // A tie of 0.000050 rounds to the even step 0.0000.
    let mut tiny = Account::new();
    tiny.add_transaction(Transaction::new(1, TxType::Deposit, Some(50)))
        .unwrap();
    assert_eq!(tiny.get_statement().unwrap(), Statement::new(0, 0, 0, false));
}

#[test]
fn test_validate_file() {
    assert_eq!(validate_file("input.csv"), Ok("input.csv".to_owned()));
    assert_eq!(validate_file(".csv"), Ok(".csv".to_owned()));
    assert_eq!(
        validate_file("input.txt"),
        Err("File Provided is not csv".to_owned())
    );
    assert_eq!(validate_file("csv"), Err("File Provided is not csv".to_owned()));
}

#[test]
fn test_get_args() {
    let ok = vec!["engine".to_owned(), "data.csv".to_owned()];
    assert_eq!(get_args(&ok), Ok("data.csv".to_owned()));
    let not_csv = vec!["engine".to_owned(), "data.json".to_owned()];
    assert_eq!(get_args(&not_csv), Err("File Provided is not csv".to_owned()));
    let none: Vec<String> = vec!["engine".to_owned()];
    assert_eq!(
        get_args(&none),
        Err("expected exactly one CSV file path".to_owned())
    );
    let extra = vec!["engine".to_owned(), "a.csv".to_owned(), "b.csv".to_owned()];
    assert_eq!(
        get_args(&extra),
        Err("expected exactly one CSV file path".to_owned())
    );
}
