use tx_engine::{Account, AccountError, Transaction, TransactionType, AMOUNT_SCALE};

// 1.0 in raw fixed-point units.
const ONE: u64 = AMOUNT_SCALE;

#[test]
fn apply_deposit() {
    let deposit_amount = ONE;
    let deposit = Transaction::new(TransactionType::Deposit, 1, 1, Some(deposit_amount), false);
    let mut account = Account::new(1);
    account.apply_transaction(deposit.clone()).unwrap();
    assert_eq!(account.client(), 1);
    assert_eq!(account.available(), deposit_amount as i128);
    assert_eq!(account.held(), 0);
    assert_eq!(account.total(), deposit_amount as i128);
    assert!(!account.locked());
    assert_eq!(account.retained(1), Some(&deposit));
}

#[test]
fn apply_withdrawal() {
    let withdrawal_amount = ONE;
    let withdrawal = Transaction::new(
        TransactionType::Withdrawal,
        1,
        1,
        Some(withdrawal_amount),
        false,
    );
    let mut account = Account::new(1);
    account
        .apply_transaction(Transaction::new(
            TransactionType::Deposit,
            1,
            10,
            Some(withdrawal_amount),
            false,
        ))
        .unwrap();
    account.apply_transaction(withdrawal.clone()).unwrap();
    assert_eq!(account.available(), 0);
    assert_eq!(account.held(), 0);
    assert_eq!(account.total(), 0);
    assert!(!account.locked());
    assert_eq!(account.retained(1), Some(&withdrawal));
}

#[test]
fn apply_withdrawal_overdrawn() {
    let withdrawal = Transaction::new(TransactionType::Withdrawal, 1, 1, Some(ONE), false);
    let mut account = Account::new(1);
    assert!(matches!(
        account.apply_transaction(withdrawal).unwrap_err(),
        AccountError::Withdrawal(1, 1)
    ));
}

#[test]
fn apply_dispute() {
    let available = 9 * ONE as i128;
    let held = 0;
    let total = available;
    let mut account = Account::new(1);
    account
        .apply_transaction(Transaction::new(
            TransactionType::Deposit,
            1,
            50,
            Some(9 * ONE),
            false,
        ))
        .unwrap();
    assert_eq!(account.available(), available);
    assert_eq!(account.held(), held);
    assert_eq!(account.total(), total);

    let tx_amount = ONE as i128;
    let deposit = Transaction::new(TransactionType::Deposit, 1, 1, Some(ONE), false);
    // Increase available and total by `tx_amount`
    account.apply_transaction(deposit).unwrap();
    // Decrease available and increase held by `tx_amount`
    account
        .apply_transaction(Transaction::new(TransactionType::Dispute, 1, 1, None, false))
        .unwrap();

    // Available was increased and decreased by the same amount
    assert_eq!(account.available(), available);
    assert_eq!(account.held(), tx_amount);
    assert_eq!(account.total(), total + tx_amount);
    assert_eq!(account.total(), account.available() + account.held());
    assert!(*account.retained(1).unwrap().disputed());

    let withdrawal = Transaction::new(TransactionType::Withdrawal, 1, 2, Some(ONE), false);
    // Decrease available and total by `tx_amount`
    account.apply_transaction(withdrawal).unwrap();
    // Increase held and total by `tx_amount`
    account
        .apply_transaction(Transaction::new(TransactionType::Dispute, 1, 2, None, false))
        .unwrap();

    // Available is not restored by withdrawal dispute
    assert_eq!(account.available(), available - tx_amount);
    assert_eq!(account.held(), tx_amount * 2);
    // Total is not changed, as a result of the dispute
    assert_eq!(account.total(), total + tx_amount);
    assert_eq!(account.total(), account.available() + account.held());
    assert!(*account.retained(2).unwrap().disputed());

    assert!(matches!(
        account
            .apply_transaction(Transaction::new(TransactionType::Dispute, 1, 3, None, false))
            .unwrap_err(),
        AccountError::Dispute(1, 3)
    ));
}

// Reach `available = 8, held = 2, total = 10`, with transaction 1 a
// disputed deposit of 1.0 and transaction 2 a disputed withdrawal of 1.0.
fn account_with_two_disputes() -> Account {
    let mut account = Account::new(1);
    account
        .apply_transaction(Transaction::new(
            TransactionType::Deposit,
            1,
            100,
            Some(9 * ONE),
            false,
        ))
        .unwrap();
    account
        .apply_transaction(Transaction::new(TransactionType::Deposit, 1, 1, Some(ONE), false))
        .unwrap();
    account
        .apply_transaction(Transaction::new(
            TransactionType::Withdrawal,
            1,
            2,
            Some(ONE),
            false,
        ))
        .unwrap();
    account
        .apply_transaction(Transaction::new(TransactionType::Dispute, 1, 1, None, false))
        .unwrap();
    account
        .apply_transaction(Transaction::new(TransactionType::Dispute, 1, 2, None, false))
        .unwrap();
    account
}

#[test]
fn apply_resolve() {
    let available = 8 * ONE as i128;
    let held = 2 * ONE as i128;
    let total = available + held;
    let tx_amount = ONE as i128;
    let mut account = account_with_two_disputes();
    assert_eq!(account.available(), available);
    assert_eq!(account.held(), held);
    assert_eq!(account.total(), total);

    account
        .apply_transaction(Transaction::new(TransactionType::Resolve, 1, 1, None, false))
        .unwrap();

    assert_eq!(account.available(), available + tx_amount);
    assert_eq!(account.held(), held - tx_amount);
    assert_eq!(account.total(), total);
    assert_eq!(account.total(), account.available() + account.held());
    assert!(!*account.retained(1).unwrap().disputed());

    account
        .apply_transaction(Transaction::new(TransactionType::Resolve, 1, 2, None, false))
        .unwrap();

    assert_eq!(account.available(), available + tx_amount);
    assert_eq!(account.held(), held - tx_amount * 2);
    assert_eq!(account.total(), total - tx_amount);
    assert_eq!(account.total(), account.available() + account.held());
    assert!(!*account.retained(2).unwrap().disputed());

    assert!(matches!(
        account
            .apply_transaction(Transaction::new(TransactionType::Resolve, 1, 3, None, false))
            .unwrap_err(),
        AccountError::Resolve(1, 3)
    ));

    account
        .apply_transaction(Transaction::new(
            TransactionType::Withdrawal,
            1,
            3,
            Some(ONE),
            false,
        ))
        .unwrap();

    assert!(matches!(
        account
            .apply_transaction(Transaction::new(TransactionType::Resolve, 1, 3, None, false))
            .unwrap_err(),
        AccountError::ResolveUndisputed(1, 3)
    ));
}

#[test]
fn apply_chargeback() {
    let available = 8 * ONE as i128;
    let held = 2 * ONE as i128;
    let total = available + held;
    let tx_amount = ONE as i128;
    let mut account = account_with_two_disputes();

    account
        .apply_transaction(Transaction::new(TransactionType::Chargeback, 1, 1, None, false))
        .unwrap();

    assert_eq!(account.available(), available);
    assert_eq!(account.held(), held - tx_amount);
    assert_eq!(account.total(), total - tx_amount);
    assert_eq!(account.total(), account.available() + account.held());
    assert!(!*account.retained(1).unwrap().disputed());
    assert!(account.locked());

    account
        .apply_transaction(Transaction::new(TransactionType::Chargeback, 1, 2, None, false))
        .unwrap();

    assert_eq!(account.available(), available + tx_amount);
    assert_eq!(account.held(), held - tx_amount * 2);
    assert_eq!(account.total(), total - tx_amount);
    assert_eq!(account.total(), account.available() + account.held());
    assert!(!*account.retained(2).unwrap().disputed());

    assert!(matches!(
        account
            .apply_transaction(Transaction::new(TransactionType::Chargeback, 1, 3, None, false))
            .unwrap_err(),
        AccountError::Chargeback(1, 3)
    ));

    account
        .apply_transaction(Transaction::new(
            TransactionType::Withdrawal,
            1,
            3,
            Some(ONE),
            false,
        ))
        .unwrap();

    assert!(matches!(
        account
            .apply_transaction(Transaction::new(TransactionType::Chargeback, 1, 3, None, false))
            .unwrap_err(),
        AccountError::ChargebackUndisputed(1, 3)
    ));
}

#[test]
fn deposit_to_fresh_account() {
    let mut account = Account::new(1);
    account
        .apply_transaction(Transaction::new(TransactionType::Deposit, 1, 1, Some(2 * ONE), false))
        .unwrap();
    assert_eq!(account.available(), 2 * ONE as i128);
    assert_eq!(account.held(), 0);
    assert_eq!(account.total(), 2 * ONE as i128);
    assert!(!account.locked());
}

#[test]
fn withdrawal_insufficient_leaves_balances() {
    let mut account = Account::new(1);
    account
        .apply_transaction(Transaction::new(TransactionType::Deposit, 1, 1, Some(2 * ONE), false))
        .unwrap();
    let err = account
        .apply_transaction(Transaction::new(
            TransactionType::Withdrawal,
            1,
            2,
            Some(5 * ONE),
            false,
        ))
        .unwrap_err();
    assert!(matches!(err, AccountError::Withdrawal(1, 2)));
    assert_eq!(account.available(), 2 * ONE as i128);
    assert_eq!(account.held(), 0);
    assert_eq!(account.total(), 2 * ONE as i128);
}

#[test]
fn dispute_resolve_roundtrip_on_deposit() {
    let mut account = Account::new(1);
    account
        .apply_transaction(Transaction::new(
            TransactionType::Deposit,
            1,
            50,
            Some(9 * ONE),
            false,
        ))
        .unwrap();
    account
        .apply_transaction(Transaction::new(TransactionType::Deposit, 1, 1, Some(ONE), false))
        .unwrap();
    assert_eq!(account.available(), 10 * ONE as i128);
    assert_eq!(account.total(), 10 * ONE as i128);

    account
        .apply_transaction(Transaction::new(TransactionType::Dispute, 1, 1, None, false))
        .unwrap();
    assert_eq!(account.available(), 9 * ONE as i128);
    assert_eq!(account.held(), ONE as i128);
    assert_eq!(account.total(), 10 * ONE as i128);

    account
        .apply_transaction(Transaction::new(TransactionType::Resolve, 1, 1, None, false))
        .unwrap();
    assert_eq!(account.available(), 10 * ONE as i128);
    assert_eq!(account.held(), 0);
    assert_eq!(account.total(), 10 * ONE as i128);
}

#[test]
fn deposit_missing_amount_defaults_to_zero() {
    // A funding event without an amount counts as zero instead of
    // faulting: the retained transaction exists, the balances do not move.
    let deposit = Transaction::new(TransactionType::Deposit, 1, 1, None, false);
    let mut account = Account::new(1);
    account.apply_transaction(deposit).unwrap();
    assert_eq!(account.available(), 0);
    assert_eq!(account.total(), 0);
    assert!(account.retained(1).is_some());
}

#[test]
fn balances_stay_consistent() {
    let mut account = account_with_two_disputes();
    assert_eq!(account.total(), account.available() + account.held());
    account
        .apply_transaction(Transaction::new(TransactionType::Chargeback, 1, 1, None, false))
        .unwrap();
    assert_eq!(account.total(), account.available() + account.held());
    account
        .apply_transaction(Transaction::new(TransactionType::Resolve, 1, 2, None, false))
        .unwrap();
    assert_eq!(account.total(), account.available() + account.held());
}
