use tx_engine::{money_to_string, Accounts, Transaction, TransactionType, Transactions, AMOUNT_SCALE};

const ONE: u64 = AMOUNT_SCALE;

fn book_of(events: Vec<Transaction>) -> Accounts {
    Accounts::from_transactions(Transactions(events), false).unwrap()
}

#[test]
fn serialize_accounts() {
    let book = book_of(vec![
        Transaction::new(TransactionType::Deposit, 1, 1, Some(ONE + ONE / 2), false),
        Transaction::new(TransactionType::Deposit, 2, 2, Some(2 * ONE), false),
    ]);
    let accounts_expected = "\
client,available,held,total,locked
1,1.5,0.0,1.5,false
2,2.0,0.0,2.0,false
";
    assert_eq!(book.to_csv(), accounts_expected);
}

#[test]
fn serialize_long_floats() {
    // 1.11223344 whole units.
    let book = book_of(vec![Transaction::new(
        TransactionType::Deposit,
        1,
        1,
        Some(111223344),
        false,
    )]);
    let account_expected = "client,available,held,total,locked\n1,1.1122,0.0,1.1122,false\n";
    assert_eq!(book.to_csv(), account_expected);
}

#[test]
fn serialize_empty_book() {
    let book = book_of(vec![]);
    assert_eq!(book.to_csv(), "client,available,held,total,locked\n");
}

#[test]
fn serialize_locked_account() {
    let book = book_of(vec![
        Transaction::new(TransactionType::Deposit, 7, 1, Some(3 * ONE), false),
        Transaction::new(TransactionType::Dispute, 7, 1, None, false),
        Transaction::new(TransactionType::Chargeback, 7, 1, None, false),
    ]);
    assert_eq!(
        book.to_csv(),
        "client,available,held,total,locked\n7,0.0,0.0,0.0,true\n"
    );
}

#[test]
fn report_is_idempotent() {
    let book = book_of(vec![
        Transaction::new(TransactionType::Deposit, 1, 1, Some(111223344), false),
        Transaction::new(TransactionType::Deposit, 2, 2, Some(2 * ONE), false),
        Transaction::new(TransactionType::Dispute, 1, 1, None, false),
    ]);
    let first = book.to_csv();
    let second = book.to_csv();
    assert_eq!(first, second);
}

#[test]
fn render_money_truncates_not_rounds() {
    // .23456789 truncates to .2345 even though it would round to .2346.
    assert_eq!(money_to_string(123456789), "1.2345");
    // .99999999 truncates to .9999, never carrying into the whole part.
    assert_eq!(money_to_string(99999999), "0.9999");
}

#[test]
fn render_money_trailing_zeros() {
    assert_eq!(money_to_string(0), "0.0");
    assert_eq!(money_to_string(ONE as i128), "1.0");
    assert_eq!(money_to_string((ONE + ONE / 2) as i128), "1.5");
    assert_eq!(money_to_string(100100000), "1.001");
    assert_eq!(money_to_string(100000100), "1.0");
    assert_eq!(money_to_string(123400000), "1.234");
}

#[test]
fn render_money_negative() {
    assert_eq!(money_to_string(-(ONE as i128) / 2), "-0.5");
    assert_eq!(money_to_string(-123456789), "-1.2345");
}

#[test]
fn render_money_large() {
    assert_eq!(
        money_to_string(123_456_789 * ONE as i128),
        "123456789.0"
    );
}
