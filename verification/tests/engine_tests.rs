use ledger::amount::Amount;
use ledger::transaction::CsvAccount;
use ledger::transaction_engine::TransactionEngine;
use ledger::Transaction::{Chargeback, Deposit, Dispute, Resolve, Withdrawal};

fn amt(mantissa: i128, scale: u32) -> Amount {
    Amount::new(mantissa, scale).unwrap()
}

fn test(transactions: Vec<ledger::Transaction>, expected: Vec<CsvAccount>) {
    let mut transation_engine = TransactionEngine::new();
    for transaction in transactions {
        transation_engine.process(transaction);
    }
    let mut result = transation_engine.accounts();
    result.sort_by_key(|a| a.client);
    assert_eq!(result, expected);
}

#[test]
fn test_provided_example() {
    let input = vec![
        Deposit {
            client: 1,
            tx: 1,
            amount: amt(1, 0),
        },
        Deposit {
            client: 2,
            tx: 2,
            amount: amt(2, 0),
        },
        Deposit {
            client: 1,
            tx: 3,
            amount: amt(2, 0),
        },
        Withdrawal {
            client: 1,
            tx: 4,
            amount: amt(15, 1),
        },
        Withdrawal {
            client: 2,
            tx: 5,
            amount: amt(3, 0),
        },
    ];
    let expected = vec![
        CsvAccount {
            client: 1,
            available: "1.5000".to_string(),
            held: "0.0000".to_string(),
            total: "1.5000".to_string(),
            locked: false,
        },
        CsvAccount {
            client: 2,
            available: "2.0000".to_string(),
            held: "0.0000".to_string(),
            total: "2.0000".to_string(),
            locked: false,
        },
    ];
    test(input, expected);
}

#[test]
fn should_deposit_money() {
    test(
        vec![Deposit {
            client: 1,
            tx: 1,
            amount: amt(1, 0),
        }],
        vec![CsvAccount {
            client: 1,
            available: "1.0000".to_string(),
            held: "0.0000".to_string(),
            total: "1.0000".to_string(),
            locked: false,
        }],
    );
}

#[test]
fn should_withdraw_money() {
    test(
        vec![
            Deposit {
                client: 1,
                tx: 1,
                amount: amt(1, 0),
            },
            Withdrawal {
                client: 1,
                tx: 2,
                amount: amt(5, 1),
            },
        ],
        vec![CsvAccount {
            client: 1,
            available: "0.5000".to_string(),
            held: "0.0000".to_string(),
            total: "0.5000".to_string(),
            locked: false,
        }],
    );
}

#[test]
fn should_not_withdraw_to_below_zero() {
    test(
        vec![
            Deposit {
                client: 1,
                tx: 1,
                amount: amt(1, 0),
            },
            Withdrawal {
                client: 1,
                tx: 2,
                amount: amt(2, 0),
            },
        ],
        vec![CsvAccount {
            client: 1,
            available: "1.0000".to_string(),
            held: "0.0000".to_string(),
            total: "1.0000".to_string(),
            locked: false,
        }],
    );
}

#[test]
fn should_handle_decimals() {
    test(
        vec![
            Deposit {
                client: 1,
                tx: 1,
                amount: amt(1, 0),
            },
            Withdrawal {
                client: 1,
                tx: 2,
                amount: amt(12345, 5),
            },
            Deposit {
                client: 1,
                tx: 1,
                amount: amt(12345, 5),
            },
        ],
        vec![CsvAccount {
            client: 1,
            available: "1.0000".to_string(),
            held: "0.0000".to_string(),
            total: "1.0000".to_string(),
            locked: false,
        }],
    );
}

#[test]
fn should_dispute_withdrawal() {
    test(
        vec![
            Deposit {
                client: 1,
                tx: 1,
                amount: amt(1, 0),
            },
            Withdrawal {
                client: 1,
                tx: 2,
                amount: amt(2, 1),
            },
            Dispute { client: 1, tx: 2 },
        ],
        vec![CsvAccount {
            client: 1,
            available: "0.6000".to_string(),
            held: "0.2000".to_string(),
            total: "0.8000".to_string(),
            locked: false,
        }],
    );
}

#[test]
fn should_ignore_second_dispute() {
    test(
        vec![
            Deposit {
                client: 1,
                tx: 1,
                amount: amt(1, 0),
            },
            Withdrawal {
                client: 1,
                tx: 2,
                amount: amt(2, 1),
            },
            Dispute { client: 1, tx: 2 },
            Dispute { client: 1, tx: 2 },
        ],
        vec![CsvAccount {
            client: 1,
            available: "0.6000".to_string(),
            held: "0.2000".to_string(),
            total: "0.8000".to_string(),
            locked: false,
        }],
    );
}

#[test]
fn should_resolve_dispute() {
    test(
        vec![
            Deposit {
                client: 1,
                tx: 1,
                amount: amt(1, 0),
            },
            Withdrawal {
                client: 1,
                tx: 2,
                amount: amt(2, 1),
            },
            Dispute { client: 1, tx: 2 },
            Resolve { client: 1, tx: 2 },
        ],
        vec![CsvAccount {
            client: 1,
            available: "0.8000".to_string(),
            held: "0.0000".to_string(),
            total: "0.8000".to_string(),
            locked: false,
        }],
    )
}

#[test]
fn should_ignore_second_resolve() {
    test(
        vec![
            Deposit {
                client: 1,
                tx: 1,
                amount: amt(1, 0),
            },
            Withdrawal {
                client: 1,
                tx: 2,
                amount: amt(2, 1),
            },
            Dispute { client: 1, tx: 2 },
            Resolve { client: 1, tx: 2 },
            Resolve { client: 1, tx: 2 },
        ],
        vec![CsvAccount {
            client: 1,
            available: "0.8000".to_string(),
            held: "0.0000".to_string(),
            total: "0.8000".to_string(),
            locked: false,
        }],
    )
}

#[test]
fn should_handle_chargeback() {
    test(
        vec![
            Deposit {
                client: 1,
                tx: 1,
                amount: amt(10, 0),
            },
            Withdrawal {
                client: 1,
                tx: 2,
                amount: amt(2, 0),
            },
            Dispute { client: 1, tx: 2 },
            Chargeback { client: 1, tx: 2 },
        ],
        vec![CsvAccount {
            client: 1,
            available: "6.0000".to_string(),
            held: "0.0000".to_string(),
            total: "6.0000".to_string(),
            locked: true,
        }],
    )
}

#[test]
fn should_ignore_second_chargeback() {
    test(
        vec![
            Deposit {
                client: 1,
                tx: 1,
                amount: amt(10, 0),
            },
            Withdrawal {
                client: 1,
                tx: 2,
                amount: amt(2, 0),
            },
            Dispute { client: 1, tx: 2 },
            Chargeback { client: 1, tx: 2 },
            Chargeback { client: 1, tx: 2 },
        ],
        vec![CsvAccount {
            client: 1,
            available: "6.0000".to_string(),
            held: "0.0000".to_string(),
            total: "6.0000".to_string(),
            locked: true,
        }],
    )
}

#[test]
fn frozen_accounts_should_be_frozen() {
    test(
        vec![
            Deposit {
                client: 1,
                tx: 1,
                amount: amt(10, 0),
            },
            Withdrawal {
                client: 1,
                tx: 2,
                amount: amt(2, 0),
            },
            Dispute { client: 1, tx: 2 },
            Chargeback { client: 1, tx: 2 },
            Deposit {
                client: 1,
                tx: 1,
                amount: amt(10, 0),
            },
        ],
        vec![CsvAccount {
            client: 1,
            available: "6.0000".to_string(),
            held: "0.0000".to_string(),
            total: "6.0000".to_string(),
            locked: true,
        }],
    )
}
