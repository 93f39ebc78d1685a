use ledger::amount::Amount;
use ledger::transaction::CsvAccount;
use ledger::transaction_engine::TransactionEngine;
use ledger::Transaction::{Chargeback, Deposit, Dispute, Resolve, Withdrawal};

fn amt(mantissa: i128, scale: u32) -> Amount {
    Amount::new(mantissa, scale).unwrap()
}

fn run_case(transactions: Vec<ledger::Transaction>, expected: Vec<CsvAccount>) {
    let mut engine = TransactionEngine::new();
    for transaction in transactions {
        engine.process(transaction);
    }
    let mut result = engine.accounts();
    result.sort_by_key(|a| a.client);
    assert_eq!(result, expected);
}

fn row(client: u16, available: &str, held: &str, total: &str, locked: bool) -> CsvAccount {
    CsvAccount {
        client,
        available: available.to_string(),
        held: held.to_string(),
        total: total.to_string(),
        locked,
    }
}

#[test]
fn dispute_moves_deposit_amount_to_held() {
    run_case(
        vec![
            Deposit {
                client: 1,
                tx: 1,
                amount: amt(1, 0),
            },
            Dispute { client: 1, tx: 1 },
        ],
        vec![row(1, "0.0000", "1.0000", "1.0000", false)],
    );
}

#[test]
fn dispute_of_unknown_tx_is_ignored() {
    run_case(
        vec![
            Deposit {
                client: 1,
                tx: 1,
                amount: amt(1, 0),
            },
            Dispute { client: 1, tx: 99 },
        ],
        vec![row(1, "1.0000", "0.0000", "1.0000", false)],
    );
}

#[test]
fn resolve_without_dispute_is_ignored() {
    run_case(
        vec![
            Deposit {
                client: 1,
                tx: 1,
                amount: amt(1, 0),
            },
            Resolve { client: 1, tx: 1 },
        ],
        vec![row(1, "1.0000", "0.0000", "1.0000", false)],
    );
}

#[test]
fn chargeback_without_dispute_is_ignored() {
    run_case(
        vec![
            Deposit {
                client: 1,
                tx: 1,
                amount: amt(1, 0),
            },
            Chargeback { client: 1, tx: 1 },
        ],
        vec![row(1, "1.0000", "0.0000", "1.0000", false)],
    );
}

#[test]
fn disputed_withdrawal_can_push_available_negative() {
    run_case(
        vec![
            Deposit {
                client: 1,
                tx: 1,
                amount: amt(1, 0),
            },
            Withdrawal {
                client: 1,
                tx: 2,
                amount: amt(1, 0),
            },
            Dispute { client: 1, tx: 2 },
        ],
        vec![row(1, "-1.0000", "1.0000", "0.0000", false)],
    );
}

#[test]
fn chargeback_still_fires_after_a_resolve() {
    // The chargeback pattern only requires [monetary, dispute] as a
    // prefix of the matching history, so a resolved dispute can still
    // be charged back; the held balance then goes negative.
    run_case(
        vec![
            Deposit {
                client: 1,
                tx: 1,
                amount: amt(1, 0),
            },
            Dispute { client: 1, tx: 1 },
            Resolve { client: 1, tx: 1 },
            Chargeback { client: 1, tx: 1 },
        ],
        vec![row(1, "1.0000", "-1.0000", "0.0000", true)],
    );
}

#[test]
fn rendering_rounds_ties_to_even() {
    // 0.00015 rounds up to 0.0002 (odd neighbour below), while
    // 0.00025 rounds down to 0.0002 (even neighbour below).
    run_case(
        vec![
            Deposit {
                client: 1,
                tx: 1,
                amount: amt(15, 5),
            },
            Deposit {
                client: 2,
                tx: 2,
                amount: amt(25, 5),
            },
            Deposit {
                client: 3,
                tx: 3,
                amount: amt(16, 5),
            },
        ],
        vec![
            row(1, "0.0002", "0.0000", "0.0002", false),
            row(2, "0.0002", "0.0000", "0.0002", false),
            row(3, "0.0002", "0.0000", "0.0002", false),
        ],
    );
}

#[test]
fn amount_construction_is_exact_or_refused() {
    assert!(Amount::new(12345, 5).is_some());
    // finer than twelve fractional digits
    assert!(Amount::new(1, 13).is_none());
    // too large once scaled to twelve fractional digits
    assert!(Amount::new(i128::MAX, 0).is_none());
    assert!(Amount::new(-1, 0).is_some());
}
