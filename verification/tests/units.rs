//! Unit tests: field parsing, amount rendering, and the state machine's
//! documented edge cases driven through its public operations.

use transactions::parse::{parse_amount, parse_client_id, parse_tx_id};
use transactions::{amount_to_string, State, Transaction};

#[test]
fn parse_amount_exact_values() {
    assert_eq!(parse_amount("1.0"), Some(10000));
    assert_eq!(parse_amount("200"), Some(2000000));
    assert_eq!(parse_amount("1.5"), Some(15000));
    assert_eq!(parse_amount("0.0001"), Some(1));
    assert_eq!(parse_amount("-1.5"), Some(-15000));
    assert_eq!(parse_amount("0"), Some(0));
    assert_eq!(parse_amount("3.14"), Some(31400));
    assert_eq!(parse_amount("1."), Some(10000));
    assert_eq!(parse_amount(".5"), Some(5000));
}

#[test]
fn parse_amount_rejects_malformed_fields() {
    assert_eq!(parse_amount(""), None);
    assert_eq!(parse_amount("-"), None);
    assert_eq!(parse_amount("."), None);
    assert_eq!(parse_amount("abc"), None);
    assert_eq!(parse_amount("1.2.3"), None);
    assert_eq!(parse_amount("1.00005"), None);
    assert_eq!(parse_amount("0.12345"), None);
    assert_eq!(parse_amount("99999999999999999999999"), None);
    // the largest representable magnitude, and one ten-thousandth beyond it
    assert_eq!(parse_amount("922337203685477.5807"), Some(i64::MAX));
    assert_eq!(parse_amount("922337203685477.5808"), None);
}

#[test]
fn parse_ids_respect_their_ranges() {
    assert_eq!(parse_client_id("0"), Some(0));
    assert_eq!(parse_client_id("65535"), Some(65535));
    assert_eq!(parse_client_id("65536"), None);
    assert_eq!(parse_client_id("01"), Some(1));
    assert_eq!(parse_client_id("-1"), None);
    assert_eq!(parse_client_id(""), None);
    assert_eq!(parse_tx_id("4294967295"), Some(4294967295));
    assert_eq!(parse_tx_id("4294967296"), None);
    assert_eq!(parse_tx_id("1x"), None);
}

#[test]
fn amount_rendering_drops_trailing_zeros() {
    assert_eq!(amount_to_string(10000), "1");
    assert_eq!(amount_to_string(15000), "1.5");
    assert_eq!(amount_to_string(2000000), "200");
    assert_eq!(amount_to_string(0), "0");
    assert_eq!(amount_to_string(1), "0.0001");
    assert_eq!(amount_to_string(500), "0.05");
    assert_eq!(amount_to_string(-5000), "-0.5");
    assert_eq!(amount_to_string(-20000), "-2");
    assert_eq!(amount_to_string(31400), "3.14");
    assert_eq!(amount_to_string(12345678), "1234.5678");
}

#[test]
fn summary_of_untouched_ledger_is_header_only() {
    let state: State = Default::default();
    assert_eq!(
        state.serialize_to_csv(),
        "client,available,held,total,locked\n"
    );
}

#[test]
fn withdrawal_may_overdraw() {
    let mut state: State = Default::default();
    state.deposit(1, 10000);
    state.withdraw(1, 30000);
    assert_eq!(
        state.serialize_to_csv(),
        "client,available,held,total,locked\n1,-2,0,-2,false\n"
    );
}

#[test]
fn disputed_withdrawal_holds_nothing() {
    let mut state: State = Default::default();
    state.transact(Transaction::Deposit {
        client: 1,
        tx: 1,
        amount: 50000,
    });
    state.transact(Transaction::Withdrawal {
        client: 1,
        tx: 2,
        amount: 20000,
    });
    state.transact(Transaction::Dispute { client: 1, tx: 2 });
    assert_eq!(
        state.serialize_to_csv(),
        "client,available,held,total,locked\n1,3,0,3,false\n"
    );
}

#[test]
fn redispute_raises_held_again() {
    // the dispute path is deliberately unguarded: double-firing a dispute
    // moves the amount into held twice
    let mut state: State = Default::default();
    state.transact(Transaction::Deposit {
        client: 1,
        tx: 1,
        amount: 10000,
    });
    state.transact(Transaction::Dispute { client: 1, tx: 1 });
    state.transact(Transaction::Dispute { client: 1, tx: 1 });
    assert_eq!(
        state.serialize_to_csv(),
        "client,available,held,total,locked\n1,-1,2,1,false\n"
    );
}

#[test]
fn resolve_without_dispute_lowers_held() {
    // the resolve path mirrors the dispute path's lack of a guard
    let mut state: State = Default::default();
    state.transact(Transaction::Deposit {
        client: 1,
        tx: 1,
        amount: 10000,
    });
    state.transact(Transaction::Resolve { client: 1, tx: 1 });
    assert_eq!(
        state.serialize_to_csv(),
        "client,available,held,total,locked\n1,2,-1,1,false\n"
    );
}

#[test]
fn duplicate_tx_id_overwrites_record() {
    let mut state: State = Default::default();
    state.transact(Transaction::Deposit {
        client: 1,
        tx: 1,
        amount: 10000,
    });
    state.transact(Transaction::Deposit {
        client: 1,
        tx: 1,
        amount: 30000,
    });
    // the dispute holds the second record's amount: last write won
    state.transact(Transaction::Dispute { client: 1, tx: 1 });
    assert_eq!(
        state.serialize_to_csv(),
        "client,available,held,total,locked\n1,1,3,4,false\n"
    );
}

#[test]
fn locked_account_accepts_no_funds_movements() {
    let mut state: State = Default::default();
    state.transact(Transaction::Deposit {
        client: 1,
        tx: 1,
        amount: 10000,
    });
    state.transact(Transaction::Dispute { client: 1, tx: 1 });
    state.transact(Transaction::Chargeback { client: 1, tx: 1 });
    state.transact(Transaction::Deposit {
        client: 1,
        tx: 2,
        amount: 70000,
    });
    state.transact(Transaction::Withdrawal {
        client: 1,
        tx: 3,
        amount: 20000,
    });
    assert_eq!(
        state.serialize_to_csv(),
        "client,available,held,total,locked\n1,0,0,0,true\n"
    );
}

#[test]
fn unknown_tx_references_are_no_ops() {
    let mut state: State = Default::default();
    state.transact(Transaction::Deposit {
        client: 1,
        tx: 1,
        amount: 10000,
    });
    state.transact(Transaction::Dispute { client: 1, tx: 9 });
    state.transact(Transaction::Resolve { client: 1, tx: 9 });
    state.transact(Transaction::Chargeback { client: 1, tx: 9 });
    state.transact(Transaction::Unrecognized("foo".into()));
    assert_eq!(
        state.serialize_to_csv(),
        "client,available,held,total,locked\n1,1,0,1,false\n"
    );
}

#[test]
fn rows_sorted_by_client_id() {
    let mut state: State = Default::default();
    state.transact(Transaction::Deposit {
        client: 300,
        tx: 1,
        amount: 10000,
    });
    state.transact(Transaction::Deposit {
        client: 7,
        tx: 2,
        amount: 20000,
    });
    state.transact(Transaction::Deposit {
        client: 65535,
        tx: 3,
        amount: 30000,
    });
    assert_eq!(
        state.serialize_to_csv(),
        "client,available,held,total,locked\n7,2,0,2,false\n300,1,0,1,false\n65535,3,0,3,false\n"
    );
}

#[test]
fn dispute_then_resolve_restores_held() {
    let mut state: State = Default::default();
    state.transact(Transaction::Deposit {
        client: 1,
        tx: 1,
        amount: 25000,
    });
    state.transact(Transaction::Dispute { client: 1, tx: 1 });
    state.transact(Transaction::Resolve { client: 1, tx: 1 });
    // held is back at its pre-dispute value and the total never moved
    assert_eq!(
        state.serialize_to_csv(),
        "client,available,held,total,locked\n1,2.5,0,2.5,false\n"
    );
}

#[test]
fn unreferenced_client_has_no_row() {
    let mut state: State = Default::default();
    state.transact(Transaction::Deposit {
        client: 5,
        tx: 1,
        amount: 10000,
    });
    state.transact(Transaction::Dispute { client: 5, tx: 1 });
    // only client 5 was ever referenced, so only client 5 has a row
    assert_eq!(
        state.serialize_to_csv(),
        "client,available,held,total,locked\n5,0,1,1,false\n"
    );
}
