//! End-to-end tests of the ledger state machine: a CSV transaction log in,
//! the rendered account summary out.

use transactions::parse::{parse_amount, parse_client_id, parse_tx_id};
use transactions::{State, Transaction, TransactionType};

/// Decodes one raw row into a transaction, or drops it as malformed.
fn decode(record: &csv::StringRecord) -> Option<Transaction> {
    let label = record.get(0)?.trim();
    let kind = TransactionType::from_str(label);
    if let TransactionType::Unrecognized(s) = kind {
        return Some(Transaction::Unrecognized(s));
    }
    let client = parse_client_id(record.get(1)?.trim())?;
    let tx = parse_tx_id(record.get(2)?.trim())?;
    let amount = match record.get(3) {
        Some(f) => parse_amount(f.trim()),
        None => None,
    };
    Transaction::from_parts(kind, client, tx, amount)
}

/// Given an input list of transactions, run it through the state machine
/// and assess the output.
fn harness(input: &str, expected_output: &str) -> bool {
    let mut reader = csv::ReaderBuilder::new()
        .flexible(true)
        .from_reader(input.as_bytes());

    let mut state: State = Default::default();

    for record in reader.records() {
        let record = match record {
            Ok(r) => r,
            Err(_) => continue,
        };
        let t = match decode(&record) {
            Some(t) => t,
            None => continue,
        };
        if state.can_apply() {
            state.transact(t);
        }
    }

    let output = state.serialize_to_csv();
    println!("EXPECTED\n{}", expected_output);
    println!("\nRECEIVED\n{}", output);
    output == expected_output
}

#[test]
fn client_should_lock() {
    assert!(harness(
        r#"
type,client,tx,amount
deposit,1,1,1.0
deposit,1,2,200
dispute,1,1
chargeback,1,1"#,
        r#"client,available,held,total,locked
1,200,0,200,true
"#
    ));
}

/// A chargeback should be a noop if a dispute was not first filed.
#[test]
fn chargeback_without_dispute() {
    assert!(harness(
        r#"
type,client,tx,amount
deposit,1,1,1.0
deposit,1,2,200
chargeback,1,1"#,
        r#"client,available,held,total,locked
1,201,0,201,false
"#
    ))
}

/// A chargeback cannot follow a resolution of the same dispute.
#[test]
fn chargeback_after_resolution() {
    assert!(harness(
        r#"
type,client,tx,amount
deposit,1,1,1.0
deposit,1,2,200
dispute,1,1
resolve,1,1
chargeback,1,1"#,
        r#"client,available,held,total,locked
1,201,0,201,false
"#
    ));
}

/// If a dispute references a client id that is not part of the transaction
/// it refers to, it should be a noop
#[test]
fn dispute_wrong_client_id() {
    assert!(harness(
        r#"
type,client,tx,amount
deposit,1,1,1.0
deposit,2,2,1
dispute,2,1
chargeback,2,1"#,
        r#"client,available,held,total,locked
1,1,0,1,false
2,1,0,1,false
"#
    ));
}

/// A chargeback'd withdrawal should return money to the client.
#[test]
fn chargeback_withdrawal() {
    assert!(harness(
        r#"
type,client,tx,amount
deposit ,  1,1,  1.0
withdrawal,  1,2,1
dispute, 1,2
chargeback,1,2"#,
        r#"client,available,held,total,locked
1,1,0,1,true
"#
    ));
}
