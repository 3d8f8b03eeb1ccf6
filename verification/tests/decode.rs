//! Tests of row decoding: the raw label classification and the assembly of
//! typed transactions from decoded fields.

use transactions::parse::{parse_amount, parse_client_id, parse_tx_id};
use transactions::{Transaction, TransactionType};

/// Decodes one raw row into a transaction, or drops it as malformed.
fn decode(record: &csv::StringRecord) -> Option<Transaction> {
    let label = record.get(0)?.trim();
    let kind = TransactionType::from_str(label);
    if let TransactionType::Unrecognized(s) = kind {
        return Some(Transaction::Unrecognized(s));
    }
    let client = parse_client_id(record.get(1)?.trim())?;
    let tx = parse_tx_id(record.get(2)?.trim())?;
    let amount = match record.get(3) {
        Some(f) => parse_amount(f.trim()),
        None => None,
    };
    Transaction::from_parts(kind, client, tx, amount)
}

#[test]
fn test_transaction_deserialization() {
    let csv = r#"
type,client,tx,amount
deposit,1,1,1.0
deposit,2,2,2.0
deposit,1,3,2.0
withdrawal,1,4,1.5
withdrawal,2,5,3.0
dispute,1,6
resolve,1,7
foo
foo,1,2,4,34
chargeback,100,42"#;
    let mut reader = csv::ReaderBuilder::new()
        .flexible(true)
        .from_reader(csv.as_bytes());
    let records = reader
        .records()
        .map(|r| decode(&r.unwrap()).unwrap())
        .collect::<Vec<Transaction>>();

    assert_eq!(
        records,
        vec![
            Transaction::Deposit {
                client: 1,
                tx: 1,
                amount: 10000
            },
            Transaction::Deposit {
                client: 2,
                tx: 2,
                amount: 20000
            },
            Transaction::Deposit {
                client: 1,
                tx: 3,
                amount: 20000
            },
            Transaction::Withdrawal {
                client: 1,
                tx: 4,
                amount: 15000
            },
            Transaction::Withdrawal {
                client: 2,
                tx: 5,
                amount: 30000
            },
            Transaction::Dispute { client: 1, tx: 6 },
            Transaction::Resolve { client: 1, tx: 7 },
            Transaction::Unrecognized("foo".into()),
            Transaction::Unrecognized("foo".into()),
            Transaction::Chargeback {
                client: 100,
                tx: 42
            }
        ]
    );
}

#[test]
fn from_str_classifies_every_label() {
    assert!(matches!(
        TransactionType::from_str("deposit"),
        TransactionType::Deposit
    ));
    assert!(matches!(
        TransactionType::from_str("withdrawal"),
        TransactionType::Withdrawal
    ));
    assert!(matches!(
        TransactionType::from_str("dispute"),
        TransactionType::Dispute
    ));
    assert!(matches!(
        TransactionType::from_str("resolve"),
        TransactionType::Resolve
    ));
    assert!(matches!(
        TransactionType::from_str("chargeback"),
        TransactionType::Chargeback
    ));
    match TransactionType::from_str("Deposit") {
        TransactionType::Unrecognized(s) => assert_eq!(s, "Deposit"),
        _ => panic!("an unknown label must stay unrecognized"),
    }
}

#[test]
fn from_parts_requires_amount_for_funds_movements() {
    assert_eq!(
        Transaction::from_parts(TransactionType::Deposit, 1, 2, None),
        None
    );
    assert_eq!(
        Transaction::from_parts(TransactionType::Withdrawal, 1, 2, None),
        None
    );
    assert_eq!(
        Transaction::from_parts(TransactionType::Dispute, 1, 2, Some(7)),
        Some(Transaction::Dispute { client: 1, tx: 2 })
    );
    assert_eq!(
        Transaction::from_parts(TransactionType::Deposit, 1, 2, Some(7)),
        Some(Transaction::Deposit {
            client: 1,
            tx: 2,
            amount: 7
        })
    );
}
