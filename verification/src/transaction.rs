//! The typed form of one transaction from the input stream, and the
//! classification of the raw transaction-type label.

use vstd::prelude::*;

verus! {

use vstd::string::StrSliceExecFns;

broadcast use vstd::string::group_string_axioms;

/// The id of a client account.
pub type ClientId = u16;

/// The id of a transaction; unique across the whole input stream.
pub type TxId = u32;

/// The kind of a transaction row, as named by its raw label.
#[derive(Debug, Clone)]
pub enum TransactionType {
    Deposit,
    Withdrawal,
    Dispute,
    Resolve,
    Chargeback,
    Unrecognized(String),
}

/// One transaction. An amount is carried only by deposits and withdrawals,
/// so a dispute with an amount, or a deposit without one, cannot be stated.
/// Amounts are in ten-thousandths of a currency unit.
#[derive(Debug, Clone, PartialEq)]
pub enum Transaction {
    Deposit { client: ClientId, tx: TxId, amount: i64 },
    Withdrawal { client: ClientId, tx: TxId, amount: i64 },
    Dispute { client: ClientId, tx: TxId },
    Resolve { client: ClientId, tx: TxId },
    Chargeback { client: ClientId, tx: TxId },
    Unrecognized(String),
}

/// The mathematical form of a transaction: amounts as unbounded integers,
/// and the raw label of an unrecognized row dropped, as no transition reads
/// it.
pub enum TransactionModel {
    Deposit { client: ClientId, tx: TxId, amount: int },
    Withdrawal { client: ClientId, tx: TxId, amount: int },
    Dispute { client: ClientId, tx: TxId },
    Resolve { client: ClientId, tx: TxId },
    Chargeback { client: ClientId, tx: TxId },
    Unrecognized,
}

impl View for Transaction {
    type V = TransactionModel;

    open spec fn view(&self) -> TransactionModel {
        match self {
            Transaction::Deposit { client, tx, amount } => TransactionModel::Deposit {
                client: *client,
                tx: *tx,
                amount: *amount as int,
            },
            Transaction::Withdrawal { client, tx, amount } => TransactionModel::Withdrawal {
                client: *client,
                tx: *tx,
                amount: *amount as int,
            },
            Transaction::Dispute { client, tx } => TransactionModel::Dispute {
                client: *client,
                tx: *tx,
            },
            Transaction::Resolve { client, tx } => TransactionModel::Resolve {
                client: *client,
                tx: *tx,
            },
            Transaction::Chargeback { client, tx } => TransactionModel::Chargeback {
                client: *client,
                tx: *tx,
            },
            Transaction::Unrecognized(_) => TransactionModel::Unrecognized,
        }
    }
}

/// Whether two strings hold the same characters.
fn str_eq(a: &str, b: &str) -> (r: bool)
    ensures
        r == (a@ == b@),
{
    let alen = a.unicode_len();
    let blen = b.unicode_len();
    if alen != blen {
        return false;
    }
    let mut i: usize = 0;
    while i < alen
        invariant
            i <= alen,
            alen == a@.len(),
            alen == b@.len(),
            forall|j: int| 0 <= j < i ==> a@[j] == b@[j],
        decreases alen - i,
    {
        if s_char(a, i) != s_char(b, i) {
            return false;
        }
        i = i + 1;
    }
    proof {
        assert(a@ =~= b@);
    }
    true
}

/// The character of `s` at `i`.
fn s_char(s: &str, i: usize) -> (c: char)
    requires
        i < s@.len(),
    ensures
        c == s@[i as int],
{
    s.get_char(i)
}

impl TransactionType {
    /// Classifies a raw transaction-type label. Every known label maps to
    /// its kind; any other label is kept as unrecognized text, so that a row
    /// with an unknown type passes through without aborting the batch.
    pub fn from_str(raw: &str) -> (t: TransactionType)
        ensures
            raw@ == "deposit"@ ==> t == TransactionType::Deposit,
            raw@ == "withdrawal"@ ==> t == TransactionType::Withdrawal,
            raw@ == "dispute"@ ==> t == TransactionType::Dispute,
            raw@ == "resolve"@ ==> t == TransactionType::Resolve,
            raw@ == "chargeback"@ ==> t == TransactionType::Chargeback,
            (raw@ != "deposit"@ && raw@ != "withdrawal"@ && raw@ != "dispute"@ && raw@
                != "resolve"@ && raw@ != "chargeback"@) ==> (t matches TransactionType::Unrecognized(
                u,
            ) && u@ == raw@),
    {
        proof {
            reveal_strlit("deposit");
            reveal_strlit("withdrawal");
            reveal_strlit("dispute");
            reveal_strlit("resolve");
            reveal_strlit("chargeback");
            assert("deposit"@[1] == 'e' && "dispute"@[1] == 'i' && "resolve"@[0] == 'r'
                && "deposit"@[0] == 'd' && "dispute"@[0] == 'd');
            assert("deposit"@ != "dispute"@ && "resolve"@ != "deposit"@ && "resolve"@
                != "dispute"@);
            assert("chargeback"@[0] == 'c' && "withdrawal"@[0] == 'w');
            assert("chargeback"@ != "withdrawal"@);
        }
        if str_eq(raw, "deposit") {
            TransactionType::Deposit
        } else if str_eq(raw, "withdrawal") {
            TransactionType::Withdrawal
        } else if str_eq(raw, "dispute") {
            TransactionType::Dispute
        } else if str_eq(raw, "resolve") {
            TransactionType::Resolve
        } else if str_eq(raw, "chargeback") {
            TransactionType::Chargeback
        } else {
            TransactionType::Unrecognized(raw.to_owned())
        }
    }
}

impl Transaction {
    /// Assembles a transaction from its decoded fields: the classified
    /// label, the two ids, and the amount field if the row had one. A
    /// deposit or withdrawal without an amount is malformed and yields
    /// `None`; the kinds that carry no amount ignore the field.
    pub fn from_parts(kind: TransactionType, client: ClientId, tx: TxId, amount: Option<i64>) -> (t:
        Option<Transaction>)
        ensures
            match kind {
                TransactionType::Deposit => match amount {
                    Some(a) => t == Some(Transaction::Deposit { client, tx, amount: a }),
                    None => t is None,
                },
                TransactionType::Withdrawal => match amount {
                    Some(a) => t == Some(Transaction::Withdrawal { client, tx, amount: a }),
                    None => t is None,
                },
                TransactionType::Dispute => t == Some(Transaction::Dispute { client, tx }),
                TransactionType::Resolve => t == Some(Transaction::Resolve { client, tx }),
                TransactionType::Chargeback => t == Some(Transaction::Chargeback { client, tx }),
                TransactionType::Unrecognized(s) => t == Some(Transaction::Unrecognized(s)),
            },
    {
        match kind {
            TransactionType::Deposit => match amount {
                Some(a) => Some(Transaction::Deposit { client, tx, amount: a }),
                None => None,
            },
            TransactionType::Withdrawal => match amount {
                Some(a) => Some(Transaction::Withdrawal { client, tx, amount: a }),
                None => None,
            },
            TransactionType::Dispute => Some(Transaction::Dispute { client, tx }),
            TransactionType::Resolve => Some(Transaction::Resolve { client, tx }),
            TransactionType::Chargeback => Some(Transaction::Chargeback { client, tx }),
            TransactionType::Unrecognized(s) => Some(Transaction::Unrecognized(s)),
        }
    }
}

} // verus!
