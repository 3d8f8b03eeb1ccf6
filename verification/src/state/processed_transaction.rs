//! The retained form of a processed deposit or withdrawal. Disputes,
//! resolves and chargebacks are not representable here: they never create
//! history, they only reference it, and the two-variant kind makes an
//! invalid "disputed chargeback" state impossible to even write down.

use vstd::prelude::*;

verus! {

use crate::model::RecordModel;
use crate::transaction::ClientId;

/// The kind of a processed transaction: only funds movements are retained.
#[derive(Debug, Clone, Copy)]
pub enum ProcessedTransactionType {
    Deposit,
    Withdrawal,
}

/// One processed transaction: its kind, the client that issued it, the
/// original amount (immutable after creation, in ten-thousandths), and the
/// mutable disputed flag — the only field that ever moves backward.
#[derive(Debug, Clone, Copy)]
pub struct ProcessedTransaction {
    kind: ProcessedTransactionType,
    client: ClientId,
    amount: i64,
    disputed: bool,
}

impl View for ProcessedTransaction {
    type V = RecordModel;

    closed spec fn view(&self) -> RecordModel {
        RecordModel {
            deposit: self.kind is Deposit,
            client: self.client,
            amount: self.amount as int,
            disputed: self.disputed,
        }
    }
}

impl ProcessedTransaction {
    /// A fresh, undisputed deposit record.
    pub fn new_deposit(client: ClientId, amount: i64) -> (r: ProcessedTransaction)
        ensures
            r@ == (RecordModel { deposit: true, client, amount: amount as int, disputed: false }),
    {
        ProcessedTransaction {
            kind: ProcessedTransactionType::Deposit,
            amount,
            client,
            disputed: false,
        }
    }

    /// A fresh, undisputed withdrawal record.
    pub fn new_withdrawal(client: ClientId, amount: i64) -> (r: ProcessedTransaction)
        ensures
            r@ == (RecordModel { deposit: false, client, amount: amount as int, disputed: false }),
    {
        ProcessedTransaction {
            kind: ProcessedTransactionType::Withdrawal,
            amount,
            client,
            disputed: false,
        }
    }

    /// Whether the record is a deposit.
    pub fn is_deposit(&self) -> (r: bool)
        ensures
            r == self@.deposit,
    {
        match self.kind {
            ProcessedTransactionType::Deposit => true,
            ProcessedTransactionType::Withdrawal => false,
        }
    }

    /// Sets the disputed flag; every other field keeps its value.
    pub fn set_disputed(&mut self, val: bool)
        ensures
            final(self)@ == (RecordModel {
                deposit: old(self)@.deposit,
                client: old(self)@.client,
                amount: old(self)@.amount,
                disputed: val,
            }),
    {
        self.disputed = val;
    }

    /// The client that issued the original transaction.
    pub fn client_id(&self) -> (r: ClientId)
        ensures
            r == self@.client,
    {
        self.client
    }

    /// The original amount, in ten-thousandths.
    pub fn amount(&self) -> (r: i64)
        ensures
            r as int == self@.amount,
    {
        self.amount
    }

    /// Whether the record is under an active dispute.
    pub fn is_disputed(&self) -> (r: bool)
        ensures
            r == self@.disputed,
    {
        self.disputed
    }
}

} // verus!
