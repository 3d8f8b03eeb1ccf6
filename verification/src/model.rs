//! The mathematical model of the ledger: unbounded-integer account state,
//! the record of each processed deposit or withdrawal, and the transition
//! that one transaction makes.
//!
//! Every malformed reference (an unknown transaction id, a client id that
//! does not match the record's owner, a chargeback without an active
//! dispute) leaves the ledger unchanged: bad input is a no-op, never an
//! error.

use vstd::prelude::*;

verus! {

use crate::transaction::{ClientId, TransactionModel, TxId};

/// The state of one client account: funds held by open disputes, total
/// funds, and the permanent lock set by a chargeback. Available funds are
/// derived as `total - held`, never stored.
#[verifier::ext_equal]
pub struct AccountModel {
    pub held: int,
    pub total: int,
    pub locked: bool,
}

/// The retained facts of one processed deposit or withdrawal, kept so that
/// a later dispute, resolve or chargeback can be checked against them.
#[verifier::ext_equal]
pub struct RecordModel {
    pub deposit: bool,
    pub client: ClientId,
    pub amount: int,
    pub disputed: bool,
}

/// The whole ledger: accounts by client id and processed transactions by
/// transaction id.
#[verifier::ext_equal]
pub struct LedgerModel {
    pub accounts: Map<ClientId, AccountModel>,
    pub records: Map<TxId, RecordModel>,
}

/// The ledger before any transaction.
pub open spec fn empty_ledger() -> LedgerModel {
    LedgerModel { accounts: Map::empty(), records: Map::empty() }
}

/// The account of `c`, which springs into being with zero funds on first
/// reference.
pub open spec fn account_of(l: LedgerModel, c: ClientId) -> AccountModel {
    if l.accounts.contains_key(c) {
        l.accounts[c]
    } else {
        AccountModel { held: 0, total: 0, locked: false }
    }
}

/// A deposit's effect on the accounts alone: unless the account is locked,
/// its total grows by the amount.
pub open spec fn deposit_funds(l: LedgerModel, client: ClientId, amount: int) -> LedgerModel {
    let a = account_of(l, client);
    if a.locked {
        l
    } else {
        LedgerModel {
            accounts: l.accounts.insert(
                client,
                AccountModel { held: a.held, total: a.total + amount, locked: a.locked },
            ),
            records: l.records,
        }
    }
}

/// A withdrawal's effect on the accounts alone: unless the account is
/// locked, its total shrinks by the amount. Overdraft is deliberately not
/// checked; the total may go negative.
pub open spec fn withdraw_funds(l: LedgerModel, client: ClientId, amount: int) -> LedgerModel {
    let a = account_of(l, client);
    if a.locked {
        l
    } else {
        LedgerModel {
            accounts: l.accounts.insert(
                client,
                AccountModel { held: a.held, total: a.total - amount, locked: a.locked },
            ),
            records: l.records,
        }
    }
}

/// A deposit: funds move as in [`deposit_funds`], and unless the account is
/// locked a deposit record is stored under `tx`, overwriting any earlier
/// record with the same id (duplicate ids are last-write-wins, not an
/// error).
pub open spec fn apply_deposit(l: LedgerModel, client: ClientId, tx: TxId, amount: int) -> LedgerModel {
    let moved = deposit_funds(l, client, amount);
    if account_of(l, client).locked {
        l
    } else {
        LedgerModel {
            accounts: moved.accounts,
            records: l.records.insert(
                tx,
                RecordModel { deposit: true, client, amount, disputed: false },
            ),
        }
    }
}

/// A withdrawal: funds move as in [`withdraw_funds`], and unless the
/// account is locked a withdrawal record is stored under `tx`.
pub open spec fn apply_withdrawal(l: LedgerModel, client: ClientId, tx: TxId, amount: int) -> LedgerModel {
    let moved = withdraw_funds(l, client, amount);
    if account_of(l, client).locked {
        l
    } else {
        LedgerModel {
            accounts: moved.accounts,
            records: l.records.insert(
                tx,
                RecordModel { deposit: false, client, amount, disputed: false },
            ),
        }
    }
}

/// A dispute: if `tx` names a known record whose owner is `client`, the
/// record is marked disputed, and for a deposit the amount moves into the
/// owner's held funds. A disputed withdrawal holds nothing, since that
/// money already left the account; it is only refunded at chargeback.
/// Re-disputing an already disputed record raises held again: the flag is
/// deliberately not guarded.
pub open spec fn apply_dispute(l: LedgerModel, client: ClientId, tx: TxId) -> LedgerModel {
    if !l.records.contains_key(tx) {
        l
    } else {
        let r = l.records[tx];
        if r.client != client {
            l
        } else {
            let recs = l.records.insert(
                tx,
                RecordModel { deposit: r.deposit, client: r.client, amount: r.amount, disputed: true },
            );
            if r.deposit {
                let a = account_of(l, client);
                LedgerModel {
                    accounts: l.accounts.insert(
                        client,
                        AccountModel { held: a.held + r.amount, total: a.total, locked: a.locked },
                    ),
                    records: recs,
                }
            } else {
                LedgerModel { accounts: l.accounts, records: recs }
            }
        }
    }
}

/// A resolve: the mirror of a dispute. The record is marked undisputed, and
/// for a deposit the amount leaves held funds. Resolving a record that was
/// never disputed lowers held anyway, mirroring the dispute path's lack of
/// a guard.
pub open spec fn apply_resolve(l: LedgerModel, client: ClientId, tx: TxId) -> LedgerModel {
    if !l.records.contains_key(tx) {
        l
    } else {
        let r = l.records[tx];
        if r.client != client {
            l
        } else {
            let recs = l.records.insert(
                tx,
                RecordModel { deposit: r.deposit, client: r.client, amount: r.amount, disputed: false },
            );
            if r.deposit {
                let a = account_of(l, client);
                LedgerModel {
                    accounts: l.accounts.insert(
                        client,
                        AccountModel { held: a.held - r.amount, total: a.total, locked: a.locked },
                    ),
                    records: recs,
                }
            } else {
                LedgerModel { accounts: l.accounts, records: recs }
            }
        }
    }
}

/// A chargeback: valid only against a known, owner-matching record with an
/// active dispute; otherwise a no-op. The account is locked for good. For a
/// deposit the disputed amount leaves both held and total; for a withdrawal
/// the amount returns to total alone, since it was never held.
pub open spec fn apply_chargeback(l: LedgerModel, client: ClientId, tx: TxId) -> LedgerModel {
    if !l.records.contains_key(tx) {
        l
    } else {
        let r = l.records[tx];
        if r.client != client || !r.disputed {
            l
        } else {
            let a = account_of(l, client);
            let charged = if r.deposit {
                AccountModel { held: a.held - r.amount, total: a.total - r.amount, locked: true }
            } else {
                AccountModel { held: a.held, total: a.total + r.amount, locked: true }
            };
            LedgerModel { accounts: l.accounts.insert(client, charged), records: l.records }
        }
    }
}

/// The transition one transaction makes; an unrecognized row makes none.
pub open spec fn apply_tx(l: LedgerModel, t: TransactionModel) -> LedgerModel {
    match t {
        TransactionModel::Deposit { client, tx, amount } => apply_deposit(l, client, tx, amount),
        TransactionModel::Withdrawal { client, tx, amount } => apply_withdrawal(l, client, tx, amount),
        TransactionModel::Dispute { client, tx } => apply_dispute(l, client, tx),
        TransactionModel::Resolve { client, tx } => apply_resolve(l, client, tx),
        TransactionModel::Chargeback { client, tx } => apply_chargeback(l, client, tx),
        TransactionModel::Unrecognized => l,
    }
}

/// The ledger after a whole stream of transactions, applied strictly in
/// input order.
pub open spec fn apply_all(l: LedgerModel, ts: Seq<TransactionModel>) -> LedgerModel
    decreases ts.len(),
{
    if ts.len() == 0 {
        l
    } else {
        apply_all(apply_tx(l, ts[0]), ts.drop_first())
    }
}

/// The members of `dom` below `n`, in ascending order.
pub open spec fn ids_below(dom: Set<ClientId>, n: int) -> Seq<ClientId>
    decreases n,
{
    if n <= 0 {
        Seq::empty()
    } else if dom.contains((n - 1) as u16) {
        ids_below(dom, n - 1) + seq![(n - 1) as u16]
    } else {
        ids_below(dom, n - 1)
    }
}

/// All client ids of `dom`, in ascending order.
pub open spec fn sorted_ids(dom: Set<ClientId>) -> Seq<ClientId> {
    ids_below(dom, 0x10000)
}

/// `ids_below` lists exactly the members of `dom` below `n`, each once, in
/// strictly ascending order.
pub proof fn lemma_ids_below_props(dom: Set<ClientId>, n: int)
    requires
        0 <= n <= 0x10000,
    ensures
        forall|i: int|
            0 <= i < ids_below(dom, n).len() ==> ((#[trigger] ids_below(dom, n)[i]) as int) < n
                && dom.contains(ids_below(dom, n)[i]),
        forall|i: int, j: int|
            0 <= i < j < ids_below(dom, n).len() ==> ids_below(dom, n)[i] < ids_below(dom, n)[j],
        forall|c: ClientId| (c as int) < n && dom.contains(c) ==> ids_below(dom, n).contains(c),
    decreases n,
{
    if n > 0 {
        lemma_ids_below_props(dom, n - 1);
        let prev = ids_below(dom, n - 1);
        let cur = ids_below(dom, n);
        if dom.contains((n - 1) as u16) {
            assert forall|i: int| 0 <= i < cur.len() implies ((#[trigger] cur[i]) as int) < n
                && dom.contains(cur[i]) by {
                if i < prev.len() {
                    assert(cur[i] == prev[i]);
                } else {
                    assert(cur[i] == (n - 1) as u16);
                }
            }
            assert forall|i: int, j: int| 0 <= i < j < cur.len() implies cur[i] < cur[j] by {
                if j < prev.len() {
                    assert(cur[i] == prev[i] && cur[j] == prev[j]);
                } else {
                    assert(cur[i] == prev[i] && cur[j] == (n - 1) as u16);
                    assert((prev[i] as int) < n - 1);
                }
            }
        }
        assert forall|c: ClientId| (c as int) < n && dom.contains(c) implies cur.contains(c) by {
            if (c as int) < n - 1 {
                assert(prev.contains(c));
                let i = choose|i: int| 0 <= i < prev.len() && prev[i] == c;
                assert(cur[i] == c);
            } else {
                assert(c == (n - 1) as u16);
                assert(cur[cur.len() - 1] == c);
            }
        }
    }
}

/// Whether the transaction names `c` as its client.
pub open spec fn references(t: TransactionModel, c: ClientId) -> bool {
    match t {
        TransactionModel::Deposit { client, .. } => client == c,
        TransactionModel::Withdrawal { client, .. } => client == c,
        TransactionModel::Dispute { client, .. } => client == c,
        TransactionModel::Resolve { client, .. } => client == c,
        TransactionModel::Chargeback { client, .. } => client == c,
        TransactionModel::Unrecognized => false,
    }
}

} // verus!
