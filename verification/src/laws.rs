//! Laws of the ledger, proved once over the model for every ledger, every
//! client and every transaction stream.

use vstd::prelude::*;

verus! {

use crate::model::{
    account_of, apply_all, apply_chargeback, apply_dispute, apply_resolve, apply_tx, ids_below,
    lemma_ids_below_props, references, sorted_ids, AccountModel, LedgerModel,
};
use crate::digits::render_amount;
use crate::state::row_fields;
use crate::transaction::{ClientId, TransactionModel, TxId};

/// A dispute followed by a resolve of the same transaction restores every
/// account's held funds to their pre-dispute value and leaves every total
/// and every lock unchanged: for a deposit the hold is taken and then given
/// back, and no other case moves funds at all.
pub proof fn lemma_dispute_resolve_restores(l: LedgerModel, client: ClientId, tx: TxId, c: ClientId)
    ensures
        ({
            let l2 = apply_resolve(apply_dispute(l, client, tx), client, tx);
            &&& account_of(l2, c).held == account_of(l, c).held
            &&& account_of(l2, c).total == account_of(l, c).total
            &&& account_of(l2, c).locked == account_of(l, c).locked
        }),
{
}

/// A chargeback of a transaction that is not under an active dispute — in
/// particular one that was never disputed — changes nothing: no account
/// moves and no lock is set.
pub proof fn lemma_chargeback_without_dispute(l: LedgerModel, client: ClientId, tx: TxId)
    requires
        l.records.contains_key(tx) ==> !l.records[tx].disputed,
    ensures
        apply_chargeback(l, client, tx) == l,
{
}

/// A chargeback after a resolve of the same transaction is a no-op: the
/// resolve closed the dispute, so the chargeback finds none.
pub proof fn lemma_chargeback_after_resolve(l: LedgerModel, client: ClientId, tx: TxId)
    ensures
        apply_chargeback(apply_resolve(l, client, tx), client, tx) == apply_resolve(l, client, tx),
{
}

/// A dispute, resolve or chargeback whose client id is not the referenced
/// record's owner is a malformed reference: a no-op on the whole ledger.
pub proof fn lemma_client_mismatch_no_op(l: LedgerModel, client: ClientId, tx: TxId)
    requires
        l.records.contains_key(tx),
        l.records[tx].client != client,
    ensures
        apply_dispute(l, client, tx) == l,
        apply_resolve(l, client, tx) == l,
        apply_chargeback(l, client, tx) == l,
{
}

/// A lock, once set, survives every transaction: nothing ever clears it.
pub proof fn lemma_lock_permanent_step(l: LedgerModel, c: ClientId, t: TransactionModel)
    requires
        account_of(l, c).locked,
    ensures
        account_of(apply_tx(l, t), c).locked,
{
}

/// Locking is permanent: once an account is locked, any further stream of
/// deposits and withdrawals leaves it locked and moves none of its funds.
pub proof fn lemma_locked_blocks_funds(l: LedgerModel, c: ClientId, ts: Seq<TransactionModel>)
    requires
        account_of(l, c).locked,
        forall|i: int|
            0 <= i < ts.len() ==> ((#[trigger] ts[i]) is Deposit || ts[i] is Withdrawal),
    ensures
        account_of(apply_all(l, ts), c).locked,
        account_of(apply_all(l, ts), c).total == account_of(l, c).total,
        account_of(apply_all(l, ts), c).held == account_of(l, c).held,
    decreases ts.len(),
{
    if ts.len() > 0 {
        let l1 = apply_tx(l, ts[0]);
        lemma_lock_permanent_step(l, c, ts[0]);
        assert(account_of(l1, c).total == account_of(l, c).total && account_of(l1, c).held
            == account_of(l, c).held);
        assert(forall|i: int|
            0 <= i < ts.drop_first().len() ==> ((#[trigger] ts.drop_first()[i]) is Deposit
                || ts.drop_first()[i] is Withdrawal));
        lemma_locked_blocks_funds(l1, c, ts.drop_first());
    }
}

/// A transaction that does not reference a client never creates that
/// client's account.
pub proof fn lemma_unreferenced_step(l: LedgerModel, t: TransactionModel, c: ClientId)
    requires
        !references(t, c),
        !l.accounts.contains_key(c),
    ensures
        !apply_tx(l, t).accounts.contains_key(c),
{
}

/// A client that no transaction of the stream references has no account
/// after the stream is applied.
pub proof fn lemma_unreferenced_client_absent(l: LedgerModel, ts: Seq<TransactionModel>, c: ClientId)
    requires
        !l.accounts.contains_key(c),
        forall|i: int| 0 <= i < ts.len() ==> !references(#[trigger] ts[i], c),
    ensures
        !apply_all(l, ts).accounts.contains_key(c),
    decreases ts.len(),
{
    if ts.len() > 0 {
        lemma_unreferenced_step(l, ts[0], c);
        assert(forall|i: int|
            0 <= i < ts.drop_first().len() ==> !references(#[trigger] ts.drop_first()[i], c));
        lemma_unreferenced_client_absent(apply_tx(l, ts[0]), ts.drop_first(), c);
    }
}

/// For a client that no transaction references, no row appears in the
/// summary: the summary's rows are drawn from the sorted account ids, and
/// the client is not among them.
pub proof fn lemma_unreferenced_client_has_no_row(
    l: LedgerModel,
    ts: Seq<TransactionModel>,
    c: ClientId,
)
    requires
        !l.accounts.contains_key(c),
        forall|i: int| 0 <= i < ts.len() ==> !references(#[trigger] ts[i], c),
    ensures
        !sorted_ids(apply_all(l, ts).accounts.dom()).contains(c),
{
    lemma_unreferenced_client_absent(l, ts, c);
    let dom = apply_all(l, ts).accounts.dom();
    lemma_ids_below_props(dom, 0x10000);
    if sorted_ids(dom).contains(c) {
        let i = choose|i: int| 0 <= i < sorted_ids(dom).len() && sorted_ids(dom)[i] == c;
        assert(dom.contains(ids_below(dom, 0x10000)[i]));
    }
}

/// In every rendered row, the available column is the text of exactly
/// `total - held`: available funds are derived, never stored.
pub proof fn lemma_row_available_exact(client: ClientId, a: AccountModel)
    ensures
        row_fields(client, a).len() == 5,
        row_fields(client, a)[1] == render_amount(a.total - a.held),
        row_fields(client, a)[2] == render_amount(a.held),
        row_fields(client, a)[3] == render_amount(a.total),
{
}

} // verus!
