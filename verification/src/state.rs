//! The ledger state machine: all account and transaction-history state,
//! one infallible entry point that applies a transaction, and the
//! finalization that renders the account summary.
//!
//! Account balances are `i128` ten-thousandths. A counter of applied
//! funds-moving operations bounds every balance — each operation moves each
//! field by at most one `i64` magnitude — so the arithmetic is proved
//! exact, with no overflow, for any stream the counter admits.

use vstd::prelude::*;

pub mod processed_transaction;

verus! {

use std::collections::HashMap;
use crate::csv_out::{
    writer_text, csv_write_record, csv_writer_into_string, csv_writer_new, encode_record, lemma_bool_text_plain,
    lemma_dec_digits_plain, lemma_render_amount_plain, plain_field, plain_record,
};
use crate::digits::{
    amount_to_string, bool_text, bool_to_string, client_to_string, dec_digits, render_amount,
};
use crate::fnv_map::{tx_map_get, tx_map_insert, TxMap};
use crate::model::{
    account_of, apply_chargeback, apply_deposit, apply_dispute, apply_resolve, apply_tx,
    apply_withdrawal, deposit_funds, empty_ledger, ids_below, sorted_ids, withdraw_funds,
    AccountModel, LedgerModel, RecordModel,
};
use crate::state::processed_transaction::ProcessedTransaction;
use crate::transaction::{ClientId, Transaction, TxId};

broadcast use vstd::std_specs::hash::group_hash_axioms;

/// How many funds-moving operations a ledger accepts; comfortably beyond
/// any input stream, while keeping every balance provably inside `i128`.
pub const APPLIED_LIMIT: u64 = 0x7fff_ffff_ffff_ffff;

/// The largest change one operation can make to one balance field: the
/// magnitude of the smallest `i64`.
const AMOUNT_STEP: i128 = 0x8000_0000_0000_0000;

/// The state of a specific client's account.
#[derive(Debug, Clone, Copy)]
struct ClientAccount {
    /// funds currently frozen by an open dispute, in ten-thousandths
    held: i128,
    /// total funds in this account, disputed or not, in ten-thousandths
    total: i128,
    /// whether the account is frozen for future deposits and withdrawals
    locked: bool,
}

impl View for ClientAccount {
    type V = AccountModel;

    closed spec fn view(&self) -> AccountModel {
        AccountModel { held: self.held as int, total: self.total as int, locked: self.locked }
    }
}

/// Both balances of `a` lie within `k` operation steps of zero.
spec fn acct_bounded(a: ClientAccount, k: int) -> bool {
    &&& -k * (AMOUNT_STEP as int) <= a.held as int <= k * (AMOUNT_STEP as int)
    &&& -k * (AMOUNT_STEP as int) <= a.total as int <= k * (AMOUNT_STEP as int)
}

proof fn lemma_acct_bounded_mono(a: ClientAccount, k1: int, k2: int)
    requires
        acct_bounded(a, k1),
        0 <= k1 <= k2,
    ensures
        acct_bounded(a, k2),
{
    assert(k1 * (AMOUNT_STEP as int) <= k2 * (AMOUNT_STEP as int)) by (nonlinear_arith)
        requires
            0 <= k1 <= k2,
            AMOUNT_STEP > 0,
    ;
}

/// Within the operation limit, a balance `k - 1` steps from zero can move
/// one more step without leaving `i128`.
proof fn lemma_step_fits(k: int, v: int, change: int)
    requires
        1 <= k <= APPLIED_LIMIT,
        -(k - 1) * (AMOUNT_STEP as int) <= v <= (k - 1) * (AMOUNT_STEP as int),
        -(AMOUNT_STEP as int) <= change <= AMOUNT_STEP as int,
    ensures
        i128::MIN <= v + change <= i128::MAX,
        -k * (AMOUNT_STEP as int) <= v + change <= k * (AMOUNT_STEP as int),
{
    assert((k * (AMOUNT_STEP as int) <= (APPLIED_LIMIT as int) * (AMOUNT_STEP as int))
        && ((k - 1) * (AMOUNT_STEP as int) == k * (AMOUNT_STEP as int) - AMOUNT_STEP))
        by (nonlinear_arith)
        requires
            1 <= k <= APPLIED_LIMIT,
            AMOUNT_STEP > 0,
    ;
    assert((APPLIED_LIMIT as int) * (AMOUNT_STEP as int) < i128::MAX) by (nonlinear_arith)
        requires
            APPLIED_LIMIT == 0x7fff_ffff_ffff_ffff,
            AMOUNT_STEP == 0x8000_0000_0000_0000,
    ;
}

/// The five header fields of the summary.
pub open spec fn header_fields() -> Seq<Seq<char>> {
    seq!["client"@, "available"@, "held"@, "total"@, "locked"@]
}

/// The five fields of one summary row: the client id, then available funds
/// — exactly `total - held`, derived and never stored — then held, total,
/// and the lock flag.
pub open spec fn row_fields(client: ClientId, a: AccountModel) -> Seq<Seq<char>> {
    seq![
        dec_digits(client as nat),
        render_amount(a.total - a.held),
        render_amount(a.held),
        render_amount(a.total),
        bool_text(a.locked),
    ]
}

/// The rows for the clients `ids`, in order.
pub open spec fn rows_text(l: LedgerModel, ids: Seq<ClientId>) -> Seq<char>
    decreases ids.len(),
{
    if ids.len() == 0 {
        Seq::empty()
    } else {
        encode_record(row_fields(ids[0], account_of(l, ids[0]))) + rows_text(l, ids.drop_first())
    }
}

/// The whole summary: the header, then one row per client with a known
/// transaction, in ascending client id order.
pub open spec fn summary_csv(l: LedgerModel) -> Seq<char> {
    encode_record(header_fields()) + rows_text(l, sorted_ids(l.accounts.dom()))
}

/// Appending a client to the id list appends that client's row.
proof fn lemma_rows_text_snoc(l: LedgerModel, ids: Seq<ClientId>, c: ClientId)
    ensures
        rows_text(l, ids + seq![c]) =~= rows_text(l, ids) + encode_record(
            row_fields(c, account_of(l, c)),
        ),
    decreases ids.len(),
{
    let row = encode_record(row_fields(c, account_of(l, c)));
    if ids.len() == 0 {
        assert(ids + seq![c] =~= seq![c]);
        assert((seq![c]).drop_first() =~= Seq::<ClientId>::empty());
        assert(rows_text(l, Seq::<ClientId>::empty()) =~= Seq::<char>::empty());
        assert((seq![c])[0] == c);
        assert(rows_text(l, seq![c]) == encode_record(row_fields(c, account_of(l, c))) + rows_text(
            l,
            (seq![c]).drop_first(),
        ));
        assert(rows_text(l, seq![c]) =~= row);
    } else {
        assert((ids + seq![c]).drop_first() =~= ids.drop_first() + seq![c]);
        assert((ids + seq![c])[0] == ids[0]);
        lemma_rows_text_snoc(l, ids.drop_first(), c);
    }
}

/// The state of all accounts in the system, together with the history of
/// processed deposits and withdrawals that disputes are checked against.
#[derive(Debug)]
pub struct State {
    client_accounts: HashMap<ClientId, ClientAccount>,
    // Disputes look a transaction up by id, so the history wants fast
    // lookups keyed by transaction id; the ids are plain integers, so the
    // map hashes them with FNV, which is cheap on small keys.
    processed_txns: TxMap,
    // How many funds-moving operations have been applied; bounds balances.
    applied: u64,
}

impl View for State {
    type V = LedgerModel;

    closed spec fn view(&self) -> LedgerModel {
        LedgerModel {
            accounts: self.client_accounts@.map_values(|a: ClientAccount| a@),
            records: self.processed_txns@.map_values(|r: ProcessedTransaction| r@),
        }
    }
}

impl State {
    /// Every balance of every account stays within what the operation
    /// counter allows.
    spec fn balances_bounded(&self) -> bool {
        forall|c: ClientId|
            self.client_accounts@.contains_key(c) ==> acct_bounded(
                #[trigger] self.client_accounts@[c],
                self.applied as int,
            )
    }

    /// The internal invariant: the operation counter within its limit and
    /// all balances bounded by it.
    pub closed spec fn wf(&self) -> bool {
        &&& self.applied <= APPLIED_LIMIT
        &&& self.balances_bounded()
    }

    /// Whether one more transaction may be applied.
    pub closed spec fn spec_can_apply(&self) -> bool {
        self.applied < APPLIED_LIMIT
    }

    /// Whether one more transaction may be applied.
    pub fn can_apply(&self) -> (r: bool)
        ensures
            r == self.spec_can_apply(),
    {
        self.applied < APPLIED_LIMIT
    }

    /// The account of `client` as currently recorded, or a fresh zero
    /// account when none is.
    fn get_account(&self, client: ClientId) -> (a: ClientAccount)
        ensures
            a@ == account_of(self@, client),
            self.client_accounts@.contains_key(client) ==> a == self.client_accounts@[client],
            !self.client_accounts@.contains_key(client) ==> a == (ClientAccount {
                held: 0,
                total: 0,
                locked: false,
            }),
    {
        match self.client_accounts.get(&client) {
            Some(a) => *a,
            None => ClientAccount { held: 0, total: 0, locked: false },
        }
    }

    /// Stores `a` as the account of `client`.
    fn put_account(&mut self, client: ClientId, a: ClientAccount)
        ensures
            final(self).client_accounts@ == old(self).client_accounts@.insert(client, a),
            final(self).processed_txns == old(self).processed_txns,
            final(self).applied == old(self).applied,
            final(self)@.accounts =~= old(self)@.accounts.insert(client, a@),
            final(self)@.records == old(self)@.records,
    {
        self.client_accounts.insert(client, a);
    }

    /// After storing `a` for `client` and bumping the counter from a state
    /// whose balances the old counter bounded, all balances are bounded
    /// again, provided `a` itself is.
    proof fn lemma_balances_after_put(pre: &State, post: &State, client: ClientId, a: ClientAccount)
        requires
            pre.balances_bounded(),
            post.applied == pre.applied + 1,
            post.client_accounts@ == pre.client_accounts@.insert(client, a),
            acct_bounded(a, post.applied as int),
        ensures
            post.balances_bounded(),
    {
        assert forall|c: ClientId| post.client_accounts@.contains_key(c) implies acct_bounded(
            #[trigger] post.client_accounts@[c],
            post.applied as int,
        ) by {
            if c != client {
                assert(pre.client_accounts@.contains_key(c));
                lemma_acct_bounded_mono(
                    pre.client_accounts@[c],
                    pre.applied as int,
                    post.applied as int,
                );
            }
        }
    }

    /// Balances bounded at one counter value stay bounded at a larger one.
    proof fn lemma_bounds_grow(pre: &State, post: &State)
        requires
            pre.balances_bounded(),
            post.client_accounts@ == pre.client_accounts@,
            post.applied >= pre.applied,
        ensures
            post.balances_bounded(),
    {
        assert forall|c: ClientId| post.client_accounts@.contains_key(c) implies acct_bounded(
            #[trigger] post.client_accounts@[c],
            post.applied as int,
        ) by {
            assert(pre.client_accounts@.contains_key(c));
            lemma_acct_bounded_mono(
                pre.client_accounts@[c],
                pre.applied as int,
                post.applied as int,
            );
        }
    }

    /// The account currently recorded for `client` — or the fresh zero
    /// account — is bounded by `k` steps.
    proof fn lemma_account_bounded(s: &State, client: ClientId, a: ClientAccount, k: int)
        requires
            s.balances_bounded(),
            k == s.applied as int,
            s.client_accounts@.contains_key(client) ==> a == s.client_accounts@[client],
            !s.client_accounts@.contains_key(client) ==> a == (ClientAccount {
                held: 0,
                total: 0,
                locked: false,
            }),
        ensures
            acct_bounded(a, k),
    {
        if !s.client_accounts@.contains_key(client) {
            assert(k * (AMOUNT_STEP as int) >= 0) by (nonlinear_arith)
                requires
                    k >= 0,
                    AMOUNT_STEP > 0,
            ;
        }
    }

    /// Given a transaction, effect it upon the state. Malformed references
    /// are silently ignored, so this function is infallible: it reports
    /// nothing back to the caller.
    pub fn transact(&mut self, transaction: Transaction)
        requires
            old(self).wf(),
            old(self).spec_can_apply(),
        ensures
            final(self).wf(),
            final(self)@ == apply_tx(old(self)@, transaction@),
    {
        match transaction {
            Transaction::Deposit { client, tx, amount } => {
                let locked = self.get_account(client).locked;
                self.deposit(client, amount);
                if !locked {
                    self.insert_processed_deposit(client, amount, tx);
                }
                proof {
                    assert(self@ =~= apply_deposit(old(self)@, client, tx, amount as int));
                }
            },
            Transaction::Withdrawal { client, tx, amount } => {
                let locked = self.get_account(client).locked;
                self.withdraw(client, amount);
                if !locked {
                    self.insert_processed_withdrawal(client, amount, tx);
                }
                proof {
                    assert(self@ =~= apply_withdrawal(old(self)@, client, tx, amount as int));
                }
            },
            Transaction::Dispute { client, tx } => self.dispute(client, tx),
            Transaction::Resolve { client, tx } => self.resolve(client, tx),
            Transaction::Chargeback { client, tx } => self.chargeback(client, tx),
            Transaction::Unrecognized(_) => (),
        }
    }

    /// Takes `amount` out of the client's total, without any overdraft
    /// check; a no-op when the account is locked.
    pub fn withdraw(&mut self, client: ClientId, amount: i64)
        requires
            old(self).wf(),
            old(self).spec_can_apply(),
        ensures
            final(self).wf(),
            final(self)@ == withdraw_funds(old(self)@, client, amount as int),
    {
        let a = self.get_account(client);
        proof {
            Self::lemma_account_bounded(self, client, a, self.applied as int);
        }
        self.applied = self.applied + 1;
        proof {
            Self::lemma_bounds_grow(old(self), self);
        }
        if a.locked {
            proof {
                assert(self@ =~= withdraw_funds(old(self)@, client, amount as int));
            }
            return ;
        }
        proof {
            lemma_step_fits(self.applied as int, a.total as int, -(amount as int));
        }
        let a2 = ClientAccount { held: a.held, total: a.total - amount as i128, locked: a.locked };
        self.put_account(client, a2);
        proof {
            Self::lemma_balances_after_put(old(self), self, client, a2);
            assert(self@ =~= withdraw_funds(old(self)@, client, amount as int));
        }
    }

    /// Adds `amount` to the client's total; a no-op when the account is
    /// locked.
    pub fn deposit(&mut self, client: ClientId, amount: i64)
        requires
            old(self).wf(),
            old(self).spec_can_apply(),
        ensures
            final(self).wf(),
            final(self)@ == deposit_funds(old(self)@, client, amount as int),
    {
        let a = self.get_account(client);
        proof {
            Self::lemma_account_bounded(self, client, a, self.applied as int);
        }
        self.applied = self.applied + 1;
        proof {
            Self::lemma_bounds_grow(old(self), self);
        }
        if a.locked {
            proof {
                assert(self@ =~= deposit_funds(old(self)@, client, amount as int));
            }
            return ;
        }
        proof {
            lemma_step_fits(self.applied as int, a.total as int, amount as int);
        }
        let a2 = ClientAccount { held: a.held, total: a.total + amount as i128, locked: a.locked };
        self.put_account(client, a2);
        proof {
            Self::lemma_balances_after_put(old(self), self, client, a2);
            assert(self@ =~= deposit_funds(old(self)@, client, amount as int));
        }
    }

    /// Marks the referenced record disputed and, for a deposit, moves its
    /// amount into the owner's held funds. An unknown transaction id or a
    /// client id that is not the record's owner is a malformed reference: a
    /// no-op, never an error.
    pub fn dispute(&mut self, client_id: ClientId, tx: TxId)
        requires
            old(self).wf(),
            old(self).spec_can_apply(),
        ensures
            final(self).wf(),
            final(self)@ == apply_dispute(old(self)@, client_id, tx),
    {
        let rec: ProcessedTransaction = match tx_map_get(&self.processed_txns, tx) {
            Some(r) => *r,
            None => {
                proof {
                    assert(self@ =~= apply_dispute(old(self)@, client_id, tx));
                }
                return ;
            },
        };
        if rec.client_id() != client_id {
            proof {
                assert(self@ =~= apply_dispute(old(self)@, client_id, tx));
            }
            return ;
        }
        let a = self.get_account(client_id);
        proof {
            Self::lemma_account_bounded(self, client_id, a, self.applied as int);
        }
        self.applied = self.applied + 1;
        proof {
            Self::lemma_bounds_grow(old(self), self);
        }
        let mut rec2 = rec;
        rec2.set_disputed(true);
        tx_map_insert(&mut self.processed_txns, tx, rec2);
        if rec.is_deposit() {
            let tx_amount = rec.amount();
            proof {
                lemma_step_fits(self.applied as int, a.held as int, tx_amount as int);
            }
            let a2 = ClientAccount {
                held: a.held + tx_amount as i128,
                total: a.total,
                locked: a.locked,
            };
            self.put_account(client_id, a2);
            proof {
                Self::lemma_balances_after_put(old(self), self, client_id, a2);
            }
        } else {
            proof {
                Self::lemma_bounds_grow(old(self), self);
            }
        }
        proof {
            assert(self@.records =~= apply_dispute(old(self)@, client_id, tx).records);
            assert(self@ =~= apply_dispute(old(self)@, client_id, tx));
        }
    }

    /// Marks the referenced record undisputed and, for a deposit, takes its
    /// amount back out of held funds; malformed references are no-ops.
    pub fn resolve(&mut self, client_id: ClientId, tx: TxId)
        requires
            old(self).wf(),
            old(self).spec_can_apply(),
        ensures
            final(self).wf(),
            final(self)@ == apply_resolve(old(self)@, client_id, tx),
    {
        let rec: ProcessedTransaction = match tx_map_get(&self.processed_txns, tx) {
            Some(r) => *r,
            None => {
                proof {
                    assert(self@ =~= apply_resolve(old(self)@, client_id, tx));
                }
                return ;
            },
        };
        if rec.client_id() != client_id {
            proof {
                assert(self@ =~= apply_resolve(old(self)@, client_id, tx));
            }
            return ;
        }
        let a = self.get_account(client_id);
        proof {
            Self::lemma_account_bounded(self, client_id, a, self.applied as int);
        }
        self.applied = self.applied + 1;
        proof {
            Self::lemma_bounds_grow(old(self), self);
        }
        let mut rec2 = rec;
        rec2.set_disputed(false);
        tx_map_insert(&mut self.processed_txns, tx, rec2);
        if rec.is_deposit() {
            let tx_amount = rec.amount();
            proof {
                lemma_step_fits(self.applied as int, a.held as int, -(tx_amount as int));
            }
            let a2 = ClientAccount {
                held: a.held - tx_amount as i128,
                total: a.total,
                locked: a.locked,
            };
            self.put_account(client_id, a2);
            proof {
                Self::lemma_balances_after_put(old(self), self, client_id, a2);
            }
        } else {
            proof {
                Self::lemma_bounds_grow(old(self), self);
            }
        }
        proof {
            assert(self@.records =~= apply_resolve(old(self)@, client_id, tx).records);
            assert(self@ =~= apply_resolve(old(self)@, client_id, tx));
        }
    }

    /// Locks the account and reverses the disputed transaction: a deposit's
    /// amount leaves held and total, a withdrawal's amount returns to total.
    /// Valid only against an active dispute by the record's owner; anything
    /// else is a no-op.
    pub fn chargeback(&mut self, client: ClientId, tx: TxId)
        requires
            old(self).wf(),
            old(self).spec_can_apply(),
        ensures
            final(self).wf(),
            final(self)@ == apply_chargeback(old(self)@, client, tx),
    {
        let rec: ProcessedTransaction = match tx_map_get(&self.processed_txns, tx) {
            Some(r) => *r,
            None => {
                proof {
                    assert(self@ =~= apply_chargeback(old(self)@, client, tx));
                }
                return ;
            },
        };
        if rec.client_id() != client {
            proof {
                assert(self@ =~= apply_chargeback(old(self)@, client, tx));
            }
            return ;
        }
        if !rec.is_disputed() {
            // disallow chargebacks on transactions that are not under an
            // active dispute
            proof {
                assert(self@ =~= apply_chargeback(old(self)@, client, tx));
            }
            return ;
        }
        let a = self.get_account(client);
        proof {
            Self::lemma_account_bounded(self, client, a, self.applied as int);
        }
        self.applied = self.applied + 1;
        proof {
            Self::lemma_bounds_grow(old(self), self);
        }
        let tx_amount = rec.amount();
        let a2 = if rec.is_deposit() {
            proof {
                lemma_step_fits(self.applied as int, a.held as int, -(tx_amount as int));
                lemma_step_fits(self.applied as int, a.total as int, -(tx_amount as int));
            }
            ClientAccount {
                held: a.held - tx_amount as i128,
                total: a.total - tx_amount as i128,
                locked: true,
            }
        } else {
            proof {
                lemma_step_fits(self.applied as int, a.total as int, tx_amount as int);
                lemma_step_fits(self.applied as int, a.held as int, 0);
            }
            ClientAccount { held: a.held, total: a.total + tx_amount as i128, locked: true }
        };
        self.put_account(client, a2);
        proof {
            Self::lemma_balances_after_put(old(self), self, client, a2);
            assert(self@ =~= apply_chargeback(old(self)@, client, tx));
        }
    }

    /// Both balances of a recorded account are far enough from the edges of
    /// `i128` that their difference is exact.
    proof fn lemma_account_fits(s: &State, id: ClientId)
        requires
            s.wf(),
            s.client_accounts@.contains_key(id),
        ensures
            ({
                let a = s.client_accounts@[id];
                &&& i128::MIN < (a.total as int) - (a.held as int) < i128::MAX
                &&& a.held != i128::MIN
                &&& a.total != i128::MIN
            }),
    {
        let a = s.client_accounts@[id];
        lemma_acct_bounded_mono(a, s.applied as int, APPLIED_LIMIT as int);
        assert(2 * ((APPLIED_LIMIT as int) * (AMOUNT_STEP as int)) < i128::MAX) by (nonlinear_arith)
            requires
                APPLIED_LIMIT == 0x7fff_ffff_ffff_ffff,
                AMOUNT_STEP == 0x8000_0000_0000_0000,
        ;
    }

    /// Renders the final summary: the header `client,available,held,total,
    /// locked`, then one row per client with a known transaction, sorted
    /// ascending by client id so that the text is deterministic. Available
    /// funds are derived as exactly `total - held`. Rendering cannot fail.
    pub fn serialize_to_csv(self) -> (r: String)
        requires
            self.wf(),
        ensures
            r@ == summary_csv(self@),
    {
        let mut w = csv_writer_new();
        let mut header: Vec<String> = Vec::new();
        header.push(String::from_str("client"));
        header.push(String::from_str("available"));
        header.push(String::from_str("held"));
        header.push(String::from_str("total"));
        header.push(String::from_str("locked"));
        proof {
            reveal_strlit("client");
            reveal_strlit("available");
            reveal_strlit("held");
            reveal_strlit("total");
            reveal_strlit("locked");
            assert(header@.map_values(|f: String| f@) =~= header_fields());
            assert(plain_field("client"@));
            assert(plain_field("available"@));
            assert(plain_field("held"@));
            assert(plain_field("total"@));
            assert(plain_field("locked"@));
            assert(plain_record(header_fields()));
        }
        csv_write_record(&mut w, &header);
        let ghost dom = self@.accounts.dom();
        proof {
            assert(rows_text(self@, ids_below(dom, 0)) =~= Seq::<char>::empty());
            assert(writer_text(w) =~= encode_record(header_fields()) + rows_text(
                self@,
                ids_below(dom, 0),
            ));
        }
        let mut c: u32 = 0;
        while c < 0x10000
            invariant
                c <= 0x10000,
                self.wf(),
                dom == self@.accounts.dom(),
                crate::csv_out::writer_plain(w),
                writer_text(w) =~= encode_record(header_fields()) + rows_text(
                    self@,
                    ids_below(dom, c as int),
                ),
            decreases 0x10000 - c,
        {
            let id: ClientId = c as u16;
            proof {
                assert(self@.accounts.contains_key(id) == self.client_accounts@.contains_key(id));
            }
            if self.client_accounts.contains_key(&id) {
                let acct = self.get_account(id);
                proof {
                    Self::lemma_account_fits(&self, id);
                }
                let avail: i128 = acct.total - acct.held;
                let mut fields: Vec<String> = Vec::new();
                fields.push(client_to_string(id));
                fields.push(amount_to_string(avail));
                fields.push(amount_to_string(acct.held));
                fields.push(amount_to_string(acct.total));
                fields.push(bool_to_string(acct.locked));
                proof {
                    lemma_dec_digits_plain(id as nat);
                    lemma_render_amount_plain(account_of(self@, id).total - account_of(
                        self@,
                        id,
                    ).held);
                    lemma_render_amount_plain(account_of(self@, id).held);
                    lemma_render_amount_plain(account_of(self@, id).total);
                    lemma_bool_text_plain(account_of(self@, id).locked);
                    assert(fields@.map_values(|f: String| f@) =~= row_fields(
                        id,
                        account_of(self@, id),
                    ));
                    assert(plain_record(fields@.map_values(|f: String| f@)));
                }
                csv_write_record(&mut w, &fields);
            }
            proof {
                lemma_rows_text_snoc(self@, ids_below(dom, c as int), id);
                if dom.contains(id) {
                    assert(ids_below(dom, c as int + 1) == ids_below(dom, c as int) + seq![id]);
                } else {
                    assert(ids_below(dom, c as int + 1) == ids_below(dom, c as int));
                }
                assert(writer_text(w) =~= encode_record(header_fields()) + rows_text(
                    self@,
                    ids_below(dom, c as int + 1),
                ));
            }
            c = c + 1;
        }
        proof {
            assert(writer_text(w) =~= summary_csv(self@));
        }
        csv_writer_into_string(w)
    }

    /// Records a processed deposit under its transaction id.
    fn insert_processed_deposit(&mut self, client: ClientId, amount: i64, tx_id: TxId)
        requires
            old(self).wf(),
        ensures
            final(self).wf(),
            final(self)@.accounts == old(self)@.accounts,
            final(self)@.records =~= old(self)@.records.insert(
                tx_id,
                RecordModel { deposit: true, client, amount: amount as int, disputed: false },
            ),
    {
        tx_map_insert(
            &mut self.processed_txns,
            tx_id,
            ProcessedTransaction::new_deposit(client, amount),
        );
    }

    /// Records a processed withdrawal under its transaction id.
    fn insert_processed_withdrawal(&mut self, client: ClientId, amount: i64, tx_id: TxId)
        requires
            old(self).wf(),
        ensures
            final(self).wf(),
            final(self)@.accounts == old(self)@.accounts,
            final(self)@.records =~= old(self)@.records.insert(
                tx_id,
                RecordModel { deposit: false, client, amount: amount as int, disputed: false },
            ),
    {
        tx_map_insert(
            &mut self.processed_txns,
            tx_id,
            ProcessedTransaction::new_withdrawal(client, amount),
        );
    }
}

impl Default for State {
    /// The ledger before any transaction: no accounts, no history.
    fn default() -> (s: State)
        ensures
            s@ == empty_ledger(),
            s.wf(),
            s.spec_can_apply(),
    {
        let s = State {
            client_accounts: HashMap::new(),
            processed_txns: HashMap::default(),
            applied: 0,
        };
        proof {
            assert(s@.accounts =~= empty_ledger().accounts);
            assert(s@.records =~= empty_ledger().records);
        }
        s
    }
}

} // verus!
