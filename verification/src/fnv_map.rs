//! The transaction-history map, a `HashMap` keyed by transaction id that
//! hashes with fnv's FNV-1a hasher. FNV is a plain deterministic hash, so
//! equal keys always hash equally and the map keeps ordinary map meaning;
//! that meaning is stated here over the map's abstract view.

use vstd::prelude::*;

verus! {

use std::collections::HashMap;
use crate::state::processed_transaction::ProcessedTransaction;
use crate::transaction::TxId;

#[verifier::external_type_specification]
#[verifier::external_body]
pub struct ExFnvHasher(fnv::FnvHasher);

#[verifier::external_type_specification]
#[verifier::external_body]
#[verifier::reject_recursive_types(H)]
pub struct ExBuildHasherDefault<H>(std::hash::BuildHasherDefault<H>);

/// The history map: transaction id to processed transaction.
pub type TxMap = HashMap<TxId, ProcessedTransaction, fnv::FnvBuildHasher>;

/// Relies on std's `HashMap::insert`: afterwards the map holds the old
/// entries plus `k -> v`, with any earlier entry for `k` overwritten. The
/// FNV build hasher hands out deterministic hashers, as the hash-table
/// contract asks.
#[verifier::external_body]
pub(crate) fn tx_map_insert(m: &mut TxMap, k: TxId, v: ProcessedTransaction)
    ensures
        final(m)@ == old(m)@.insert(k, v),
{
    m.insert(k, v);
}

/// Relies on std's `HashMap::get`: the entry under `k`, or `None` when the
/// map holds none.
#[verifier::external_body]
pub(crate) fn tx_map_get<'a>(m: &'a TxMap, k: TxId) -> (r: Option<&'a ProcessedTransaction>)
    ensures
        match r {
            Some(v) => m@.contains_key(k) && *v == m@[k],
            None => !m@.contains_key(k),
        },
{
    m.get(&k)
}

} // verus!
