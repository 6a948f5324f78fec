use crate::timestamp::Timestamp;
use vstd::prelude::*;

verus! {

/// One balance movement against a pool. The amount is an `f32` (positive for a credit,
/// negative for a debit), held here as its IEEE-754 bit pattern (`f32::to_bits`).
#[derive(Clone, Debug)]
pub struct Transaction {
    pub id: String,
    pub timestamp: Timestamp,
    pub amount_bits: u32,
    /// The pool moved; it also fixes the currency.
    pub pool_id: String,
    pub description: String,
    /// The other leg of a currency conversion, if this is one.
    pub conversion_paired_transaction_id: Option<String>,
    /// Whether this one record stands for many movements too small to track.
    pub is_diffuse: bool,
}

/// Relies on `uuid::Uuid::new_v4` and its hyphenated `to_string`, which has 36 characters.
#[verifier::external_body]
fn new_uuid_string() -> (r: String)
    ensures
        r@.len() == 36,
{
    uuid::Uuid::new_v4().to_string()
}

fn copy_opt_string(s: &Option<String>) -> (r: Option<String>)
    ensures
        r == *s,
{
    match s {
        Some(x) => Some(x.clone()),
        None => None,
    }
}

impl Transaction {
    /// A plain transaction made now, with a fresh random id.
    pub fn new_regular(amount_bits: u32, pool_id: String, description: String) -> (r: Transaction)
        ensures
            r.id@.len() == 36,
            r.amount_bits == amount_bits,
            r.pool_id == pool_id,
            r.description == description,
            r.conversion_paired_transaction_id is None,
            !r.is_diffuse,
    {
        Transaction {
            id: new_uuid_string(),
            timestamp: Timestamp::now(),
            amount_bits,
            pool_id,
            description,
            conversion_paired_transaction_id: None,
            is_diffuse: false,
        }
    }

    /// A copy of the transaction.
    pub fn duplicate(&self) -> (r: Transaction)
        ensures
            r == *self,
    {
        Transaction {
            id: self.id.clone(),
            timestamp: self.timestamp,
            amount_bits: self.amount_bits,
            pool_id: self.pool_id.clone(),
            description: self.description.clone(),
            conversion_paired_transaction_id: copy_opt_string(&self.conversion_paired_transaction_id),
            is_diffuse: self.is_diffuse,
        }
    }
}

/// Whether `id` is one of `ids`.
pub open spec fn lists_pool(ids: Seq<String>, id: Seq<char>) -> bool {
    exists|i: int| 0 <= i < ids.len() && (#[trigger] ids[i])@ == id
}

/// Optional constraints on a transaction query; an absent clause constrains nothing.
#[derive(Clone, Debug)]
pub struct TransactionFilter {
    /// Earliest timestamp admitted, inclusive.
    pub min_timestamp: Option<Timestamp>,
    /// Latest timestamp admitted, inclusive.
    pub max_timestamp: Option<Timestamp>,
    /// The pools admitted.
    pub pool_ids: Option<Vec<String>>,
}

impl Default for TransactionFilter {
    fn default() -> (r: TransactionFilter)
        ensures
            r.min_timestamp is None,
            r.max_timestamp is None,
            r.pool_ids is None,
    {
        TransactionFilter { min_timestamp: None, max_timestamp: None, pool_ids: None }
    }
}

impl TransactionFilter {
    /// The three clauses, each one independent of the others, all met.
    pub open spec fn admits(&self, t: Transaction) -> bool {
        &&& (self.min_timestamp matches Some(lo) ==> lo.le(t.timestamp))
        &&& (self.max_timestamp matches Some(hi) ==> t.timestamp.le(hi))
        &&& (self.pool_ids matches Some(ids) ==> lists_pool(ids@, t.pool_id@))
    }

    pub fn matches(&self, t: &Transaction) -> (r: bool)
        ensures
            r == self.admits(*t),
    {
        if let Some(min_ts) = self.min_timestamp {
            if t.timestamp.is_before(&min_ts) {
                return false;
            }
        }
        if let Some(max_ts) = self.max_timestamp {
            if max_ts.is_before(&t.timestamp) {
                return false;
            }
        }
        if let Some(ids) = &self.pool_ids {
            let mut i: usize = 0;
            while i < ids.len()
                invariant
                    self.pool_ids == Some(*ids),
                    self.min_timestamp matches Some(lo) ==> lo.le(t.timestamp),
                    self.max_timestamp matches Some(hi) ==> t.timestamp.le(hi),
                    i <= ids@.len(),
                    forall|j: int| 0 <= j < i ==> (#[trigger] ids@[j])@ != t.pool_id@,
                decreases ids@.len() - i,
            {
                if ids[i] == t.pool_id {
                    assert(ids@[i as int]@ == t.pool_id@);
                    return true;
                }
                i = i + 1;
            }
            return false;
        }
        true
    }
}

} // verus!
