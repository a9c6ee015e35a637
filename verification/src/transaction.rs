//! Transaction records: the immutable value parsed from one input line.

use vstd::prelude::*;
use crate::amount::Amount;
use crate::errors::TxEngineErrors;

verus! {

/// A transaction identifier, unique within the whole input stream for
/// deposits and withdrawals; dispute, resolve and chargeback records
/// reference an existing identifier.
pub type TxId = u32;

/// The five record kinds the engine understands.
#[derive(Debug, PartialEq, Eq, Structural, Clone, Copy)]
pub enum TxType {
    Deposit,
    Withdraw,
    Dispute,
    Resolve,
    Chargeback,
}

/// The kind named by an input string, or [`TxEngineErrors::Unknown`] for any
/// string that names no kind.
pub open spec fn tx_type_of_str(s: Seq<char>) -> Result<TxType, TxEngineErrors> {
    if s == "deposit"@ {
        Ok(TxType::Deposit)
    } else if s == "withdrawal"@ {
        Ok(TxType::Withdraw)
    } else if s == "dispute"@ {
        Ok(TxType::Dispute)
    } else if s == "resolve"@ {
        Ok(TxType::Resolve)
    } else if s == "chargeback"@ {
        Ok(TxType::Chargeback)
    } else {
        Err(TxEngineErrors::Unknown)
    }
}

/// Character-by-character string equality.
pub(crate) fn str_eq(a: &str, b: &str) -> (r: bool)
    ensures
        r == (a@ == b@),
{
    let alen = a.unicode_len();
    let blen = b.unicode_len();
    if alen != blen {
        return false;
    }
    let mut i: usize = 0;
    while i < alen
        invariant
            0 <= i <= alen,
            alen == a@.len(),
            blen == b@.len(),
            alen == blen,
            forall|j: int| 0 <= j < i ==> a@[j] == b@[j],
        decreases alen - i,
    {
        if a.get_char(i) != b.get_char(i) {
            return false;
        }
        i = i + 1;
    }
    proof {
        assert(a@ =~= b@);
    }
    true
}

impl TxType {
    /// Parses one of the five kind strings; any other string is rejected,
    /// so a malformed line never reaches the ledger.
    pub fn from_str(s: &str) -> (r: Result<TxType, TxEngineErrors>)
        ensures
            r == tx_type_of_str(s@),
    {
        if str_eq(s, "deposit") {
            Ok(TxType::Deposit)
        } else if str_eq(s, "withdrawal") {
            Ok(TxType::Withdraw)
        } else if str_eq(s, "dispute") {
            Ok(TxType::Dispute)
        } else if str_eq(s, "resolve") {
            Ok(TxType::Resolve)
        } else if str_eq(s, "chargeback") {
            Ok(TxType::Chargeback)
        } else {
            Err(TxEngineErrors::Unknown)
        }
    }
}

/// One parsed input record: identity, kind, and the amount that deposits and
/// withdrawals carry. Dispute, resolve and chargeback records carry none.
#[derive(Debug, PartialEq, Clone, Copy)]
pub struct Transaction {
    pub tx_id: TxId,
    pub tx_type: TxType,
    pub amount: Option<Amount>,
}

impl Transaction {
    pub fn new(tx_id: TxId, tx_type: TxType, amount: Option<Amount>) -> (t: Transaction)
        ensures
            t.tx_id == tx_id,
            t.tx_type == tx_type,
            t.amount == amount,
    {
        Transaction { tx_id, tx_type, amount }
    }

    /// True iff this record itself is a dispute request.
    pub fn is_disputed(&self) -> (r: bool)
        ensures
            r == (self.tx_type is Dispute),
    {
        if self.tx_type == TxType::Dispute {
            true
        } else {
            false
        }
    }
}

} // verus!
