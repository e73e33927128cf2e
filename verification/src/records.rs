//! Auxiliary ledger records: the broker CSV row the importer reads, and
//! the journaled emotional state.

use vstd::prelude::*;

verus! {

/// One row of a broker CSV export, as text fields: what the importer reads
/// before it builds a [`Trade`]. Price fields may carry an `@` prefix; the
/// fee may arrive under any one of four column names.
#[derive(Clone, Debug)]
pub struct WebullCsvTrade {
    pub name: Option<String>,
    pub symbol: String,
    pub side: String,
    pub status: String,
    pub filled: i64,
    pub total_qty: i64,
    pub price: String,
    pub avg_price: String,
    pub time_in_force: Option<String>,
    pub placed_time: String,
    pub filled_time: String,
    pub commission: Option<String>,
    pub fees: Option<String>,
    pub fee: Option<String>,
    pub total_fees: Option<String>,
}

impl WebullCsvTrade {
    /// The fee field the importer uses: the first of commission, fees, fee
    /// and total fees that is present.
    pub fn fee_field(&self) -> (r: &Option<String>)
        ensures
            self.commission is Some ==> r == &self.commission,
            self.commission is None && self.fees is Some ==> r == &self.fees,
            self.commission is None && self.fees is None && self.fee is Some ==> r == &self.fee,
            self.commission is None && self.fees is None && self.fee is None ==> r
                == &self.total_fees,
    {
        if self.commission.is_some() {
            &self.commission
        } else if self.fees.is_some() {
            &self.fees
        } else if self.fee.is_some() {
            &self.fee
        } else {
            &self.total_fees
        }
    }
}

/// A journaled emotional state, annotated to the ledger by timestamp and
/// optionally tied to one trade.
#[derive(Clone, Debug)]
pub struct EmotionalState {
    pub id: Option<i64>,
    pub timestamp: String,
    pub emotion: String,
    /// Intensity on a 1..=10 scale.
    pub intensity: i32,
    pub notes: Option<String>,
    pub trade_id: Option<i64>,
}


} // verus!
