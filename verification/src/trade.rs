//! The trade ledger's data model.
//!
//! Quantities, prices and fees are fixed-point integers in a caller-chosen
//! decimal scale (one unit is the smallest representable quantity, so the
//! near-zero tolerance of a floating-point ledger becomes exact: a residual
//! of zero units is closed, anything above is open). Each executable record
//! has a mathematical model (`TradeModel`, `PairModel`, `LotModel`) used by
//! every contract in the crate.

use vstd::prelude::*;

verus! {

/// Largest quantity, in fixed-point units, that the analytics accept.
pub const MAX_QUANTITY: u64 = 1_000_000_000;

/// Largest price magnitude, in fixed-point units, that the analytics accept.
pub const MAX_PRICE: i64 = 1_000_000_000;

/// Largest fee, in fixed-point units, that the analytics accept.
pub const MAX_FEE: u64 = 1_000_000_000;

/// Contract multiplier applied to option P&L: one contract covers 100 shares.
pub const OPTIONS_MULTIPLIER: i128 = 100;

/// Bound on the gross P&L of a single matched pair:
/// `2 * MAX_PRICE * MAX_QUANTITY * OPTIONS_MULTIPLIER`.
pub const GROSS_BOUND: i128 = 200_000_000_000_000_000_000;

/// Bound on the net P&L of a single matched pair: the gross bound plus the
/// multiplied fees of both sides.
pub const NET_BOUND: i128 = 300_000_000_000_000_000_000;

/// Which side of the market a fill took.
#[derive(Clone, Copy, Debug, PartialEq, Eq, Structural)]
pub enum Side {
    Buy,
    Sell,
}

/// Whether a record is an executed fill or a synthetic open-position
/// remainder emitted by the matcher.
#[derive(Clone, Copy, Debug, PartialEq, Eq, Structural)]
pub enum TradeStatus {
    Filled,
    Open,
}

/// One executed fill (or, with status [`TradeStatus::Open`], a synthetic
/// record for unmatched quantity left over after matching).
#[derive(Debug)]
pub struct Trade {
    /// Stable identifier, unique per trade within one ledger.
    pub id: i64,
    /// Ticker string; may encode an option contract.
    pub symbol: String,
    pub side: Side,
    /// Filled quantity in fixed-point units; zero-quantity fills are legal
    /// and match nothing.
    pub quantity: u64,
    /// Per-share (or per-contract) price in fixed-point units.
    pub price: i64,
    /// Totally ordered instant of execution; ties keep input order.
    pub timestamp: i64,
    /// Total fee paid on this fill, prorated across the pairs it joins.
    pub fees: u64,
    pub status: TradeStatus,
    /// Optional strategy attribution carried into matched pairs.
    pub strategy_id: Option<i64>,
}

/// One realized-P&L event: a quantity closed between an opening (entry) and
/// a closing (exit) fill.
#[derive(Debug)]
pub struct PairedTrade {
    pub symbol: String,
    pub entry_trade_id: i64,
    pub exit_trade_id: i64,
    /// Quantity closed by this event, in fixed-point units.
    pub quantity: u64,
    pub entry_price: i64,
    pub exit_price: i64,
    pub entry_timestamp: i64,
    pub exit_timestamp: i64,
    /// `(exit - entry) * quantity * multiplier`, signed for the position's
    /// posture (a short position's entry is its sell).
    pub gross_profit_loss: i128,
    /// Prorated share of the entry fill's fee, before the multiplier.
    pub entry_fees: u64,
    /// Prorated share of the exit fill's fee, before the multiplier.
    pub exit_fees: u64,
    /// `gross - (entry_fees + exit_fees) * multiplier`.
    pub net_profit_loss: i128,
    /// The entry's strategy attribution, falling back to the exit's.
    pub strategy_id: Option<i64>,
}

/// Mathematical model of a [`Trade`].
#[verifier::ext_equal]
pub struct TradeModel {
    pub id: int,
    pub symbol: Seq<char>,
    pub side: Side,
    pub quantity: int,
    pub price: int,
    pub timestamp: int,
    pub fees: int,
    pub status: TradeStatus,
    pub strategy_id: Option<int>,
}

/// Mathematical model of a [`PairedTrade`].
#[verifier::ext_equal]
pub struct PairModel {
    pub symbol: Seq<char>,
    pub entry_trade_id: int,
    pub exit_trade_id: int,
    pub quantity: int,
    pub entry_price: int,
    pub exit_price: int,
    pub entry_timestamp: int,
    pub exit_timestamp: int,
    pub gross_profit_loss: int,
    pub entry_fees: int,
    pub exit_fees: int,
    pub net_profit_loss: int,
    pub strategy_id: Option<int>,
}

impl Clone for Trade {
    /// A clone carries every field over unchanged.
    fn clone(&self) -> (r: Self)
        ensures
            r == *self,
    {
        Trade {
            id: self.id,
            symbol: self.symbol.clone(),
            side: self.side,
            quantity: self.quantity,
            price: self.price,
            timestamp: self.timestamp,
            fees: self.fees,
            status: self.status,
            strategy_id: self.strategy_id,
        }
    }
}

impl Clone for PairedTrade {
    /// A clone carries every field over unchanged.
    fn clone(&self) -> (r: Self)
        ensures
            r == *self,
    {
        PairedTrade {
            symbol: self.symbol.clone(),
            entry_trade_id: self.entry_trade_id,
            exit_trade_id: self.exit_trade_id,
            quantity: self.quantity,
            entry_price: self.entry_price,
            exit_price: self.exit_price,
            entry_timestamp: self.entry_timestamp,
            exit_timestamp: self.exit_timestamp,
            gross_profit_loss: self.gross_profit_loss,
            entry_fees: self.entry_fees,
            exit_fees: self.exit_fees,
            net_profit_loss: self.net_profit_loss,
            strategy_id: self.strategy_id,
        }
    }
}

/// Model of an optional strategy attribution.
pub open spec fn opt_model(o: Option<i64>) -> Option<int> {
    match o {
        Some(v) => Some(v as int),
        None => None,
    }
}

impl View for Trade {
    type V = TradeModel;

    open spec fn view(&self) -> TradeModel {
        TradeModel {
            id: self.id as int,
            symbol: self.symbol@,
            side: self.side,
            quantity: self.quantity as int,
            price: self.price as int,
            timestamp: self.timestamp as int,
            fees: self.fees as int,
            status: self.status,
            strategy_id: opt_model(self.strategy_id),
        }
    }
}

impl DeepView for Trade {
    type V = TradeModel;

    open spec fn deep_view(&self) -> TradeModel {
        self.view()
    }
}

impl View for PairedTrade {
    type V = PairModel;

    open spec fn view(&self) -> PairModel {
        PairModel {
            symbol: self.symbol@,
            entry_trade_id: self.entry_trade_id as int,
            exit_trade_id: self.exit_trade_id as int,
            quantity: self.quantity as int,
            entry_price: self.entry_price as int,
            exit_price: self.exit_price as int,
            entry_timestamp: self.entry_timestamp as int,
            exit_timestamp: self.exit_timestamp as int,
            gross_profit_loss: self.gross_profit_loss as int,
            entry_fees: self.entry_fees as int,
            exit_fees: self.exit_fees as int,
            net_profit_loss: self.net_profit_loss as int,
            strategy_id: opt_model(self.strategy_id),
        }
    }
}

impl DeepView for PairedTrade {
    type V = PairModel;

    open spec fn deep_view(&self) -> PairModel {
        self.view()
    }
}

/// A trade the analytics accept: all magnitudes within the fixed-point
/// bounds, so that every derived P&L figure fits the machine integers.
pub open spec fn valid_trade_model(t: TradeModel) -> bool {
    &&& 0 <= t.quantity <= MAX_QUANTITY
    &&& -MAX_PRICE <= t.price <= MAX_PRICE
    &&& 0 <= t.fees <= MAX_FEE
}

/// Every trade of the sequence is within the fixed-point bounds.
pub open spec fn valid_trades(ts: Seq<TradeModel>) -> bool {
    forall|i: int| 0 <= i < ts.len() ==> valid_trade_model(#[trigger] ts[i])
}

/// A matched pair within the bounds the matcher guarantees.
pub open spec fn valid_pair_model(p: PairModel) -> bool {
    &&& 0 < p.quantity <= MAX_QUANTITY
    &&& -MAX_PRICE <= p.entry_price <= MAX_PRICE
    &&& -MAX_PRICE <= p.exit_price <= MAX_PRICE
    &&& 0 <= p.entry_fees <= MAX_FEE
    &&& 0 <= p.exit_fees <= MAX_FEE
    &&& -GROSS_BOUND <= p.gross_profit_loss <= GROSS_BOUND
    &&& -NET_BOUND <= p.net_profit_loss <= NET_BOUND
}

/// Every pair of the sequence is within the matcher's bounds.
pub open spec fn valid_pairs(ps: Seq<PairModel>) -> bool {
    forall|i: int| 0 <= i < ps.len() ==> valid_pair_model(#[trigger] ps[i])
}

/// Trade identifiers are pairwise distinct.
pub open spec fn unique_ids(ts: Seq<TradeModel>) -> bool {
    forall|i: int, j: int| 0 <= i < j < ts.len() ==> #[trigger] ts[i].id != #[trigger] ts[j].id
}

} // verus!
