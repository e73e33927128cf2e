//! The pairing-policy selector and the matcher's public entry points.
//!
//! The selector is a string: `"FIFO"` picks first-in-first-out lot
//! selection, anything else picks last-in-first-out.

use vstd::prelude::*;
use vstd::string::StrSliceExecFns;

use crate::matcher::match_trades_model;
use crate::matcher::pair_trades;
use crate::trade::PairedTrade;
use crate::trade::Trade;
use crate::trade::TradeStatus;
use crate::trade::valid_pairs;
use crate::trade::valid_trades;

verus! {

/// Whether the policy string selects FIFO lot selection.
pub fn is_fifo_policy(policy: &str) -> (r: bool)
    ensures
        r == (policy@ == "FIFO"@),
{
    proof {
        reveal_strlit("FIFO");
    }
    let n = policy.unicode_len();
    if n != 4 {
        return false;
    }
    let r = policy.get_char(0) == 'F' && policy.get_char(1) == 'I' && policy.get_char(2) == 'F'
        && policy.get_char(3) == 'O';
    proof {
        if r {
            assert(policy@ =~= "FIFO"@);
        }
    }
    r
}

/// Match the ledger under FIFO lot selection.
pub fn pair_trades_fifo(trades: Vec<Trade>) -> (r: (Vec<PairedTrade>, Vec<Trade>))
    requires
        valid_trades(trades.deep_view()),
    ensures
        r.0.deep_view() == match_trades_model(trades.deep_view(), true).0,
        r.1.deep_view() == match_trades_model(trades.deep_view(), true).1,
        valid_pairs(r.0.deep_view()),
        valid_trades(r.1.deep_view()),
{
    pair_trades(trades, true)
}

/// Match the ledger under LIFO lot selection.
pub fn pair_trades_lifo(trades: Vec<Trade>) -> (r: (Vec<PairedTrade>, Vec<Trade>))
    requires
        valid_trades(trades.deep_view()),
    ensures
        r.0.deep_view() == match_trades_model(trades.deep_view(), false).0,
        r.1.deep_view() == match_trades_model(trades.deep_view(), false).1,
        valid_pairs(r.0.deep_view()),
        valid_trades(r.1.deep_view()),
{
    pair_trades(trades, false)
}

/// Match the ledger under the policy the selector names: `"FIFO"` means
/// FIFO, anything else means LIFO.
pub fn match_trades(trades: Vec<Trade>, policy: &str) -> (r: (Vec<PairedTrade>, Vec<Trade>))
    requires
        valid_trades(trades.deep_view()),
    ensures
        r.0.deep_view() == match_trades_model(trades.deep_view(), policy@ == "FIFO"@).0,
        r.1.deep_view() == match_trades_model(trades.deep_view(), policy@ == "FIFO"@).1,
        valid_pairs(r.0.deep_view()),
        valid_trades(r.1.deep_view()),
        forall|i: int| 0 <= i < r.1@.len() ==> (#[trigger] r.1.deep_view()[i]).status
            == TradeStatus::Open && r.1.deep_view()[i].quantity > 0,
{
    let fifo = is_fifo_policy(policy);
    pair_trades(trades, fifo)
}

} // verus!
