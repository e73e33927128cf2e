use tradebutler::matcher::pair_trades;
use tradebutler::policy::match_trades;
use tradebutler::policy::pair_trades_fifo;
use tradebutler::policy::pair_trades_lifo;
use tradebutler::trade::Side;
use tradebutler::trade::Trade;
use tradebutler::trade::TradeStatus;

fn trade(id: i64, symbol: &str, side: Side, quantity: u64, price: i64, timestamp: i64, fees: u64) -> Trade {
    Trade {
        id,
        symbol: symbol.to_string(),
        side,
        quantity,
        price,
        timestamp,
        fees,
        status: TradeStatus::Filled,
        strategy_id: None,
    }
}

#[test]
fn fifo_long_round_trip() {
    let trades = vec![
        trade(1, "AAPL", Side::Buy, 10, 100, 1, 0),
        trade(2, "AAPL", Side::Sell, 10, 110, 2, 0),
    ];
    let (pairs, open) = pair_trades(trades, true);
    assert_eq!(pairs.len(), 1);
    assert_eq!(pairs[0].entry_trade_id, 1);
    assert_eq!(pairs[0].exit_trade_id, 2);
    assert_eq!(pairs[0].entry_price, 100);
    assert_eq!(pairs[0].exit_price, 110);
    assert_eq!(pairs[0].quantity, 10);
    assert_eq!(pairs[0].gross_profit_loss, 100);
    assert_eq!(pairs[0].net_profit_loss, 100);
    assert_eq!(pairs[0].entry_fees, 0);
    assert_eq!(pairs[0].exit_fees, 0);
    assert!(open.is_empty());
}

#[test]
fn short_covered_by_two_buys() {
    let trades = vec![
        trade(1, "XYZ", Side::Sell, 5, 50, 1, 0),
        trade(2, "XYZ", Side::Buy, 3, 40, 2, 0),
        trade(3, "XYZ", Side::Buy, 2, 45, 3, 0),
    ];
    let (pairs, open) = pair_trades(trades, true);
    assert_eq!(pairs.len(), 2);
    assert_eq!(pairs[0].entry_price, 50);
    assert_eq!(pairs[0].exit_price, 40);
    assert_eq!(pairs[0].quantity, 3);
    assert_eq!(pairs[1].entry_price, 50);
    assert_eq!(pairs[1].exit_price, 45);
    assert_eq!(pairs[1].quantity, 2);
    assert!(open.is_empty());
    let total_net: i128 = pairs.iter().map(|p| p.net_profit_loss).sum();
    assert_eq!(total_net, 40);
}

#[test]
fn options_symbol_carries_multiplier() {
    let trades = vec![
        trade(1, "SPY251218C00679000", Side::Buy, 1, 100, 1, 0),
        trade(2, "SPY251218C00679000", Side::Sell, 1, 110, 2, 0),
    ];
    let (pairs, _open) = pair_trades(trades, true);
    assert_eq!(pairs.len(), 1);
    assert_eq!(pairs[0].gross_profit_loss, (110 - 100) * 1 * 100);
    assert_eq!(pairs[0].net_profit_loss, 1000);
}

#[test]
fn stock_symbol_has_unit_multiplier() {
    let trades = vec![
        trade(1, "AAPL", Side::Buy, 3, 100, 1, 0),
        trade(2, "AAPL", Side::Sell, 3, 110, 2, 0),
    ];
    let (pairs, _open) = pair_trades(trades, true);
    assert_eq!(pairs[0].gross_profit_loss, 30);
}

#[test]
fn fifo_and_lifo_pick_different_lots() {
    let trades = vec![
        trade(1, "QQQ", Side::Buy, 1, 10, 1, 0),
        trade(2, "QQQ", Side::Buy, 1, 20, 2, 0),
        trade(3, "QQQ", Side::Sell, 1, 30, 3, 0),
    ];
    let (fifo_pairs, _) = pair_trades_fifo(trades.clone());
    let (lifo_pairs, _) = pair_trades_lifo(trades);
    assert_eq!(fifo_pairs[0].entry_price, 10);
    assert_eq!(lifo_pairs[0].entry_price, 20);
}

#[test]
fn fully_closed_total_pnl_is_policy_independent() {
    let trades = vec![
        trade(1, "QQQ", Side::Buy, 1, 10, 1, 0),
        trade(2, "QQQ", Side::Buy, 1, 20, 2, 0),
        trade(3, "QQQ", Side::Sell, 2, 30, 3, 0),
    ];
    let (fifo_pairs, fifo_open) = pair_trades_fifo(trades.clone());
    let (lifo_pairs, lifo_open) = pair_trades_lifo(trades);
    assert!(fifo_open.is_empty());
    assert!(lifo_open.is_empty());
    let fifo_total: i128 = fifo_pairs.iter().map(|p| p.net_profit_loss).sum();
    let lifo_total: i128 = lifo_pairs.iter().map(|p| p.net_profit_loss).sum();
    assert_eq!(fifo_total, lifo_total);
    assert_eq!(fifo_total, 30);
}

#[test]
fn matching_is_deterministic() {
    let trades = vec![
        trade(1, "A", Side::Buy, 5, 100, 3, 2),
        trade(2, "B", Side::Sell, 4, 50, 1, 1),
        trade(3, "A", Side::Sell, 5, 120, 4, 2),
        trade(4, "B", Side::Buy, 4, 40, 2, 1),
    ];
    let (p1, o1) = match_trades(trades.clone(), "FIFO");
    let (p2, o2) = match_trades(trades, "FIFO");
    assert_eq!(p1.len(), p2.len());
    assert_eq!(o1.len(), o2.len());
    for (a, b) in p1.iter().zip(p2.iter()) {
        assert_eq!(a.symbol, b.symbol);
        assert_eq!(a.entry_trade_id, b.entry_trade_id);
        assert_eq!(a.exit_trade_id, b.exit_trade_id);
        assert_eq!(a.quantity, b.quantity);
        assert_eq!(a.net_profit_loss, b.net_profit_loss);
    }
    for (a, b) in o1.iter().zip(o2.iter()) {
        assert_eq!(a.id, b.id);
        assert_eq!(a.quantity, b.quantity);
    }
}

#[test]
fn policy_selector_defaults_to_lifo() {
    let trades = vec![
        trade(1, "QQQ", Side::Buy, 1, 10, 1, 0),
        trade(2, "QQQ", Side::Buy, 1, 20, 2, 0),
        trade(3, "QQQ", Side::Sell, 1, 30, 3, 0),
    ];
    let (pairs, _) = match_trades(trades, "anything-else");
    assert_eq!(pairs[0].entry_price, 20);
}

#[test]
fn fees_prorate_across_partial_closes() {
    let trades = vec![
        trade(1, "MSFT", Side::Buy, 10, 100, 1, 10),
        trade(2, "MSFT", Side::Sell, 4, 110, 2, 4),
        trade(3, "MSFT", Side::Sell, 6, 120, 3, 6),
    ];
    let (pairs, open) = pair_trades(trades, true);
    assert_eq!(pairs.len(), 2);
    assert_eq!(pairs[0].entry_fees, 4);
    assert_eq!(pairs[0].exit_fees, 4);
    assert_eq!(pairs[0].net_profit_loss, (110 - 100) * 4 - 8);
    assert_eq!(pairs[1].entry_fees, 6);
    assert_eq!(pairs[1].exit_fees, 6);
    assert_eq!(pairs[1].net_profit_loss, (120 - 100) * 6 - 12);
    assert!(open.is_empty());
    let fee_on_entry: u64 = pairs.iter().map(|p| p.entry_fees).sum();
    assert_eq!(fee_on_entry, 10);
}

#[test]
fn partial_close_leaves_open_remainder() {
    let trades = vec![
        trade(1, "NVDA", Side::Buy, 10, 100, 1, 10),
        trade(2, "NVDA", Side::Sell, 4, 110, 2, 0),
    ];
    let (pairs, open) = pair_trades(trades, true);
    assert_eq!(pairs.len(), 1);
    assert_eq!(pairs[0].quantity, 4);
    assert_eq!(open.len(), 1);
    assert_eq!(open[0].id, 1);
    assert_eq!(open[0].quantity, 6);
    assert_eq!(open[0].fees, 6);
    assert!(matches!(open[0].status, TradeStatus::Open));
    assert!(matches!(open[0].side, Side::Buy));
}

#[test]
fn quantity_is_conserved_per_side() {
    let trades = vec![
        trade(1, "TSLA", Side::Buy, 7, 100, 1, 0),
        trade(2, "TSLA", Side::Sell, 3, 110, 2, 0),
        trade(3, "TSLA", Side::Buy, 5, 90, 3, 0),
        trade(4, "TSLA", Side::Sell, 4, 95, 4, 0),
    ];
    let (pairs, open) = pair_trades(trades, true);
    let closed: u64 = pairs.iter().map(|p| p.quantity).sum();
    let open_long: u64 = open
        .iter()
        .filter(|t| matches!(t.side, Side::Buy))
        .map(|t| t.quantity)
        .sum();
    let open_short: u64 = open
        .iter()
        .filter(|t| matches!(t.side, Side::Sell))
        .map(|t| t.quantity)
        .sum();
    assert_eq!(closed + open_long, 7 + 5);
    assert_eq!(closed + open_short, 3 + 4);
}

#[test]
fn unsorted_input_is_sorted_by_timestamp() {
    let trades = vec![
        trade(2, "AAPL", Side::Sell, 10, 110, 5, 0),
        trade(1, "AAPL", Side::Buy, 10, 100, 1, 0),
    ];
    let (pairs, open) = pair_trades(trades, true);
    assert_eq!(pairs.len(), 1);
    assert_eq!(pairs[0].entry_trade_id, 1);
    assert!(open.is_empty());
}

#[test]
fn empty_ledger_matches_nothing() {
    let (pairs, open) = pair_trades(Vec::new(), true);
    assert!(pairs.is_empty());
    assert!(open.is_empty());
}
