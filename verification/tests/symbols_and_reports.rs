use tradebutler::is_options_symbol;
use tradebutler::get_underlying_symbol;
use tradebutler::reports::get_recent_trades;
use tradebutler::reports::get_symbol_pnl;
use tradebutler::reports::get_trades_with_pairing;
use tradebutler::matcher::pair_trades;
use tradebutler::timestamps::parse_webull_timestamp;
use tradebutler::trade::Side;
use tradebutler::trade::Trade;
use tradebutler::trade::TradeStatus;
use tradebutler::records::WebullCsvTrade;

fn trade(id: i64, symbol: &str, side: Side, quantity: u64, price: i64, timestamp: i64, fees: u64) -> Trade {
    Trade {
        id,
        symbol: symbol.to_string(),
        side,
        quantity,
        price,
        timestamp,
        fees,
        status: TradeStatus::Filled,
        strategy_id: None,
    }
}

#[test]
fn option_symbols_are_recognized() {
    assert!(is_options_symbol("SPY251218C00679000"));
    assert!(is_options_symbol("ABR251121P00011000"));
    assert!(!is_options_symbol("AAPL"));
    assert!(!is_options_symbol("BRK"));
    assert!(!is_options_symbol("VERYLONGNAMEXYZ"));
}

#[test]
fn underlying_is_extracted_from_option_symbols() {
    assert_eq!(get_underlying_symbol("SPY251218C00679000"), "SPY");
    assert_eq!(get_underlying_symbol("ABR251121P00011000"), "ABR");
    assert_eq!(get_underlying_symbol("AAPL"), "AAPL");
}

#[test]
fn webull_timestamp_is_normalized() {
    assert_eq!(
        parse_webull_timestamp("12/18/2025 13:25:11 EST").unwrap(),
        "2025-12-18T13:25:11Z"
    );
    assert_eq!(
        parse_webull_timestamp("01/02/2003 04:05:06").unwrap(),
        "2003-01-02T04:05:06Z"
    );
}

#[test]
fn webull_timestamp_pads_narrow_fields() {
    assert_eq!(
        parse_webull_timestamp("1/2/2025 3:4:5").unwrap(),
        "2025-01-02T03:04:05Z"
    );
    assert_eq!(
        parse_webull_timestamp("  1/2/25 3:4:5   EDT  ").unwrap(),
        "0025-01-02T03:04:05Z"
    );
}

#[test]
fn webull_timestamp_keeps_fields_unvalidated() {
    assert_eq!(
        parse_webull_timestamp("13/18/2025 13:25:11").unwrap(),
        "2025-13-18T13:25:11Z"
    );
    assert_eq!(
        parse_webull_timestamp("12/32/2025 25:61:61").unwrap(),
        "2025-12-32T25:61:61Z"
    );
    assert_eq!(
        parse_webull_timestamp("+12/18/2025 13:25:11").unwrap(),
        "2025-12-18T13:25:11Z"
    );
}

#[test]
fn webull_timestamp_rejects_bad_shapes() {
    assert!(parse_webull_timestamp("").is_err());
    assert!(parse_webull_timestamp("2025-12-18T13:25:11Z").is_err());
    assert!(parse_webull_timestamp("12/18/2025").is_err());
    assert!(parse_webull_timestamp("12/18 13:25:11").is_err());
    assert!(parse_webull_timestamp("12/18/20/25 13:25:11").is_err());
    assert!(parse_webull_timestamp("12/18/2025 13:25").is_err());
    assert!(parse_webull_timestamp("12/x8/2025 13:25:11").is_err());
    assert!(parse_webull_timestamp("12/18/99999999999 13:25:11").is_err());
}

#[test]
fn webull_fee_field_prefers_commission() {
    let row = WebullCsvTrade {
        name: None,
        symbol: "AAPL".to_string(),
        side: "Buy".to_string(),
        status: "Filled".to_string(),
        filled: 1,
        total_qty: 1,
        price: "@100".to_string(),
        avg_price: "@100".to_string(),
        time_in_force: None,
        placed_time: "12/18/2025 13:25:11 EST".to_string(),
        filled_time: "12/18/2025 13:25:11 EST".to_string(),
        commission: Some("1.00".to_string()),
        fees: Some("2.00".to_string()),
        fee: None,
        total_fees: None,
    };
    assert_eq!(row.fee_field().as_deref(), Some("1.00"));
}

#[test]
fn symbol_pnl_groups_by_underlying_and_sorts_by_net() {
    let trades = vec![
        trade(1, "AAPL", Side::Buy, 2, 100, 1, 0),
        trade(2, "AAPL", Side::Sell, 2, 110, 2, 0),
        trade(3, "SPY251218C00679000", Side::Buy, 1, 5, 3, 0),
        trade(4, "SPY251218C00679000", Side::Sell, 1, 7, 4, 0),
    ];
    let (pairs, _open) = pair_trades(trades.clone(), true);
    let rows = get_symbol_pnl(&trades, &pairs);
    assert_eq!(rows.len(), 2);
    assert_eq!(rows[0].symbol, "SPY");
    assert_eq!(rows[0].total_net_pnl, 200);
    assert_eq!(rows[0].open_position_qty, 0);
    assert_eq!(rows[1].symbol, "AAPL");
    assert_eq!(rows[1].closed_positions, 1);
    assert_eq!(rows[1].total_net_pnl, 20);
    assert_eq!(rows[1].win_rate, 10_000);
}

#[test]
fn symbol_pnl_reports_open_only_underlyings() {
    let trades = vec![
        trade(1, "AAPL", Side::Buy, 3, 100, 1, 0),
        trade(2, "AAPL", Side::Sell, 3, 110, 2, 0),
        trade(3, "MSFT", Side::Buy, 7, 50, 3, 0),
        trade(4, "MSFT", Side::Sell, 2, 55, 4, 0),
        trade(5, "NVDA", Side::Buy, 4, 10, 5, 0),
    ];
    let (pairs, _open) = pair_trades(trades.clone(), true);
    let rows = get_symbol_pnl(&trades, &pairs);
    assert_eq!(rows.len(), 3);
    let aapl = rows.iter().find(|r| r.symbol == "AAPL").unwrap();
    assert_eq!(aapl.open_position_qty, 0);
    assert_eq!(aapl.total_net_pnl, 30);
    let msft = rows.iter().find(|r| r.symbol == "MSFT").unwrap();
    assert_eq!(msft.open_position_qty, 5);
    assert_eq!(msft.total_net_pnl, 10);
    let nvda = rows.iter().find(|r| r.symbol == "NVDA").unwrap();
    assert_eq!(nvda.open_position_qty, 4);
    assert_eq!(nvda.closed_positions, 0);
    assert_eq!(nvda.total_net_pnl, 0);
    assert_eq!(rows[0].symbol, "AAPL");
    assert_eq!(rows[1].symbol, "MSFT");
    assert_eq!(rows[2].symbol, "NVDA");
}

#[test]
fn symbol_pnl_clamps_short_sales_at_zero() {
    let trades = vec![
        trade(1, "TSLA", Side::Sell, 5, 100, 1, 0),
        trade(2, "TSLA", Side::Buy, 2, 90, 2, 0),
    ];
    let (pairs, _open) = pair_trades(trades.clone(), true);
    let rows = get_symbol_pnl(&trades, &pairs);
    assert_eq!(rows.len(), 1);
    assert_eq!(rows[0].symbol, "TSLA");
    assert_eq!(rows[0].open_position_qty, 2);
    assert_eq!(rows[0].total_net_pnl, 20);
}

#[test]
fn recent_trades_are_newest_first_and_truncated() {
    let trades = vec![
        trade(1, "A", Side::Buy, 1, 10, 1, 0),
        trade(2, "A", Side::Sell, 1, 20, 2, 0),
        trade(3, "B", Side::Buy, 1, 10, 3, 0),
        trade(4, "B", Side::Sell, 1, 5, 4, 0),
    ];
    let (pairs, _open) = pair_trades(trades, true);
    let recent = get_recent_trades(&pairs, 1);
    assert_eq!(recent.len(), 1);
    assert_eq!(recent[0].symbol, "B");
    assert_eq!(recent[0].net_profit_loss, -5);
    let all = get_recent_trades(&pairs, 10);
    assert_eq!(all.len(), 2);
    assert_eq!(all[0].symbol, "B");
    assert_eq!(all[1].symbol, "A");
}

#[test]
fn trades_with_pairing_links_both_sides() {
    let trades = vec![
        trade(1, "A", Side::Buy, 1, 10, 1, 0),
        trade(2, "A", Side::Sell, 1, 20, 2, 0),
    ];
    let (pairs, _open) = pair_trades(trades.clone(), true);
    let linked = get_trades_with_pairing(&trades, &pairs);
    assert_eq!(linked.len(), 2);
    assert_eq!(linked[0].entry_pairs.len(), 1);
    assert_eq!(linked[0].exit_pairs.len(), 0);
    assert_eq!(linked[1].entry_pairs.len(), 0);
    assert_eq!(linked[1].exit_pairs.len(), 1);
    assert_eq!(linked[0].entry_pairs[0].exit_trade_id, 2);
}
