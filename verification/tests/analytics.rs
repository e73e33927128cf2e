use tradebutler::daily::compute_daily_pnl;
use tradebutler::distribution::ConcentrationBand;
use tradebutler::distribution::compute_distribution;
use tradebutler::equity::compute_equity_curve;
use tradebutler::matcher::pair_trades;
use tradebutler::metrics::compute_metrics;
use tradebutler::positions::group_positions;
use tradebutler::tilt::TiltCategory;
use tradebutler::tilt::compute_tilt;
use tradebutler::trade::PairedTrade;
use tradebutler::trade::Side;
use tradebutler::trade::Trade;
use tradebutler::trade::TradeStatus;

fn trade(id: i64, symbol: &str, side: Side, quantity: u64, price: i64, timestamp: i64, fees: u64) -> Trade {
    Trade {
        id,
        symbol: symbol.to_string(),
        side,
        quantity,
        price,
        timestamp,
        fees,
        status: TradeStatus::Filled,
        strategy_id: None,
    }
}

fn pair(net: i128, exit_ts: i64) -> PairedTrade {
    PairedTrade {
        symbol: "AAPL".to_string(),
        entry_trade_id: 1,
        exit_trade_id: 2,
        quantity: 1,
        entry_price: 100,
        exit_price: 100,
        entry_timestamp: exit_ts - 10,
        exit_timestamp: exit_ts,
        gross_profit_loss: net,
        entry_fees: 0,
        exit_fees: 0,
        net_profit_loss: net,
        strategy_id: None,
    }
}

#[test]
fn grouping_partitions_a_round_trip() {
    let trades = vec![
        trade(1, "AAPL", Side::Buy, 10, 100, 1, 0),
        trade(2, "AAPL", Side::Sell, 10, 110, 2, 0),
    ];
    let (pairs, _open) = pair_trades(trades.clone(), true);
    let groups = group_positions(&trades, &pairs);
    assert_eq!(groups.len(), 1);
    assert_eq!(groups[0].position_trades.len(), 2);
    assert_eq!(groups[0].total_pnl, 100);
    assert_eq!(groups[0].final_quantity, 0);
    assert_eq!(groups[0].entry_trade.id, 1);
}

#[test]
fn grouping_splits_lifecycles_and_sorts_newest_first() {
    let trades = vec![
        trade(1, "AAPL", Side::Buy, 5, 100, 1, 0),
        trade(2, "AAPL", Side::Sell, 5, 110, 2, 0),
        trade(3, "AAPL", Side::Buy, 3, 120, 3, 0),
    ];
    let (pairs, _open) = pair_trades(trades.clone(), true);
    let groups = group_positions(&trades, &pairs);
    assert_eq!(groups.len(), 2);
    assert_eq!(groups[0].entry_trade.id, 3);
    assert_eq!(groups[0].final_quantity, 3);
    assert_eq!(groups[1].entry_trade.id, 1);
    assert_eq!(groups[1].final_quantity, 0);
    assert_eq!(groups[1].total_pnl, 50);
}

#[test]
fn grouping_keeps_symbols_apart() {
    let trades = vec![
        trade(1, "AAPL", Side::Buy, 5, 100, 1, 0),
        trade(2, "MSFT", Side::Buy, 4, 50, 2, 0),
        trade(3, "AAPL", Side::Sell, 5, 110, 3, 0),
        trade(4, "MSFT", Side::Sell, 4, 60, 4, 0),
    ];
    let (pairs, _open) = pair_trades(trades.clone(), true);
    let groups = group_positions(&trades, &pairs);
    assert_eq!(groups.len(), 2);
    let total: i128 = groups.iter().map(|g| g.total_pnl).sum();
    assert_eq!(total, 50 + 40);
}

#[test]
fn metrics_formulas_on_one_win_one_loss() {
    let trades = vec![
        trade(1, "AAPL", Side::Buy, 1, 100, 1, 0),
        trade(2, "AAPL", Side::Sell, 1, 200, 86_400, 0),
        trade(3, "AAPL", Side::Buy, 1, 100, 2 * 86_400, 0),
        trade(4, "AAPL", Side::Sell, 1, 50, 3 * 86_400, 0),
    ];
    let (pairs, _open) = pair_trades(trades.clone(), true);
    let groups = group_positions(&trades, &pairs);
    let m = compute_metrics(&trades, &pairs, &groups);
    assert_eq!(m.total_trades, 4);
    assert_eq!(m.winning_trades, 1);
    assert_eq!(m.losing_trades, 1);
    assert_eq!(m.total_profit_loss, 100 - 50);
    assert_eq!(m.win_rate, 5_000);
    assert_eq!(m.average_profit, 100);
    assert_eq!(m.average_loss, 50);
    assert_eq!(m.largest_win, 100);
    assert_eq!(m.largest_loss, -50);
    assert_eq!(m.expectancy, 50 - 25);
    assert_eq!(m.profit_factor, 20_000);
    assert_eq!(m.risk_reward_ratio, 20_000);
    assert_eq!(m.average_trade, 25);
    assert_eq!(m.consecutive_wins, 1);
    assert_eq!(m.consecutive_losses, 1);
    assert_eq!(m.current_loss_streak, 1);
    assert_eq!(m.best_day, 100);
    assert_eq!(m.worst_day, -50);
    assert!(m.trades_by_symbol.is_empty());
}

#[test]
fn profit_factor_without_losses_is_normalized_to_zero() {
    let trades = vec![
        trade(1, "AAPL", Side::Buy, 1, 100, 1, 0),
        trade(2, "AAPL", Side::Sell, 1, 200, 2, 0),
    ];
    let (pairs, _open) = pair_trades(trades.clone(), true);
    let groups = group_positions(&trades, &pairs);
    let m = compute_metrics(&trades, &pairs, &groups);
    assert!(m.total_profit_loss > 0);
    assert_eq!(m.profit_factor, 0);
    assert_eq!(m.risk_reward_ratio, 0);
}

#[test]
fn metrics_on_empty_inputs_are_all_zero() {
    let trades: Vec<Trade> = Vec::new();
    let pairs: Vec<PairedTrade> = Vec::new();
    let groups = group_positions(&trades, &pairs);
    let m = compute_metrics(&trades, &pairs, &groups);
    assert_eq!(m.total_trades, 0);
    assert_eq!(m.win_rate, 0);
    assert_eq!(m.expectancy, 0);
    assert_eq!(m.max_drawdown, 0);
    assert_eq!(m.best_day, 0);
    assert_eq!(m.worst_day, 0);
}

#[test]
fn max_drawdown_tracks_peak_to_trough() {
    let trades = vec![
        trade(1, "A", Side::Buy, 1, 100, 1, 0),
        trade(2, "A", Side::Sell, 1, 200, 2, 0),
        trade(3, "A", Side::Buy, 1, 100, 3, 0),
        trade(4, "A", Side::Sell, 1, 40, 4, 0),
        trade(5, "A", Side::Buy, 1, 100, 5, 0),
        trade(6, "A", Side::Sell, 1, 70, 6, 0),
    ];
    let (pairs, _open) = pair_trades(trades.clone(), true);
    let groups = group_positions(&trades, &pairs);
    let m = compute_metrics(&trades, &pairs, &groups);
    assert_eq!(m.max_drawdown, 60 + 30);
}

#[test]
fn daily_rows_bucket_by_exit_day_newest_first() {
    let trades = vec![
        trade(1, "A", Side::Buy, 1, 100, 10, 0),
        trade(2, "A", Side::Sell, 1, 150, 20, 0),
        trade(3, "A", Side::Buy, 1, 100, 86_400 + 10, 0),
        trade(4, "A", Side::Sell, 1, 90, 86_400 + 20, 0),
    ];
    let (pairs, _open) = pair_trades(trades.clone(), true);
    let rows = compute_daily_pnl(&trades, &pairs);
    assert_eq!(rows.len(), 2);
    assert_eq!(rows[0].date, 1);
    assert_eq!(rows[0].profit_loss, -10);
    assert_eq!(rows[0].trade_count, 2);
    assert_eq!(rows[1].date, 0);
    assert_eq!(rows[1].profit_loss, 50);
    assert_eq!(rows[1].trade_count, 2);
}

#[test]
fn equity_curve_walks_days_in_order() {
    let pairs = vec![pair(100, 10), pair(-30, 86_400 + 10)];
    let curve = compute_equity_curve(&pairs);
    assert_eq!(curve.points.len(), 2);
    assert_eq!(curve.points[0].date, 0);
    assert_eq!(curve.points[0].cumulative, 100);
    assert_eq!(curve.points[0].peak, 100);
    assert_eq!(curve.points[0].drawdown, 0);
    assert_eq!(curve.points[1].date, 1);
    assert_eq!(curve.points[1].cumulative, 70);
    assert_eq!(curve.points[1].peak, 100);
    assert_eq!(curve.points[1].drawdown, 30);
    assert_eq!(curve.points[1].drawdown_pct, 3_000);
    assert!(curve.points[1].is_max_drawdown);
    assert!(curve.points[0].is_best_surge);
    assert_eq!(curve.max_drawdown_days, 1);
    assert_eq!(curve.best_surge_gain, 100);
    assert_eq!(curve.longest_win_streak, 1);
    assert_eq!(curve.longest_loss_streak, 1);
}

#[test]
fn tilt_with_nine_pairs_is_insufficient_data() {
    let mut pairs = Vec::new();
    for i in 0..9 {
        pairs.push(pair(if i % 2 == 0 { 10 } else { -10 }, i * 100));
    }
    let stats = compute_tilt(&pairs);
    assert_eq!(stats.category, TiltCategory::InsufficientData);
    assert!(stats.streak_stats.is_empty());
    assert_eq!(stats.tilt_score, 0);
    assert!(stats.recommended_stop.is_none());
    assert_eq!(stats.category.label(), "insufficient data");
}

#[test]
fn tilt_with_ten_pairs_reports_conditional_rates() {
    let mut pairs = Vec::new();
    let nets: [i128; 10] = [10, -10, 10, -10, 10, -10, 10, -10, 10, 10];
    for (i, n) in nets.iter().enumerate() {
        pairs.push(pair(*n, (i as i64) * 100));
    }
    let stats = compute_tilt(&pairs);
    assert_eq!(stats.baseline_win_rate, 6_000);
    assert_eq!(stats.streak_stats.len(), 4);
    assert_eq!(stats.streak_stats[0].losses, 1);
    assert_eq!(stats.streak_stats[0].samples, 4);
    assert_eq!(stats.streak_stats[0].win_rate, 10_000);
    assert_eq!(stats.win_rate_after_loss, 10_000);
    assert_ne!(stats.category, TiltCategory::InsufficientData);
}

#[test]
fn distribution_splits_concentration_between_sides() {
    let pairs = vec![pair(100, 10), pair(-50, 20)];
    let d = compute_distribution(&pairs, 1_000);
    assert_eq!(d.mean, 25);
    assert_eq!(d.median, 25);
    assert_eq!(d.top_k, 2);
    assert_eq!(d.profit_concentration, 10_000);
    assert_eq!(d.loss_concentration, 10_000);
    assert_eq!(d.stability_score, 20);
    assert_eq!(d.profit_band, ConcentrationBand::VeryHigh);
    let total_count: i64 = d.histogram.iter().map(|b| b.count).sum();
    assert_eq!(total_count, 2);
}

#[test]
fn distribution_of_nothing_is_empty() {
    let pairs: Vec<PairedTrade> = Vec::new();
    let d = compute_distribution(&pairs, 1_000);
    assert!(d.histogram.is_empty());
    assert_eq!(d.mean, 0);
    assert_eq!(d.median, 0);
    assert_eq!(d.top_k, 0);
    assert_eq!(d.stability_score, 100);
}

#[test]
fn holding_time_excludes_inverted_pairs() {
    let mut a = pair(10, 100);
    a.entry_timestamp = 40;
    let mut b = pair(10, 200);
    b.entry_timestamp = 500;
    let pairs = vec![a, b];
    assert_eq!(tradebutler::metrics::average_holding_time(&pairs), 60);
}

#[test]
fn percent_gain_comes_from_price_ratio() {
    let mut a = pair(0, 100);
    a.entry_price = 100;
    a.exit_price = 110;
    let mut b = pair(0, 200);
    b.entry_price = 200;
    b.exit_price = 190;
    let pairs = vec![a, b];
    assert_eq!(tradebutler::metrics::average_percent_gain(&pairs), (1_000 - 500) / 2);
}
