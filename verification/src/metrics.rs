//! The metrics aggregator: summary statistics over the matched pairs and
//! the position groups.
//!
//! Trades are counted as matched pairs, not raw fills. Ratios are reported
//! in basis points (one ten-thousandth): a win rate of 5000 means half the
//! pairs won. Divisions that would be degenerate (no pairs, no losses) are
//! normalized to zero rather than surfaced as infinities. Streaks scan the
//! pairs in exit-timestamp order; the largest win and loss are judged per
//! position group, so one position with several partial exits counts once.

use vstd::prelude::*;

use crate::daily::DayRowModel;
use crate::daily::compute_daily_pnl;
use crate::daily::daily_model;
use crate::positions::GROUP_PNL_BOUND;
use crate::positions::GroupModel;
use crate::positions::MAX_PAIR_COUNT;
use crate::positions::PositionGroup;
use crate::trade::NET_BOUND;
use crate::trade::PairModel;
use crate::trade::PairedTrade;
use crate::trade::Trade;
use crate::trade::TradeModel;
use crate::trade::valid_pairs;
use crate::trade::valid_trades;

verus! {

/// Ratios are reported in basis points: parts per ten thousand.
pub const BASIS_POINTS: i128 = 10_000;

/// Per-symbol trade statistics (kept for interface parity; the aggregator
/// reports symbol-level P&L through its own per-symbol report).
#[derive(Debug)]
pub struct SymbolStats {
    pub symbol: String,
    pub count: i64,
    pub profit_loss: i128,
}

/// The portfolio summary. Monetary fields are fixed-point integers in the
/// ledger's scale; ratio fields are basis points.
#[derive(Debug)]
pub struct Metrics {
    /// Number of raw fills given to the aggregator.
    pub total_trades: i64,
    /// Pairs with positive net P&L.
    pub winning_trades: i64,
    /// Pairs with negative net P&L.
    pub losing_trades: i64,
    /// Net P&L summed over all pairs.
    pub total_profit_loss: i128,
    /// `winning_trades * 10000 / pairs`, 0 with no pairs.
    pub win_rate: i64,
    /// Mean winning pair P&L, 0 with no winners.
    pub average_profit: i128,
    /// Mean losing pair P&L magnitude (positive), 0 with no losers.
    pub average_loss: i128,
    /// Largest positive position-group P&L, 0 with none.
    pub largest_win: i128,
    /// Most negative position-group P&L (kept negative), 0 with none.
    pub largest_loss: i128,
    /// Quantity times price summed over all fills.
    pub total_volume: i128,
    /// Always empty: per-symbol figures live in the symbol report.
    pub trades_by_symbol: Vec<SymbolStats>,
    /// Longest run of winning pairs, exit order.
    pub consecutive_wins: i64,
    /// Longest run of losing pairs, exit order.
    pub consecutive_losses: i64,
    /// Winning run still open at the end of the scan.
    pub current_win_streak: i64,
    /// Losing run still open at the end of the scan.
    pub current_loss_streak: i64,
    /// Win rate over strategy-attributed pairs, basis points.
    pub strategy_win_rate: i64,
    pub strategy_winning_trades: i64,
    pub strategy_losing_trades: i64,
    /// Net P&L over strategy-attributed pairs.
    pub strategy_profit_loss: i128,
    pub strategy_consecutive_wins: i64,
    pub strategy_consecutive_losses: i64,
    /// `win_rate * average_profit / 10000 - loss_rate * average_loss / 10000`.
    pub expectancy: i128,
    /// `gross_profit * 10000 / gross_loss`, 0 when there are no losses.
    pub profit_factor: i128,
    /// Mean pair P&L (truncated toward zero), 0 with no pairs.
    pub average_trade: i128,
    /// Prorated fees summed over all pairs, before the multiplier.
    pub total_fees: i128,
    /// Same as the total net P&L: fees are already inside.
    pub net_profit: i128,
    /// Peak-to-trough drop of cumulative group P&L, entry order.
    pub max_drawdown: i128,
    /// Not computed: always 0.
    pub sharpe_ratio: i128,
    /// `average_profit * 10000 / average_loss`, 0 when there are no losses.
    pub risk_reward_ratio: i128,
    /// `total_trades * 10000 / trading days`, basis points, 0 with no days.
    pub trades_per_day: i64,
    /// Best daily P&L, 0 with no days.
    pub best_day: i128,
    /// Worst daily P&L, 0 with no days.
    pub worst_day: i128,
}

/// Mathematical model of [`Metrics`].
#[verifier::ext_equal]
pub struct MetricsModel {
    pub total_trades: int,
    pub winning_trades: int,
    pub losing_trades: int,
    pub total_profit_loss: int,
    pub win_rate: int,
    pub average_profit: int,
    pub average_loss: int,
    pub largest_win: int,
    pub largest_loss: int,
    pub total_volume: int,
    pub consecutive_wins: int,
    pub consecutive_losses: int,
    pub current_win_streak: int,
    pub current_loss_streak: int,
    pub strategy_win_rate: int,
    pub strategy_winning_trades: int,
    pub strategy_losing_trades: int,
    pub strategy_profit_loss: int,
    pub strategy_consecutive_wins: int,
    pub strategy_consecutive_losses: int,
    pub expectancy: int,
    pub profit_factor: int,
    pub average_trade: int,
    pub total_fees: int,
    pub net_profit: int,
    pub max_drawdown: int,
    pub sharpe_ratio: int,
    pub risk_reward_ratio: int,
    pub trades_per_day: int,
    pub best_day: int,
    pub worst_day: int,
}

impl View for Metrics {
    type V = MetricsModel;

    open spec fn view(&self) -> MetricsModel {
        MetricsModel {
            total_trades: self.total_trades as int,
            winning_trades: self.winning_trades as int,
            losing_trades: self.losing_trades as int,
            total_profit_loss: self.total_profit_loss as int,
            win_rate: self.win_rate as int,
            average_profit: self.average_profit as int,
            average_loss: self.average_loss as int,
            largest_win: self.largest_win as int,
            largest_loss: self.largest_loss as int,
            total_volume: self.total_volume as int,
            consecutive_wins: self.consecutive_wins as int,
            consecutive_losses: self.consecutive_losses as int,
            current_win_streak: self.current_win_streak as int,
            current_loss_streak: self.current_loss_streak as int,
            strategy_win_rate: self.strategy_win_rate as int,
            strategy_winning_trades: self.strategy_winning_trades as int,
            strategy_losing_trades: self.strategy_losing_trades as int,
            strategy_profit_loss: self.strategy_profit_loss as int,
            strategy_consecutive_wins: self.strategy_consecutive_wins as int,
            strategy_consecutive_losses: self.strategy_consecutive_losses as int,
            expectancy: self.expectancy as int,
            profit_factor: self.profit_factor as int,
            average_trade: self.average_trade as int,
            total_fees: self.total_fees as int,
            net_profit: self.net_profit as int,
            max_drawdown: self.max_drawdown as int,
            sharpe_ratio: self.sharpe_ratio as int,
            risk_reward_ratio: self.risk_reward_ratio as int,
            trades_per_day: self.trades_per_day as int,
            best_day: self.best_day as int,
            worst_day: self.worst_day as int,
        }
    }
}

/// Number of winning pairs.
pub open spec fn count_wins(ps: Seq<PairModel>) -> int
    decreases ps.len(),
{
    if ps.len() == 0 {
        0
    } else {
        count_wins(ps.drop_last()) + (if ps.last().net_profit_loss > 0 {
            1int
        } else {
            0
        })
    }
}

/// Number of losing pairs.
pub open spec fn count_losses(ps: Seq<PairModel>) -> int
    decreases ps.len(),
{
    if ps.len() == 0 {
        0
    } else {
        count_losses(ps.drop_last()) + (if ps.last().net_profit_loss < 0 {
            1int
        } else {
            0
        })
    }
}

/// Net P&L summed over the pairs.
pub open spec fn sum_net(ps: Seq<PairModel>) -> int
    decreases ps.len(),
{
    if ps.len() == 0 {
        0
    } else {
        sum_net(ps.drop_last()) + ps.last().net_profit_loss
    }
}

/// Winning P&L summed over the pairs.
pub open spec fn sum_profit(ps: Seq<PairModel>) -> int
    decreases ps.len(),
{
    if ps.len() == 0 {
        0
    } else {
        sum_profit(ps.drop_last()) + (if ps.last().net_profit_loss > 0 {
            ps.last().net_profit_loss
        } else {
            0
        })
    }
}

/// Losing P&L magnitude summed over the pairs (a positive number).
pub open spec fn sum_loss_abs(ps: Seq<PairModel>) -> int
    decreases ps.len(),
{
    if ps.len() == 0 {
        0
    } else {
        sum_loss_abs(ps.drop_last()) + (if ps.last().net_profit_loss < 0 {
            -ps.last().net_profit_loss
        } else {
            0
        })
    }
}

/// Prorated fees summed over the pairs, both sides, before the multiplier.
pub open spec fn sum_pair_fee_total(ps: Seq<PairModel>) -> int
    decreases ps.len(),
{
    if ps.len() == 0 {
        0
    } else {
        sum_pair_fee_total(ps.drop_last()) + ps.last().entry_fees + ps.last().exit_fees
    }
}

/// Streak scan state: longest and current runs of wins and losses.
#[verifier::ext_equal]
pub struct StreakModel {
    pub max_win: int,
    pub max_loss: int,
    pub cur_win: int,
    pub cur_loss: int,
}

/// Scan the pairs in the given order: a win extends the winning run and
/// resets the losing run, a loss the other way; a zero-P&L pair changes
/// nothing.
pub open spec fn streak_fold(ps: Seq<PairModel>) -> StreakModel
    decreases ps.len(),
{
    if ps.len() == 0 {
        StreakModel { max_win: 0, max_loss: 0, cur_win: 0, cur_loss: 0 }
    } else {
        let s = streak_fold(ps.drop_last());
        if ps.last().net_profit_loss > 0 {
            let w = s.cur_win + 1;
            StreakModel {
                max_win: if w > s.max_win {
                    w
                } else {
                    s.max_win
                },
                max_loss: s.max_loss,
                cur_win: w,
                cur_loss: 0,
            }
        } else if ps.last().net_profit_loss < 0 {
            let l = s.cur_loss + 1;
            StreakModel {
                max_win: s.max_win,
                max_loss: if l > s.max_loss {
                    l
                } else {
                    s.max_loss
                },
                cur_win: 0,
                cur_loss: l,
            }
        } else {
            s
        }
    }
}

/// The pairs that carry a strategy attribution, in order.
pub open spec fn with_strategy(ps: Seq<PairModel>) -> Seq<PairModel>
    decreases ps.len(),
{
    if ps.len() == 0 {
        Seq::empty()
    } else if ps.last().strategy_id is Some {
        with_strategy(ps.drop_last()).push(ps.last())
    } else {
        with_strategy(ps.drop_last())
    }
}

/// Largest positive group P&L, 0 with none.
pub open spec fn largest_group_win(gs: Seq<GroupModel>) -> int
    decreases gs.len(),
{
    if gs.len() == 0 {
        0
    } else {
        let r = largest_group_win(gs.drop_last());
        if gs.last().total_pnl > r {
            gs.last().total_pnl
        } else {
            r
        }
    }
}

/// Most negative group P&L, 0 with none.
pub open spec fn largest_group_loss(gs: Seq<GroupModel>) -> int
    decreases gs.len(),
{
    if gs.len() == 0 {
        0
    } else {
        let r = largest_group_loss(gs.drop_last());
        if gs.last().total_pnl < r {
            gs.last().total_pnl
        } else {
            r
        }
    }
}

/// Quantity times price summed over the fills.
pub open spec fn sum_volume(ts: Seq<TradeModel>) -> int
    decreases ts.len(),
{
    if ts.len() == 0 {
        0
    } else {
        sum_volume(ts.drop_last()) + ts.last().quantity * ts.last().price
    }
}

/// One equity mark: a group's entry instant and its attributed P&L.
#[verifier::ext_equal]
pub struct MarkModel {
    pub timestamp: int,
    pub total_pnl: int,
}

/// The equity marks of the groups, in group order.
pub open spec fn marks_of(gs: Seq<GroupModel>) -> Seq<MarkModel> {
    gs.map_values(|g: GroupModel| MarkModel { timestamp: g.entry_trade.timestamp, total_pnl: g.total_pnl })
}

/// Insert a mark behind every mark with a timestamp at or below its own.
pub open spec fn insert_mark_asc(m: MarkModel, s: Seq<MarkModel>) -> Seq<MarkModel>
    decreases s.len(),
{
    if s.len() == 0 {
        seq![m]
    } else if s.last().timestamp <= m.timestamp {
        s.push(m)
    } else {
        insert_mark_asc(m, s.drop_last()).push(s.last())
    }
}

/// Stable sort of the marks by timestamp, oldest first.
pub open spec fn sort_marks_asc(s: Seq<MarkModel>) -> Seq<MarkModel>
    decreases s.len(),
{
    if s.len() == 0 {
        Seq::empty()
    } else {
        insert_mark_asc(s.last(), sort_marks_asc(s.drop_last()))
    }
}

/// Walk the marks accumulating cumulative P&L, its running peak, and the
/// deepest peak-to-trough drop seen so far.
pub open spec fn drawdown_scan(s: Seq<MarkModel>, i: int, running: int, peak: int, maxdd: int) -> int
    decreases s.len() - i,
{
    if i < 0 || i >= s.len() {
        maxdd
    } else {
        let r2 = running + s[i].total_pnl;
        let p2 = if r2 > peak {
            r2
        } else {
            peak
        };
        let dd = p2 - r2;
        let m2 = if dd > maxdd {
            dd
        } else {
            maxdd
        };
        drawdown_scan(s, i + 1, r2, p2, m2)
    }
}

/// Peak-to-trough drop of cumulative group P&L, groups in entry order.
pub open spec fn spec_max_drawdown(gs: Seq<GroupModel>) -> int {
    drawdown_scan(sort_marks_asc(marks_of(gs)), 0, 0, 0, 0)
}

/// Nonnegative division with a zero default: `a / b`, or 0 when `b` is 0.
pub open spec fn div_or_zero(a: int, b: int) -> int {
    if b > 0 {
        a / b
    } else {
        0
    }
}

/// Signed division truncated toward zero, 0 when `b` is 0.
pub open spec fn div_trunc_or_zero(a: int, b: int) -> int {
    if b <= 0 {
        0
    } else if a >= 0 {
        a / b
    } else {
        -((-a) / b)
    }
}

/// Best daily P&L among the rows, 0 with none.
pub open spec fn best_day_of(rows: Seq<DayRowModel>) -> int
    decreases rows.len(),
{
    if rows.len() == 0 {
        0
    } else if rows.len() == 1 {
        rows.last().profit_loss
    } else {
        let r = best_day_of(rows.drop_last());
        if rows.last().profit_loss > r {
            rows.last().profit_loss
        } else {
            r
        }
    }
}

/// Worst daily P&L among the rows, 0 with none.
pub open spec fn worst_day_of(rows: Seq<DayRowModel>) -> int
    decreases rows.len(),
{
    if rows.len() == 0 {
        0
    } else if rows.len() == 1 {
        rows.last().profit_loss
    } else {
        let r = worst_day_of(rows.drop_last());
        if rows.last().profit_loss < r {
            rows.last().profit_loss
        } else {
            r
        }
    }
}

/// The whole summary as a function of the fills, the exit-ordered pairs,
/// and the groups.
pub open spec fn metrics_model(
    tv: Seq<TradeModel>,
    pv: Seq<PairModel>,
    gv: Seq<GroupModel>,
) -> MetricsModel {
    let sorted = sort_pairs_model(pv);
    let wins = count_wins(pv);
    let losses = count_losses(pv);
    let n = pv.len() as int;
    let profit = sum_profit(pv);
    let loss_abs = sum_loss_abs(pv);
    let avg_profit = div_or_zero(profit, wins);
    let avg_loss = div_or_zero(loss_abs, losses);
    let st = streak_fold(sorted);
    let sp = with_strategy(sorted);
    let s_wins = count_wins(sp);
    let s_losses = count_losses(sp);
    let s_st = streak_fold(sp);
    let days = daily_model(tv, pv);
    let win_rate = div_or_zero(wins * (BASIS_POINTS as int), n);
    let loss_rate = div_or_zero(losses * (BASIS_POINTS as int), n);
    MetricsModel {
        total_trades: tv.len() as int,
        winning_trades: wins,
        losing_trades: losses,
        total_profit_loss: sum_net(pv),
        win_rate,
        average_profit: avg_profit,
        average_loss: avg_loss,
        largest_win: largest_group_win(gv),
        largest_loss: largest_group_loss(gv),
        total_volume: sum_volume(tv),
        consecutive_wins: st.max_win,
        consecutive_losses: st.max_loss,
        current_win_streak: st.cur_win,
        current_loss_streak: st.cur_loss,
        strategy_win_rate: div_or_zero(s_wins * (BASIS_POINTS as int), s_wins + s_losses),
        strategy_winning_trades: s_wins,
        strategy_losing_trades: s_losses,
        strategy_profit_loss: sum_net(sp),
        strategy_consecutive_wins: s_st.max_win,
        strategy_consecutive_losses: s_st.max_loss,
        expectancy: div_or_zero(win_rate * avg_profit, BASIS_POINTS as int) - div_or_zero(
            loss_rate * avg_loss,
            BASIS_POINTS as int,
        ),
        profit_factor: if loss_abs > 0 {
            profit * (BASIS_POINTS as int) / loss_abs
        } else {
            0
        },
        average_trade: div_trunc_or_zero(sum_net(pv), n),
        total_fees: sum_pair_fee_total(pv),
        net_profit: sum_net(pv),
        max_drawdown: spec_max_drawdown(gv),
        sharpe_ratio: 0,
        risk_reward_ratio: if avg_loss > 0 {
            avg_profit * (BASIS_POINTS as int) / avg_loss
        } else {
            0
        },
        trades_per_day: div_or_zero(tv.len() * (BASIS_POINTS as int), days.len() as int),
        best_day: best_day_of(days),
        worst_day: worst_day_of(days),
    }
}

/// Insert a pair behind every pair whose exit timestamp is at or below its
/// own: the insertion step of a stable sort by exit time.
pub open spec fn insert_pair_by_exit(p: PairModel, s: Seq<PairModel>) -> Seq<PairModel>
    decreases s.len(),
{
    if s.len() == 0 {
        seq![p]
    } else if s.last().exit_timestamp <= p.exit_timestamp {
        s.push(p)
    } else {
        insert_pair_by_exit(p, s.drop_last()).push(s.last())
    }
}

/// Stable sort of the pairs by exit timestamp: ties keep input order.
pub open spec fn sort_pairs_model(s: Seq<PairModel>) -> Seq<PairModel>
    decreases s.len(),
{
    if s.len() == 0 {
        Seq::empty()
    } else {
        insert_pair_by_exit(s.last(), sort_pairs_model(s.drop_last()))
    }
}

/// `insert_pair_by_exit` splices its pair at the boundary position.
proof fn lemma_insert_pair_at(p: PairModel, s: Seq<PairModel>, pos: int)
    requires
        0 <= pos <= s.len(),
        forall|j: int| pos <= j < s.len() ==> #[trigger] s[j].exit_timestamp > p.exit_timestamp,
        pos > 0 ==> s[pos - 1].exit_timestamp <= p.exit_timestamp,
    ensures
        insert_pair_by_exit(p, s) == s.subrange(0, pos) + seq![p] + s.subrange(pos, s.len() as int),
    decreases s.len(),
{
    if s.len() == 0 {
        assert(insert_pair_by_exit(p, s) =~= s.subrange(0, 0) + seq![p] + s.subrange(0, 0));
    } else if pos == s.len() {
        assert(insert_pair_by_exit(p, s) =~= s.subrange(0, pos) + seq![p] + s.subrange(
            pos,
            s.len() as int,
        ));
    } else {
        assert(s[s.len() - 1].exit_timestamp > p.exit_timestamp);
        lemma_insert_pair_at(p, s.drop_last(), pos);
        assert((s.drop_last().subrange(0, pos) + seq![p] + s.drop_last().subrange(
            pos,
            s.len() - 1,
        )).push(s.last()) =~= s.subrange(0, pos) + seq![p] + s.subrange(pos, s.len() as int));
    }
}

/// Insert one pair into an exit-time-sorted vector, behind every pair whose
/// exit timestamp is at or below its own.
fn insert_pair_by_exit_exec(out: &mut Vec<PairedTrade>, p: PairedTrade)
    ensures
        final(out).deep_view() == insert_pair_by_exit(p@, old(out).deep_view()),
        final(out)@.len() == old(out)@.len() + 1,
{
    let mut pos: usize = out.len();
    while pos > 0 && out[pos - 1].exit_timestamp > p.exit_timestamp
        invariant
            pos <= out@.len(),
            forall|j: int| pos <= j < out@.len() ==> #[trigger] out.deep_view()[j].exit_timestamp
                > p@.exit_timestamp,
        decreases pos,
    {
        pos = pos - 1;
    }
    proof {
        lemma_insert_pair_at(p@, out.deep_view(), pos as int);
    }
    let ghost before = out.deep_view();
    out.insert(pos, p);
    proof {
        assert(out.deep_view() =~= before.subrange(0, pos as int) + seq![p@] + before.subrange(
            pos as int,
            before.len() as int,
        ));
    }
}

/// Stable sort of the pairs by exit timestamp: ties keep input order.
pub fn sort_pairs_by_exit(pairs: &Vec<PairedTrade>) -> (r: Vec<PairedTrade>)
    ensures
        r.deep_view() == sort_pairs_model(pairs.deep_view()),
        r@.len() == pairs@.len(),
        valid_pairs(pairs.deep_view()) ==> valid_pairs(r.deep_view()),
{
    proof {
        if valid_pairs(pairs.deep_view()) {
            lemma_sort_pairs_valid(pairs.deep_view());
        }
    }
    let mut out: Vec<PairedTrade> = Vec::new();
    let n = pairs.len();
    let mut k: usize = 0;
    while k < n
        invariant
            n == pairs@.len(),
            k <= n,
            out@.len() == k,
            out.deep_view() == sort_pairs_model(pairs.deep_view().take(k as int)),
        decreases n - k,
    {
        insert_pair_by_exit_exec(&mut out, pairs[k].clone());
        proof {
            let pv = pairs.deep_view();
            assert(pv.take(k + 1).drop_last() =~= pv.take(k as int));
            assert(pv.take(k + 1).last() == pv[k as int]);
        }
        k = k + 1;
    }
    proof {
        assert(pairs.deep_view().take(n as int) =~= pairs.deep_view());
    }
    out
}


/// Inserting a bounded pair keeps every pair bounded.
proof fn lemma_insert_pair_valid(p: PairModel, s: Seq<PairModel>)
    requires
        crate::trade::valid_pair_model(p),
        valid_pairs(s),
    ensures
        valid_pairs(insert_pair_by_exit(p, s)),
    decreases s.len(),
{
    if s.len() == 0 {
    } else if s.last().exit_timestamp <= p.exit_timestamp {
    } else {
        assert(valid_pairs(s.drop_last())) by {
            assert(forall|i: int| 0 <= i < s.len() - 1 ==> s.drop_last()[i] == s[i]);
        }
        lemma_insert_pair_valid(p, s.drop_last());
    }
}

/// Sorting bounded pairs keeps every pair bounded.
proof fn lemma_sort_pairs_valid(s: Seq<PairModel>)
    requires
        valid_pairs(s),
    ensures
        valid_pairs(sort_pairs_model(s)),
    decreases s.len(),
{
    if s.len() > 0 {
        assert(valid_pairs(s.drop_last())) by {
            assert(forall|i: int| 0 <= i < s.len() - 1 ==> s.drop_last()[i] == s[i]);
        }
        lemma_sort_pairs_valid(s.drop_last());
        lemma_insert_pair_valid(s.last(), sort_pairs_model(s.drop_last()));
    }
}

/// Total holding time of the pairs whose exit does not precede their
/// entry, over the first `n`.
pub open spec fn holding_sum(ps: Seq<PairModel>, n: int) -> int
    decreases n,
{
    if n <= 0 {
        0
    } else {
        holding_sum(ps, n - 1) + (if ps[n - 1].exit_timestamp >= ps[n - 1].entry_timestamp {
            ps[n - 1].exit_timestamp - ps[n - 1].entry_timestamp
        } else {
            0
        })
    }
}

/// Number of pairs whose exit does not precede their entry, over the
/// first `n`.
pub open spec fn holding_count(ps: Seq<PairModel>, n: int) -> int
    decreases n,
{
    if n <= 0 {
        0
    } else {
        holding_count(ps, n - 1) + (if ps[n - 1].exit_timestamp >= ps[n - 1].entry_timestamp {
            1int
        } else {
            0
        })
    }
}

/// Mean holding time of the pairs, in the timestamps' unit. Pairs whose
/// exit precedes their entry are excluded from the average rather than
/// counted as zero; with no countable pair the average is zero.
pub fn average_holding_time(pairs: &Vec<PairedTrade>) -> (r: i128)
    requires
        pairs@.len() <= MAX_PAIR_COUNT,
    ensures
        r as int == div_or_zero(
            holding_sum(pairs.deep_view(), pairs@.len() as int),
            holding_count(pairs.deep_view(), pairs@.len() as int),
        ),
{
    let ghost pv = pairs.deep_view();
    let n = pairs.len();
    let mut total: i128 = 0;
    let mut count: i64 = 0;
    let mut k: usize = 0;
    while k < n
        invariant
            n == pv.len(),
            pv == pairs.deep_view(),
            n <= MAX_PAIR_COUNT,
            k <= n,
            total as int == holding_sum(pv, k as int),
            count as int == holding_count(pv, k as int),
            0 <= count as int <= k as int,
            0 <= total as int <= (k as int) * 40_000_000_000_000_000_000,
        decreases n - k,
    {
        let entry = pairs[k].entry_timestamp;
        let exit = pairs[k].exit_timestamp;
        if exit >= entry {
            total = total + (exit as i128 - entry as i128);
            count = count + 1;
        }
        k = k + 1;
    }
    if count > 0 {
        proof {
            vstd::arithmetic::div_mod::lemma_div_pos_is_pos(total as int, count as int);
            vstd::arithmetic::div_mod::lemma_div_nonincreasing(total as int, count as int);
        }
        ((total as u128) / (count as u128)) as i128
    } else {
        0
    }
}

/// Percentage gains in basis points summed over the first `n` pairs with a
/// positive entry price: `(exit - entry) * 10000 / entry`, truncated
/// toward zero.
pub open spec fn percent_gain_sum(ps: Seq<PairModel>, n: int) -> int
    decreases n,
{
    if n <= 0 {
        0
    } else {
        percent_gain_sum(ps, n - 1) + (if ps[n - 1].entry_price > 0 {
            div_trunc_or_zero(
                (ps[n - 1].exit_price - ps[n - 1].entry_price) * (BASIS_POINTS as int),
                ps[n - 1].entry_price,
            )
        } else {
            0
        })
    }
}

/// Number of pairs with a positive entry price, over the first `n`.
pub open spec fn percent_gain_count(ps: Seq<PairModel>, n: int) -> int
    decreases n,
{
    if n <= 0 {
        0
    } else {
        percent_gain_count(ps, n - 1) + (if ps[n - 1].entry_price > 0 {
            1int
        } else {
            0
        })
    }
}

/// Mean percentage gain of the pairs in basis points, from the raw
/// entry/exit price ratio and independent of the P&L figures. Pairs
/// without a positive entry price are excluded; with none the mean is
/// zero.
pub fn average_percent_gain(pairs: &Vec<PairedTrade>) -> (r: i128)
    requires
        valid_pairs(pairs.deep_view()),
        pairs@.len() <= MAX_PAIR_COUNT,
    ensures
        r as int == div_trunc_or_zero(
            percent_gain_sum(pairs.deep_view(), pairs@.len() as int),
            percent_gain_count(pairs.deep_view(), pairs@.len() as int),
        ),
{
    let ghost pv = pairs.deep_view();
    let n = pairs.len();
    let mut total: i128 = 0;
    let mut count: i64 = 0;
    let mut k: usize = 0;
    while k < n
        invariant
            n == pv.len(),
            pv == pairs.deep_view(),
            valid_pairs(pv),
            n <= MAX_PAIR_COUNT,
            k <= n,
            total as int == percent_gain_sum(pv, k as int),
            count as int == percent_gain_count(pv, k as int),
            0 <= count as int <= k as int,
            -(k as int) * 20_000_000_000_000 <= total as int <= (k as int) * 20_000_000_000_000,
        decreases n - k,
    {
        proof {
            assert(crate::trade::valid_pair_model(pv[k as int]));
        }
        let entry = pairs[k].entry_price;
        let exit = pairs[k].exit_price;
        if entry > 0 {
            let diff = (exit as i128) - (entry as i128);
            let gain = div_trunc(diff * BASIS_POINTS, entry as i128);
            proof {
                assert(-20_000_000_000_000 <= (diff as int) * (BASIS_POINTS as int)
                    <= 20_000_000_000_000) by (nonlinear_arith)
                    requires
                        -2_000_000_000 <= diff as int <= 2_000_000_000,
                        BASIS_POINTS == 10_000,
                ;
            }
            total = total + gain;
            count = count + 1;
        }
        k = k + 1;
    }
    div_trunc(total, count as i128)
}

/// Nonnegative division reported as zero when the divisor is zero.
pub fn div_nonneg(a: i128, b: i128) -> (r: i128)
    requires
        a >= 0,
        b >= 0,
    ensures
        r as int == div_or_zero(a as int, b as int),
        0 <= r <= a,
{
    if b > 0 {
        proof {
            vstd::arithmetic::div_mod::lemma_div_pos_is_pos(a as int, b as int);
            vstd::arithmetic::div_mod::lemma_div_nonincreasing(a as int, b as int);
        }
        ((a as u128) / (b as u128)) as i128
    } else {
        0
    }
}

/// Signed division truncated toward zero, zero when the divisor is zero.
pub fn div_trunc(a: i128, b: i128) -> (r: i128)
    requires
        b >= 0,
        a > i128::MIN,
    ensures
        r as int == div_trunc_or_zero(a as int, b as int),
        a >= 0 ==> 0 <= r <= a,
        a < 0 ==> a <= r <= 0,
{
    if b <= 0 {
        0
    } else if a >= 0 {
        proof {
            vstd::arithmetic::div_mod::lemma_div_pos_is_pos(a as int, b as int);
            vstd::arithmetic::div_mod::lemma_div_nonincreasing(a as int, b as int);
        }
        ((a as u128) / (b as u128)) as i128
    } else {
        proof {
            vstd::arithmetic::div_mod::lemma_div_pos_is_pos(-(a as int), b as int);
            vstd::arithmetic::div_mod::lemma_div_nonincreasing(-(a as int), b as int);
        }
        let m = ((-a) as u128) / (b as u128);
        -(m as i128)
    }
}

/// Counts, sums and fee totals over the pairs, in one pass.
pub fn pair_scalar_sums(pairs: &Vec<PairedTrade>) -> (r: (i64, i64, i128, i128, i128, i128))
    requires
        valid_pairs(pairs.deep_view()),
        pairs@.len() <= MAX_PAIR_COUNT,
    ensures
        r.0 as int == count_wins(pairs.deep_view()),
        r.1 as int == count_losses(pairs.deep_view()),
        r.2 as int == sum_net(pairs.deep_view()),
        r.3 as int == sum_profit(pairs.deep_view()),
        r.4 as int == sum_loss_abs(pairs.deep_view()),
        r.5 as int == sum_pair_fee_total(pairs.deep_view()),
        r.0 >= 0 && r.1 >= 0 && r.3 >= 0 && r.4 >= 0 && r.5 >= 0,
        r.0 as int <= pairs@.len() && r.1 as int <= pairs@.len(),
        -(pairs@.len() as int) * (NET_BOUND as int) <= r.2 as int <= (pairs@.len() as int) * (
        NET_BOUND as int),
        r.3 as int <= (pairs@.len() as int) * (NET_BOUND as int),
        r.4 as int <= (pairs@.len() as int) * (NET_BOUND as int),
        r.5 as int <= (pairs@.len() as int) * (NET_BOUND as int),
{
    let ghost pv = pairs.deep_view();
    let n = pairs.len();
    let mut wins: i64 = 0;
    let mut losses: i64 = 0;
    let mut net: i128 = 0;
    let mut profit: i128 = 0;
    let mut loss_abs: i128 = 0;
    let mut fees: i128 = 0;
    let mut k: usize = 0;
    while k < n
        invariant
            n == pv.len(),
            pv == pairs.deep_view(),
            valid_pairs(pv),
            n <= MAX_PAIR_COUNT,
            k <= n,
            0 <= wins <= k,
            0 <= losses <= k,
            wins as int == count_wins(pv.take(k as int)),
            losses as int == count_losses(pv.take(k as int)),
            net as int == sum_net(pv.take(k as int)),
            profit as int == sum_profit(pv.take(k as int)),
            loss_abs as int == sum_loss_abs(pv.take(k as int)),
            fees as int == sum_pair_fee_total(pv.take(k as int)),
            -(k as int) * (NET_BOUND as int) <= net as int <= (k as int) * (NET_BOUND as int),
            0 <= profit as int <= (k as int) * (NET_BOUND as int),
            0 <= loss_abs as int <= (k as int) * (NET_BOUND as int),
            0 <= fees as int <= (k as int) * (NET_BOUND as int),
        decreases n - k,
    {
        proof {
            assert(pv.take(k + 1).drop_last() =~= pv.take(k as int));
            assert(pv.take(k + 1).last() == pv[k as int]);
            assert(crate::trade::valid_pair_model(pv[k as int]));
        }
        let p_net = pairs[k].net_profit_loss;
        net = net + p_net;
        if p_net > 0 {
            wins = wins + 1;
            profit = profit + p_net;
        } else if p_net < 0 {
            losses = losses + 1;
            loss_abs = loss_abs - p_net;
        }
        fees = fees + (pairs[k].entry_fees as i128) + (pairs[k].exit_fees as i128);
        k = k + 1;
    }
    proof {
        assert(pv.take(n as int) =~= pv);
    }
    (wins, losses, net, profit, loss_abs, fees)
}

/// Longest and current win/loss runs over the pairs in the given order.
fn streak_scan(pairs: &Vec<PairedTrade>) -> (r: (i64, i64, i64, i64))
    requires
        pairs@.len() <= MAX_PAIR_COUNT,
    ensures
        ({
            let st = streak_fold(pairs.deep_view());
            r.0 as int == st.max_win && r.1 as int == st.max_loss && r.2 as int == st.cur_win
                && r.3 as int == st.cur_loss
        }),
{
    let ghost pv = pairs.deep_view();
    let n = pairs.len();
    let mut max_win: i64 = 0;
    let mut max_loss: i64 = 0;
    let mut cur_win: i64 = 0;
    let mut cur_loss: i64 = 0;
    let mut k: usize = 0;
    while k < n
        invariant
            n == pv.len(),
            pv == pairs.deep_view(),
            n <= MAX_PAIR_COUNT,
            k <= n,
            0 <= cur_win <= k,
            0 <= cur_loss <= k,
            0 <= max_win <= k,
            0 <= max_loss <= k,
            ({
                let st = streak_fold(pv.take(k as int));
                max_win as int == st.max_win && max_loss as int == st.max_loss && cur_win as int
                    == st.cur_win && cur_loss as int == st.cur_loss
            }),
        decreases n - k,
    {
        proof {
            assert(pv.take(k + 1).drop_last() =~= pv.take(k as int));
            assert(pv.take(k + 1).last() == pv[k as int]);
        }
        let p_net = pairs[k].net_profit_loss;
        if p_net > 0 {
            cur_win = cur_win + 1;
            cur_loss = 0;
            if cur_win > max_win {
                max_win = cur_win;
            }
        } else if p_net < 0 {
            cur_loss = cur_loss + 1;
            cur_win = 0;
            if cur_loss > max_loss {
                max_loss = cur_loss;
            }
        }
        k = k + 1;
    }
    proof {
        assert(pv.take(n as int) =~= pv);
    }
    (max_win, max_loss, cur_win, cur_loss)
}

/// The pairs that carry a strategy attribution, in order.
fn filter_strategy_pairs(pairs: &Vec<PairedTrade>) -> (r: Vec<PairedTrade>)
    requires
        valid_pairs(pairs.deep_view()),
    ensures
        r.deep_view() == with_strategy(pairs.deep_view()),
        valid_pairs(r.deep_view()),
        r@.len() <= pairs@.len(),
{
    let ghost pv = pairs.deep_view();
    let n = pairs.len();
    let mut out: Vec<PairedTrade> = Vec::new();
    let mut k: usize = 0;
    while k < n
        invariant
            n == pv.len(),
            pv == pairs.deep_view(),
            valid_pairs(pv),
            k <= n,
            out@.len() <= k,
            out.deep_view() == with_strategy(pv.take(k as int)),
            valid_pairs(out.deep_view()),
        decreases n - k,
    {
        let ghost before = out.deep_view();
        proof {
            assert(pv.take(k + 1).drop_last() =~= pv.take(k as int));
            assert(pv.take(k + 1).last() == pv[k as int]);
            assert(crate::trade::valid_pair_model(pv[k as int]));
        }
        if pairs[k].strategy_id.is_some() {
            out.push(pairs[k].clone());
            proof {
                assert(out.deep_view() =~= before.push(pv[k as int]));
                assert forall|i: int| 0 <= i < out.deep_view().len() implies
                    crate::trade::valid_pair_model(#[trigger] out.deep_view()[i]) by {
                    if i < before.len() {
                        assert(out.deep_view()[i] == before[i]);
                    }
                }
            }
        }
        k = k + 1;
    }
    proof {
        assert(pv.take(n as int) =~= pv);
    }
    out
}

/// Largest winning and losing group P&L.
fn group_extremes(groups: &Vec<PositionGroup>) -> (r: (i128, i128))
    ensures
        r.0 as int == largest_group_win(groups.deep_view()),
        r.1 as int == largest_group_loss(groups.deep_view()),
{
    let ghost gv = groups.deep_view();
    let n = groups.len();
    let mut best: i128 = 0;
    let mut worst: i128 = 0;
    let mut k: usize = 0;
    while k < n
        invariant
            n == gv.len(),
            gv == groups.deep_view(),
            k <= n,
            best as int == largest_group_win(gv.take(k as int)),
            worst as int == largest_group_loss(gv.take(k as int)),
        decreases n - k,
    {
        proof {
            assert(gv.take(k + 1).drop_last() =~= gv.take(k as int));
            assert(gv.take(k + 1).last() == gv[k as int]);
        }
        let pnl = groups[k].total_pnl;
        if pnl > best {
            best = pnl;
        }
        if pnl < worst {
            worst = pnl;
        }
        k = k + 1;
    }
    proof {
        assert(gv.take(n as int) =~= gv);
    }
    (best, worst)
}

/// One equity mark of a group: its entry instant and attributed P&L.
#[derive(Debug)]
pub struct GroupMark {
    pub timestamp: i64,
    pub total_pnl: i128,
}

impl View for GroupMark {
    type V = MarkModel;

    open spec fn view(&self) -> MarkModel {
        MarkModel { timestamp: self.timestamp as int, total_pnl: self.total_pnl as int }
    }
}

impl DeepView for GroupMark {
    type V = MarkModel;

    open spec fn deep_view(&self) -> MarkModel {
        self.view()
    }
}

/// `insert_mark_asc` splices its mark at the boundary position.
proof fn lemma_insert_mark_at(m: MarkModel, s: Seq<MarkModel>, pos: int)
    requires
        0 <= pos <= s.len(),
        forall|j: int| pos <= j < s.len() ==> #[trigger] s[j].timestamp > m.timestamp,
        pos > 0 ==> s[pos - 1].timestamp <= m.timestamp,
    ensures
        insert_mark_asc(m, s) == s.subrange(0, pos) + seq![m] + s.subrange(pos, s.len() as int),
    decreases s.len(),
{
    if s.len() == 0 {
        assert(insert_mark_asc(m, s) =~= s.subrange(0, 0) + seq![m] + s.subrange(0, 0));
    } else if pos == s.len() {
        assert(insert_mark_asc(m, s) =~= s.subrange(0, pos) + seq![m] + s.subrange(
            pos,
            s.len() as int,
        ));
    } else {
        assert(s[s.len() - 1].timestamp > m.timestamp);
        lemma_insert_mark_at(m, s.drop_last(), pos);
        assert((s.drop_last().subrange(0, pos) + seq![m] + s.drop_last().subrange(
            pos,
            s.len() - 1,
        )).push(s.last()) =~= s.subrange(0, pos) + seq![m] + s.subrange(pos, s.len() as int));
    }
}

/// Insert one mark behind every mark with a timestamp at or below its own.
fn insert_mark(out: &mut Vec<GroupMark>, m: GroupMark)
    ensures
        final(out).deep_view() == insert_mark_asc(m@, old(out).deep_view()),
        final(out)@.len() == old(out)@.len() + 1,
{
    let mut pos: usize = out.len();
    while pos > 0 && out[pos - 1].timestamp > m.timestamp
        invariant
            pos <= out@.len(),
            forall|j: int| pos <= j < out@.len() ==> #[trigger] out.deep_view()[j].timestamp
                > m@.timestamp,
        decreases pos,
    {
        pos = pos - 1;
    }
    proof {
        lemma_insert_mark_at(m@, out.deep_view(), pos as int);
    }
    let ghost before = out.deep_view();
    out.insert(pos, m);
    proof {
        assert(out.deep_view() =~= before.subrange(0, pos as int) + seq![m@] + before.subrange(
            pos as int,
            before.len() as int,
        ));
    }
}

/// Peak-to-trough drop of cumulative group P&L, groups in entry order.
fn compute_max_drawdown(groups: &Vec<PositionGroup>) -> (r: i128)
    requires
        groups@.len() <= MAX_PAIR_COUNT,
        forall|i: int| 0 <= i < groups@.len() ==> -(GROUP_PNL_BOUND as int)
            <= (#[trigger] groups.deep_view()[i]).total_pnl <= GROUP_PNL_BOUND as int,
    ensures
        r as int == spec_max_drawdown(groups.deep_view()),
{
    let ghost gv = groups.deep_view();
    let n = groups.len();
    let mut marks: Vec<GroupMark> = Vec::new();
    let mut k: usize = 0;
    while k < n
        invariant
            n == gv.len(),
            gv == groups.deep_view(),
            n <= MAX_PAIR_COUNT,
            forall|i: int| 0 <= i < gv.len() ==> -(GROUP_PNL_BOUND as int)
                <= (#[trigger] gv[i]).total_pnl <= GROUP_PNL_BOUND as int,
            k <= n,
            marks.deep_view() == sort_marks_asc(marks_of(gv.take(k as int))),
            marks@.len() == k,
            forall|i: int| 0 <= i < marks@.len() ==> -(GROUP_PNL_BOUND as int)
                <= (#[trigger] marks.deep_view()[i]).total_pnl <= GROUP_PNL_BOUND as int,
        decreases n - k,
    {
        let ghost marks_pre = marks.deep_view();
        insert_mark(
            &mut marks,
            GroupMark { timestamp: groups[k].entry_trade.timestamp, total_pnl: groups[k].total_pnl },
        );
        proof {
            let mk = marks_of(gv.take(k + 1));
            assert(mk.drop_last() =~= marks_of(gv.take(k as int)));
            assert(mk.last() == MarkModel {
                timestamp: gv[k as int].entry_trade.timestamp,
                total_pnl: gv[k as int].total_pnl,
            });
            assert(marks.deep_view() == insert_mark_asc(mk.last(), sort_marks_asc(mk.drop_last())));
            assert(sort_marks_asc(marks_of(gv.take(k + 1))) == insert_mark_asc(
                mk.last(),
                sort_marks_asc(mk.drop_last()),
            ));
            lemma_insert_mark_bounds(mk.last(), marks_pre);
            assert forall|i: int| 0 <= i < marks@.len() implies -(GROUP_PNL_BOUND as int)
                <= (#[trigger] marks.deep_view()[i]).total_pnl <= GROUP_PNL_BOUND as int by {
                assert(marks.deep_view()[i] == mk.last() || marks_pre.contains(
                    marks.deep_view()[i],
                ));
                if marks.deep_view()[i] != mk.last() {
                    let w = choose|w: int| 0 <= w < marks_pre.len() && marks_pre[w]
                        == marks.deep_view()[i];
                }
            }
        }
        k = k + 1;
    }
    proof {
        assert(gv.take(n as int) =~= gv);
    }
    let total = marks.len();
    let mut running: i128 = 0;
    let mut peak: i128 = 0;
    let mut maxdd: i128 = 0;
    let mut j: usize = 0;
    while j < total
        invariant
            total == marks@.len(),
            total <= MAX_PAIR_COUNT,
            forall|i: int| 0 <= i < marks@.len() ==> -(GROUP_PNL_BOUND as int)
                <= (#[trigger] marks.deep_view()[i]).total_pnl <= GROUP_PNL_BOUND as int,
            j <= total,
            -(j as int) * (GROUP_PNL_BOUND as int) <= running as int <= (j as int) * (
            GROUP_PNL_BOUND as int),
            0 <= peak as int <= (j as int) * (GROUP_PNL_BOUND as int),
            running <= peak,
            0 <= maxdd as int <= 2 * (j as int) * (GROUP_PNL_BOUND as int),
            drawdown_scan(marks.deep_view(), j as int, running as int, peak as int, maxdd as int)
                == drawdown_scan(marks.deep_view(), 0, 0, 0, 0),
        decreases total - j,
    {
        running = running + marks[j].total_pnl;
        if running > peak {
            peak = running;
        }
        let dd = peak - running;
        if dd > maxdd {
            maxdd = dd;
        }
        j = j + 1;
    }
    proof {
        assert(sort_marks_asc(marks_of(gv)) == marks.deep_view());
    }
    maxdd
}

/// Every mark of an insertion result is the inserted mark or one of the
/// original sequence.
proof fn lemma_insert_mark_bounds(m: MarkModel, s: Seq<MarkModel>)
    ensures
        forall|i: int| 0 <= i < insert_mark_asc(m, s).len() ==> insert_mark_asc(m, s)[i] == m
            || s.contains(#[trigger] insert_mark_asc(m, s)[i]),
    decreases s.len(),
{
    if s.len() == 0 {
    } else if s.last().timestamp <= m.timestamp {
        assert forall|i: int| 0 <= i < s.push(m).len() implies s.push(m)[i] == m || s.contains(
            #[trigger] s.push(m)[i],
        ) by {
            if i < s.len() {
                assert(s[i] == s.push(m)[i]);
            }
        }
    } else {
        lemma_insert_mark_bounds(m, s.drop_last());
        let inner = insert_mark_asc(m, s.drop_last());
        assert forall|i: int| 0 <= i < inner.push(s.last()).len() implies inner.push(s.last())[i]
            == m || s.contains(#[trigger] inner.push(s.last())[i]) by {
            let x = inner.push(s.last())[i];
            if i < inner.len() {
                assert(inner[i] == x);
                if x != m {
                    assert(s.drop_last().contains(x));
                    let v = choose|v: int| 0 <= v < s.drop_last().len() && s.drop_last()[v] == x;
                    assert(s[v] == x);
                }
            } else {
                assert(x == s.last());
                assert(s[s.len() - 1] == x);
            }
        }
    }
}

/// Quantity times price summed over the fills.
fn compute_volume(trades: &Vec<Trade>) -> (r: i128)
    requires
        valid_trades(trades.deep_view()),
        trades@.len() <= MAX_PAIR_COUNT,
    ensures
        r as int == sum_volume(trades.deep_view()),
{
    let ghost tv = trades.deep_view();
    let n = trades.len();
    let mut vol: i128 = 0;
    let mut k: usize = 0;
    while k < n
        invariant
            n == tv.len(),
            tv == trades.deep_view(),
            valid_trades(tv),
            n <= MAX_PAIR_COUNT,
            k <= n,
            vol as int == sum_volume(tv.take(k as int)),
            -(k as int) * 1_000_000_000_000_000_000 <= vol as int <= (k as int)
                * 1_000_000_000_000_000_000,
        decreases n - k,
    {
        proof {
            assert(tv.take(k + 1).drop_last() =~= tv.take(k as int));
            assert(tv.take(k + 1).last() == tv[k as int]);
            assert(crate::trade::valid_trade_model(tv[k as int]));
            assert(-1_000_000_000_000_000_000 <= (tv[k as int].quantity) * (tv[k as int].price)
                <= 1_000_000_000_000_000_000) by (nonlinear_arith)
                requires
                    0 <= tv[k as int].quantity <= 1_000_000_000,
                    -1_000_000_000 <= tv[k as int].price <= 1_000_000_000,
            ;
        }
        vol = vol + (trades[k].quantity as i128) * (trades[k].price as i128);
        k = k + 1;
    }
    proof {
        assert(tv.take(n as int) =~= tv);
    }
    vol
}

/// The portfolio summary over the fills, the matched pairs and the
/// position groups. The result is exactly [`metrics_model`]; the per-symbol
/// list is left empty.
#[verifier::rlimit(100)]
pub fn compute_metrics(
    trades: &Vec<Trade>,
    pairs: &Vec<PairedTrade>,
    groups: &Vec<PositionGroup>,
) -> (r: Metrics)
    requires
        valid_trades(trades.deep_view()),
        valid_pairs(pairs.deep_view()),
        trades@.len() <= MAX_PAIR_COUNT,
        pairs@.len() <= MAX_PAIR_COUNT,
        groups@.len() <= MAX_PAIR_COUNT,
        forall|i: int| 0 <= i < groups@.len() ==> -(GROUP_PNL_BOUND as int)
            <= (#[trigger] groups.deep_view()[i]).total_pnl <= GROUP_PNL_BOUND as int,
        forall|i: int| 0 <= i < trades@.len() ==> (#[trigger] trades.deep_view()[i]).timestamp >= 0,
        forall|i: int| 0 <= i < pairs@.len() ==> (#[trigger] pairs.deep_view()[i]).exit_timestamp
            >= 0,
    ensures
        r@ == metrics_model(trades.deep_view(), pairs.deep_view(), groups.deep_view()),
        r.trades_by_symbol@.len() == 0,
{
    let ghost tv = trades.deep_view();
    let ghost pv = pairs.deep_view();
    let ghost gv = groups.deep_view();
    let (wins, losses, net, profit, loss_abs, fees) = pair_scalar_sums(pairs);
    let n_pairs = pairs.len();
    let sorted = sort_pairs_by_exit(pairs);
    let (max_win, max_loss, cur_win, cur_loss) = streak_scan(&sorted);
    let strat = filter_strategy_pairs(&sorted);
    let (s_wins, s_losses, s_net, _s_profit, _s_loss_abs, _s_fees) = pair_scalar_sums(&strat);
    let (s_max_win, s_max_loss, _s_cur_win, _s_cur_loss) = streak_scan(&strat);
    let (largest_win, largest_loss) = group_extremes(groups);
    let volume = compute_volume(trades);
    let maxdd = compute_max_drawdown(groups);
    let days = compute_daily_pnl(trades, pairs);
    let mut best_day: i128 = 0;
    let mut worst_day: i128 = 0;
    let n_days = days.len();
    let mut d: usize = 0;
    while d < n_days
        invariant
            n_days == days@.len(),
            d <= n_days,
            best_day as int == best_day_of(days.deep_view().take(d as int)),
            worst_day as int == worst_day_of(days.deep_view().take(d as int)),
        decreases n_days - d,
    {
        proof {
            let dv = days.deep_view();
            assert(dv.take(d + 1).drop_last() =~= dv.take(d as int));
            assert(dv.take(d + 1).last() == dv[d as int]);
        }
        if d == 0 {
            best_day = days[d].profit_loss;
            worst_day = days[d].profit_loss;
        } else {
            if days[d].profit_loss > best_day {
                best_day = days[d].profit_loss;
            }
            if days[d].profit_loss < worst_day {
                worst_day = days[d].profit_loss;
            }
        }
        d = d + 1;
    }
    proof {
        assert(days.deep_view().take(n_days as int) =~= days.deep_view());
    }
    proof {
        assert((wins as int) * (BASIS_POINTS as int) <= 10_000_000_000 && (losses as int) * (
        BASIS_POINTS as int) <= 10_000_000_000) by (nonlinear_arith)
            requires
                0 <= wins as int <= 1_000_000,
                0 <= losses as int <= 1_000_000,
        ;
    }
    let win_rate = div_nonneg((wins as i128) * BASIS_POINTS, n_pairs as i128);
    let loss_rate = div_nonneg((losses as i128) * BASIS_POINTS, n_pairs as i128);
    let avg_profit = div_nonneg(profit, wins as i128);
    let avg_loss = div_nonneg(loss_abs, losses as i128);
    proof {
        assert(0 <= (win_rate as int) * (avg_profit as int)
            <= 3_000_000_000_000_000_000_000_000_000_000_000_000 && 0 <= (loss_rate as int) * (
        avg_loss as int) <= 3_000_000_000_000_000_000_000_000_000_000_000_000) by (nonlinear_arith)
            requires
                0 <= win_rate as int <= 10_000_000_000,
                0 <= loss_rate as int <= 10_000_000_000,
                0 <= avg_profit as int <= 300_000_000_000_000_000_000_000_000,
                0 <= avg_loss as int <= 300_000_000_000_000_000_000_000_000,
        ;
    }
    let expectancy = div_nonneg(win_rate * avg_profit, BASIS_POINTS) - div_nonneg(
        loss_rate * avg_loss,
        BASIS_POINTS,
    );
    let profit_factor = if loss_abs > 0 {
        ((profit as u128) * (BASIS_POINTS as u128) / (loss_abs as u128)) as i128
    } else {
        0
    };
    let risk_reward = if avg_loss > 0 {
        ((avg_profit as u128) * (BASIS_POINTS as u128) / (avg_loss as u128)) as i128
    } else {
        0
    };
    let strategy_win_rate = div_nonneg(
        (s_wins as i128) * BASIS_POINTS,
        (s_wins as i128) + (s_losses as i128),
    );
    let average_trade = div_trunc(net, n_pairs as i128);
    let trades_per_day = div_nonneg((trades.len() as i128) * BASIS_POINTS, n_days as i128);
    let m = Metrics {
        total_trades: trades.len() as i64,
        winning_trades: wins,
        losing_trades: losses,
        total_profit_loss: net,
        win_rate: win_rate as i64,
        average_profit: avg_profit,
        average_loss: avg_loss,
        largest_win,
        largest_loss,
        total_volume: volume,
        trades_by_symbol: Vec::new(),
        consecutive_wins: max_win,
        consecutive_losses: max_loss,
        current_win_streak: cur_win,
        current_loss_streak: cur_loss,
        strategy_win_rate: strategy_win_rate as i64,
        strategy_winning_trades: s_wins,
        strategy_losing_trades: s_losses,
        strategy_profit_loss: s_net,
        strategy_consecutive_wins: s_max_win,
        strategy_consecutive_losses: s_max_loss,
        expectancy,
        profit_factor,
        average_trade,
        total_fees: fees,
        net_profit: net,
        max_drawdown: maxdd,
        sharpe_ratio: 0,
        risk_reward_ratio: risk_reward,
        trades_per_day: trades_per_day as i64,
        best_day,
        worst_day,
    };
    proof {
        assert(m@ =~= metrics_model(tv, pv, gv));
    }
    m
}

} // verus!
