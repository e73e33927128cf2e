//! The equity curve and drawdown analyzer: a daily cumulative-equity
//! timeline built from the pairs' per-exit-day net P&L, walked in ascending
//! day order.
//!
//! The walk tracks cumulative P&L, its running peak and the drawdown below
//! the peak; the longest contiguous run of days spent in drawdown; the
//! largest uninterrupted surge (consecutive winning days' gain); and the
//! longest winning and losing day streaks. Each day is then annotated with
//! whether it falls inside the deepest-drawdown run, the best surge, or the
//! longest winning or losing streak.

use vstd::prelude::*;

use crate::daily::DayRowModel;
use crate::daily::daily_pair_totals;
use crate::daily::fold_pair_days;
use crate::positions::MAX_PAIR_COUNT;
use crate::trade::PairedTrade;
use crate::trade::valid_pairs;

verus! {

/// One day of the equity timeline.
#[derive(Debug)]
pub struct EquityPoint {
    /// Day number (timestamp divided by the seconds of a day).
    pub date: i64,
    /// Net P&L of the pairs that exited on the day.
    pub daily_pnl: i128,
    /// Cumulative net P&L through the day.
    pub cumulative: i128,
    /// Running peak of the cumulative P&L.
    pub peak: i128,
    /// `peak - cumulative`.
    pub drawdown: i128,
    /// `drawdown * 10000 / peak` when the peak is positive, else 0. The
    /// peak starts at zero and never drops, so it is never negative and
    /// the percentage needs no negative-peak sign handling.
    pub drawdown_pct: i128,
    /// The day lies in the longest contiguous drawdown run.
    pub is_max_drawdown: bool,
    /// The day lies in the best surge.
    pub is_best_surge: bool,
    /// The day lies in the longest winning-day streak.
    pub is_winning_streak: bool,
    /// The day lies in the longest losing-day streak.
    pub is_losing_streak: bool,
}

/// Mathematical model of an [`EquityPoint`].
#[verifier::ext_equal]
pub struct PointModel {
    pub date: int,
    pub daily_pnl: int,
    pub cumulative: int,
    pub peak: int,
    pub drawdown: int,
    pub drawdown_pct: int,
    pub is_max_drawdown: bool,
    pub is_best_surge: bool,
    pub is_winning_streak: bool,
    pub is_losing_streak: bool,
}

impl View for EquityPoint {
    type V = PointModel;

    open spec fn view(&self) -> PointModel {
        PointModel {
            date: self.date as int,
            daily_pnl: self.daily_pnl as int,
            cumulative: self.cumulative as int,
            peak: self.peak as int,
            drawdown: self.drawdown as int,
            drawdown_pct: self.drawdown_pct as int,
            is_max_drawdown: self.is_max_drawdown,
            is_best_surge: self.is_best_surge,
            is_winning_streak: self.is_winning_streak,
            is_losing_streak: self.is_losing_streak,
        }
    }
}

impl DeepView for EquityPoint {
    type V = PointModel;

    open spec fn deep_view(&self) -> PointModel {
        self.view()
    }
}

/// A day range `[start, end]`, empty when `len == 0`.
#[verifier::ext_equal]
pub struct RangeModel {
    pub len: int,
    pub start: int,
    pub end: int,
}

/// The walk's summary state.
#[verifier::ext_equal]
pub struct EquityStateModel {
    pub cumulative: int,
    pub peak: int,
    /// Current contiguous run of days with positive drawdown.
    pub dd_run: RangeModel,
    /// Longest such run seen.
    pub best_dd: RangeModel,
    /// Current run of winning days and its accumulated gain.
    pub surge_run: RangeModel,
    pub surge_gain: int,
    /// Best surge seen and its gain.
    pub best_surge: RangeModel,
    pub best_surge_gain: int,
    /// Current and longest winning-day streaks.
    pub win_run: RangeModel,
    pub best_win: RangeModel,
    /// Current and longest losing-day streaks.
    pub loss_run: RangeModel,
    pub best_loss: RangeModel,
}

/// The state before any day.
pub open spec fn equity_init() -> EquityStateModel {
    let empty = RangeModel { len: 0, start: 0, end: 0 };
    EquityStateModel {
        cumulative: 0,
        peak: 0,
        dd_run: empty,
        best_dd: empty,
        surge_run: empty,
        surge_gain: 0,
        best_surge: empty,
        best_surge_gain: 0,
        win_run: empty,
        best_win: empty,
        loss_run: empty,
        best_loss: empty,
    }
}

/// Extend a run with a day, or start a new one at it.
pub open spec fn extend_run(r: RangeModel, day: int) -> RangeModel {
    if r.len == 0 {
        RangeModel { len: 1, start: day, end: day }
    } else {
        RangeModel { len: r.len + 1, start: r.start, end: day }
    }
}

/// The longer of two runs (the earlier one wins ties).
pub open spec fn better_run(best: RangeModel, cur: RangeModel) -> RangeModel {
    if cur.len > best.len {
        cur
    } else {
        best
    }
}

/// One step of the walk.
pub open spec fn equity_step(st: EquityStateModel, row: DayRowModel) -> EquityStateModel {
    let empty = RangeModel { len: 0, start: 0, end: 0 };
    let cum = st.cumulative + row.profit_loss;
    let peak = if cum > st.peak {
        cum
    } else {
        st.peak
    };
    let dd = peak - cum;
    let dd_run = if dd > 0 {
        extend_run(st.dd_run, row.date)
    } else {
        empty
    };
    let best_dd = better_run(st.best_dd, dd_run);
    let surge_run = if row.profit_loss > 0 {
        extend_run(st.surge_run, row.date)
    } else {
        empty
    };
    let surge_gain = if row.profit_loss > 0 {
        st.surge_gain + row.profit_loss
    } else {
        0
    };
    let surge_better = surge_gain > st.best_surge_gain;
    let win_run = if row.profit_loss > 0 {
        extend_run(st.win_run, row.date)
    } else {
        empty
    };
    let loss_run = if row.profit_loss < 0 {
        extend_run(st.loss_run, row.date)
    } else {
        empty
    };
    EquityStateModel {
        cumulative: cum,
        peak,
        dd_run,
        best_dd,
        surge_run,
        surge_gain,
        best_surge: if surge_better {
            surge_run
        } else {
            st.best_surge
        },
        best_surge_gain: if surge_better {
            surge_gain
        } else {
            st.best_surge_gain
        },
        win_run,
        best_win: better_run(st.best_win, win_run),
        loss_run,
        best_loss: better_run(st.best_loss, loss_run),
    }
}

/// The walk over a prefix of the rows.
pub open spec fn equity_fold(rows: Seq<DayRowModel>) -> EquityStateModel
    decreases rows.len(),
{
    if rows.len() == 0 {
        equity_init()
    } else {
        equity_step(equity_fold(rows.drop_last()), rows.last())
    }
}

/// Whether a day lies inside a run's range.
pub open spec fn in_range(r: RangeModel, day: int) -> bool {
    r.len > 0 && r.start <= day <= r.end
}

/// The annotated point of one day, given the final summary.
pub open spec fn point_model_of(
    rows: Seq<DayRowModel>,
    i: int,
    summary: EquityStateModel,
) -> PointModel {
    let st = equity_fold(rows.take(i + 1));
    let row = rows[i];
    PointModel {
        date: row.date,
        daily_pnl: row.profit_loss,
        cumulative: st.cumulative,
        peak: st.peak,
        drawdown: st.peak - st.cumulative,
        drawdown_pct: if st.peak > 0 {
            (st.peak - st.cumulative) * 10_000 / st.peak
        } else {
            0
        },
        is_max_drawdown: in_range(summary.best_dd, row.date),
        is_best_surge: in_range(summary.best_surge, row.date),
        is_winning_streak: in_range(summary.best_win, row.date),
        is_losing_streak: in_range(summary.best_loss, row.date),
    }
}

/// The full curve of the ledger's pairs: the per-day rows ascending by day,
/// annotated by the walk.
pub open spec fn equity_model(pv: Seq<crate::trade::PairModel>) -> Seq<PointModel> {
    let rows = fold_pair_days(Seq::empty(), pv);
    let summary = equity_fold(rows);
    Seq::new(rows.len(), |i: int| point_model_of(rows, i, summary))
}

/// The curve's summary figures.
#[derive(Debug)]
pub struct EquityCurveData {
    /// One point per day with any pair exits, ascending by day.
    pub points: Vec<EquityPoint>,
    /// Deepest drawdown run's day count.
    pub max_drawdown_days: i64,
    /// Best surge's accumulated gain.
    pub best_surge_gain: i128,
    /// Longest winning-day streak length.
    pub longest_win_streak: i64,
    /// Longest losing-day streak length.
    pub longest_loss_streak: i64,
}

/// Exec mirror of the walk state.
struct EquityState {
    cumulative: i128,
    peak: i128,
    dd_len: i64,
    dd_start: i64,
    dd_end: i64,
    best_dd_len: i64,
    best_dd_start: i64,
    best_dd_end: i64,
    surge_len: i64,
    surge_start: i64,
    surge_end: i64,
    surge_gain: i128,
    best_surge_len: i64,
    best_surge_start: i64,
    best_surge_end: i64,
    best_surge_gain: i128,
    win_len: i64,
    win_start: i64,
    win_end: i64,
    best_win_len: i64,
    best_win_start: i64,
    best_win_end: i64,
    loss_len: i64,
    loss_start: i64,
    loss_end: i64,
    best_loss_len: i64,
    best_loss_start: i64,
    best_loss_end: i64,
}

impl EquityState {
    /// The model this exec state stands for.
    spec fn model(&self) -> EquityStateModel {
        EquityStateModel {
            cumulative: self.cumulative as int,
            peak: self.peak as int,
            dd_run: RangeModel {
                len: self.dd_len as int,
                start: self.dd_start as int,
                end: self.dd_end as int,
            },
            best_dd: RangeModel {
                len: self.best_dd_len as int,
                start: self.best_dd_start as int,
                end: self.best_dd_end as int,
            },
            surge_run: RangeModel {
                len: self.surge_len as int,
                start: self.surge_start as int,
                end: self.surge_end as int,
            },
            surge_gain: self.surge_gain as int,
            best_surge: RangeModel {
                len: self.best_surge_len as int,
                start: self.best_surge_start as int,
                end: self.best_surge_end as int,
            },
            best_surge_gain: self.best_surge_gain as int,
            win_run: RangeModel {
                len: self.win_len as int,
                start: self.win_start as int,
                end: self.win_end as int,
            },
            best_win: RangeModel {
                len: self.best_win_len as int,
                start: self.best_win_start as int,
                end: self.best_win_end as int,
            },
            loss_run: RangeModel {
                len: self.loss_len as int,
                start: self.loss_start as int,
                end: self.loss_end as int,
            },
            best_loss: RangeModel {
                len: self.best_loss_len as int,
                start: self.best_loss_start as int,
                end: self.best_loss_end as int,
            },
        }
    }
}

/// Magnitudes every reachable state obeys after `k` days.
spec fn state_bounded(st: EquityStateModel, k: int) -> bool {
    &&& -k * (crate::daily::DAY_PNL_BOUND as int) <= st.cumulative <= k * (
    crate::daily::DAY_PNL_BOUND as int)
    &&& 0 <= st.peak <= k * (crate::daily::DAY_PNL_BOUND as int)
    &&& st.cumulative <= st.peak
    &&& 0 <= st.surge_gain <= k * (crate::daily::DAY_PNL_BOUND as int)
    &&& 0 <= st.best_surge_gain <= k * (crate::daily::DAY_PNL_BOUND as int)
    &&& 0 <= st.dd_run.len <= k && 0 <= st.best_dd.len <= k
    &&& 0 <= st.surge_run.len <= k && 0 <= st.best_surge.len <= k
    &&& 0 <= st.win_run.len <= k && 0 <= st.best_win.len <= k
    &&& 0 <= st.loss_run.len <= k && 0 <= st.best_loss.len <= k
}

/// Build the daily equity curve of the pairs: one annotated point per day
/// with any pair exits, ascending by day, plus the walk's summary figures.
/// The points are exactly [`equity_model`].
#[verifier::rlimit(100)]
pub fn compute_equity_curve(pairs: &Vec<PairedTrade>) -> (r: EquityCurveData)
    requires
        valid_pairs(pairs.deep_view()),
        pairs@.len() <= MAX_PAIR_COUNT,
        forall|i: int| 0 <= i < pairs@.len() ==> (#[trigger] pairs.deep_view()[i]).exit_timestamp
            >= 0,
    ensures
        r.points.deep_view() == equity_model(pairs.deep_view()),
        ({
            let summary = equity_fold(fold_pair_days(Seq::empty(), pairs.deep_view()));
            &&& r.max_drawdown_days as int == summary.best_dd.len
            &&& r.best_surge_gain as int == summary.best_surge_gain
            &&& r.longest_win_streak as int == summary.best_win.len
            &&& r.longest_loss_streak as int == summary.best_loss.len
        }),
{
    let rows = daily_pair_totals(pairs);
    proof {
        crate::daily::lemma_rows_bounded_mono(
            rows.deep_view(),
            pairs@.len() as int,
            MAX_PAIR_COUNT as int,
        );
    }
    let ghost rv = rows.deep_view();
    let n = rows.len();
    let mut st = EquityState {
        cumulative: 0,
        peak: 0,
        dd_len: 0,
        dd_start: 0,
        dd_end: 0,
        best_dd_len: 0,
        best_dd_start: 0,
        best_dd_end: 0,
        surge_len: 0,
        surge_start: 0,
        surge_end: 0,
        surge_gain: 0,
        best_surge_len: 0,
        best_surge_start: 0,
        best_surge_end: 0,
        best_surge_gain: 0,
        win_len: 0,
        win_start: 0,
        win_end: 0,
        best_win_len: 0,
        best_win_start: 0,
        best_win_end: 0,
        loss_len: 0,
        loss_start: 0,
        loss_end: 0,
        best_loss_len: 0,
        best_loss_start: 0,
        best_loss_end: 0,
    };
    proof {
        assert(st.model() =~= equity_init());
    }
    let mut k: usize = 0;
    while k < n
        invariant
            n == rv.len(),
            rv == rows.deep_view(),
            n <= MAX_PAIR_COUNT,
            crate::daily::rows_bounded(rv, MAX_PAIR_COUNT as int),
            k <= n,
            st.model() == equity_fold(rv.take(k as int)),
            state_bounded(st.model(), k as int),
        decreases n - k,
    {
        proof {
            assert(rv.take(k + 1).drop_last() =~= rv.take(k as int));
            assert(rv.take(k + 1).last() == rv[k as int]);
            assert(-(MAX_PAIR_COUNT as int) * (crate::trade::NET_BOUND as int)
                <= rv[k as int].profit_loss <= (MAX_PAIR_COUNT as int) * (
            crate::trade::NET_BOUND as int));
        }
        let row_pnl = rows[k].profit_loss;
        let row_date = rows[k].date;
        st.cumulative = st.cumulative + row_pnl;
        if st.cumulative > st.peak {
            st.peak = st.cumulative;
        }
        let dd = st.peak - st.cumulative;
        if dd > 0 {
            if st.dd_len == 0 {
                st.dd_start = row_date;
            }
            st.dd_len = st.dd_len + 1;
            st.dd_end = row_date;
        } else {
            st.dd_len = 0;
            st.dd_start = 0;
            st.dd_end = 0;
        }
        if st.dd_len > st.best_dd_len {
            st.best_dd_len = st.dd_len;
            st.best_dd_start = st.dd_start;
            st.best_dd_end = st.dd_end;
        }
        if row_pnl > 0 {
            if st.surge_len == 0 {
                st.surge_start = row_date;
            }
            st.surge_len = st.surge_len + 1;
            st.surge_end = row_date;
            st.surge_gain = st.surge_gain + row_pnl;
        } else {
            st.surge_len = 0;
            st.surge_start = 0;
            st.surge_end = 0;
            st.surge_gain = 0;
        }
        if st.surge_gain > st.best_surge_gain {
            st.best_surge_len = st.surge_len;
            st.best_surge_start = st.surge_start;
            st.best_surge_end = st.surge_end;
            st.best_surge_gain = st.surge_gain;
        }
        if row_pnl > 0 {
            if st.win_len == 0 {
                st.win_start = row_date;
            }
            st.win_len = st.win_len + 1;
            st.win_end = row_date;
        } else {
            st.win_len = 0;
            st.win_start = 0;
            st.win_end = 0;
        }
        if st.win_len > st.best_win_len {
            st.best_win_len = st.win_len;
            st.best_win_start = st.win_start;
            st.best_win_end = st.win_end;
        }
        if row_pnl < 0 {
            if st.loss_len == 0 {
                st.loss_start = row_date;
            }
            st.loss_len = st.loss_len + 1;
            st.loss_end = row_date;
        } else {
            st.loss_len = 0;
            st.loss_start = 0;
            st.loss_end = 0;
        }
        if st.loss_len > st.best_loss_len {
            st.best_loss_len = st.loss_len;
            st.best_loss_start = st.loss_start;
            st.best_loss_end = st.loss_end;
        }
        proof {
            assert(st.model() =~= equity_step(equity_fold(rv.take(k as int)), rv[k as int]));
        }
        k = k + 1;
    }
    proof {
        assert(rv.take(n as int) =~= rv);
    }
    let ghost summary = equity_fold(rv);
    let mut points: Vec<EquityPoint> = Vec::new();
    let mut cum: i128 = 0;
    let mut peak: i128 = 0;
    let mut j: usize = 0;
    while j < n
        invariant
            n == rv.len(),
            rv == rows.deep_view(),
            n <= MAX_PAIR_COUNT,
            crate::daily::rows_bounded(rv, MAX_PAIR_COUNT as int),
            summary == equity_fold(rv),
            st.model() == summary,
            state_bounded(summary, n as int),
            j <= n,
            points@.len() == j,
            cum as int == equity_fold(rv.take(j as int)).cumulative,
            peak as int == equity_fold(rv.take(j as int)).peak,
            state_bounded(equity_fold(rv.take(j as int)), j as int),
            forall|i: int| 0 <= i < j ==> #[trigger] points.deep_view()[i] == point_model_of(
                rv,
                i,
                summary,
            ),
        decreases n - j,
    {
        proof {
            assert(rv.take(j + 1).drop_last() =~= rv.take(j as int));
            assert(rv.take(j + 1).last() == rv[j as int]);
        }
        let ghost pts_before = points.deep_view();
        proof {
            assert(-(MAX_PAIR_COUNT as int) * (crate::trade::NET_BOUND as int)
                <= rv[j as int].profit_loss <= (MAX_PAIR_COUNT as int) * (
            crate::trade::NET_BOUND as int));
        }
        let row_pnl = rows[j].profit_loss;
        let row_date = rows[j].date;
        cum = cum + row_pnl;
        if cum > peak {
            peak = cum;
        }
        let dd = peak - cum;
        let dd_pct: i128 = if peak > 0 {
            (((dd as u128) * 10_000u128) / (peak as u128)) as i128
        } else {
            0
        };
        let is_max_drawdown = st.best_dd_len > 0 && st.best_dd_start <= row_date && row_date
            <= st.best_dd_end;
        let is_best_surge = st.best_surge_len > 0 && st.best_surge_start <= row_date && row_date
            <= st.best_surge_end;
        let is_winning_streak = st.best_win_len > 0 && st.best_win_start <= row_date && row_date
            <= st.best_win_end;
        let is_losing_streak = st.best_loss_len > 0 && st.best_loss_start <= row_date && row_date
            <= st.best_loss_end;
        points.push(
            EquityPoint {
                date: row_date,
                daily_pnl: row_pnl,
                cumulative: cum,
                peak,
                drawdown: dd,
                drawdown_pct: dd_pct,
                is_max_drawdown,
                is_best_surge,
                is_winning_streak,
                is_losing_streak,
            },
        );
        proof {
            assert(equity_fold(rv.take(j + 1)) == equity_step(
                equity_fold(rv.take(j as int)),
                rv[j as int],
            ));
            assert forall|i: int| 0 <= i < j + 1 implies #[trigger] points.deep_view()[i]
                == point_model_of(rv, i, summary) by {
                if i < j {
                    assert(points.deep_view()[i] == pts_before[i]);
                } else {
                    assert(points.deep_view()[i] =~= point_model_of(rv, i, summary));
                }
            }
        }
        j = j + 1;
    }
    proof {
        assert(points.deep_view() =~= equity_model(pairs.deep_view()));
    }
    EquityCurveData {
        points,
        max_drawdown_days: st.best_dd_len,
        best_surge_gain: st.best_surge_gain,
        longest_win_streak: st.best_win_len,
        longest_loss_streak: st.best_loss_len,
    }
}

} // verus!
