//! Per-day aggregation of the ledger: realized P&L of the pairs by exit
//! day, and fill counts by trade day.
//!
//! Days are numbered by dividing the nonnegative timestamp by the seconds
//! of a day, so the day number is the calendar day of a UTC epoch instant.
//! The rows are built ascending by day, one row per day, and presented
//! newest first.

use vstd::prelude::*;

use crate::positions::MAX_PAIR_COUNT;
use crate::trade::NET_BOUND;
use crate::trade::PairModel;
use crate::trade::PairedTrade;
use crate::trade::Trade;
use crate::trade::TradeModel;
use crate::trade::TradeStatus;
use crate::trade::valid_pairs;

verus! {

/// Seconds in one calendar day.
pub const SECONDS_PER_DAY: i64 = 86_400;

/// Blanket bound on an accumulated per-day P&L:
/// `MAX_PAIR_COUNT * NET_BOUND`.
pub const DAY_PNL_BOUND: i128 = 600_000_000_000_000_000_000_000_000;

/// Realized P&L and fill count of one calendar day.
#[derive(Debug)]
pub struct DailyPnL {
    /// Day number: the timestamp divided by the seconds of a day.
    pub date: i64,
    /// Net P&L of every pair whose exit falls on the day.
    pub profit_loss: i128,
    /// Number of executed fills on the day.
    pub trade_count: i64,
}

/// Mathematical model of a [`DailyPnL`] row.
#[verifier::ext_equal]
pub struct DayRowModel {
    pub date: int,
    pub profit_loss: int,
    pub trade_count: int,
}

impl View for DailyPnL {
    type V = DayRowModel;

    open spec fn view(&self) -> DayRowModel {
        DayRowModel {
            date: self.date as int,
            profit_loss: self.profit_loss as int,
            trade_count: self.trade_count as int,
        }
    }
}

impl DeepView for DailyPnL {
    type V = DayRowModel;

    open spec fn deep_view(&self) -> DayRowModel {
        self.view()
    }
}

impl Clone for DailyPnL {
    /// A clone carries every field over unchanged.
    fn clone(&self) -> (r: Self)
        ensures
            r == *self,
    {
        DailyPnL { date: self.date, profit_loss: self.profit_loss, trade_count: self.trade_count }
    }
}

/// The calendar day of a nonnegative instant.
pub open spec fn day_of(ts: int) -> int {
    ts / (SECONDS_PER_DAY as int)
}

/// Add a contribution to the row of `day`, keeping the rows ascending by
/// day with one row per day: an existing row absorbs the contribution, a
/// missing day gets a fresh row at its place.
pub open spec fn upsert_day(rows: Seq<DayRowModel>, day: int, pnl: int, cnt: int) -> Seq<DayRowModel>
    decreases rows.len(),
{
    if rows.len() == 0 {
        seq![DayRowModel { date: day, profit_loss: pnl, trade_count: cnt }]
    } else if rows.last().date == day {
        rows.drop_last().push(
            DayRowModel {
                date: day,
                profit_loss: rows.last().profit_loss + pnl,
                trade_count: rows.last().trade_count + cnt,
            },
        )
    } else if rows.last().date < day {
        rows.push(DayRowModel { date: day, profit_loss: pnl, trade_count: cnt })
    } else {
        upsert_day(rows.drop_last(), day, pnl, cnt).push(rows.last())
    }
}

/// Fold the executed fills into per-day fill counts.
pub open spec fn fold_trade_days(ts: Seq<TradeModel>) -> Seq<DayRowModel>
    decreases ts.len(),
{
    if ts.len() == 0 {
        Seq::empty()
    } else if ts.last().status == TradeStatus::Filled {
        upsert_day(fold_trade_days(ts.drop_last()), day_of(ts.last().timestamp), 0, 1)
    } else {
        fold_trade_days(ts.drop_last())
    }
}

/// Fold the pairs' net P&L into the rows, by exit day.
pub open spec fn fold_pair_days(rows: Seq<DayRowModel>, ps: Seq<PairModel>) -> Seq<DayRowModel>
    decreases ps.len(),
{
    if ps.len() == 0 {
        rows
    } else {
        upsert_day(
            fold_pair_days(rows, ps.drop_last()),
            day_of(ps.last().exit_timestamp),
            ps.last().net_profit_loss,
            0,
        )
    }
}

/// The per-day report: fill counts of every trade day, plus pair P&L of
/// every exit day, newest day first.
pub open spec fn daily_model(ts: Seq<TradeModel>, ps: Seq<PairModel>) -> Seq<DayRowModel> {
    fold_pair_days(fold_trade_days(ts), ps).reverse()
}

/// Magnitude bounds on the rows: what at most `k` folded contributions can
/// accumulate.
pub open spec fn rows_bounded(rows: Seq<DayRowModel>, k: int) -> bool {
    forall|i: int| 0 <= i < rows.len() ==> -k * (NET_BOUND as int) <= (#[trigger] rows[i]).profit_loss
        <= k * (NET_BOUND as int) && 0 <= rows[i].trade_count <= k
}

/// One more contribution keeps the rows within the next bound.
proof fn lemma_upsert_bounded(rows: Seq<DayRowModel>, day: int, pnl: int, cnt: int, k: int)
    requires
        rows_bounded(rows, k),
        k >= 0,
        -(NET_BOUND as int) <= pnl <= NET_BOUND as int,
        0 <= cnt <= 1,
    ensures
        rows_bounded(upsert_day(rows, day, pnl, cnt), k + 1),
    decreases rows.len(),
{
    let r = upsert_day(rows, day, pnl, cnt);
    if rows.len() == 0 {
        assert(r[0].profit_loss == pnl && r[0].trade_count == cnt);
    } else if rows.last().date == day {
        assert forall|i: int| 0 <= i < r.len() implies -(k + 1) * (NET_BOUND as int)
            <= (#[trigger] r[i]).profit_loss <= (k + 1) * (NET_BOUND as int) && 0
            <= r[i].trade_count <= k + 1 by {
            if i < r.len() - 1 {
                assert(r[i] == rows[i]);
            }
        }
    } else if rows.last().date < day {
        assert forall|i: int| 0 <= i < r.len() implies -(k + 1) * (NET_BOUND as int)
            <= (#[trigger] r[i]).profit_loss <= (k + 1) * (NET_BOUND as int) && 0
            <= r[i].trade_count <= k + 1 by {
            if i < r.len() - 1 {
                assert(r[i] == rows[i]);
            }
        }
    } else {
        assert(rows_bounded(rows.drop_last(), k)) by {
            assert(forall|i: int| 0 <= i < rows.len() - 1 ==> rows.drop_last()[i] == rows[i]);
        }
        lemma_upsert_bounded(rows.drop_last(), day, pnl, cnt, k);
        let inner = upsert_day(rows.drop_last(), day, pnl, cnt);
        assert forall|i: int| 0 <= i < r.len() implies -(k + 1) * (NET_BOUND as int)
            <= (#[trigger] r[i]).profit_loss <= (k + 1) * (NET_BOUND as int) && 0
            <= r[i].trade_count <= k + 1 by {
            if i < r.len() - 1 {
                assert(r[i] == inner[i]);
            } else {
                assert(r[i] == rows.last());
            }
        }
    }
}

/// `upsert_day` lands at the boundary position: behind every row of an
/// earlier or equal day, merging into an equal day's row.
proof fn lemma_upsert_day_at(rows: Seq<DayRowModel>, day: int, pnl: int, cnt: int, pos: int)
    requires
        0 <= pos <= rows.len(),
        forall|j: int| pos <= j < rows.len() ==> (#[trigger] rows[j]).date > day,
        pos > 0 ==> rows[pos - 1].date <= day,
    ensures
        pos > 0 && rows[pos - 1].date == day ==> upsert_day(rows, day, pnl, cnt) == rows.update(
            pos - 1,
            DayRowModel {
                date: day,
                profit_loss: rows[pos - 1].profit_loss + pnl,
                trade_count: rows[pos - 1].trade_count + cnt,
            },
        ),
        !(pos > 0 && rows[pos - 1].date == day) ==> upsert_day(rows, day, pnl, cnt) == rows.insert(
            pos,
            DayRowModel { date: day, profit_loss: pnl, trade_count: cnt },
        ),
    decreases rows.len(),
{
    if rows.len() == 0 {
        assert(upsert_day(rows, day, pnl, cnt) =~= rows.insert(
            0,
            DayRowModel { date: day, profit_loss: pnl, trade_count: cnt },
        ));
    } else if pos == rows.len() {
        if rows.last().date == day {
            assert(upsert_day(rows, day, pnl, cnt) =~= rows.update(
                pos - 1,
                DayRowModel {
                    date: day,
                    profit_loss: rows[pos - 1].profit_loss + pnl,
                    trade_count: rows[pos - 1].trade_count + cnt,
                },
            ));
        } else {
            assert(rows.last().date < day);
            assert(upsert_day(rows, day, pnl, cnt) =~= rows.insert(
                pos,
                DayRowModel { date: day, profit_loss: pnl, trade_count: cnt },
            ));
        }
    } else {
        assert(rows[rows.len() - 1].date > day);
        assert(forall|j: int| pos <= j < rows.len() - 1 ==> (#[trigger] rows.drop_last()[j]).date
            > day) by {
            assert(forall|j: int| 0 <= j < rows.len() - 1 ==> rows.drop_last()[j] == rows[j]);
        }
        lemma_upsert_day_at(rows.drop_last(), day, pnl, cnt, pos);
        if pos > 0 && rows[pos - 1].date == day {
            assert(upsert_day(rows, day, pnl, cnt) =~= rows.update(
                pos - 1,
                DayRowModel {
                    date: day,
                    profit_loss: rows[pos - 1].profit_loss + pnl,
                    trade_count: rows[pos - 1].trade_count + cnt,
                },
            ));
        } else {
            assert(upsert_day(rows, day, pnl, cnt) =~= rows.insert(
                pos,
                DayRowModel { date: day, profit_loss: pnl, trade_count: cnt },
            ));
        }
    }
}

/// Add one contribution to the rows of the running per-day report.
fn upsert_day_row(rows: &mut Vec<DailyPnL>, day: i64, pnl: i128, cnt: i64)
    requires
        rows_bounded(old(rows).deep_view(), 2_000_000),
        -(NET_BOUND) <= pnl <= NET_BOUND,
        0 <= cnt <= 1,
    ensures
        final(rows).deep_view() == upsert_day(old(rows).deep_view(), day as int, pnl as int, cnt as int),
        final(rows)@.len() <= old(rows)@.len() + 1,
{
    let mut pos: usize = rows.len();
    while pos > 0 && rows[pos - 1].date > day
        invariant
            pos <= rows@.len(),
            forall|j: int| pos <= j < rows@.len() ==> (#[trigger] rows.deep_view()[j]).date
                > day as int,
        decreases pos,
    {
        pos = pos - 1;
    }
    proof {
        lemma_upsert_day_at(rows.deep_view(), day as int, pnl as int, cnt as int, pos as int);
    }
    let ghost before = rows.deep_view();
    if pos > 0 && rows[pos - 1].date == day {
        proof {
            assert(-2_000_000 * (NET_BOUND as int) <= before[pos - 1].profit_loss
                <= 2_000_000 * (NET_BOUND as int) && 0 <= before[pos - 1].trade_count
                <= 2_000_000);
        }
        let old_row = rows.remove(pos - 1);
        rows.insert(
            pos - 1,
            DailyPnL {
                date: day,
                profit_loss: old_row.profit_loss + pnl,
                trade_count: old_row.trade_count + cnt,
            },
        );
        proof {
            assert(rows.deep_view() =~= before.update(
                pos - 1,
                DayRowModel {
                    date: day as int,
                    profit_loss: before[pos - 1].profit_loss + pnl,
                    trade_count: before[pos - 1].trade_count + cnt,
                },
            ));
        }
    } else {
        rows.insert(pos, DailyPnL { date: day, profit_loss: pnl, trade_count: cnt });
        proof {
            assert(rows.deep_view() =~= before.insert(
                pos as int,
                DayRowModel { date: day as int, profit_loss: pnl as int, trade_count: cnt as int },
            ));
        }
    }
}

/// The per-day report of the ledger: one row per day, newest first, with
/// the day's executed-fill count and the net P&L of the pairs that exited
/// on the day. The result is exactly [`daily_model`].
#[verifier::rlimit(50)]
pub fn compute_daily_pnl(trades: &Vec<Trade>, pairs: &Vec<PairedTrade>) -> (r: Vec<DailyPnL>)
    requires
        valid_pairs(pairs.deep_view()),
        trades@.len() <= MAX_PAIR_COUNT,
        pairs@.len() <= MAX_PAIR_COUNT,
        forall|i: int| 0 <= i < trades@.len() ==> (#[trigger] trades.deep_view()[i]).timestamp >= 0,
        forall|i: int| 0 <= i < pairs@.len() ==> (#[trigger] pairs.deep_view()[i]).exit_timestamp
            >= 0,
    ensures
        r.deep_view() == daily_model(trades.deep_view(), pairs.deep_view()),
{
    let tv_len = trades.len();
    let pv_len = pairs.len();
    let ghost tv = trades.deep_view();
    let ghost pv = pairs.deep_view();
    let mut rows: Vec<DailyPnL> = Vec::new();
    let mut k: usize = 0;
    while k < tv_len
        invariant
            tv_len == tv.len(),
            tv == trades.deep_view(),
            tv.len() <= MAX_PAIR_COUNT,
            forall|i: int| 0 <= i < tv.len() ==> (#[trigger] tv[i]).timestamp >= 0,
            k <= tv_len,
            rows.deep_view() == fold_trade_days(tv.take(k as int)),
            rows_bounded(rows.deep_view(), k as int),
        decreases tv_len - k,
    {
        proof {
            assert(tv.take(k + 1).drop_last() =~= tv.take(k as int));
            assert(tv.take(k + 1).last() == tv[k as int]);
            assert(tv[k as int].timestamp >= 0);
        }
        if matches!(trades[k].status, TradeStatus::Filled) {
            let day = ((trades[k].timestamp as u64) / (SECONDS_PER_DAY as u64)) as i64;
            proof {
                lemma_upsert_bounded(rows.deep_view(), day as int, 0, 1, k as int);
                lemma_rows_bounded_mono(rows.deep_view(), k as int, 2_000_000);
            }
            upsert_day_row(&mut rows, day, 0, 1);
        } else {
            proof {
                lemma_rows_bounded_mono(rows.deep_view(), k as int, k + 1);
            }
        }
        k = k + 1;
    }
    proof {
        assert(tv.take(tv_len as int) =~= tv);
    }
    let ghost rows0 = rows.deep_view();
    let mut p: usize = 0;
    while p < pv_len
        invariant
            pv_len == pv.len(),
            pv == pairs.deep_view(),
            pv.len() <= MAX_PAIR_COUNT,
            tv_len == tv.len(),
            tv.len() <= MAX_PAIR_COUNT,
            valid_pairs(pv),
            forall|i: int| 0 <= i < pv.len() ==> (#[trigger] pv[i]).exit_timestamp >= 0,
            p <= pv_len,
            rows0 == fold_trade_days(tv),
            rows.deep_view() == fold_pair_days(rows0, pv.take(p as int)),
            rows_bounded(rows.deep_view(), tv_len + p),
        decreases pv_len - p,
    {
        proof {
            assert(pv.take(p + 1).drop_last() =~= pv.take(p as int));
            assert(pv.take(p + 1).last() == pv[p as int]);
            assert(crate::trade::valid_pair_model(pv[p as int]));
        }
        let day = ((pairs[p].exit_timestamp as u64) / (SECONDS_PER_DAY as u64)) as i64;
        proof {
            lemma_upsert_bounded(
                rows.deep_view(),
                day as int,
                pv[p as int].net_profit_loss,
                0,
                tv_len + p,
            );
            lemma_rows_bounded_mono(rows.deep_view(), (tv_len + p) as int, 2_000_000);
        }
        upsert_day_row(&mut rows, day, pairs[p].net_profit_loss, 0);
        p = p + 1;
    }
    proof {
        assert(pv.take(pv_len as int) =~= pv);
    }
    let mut out: Vec<DailyPnL> = Vec::new();
    let total = rows.len();
    let mut q: usize = 0;
    while q < total
        invariant
            total == rows@.len(),
            q <= total,
            out@.len() == q,
            forall|i: int| 0 <= i < q ==> #[trigger] out.deep_view()[i] == rows.deep_view()[total
                - 1 - i],
        decreases total - q,
    {
        let ghost out_before = out.deep_view();
        out.push(rows[total - 1 - q].clone());
        proof {
            assert forall|i: int| 0 <= i < q + 1 implies #[trigger] out.deep_view()[i]
                == rows.deep_view()[total - 1 - i] by {
                if i < q {
                    assert(out.deep_view()[i] == out_before[i]);
                } else {
                    assert(out.deep_view()[i] == rows.deep_view()[total - 1 - q]);
                }
            }
        }
        q = q + 1;
    }
    proof {
        assert(out.deep_view() =~= rows.deep_view().reverse());
    }
    out
}

/// A bound on the rows also holds for any larger count.
pub proof fn lemma_rows_bounded_mono(rows: Seq<DayRowModel>, k: int, m: int)
    requires
        rows_bounded(rows, k),
        0 <= k <= m,
    ensures
        rows_bounded(rows, m),
{
    assert forall|i: int| 0 <= i < rows.len() implies -m * (NET_BOUND as int)
        <= (#[trigger] rows[i]).profit_loss <= m * (NET_BOUND as int) && 0
        <= rows[i].trade_count <= m by {
        assert(-k * (NET_BOUND as int) <= rows[i].profit_loss <= k * (NET_BOUND as int));
        assert(k * (NET_BOUND as int) <= m * (NET_BOUND as int)) by (nonlinear_arith)
            requires
                0 <= k <= m,
        ;
    }
}

/// Per-day net P&L of the pairs alone, ascending by day: the input to the
/// equity curve.
pub fn daily_pair_totals(pairs: &Vec<PairedTrade>) -> (r: Vec<DailyPnL>)
    requires
        valid_pairs(pairs.deep_view()),
        pairs@.len() <= MAX_PAIR_COUNT,
        forall|i: int| 0 <= i < pairs@.len() ==> (#[trigger] pairs.deep_view()[i]).exit_timestamp
            >= 0,
    ensures
        r.deep_view() == fold_pair_days(Seq::empty(), pairs.deep_view()),
        rows_bounded(r.deep_view(), pairs@.len() as int),
        r@.len() <= pairs@.len(),
{
    let pv_len = pairs.len();
    let ghost pv = pairs.deep_view();
    let mut rows: Vec<DailyPnL> = Vec::new();
    let mut p: usize = 0;
    while p < pv_len
        invariant
            pv_len == pv.len(),
            pv == pairs.deep_view(),
            pv.len() <= MAX_PAIR_COUNT,
            valid_pairs(pv),
            forall|i: int| 0 <= i < pv.len() ==> (#[trigger] pv[i]).exit_timestamp >= 0,
            p <= pv_len,
            rows@.len() <= p,
            rows.deep_view() == fold_pair_days(Seq::empty(), pv.take(p as int)),
            rows_bounded(rows.deep_view(), p as int),
        decreases pv_len - p,
    {
        proof {
            assert(pv.take(p + 1).drop_last() =~= pv.take(p as int));
            assert(pv.take(p + 1).last() == pv[p as int]);
            assert(crate::trade::valid_pair_model(pv[p as int]));
        }
        let day = ((pairs[p].exit_timestamp as u64) / (SECONDS_PER_DAY as u64)) as i64;
        proof {
            lemma_upsert_bounded(rows.deep_view(), day as int, pv[p as int].net_profit_loss, 0, p as int);
            lemma_rows_bounded_mono(rows.deep_view(), p as int, 2_000_000);
        }
        upsert_day_row(&mut rows, day, pairs[p].net_profit_loss, 0);
        p = p + 1;
    }
    proof {
        assert(pv.take(pv_len as int) =~= pv);
    }
    rows
}

/// The pairs whose exit day falls inside the closed day range.
pub open spec fn pairs_in_day_range(
    ps: Seq<PairModel>,
    first_day: int,
    last_day: int,
) -> Seq<PairModel>
    decreases ps.len(),
{
    if ps.len() == 0 {
        Seq::empty()
    } else if first_day <= day_of(ps.last().exit_timestamp) <= last_day {
        pairs_in_day_range(ps.drop_last(), first_day, last_day).push(ps.last())
    } else {
        pairs_in_day_range(ps.drop_last(), first_day, last_day)
    }
}

/// Keep the pairs whose exit falls on a day inside the closed range
/// `[first_day, last_day]`, in order. Composes with every analyzer to give
/// it an inclusive date-range scope.
pub fn filter_pairs_by_day_range(
    pairs: &Vec<PairedTrade>,
    first_day: i64,
    last_day: i64,
) -> (r: Vec<PairedTrade>)
    requires
        forall|i: int| 0 <= i < pairs@.len() ==> (#[trigger] pairs.deep_view()[i]).exit_timestamp
            >= 0,
    ensures
        r.deep_view() == pairs_in_day_range(pairs.deep_view(), first_day as int, last_day as int),
        r@.len() <= pairs@.len(),
        valid_pairs(pairs.deep_view()) ==> valid_pairs(r.deep_view()),
{
    let ghost pv = pairs.deep_view();
    let n = pairs.len();
    let mut out: Vec<PairedTrade> = Vec::new();
    let mut k: usize = 0;
    while k < n
        invariant
            n == pv.len(),
            pv == pairs.deep_view(),
            forall|i: int| 0 <= i < pv.len() ==> (#[trigger] pv[i]).exit_timestamp >= 0,
            k <= n,
            out@.len() <= k,
            out.deep_view() == pairs_in_day_range(pv.take(k as int), first_day as int, last_day as int),
            valid_pairs(pv) ==> valid_pairs(out.deep_view()),
        decreases n - k,
    {
        let ghost before = out.deep_view();
        proof {
            assert(pv.take(k + 1).drop_last() =~= pv.take(k as int));
            assert(pv.take(k + 1).last() == pv[k as int]);
            assert(pv[k as int].exit_timestamp >= 0);
        }
        let day = ((pairs[k].exit_timestamp as u64) / (SECONDS_PER_DAY as u64)) as i64;
        if first_day <= day && day <= last_day {
            out.push(pairs[k].clone());
            proof {
                assert(out.deep_view() =~= before.push(pv[k as int]));
                if valid_pairs(pv) {
                    assert(crate::trade::valid_pair_model(pv[k as int]));
                    assert forall|i: int| 0 <= i < out.deep_view().len() implies
                        crate::trade::valid_pair_model(#[trigger] out.deep_view()[i]) by {
                        if i < before.len() {
                            assert(out.deep_view()[i] == before[i]);
                        }
                    }
                }
            }
        }
        k = k + 1;
    }
    proof {
        assert(pv.take(n as int) =~= pv);
    }
    out
}

} // verus!