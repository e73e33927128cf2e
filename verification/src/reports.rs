//! Presentation reports over the matcher's output: per-underlying P&L,
//! the most recent realized trades, and each fill with the pairs it
//! entered or exited.

use vstd::prelude::*;

use crate::positions::MAX_PAIR_COUNT;
use crate::symbols::spec_underlying_symbol;
use crate::symbols::get_underlying_symbol;
use crate::trade::NET_BOUND;
use crate::trade::PairModel;
use crate::trade::PairedTrade;
use crate::trade::Side;
use crate::trade::Trade;
use crate::trade::TradeModel;
use crate::trade::opt_model;
use crate::trade::valid_pairs;
use crate::metrics::div_or_zero;

verus! {

/// One realized trade for the recent-trades view.
#[derive(Debug)]
pub struct RecentTrade {
    pub symbol: String,
    pub entry_timestamp: i64,
    pub exit_timestamp: i64,
    pub quantity: u64,
    pub entry_price: i64,
    pub exit_price: i64,
    pub net_profit_loss: i128,
    pub strategy_id: Option<i64>,
}

/// Mathematical model of a [`RecentTrade`].
#[verifier::ext_equal]
pub struct RecentModel {
    pub symbol: Seq<char>,
    pub entry_timestamp: int,
    pub exit_timestamp: int,
    pub quantity: int,
    pub entry_price: int,
    pub exit_price: int,
    pub net_profit_loss: int,
    pub strategy_id: Option<int>,
}

impl View for RecentTrade {
    type V = RecentModel;

    open spec fn view(&self) -> RecentModel {
        RecentModel {
            symbol: self.symbol@,
            entry_timestamp: self.entry_timestamp as int,
            exit_timestamp: self.exit_timestamp as int,
            quantity: self.quantity as int,
            entry_price: self.entry_price as int,
            exit_price: self.exit_price as int,
            net_profit_loss: self.net_profit_loss as int,
            strategy_id: opt_model(self.strategy_id),
        }
    }
}

impl DeepView for RecentTrade {
    type V = RecentModel;

    open spec fn deep_view(&self) -> RecentModel {
        self.view()
    }
}

/// Insert a pair behind every pair with an exit timestamp at or above its
/// own: stable descending order by exit time.
pub open spec fn insert_pair_desc(p: PairModel, s: Seq<PairModel>) -> Seq<PairModel>
    decreases s.len(),
{
    if s.len() == 0 {
        seq![p]
    } else if s.last().exit_timestamp >= p.exit_timestamp {
        s.push(p)
    } else {
        insert_pair_desc(p, s.drop_last()).push(s.last())
    }
}

/// Stable sort of the pairs by exit timestamp, newest first.
pub open spec fn sort_pairs_desc(s: Seq<PairModel>) -> Seq<PairModel>
    decreases s.len(),
{
    if s.len() == 0 {
        Seq::empty()
    } else {
        insert_pair_desc(s.last(), sort_pairs_desc(s.drop_last()))
    }
}

/// The recent-trade record of a pair.
pub open spec fn recent_of(p: PairModel) -> RecentModel {
    RecentModel {
        symbol: p.symbol,
        entry_timestamp: p.entry_timestamp,
        exit_timestamp: p.exit_timestamp,
        quantity: p.quantity,
        entry_price: p.entry_price,
        exit_price: p.exit_price,
        net_profit_loss: p.net_profit_loss,
        strategy_id: p.strategy_id,
    }
}

/// The recent-trades view: pairs newest-exit first, truncated to the
/// limit, each mapped to its record.
pub open spec fn recent_model(ps: Seq<PairModel>, limit: int) -> Seq<RecentModel> {
    let sorted = sort_pairs_desc(ps);
    let cut = if limit < sorted.len() {
        sorted.take(limit)
    } else {
        sorted
    };
    cut.map_values(|p: PairModel| recent_of(p))
}

/// `insert_pair_desc` splices its pair at the boundary position.
proof fn lemma_insert_pair_desc_at(p: PairModel, s: Seq<PairModel>, pos: int)
    requires
        0 <= pos <= s.len(),
        forall|j: int| pos <= j < s.len() ==> #[trigger] s[j].exit_timestamp < p.exit_timestamp,
        pos > 0 ==> s[pos - 1].exit_timestamp >= p.exit_timestamp,
    ensures
        insert_pair_desc(p, s) == s.subrange(0, pos) + seq![p] + s.subrange(pos, s.len() as int),
    decreases s.len(),
{
    if s.len() == 0 {
        assert(insert_pair_desc(p, s) =~= s.subrange(0, 0) + seq![p] + s.subrange(0, 0));
    } else if pos == s.len() {
        assert(insert_pair_desc(p, s) =~= s.subrange(0, pos) + seq![p] + s.subrange(
            pos,
            s.len() as int,
        ));
    } else {
        assert(s[s.len() - 1].exit_timestamp < p.exit_timestamp);
        lemma_insert_pair_desc_at(p, s.drop_last(), pos);
        assert((s.drop_last().subrange(0, pos) + seq![p] + s.drop_last().subrange(
            pos,
            s.len() - 1,
        )).push(s.last()) =~= s.subrange(0, pos) + seq![p] + s.subrange(pos, s.len() as int));
    }
}

/// Insert one pair into an exit-time-descending vector.
fn insert_pair_desc_exec(out: &mut Vec<PairedTrade>, p: PairedTrade)
    ensures
        final(out).deep_view() == insert_pair_desc(p@, old(out).deep_view()),
        final(out)@.len() == old(out)@.len() + 1,
{
    let mut pos: usize = out.len();
    while pos > 0 && out[pos - 1].exit_timestamp < p.exit_timestamp
        invariant
            pos <= out@.len(),
            forall|j: int| pos <= j < out@.len() ==> #[trigger] out.deep_view()[j].exit_timestamp
                < p@.exit_timestamp,
        decreases pos,
    {
        pos = pos - 1;
    }
    proof {
        lemma_insert_pair_desc_at(p@, out.deep_view(), pos as int);
    }
    let ghost before = out.deep_view();
    out.insert(pos, p);
    proof {
        assert(out.deep_view() =~= before.subrange(0, pos as int) + seq![p@] + before.subrange(
            pos as int,
            before.len() as int,
        ));
    }
}

/// The most recent realized trades: the pairs newest-exit first, truncated
/// to the limit. The result is exactly [`recent_model`].
pub fn get_recent_trades(pairs: &Vec<PairedTrade>, limit: usize) -> (r: Vec<RecentTrade>)
    ensures
        r.deep_view() == recent_model(pairs.deep_view(), limit as int),
{
    let mut sorted: Vec<PairedTrade> = Vec::new();
    let n = pairs.len();
    let mut k: usize = 0;
    while k < n
        invariant
            n == pairs@.len(),
            k <= n,
            sorted@.len() == k,
            sorted.deep_view() == sort_pairs_desc(pairs.deep_view().take(k as int)),
        decreases n - k,
    {
        insert_pair_desc_exec(&mut sorted, pairs[k].clone());
        proof {
            let pv = pairs.deep_view();
            assert(pv.take(k + 1).drop_last() =~= pv.take(k as int));
            assert(pv.take(k + 1).last() == pv[k as int]);
        }
        k = k + 1;
    }
    proof {
        assert(pairs.deep_view().take(n as int) =~= pairs.deep_view());
    }
    let cut_len = if limit < n {
        limit
    } else {
        n
    };
    let mut out: Vec<RecentTrade> = Vec::new();
    let mut i: usize = 0;
    while i < cut_len
        invariant
            cut_len <= sorted@.len(),
            sorted.deep_view() == sort_pairs_desc(pairs.deep_view()),
            i <= cut_len,
            out@.len() == i,
            forall|j: int| 0 <= j < i ==> #[trigger] out.deep_view()[j] == recent_of(
                sorted.deep_view()[j],
            ),
        decreases cut_len - i,
    {
        let ghost before = out.deep_view();
        let p = &sorted[i];
        out.push(
            RecentTrade {
                symbol: p.symbol.clone(),
                entry_timestamp: p.entry_timestamp,
                exit_timestamp: p.exit_timestamp,
                quantity: p.quantity,
                entry_price: p.entry_price,
                exit_price: p.exit_price,
                net_profit_loss: p.net_profit_loss,
                strategy_id: p.strategy_id,
            },
        );
        proof {
            assert forall|j: int| 0 <= j < i + 1 implies #[trigger] out.deep_view()[j]
                == recent_of(sorted.deep_view()[j]) by {
                if j < i {
                    assert(out.deep_view()[j] == before[j]);
                } else {
                    assert(out.deep_view()[j] =~= recent_of(sorted.deep_view()[j]));
                }
            }
        }
        i = i + 1;
    }
    proof {
        assert(out.deep_view() =~= recent_model(pairs.deep_view(), limit as int));
    }
    out
}

/// One fill together with the pairs it entered or exited.
#[derive(Debug)]
pub struct TradeWithPairing {
    pub trade: Trade,
    /// Pairs where this fill is the entry side, in emission order.
    pub entry_pairs: Vec<PairedTrade>,
    /// Pairs where this fill is the exit side, in emission order.
    pub exit_pairs: Vec<PairedTrade>,
}

/// Mathematical model of a [`TradeWithPairing`].
#[verifier::ext_equal]
pub struct PairingModel {
    pub trade: TradeModel,
    pub entry_pairs: Seq<PairModel>,
    pub exit_pairs: Seq<PairModel>,
}

impl View for TradeWithPairing {
    type V = PairingModel;

    open spec fn view(&self) -> PairingModel {
        PairingModel {
            trade: self.trade@,
            entry_pairs: self.entry_pairs.deep_view(),
            exit_pairs: self.exit_pairs.deep_view(),
        }
    }
}

impl DeepView for TradeWithPairing {
    type V = PairingModel;

    open spec fn deep_view(&self) -> PairingModel {
        self.view()
    }
}

/// The pairs whose entry identifier is `id`, in order.
pub open spec fn pairs_with_entry(ps: Seq<PairModel>, id: int) -> Seq<PairModel>
    decreases ps.len(),
{
    if ps.len() == 0 {
        Seq::empty()
    } else if ps.last().entry_trade_id == id {
        pairs_with_entry(ps.drop_last(), id).push(ps.last())
    } else {
        pairs_with_entry(ps.drop_last(), id)
    }
}

/// The pairs whose exit identifier is `id`, in order.
pub open spec fn pairs_with_exit(ps: Seq<PairModel>, id: int) -> Seq<PairModel>
    decreases ps.len(),
{
    if ps.len() == 0 {
        Seq::empty()
    } else if ps.last().exit_trade_id == id {
        pairs_with_exit(ps.drop_last(), id).push(ps.last())
    } else {
        pairs_with_exit(ps.drop_last(), id)
    }
}

/// The pairs whose entry identifier is `id`.
fn collect_entry_pairs(pairs: &Vec<PairedTrade>, id: i64) -> (r: Vec<PairedTrade>)
    ensures
        r.deep_view() == pairs_with_entry(pairs.deep_view(), id as int),
{
    let ghost pv = pairs.deep_view();
    let n = pairs.len();
    let mut out: Vec<PairedTrade> = Vec::new();
    let mut k: usize = 0;
    while k < n
        invariant
            n == pv.len(),
            pv == pairs.deep_view(),
            k <= n,
            out.deep_view() == pairs_with_entry(pv.take(k as int), id as int),
        decreases n - k,
    {
        let ghost before = out.deep_view();
        proof {
            assert(pv.take(k + 1).drop_last() =~= pv.take(k as int));
            assert(pv.take(k + 1).last() == pv[k as int]);
        }
        if pairs[k].entry_trade_id == id {
            out.push(pairs[k].clone());
            proof {
                assert(out.deep_view() =~= before.push(pv[k as int]));
            }
        }
        k = k + 1;
    }
    proof {
        assert(pv.take(n as int) =~= pv);
    }
    out
}

/// The pairs whose exit identifier is `id`.
fn collect_exit_pairs(pairs: &Vec<PairedTrade>, id: i64) -> (r: Vec<PairedTrade>)
    ensures
        r.deep_view() == pairs_with_exit(pairs.deep_view(), id as int),
{
    let ghost pv = pairs.deep_view();
    let n = pairs.len();
    let mut out: Vec<PairedTrade> = Vec::new();
    let mut k: usize = 0;
    while k < n
        invariant
            n == pv.len(),
            pv == pairs.deep_view(),
            k <= n,
            out.deep_view() == pairs_with_exit(pv.take(k as int), id as int),
        decreases n - k,
    {
        let ghost before = out.deep_view();
        proof {
            assert(pv.take(k + 1).drop_last() =~= pv.take(k as int));
            assert(pv.take(k + 1).last() == pv[k as int]);
        }
        if pairs[k].exit_trade_id == id {
            out.push(pairs[k].clone());
            proof {
                assert(out.deep_view() =~= before.push(pv[k as int]));
            }
        }
        k = k + 1;
    }
    proof {
        assert(pv.take(n as int) =~= pv);
    }
    out
}

/// Each fill together with the pairs that entered or exited through it,
/// in the fills' given order.
pub fn get_trades_with_pairing(trades: &Vec<Trade>, pairs: &Vec<PairedTrade>) -> (r: Vec<
    TradeWithPairing,
>)
    ensures
        r@.len() == trades@.len(),
        forall|i: int| 0 <= i < r@.len() ==> ({
            let m = #[trigger] r.deep_view()[i];
            &&& m.trade == trades.deep_view()[i]
            &&& m.entry_pairs == pairs_with_entry(pairs.deep_view(), trades.deep_view()[i].id)
            &&& m.exit_pairs == pairs_with_exit(pairs.deep_view(), trades.deep_view()[i].id)
        }),
{
    let ghost tv = trades.deep_view();
    let ghost pv = pairs.deep_view();
    let n = trades.len();
    let mut out: Vec<TradeWithPairing> = Vec::new();
    let mut k: usize = 0;
    while k < n
        invariant
            n == tv.len(),
            tv == trades.deep_view(),
            pv == pairs.deep_view(),
            k <= n,
            out@.len() == k,
            forall|i: int| 0 <= i < k ==> ({
                let m = #[trigger] out.deep_view()[i];
                &&& m.trade == tv[i]
                &&& m.entry_pairs == pairs_with_entry(pv, tv[i].id)
                &&& m.exit_pairs == pairs_with_exit(pv, tv[i].id)
            }),
        decreases n - k,
    {
        let ghost before = out.deep_view();
        let id = trades[k].id;
        let entry_pairs = collect_entry_pairs(pairs, id);
        let exit_pairs = collect_exit_pairs(pairs, id);
        out.push(TradeWithPairing { trade: trades[k].clone(), entry_pairs, exit_pairs });
        proof {
            assert forall|i: int| 0 <= i < k + 1 implies ({
                let m = #[trigger] out.deep_view()[i];
                &&& m.trade == tv[i]
                &&& m.entry_pairs == pairs_with_entry(pv, tv[i].id)
                &&& m.exit_pairs == pairs_with_exit(pv, tv[i].id)
            }) by {
                if i < k {
                    assert(out.deep_view()[i] == before[i]);
                }
            }
        }
        k = k + 1;
    }
    out
}

/// Per-underlying realized P&L, with the underlying's remaining open
/// quantity.
#[derive(Debug)]
pub struct SymbolPnL {
    /// The underlying ticker the figures are grouped by.
    pub symbol: String,
    /// Number of pairs closed under the underlying.
    pub closed_positions: i64,
    /// Running long quantity left under the underlying: buys add, sells
    /// subtract but never below zero, over the executed fills in timestamp
    /// order.
    pub open_position_qty: u64,
    pub total_gross_pnl: i128,
    pub total_net_pnl: i128,
    /// Prorated fees of both sides, before the multiplier.
    pub total_fees: i128,
    pub winning_trades: i64,
    pub losing_trades: i64,
    /// `winning * 10000 / (winning + losing)`, 0 with no closed pairs.
    pub win_rate: i64,
}

/// Mathematical model of a [`SymbolPnL`] row.
#[verifier::ext_equal]
pub struct SymbolPnLModel {
    pub symbol: Seq<char>,
    pub closed_positions: int,
    pub open_position_qty: int,
    pub total_gross_pnl: int,
    pub total_net_pnl: int,
    pub total_fees: int,
    pub winning_trades: int,
    pub losing_trades: int,
    pub win_rate: int,
}

impl View for SymbolPnL {
    type V = SymbolPnLModel;

    open spec fn view(&self) -> SymbolPnLModel {
        SymbolPnLModel {
            symbol: self.symbol@,
            closed_positions: self.closed_positions as int,
            open_position_qty: self.open_position_qty as int,
            total_gross_pnl: self.total_gross_pnl as int,
            total_net_pnl: self.total_net_pnl as int,
            total_fees: self.total_fees as int,
            winning_trades: self.winning_trades as int,
            losing_trades: self.losing_trades as int,
            win_rate: self.win_rate as int,
        }
    }
}

impl DeepView for SymbolPnL {
    type V = SymbolPnLModel;

    open spec fn deep_view(&self) -> SymbolPnLModel {
        self.view()
    }
}

/// Whether a pair belongs to the underlying `u`.
pub open spec fn pair_under(p: PairModel, u: Seq<char>) -> bool {
    spec_underlying_symbol(p.symbol) == u
}

/// Number of pairs under `u` among the first `n`.
pub open spec fn sym_count(ps: Seq<PairModel>, u: Seq<char>, n: int) -> int
    decreases n,
{
    if n <= 0 {
        0
    } else {
        sym_count(ps, u, n - 1) + (if pair_under(ps[n - 1], u) {
            1int
        } else {
            0
        })
    }
}

/// Gross P&L under `u` among the first `n`.
pub open spec fn sym_gross(ps: Seq<PairModel>, u: Seq<char>, n: int) -> int
    decreases n,
{
    if n <= 0 {
        0
    } else {
        sym_gross(ps, u, n - 1) + (if pair_under(ps[n - 1], u) {
            ps[n - 1].gross_profit_loss
        } else {
            0
        })
    }
}

/// Net P&L under `u` among the first `n`.
pub open spec fn sym_net(ps: Seq<PairModel>, u: Seq<char>, n: int) -> int
    decreases n,
{
    if n <= 0 {
        0
    } else {
        sym_net(ps, u, n - 1) + (if pair_under(ps[n - 1], u) {
            ps[n - 1].net_profit_loss
        } else {
            0
        })
    }
}

/// Fees under `u` among the first `n`.
pub open spec fn sym_fees(ps: Seq<PairModel>, u: Seq<char>, n: int) -> int
    decreases n,
{
    if n <= 0 {
        0
    } else {
        sym_fees(ps, u, n - 1) + (if pair_under(ps[n - 1], u) {
            ps[n - 1].entry_fees + ps[n - 1].exit_fees
        } else {
            0
        })
    }
}

/// Winning pairs under `u` among the first `n`.
pub open spec fn sym_wins(ps: Seq<PairModel>, u: Seq<char>, n: int) -> int
    decreases n,
{
    if n <= 0 {
        0
    } else {
        sym_wins(ps, u, n - 1) + (if pair_under(ps[n - 1], u) && ps[n - 1].net_profit_loss > 0 {
            1int
        } else {
            0
        })
    }
}

/// Losing pairs under `u` among the first `n`.
pub open spec fn sym_losses(ps: Seq<PairModel>, u: Seq<char>, n: int) -> int
    decreases n,
{
    if n <= 0 {
        0
    } else {
        sym_losses(ps, u, n - 1) + (if pair_under(ps[n - 1], u) && ps[n - 1].net_profit_loss < 0 {
            1int
        } else {
            0
        })
    }
}

/// Remaining open quantity under `u` after the first `n` executed fills,
/// in timestamp order: buys add, sells subtract but never below zero.
pub open spec fn open_qty(ts: Seq<TradeModel>, u: Seq<char>, n: int) -> int
    decreases n,
{
    if n <= 0 {
        0
    } else {
        let q = open_qty(ts, u, n - 1);
        if spec_underlying_symbol(ts[n - 1].symbol) == u {
            if ts[n - 1].side == Side::Buy {
                q + ts[n - 1].quantity
            } else if q - ts[n - 1].quantity > 0 {
                q - ts[n - 1].quantity
            } else {
                0
            }
        } else {
            q
        }
    }
}

/// The underlyings of the pairs, in first-appearance order.
pub open spec fn underlyings_of(ps: Seq<PairModel>, n: int) -> Seq<Seq<char>>
    decreases n,
{
    if n <= 0 {
        Seq::empty()
    } else {
        let rest = underlyings_of(ps, n - 1);
        let u = spec_underlying_symbol(ps[n - 1].symbol);
        if rest.contains(u) {
            rest
        } else {
            rest.push(u)
        }
    }
}

/// Extend the underlying list with every underlying that still holds open
/// quantity, in first appearance over the fills.
pub open spec fn add_open_underlyings(
    base: Seq<Seq<char>>,
    ts: Seq<TradeModel>,
    n: int,
) -> Seq<Seq<char>>
    decreases n,
{
    if n <= 0 {
        base
    } else {
        let b = add_open_underlyings(base, ts, n - 1);
        let u = spec_underlying_symbol(ts[n - 1].symbol);
        if b.contains(u) || open_qty(ts, u, ts.len() as int) <= 0 {
            b
        } else {
            b.push(u)
        }
    }
}

/// The row of one underlying.
pub open spec fn sym_row_of(ps: Seq<PairModel>, ts: Seq<TradeModel>, u: Seq<char>) -> SymbolPnLModel {
    let n = ps.len() as int;
    let wins = sym_wins(ps, u, n);
    let losses = sym_losses(ps, u, n);
    SymbolPnLModel {
        symbol: u,
        closed_positions: sym_count(ps, u, n),
        open_position_qty: open_qty(ts, u, ts.len() as int),
        total_gross_pnl: sym_gross(ps, u, n),
        total_net_pnl: sym_net(ps, u, n),
        total_fees: sym_fees(ps, u, n),
        winning_trades: wins,
        losing_trades: losses,
        win_rate: div_or_zero(wins * 10_000, wins + losses),
    }
}

/// Insert a row behind every row with a total net P&L at or above its own:
/// stable descending order by net P&L.
pub open spec fn insert_row_desc(r: SymbolPnLModel, s: Seq<SymbolPnLModel>) -> Seq<SymbolPnLModel>
    decreases s.len(),
{
    if s.len() == 0 {
        seq![r]
    } else if s.last().total_net_pnl >= r.total_net_pnl {
        s.push(r)
    } else {
        insert_row_desc(r, s.drop_last()).push(s.last())
    }
}

/// Stable sort of the rows by total net P&L, largest first.
pub open spec fn sort_rows_desc(s: Seq<SymbolPnLModel>) -> Seq<SymbolPnLModel>
    decreases s.len(),
{
    if s.len() == 0 {
        Seq::empty()
    } else {
        insert_row_desc(s.last(), sort_rows_desc(s.drop_last()))
    }
}

/// The per-underlying report: one row per underlying occurring in the
/// pairs or still holding open quantity, presented by total net P&L
/// descending (ties keep first-appearance order).
pub open spec fn symbol_pnl_model(tv: Seq<TradeModel>, ps: Seq<PairModel>) -> Seq<SymbolPnLModel> {
    let ts = crate::matcher::sort_by_time(crate::positions::filtered_filled(tv));
    let us = add_open_underlyings(underlyings_of(ps, ps.len() as int), ts, ts.len() as int);
    sort_rows_desc(us.map_values(|u: Seq<char>| sym_row_of(ps, ts, u)))
}

/// Remaining open quantity under `under` over the sorted fills.
fn open_qty_exec(sorted: &Vec<Trade>, under: &String) -> (r: u64)
    requires
        crate::trade::valid_trades(sorted.deep_view()),
        sorted@.len() <= MAX_PAIR_COUNT,
    ensures
        r as int == open_qty(sorted.deep_view(), under@, sorted@.len() as int),
{
    let ghost ts = sorted.deep_view();
    let n = sorted.len();
    let mut q: u64 = 0;
    let mut k: usize = 0;
    while k < n
        invariant
            n == ts.len(),
            ts == sorted.deep_view(),
            crate::trade::valid_trades(ts),
            n <= MAX_PAIR_COUNT,
            k <= n,
            q as int == open_qty(ts, under@, k as int),
            0 <= q as int <= (k as int) * (crate::trade::MAX_QUANTITY as int),
        decreases n - k,
    {
        proof {
            assert(crate::trade::valid_trade_model(ts[k as int]));
        }
        let tu = get_underlying_symbol(sorted[k].symbol.as_str());
        if tu == *under {
            if matches!(sorted[k].side, Side::Buy) {
                q = q + sorted[k].quantity;
            } else if q > sorted[k].quantity {
                q = q - sorted[k].quantity;
            } else {
                q = 0;
            }
        }
        k = k + 1;
    }
    q
}

/// One underlying's aggregate row over the pairs and the sorted fills.
#[verifier::rlimit(50)]
fn build_symbol_row(
    pairs: &Vec<PairedTrade>,
    sorted: &Vec<Trade>,
    under: String,
) -> (r: SymbolPnL)
    requires
        valid_pairs(pairs.deep_view()),
        pairs@.len() <= MAX_PAIR_COUNT,
        crate::trade::valid_trades(sorted.deep_view()),
        sorted@.len() <= MAX_PAIR_COUNT,
    ensures
        r@ == sym_row_of(pairs.deep_view(), sorted.deep_view(), under@),
{
    let ghost pv = pairs.deep_view();
    let open_position_qty = open_qty_exec(sorted, &under);
    let n = pairs.len();
    let mut count: i64 = 0;
    let mut gross: i128 = 0;
    let mut net: i128 = 0;
    let mut fees: i128 = 0;
    let mut wins: i64 = 0;
    let mut losses: i64 = 0;
    let mut k: usize = 0;
    while k < n
        invariant
            n == pv.len(),
            pv == pairs.deep_view(),
            valid_pairs(pv),
            n <= MAX_PAIR_COUNT,
            k <= n,
            count as int == sym_count(pv, under@, k as int),
            gross as int == sym_gross(pv, under@, k as int),
            net as int == sym_net(pv, under@, k as int),
            fees as int == sym_fees(pv, under@, k as int),
            wins as int == sym_wins(pv, under@, k as int),
            losses as int == sym_losses(pv, under@, k as int),
            0 <= count as int <= k as int,
            0 <= wins as int <= k as int,
            0 <= losses as int <= k as int,
            -(k as int) * (NET_BOUND as int) <= gross as int <= (k as int) * (NET_BOUND as int),
            -(k as int) * (NET_BOUND as int) <= net as int <= (k as int) * (NET_BOUND as int),
            0 <= fees as int <= (k as int) * (NET_BOUND as int),
        decreases n - k,
    {
        proof {
            assert(crate::trade::valid_pair_model(pv[k as int]));
        }
        let pu = get_underlying_symbol(pairs[k].symbol.as_str());
        if pu == under {
            count = count + 1;
            gross = gross + pairs[k].gross_profit_loss;
            net = net + pairs[k].net_profit_loss;
            fees = fees + (pairs[k].entry_fees as i128) + (pairs[k].exit_fees as i128);
            if pairs[k].net_profit_loss > 0 {
                wins = wins + 1;
            } else if pairs[k].net_profit_loss < 0 {
                losses = losses + 1;
            }
        }
        k = k + 1;
    }
    let closed = wins + losses;
    let win_rate: i64 = if closed > 0 {
        (((wins as u64) * 10_000) / (closed as u64)) as i64
    } else {
        0
    };
    let r = SymbolPnL {
        symbol: under,
        closed_positions: count,
        open_position_qty,
        total_gross_pnl: gross,
        total_net_pnl: net,
        total_fees: fees,
        winning_trades: wins,
        losing_trades: losses,
        win_rate,
    };
    proof {
        assert(r@ =~= sym_row_of(pv, sorted.deep_view(), r.symbol@));
    }
    r
}

/// Whether the vector already holds a row for `u`.
fn has_symbol(rows: &Vec<SymbolPnL>, u: &String) -> (r: bool)
    ensures
        r == exists|i: int| 0 <= i < rows@.len() && (#[trigger] rows.deep_view()[i]).symbol == u@,
{
    let n = rows.len();
    let mut k: usize = 0;
    while k < n
        invariant
            n == rows@.len(),
            k <= n,
            forall|i: int| 0 <= i < k ==> (#[trigger] rows.deep_view()[i]).symbol != u@,
        decreases n - k,
    {
        if rows[k].symbol == *u {
            proof {
                assert((rows.deep_view()[k as int]).symbol == u@);
            }
            return true;
        }
        k = k + 1;
    }
    false
}

/// `insert_row_desc` splices its row at the boundary position.
proof fn lemma_insert_row_desc_at(r: SymbolPnLModel, s: Seq<SymbolPnLModel>, pos: int)
    requires
        0 <= pos <= s.len(),
        forall|j: int| pos <= j < s.len() ==> (#[trigger] s[j]).total_net_pnl < r.total_net_pnl,
        pos > 0 ==> s[pos - 1].total_net_pnl >= r.total_net_pnl,
    ensures
        insert_row_desc(r, s) == s.subrange(0, pos) + seq![r] + s.subrange(pos, s.len() as int),
    decreases s.len(),
{
    if s.len() == 0 {
        assert(insert_row_desc(r, s) =~= s.subrange(0, 0) + seq![r] + s.subrange(0, 0));
    } else if pos == s.len() {
        assert(insert_row_desc(r, s) =~= s.subrange(0, pos) + seq![r] + s.subrange(
            pos,
            s.len() as int,
        ));
    } else {
        assert(s[s.len() - 1].total_net_pnl < r.total_net_pnl);
        lemma_insert_row_desc_at(r, s.drop_last(), pos);
        assert((s.drop_last().subrange(0, pos) + seq![r] + s.drop_last().subrange(
            pos,
            s.len() - 1,
        )).push(s.last()) =~= s.subrange(0, pos) + seq![r] + s.subrange(pos, s.len() as int));
    }
}

/// Insert one row into a net-P&L-descending vector.
fn insert_row_desc_exec(out: &mut Vec<SymbolPnL>, r: SymbolPnL)
    ensures
        final(out).deep_view() == insert_row_desc(r@, old(out).deep_view()),
{
    let mut pos: usize = out.len();
    while pos > 0 && out[pos - 1].total_net_pnl < r.total_net_pnl
        invariant
            pos <= out@.len(),
            forall|j: int| pos <= j < out@.len() ==> (#[trigger] out.deep_view()[j]).total_net_pnl
                < r@.total_net_pnl,
        decreases pos,
    {
        pos = pos - 1;
    }
    proof {
        lemma_insert_row_desc_at(r@, out.deep_view(), pos as int);
    }
    let ghost before = out.deep_view();
    out.insert(pos, r);
    proof {
        assert(out.deep_view() =~= before.subrange(0, pos as int) + seq![r@] + before.subrange(
            pos as int,
            before.len() as int,
        ));
    }
}

/// The per-underlying realized P&L report: one row per underlying of the
/// pairs or with remaining open quantity, each with the closed-pair sums
/// and the running open quantity over the executed fills, presented by
/// total net P&L descending. The result is exactly [`symbol_pnl_model`].
#[verifier::rlimit(100)]
pub fn get_symbol_pnl(trades: &Vec<Trade>, pairs: &Vec<PairedTrade>) -> (r: Vec<SymbolPnL>)
    requires
        crate::trade::valid_trades(trades.deep_view()),
        valid_pairs(pairs.deep_view()),
        trades@.len() <= MAX_PAIR_COUNT,
        pairs@.len() <= MAX_PAIR_COUNT,
    ensures
        r.deep_view() == symbol_pnl_model(trades.deep_view(), pairs.deep_view()),
{
    let ghost pv = pairs.deep_view();
    let filled = crate::positions::filter_filled_trades(trades);
    let sorted = crate::matcher::sort_trades_by_time(&filled);
    let ghost ts = sorted.deep_view();
    proof {
        assert(filled@.len() <= trades@.len());
    }
    let n = pairs.len();
    let mut rows: Vec<SymbolPnL> = Vec::new();
    let mut k: usize = 0;
    while k < n
        invariant
            n == pv.len(),
            pv == pairs.deep_view(),
            ts == sorted.deep_view(),
            valid_pairs(pv),
            crate::trade::valid_trades(ts),
            n <= MAX_PAIR_COUNT,
            sorted@.len() <= MAX_PAIR_COUNT,
            k <= n,
            rows@.len() == underlyings_of(pv, k as int).len(),
            forall|i: int| 0 <= i < rows@.len() ==> (#[trigger] rows.deep_view()[i]).symbol
                == underlyings_of(pv, k as int)[i],
            forall|i: int| 0 <= i < rows@.len() ==> #[trigger] rows.deep_view()[i] == sym_row_of(
                pv,
                ts,
                underlyings_of(pv, k as int)[i],
            ),
        decreases n - k,
    {
        let under = get_underlying_symbol(pairs[k].symbol.as_str());
        let ghost us = underlyings_of(pv, k as int);
        let present = has_symbol(&rows, &under);
        proof {
            assert(underlyings_of(pv, k + 1) == (if us.contains(under@) {
                us
            } else {
                us.push(under@)
            }));
            if present {
                let w = choose|w: int| 0 <= w < rows@.len() && (#[trigger] rows.deep_view()[w]).symbol
                    == under@;
                assert(us[w] == under@);
                assert(us.contains(under@));
            } else {
                if us.contains(under@) {
                    let w = choose|w: int| 0 <= w < us.len() && us[w] == under@;
                    assert((rows.deep_view()[w]).symbol == us[w]);
                }
            }
        }
        if !present {
            let ghost rows_before = rows.deep_view();
            let row = build_symbol_row(pairs, &sorted, under);
            rows.push(row);
            proof {
                assert forall|i: int| 0 <= i < rows@.len() implies #[trigger] rows.deep_view()[i]
                    == sym_row_of(pv, ts, underlyings_of(pv, k + 1)[i]) && (rows.deep_view()[i]).symbol
                    == underlyings_of(pv, k + 1)[i] by {
                    if i < rows_before.len() {
                        assert(rows.deep_view()[i] == rows_before[i]);
                        assert(underlyings_of(pv, k + 1)[i] == us[i]);
                    } else {
                        assert(underlyings_of(pv, k + 1)[i] == under@);
                    }
                }
            }
        }
        k = k + 1;
    }
    let ghost base = underlyings_of(pv, pv.len() as int);
    let tn = sorted.len();
    let mut t: usize = 0;
    while t < tn
        invariant
            tn == ts.len(),
            ts == sorted.deep_view(),
            pv == pairs.deep_view(),
            valid_pairs(pv),
            crate::trade::valid_trades(ts),
            pv.len() <= MAX_PAIR_COUNT,
            tn <= MAX_PAIR_COUNT,
            base == underlyings_of(pv, pv.len() as int),
            t <= tn,
            rows@.len() == add_open_underlyings(base, ts, t as int).len(),
            forall|i: int| 0 <= i < rows@.len() ==> (#[trigger] rows.deep_view()[i]).symbol
                == add_open_underlyings(base, ts, t as int)[i],
            forall|i: int| 0 <= i < rows@.len() ==> #[trigger] rows.deep_view()[i] == sym_row_of(
                pv,
                ts,
                add_open_underlyings(base, ts, t as int)[i],
            ),
        decreases tn - t,
    {
        let under = get_underlying_symbol(sorted[t].symbol.as_str());
        let ghost bs = add_open_underlyings(base, ts, t as int);
        let present = has_symbol(&rows, &under);
        proof {
            if present {
                let w = choose|w: int| 0 <= w < rows@.len() && (#[trigger] rows.deep_view()[w]).symbol
                    == under@;
                assert(bs[w] == under@);
                assert(bs.contains(under@));
            } else {
                if bs.contains(under@) {
                    let w = choose|w: int| 0 <= w < bs.len() && bs[w] == under@;
                    assert((rows.deep_view()[w]).symbol == bs[w]);
                }
            }
        }
        if !present {
            let oq = open_qty_exec(&sorted, &under);
            if oq > 0 {
                let ghost rows_before = rows.deep_view();
                let row = build_symbol_row(pairs, &sorted, under);
                rows.push(row);
                proof {
                    assert forall|i: int| 0 <= i < rows@.len() implies
                        #[trigger] rows.deep_view()[i] == sym_row_of(
                        pv,
                        ts,
                        add_open_underlyings(base, ts, t + 1)[i],
                    ) && (rows.deep_view()[i]).symbol == add_open_underlyings(base, ts, t + 1)[i] by {
                        if i < rows_before.len() {
                            assert(rows.deep_view()[i] == rows_before[i]);
                            assert(add_open_underlyings(base, ts, t + 1)[i] == bs[i]);
                        } else {
                            assert(add_open_underlyings(base, ts, t + 1)[i] == under@);
                        }
                    }
                }
            }
        }
        t = t + 1;
    }
    proof {
        assert(ts == crate::matcher::sort_by_time(
            crate::positions::filtered_filled(trades.deep_view()),
        ));
        assert(rows.deep_view() =~= add_open_underlyings(base, ts, ts.len() as int).map_values(
            |u: Seq<char>| sym_row_of(pv, ts, u),
        ));
    }
    let ghost full = rows.deep_view();
    let total_rows = rows.len();
    let mut out: Vec<SymbolPnL> = Vec::new();
    let mut z: usize = 0;
    proof {
        assert(full.len() == total_rows as int);
        assert(rows.deep_view() =~= full.skip(0));
        assert(full.take(0) =~= Seq::<SymbolPnLModel>::empty());
    }
    while rows.len() > 0
        invariant
            z + rows@.len() == full.len(),
            z <= full.len(),
            full.len() <= usize::MAX,
            rows.deep_view() =~= full.skip(z as int),
            out.deep_view() == sort_rows_desc(full.take(z as int)),
        decreases rows@.len(),
    {
        let ghost pre = rows.deep_view();
        let row = rows.remove(0);
        proof {
            assert(pre[0] == full.skip(z as int)[0]);
            assert(row@ == full[z as int]);
            assert(rows.deep_view() =~= pre.drop_first());
            assert(rows.deep_view() =~= full.skip(z + 1));
            assert(full.take(z + 1).drop_last() =~= full.take(z as int));
            assert(full.take(z + 1).last() == full[z as int]);
        }
        insert_row_desc_exec(&mut out, row);
        z = z + 1;
    }
    proof {
        assert(full.take(z as int) =~= full);
        assert(out.deep_view() =~= symbol_pnl_model(trades.deep_view(), pairs.deep_view()));
    }
    out
}

} // verus!
