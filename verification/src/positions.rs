//! The position grouper: partitions the chronological fill stream into
//! contiguous position lifecycles (flat, then open, then flat again) per
//! symbol, and attributes the matcher's pair-level P&L to each lifecycle.
//!
//! A single left-to-right scan over the filled fills, sorted by timestamp:
//! any fill not yet claimed by an earlier group starts a new group, which
//! then consumes every later unclaimed same-symbol fill while tracking the
//! signed position size, until the size returns to zero. A group that never
//! returns to flat consumes all later same-symbol fills and stays open with
//! a nonzero final quantity.

use vstd::prelude::*;

use crate::trade::MAX_QUANTITY;
use crate::trade::NET_BOUND;
use crate::trade::PairModel;
use crate::trade::PairedTrade;
use crate::trade::Side;
use crate::trade::Trade;
use crate::trade::TradeModel;
use crate::trade::TradeStatus;
use crate::trade::valid_pairs;
use crate::trade::valid_trades;
use crate::matcher::insert_by_time;
use crate::matcher::sort_by_time;
use crate::matcher::sort_trades_by_time;

verus! {

/// Largest number of matched pairs the aggregations accept; keeps every
/// P&L sum within the machine integers.
pub const MAX_PAIR_COUNT: usize = 1_000_000;

/// Bound on one position group's attributed P&L:
/// `MAX_PAIR_COUNT * NET_BOUND`.
pub const GROUP_PNL_BOUND: i128 = 300_000_000_000_000_000_000_000_000;

/// One position lifecycle: the opening fill, every fill that belongs to the
/// lifecycle, the realized P&L attributed to it, and the signed quantity
/// left when it ends (zero when the position closed).
#[derive(Debug)]
pub struct PositionGroup {
    pub entry_trade: Trade,
    pub position_trades: Vec<Trade>,
    pub total_pnl: i128,
    pub final_quantity: i128,
}

/// Mathematical model of a [`PositionGroup`].
#[verifier::ext_equal]
pub struct GroupModel {
    pub entry_trade: TradeModel,
    pub position_trades: Seq<TradeModel>,
    pub total_pnl: int,
    pub final_quantity: int,
}

impl View for PositionGroup {
    type V = GroupModel;

    open spec fn view(&self) -> GroupModel {
        GroupModel {
            entry_trade: self.entry_trade@,
            position_trades: self.position_trades.deep_view(),
            total_pnl: self.total_pnl as int,
            final_quantity: self.final_quantity as int,
        }
    }
}

impl DeepView for PositionGroup {
    type V = GroupModel;

    open spec fn deep_view(&self) -> GroupModel {
        self.view()
    }
}

/// The signed quantity a fill contributes to a position: buys add, sells
/// subtract.
pub open spec fn signed_of(t: TradeModel) -> int {
    if t.side == Side::Buy {
        t.quantity
    } else {
        -t.quantity
    }
}

/// Signed sum of a fill sequence's quantities.
pub open spec fn signed_sum(s: Seq<TradeModel>) -> int
    decreases s.len(),
{
    if s.len() == 0 {
        0
    } else {
        signed_of(s[0]) + signed_sum(s.drop_first())
    }
}

/// Only the executed fills take part in grouping.
pub open spec fn filtered_filled(ts: Seq<TradeModel>) -> Seq<TradeModel>
    decreases ts.len(),
{
    if ts.len() == 0 {
        Seq::empty()
    } else if ts.last().status == TradeStatus::Filled {
        filtered_filled(ts.drop_last()).push(ts.last())
    } else {
        filtered_filled(ts.drop_last())
    }
}

/// Indices a group consumes after its entry: scanning from `j`, every
/// unclaimed fill of the group's symbol joins, updating the signed size;
/// the group ends right after the size returns to zero.
pub open spec fn gather(
    ts: Seq<TradeModel>,
    claimed: Set<int>,
    sym: Seq<char>,
    j: int,
    size: int,
) -> Seq<int>
    decreases ts.len() - j,
{
    if j < 0 || j >= ts.len() {
        Seq::empty()
    } else if ts[j].symbol != sym || claimed.contains(j) {
        gather(ts, claimed, sym, j + 1, size)
    } else {
        let size2 = size + signed_of(ts[j]);
        if size2 == 0 {
            seq![j]
        } else {
            seq![j] + gather(ts, claimed, sym, j + 1, size2)
        }
    }
}

/// The index list of the group that starts at unclaimed index `i`.
pub open spec fn group_of(ts: Seq<TradeModel>, claimed: Set<int>, i: int) -> Seq<int> {
    seq![i] + gather(ts, claimed, ts[i].symbol, i + 1, signed_of(ts[i]))
}

/// The left-to-right scan: each unclaimed index starts a group, whose
/// members are claimed before the scan moves on.
pub open spec fn build_groups(ts: Seq<TradeModel>, claimed: Set<int>, i: int) -> Seq<Seq<int>>
    decreases ts.len() - i,
{
    if i < 0 || i >= ts.len() {
        Seq::empty()
    } else if claimed.contains(i) {
        build_groups(ts, claimed, i + 1)
    } else {
        let g = group_of(ts, claimed, i);
        seq![g] + build_groups(ts, claimed.union(g.to_set()), i + 1)
    }
}

/// Whether a matched pair belongs to a group: one of its endpoint trade
/// identifiers names a fill of the group.
pub open spec fn pair_in_group(p: PairModel, g: Seq<TradeModel>) -> bool {
    exists|k: int| 0 <= k < g.len() && ((#[trigger] g[k]).id == p.entry_trade_id || g[k].id == p.exit_trade_id)
}

/// Realized P&L attributed to a group: the net P&L of every pair with an
/// endpoint in the group.
pub open spec fn group_pnl(ps: Seq<PairModel>, g: Seq<TradeModel>) -> int
    decreases ps.len(),
{
    if ps.len() == 0 {
        0
    } else {
        (if pair_in_group(ps[0], g) {
            ps[0].net_profit_loss
        } else {
            0
        }) + group_pnl(ps.drop_first(), g)
    }
}

/// The group record for the index list `g`.
pub open spec fn group_model_of(ts: Seq<TradeModel>, ps: Seq<PairModel>, g: Seq<int>) -> GroupModel {
    let members = g.map_values(|i: int| ts[i]);
    GroupModel {
        entry_trade: ts[g[0]],
        position_trades: members,
        total_pnl: group_pnl(ps, members),
        final_quantity: signed_sum(members),
    }
}

/// Insert a group behind every group whose entry timestamp is at or above
/// its own: the insertion step of a stable sort, newest first.
pub open spec fn insert_group_desc(g: GroupModel, s: Seq<GroupModel>) -> Seq<GroupModel>
    decreases s.len(),
{
    if s.len() == 0 {
        seq![g]
    } else if s.last().entry_trade.timestamp >= g.entry_trade.timestamp {
        s.push(g)
    } else {
        insert_group_desc(g, s.drop_last()).push(s.last())
    }
}

/// Stable sort of the groups by entry timestamp, newest first.
pub open spec fn sort_groups_desc(s: Seq<GroupModel>) -> Seq<GroupModel>
    decreases s.len(),
{
    if s.len() == 0 {
        Seq::empty()
    } else {
        insert_group_desc(s.last(), sort_groups_desc(s.drop_last()))
    }
}

/// The grouper, in full: keep the executed fills, sort them stably by
/// timestamp, scan them into lifecycles, attribute pair P&L by endpoint
/// membership, and present the groups newest first.
pub open spec fn positions_model(ts_in: Seq<TradeModel>, ps: Seq<PairModel>) -> Seq<GroupModel> {
    let ts = sort_by_time(filtered_filled(ts_in));
    let gs = build_groups(ts, Set::empty(), 0);
    sort_groups_desc(gs.map_values(|g: Seq<int>| group_model_of(ts, ps, g)))
}

/// Keep only the executed fills.
pub fn filter_filled_trades(trades: &Vec<Trade>) -> (r: Vec<Trade>)
    ensures
        r.deep_view() == filtered_filled(trades.deep_view()),
        valid_trades(trades.deep_view()) ==> valid_trades(r.deep_view()),
        r@.len() <= trades@.len(),
{
    let mut out: Vec<Trade> = Vec::new();
    let n = trades.len();
    let mut k: usize = 0;
    while k < n
        invariant
            n == trades@.len(),
            k <= n,
            out@.len() <= k,
            out.deep_view() == filtered_filled(trades.deep_view().take(k as int)),
            valid_trades(trades.deep_view()) ==> valid_trades(out.deep_view()),
        decreases n - k,
    {
        let ghost tv = trades.deep_view();
        let ghost before = out.deep_view();
        if matches!(trades[k].status, TradeStatus::Filled) {
            out.push(trades[k].clone());
        }
        proof {
            assert(tv.take(k + 1).drop_last() =~= tv.take(k as int));
            assert(tv.take(k + 1).last() == tv[k as int]);
            if tv[k as int].status == TradeStatus::Filled {
                assert(out.deep_view() =~= before.push(tv[k as int]));
            }
            if valid_trades(tv) {
                assert(valid_trades(out.deep_view())) by {
                    assert(forall|i: int| 0 <= i < before.len() ==> out.deep_view()[i] == before[i]);
                }
            }
        }
        k = k + 1;
    }
    proof {
        assert(trades.deep_view().take(n as int) =~= trades.deep_view());
    }
    out
}

/// Whether one of the pair's endpoint identifiers names a fill of the group.
fn pair_touches_group(pair: &PairedTrade, members: &Vec<Trade>) -> (r: bool)
    ensures
        r == pair_in_group(pair@, members.deep_view()),
{
    let n = members.len();
    let mut k: usize = 0;
    while k < n
        invariant
            n == members@.len(),
            k <= n,
            forall|j: int| 0 <= j < k ==> !((#[trigger] members.deep_view()[j]).id
                == pair@.entry_trade_id || members.deep_view()[j].id == pair@.exit_trade_id),
        decreases n - k,
    {
        if members[k].id == pair.entry_trade_id || members[k].id == pair.exit_trade_id {
            proof {
                assert((members.deep_view()[k as int]).id == pair@.entry_trade_id
                    || (members.deep_view()[k as int]).id == pair@.exit_trade_id);
            }
            return true;
        }
        k = k + 1;
    }
    false
}

/// Net P&L of every pair with an endpoint in the group.
fn compute_group_pnl(pairs: &Vec<PairedTrade>, members: &Vec<Trade>) -> (r: i128)
    requires
        valid_pairs(pairs.deep_view()),
        pairs@.len() <= MAX_PAIR_COUNT,
    ensures
        r as int == group_pnl(pairs.deep_view(), members.deep_view()),
        -GROUP_PNL_BOUND <= r <= GROUP_PNL_BOUND,
{
    let ghost pv = pairs.deep_view();
    let ghost mv = members.deep_view();
    let n = pairs.len();
    let mut acc: i128 = 0;
    let mut k: usize = 0;
    proof {
        assert(pv.skip(0) =~= pv);
    }
    while k < n
        invariant
            n == pv.len(),
            pv == pairs.deep_view(),
            mv == members.deep_view(),
            valid_pairs(pv),
            n <= MAX_PAIR_COUNT,
            k <= n,
            -(k as int) * (NET_BOUND as int) <= acc as int <= (k as int) * (NET_BOUND as int),
            acc as int + group_pnl(pv.skip(k as int), mv) == group_pnl(pv, mv),
        decreases n - k,
    {
        proof {
            assert(pv.skip(k as int).drop_first() =~= pv.skip(k + 1));
            assert(pv.skip(k as int)[0] == pv[k as int]);
            assert(crate::trade::valid_pair_model(pv[k as int]));
        }
        if pair_touches_group(&pairs[k], members) {
            acc = acc + pairs[k].net_profit_loss;
        }
        k = k + 1;
    }
    proof {
        assert(pv.skip(n as int) =~= Seq::<PairModel>::empty());
    }
    acc
}

/// `insert_group_desc` splices its group at the boundary position: behind
/// every group whose entry timestamp is at or above its own.
proof fn lemma_insert_group_desc_at(g: GroupModel, s: Seq<GroupModel>, pos: int)
    requires
        0 <= pos <= s.len(),
        forall|j: int| pos <= j < s.len() ==> (#[trigger] s[j]).entry_trade.timestamp
            < g.entry_trade.timestamp,
        pos > 0 ==> s[pos - 1].entry_trade.timestamp >= g.entry_trade.timestamp,
    ensures
        insert_group_desc(g, s) == s.subrange(0, pos) + seq![g] + s.subrange(pos, s.len() as int),
    decreases s.len(),
{
    if s.len() == 0 {
        assert(insert_group_desc(g, s) =~= s.subrange(0, 0) + seq![g] + s.subrange(0, 0));
    } else if pos == s.len() {
        assert(insert_group_desc(g, s) =~= s.subrange(0, pos) + seq![g] + s.subrange(
            pos,
            s.len() as int,
        ));
    } else {
        assert(s[s.len() - 1].entry_trade.timestamp < g.entry_trade.timestamp);
        lemma_insert_group_desc_at(g, s.drop_last(), pos);
        assert((s.drop_last().subrange(0, pos) + seq![g] + s.drop_last().subrange(
            pos,
            s.len() - 1,
        )).push(s.last()) =~= s.subrange(0, pos) + seq![g] + s.subrange(pos, s.len() as int));
    }
}

/// Insert one group into a vector sorted by entry timestamp descending,
/// behind every group with an entry timestamp at or above its own.
fn insert_group_by_time_desc(out: &mut Vec<PositionGroup>, g: PositionGroup)
    ensures
        final(out).deep_view() == insert_group_desc(g@, old(out).deep_view()),
{
    let mut pos: usize = out.len();
    while pos > 0 && out[pos - 1].entry_trade.timestamp < g.entry_trade.timestamp
        invariant
            pos <= out@.len(),
            forall|j: int| pos <= j < out@.len() ==> (#[trigger] out.deep_view()[j]).entry_trade.timestamp
                < g@.entry_trade.timestamp,
        decreases pos,
    {
        pos = pos - 1;
    }
    proof {
        lemma_insert_group_desc_at(g@, out.deep_view(), pos as int);
    }
    let ghost before = out.deep_view();
    out.insert(pos, g);
    proof {
        assert(out.deep_view() =~= before.subrange(0, pos as int) + seq![g@] + before.subrange(
            pos as int,
            before.len() as int,
        ));
    }
}

/// Partition the ledger into position lifecycles and attribute the matched
/// pairs' P&L to them. Only executed fills take part; the result lists the
/// groups newest first, each holding its fills in timestamp order, the
/// realized P&L of every pair with an endpoint in the group, and the signed
/// quantity left when the group ends. The result is exactly the functional
/// model [`positions_model`].
#[verifier::rlimit(100)]
pub fn group_positions(trades: &Vec<Trade>, pairs: &Vec<PairedTrade>) -> (r: Vec<PositionGroup>)
    requires
        valid_trades(trades.deep_view()),
        valid_pairs(pairs.deep_view()),
        pairs@.len() <= MAX_PAIR_COUNT,
    ensures
        r.deep_view() == positions_model(trades.deep_view(), pairs.deep_view()),
        forall|i: int| 0 <= i < r@.len() ==> -(GROUP_PNL_BOUND as int)
            <= (#[trigger] r.deep_view()[i]).total_pnl <= GROUP_PNL_BOUND as int,
{
    let filled = filter_filled_trades(trades);
    let sorted = sort_trades_by_time(&filled);
    let ghost ts = sorted.deep_view();
    let ghost pv = pairs.deep_view();
    let n = sorted.len();
    let mut claimed: Vec<bool> = Vec::new();
    let mut z: usize = 0;
    while z < n
        invariant
            z <= n,
            claimed@.len() == z,
            forall|j: int| 0 <= j < z ==> !(#[trigger] claimed@[j]),
        decreases n - z,
    {
        claimed.push(false);
        z = z + 1;
    }
    let ghost gm_full = build_groups(ts, Set::empty(), 0).map_values(
        |g: Seq<int>| group_model_of(ts, pv, g),
    );
    let mut groups: Vec<PositionGroup> = Vec::new();
    let ghost mut claimed_set: Set<int> = Set::empty();
    let mut i: usize = 0;
    while i < n
        invariant
            n == ts.len(),
            ts == sorted.deep_view(),
            pv == pairs.deep_view(),
            valid_trades(ts),
            valid_pairs(pv),
            pv.len() <= MAX_PAIR_COUNT,
            i <= n,
            claimed@.len() == n,
            forall|j: int| 0 <= j < n ==> #[trigger] claimed@[j] == claimed_set.contains(j),
            gm_full =~= groups.deep_view() + build_groups(ts, claimed_set, i as int).map_values(
                |g: Seq<int>| group_model_of(ts, pv, g),
            ),
            forall|b: int| 0 <= b < groups@.len() ==> -(GROUP_PNL_BOUND as int)
                <= (#[trigger] groups.deep_view()[b]).total_pnl <= GROUP_PNL_BOUND as int,
        decreases n - i,
    {
        if !claimed[i] {
            let ghost claimed0 = claimed_set;
            let entry = sorted[i].clone();
            let mut members: Vec<Trade> = Vec::new();
            members.push(entry);
            claimed[i] = true;
            let mut size: i128 = if matches!(sorted[i].side, Side::Buy) {
                sorted[i].quantity as i128
            } else {
                -(sorted[i].quantity as i128)
            };
            let ghost mut members_idx: Seq<int> = seq![i as int];
            proof {
                assert(members.deep_view() =~= seq![ts[i as int]]);
                assert(members.deep_view() =~= members_idx.map_values(|x: int| ts[x]));
                assert(seq![ts[i as int]].drop_first() =~= Seq::<TradeModel>::empty());
                assert(signed_sum(Seq::<TradeModel>::empty()) == 0);
                assert(signed_sum(members.deep_view()) == signed_of(ts[i as int]));
            }
            let ghost full_gather = gather(
                ts,
                claimed0,
                ts[i as int].symbol,
                i + 1,
                signed_of(ts[i as int]),
            );
            let mut j: usize = i + 1;
            while j < n
                invariant_except_break
                    full_gather =~= members_idx.drop_first() + gather(
                        ts,
                        claimed0,
                        ts[i as int].symbol,
                        j as int,
                        size as int,
                    ),
                invariant
                    n == ts.len(),
                    ts == sorted.deep_view(),
                    valid_trades(ts),
                    i < n,
                    i < j <= n,
                    claimed@.len() == n,
                    members_idx.len() >= 1,
                    members_idx[0] == i as int,
                    forall|x: int| members_idx.contains(x) ==> i as int <= x < j,
                    forall|k: int| 0 <= k < n ==> #[trigger] claimed@[k] == (claimed0.contains(k)
                        || members_idx.contains(k)),
                    members.deep_view() =~= members_idx.map_values(|x: int| ts[x]),
                    size as int == signed_sum(members.deep_view()),
                    -(j as int) * (MAX_QUANTITY as int) <= size as int <= (j as int) * (
                    MAX_QUANTITY as int),
                    full_gather == gather(
                        ts,
                        claimed0,
                        ts[i as int].symbol,
                        i + 1,
                        signed_of(ts[i as int]),
                    ),
                ensures
                    full_gather =~= members_idx.drop_first(),
                decreases n - j,
            {
                let ghost members_idx_pre = members_idx;
                let ghost members_pre = members.deep_view();
                let ghost size_pre = size as int;
                let same_symbol = sorted[j].symbol == sorted[i].symbol;
                if same_symbol && !claimed[j] {
                    members.push(sorted[j].clone());
                    claimed[j] = true;
                    proof {
                        members_idx = members_idx.push(j as int);
                        assert(members.deep_view() =~= members_pre.push(ts[j as int]));
                        assert(members_idx.map_values(|x: int| ts[x])
                            =~= members_idx_pre.map_values(|x: int| ts[x]).push(ts[j as int]));
                        assert(members.deep_view() =~= members_idx.map_values(|x: int| ts[x]));
                        lemma_signed_sum_push(members_pre, ts[j as int]);
                        assert(!claimed0.contains(j as int));
                        assert forall|x: int| members_idx.contains(x) <==> (
                            members_idx_pre.contains(x) || x == j as int) by {
                            lemma_contains_push(members_idx_pre, j as int, x);
                        }
                    }
                    if matches!(sorted[j].side, Side::Buy) {
                        size = size + (sorted[j].quantity as i128);
                    } else {
                        size = size - (sorted[j].quantity as i128);
                    }
                    proof {
                        assert(size as int == size_pre + signed_of(ts[j as int]));
                        assert(members_idx.drop_first() =~= members_idx_pre.drop_first().push(
                            j as int,
                        ));
                        if size as int == 0 {
                            assert(gather(ts, claimed0, ts[i as int].symbol, j as int, size_pre)
                                =~= seq![j as int]);
                            assert(full_gather =~= members_idx.drop_first());
                        } else {
                            assert(gather(ts, claimed0, ts[i as int].symbol, j as int, size_pre)
                                =~= seq![j as int] + gather(
                                ts,
                                claimed0,
                                ts[i as int].symbol,
                                j + 1,
                                size as int,
                            ));
                            assert(full_gather =~= members_idx.drop_first() + gather(
                                ts,
                                claimed0,
                                ts[i as int].symbol,
                                j + 1,
                                size as int,
                            ));
                        }
                    }
                    j = j + 1;
                    if size == 0 {
                        break;
                    }
                } else {
                    proof {
                        assert(gather(
                            ts,
                            claimed0,
                            ts[i as int].symbol,
                            j as int,
                            size as int,
                        ) == gather(
                            ts,
                            claimed0,
                            ts[i as int].symbol,
                            j + 1,
                            size as int,
                        ));
                    }
                    j = j + 1;
                }
            }
            proof {
                assert(group_of(ts, claimed0, i as int) =~= members_idx);
            }
            let total_pnl = compute_group_pnl(pairs, &members);
            let entry_again = sorted[i].clone();
            let ghost groups_pre_push = groups.deep_view();
            groups.push(
                PositionGroup {
                    entry_trade: entry_again,
                    position_trades: members,
                    total_pnl,
                    final_quantity: size,
                },
            );
            proof {
                assert forall|b: int| 0 <= b < groups@.len() implies -(GROUP_PNL_BOUND as int)
                    <= (#[trigger] groups.deep_view()[b]).total_pnl <= GROUP_PNL_BOUND as int by {
                    if b < groups@.len() - 1 {
                        assert(groups.deep_view()[b] == groups_pre_push[b]);
                    } else {
                        assert(groups.deep_view()[b].total_pnl == total_pnl as int);
                    }
                }
                claimed_set = claimed0.union(members_idx.to_set());
                assert forall|k: int| 0 <= k < n implies #[trigger] claimed@[k]
                    == claimed_set.contains(k) by {
                    assert(claimed@[k] == (claimed0.contains(k) || members_idx.contains(k)));
                    assert(members_idx.to_set().contains(k) == members_idx.contains(k));
                }
                let gmap = |g: Seq<int>| group_model_of(ts, pv, g);
                assert(build_groups(ts, claimed0, i as int) == seq![
                    group_of(ts, claimed0, i as int),
                ] + build_groups(ts, claimed_set, i + 1));
                let built = group_model_of(ts, pv, members_idx);
                assert(groups.deep_view().last() =~~= built);
                assert(build_groups(ts, claimed0, i as int).map_values(gmap) =~= seq![built]
                    + build_groups(ts, claimed_set, i + 1).map_values(gmap));
                assert(gm_full =~= groups.deep_view() + build_groups(
                    ts,
                    claimed_set,
                    i + 1,
                ).map_values(gmap));
            }
        } else {
            proof {
                let gmap = |g: Seq<int>| group_model_of(ts, pv, g);
                assert(build_groups(ts, claimed_set, i as int) == build_groups(
                    ts,
                    claimed_set,
                    i + 1,
                ));
            }
        }
        i = i + 1;
    }
    proof {
        assert(build_groups(ts, claimed_set, n as int) =~= Seq::<Seq<int>>::empty());
        assert(gm_full =~= groups.deep_view());
    }
    let ghost full = groups.deep_view();
    let total_groups = groups.len();
    let mut out: Vec<PositionGroup> = Vec::new();
    let mut k: usize = 0;
    proof {
        assert(full.len() == total_groups as int);
        assert(groups.deep_view() =~= full.skip(0));
        assert(full.take(0) =~= Seq::<GroupModel>::empty());
    }
    while groups.len() > 0
        invariant
            k + groups@.len() == full.len(),
            k <= full.len(),
            full.len() <= usize::MAX,
            groups.deep_view() =~= full.skip(k as int),
            out.deep_view() == sort_groups_desc(full.take(k as int)),
            forall|b: int| 0 <= b < full.len() ==> -(GROUP_PNL_BOUND as int)
                <= (#[trigger] full[b]).total_pnl <= GROUP_PNL_BOUND as int,
            forall|b: int| 0 <= b < out@.len() ==> -(GROUP_PNL_BOUND as int)
                <= (#[trigger] out.deep_view()[b]).total_pnl <= GROUP_PNL_BOUND as int,
        decreases groups@.len(),
    {
        let ghost pre = groups.deep_view();
        let g = groups.remove(0);
        proof {
            assert(pre[0] == full.skip(k as int)[0]);
            assert(g@ == full[k as int]);
            assert(groups.deep_view() =~= pre.drop_first());
            assert(groups.deep_view() =~= full.skip(k + 1));
            assert(full.take(k + 1).drop_last() =~= full.take(k as int));
            assert(full.take(k + 1).last() == full[k as int]);
        }
        let ghost out_pre = out.deep_view();
        insert_group_by_time_desc(&mut out, g);
        proof {
            lemma_insert_group_membership(g@, out_pre);
            assert forall|b: int| 0 <= b < out@.len() implies -(GROUP_PNL_BOUND as int)
                <= (#[trigger] out.deep_view()[b]).total_pnl <= GROUP_PNL_BOUND as int by {
                assert(out.deep_view()[b] == g@ || out_pre.contains(out.deep_view()[b]));
                if out.deep_view()[b] != g@ {
                    let w = choose|w: int| 0 <= w < out_pre.len() && out_pre[w] == out.deep_view()[b];
                }
            }
        }
        k = k + 1;
    }
    proof {
        assert(full.take(k as int) =~= full);
    }
    out
}

/// How many groups of an index partition contain the index.
pub open spec fn count_groups_containing(gs: Seq<Seq<int>>, idx: int) -> int
    decreases gs.len(),
{
    if gs.len() == 0 {
        0
    } else {
        (if gs[0].contains(idx) {
            1int
        } else {
            0
        }) + count_groups_containing(gs.drop_first(), idx)
    }
}

/// Whether a group holds a fill with the given identifier.
pub open spec fn group_has_id(g: GroupModel, id: int) -> bool {
    exists|k: int| 0 <= k < g.position_trades.len() && (#[trigger] g.position_trades[k]).id == id
}

/// How many groups hold a fill with the given identifier.
pub open spec fn count_groups_with_id(gs: Seq<GroupModel>, id: int) -> int
    decreases gs.len(),
{
    if gs.len() == 0 {
        0
    } else {
        (if group_has_id(gs[0], id) {
            1int
        } else {
            0
        }) + count_groups_with_id(gs.drop_first(), id)
    }
}

/// Every index a gather run collects lies in `[j, len)`, is unclaimed, and
/// carries the group's symbol.
proof fn lemma_gather_elements(
    ts: Seq<TradeModel>,
    claimed: Set<int>,
    sym: Seq<char>,
    j: int,
    size: int,
)
    ensures
        forall|x: int| #[trigger] gather(ts, claimed, sym, j, size).contains(x) ==> j <= x
            < ts.len() && !claimed.contains(x) && ts[x].symbol == sym,
    decreases ts.len() - j,
{
    if j < 0 || j >= ts.len() {
    } else if ts[j].symbol != sym || claimed.contains(j) {
        lemma_gather_elements(ts, claimed, sym, j + 1, size);
        assert forall|x: int| #[trigger] gather(ts, claimed, sym, j, size).contains(x) implies j
            <= x < ts.len() && !claimed.contains(x) && ts[x].symbol == sym by {
            assert(gather(ts, claimed, sym, j + 1, size).contains(x));
        }
    } else {
        let size2 = size + signed_of(ts[j]);
        if size2 == 0 {
            assert forall|x: int| #[trigger] gather(ts, claimed, sym, j, size).contains(
                x,
            ) implies j <= x < ts.len() && !claimed.contains(x) && ts[x].symbol == sym by {
                assert(gather(ts, claimed, sym, j, size) == seq![j]);
                let w = choose|w: int| 0 <= w < seq![j].len() && seq![j][w] == x;
                assert(x == j);
            }
        } else {
            lemma_gather_elements(ts, claimed, sym, j + 1, size2);
            let rest = gather(ts, claimed, sym, j + 1, size2);
            assert(gather(ts, claimed, sym, j, size) == seq![j] + rest);
            assert forall|x: int| #[trigger] gather(ts, claimed, sym, j, size).contains(
                x,
            ) implies j <= x < ts.len() && !claimed.contains(x) && ts[x].symbol == sym by {
                assert((seq![j] + rest).contains(x));
                let w = choose|w: int| 0 <= w < (seq![j] + rest).len() && (seq![j] + rest)[w] == x;
                if w == 0 {
                    assert((seq![j] + rest)[0] == j);
                    assert(x == j);
                } else {
                    assert(rest[w - 1] == x);
                    assert(gather(ts, claimed, sym, j + 1, size2).contains(x));
                }
            }
        }
    }
}

/// The scan puts each unclaimed index at or after `i` into exactly one
/// group, and claimed or out-of-range indices into none.
proof fn lemma_build_groups_count(ts: Seq<TradeModel>, claimed: Set<int>, i: int, idx: int)
    requires
        0 <= i,
    ensures
        count_groups_containing(build_groups(ts, claimed, i), idx) == (if i <= idx < ts.len()
            && !claimed.contains(idx) {
            1int
        } else {
            0
        }),
    decreases ts.len() - i,
{
    if i < 0 || i >= ts.len() {
    } else if claimed.contains(i) {
        lemma_build_groups_count(ts, claimed, i + 1, idx);
    } else {
        let g0 = group_of(ts, claimed, i);
        let claimed2 = claimed.union(g0.to_set());
        let rest = build_groups(ts, claimed2, i + 1);
        let gs = build_groups(ts, claimed, i);
        assert(gs == seq![g0] + rest);
        assert(gs.drop_first() =~= rest);
        assert(gs[0] == g0);
        lemma_build_groups_count(ts, claimed2, i + 1, idx);
        lemma_gather_elements(ts, claimed, ts[i].symbol, i + 1, signed_of(ts[i]));
        assert(g0.to_set().contains(idx) == g0.contains(idx));
        assert(g0[0] == i);
        if g0.contains(idx) {
            assert forall|x: int| g0.contains(x) implies i <= x < ts.len() && !claimed.contains(
                x,
            ) by {
                let w = choose|w: int| 0 <= w < g0.len() && g0[w] == x;
                if w > 0 {
                    let tail = gather(ts, claimed, ts[i].symbol, i + 1, signed_of(ts[i]));
                    assert(tail[w - 1] == x);
                    assert(gather(ts, claimed, ts[i].symbol, i + 1, signed_of(ts[i])).contains(x));
                }
            }
            assert(claimed2.contains(idx));
            assert(count_groups_containing(rest, idx) == 0);
        } else {
            assert(!g0.to_set().contains(idx));
            if i <= idx < ts.len() && !claimed.contains(idx) {
                assert(idx != i) by {
                    assert(g0[0] == i);
                    if idx == i {
                        assert(g0.contains(i));
                    }
                }
                assert(!claimed2.contains(idx));
                assert(count_groups_containing(rest, idx) == 1);
            } else {
                assert(count_groups_containing(rest, idx) == 0);
            }
        }
    }
}

/// With unique identifiers, a group record holds the identifier of the fill
/// at `idx` exactly when the group's index list holds `idx`.
proof fn lemma_group_id_membership(
    ts: Seq<TradeModel>,
    ps: Seq<PairModel>,
    g: Seq<int>,
    idx: int,
)
    requires
        crate::trade::unique_ids(ts),
        0 <= idx < ts.len(),
        forall|x: int| g.contains(x) ==> 0 <= x < ts.len(),
    ensures
        group_has_id(group_model_of(ts, ps, g), ts[idx].id) == g.contains(idx),
{
    let gm = group_model_of(ts, ps, g);
    if g.contains(idx) {
        let w = choose|w: int| 0 <= w < g.len() && g[w] == idx;
        assert(gm.position_trades[w].id == ts[idx].id);
    }
    if group_has_id(gm, ts[idx].id) {
        let k = choose|k: int| 0 <= k < gm.position_trades.len()
            && (#[trigger] gm.position_trades[k]).id == ts[idx].id;
        assert(gm.position_trades[k] == ts[g[k]]);
        assert(g.contains(g[k]));
        assert(0 <= g[k] < ts.len());
        assert(g[k] == idx) by {
            if g[k] != idx {
                if g[k] < idx {
                    assert(ts[g[k]].id != ts[idx].id);
                } else {
                    assert(ts[idx].id != ts[g[k]].id);
                }
            }
        }
        assert(g.contains(idx));
    }
}

/// The identifier count agrees between an index partition and its group
/// records.
proof fn lemma_count_id_of_mapped(
    ts: Seq<TradeModel>,
    ps: Seq<PairModel>,
    gs: Seq<Seq<int>>,
    idx: int,
)
    requires
        crate::trade::unique_ids(ts),
        0 <= idx < ts.len(),
        forall|a: int, x: int| 0 <= a < gs.len() && #[trigger] gs[a].contains(x) ==> 0 <= x
            < ts.len(),
    ensures
        count_groups_with_id(gs.map_values(|g: Seq<int>| group_model_of(ts, ps, g)), ts[idx].id)
            == count_groups_containing(gs, idx),
    decreases gs.len(),
{
    let mapped = gs.map_values(|g: Seq<int>| group_model_of(ts, ps, g));
    if gs.len() == 0 {
        assert(mapped =~= Seq::<GroupModel>::empty());
    } else {
        assert(forall|x: int| gs[0].contains(x) ==> 0 <= x < ts.len());
        lemma_group_id_membership(ts, ps, gs[0], idx);
        assert(forall|a: int, x: int| 0 <= a < gs.drop_first().len() && #[trigger] gs.drop_first()[a].contains(x)
            ==> 0 <= x < ts.len()) by {
            assert(forall|a: int| 0 <= a < gs.drop_first().len() ==> gs.drop_first()[a] == gs[a + 1]);
        }
        lemma_count_id_of_mapped(ts, ps, gs.drop_first(), idx);
        assert(mapped.drop_first() =~= gs.drop_first().map_values(
            |g: Seq<int>| group_model_of(ts, ps, g),
        ));
        assert(mapped[0] == group_model_of(ts, ps, gs[0]));
    }
}

/// Appending a group record adds its own contribution to the count.
proof fn lemma_count_id_push(gs: Seq<GroupModel>, g: GroupModel, id: int)
    ensures
        count_groups_with_id(gs.push(g), id) == count_groups_with_id(gs, id) + (if group_has_id(
            g,
            id,
        ) {
            1int
        } else {
            0
        }),
    decreases gs.len(),
{
    if gs.len() == 0 {
        assert(gs.push(g).drop_first() =~= Seq::<GroupModel>::empty());
        assert(gs.push(g)[0] == g);
        assert(count_groups_with_id(Seq::<GroupModel>::empty(), id) == 0);
    } else {
        assert(gs.push(g).drop_first() =~= gs.drop_first().push(g));
        assert(gs.push(g)[0] == gs[0]);
        lemma_count_id_push(gs.drop_first(), g, id);
    }
}

/// Inserting a group into the presentation order keeps the counts.
proof fn lemma_insert_group_count(g: GroupModel, s: Seq<GroupModel>, id: int)
    ensures
        count_groups_with_id(insert_group_desc(g, s), id) == count_groups_with_id(s, id) + (
        if group_has_id(g, id) {
            1int
        } else {
            0
        }),
    decreases s.len(),
{
    if s.len() == 0 {
        assert(insert_group_desc(g, s) == seq![g]);
        assert(seq![g].drop_first() =~= Seq::<GroupModel>::empty());
        assert(seq![g][0] == g);
        assert(count_groups_with_id(Seq::<GroupModel>::empty(), id) == 0);
    } else if s.last().entry_trade.timestamp >= g.entry_trade.timestamp {
        lemma_count_id_push(s, g, id);
    } else {
        lemma_insert_group_count(g, s.drop_last(), id);
        lemma_count_id_push(insert_group_desc(g, s.drop_last()), s.last(), id);
        lemma_count_id_drop_last(s, id);
    }
}

/// Peeling the last group off the identifier count.
proof fn lemma_count_id_drop_last(s: Seq<GroupModel>, id: int)
    requires
        s.len() > 0,
    ensures
        count_groups_with_id(s, id) == count_groups_with_id(s.drop_last(), id) + (if group_has_id(
            s.last(),
            id,
        ) {
            1int
        } else {
            0
        }),
{
    assert(s =~= s.drop_last().push(s.last()));
    lemma_count_id_push(s.drop_last(), s.last(), id);
}

/// Sorting the groups for presentation keeps the counts.
proof fn lemma_sort_groups_count(s: Seq<GroupModel>, id: int)
    ensures
        count_groups_with_id(sort_groups_desc(s), id) == count_groups_with_id(s, id),
    decreases s.len(),
{
    if s.len() > 0 {
        lemma_sort_groups_count(s.drop_last(), id);
        lemma_insert_group_count(s.last(), sort_groups_desc(s.drop_last()), id);
        lemma_count_id_drop_last(s, id);
    }
}

/// Every fill of the filtered ledger occurs in the ledger.
proof fn lemma_filtered_membership(ts: Seq<TradeModel>)
    ensures
        forall|i: int| 0 <= i < filtered_filled(ts).len() ==> ts.contains(
            #[trigger] filtered_filled(ts)[i],
        ),
    decreases ts.len(),
{
    if ts.len() > 0 {
        lemma_filtered_membership(ts.drop_last());
        assert forall|i: int| 0 <= i < filtered_filled(ts).len() implies ts.contains(
            #[trigger] filtered_filled(ts)[i],
        ) by {
            let x = filtered_filled(ts)[i];
            if ts.last().status == TradeStatus::Filled && i == filtered_filled(ts).len() - 1 {
                assert(x == ts.last());
                assert(ts[ts.len() - 1] == x);
            } else {
                assert(filtered_filled(ts.drop_last())[i] == x);
                assert(ts.drop_last().contains(x));
                let w = choose|w: int| 0 <= w < ts.drop_last().len() && ts.drop_last()[w] == x;
                assert(ts[w] == x);
            }
        }
    }
}

/// Unique identifiers survive the filter.
proof fn lemma_filtered_unique(ts: Seq<TradeModel>)
    requires
        crate::trade::unique_ids(ts),
    ensures
        crate::trade::unique_ids(filtered_filled(ts)),
    decreases ts.len(),
{
    if ts.len() > 0 {
        assert(crate::trade::unique_ids(ts.drop_last())) by {
            assert(forall|i: int| 0 <= i < ts.len() - 1 ==> ts.drop_last()[i] == ts[i]);
        }
        lemma_filtered_unique(ts.drop_last());
        lemma_filtered_membership(ts.drop_last());
        let flt = filtered_filled(ts);
        if ts.last().status == TradeStatus::Filled {
            assert forall|i: int, j: int| 0 <= i < j < flt.len() implies (#[trigger] flt[i]).id
                != (#[trigger] flt[j]).id by {
                if j == flt.len() - 1 {
                    assert(flt[j] == ts.last());
                    assert(flt[i] == filtered_filled(ts.drop_last())[i]);
                    assert(ts.drop_last().contains(flt[i]));
                    let w = choose|w: int| 0 <= w < ts.drop_last().len() && ts.drop_last()[w]
                        == flt[i];
                    assert(ts[w].id != ts[ts.len() - 1].id);
                } else {
                    assert(flt[i] == filtered_filled(ts.drop_last())[i]);
                    assert(flt[j] == filtered_filled(ts.drop_last())[j]);
                }
            }
        }
    }
}

/// Unique identifiers survive the timestamp sort.
proof fn lemma_sorted_unique(ts: Seq<TradeModel>)
    requires
        crate::trade::unique_ids(ts),
    ensures
        crate::trade::unique_ids(sort_by_time(ts)),
    decreases ts.len(),
{
    if ts.len() > 0 {
        assert(crate::trade::unique_ids(ts.drop_last())) by {
            assert(forall|i: int| 0 <= i < ts.len() - 1 ==> ts.drop_last()[i] == ts[i]);
        }
        lemma_sorted_unique(ts.drop_last());
        crate::conservation::lemma_sort_membership(ts.drop_last());
        let inner = sort_by_time(ts.drop_last());
        assert forall|k: int| 0 <= k < inner.len() implies (#[trigger] inner[k]).id
            != ts.last().id by {
            assert(ts.drop_last().contains(inner[k]));
            let w = choose|w: int| 0 <= w < ts.drop_last().len() && ts.drop_last()[w] == inner[k];
            assert(ts[w] == inner[k]);
            assert(ts[w].id != ts[ts.len() - 1].id);
        }
        lemma_insert_unique(ts.last(), inner);
    }
}

/// Inserting a fill whose identifier is fresh keeps identifiers unique.
proof fn lemma_insert_unique(t: TradeModel, s: Seq<TradeModel>)
    requires
        crate::trade::unique_ids(s),
        forall|k: int| 0 <= k < s.len() ==> (#[trigger] s[k]).id != t.id,
    ensures
        crate::trade::unique_ids(insert_by_time(t, s)),
    decreases s.len(),
{
    if s.len() == 0 {
        assert(insert_by_time(t, s) == seq![t]);
    } else if s.last().timestamp <= t.timestamp {
        let r = s.push(t);
        assert forall|i: int, j: int| 0 <= i < j < r.len() implies (#[trigger] r[i]).id
            != (#[trigger] r[j]).id by {
            if j == r.len() - 1 {
                assert(r[i] == s[i] && r[j] == t);
            } else {
                assert(r[i] == s[i] && r[j] == s[j]);
            }
        }
    } else {
        assert(crate::trade::unique_ids(s.drop_last())) by {
            assert(forall|i: int| 0 <= i < s.len() - 1 ==> s.drop_last()[i] == s[i]);
        }
        assert(forall|k: int| 0 <= k < s.drop_last().len() ==> (#[trigger] s.drop_last()[k]).id
            != t.id) by {
            assert(forall|i: int| 0 <= i < s.len() - 1 ==> s.drop_last()[i] == s[i]);
        }
        lemma_insert_unique(t, s.drop_last());
        crate::conservation::lemma_insert_membership(t, s.drop_last());
        let inner = insert_by_time(t, s.drop_last());
        let r = inner.push(s.last());
        assert forall|i: int, j: int| 0 <= i < j < r.len() implies (#[trigger] r[i]).id
            != (#[trigger] r[j]).id by {
            if j == r.len() - 1 {
                assert(r[i] == inner[i] && r[j] == s.last());
                assert(inner[i] == t || s.drop_last().contains(inner[i]));
                if inner[i] == t {
                    assert(s[s.len() - 1].id != t.id);
                } else {
                    let w = choose|w: int| 0 <= w < s.drop_last().len() && s.drop_last()[w]
                        == inner[i];
                    assert(s[w] == inner[i]);
                    assert(s[w].id != s[s.len() - 1].id);
                }
            } else {
                assert(r[i] == inner[i] && r[j] == inner[j]);
            }
        }
    }
}

/// Partition: with unique identifiers, every executed fill of the ledger is
/// claimed by exactly one position group of the grouper's output.
pub proof fn grouping_partitions(ts_in: Seq<TradeModel>, ps: Seq<PairModel>)
    requires
        crate::trade::unique_ids(ts_in),
    ensures
        ({
            let ts = sort_by_time(filtered_filled(ts_in));
            forall|idx: int| 0 <= idx < ts.len() ==> count_groups_with_id(
                positions_model(ts_in, ps),
                (#[trigger] ts[idx]).id,
            ) == 1
        }),
{
    let ts = sort_by_time(filtered_filled(ts_in));
    lemma_filtered_unique(ts_in);
    lemma_sorted_unique(filtered_filled(ts_in));
    let gs = build_groups(ts, Set::empty(), 0);
    assert forall|idx: int| 0 <= idx < ts.len() implies count_groups_with_id(
        positions_model(ts_in, ps),
        (#[trigger] ts[idx]).id,
    ) == 1 by {
        lemma_build_groups_count(ts, Set::empty(), 0, idx);
        lemma_build_groups_elements(ts, Set::empty(), 0);
        lemma_count_id_of_mapped(ts, ps, gs, idx);
        lemma_sort_groups_count(gs.map_values(|g: Seq<int>| group_model_of(ts, ps, g)), ts[idx].id);
    }
}

/// Every index of every group the scan builds is in range.
proof fn lemma_build_groups_elements(ts: Seq<TradeModel>, claimed: Set<int>, i: int)
    ensures
        forall|a: int, x: int| 0 <= a < build_groups(ts, claimed, i).len() && #[trigger] build_groups(
            ts,
            claimed,
            i,
        )[a].contains(x) ==> 0 <= x < ts.len(),
    decreases ts.len() - i,
{
    if i < 0 || i >= ts.len() {
    } else if claimed.contains(i) {
        lemma_build_groups_elements(ts, claimed, i + 1);
        assert forall|a: int, x: int| 0 <= a < build_groups(ts, claimed, i).len()
            && #[trigger] build_groups(ts, claimed, i)[a].contains(x) implies 0 <= x
            < ts.len() by {
            assert(build_groups(ts, claimed, i + 1)[a].contains(x));
        }
    } else {
        let g0 = group_of(ts, claimed, i);
        let claimed2 = claimed.union(g0.to_set());
        lemma_build_groups_elements(ts, claimed2, i + 1);
        lemma_gather_elements(ts, claimed, ts[i].symbol, i + 1, signed_of(ts[i]));
        let gs = build_groups(ts, claimed, i);
        let rest = build_groups(ts, claimed2, i + 1);
        assert(gs == seq![g0] + rest);
        assert forall|a: int, x: int| 0 <= a < build_groups(ts, claimed, i).len()
            && #[trigger] build_groups(ts, claimed, i)[a].contains(x) implies 0 <= x
            < ts.len() by {
            assert(gs[a].contains(x));
            if a == 0 {
                assert(gs[0] == g0);
                let w = choose|w: int| 0 <= w < g0.len() && g0[w] == x;
                if w > 0 {
                    let tail = gather(ts, claimed, ts[i].symbol, i + 1, signed_of(ts[i]));
                    assert(tail[w - 1] == x);
                    assert(gather(ts, claimed, ts[i].symbol, i + 1, signed_of(ts[i])).contains(x));
                }
            } else {
                assert(gs[a] == rest[a - 1]);
                assert(rest[a - 1].contains(x));
            }
        }
    }
}

/// Every group of an insertion result is the inserted group or one of the
/// original sequence.
proof fn lemma_insert_group_membership(g: GroupModel, s: Seq<GroupModel>)
    ensures
        forall|i: int| 0 <= i < insert_group_desc(g, s).len() ==> insert_group_desc(g, s)[i] == g
            || s.contains(#[trigger] insert_group_desc(g, s)[i]),
    decreases s.len(),
{
    if s.len() == 0 {
    } else if s.last().entry_trade.timestamp >= g.entry_trade.timestamp {
        assert forall|i: int| 0 <= i < s.push(g).len() implies s.push(g)[i] == g || s.contains(
            #[trigger] s.push(g)[i],
        ) by {
            if i < s.len() {
                assert(s[i] == s.push(g)[i]);
            }
        }
    } else {
        lemma_insert_group_membership(g, s.drop_last());
        let inner = insert_group_desc(g, s.drop_last());
        assert forall|i: int| 0 <= i < inner.push(s.last()).len() implies inner.push(s.last())[i]
            == g || s.contains(#[trigger] inner.push(s.last())[i]) by {
            let x = inner.push(s.last())[i];
            if i < inner.len() {
                assert(inner[i] == x);
                if x != g {
                    assert(s.drop_last().contains(x));
                    let v = choose|v: int| 0 <= v < s.drop_last().len() && s.drop_last()[v] == x;
                    assert(s[v] == x);
                }
            } else {
                assert(x == s.last());
                assert(s[s.len() - 1] == x);
            }
        }
    }
}

/// Membership in a pushed sequence: the old members plus the new element.
proof fn lemma_contains_push(s: Seq<int>, x: int, y: int)
    ensures
        s.push(x).contains(y) <==> (s.contains(y) || y == x),
{
    if s.contains(y) {
        let w = choose|w: int| 0 <= w < s.len() && s[w] == y;
        assert(s.push(x)[w] == y);
    }
    if y == x {
        assert(s.push(x)[s.len() as int] == y);
    }
    if s.push(x).contains(y) {
        let w = choose|w: int| 0 <= w < s.push(x).len() && s.push(x)[w] == y;
        if w < s.len() {
            assert(s[w] == y);
        }
    }
}

/// Signed sum over a pushed fill splits off the last contribution.
proof fn lemma_signed_sum_push(s: Seq<TradeModel>, t: TradeModel)
    ensures
        signed_sum(s.push(t)) == signed_sum(s) + signed_of(t),
    decreases s.len(),
{
    if s.len() == 0 {
        assert(s.push(t).drop_first() =~= Seq::<TradeModel>::empty());
        assert(signed_sum(Seq::<TradeModel>::empty()) == 0);
        assert(s.push(t)[0] == t);
    } else {
        assert(s.push(t).drop_first() =~= s.drop_first().push(t));
        lemma_signed_sum_push(s.drop_first(), t);
        assert(s.push(t)[0] == s[0]);
        assert(signed_sum(s.push(t)) == signed_of(s[0]) + signed_sum(s.drop_first().push(t)));
        assert(signed_sum(s) == signed_of(s[0]) + signed_sum(s.drop_first()));
    }
}

} // verus!
