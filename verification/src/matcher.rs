//! The trade matcher: partitions a ledger of buys and sells into matched
//! entry/exit pairs with realized P&L, plus the still-open remainders, under
//! a FIFO or LIFO lot-selection policy.
//!
//! The whole computation is pinned by a functional model: trades are sorted
//! by timestamp (stably), then folded one by one over per-symbol books of
//! open long and short lots. A buy first closes short lots, oldest (FIFO) or
//! newest (LIFO) first, and any unmatched remainder opens a long lot; a sell
//! does the symmetric thing. Fees are prorated by the closed share of the
//! remaining quantity on each side, which conserves each fill's fee exactly.

use vstd::prelude::*;

use crate::symbols::spec_is_options_symbol;
use crate::symbols::is_options_symbol;
use crate::trade::MAX_FEE;
use crate::trade::MAX_PRICE;
use crate::trade::MAX_QUANTITY;
use crate::trade::PairModel;
use crate::trade::PairedTrade;
use crate::trade::Side;
use crate::trade::Trade;
use crate::trade::TradeModel;
use crate::trade::TradeStatus;
use crate::trade::opt_model;
use crate::trade::valid_trade_model;
use crate::trade::valid_trades;
use crate::trade::valid_pair_model;
use crate::trade::valid_pairs;

verus! {

/// One open lot: the unmatched remainder of a fill, waiting to be closed.
#[derive(Debug)]
pub struct Lot {
    pub id: i64,
    pub quantity: u64,
    pub price: i64,
    pub timestamp: i64,
    pub fee: u64,
    pub strategy_id: Option<i64>,
}

/// Mathematical model of a [`Lot`].
#[verifier::ext_equal]
pub struct LotModel {
    pub id: int,
    pub quantity: int,
    pub price: int,
    pub timestamp: int,
    pub fee: int,
    pub strategy_id: Option<int>,
}

impl View for Lot {
    type V = LotModel;

    open spec fn view(&self) -> LotModel {
        LotModel {
            id: self.id as int,
            quantity: self.quantity as int,
            price: self.price as int,
            timestamp: self.timestamp as int,
            fee: self.fee as int,
            strategy_id: opt_model(self.strategy_id),
        }
    }
}

impl DeepView for Lot {
    type V = LotModel;

    open spec fn deep_view(&self) -> LotModel {
        self.view()
    }
}

/// The per-symbol book: open long lots (entered by buys) and open short
/// lots (entered by sells), each in entry order.
#[derive(Debug)]
pub struct Book {
    pub symbol: String,
    pub long: Vec<Lot>,
    pub short: Vec<Lot>,
}

/// Mathematical model of a [`Book`].
#[verifier::ext_equal]
pub struct BookModel {
    pub symbol: Seq<char>,
    pub long: Seq<LotModel>,
    pub short: Seq<LotModel>,
}

impl View for Book {
    type V = BookModel;

    open spec fn view(&self) -> BookModel {
        BookModel { symbol: self.symbol@, long: self.long.deep_view(), short: self.short.deep_view() }
    }
}

impl DeepView for Book {
    type V = BookModel;

    open spec fn deep_view(&self) -> BookModel {
        self.view()
    }
}

/// P&L multiplier of a symbol: 100 for an option contract, 1 otherwise.
pub open spec fn multiplier_of(sym: Seq<char>) -> int {
    if spec_is_options_symbol(sym) {
        100
    } else {
        1
    }
}

/// The smaller of two integers.
pub open spec fn min_int(a: int, b: int) -> int {
    if a < b {
        a
    } else {
        b
    }
}

/// Result of running one incoming fill against a queue of opposing lots.
#[verifier::ext_equal]
pub struct CloseResult {
    /// Pairs emitted, in emission order.
    pub pairs: Seq<PairModel>,
    /// The queue after closing.
    pub lots: Seq<LotModel>,
    /// Unmatched quantity of the incoming fill.
    pub rem_qty: int,
    /// Unconsumed fee of the incoming fill.
    pub rem_fee: int,
}

/// The pair emitted when the incoming fill `t` closes quantity `q` of
/// `lot`. The lot is always the entry side; for a long position the exit
/// price is the incoming sell, for a short position the incoming buy.
/// The gross is signed for the posture: sell price minus buy price on
/// either side, so a short close earns when the entry sell was above the
/// exit buy.
pub open spec fn close_pair(
    lot: LotModel,
    t: TradeModel,
    q: int,
    lot_take: int,
    in_take: int,
    long_side: bool,
) -> PairModel {
    let mult = multiplier_of(t.symbol);
    let gross = if long_side {
        (t.price - lot.price) * q * mult
    } else {
        (lot.price - t.price) * q * mult
    };
    PairModel {
        symbol: t.symbol,
        entry_trade_id: lot.id,
        exit_trade_id: t.id,
        quantity: q,
        entry_price: lot.price,
        exit_price: t.price,
        entry_timestamp: lot.timestamp,
        exit_timestamp: t.timestamp,
        gross_profit_loss: gross,
        entry_fees: lot_take,
        exit_fees: in_take,
        net_profit_loss: gross - (lot_take + in_take) * mult,
        strategy_id: if lot.strategy_id is Some {
            lot.strategy_id
        } else {
            t.strategy_id
        },
    }
}

/// Run the incoming fill `t`, with `rem_qty` quantity and `rem_fee` fee
/// still unconsumed, against the opposing lot queue. FIFO picks the oldest
/// lot, LIFO the newest. The closed quantity of each step is the smaller of
/// the incoming remainder and the lot's remainder; each side's fee is
/// prorated by the closed share of that side's remaining quantity.
pub open spec fn close_lots(
    lots: Seq<LotModel>,
    fifo: bool,
    t: TradeModel,
    rem_qty: int,
    rem_fee: int,
    long_side: bool,
) -> CloseResult
    decreases lots.len(),
{
    if rem_qty <= 0 || lots.len() == 0 {
        CloseResult { pairs: Seq::empty(), lots, rem_qty, rem_fee }
    } else {
        let idx = if fifo {
            0
        } else {
            lots.len() - 1
        };
        let lot = lots[idx];
        let q = min_int(rem_qty, lot.quantity);
        let lot_take = lot.fee * q / lot.quantity;
        let in_take = rem_fee * q / rem_qty;
        let pair = close_pair(lot, t, q, lot_take, in_take, long_side);
        if q == lot.quantity {
            let rest = close_lots(
                lots.remove(idx),
                fifo,
                t,
                rem_qty - q,
                rem_fee - in_take,
                long_side,
            );
            CloseResult {
                pairs: seq![pair] + rest.pairs,
                lots: rest.lots,
                rem_qty: rest.rem_qty,
                rem_fee: rest.rem_fee,
            }
        } else {
            let lot2 = LotModel {
                id: lot.id,
                quantity: lot.quantity - q,
                price: lot.price,
                timestamp: lot.timestamp,
                fee: lot.fee - lot_take,
                strategy_id: lot.strategy_id,
            };
            CloseResult {
                pairs: seq![pair],
                lots: lots.update(idx, lot2),
                rem_qty: rem_qty - q,
                rem_fee: rem_fee - in_take,
            }
        }
    }
}

/// Index of the book for `sym`, or `-1` when no book holds it yet.
pub open spec fn find_book(books: Seq<BookModel>, sym: Seq<char>) -> int
    decreases books.len(),
{
    if books.len() == 0 {
        -1
    } else if books[0].symbol == sym {
        0
    } else {
        let r = find_book(books.drop_first(), sym);
        if r == -1 {
            -1
        } else {
            r + 1
        }
    }
}

/// The matcher's running state: per-symbol books in order of first
/// appearance, and the pairs emitted so far.
#[verifier::ext_equal]
pub struct MatchState {
    pub books: Seq<BookModel>,
    pub pairs: Seq<PairModel>,
}

/// The lot opened by the unmatched remainder of fill `t`.
pub open spec fn remainder_lot(t: TradeModel, rem_qty: int, rem_fee: int) -> LotModel {
    LotModel {
        id: t.id,
        quantity: rem_qty,
        price: t.price,
        timestamp: t.timestamp,
        fee: rem_fee,
        strategy_id: t.strategy_id,
    }
}

/// What one fill does to its symbol's book: the opposing side after
/// closing, and the fill's own side extended by any remainder lot.
pub open spec fn book_after(b: BookModel, t: TradeModel, fifo: bool) -> BookModel {
    if t.side == Side::Buy {
        let cr = close_lots(b.short, fifo, t, t.quantity, t.fees, false);
        BookModel {
            symbol: b.symbol,
            long: if cr.rem_qty > 0 {
                b.long.push(remainder_lot(t, cr.rem_qty, cr.rem_fee))
            } else {
                b.long
            },
            short: cr.lots,
        }
    } else {
        let cr = close_lots(b.long, fifo, t, t.quantity, t.fees, true);
        BookModel {
            symbol: b.symbol,
            long: cr.lots,
            short: if cr.rem_qty > 0 {
                b.short.push(remainder_lot(t, cr.rem_qty, cr.rem_fee))
            } else {
                b.short
            },
        }
    }
}

/// Process one fill: close opposing lots first, then open or extend the
/// fill's own side with any remainder. A symbol seen for the first time
/// gets a fresh book at the end of the book list.
pub open spec fn apply_trade(st: MatchState, t: TradeModel, fifo: bool) -> MatchState {
    let bi0 = find_book(st.books, t.symbol);
    let books = if bi0 == -1 {
        st.books.push(BookModel { symbol: t.symbol, long: Seq::empty(), short: Seq::empty() })
    } else {
        st.books
    };
    let bi = if bi0 == -1 {
        books.len() - 1
    } else {
        bi0
    };
    let book = books[bi];
    let cr = if t.side == Side::Buy {
        close_lots(book.short, fifo, t, t.quantity, t.fees, false)
    } else {
        close_lots(book.long, fifo, t, t.quantity, t.fees, true)
    };
    MatchState {
        books: books.update(bi, book_after(book, t, fifo)),
        pairs: st.pairs + cr.pairs,
    }
}

/// Fold the fills, in the given order, over an empty starting state.
pub open spec fn run_trades(ts: Seq<TradeModel>, fifo: bool) -> MatchState
    decreases ts.len(),
{
    if ts.len() == 0 {
        MatchState { books: Seq::empty(), pairs: Seq::empty() }
    } else {
        apply_trade(run_trades(ts.drop_last(), fifo), ts.last(), fifo)
    }
}

/// The synthetic open-position record for a leftover lot.
pub open spec fn lot_as_open_trade(sym: Seq<char>, side: Side, l: LotModel) -> TradeModel {
    TradeModel {
        id: l.id,
        symbol: sym,
        side,
        quantity: l.quantity,
        price: l.price,
        timestamp: l.timestamp,
        fees: l.fee,
        status: TradeStatus::Open,
        strategy_id: l.strategy_id,
    }
}

/// All of a book side's lots as synthetic open-position records.
pub open spec fn lots_as_open(sym: Seq<char>, side: Side, lots: Seq<LotModel>) -> Seq<TradeModel> {
    lots.map_values(|l: LotModel| lot_as_open_trade(sym, side, l))
}

/// Leftover long lots of every book, in book order.
pub open spec fn open_long_trades(books: Seq<BookModel>) -> Seq<TradeModel>
    decreases books.len(),
{
    if books.len() == 0 {
        Seq::empty()
    } else {
        lots_as_open(books[0].symbol, Side::Buy, books[0].long) + open_long_trades(books.drop_first())
    }
}

/// Leftover short lots of every book, in book order.
pub open spec fn open_short_trades(books: Seq<BookModel>) -> Seq<TradeModel>
    decreases books.len(),
{
    if books.len() == 0 {
        Seq::empty()
    } else {
        lots_as_open(books[0].symbol, Side::Sell, books[0].short) + open_short_trades(books.drop_first())
    }
}

/// Insert `t` behind every element whose timestamp is at or below `t`'s:
/// the insertion step of a stable sort by timestamp.
pub open spec fn insert_by_time(t: TradeModel, s: Seq<TradeModel>) -> Seq<TradeModel>
    decreases s.len(),
{
    if s.len() == 0 {
        seq![t]
    } else if s.last().timestamp <= t.timestamp {
        s.push(t)
    } else {
        insert_by_time(t, s.drop_last()).push(s.last())
    }
}

/// Stable sort of the fills by timestamp: ties keep input order.
pub open spec fn sort_by_time(s: Seq<TradeModel>) -> Seq<TradeModel>
    decreases s.len(),
{
    if s.len() == 0 {
        Seq::empty()
    } else {
        insert_by_time(s.last(), sort_by_time(s.drop_last()))
    }
}

/// The matcher, in full: sort stably by timestamp, fold over the books,
/// then emit every leftover lot as a synthetic open-position record — long
/// remainders of every book first, then short remainders, books in order of
/// first appearance.
pub open spec fn match_trades_model(ts: Seq<TradeModel>, fifo: bool) -> (Seq<PairModel>, Seq<TradeModel>) {
    let st = run_trades(sort_by_time(ts), fifo);
    (st.pairs, open_long_trades(st.books) + open_short_trades(st.books))
}

/// Every lot of the queue has positive remaining quantity and magnitudes
/// within the fixed-point bounds.
pub open spec fn lots_wf(lots: Seq<LotModel>) -> bool {
    forall|i: int| 0 <= i < lots.len() ==> lot_wf(#[trigger] lots[i])
}

/// A well-formed lot: positive remainder, bounded magnitudes.
pub open spec fn lot_wf(l: LotModel) -> bool {
    &&& 0 < l.quantity <= MAX_QUANTITY
    &&& -MAX_PRICE <= l.price <= MAX_PRICE
    &&& 0 <= l.fee <= MAX_FEE
}

/// Every book holds only well-formed lots.
pub open spec fn books_wf(books: Seq<BookModel>) -> bool {
    forall|i: int| 0 <= i < books.len()
        ==> lots_wf(#[trigger] books[i].long) && lots_wf(books[i].short)
}

/// `insert_by_time` splices its element at the boundary position: behind
/// every element with a timestamp at or below its own.
proof fn lemma_insert_by_time_at(t: TradeModel, s: Seq<TradeModel>, pos: int)
    requires
        0 <= pos <= s.len(),
        forall|j: int| pos <= j < s.len() ==> #[trigger] s[j].timestamp > t.timestamp,
        pos > 0 ==> s[pos - 1].timestamp <= t.timestamp,
    ensures
        insert_by_time(t, s) == s.subrange(0, pos) + seq![t] + s.subrange(pos, s.len() as int),
    decreases s.len(),
{
    if s.len() == 0 {
        assert(insert_by_time(t, s) =~= s.subrange(0, 0) + seq![t] + s.subrange(0, 0));
    } else if pos == s.len() {
        assert(insert_by_time(t, s) =~= s.subrange(0, pos) + seq![t] + s.subrange(pos, s.len() as int));
    } else {
        assert(s[s.len() - 1].timestamp > t.timestamp);
        lemma_insert_by_time_at(t, s.drop_last(), pos);
        assert((s.drop_last().subrange(0, pos) + seq![t] + s.drop_last().subrange(
            pos,
            s.len() - 1,
        )).push(s.last()) =~= s.subrange(0, pos) + seq![t] + s.subrange(pos, s.len() as int));
    }
}

/// The prorated fee share `fee * q / qty` is between zero and the fee, and
/// consumes the fee exactly when the whole remainder closes.
proof fn lemma_prorate_bounds(fee: int, q: int, qty: int)
    requires
        0 <= fee,
        0 < qty,
        0 <= q <= qty,
    ensures
        0 <= fee * q / qty <= fee,
        q == qty ==> fee * q / qty == fee,
{
    assert(0 <= fee * q && fee * q <= fee * qty && fee * qty == qty * fee) by (nonlinear_arith)
        requires
            0 <= fee,
            0 <= q,
            q <= qty,
    ;
    vstd::arithmetic::div_mod::lemma_div_pos_is_pos(fee * q, qty);
    vstd::arithmetic::div_mod::lemma_div_is_ordered(fee * q, fee * qty, qty);
    vstd::arithmetic::div_mod::lemma_div_multiples_vanish(fee, qty);
}

/// A price difference times a bounded quantity and multiplier stays within
/// the per-pair gross P&L bound.
proof fn lemma_gross_bounds(diff: int, q: int, mult: int)
    requires
        -2_000_000_000 <= diff <= 2_000_000_000,
        0 <= q <= 1_000_000_000,
        mult == 1 || mult == 100,
    ensures
        -200_000_000_000_000_000_000 <= diff * q * mult <= 200_000_000_000_000_000_000,
        -2_000_000_000_000_000_000 <= diff * q <= 2_000_000_000_000_000_000,
{
    assert(-200_000_000_000_000_000_000 <= diff * q * mult <= 200_000_000_000_000_000_000
        && -2_000_000_000_000_000_000 <= diff * q <= 2_000_000_000_000_000_000)
        by (nonlinear_arith)
        requires
            -2_000_000_000 <= diff <= 2_000_000_000,
            0 <= q <= 1_000_000_000,
            mult == 1 || mult == 100,
    ;
}

/// Close the incoming fill `t` against the opposing lot queue, emitting one
/// pair per closing event, and hand back its unmatched quantity and fee.
#[verifier::rlimit(100)]
fn close_against_lots(
    lots: &mut Vec<Lot>,
    pairs: &mut Vec<PairedTrade>,
    t: &Trade,
    is_fifo: bool,
    long_side: bool,
) -> (rem: (u64, u64))
    requires
        valid_trade_model(t@),
        lots_wf(old(lots).deep_view()),
    ensures
        ({
            let cr = close_lots(
                old(lots).deep_view(),
                is_fifo,
                t@,
                t@.quantity,
                t@.fees,
                long_side,
            );
            &&& final(lots).deep_view() == cr.lots
            &&& final(pairs).deep_view() == old(pairs).deep_view() + cr.pairs
            &&& rem.0 as int == cr.rem_qty
            &&& rem.1 as int == cr.rem_fee
            &&& lots_wf(final(lots).deep_view())
            &&& rem.0 <= t.quantity
            &&& rem.1 <= t.fees
            &&& valid_pairs(cr.pairs)
        }),
{
    let ghost lots0 = lots.deep_view();
    let ghost pairs0 = pairs.deep_view();
    let mult: i128 = if is_options_symbol(t.symbol.as_str()) {
        100
    } else {
        1
    };
    let mut rem_qty: u64 = t.quantity;
    let mut rem_fee: u64 = t.fees;
    while rem_qty > 0 && lots.len() > 0
        invariant
            valid_trade_model(t@),
            lots_wf(lots.deep_view()),
            rem_qty <= t.quantity,
            rem_fee <= t.fees,
            mult as int == multiplier_of(t@.symbol),
            pairs.deep_view().len() >= pairs0.len(),
            pairs.deep_view().subrange(0, pairs0.len() as int) == pairs0,
            ({
                let cr0 = close_lots(lots0, is_fifo, t@, t@.quantity, t@.fees, long_side);
                let crn = close_lots(
                    lots.deep_view(),
                    is_fifo,
                    t@,
                    rem_qty as int,
                    rem_fee as int,
                    long_side,
                );
                &&& cr0.lots == crn.lots
                &&& cr0.rem_qty == crn.rem_qty
                &&& cr0.rem_fee == crn.rem_fee
                &&& cr0.pairs == pairs.deep_view().skip(pairs0.len() as int) + crn.pairs
                &&& valid_pairs(pairs.deep_view().skip(pairs0.len() as int))
            }),
        decreases rem_qty,
    {
        let ghost lots_pre = lots.deep_view();
        let ghost pairs_pre = pairs.deep_view();
        let ghost rem_qty_pre = rem_qty as int;
        let ghost rem_fee_pre = rem_fee as int;
        let idx: usize = if is_fifo {
            0
        } else {
            lots.len() - 1
        };
        let lot_id = lots[idx].id;
        let lot_qty = lots[idx].quantity;
        let lot_price = lots[idx].price;
        let lot_ts = lots[idx].timestamp;
        let lot_fee = lots[idx].fee;
        let lot_strat = lots[idx].strategy_id;
        proof {
            assert(lot_wf(lots_pre[idx as int]));
        }
        let q: u64 = if rem_qty < lot_qty {
            rem_qty
        } else {
            lot_qty
        };
        proof {
            lemma_prorate_bounds(lot_fee as int, q as int, lot_qty as int);
            lemma_prorate_bounds(rem_fee as int, q as int, rem_qty as int);
            assert((lot_fee as int) * (q as int) <= 1_000_000_000_000_000_000
                && (rem_fee as int) * (q as int) <= 1_000_000_000_000_000_000)
                by (nonlinear_arith)
                requires
                    0 <= lot_fee as int <= 1_000_000_000,
                    0 <= rem_fee as int <= 1_000_000_000,
                    0 <= q as int <= 1_000_000_000,
            ;
        }
        let lot_take: u64 = (((lot_fee as u128) * (q as u128)) / (lot_qty as u128)) as u64;
        let in_take: u64 = (((rem_fee as u128) * (q as u128)) / (rem_qty as u128)) as u64;
        let diff: i128 = if long_side {
            (t.price as i128) - (lot_price as i128)
        } else {
            (lot_price as i128) - (t.price as i128)
        };
        proof {
            lemma_gross_bounds(diff as int, q as int, mult as int);
        }
        let gross: i128 = diff * (q as i128) * mult;
        let net: i128 = gross - ((lot_take as i128) + (in_take as i128)) * mult;
        let strategy_id = match lot_strat {
            Some(s) => Some(s),
            None => t.strategy_id,
        };
        pairs.push(
            PairedTrade {
                symbol: t.symbol.clone(),
                entry_trade_id: lot_id,
                exit_trade_id: t.id,
                quantity: q,
                entry_price: lot_price,
                exit_price: t.price,
                entry_timestamp: lot_ts,
                exit_timestamp: t.timestamp,
                gross_profit_loss: gross,
                entry_fees: lot_take,
                exit_fees: in_take,
                net_profit_loss: net,
                strategy_id,
            },
        );
        rem_fee = rem_fee - in_take;
        rem_qty = rem_qty - q;
        let ghost spec_pair = close_pair(
            lots_pre[idx as int],
            t@,
            q as int,
            lot_take as int,
            in_take as int,
            long_side,
        );
        proof {
            assert(pairs.deep_view() =~= pairs_pre + seq![spec_pair]);
        }
        if q == lot_qty {
            lots.remove(idx);
            proof {
                assert(lots.deep_view() =~= lots_pre.remove(idx as int));
            }
        } else {
            let old_lot = lots.remove(idx);
            lots.insert(
                idx,
                Lot {
                    id: old_lot.id,
                    quantity: old_lot.quantity - q,
                    price: old_lot.price,
                    timestamp: old_lot.timestamp,
                    fee: old_lot.fee - lot_take,
                    strategy_id: old_lot.strategy_id,
                },
            );
            proof {
                let lot2 = LotModel {
                    id: lots_pre[idx as int].id,
                    quantity: lots_pre[idx as int].quantity - q,
                    price: lots_pre[idx as int].price,
                    timestamp: lots_pre[idx as int].timestamp,
                    fee: lots_pre[idx as int].fee - lot_take,
                    strategy_id: lots_pre[idx as int].strategy_id,
                };
                assert(lots.deep_view() =~= lots_pre.update(idx as int, lot2));
            }
        }
        proof {
            let cr0 = close_lots(lots0, is_fifo, t@, t@.quantity, t@.fees, long_side);
            let cr_pre = close_lots(lots_pre, is_fifo, t@, rem_qty_pre, rem_fee_pre, long_side);
            let crn = close_lots(
                lots.deep_view(),
                is_fifo,
                t@,
                rem_qty as int,
                rem_fee as int,
                long_side,
            );
            assert(cr_pre.pairs =~= seq![spec_pair] + crn.pairs);
            assert(cr0.pairs =~= pairs.deep_view().skip(pairs0.len() as int) + crn.pairs);
            assert(pairs.deep_view().subrange(0, pairs0.len() as int) =~= pairs0);
            assert(valid_pair_model(spec_pair));
            let emitted_pre = pairs_pre.skip(pairs0.len() as int);
            let emitted = pairs.deep_view().skip(pairs0.len() as int);
            assert(emitted =~= emitted_pre + seq![spec_pair]);
            assert forall|i: int| 0 <= i < emitted.len() implies valid_pair_model(
                #[trigger] emitted[i],
            ) by {
                if i < emitted_pre.len() {
                    assert(valid_pair_model(emitted_pre[i]));
                }
            }
            assert(valid_pairs(pairs.deep_view().skip(pairs0.len() as int)));
        }
    }
    proof {
        let cr0 = close_lots(lots0, is_fifo, t@, t@.quantity, t@.fees, long_side);
        assert(cr0.pairs =~= pairs.deep_view().skip(pairs0.len() as int));
        assert(pairs.deep_view() =~= pairs0 + cr0.pairs);
    }
    (rem_qty, rem_fee)
}

/// When `k` is the first index whose book holds `sym`, the search finds it.
proof fn lemma_find_book_first(books: Seq<BookModel>, sym: Seq<char>, k: int)
    requires
        0 <= k < books.len(),
        books[k].symbol == sym,
        forall|j: int| 0 <= j < k ==> #[trigger] books[j].symbol != sym,
    ensures
        find_book(books, sym) == k,
    decreases books.len(),
{
    if k > 0 {
        lemma_find_book_first(books.drop_first(), sym, k - 1);
    }
}

/// One book of a well-formed book list is well-formed.
proof fn lemma_books_wf_at(books: Seq<BookModel>, i: int)
    requires
        books_wf(books),
        0 <= i < books.len(),
    ensures
        lots_wf(books[i].long),
        lots_wf(books[i].short),
{
    assert(lots_wf(books[i].long) && lots_wf(books[i].short));
}

/// The book search returns `-1` or an in-range index whose book holds `sym`.
pub proof fn lemma_find_book_found(books: Seq<BookModel>, sym: Seq<char>)
    ensures
        find_book(books, sym) == -1 || (0 <= find_book(books, sym) < books.len()
            && books[find_book(books, sym)].symbol == sym),
    decreases books.len(),
{
    if books.len() > 0 && books[0].symbol != sym {
        lemma_find_book_found(books.drop_first(), sym);
    }
}

/// When no book holds `sym`, the search reports `-1`.
proof fn lemma_find_book_none(books: Seq<BookModel>, sym: Seq<char>)
    requires
        forall|j: int| 0 <= j < books.len() ==> #[trigger] books[j].symbol != sym,
    ensures
        find_book(books, sym) == -1,
    decreases books.len(),
{
    if books.len() > 0 {
        lemma_find_book_none(books.drop_first(), sym);
    }
}

/// Index of the first book for `sym`, or `None` when no book holds it yet.
fn find_book_index(books: &Vec<Book>, sym: &String) -> (r: Option<usize>)
    ensures
        match r {
            Some(i) => i < books@.len() && find_book(books.deep_view(), sym@) == i as int,
            None => find_book(books.deep_view(), sym@) == -1,
        },
{
    let n = books.len();
    let mut i: usize = 0;
    while i < n
        invariant
            n == books@.len(),
            i <= n,
            forall|j: int| 0 <= j < i ==> #[trigger] books.deep_view()[j].symbol != sym@,
        decreases n - i,
    {
        if books[i].symbol == *sym {
            proof {
                lemma_find_book_first(books.deep_view(), sym@, i as int);
            }
            return Some(i);
        }
        i = i + 1;
    }
    proof {
        lemma_find_book_none(books.deep_view(), sym@);
    }
    None
}

/// Process one fill against the books: close opposing lots, then open or
/// extend the fill's own side with any remainder.
#[verifier::rlimit(100)]
fn apply_one_trade(books: &mut Vec<Book>, pairs: &mut Vec<PairedTrade>, t: &Trade, is_fifo: bool)
    requires
        valid_trade_model(t@),
        books_wf(old(books).deep_view()),
    ensures
        ({
            let st2 = apply_trade(
                MatchState { books: old(books).deep_view(), pairs: old(pairs).deep_view() },
                t@,
                is_fifo,
            );
            &&& final(books).deep_view() == st2.books
            &&& final(pairs).deep_view() == st2.pairs
            &&& books_wf(final(books).deep_view())
            &&& final(pairs)@.len() >= old(pairs)@.len()
            &&& final(pairs).deep_view().subrange(0, old(pairs)@.len() as int) == old(
                pairs,
            ).deep_view()
            &&& valid_pairs(final(pairs).deep_view().skip(old(pairs)@.len() as int))
        }),
{
    let ghost books_before = books.deep_view();
    let bi: usize = match find_book_index(books, &t.symbol) {
        Some(i) => i,
        None => {
            books.push(Book { symbol: t.symbol.clone(), long: Vec::new(), short: Vec::new() });
            proof {
                assert(books.deep_view() =~~= books_before.push(
                    BookModel { symbol: t@.symbol, long: Seq::empty(), short: Seq::empty() },
                ));
            }
            books.len() - 1
        },
    };
    let ghost books1 = books.deep_view();
    proof {
        lemma_find_book_found(books_before, t@.symbol);
        assert(books_wf(books1));
        assert(books1[bi as int].symbol == t@.symbol);
    }
    let mut book = books.remove(bi);
    proof {
        assert(book@ == books1[bi as int]);
        assert(lots_wf(book.long.deep_view()) && lots_wf(book.short.deep_view()));
    }
    let ghost removed_books = books@;
    let ghost removed = books.deep_view();
    run_trade_on_book(&mut book, pairs, t, is_fifo);
    books.insert(bi, book);
    proof {
        let st2 = apply_trade(
            MatchState { books: books_before, pairs: old(pairs).deep_view() },
            t@,
            is_fifo,
        );
        assert(st2.books =~= books1.update(bi as int, book_after(books1[bi as int], t@, is_fifo)));
        assert(book@ == book_after(books1[bi as int], t@, is_fifo));
        assert forall|i: int| 0 <= i < books.deep_view().len() implies #[trigger] books.deep_view()[i]
            == st2.books[i] by {
            if i == bi as int {
                assert(books@[i] == book);
                assert(books.deep_view()[i] == book@);
            } else if i < bi as int {
                assert(books@[i] == removed_books[i]);
                assert(books.deep_view()[i] == removed[i]);
                assert(removed[i] == books1[i]);
            } else {
                assert(books@[i] == removed_books[i - 1]);
                assert(books.deep_view()[i] == removed[i - 1]);
                assert(removed[i - 1] == books1[i]);
            }
        }
        assert(books.deep_view() =~= st2.books);
        assert forall|i: int| 0 <= i < books.deep_view().len() implies lots_wf(
            #[trigger] books.deep_view()[i].long,
        ) && lots_wf(books.deep_view()[i].short) by {
            if i != bi as int {
                if i < bi as int {
                    assert(books@[i] == removed_books[i]);
                    assert(books.deep_view()[i] == removed[i]);
                    assert(removed[i] == books1[i]);
                } else {
                    assert(books@[i] == removed_books[i - 1]);
                    assert(books.deep_view()[i] == removed[i - 1]);
                    assert(removed[i - 1] == books1[i]);
                }
                assert(books.deep_view()[i] == books1[i]);
                assert(0 <= i < books1.len());
                lemma_books_wf_at(books1, i);
            } else {
                assert(books@[i] == book);
                assert(books.deep_view()[i] == book@);
                assert(book@.long == book.long.deep_view());
                assert(book@.short == book.short.deep_view());
            }
        }
    }
}

/// Run one fill against its symbol's book: close the opposing side, then
/// open or extend the fill's own side with any remainder.
#[verifier::rlimit(100)]
fn run_trade_on_book(book: &mut Book, pairs: &mut Vec<PairedTrade>, t: &Trade, is_fifo: bool)
    requires
        valid_trade_model(t@),
        lots_wf(old(book).long.deep_view()),
        lots_wf(old(book).short.deep_view()),
    ensures
        ({
            let cr = close_lots(
                (if t@.side == Side::Buy {
                    old(book)@.short
                } else {
                    old(book)@.long
                }),
                is_fifo,
                t@,
                t@.quantity,
                t@.fees,
                t@.side == Side::Sell,
            );
            &&& final(book)@ == book_after(old(book)@, t@, is_fifo)
            &&& final(pairs).deep_view() == old(pairs).deep_view() + cr.pairs
            &&& lots_wf(final(book).long.deep_view())
            &&& lots_wf(final(book).short.deep_view())
            &&& final(pairs)@.len() >= old(pairs)@.len()
            &&& final(pairs).deep_view().subrange(0, old(pairs)@.len() as int) == old(
                pairs,
            ).deep_view()
            &&& valid_pairs(final(pairs).deep_view().skip(old(pairs)@.len() as int))
        }),
{
    match t.side {
        Side::Buy => {
            let rem = close_against_lots(&mut book.short, pairs, t, is_fifo, false);
            let ghost cr = close_lots(old(book)@.short, is_fifo, t@, t@.quantity, t@.fees, false);
            if rem.0 > 0 {
                book.long.push(
                    Lot {
                        id: t.id,
                        quantity: rem.0,
                        price: t.price,
                        timestamp: t.timestamp,
                        fee: rem.1,
                        strategy_id: t.strategy_id,
                    },
                );
                proof {
                    assert(book.long.deep_view() =~= old(book)@.long.push(
                        remainder_lot(t@, cr.rem_qty, cr.rem_fee),
                    ));
                }
            }
            proof {
                assert(book@ =~~= book_after(old(book)@, t@, is_fifo));
            }
        },
        Side::Sell => {
            let rem = close_against_lots(&mut book.long, pairs, t, is_fifo, true);
            let ghost cr = close_lots(old(book)@.long, is_fifo, t@, t@.quantity, t@.fees, true);
            if rem.0 > 0 {
                book.short.push(
                    Lot {
                        id: t.id,
                        quantity: rem.0,
                        price: t.price,
                        timestamp: t.timestamp,
                        fee: rem.1,
                        strategy_id: t.strategy_id,
                    },
                );
                proof {
                    assert(book.short.deep_view() =~= old(book)@.short.push(
                        remainder_lot(t@, cr.rem_qty, cr.rem_fee),
                    ));
                }
            }
            proof {
                assert(book@ =~~= book_after(old(book)@, t@, is_fifo));
            }
        },
    }
}

/// Insert one fill into a timestamp-sorted vector, behind every element
/// whose timestamp is at or below its own.
fn insert_trade_by_time(out: &mut Vec<Trade>, t: Trade)
    ensures
        final(out).deep_view() == insert_by_time(t@, old(out).deep_view()),
        final(out)@.len() == old(out)@.len() + 1,
{
    let mut pos: usize = out.len();
    while pos > 0 && out[pos - 1].timestamp > t.timestamp
        invariant
            pos <= out@.len(),
            forall|j: int| pos <= j < out@.len() ==> #[trigger] out.deep_view()[j].timestamp
                > t@.timestamp,
        decreases pos,
    {
        pos = pos - 1;
    }
    proof {
        lemma_insert_by_time_at(t@, out.deep_view(), pos as int);
    }
    let ghost before = out.deep_view();
    out.insert(pos, t);
    proof {
        assert(out.deep_view() =~= before.subrange(0, pos as int) + seq![t@] + before.subrange(
            pos as int,
            before.len() as int,
        ));
    }
}

/// Stable sort of the fills by timestamp: ties keep input order.
pub fn sort_trades_by_time(trades: &Vec<Trade>) -> (r: Vec<Trade>)
    ensures
        r.deep_view() == sort_by_time(trades.deep_view()),
        valid_trades(trades.deep_view()) ==> valid_trades(r.deep_view()),
        r@.len() == trades@.len(),
{
    proof {
        if valid_trades(trades.deep_view()) {
            lemma_sort_preserves_valid(trades.deep_view());
        }
    }
    let mut out: Vec<Trade> = Vec::new();
    let n = trades.len();
    let mut k: usize = 0;
    while k < n
        invariant
            n == trades@.len(),
            k <= n,
            out@.len() == k,
            out.deep_view() == sort_by_time(trades.deep_view().take(k as int)),
        decreases n - k,
    {
        insert_trade_by_time(&mut out, trades[k].clone());
        proof {
            let tv = trades.deep_view();
            assert(tv.take(k + 1).drop_last() =~= tv.take(k as int));
            assert(tv.take(k + 1).last() == tv[k as int]);
        }
        k = k + 1;
    }
    proof {
        assert(trades.deep_view().take(n as int) =~= trades.deep_view());
    }
    out
}

/// Inserting a bounded fill into a sequence of bounded fills keeps every
/// fill bounded.
proof fn lemma_insert_preserves_valid(t: TradeModel, s: Seq<TradeModel>)
    requires
        valid_trade_model(t),
        valid_trades(s),
    ensures
        valid_trades(insert_by_time(t, s)),
    decreases s.len(),
{
    if s.len() == 0 {
    } else if s.last().timestamp <= t.timestamp {
    } else {
        assert(valid_trades(s.drop_last())) by {
            assert(forall|i: int| 0 <= i < s.len() - 1 ==> s.drop_last()[i] == s[i]);
        }
        lemma_insert_preserves_valid(t, s.drop_last());
    }
}

/// Sorting bounded fills keeps every fill bounded.
proof fn lemma_sort_preserves_valid(s: Seq<TradeModel>)
    requires
        valid_trades(s),
    ensures
        valid_trades(sort_by_time(s)),
    decreases s.len(),
{
    if s.len() > 0 {
        assert(valid_trades(s.drop_last())) by {
            assert(forall|i: int| 0 <= i < s.len() - 1 ==> s.drop_last()[i] == s[i]);
        }
        lemma_sort_preserves_valid(s.drop_last());
        lemma_insert_preserves_valid(s.last(), sort_by_time(s.drop_last()));
    }
}

/// Match the ledger under the given policy: sort the fills by timestamp
/// (stably), fold them over per-symbol books of open lots, and return the
/// matched pairs in emission order together with a synthetic open-position
/// record for every leftover lot. The result is exactly the functional
/// model [`match_trades_model`], so it is a pure function of the input.
#[verifier::rlimit(50)]
pub fn pair_trades(trades: Vec<Trade>, is_fifo: bool) -> (r: (Vec<PairedTrade>, Vec<Trade>))
    requires
        valid_trades(trades.deep_view()),
    ensures
        r.0.deep_view() == match_trades_model(trades.deep_view(), is_fifo).0,
        r.1.deep_view() == match_trades_model(trades.deep_view(), is_fifo).1,
        valid_pairs(r.0.deep_view()),
        valid_trades(r.1.deep_view()),
        forall|i: int| 0 <= i < r.1@.len() ==> #[trigger] r.1.deep_view()[i].status
            == TradeStatus::Open && r.1.deep_view()[i].quantity > 0,
{
    let sorted = sort_trades_by_time(&trades);
    proof {
        lemma_sort_preserves_valid(trades.deep_view());
    }
    let mut books: Vec<Book> = Vec::new();
    let mut pairs: Vec<PairedTrade> = Vec::new();
    let n = sorted.len();
    let mut k: usize = 0;
    while k < n
        invariant
            n == sorted@.len(),
            k <= n,
            valid_trades(sorted.deep_view()),
            sorted.deep_view() == sort_by_time(trades.deep_view()),
            books_wf(books.deep_view()),
            valid_pairs(pairs.deep_view()),
            ({
                let st = run_trades(sorted.deep_view().take(k as int), is_fifo);
                books.deep_view() == st.books && pairs.deep_view() == st.pairs
            }),
        decreases n - k,
    {
        let ghost pairs_before = pairs.deep_view();
        proof {
            assert(valid_trade_model(sorted.deep_view()[k as int]));
        }
        apply_one_trade(&mut books, &mut pairs, &sorted[k], is_fifo);
        proof {
            let sv = sorted.deep_view();
            assert(sv.take(k + 1).drop_last() =~= sv.take(k as int));
            assert(sv.take(k + 1).last() == sv[k as int]);
            let emitted = pairs.deep_view().skip(pairs_before.len() as int);
            assert forall|i: int| 0 <= i < pairs.deep_view().len() implies valid_pair_model(
                #[trigger] pairs.deep_view()[i],
            ) by {
                if i < pairs_before.len() {
                    assert(pairs.deep_view()[i] == pairs.deep_view().subrange(
                        0,
                        pairs_before.len() as int,
                    )[i]);
                } else {
                    assert(pairs.deep_view()[i] == emitted[i - pairs_before.len()]);
                }
            }
        }
        k = k + 1;
    }
    proof {
        assert(sorted.deep_view().take(n as int) =~= sorted.deep_view());
    }
    let mut open: Vec<Trade> = Vec::new();
    collect_open_side(&books, &mut open, true);
    collect_open_side(&books, &mut open, false);
    proof {
        assert(open.deep_view() =~= open_long_trades(books.deep_view()) + open_short_trades(
            books.deep_view(),
        ));
    }
    (pairs, open)
}

/// Append a synthetic open-position record for every leftover lot of the
/// chosen side of every book, in book order.
fn collect_open_side(books: &Vec<Book>, open: &mut Vec<Trade>, long_side: bool)
    requires
        books_wf(books.deep_view()),
        valid_trades(old(open).deep_view()),
        forall|i: int| 0 <= i < old(open)@.len() ==> #[trigger] old(open).deep_view()[i].status
            == TradeStatus::Open && old(open).deep_view()[i].quantity > 0,
    ensures
        final(open).deep_view() == old(open).deep_view() + (if long_side {
            open_long_trades(books.deep_view())
        } else {
            open_short_trades(books.deep_view())
        }),
        valid_trades(final(open).deep_view()),
        forall|i: int| 0 <= i < final(open)@.len() ==> #[trigger] final(open).deep_view()[i].status
            == TradeStatus::Open && final(open).deep_view()[i].quantity > 0,
{
    let ghost open0 = open.deep_view();
    let ghost bv = books.deep_view();
    proof {
        assert(bv.skip(0) =~= bv);
        assert(open.deep_view().skip(open0.len() as int) =~= Seq::<TradeModel>::empty());
        assert(open.deep_view().subrange(0, open0.len() as int) =~= open0);
    }
    let nb = books.len();
    let mut b: usize = 0;
    while b < nb
        invariant
            nb == books@.len(),
            b <= nb,
            bv == books.deep_view(),
            books_wf(bv),
            valid_trades(open.deep_view()),
            forall|i: int| 0 <= i < open@.len() ==> #[trigger] open.deep_view()[i].status
                == TradeStatus::Open && open.deep_view()[i].quantity > 0,
            (if long_side {
                open_long_trades(bv)
            } else {
                open_short_trades(bv)
            }) =~= open.deep_view().skip(open0.len() as int) + (if long_side {
                open_long_trades(bv.skip(b as int))
            } else {
                open_short_trades(bv.skip(b as int))
            }),
            open.deep_view().len() >= open0.len(),
            open.deep_view().subrange(0, open0.len() as int) == open0,
        decreases nb - b,
    {
        let ghost book_model = bv[b as int];
        let ghost side_lots = if long_side {
            book_model.long
        } else {
            book_model.short
        };
        let ghost side_enum = if long_side {
            Side::Buy
        } else {
            Side::Sell
        };
        let ghost open_pre = open.deep_view();
        let nl = if long_side {
            books[b].long.len()
        } else {
            books[b].short.len()
        };
        let mut l: usize = 0;
        while l < nl
            invariant
                b < nb,
                nb == books@.len(),
                nl == side_lots.len(),
                l <= nl,
                bv == books.deep_view(),
                book_model == bv[b as int],
                side_lots == (if long_side {
                    book_model.long
                } else {
                    book_model.short
                }),
                side_enum == (if long_side {
                    Side::Buy
                } else {
                    Side::Sell
                }),
                books_wf(bv),
                valid_trades(open.deep_view()),
                forall|i: int| 0 <= i < open@.len() ==> #[trigger] open.deep_view()[i].status
                    == TradeStatus::Open && open.deep_view()[i].quantity > 0,
                open.deep_view() =~= open_pre + lots_as_open(
                    book_model.symbol,
                    side_enum,
                    side_lots,
                ).take(l as int),
            decreases nl - l,
        {
            let ghost before = open.deep_view();
            let lot_id = if long_side {
                books[b].long[l].id
            } else {
                books[b].short[l].id
            };
            let lot_qty = if long_side {
                books[b].long[l].quantity
            } else {
                books[b].short[l].quantity
            };
            let lot_price = if long_side {
                books[b].long[l].price
            } else {
                books[b].short[l].price
            };
            let lot_ts = if long_side {
                books[b].long[l].timestamp
            } else {
                books[b].short[l].timestamp
            };
            let lot_fee = if long_side {
                books[b].long[l].fee
            } else {
                books[b].short[l].fee
            };
            let lot_strat = if long_side {
                books[b].long[l].strategy_id
            } else {
                books[b].short[l].strategy_id
            };
            let side = if long_side {
                Side::Buy
            } else {
                Side::Sell
            };
            open.push(
                Trade {
                    id: lot_id,
                    symbol: if long_side {
                        books[b].symbol.clone()
                    } else {
                        books[b].symbol.clone()
                    },
                    side,
                    quantity: lot_qty,
                    price: lot_price,
                    timestamp: lot_ts,
                    fees: lot_fee,
                    status: TradeStatus::Open,
                    strategy_id: lot_strat,
                },
            );
            proof {
                assert(0 <= (b as int) && (b as int) < bv.len());
                assert(books_wf(bv));
                assert(lots_wf(bv[b as int].long));
                assert(lots_wf(bv[b as int].short));
                assert(lot_wf(side_lots[l as int]));
                assert(open.deep_view() =~~= before + seq![
                    lot_as_open_trade(book_model.symbol, side_enum, side_lots[l as int]),
                ]);
                assert(open.deep_view() =~= open_pre + lots_as_open(
                    book_model.symbol,
                    side_enum,
                    side_lots,
                ).take(l + 1));
            }
            l = l + 1;
        }
        proof {
            assert(lots_as_open(book_model.symbol, side_enum, side_lots).take(nl as int)
                =~= lots_as_open(book_model.symbol, side_enum, side_lots));
            assert(bv.skip(b as int).drop_first() =~= bv.skip(b + 1));
            assert(bv.skip(b as int)[0] == bv[b as int]);
            if long_side {
                assert(open_long_trades(bv.skip(b as int)) == lots_as_open(
                    book_model.symbol,
                    Side::Buy,
                    book_model.long,
                ) + open_long_trades(bv.skip(b + 1)));
            } else {
                assert(open_short_trades(bv.skip(b as int)) == lots_as_open(
                    book_model.symbol,
                    Side::Sell,
                    book_model.short,
                ) + open_short_trades(bv.skip(b + 1)));
            }
            assert((if long_side {
                open_long_trades(bv)
            } else {
                open_short_trades(bv)
            }) =~= open.deep_view().skip(open0.len() as int) + (if long_side {
                open_long_trades(bv.skip(b + 1))
            } else {
                open_short_trades(bv.skip(b + 1))
            }));
            assert(open.deep_view().subrange(0, open0.len() as int) =~= open0);
        }
        b = b + 1;
    }
    proof {
        assert(bv.skip(nb as int) =~= Seq::<BookModel>::empty());
        assert(open.deep_view() =~= open0 + open.deep_view().skip(open0.len() as int));
    }
}

} // verus!
