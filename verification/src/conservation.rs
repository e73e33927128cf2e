//! Conservation laws of the trade matcher.
//!
//! These proof functions state, over the matcher's functional model, that
//! matching neither creates nor destroys quantity or fees: per symbol and
//! side, the closed quantity plus the open remainders equals the input
//! quantity; per trade, the prorated fee shares plus the fee left in open
//! remainders equal the fill's original fee; the result is a pure function
//! of the ledger and the policy; and every emitted pair's P&L is the price
//! delta times the closed quantity times the symbol's contract multiplier.

use vstd::prelude::*;

use crate::matcher::BookModel;
use crate::matcher::CloseResult;
use crate::matcher::LotModel;
use crate::matcher::MatchState;
use crate::matcher::apply_trade;
use crate::matcher::close_lots;
use crate::matcher::close_pair;
use crate::matcher::find_book;
use crate::matcher::insert_by_time;
use crate::matcher::lot_as_open_trade;
use crate::matcher::lots_as_open;
use crate::matcher::match_trades_model;
use crate::matcher::min_int;
use crate::matcher::multiplier_of;
use crate::matcher::open_long_trades;
use crate::matcher::open_short_trades;
use crate::matcher::remainder_lot;
use crate::matcher::run_trades;
use crate::matcher::sort_by_time;
use crate::trade::PairModel;
use crate::trade::Side;
use crate::trade::TradeModel;

verus! {

/// Total closed quantity of the pairs whose symbol is `sym`.
pub open spec fn sum_pair_qty(ps: Seq<PairModel>, sym: Seq<char>) -> int
    decreases ps.len(),
{
    if ps.len() == 0 {
        0
    } else {
        sum_pair_qty(ps.drop_last(), sym) + (if ps.last().symbol == sym {
            ps.last().quantity
        } else {
            0
        })
    }
}

/// Total quantity of the trades with symbol `sym` on the given side.
pub open spec fn sum_trade_qty(ts: Seq<TradeModel>, sym: Seq<char>, side: Side) -> int
    decreases ts.len(),
{
    if ts.len() == 0 {
        0
    } else {
        sum_trade_qty(ts.drop_last(), sym, side) + (if ts.last().symbol == sym && ts.last().side
            == side {
            ts.last().quantity
        } else {
            0
        })
    }
}

/// Total prorated fee the pairs attribute to the trade with identifier `d`,
/// as entry or as exit.
pub open spec fn sum_pair_fees(ps: Seq<PairModel>, d: int) -> int
    decreases ps.len(),
{
    if ps.len() == 0 {
        0
    } else {
        sum_pair_fees(ps.drop_last(), d) + (if ps.last().entry_trade_id == d {
            ps.last().entry_fees
        } else {
            0
        }) + (if ps.last().exit_trade_id == d {
            ps.last().exit_fees
        } else {
            0
        })
    }
}

/// Total fee of the trades with identifier `d`.
pub open spec fn sum_trade_fees(ts: Seq<TradeModel>, d: int) -> int
    decreases ts.len(),
{
    if ts.len() == 0 {
        0
    } else {
        sum_trade_fees(ts.drop_last(), d) + (if ts.last().id == d {
            ts.last().fees
        } else {
            0
        })
    }
}

/// Total remaining quantity of a lot queue.
pub open spec fn sum_lot_qty(lots: Seq<LotModel>) -> int
    decreases lots.len(),
{
    if lots.len() == 0 {
        0
    } else {
        sum_lot_qty(lots.drop_last()) + lots.last().quantity
    }
}

/// Total remaining fee of the lots with identifier `d`.
pub open spec fn sum_lot_fees(lots: Seq<LotModel>, d: int) -> int
    decreases lots.len(),
{
    if lots.len() == 0 {
        0
    } else {
        sum_lot_fees(lots.drop_last(), d) + (if lots.last().id == d {
            lots.last().fee
        } else {
            0
        })
    }
}

/// Total remaining long quantity booked under `sym`.
pub open spec fn book_long_qty(books: Seq<BookModel>, sym: Seq<char>) -> int
    decreases books.len(),
{
    if books.len() == 0 {
        0
    } else {
        book_long_qty(books.drop_last(), sym) + (if books.last().symbol == sym {
            sum_lot_qty(books.last().long)
        } else {
            0
        })
    }
}

/// Total remaining short quantity booked under `sym`.
pub open spec fn book_short_qty(books: Seq<BookModel>, sym: Seq<char>) -> int
    decreases books.len(),
{
    if books.len() == 0 {
        0
    } else {
        book_short_qty(books.drop_last(), sym) + (if books.last().symbol == sym {
            sum_lot_qty(books.last().short)
        } else {
            0
        })
    }
}

/// Total remaining fee booked for identifier `d`, both sides.
pub open spec fn book_fees(books: Seq<BookModel>, d: int) -> int
    decreases books.len(),
{
    if books.len() == 0 {
        0
    } else {
        book_fees(books.drop_last(), d) + sum_lot_fees(books.last().long, d) + sum_lot_fees(
            books.last().short,
            d,
        )
    }
}

/// Every lot has positive remaining quantity and a nonnegative fee.
pub open spec fn lots_pos(lots: Seq<LotModel>) -> bool {
    forall|i: int| 0 <= i < lots.len() ==> (#[trigger] lots[i]).quantity > 0 && lots[i].fee >= 0
}

/// Every book's lots are positive.
pub open spec fn books_pos(books: Seq<BookModel>) -> bool {
    forall|i: int| 0 <= i < books.len() ==> lots_pos((#[trigger] books[i]).long) && lots_pos(
        books[i].short,
    )
}

/// Every trade has nonnegative quantity and fee.
pub open spec fn trades_nonneg(ts: Seq<TradeModel>) -> bool {
    forall|i: int| 0 <= i < ts.len() ==> (#[trigger] ts[i]).quantity >= 0 && ts[i].fees >= 0
}

/// Pair-quantity sums split over concatenation.
proof fn lemma_sum_pair_qty_concat(a: Seq<PairModel>, b: Seq<PairModel>, sym: Seq<char>)
    ensures
        sum_pair_qty(a + b, sym) == sum_pair_qty(a, sym) + sum_pair_qty(b, sym),
    decreases b.len(),
{
    if b.len() == 0 {
        assert(a + b =~= a);
    } else {
        assert((a + b).drop_last() =~= a + b.drop_last());
        assert((a + b).last() == b.last());
        lemma_sum_pair_qty_concat(a, b.drop_last(), sym);
    }
}

/// Pair-fee sums split over concatenation.
proof fn lemma_sum_pair_fees_concat(a: Seq<PairModel>, b: Seq<PairModel>, d: int)
    ensures
        sum_pair_fees(a + b, d) == sum_pair_fees(a, d) + sum_pair_fees(b, d),
    decreases b.len(),
{
    if b.len() == 0 {
        assert(a + b =~= a);
    } else {
        assert((a + b).drop_last() =~= a + b.drop_last());
        assert((a + b).last() == b.last());
        lemma_sum_pair_fees_concat(a, b.drop_last(), d);
    }
}

/// Trade-quantity sums split over concatenation.
proof fn lemma_sum_trade_qty_concat(a: Seq<TradeModel>, b: Seq<TradeModel>, sym: Seq<char>, side: Side)
    ensures
        sum_trade_qty(a + b, sym, side) == sum_trade_qty(a, sym, side) + sum_trade_qty(b, sym, side),
    decreases b.len(),
{
    if b.len() == 0 {
        assert(a + b =~= a);
    } else {
        assert((a + b).drop_last() =~= a + b.drop_last());
        assert((a + b).last() == b.last());
        lemma_sum_trade_qty_concat(a, b.drop_last(), sym, side);
    }
}

/// Trade-fee sums split over concatenation.
proof fn lemma_sum_trade_fees_concat(a: Seq<TradeModel>, b: Seq<TradeModel>, d: int)
    ensures
        sum_trade_fees(a + b, d) == sum_trade_fees(a, d) + sum_trade_fees(b, d),
    decreases b.len(),
{
    if b.len() == 0 {
        assert(a + b =~= a);
    } else {
        assert((a + b).drop_last() =~= a + b.drop_last());
        assert((a + b).last() == b.last());
        lemma_sum_trade_fees_concat(a, b.drop_last(), d);
    }
}

/// Lot-quantity sums respect removal of one lot.
proof fn lemma_sum_lot_qty_remove(lots: Seq<LotModel>, i: int)
    requires
        0 <= i < lots.len(),
    ensures
        sum_lot_qty(lots.remove(i)) == sum_lot_qty(lots) - lots[i].quantity,
    decreases lots.len(),
{
    if i == lots.len() - 1 {
        assert(lots.remove(i) =~= lots.drop_last());
    } else {
        assert(lots.remove(i).drop_last() =~= lots.drop_last().remove(i));
        assert(lots.remove(i).last() == lots.last());
        lemma_sum_lot_qty_remove(lots.drop_last(), i);
    }
}

/// Lot-quantity sums respect updating one lot.
proof fn lemma_sum_lot_qty_update(lots: Seq<LotModel>, i: int, l: LotModel)
    requires
        0 <= i < lots.len(),
    ensures
        sum_lot_qty(lots.update(i, l)) == sum_lot_qty(lots) - lots[i].quantity + l.quantity,
    decreases lots.len(),
{
    if i == lots.len() - 1 {
        assert(lots.update(i, l).drop_last() =~= lots.drop_last());
        assert(lots.update(i, l).last() == l);
    } else {
        assert(lots.update(i, l).drop_last() =~= lots.drop_last().update(i, l));
        assert(lots.update(i, l).last() == lots.last());
        lemma_sum_lot_qty_update(lots.drop_last(), i, l);
    }
}

/// Lot-fee sums respect removal of one lot.
proof fn lemma_sum_lot_fees_remove(lots: Seq<LotModel>, i: int, d: int)
    requires
        0 <= i < lots.len(),
    ensures
        sum_lot_fees(lots.remove(i), d) == sum_lot_fees(lots, d) - (if lots[i].id == d {
            lots[i].fee
        } else {
            0
        }),
    decreases lots.len(),
{
    if i == lots.len() - 1 {
        assert(lots.remove(i) =~= lots.drop_last());
    } else {
        assert(lots.remove(i).drop_last() =~= lots.drop_last().remove(i));
        assert(lots.remove(i).last() == lots.last());
        lemma_sum_lot_fees_remove(lots.drop_last(), i, d);
    }
}

/// Lot-fee sums respect updating one lot.
proof fn lemma_sum_lot_fees_update(lots: Seq<LotModel>, i: int, l: LotModel, d: int)
    requires
        0 <= i < lots.len(),
    ensures
        sum_lot_fees(lots.update(i, l), d) == sum_lot_fees(lots, d) - (if lots[i].id == d {
            lots[i].fee
        } else {
            0
        }) + (if l.id == d {
            l.fee
        } else {
            0
        }),
    decreases lots.len(),
{
    if i == lots.len() - 1 {
        assert(lots.update(i, l).drop_last() =~= lots.drop_last());
        assert(lots.update(i, l).last() == l);
    } else {
        assert(lots.update(i, l).drop_last() =~= lots.drop_last().update(i, l));
        assert(lots.update(i, l).last() == lots.last());
        lemma_sum_lot_fees_update(lots.drop_last(), i, l, d);
    }
}

/// The prorated share is exact on a full close and bounded in general.
pub proof fn lemma_prorate_facts(fee: int, q: int, qty: int)
    requires
        0 <= fee,
        0 < qty,
        0 <= q <= qty,
    ensures
        0 <= fee * q / qty <= fee,
        q == qty ==> fee * q / qty == fee,
{
    assert(0 <= fee * q && fee * q <= fee * qty && fee * qty == qty * fee) by (nonlinear_arith)
        requires
            0 <= fee,
            0 <= q,
            q <= qty,
    ;
    vstd::arithmetic::div_mod::lemma_div_pos_is_pos(fee * q, qty);
    vstd::arithmetic::div_mod::lemma_div_is_ordered(fee * q, fee * qty, qty);
    vstd::arithmetic::div_mod::lemma_div_multiples_vanish(fee, qty);
}

/// What one closing run conserves: the closed quantity of the emitted pairs
/// equals the quantity the incoming fill lost; the lots lost the same
/// quantity; fees move from the lots and the incoming remainder into the
/// pairs, identifier by identifier; positivity of the lots is kept; and
/// every emitted pair carries the incoming fill's symbol and its exit
/// identifier.
pub proof fn lemma_close_lots_conserves(
    lots: Seq<LotModel>,
    fifo: bool,
    t: TradeModel,
    rem_qty: int,
    rem_fee: int,
    long_side: bool,
    d: int,
)
    requires
        lots_pos(lots),
        0 <= rem_qty,
        0 <= rem_fee,
    ensures
        ({
            let cr = close_lots(lots, fifo, t, rem_qty, rem_fee, long_side);
            &&& 0 <= cr.rem_qty <= rem_qty
            &&& 0 <= cr.rem_fee <= rem_fee
            &&& lots_pos(cr.lots)
            &&& sum_pair_qty(cr.pairs, t.symbol) == rem_qty - cr.rem_qty
            &&& forall|s: Seq<char>| s != t.symbol ==> sum_pair_qty(cr.pairs, s) == 0
            &&& sum_lot_qty(cr.lots) == sum_lot_qty(lots) - (rem_qty - cr.rem_qty)
            &&& sum_pair_fees(cr.pairs, d) == (sum_lot_fees(lots, d) - sum_lot_fees(cr.lots, d)) + (
            if d == t.id {
                rem_fee - cr.rem_fee
            } else {
                0
            })
            &&& (rem_qty > 0 && cr.rem_qty == 0) ==> cr.rem_fee == 0
        }),
    decreases lots.len(),
{
    if rem_qty <= 0 || lots.len() == 0 {
        let cr = close_lots(lots, fifo, t, rem_qty, rem_fee, long_side);
        assert(cr.pairs =~= Seq::<PairModel>::empty());
        assert forall|s: Seq<char>| s != t.symbol implies sum_pair_qty(cr.pairs, s) == 0 by {}
    } else {
        let idx = if fifo {
            0int
        } else {
            lots.len() - 1
        };
        let lot = lots[idx];
        assert(lot.quantity > 0 && lot.fee >= 0);
        let q = min_int(rem_qty, lot.quantity);
        let lot_take = lot.fee * q / lot.quantity;
        let in_take = rem_fee * q / rem_qty;
        lemma_prorate_facts(lot.fee, q, lot.quantity);
        lemma_prorate_facts(rem_fee, q, rem_qty);
        let pair = close_pair(lot, t, q, lot_take, in_take, long_side);
        if q == lot.quantity {
            let lots2 = lots.remove(idx);
            assert(lots_pos(lots2)) by {
                assert(forall|i: int| 0 <= i < lots2.len() ==> lots2[i] == lots[
                    if i < idx {
                        i
                    } else {
                        i + 1
                    }
                ]);
            }
            lemma_sum_lot_qty_remove(lots, idx);
            lemma_sum_lot_fees_remove(lots, idx, d);
            let rest = close_lots(lots2, fifo, t, rem_qty - q, rem_fee - in_take, long_side);
            lemma_close_lots_conserves(lots2, fifo, t, rem_qty - q, rem_fee - in_take, long_side, d);
            let cr = close_lots(lots, fifo, t, rem_qty, rem_fee, long_side);
            assert(cr.pairs == seq![pair] + rest.pairs);
            lemma_sum_pair_qty_concat(seq![pair], rest.pairs, t.symbol);
            lemma_sum_pair_fees_concat(seq![pair], rest.pairs, d);
            assert(sum_pair_qty(seq![pair], t.symbol) == q) by {
                assert(seq![pair].drop_last() =~= Seq::<PairModel>::empty());
                assert(sum_pair_qty(Seq::<PairModel>::empty(), t.symbol) == 0);
                assert(seq![pair].last() == pair);
            }
            assert forall|s: Seq<char>| s != t.symbol implies sum_pair_qty(cr.pairs, s) == 0 by {
                lemma_sum_pair_qty_concat(seq![pair], rest.pairs, s);
                assert(sum_pair_qty(seq![pair], s) == 0) by {
                    assert(seq![pair].drop_last() =~= Seq::<PairModel>::empty());
                    assert(sum_pair_qty(Seq::<PairModel>::empty(), s) == 0);
                    assert(seq![pair].last() == pair);
                }
            }
            assert(sum_pair_fees(seq![pair], d) == (if d == lot.id {
                lot_take
            } else {
                0
            }) + (if d == t.id {
                in_take
            } else {
                0
            })) by {
                assert(seq![pair].drop_last() =~= Seq::<PairModel>::empty());
                assert(sum_pair_fees(Seq::<PairModel>::empty(), d) == 0);
                assert(seq![pair].last() == pair);
            }
        } else {
            let lot2 = LotModel {
                id: lot.id,
                quantity: lot.quantity - q,
                price: lot.price,
                timestamp: lot.timestamp,
                fee: lot.fee - lot_take,
                strategy_id: lot.strategy_id,
            };
            let lots2 = lots.update(idx, lot2);
            assert(lots_pos(lots2)) by {
                assert(forall|i: int| 0 <= i < lots2.len() && i != idx ==> lots2[i] == lots[i]);
                assert(lots2[idx] == lot2);
            }
            lemma_sum_lot_qty_update(lots, idx, lot2);
            lemma_sum_lot_fees_update(lots, idx, lot2, d);
            let cr = close_lots(lots, fifo, t, rem_qty, rem_fee, long_side);
            assert(cr.pairs == seq![pair]);
            assert(seq![pair].drop_last() =~= Seq::<PairModel>::empty());
            assert(sum_pair_qty(Seq::<PairModel>::empty(), t.symbol) == 0);
            assert(sum_pair_fees(Seq::<PairModel>::empty(), d) == 0);
            assert(seq![pair].last() == pair);
            assert forall|s: Seq<char>| s != t.symbol implies sum_pair_qty(cr.pairs, s) == 0 by {
                assert(seq![pair].drop_last() =~= Seq::<PairModel>::empty());
                assert(sum_pair_qty(Seq::<PairModel>::empty(), s) == 0);
                assert(seq![pair].last() == pair);
            }
        }
    }
}

/// Book sums respect updating one book.
proof fn lemma_book_sums_update(books: Seq<BookModel>, i: int, b: BookModel, sym: Seq<char>, d: int)
    requires
        0 <= i < books.len(),
    ensures
        book_long_qty(books.update(i, b), sym) == book_long_qty(books, sym) - (if books[i].symbol
            == sym {
            sum_lot_qty(books[i].long)
        } else {
            0
        }) + (if b.symbol == sym {
            sum_lot_qty(b.long)
        } else {
            0
        }),
        book_short_qty(books.update(i, b), sym) == book_short_qty(books, sym) - (if books[i].symbol
            == sym {
            sum_lot_qty(books[i].short)
        } else {
            0
        }) + (if b.symbol == sym {
            sum_lot_qty(b.short)
        } else {
            0
        }),
        book_fees(books.update(i, b), d) == book_fees(books, d) - sum_lot_fees(books[i].long, d)
            - sum_lot_fees(books[i].short, d) + sum_lot_fees(b.long, d) + sum_lot_fees(b.short, d),
    decreases books.len(),
{
    if i == books.len() - 1 {
        assert(books.update(i, b).drop_last() =~= books.drop_last());
        assert(books.update(i, b).last() == b);
    } else {
        assert(books.update(i, b).drop_last() =~= books.drop_last().update(i, b));
        assert(books.update(i, b).last() == books.last());
        lemma_book_sums_update(books.drop_last(), i, b, sym, d);
    }
}

/// Appending a lot adds its quantity and fee to the sums.
proof fn lemma_lot_push(lots: Seq<LotModel>, l: LotModel, d: int)
    ensures
        sum_lot_qty(lots.push(l)) == sum_lot_qty(lots) + l.quantity,
        sum_lot_fees(lots.push(l), d) == sum_lot_fees(lots, d) + (if l.id == d {
            l.fee
        } else {
            0
        }),
{
    assert(lots.push(l).drop_last() =~= lots);
    assert(lots.push(l).last() == l);
}

/// The per-trade step preserves the conservation equations: the pair and
/// book sums absorb exactly the incoming fill's quantity and fee.
proof fn lemma_apply_trade_conserves(st: MatchState, t: TradeModel, fifo: bool, sym: Seq<char>, d: int)
    requires
        books_pos(st.books),
        t.quantity >= 0,
        t.fees >= 0,
    ensures
        ({
            let st2 = apply_trade(st, t, fifo);
            &&& books_pos(st2.books)
            &&& sum_pair_qty(st2.pairs, sym) + book_long_qty(st2.books, sym) == sum_pair_qty(
                st.pairs,
                sym,
            ) + book_long_qty(st.books, sym) + (if t.symbol == sym && t.side == Side::Buy {
                t.quantity
            } else {
                0
            })
            &&& sum_pair_qty(st2.pairs, sym) + book_short_qty(st2.books, sym) == sum_pair_qty(
                st.pairs,
                sym,
            ) + book_short_qty(st.books, sym) + (if t.symbol == sym && t.side == Side::Sell {
                t.quantity
            } else {
                0
            })
            &&& (t.quantity > 0 || t.fees == 0 || t.id != d) ==> sum_pair_fees(st2.pairs, d)
                + book_fees(st2.books, d) == sum_pair_fees(st.pairs, d) + book_fees(st.books, d) + (
            if t.id == d {
                t.fees
            } else {
                0
            })
        }),
{
    let bi0 = find_book(st.books, t.symbol);
    let empty_book = BookModel { symbol: t.symbol, long: Seq::empty(), short: Seq::empty() };
    let books = if bi0 == -1 {
        st.books.push(empty_book)
    } else {
        st.books
    };
    let bi = if bi0 == -1 {
        books.len() - 1
    } else {
        bi0
    };
    crate::matcher::lemma_find_book_found(st.books, t.symbol);
    if bi0 == -1 {
        assert(books.drop_last() =~= st.books);
        assert(books.last() == empty_book);
        assert(sum_lot_qty(empty_book.long) == 0);
        assert(sum_lot_fees(empty_book.long, d) == 0);
        assert(book_long_qty(books, sym) == book_long_qty(st.books, sym));
        assert(book_short_qty(books, sym) == book_short_qty(st.books, sym));
        assert(book_fees(books, d) == book_fees(st.books, d));
        assert(books_pos(books)) by {
            assert(forall|i: int| 0 <= i < st.books.len() ==> books[i] == st.books[i]);
        }
    }
    assert(books_pos(books));
    let book = books[bi];
    assert(lots_pos(book.long) && lots_pos(book.short));
    match t.side {
        Side::Buy => {
            let cr = close_lots(book.short, fifo, t, t.quantity, t.fees, false);
            lemma_close_lots_conserves(book.short, fifo, t, t.quantity, t.fees, false, d);
            let new_lot = remainder_lot(t, cr.rem_qty, cr.rem_fee);
            let long2 = if cr.rem_qty > 0 {
                book.long.push(new_lot)
            } else {
                book.long
            };
            if cr.rem_qty > 0 {
                lemma_lot_push(book.long, new_lot, d);
                assert(lots_pos(long2)) by {
                    assert(forall|i: int| 0 <= i < book.long.len() ==> long2[i] == book.long[i]);
                    assert(long2.last() == new_lot);
                }
            }
            if t.quantity == 0 {
                assert(close_lots(book.short, fifo, t, 0, t.fees, false) == CloseResult {
                    pairs: Seq::<PairModel>::empty(),
                    lots: book.short,
                    rem_qty: 0int,
                    rem_fee: t.fees,
                });
                assert(sum_pair_fees(Seq::<PairModel>::empty(), d) == 0);
                assert(sum_pair_qty(Seq::<PairModel>::empty(), sym) == 0);
            }
            let b2 = BookModel { symbol: book.symbol, long: long2, short: cr.lots };
            lemma_book_sums_update(books, bi, b2, sym, d);
            let st2 = apply_trade(st, t, fifo);
            assert(st2.books == books.update(bi, b2));
            assert(st2.pairs == st.pairs + cr.pairs);
            lemma_sum_pair_qty_concat(st.pairs, cr.pairs, sym);
            lemma_sum_pair_fees_concat(st.pairs, cr.pairs, d);
            assert(books_pos(st2.books)) by {
                assert(forall|i: int| 0 <= i < st2.books.len() && i != bi ==> st2.books[i]
                    == books[i]);
                assert(st2.books[bi] == b2);
            }
            if t.symbol != sym {
                assert(sum_pair_qty(cr.pairs, sym) == 0);
            }
        },
        Side::Sell => {
            let cr = close_lots(book.long, fifo, t, t.quantity, t.fees, true);
            lemma_close_lots_conserves(book.long, fifo, t, t.quantity, t.fees, true, d);
            let new_lot = remainder_lot(t, cr.rem_qty, cr.rem_fee);
            let short2 = if cr.rem_qty > 0 {
                book.short.push(new_lot)
            } else {
                book.short
            };
            if cr.rem_qty > 0 {
                lemma_lot_push(book.short, new_lot, d);
                assert(lots_pos(short2)) by {
                    assert(forall|i: int| 0 <= i < book.short.len() ==> short2[i] == book.short[i]);
                    assert(short2.last() == new_lot);
                }
            }
            if t.quantity == 0 {
                assert(close_lots(book.long, fifo, t, 0, t.fees, true) == CloseResult {
                    pairs: Seq::<PairModel>::empty(),
                    lots: book.long,
                    rem_qty: 0int,
                    rem_fee: t.fees,
                });
                assert(sum_pair_fees(Seq::<PairModel>::empty(), d) == 0);
                assert(sum_pair_qty(Seq::<PairModel>::empty(), sym) == 0);
            }
            let b2 = BookModel { symbol: book.symbol, long: cr.lots, short: short2 };
            lemma_book_sums_update(books, bi, b2, sym, d);
            let st2 = apply_trade(st, t, fifo);
            assert(st2.books == books.update(bi, b2));
            assert(st2.pairs == st.pairs + cr.pairs);
            lemma_sum_pair_qty_concat(st.pairs, cr.pairs, sym);
            lemma_sum_pair_fees_concat(st.pairs, cr.pairs, d);
            assert(books_pos(st2.books)) by {
                assert(forall|i: int| 0 <= i < st2.books.len() && i != bi ==> st2.books[i]
                    == books[i]);
                assert(st2.books[bi] == b2);
            }
            if t.symbol != sym {
                assert(sum_pair_qty(cr.pairs, sym) == 0);
            }
        },
    }
}

/// Conservation over the whole fold. The fee equation holds whenever no
/// fill with the identifier has zero quantity together with a nonzero fee
/// (such a fill matches nothing, so its fee goes nowhere).
pub proof fn lemma_run_trades_conserves(ts: Seq<TradeModel>, fifo: bool, sym: Seq<char>, d: int)
    requires
        trades_nonneg(ts),
    ensures
        ({
            let st = run_trades(ts, fifo);
            &&& books_pos(st.books)
            &&& sum_pair_qty(st.pairs, sym) + book_long_qty(st.books, sym) == sum_trade_qty(
                ts,
                sym,
                Side::Buy,
            )
            &&& sum_pair_qty(st.pairs, sym) + book_short_qty(st.books, sym) == sum_trade_qty(
                ts,
                sym,
                Side::Sell,
            )
            &&& (forall|i: int| 0 <= i < ts.len() && (#[trigger] ts[i]).id == d
                ==> ts[i].quantity > 0 || ts[i].fees == 0) ==> sum_pair_fees(st.pairs, d)
                + book_fees(st.books, d) == sum_trade_fees(ts, d)
        }),
    decreases ts.len(),
{
    if ts.len() == 0 {
    } else {
        let prefix = ts.drop_last();
        assert(trades_nonneg(prefix)) by {
            assert(forall|i: int| 0 <= i < prefix.len() ==> prefix[i] == ts[i]);
        }
        lemma_run_trades_conserves(prefix, fifo, sym, d);
        let st = run_trades(prefix, fifo);
        let t = ts.last();
        assert(t.quantity >= 0 && t.fees >= 0);
        lemma_apply_trade_conserves(st, t, fifo, sym, d);
        if forall|i: int| 0 <= i < ts.len() && (#[trigger] ts[i]).id == d ==> ts[i].quantity > 0
            || ts[i].fees == 0 {
            assert(forall|i: int| 0 <= i < prefix.len() && (#[trigger] prefix[i]).id == d
                ==> prefix[i].quantity > 0 || prefix[i].fees == 0) by {
                assert(forall|i: int| 0 <= i < prefix.len() ==> prefix[i] == ts[i]);
            }
            assert(t.quantity > 0 || t.fees == 0 || t.id != d) by {
                assert(ts[ts.len() - 1] == t);
            }
        }
    }
}

/// The open-position records of the long side carry exactly the booked
/// long quantity and fees, and no sell-side quantity.
pub proof fn lemma_open_long_sums(books: Seq<BookModel>, sym: Seq<char>, d: int)
    ensures
        sum_trade_qty(open_long_trades(books), sym, Side::Buy) == book_long_qty(books, sym),
        sum_trade_qty(open_long_trades(books), sym, Side::Sell) == 0,
        sum_trade_fees(open_long_trades(books), d) == book_long_fees(books, d),
    decreases books.len(),
{
    if books.len() == 0 {
    } else {
        lemma_open_long_sums(books.drop_first(), sym, d);
        let head = lots_as_open(books[0].symbol, Side::Buy, books[0].long);
        assert(open_long_trades(books) == head + open_long_trades(books.drop_first()));
        lemma_sum_trade_qty_concat(head, open_long_trades(books.drop_first()), sym, Side::Buy);
        lemma_sum_trade_qty_concat(head, open_long_trades(books.drop_first()), sym, Side::Sell);
        lemma_sum_trade_fees_concat(head, open_long_trades(books.drop_first()), d);
        lemma_lots_as_open_sums(books[0].symbol, Side::Buy, books[0].long, sym, d);
        assert(book_long_qty(books, sym) == book_long_qty(books.drop_first(), sym) + (if books[0].symbol
            == sym {
            sum_lot_qty(books[0].long)
        } else {
            0
        })) by {
            lemma_book_long_qty_drop_first(books, sym);
        }
        assert(book_long_fees(books, d) == book_long_fees(books.drop_first(), d) + sum_lot_fees(
            books[0].long,
            d,
        )) by {
            lemma_book_long_fees_drop_first(books, d);
        }
    }
}

/// The open-position records of the short side carry exactly the booked
/// short quantity and fees, and no buy-side quantity.
pub proof fn lemma_open_short_sums(books: Seq<BookModel>, sym: Seq<char>, d: int)
    ensures
        sum_trade_qty(open_short_trades(books), sym, Side::Sell) == book_short_qty(books, sym),
        sum_trade_qty(open_short_trades(books), sym, Side::Buy) == 0,
        sum_trade_fees(open_short_trades(books), d) == book_short_fees(books, d),
    decreases books.len(),
{
    if books.len() == 0 {
    } else {
        lemma_open_short_sums(books.drop_first(), sym, d);
        let head = lots_as_open(books[0].symbol, Side::Sell, books[0].short);
        assert(open_short_trades(books) == head + open_short_trades(books.drop_first()));
        lemma_sum_trade_qty_concat(head, open_short_trades(books.drop_first()), sym, Side::Sell);
        lemma_sum_trade_qty_concat(head, open_short_trades(books.drop_first()), sym, Side::Buy);
        lemma_sum_trade_fees_concat(head, open_short_trades(books.drop_first()), d);
        lemma_lots_as_open_sums(books[0].symbol, Side::Sell, books[0].short, sym, d);
        lemma_book_short_qty_drop_first(books, sym);
        lemma_book_short_fees_drop_first(books, d);
    }
}

/// Fees booked on the long side only.
pub open spec fn book_long_fees(books: Seq<BookModel>, d: int) -> int
    decreases books.len(),
{
    if books.len() == 0 {
        0
    } else {
        book_long_fees(books.drop_last(), d) + sum_lot_fees(books.last().long, d)
    }
}

/// Fees booked on the short side only.
pub open spec fn book_short_fees(books: Seq<BookModel>, d: int) -> int
    decreases books.len(),
{
    if books.len() == 0 {
        0
    } else {
        book_short_fees(books.drop_last(), d) + sum_lot_fees(books.last().short, d)
    }
}

/// The two sides together make the whole book's fees.
proof fn lemma_book_fees_split(books: Seq<BookModel>, d: int)
    ensures
        book_fees(books, d) == book_long_fees(books, d) + book_short_fees(books, d),
    decreases books.len(),
{
    if books.len() > 0 {
        lemma_book_fees_split(books.drop_last(), d);
    }
}

/// Peeling the first book off the long-quantity sum.
proof fn lemma_book_long_qty_drop_first(books: Seq<BookModel>, sym: Seq<char>)
    requires
        books.len() > 0,
    ensures
        book_long_qty(books, sym) == (if books[0].symbol == sym {
            sum_lot_qty(books[0].long)
        } else {
            0
        }) + book_long_qty(books.drop_first(), sym),
    decreases books.len(),
{
    if books.len() == 1 {
        assert(books.drop_last() =~= Seq::<BookModel>::empty());
        assert(books.drop_first() =~= Seq::<BookModel>::empty());
    } else {
        assert(books.drop_last().drop_first() =~= books.drop_first().drop_last());
        assert(books.drop_first().last() == books.last());
        assert(books.drop_last()[0] == books[0]);
        lemma_book_long_qty_drop_first(books.drop_last(), sym);
    }
}

/// Peeling the first book off the short-quantity sum.
proof fn lemma_book_short_qty_drop_first(books: Seq<BookModel>, sym: Seq<char>)
    requires
        books.len() > 0,
    ensures
        book_short_qty(books, sym) == (if books[0].symbol == sym {
            sum_lot_qty(books[0].short)
        } else {
            0
        }) + book_short_qty(books.drop_first(), sym),
    decreases books.len(),
{
    if books.len() == 1 {
        assert(books.drop_last() =~= Seq::<BookModel>::empty());
        assert(books.drop_first() =~= Seq::<BookModel>::empty());
    } else {
        assert(books.drop_last().drop_first() =~= books.drop_first().drop_last());
        assert(books.drop_first().last() == books.last());
        assert(books.drop_last()[0] == books[0]);
        lemma_book_short_qty_drop_first(books.drop_last(), sym);
    }
}

/// Peeling the first book off the long-fee sum.
proof fn lemma_book_long_fees_drop_first(books: Seq<BookModel>, d: int)
    requires
        books.len() > 0,
    ensures
        book_long_fees(books, d) == sum_lot_fees(books[0].long, d) + book_long_fees(
            books.drop_first(),
            d,
        ),
    decreases books.len(),
{
    if books.len() == 1 {
        assert(books.drop_last() =~= Seq::<BookModel>::empty());
        assert(books.drop_first() =~= Seq::<BookModel>::empty());
    } else {
        assert(books.drop_last().drop_first() =~= books.drop_first().drop_last());
        assert(books.drop_first().last() == books.last());
        assert(books.drop_last()[0] == books[0]);
        lemma_book_long_fees_drop_first(books.drop_last(), d);
    }
}

/// Peeling the first book off the short-fee sum.
proof fn lemma_book_short_fees_drop_first(books: Seq<BookModel>, d: int)
    requires
        books.len() > 0,
    ensures
        book_short_fees(books, d) == sum_lot_fees(books[0].short, d) + book_short_fees(
            books.drop_first(),
            d,
        ),
    decreases books.len(),
{
    if books.len() == 1 {
        assert(books.drop_last() =~= Seq::<BookModel>::empty());
        assert(books.drop_first() =~= Seq::<BookModel>::empty());
    } else {
        assert(books.drop_last().drop_first() =~= books.drop_first().drop_last());
        assert(books.drop_first().last() == books.last());
        assert(books.drop_last()[0] == books[0]);
        lemma_book_short_fees_drop_first(books.drop_last(), d);
    }
}

/// One book side's open-position records sum to the side's lot sums.
proof fn lemma_lots_as_open_sums(
    bsym: Seq<char>,
    side: Side,
    lots: Seq<LotModel>,
    sym: Seq<char>,
    d: int,
)
    ensures
        sum_trade_qty(lots_as_open(bsym, side, lots), sym, side) == (if bsym == sym {
            sum_lot_qty(lots)
        } else {
            0
        }),
        sum_trade_qty(
            lots_as_open(bsym, side, lots),
            sym,
            (if side == Side::Buy {
                Side::Sell
            } else {
                Side::Buy
            }),
        ) == 0,
        sum_trade_fees(lots_as_open(bsym, side, lots), d) == sum_lot_fees(lots, d),
    decreases lots.len(),
{
    let mapped = lots_as_open(bsym, side, lots);
    if lots.len() == 0 {
        assert(mapped =~= Seq::<TradeModel>::empty());
    } else {
        lemma_lots_as_open_sums(bsym, side, lots.drop_last(), sym, d);
        assert(mapped.drop_last() =~= lots_as_open(bsym, side, lots.drop_last()));
        assert(mapped.last() == lot_as_open_trade(bsym, side, lots.last()));
    }
}

/// Sorting by timestamp does not change any of the trade sums.
proof fn lemma_sort_preserves_sums(ts: Seq<TradeModel>, sym: Seq<char>, side: Side, d: int)
    ensures
        sum_trade_qty(sort_by_time(ts), sym, side) == sum_trade_qty(ts, sym, side),
        sum_trade_fees(sort_by_time(ts), d) == sum_trade_fees(ts, d),
    decreases ts.len(),
{
    if ts.len() > 0 {
        lemma_sort_preserves_sums(ts.drop_last(), sym, side, d);
        lemma_insert_preserves_sums(ts.last(), sort_by_time(ts.drop_last()), sym, side, d);
    }
}

/// Inserting a fill adds exactly its own contribution to the sums.
proof fn lemma_insert_preserves_sums(
    t: TradeModel,
    s: Seq<TradeModel>,
    sym: Seq<char>,
    side: Side,
    d: int,
)
    ensures
        sum_trade_qty(insert_by_time(t, s), sym, side) == sum_trade_qty(s, sym, side) + (if t.symbol
            == sym && t.side == side {
            t.quantity
        } else {
            0
        }),
        sum_trade_fees(insert_by_time(t, s), d) == sum_trade_fees(s, d) + (if t.id == d {
            t.fees
        } else {
            0
        }),
    decreases s.len(),
{
    if s.len() == 0 {
        assert(insert_by_time(t, s) == seq![t]);
        assert(seq![t].drop_last() =~= Seq::<TradeModel>::empty());
        assert(sum_trade_qty(Seq::<TradeModel>::empty(), sym, side) == 0);
        assert(sum_trade_fees(Seq::<TradeModel>::empty(), d) == 0);
        assert(seq![t].last() == t);
    } else if s.last().timestamp <= t.timestamp {
        assert(insert_by_time(t, s) == s.push(t));
        assert(s.push(t).drop_last() =~= s);
    } else {
        lemma_insert_preserves_sums(t, s.drop_last(), sym, side, d);
        let inner = insert_by_time(t, s.drop_last());
        assert(insert_by_time(t, s) == inner.push(s.last()));
        assert(inner.push(s.last()).drop_last() =~= inner);
    }
}

/// Sorting keeps the trades nonnegative, and keeps the positive-quantity
/// premise for a given identifier.
pub proof fn lemma_sort_keeps_nonneg(ts: Seq<TradeModel>, d: int)
    requires
        trades_nonneg(ts),
    ensures
        trades_nonneg(sort_by_time(ts)),
        (forall|i: int| 0 <= i < ts.len() && (#[trigger] ts[i]).id == d ==> ts[i].quantity > 0
            || ts[i].fees == 0) ==> (forall|i: int| 0 <= i < sort_by_time(ts).len()
            && (#[trigger] sort_by_time(ts)[i]).id == d ==> sort_by_time(ts)[i].quantity > 0
            || sort_by_time(ts)[i].fees == 0),
{
    lemma_sort_membership(ts);
    assert forall|i: int| 0 <= i < sort_by_time(ts).len() implies (#[trigger] sort_by_time(
        ts,
    )[i]).quantity >= 0 && sort_by_time(ts)[i].fees >= 0 by {
        assert(ts.contains(sort_by_time(ts)[i]));
        let w = choose|w: int| 0 <= w < ts.len() && ts[w] == sort_by_time(ts)[i];
        assert(ts[w].quantity >= 0);
    }
    if forall|i: int| 0 <= i < ts.len() && (#[trigger] ts[i]).id == d ==> ts[i].quantity > 0
        || ts[i].fees == 0 {
        assert forall|i: int| 0 <= i < sort_by_time(ts).len() && (#[trigger] sort_by_time(
            ts,
        )[i]).id == d implies sort_by_time(ts)[i].quantity > 0 || sort_by_time(ts)[i].fees
            == 0 by {
            assert(ts.contains(sort_by_time(ts)[i]));
            let w = choose|w: int| 0 <= w < ts.len() && ts[w] == sort_by_time(ts)[i];
            assert(ts[w].id == d ==> ts[w].quantity > 0 || ts[w].fees == 0);
        }
    }
}

/// Every sorted fill occurs in the input.
pub proof fn lemma_sort_membership(ts: Seq<TradeModel>)
    ensures
        forall|i: int| 0 <= i < sort_by_time(ts).len() ==> ts.contains(
            #[trigger] sort_by_time(ts)[i],
        ),
    decreases ts.len(),
{
    if ts.len() > 0 {
        lemma_sort_membership(ts.drop_last());
        lemma_insert_membership(ts.last(), sort_by_time(ts.drop_last()));
        assert forall|i: int| 0 <= i < sort_by_time(ts).len() implies ts.contains(
            #[trigger] sort_by_time(ts)[i],
        ) by {
            let x = sort_by_time(ts)[i];
            assert(sort_by_time(ts).contains(x));
            assert(x == ts.last() || sort_by_time(ts.drop_last()).contains(x));
            if x == ts.last() {
                assert(ts[ts.len() - 1] == x);
            } else {
                let w = choose|w: int| 0 <= w < sort_by_time(ts.drop_last()).len()
                    && sort_by_time(ts.drop_last())[w] == x;
                assert(ts.drop_last().contains(x));
                let v = choose|v: int| 0 <= v < ts.drop_last().len() && ts.drop_last()[v] == x;
                assert(ts[v] == x);
            }
        }
    }
}

/// Every fill of an insertion result is the inserted fill or one of the
/// original sequence.
pub proof fn lemma_insert_membership(t: TradeModel, s: Seq<TradeModel>)
    ensures
        forall|i: int| 0 <= i < insert_by_time(t, s).len() ==> insert_by_time(t, s)[i] == t
            || s.contains(#[trigger] insert_by_time(t, s)[i]),
    decreases s.len(),
{
    if s.len() == 0 {
    } else if s.last().timestamp <= t.timestamp {
        assert forall|i: int| 0 <= i < s.push(t).len() implies s.push(t)[i] == t || s.contains(
            #[trigger] s.push(t)[i],
        ) by {
            if i < s.len() {
                assert(s[i] == s.push(t)[i]);
            }
        }
    } else {
        lemma_insert_membership(t, s.drop_last());
        let inner = insert_by_time(t, s.drop_last());
        assert forall|i: int| 0 <= i < inner.push(s.last()).len() implies inner.push(s.last())[i]
            == t || s.contains(#[trigger] inner.push(s.last())[i]) by {
            let x = inner.push(s.last())[i];
            if i < inner.len() {
                assert(inner[i] == x);
                if x != t {
                    assert(s.drop_last().contains(x));
                    let v = choose|v: int| 0 <= v < s.drop_last().len() && s.drop_last()[v] == x;
                    assert(s[v] == x);
                }
            } else {
                assert(x == s.last());
                assert(s[s.len() - 1] == x);
            }
        }
    }
}

/// Quantity conservation: for any ledger, policy and symbol, the closed
/// quantity summed over all pairs plus the open remainders on a side equals
/// the input quantity on that side.
pub proof fn quantity_conservation(ts: Seq<TradeModel>, fifo: bool, sym: Seq<char>)
    requires
        trades_nonneg(ts),
    ensures
        ({
            let (pairs, open) = match_trades_model(ts, fifo);
            &&& sum_pair_qty(pairs, sym) + sum_trade_qty(open, sym, Side::Buy) == sum_trade_qty(
                ts,
                sym,
                Side::Buy,
            )
            &&& sum_pair_qty(pairs, sym) + sum_trade_qty(open, sym, Side::Sell) == sum_trade_qty(
                ts,
                sym,
                Side::Sell,
            )
        }),
{
    let sorted = sort_by_time(ts);
    lemma_sort_keeps_nonneg(ts, 0);
    lemma_sort_preserves_sums(ts, sym, Side::Buy, 0);
    lemma_sort_preserves_sums(ts, sym, Side::Sell, 0);
    lemma_run_trades_conserves(sorted, fifo, sym, 0);
    let st = run_trades(sorted, fifo);
    lemma_open_long_sums(st.books, sym, 0);
    lemma_open_short_sums(st.books, sym, 0);
    lemma_sum_trade_qty_concat(
        open_long_trades(st.books),
        open_short_trades(st.books),
        sym,
        Side::Buy,
    );
    lemma_sum_trade_qty_concat(
        open_long_trades(st.books),
        open_short_trades(st.books),
        sym,
        Side::Sell,
    );
}

/// Fee conservation: for any ledger, policy and trade identifier, the
/// prorated fee shares attributed to the trade across all pairs, plus the
/// fee carried by its open remainder, equal the trade's original fee. A
/// zero-quantity fill matches nothing, so its fee is exempt unless it is
/// zero.
pub proof fn fee_conservation(ts: Seq<TradeModel>, fifo: bool, d: int)
    requires
        trades_nonneg(ts),
        forall|i: int| 0 <= i < ts.len() && (#[trigger] ts[i]).id == d ==> ts[i].quantity > 0
            || ts[i].fees == 0,
    ensures
        ({
            let (pairs, open) = match_trades_model(ts, fifo);
            sum_pair_fees(pairs, d) + sum_trade_fees(open, d) == sum_trade_fees(ts, d)
        }),
{
    let sorted = sort_by_time(ts);
    lemma_sort_keeps_nonneg(ts, d);
    lemma_sort_preserves_sums(ts, Seq::empty(), Side::Buy, d);
    lemma_run_trades_conserves(sorted, fifo, Seq::empty(), d);
    let st = run_trades(sorted, fifo);
    lemma_open_long_sums(st.books, Seq::empty(), d);
    lemma_open_short_sums(st.books, Seq::empty(), d);
    lemma_book_fees_split(st.books, d);
    lemma_sum_trade_fees_concat(open_long_trades(st.books), open_short_trades(st.books), d);
}

/// Policy determinism: matching is a pure function of the ledger and the
/// policy. Any two results that satisfy the matcher's contract on the same
/// input are the same, pairs and open remainders alike.
pub proof fn policy_deterministic(
    ts: Seq<TradeModel>,
    fifo: bool,
    a: (Seq<PairModel>, Seq<TradeModel>),
    b: (Seq<PairModel>, Seq<TradeModel>),
)
    requires
        a == match_trades_model(ts, fifo),
        b == match_trades_model(ts, fifo),
    ensures
        a == b,
{
}

/// A pair's P&L is consistent with its fields: the gross is the price
/// delta times the closed quantity times the symbol's multiplier (signed
/// for the position's posture), and the net is the gross minus the
/// multiplied prorated fees.
pub open spec fn pair_pnl_consistent(p: PairModel) -> bool {
    let mult = multiplier_of(p.symbol);
    &&& (p.gross_profit_loss == (p.exit_price - p.entry_price) * p.quantity * mult
        || p.gross_profit_loss == (p.entry_price - p.exit_price) * p.quantity * mult)
    &&& p.net_profit_loss == p.gross_profit_loss - (p.entry_fees + p.exit_fees) * mult
}

/// Every pair a closing run emits is P&L-consistent.
proof fn lemma_close_lots_consistent(
    lots: Seq<LotModel>,
    fifo: bool,
    t: TradeModel,
    rem_qty: int,
    rem_fee: int,
    long_side: bool,
)
    ensures
        ({
            let cr = close_lots(lots, fifo, t, rem_qty, rem_fee, long_side);
            forall|i: int| 0 <= i < cr.pairs.len() ==> pair_pnl_consistent(#[trigger] cr.pairs[i])
        }),
    decreases lots.len(),
{
    if rem_qty <= 0 || lots.len() == 0 {
    } else {
        let idx = if fifo {
            0int
        } else {
            lots.len() - 1
        };
        let lot = lots[idx];
        let q = min_int(rem_qty, lot.quantity);
        let lot_take = lot.fee * q / lot.quantity;
        let in_take = rem_fee * q / rem_qty;
        let pair = close_pair(lot, t, q, lot_take, in_take, long_side);
        assert(pair_pnl_consistent(pair));
        if q == lot.quantity {
            lemma_close_lots_consistent(
                lots.remove(idx),
                fifo,
                t,
                rem_qty - q,
                rem_fee - in_take,
                long_side,
            );
            let cr = close_lots(lots, fifo, t, rem_qty, rem_fee, long_side);
            let rest = close_lots(lots.remove(idx), fifo, t, rem_qty - q, rem_fee - in_take, long_side);
            assert forall|i: int| 0 <= i < cr.pairs.len() implies pair_pnl_consistent(
                #[trigger] cr.pairs[i],
            ) by {
                if i > 0 {
                    assert(cr.pairs[i] == rest.pairs[i - 1]);
                }
            }
        }
    }
}

/// Every pair the matcher emits is P&L-consistent: in particular, an
/// option symbol's gross and net P&L carry the contract multiplier of 100,
/// and any other symbol's carry a multiplier of 1.
pub proof fn options_multiplier(ts: Seq<TradeModel>, fifo: bool)
    ensures
        forall|i: int| 0 <= i < match_trades_model(ts, fifo).0.len() ==> pair_pnl_consistent(
            #[trigger] match_trades_model(ts, fifo).0[i],
        ),
{
    lemma_run_trades_consistent(sort_by_time(ts), fifo);
}

/// Every pair of the whole fold is P&L-consistent.
pub proof fn lemma_run_trades_consistent(ts: Seq<TradeModel>, fifo: bool)
    ensures
        forall|i: int| 0 <= i < run_trades(ts, fifo).pairs.len() ==> pair_pnl_consistent(
            #[trigger] run_trades(ts, fifo).pairs[i],
        ),
    decreases ts.len(),
{
    if ts.len() > 0 {
        lemma_run_trades_consistent(ts.drop_last(), fifo);
        let st = run_trades(ts.drop_last(), fifo);
        let t = ts.last();
        let st2 = run_trades(ts, fifo);
        let bi0 = find_book(st.books, t.symbol);
        let books = if bi0 == -1 {
            st.books.push(BookModel { symbol: t.symbol, long: Seq::empty(), short: Seq::empty() })
        } else {
            st.books
        };
        let bi = if bi0 == -1 {
            books.len() - 1
        } else {
            bi0
        };
        let book = books[bi];
        match t.side {
            Side::Buy => {
                lemma_close_lots_consistent(book.short, fifo, t, t.quantity, t.fees, false);
                let cr = close_lots(book.short, fifo, t, t.quantity, t.fees, false);
                assert(st2.pairs == st.pairs + cr.pairs);
                assert forall|i: int| 0 <= i < st2.pairs.len() implies pair_pnl_consistent(
                    #[trigger] st2.pairs[i],
                ) by {
                    if i < st.pairs.len() {
                        assert(st2.pairs[i] == st.pairs[i]);
                    } else {
                        assert(st2.pairs[i] == cr.pairs[i - st.pairs.len()]);
                    }
                }
            },
            Side::Sell => {
                lemma_close_lots_consistent(book.long, fifo, t, t.quantity, t.fees, true);
                let cr = close_lots(book.long, fifo, t, t.quantity, t.fees, true);
                assert(st2.pairs == st.pairs + cr.pairs);
                assert forall|i: int| 0 <= i < st2.pairs.len() implies pair_pnl_consistent(
                    #[trigger] st2.pairs[i],
                ) by {
                    if i < st.pairs.len() {
                        assert(st2.pairs[i] == st.pairs[i]);
                    } else {
                        assert(st2.pairs[i] == cr.pairs[i - st.pairs.len()]);
                    }
                }
            },
        }
    }
}

} // verus!
