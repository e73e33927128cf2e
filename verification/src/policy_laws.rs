//! Policy independence of realized totals.
//!
//! FIFO and LIFO pick different lots, so they emit different pairs — but
//! for a symbol whose history closes completely, the total realized P&L is
//! the same under both policies: every unit bought is matched against every
//! unit sold, so the gross total is the multiplier times the sell value
//! minus the buy value, and the fees are consumed in full either way.

use vstd::prelude::*;

use crate::conservation::book_long_qty;
use crate::conservation::book_short_qty;
use crate::conservation::books_pos;
use crate::conservation::lots_pos;
use crate::conservation::sum_lot_qty;
use crate::conservation::sum_trade_qty;
use crate::conservation::trades_nonneg;
use crate::matcher::BookModel;
use crate::matcher::LotModel;
use crate::matcher::MatchState;
use crate::matcher::apply_trade;
use crate::matcher::book_after;
use crate::matcher::close_lots;
use crate::matcher::close_pair;
use crate::matcher::find_book;
use crate::matcher::insert_by_time;
use crate::matcher::lemma_find_book_found;
use crate::matcher::match_trades_model;
use crate::matcher::min_int;
use crate::matcher::multiplier_of;
use crate::matcher::open_long_trades;
use crate::matcher::open_short_trades;
use crate::matcher::remainder_lot;
use crate::matcher::run_trades;
use crate::matcher::sort_by_time;
use crate::trade::PairModel;
use crate::trade::Side;
use crate::trade::TradeModel;

verus! {

/// Gross P&L summed over the pairs of `sym`.
pub open spec fn sum_pair_gross_sym(ps: Seq<PairModel>, sym: Seq<char>) -> int
    decreases ps.len(),
{
    if ps.len() == 0 {
        0
    } else {
        sum_pair_gross_sym(ps.drop_last(), sym) + (if ps.last().symbol == sym {
            ps.last().gross_profit_loss
        } else {
            0
        })
    }
}

/// Net P&L summed over the pairs of `sym`.
pub open spec fn sum_pair_net_sym(ps: Seq<PairModel>, sym: Seq<char>) -> int
    decreases ps.len(),
{
    if ps.len() == 0 {
        0
    } else {
        sum_pair_net_sym(ps.drop_last(), sym) + (if ps.last().symbol == sym {
            ps.last().net_profit_loss
        } else {
            0
        })
    }
}

/// Prorated fees (both sides) summed over the pairs of `sym`.
pub open spec fn sum_pair_fee_sym(ps: Seq<PairModel>, sym: Seq<char>) -> int
    decreases ps.len(),
{
    if ps.len() == 0 {
        0
    } else {
        sum_pair_fee_sym(ps.drop_last(), sym) + (if ps.last().symbol == sym {
            ps.last().entry_fees + ps.last().exit_fees
        } else {
            0
        })
    }
}

/// Price times quantity summed over the trades of `sym` on a side.
pub open spec fn sum_trade_value(ts: Seq<TradeModel>, sym: Seq<char>, side: Side) -> int
    decreases ts.len(),
{
    if ts.len() == 0 {
        0
    } else {
        sum_trade_value(ts.drop_last(), sym, side) + (if ts.last().symbol == sym
            && ts.last().side == side {
            ts.last().price * ts.last().quantity
        } else {
            0
        })
    }
}

/// Fees summed over the trades of `sym`.
pub open spec fn sum_trade_fees_sym(ts: Seq<TradeModel>, sym: Seq<char>) -> int
    decreases ts.len(),
{
    if ts.len() == 0 {
        0
    } else {
        sum_trade_fees_sym(ts.drop_last(), sym) + (if ts.last().symbol == sym {
            ts.last().fees
        } else {
            0
        })
    }
}

/// Price times remaining quantity summed over a lot queue.
pub open spec fn sum_lot_value(lots: Seq<LotModel>) -> int
    decreases lots.len(),
{
    if lots.len() == 0 {
        0
    } else {
        sum_lot_value(lots.drop_last()) + lots.last().price * lots.last().quantity
    }
}

/// Remaining fees summed over a lot queue.
pub open spec fn sum_lot_fee_all(lots: Seq<LotModel>) -> int
    decreases lots.len(),
{
    if lots.len() == 0 {
        0
    } else {
        sum_lot_fee_all(lots.drop_last()) + lots.last().fee
    }
}

/// Long-side value booked under `sym`.
pub open spec fn book_long_value(books: Seq<BookModel>, sym: Seq<char>) -> int
    decreases books.len(),
{
    if books.len() == 0 {
        0
    } else {
        book_long_value(books.drop_last(), sym) + (if books.last().symbol == sym {
            sum_lot_value(books.last().long)
        } else {
            0
        })
    }
}

/// Short-side value booked under `sym`.
pub open spec fn book_short_value(books: Seq<BookModel>, sym: Seq<char>) -> int
    decreases books.len(),
{
    if books.len() == 0 {
        0
    } else {
        book_short_value(books.drop_last(), sym) + (if books.last().symbol == sym {
            sum_lot_value(books.last().short)
        } else {
            0
        })
    }
}

/// Fees booked under `sym`, both sides.
pub open spec fn book_fee_sym(books: Seq<BookModel>, sym: Seq<char>) -> int
    decreases books.len(),
{
    if books.len() == 0 {
        0
    } else {
        book_fee_sym(books.drop_last(), sym) + (if books.last().symbol == sym {
            sum_lot_fee_all(books.last().long) + sum_lot_fee_all(books.last().short)
        } else {
            0
        })
    }
}

/// Gross sums split over concatenation.
proof fn lemma_gross_sym_concat(a: Seq<PairModel>, b: Seq<PairModel>, sym: Seq<char>)
    ensures
        sum_pair_gross_sym(a + b, sym) == sum_pair_gross_sym(a, sym) + sum_pair_gross_sym(b, sym),
        sum_pair_fee_sym(a + b, sym) == sum_pair_fee_sym(a, sym) + sum_pair_fee_sym(b, sym),
        sum_pair_net_sym(a + b, sym) == sum_pair_net_sym(a, sym) + sum_pair_net_sym(b, sym),
    decreases b.len(),
{
    if b.len() == 0 {
        assert(a + b =~= a);
    } else {
        assert((a + b).drop_last() =~= a + b.drop_last());
        assert((a + b).last() == b.last());
        lemma_gross_sym_concat(a, b.drop_last(), sym);
    }
}

/// Lot value and fee sums respect removal and update of one lot.
proof fn lemma_lot_value_remove(lots: Seq<LotModel>, i: int)
    requires
        0 <= i < lots.len(),
    ensures
        sum_lot_value(lots.remove(i)) == sum_lot_value(lots) - lots[i].price * lots[i].quantity,
        sum_lot_fee_all(lots.remove(i)) == sum_lot_fee_all(lots) - lots[i].fee,
    decreases lots.len(),
{
    if i == lots.len() - 1 {
        assert(lots.remove(i) =~= lots.drop_last());
    } else {
        assert(lots.remove(i).drop_last() =~= lots.drop_last().remove(i));
        assert(lots.remove(i).last() == lots.last());
        lemma_lot_value_remove(lots.drop_last(), i);
    }
}

/// Lot value and fee sums respect updating one lot.
proof fn lemma_lot_value_update(lots: Seq<LotModel>, i: int, l: LotModel)
    requires
        0 <= i < lots.len(),
    ensures
        sum_lot_value(lots.update(i, l)) == sum_lot_value(lots) - lots[i].price * lots[i].quantity
            + l.price * l.quantity,
        sum_lot_fee_all(lots.update(i, l)) == sum_lot_fee_all(lots) - lots[i].fee + l.fee,
    decreases lots.len(),
{
    if i == lots.len() - 1 {
        assert(lots.update(i, l).drop_last() =~= lots.drop_last());
        assert(lots.update(i, l).last() == l);
    } else {
        assert(lots.update(i, l).drop_last() =~= lots.drop_last().update(i, l));
        assert(lots.update(i, l).last() == lots.last());
        lemma_lot_value_update(lots.drop_last(), i, l);
    }
}

/// What one closing run does to value and fees: the gross of the emitted
/// pairs is the multiplier times the closed value difference, signed for
/// the posture, and the emitted fees are exactly what the lots and the
/// incoming remainder lost.
proof fn lemma_close_lots_value(
    lots: Seq<LotModel>,
    fifo: bool,
    t: TradeModel,
    rem_qty: int,
    rem_fee: int,
    long_side: bool,
)
    requires
        lots_pos(lots),
        0 <= rem_qty,
        0 <= rem_fee,
    ensures
        ({
            let cr = close_lots(lots, fifo, t, rem_qty, rem_fee, long_side);
            let closed_val = sum_lot_value(lots) - sum_lot_value(cr.lots);
            let closed_qty = rem_qty - cr.rem_qty;
            &&& sum_pair_gross_sym(cr.pairs, t.symbol) == multiplier_of(t.symbol) * (if long_side {
                t.price * closed_qty - closed_val
            } else {
                closed_val - t.price * closed_qty
            })
            &&& sum_pair_fee_sym(cr.pairs, t.symbol) == (sum_lot_fee_all(lots) - sum_lot_fee_all(
                cr.lots,
            )) + (rem_fee - cr.rem_fee)
            &&& forall|s: Seq<char>| s != t.symbol ==> sum_pair_gross_sym(cr.pairs, s) == 0
                && sum_pair_fee_sym(cr.pairs, s) == 0 && sum_pair_net_sym(cr.pairs, s) == 0
            &&& forall|i: int| 0 <= i < cr.pairs.len() ==> (#[trigger] cr.pairs[i]).symbol
                == t.symbol
        }),
    decreases lots.len(),
{
    let mult = multiplier_of(t.symbol);
    if rem_qty <= 0 || lots.len() == 0 {
        let cr = close_lots(lots, fifo, t, rem_qty, rem_fee, long_side);
        assert(cr.pairs =~= Seq::<PairModel>::empty());
        assert(mult * (if long_side {
            t.price * 0 - 0
        } else {
            0 - t.price * 0
        }) == 0) by (nonlinear_arith);
        assert forall|s: Seq<char>| s != t.symbol implies sum_pair_gross_sym(cr.pairs, s) == 0
            && sum_pair_fee_sym(cr.pairs, s) == 0 && sum_pair_net_sym(cr.pairs, s) == 0 by {}
    } else {
        let idx = if fifo {
            0int
        } else {
            lots.len() - 1
        };
        let lot = lots[idx];
        assert(lot.quantity > 0 && lot.fee >= 0);
        let q = min_int(rem_qty, lot.quantity);
        let lot_take = lot.fee * q / lot.quantity;
        let in_take = rem_fee * q / rem_qty;
        crate::conservation::lemma_prorate_facts(lot.fee, q, lot.quantity);
        crate::conservation::lemma_prorate_facts(rem_fee, q, rem_qty);
        let pair = close_pair(lot, t, q, lot_take, in_take, long_side);
        let singleton_gross = if long_side {
            (t.price - lot.price) * q * mult
        } else {
            (lot.price - t.price) * q * mult
        };
        assert(sum_pair_gross_sym(seq![pair], t.symbol) == singleton_gross && sum_pair_fee_sym(
            seq![pair],
            t.symbol,
        ) == lot_take + in_take) by {
            assert(seq![pair].drop_last() =~= Seq::<PairModel>::empty());
            assert(seq![pair].last() == pair);
            assert(sum_pair_gross_sym(Seq::<PairModel>::empty(), t.symbol) == 0);
            assert(sum_pair_fee_sym(Seq::<PairModel>::empty(), t.symbol) == 0);
        }
        if q == lot.quantity {
            let lots2 = lots.remove(idx);
            assert(lots_pos(lots2)) by {
                assert(forall|i: int| 0 <= i < lots2.len() ==> lots2[i] == lots[
                    if i < idx {
                        i
                    } else {
                        i + 1
                    }
                ]);
            }
            lemma_lot_value_remove(lots, idx);
            lemma_close_lots_value(lots2, fifo, t, rem_qty - q, rem_fee - in_take, long_side);
            crate::conservation::lemma_close_lots_conserves(
                lots2,
                fifo,
                t,
                rem_qty - q,
                rem_fee - in_take,
                long_side,
                0,
            );
            let rest = close_lots(lots2, fifo, t, rem_qty - q, rem_fee - in_take, long_side);
            let cr = close_lots(lots, fifo, t, rem_qty, rem_fee, long_side);
            assert(cr.pairs == seq![pair] + rest.pairs);
            lemma_gross_sym_concat(seq![pair], rest.pairs, t.symbol);
            let closed_val = sum_lot_value(lots) - sum_lot_value(cr.lots);
            let closed_qty = rem_qty - cr.rem_qty;
            let rest_closed_val = sum_lot_value(lots2) - sum_lot_value(rest.lots);
            let rest_closed_qty = (rem_qty - q) - rest.rem_qty;
            assert(closed_val == lot.price * lot.quantity + rest_closed_val);
            assert(closed_qty == q + rest_closed_qty);
            if long_side {
                assert(singleton_gross + mult * (t.price * rest_closed_qty - rest_closed_val)
                    == mult * (t.price * closed_qty - closed_val)) by (nonlinear_arith)
                    requires
                        singleton_gross == (t.price - lot.price) * q * mult,
                        closed_val == lot.price * lot.quantity + rest_closed_val,
                        closed_qty == q + rest_closed_qty,
                        q == lot.quantity,
                ;
            } else {
                assert(singleton_gross + mult * (rest_closed_val - t.price * rest_closed_qty)
                    == mult * (closed_val - t.price * closed_qty)) by (nonlinear_arith)
                    requires
                        singleton_gross == (lot.price - t.price) * q * mult,
                        closed_val == lot.price * lot.quantity + rest_closed_val,
                        closed_qty == q + rest_closed_qty,
                        q == lot.quantity,
                ;
            }
            assert forall|i: int| 0 <= i < cr.pairs.len() implies (#[trigger] cr.pairs[i]).symbol
                == t.symbol by {
                if i > 0 {
                    assert(cr.pairs[i] == rest.pairs[i - 1]);
                }
            }
            assert forall|s: Seq<char>| s != t.symbol implies sum_pair_gross_sym(cr.pairs, s) == 0
                && sum_pair_fee_sym(cr.pairs, s) == 0 && sum_pair_net_sym(cr.pairs, s) == 0 by {
                lemma_gross_sym_concat(seq![pair], rest.pairs, s);
                assert(sum_pair_gross_sym(seq![pair], s) == 0 && sum_pair_fee_sym(seq![pair], s)
                    == 0 && sum_pair_net_sym(seq![pair], s) == 0) by {
                    assert(seq![pair].drop_last() =~= Seq::<PairModel>::empty());
                    assert(seq![pair].last() == pair);
                    assert(sum_pair_gross_sym(Seq::<PairModel>::empty(), s) == 0);
                    assert(sum_pair_fee_sym(Seq::<PairModel>::empty(), s) == 0);
                    assert(sum_pair_net_sym(Seq::<PairModel>::empty(), s) == 0);
                }
            }
        } else {
            let lot2 = LotModel {
                id: lot.id,
                quantity: lot.quantity - q,
                price: lot.price,
                timestamp: lot.timestamp,
                fee: lot.fee - lot_take,
                strategy_id: lot.strategy_id,
            };
            lemma_lot_value_update(lots, idx, lot2);
            let cr = close_lots(lots, fifo, t, rem_qty, rem_fee, long_side);
            assert(cr.pairs == seq![pair]);
            let closed_val = sum_lot_value(lots) - sum_lot_value(cr.lots);
            let closed_qty = rem_qty - cr.rem_qty;
            assert(closed_val == lot.price * lot.quantity - lot.price * (lot.quantity - q));
            assert(closed_qty == q);
            if long_side {
                assert(singleton_gross == mult * (t.price * q - (lot.price * lot.quantity
                    - lot.price * (lot.quantity - q)))) by (nonlinear_arith)
                    requires
                        singleton_gross == (t.price - lot.price) * q * mult,
                ;
            } else {
                assert(singleton_gross == mult * ((lot.price * lot.quantity - lot.price * (
                lot.quantity - q)) - t.price * q)) by (nonlinear_arith)
                    requires
                        singleton_gross == (lot.price - t.price) * q * mult,
                ;
            }
            assert forall|s: Seq<char>| s != t.symbol implies sum_pair_gross_sym(cr.pairs, s) == 0
                && sum_pair_fee_sym(cr.pairs, s) == 0 && sum_pair_net_sym(cr.pairs, s) == 0 by {
                assert(seq![pair].drop_last() =~= Seq::<PairModel>::empty());
                assert(seq![pair].last() == pair);
                assert(sum_pair_gross_sym(Seq::<PairModel>::empty(), s) == 0);
                assert(sum_pair_fee_sym(Seq::<PairModel>::empty(), s) == 0);
                assert(sum_pair_net_sym(Seq::<PairModel>::empty(), s) == 0);
            }
        }
    }
}

/// One book of a positive book list has positive lots.
proof fn lemma_books_pos_at(books: Seq<BookModel>, i: int)
    requires
        books_pos(books),
        0 <= i < books.len(),
    ensures
        lots_pos(books[i].long),
        lots_pos(books[i].short),
{
    assert(lots_pos(books[i].long) && lots_pos(books[i].short));
}

/// Book value and fee sums respect updating one book.
proof fn lemma_book_value_update(books: Seq<BookModel>, i: int, b: BookModel, sym: Seq<char>)
    requires
        0 <= i < books.len(),
    ensures
        book_long_value(books.update(i, b), sym) == book_long_value(books, sym) - (
        if books[i].symbol == sym {
            sum_lot_value(books[i].long)
        } else {
            0
        }) + (if b.symbol == sym {
            sum_lot_value(b.long)
        } else {
            0
        }),
        book_short_value(books.update(i, b), sym) == book_short_value(books, sym) - (
        if books[i].symbol == sym {
            sum_lot_value(books[i].short)
        } else {
            0
        }) + (if b.symbol == sym {
            sum_lot_value(b.short)
        } else {
            0
        }),
        book_fee_sym(books.update(i, b), sym) == book_fee_sym(books, sym) - (if books[i].symbol
            == sym {
            sum_lot_fee_all(books[i].long) + sum_lot_fee_all(books[i].short)
        } else {
            0
        }) + (if b.symbol == sym {
            sum_lot_fee_all(b.long) + sum_lot_fee_all(b.short)
        } else {
            0
        }),
    decreases books.len(),
{
    if i == books.len() - 1 {
        assert(books.update(i, b).drop_last() =~= books.drop_last());
        assert(books.update(i, b).last() == b);
    } else {
        assert(books.update(i, b).drop_last() =~= books.drop_last().update(i, b));
        assert(books.update(i, b).last() == books.last());
        lemma_book_value_update(books.drop_last(), i, b, sym);
    }
}

/// Appending a lot adds its value and fee to the sums.
proof fn lemma_lot_value_push(lots: Seq<LotModel>, l: LotModel)
    ensures
        sum_lot_value(lots.push(l)) == sum_lot_value(lots) + l.price * l.quantity,
        sum_lot_fee_all(lots.push(l)) == sum_lot_fee_all(lots) + l.fee,
{
    assert(lots.push(l).drop_last() =~= lots);
    assert(lots.push(l).last() == l);
}

/// The per-trade step's effect on value and fees: the gross sum moves by
/// the multiplier times the fill's signed value change, and the fee pool
/// absorbs the fill's whole fee (unless a zero-quantity fill discards it).
proof fn lemma_apply_trade_value(st: MatchState, t: TradeModel, fifo: bool, sym: Seq<char>)
    requires
        books_pos(st.books),
        t.quantity >= 0,
        t.fees >= 0,
    ensures
        ({
            let st2 = apply_trade(st, t, fifo);
            let mult = multiplier_of(sym);
            &&& sum_pair_gross_sym(st2.pairs, sym) - sum_pair_gross_sym(st.pairs, sym) == mult * ((
            if t.symbol == sym && t.side == Side::Sell {
                t.price * t.quantity
            } else {
                0
            }) - (if t.symbol == sym && t.side == Side::Buy {
                t.price * t.quantity
            } else {
                0
            }) + (book_long_value(st2.books, sym) - book_long_value(st.books, sym)) - (
            book_short_value(st2.books, sym) - book_short_value(st.books, sym)))
            &&& (t.quantity > 0 || t.fees == 0 || t.symbol != sym) ==> sum_pair_fee_sym(
                st2.pairs,
                sym,
            ) - sum_pair_fee_sym(st.pairs, sym) + (book_fee_sym(st2.books, sym) - book_fee_sym(
                st.books,
                sym,
            )) == (if t.symbol == sym {
                t.fees
            } else {
                0
            })
        }),
{
    let mult = multiplier_of(sym);
    let bi0 = find_book(st.books, t.symbol);
    let empty_book = BookModel { symbol: t.symbol, long: Seq::empty(), short: Seq::empty() };
    let books = if bi0 == -1 {
        st.books.push(empty_book)
    } else {
        st.books
    };
    let bi = if bi0 == -1 {
        books.len() - 1
    } else {
        bi0
    };
    lemma_find_book_found(st.books, t.symbol);
    if bi0 == -1 {
        assert(books.drop_last() =~= st.books);
        assert(books.last() == empty_book);
        assert(book_long_value(books, sym) == book_long_value(st.books, sym));
        assert(book_short_value(books, sym) == book_short_value(st.books, sym));
        assert(book_fee_sym(books, sym) == book_fee_sym(st.books, sym));
        assert(books_pos(books)) by {
            assert(forall|i: int| 0 <= i < st.books.len() ==> books[i] == st.books[i]);
        }
    }
    assert(books_pos(books));
    let book = books[bi];
    lemma_books_pos_at(books, bi);
    let opposing = if t.side == Side::Buy {
        book.short
    } else {
        book.long
    };
    let long_side = t.side == Side::Sell;
    let cr = close_lots(opposing, fifo, t, t.quantity, t.fees, long_side);
    lemma_close_lots_value(opposing, fifo, t, t.quantity, t.fees, long_side);
    crate::conservation::lemma_close_lots_conserves(
        opposing,
        fifo,
        t,
        t.quantity,
        t.fees,
        long_side,
        0,
    );
    let b2 = book_after(book, t, fifo);
    let st2 = apply_trade(st, t, fifo);
    assert(st2.books == books.update(bi, b2));
    assert(st2.pairs == st.pairs + cr.pairs);
    lemma_gross_sym_concat(st.pairs, cr.pairs, sym);
    lemma_book_value_update(books, bi, b2, sym);
    if cr.rem_qty > 0 {
        let nl = remainder_lot(t, cr.rem_qty, cr.rem_fee);
        if t.side == Side::Buy {
            lemma_lot_value_push(book.long, nl);
        } else {
            lemma_lot_value_push(book.short, nl);
        }
    }
    if t.symbol == sym {
        assert(sum_pair_gross_sym(cr.pairs, sym) == mult * (if long_side {
            t.price * (t.quantity - cr.rem_qty) - (sum_lot_value(opposing) - sum_lot_value(cr.lots))
        } else {
            (sum_lot_value(opposing) - sum_lot_value(cr.lots)) - t.price * (t.quantity - cr.rem_qty)
        }));
        assert(t.price * t.quantity - t.price * cr.rem_qty == t.price * (t.quantity - cr.rem_qty))
            by (nonlinear_arith);
        assert(mult * ((t.quantity - cr.rem_qty) * t.price) + mult * (cr.rem_qty * t.price)
            == mult * (t.quantity * t.price)) by (nonlinear_arith);
        if t.quantity > 0 || t.fees == 0 {
            if cr.rem_qty == 0 && t.quantity > 0 {
                assert(cr.rem_fee == 0);
            }
            if t.quantity == 0 {
                assert(close_lots(opposing, fifo, t, 0, t.fees, long_side).pairs
                    =~= Seq::<PairModel>::empty());
            }
        }
        assert(mult * (t.price * cr.rem_qty) == mult * (cr.rem_qty * t.price)) by (nonlinear_arith);
    } else {
        assert(sum_pair_gross_sym(cr.pairs, sym) == 0);
        assert(sum_pair_fee_sym(cr.pairs, sym) == 0);
        assert(b2.symbol == book.symbol);
    }
}

/// Value conservation over the whole fold: the gross total under `sym`
/// is the multiplier times the processed sell value minus the buy value,
/// plus the value still locked in the books.
#[verifier::rlimit(100)]
proof fn lemma_run_trades_value(ts: Seq<TradeModel>, fifo: bool, sym: Seq<char>)
    requires
        trades_nonneg(ts),
    ensures
        ({
            let st = run_trades(ts, fifo);
            let mult = multiplier_of(sym);
            sum_pair_gross_sym(st.pairs, sym) == mult * (sum_trade_value(ts, sym, Side::Sell)
                - sum_trade_value(ts, sym, Side::Buy) + book_long_value(st.books, sym)
                - book_short_value(st.books, sym))
        }),
    decreases ts.len(),
{
    if ts.len() == 0 {
    } else {
        let prefix = ts.drop_last();
        assert(trades_nonneg(prefix)) by {
            assert(forall|i: int| 0 <= i < prefix.len() ==> prefix[i] == ts[i]);
        }
        lemma_run_trades_value(prefix, fifo, sym);
        crate::conservation::lemma_run_trades_conserves(prefix, fifo, sym, 0);
        let st = run_trades(prefix, fifo);
        let t = ts.last();
        assert(t.quantity >= 0 && t.fees >= 0);
        lemma_apply_trade_value(st, t, fifo, sym);
        let st2 = run_trades(ts, fifo);
        let mult = multiplier_of(sym);
        let a = sum_trade_value(prefix, sym, Side::Sell) - sum_trade_value(prefix, sym, Side::Buy)
            + book_long_value(st.books, sym) - book_short_value(st.books, sym);
        let d = (if t.symbol == sym && t.side == Side::Sell {
            t.price * t.quantity
        } else {
            0
        }) - (if t.symbol == sym && t.side == Side::Buy {
            t.price * t.quantity
        } else {
            0
        }) + (book_long_value(st2.books, sym) - book_long_value(st.books, sym)) - (
        book_short_value(st2.books, sym) - book_short_value(st.books, sym));
        assert(sum_pair_gross_sym(st2.pairs, sym) == mult * a + mult * d);
        assert(mult * a + mult * d == mult * (a + d)) by (nonlinear_arith);
        assert(a + d == sum_trade_value(ts, sym, Side::Sell) - sum_trade_value(ts, sym, Side::Buy)
            + book_long_value(st2.books, sym) - book_short_value(st2.books, sym));
        assert(sum_pair_gross_sym(st2.pairs, sym) == mult * (sum_trade_value(ts, sym, Side::Sell)
            - sum_trade_value(ts, sym, Side::Buy) + book_long_value(st2.books, sym)
            - book_short_value(st2.books, sym)));
    }
}

/// Fee conservation per symbol over the whole fold, as long as no
/// zero-quantity fill of the symbol carries a fee.
#[verifier::rlimit(100)]
proof fn lemma_run_trades_fee_sym(ts: Seq<TradeModel>, fifo: bool, sym: Seq<char>)
    requires
        trades_nonneg(ts),
        forall|i: int| 0 <= i < ts.len() && (#[trigger] ts[i]).symbol == sym ==> ts[i].quantity > 0
            || ts[i].fees == 0,
    ensures
        ({
            let st = run_trades(ts, fifo);
            sum_pair_fee_sym(st.pairs, sym) + book_fee_sym(st.books, sym) == sum_trade_fees_sym(
                ts,
                sym,
            )
        }),
    decreases ts.len(),
{
    if ts.len() == 0 {
    } else {
        let prefix = ts.drop_last();
        assert(trades_nonneg(prefix) && (forall|i: int| 0 <= i < prefix.len()
            && (#[trigger] prefix[i]).symbol == sym ==> prefix[i].quantity > 0 || prefix[i].fees
            == 0)) by {
            assert(forall|i: int| 0 <= i < prefix.len() ==> prefix[i] == ts[i]);
        }
        lemma_run_trades_fee_sym(prefix, fifo, sym);
        crate::conservation::lemma_run_trades_conserves(prefix, fifo, sym, 0);
        let st = run_trades(prefix, fifo);
        let t = ts.last();
        assert(t.quantity >= 0 && t.fees >= 0);
        lemma_apply_trade_value(st, t, fifo, sym);
        assert(t.quantity > 0 || t.fees == 0 || t.symbol != sym) by {
            assert(ts[ts.len() - 1] == t);
        }
    }
}

/// Inserting a fill adds exactly its own contribution to the value sums.
proof fn lemma_insert_preserves_value(t: TradeModel, s: Seq<TradeModel>, sym: Seq<char>)
    ensures
        sum_trade_value(insert_by_time(t, s), sym, Side::Buy) == sum_trade_value(
            s,
            sym,
            Side::Buy,
        ) + (if t.symbol == sym && t.side == Side::Buy {
            t.price * t.quantity
        } else {
            0
        }),
        sum_trade_value(insert_by_time(t, s), sym, Side::Sell) == sum_trade_value(
            s,
            sym,
            Side::Sell,
        ) + (if t.symbol == sym && t.side == Side::Sell {
            t.price * t.quantity
        } else {
            0
        }),
        sum_trade_fees_sym(insert_by_time(t, s), sym) == sum_trade_fees_sym(s, sym) + (
        if t.symbol == sym {
            t.fees
        } else {
            0
        }),
    decreases s.len(),
{
    if s.len() == 0 {
        assert(insert_by_time(t, s) == seq![t]);
        assert(seq![t].drop_last() =~= Seq::<TradeModel>::empty());
        assert(seq![t].last() == t);
        assert(sum_trade_value(Seq::<TradeModel>::empty(), sym, Side::Buy) == 0);
        assert(sum_trade_value(Seq::<TradeModel>::empty(), sym, Side::Sell) == 0);
        assert(sum_trade_fees_sym(Seq::<TradeModel>::empty(), sym) == 0);
    } else if s.last().timestamp <= t.timestamp {
        assert(insert_by_time(t, s) == s.push(t));
        assert(s.push(t).drop_last() =~= s);
    } else {
        lemma_insert_preserves_value(t, s.drop_last(), sym);
        let inner = insert_by_time(t, s.drop_last());
        assert(insert_by_time(t, s) == inner.push(s.last()));
        assert(inner.push(s.last()).drop_last() =~= inner);
    }
}

/// Sorting by timestamp does not change the value or fee sums.
proof fn lemma_sort_preserves_value(ts: Seq<TradeModel>, sym: Seq<char>)
    ensures
        sum_trade_value(sort_by_time(ts), sym, Side::Buy) == sum_trade_value(ts, sym, Side::Buy),
        sum_trade_value(sort_by_time(ts), sym, Side::Sell) == sum_trade_value(ts, sym, Side::Sell),
        sum_trade_fees_sym(sort_by_time(ts), sym) == sum_trade_fees_sym(ts, sym),
    decreases ts.len(),
{
    if ts.len() > 0 {
        lemma_sort_preserves_value(ts.drop_last(), sym);
        lemma_insert_preserves_value(ts.last(), sort_by_time(ts.drop_last()), sym);
    }
}

/// Positive lots have a nonnegative quantity sum, and a zero sum only when
/// the queue is empty.
proof fn lemma_lots_pos_sum(lots: Seq<LotModel>)
    requires
        lots_pos(lots),
    ensures
        sum_lot_qty(lots) >= 0,
        sum_lot_qty(lots) == 0 ==> lots.len() == 0,
        lots.len() == 0 ==> sum_lot_value(lots) == 0 && sum_lot_fee_all(lots) == 0,
    decreases lots.len(),
{
    if lots.len() > 0 {
        assert(lots_pos(lots.drop_last())) by {
            assert(forall|i: int| 0 <= i < lots.len() - 1 ==> lots.drop_last()[i] == lots[i]);
        }
        lemma_lots_pos_sum(lots.drop_last());
        assert(lots[lots.len() - 1].quantity > 0);
    }
}

/// Books with no remaining quantity under `sym` hold no value and no fees
/// under it either.
proof fn lemma_empty_books_no_value(books: Seq<BookModel>, sym: Seq<char>)
    requires
        books_pos(books),
        book_long_qty(books, sym) == 0,
        book_short_qty(books, sym) == 0,
    ensures
        book_long_value(books, sym) == 0,
        book_short_value(books, sym) == 0,
        book_fee_sym(books, sym) == 0,
    decreases books.len(),
{
    if books.len() > 0 {
        let last = books.last();
        lemma_books_pos_at(books, books.len() - 1);
        lemma_lots_pos_sum(last.long);
        lemma_lots_pos_sum(last.short);
        assert(books_pos(books.drop_last())) by {
            assert(forall|i: int| 0 <= i < books.len() - 1 ==> books.drop_last()[i] == books[i]);
        }
        assert(book_long_qty(books.drop_last(), sym) >= 0 && book_short_qty(
            books.drop_last(),
            sym,
        ) >= 0) by {
            lemma_book_qty_nonneg(books.drop_last(), sym);
        }
        lemma_empty_books_no_value(books.drop_last(), sym);
        if last.symbol == sym {
            assert(sum_lot_qty(last.long) == 0);
            assert(last.long.len() == 0);
            assert(sum_lot_qty(last.short) == 0);
            assert(last.short.len() == 0);
        }
    }
}

/// Positive books have nonnegative quantity sums.
proof fn lemma_book_qty_nonneg(books: Seq<BookModel>, sym: Seq<char>)
    requires
        books_pos(books),
    ensures
        book_long_qty(books, sym) >= 0,
        book_short_qty(books, sym) >= 0,
    decreases books.len(),
{
    if books.len() > 0 {
        lemma_books_pos_at(books, books.len() - 1);
        lemma_lots_pos_sum(books.last().long);
        lemma_lots_pos_sum(books.last().short);
        assert(books_pos(books.drop_last())) by {
            assert(forall|i: int| 0 <= i < books.len() - 1 ==> books.drop_last()[i] == books[i]);
        }
        lemma_book_qty_nonneg(books.drop_last(), sym);
    }
}

/// A record sequence with no fill of `sym` carries no quantity under it.
proof fn lemma_no_sym_no_qty(ts: Seq<TradeModel>, sym: Seq<char>)
    requires
        forall|i: int| 0 <= i < ts.len() ==> (#[trigger] ts[i]).symbol != sym,
    ensures
        sum_trade_qty(ts, sym, Side::Buy) == 0,
        sum_trade_qty(ts, sym, Side::Sell) == 0,
    decreases ts.len(),
{
    if ts.len() > 0 {
        assert(forall|i: int| 0 <= i < ts.len() - 1 ==> (#[trigger] ts.drop_last()[i]).symbol
            != sym) by {
            assert(forall|i: int| 0 <= i < ts.len() - 1 ==> ts.drop_last()[i] == ts[i]);
        }
        lemma_no_sym_no_qty(ts.drop_last(), sym);
        assert(ts[ts.len() - 1].symbol != sym);
    }
}

/// Over P&L-consistent pairs, the net sum is the gross sum minus the
/// multiplied fee sum.
proof fn lemma_net_from_gross(ps: Seq<PairModel>, sym: Seq<char>)
    requires
        forall|i: int| 0 <= i < ps.len() ==> crate::conservation::pair_pnl_consistent(
            #[trigger] ps[i],
        ),
    ensures
        sum_pair_net_sym(ps, sym) == sum_pair_gross_sym(ps, sym) - multiplier_of(sym)
            * sum_pair_fee_sym(ps, sym),
    decreases ps.len(),
{
    if ps.len() > 0 {
        assert(forall|i: int| 0 <= i < ps.len() - 1 ==> crate::conservation::pair_pnl_consistent(
            #[trigger] ps.drop_last()[i],
        )) by {
            assert(forall|i: int| 0 <= i < ps.len() - 1 ==> ps.drop_last()[i] == ps[i]);
        }
        lemma_net_from_gross(ps.drop_last(), sym);
        assert(crate::conservation::pair_pnl_consistent(ps[ps.len() - 1]));
        let mult = multiplier_of(sym);
        if ps.last().symbol == sym {
            assert(mult * (sum_pair_fee_sym(ps.drop_last(), sym) + ps.last().entry_fees
                + ps.last().exit_fees) == mult * sum_pair_fee_sym(ps.drop_last(), sym) + (
            ps.last().entry_fees + ps.last().exit_fees) * mult) by (nonlinear_arith);
        }
    }
}

/// The totals under one policy, as a function of the matcher's output.
pub open spec fn realized_totals(ts: Seq<TradeModel>, fifo: bool, sym: Seq<char>) -> (int, int, int) {
    let (pairs, _open) = match_trades_model(ts, fifo);
    (sum_pair_gross_sym(pairs, sym), sum_pair_fee_sym(pairs, sym), sum_pair_net_sym(pairs, sym))
}

/// One policy's totals for a fully closed symbol: the gross is the
/// multiplier times the sell value minus the buy value, and the fees are
/// the symbol's whole fees.
#[verifier::rlimit(100)]
proof fn lemma_closed_totals(ts: Seq<TradeModel>, fifo: bool, sym: Seq<char>)
    requires
        trades_nonneg(ts),
        forall|i: int| 0 <= i < ts.len() && (#[trigger] ts[i]).symbol == sym ==> ts[i].quantity > 0
            || ts[i].fees == 0,
        forall|i: int| 0 <= i < match_trades_model(ts, fifo).1.len()
            ==> (#[trigger] match_trades_model(ts, fifo).1[i]).symbol != sym,
    ensures
        ({
            let (gross, fee, net) = realized_totals(ts, fifo, sym);
            let mult = multiplier_of(sym);
            &&& gross == mult * (sum_trade_value(ts, sym, Side::Sell) - sum_trade_value(
                ts,
                sym,
                Side::Buy,
            ))
            &&& fee == sum_trade_fees_sym(ts, sym)
            &&& net == gross - mult * fee
        }),
{
    let sorted = sort_by_time(ts);
    crate::conservation::lemma_sort_keeps_nonneg(ts, 0);
    lemma_sort_preserves_value(ts, sym);
    lemma_run_trades_value(sorted, fifo, sym);
    lemma_sorted_sym_premise(ts, sym);
    lemma_run_trades_fee_sym(sorted, fifo, sym);
    crate::conservation::lemma_run_trades_conserves(sorted, fifo, sym, 0);
    let st = run_trades(sorted, fifo);
    let open = open_long_trades(st.books) + open_short_trades(st.books);
    assert(open == match_trades_model(ts, fifo).1);
    assert forall|i: int| 0 <= i < open.len() implies (#[trigger] open[i]).symbol != sym by {
        assert(match_trades_model(ts, fifo).1[i] == open[i]);
    }
    assert forall|i: int| 0 <= i < open_long_trades(st.books).len() implies (
    #[trigger] open_long_trades(st.books)[i]).symbol != sym by {
        assert(open_long_trades(st.books)[i] == open[i]);
        assert(open[i].symbol != sym);
    }
    assert forall|i: int| 0 <= i < open_short_trades(st.books).len() implies (
    #[trigger] open_short_trades(st.books)[i]).symbol != sym by {
        assert(open_short_trades(st.books)[i] == open[i + open_long_trades(st.books).len()]);
        assert(open[i + open_long_trades(st.books).len()].symbol != sym);
    }
    lemma_no_sym_no_qty(open_long_trades(st.books), sym);
    lemma_no_sym_no_qty(open_short_trades(st.books), sym);
    crate::conservation::lemma_open_long_sums(st.books, sym, 0);
    crate::conservation::lemma_open_short_sums(st.books, sym, 0);
    lemma_empty_books_no_value(st.books, sym);
    assert(forall|i: int| 0 <= i < sorted.len() && (#[trigger] sorted[i]).symbol == sym
        ==> sorted[i].quantity > 0 || sorted[i].fees == 0) by {
        lemma_sorted_sym_premise(ts, sym);
    }
    crate::conservation::lemma_run_trades_consistent(sorted, fifo);
    lemma_net_from_gross(st.pairs, sym);
}

/// The positive-quantity premise survives the sort.
proof fn lemma_sorted_sym_premise(ts: Seq<TradeModel>, sym: Seq<char>)
    requires
        forall|i: int| 0 <= i < ts.len() && (#[trigger] ts[i]).symbol == sym ==> ts[i].quantity > 0
            || ts[i].fees == 0,
    ensures
        forall|i: int| 0 <= i < sort_by_time(ts).len() && (#[trigger] sort_by_time(ts)[i]).symbol
            == sym ==> sort_by_time(ts)[i].quantity > 0 || sort_by_time(ts)[i].fees == 0,
{
    crate::conservation::lemma_sort_membership(ts);
    assert forall|i: int| 0 <= i < sort_by_time(ts).len() && (#[trigger] sort_by_time(
        ts,
    )[i]).symbol == sym implies sort_by_time(ts)[i].quantity > 0 || sort_by_time(ts)[i].fees
        == 0 by {
        assert(ts.contains(sort_by_time(ts)[i]));
        let w = choose|w: int| 0 <= w < ts.len() && ts[w] == sort_by_time(ts)[i];
        assert(ts[w].symbol == sym ==> ts[w].quantity > 0 || ts[w].fees == 0);
    }
}

/// Policy independence of realized totals: when a symbol's history closes
/// completely under both policies, FIFO and LIFO differ only in which lots
/// their pairs reference — the gross, fee and net totals of the symbol are
/// the same. Zero-quantity fills must not carry fees (such a fill matches
/// nothing, so its fee would silently vanish).
pub proof fn policy_totals_agree(ts: Seq<TradeModel>, sym: Seq<char>)
    requires
        trades_nonneg(ts),
        forall|i: int| 0 <= i < ts.len() && (#[trigger] ts[i]).symbol == sym ==> ts[i].quantity > 0
            || ts[i].fees == 0,
        forall|i: int| 0 <= i < match_trades_model(ts, true).1.len()
            ==> (#[trigger] match_trades_model(ts, true).1[i]).symbol != sym,
        forall|i: int| 0 <= i < match_trades_model(ts, false).1.len()
            ==> (#[trigger] match_trades_model(ts, false).1[i]).symbol != sym,
    ensures
        realized_totals(ts, true, sym) == realized_totals(ts, false, sym),
{
    lemma_closed_totals(ts, true, sym);
    lemma_closed_totals(ts, false, sym);
}

/// Gross P&L summed over all pairs.
pub open spec fn sum_pair_gross_all(ps: Seq<PairModel>) -> int
    decreases ps.len(),
{
    if ps.len() == 0 {
        0
    } else {
        sum_pair_gross_all(ps.drop_last()) + ps.last().gross_profit_loss
    }
}

/// Net P&L summed over all pairs.
pub open spec fn sum_pair_net_all(ps: Seq<PairModel>) -> int
    decreases ps.len(),
{
    if ps.len() == 0 {
        0
    } else {
        sum_pair_net_all(ps.drop_last()) + ps.last().net_profit_loss
    }
}

/// Multiplied prorated fees summed over all pairs: each pair contributes
/// its two fee shares times its symbol's multiplier.
pub open spec fn sum_pair_fee_mult_all(ps: Seq<PairModel>) -> int
    decreases ps.len(),
{
    if ps.len() == 0 {
        0
    } else {
        sum_pair_fee_mult_all(ps.drop_last()) + multiplier_of(ps.last().symbol) * (
        ps.last().entry_fees + ps.last().exit_fees)
    }
}

/// Multiplied signed value summed over the trades: a sell contributes its
/// multiplied value, a buy the negation.
pub open spec fn trade_signed_value_mult(ts: Seq<TradeModel>) -> int
    decreases ts.len(),
{
    if ts.len() == 0 {
        0
    } else {
        trade_signed_value_mult(ts.drop_last()) + multiplier_of(ts.last().symbol) * (
        if ts.last().side == Side::Sell {
            ts.last().price * ts.last().quantity
        } else {
            -(ts.last().price * ts.last().quantity)
        })
    }
}

/// Multiplied fees summed over the trades.
pub open spec fn trade_fees_mult(ts: Seq<TradeModel>) -> int
    decreases ts.len(),
{
    if ts.len() == 0 {
        0
    } else {
        trade_fees_mult(ts.drop_last()) + multiplier_of(ts.last().symbol) * ts.last().fees
    }
}

/// Multiplied net value locked in the books: per book, the multiplier
/// times long value minus short value.
pub open spec fn books_value_mult(books: Seq<BookModel>) -> int
    decreases books.len(),
{
    if books.len() == 0 {
        0
    } else {
        books_value_mult(books.drop_last()) + multiplier_of(books.last().symbol) * (sum_lot_value(
            books.last().long,
        ) - sum_lot_value(books.last().short))
    }
}

/// Multiplied fees locked in the books.
pub open spec fn books_fees_mult(books: Seq<BookModel>) -> int
    decreases books.len(),
{
    if books.len() == 0 {
        0
    } else {
        books_fees_mult(books.drop_last()) + multiplier_of(books.last().symbol) * (sum_lot_fee_all(
            books.last().long,
        ) + sum_lot_fee_all(books.last().short))
    }
}

/// When every pair carries the symbol `u`, the unkeyed sums are the
/// `u`-keyed sums (fees picking up the one multiplier).
proof fn lemma_sym_to_all(ps: Seq<PairModel>, u: Seq<char>)
    requires
        forall|i: int| 0 <= i < ps.len() ==> (#[trigger] ps[i]).symbol == u,
    ensures
        sum_pair_gross_all(ps) == sum_pair_gross_sym(ps, u),
        sum_pair_net_all(ps) == sum_pair_net_sym(ps, u),
        sum_pair_fee_mult_all(ps) == multiplier_of(u) * sum_pair_fee_sym(ps, u),
    decreases ps.len(),
{
    if ps.len() == 0 {
        assert(multiplier_of(u) * 0 == 0) by (nonlinear_arith);
    } else {
        assert(forall|i: int| 0 <= i < ps.len() - 1 ==> (#[trigger] ps.drop_last()[i]).symbol
            == u) by {
            assert(forall|i: int| 0 <= i < ps.len() - 1 ==> ps.drop_last()[i] == ps[i]);
        }
        lemma_sym_to_all(ps.drop_last(), u);
        assert(ps[ps.len() - 1].symbol == u);
        let m = multiplier_of(u);
        let f = ps.last().entry_fees + ps.last().exit_fees;
        assert(m * sum_pair_fee_sym(ps.drop_last(), u) + m * f == m * (sum_pair_fee_sym(
            ps.drop_last(),
            u,
        ) + f)) by (nonlinear_arith);
    }
}

/// Unkeyed pair sums split over concatenation.
proof fn lemma_all_sums_concat(a: Seq<PairModel>, b: Seq<PairModel>)
    ensures
        sum_pair_gross_all(a + b) == sum_pair_gross_all(a) + sum_pair_gross_all(b),
        sum_pair_net_all(a + b) == sum_pair_net_all(a) + sum_pair_net_all(b),
        sum_pair_fee_mult_all(a + b) == sum_pair_fee_mult_all(a) + sum_pair_fee_mult_all(b),
    decreases b.len(),
{
    if b.len() == 0 {
        assert(a + b =~= a);
    } else {
        assert((a + b).drop_last() =~= a + b.drop_last());
        assert((a + b).last() == b.last());
        lemma_all_sums_concat(a, b.drop_last());
    }
}

/// Multiplied book sums respect updating one book.
proof fn lemma_books_mult_update(books: Seq<BookModel>, i: int, b: BookModel)
    requires
        0 <= i < books.len(),
    ensures
        books_value_mult(books.update(i, b)) == books_value_mult(books) - multiplier_of(
            books[i].symbol,
        ) * (sum_lot_value(books[i].long) - sum_lot_value(books[i].short)) + multiplier_of(b.symbol)
            * (sum_lot_value(b.long) - sum_lot_value(b.short)),
        books_fees_mult(books.update(i, b)) == books_fees_mult(books) - multiplier_of(
            books[i].symbol,
        ) * (sum_lot_fee_all(books[i].long) + sum_lot_fee_all(books[i].short)) + multiplier_of(
            b.symbol,
        ) * (sum_lot_fee_all(b.long) + sum_lot_fee_all(b.short)),
    decreases books.len(),
{
    if i == books.len() - 1 {
        assert(books.update(i, b).drop_last() =~= books.drop_last());
        assert(books.update(i, b).last() == b);
    } else {
        assert(books.update(i, b).drop_last() =~= books.drop_last().update(i, b));
        assert(books.update(i, b).last() == books.last());
        lemma_books_mult_update(books.drop_last(), i, b);
    }
}

/// The per-trade step's effect on the unkeyed sums: the gross pool plus
/// the multiplied book value absorbs the fill's multiplied signed value,
/// and the multiplied fee pool absorbs its multiplied fee.
#[verifier::rlimit(100)]
proof fn lemma_apply_trade_value_all(st: MatchState, t: TradeModel, fifo: bool)
    requires
        books_pos(st.books),
        t.quantity >= 0,
        t.fees >= 0,
    ensures
        ({
            let st2 = apply_trade(st, t, fifo);
            let m = multiplier_of(t.symbol);
            &&& sum_pair_gross_all(st2.pairs) - sum_pair_gross_all(st.pairs) == m * (if t.side
                == Side::Sell {
                t.price * t.quantity
            } else {
                -(t.price * t.quantity)
            }) + (books_value_mult(st2.books) - books_value_mult(st.books))
            &&& (t.quantity > 0 || t.fees == 0) ==> sum_pair_fee_mult_all(st2.pairs)
                - sum_pair_fee_mult_all(st.pairs) + (books_fees_mult(st2.books) - books_fees_mult(
                st.books,
            )) == m * t.fees
        }),
{
    let m = multiplier_of(t.symbol);
    let bi0 = find_book(st.books, t.symbol);
    let empty_book = BookModel { symbol: t.symbol, long: Seq::empty(), short: Seq::empty() };
    let books = if bi0 == -1 {
        st.books.push(empty_book)
    } else {
        st.books
    };
    let bi = if bi0 == -1 {
        books.len() - 1
    } else {
        bi0
    };
    lemma_find_book_found(st.books, t.symbol);
    if bi0 == -1 {
        assert(books.drop_last() =~= st.books);
        assert(books.last() == empty_book);
        assert(m * (0 - 0) == 0 && m * (0 + 0) == 0) by (nonlinear_arith);
        assert(books_value_mult(books) == books_value_mult(st.books));
        assert(books_fees_mult(books) == books_fees_mult(st.books));
        assert(books_pos(books)) by {
            assert(forall|i: int| 0 <= i < st.books.len() ==> books[i] == st.books[i]);
        }
    }
    assert(books_pos(books));
    assert(books[bi].symbol == t.symbol);
    let book = books[bi];
    lemma_books_pos_at(books, bi);
    let opposing = if t.side == Side::Buy {
        book.short
    } else {
        book.long
    };
    let long_side = t.side == Side::Sell;
    let cr = close_lots(opposing, fifo, t, t.quantity, t.fees, long_side);
    lemma_close_lots_value(opposing, fifo, t, t.quantity, t.fees, long_side);
    crate::conservation::lemma_close_lots_conserves(
        opposing,
        fifo,
        t,
        t.quantity,
        t.fees,
        long_side,
        0,
    );
    lemma_sym_to_all(cr.pairs, t.symbol);
    let b2 = book_after(book, t, fifo);
    let st2 = apply_trade(st, t, fifo);
    assert(st2.books == books.update(bi, b2));
    assert(st2.pairs == st.pairs + cr.pairs);
    lemma_all_sums_concat(st.pairs, cr.pairs);
    lemma_books_mult_update(books, bi, b2);
    if cr.rem_qty > 0 {
        let nl = remainder_lot(t, cr.rem_qty, cr.rem_fee);
        if t.side == Side::Buy {
            lemma_lot_value_push(book.long, nl);
        } else {
            lemma_lot_value_push(book.short, nl);
        }
    }
    let closed_val = sum_lot_value(opposing) - sum_lot_value(cr.lots);
    let closed_qty = t.quantity - cr.rem_qty;
    assert(t.price * t.quantity - t.price * cr.rem_qty == t.price * closed_qty)
        by (nonlinear_arith)
        requires
            closed_qty == t.quantity - cr.rem_qty,
    ;
    assert(m * (t.price * closed_qty - closed_val) + m * (t.price * cr.rem_qty) + m * closed_val
        == m * (t.price * t.quantity)) by (nonlinear_arith)
        requires
            t.price * t.quantity - t.price * cr.rem_qty == t.price * closed_qty,
    ;
    assert(m * (closed_val - t.price * closed_qty) + m * (-(t.price * cr.rem_qty)) + m * (
    -closed_val) == m * (-(t.price * t.quantity))) by (nonlinear_arith)
        requires
            t.price * t.quantity - t.price * cr.rem_qty == t.price * closed_qty,
    ;
    if t.side == Side::Buy {
        assert(b2.long == (if cr.rem_qty > 0 {
            book.long.push(remainder_lot(t, cr.rem_qty, cr.rem_fee))
        } else {
            book.long
        }) && b2.short == cr.lots && b2.symbol == t.symbol);
        assert(m * (sum_lot_value(b2.long) - sum_lot_value(b2.short)) - m * (sum_lot_value(
            book.long,
        ) - sum_lot_value(book.short)) == m * ((sum_lot_value(b2.long) - sum_lot_value(book.long))
            + closed_val)) by (nonlinear_arith)
            requires
                sum_lot_value(b2.short) == sum_lot_value(book.short) - closed_val,
        ;
    } else {
        assert(b2.short == (if cr.rem_qty > 0 {
            book.short.push(remainder_lot(t, cr.rem_qty, cr.rem_fee))
        } else {
            book.short
        }) && b2.long == cr.lots && b2.symbol == t.symbol);
        assert(m * (sum_lot_value(b2.long) - sum_lot_value(b2.short)) - m * (sum_lot_value(
            book.long,
        ) - sum_lot_value(book.short)) == m * (-closed_val - (sum_lot_value(b2.short)
            - sum_lot_value(book.short)))) by (nonlinear_arith)
            requires
                sum_lot_value(b2.long) == sum_lot_value(book.long) - closed_val,
        ;
    }
    if t.quantity > 0 || t.fees == 0 {
        if t.quantity == 0 {
            assert(close_lots(opposing, fifo, t, 0, t.fees, long_side).pairs
                =~= Seq::<PairModel>::empty());
            assert(m * 0 == 0) by (nonlinear_arith);
        }
        let lot_fee_drop = sum_lot_fee_all(opposing) - sum_lot_fee_all(cr.lots);
        let fee_gain = if cr.rem_qty > 0 {
            cr.rem_fee
        } else {
            0
        };
        assert(m * (lot_fee_drop + (t.fees - cr.rem_fee)) + m * (fee_gain - lot_fee_drop + (
        cr.rem_fee - fee_gain)) == m * t.fees) by (nonlinear_arith);
        assert(m * (sum_lot_fee_all(b2.long) + sum_lot_fee_all(b2.short)) - m * (sum_lot_fee_all(
            book.long,
        ) + sum_lot_fee_all(book.short)) == m * (fee_gain - lot_fee_drop)) by (nonlinear_arith)
            requires
                sum_lot_fee_all(b2.long) + sum_lot_fee_all(b2.short) == sum_lot_fee_all(book.long)
                    + sum_lot_fee_all(book.short) + fee_gain - lot_fee_drop,
        ;
    }
}

/// Unkeyed value conservation over the whole fold.
#[verifier::rlimit(100)]
proof fn lemma_run_trades_value_all(ts: Seq<TradeModel>, fifo: bool)
    requires
        trades_nonneg(ts),
    ensures
        sum_pair_gross_all(run_trades(ts, fifo).pairs) == trade_signed_value_mult(ts)
            + books_value_mult(run_trades(ts, fifo).books),
    decreases ts.len(),
{
    if ts.len() > 0 {
        let prefix = ts.drop_last();
        assert(trades_nonneg(prefix)) by {
            assert(forall|i: int| 0 <= i < prefix.len() ==> prefix[i] == ts[i]);
        }
        lemma_run_trades_value_all(prefix, fifo);
        crate::conservation::lemma_run_trades_conserves(prefix, fifo, Seq::empty(), 0);
        let st = run_trades(prefix, fifo);
        let t = ts.last();
        lemma_apply_trade_value_all(st, t, fifo);
    }
}

/// Unkeyed fee conservation over the whole fold, as long as no
/// zero-quantity fill carries a fee.
#[verifier::rlimit(100)]
proof fn lemma_run_trades_fee_all(ts: Seq<TradeModel>, fifo: bool)
    requires
        trades_nonneg(ts),
        forall|i: int| 0 <= i < ts.len() ==> (#[trigger] ts[i]).quantity > 0 || ts[i].fees == 0,
    ensures
        sum_pair_fee_mult_all(run_trades(ts, fifo).pairs) + books_fees_mult(
            run_trades(ts, fifo).books,
        ) == trade_fees_mult(ts),
    decreases ts.len(),
{
    if ts.len() > 0 {
        let prefix = ts.drop_last();
        assert(trades_nonneg(prefix) && (forall|i: int| 0 <= i < prefix.len()
            ==> (#[trigger] prefix[i]).quantity > 0 || prefix[i].fees == 0)) by {
            assert(forall|i: int| 0 <= i < prefix.len() ==> prefix[i] == ts[i]);
        }
        lemma_run_trades_fee_all(prefix, fifo);
        crate::conservation::lemma_run_trades_conserves(prefix, fifo, Seq::empty(), 0);
        let st = run_trades(prefix, fifo);
        let t = ts.last();
        lemma_apply_trade_value_all(st, t, fifo);
        assert(t.quantity > 0 || t.fees == 0) by {
            assert(ts[ts.len() - 1] == t);
        }
    }
}

/// Sorting by timestamp does not change the multiplied sums.
proof fn lemma_sort_preserves_mult_sums(ts: Seq<TradeModel>)
    ensures
        trade_signed_value_mult(sort_by_time(ts)) == trade_signed_value_mult(ts),
        trade_fees_mult(sort_by_time(ts)) == trade_fees_mult(ts),
    decreases ts.len(),
{
    if ts.len() > 0 {
        lemma_sort_preserves_mult_sums(ts.drop_last());
        lemma_insert_preserves_mult_sums(ts.last(), sort_by_time(ts.drop_last()));
    }
}

/// Inserting a fill adds exactly its own contribution to the multiplied
/// sums.
proof fn lemma_insert_preserves_mult_sums(t: TradeModel, s: Seq<TradeModel>)
    ensures
        trade_signed_value_mult(insert_by_time(t, s)) == trade_signed_value_mult(s)
            + multiplier_of(t.symbol) * (if t.side == Side::Sell {
            t.price * t.quantity
        } else {
            -(t.price * t.quantity)
        }),
        trade_fees_mult(insert_by_time(t, s)) == trade_fees_mult(s) + multiplier_of(t.symbol)
            * t.fees,
    decreases s.len(),
{
    if s.len() == 0 {
        assert(insert_by_time(t, s) == seq![t]);
        assert(seq![t].drop_last() =~= Seq::<TradeModel>::empty());
        assert(seq![t].last() == t);
        assert(trade_signed_value_mult(Seq::<TradeModel>::empty()) == 0);
        assert(trade_fees_mult(Seq::<TradeModel>::empty()) == 0);
    } else if s.last().timestamp <= t.timestamp {
        assert(insert_by_time(t, s) == s.push(t));
        assert(s.push(t).drop_last() =~= s);
        assert(s.push(t).last() == t);
    } else {
        lemma_insert_preserves_mult_sums(t, s.drop_last());
        let inner = insert_by_time(t, s.drop_last());
        assert(insert_by_time(t, s) == inner.push(s.last()));
        assert(inner.push(s.last()).drop_last() =~= inner);
        assert(inner.push(s.last()).last() == s.last());
    }
}

/// An empty open output means every book side is empty.
proof fn lemma_no_open_no_lots(books: Seq<BookModel>)
    requires
        open_long_trades(books).len() == 0,
        open_short_trades(books).len() == 0,
    ensures
        books_value_mult(books) == 0,
        books_fees_mult(books) == 0,
    decreases books.len(),
{
    if books.len() > 0 {
        assert(open_long_trades(books) == crate::matcher::lots_as_open(
            books[0].symbol,
            Side::Buy,
            books[0].long,
        ) + open_long_trades(books.drop_first()));
        assert(open_short_trades(books) == crate::matcher::lots_as_open(
            books[0].symbol,
            Side::Sell,
            books[0].short,
        ) + open_short_trades(books.drop_first()));
        assert(books[0].long.len() == 0 && books[0].short.len() == 0);
        lemma_no_open_no_lots(books.drop_first());
        lemma_books_mult_drop_first(books);
        assert(books[0].long =~= Seq::<LotModel>::empty());
        assert(books[0].short =~= Seq::<LotModel>::empty());
        assert(multiplier_of(books[0].symbol) * (0 - 0) == 0 && multiplier_of(books[0].symbol) * (
        0 + 0) == 0) by (nonlinear_arith);
    }
}

/// Peeling the first book off the multiplied book sums.
proof fn lemma_books_mult_drop_first(books: Seq<BookModel>)
    requires
        books.len() > 0,
    ensures
        books_value_mult(books) == multiplier_of(books[0].symbol) * (sum_lot_value(books[0].long)
            - sum_lot_value(books[0].short)) + books_value_mult(books.drop_first()),
        books_fees_mult(books) == multiplier_of(books[0].symbol) * (sum_lot_fee_all(books[0].long)
            + sum_lot_fee_all(books[0].short)) + books_fees_mult(books.drop_first()),
    decreases books.len(),
{
    if books.len() == 1 {
        assert(books.drop_last() =~= Seq::<BookModel>::empty());
        assert(books.drop_first() =~= Seq::<BookModel>::empty());
    } else {
        assert(books.drop_last().drop_first() =~= books.drop_first().drop_last());
        assert(books.drop_first().last() == books.last());
        assert(books.drop_last()[0] == books[0]);
        lemma_books_mult_drop_first(books.drop_last());
    }
}

/// Over P&L-consistent pairs, the unkeyed net sum is the gross sum minus
/// the multiplied fee sum.
proof fn lemma_net_from_gross_all(ps: Seq<PairModel>)
    requires
        forall|i: int| 0 <= i < ps.len() ==> crate::conservation::pair_pnl_consistent(
            #[trigger] ps[i],
        ),
    ensures
        sum_pair_net_all(ps) == sum_pair_gross_all(ps) - sum_pair_fee_mult_all(ps),
    decreases ps.len(),
{
    if ps.len() > 0 {
        assert(forall|i: int| 0 <= i < ps.len() - 1 ==> crate::conservation::pair_pnl_consistent(
            #[trigger] ps.drop_last()[i],
        )) by {
            assert(forall|i: int| 0 <= i < ps.len() - 1 ==> ps.drop_last()[i] == ps[i]);
        }
        lemma_net_from_gross_all(ps.drop_last());
        assert(crate::conservation::pair_pnl_consistent(ps[ps.len() - 1]));
        let p = ps.last();
        let m = multiplier_of(p.symbol);
        assert(p.net_profit_loss == p.gross_profit_loss - (p.entry_fees + p.exit_fees) * m);
        assert((p.entry_fees + p.exit_fees) * m == m * (p.entry_fees + p.exit_fees))
            by (nonlinear_arith);
    }
}

/// Whole-ledger totals under one policy, as a function of the matcher's
/// output.
pub open spec fn ledger_totals(ts: Seq<TradeModel>, fifo: bool) -> (int, int) {
    let (pairs, _open) = match_trades_model(ts, fifo);
    (sum_pair_gross_all(pairs), sum_pair_net_all(pairs))
}

/// Whole-ledger policy independence: when a ledger closes completely under
/// both policies (no open remainder at all), FIFO and LIFO realize the
/// same total gross and net P&L across all pairs. Zero-quantity fills must
/// not carry fees.
pub proof fn policy_ledger_totals_agree(ts: Seq<TradeModel>)
    requires
        trades_nonneg(ts),
        forall|i: int| 0 <= i < ts.len() ==> (#[trigger] ts[i]).quantity > 0 || ts[i].fees == 0,
        match_trades_model(ts, true).1.len() == 0,
        match_trades_model(ts, false).1.len() == 0,
    ensures
        ledger_totals(ts, true) == ledger_totals(ts, false),
{
    lemma_ledger_closed_totals(ts, true);
    lemma_ledger_closed_totals(ts, false);
}

/// One policy's whole-ledger totals when nothing stays open.
proof fn lemma_ledger_closed_totals(ts: Seq<TradeModel>, fifo: bool)
    requires
        trades_nonneg(ts),
        forall|i: int| 0 <= i < ts.len() ==> (#[trigger] ts[i]).quantity > 0 || ts[i].fees == 0,
        match_trades_model(ts, fifo).1.len() == 0,
    ensures
        ({
            let (gross, net) = ledger_totals(ts, fifo);
            &&& gross == trade_signed_value_mult(ts)
            &&& net == trade_signed_value_mult(ts) - trade_fees_mult(ts)
        }),
{
    let sorted = sort_by_time(ts);
    crate::conservation::lemma_sort_keeps_nonneg(ts, 0);
    lemma_sort_preserves_mult_sums(ts);
    lemma_run_trades_value_all(sorted, fifo);
    assert(forall|i: int| 0 <= i < sorted.len() ==> (#[trigger] sorted[i]).quantity > 0
        || sorted[i].fees == 0) by {
        lemma_sorted_all_premise(ts);
    }
    lemma_run_trades_fee_all(sorted, fifo);
    let st = run_trades(sorted, fifo);
    assert(open_long_trades(st.books).len() == 0 && open_short_trades(st.books).len() == 0);
    lemma_no_open_no_lots(st.books);
    crate::conservation::lemma_run_trades_consistent(sorted, fifo);
    lemma_net_from_gross_all(st.pairs);
}

/// The positive-quantity premise survives the sort.
proof fn lemma_sorted_all_premise(ts: Seq<TradeModel>)
    requires
        forall|i: int| 0 <= i < ts.len() ==> (#[trigger] ts[i]).quantity > 0 || ts[i].fees == 0,
    ensures
        forall|i: int| 0 <= i < sort_by_time(ts).len() ==> (#[trigger] sort_by_time(ts)[i]).quantity
            > 0 || sort_by_time(ts)[i].fees == 0,
{
    crate::conservation::lemma_sort_membership(ts);
    assert forall|i: int| 0 <= i < sort_by_time(ts).len() implies (#[trigger] sort_by_time(
        ts,
    )[i]).quantity > 0 || sort_by_time(ts)[i].fees == 0 by {
        assert(ts.contains(sort_by_time(ts)[i]));
        let w = choose|w: int| 0 <= w < ts.len() && ts[w] == sort_by_time(ts)[i];
        assert(ts[w].quantity > 0 || ts[w].fees == 0);
    }
}

} // verus!
