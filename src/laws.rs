use vstd::prelude::*;
use crate::book::opposite;
use crate::market::{consumed_count, crosses, fill_book, fill_event, new_order_spec, MarketModel, NewOrderParams};
use crate::types::{Event, Order};

verus! {

/// The total remaining base quantity of a sequence of orders.
pub open spec fn total_qty(s: Seq<Order>) -> int
    decreases s.len(),
{
    if s.len() == 0 {
        0
    } else {
        s[0].base_qty + total_qty(s.drop_first())
    }
}

/// When an incoming order leaves a remainder resting in the book, nothing on
/// the opposite side is within its limit any more: every crossing order was
/// matched first, and the posted price does not cross the opposite best.
pub proof fn lemma_posted_remainder_never_crosses(m: MarketModel, p: NewOrderParams)
    requires
        new_order_spec(m, p) matches Ok((m2, s)) && s.posted_order_id is Some,
    ensures
        new_order_spec(m, p) matches Ok((m2, s)) && ({
            let o = m2.side(opposite(p.side));
            o.len() == 0 || !crosses(p.side, p.limit_price, o[0].price)
        }),
{
}

/// One matching step takes from the opposite side exactly the base quantity
/// that its fill event records: the maker's remaining quantity drops by that
/// amount, and no other resting order changes.
pub proof fn lemma_fill_conserves_quantity(p: NewOrderParams, book: Seq<Order>, base: u64)
    requires
        book.len() > 0,
        0 < base <= book[0].base_qty,
    ensures
        fill_event(p, book[0], base) matches Event::Fill { base_size, .. } && base_size == base,
        total_qty(fill_book(book, base)) + base == total_qty(book),
        fill_book(book, base).len() > 0 && base < book[0].base_qty ==> fill_book(book, base)[0].base_qty + base
            == book[0].base_qty,
{
    let nb = fill_book(book, base);
    if base == book[0].base_qty {
        assert(nb == book.drop_first());
    } else {
        assert(nb.drop_first() =~= book.drop_first());
    }
}

/// Two consumptions in a row hand out the oldest events once each, in arrival
/// order: together they return what one consumption of the combined count
/// returns, and leave the same events behind.
pub proof fn lemma_consume_exactly_once(q: Seq<Event>, n1: u64, n2: u64)
    ensures
        ({
            let k1 = consumed_count(q.len(), n1);
            let q1 = q.skip(k1);
            let k2 = consumed_count(q1.len(), n2);
            &&& q.take(k1) + q1.take(k2) == q.take(k1 + k2)
            &&& q1.skip(k2) == q.skip(k1 + k2)
            &&& k1 + k2 <= q.len()
            &&& (k1 + k2 < q.len() ==> k1 == n1 && k2 == n2)
        }),
{
    let k1 = consumed_count(q.len(), n1);
    let q1 = q.skip(k1);
    let k2 = consumed_count(q1.len(), n2);
    assert(q.take(k1) + q1.take(k2) =~= q.take(k1 + k2));
    assert(q1.skip(k2) =~= q.skip(k1 + k2));
}

} // verus!
