use vstd::prelude::*;
use crate::book::{insert_sorted, opposite, side_wf, OrderBook};
use crate::event_queue::EventQueue;
use crate::types::{order_id, order_id_spec, AobError, Event, Order, OwnerCallback, SelfTradeBehavior, Side};

verus! {

/// The inputs of one incoming order.
#[derive(Clone, Copy, Debug)]
pub struct NewOrderParams {
    pub max_base_qty: u64,
    pub max_quote_qty: u64,
    pub limit_price: u64,
    pub side: Side,
    pub match_limit: u64,
    pub post_only: bool,
    pub post_allowed: bool,
    pub callback_info: OwnerCallback,
    pub self_trade_behavior: SelfTradeBehavior,
}

/// What happened to an incoming order.
#[derive(Clone, Copy, Debug)]
pub struct OrderSummary {
    /// The id of the resting order made of the remainder, if one was posted.
    pub posted_order_id: Option<u128>,
    /// Base quantity traded against resting orders.
    pub total_base_qty: u64,
    /// Quote quantity traded against resting orders.
    pub total_quote_qty: u64,
    /// Base quantity left resting in the book.
    pub total_base_qty_posted: u64,
}

/// The state of a market as plain values.
pub struct MarketModel {
    pub bids: Seq<Order>,
    pub asks: Seq<Order>,
    pub next_seq: u64,
    pub order_capacity: nat,
    pub events: Seq<Event>,
    pub event_capacity: nat,
    pub min_base_order_size: u64,
    pub tick_size: u64,
}

impl MarketModel {
    pub open spec fn side(self, s: Side) -> Seq<Order> {
        match s {
            Side::Bid => self.bids,
            Side::Ask => self.asks,
        }
    }

    pub open spec fn with_side(self, s: Side, v: Seq<Order>) -> MarketModel {
        match s {
            Side::Bid => MarketModel { bids: v, ..self },
            Side::Ask => MarketModel { asks: v, ..self },
        }
    }
}

/// The progress of one incoming order through the opposite side of the book.
pub struct MatchState {
    /// The opposite side, best first.
    pub book: Seq<Order>,
    /// The event queue's contents.
    pub events: Seq<Event>,
    pub base_rem: u64,
    pub quote_rem: u64,
    pub base_done: u64,
    pub quote_done: u64,
    /// Resting orders touched so far that count against the match limit.
    pub count: u64,
}

/// A resting order at `maker_price` is within reach of an order of `side` limited at `limit`.
pub open spec fn crosses(side: Side, limit: u64, maker_price: u64) -> bool {
    match side {
        Side::Bid => maker_price <= limit,
        Side::Ask => maker_price >= limit,
    }
}

/// Appends an event to a lossless queue of capacity `cap`; `None` when it is full.
pub open spec fn push_event(events: Seq<Event>, cap: nat, e: Event) -> Option<Seq<Event>> {
    if events.len() < cap {
        Some(events.push(e))
    } else {
        None
    }
}

/// The event of order `o` of `side` leaving with `o.base_qty` untraded.
pub open spec fn out_event(side: Side, o: Order) -> Event {
    Event::Out {
        side,
        order_id: order_id_spec(side, o.price, o.seq) as u128,
        base_size: o.base_qty,
        callback: o.callback,
    }
}

/// The event of maker `m` trading `base` at its own price against the taker of `p`.
pub open spec fn fill_event(p: NewOrderParams, m: Order, base: u64) -> Event {
    Event::Fill {
        taker_side: p.side,
        maker_order_id: order_id_spec(opposite(p.side), m.price, m.seq) as u128,
        quote_size: (base * m.price) as u64,
        base_size: base,
        maker_callback: m.callback,
        taker_callback: p.callback_info,
    }
}

/// The opposite side after its best order traded `base`: removed when that was
/// all it had, reduced otherwise.
pub open spec fn fill_book(book: Seq<Order>, base: u64) -> Seq<Order> {
    if base == book[0].base_qty {
        book.drop_first()
    } else {
        book.update(0, Order { base_qty: (book[0].base_qty - base) as u64, ..book[0] })
    }
}

/// The base quantity a taker trades with maker `m`: bounded by what the taker
/// wants, what the maker has, and what the quote budget pays for at the maker's price.
pub open spec fn trade_size(st: MatchState, m: Order) -> u64 {
    let by_quote = st.quote_rem / m.price;
    let a = if st.base_rem < m.base_qty { st.base_rem } else { m.base_qty };
    if a < by_quote { a } else { by_quote as u64 }
}

/// Matching is over: nothing left to trade, the match limit is reached, or
/// the best opposite order is out of reach.
pub open spec fn match_over(p: NewOrderParams, st: MatchState) -> bool {
    st.base_rem == 0 || st.quote_rem == 0 || st.count >= p.match_limit || st.book.len() == 0
        || !crosses(p.side, p.limit_price, st.book[0].price)
}

/// Matches the taker of `p` against the opposite side in price-time order,
/// one resting order per step, with events going to a queue of capacity `cap`.
pub open spec fn run_match(p: NewOrderParams, cap: nat, st: MatchState) -> Result<MatchState, AobError>
    decreases st.book.len() + p.match_limit - st.count,
{
    if match_over(p, st) {
        Ok(st)
    } else {
        let m = st.book[0];
        if m.callback.same_owner_spec(&p.callback_info) {
            match p.self_trade_behavior {
                SelfTradeBehavior::AbortTransaction => Err(AobError::SelfTradeViolation),
                _ => match push_event(st.events, cap, out_event(opposite(p.side), m)) {
                    None => Err(AobError::QueueFull),
                    Some(evs) => run_match(
                        p,
                        cap,
                        MatchState {
                            book: st.book.drop_first(),
                            events: evs,
                            count: if p.self_trade_behavior == SelfTradeBehavior::DecrementTake {
                                (st.count + 1) as u64
                            } else {
                                st.count
                            },
                            ..st
                        },
                    ),
                },
            }
        } else {
            let base = trade_size(st, m);
            if base == 0 {
                Ok(st)
            } else {
                let quote = (base * m.price) as u64;
                match push_event(st.events, cap, fill_event(p, m, base)) {
                    None => Err(AobError::QueueFull),
                    Some(evs1) => {
                        let evs2 = if base == m.base_qty {
                            push_event(evs1, cap, out_event(opposite(p.side), Order { base_qty: 0, ..m }))
                        } else {
                            Some(evs1)
                        };
                        match evs2 {
                            None => Err(AobError::QueueFull),
                            Some(evs) => run_match(
                                p,
                                cap,
                                MatchState {
                                    book: fill_book(st.book, base),
                                    events: evs,
                                    base_rem: (st.base_rem - base) as u64,
                                    quote_rem: (st.quote_rem - quote) as u64,
                                    base_done: (st.base_done + base) as u64,
                                    quote_done: (st.quote_done + quote) as u64,
                                    count: (st.count + 1) as u64,
                                },
                            ),
                        }
                    },
                }
            }
        }
    }
}

/// Each side of the book is in strict price-time order, and every resting
/// order has a positive price and a positive remaining quantity.
pub open spec fn index_wf(m: MarketModel) -> bool {
    side_wf(Side::Bid, m.bids, m.next_seq) && side_wf(Side::Ask, m.asks, m.next_seq)
}

/// How many events a consumption of at most `max` takes from a queue of `len`.
pub open spec fn consumed_count(len: nat, max: u64) -> int {
    if max < len {
        max as int
    } else {
        len as int
    }
}

/// Prices and quantities are positive and on the market's grid.
pub open spec fn valid_order(m: MarketModel, p: NewOrderParams) -> bool {
    &&& p.limit_price > 0
    &&& p.limit_price % m.tick_size == 0
    &&& p.max_base_qty > 0
    &&& p.max_base_qty % m.min_base_order_size == 0
    &&& p.max_quote_qty > 0
}

pub open spec fn start_state(m: MarketModel, p: NewOrderParams) -> MatchState {
    MatchState {
        book: m.side(opposite(p.side)),
        events: m.events,
        base_rem: p.max_base_qty,
        quote_rem: p.max_quote_qty,
        base_done: 0,
        quote_done: 0,
        count: 0,
    }
}

/// A post-only order of `p` would trade at once.
pub open spec fn post_only_crosses(m: MarketModel, p: NewOrderParams) -> bool {
    let opp = m.side(opposite(p.side));
    p.post_only && opp.len() > 0 && crosses(p.side, p.limit_price, opp[0].price)
}

/// What is left of the taker is posted: some is left, at least the minimum
/// order size, posting is allowed, and nothing within its limit rests opposite.
pub open spec fn should_post(m: MarketModel, p: NewOrderParams, st: MatchState) -> bool {
    &&& st.base_rem > 0
    &&& st.base_rem >= m.min_base_order_size
    &&& p.post_allowed
    &&& !(st.book.len() > 0 && crosses(p.side, p.limit_price, st.book[0].price))
}

/// The market and summary after an incoming order, or the error that stops it.
pub open spec fn new_order_spec(m: MarketModel, p: NewOrderParams) -> Result<(MarketModel, OrderSummary), AobError> {
    if !valid_order(m, p) {
        Err(AobError::InvalidInput)
    } else if post_only_crosses(m, p) {
        Err(AobError::PostOnlyViolation)
    } else {
        match run_match(p, m.event_capacity, start_state(m, p)) {
            Err(e) => Err(e),
            Ok(st) => {
                let m1 = MarketModel { events: st.events, ..m.with_side(opposite(p.side), st.book) };
                if should_post(m, p, st) {
                    if m1.bids.len() + m1.asks.len() >= m.order_capacity || m.next_seq == u64::MAX {
                        Err(AobError::IndexFull)
                    } else {
                        let o = Order { price: p.limit_price, seq: m.next_seq, base_qty: st.base_rem, callback: p.callback_info };
                        let m2 = MarketModel {
                            next_seq: (m.next_seq + 1) as u64,
                            ..m1.with_side(p.side, insert_sorted(p.side, m.side(p.side), o))
                        };
                        Ok((m2, OrderSummary {
                            posted_order_id: Some(order_id_spec(p.side, p.limit_price, m.next_seq) as u128),
                            total_base_qty: st.base_done,
                            total_quote_qty: st.quote_done,
                            total_base_qty_posted: st.base_rem,
                        }))
                    }
                } else {
                    let summary = OrderSummary {
                        posted_order_id: None,
                        total_base_qty: st.base_done,
                        total_quote_qty: st.quote_done,
                        total_base_qty_posted: 0,
                    };
                    if st.base_rem > 0 {
                        let o = Order { price: p.limit_price, seq: m.next_seq, base_qty: st.base_rem, callback: p.callback_info };
                        match push_event(st.events, m.event_capacity, out_event(p.side, o)) {
                            None => Err(AobError::QueueFull),
                            Some(evs) => Ok((MarketModel { events: evs, ..m1 }, summary)),
                        }
                    } else {
                        Ok((m1, summary))
                    }
                }
            },
        }
    }
}

/// One market: its grid, its book and its event queue.
pub struct Market {
    min_base_order_size: u64,
    tick_size: u64,
    book: OrderBook,
    events: EventQueue,
}

fn opposite_side(s: Side) -> (r: Side)
    ensures
        r == opposite(s),
{
    match s {
        Side::Bid => Side::Ask,
        Side::Ask => Side::Bid,
    }
}

fn crosses_exec(side: Side, limit: u64, maker_price: u64) -> (r: bool)
    ensures
        r == crosses(side, limit, maker_price),
{
    match side {
        Side::Bid => maker_price <= limit,
        Side::Ask => maker_price >= limit,
    }
}

fn out_event_exec(side: Side, o: Order) -> (r: Event)
    ensures
        r == out_event(side, o),
{
    Event::Out { side, order_id: order_id(side, o.price, o.seq), base_size: o.base_qty, callback: o.callback }
}

impl Market {
    /// The market as plain values.
    pub closed spec fn model(&self) -> MarketModel {
        MarketModel {
            bids: self.book.side_view(Side::Bid),
            asks: self.book.side_view(Side::Ask),
            next_seq: self.book.next_seq_spec(),
            order_capacity: self.book.capacity_spec(),
            events: self.events@,
            event_capacity: self.events.capacity_spec(),
            min_base_order_size: self.min_base_order_size,
            tick_size: self.tick_size,
        }
    }

    pub closed spec fn wf(&self) -> bool {
        &&& index_wf(self.model())
        &&& self.book.wf()
        &&& self.events.wf()
        &&& self.min_base_order_size > 0
        &&& self.tick_size > 0
    }

    /// An empty market with the given grid and capacities. Fails with
    /// `InvalidInput` when the minimum order size or the tick size is zero.
    pub fn create_market(min_base_order_size: u64, tick_size: u64, order_capacity: usize, event_capacity: usize) -> (r: Result<Market, AobError>)
        ensures
            (min_base_order_size == 0 || tick_size == 0) ==> r == Err::<Market, AobError>(AobError::InvalidInput),
            (min_base_order_size > 0 && tick_size > 0) ==> (r matches Ok(mk) && mk.wf() && index_wf(mk.model()) && mk.model() == MarketModel {
                bids: Seq::empty(),
                asks: Seq::empty(),
                next_seq: 0,
                order_capacity: order_capacity as nat,
                events: Seq::empty(),
                event_capacity: event_capacity as nat,
                min_base_order_size,
                tick_size,
            }),
    {
        if min_base_order_size == 0 || tick_size == 0 {
            return Err(AobError::InvalidInput);
        }
        Ok(Market {
            min_base_order_size,
            tick_size,
            book: OrderBook::new(order_capacity),
            events: EventQueue::new(event_capacity),
        })
    }

    /// Matches an incoming order against the opposite side in price-time order,
    /// then posts, discards or keeps nothing of what is left. On any error the
    /// market is left exactly as it was.
    pub fn new_order(&mut self, p: NewOrderParams) -> (r: Result<OrderSummary, AobError>)
        requires
            old(self).wf(),
        ensures
            final(self).wf(),
            index_wf(final(self).model()),
            r is Err ==> *final(self) == *old(self),
            match new_order_spec(old(self).model(), p) {
                Ok((m, s)) => r == Ok::<OrderSummary, AobError>(s) && final(self).model() == m,
                Err(e) => r == Err::<OrderSummary, AobError>(e) && *final(self) == *old(self),
            },
    {
        let ghost m0 = self.model();
        if p.limit_price == 0 || p.limit_price % self.tick_size != 0 || p.max_base_qty == 0
            || p.max_base_qty % self.min_base_order_size != 0 || p.max_quote_qty == 0 {
            return Err(AobError::InvalidInput);
        }
        let opp = opposite_side(p.side);
        if p.post_only {
            match self.book.peek_best(opp) {
                Some(best) => {
                    if crosses_exec(p.side, p.limit_price, best.price) {
                        return Err(AobError::PostOnlyViolation);
                    }
                },
                None => {},
            }
        }
        let mut book = self.book.duplicate();
        let mut events = self.events.duplicate();
        let ghost cap = events.capacity_spec();
        let mut base_rem: u64 = p.max_base_qty;
        let mut quote_rem: u64 = p.max_quote_qty;
        let mut base_done: u64 = 0;
        let mut quote_done: u64 = 0;
        let mut count: u64 = 0;
        let ghost st0 = start_state(m0, p);
        assert(opposite(opp) == p.side);
        assert(valid_order(m0, p));
        assert(!post_only_crosses(m0, p));
        loop
            invariant
                *self == *old(self),
                self.wf(),
                self.model() == m0,
                m0 == old(self).model(),
                valid_order(m0, p),
                !post_only_crosses(m0, p),
                st0 == start_state(m0, p),
                opp == opposite(p.side),
                opposite(opp) == p.side,
                book.wf(),
                events.wf(),
                events.capacity_spec() == cap,
                cap == m0.event_capacity,
                book.side_view(p.side) == m0.side(p.side),
                book.next_seq_spec() == m0.next_seq,
                book.capacity_spec() == m0.order_capacity,
                base_done + base_rem == p.max_base_qty,
                quote_done + quote_rem == p.max_quote_qty,
                count <= p.match_limit,
                run_match(p, cap, MatchState { book: book.side_view(opp), events: events@, base_rem, quote_rem, base_done, quote_done, count })
                    == run_match(p, cap, st0),
            ensures
                book.wf(),
                events.wf(),
                events.capacity_spec() == cap,
                book.side_view(p.side) == m0.side(p.side),
                book.next_seq_spec() == m0.next_seq,
                book.capacity_spec() == m0.order_capacity,
                run_match(p, cap, st0) == Ok::<MatchState, AobError>(MatchState { book: book.side_view(opp), events: events@, base_rem, quote_rem, base_done, quote_done, count }),
            decreases book.side_view(opp).len() + p.match_limit - count,
        {
            let ghost st = MatchState { book: book.side_view(opp), events: events@, base_rem, quote_rem, base_done, quote_done, count };
            if base_rem == 0 || quote_rem == 0 || count >= p.match_limit {
                break;
            }
            let best = match book.peek_best(opp) {
                None => {
                    break;
                },
                Some(b) => b,
            };
            if !crosses_exec(p.side, p.limit_price, best.price) {
                break;
            }
            if best.callback.same_owner(&p.callback_info) {
                match p.self_trade_behavior {
                    SelfTradeBehavior::AbortTransaction => {
                        assert(run_match(p, cap, st) == Err::<MatchState, AobError>(AobError::SelfTradeViolation));
                        return Err(AobError::SelfTradeViolation);
                    },
                    _ => {},
                }
                match events.push(out_event_exec(opp, best)) {
                    Err(e) => {
                        assert(run_match(p, cap, st) == Err::<MatchState, AobError>(AobError::QueueFull));
                        return Err(e);
                    },
                    Ok(()) => {},
                }
                book.remove_best(opp);
                match p.self_trade_behavior {
                    SelfTradeBehavior::DecrementTake => {
                        count = count + 1;
                    },
                    _ => {},
                }
            } else {
                let by_quote = quote_rem / best.price;
                let a = if base_rem < best.base_qty { base_rem } else { best.base_qty };
                let base = if a < by_quote { a } else { by_quote };
                assert(base == trade_size(st, best));
                if base == 0 {
                    break;
                }
                assert(base * best.price <= quote_rem) by (nonlinear_arith)
                    requires
                        base <= quote_rem / best.price,
                        best.price > 0,
                ;
                let quote = base * best.price;
                let fill = Event::Fill {
                    taker_side: p.side,
                    maker_order_id: order_id(opp, best.price, best.seq),
                    quote_size: quote,
                    base_size: base,
                    maker_callback: best.callback,
                    taker_callback: p.callback_info,
                };
                assert(base * best.price == quote);
                assert(fill == fill_event(p, best, base));
                match events.push(fill) {
                    Err(e) => {
                        assert(run_match(p, cap, st) == Err::<MatchState, AobError>(AobError::QueueFull));
                        return Err(e);
                    },
                    Ok(()) => {},
                }
                if base == best.base_qty {
                    match events.push(out_event_exec(opp, Order { base_qty: 0, ..best })) {
                        Err(e) => {
                            assert(run_match(p, cap, st) == Err::<MatchState, AobError>(AobError::QueueFull));
                            return Err(e);
                        },
                        Ok(()) => {},
                    }
                    book.remove_best(opp);
                } else {
                    book.set_best_qty(opp, best.base_qty - base);
                }
                base_rem = base_rem - base;
                quote_rem = quote_rem - quote;
                base_done = base_done + base;
                quote_done = quote_done + quote;
                count = count + 1;
            }
        }
        let still_crossing = match book.peek_best(opp) {
            Some(best) => crosses_exec(p.side, p.limit_price, best.price),
            None => false,
        };
        if base_rem > 0 && base_rem >= self.min_base_order_size && p.post_allowed && !still_crossing {
            let id = match book.insert(p.side, p.limit_price, base_rem, p.callback_info) {
                Err(e) => {
                    return Err(e);
                },
                Ok(id) => id,
            };
            self.book = book;
            self.events = events;
            Ok(OrderSummary {
                posted_order_id: Some(id),
                total_base_qty: base_done,
                total_quote_qty: quote_done,
                total_base_qty_posted: base_rem,
            })
        } else {
            if base_rem > 0 {
                let o = Order { price: p.limit_price, seq: book.next_seq(), base_qty: base_rem, callback: p.callback_info };
                match events.push(out_event_exec(p.side, o)) {
                    Err(e) => {
                        return Err(e);
                    },
                    Ok(()) => {},
                }
            }
            self.book = book;
            self.events = events;
            Ok(OrderSummary {
                posted_order_id: None,
                total_base_qty: base_done,
                total_quote_qty: quote_done,
                total_base_qty_posted: 0,
            })
        }
    }

    /// Removes up to `max_events` of the oldest events, in arrival order, and
    /// returns them. Stops early when the queue runs empty. The book is untouched.
    /// A settlement step that must not lose events reads them with `peek_event`
    /// first and then consumes as many as it settled.
    pub fn consume_events(&mut self, max_events: u64) -> (r: Vec<Event>)
        requires
            old(self).wf(),
        ensures
            final(self).wf(),
            r@ == old(self).model().events.take(consumed_count(old(self).model().events.len(), max_events)),
            final(self).model() == (MarketModel {
                events: old(self).model().events.skip(consumed_count(old(self).model().events.len(), max_events)),
                ..old(self).model()
            }),
    {
        let ghost q0 = self.events@;
        let mut out: Vec<Event> = Vec::new();
        let mut i: u64 = 0;
        while i < max_events
            invariant
                self.book == old(self).book,
                self.min_base_order_size == old(self).min_base_order_size,
                self.tick_size == old(self).tick_size,
                self.wf(),
                self.events.capacity_spec() == old(self).events.capacity_spec(),
                q0 == old(self).events@,
                i <= max_events,
                out@.len() == i,
                i <= q0.len(),
                out@ == q0.take(i as int),
                self.events@ == q0.skip(i as int),
            ensures
                out@.len() == consumed_count(q0.len(), max_events),
                out@ == q0.take(out@.len() as int),
                self.events@ == q0.skip(out@.len() as int),
                self.book == old(self).book,
                self.min_base_order_size == old(self).min_base_order_size,
                self.tick_size == old(self).tick_size,
                self.wf(),
                self.events.capacity_spec() == old(self).events.capacity_spec(),
            decreases max_events - i,
        {
            match self.events.pop_front() {
                None => {
                    break;
                },
                Some(e) => {
                    out.push(e);
                    i = i + 1;
                    assert(out@ =~= q0.take(i as int));
                    assert(self.events@ =~= q0.skip(i as int));
                },
            }
        }
        out
    }

    /// Every unconsumed event, oldest first, read without consuming any.
    pub fn debug_events(&self) -> (r: Vec<Event>)
        requires
            self.wf(),
        ensures
            r@ == self.model().events,
    {
        let n = self.events.len();
        let mut out: Vec<Event> = Vec::new();
        let mut i: usize = 0;
        while i < n
            invariant
                self.wf(),
                n == self.events@.len(),
                i <= n,
                out@ == self.events@.take(i as int),
            decreases n - i,
        {
            match self.events.peek_at(i) {
                Some(e) => {
                    out.push(e);
                },
                None => {},
            }
            i = i + 1;
            assert(out@ =~= self.events@.take(i as int));
        }
        assert(out@ =~= self.events@);
        out
    }

    /// The `i`-th unconsumed event, oldest first, without consuming it.
    pub fn peek_event(&self, i: usize) -> (r: Option<Event>)
        requires
            self.wf(),
        ensures
            i < self.model().events.len() ==> r == Some(self.model().events[i as int]),
            i >= self.model().events.len() ==> r == None::<Event>,
    {
        self.events.peek_at(i)
    }

    /// The smallest order size; order quantities are multiples of it.
    pub fn min_base_order_size(&self) -> (r: u64)
        ensures
            r == self.model().min_base_order_size,
    {
        self.min_base_order_size
    }

    /// The price grid; limit prices are multiples of it.
    pub fn tick_size(&self) -> (r: u64)
        ensures
            r == self.model().tick_size,
    {
        self.tick_size
    }

    /// The number of unconsumed events.
    pub fn event_count(&self) -> (r: usize)
        ensures
            r == self.model().events.len(),
    {
        self.events.len()
    }

    /// The `i`-th best resting order on `side`.
    pub fn order_at(&self, side: Side, i: usize) -> (r: Option<Order>)
        requires
            self.wf(),
        ensures
            i < self.model().side(side).len() ==> r == Some(self.model().side(side)[i as int]),
            i >= self.model().side(side).len() ==> r == None::<Order>,
    {
        self.book.get(side, i)
    }

    /// The best resting order on `side`.
    pub fn best_order(&self, side: Side) -> (r: Option<Order>)
        requires
            self.wf(),
        ensures
            self.model().side(side).len() > 0 ==> r == Some(self.model().side(side)[0]),
            self.model().side(side).len() == 0 ==> r == None::<Order>,
    {
        self.book.peek_best(side)
    }

    /// The number of resting orders on `side`.
    pub fn side_len(&self, side: Side) -> (r: usize)
        ensures
            r == self.model().side(side).len(),
    {
        self.book.side_len(side)
    }
}

} // verus!
