use test_aob_v4::market::{Market, NewOrderParams, OrderSummary};
use test_aob_v4::types::{order_id, AobError, Event, OwnerCallback, SelfTradeBehavior, Side};

fn owner(b: u8) -> OwnerCallback {
    OwnerCallback { pk: [b; 32] }
}

fn params(side: Side, price: u64, qty: u64, who: u8, policy: SelfTradeBehavior) -> NewOrderParams {
    NewOrderParams {
        max_base_qty: qty,
        max_quote_qty: u64::MAX,
        limit_price: price,
        side,
        match_limit: 10,
        post_only: false,
        post_allowed: true,
        callback_info: owner(who),
        self_trade_behavior: policy,
    }
}

fn abort(side: Side, price: u64, qty: u64, who: u8) -> NewOrderParams {
    params(side, price, qty, who, SelfTradeBehavior::AbortTransaction)
}

fn market(orders: usize, events: usize) -> Market {
    Market::create_market(1, 1, orders, events).unwrap()
}

fn ask_quantities(m: &Market) -> Vec<(u64, u64)> {
    let mut v = Vec::new();
    let mut i = 0;
    while let Some(o) = m.order_at(Side::Ask, i) {
        v.push((o.price, o.base_qty));
        i += 1;
    }
    v
}

fn fill_base(e: &Event) -> Option<u64> {
    match e {
        Event::Fill { base_size, .. } => Some(*base_size),
        Event::Out { .. } => None,
    }
}

#[test]
fn partial_fill_leaves_maker_resting() {
    let mut m = market(16, 16);
    let posted = m.new_order(abort(Side::Ask, 100, 5, 0xA)).unwrap();
    assert_eq!(posted.posted_order_id, Some(order_id(Side::Ask, 100, 0)));
    assert_eq!(m.event_count(), 0);
    let s = m.new_order(abort(Side::Bid, 100, 3, 0xB)).unwrap();
    assert_eq!(s.total_base_qty, 3);
    assert_eq!(s.total_quote_qty, 300);
    assert_eq!(s.posted_order_id, None);
    assert_eq!(s.total_base_qty_posted, 0);
    assert_eq!(m.event_count(), 1);
    match m.peek_event(0).unwrap() {
        Event::Fill { taker_side, maker_order_id, quote_size, base_size, maker_callback, taker_callback } => {
            assert_eq!(taker_side, Side::Bid);
            assert_eq!(maker_order_id, order_id(Side::Ask, 100, 0));
            assert_eq!(base_size, 3);
            assert_eq!(quote_size, 300);
            assert_eq!(maker_callback.pk, [0xA; 32]);
            assert_eq!(taker_callback.pk, [0xB; 32]);
        }
        Event::Out { .. } => panic!("expected a fill"),
    }
    assert_eq!(ask_quantities(&m), vec![(100, 2)]);
}

#[test]
fn self_trade_abort_changes_nothing() {
    let mut m = market(16, 16);
    m.new_order(abort(Side::Ask, 100, 5, 0xA)).unwrap();
    m.new_order(abort(Side::Bid, 100, 3, 0xB)).unwrap();
    let before = m.debug_events();
    let r = m.new_order(abort(Side::Bid, 100, 2, 0xA));
    assert_eq!(r.unwrap_err(), AobError::SelfTradeViolation);
    assert_eq!(ask_quantities(&m), vec![(100, 2)]);
    assert_eq!(m.side_len(Side::Bid), 0);
    let after = m.debug_events();
    assert_eq!(before.len(), after.len());
    assert_eq!(fill_base(&after[0]), Some(3));
}

#[test]
fn queue_overflow_fails_whole_call() {
    let mut m = market(16, 2);
    m.new_order(abort(Side::Ask, 100, 1, 0xA)).unwrap();
    m.new_order(abort(Side::Ask, 101, 1, 0xA)).unwrap();
    m.new_order(abort(Side::Ask, 102, 1, 0xA)).unwrap();
    let r = m.new_order(abort(Side::Bid, 102, 3, 0xB));
    assert_eq!(r.unwrap_err(), AobError::QueueFull);
    assert_eq!(ask_quantities(&m), vec![(100, 1), (101, 1), (102, 1)]);
    assert_eq!(m.event_count(), 0);
    assert_eq!(m.side_len(Side::Bid), 0);
}

#[test]
fn sides_stay_in_price_time_order() {
    let mut m = market(16, 16);
    m.new_order(abort(Side::Ask, 105, 1, 1)).unwrap();
    m.new_order(abort(Side::Ask, 100, 2, 1)).unwrap();
    m.new_order(abort(Side::Ask, 100, 3, 2)).unwrap();
    m.new_order(abort(Side::Ask, 103, 4, 1)).unwrap();
    assert_eq!(ask_quantities(&m), vec![(100, 2), (100, 3), (103, 4), (105, 1)]);
    assert_eq!(m.order_at(Side::Ask, 0).unwrap().seq, 1);
    assert_eq!(m.order_at(Side::Ask, 1).unwrap().seq, 2);
    m.new_order(abort(Side::Bid, 90, 1, 1)).unwrap();
    m.new_order(abort(Side::Bid, 95, 1, 1)).unwrap();
    m.new_order(abort(Side::Bid, 90, 1, 2)).unwrap();
    let prices: Vec<(u64, u64)> = (0..3).map(|i| {
        let o = m.order_at(Side::Bid, i).unwrap();
        (o.price, o.seq)
    }).collect();
    assert_eq!(prices, vec![(95, 5), (90, 4), (90, 6)]);
    assert_eq!(m.best_order(Side::Bid).unwrap().price, 95);
}

#[test]
fn crossing_liquidity_is_taken_before_posting() {
    let mut m = market(16, 16);
    m.new_order(abort(Side::Ask, 100, 3, 1)).unwrap();
    m.new_order(abort(Side::Ask, 101, 3, 1)).unwrap();
    m.new_order(abort(Side::Ask, 103, 5, 1)).unwrap();
    let s = m.new_order(abort(Side::Bid, 102, 10, 2)).unwrap();
    assert_eq!(s.total_base_qty, 6);
    assert_eq!(s.total_quote_qty, 300 + 303);
    assert_eq!(s.total_base_qty_posted, 4);
    assert_eq!(s.posted_order_id, Some(order_id(Side::Bid, 102, 3)));
    assert_eq!(m.best_order(Side::Ask).unwrap().price, 103);
    assert_eq!(m.best_order(Side::Bid).unwrap().base_qty, 4);
    // fill, out, fill, out
    assert_eq!(m.event_count(), 4);
}

#[test]
fn fill_size_equals_maker_reduction() {
    let mut m = market(16, 16);
    m.new_order(abort(Side::Bid, 50, 7, 1)).unwrap();
    m.new_order(abort(Side::Ask, 50, 4, 2)).unwrap();
    let e = m.peek_event(0).unwrap();
    assert_eq!(fill_base(&e), Some(4));
    assert_eq!(m.best_order(Side::Bid).unwrap().base_qty, 7 - 4);
}

#[test]
fn full_fill_emits_fill_then_out() {
    let mut m = market(16, 16);
    m.new_order(abort(Side::Bid, 50, 4, 1)).unwrap();
    m.new_order(abort(Side::Ask, 49, 4, 2)).unwrap();
    assert_eq!(m.side_len(Side::Bid), 0);
    assert_eq!(m.side_len(Side::Ask), 0);
    let evs = m.debug_events();
    assert_eq!(evs.len(), 2);
    assert_eq!(fill_base(&evs[0]), Some(4));
    match evs[1] {
        Event::Out { side, order_id: id, base_size, .. } => {
            assert_eq!(side, Side::Bid);
            assert_eq!(id, order_id(Side::Bid, 50, 0));
            assert_eq!(base_size, 0);
        }
        Event::Fill { .. } => panic!("expected an out event"),
    }
}

#[test]
fn consumption_is_fifo_and_exactly_once() {
    let mut m = market(16, 16);
    for p in [100u64, 101, 102] {
        m.new_order(abort(Side::Ask, p, 1, 1)).unwrap();
    }
    m.new_order(abort(Side::Bid, 102, 3, 2)).unwrap();
    let all = m.debug_events();
    assert_eq!(all.len(), 6);
    let mut seen = Vec::new();
    seen.extend(m.consume_events(1));
    assert_eq!(m.event_count(), 5);
    seen.extend(m.consume_events(2));
    seen.extend(m.consume_events(10));
    assert!(m.consume_events(10).is_empty());
    assert_eq!(m.event_count(), 0);
    assert_eq!(seen.len(), all.len());
    for (a, b) in seen.iter().zip(all.iter()) {
        assert_eq!(format!("{:?}", a), format!("{:?}", b));
    }
}

#[test]
fn peek_does_not_consume() {
    let mut m = market(16, 16);
    m.new_order(abort(Side::Ask, 100, 2, 1)).unwrap();
    m.new_order(abort(Side::Bid, 100, 1, 2)).unwrap();
    m.new_order(abort(Side::Bid, 100, 1, 3)).unwrap();
    assert_eq!(m.event_count(), 3);
    assert!(m.peek_event(0).is_some());
    assert_eq!(m.event_count(), 3);
    m.consume_events(1);
    assert_eq!(m.event_count(), 2);
    assert_eq!(fill_base(&m.peek_event(0).unwrap()), Some(1));
    assert!(m.peek_event(2).is_none());
}

#[test]
fn ring_wraps_around() {
    let mut m = market(16, 3);
    m.new_order(abort(Side::Ask, 100, 10, 1)).unwrap();
    for round in 0..4u64 {
        m.new_order(abort(Side::Bid, 100, 1, 2)).unwrap();
        m.new_order(abort(Side::Bid, 100, 1, 2)).unwrap();
        let got = m.consume_events(2);
        assert_eq!(got.len(), 2);
        assert_eq!(fill_base(&got[1]), Some(1));
        assert_eq!(m.best_order(Side::Ask).unwrap().base_qty, 10 - 2 * (round + 1));
    }
    assert_eq!(m.event_count(), 0);
}

#[test]
fn invalid_inputs_are_rejected() {
    assert_eq!(Market::create_market(0, 1, 4, 4).err(), Some(AobError::InvalidInput));
    assert_eq!(Market::create_market(1, 0, 4, 4).err(), Some(AobError::InvalidInput));
    let mut m = Market::create_market(10, 5, 4, 4).unwrap();
    assert_eq!(m.new_order(abort(Side::Bid, 0, 10, 1)).unwrap_err(), AobError::InvalidInput);
    assert_eq!(m.new_order(abort(Side::Bid, 7, 10, 1)).unwrap_err(), AobError::InvalidInput);
    assert_eq!(m.new_order(abort(Side::Bid, 5, 0, 1)).unwrap_err(), AobError::InvalidInput);
    assert_eq!(m.new_order(abort(Side::Bid, 5, 15, 1)).unwrap_err(), AobError::InvalidInput);
    let mut p = abort(Side::Bid, 5, 10, 1);
    p.max_quote_qty = 0;
    assert_eq!(m.new_order(p).unwrap_err(), AobError::InvalidInput);
    assert!(m.new_order(abort(Side::Bid, 5, 20, 1)).is_ok());
    assert_eq!(m.side_len(Side::Bid), 1);
}

#[test]
fn post_only_never_matches() {
    let mut m = market(16, 16);
    m.new_order(abort(Side::Ask, 100, 5, 1)).unwrap();
    let mut p = abort(Side::Bid, 100, 1, 2);
    p.post_only = true;
    assert_eq!(m.new_order(p).unwrap_err(), AobError::PostOnlyViolation);
    assert_eq!(ask_quantities(&m), vec![(100, 5)]);
    assert_eq!(m.event_count(), 0);
    p.limit_price = 99;
    let s = m.new_order(p).unwrap();
    assert_eq!(s.posted_order_id, Some(order_id(Side::Bid, 99, 1)));
}

#[test]
fn index_full_leaves_book_unchanged() {
    let mut m = market(1, 4);
    m.new_order(abort(Side::Ask, 100, 5, 1)).unwrap();
    let r = m.new_order(abort(Side::Bid, 90, 1, 2));
    assert_eq!(r.unwrap_err(), AobError::IndexFull);
    assert_eq!(m.side_len(Side::Bid), 0);
    assert_eq!(ask_quantities(&m), vec![(100, 5)]);
}

#[test]
fn cancel_provide_removes_own_order_and_continues() {
    let mut m = market(16, 16);
    m.new_order(abort(Side::Ask, 100, 2, 1)).unwrap();
    m.new_order(abort(Side::Ask, 101, 2, 2)).unwrap();
    let s = m.new_order(params(Side::Bid, 101, 2, 1, SelfTradeBehavior::CancelProvide)).unwrap();
    assert_eq!(s.total_base_qty, 2);
    assert_eq!(s.total_quote_qty, 202);
    assert_eq!(m.side_len(Side::Ask), 0);
    let evs = m.debug_events();
    assert_eq!(evs.len(), 3);
    match evs[0] {
        Event::Out { base_size, callback, .. } => {
            assert_eq!(base_size, 2);
            assert_eq!(callback.pk, [1; 32]);
        }
        Event::Fill { .. } => panic!("expected an out event"),
    }
    assert_eq!(fill_base(&evs[1]), Some(2));
}

#[test]
fn decrement_take_uses_match_budget() {
    let mut m = market(16, 16);
    m.new_order(abort(Side::Ask, 100, 2, 1)).unwrap();
    m.new_order(abort(Side::Ask, 101, 2, 2)).unwrap();
    let mut p = params(Side::Bid, 101, 2, 1, SelfTradeBehavior::DecrementTake);
    p.match_limit = 1;
    let s = m.new_order(p).unwrap();
    assert_eq!(s.total_base_qty, 0);
    assert_eq!(s.posted_order_id, None);
    assert_eq!(ask_quantities(&m), vec![(101, 2)]);
    let evs = m.debug_events();
    assert_eq!(evs.len(), 2);
    match evs[1] {
        Event::Out { side, base_size, .. } => {
            assert_eq!(side, Side::Bid);
            assert_eq!(base_size, 2);
        }
        Event::Fill { .. } => panic!("expected an out event"),
    }
}

#[test]
fn remainder_discarded_when_posting_not_allowed() {
    let mut m = market(16, 16);
    m.new_order(abort(Side::Ask, 100, 1, 1)).unwrap();
    let mut p = abort(Side::Bid, 100, 3, 2);
    p.post_allowed = false;
    let s = m.new_order(p).unwrap();
    assert_eq!(s.total_base_qty, 1);
    assert_eq!(s.posted_order_id, None);
    assert_eq!(m.side_len(Side::Bid), 0);
    let evs = m.debug_events();
    assert_eq!(evs.len(), 3);
    match evs[2] {
        Event::Out { side, base_size, callback, .. } => {
            assert_eq!(side, Side::Bid);
            assert_eq!(base_size, 2);
            assert_eq!(callback.pk, [2; 32]);
        }
        Event::Fill { .. } => panic!("expected an out event"),
    }
}

#[test]
fn quote_budget_limits_trade_size() {
    let mut m = market(16, 16);
    m.new_order(abort(Side::Ask, 100, 5, 1)).unwrap();
    let mut p = abort(Side::Bid, 100, 5, 2);
    p.max_quote_qty = 250;
    p.post_allowed = false;
    let s: OrderSummary = m.new_order(p).unwrap();
    assert_eq!(s.total_base_qty, 2);
    assert_eq!(s.total_quote_qty, 200);
    assert_eq!(ask_quantities(&m), vec![(100, 3)]);
}

#[test]
fn match_limit_bounds_work() {
    let mut m = market(16, 16);
    for p in [100u64, 101, 102] {
        m.new_order(abort(Side::Ask, p, 1, 1)).unwrap();
    }
    let mut p = abort(Side::Bid, 102, 3, 2);
    p.match_limit = 2;
    let s = m.new_order(p).unwrap();
    assert_eq!(s.total_base_qty, 2);
    assert_eq!(s.posted_order_id, None);
    assert_eq!(ask_quantities(&m), vec![(102, 1)]);
}

#[test]
fn order_ids_pack_price_and_sequence() {
    assert_eq!(order_id(Side::Ask, 100, 7), (100u128 << 64) | 7);
    assert_eq!(order_id(Side::Bid, 100, 7), (100u128 << 64) | (u64::MAX - 7) as u128);
    assert_eq!(order_id(Side::Ask, u64::MAX, u64::MAX), u128::MAX);
    assert!(order_id(Side::Bid, 100, 1) > order_id(Side::Bid, 100, 2));
}

#[test]
fn same_owner_compares_every_byte() {
    let a = owner(1);
    let mut b = owner(1);
    assert!(a.same_owner(&b));
    b.pk[31] = 2;
    assert!(!a.same_owner(&b));
    assert_eq!(a.as_callback_id(), &[1u8; 32]);
}
