use vstd::prelude::*;
use crate::types::{order_id, order_id_spec, AobError, Order, OwnerCallback, Side};

verus! {

/// The side that an order of side `s` matches against.
pub open spec fn opposite(s: Side) -> Side {
    match s {
        Side::Bid => Side::Ask,
        Side::Ask => Side::Bid,
    }
}

/// Price `a` is strictly better than price `b` for a resting order of `side`:
/// higher for bids, lower for asks.
pub open spec fn price_better(side: Side, a: u64, b: u64) -> bool {
    match side {
        Side::Bid => a > b,
        Side::Ask => a < b,
    }
}

/// Order `a` has priority over order `b` on `side`: better price, or the same
/// price and an earlier sequence number.
pub open spec fn before(side: Side, a: Order, b: Order) -> bool {
    price_better(side, a.price, b.price) || (a.price == b.price && a.seq < b.seq)
}

/// A side of the book is in strict price-time order, and each of its orders has
/// a positive price, a positive remaining quantity and a sequence number below `next_seq`.
pub open spec fn side_wf(side: Side, s: Seq<Order>, next_seq: u64) -> bool {
    &&& forall|i: int, j: int| 0 <= i < j < s.len() ==> #[trigger] before(side, s[i], s[j])
    &&& forall|i: int|
        0 <= i < s.len() ==> (#[trigger] s[i]).base_qty > 0 && s[i].price > 0 && s[i].seq < next_seq
}

/// The first index at or after `from` whose order has a strictly worse price than `price`.
pub open spec fn first_worse(side: Side, s: Seq<Order>, price: u64, from: int) -> int
    decreases s.len() - from,
{
    if from < 0 || from >= s.len() {
        s.len() as int
    } else if price_better(side, price, s[from].price) {
        from
    } else {
        first_worse(side, s, price, from + 1)
    }
}

/// `s` with `o` placed after every order of equal or better price.
pub open spec fn insert_sorted(side: Side, s: Seq<Order>, o: Order) -> Seq<Order> {
    s.insert(first_worse(side, s, o.price, 0), o)
}

proof fn lemma_first_worse(side: Side, s: Seq<Order>, price: u64, from: int)
    requires
        0 <= from <= s.len(),
    ensures
        from <= first_worse(side, s, price, from) <= s.len(),
        forall|k: int|
            from <= k < first_worse(side, s, price, from) ==> !price_better(side, price, #[trigger] s[k].price),
        first_worse(side, s, price, from) < s.len() ==> price_better(
            side,
            price,
            s[first_worse(side, s, price, from)].price,
        ),
    decreases s.len() - from,
{
    if from < s.len() && !price_better(side, price, s[from].price) {
        lemma_first_worse(side, s, price, from + 1);
    }
}

fn copy_orders(v: &Vec<Order>) -> (r: Vec<Order>)
    ensures
        r@ == v@,
{
    let mut r: Vec<Order> = Vec::with_capacity(v.len());
    let mut i: usize = 0;
    while i < v.len()
        invariant
            i <= v@.len(),
            r@ == v@.subrange(0, i as int),
        decreases v@.len() - i,
    {
        r.push(v[i]);
        i = i + 1;
        assert(r@ =~= v@.subrange(0, i as int));
    }
    assert(r@ =~= v@);
    r
}

fn copy_indices(v: &Vec<usize>) -> (r: Vec<usize>)
    ensures
        r@ == v@,
{
    let mut r: Vec<usize> = Vec::with_capacity(v.len());
    let mut i: usize = 0;
    while i < v.len()
        invariant
            i <= v@.len(),
            r@ == v@.subrange(0, i as int),
        decreases v@.len() - i,
    {
        r.push(v[i]);
        i = i + 1;
        assert(r@ =~= v@.subrange(0, i as int));
    }
    assert(r@ =~= v@);
    r
}

/// The indices in `s` are below `n` and pairwise distinct.
pub open spec fn distinct_below(s: Seq<usize>, n: nat) -> bool {
    &&& forall|i: int| 0 <= i < s.len() ==> (#[trigger] s[i]) < n
    &&& forall|i: int, j: int| 0 <= i < j < s.len() ==> #[trigger] s[i] != #[trigger] s[j]
}

/// No index occurs in both `a` and `b`.
pub open spec fn disjoint(a: Seq<usize>, b: Seq<usize>) -> bool {
    forall|i: int, j: int| 0 <= i < a.len() && 0 <= j < b.len() ==> #[trigger] a[i] != #[trigger] b[j]
}

/// Placing an order with a sequence number above all others at its sorted
/// position keeps a side in strict price-time order.
proof fn lemma_insert_keeps_order(side: Side, s: Seq<Order>, o: Order)
    requires
        side_wf(side, s, o.seq),
        o.price > 0,
        o.base_qty > 0,
        o.seq < u64::MAX,
    ensures
        side_wf(side, insert_sorted(side, s, o), (o.seq + 1) as u64),
{
    lemma_first_worse(side, s, o.price, 0);
    let i = first_worse(side, s, o.price, 0);
    let t = insert_sorted(side, s, o);
    assert forall|a: int, b: int| 0 <= a < b < t.len() implies #[trigger] before(side, t[a], t[b]) by {
        if b < i {
            assert(before(side, s[a], s[b]));
        } else if b == i {
            assert(!price_better(side, o.price, s[a].price));
        } else if a == i {
            assert(price_better(side, o.price, s[i].price));
            if b - 1 > i {
                assert(before(side, s[i], s[b - 1]));
            }
        } else if a < i {
            assert(before(side, s[a], s[b - 1]));
        } else {
            assert(before(side, s[a - 1], s[b - 1]));
        }
    }
    assert forall|a: int| 0 <= a < t.len() implies (#[trigger] t[a]).base_qty > 0 && t[a].price > 0 && t[a].seq < o.seq + 1 by {
        if a < i {
            assert(s[a] == t[a]);
        } else if a > i {
            assert(s[a - 1] == t[a]);
        }
    }
}

/// Moving the top of the free stack `f` into position `i` of side list `l`
/// keeps the three lists distinct and disjoint.
proof fn lemma_slab_take_free(l: Seq<usize>, ol: Seq<usize>, f: Seq<usize>, i: int, n: nat)
    requires
        distinct_below(l, n),
        distinct_below(ol, n),
        distinct_below(f, n),
        disjoint(l, ol),
        disjoint(l, f),
        disjoint(ol, f),
        f.len() > 0,
        0 <= i <= l.len(),
    ensures
        forall|k: int| 0 <= k < l.len() ==> l[k] != f.last(),
        forall|k: int| 0 <= k < ol.len() ==> ol[k] != f.last(),
        distinct_below(l.insert(i, f.last()), n),
        distinct_below(f.drop_last(), n),
        disjoint(l.insert(i, f.last()), ol),
        disjoint(ol, l.insert(i, f.last())),
        disjoint(l.insert(i, f.last()), f.drop_last()),
        disjoint(ol, f.drop_last()),
{
    let slot = f.last();
    let nl = l.insert(i, slot);
    let nf = f.drop_last();
    assert forall|k: int| 0 <= k < l.len() implies l[k] != slot by {
        assert(l[k] != f[f.len() - 1]);
    }
    assert forall|k: int| 0 <= k < ol.len() implies ol[k] != slot by {
        assert(ol[k] != f[f.len() - 1]);
    }
    assert forall|a: int, b: int| 0 <= a < b < nl.len() implies nl[a] != nl[b] by {
        if a < i && b < i {
            assert(l[a] != l[b]);
        } else if a < i && b > i {
            assert(l[a] != l[b - 1]);
        } else if a > i {
            assert(l[a - 1] != l[b - 1]);
        }
    }
    assert forall|a: int| 0 <= a < nl.len() implies (#[trigger] nl[a]) < n by {
        if a < i {
            assert(l[a] < n);
        } else if a > i {
            assert(l[a - 1] < n);
        } else {
            assert(f[f.len() - 1] < n);
        }
    }
    assert forall|a: int, b: int| 0 <= a < b < nf.len() implies nf[a] != nf[b] by {
        assert(f[a] != f[b]);
    }
    assert forall|a: int| 0 <= a < nf.len() implies (#[trigger] nf[a]) < n by {
        assert(f[a] < n);
    }
    assert forall|a: int, b: int| 0 <= a < nl.len() && 0 <= b < ol.len() implies nl[a] != ol[b] by {
        if a < i {
            assert(l[a] != ol[b]);
        } else if a > i {
            assert(l[a - 1] != ol[b]);
        }
    }
    assert forall|a: int, b: int| 0 <= a < nl.len() && 0 <= b < nf.len() implies nl[a] != nf[b] by {
        assert(f[b] != f[f.len() - 1]);
        if a < i {
            assert(l[a] != f[b]);
        } else if a > i {
            assert(l[a - 1] != f[b]);
        }
    }
    assert forall|a: int, b: int| 0 <= a < ol.len() && 0 <= b < nf.len() implies ol[a] != nf[b] by {
        assert(ol[a] != f[b]);
    }
}

/// A placeholder for slots that hold no order.
fn vacant_order() -> Order {
    Order { price: 0, seq: 0, base_qty: 0, callback: OwnerCallback { pk: [0u8; 32] } }
}

/// The resting orders of both sides, stored in a slab: a fixed array of order
/// slots and a stack of the free ones. Each side is a list of slot indices,
/// best first. Every slot is on exactly one of the three lists.
pub struct OrderBook {
    slots: Vec<Order>,
    free: Vec<usize>,
    bids: Vec<usize>,
    asks: Vec<usize>,
    next_seq: u64,
}

impl OrderBook {
    /// The slot indices of `side`, best first.
    pub closed spec fn index_list(&self, side: Side) -> Seq<usize> {
        match side {
            Side::Bid => self.bids@,
            Side::Ask => self.asks@,
        }
    }

    /// The resting orders of `side`, best first.
    pub closed spec fn side_view(&self, side: Side) -> Seq<Order> {
        let l = self.index_list(side);
        Seq::new(l.len(), |i: int| self.slots@[l[i] as int])
    }

    /// The sequence number the next posted order receives.
    pub closed spec fn next_seq_spec(&self) -> u64 {
        self.next_seq
    }

    /// The largest number of orders that may rest in the book at once.
    pub closed spec fn capacity_spec(&self) -> nat {
        self.slots@.len()
    }

    /// Every slot is free or holds an order of exactly one side, once.
    pub closed spec fn slab_wf(&self) -> bool {
        let n = self.slots@.len();
        &&& distinct_below(self.bids@, n)
        &&& distinct_below(self.asks@, n)
        &&& distinct_below(self.free@, n)
        &&& disjoint(self.bids@, self.asks@)
        &&& disjoint(self.bids@, self.free@)
        &&& disjoint(self.asks@, self.free@)
        &&& self.bids@.len() + self.asks@.len() + self.free@.len() == n
    }

    pub open spec fn total_spec(&self) -> nat {
        self.side_view(Side::Bid).len() + self.side_view(Side::Ask).len()
    }

    pub open spec fn wf(&self) -> bool {
        &&& self.slab_wf()
        &&& side_wf(Side::Bid, self.side_view(Side::Bid), self.next_seq_spec())
        &&& side_wf(Side::Ask, self.side_view(Side::Ask), self.next_seq_spec())
        &&& self.total_spec() <= self.capacity_spec()
    }

    /// An empty book with `capacity` order slots, all free.
    pub fn new(capacity: usize) -> (r: OrderBook)
        ensures
            r.wf(),
            r.side_view(Side::Bid) == Seq::<Order>::empty(),
            r.side_view(Side::Ask) == Seq::<Order>::empty(),
            r.next_seq_spec() == 0,
            r.capacity_spec() == capacity,
    {
        let mut slots: Vec<Order> = Vec::with_capacity(capacity);
        let mut free: Vec<usize> = Vec::with_capacity(capacity);
        let mut i: usize = 0;
        while i < capacity
            invariant
                i <= capacity,
                slots@.len() == i,
                free@.len() == i,
                forall|k: int| 0 <= k < i ==> (#[trigger] free@[k]) == i - 1 - k,
            decreases capacity - i,
        {
            slots.push(vacant_order());
            free.insert(0, i);
            i = i + 1;
        }
        let bids: Vec<usize> = Vec::with_capacity(capacity);
        let asks: Vec<usize> = Vec::with_capacity(capacity);
        let r = OrderBook { slots, free, bids, asks, next_seq: 0 };
        assert(r.side_view(Side::Bid) =~= Seq::<Order>::empty());
        assert(r.side_view(Side::Ask) =~= Seq::<Order>::empty());
        r
    }

    pub fn capacity(&self) -> (r: usize)
        ensures
            r == self.capacity_spec(),
    {
        self.slots.len()
    }

    /// A separate book with the same contents, to work on before committing.
    pub fn duplicate(&self) -> (r: OrderBook)
        requires
            self.wf(),
        ensures
            r.wf(),
            r.side_view(Side::Bid) == self.side_view(Side::Bid),
            r.side_view(Side::Ask) == self.side_view(Side::Ask),
            r.next_seq_spec() == self.next_seq_spec(),
            r.capacity_spec() == self.capacity_spec(),
    {
        let r = OrderBook {
            slots: copy_orders(&self.slots),
            free: copy_indices(&self.free),
            bids: copy_indices(&self.bids),
            asks: copy_indices(&self.asks),
            next_seq: self.next_seq,
        };
        assert(r.side_view(Side::Bid) =~= self.side_view(Side::Bid));
        assert(r.side_view(Side::Ask) =~= self.side_view(Side::Ask));
        r
    }

    /// The sequence number the next posted order receives.
    pub fn next_seq(&self) -> (r: u64)
        ensures
            r == self.next_seq_spec(),
    {
        self.next_seq
    }

    /// The number of resting orders on `side`.
    pub fn side_len(&self, side: Side) -> (r: usize)
        ensures
            r == self.side_view(side).len(),
    {
        match side {
            Side::Bid => self.bids.len(),
            Side::Ask => self.asks.len(),
        }
    }

    /// The number of resting orders on both sides.
    pub fn total(&self) -> (r: usize)
        requires
            self.wf(),
        ensures
            r == self.total_spec(),
    {
        assert(self.side_view(Side::Bid).len() == self.bids@.len());
        assert(self.side_view(Side::Ask).len() == self.asks@.len());
        self.slots.len() - self.free.len()
    }

    /// The `i`-th best resting order on `side`.
    pub fn get(&self, side: Side, i: usize) -> (r: Option<Order>)
        requires
            self.wf(),
        ensures
            i < self.side_view(side).len() ==> r == Some(self.side_view(side)[i as int]),
            i >= self.side_view(side).len() ==> r == None::<Order>,
    {
        let l = match side {
            Side::Bid => &self.bids,
            Side::Ask => &self.asks,
        };
        if i < l.len() {
            let slot = l[i];
            Some(self.slots[slot])
        } else {
            None
        }
    }

    /// The best resting order on `side`.
    pub fn peek_best(&self, side: Side) -> (r: Option<Order>)
        requires
            self.wf(),
        ensures
            self.side_view(side).len() > 0 ==> r == Some(self.side_view(side)[0]),
            self.side_view(side).len() == 0 ==> r == None::<Order>,
    {
        self.get(side, 0)
    }

    /// Takes the best order of `side` out of the book and frees its slot.
    pub fn remove_best(&mut self, side: Side)
        requires
            old(self).wf(),
            old(self).side_view(side).len() > 0,
        ensures
            final(self).wf(),
            final(self).side_view(side) == old(self).side_view(side).drop_first(),
            final(self).side_view(opposite(side)) == old(self).side_view(opposite(side)),
            final(self).next_seq_spec() == old(self).next_seq_spec(),
            final(self).capacity_spec() == old(self).capacity_spec(),
    {
        let slot = match side {
            Side::Bid => self.bids.remove(0),
            Side::Ask => self.asks.remove(0),
        };
        self.free.push(slot);
        let ghost o = old(self).index_list(side);
        let ghost f = old(self).free@;
        assert(self.index_list(side) =~= o.drop_first());
        assert(self.free@ =~= f.push(slot));
        assert(self.side_view(side) =~= old(self).side_view(side).drop_first());
        assert(self.side_view(opposite(side)) =~= old(self).side_view(opposite(side)));
        assert(forall|i: int, j: int|
            0 <= i < j < self.side_view(side).len() ==> self.side_view(side)[i] == old(self).side_view(side)[i + 1]
                && self.side_view(side)[j] == old(self).side_view(side)[j + 1]);
        assert(distinct_below(self.free@, self.slots@.len())) by {
            assert forall|i: int, j: int| 0 <= i < j < self.free@.len() implies self.free@[i] != self.free@[j] by {
                if j == f.len() {
                    assert(o[0] == slot);
                }
            }
        }
        assert(distinct_below(self.index_list(side), self.slots@.len())) by {
            assert forall|i: int, j: int| 0 <= i < j < self.index_list(side).len() implies
                self.index_list(side)[i] != self.index_list(side)[j] by {
                assert(o[i + 1] != o[j + 1]);
            }
        }
        assert(disjoint(self.bids@, self.asks@));
        assert(disjoint(self.bids@, self.free@)) by {
            assert forall|i: int, j: int| 0 <= i < self.bids@.len() && 0 <= j < self.free@.len() implies
                self.bids@[i] != self.free@[j] by {
                if side == Side::Bid {
                    if j == f.len() {
                        assert(o[i + 1] != o[0]);
                    }
                } else if j == f.len() {
                    assert(old(self).bids@[i] != o[0]);
                }
            }
        }
        assert(disjoint(self.asks@, self.free@)) by {
            assert forall|i: int, j: int| 0 <= i < self.asks@.len() && 0 <= j < self.free@.len() implies
                self.asks@[i] != self.free@[j] by {
                if side == Side::Ask {
                    if j == f.len() {
                        assert(o[i + 1] != o[0]);
                    }
                } else if j == f.len() {
                    assert(old(self).asks@[i] != o[0]);
                }
            }
        }
    }

    /// Sets the remaining quantity of the best order of `side`.
    pub fn set_best_qty(&mut self, side: Side, qty: u64)
        requires
            old(self).wf(),
            old(self).side_view(side).len() > 0,
            qty > 0,
        ensures
            final(self).wf(),
            final(self).side_view(side) == old(self).side_view(side).update(
                0,
                Order { base_qty: qty, ..old(self).side_view(side)[0] },
            ),
            final(self).side_view(opposite(side)) == old(self).side_view(opposite(side)),
            final(self).next_seq_spec() == old(self).next_seq_spec(),
            final(self).capacity_spec() == old(self).capacity_spec(),
    {
        let slot = match side {
            Side::Bid => self.bids[0],
            Side::Ask => self.asks[0],
        };
        let o = self.slots[slot];
        self.slots.set(slot, Order { base_qty: qty, ..o });
        let ghost l = self.index_list(side);
        assert(forall|i: int| 0 < i < l.len() ==> l[i] != slot);
        assert(self.side_view(side) =~= old(self).side_view(side).update(0, Order { base_qty: qty, ..o }));
        let ghost ol = self.index_list(opposite(side));
        assert(forall|i: int| 0 <= i < ol.len() ==> ol[i] != slot);
        assert(self.side_view(opposite(side)) =~= old(self).side_view(opposite(side)));
        let ghost s = self.side_view(side);
        let ghost t = old(self).side_view(side);
        assert forall|i: int, j: int| 0 <= i < j < s.len() implies #[trigger] before(side, s[i], s[j]) by {
            assert(before(side, t[i], t[j]));
        }
    }

    /// Posts a new resting order on `side` behind every order of equal or better
    /// price, under the next sequence number, in a free slot, and returns its
    /// order id. Fails with `IndexFull`, changing nothing, when no slot is free
    /// or the sequence numbers are used up.
    pub fn insert(&mut self, side: Side, price: u64, qty: u64, callback: OwnerCallback) -> (r: Result<u128, AobError>)
        requires
            old(self).wf(),
            price > 0,
            qty > 0,
        ensures
            final(self).wf(),
            final(self).capacity_spec() == old(self).capacity_spec(),
            ({
                let o = Order { price, seq: old(self).next_seq_spec(), base_qty: qty, callback };
                if old(self).total_spec() < old(self).capacity_spec() && old(self).next_seq_spec() < u64::MAX {
                    &&& r matches Ok(id) && id as int == order_id_spec(side, price, old(self).next_seq_spec())
                    &&& final(self).side_view(side) == insert_sorted(side, old(self).side_view(side), o)
                    &&& final(self).side_view(opposite(side)) == old(self).side_view(opposite(side))
                    &&& final(self).next_seq_spec() == old(self).next_seq_spec() + 1
                } else {
                    r == Err::<u128, AobError>(AobError::IndexFull) && *final(self) == *old(self)
                }
            }),
    {
        if self.free.len() == 0 || self.next_seq == u64::MAX {
            return Err(AobError::IndexFull);
        }
        let seq = self.next_seq;
        let o = Order { price, seq, base_qty: qty, callback };
        let ghost s = self.side_view(side);
        let n = self.side_len(side);
        let mut i: usize = 0;
        while i < n
            invariant
                self.wf(),
                0 <= i <= n,
                n == s.len(),
                s == self.side_view(side),
                first_worse(side, s, price, i as int) == first_worse(side, s, price, 0),
            ensures
                first_worse(side, s, price, 0) == i,
            decreases n - i,
        {
            let cur = match self.get(side, i) {
                Some(c) => c,
                None => {
                    break;
                },
            };
            let worse = match side {
                Side::Bid => price > cur.price,
                Side::Ask => price < cur.price,
            };
            assert(cur == s[i as int]);
            if worse {
                break;
            }
            i = i + 1;
        }
        proof {
            lemma_first_worse(side, s, price, 0);
        }
        let ghost f = self.free@;
        let ghost l = self.index_list(side);
        let ghost ol = self.index_list(opposite(side));
        let slot = match self.free.pop() {
            Some(x) => x,
            None => {
                return Err(AobError::IndexFull);
            },
        };
        assert(slot == f[f.len() - 1]);
        self.slots.set(slot, o);
        match side {
            Side::Bid => self.bids.insert(i, slot),
            Side::Ask => self.asks.insert(i, slot),
        }
        self.next_seq = seq + 1;
        proof {
            lemma_slab_take_free(l, ol, f, i as int, self.slots@.len());
        }
        assert(self.index_list(side) =~= l.insert(i as int, slot));
        assert(self.free@ =~= f.drop_last());
        let ghost t = self.side_view(side);
        assert(t =~= insert_sorted(side, s, o));
        assert(self.side_view(opposite(side)) =~= old(self).side_view(opposite(side)));
        proof {
            lemma_insert_keeps_order(side, s, o);
        }
        let ghost other = opposite(side);
        assert(side_wf(other, self.side_view(other), self.next_seq));
        assert(side == Side::Bid ==> self.bids@ == l.insert(i as int, slot) && self.asks@ == ol);
        assert(side == Side::Ask ==> self.asks@ == l.insert(i as int, slot) && self.bids@ == ol);
        Ok(order_id(side, price, seq))
    }
}

} // verus!
