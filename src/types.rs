use vstd::prelude::*;

verus! {

/// The side of an order.
#[derive(Clone, Copy, Debug, PartialEq, Eq, Structural)]
pub enum Side {
    Bid,
    Ask,
}

/// What happens when an incoming order meets a resting order of the same owner.
#[derive(Clone, Copy, Debug, PartialEq, Eq, Structural)]
pub enum SelfTradeBehavior {
    /// Remove the resting order and count it against the match limit.
    DecrementTake,
    /// Remove the resting order and keep matching.
    CancelProvide,
    /// Fail the whole call.
    AbortTransaction,
}

/// Ways in which a call into the engine fails. Every failure leaves the market unchanged.
#[derive(Clone, Copy, Debug, PartialEq, Eq, Structural)]
pub enum AobError {
    /// A price, a quantity or a market parameter is zero or off its grid.
    InvalidInput,
    /// The incoming order would have matched a resting order of its own owner.
    SelfTradeViolation,
    /// A post-only order would have crossed the book.
    PostOnlyViolation,
    /// No slot is left for a new resting order.
    IndexFull,
    /// The event queue has no room for an event the call produces.
    QueueFull,
}

/// The opaque identity attached to each order: a 32-byte owner key.
#[derive(Clone, Copy, Debug)]
pub struct OwnerCallback {
    pub pk: [u8; 32],
}

impl OwnerCallback {
    /// Two tokens belong to the same owner exactly when their keys agree.
    pub open spec fn same_owner_spec(&self, other: &OwnerCallback) -> bool {
        self.pk@ == other.pk@
    }

    /// The owner key that identifies this token.
    pub fn as_callback_id(&self) -> (r: &[u8; 32])
        ensures
            r@ == self.pk@,
    {
        &self.pk
    }

    /// Compares the owner keys of two tokens byte by byte.
    pub fn same_owner(&self, other: &OwnerCallback) -> (r: bool)
        ensures
            r == self.same_owner_spec(other),
    {
        let mut i: usize = 0;
        while i < 32
            invariant
                0 <= i <= 32,
                self.pk@.len() == 32,
                other.pk@.len() == 32,
                forall|k: int| 0 <= k < i ==> self.pk@[k] == other.pk@[k],
            decreases 32 - i,
        {
            if self.pk[i] != other.pk[i] {
                return false;
            }
            i = i + 1;
        }
        assert(self.pk@ =~= other.pk@);
        true
    }
}

/// A resting order: limit price, sequence number, remaining base quantity and owner token.
#[derive(Clone, Copy, Debug)]
pub struct Order {
    pub price: u64,
    pub seq: u64,
    pub base_qty: u64,
    pub callback: OwnerCallback,
}

/// A record of what the matching engine did, for later settlement.
#[derive(Clone, Copy, Debug)]
pub enum Event {
    /// A resting maker order traded `base_size` against the taker, for `quote_size`.
    Fill {
        taker_side: Side,
        maker_order_id: u128,
        quote_size: u64,
        base_size: u64,
        maker_callback: OwnerCallback,
        taker_callback: OwnerCallback,
    },
    /// An order left the book, or a taker's remainder was discarded.
    Out {
        side: Side,
        order_id: u128,
        base_size: u64,
        callback: OwnerCallback,
    },
}

/// `2^64`, the factor that places the price above the sequence in an order id.
pub const PRICE_SHIFT: u128 = 0x1_0000_0000_0000_0000;

/// The order id: price in the high 64 bits; in the low 64 bits the sequence for
/// an ask and its complement for a bid, so that a larger bid id is a better bid.
pub open spec fn order_id_spec(side: Side, price: u64, seq: u64) -> int {
    match side {
        Side::Ask => price as int * 0x1_0000_0000_0000_0000 + seq as int,
        Side::Bid => price as int * 0x1_0000_0000_0000_0000 + (u64::MAX - seq) as int,
    }
}

/// Packs price, sequence and side into an order id.
pub fn order_id(side: Side, price: u64, seq: u64) -> (r: u128)
    ensures
        r as int == order_id_spec(side, price, seq),
{
    let low: u64 = match side {
        Side::Ask => seq,
        Side::Bid => u64::MAX - seq,
    };
    assert((price as int) * 0x1_0000_0000_0000_0000 + (low as int) <= u128::MAX) by (nonlinear_arith)
        requires
            price <= u64::MAX,
            low <= u64::MAX,
    ;
    (price as u128) * PRICE_SHIFT + (low as u128)
}

} // verus!
