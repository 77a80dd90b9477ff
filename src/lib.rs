//! Storing historical price data: a window of the most recent prices and the
//! bookkeeping that decides when an average over it may be taken.

use vstd::prelude::*;

pub mod fifo;

pub use fifo::{Fifo, FifoIterator, MAX_LENGTH};

verus! {

use fifo::{pushed, pushed_all, rotated, lemma_pushes_keep_newest};

/// The number of prices that an average is taken over.
pub const HISTORY_DEPTH: usize = 5;

/// Why an average cannot be taken.
#[derive(Debug, PartialEq, Eq, Clone, Copy, Structural)]
pub enum HistoryError {
    /// Fewer prices have been recorded, since creation or since the last
    /// reset, than the average is taken over.
    NotEnoughData,
}

/// The depth after one more price is recorded: one more, up to `capacity`.
pub open spec fn counted(depth: nat, capacity: nat) -> nat {
    if depth < capacity {
        depth + 1
    } else {
        capacity
    }
}

/// The depth after `k` more prices are recorded.
pub open spec fn counted_times(depth: nat, k: nat, capacity: nat) -> nat
    decreases k,
{
    if k == 0 {
        depth
    } else {
        counted(counted_times(depth, (k - 1) as nat, capacity), capacity)
    }
}

/// Recording `k` prices onto a depth of at most `capacity` gives a depth of
/// `depth + k`, or `capacity` once that sum reaches it.
pub proof fn lemma_depth_after_records(depth: nat, k: nat, capacity: nat)
    requires
        depth <= capacity,
    ensures
        counted_times(depth, k, capacity) == if depth + k < capacity {
            depth + k
        } else {
            capacity
        },
    decreases k,
{
    if k > 0 {
        lemma_depth_after_records(depth, (k - 1) as nat, capacity);
    }
}

/// The depth saturates: after `k` prices recorded into a new history, the
/// depth is the smaller of `k` and the capacity.
pub proof fn lemma_depth_saturates(k: nat, capacity: nat)
    ensures
        counted_times(0, k, capacity) == if k < capacity {
            k
        } else {
            capacity
        },
{
    lemma_depth_after_records(0, k, capacity);
}

/// After a reset the average stays refused until `capacity` more prices are
/// recorded: the depth reaches `capacity` exactly when at least that many
/// were, whatever the slots held before.
pub proof fn lemma_refill_after_reset(k: nat, capacity: nat)
    requires
        capacity > 0,
    ensures
        counted_times(0, k, capacity) == capacity <==> k >= capacity,
{
    lemma_depth_after_records(0, k, capacity);
}

/// Once at least as many prices as the window holds have been recorded, the
/// window is full, and it holds exactly the last of the recorded prices, in
/// the order they came: the average is then taken over those prices alone.
pub proof fn lemma_full_window_holds_last_records<T>(depth: nat, window: Seq<T>, items: Seq<T>)
    requires
        0 < window.len(),
        depth <= window.len(),
        items.len() >= window.len(),
    ensures
        counted_times(depth, items.len(), window.len()) == window.len(),
        pushed_all(window, items) == items.subrange(
            items.len() - window.len(),
            items.len() as int,
        ),
{
    lemma_depth_after_records(depth, items.len(), window.len());
    lemma_pushes_keep_newest(window, items);
    assert((window + items).subrange(
        items.len() as int,
        (items.len() + window.len()) as int,
    ) =~= items.subrange(items.len() - window.len(), items.len() as int));
}

/// A history of prices that is able to make an average out of the last
/// `DEPTH` of them.
pub struct PriceHistory<T, const DEPTH: usize> {
    price_history: Fifo<T, DEPTH>,
    recorded: usize,
}

impl<T, const DEPTH: usize> PriceHistory<T, DEPTH> {
    #[verifier::type_invariant]
    spec fn well_formed(&self) -> bool {
        &&& 0 < DEPTH <= MAX_LENGTH
        &&& self.recorded <= DEPTH
    }

    /// How many prices have been recorded since creation or the last reset,
    /// up to `DEPTH`.
    pub closed spec fn depth(&self) -> nat {
        self.recorded as nat
    }

    /// The `DEPTH` prices in the window, oldest first. Slots that no price
    /// has reached yet hold the initial value.
    pub closed spec fn prices(&self) -> Seq<T> {
        self.price_history@
    }

    /// Creates an empty history whose slots hold `T::default()`.
    pub fn new() -> (r: Self) where T: Default + Copy
        requires
            0 < DEPTH <= MAX_LENGTH,
        ensures
            r.depth() == 0,
            r.prices().len() == DEPTH,
            forall|i: int| 0 <= i < DEPTH ==> #[trigger] r.prices()[i] == r.prices()[0],
            forall|i: int|
                0 <= i < DEPTH ==> call_ensures(T::default, (), #[trigger] r.prices()[i]),
    {
        PriceHistory { price_history: Fifo::new(), recorded: 0 }
    }

    /// Rebuilds a history from what `to_parts` hands out: the window's slots
    /// as stored, the index of the oldest price and the depth. `None` where
    /// no history has them.
    pub fn from_parts(slots: [T; DEPTH], position: usize, recorded: usize) -> (r: Option<Self>)
        ensures
            r is Some <==> 0 < DEPTH <= MAX_LENGTH && position < DEPTH && recorded <= DEPTH,
            r is Some ==> r->Some_0.depth() == recorded && r->Some_0.prices() == rotated(
                slots@,
                position as int,
            ),
    {
        if recorded > DEPTH {
            return None;
        }
        match Fifo::from_parts(slots, position) {
            Some(price_history) => Some(PriceHistory { price_history, recorded }),
            None => None,
        }
    }

    /// The window's slots as stored, the index of the oldest price and the
    /// depth: what it takes to store the history and rebuild it with
    /// `from_parts`.
    pub fn to_parts(&self) -> (r: ([T; DEPTH], usize, usize)) where T: Copy
        ensures
            r.1 < DEPTH,
            r.2 == self.depth(),
            r.2 <= DEPTH,
            rotated(r.0@, r.1 as int) == self.prices(),
    {
        proof {
            use_type_invariant(self);
        }
        let (slots, position) = self.price_history.to_parts();
        (slots, position, self.recorded)
    }

    /// Returns the prices that the average is taken over, oldest first, once
    /// `DEPTH` prices have been recorded.
    pub fn window(&self) -> (r: Result<Vec<T>, HistoryError>) where T: Copy
        ensures
            r is Ok <==> self.depth() == DEPTH,
            r is Ok ==> r->Ok_0@ == self.prices(),
            r is Err ==> r->Err_0 == HistoryError::NotEnoughData,
    {
        proof {
            use_type_invariant(self);
        }
        if self.recorded != DEPTH {
            return Err(HistoryError::NotEnoughData);
        }
        let mut prices: Vec<T> = Vec::new();
        let mut items = self.price_history.iter();
        loop
            invariant
                prices@ + items@ == self.prices(),
            ensures
                prices@ == self.prices(),
            decreases items@.len(),
        {
            let ghost before = items@;
            match items.next() {
                Some(price) => {
                    prices.push(*price);
                    assert(prices@ + items@ =~= self.prices()) by {
                        assert(before =~= seq![*price] + items@);
                    }
                },
                None => {
                    assert(prices@ =~= self.prices());
                    break;
                },
            }
        }
        Ok(prices)
    }

    /// Adds the provided `price` to the history, dropping the oldest one.
    pub fn record_price(&mut self, price: T)
        ensures
            final(self).depth() == counted(old(self).depth(), DEPTH as nat),
            final(self).prices() == pushed(old(self).prices(), price),
    {
        proof {
            use_type_invariant(&*self);
        }
        if self.recorded < DEPTH {
            self.recorded = self.recorded + 1;
        }
        self.price_history.push(price);
    }

    /// Returns the depth of the recorded history.
    pub fn depth_so_far(&self) -> (r: usize)
        ensures
            r == self.depth(),
    {
        self.recorded
    }

    /// Returns the amount of recorded prices that an average needs.
    pub fn required_depth(&self) -> (r: usize)
        ensures
            r == DEPTH,
    {
        DEPTH
    }

    /// Forgets the history: the depth returns to zero, while the prices
    /// stay in their slots until new ones overwrite them.
    pub fn reset(&mut self)
        ensures
            final(self).depth() == 0,
            final(self).prices() == old(self).prices(),
    {
        proof {
            use_type_invariant(&*self);
        }
        self.recorded = 0;
    }
}

} // verus!
