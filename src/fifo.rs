use vstd::prelude::*;
use vstd::arithmetic::div_mod::{lemma_mod_add_multiples_vanish, lemma_small_mod};

verus! {

/// The largest capacity a queue accepts: the cursor arithmetic adds the
/// capacity to an index below it, and that sum must fit in a `usize`.
pub const MAX_LENGTH: usize = usize::MAX / 2;

/// The window after `item` is pushed onto `window`: the oldest item leaves
/// and `item` becomes the newest.
pub open spec fn pushed<T>(window: Seq<T>, item: T) -> Seq<T> {
    window.drop_first().push(item)
}

/// The window after each of `items` is pushed in turn, first to last.
pub open spec fn pushed_all<T>(window: Seq<T>, items: Seq<T>) -> Seq<T>
    decreases items.len(),
{
    if items.len() == 0 {
        window
    } else {
        pushed(pushed_all(window, items.drop_last()), items.last())
    }
}

/// Pushing `items` in turn onto a queue that holds `window` leaves the last
/// `window.len()` values of `window` followed by `items`: every queue behaves
/// as a double-ended queue of bounded size that drops its oldest value
/// whenever a push would exceed the bound. With fewer pushes than slots, the
/// pushed values are preceded by the newest of the values that were there.
pub proof fn lemma_pushes_keep_newest<T>(window: Seq<T>, items: Seq<T>)
    requires
        window.len() > 0,
    ensures
        pushed_all(window, items) == (window + items).subrange(
            items.len() as int,
            (items.len() + window.len()) as int,
        ),
    decreases items.len(),
{
    if items.len() > 0 {
        let k = items.len() as int;
        let n = window.len() as int;
        let init = items.drop_last();
        lemma_pushes_keep_newest(window, init);
        assert((window + items).subrange(k, k + n) =~= pushed(
            (window + init).subrange(k - 1, k - 1 + n),
            items.last(),
        ));
    }
}

/// The values of `slots` read in ring order from index `start` on.
pub open spec fn rotated<T>(slots: Seq<T>, start: int) -> Seq<T> {
    Seq::new(slots.len(), |i: int| slots[(start + i) % (slots.len() as int)])
}

/// An index below `2 * l` taken modulo `l` wraps at most once.
proof fn lemma_wrap_once(x: int, l: int)
    requires
        0 < l,
        0 <= x < 2 * l,
    ensures
        x % l == if x < l { x } else { x - l },
{
    if x < l {
        lemma_small_mod(x as nat, l as nat);
    } else {
        lemma_small_mod((x - l) as nat, l as nat);
        lemma_mod_add_multiples_vanish(x - l, l);
    }
}

/// A fixed-length FIFO queue.
///
/// The items live in a ring of `LENGTH` slots; `position` is the slot that
/// the next push overwrites, which is also where the oldest item stands.
pub struct Fifo<T, const LENGTH: usize> {
    array: [T; LENGTH],
    position: usize,
}

impl<T, const LENGTH: usize> Fifo<T, LENGTH> {
    #[verifier::type_invariant]
    spec fn well_formed(&self) -> bool {
        &&& 0 < LENGTH <= MAX_LENGTH
        &&& self.position < LENGTH
    }

    /// The item that stands `i` places after the oldest one.
    pub closed spec fn item(&self, i: int) -> T {
        self.array@[(self.position + i) % (LENGTH as int)]
    }

    /// Rebuilds a queue from its slots as stored and the index of its oldest
    /// item, as `to_parts` hands them out; `None` where no queue has them.
    pub fn from_parts(array: [T; LENGTH], position: usize) -> (r: Option<Self>)
        ensures
            r is Some <==> 0 < LENGTH <= MAX_LENGTH && position < LENGTH,
            r is Some ==> r->Some_0@ == rotated(array@, position as int),
    {
        if LENGTH == 0 || LENGTH > MAX_LENGTH || position >= LENGTH {
            return None;
        }
        let r = Fifo { array, position };
        assert(r@ =~= rotated(array@, position as int));
        Some(r)
    }

    /// The slots as stored and the index of the oldest item: what it takes
    /// to store the queue and rebuild it with `from_parts`.
    pub fn to_parts(&self) -> (r: ([T; LENGTH], usize)) where T: Copy
        ensures
            0 < LENGTH <= MAX_LENGTH,
            r.1 < LENGTH,
            rotated(r.0@, r.1 as int) == self@,
    {
        proof {
            use_type_invariant(self);
        }
        let r = (self.array, self.position);
        assert(rotated(r.0@, r.1 as int) =~= self@);
        r
    }

    /// Creates a queue of size `LENGTH` whose every slot holds `fill`.
    pub fn filled(fill: T) -> (r: Self) where T: Copy
        requires
            0 < LENGTH <= MAX_LENGTH,
        ensures
            r@ == Seq::new(LENGTH as nat, |_i: int| fill),
    {
        let r = Fifo { array: [fill; LENGTH], position: 0 };
        assert forall|i: int| 0 <= i < LENGTH implies r.item(i) == fill by {
            lemma_small_mod(i as nat, LENGTH as nat);
        }
        assert(r@ =~= Seq::new(LENGTH as nat, |_i: int| fill));
        r
    }

    /// Creates a queue of size `LENGTH`, filled with `T::default()`.
    pub fn new() -> (r: Self) where T: Default + Copy
        requires
            0 < LENGTH <= MAX_LENGTH,
        ensures
            r@.len() == LENGTH,
            forall|i: int| 0 <= i < LENGTH ==> #[trigger] r@[i] == r@[0],
            forall|i: int| 0 <= i < LENGTH ==> call_ensures(T::default, (), #[trigger] r@[i]),
    {
        let fill = T::default();
        Self::filled(fill)
    }

    /// Adds an item to the queue, dropping the oldest one.
    pub fn push(&mut self, item: T)
        ensures
            final(self)@ == pushed(old(self)@, item),
        no_unwind
    {
        proof {
            use_type_invariant(&*self);
        }
        let ghost before = *self;
        let insert_position = (self.position + LENGTH) % LENGTH;
        proof {
            lemma_wrap_once(self.position + LENGTH, LENGTH as int);
        }
        self.position = (self.position + 1) % LENGTH;
        self.array[insert_position] = item;
        proof {
            let l = LENGTH as int;
            lemma_wrap_once(before.position + 1, l);
            assert forall|i: int| 0 <= i < l implies #[trigger] self.item(i) == pushed(
                before@,
                item,
            )[i] by {
                lemma_wrap_once(self.position + i, l);
                lemma_wrap_once(before.position + i + 1, l);
            }
            assert(self@ =~= pushed(before@, item));
        }
    }

    /// Returns an iterator over the queued items, oldest first.
    pub fn iter(&self) -> (r: FifoIterator<'_, T, LENGTH>)
        ensures
            r@ == self@,
    {
        proof {
            use_type_invariant(self);
        }
        let r = FifoIterator { array: &self.array, start_position: self.position, count: LENGTH };
        assert(r@ =~= self@);
        r
    }
}

impl<T, const LENGTH: usize> View for Fifo<T, LENGTH> {
    type V = Seq<T>;

    /// The queued items, oldest first.
    open spec fn view(&self) -> Seq<T> {
        Seq::new(LENGTH as nat, |i: int| self.item(i))
    }
}

/// An iterator over the queued values.
pub struct FifoIterator<'a, T, const LENGTH: usize> {
    array: &'a [T; LENGTH],
    start_position: usize,
    count: usize,
}

impl<'a, T, const LENGTH: usize> FifoIterator<'a, T, LENGTH> {
    #[verifier::type_invariant]
    spec fn well_formed(&self) -> bool {
        &&& self.count > 0 ==> LENGTH > 0
        &&& self.start_position + self.count <= usize::MAX
    }

    /// How many items are still to be handed out.
    pub closed spec fn remaining(&self) -> nat {
        self.count as nat
    }

    /// The item that stands `i` places after the next one to be handed out.
    pub closed spec fn item(&self, i: int) -> T {
        self.array@[(self.start_position + i) % (LENGTH as int)]
    }

    /// Hands out the next item, or `None` once every item has been handed out.
    pub fn next(&mut self) -> (r: Option<&'a T>)
        ensures
            r is None <==> old(self)@.len() == 0,
            r is None ==> final(self)@ == old(self)@,
            r is Some ==> *r->Some_0 == old(self)@[0] && final(self)@ == old(self)@.drop_first(),
    {
        proof {
            use_type_invariant(&*self);
        }
        if self.count == 0 {
            return None;
        }
        let ghost before = *self;
        self.count = self.count - 1;
        let item = &self.array[self.start_position % LENGTH];
        self.start_position = self.start_position + 1;
        assert(self@ =~= before@.drop_first());
        Some(item)
    }
}

impl<'a, T, const LENGTH: usize> View for FifoIterator<'a, T, LENGTH> {
    type V = Seq<T>;

    /// The items not yet handed out, in the order they will come.
    open spec fn view(&self) -> Seq<T> {
        Seq::new(self.remaining(), |i: int| self.item(i))
    }
}

} // verus!
