//! Arrays whose storage belongs to whoever produced them.
//!
//! Producer and consumer of an array may not share an allocator, so the
//! consumer never frees one itself: the array carries what its cleanup
//! needs, and the consumer runs that cleanup when it is done reading. An
//! array keeps count of how far it has been read and remembers whether its
//! cleanup has run, so that the rules of that hand-over can be stated and
//! proved: the cleanup runs once, after the last element has been read, and
//! nothing is read after it.

use vstd::prelude::*;

verus! {

/// Calls `Vec::shrink_to_fit`, which gives spare capacity back and leaves
/// the elements as they are.
#[verifier::external_body]
fn shrink_to_fit<T>(items: &mut Vec<T>)
    ensures
        final(items)@ == old(items)@,
{
    items.shrink_to_fit()
}

/// Calls `Vec::capacity`. How much an allocator reserves is its own affair;
/// it is never less than the number of elements.
#[verifier::external_body]
fn capacity<T>(items: &Vec<T>) -> (capacity: usize)
    ensures
        capacity >= items@.len(),
{
    items.capacity()
}

/// What a consumer can do with an array.
pub enum ArrayOp {
    /// Read the next element.
    Read,
    /// Run the cleanup.
    Release,
}

/// Where an array of `len` elements stands in its life.
pub struct Lifecycle {
    pub len: nat,
    pub consumed: nat,
    pub released: bool,
}

impl Lifecycle {
    /// An array as it leaves its producer.
    pub open spec fn fresh(len: nat) -> Lifecycle {
        Lifecycle { len, consumed: 0, released: false }
    }

    /// Whether the rules allow `op` now: nothing is allowed once the cleanup
    /// has run, no element is read twice, and the cleanup waits for the last
    /// element to be read.
    pub open spec fn permits(self, op: ArrayOp) -> bool {
        match op {
            ArrayOp::Read => !self.released && self.consumed < self.len,
            ArrayOp::Release => !self.released && self.consumed == self.len,
        }
    }

    /// Where the array stands after `op`.
    pub open spec fn after(self, op: ArrayOp) -> Lifecycle {
        match op {
            ArrayOp::Read => Lifecycle { consumed: self.consumed + 1, ..self },
            ArrayOp::Release => Lifecycle { released: true, ..self },
        }
    }

    /// Where the array stands after a run of operations, if the rules
    /// allowed each of them in its turn.
    pub open spec fn after_all(self, ops: Seq<ArrayOp>) -> Option<Lifecycle>
        decreases ops.len(),
    {
        if ops.len() == 0 {
            Some(self)
        } else {
            match self.after_all(ops.drop_last()) {
                None => None,
                Some(reached) => if reached.permits(ops.last()) {
                    Some(reached.after(ops.last()))
                } else {
                    None
                },
            }
        }
    }
}

/// How often the cleanup runs in a run of operations.
pub open spec fn releases(ops: Seq<ArrayOp>) -> nat
    decreases ops.len(),
{
    if ops.len() == 0 {
        0
    } else {
        releases(ops.drop_last()) + if ops.last() is Release {
            1nat
        } else {
            0nat
        }
    }
}

/// Whatever a consumer does within the rules, the cleanup never runs twice,
/// and where it runs it comes last, after every element has been read once:
/// the run is then `len` reads and the cleanup, and nothing else.
pub proof fn lemma_cleanup_once_after_reading(len: nat, ops: Seq<ArrayOp>)
    requires
        Lifecycle::fresh(len).after_all(ops) is Some,
    ensures
        releases(ops) <= 1,
        releases(ops) == 1 <==> Lifecycle::fresh(len).after_all(ops)->0.released,
        releases(ops) == 1 ==> ops.len() == len + 1 && ops.last() is Release,
        forall|i: int| 0 <= i < ops.len() && i < len ==> ops[i] is Read,
        Lifecycle::fresh(len).after_all(ops)->0.len == len,
        Lifecycle::fresh(len).after_all(ops)->0.consumed + releases(ops) == ops.len(),
        Lifecycle::fresh(len).after_all(ops)->0.consumed <= len,
    decreases ops.len(),
{
    if ops.len() > 0 {
        let earlier = ops.drop_last();
        lemma_cleanup_once_after_reading(len, earlier);
        assert forall|i: int| 0 <= i < ops.len() && i < len implies ops[i] is Read by {
            if i < earlier.len() {
                assert(ops[i] == earlier[i]);
            }
        }
    }
}

/// An array handed across the plugin boundary together with its cleanup.
#[derive(Debug)]
pub struct PArray<T> {
    items: Vec<T>,
    extra: usize,
    consumed: usize,
    released: bool,
}

impl<T> View for PArray<T> {
    type V = Seq<T>;

    closed spec fn view(&self) -> Seq<T> {
        self.items@
    }
}

impl<T> PArray<T> {
    #[verifier::type_invariant]
    spec fn cursor_in_range(&self) -> bool {
        self.consumed <= self.items@.len()
    }

    /// How many elements the consumer has read so far.
    pub closed spec fn consumed(&self) -> nat {
        self.consumed as nat
    }

    /// Whether the cleanup has run. The array and its elements are dead from
    /// then on.
    pub closed spec fn released(&self) -> bool {
        self.released
    }

    /// What the producer stored for its cleanup.
    pub closed spec fn extra(&self) -> nat {
        self.extra as nat
    }

    /// Where the array stands in its life.
    pub open spec fn lifecycle(&self) -> Lifecycle {
        Lifecycle { len: self@.len(), consumed: self.consumed(), released: self.released() }
    }

    /// An array as it leaves its producer: nothing read, cleanup pending.
    pub open spec fn is_fresh(&self) -> bool {
        self.consumed() == 0 && !self.released()
    }

    /// An array that has been read to the end and waits for its cleanup.
    pub open spec fn is_drained(&self) -> bool {
        self.consumed() == self@.len() && !self.released()
    }

    /// Hands a vector over as an array and stores `context` for the cleanup:
    /// whatever the producer needs to find its own allocation again.
    pub fn with_context(items: Vec<T>, context: usize) -> (array: PArray<T>)
        ensures
            array@ == items@,
            array.is_fresh(),
            array.extra() == context,
    {
        PArray { items, extra: context, consumed: 0, released: false }
    }

    /// Number of elements.
    pub fn len(&self) -> (len: usize)
        ensures
            len == self@.len(),
    {
        self.items.len()
    }

    /// Number of elements read so far.
    pub fn consumed_len(&self) -> (consumed: usize)
        ensures
            consumed == self.consumed(),
            consumed <= self@.len(),
    {
        proof {
            use_type_invariant(self);
        }
        self.consumed
    }

    /// Whether the cleanup has run.
    pub fn is_released(&self) -> (released: bool)
        ensures
            released == self.released(),
    {
        self.released
    }

    /// Whether every element has been read.
    pub fn is_exhausted(&self) -> (exhausted: bool)
        ensures
            exhausted == (self.consumed() == self@.len()),
    {
        self.consumed == self.items.len()
    }

    /// The value that the producer stored for its cleanup.
    pub fn context(&self) -> (extra: usize)
        ensures
            extra == self.extra(),
    {
        self.extra
    }

    /// Looks at an element without counting it as read.
    pub fn get(&self, index: usize) -> (item: &T)
        requires
            !self.released(),
            index < self@.len(),
        ensures
            *item == self@[index as int],
    {
        &self.items[index]
    }

    /// Reaches an element in place without counting it as read, as a
    /// producer does on its own array.
    pub fn get_mut(&mut self, index: usize) -> (item: &mut T)
        requires
            !old(self).released(),
            index < old(self)@.len(),
        ensures
            *item == old(self)@[index as int],
            final(self)@ == old(self)@.update(index as int, *final(item)),
            final(self).consumed() == old(self).consumed(),
            final(self).released() == old(self).released(),
            final(self).extra() == old(self).extra(),
    {
        proof {
            use_type_invariant(&*self);
        }
        &mut self.items[index]
    }

    /// Reads the next element.
    pub fn next(&mut self) -> (item: &T)
        requires
            old(self).lifecycle().permits(ArrayOp::Read),
        ensures
            final(self).lifecycle() == old(self).lifecycle().after(ArrayOp::Read),
            *item == old(self)@[old(self).consumed() as int],
            final(self)@ == old(self)@,
            final(self).consumed() == old(self).consumed() + 1,
            final(self).released() == old(self).released(),
            final(self).extra() == old(self).extra(),
    {
        let len: usize = self.items.len();
        let index: usize = self.consumed;
        assert(index < len);
        self.consumed = index + 1;
        &self.items[index]
    }

    /// Reads the next element in place, for an element that keeps count of
    /// its own reading.
    pub fn next_mut(&mut self) -> (item: &mut T)
        requires
            old(self).lifecycle().permits(ArrayOp::Read),
        ensures
            final(self).lifecycle() == old(self).lifecycle().after(ArrayOp::Read),
            *item == old(self)@[old(self).consumed() as int],
            final(self)@ == old(self)@.update(old(self).consumed() as int, *final(item)),
            final(self).consumed() == old(self).consumed() + 1,
            final(self).released() == old(self).released(),
            final(self).extra() == old(self).extra(),
    {
        let len: usize = self.items.len();
        let index: usize = self.consumed;
        assert(index < len);
        self.consumed = index + 1;
        &mut self.items[index]
    }

    /// Passes over the elements that have not been read: the consumer has
    /// seen what it wanted of them.
    pub fn skip_to_end(&mut self)
        requires
            !old(self).released(),
        ensures
            final(self).is_drained(),
            final(self)@ == old(self)@,
            final(self).extra() == old(self).extra(),
    {
        self.consumed = self.items.len();
    }

    /// Runs the cleanup. Only an array that has been read to the end can be
    /// cleaned up, and only once.
    pub fn release(&mut self)
        requires
            old(self).lifecycle().permits(ArrayOp::Release),
        ensures
            final(self).lifecycle() == old(self).lifecycle().after(ArrayOp::Release),
            final(self).released(),
            final(self)@ == old(self)@,
            final(self).consumed() == old(self).consumed(),
            final(self).extra() == old(self).extra(),
    {
        proof {
            use_type_invariant(&*self);
        }
        self.released = true;
    }
}

impl<T> From<Vec<T>> for PArray<T> {
    /// Hands a vector over as an array. Its spare capacity is given back
    /// first, and what is left of it is kept for the cleanup.
    fn from(v: Vec<T>) -> (array: PArray<T>)
        ensures
            array@ == v@,
            array.is_fresh(),
            array.extra() >= v@.len(),
    {
        let mut items = v;
        shrink_to_fit(&mut items);
        let extra = capacity(&items);
        PArray { items, extra, consumed: 0, released: false }
    }
}

impl<T> vstd::std_specs::convert::FromSpecImpl<Vec<T>> for PArray<T> {
    /// The capacity that is kept for the cleanup is the allocator's choice,
    /// so the array is not a function of the vector alone: `from` states
    /// what holds of every outcome instead.
    open spec fn obeys_from_spec() -> bool {
        false
    }

    open spec fn from_spec(v: Vec<T>) -> PArray<T> {
        arbitrary()
    }
}

} // verus!
