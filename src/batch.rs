//! Batching of records for the analytics sink: records accumulate until a
//! batch is full, and every batch handed out can be handed back when its
//! delivery failed, so that records are delivered at least once and the
//! data plane never waits on the sink.
use vstd::prelude::*;

verus! {

/// Records per batch unless a batcher is made with another size.
pub const DEFAULT_BATCH_SIZE: usize = 1000;

/// Records waiting to be delivered.
pub struct Batcher<T> {
    items: Vec<T>,
    batch_size: usize,
}

impl<T> Batcher<T> {
    /// The records waiting, oldest first.
    pub closed spec fn pending(&self) -> Seq<T> {
        self.items@
    }

    /// How many records make a full batch.
    pub closed spec fn capacity(&self) -> nat {
        self.batch_size as nat
    }

    /// An empty batcher whose batches hold `batch_size` records.
    pub fn new(batch_size: usize) -> (b: Batcher<T>)
        ensures
            b.pending() == Seq::<T>::empty(),
            b.capacity() == batch_size,
    {
        Batcher { items: Vec::new(), batch_size }
    }

    /// Number of records waiting.
    pub fn len(&self) -> (n: usize)
        ensures
            n == self.pending().len(),
    {
        self.items.len()
    }

    fn take_all(&mut self) -> (r: Vec<T>)
        ensures
            r@ == old(self).pending(),
            final(self).pending() == Seq::<T>::empty(),
            final(self).capacity() == old(self).capacity(),
    {
        let mut out: Vec<T> = Vec::new();
        std::mem::swap(&mut out, &mut self.items);
        out
    }

    /// Adds a record. When that fills a batch, the whole batch (the waiting
    /// records and this one, oldest first) is handed out for delivery and
    /// nothing is left waiting.
    pub fn record(&mut self, item: T) -> (r: Option<Vec<T>>)
        ensures
            final(self).capacity() == old(self).capacity(),
            old(self).pending().len() + 1 >= old(self).capacity() ==> {
                &&& r matches Some(batch) && batch@ == old(self).pending().push(item)
                &&& final(self).pending() == Seq::<T>::empty()
            },
            old(self).pending().len() + 1 < old(self).capacity() ==> {
                &&& r is None
                &&& final(self).pending() == old(self).pending().push(item)
            },
    {
        self.items.push(item);
        if self.items.len() >= self.batch_size {
            Some(self.take_all())
        } else {
            None
        }
    }

    /// Hands out every waiting record, oldest first; none when nothing
    /// waits.
    pub fn flush(&mut self) -> (r: Option<Vec<T>>)
        ensures
            final(self).capacity() == old(self).capacity(),
            old(self).pending().len() == 0 ==> r is None && final(self).pending() == old(
                self,
            ).pending(),
            old(self).pending().len() > 0 ==> {
                &&& r matches Some(batch) && batch@ == old(self).pending()
                &&& final(self).pending() == Seq::<T>::empty()
            },
    {
        if self.items.len() == 0 {
            None
        } else {
            Some(self.take_all())
        }
    }

    /// Gives back a batch whose delivery failed: its records wait again,
    /// ahead of the ones recorded since.
    pub fn requeue(&mut self, batch: Vec<T>)
        ensures
            final(self).capacity() == old(self).capacity(),
            final(self).pending() == batch@ + old(self).pending(),
    {
        let mut merged = batch;
        let mut rest = self.take_all();
        merged.append(&mut rest);
        self.items = merged;
    }
}

} // verus!
