//! A fixed-size pool of reusable transcoding engines, handed out one lease
//! at a time.
//!
//! The pool keeps the engines that are free and counts those that are leased;
//! a caller that finds none free waits for a release before asking again.
use vstd::prelude::*;

verus! {

/// A pool of `capacity` items, each either free or leased out.
pub struct Pool<T> {
    items: Vec<T>,
    size: usize,
    leased: usize,
}

impl<T> Pool<T> {
    /// Every item is free or leased: no more, no fewer than the pool was made with.
    pub closed spec fn wf(&self) -> bool {
        self.items@.len() + self.leased == self.size
    }

    /// The items free to lease; the next lease takes the last one.
    pub closed spec fn free_items(&self) -> Seq<T> {
        self.items@
    }

    /// Number of items free to lease.
    pub closed spec fn free_count(&self) -> nat {
        self.items@.len()
    }

    /// Number of leases held.
    pub closed spec fn outstanding(&self) -> nat {
        self.leased as nat
    }

    /// Number of items the pool was made with.
    pub closed spec fn capacity(&self) -> nat {
        self.size as nat
    }

    /// Makes a pool of `size` items, each made by `create_fn`, all free.
    pub fn new<F: Fn() -> T>(create_fn: F, size: usize) -> (r: Pool<T>)
        requires
            forall|u: ()| create_fn.requires(u),
        ensures
            r.wf(),
            r.capacity() == size,
            r.free_count() == size,
            r.outstanding() == 0,
            r.free_items().len() == size,
            forall|i: int| 0 <= i < size ==> create_fn.ensures((), #[trigger] r.free_items()[i]),
    {
        let mut items: Vec<T> = Vec::new();
        let mut i: usize = 0;
        while i < size
            invariant
                i <= size,
                items.len() == i,
                forall|u: ()| create_fn.requires(u),
                forall|j: int| 0 <= j < i ==> create_fn.ensures((), #[trigger] items@[j]),
            decreases size - i,
        {
            items.push(create_fn());
            i = i + 1;
        }
        Pool { items, size, leased: 0 }
    }

    /// Takes a lease on a free item; `None` when all items are leased, in
    /// which case the pool is left as it was.
    pub fn get(&mut self) -> (r: Option<T>)
        requires
            old(self).wf(),
        ensures
            final(self).wf(),
            final(self).capacity() == old(self).capacity(),
            r is None <==> old(self).free_count() == 0,
            r is None ==> final(self).free_items() == old(self).free_items()
                && final(self).outstanding() == old(self).outstanding(),
            r is Some ==> r == Some(old(self).free_items().last()) && final(self).free_items()
                == old(self).free_items().drop_last() && final(self).outstanding()
                == old(self).outstanding() + 1,
            final(self).free_count() == final(self).free_items().len(),
    {
        match self.items.pop() {
            Some(item) => {
                self.leased = self.leased + 1;
                Some(item)
            },
            None => None,
        }
    }

    /// Gives back a leased item.
    pub fn release(&mut self, item: T)
        requires
            old(self).wf(),
            old(self).outstanding() > 0,
        ensures
            final(self).wf(),
            final(self).capacity() == old(self).capacity(),
            final(self).free_items() == old(self).free_items().push(item),
            final(self).free_count() == old(self).free_count() + 1,
            final(self).outstanding() + 1 == old(self).outstanding(),
    {
        self.items.push(item);
        self.leased = self.leased - 1;
    }

    /// Leases the last free item, runs `work` on it and gives it back whatever
    /// `work` returned: the pool ends as it began. `None` when no item is free.
    pub fn run_leased<R, F: FnOnce(&T) -> R>(&mut self, work: F) -> (r: Option<R>)
        requires
            old(self).wf(),
            forall|t: &T| work.requires((t,)),
        ensures
            final(self).wf(),
            final(self).capacity() == old(self).capacity(),
            final(self).free_items() == old(self).free_items(),
            final(self).free_count() == old(self).free_count(),
            final(self).outstanding() == old(self).outstanding(),
            r is None <==> old(self).free_count() == 0,
            r is Some ==> work.ensures((&old(self).free_items().last(),), r->Some_0),
    {
        match self.get() {
            Some(item) => {
                let out = work(&item);
                self.release(item);
                assert(self.items@ =~= old(self).items@);
                Some(out)
            },
            None => None,
        }
    }
}

/// Every item of a pool is free or leased, so a pool never has more leases
/// out than items: once all `capacity` are leased, no item is free and the
/// next lease is refused until a release.
pub proof fn lemma_lease_bound<T>(p: Pool<T>)
    requires
        p.wf(),
    ensures
        p.free_count() + p.outstanding() == p.capacity(),
        p.free_count() == p.free_items().len(),
        p.outstanding() <= p.capacity(),
        p.free_count() == 0 <==> p.outstanding() == p.capacity(),
{
}

} // verus!
