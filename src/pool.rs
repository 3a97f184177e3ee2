use vstd::prelude::*;

verus! {

/// What `acquire` hands out.
#[derive(Debug, Clone, Copy, PartialEq, Eq, Structural)]
pub enum Checkout {
    /// An idle connection in this slot is now the caller's.
    Reuse(usize),
    /// A new slot was added for the caller, who opens its connection.
    Open(usize),
    /// Every slot is in use and the pool is at its maximum: wait, then give
    /// up with a pool timeout.
    Exhausted,
}

/// The bookkeeping of a bounded connection pool: one flag per open
/// connection, set while a worker holds it.
pub struct PoolSlots {
    max_size: usize,
    busy: Vec<bool>,
}

impl PoolSlots {
    /// The flags of the open connections, in slot order.
    pub closed spec fn slots(&self) -> Seq<bool> {
        self.busy@
    }

    pub closed spec fn max(&self) -> nat {
        self.max_size as nat
    }

    /// An empty pool that may grow to `max_size` connections.
    pub fn new(max_size: usize) -> (r: PoolSlots)
        ensures
            r.slots() == Seq::<bool>::empty(),
            r.max() == max_size,
    {
        PoolSlots { max_size, busy: Vec::new() }
    }

    /// The number of open connections.
    pub fn open_count(&self) -> (r: usize)
        ensures
            r == self.slots().len(),
    {
        self.busy.len()
    }

    /// Hands a connection to the caller alone: the first idle one, else a new
    /// slot while the pool is below its maximum.
    pub fn acquire(&mut self) -> (r: Checkout)
        requires
            old(self).slots().len() <= old(self).max(),
        ensures
            final(self).max() == old(self).max(),
            final(self).slots().len() <= final(self).max(),
            match r {
                Checkout::Reuse(i) => i < old(self).slots().len() && !old(self).slots()[i as int]
                    && (forall|j: int| 0 <= j < i ==> #[trigger] old(self).slots()[j])
                    && final(self).slots() == old(self).slots().update(i as int, true),
                Checkout::Open(i) => i == old(self).slots().len() && old(self).slots().len() < old(self).max()
                    && (forall|j: int| 0 <= j < old(self).slots().len() ==> #[trigger] old(self).slots()[j])
                    && final(self).slots() == old(self).slots().push(true),
                Checkout::Exhausted => old(self).slots().len() == old(self).max()
                    && (forall|j: int| 0 <= j < old(self).slots().len() ==> #[trigger] old(self).slots()[j])
                    && final(self).slots() == old(self).slots(),
            },
    {
        let mut i: usize = 0;
        while i < self.busy.len()
            invariant
                i <= self.busy@.len(),
                self.busy@ == old(self).busy@,
                self.max_size == old(self).max_size,
                self.busy@.len() <= self.max_size,
                forall|j: int| 0 <= j < i ==> #[trigger] self.busy@[j],
            decreases self.busy@.len() - i,
        {
            if !self.busy[i] {
                self.busy.set(i, true);
                return Checkout::Reuse(i);
            }
            i = i + 1;
        }
        if self.busy.len() < self.max_size {
            self.busy.push(true);
            Checkout::Open(self.busy.len() - 1)
        } else {
            Checkout::Exhausted
        }
    }

    /// Returns the connection of slot `i` to the pool.
    pub fn release(&mut self, i: usize)
        requires
            i < old(self).slots().len(),
            old(self).slots()[i as int],
        ensures
            final(self).max() == old(self).max(),
            final(self).slots() == old(self).slots().update(i as int, false),
    {
        self.busy.set(i, false);
    }

    /// Gives up the slot just added when its connection could not be opened.
    pub fn abandon_last(&mut self)
        requires
            old(self).slots().len() > 0,
        ensures
            final(self).max() == old(self).max(),
            final(self).slots() == old(self).slots().drop_last(),
    {
        self.busy.pop();
    }
}

} // verus!
