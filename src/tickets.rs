use vstd::prelude::*;

verus! {

/// Hands out the ticket numbers `0..total`, each exactly once, in order.
pub struct WorkTickets {
    next: usize,
    total: usize,
}

impl WorkTickets {
    /// Number of tickets handed out so far.
    pub closed spec fn issued(&self) -> nat {
        self.next as nat
    }

    pub closed spec fn total(&self) -> nat {
        self.total as nat
    }

    pub closed spec fn wf(&self) -> bool {
        self.next <= self.total
    }

    pub proof fn lemma_issued_bound(&self)
        requires
            self.wf(),
        ensures
            self.issued() <= self.total(),
    {
    }

    pub fn new(total: usize) -> (r: WorkTickets)
        ensures
            r.wf(),
            r.issued() == 0,
            r.total() == total,
    {
        WorkTickets { next: 0, total }
    }

    /// The next unissued ticket, or `None` once all `total` are out.
    pub fn claim_next_ticket(&mut self) -> (r: Option<usize>)
        requires
            old(self).wf(),
        ensures
            final(self).wf(),
            final(self).total() == old(self).total(),
            old(self).issued() < old(self).total() ==> {
                &&& r == Some(old(self).issued() as usize)
                &&& final(self).issued() == old(self).issued() + 1
            },
            old(self).issued() >= old(self).total() ==> {
                &&& r.is_none()
                &&& final(self).issued() == old(self).issued()
            },
    {
        if self.next < self.total {
            let t = self.next;
            self.next = self.next + 1;
            Some(t)
        } else {
            None
        }
    }

    pub fn total_count(&self) -> (r: usize)
        ensures
            r == self.total(),
    {
        self.total
    }

    pub fn is_exhausted(&self) -> (r: bool)
        requires
            self.wf(),
        ensures
            r == (self.issued() == self.total()),
    {
        self.next == self.total
    }
}

} // verus!
