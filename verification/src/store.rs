//! The resource store and its runtime-checked borrow state.
//!
//! The store is a registry of singleton resources, one per stable resource
//! id.  Each resource carries an [`AccessCell`]: a shared/exclusive borrow
//! flag checked at the point of access.  Under the lock registry all
//! concurrent access is already serialized, so these checks cannot fail in a
//! correctly scheduled program; they exist as a second line of defense
//! against defects in the lock bookkeeping, not as the primary
//! mutual-exclusion mechanism.

use vstd::prelude::*;

verus! {

/// Refusal of a borrow that would conflict with one outstanding.
#[derive(Clone, Copy, PartialEq, Eq, Structural, Debug)]
pub enum BorrowError {
    /// An exclusive borrow is outstanding.
    ExclusiveHeld,
    /// Shared borrows are outstanding, so an exclusive borrow is refused.
    SharedHeld,
}

/// The borrow state of one resource: how many shared views are out, and
/// whether an exclusive view is out.
#[derive(Clone, Copy)]
pub struct AccessCell {
    readers: usize,
    writer: bool,
}

impl AccessCell {
    /// Number of outstanding shared borrows.
    pub closed spec fn readers_out(self) -> int {
        self.readers as int
    }

    /// An exclusive borrow is outstanding.
    pub closed spec fn writer_out(self) -> bool {
        self.writer
    }

    /// Shared and exclusive borrows never coexist.
    pub open spec fn wf(self) -> bool {
        self.writer_out() ==> self.readers_out() == 0
    }

    /// A cell with no borrow outstanding.
    pub fn new() -> (c: AccessCell)
        ensures
            c.wf(),
            c.readers_out() == 0,
            !c.writer_out(),
    {
        AccessCell { readers: 0, writer: false }
    }

    /// Take a shared view; refused exactly while an exclusive view is out.
    pub fn try_read(&mut self) -> (res: Result<(), BorrowError>)
        requires
            old(self).wf(),
            old(self).readers_out() < usize::MAX,
        ensures
            final(self).wf(),
            res is Ok <==> !old(self).writer_out(),
            res is Ok ==> final(self).readers_out() == old(self).readers_out() + 1
                && !final(self).writer_out(),
            res is Err ==> *final(self) == *old(self)
                && res == Err::<(), BorrowError>(BorrowError::ExclusiveHeld),
    {
        if self.writer {
            Err(BorrowError::ExclusiveHeld)
        } else {
            self.readers = self.readers + 1;
            Ok(())
        }
    }

    /// Give a shared view back.
    pub fn end_read(&mut self)
        requires
            old(self).wf(),
            old(self).readers_out() > 0,
        ensures
            final(self).wf(),
            final(self).readers_out() == old(self).readers_out() - 1,
            final(self).writer_out() == old(self).writer_out(),
    {
        self.readers = self.readers - 1;
    }

    /// Take the exclusive view; refused exactly while any view is out.
    pub fn try_write(&mut self) -> (res: Result<(), BorrowError>)
        requires
            old(self).wf(),
        ensures
            final(self).wf(),
            res is Ok <==> (!old(self).writer_out() && old(self).readers_out() == 0),
            res is Ok ==> final(self).writer_out() && final(self).readers_out() == 0,
            res is Err ==> *final(self) == *old(self),
            res == Err::<(), BorrowError>(BorrowError::ExclusiveHeld)
                <==> old(self).writer_out(),
            res == Err::<(), BorrowError>(BorrowError::SharedHeld)
                <==> (!old(self).writer_out() && old(self).readers_out() > 0),
    {
        if self.writer {
            Err(BorrowError::ExclusiveHeld)
        } else if self.readers > 0 {
            Err(BorrowError::SharedHeld)
        } else {
            self.writer = true;
            Ok(())
        }
    }

    /// Give the exclusive view back.
    pub fn end_write(&mut self)
        requires
            old(self).wf(),
            old(self).writer_out(),
        ensures
            final(self).wf(),
            !final(self).writer_out(),
            final(self).readers_out() == old(self).readers_out(),
    {
        self.writer = false;
    }
}

/// The registry of singleton resources, keyed by stable resource id.
pub struct ResourceStore {
    ids: Vec<u64>,
    cells: Vec<AccessCell>,
}

impl ResourceStore {
    /// The slot a resource occupies.
    pub closed spec fn slot(self, id: u64) -> int {
        choose|j: int| 0 <= j < self.ids@.len() && self.ids@[j] == id
    }

    /// The resource was registered.
    pub closed spec fn contains(self, id: u64) -> bool {
        self.ids@.contains(id)
    }

    /// The borrow state of a registered resource.
    pub closed spec fn cell_of(self, id: u64) -> AccessCell {
        self.cells@[self.slot(id)]
    }

    /// Slots are consistent, ids unique, every borrow state well formed.
    pub closed spec fn wf(self) -> bool {
        &&& self.cells@.len() == self.ids@.len()
        &&& (forall|j: int, k: int|
            0 <= j < self.ids@.len() && 0 <= k < self.ids@.len()
                && self.ids@[j] == self.ids@[k] ==> j == k)
        &&& (forall|j: int| 0 <= j < self.cells@.len() ==> (#[trigger] self.cells@[j]).wf())
    }

    /// The slot of a valid index is that index.
    proof fn lemma_slot_of_index(self, j: int)
        requires
            self.wf(),
            0 <= j < self.ids@.len(),
        ensures
            self.contains(self.ids@[j]),
            self.slot(self.ids@[j]) == j,
    {
        assert(self.ids@.contains(self.ids@[j]));
        let k = self.slot(self.ids@[j]);
        assert(self.ids@[k] == self.ids@[j]);
    }

    /// A registered resource occupies a valid slot carrying its id.
    proof fn lemma_slot_valid(self, id: u64)
        requires
            self.contains(id),
        ensures
            0 <= self.slot(id) < self.ids@.len(),
            self.ids@[self.slot(id)] == id,
    {
        let j = choose|j: int| 0 <= j < self.ids@.len() && self.ids@[j] == id;
        assert(self.ids@[j] == id);
    }

    /// An empty store.
    pub fn new() -> (s: ResourceStore)
        ensures
            s.wf(),
            forall|id: u64| !(#[trigger] s.contains(id)),
    {
        ResourceStore { ids: Vec::new(), cells: Vec::new() }
    }

    /// Register a resource; its borrow state starts clear.  Every other
    /// resource is untouched.
    pub fn init_resource(&mut self, id: u64)
        requires
            old(self).wf(),
            !old(self).contains(id),
        ensures
            final(self).wf(),
            final(self).contains(id),
            final(self).cell_of(id).readers_out() == 0,
            !final(self).cell_of(id).writer_out(),
            forall|x: u64| x != id
                ==> (#[trigger] final(self).contains(x) <==> old(self).contains(x)),
            forall|x: u64| x != id && old(self).contains(x)
                ==> #[trigger] final(self).cell_of(x) == old(self).cell_of(x),
    {
        self.ids.push(id);
        self.cells.push(AccessCell::new());
        proof {
            let n = old(self).ids@.len() as int;
            crate::access::lemma_push_contains(old(self).ids@, id);
            assert forall|j: int, k: int|
                0 <= j < self.ids@.len() && 0 <= k < self.ids@.len()
                    && self.ids@[j] == self.ids@[k] implies j == k by {
                if j < n && k < n {
                    assert(old(self).ids@[j] == old(self).ids@[k]);
                } else if j < n && k == n {
                    assert(old(self).ids@.contains(old(self).ids@[j]));
                } else if j == n && k < n {
                    assert(old(self).ids@.contains(old(self).ids@[k]));
                }
            }
            assert(self.wf());
            assert(self.ids@[n] == id);
            self.lemma_slot_of_index(n);
            assert forall|x: u64| x != id && old(self).contains(x) implies
                #[trigger] final(self).cell_of(x) == old(self).cell_of(x) by {
                old(self).lemma_slot_valid(x);
                let j = old(self).slot(x);
                assert(self.ids@[j] == x);
                self.lemma_slot_of_index(j);
            }
            assert forall|x: u64| x != id implies
                (#[trigger] final(self).contains(x) <==> old(self).contains(x)) by {
                if self.contains(x) {
                    self.lemma_slot_valid(x);
                    let j = self.slot(x);
                    assert(j != n);
                    assert(old(self).ids@[j] == x);
                }
            }
        }
    }

    /// The slot a resource occupies, if any.
    fn find_slot(&self, id: u64) -> (res: Option<usize>)
        requires
            self.wf(),
        ensures
            match res {
                Some(i) => self.contains(id) && self.slot(id) == i as int
                    && (i as int) < self.ids@.len(),
                None => !self.contains(id),
            },
    {
        let mut j: usize = 0;
        while j < self.ids.len()
            invariant
                self.wf(),
                j <= self.ids@.len(),
                forall|k: int| 0 <= k < j ==> self.ids@[k] != id,
            decreases self.ids@.len() - j,
        {
            if self.ids[j] == id {
                proof {
                    self.lemma_slot_of_index(j as int);
                }
                return Some(j);
            }
            j += 1;
        }
        proof {
            if self.contains(id) {
                self.lemma_slot_valid(id);
            }
        }
        None
    }

    /// True when the resource was registered.
    pub fn has_resource(&self, id: u64) -> (b: bool)
        requires
            self.wf(),
        ensures
            b == self.contains(id),
    {
        match self.find_slot(id) {
            Some(_) => true,
            None => false,
        }
    }

    /// Replace one resource's borrow state, keeping every other resource.
    fn update_cell(&mut self, i: usize, c: AccessCell, Ghost(id): Ghost<u64>)
        requires
            old(self).wf(),
            old(self).contains(id),
            i as int == old(self).slot(id),
            c.wf(),
        ensures
            final(self).wf(),
            forall|x: u64|
                #[trigger] final(self).contains(x) <==> old(self).contains(x),
            final(self).cell_of(id) == c,
            forall|x: u64| x != id && old(self).contains(x)
                ==> #[trigger] final(self).cell_of(x) == old(self).cell_of(x),
    {
        proof {
            old(self).lemma_slot_valid(id);
        }
        self.cells[i] = c;
        proof {
            assert(self.ids@ == old(self).ids@);
            assert(self.cells@ == old(self).cells@.update(i as int, c));
            assert forall|x: u64| old(self).contains(x) implies
                final(self).slot(x) == old(self).slot(x) by {
                old(self).lemma_slot_valid(x);
            }
        }
    }

    /// Take a shared view of a resource; fails exactly while an exclusive
    /// view of it is outstanding.  No other resource's state changes.
    pub fn acquire_read(&mut self, id: u64) -> (res: Result<(), BorrowError>)
        requires
            old(self).wf(),
            old(self).contains(id),
            old(self).cell_of(id).readers_out() < usize::MAX,
        ensures
            final(self).wf(),
            forall|x: u64|
                #[trigger] final(self).contains(x) <==> old(self).contains(x),
            res is Ok <==> !old(self).cell_of(id).writer_out(),
            res is Ok ==> final(self).cell_of(id).readers_out()
                == old(self).cell_of(id).readers_out() + 1
                && !final(self).cell_of(id).writer_out(),
            res is Err ==> *final(self) == *old(self),
            forall|x: u64| x != id && old(self).contains(x)
                ==> #[trigger] final(self).cell_of(x) == old(self).cell_of(x),
    {
        proof {
            self.lemma_slot_valid(id);
        }
        let i = match self.find_slot(id) {
            Some(i) => i,
            None => {
                return Err(BorrowError::ExclusiveHeld);
            },
        };
        let mut c = self.cells[i];
        let r = c.try_read();
        match r {
            Ok(()) => {
                self.update_cell(i, c, Ghost(id));
                Ok(())
            },
            Err(e) => Err(e),
        }
    }

    /// Give a shared view of a resource back.
    pub fn release_read(&mut self, id: u64)
        requires
            old(self).wf(),
            old(self).contains(id),
            old(self).cell_of(id).readers_out() > 0,
        ensures
            final(self).wf(),
            forall|x: u64|
                #[trigger] final(self).contains(x) <==> old(self).contains(x),
            final(self).cell_of(id).readers_out()
                == old(self).cell_of(id).readers_out() - 1,
            final(self).cell_of(id).writer_out() == old(self).cell_of(id).writer_out(),
            forall|x: u64| x != id && old(self).contains(x)
                ==> #[trigger] final(self).cell_of(x) == old(self).cell_of(x),
    {
        proof {
            self.lemma_slot_valid(id);
        }
        let i = match self.find_slot(id) {
            Some(i) => i,
            None => {
                proof {
                    assert(false);
                }
                return;
            },
        };
        let mut c = self.cells[i];
        c.end_read();
        self.update_cell(i, c, Ghost(id));
    }

    /// Take the exclusive view of a resource; fails exactly while any view
    /// of it is outstanding.  No other resource's state changes.
    pub fn acquire_write(&mut self, id: u64) -> (res: Result<(), BorrowError>)
        requires
            old(self).wf(),
            old(self).contains(id),
        ensures
            final(self).wf(),
            forall|x: u64|
                #[trigger] final(self).contains(x) <==> old(self).contains(x),
            res is Ok <==> (!old(self).cell_of(id).writer_out()
                && old(self).cell_of(id).readers_out() == 0),
            res is Ok ==> final(self).cell_of(id).writer_out(),
            res is Err ==> *final(self) == *old(self),
            forall|x: u64| x != id && old(self).contains(x)
                ==> #[trigger] final(self).cell_of(x) == old(self).cell_of(x),
    {
        proof {
            self.lemma_slot_valid(id);
        }
        let i = match self.find_slot(id) {
            Some(i) => i,
            None => {
                return Err(BorrowError::ExclusiveHeld);
            },
        };
        let mut c = self.cells[i];
        let r = c.try_write();
        match r {
            Ok(()) => {
                self.update_cell(i, c, Ghost(id));
                Ok(())
            },
            Err(e) => Err(e),
        }
    }

    /// Give the exclusive view of a resource back.
    pub fn release_write(&mut self, id: u64)
        requires
            old(self).wf(),
            old(self).contains(id),
            old(self).cell_of(id).writer_out(),
        ensures
            final(self).wf(),
            forall|x: u64|
                #[trigger] final(self).contains(x) <==> old(self).contains(x),
            !final(self).cell_of(id).writer_out(),
            final(self).cell_of(id).readers_out() == old(self).cell_of(id).readers_out(),
            forall|x: u64| x != id && old(self).contains(x)
                ==> #[trigger] final(self).cell_of(x) == old(self).cell_of(x),
    {
        proof {
            self.lemma_slot_valid(id);
        }
        let i = match self.find_slot(id) {
            Some(i) => i,
            None => {
                proof {
                    assert(false);
                }
                return;
            },
        };
        let mut c = self.cells[i];
        c.end_write();
        self.update_cell(i, c, Ghost(id));
    }
}

/// Law: shared and exclusive views of one resource never coexist — whatever
/// sequence of store operations led here, a well-formed borrow state with an
/// exclusive view out has no shared view out.
pub proof fn lemma_borrow_exclusion(c: AccessCell)
    requires
        c.wf(),
        c.writer_out(),
    ensures
        c.readers_out() == 0,
{
}

} // verus!
