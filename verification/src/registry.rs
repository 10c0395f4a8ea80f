//! The resource lock registry.
//!
//! One entry per registered system records its declared accesses and whether
//! the system currently holds them.  `try_lock` grants a system all of its
//! declared accesses atomically, exactly when no other current holder
//! conflicts with them; `release` gives a system's accesses back.  The
//! registry's invariant is the scheduler's safety property: no two holders
//! ever conflict, so a write access is exclusive against every other access
//! to the same resource.

use vstd::prelude::*;

use crate::access::SystemLock;
use crate::access::locks_compatible;
use crate::access::id_vec_contains;

verus! {

/// Outcome of a failed lock attempt.
#[derive(Clone, Copy, PartialEq, Eq, Structural, Debug)]
pub enum WorldSystemLockError {
    /// The system's declarations were never recorded: a build-time defect.
    NotRegistered,
    /// Some declared resource is currently held in a conflicting mode; the
    /// caller should retry after a release.  Expected backpressure, not a
    /// failure.
    InvalidAccess,
}

/// Per-system lock state: declarations plus a held flag, one slot per system.
pub struct LockRegistry {
    ids: Vec<u64>,
    locks: Vec<SystemLock>,
    held: Vec<bool>,
}

impl LockRegistry {
    /// Number of registered systems.
    pub closed spec fn slots(self) -> int {
        self.ids@.len() as int
    }

    /// The slot a system occupies.
    pub closed spec fn slot(self, id: u64) -> int {
        choose|j: int| 0 <= j < self.ids@.len() && self.ids@[j] == id
    }

    /// The system's declarations were recorded.
    pub closed spec fn is_registered(self, id: u64) -> bool {
        self.ids@.contains(id)
    }

    /// The declarations recorded for a registered system.
    pub closed spec fn decl(self, id: u64) -> SystemLock {
        self.locks@[self.slot(id)]
    }

    /// The system currently holds its declared accesses.
    pub closed spec fn holds(self, id: u64) -> bool {
        self.is_registered(id) && self.held@[self.slot(id)]
    }

    /// A registered system declared read access to resource `r`.
    pub open spec fn reg_reads(self, id: u64, r: u64) -> bool {
        self.is_registered(id) && self.decl(id).declares_read(r)
    }

    /// A registered system declared write access to resource `r`.
    pub open spec fn reg_writes(self, id: u64, r: u64) -> bool {
        self.is_registered(id) && self.decl(id).declares_write(r)
    }

    /// The registry invariant: slots are consistent, ids unique, every
    /// declaration set well formed, and no two current holders conflict.
    pub closed spec fn wf(self) -> bool {
        &&& self.locks@.len() == self.ids@.len()
        &&& self.held@.len() == self.ids@.len()
        &&& (forall|j: int, k: int|
            0 <= j < self.ids@.len() && 0 <= k < self.ids@.len()
                && self.ids@[j] == self.ids@[k] ==> j == k)
        &&& (forall|j: int| 0 <= j < self.ids@.len() ==> (#[trigger] self.locks@[j]).wf())
        &&& (forall|j: int, k: int|
            0 <= j < self.ids@.len() && 0 <= k < self.ids@.len() && j != k
                && self.held@[j] && self.held@[k]
                ==> locks_compatible(#[trigger] self.locks@[j], #[trigger] self.locks@[k]))
    }

    /// Granting `id` its accesses now would conflict with no current holder.
    pub open spec fn can_lock(self, id: u64) -> bool {
        forall|h: u64|
            #[trigger] self.holds(h) && h != id
                ==> locks_compatible(self.decl(h), self.decl(id))
    }

    /// The slot of a valid index is that index.
    proof fn lemma_slot_of_index(self, j: int)
        requires
            self.wf(),
            0 <= j < self.slots(),
        ensures
            self.is_registered(self.ids@[j]),
            self.slot(self.ids@[j]) == j,
    {
        assert(self.ids@.contains(self.ids@[j]));
        let k = self.slot(self.ids@[j]);
        assert(self.ids@[k] == self.ids@[j]);
    }

    /// A registered system occupies a valid slot carrying its id.
    proof fn lemma_slot_valid(self, id: u64)
        requires
            self.is_registered(id),
        ensures
            0 <= self.slot(id) < self.slots(),
            self.ids@[self.slot(id)] == id,
    {
        let j = choose|j: int| 0 <= j < self.ids@.len() && self.ids@[j] == id;
        assert(self.ids@[j] == id);
    }

    /// An empty registry.
    pub fn new() -> (reg: LockRegistry)
        ensures
            reg.wf(),
            forall|id: u64| !(#[trigger] reg.is_registered(id)),
            forall|id: u64| !(#[trigger] reg.holds(id)),
    {
        LockRegistry { ids: Vec::new(), locks: Vec::new(), held: Vec::new() }
    }

    /// Record a system's declarations; the new system holds nothing yet and
    /// every other system's state is untouched.
    pub fn register(&mut self, id: u64, lock: SystemLock)
        requires
            old(self).wf(),
            lock.wf(),
            !old(self).is_registered(id),
        ensures
            final(self).wf(),
            final(self).is_registered(id),
            final(self).decl(id) == lock,
            !final(self).holds(id),
            forall|x: u64| x != id
                ==> (#[trigger] final(self).is_registered(x) <==> old(self).is_registered(x)),
            forall|x: u64| x != id && old(self).is_registered(x)
                ==> #[trigger] final(self).decl(x) == old(self).decl(x),
            forall|x: u64| x != id
                ==> (#[trigger] final(self).holds(x) <==> old(self).holds(x)),
    {
        self.ids.push(id);
        self.locks.push(lock);
        self.held.push(false);
        proof {
            let n = old(self).ids@.len() as int;
            crate::access::lemma_push_contains(old(self).ids@, id);
            assert forall|j: int, k: int|
                0 <= j < self.ids@.len() && 0 <= k < self.ids@.len()
                    && self.ids@[j] == self.ids@[k] implies j == k by {
                if j < n && k < n {
                    assert(old(self).ids@[j] == old(self).ids@[k]);
                } else if j < n && k == n {
                    assert(old(self).ids@.contains(old(self).ids@[j]));
                } else if j == n && k < n {
                    assert(old(self).ids@.contains(old(self).ids@[k]));
                }
            }
            assert(self.wf());
            assert(self.ids@[n] == id);
            self.lemma_slot_of_index(n);
            assert forall|x: u64| x != id && old(self).is_registered(x) implies
                #[trigger] final(self).decl(x) == old(self).decl(x)
                    && (final(self).holds(x) <==> old(self).holds(x)) by {
                old(self).lemma_slot_valid(x);
                let j = old(self).slot(x);
                assert(self.ids@[j] == x);
                self.lemma_slot_of_index(j);
            }
            assert forall|x: u64| x != id implies
                (#[trigger] final(self).is_registered(x) <==> old(self).is_registered(x)) by {
                if self.is_registered(x) {
                    self.lemma_slot_valid(x);
                    let j = self.slot(x);
                    assert(j != n);
                    assert(old(self).ids@[j] == x);
                }
            }
        }
    }

    /// The slot a system occupies, if any.
    fn find_slot(&self, id: u64) -> (res: Option<usize>)
        requires
            self.wf(),
        ensures
            match res {
                Some(i) => self.is_registered(id) && self.slot(id) == i as int
                    && (i as int) < self.slots(),
                None => !self.is_registered(id),
            },
    {
        let mut j: usize = 0;
        while j < self.ids.len()
            invariant
                self.wf(),
                j <= self.ids@.len(),
                forall|k: int| 0 <= k < j ==> self.ids@[k] != id,
            decreases self.ids@.len() - j,
        {
            if self.ids[j] == id {
                proof {
                    self.lemma_slot_of_index(j as int);
                }
                return Some(j);
            }
            j += 1;
        }
        proof {
            if self.is_registered(id) {
                self.lemma_slot_valid(id);
            }
        }
        None
    }

    /// Both registries record the same systems with the same declarations.
    pub open spec fn same_decls(a: LockRegistry, b: LockRegistry) -> bool {
        &&& (forall|id: u64| #[trigger] a.is_registered(id) ==> b.is_registered(id))
        &&& (forall|id: u64| #[trigger] b.is_registered(id) ==> a.is_registered(id))
        &&& (forall|id: u64| #[trigger] a.is_registered(id) ==> a.decl(id) == b.decl(id))
    }

    /// `after` is `before` with exactly `id`'s accesses given back.
    pub open spec fn release_transition(before: LockRegistry, after: LockRegistry, id: u64)
        -> bool {
        &&& Self::same_decls(before, after)
        &&& !after.holds(id)
        &&& (forall|x: u64| x != id
            ==> (#[trigger] after.holds(x) <==> before.holds(x)))
    }

    /// Try to grant `id` every access it declared, atomically.  Succeeds
    /// exactly when the system is registered and no current holder conflicts
    /// with it; on success only `id`'s held state changes.
    pub fn try_lock(&mut self, id: u64) -> (res: Result<(), WorldSystemLockError>)
        requires
            old(self).wf(),
        ensures
            final(self).wf(),
            Self::same_decls(*old(self), *final(self)),
            res is Ok <==> (old(self).is_registered(id) && old(self).can_lock(id)),
            !old(self).is_registered(id)
                ==> res == Err::<(), WorldSystemLockError>(WorldSystemLockError::NotRegistered),
            old(self).is_registered(id) && !old(self).can_lock(id)
                ==> res == Err::<(), WorldSystemLockError>(WorldSystemLockError::InvalidAccess),
            res is Ok ==> final(self).holds(id),
            res is Err ==> *final(self) == *old(self),
            forall|x: u64| x != id
                ==> (#[trigger] final(self).holds(x) <==> old(self).holds(x)),
    {
        let i = match self.find_slot(id) {
            Some(i) => i,
            None => {
                return Err(WorldSystemLockError::NotRegistered);
            },
        };
        let mut j: usize = 0;
        while j < self.ids.len()
            invariant
                self.wf(),
                *self == *old(self),
                i as int == self.slot(id),
                0 <= i as int && (i as int) < self.slots(),
                self.is_registered(id),
                j <= self.ids@.len(),
                forall|k: int|
                    0 <= k < j && k != i as int && self.held@[k]
                        ==> locks_compatible(#[trigger] self.locks@[k], self.locks@[i as int]),
            decreases self.ids@.len() - j,
        {
            if j != i && self.held[j] {
                if !self.locks[j].compatible_with(&self.locks[i]) {
                    proof {
                        self.lemma_slot_of_index(j as int);
                        assert(self.holds(self.ids@[j as int]));
                        assert(self.ids@[j as int] != id);
                        assert(!locks_compatible(
                            self.decl(self.ids@[j as int]), self.decl(id)));
                        assert(!self.can_lock(id));
                    }
                    return Err(WorldSystemLockError::InvalidAccess);
                }
            }
            j += 1;
        }
        proof {
            assert forall|h: u64| #[trigger] self.holds(h) && h != id implies
                locks_compatible(self.decl(h), self.decl(id)) by {
                self.lemma_slot_valid(h);
                let k = self.slot(h);
                self.lemma_slot_of_index(k);
                assert(self.held@[k]);
                assert(k != i as int);
            }
            assert(self.can_lock(id));
        }
        self.held[i] = true;
        proof {
            let n = old(self).ids@.len() as int;
            assert(self.held@ == old(self).held@.update(i as int, true));
            assert forall|j2: int, k: int|
                0 <= j2 < self.ids@.len() && 0 <= k < self.ids@.len() && j2 != k
                    && self.held@[j2] && self.held@[k]
                    implies locks_compatible(#[trigger] self.locks@[j2], #[trigger] self.locks@[k])
                by {
                if j2 == i as int {
                    old(self).lemma_slot_of_index(k);
                    if old(self).held@[k] {
                        assert(old(self).holds(old(self).ids@[k]));
                        assert(locks_compatible(
                            old(self).decl(old(self).ids@[k]), old(self).decl(id)));
                        crate::access::lemma_locks_compatible_sym(
                            old(self).locks@[k], old(self).locks@[i as int]);
                    }
                } else if k == i as int {
                    old(self).lemma_slot_of_index(j2);
                    if old(self).held@[j2] {
                        assert(old(self).holds(old(self).ids@[j2]));
                        assert(locks_compatible(
                            old(self).decl(old(self).ids@[j2]), old(self).decl(id)));
                    }
                }
            }
            assert(self.wf());
            assert forall|x: u64| x != id implies
                (#[trigger] final(self).holds(x) <==> old(self).holds(x)) by {
                if old(self).is_registered(x) {
                    old(self).lemma_slot_valid(x);
                    let k = old(self).slot(x);
                    self.lemma_slot_of_index(k);
                    assert(k != i as int);
                }
            }
            assert forall|x: u64| old(self).is_registered(x) implies
                #[trigger] old(self).decl(x) == #[trigger] final(self).decl(x) by {
                old(self).lemma_slot_valid(x);
                self.lemma_slot_of_index(old(self).slot(x));
            }
            assert(final(self).holds(id));
        }
        Ok(())
    }

    /// Give back every access `id` holds; a no-op for a system holding
    /// nothing, including one never registered.
    pub fn release(&mut self, id: u64)
        requires
            old(self).wf(),
        ensures
            final(self).wf(),
            Self::same_decls(*old(self), *final(self)),
            Self::release_transition(*old(self), *final(self), id),
    {
        let i = match self.find_slot(id) {
            Some(i) => i,
            None => {
                return;
            },
        };
        self.held[i] = false;
        proof {
            assert(self.held@ == old(self).held@.update(i as int, false));
            assert forall|j2: int, k: int|
                0 <= j2 < self.ids@.len() && 0 <= k < self.ids@.len() && j2 != k
                    && self.held@[j2] && self.held@[k]
                    implies locks_compatible(#[trigger] self.locks@[j2], #[trigger] self.locks@[k])
                by {
                assert(old(self).held@[j2] && old(self).held@[k]);
            }
            assert(self.wf());
            assert forall|x: u64| x != id implies
                (#[trigger] final(self).holds(x) <==> old(self).holds(x)) by {
                if old(self).is_registered(x) {
                    old(self).lemma_slot_valid(x);
                    let k = old(self).slot(x);
                    self.lemma_slot_of_index(k);
                    assert(k != i as int);
                }
            }
            assert forall|x: u64| old(self).is_registered(x) implies
                #[trigger] old(self).decl(x) == #[trigger] final(self).decl(x) by {
                old(self).lemma_slot_valid(x);
                self.lemma_slot_of_index(old(self).slot(x));
            }
            assert(!final(self).holds(id));
        }
    }

    /// True when the system currently holds its accesses.
    pub fn is_held(&self, id: u64) -> (b: bool)
        requires
            self.wf(),
        ensures
            b == self.holds(id),
    {
        match self.find_slot(id) {
            Some(i) => self.held[i],
            None => false,
        }
    }
}

/// Recording the same declarations is transitive.
pub proof fn lemma_same_decls_trans(a: LockRegistry, b: LockRegistry, c: LockRegistry)
    requires
        LockRegistry::same_decls(a, b),
        LockRegistry::same_decls(b, c),
    ensures
        LockRegistry::same_decls(a, c),
{
    assert forall|id: u64| #[trigger] a.is_registered(id) implies a.decl(id) == c.decl(id) by {
        assert(b.is_registered(id));
        assert(a.decl(id) == b.decl(id));
        assert(b.decl(id) == c.decl(id));
    }
}

/// Law: the registry never reports two systems holding access when one of
/// them writes a resource the other touches.  In particular two systems
/// declaring a write of the same resource never hold access simultaneously.
pub proof fn lemma_write_exclusion(reg: LockRegistry, a: u64, b: u64, r: u64)
    requires
        reg.wf(),
        a != b,
        reg.holds(a),
        reg.holds(b),
        reg.reg_writes(a, r),
    ensures
        !reg.reg_writes(b, r),
        !reg.reg_reads(b, r),
{
    reg.lemma_slot_valid(a);
    reg.lemma_slot_valid(b);
    let ja = reg.slot(a);
    let jb = reg.slot(b);
    assert(ja != jb);
    assert(locks_compatible(reg.decl(a), reg.decl(b)));
    assert(reg.decl(a).declares_write(r));
}

/// Law: a pure-read request is never refused while only readers hold access:
/// if the requesting system declares no write and no current holder declares
/// a write, the registry grants the request.
pub proof fn lemma_readers_coexist(reg: LockRegistry, id: u64)
    requires
        reg.wf(),
        reg.is_registered(id),
        forall|r: u64| !(#[trigger] reg.reg_writes(id, r)),
        forall|h: u64, r: u64| reg.holds(h) ==> !(#[trigger] reg.reg_writes(h, r)),
    ensures
        reg.can_lock(id),
{
    assert forall|h: u64| #[trigger] reg.holds(h) && h != id implies
        locks_compatible(reg.decl(h), reg.decl(id)) by {
        assert forall|r: u64| #[trigger] reg.decl(h).declares_write(r) implies
            !reg.decl(id).declares(r) by {
            assert(reg.reg_writes(h, r));
        }
        assert forall|r: u64| #[trigger] reg.decl(id).declares_write(r) implies
            !reg.decl(h).declares(r) by {
            assert(reg.reg_writes(id, r));
        }
    }
}

/// Law: a grant only gets harder as holders are added.  If two registries
/// record the same declarations and the first's holders are among the
/// second's, anything the second would grant the first would grant too.
pub proof fn lemma_can_lock_antimono(r1: LockRegistry, r2: LockRegistry, id: u64)
    requires
        LockRegistry::same_decls(r1, r2),
        forall|x: u64| #[trigger] r1.holds(x) ==> r2.holds(x),
        r1.is_registered(id),
        r2.can_lock(id),
    ensures
        r1.can_lock(id),
{
    assert forall|h: u64| #[trigger] r1.holds(h) && h != id implies
        locks_compatible(r1.decl(h), r1.decl(id)) by {
        assert(r2.holds(h));
        assert(r1.is_registered(h));
        assert(r1.decl(h) == r2.decl(h));
        assert(r1.decl(id) == r2.decl(id));
        assert(locks_compatible(r2.decl(h), r2.decl(id)));
    }
}

/// Law: releasing one system's locks frees exactly its own declared
/// resources.  It never blocks a request that was grantable before, and it
/// never unblocks a request whose conflict lay with some other, still-held
/// system.
pub proof fn lemma_release_isolation(
    before: LockRegistry,
    after: LockRegistry,
    released: u64,
    requester: u64,
)
    requires
        LockRegistry::release_transition(before, after, released),
        requester != released,
        before.is_registered(requester),
    ensures
        before.can_lock(requester) ==> after.can_lock(requester),
        !before.can_lock(requester)
            && locks_compatible(before.decl(released), before.decl(requester))
            ==> !after.can_lock(requester),
{
    assert(after.decl(requester) == before.decl(requester));
    if before.can_lock(requester) {
        assert forall|h: u64| #[trigger] after.holds(h) && h != requester implies
            locks_compatible(after.decl(h), after.decl(requester)) by {
            assert(h != released);
            assert(before.holds(h));
            assert(before.is_registered(h));
            assert(after.decl(h) == before.decl(h));
            assert(locks_compatible(before.decl(h), before.decl(requester)));
        }
    }
    if !before.can_lock(requester)
        && locks_compatible(before.decl(released), before.decl(requester)) {
        let h = choose|h: u64|
            #[trigger] before.holds(h) && h != requester
                && !locks_compatible(before.decl(h), before.decl(requester));
        assert(before.holds(h) && h != requester
            && !locks_compatible(before.decl(h), before.decl(requester)));
        assert(h != released);
        assert(after.holds(h));
        assert(before.is_registered(h));
        assert(after.decl(h) == before.decl(h));
        assert(!locks_compatible(after.decl(h), after.decl(requester)));
        assert(!after.can_lock(requester));
    }
}

} // verus!
