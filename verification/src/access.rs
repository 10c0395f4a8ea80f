//! Per-system access declarations.
//!
//! A [`SystemLock`] accumulates, at schedule-build time, the set of resources
//! one system intends to read or write.  Within one system the same resource
//! must never be declared with two incompatible modes (write excludes every
//! other access); an attempt to do so is refused at declaration time.

use vstd::prelude::*;

verus! {

/// The access intent a system may declare for one resource.
#[derive(Clone, Copy, PartialEq, Eq, Structural, Debug)]
pub enum AccessMode {
    Read,
    Write,
}

/// Whether a holder with mode `held` tolerates a second holder with mode
/// `wanted` on the same resource: only read may coexist with read.
pub open spec fn modes_coexist(held: AccessMode, wanted: AccessMode) -> bool {
    held is Read && wanted is Read
}

/// Refusal of a declaration that would conflict with one already recorded
/// for the same system.
#[derive(Clone, Copy, PartialEq, Eq, Structural, Debug)]
pub enum RegisterError {
    ConflictingAccess,
}

/// True when `v` holds `x`.
pub(crate) fn id_vec_contains(v: &Vec<u64>, x: u64) -> (b: bool)
    ensures
        b == v@.contains(x),
{
    let mut j: usize = 0;
    while j < v.len()
        invariant
            j <= v@.len(),
            forall|k: int| 0 <= k < j ==> v@[k] != x,
        decreases v@.len() - j,
    {
        if v[j] == x {
            assert(v@[j as int] == x);
            return true;
        }
        j += 1;
    }
    assert(!v@.contains(x));
    false
}

/// Appending one element to a sequence adds exactly it to the membership.
pub(crate) proof fn lemma_push_contains(s: Seq<u64>, v: u64)
    ensures
        forall|x: u64| #[trigger] s.push(v).contains(x) <==> (s.contains(x) || x == v),
{
    assert forall|x: u64| #[trigger] s.push(v).contains(x) implies (s.contains(x) || x == v) by {
        let i = choose|i: int| 0 <= i < s.push(v).len() && s.push(v)[i] == x;
        if i < s.len() {
            assert(s[i] == x);
        }
    }
    assert forall|x: u64| (s.contains(x) || x == v) implies #[trigger] s.push(v).contains(x) by {
        if s.contains(x) {
            let i = choose|i: int| 0 <= i < s.len() && s[i] == x;
            assert(s.push(v)[i] == x);
        } else {
            assert(s.push(v)[s.len() as int] == x);
        }
    }
}

/// One system's declared resource accesses.
pub struct SystemLock {
    reads: Vec<u64>,
    writes: Vec<u64>,
}

impl SystemLock {
    /// The system declared read access to resource `r`.
    pub closed spec fn declares_read(self, r: u64) -> bool {
        self.reads@.contains(r)
    }

    /// The system declared write access to resource `r`.
    pub closed spec fn declares_write(self, r: u64) -> bool {
        self.writes@.contains(r)
    }

    /// The system declared some access to resource `r`.
    pub open spec fn declares(self, r: u64) -> bool {
        self.declares_read(r) || self.declares_write(r)
    }

    /// No resource is declared with two incompatible modes.
    pub open spec fn wf(self) -> bool {
        forall|r: u64| !(#[trigger] self.declares_read(r) && self.declares_write(r))
    }

    /// Registering read access to `r` is accepted on a set `l` of declarations.
    pub open spec fn read_allowed(l: SystemLock, r: u64) -> bool {
        !l.declares_write(r)
    }

    /// Registering write access to `r` is accepted on a set `l` of declarations.
    pub open spec fn write_allowed(l: SystemLock, r: u64) -> bool {
        !l.declares_read(r) && !l.declares_write(r)
    }

    /// An empty declaration set.
    pub fn new() -> (l: SystemLock)
        ensures
            l.wf(),
            forall|r: u64| !(#[trigger] l.declares_read(r)),
            forall|r: u64| !(#[trigger] l.declares_write(r)),
    {
        SystemLock { reads: Vec::new(), writes: Vec::new() }
    }

    /// Record that this system reads resource `r`; refused exactly when the
    /// same system already declared a write of `r`.
    pub fn register_resource_read(&mut self, r: u64) -> (res: Result<(), RegisterError>)
        ensures
            old(self).wf() ==> final(self).wf(),
            res is Ok <==> Self::read_allowed(*old(self), r),
            res is Ok ==> forall|x: u64|
                #[trigger] final(self).declares_read(x)
                    <==> (old(self).declares_read(x) || x == r),
            res is Ok ==> forall|x: u64|
                #[trigger] final(self).declares_write(x) <==> old(self).declares_write(x),
            res is Err ==> *final(self) == *old(self),
    {
        if id_vec_contains(&self.writes, r) {
            Err(RegisterError::ConflictingAccess)
        } else {
            self.reads.push(r);
            proof {
                lemma_push_contains(old(self).reads@, r);
                if old(self).wf() {
                    assert forall|x: u64|
                        !(#[trigger] self.declares_read(x) && self.declares_write(x)) by {
                        if self.declares_read(x) && self.declares_write(x) {
                            assert(old(self).reads@.push(r).contains(x));
                            assert(old(self).declares_read(x) || x == r);
                            assert(!(old(self).declares_read(x) && old(self).declares_write(x)));
                        }
                    }
                }
            }
            Ok(())
        }
    }

    /// Record that this system writes resource `r`; refused exactly when the
    /// same system already declared any access to `r`.
    pub fn register_resource_write(&mut self, r: u64) -> (res: Result<(), RegisterError>)
        ensures
            old(self).wf() ==> final(self).wf(),
            res is Ok <==> Self::write_allowed(*old(self), r),
            res is Ok ==> forall|x: u64|
                #[trigger] final(self).declares_write(x)
                    <==> (old(self).declares_write(x) || x == r),
            res is Ok ==> forall|x: u64|
                #[trigger] final(self).declares_read(x) <==> old(self).declares_read(x),
            res is Err ==> *final(self) == *old(self),
    {
        if id_vec_contains(&self.reads, r) || id_vec_contains(&self.writes, r) {
            Err(RegisterError::ConflictingAccess)
        } else {
            self.writes.push(r);
            proof {
                lemma_push_contains(old(self).writes@, r);
                if old(self).wf() {
                    assert forall|x: u64|
                        !(#[trigger] self.declares_read(x) && self.declares_write(x)) by {
                        if self.declares_read(x) && self.declares_write(x) {
                            assert(old(self).writes@.push(r).contains(x));
                            assert(old(self).declares_write(x) || x == r);
                            assert(!(old(self).declares_read(x) && old(self).declares_write(x)));
                        }
                    }
                }
            }
            Ok(())
        }
    }

    /// The system declared access to resource `r` with mode `m`.
    pub open spec fn declares_mode(self, m: AccessMode, r: u64) -> bool {
        match m {
            AccessMode::Read => self.declares_read(r),
            AccessMode::Write => self.declares_write(r),
        }
    }

    /// Record an access of the given mode; refused exactly when the new
    /// mode cannot coexist with one already declared for `r`.
    pub fn register_resource(&mut self, m: AccessMode, r: u64) -> (res: Result<
        (),
        RegisterError,
    >)
        ensures
            old(self).wf() ==> final(self).wf(),
            m is Read ==> (res is Ok <==> Self::read_allowed(*old(self), r)),
            m is Write ==> (res is Ok <==> Self::write_allowed(*old(self), r)),
            res is Ok ==> forall|x: u64|
                #[trigger] final(self).declares_read(x)
                    <==> (old(self).declares_read(x) || (m is Read && x == r)),
            res is Ok ==> forall|x: u64|
                #[trigger] final(self).declares_write(x)
                    <==> (old(self).declares_write(x) || (m is Write && x == r)),
            res is Err ==> *final(self) == *old(self),
    {
        match m {
            AccessMode::Read => self.register_resource_read(r),
            AccessMode::Write => self.register_resource_write(r),
        }
    }

    /// True when `self` reads resource `r`.
    pub fn reads_resource(&self, r: u64) -> (b: bool)
        ensures
            b == self.declares_read(r),
    {
        id_vec_contains(&self.reads, r)
    }

    /// True when `self` writes resource `r`.
    pub fn writes_resource(&self, r: u64) -> (b: bool)
        ensures
            b == self.declares_write(r),
    {
        id_vec_contains(&self.writes, r)
    }
}

/// Two systems' declaration sets may hold access at the same time: neither
/// writes a resource the other touches.
pub open spec fn locks_compatible(a: SystemLock, b: SystemLock) -> bool {
    (forall|r: u64| #[trigger] a.declares_write(r) ==> !b.declares(r))
        && (forall|r: u64| #[trigger] b.declares_write(r) ==> !a.declares(r))
}

impl SystemLock {
    /// Decide whether `self` and `other` may hold access at the same time.
    pub fn compatible_with(&self, other: &SystemLock) -> (b: bool)
        ensures
            b == locks_compatible(*self, *other),
    {
        let mut j: usize = 0;
        while j < self.writes.len()
            invariant
                j <= self.writes@.len(),
                forall|k: int| 0 <= k < j ==> !other.declares(#[trigger] self.writes@[k]),
            decreases self.writes@.len() - j,
        {
            let w = self.writes[j];
            if id_vec_contains(&other.reads, w) || id_vec_contains(&other.writes, w) {
                assert(self.declares_write(w));
                assert(!locks_compatible(*self, *other));
                return false;
            }
            j += 1;
        }
        let mut k: usize = 0;
        while k < other.writes.len()
            invariant
                k <= other.writes@.len(),
                forall|i: int| 0 <= i < k ==> !self.declares(#[trigger] other.writes@[i]),
                forall|i: int| 0 <= i < self.writes@.len()
                    ==> !other.declares(#[trigger] self.writes@[i]),
            decreases other.writes@.len() - k,
        {
            let w = other.writes[k];
            if id_vec_contains(&self.reads, w) || id_vec_contains(&self.writes, w) {
                assert(other.declares_write(w));
                assert(!locks_compatible(*self, *other));
                return false;
            }
            k += 1;
        }
        assert forall|r: u64| #[trigger] self.declares_write(r) implies !other.declares(r) by {
            let i = choose|i: int| 0 <= i < self.writes@.len() && self.writes@[i] == r;
            assert(!other.declares(self.writes@[i]));
        }
        assert forall|r: u64| #[trigger] other.declares_write(r) implies !self.declares(r) by {
            let i = choose|i: int| 0 <= i < other.writes@.len() && other.writes@[i] == r;
            assert(!self.declares(other.writes@[i]));
        }
        true
    }
}

/// Law: two declaration sets are compatible exactly when, on every resource
/// both touch, the two declared modes may coexist — write access is
/// exclusive against any other access, read coexists with read.
pub proof fn lemma_compatible_means_modes_coexist(a: SystemLock, b: SystemLock)
    ensures
        locks_compatible(a, b) <==> (forall|r: u64, ma: AccessMode, mb: AccessMode|
            #[trigger] a.declares_mode(ma, r) && #[trigger] b.declares_mode(mb, r)
                ==> modes_coexist(ma, mb)),
{
    if locks_compatible(a, b) {
        assert forall|r: u64, ma: AccessMode, mb: AccessMode|
            #[trigger] a.declares_mode(ma, r) && #[trigger] b.declares_mode(mb, r)
                implies modes_coexist(ma, mb) by {
            if ma is Write {
                assert(a.declares_write(r));
                assert(!b.declares(r));
            } else if mb is Write {
                assert(b.declares_write(r));
                assert(!a.declares(r));
            }
        }
    }
    if forall|r: u64, ma: AccessMode, mb: AccessMode|
        #[trigger] a.declares_mode(ma, r) && #[trigger] b.declares_mode(mb, r)
            ==> modes_coexist(ma, mb) {
        assert forall|r: u64| #[trigger] a.declares_write(r) implies !b.declares(r) by {
            if b.declares_read(r) {
                assert(a.declares_mode(AccessMode::Write, r));
                assert(b.declares_mode(AccessMode::Read, r));
                assert(modes_coexist(AccessMode::Write, AccessMode::Read));
            }
            if b.declares_write(r) {
                assert(a.declares_mode(AccessMode::Write, r));
                assert(b.declares_mode(AccessMode::Write, r));
                assert(modes_coexist(AccessMode::Write, AccessMode::Write));
            }
        }
        assert forall|r: u64| #[trigger] b.declares_write(r) implies !a.declares(r) by {
            if a.declares_read(r) {
                assert(a.declares_mode(AccessMode::Read, r));
                assert(b.declares_mode(AccessMode::Write, r));
                assert(modes_coexist(AccessMode::Read, AccessMode::Write));
            }
            if a.declares_write(r) {
                assert(a.declares_mode(AccessMode::Write, r));
                assert(b.declares_mode(AccessMode::Write, r));
                assert(modes_coexist(AccessMode::Write, AccessMode::Write));
            }
        }
    }
}

/// Compatibility of two declaration sets does not depend on their order.
pub proof fn lemma_locks_compatible_sym(a: SystemLock, b: SystemLock)
    ensures
        locks_compatible(a, b) == locks_compatible(b, a),
{
}

/// Law: a well-formed declaration set never holds both read and write of the
/// same resource, and the registration that would complete such a pair is the
/// one that gets refused — the conflict surfaces when the declarations are
/// built, never later, at lock-acquisition time.
pub proof fn lemma_conflicting_declaration_refused(l: SystemLock, r: u64)
    requires
        l.wf(),
    ensures
        !(l.declares_read(r) && l.declares_write(r)),
        l.declares_read(r) ==> !SystemLock::write_allowed(l, r),
        l.declares_write(r) ==> !SystemLock::read_allowed(l, r),
        l.declares_write(r) ==> !SystemLock::write_allowed(l, r),
{
}

} // verus!
