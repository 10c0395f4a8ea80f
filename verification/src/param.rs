//! Declarative resource dependencies.
//!
//! A [`Param`] type describes, at schedule-build time, which resources a
//! system needs and with which access mode, and knows how to fetch an owned
//! representation from the resource store at run time.  Composite params
//! (pairs of params) thread declaration and fetching across their members in
//! order; the unit param is the identity, for a system with no dependencies.

use vstd::prelude::*;

use crate::access::SystemLock;
use crate::store::ResourceStore;

verus! {

/// A declarative resource dependency of a system.
pub trait Param: Sized {
    /// The owned representation fetched from the store.
    type Owned;

    /// The param declares read access to resource `r`.
    spec fn param_reads(r: u64) -> bool;

    /// The param declares write access to resource `r`.
    spec fn param_writes(r: u64) -> bool;

    /// Declaring this param on top of the accumulated declarations `l`
    /// raises no conflict.
    spec fn init_ok(l: SystemLock) -> bool;

    /// The store holds everything this param fetches.
    spec fn ready(world: ResourceStore) -> bool;

    /// Record this param's {resource, mode} pairs in the system's
    /// declaration accumulator.  Declaring a conflict with what a different
    /// param of the same system already recorded is a build-time contract
    /// violation, excluded here by `init_ok`.
    fn init(rw: &mut SystemLock)
        requires
            old(rw).wf(),
            Self::init_ok(*old(rw)),
        ensures
            final(rw).wf(),
            forall|r: u64| #[trigger] final(rw).declares_read(r)
                <==> (old(rw).declares_read(r) || Self::param_reads(r)),
            forall|r: u64| #[trigger] final(rw).declares_write(r)
                <==> (old(rw).declares_write(r) || Self::param_writes(r)),
    ;

    /// Fetch the owned representation from the store.
    fn get(world: &ResourceStore) -> Self::Owned
        requires
            world.wf(),
            Self::ready(*world),
    ;
}

impl Param for () {
    type Owned = ();

    open spec fn param_reads(r: u64) -> bool {
        false
    }

    open spec fn param_writes(r: u64) -> bool {
        false
    }

    open spec fn init_ok(l: SystemLock) -> bool {
        true
    }

    open spec fn ready(world: ResourceStore) -> bool {
        true
    }

    fn init(rw: &mut SystemLock) {
    }

    fn get(world: &ResourceStore) -> Self::Owned {
    }
}

/// A read view of the resource with id `RID`: a witness that the system
/// declared read access and that the store holds the resource.
pub struct Res<const RID: u64>;

impl<const RID: u64> Res<RID> {
    /// The id of the resource this param reads.
    pub open spec fn resource_id() -> u64 {
        RID
    }
}

impl<const RID: u64> Param for Res<RID> {
    type Owned = Res<RID>;

    open spec fn param_reads(r: u64) -> bool {
        r == RID
    }

    open spec fn param_writes(r: u64) -> bool {
        false
    }

    open spec fn init_ok(l: SystemLock) -> bool {
        !l.declares_write(RID)
    }

    open spec fn ready(world: ResourceStore) -> bool {
        world.contains(RID)
    }

    fn init(rw: &mut SystemLock) {
        let res = rw.register_resource_read(RID);
        proof {
            assert(res is Ok);
        }
    }

    fn get(world: &ResourceStore) -> Self::Owned {
        Res
    }
}

impl<A: Param, B: Param> Param for (A, B) {
    type Owned = (A::Owned, B::Owned);

    open spec fn param_reads(r: u64) -> bool {
        A::param_reads(r) || B::param_reads(r)
    }

    open spec fn param_writes(r: u64) -> bool {
        A::param_writes(r) || B::param_writes(r)
    }

    open spec fn init_ok(l: SystemLock) -> bool {
        A::init_ok(l) && (forall|l2: SystemLock|
            l2.wf()
                && (forall|r: u64| #[trigger] l2.declares_read(r)
                    <==> (l.declares_read(r) || A::param_reads(r)))
                && (forall|r: u64| #[trigger] l2.declares_write(r)
                    <==> (l.declares_write(r) || A::param_writes(r)))
                ==> #[trigger] B::init_ok(l2))
    }

    open spec fn ready(world: ResourceStore) -> bool {
        A::ready(world) && B::ready(world)
    }

    fn init(rw: &mut SystemLock) {
        A::init(rw);
        proof {
            assert(B::init_ok(*rw));
        }
        B::init(rw);
    }

    fn get(world: &ResourceStore) -> Self::Owned {
        (A::get(world), B::get(world))
    }
}

} // verus!
