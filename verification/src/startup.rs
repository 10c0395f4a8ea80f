//! The startup phase and its invoker.
//!
//! Systems are registered into the phase at build time.  At invocation the
//! phase's bookkeeping is taken out of the world (so a phase cannot be
//! invoked re-entrantly) and an invoker drains the pending queue: every scan
//! moves each pending system whose locks can all be acquired into the
//! running set, and every completion releases that system's locks and
//! re-scans, since a release may have freed resources other pending systems
//! were waiting for.  The executor that actually drives the spawned work
//! lives outside this core; it reports each completion back by id.

use vstd::prelude::*;

use crate::access::lemma_push_contains;
use crate::registry::LockRegistry;
use crate::registry::lemma_can_lock_antimono;
use crate::registry::lemma_same_decls_trans;
use crate::registry::lemma_write_exclusion;

verus! {

/// Membership of the concatenation of two sequences.
pub(crate) proof fn lemma_add_contains(a: Seq<u64>, b: Seq<u64>)
    ensures
        forall|x: u64| #[trigger] (a + b).contains(x) <==> (a.contains(x) || b.contains(x)),
{
    assert forall|x: u64| #[trigger] (a + b).contains(x) implies (a.contains(x) || b.contains(x))
        by {
        let i = choose|i: int| 0 <= i < (a + b).len() && (a + b)[i] == x;
        if i < a.len() {
            assert(a[i] == x);
        } else {
            assert(b[i - a.len()] == x);
        }
    }
    assert forall|x: u64| (a.contains(x) || b.contains(x)) implies #[trigger] (a + b).contains(x)
        by {
        if a.contains(x) {
            let i = choose|i: int| 0 <= i < a.len() && a[i] == x;
            assert((a + b)[i] == x);
        } else {
            let i = choose|i: int| 0 <= i < b.len() && b[i] == x;
            assert((a + b)[a.len() + i] == x);
        }
    }
}

/// Appending a fresh element keeps a sequence free of duplicates.
pub(crate) proof fn lemma_push_no_dup(s: Seq<u64>, v: u64)
    requires
        s.no_duplicates(),
        !s.contains(v),
    ensures
        s.push(v).no_duplicates(),
{
    assert forall|a: int, b: int|
        0 <= a < s.push(v).len() && 0 <= b < s.push(v).len() && a != b
            implies s.push(v)[a] != s.push(v)[b] by {
        if a < s.len() && b < s.len() {
            assert(s[a] != s[b]);
        } else if a < s.len() {
            assert(s.contains(s[a]));
        } else if b < s.len() {
            assert(s.contains(s[b]));
        }
    }
}

/// The subsequence of `q` whose elements do not occur in `dropped`, in order.
pub open spec fn without_ids(q: Seq<u64>, dropped: Seq<u64>) -> Seq<u64>
    decreases q.len(),
{
    if q.len() == 0 {
        Seq::empty()
    } else {
        let rest = without_ids(q.drop_last(), dropped);
        if dropped.contains(q.last()) {
            rest
        } else {
            rest.push(q.last())
        }
    }
}

/// The subsequence of `q` whose elements occur in `kept`, in order.
pub open spec fn only_ids(q: Seq<u64>, kept: Seq<u64>) -> Seq<u64>
    decreases q.len(),
{
    if q.len() == 0 {
        Seq::empty()
    } else {
        let rest = only_ids(q.drop_last(), kept);
        if kept.contains(q.last()) {
            rest.push(q.last())
        } else {
            rest
        }
    }
}

/// One unfolding step of `without_ids` at the back of the scanned queue.
proof fn lemma_without_ids_push(q: Seq<u64>, dropped: Seq<u64>, x: u64)
    ensures
        without_ids(q.push(x), dropped) == if dropped.contains(x) {
            without_ids(q, dropped)
        } else {
            without_ids(q, dropped).push(x)
        },
{
    assert(q.push(x).drop_last() =~= q);
    assert(q.push(x).last() == x);
}

/// One unfolding step of `only_ids` at the back of the scanned queue.
proof fn lemma_only_ids_push(q: Seq<u64>, kept: Seq<u64>, x: u64)
    ensures
        only_ids(q.push(x), kept) == if kept.contains(x) {
            only_ids(q, kept).push(x)
        } else {
            only_ids(q, kept)
        },
{
    assert(q.push(x).drop_last() =~= q);
    assert(q.push(x).last() == x);
}

/// Enlarging the dropped set by an id that `q` does not hold changes nothing.
proof fn lemma_without_ids_grow(q: Seq<u64>, dropped: Seq<u64>, x: u64)
    requires
        !q.contains(x),
    ensures
        without_ids(q, dropped.push(x)) == without_ids(q, dropped),
    decreases q.len(),
{
    if q.len() > 0 {
        assert(!q.drop_last().contains(x)) by {
            if q.drop_last().contains(x) {
                let i = choose|i: int| 0 <= i < q.drop_last().len() && q.drop_last()[i] == x;
                assert(q[i] == x);
                assert(q.contains(x));
            }
        }
        lemma_without_ids_grow(q.drop_last(), dropped, x);
        lemma_push_contains(dropped, x);
        assert(q[q.len() - 1] == q.last());
        assert(q.contains(q.last()));
        assert(q.last() != x);
    }
}

/// Enlarging the kept set by an id that `q` does not hold changes nothing.
proof fn lemma_only_ids_grow(q: Seq<u64>, kept: Seq<u64>, x: u64)
    requires
        !q.contains(x),
    ensures
        only_ids(q, kept.push(x)) == only_ids(q, kept),
    decreases q.len(),
{
    if q.len() > 0 {
        assert(!q.drop_last().contains(x)) by {
            if q.drop_last().contains(x) {
                let i = choose|i: int| 0 <= i < q.drop_last().len() && q.drop_last()[i] == x;
                assert(q[i] == x);
                assert(q.contains(x));
            }
        }
        lemma_only_ids_grow(q.drop_last(), kept, x);
        lemma_push_contains(kept, x);
        assert(q[q.len() - 1] == q.last());
        assert(q.contains(q.last()));
        assert(q.last() != x);
    }
}

/// The startup phase's bookkeeping: the systems registered to it and the
/// queue of systems awaiting lock acquisition.
pub struct StartupSystems {
    pub systems: Vec<u64>,
    pub pendings: Vec<u64>,
}

/// The world's scheduling core: the lock registry, plus the startup phase's
/// bookkeeping while the phase has not been taken for invocation.
pub struct WorldCenter {
    pub system_locks: LockRegistry,
    pub startup: Option<StartupSystems>,
}

impl WorldCenter {
    /// The startup phase's bookkeeping resource is allocated and has not
    /// been consumed by an invocation.
    pub open spec fn startup_ready(self) -> bool {
        self.startup is Some
    }

    /// Ids of the systems registered to the startup phase.
    pub open spec fn startup_system_ids(self) -> Seq<u64> {
        match self.startup {
            Option::Some(s) => s.systems@,
            Option::None => Seq::empty(),
        }
    }

    /// Ids queued for lock acquisition at the next invocation.
    pub open spec fn startup_pending_ids(self) -> Seq<u64> {
        match self.startup {
            Option::Some(s) => s.pendings@,
            Option::None => Seq::empty(),
        }
    }

    /// Each system was registered once: the queue has no duplicate and lists
    /// exactly the registered systems, in registration order.
    pub open spec fn startup_wf(self) -> bool {
        self.startup_pending_ids().no_duplicates()
            && self.startup_system_ids() == self.startup_pending_ids()
    }

    /// A fresh world: empty lock registry, startup phase not yet initialized.
    pub fn new() -> (w: WorldCenter)
        ensures
            w.system_locks.wf(),
            forall|id: u64| !(#[trigger] w.system_locks.is_registered(id)),
            forall|id: u64| !(#[trigger] w.system_locks.holds(id)),
            !w.startup_ready(),
            w.startup_wf(),
    {
        WorldCenter { system_locks: LockRegistry::new(), startup: Option::None }
    }
}

/// Label of the startup phase.
#[derive(Clone, Copy)]
pub struct Startup;

impl Startup {
    /// Allocate the startup phase's bookkeeping.  Must run once, before any
    /// system is registered into the phase.
    pub fn init(world: &mut WorldCenter)
        requires
            !old(world).startup_ready(),
        ensures
            final(world).startup_ready(),
            final(world).startup_wf(),
            final(world).startup_system_ids() == Seq::<u64>::empty(),
            final(world).startup_pending_ids() == Seq::<u64>::empty(),
            final(world).system_locks == old(world).system_locks,
    {
        world.startup = Option::Some(StartupSystems { systems: Vec::new(), pendings: Vec::new() });
    }

    /// Register a system into the startup phase: it enters the systems map
    /// and the pending queue.  The id must be fresh for this phase.
    pub fn add(world: &mut WorldCenter, systemid: u64)
        requires
            old(world).startup_ready(),
            old(world).startup_wf(),
            !old(world).startup_pending_ids().contains(systemid),
        ensures
            final(world).startup_ready(),
            final(world).startup_wf(),
            final(world).startup_system_ids()
                == old(world).startup_system_ids().push(systemid),
            final(world).startup_pending_ids()
                == old(world).startup_pending_ids().push(systemid),
            final(world).system_locks == old(world).system_locks,
    {
        match &mut world.startup {
            Option::Some(s) => {
                s.systems.push(systemid);
                s.pendings.push(systemid);
                proof {
                    assert forall|i: int, j: int|
                        0 <= i < s.pendings@.len() && 0 <= j < s.pendings@.len() && i != j
                            implies s.pendings@[i] != s.pendings@[j] by {
                        let p0 = old(world).startup_pending_ids();
                        if i < p0.len() && j < p0.len() {
                            assert(p0[i] != p0[j]);
                        } else if i < p0.len() {
                            assert(p0.contains(p0[i]));
                        } else if j < p0.len() {
                            assert(p0.contains(p0[j]));
                        }
                    }
                }
            },
            Option::None => {
                proof {
                    assert(false);
                }
            },
        }
    }

    /// Take the startup phase's bookkeeping out of the world and build the
    /// invoker for one invocation.  The phase is consumed: it cannot be
    /// invoked again until re-initialized.
    pub fn create_invoker(center: &mut WorldCenter) -> (inv: StartupInvoke)
        requires
            old(center).startup_ready(),
        ensures
            !final(center).startup_ready(),
            final(center).system_locks == old(center).system_locks,
            inv.system_ids() == old(center).startup_system_ids(),
            inv.pending_ids() == old(center).startup_pending_ids(),
            inv.running_ids() == Seq::<u64>::empty(),
            inv.completed_ids() == Seq::<u64>::empty(),
    {
        let taken = center.startup.take();
        match taken {
            Option::Some(s) => StartupInvoke {
                systems: s.systems,
                pendings: s.pendings,
                running: Vec::new(),
                completed: Vec::new(),
            },
            Option::None => {
                proof {
                    assert(false);
                }
                StartupInvoke {
                    systems: Vec::new(),
                    pendings: Vec::new(),
                    running: Vec::new(),
                    completed: Vec::new(),
                }
            },
        }
    }
}

/// One invocation of the startup phase: the pending queue, the systems
/// currently holding their locks ("running", their work is in flight on the
/// executor), and the systems already completed.
pub struct StartupInvoke {
    systems: Vec<u64>,
    pendings: Vec<u64>,
    running: Vec<u64>,
    completed: Vec<u64>,
}

impl StartupInvoke {
    /// Ids of the systems this invocation knows a task for.
    pub closed spec fn system_ids(self) -> Seq<u64> {
        self.systems@
    }

    /// Ids awaiting lock acquisition.
    pub closed spec fn pending_ids(self) -> Seq<u64> {
        self.pendings@
    }

    /// Ids holding their locks, with work in flight.
    pub closed spec fn running_ids(self) -> Seq<u64> {
        self.running@
    }

    /// Ids whose work finished and whose locks were given back.
    pub closed spec fn completed_ids(self) -> Seq<u64> {
        self.completed@
    }

    /// The invocation tracks this system (in whichever of the three states).
    pub open spec fn tracks(self, id: u64) -> bool {
        self.pending_ids().contains(id) || self.running_ids().contains(id)
            || self.completed_ids().contains(id)
    }

    /// Every system is in exactly one state, each at most once.
    pub open spec fn partition_wf(self) -> bool {
        &&& self.pending_ids().no_duplicates()
        &&& self.running_ids().no_duplicates()
        &&& self.completed_ids().no_duplicates()
        &&& (forall|id: u64|
            !(#[trigger] self.pending_ids().contains(id) && self.running_ids().contains(id)))
        &&& (forall|id: u64|
            !(#[trigger] self.pending_ids().contains(id) && self.completed_ids().contains(id)))
        &&& (forall|id: u64|
            !(#[trigger] self.running_ids().contains(id) && self.completed_ids().contains(id)))
    }

    /// Invoker and registry agree: exactly the running systems hold locks,
    /// and every running system is registered.
    pub open spec fn wf_with(self, locks: LockRegistry) -> bool {
        &&& locks.wf()
        &&& self.partition_wf()
        &&& (forall|id: u64|
            #[trigger] locks.holds(id) <==> self.running_ids().contains(id))
        &&& (forall|id: u64|
            #[trigger] self.running_ids().contains(id) ==> locks.is_registered(id))
    }
}

/// Law: a freshly created invocation is consistent with a registry in which
/// nothing is held — as at invocation start, where no locks are taken.
pub proof fn lemma_fresh_invoker_ready(inv: StartupInvoke, locks: LockRegistry)
    requires
        locks.wf(),
        forall|id: u64| !(#[trigger] locks.holds(id)),
        inv.running_ids() == Seq::<u64>::empty(),
        inv.completed_ids() == Seq::<u64>::empty(),
        inv.pending_ids().no_duplicates(),
    ensures
        inv.wf_with(locks),
{
}

/// Law: when an invocation reaches its terminal state — no system pending
/// and none running — every system it tracks has completed, and each exactly
/// once.
pub proof fn lemma_terminal_every_system_completed(inv: StartupInvoke)
    requires
        inv.partition_wf(),
        inv.pending_ids().len() == 0,
        inv.running_ids().len() == 0,
    ensures
        forall|id: u64| #[trigger] inv.tracks(id) <==> inv.completed_ids().contains(id),
        inv.completed_ids().no_duplicates(),
{
}

/// Law: an invocation cannot deadlock.  While nothing is running no lock is
/// held, so any registered pending system's whole requirement set can be
/// acquired — a scan from an idle state always finds work to start.  Only a
/// system whose own future never completes can stall a phase.
pub proof fn lemma_idle_phase_can_progress(inv: StartupInvoke, locks: LockRegistry, id: u64)
    requires
        inv.wf_with(locks),
        inv.running_ids().len() == 0,
        inv.pending_ids().contains(id),
        locks.is_registered(id),
    ensures
        locks.can_lock(id),
{
    assert forall|h: u64| !(#[trigger] locks.holds(h)) by {
        if locks.holds(h) {
            assert(inv.running_ids().contains(h));
        }
    }
}

/// Law: two systems are never both running while one declares a write of a
/// resource the other touches.  Two systems contending for a write of the
/// same resource are never observed running at the same instant.
pub proof fn lemma_running_never_conflict(
    inv: StartupInvoke,
    locks: LockRegistry,
    a: u64,
    b: u64,
    r: u64,
)
    requires
        inv.wf_with(locks),
        a != b,
        inv.running_ids().contains(a),
        inv.running_ids().contains(b),
        locks.reg_writes(a, r),
    ensures
        !locks.reg_writes(b, r),
        !locks.reg_reads(b, r),
{
    assert(locks.holds(a));
    assert(locks.holds(b));
    lemma_write_exclusion(locks, a, b, r);
}

impl StartupInvoke {
    /// Number of systems awaiting lock acquisition.
    pub fn pending_count(&self) -> (n: usize)
        ensures
            n == self.pending_ids().len(),
    {
        self.pendings.len()
    }

    /// Number of systems holding their locks, with work in flight.
    pub fn running_count(&self) -> (n: usize)
        ensures
            n == self.running_ids().len(),
    {
        self.running.len()
    }

    /// Number of systems already completed.
    pub fn completed_count(&self) -> (n: usize)
        ensures
            n == self.completed_ids().len(),
    {
        self.completed.len()
    }

    /// The id at one position of the pending queue.
    pub fn pending_at(&self, i: usize) -> (id: u64)
        requires
            i < self.pending_ids().len(),
        ensures
            id == self.pending_ids()[i as int],
    {
        self.pendings[i]
    }

    /// The system is awaiting lock acquisition.
    pub fn is_pending(&self, id: u64) -> (b: bool)
        ensures
            b == self.pending_ids().contains(id),
    {
        crate::access::id_vec_contains(&self.pendings, id)
    }

    /// The system holds its locks, with work in flight.
    pub fn is_running(&self, id: u64) -> (b: bool)
        ensures
            b == self.running_ids().contains(id),
    {
        crate::access::id_vec_contains(&self.running, id)
    }

    /// The system completed and gave its locks back.
    pub fn is_completed(&self, id: u64) -> (b: bool)
        ensures
            b == self.completed_ids().contains(id),
    {
        crate::access::id_vec_contains(&self.completed, id)
    }

    /// One scan of the pending queue: every pending system that has a task
    /// and whose declared locks can all be acquired right now is moved to
    /// the running set; the rest stay pending, in order.  Returns the ids to
    /// hand to the executor, in scan order.
    ///
    /// After the scan the queue is at a fixed point: every remaining pending
    /// system with a task is blocked on a currently held resource.  And a
    /// scan started with nothing running spawns at least one system, if any
    /// pending system has a task: with no holder, no lock request conflicts.
    pub fn collect_pending_systems(&mut self, locks: &mut LockRegistry) -> (spawned: Vec<u64>)
        requires
            old(self).wf_with(*old(locks)),
            forall|id: u64|
                old(self).pending_ids().contains(id) && old(self).system_ids().contains(id)
                    ==> old(locks).is_registered(id),
        ensures
            final(self).wf_with(*final(locks)),
            LockRegistry::same_decls(*old(locks), *final(locks)),
            final(self).system_ids() == old(self).system_ids(),
            final(self).completed_ids() == old(self).completed_ids(),
            spawned@.no_duplicates(),
            forall|id: u64| #[trigger] spawned@.contains(id)
                ==> old(self).pending_ids().contains(id) && old(self).system_ids().contains(id),
            final(self).running_ids() == old(self).running_ids() + spawned@,
            final(self).pending_ids() == without_ids(old(self).pending_ids(), spawned@),
            spawned@ == only_ids(old(self).pending_ids(), spawned@),
            forall|id: u64| #[trigger] final(self).pending_ids().contains(id)
                <==> (old(self).pending_ids().contains(id) && !spawned@.contains(id)),
            forall|id: u64| #[trigger] final(locks).holds(id)
                <==> (old(locks).holds(id) || spawned@.contains(id)),
            forall|id: u64|
                #[trigger] final(self).pending_ids().contains(id)
                    && final(self).system_ids().contains(id)
                    ==> !final(locks).can_lock(id),
            forall|id: u64| #[trigger] final(self).tracks(id) <==> old(self).tracks(id),
            (old(self).running_ids().len() == 0 && exists|id: u64|
                #[trigger] old(self).pending_ids().contains(id)
                    && old(self).system_ids().contains(id)) ==> spawned@.len() > 0,
    {
        let ghost locks0 = *old(locks);
        let ghost pend0 = old(self).pendings@;
        let ghost run0 = old(self).running@;
        let mut new_pendings: Vec<u64> = Vec::new();
        let mut spawned: Vec<u64> = Vec::new();
        proof {
            assert(pend0.take(0) =~= Seq::<u64>::empty());
        }
        let n = self.pendings.len();
        let mut j: usize = 0;
        while j < n
            invariant
                pend0 == old(self).pendings@,
                run0 == old(self).running@,
                locks0 == *old(locks),
                n == pend0.len(),
                j <= n,
                self.pendings@ == pend0,
                self.systems@ == old(self).systems@,
                self.completed@ == old(self).completed@,
                self.running@ == run0 + spawned@,
                old(self).wf_with(locks0),
                forall|id: u64|
                    pend0.contains(id) && old(self).systems@.contains(id)
                        ==> locks0.is_registered(id),
                locks.wf(),
                LockRegistry::same_decls(locks0, *locks),
                forall|id: u64| #[trigger] locks.holds(id)
                    <==> (locks0.holds(id) || spawned@.contains(id)),
                new_pendings@ == without_ids(pend0.take(j as int), spawned@),
                spawned@ == only_ids(pend0.take(j as int), spawned@),
                forall|id: u64| #[trigger] new_pendings@.contains(id)
                    ==> pend0.take(j as int).contains(id),
                forall|id: u64| #[trigger] spawned@.contains(id)
                    ==> pend0.take(j as int).contains(id) && old(self).systems@.contains(id),
                forall|id: u64| #[trigger] pend0.take(j as int).contains(id)
                    ==> (new_pendings@.contains(id) || spawned@.contains(id)),
                forall|id: u64|
                    !(#[trigger] new_pendings@.contains(id) && spawned@.contains(id)),
                new_pendings@.no_duplicates(),
                spawned@.no_duplicates(),
                forall|id: u64|
                    #[trigger] new_pendings@.contains(id) && old(self).systems@.contains(id)
                        ==> !locks.can_lock(id) && locks.is_registered(id),
            decreases n - j,
        {
            let id = self.pendings[j];
            let ghost np0 = new_pendings@;
            let ghost sp0 = spawned@;
            proof {
                assert(pend0.no_duplicates());
                assert(pend0.contains(pend0[j as int]));
                assert(!pend0.take(j as int).contains(id)) by {
                    if pend0.take(j as int).contains(id) {
                        let k = choose|k: int|
                            0 <= k < pend0.take(j as int).len()
                                && pend0.take(j as int)[k] == id;
                        assert(pend0.take(j as int)[k] == id);
                        assert(pend0[k] == id);
                        assert(pend0[j as int] == id);
                        assert(k != j as int);
                        assert(pend0[k] != pend0[j as int]);
                    }
                }
                assert(pend0.take(j as int + 1) =~= pend0.take(j as int).push(id));
                lemma_push_contains(pend0.take(j as int), id);
            }
            let mapped = crate::access::id_vec_contains(&self.systems, id);
            if mapped {
                let ghost locks_before = *locks;
                match locks.try_lock(id) {
                    Result::Ok(()) => {
                        self.running.push(id);
                        spawned.push(id);
                        proof {
                            lemma_same_decls_trans(locks0, locks_before, *locks);
                            lemma_push_contains(sp0, id);
                            lemma_push_no_dup(sp0, id);
                            assert(spawned@ == sp0.push(id));
                            lemma_without_ids_grow(pend0.take(j as int), sp0, id);
                            lemma_without_ids_push(pend0.take(j as int), spawned@, id);
                            lemma_only_ids_grow(pend0.take(j as int), sp0, id);
                            lemma_only_ids_push(pend0.take(j as int), spawned@, id);
                            assert(self.running@ =~= run0 + spawned@);
                            assert forall|x: u64| #[trigger] locks.holds(x)
                                <==> (locks0.holds(x) || spawned@.contains(x)) by {
                                if x != id {
                                    assert(locks.holds(x) <==> locks_before.holds(x));
                                    assert(spawned@.contains(x) <==> sp0.contains(x));
                                }
                            }
                            assert forall|id2: u64|
                                #[trigger] new_pendings@.contains(id2)
                                    && old(self).systems@.contains(id2)
                                    implies !locks.can_lock(id2) && locks.is_registered(id2) by {
                                assert(!locks_before.can_lock(id2));
                                assert(locks_before.is_registered(id2));
                                if locks.can_lock(id2) {
                                    lemma_can_lock_antimono(locks_before, *locks, id2);
                                }
                            }
                        }
                    },
                    Result::Err(_) => {
                        proof {
                            assert(locks.is_registered(id));
                            assert(!locks.can_lock(id));
                        }
                        new_pendings.push(id);
                        proof {
                            lemma_push_contains(np0, id);
                            lemma_push_no_dup(np0, id);
                            assert(new_pendings@ == np0.push(id));
                            assert(!spawned@.contains(id));
                            lemma_without_ids_push(pend0.take(j as int), spawned@, id);
                            lemma_only_ids_push(pend0.take(j as int), spawned@, id);
                        }
                    },
                }
            } else {
                new_pendings.push(id);
                proof {
                    lemma_push_contains(np0, id);
                    lemma_push_no_dup(np0, id);
                    assert(new_pendings@ == np0.push(id));
                    assert(!spawned@.contains(id));
                    lemma_without_ids_push(pend0.take(j as int), spawned@, id);
                    lemma_only_ids_push(pend0.take(j as int), spawned@, id);
                }
            }
            j += 1;
        }
        proof {
            assert(pend0.take(n as int) =~= pend0);
        }
        self.pendings = new_pendings;
        proof {
            lemma_add_contains(run0, spawned@);
            // The partition of the old queue is exact.
            assert forall|id: u64| #[trigger] final(self).pending_ids().contains(id)
                <==> (pend0.contains(id) && !spawned@.contains(id)) by {}
            // Partition well-formedness of the new state.
            assert forall|i: int, k: int|
                0 <= i < self.running@.len() && 0 <= k < self.running@.len() && i != k
                    implies self.running@[i] != self.running@[k] by {
                let x = self.running@[i];
                let y = self.running@[k];
                if i < run0.len() && k < run0.len() {
                    assert(run0[i] != run0[k]);
                } else if i < run0.len() {
                    assert(run0.contains(x));
                    assert(spawned@[k - run0.len()] == y);
                    assert(spawned@.contains(y));
                    if x == y {
                        assert(pend0.contains(y));
                        assert(!(pend0.contains(y) && run0.contains(y)));
                    }
                } else if k < run0.len() {
                    assert(run0.contains(y));
                    assert(spawned@[i - run0.len()] == x);
                    assert(spawned@.contains(x));
                    if x == y {
                        assert(pend0.contains(x));
                        assert(!(pend0.contains(x) && run0.contains(x)));
                    }
                } else {
                    assert(spawned@[i - run0.len()] != spawned@[k - run0.len()]);
                }
            }
            assert(final(self).running_ids().no_duplicates());
            assert forall|id: u64|
                !(#[trigger] final(self).pending_ids().contains(id)
                    && final(self).running_ids().contains(id)) by {
                if final(self).pending_ids().contains(id) {
                    assert(pend0.contains(id) && !spawned@.contains(id));
                    assert(!run0.contains(id));
                }
            }
            assert forall|id: u64|
                !(#[trigger] final(self).running_ids().contains(id)
                    && final(self).completed_ids().contains(id)) by {
                if final(self).running_ids().contains(id) {
                    if run0.contains(id) {
                        assert(!old(self).completed_ids().contains(id));
                    } else {
                        assert(spawned@.contains(id));
                        assert(pend0.contains(id));
                        assert(!old(self).completed_ids().contains(id));
                    }
                }
            }
            assert forall|id: u64| #[trigger] final(self).tracks(id)
                <==> old(self).tracks(id) by {
                if spawned@.contains(id) {
                    assert(pend0.contains(id));
                }
            }
            // Progress: a scan from an idle state spawns something if any
            // pending system has a task.
            if run0.len() == 0 && spawned@.len() == 0 {
                assert forall|id: u64|
                    !(#[trigger] pend0.contains(id) && old(self).systems@.contains(id)) by {
                    if pend0.contains(id) && old(self).systems@.contains(id) {
                        assert(new_pendings@.contains(id) || spawned@.contains(id));
                        assert(new_pendings@.contains(id));
                        assert(!locks.can_lock(id));
                        assert forall|h: u64| !(#[trigger] locks.holds(h)) by {
                            if locks.holds(h) {
                                assert(locks0.holds(h) || spawned@.contains(h));
                                assert(run0.contains(h));
                            }
                        }
                        assert(locks.can_lock(id));
                    }
                }
            }
        }
        spawned
    }

    /// Handle the completion of one in-flight system: give back its locks
    /// and move it to the completed set.  Exactly its own resources become
    /// available again; every other system's state is untouched.
    pub fn complete(&mut self, locks: &mut LockRegistry, systemid: u64)
        requires
            old(self).wf_with(*old(locks)),
            old(self).running_ids().contains(systemid),
        ensures
            final(self).wf_with(*final(locks)),
            LockRegistry::same_decls(*old(locks), *final(locks)),
            LockRegistry::release_transition(*old(locks), *final(locks), systemid),
            final(self).pending_ids() == old(self).pending_ids(),
            final(self).system_ids() == old(self).system_ids(),
            final(self).completed_ids() == old(self).completed_ids().push(systemid),
            forall|id: u64| #[trigger] final(self).running_ids().contains(id)
                <==> (old(self).running_ids().contains(id) && id != systemid),
            final(self).running_ids().len() == old(self).running_ids().len() - 1,
            forall|id: u64| #[trigger] final(self).tracks(id) <==> old(self).tracks(id),
    {
        let ghost run0 = old(self).running@;
        let mut i: usize = 0;
        while i < self.running.len() && self.running[i] != systemid
            invariant
                self.running@ == run0,
                i <= run0.len(),
                run0.contains(systemid),
                forall|k: int| 0 <= k < i ==> run0[k] != systemid,
            decreases run0.len() - i,
        {
            i += 1;
        }
        proof {
            assert(i < run0.len() && run0[i as int] == systemid) by {
                if i >= run0.len() {
                    let k = choose|k: int| 0 <= k < run0.len() && run0[k] == systemid;
                    assert(run0[k] == systemid);
                    assert(run0[k] != systemid);
                }
            }
        }
        self.running.remove(i);
        self.completed.push(systemid);
        locks.release(systemid);
        proof {
            let runf = self.running@;
            assert(runf == run0.remove(i as int));
            assert forall|id: u64| #[trigger] runf.contains(id)
                <==> (run0.contains(id) && id != systemid) by {
                if runf.contains(id) {
                    let k = choose|k: int| 0 <= k < runf.len() && runf[k] == id;
                    if k < i as int {
                        assert(run0[k] == id);
                        assert(run0[k] != run0[i as int]);
                    } else {
                        assert(run0[k + 1] == id);
                        assert(run0[k + 1] != run0[i as int]);
                    }
                    assert(run0.contains(id));
                }
                if run0.contains(id) && id != systemid {
                    let k = choose|k: int| 0 <= k < run0.len() && run0[k] == id;
                    assert(k != i as int);
                    if k < i as int {
                        assert(runf[k] == id);
                    } else {
                        assert(runf[k - 1] == id);
                    }
                    assert(runf.contains(id));
                }
            }
            assert forall|a: int, b: int|
                0 <= a < runf.len() && 0 <= b < runf.len() && a != b
                    implies runf[a] != runf[b] by {
                let a0: int = if a < i as int { a } else { a + 1 };
                let b0: int = if b < i as int { b } else { b + 1 };
                assert(runf[a] == run0[a0]);
                assert(runf[b] == run0[b0]);
                assert(run0[a0] != run0[b0]);
            }
            lemma_push_contains(old(self).completed@, systemid);
            assert(!old(self).completed_ids().contains(systemid));
            assert(final(self).completed_ids().no_duplicates()) by {
                let comp0 = old(self).completed@;
                assert forall|a: int, b: int|
                    0 <= a < comp0.push(systemid).len() && 0 <= b < comp0.push(systemid).len()
                        && a != b
                        implies comp0.push(systemid)[a] != comp0.push(systemid)[b] by {
                    if a < comp0.len() && b < comp0.len() {
                        assert(comp0[a] != comp0[b]);
                    } else if a < comp0.len() {
                        assert(comp0.contains(comp0[a]));
                    } else if b < comp0.len() {
                        assert(comp0.contains(comp0[b]));
                    }
                }
            }
            assert forall|id: u64| #[trigger] locks.holds(id)
                <==> final(self).running_ids().contains(id) by {
                if id != systemid {
                    assert(locks.holds(id) <==> old(locks).holds(id));
                }
            }
        }
    }
}

} // verus!
