use lump_core::LockRegistry;
use lump_core::Startup;
use lump_core::SystemLock;
use lump_core::WorldCenter;

fn read_lock(resources: &[u64]) -> SystemLock {
    let mut l = SystemLock::new();
    for r in resources {
        l.register_resource_read(*r).unwrap();
    }
    l
}

fn write_lock(resources: &[u64]) -> SystemLock {
    let mut l = SystemLock::new();
    for r in resources {
        l.register_resource_write(*r).unwrap();
    }
    l
}

#[test]
fn single_dependency_free_system_runs_on_first_scan() {
    let mut world = WorldCenter::new();
    Startup::init(&mut world);
    world.system_locks.register(1, SystemLock::new());
    Startup::add(&mut world, 1);
    let mut inv = Startup::create_invoker(&mut world);
    let spawned = inv.collect_pending_systems(&mut world.system_locks);
    assert_eq!(spawned, vec![1]);
    assert_eq!(inv.pending_count(), 0);
    assert!(inv.is_running(1));
    inv.complete(&mut world.system_locks, 1);
    assert!(inv.is_completed(1));
    assert_eq!(inv.running_count(), 0);
    assert_eq!(inv.pending_count(), 0);
    // The invocation is over as soon as this one system resolved.
    let again = inv.collect_pending_systems(&mut world.system_locks);
    assert!(again.is_empty());
}

#[test]
fn independent_systems_all_run_at_once() {
    let mut world = WorldCenter::new();
    Startup::init(&mut world);
    world.system_locks.register(1, write_lock(&[10]));
    world.system_locks.register(2, write_lock(&[20]));
    world.system_locks.register(3, read_lock(&[30]));
    for id in [1, 2, 3] {
        Startup::add(&mut world, id);
    }
    let mut inv = Startup::create_invoker(&mut world);
    let spawned = inv.collect_pending_systems(&mut world.system_locks);
    assert_eq!(spawned, vec![1, 2, 3]);
    assert_eq!(inv.running_count(), 3);
    // Completion order is up to the executor; whatever it is, every system
    // completes exactly once.
    for id in [2, 3, 1] {
        inv.complete(&mut world.system_locks, id);
    }
    assert_eq!(inv.completed_count(), 3);
    assert_eq!(inv.pending_count(), 0);
    assert_eq!(inv.running_count(), 0);
}

#[test]
fn independent_systems_complete_in_any_order() {
    for order in [[1u64, 2, 3], [3, 2, 1], [2, 1, 3]] {
        let mut world = WorldCenter::new();
        Startup::init(&mut world);
        world.system_locks.register(1, write_lock(&[10]));
        world.system_locks.register(2, write_lock(&[20]));
        world.system_locks.register(3, write_lock(&[30]));
        for id in [1, 2, 3] {
            Startup::add(&mut world, id);
        }
        let mut inv = Startup::create_invoker(&mut world);
        let spawned = inv.collect_pending_systems(&mut world.system_locks);
        assert_eq!(spawned.len(), 3);
        for id in order {
            inv.complete(&mut world.system_locks, id);
            let _ = inv.collect_pending_systems(&mut world.system_locks);
        }
        assert_eq!(inv.completed_count(), 3);
        assert!(inv.is_completed(1) && inv.is_completed(2) && inv.is_completed(3));
    }
}

#[test]
fn write_contenders_never_run_together() {
    let mut world = WorldCenter::new();
    Startup::init(&mut world);
    world.system_locks.register(1, write_lock(&[7]));
    world.system_locks.register(2, write_lock(&[7]));
    Startup::add(&mut world, 1);
    Startup::add(&mut world, 2);
    let mut inv = Startup::create_invoker(&mut world);
    let spawned = inv.collect_pending_systems(&mut world.system_locks);
    assert_eq!(spawned, vec![1]);
    // At no instant are both running.
    assert!(inv.is_running(1) && !inv.is_running(2));
    assert!(inv.is_pending(2));
    inv.complete(&mut world.system_locks, 1);
    let spawned = inv.collect_pending_systems(&mut world.system_locks);
    assert_eq!(spawned, vec![2]);
    assert!(!inv.is_running(1) && inv.is_running(2));
    inv.complete(&mut world.system_locks, 2);
    // Both eventually complete.
    assert!(inv.is_completed(1) && inv.is_completed(2));
}

#[test]
fn readers_run_together_writer_runs_alone() {
    // A and B read resource 7; C writes it; C was registered first, so the
    // first scan grants C alone, and A and B then run concurrently.
    let mut world = WorldCenter::new();
    Startup::init(&mut world);
    world.system_locks.register(3, write_lock(&[7]));
    world.system_locks.register(1, read_lock(&[7]));
    world.system_locks.register(2, read_lock(&[7]));
    Startup::add(&mut world, 3);
    Startup::add(&mut world, 1);
    Startup::add(&mut world, 2);
    let mut inv = Startup::create_invoker(&mut world);
    let spawned = inv.collect_pending_systems(&mut world.system_locks);
    assert_eq!(spawned, vec![3]);
    assert!(inv.is_pending(1) && inv.is_pending(2));
    inv.complete(&mut world.system_locks, 3);
    let spawned = inv.collect_pending_systems(&mut world.system_locks);
    assert_eq!(spawned, vec![1, 2]);
    assert!(inv.is_running(1) && inv.is_running(2));
    inv.complete(&mut world.system_locks, 1);
    inv.complete(&mut world.system_locks, 2);
    assert_eq!(inv.completed_count(), 3);
}

#[test]
fn writer_waits_for_every_reader() {
    // A and B read resource 7, C writes it, registered A, B, C: the scan
    // grants A and B together; C waits until both released.
    let mut world = WorldCenter::new();
    Startup::init(&mut world);
    world.system_locks.register(1, read_lock(&[7]));
    world.system_locks.register(2, read_lock(&[7]));
    world.system_locks.register(3, write_lock(&[7]));
    for id in [1, 2, 3] {
        Startup::add(&mut world, id);
    }
    let mut inv = Startup::create_invoker(&mut world);
    let spawned = inv.collect_pending_systems(&mut world.system_locks);
    assert_eq!(spawned, vec![1, 2]);
    assert!(inv.is_pending(3));
    inv.complete(&mut world.system_locks, 1);
    // One reader is still holding: the writer stays pending.
    let spawned = inv.collect_pending_systems(&mut world.system_locks);
    assert!(spawned.is_empty());
    assert!(inv.is_pending(3));
    inv.complete(&mut world.system_locks, 2);
    let spawned = inv.collect_pending_systems(&mut world.system_locks);
    assert_eq!(spawned, vec![3]);
    inv.complete(&mut world.system_locks, 3);
    assert_eq!(inv.completed_count(), 3);
    assert_eq!(inv.pending_count(), 0);
    assert_eq!(inv.running_count(), 0);
}

#[test]
fn blocked_systems_keep_their_queue_order() {
    // Systems 1 and 2 hold writes; 3, 4, 5 contend with them and stay
    // queued, in registration order, while 2 runs between them.
    let mut world = WorldCenter::new();
    Startup::init(&mut world);
    world.system_locks.register(1, write_lock(&[1]));
    world.system_locks.register(3, write_lock(&[1]));
    world.system_locks.register(2, write_lock(&[2]));
    world.system_locks.register(4, write_lock(&[2]));
    world.system_locks.register(5, write_lock(&[1]));
    for id in [3, 1, 4, 2, 5] {
        Startup::add(&mut world, id);
    }
    let mut inv = Startup::create_invoker(&mut world);
    let spawned = inv.collect_pending_systems(&mut world.system_locks);
    // Scan order follows the queue: 3 takes resource 1 first, 4 takes
    // resource 2; 1, 2 and 5 stay pending in their original order.
    assert_eq!(spawned, vec![3, 4]);
    assert_eq!(inv.pending_count(), 3);
    assert_eq!(inv.pending_at(0), 1);
    assert_eq!(inv.pending_at(1), 2);
    assert_eq!(inv.pending_at(2), 5);
    inv.complete(&mut world.system_locks, 3);
    let spawned = inv.collect_pending_systems(&mut world.system_locks);
    assert_eq!(spawned, vec![1]);
    assert_eq!(inv.pending_at(0), 2);
    assert_eq!(inv.pending_at(1), 5);
    inv.complete(&mut world.system_locks, 4);
    let spawned = inv.collect_pending_systems(&mut world.system_locks);
    assert_eq!(spawned, vec![2]);
    inv.complete(&mut world.system_locks, 1);
    let spawned = inv.collect_pending_systems(&mut world.system_locks);
    assert_eq!(spawned, vec![5]);
    inv.complete(&mut world.system_locks, 2);
    inv.complete(&mut world.system_locks, 5);
    assert_eq!(inv.completed_count(), 5);
}

#[test]
fn phase_is_consumed_by_invocation() {
    let mut world = WorldCenter::new();
    Startup::init(&mut world);
    world.system_locks.register(1, SystemLock::new());
    Startup::add(&mut world, 1);
    let _inv = Startup::create_invoker(&mut world);
    // The phase's bookkeeping moved into the invoker.
    assert!(world.startup.is_none());
}

#[test]
fn unmapped_pending_system_stays_pending() {
    // A pending id with no task in the systems map is never spawned.
    let mut world = WorldCenter::new();
    Startup::init(&mut world);
    let mut reg = LockRegistry::new();
    reg.register(1, SystemLock::new());
    let mut inv = Startup::create_invoker(&mut world);
    let spawned = inv.collect_pending_systems(&mut reg);
    assert!(spawned.is_empty());
    assert_eq!(inv.pending_count(), 0);
}
