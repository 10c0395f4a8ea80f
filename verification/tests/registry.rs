use lump_core::LockRegistry;
use lump_core::SystemLock;
use lump_core::WorldSystemLockError;

fn read_lock(resources: &[u64]) -> SystemLock {
    let mut l = SystemLock::new();
    for r in resources {
        l.register_resource_read(*r).unwrap();
    }
    l
}

fn write_lock(resources: &[u64]) -> SystemLock {
    let mut l = SystemLock::new();
    for r in resources {
        l.register_resource_write(*r).unwrap();
    }
    l
}

#[test]
fn unregistered_system_is_fatal() {
    let mut reg = LockRegistry::new();
    assert_eq!(reg.try_lock(99), Err(WorldSystemLockError::NotRegistered));
}

#[test]
fn two_writers_never_hold_together() {
    let mut reg = LockRegistry::new();
    reg.register(1, write_lock(&[7]));
    reg.register(2, write_lock(&[7]));
    assert!(reg.try_lock(1).is_ok());
    assert_eq!(reg.try_lock(2), Err(WorldSystemLockError::InvalidAccess));
    assert!(reg.is_held(1));
    assert!(!reg.is_held(2));
    // Backpressure, not failure: after the holder releases, the request goes
    // through.
    reg.release(1);
    assert!(reg.try_lock(2).is_ok());
    assert!(reg.is_held(2));
    assert!(!reg.is_held(1));
}

#[test]
fn writer_excludes_reader_and_reader_excludes_writer() {
    let mut reg = LockRegistry::new();
    reg.register(1, write_lock(&[4]));
    reg.register(2, read_lock(&[4]));
    assert!(reg.try_lock(1).is_ok());
    assert_eq!(reg.try_lock(2), Err(WorldSystemLockError::InvalidAccess));
    reg.release(1);
    assert!(reg.try_lock(2).is_ok());
    assert_eq!(reg.try_lock(1), Err(WorldSystemLockError::InvalidAccess));
}

#[test]
fn any_number_of_readers_hold_together() {
    let mut reg = LockRegistry::new();
    reg.register(1, read_lock(&[9]));
    reg.register(2, read_lock(&[9]));
    reg.register(3, read_lock(&[9, 10]));
    assert!(reg.try_lock(1).is_ok());
    assert!(reg.try_lock(2).is_ok());
    assert!(reg.try_lock(3).is_ok());
    assert!(reg.is_held(1) && reg.is_held(2) && reg.is_held(3));
}

#[test]
fn release_frees_exactly_own_resources() {
    let mut reg = LockRegistry::new();
    reg.register(1, write_lock(&[1]));
    reg.register(2, write_lock(&[2]));
    reg.register(3, write_lock(&[1, 2]));
    assert!(reg.try_lock(1).is_ok());
    assert!(reg.try_lock(2).is_ok());
    // System 3 needs both resources; freeing only resource 1 must not let it
    // through, resource 2 is still another system's.
    reg.release(1);
    assert_eq!(reg.try_lock(3), Err(WorldSystemLockError::InvalidAccess));
    reg.release(2);
    assert!(reg.try_lock(3).is_ok());
}

#[test]
fn release_of_idle_or_unknown_system_is_a_no_op() {
    let mut reg = LockRegistry::new();
    reg.register(1, write_lock(&[1]));
    reg.release(1);
    reg.release(42);
    assert!(!reg.is_held(1));
    assert!(reg.try_lock(1).is_ok());
}

#[test]
fn atomic_acquisition_all_or_nothing() {
    let mut reg = LockRegistry::new();
    reg.register(1, write_lock(&[5]));
    reg.register(2, write_lock(&[5, 6]));
    reg.register(3, write_lock(&[6]));
    assert!(reg.try_lock(1).is_ok());
    // System 2 is refused whole: resource 6 stays free for system 3.
    assert_eq!(reg.try_lock(2), Err(WorldSystemLockError::InvalidAccess));
    assert!(reg.try_lock(3).is_ok());
}

#[test]
fn empty_declaration_always_locks() {
    let mut reg = LockRegistry::new();
    reg.register(1, write_lock(&[5]));
    reg.register(2, SystemLock::new());
    assert!(reg.try_lock(1).is_ok());
    assert!(reg.try_lock(2).is_ok());
}
