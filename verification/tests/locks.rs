use lump_core::AccessMode;
use lump_core::RegisterError;
use lump_core::SystemLock;

#[test]
fn read_then_read_is_accepted() {
    let mut l = SystemLock::new();
    assert!(l.register_resource_read(1).is_ok());
    assert!(l.register_resource_read(1).is_ok());
    assert!(l.reads_resource(1));
    assert!(!l.writes_resource(1));
}

#[test]
fn read_then_write_same_resource_is_refused() {
    let mut l = SystemLock::new();
    assert!(l.register_resource_read(7).is_ok());
    assert_eq!(l.register_resource_write(7), Err(RegisterError::ConflictingAccess));
    // The conflict surfaced at declaration time; the set stays read-only.
    assert!(l.reads_resource(7));
    assert!(!l.writes_resource(7));
}

#[test]
fn write_then_read_same_resource_is_refused() {
    let mut l = SystemLock::new();
    assert!(l.register_resource_write(7).is_ok());
    assert_eq!(l.register_resource_read(7), Err(RegisterError::ConflictingAccess));
    assert!(l.writes_resource(7));
    assert!(!l.reads_resource(7));
}

#[test]
fn write_then_write_same_resource_is_refused() {
    let mut l = SystemLock::new();
    assert!(l.register_resource_write(3).is_ok());
    assert_eq!(l.register_resource_write(3), Err(RegisterError::ConflictingAccess));
}

#[test]
fn distinct_resources_do_not_conflict() {
    let mut l = SystemLock::new();
    assert!(l.register_resource_read(1).is_ok());
    assert!(l.register_resource_write(2).is_ok());
    assert!(l.register_resource_read(3).is_ok());
    assert!(l.reads_resource(1));
    assert!(l.writes_resource(2));
    assert!(l.reads_resource(3));
}

#[test]
fn mode_dispatch_matches_the_dedicated_registrations() {
    let mut l = SystemLock::new();
    assert!(l.register_resource(AccessMode::Read, 1).is_ok());
    assert!(l.register_resource(AccessMode::Read, 1).is_ok());
    assert_eq!(
        l.register_resource(AccessMode::Write, 1),
        Err(RegisterError::ConflictingAccess)
    );
    assert!(l.register_resource(AccessMode::Write, 2).is_ok());
    assert_eq!(
        l.register_resource(AccessMode::Read, 2),
        Err(RegisterError::ConflictingAccess)
    );
    assert!(l.reads_resource(1));
    assert!(l.writes_resource(2));
}

#[test]
fn two_readers_are_compatible() {
    let mut a = SystemLock::new();
    let mut b = SystemLock::new();
    a.register_resource_read(5).unwrap();
    b.register_resource_read(5).unwrap();
    assert!(a.compatible_with(&b));
    assert!(b.compatible_with(&a));
}

#[test]
fn writer_conflicts_with_reader_and_writer() {
    let mut w = SystemLock::new();
    w.register_resource_write(5).unwrap();
    let mut r = SystemLock::new();
    r.register_resource_read(5).unwrap();
    let mut w2 = SystemLock::new();
    w2.register_resource_write(5).unwrap();
    assert!(!w.compatible_with(&r));
    assert!(!r.compatible_with(&w));
    assert!(!w.compatible_with(&w2));
}

#[test]
fn disjoint_declarations_are_compatible() {
    let mut a = SystemLock::new();
    a.register_resource_write(1).unwrap();
    let mut b = SystemLock::new();
    b.register_resource_write(2).unwrap();
    b.register_resource_read(3).unwrap();
    assert!(a.compatible_with(&b));
    assert!(b.compatible_with(&a));
}
