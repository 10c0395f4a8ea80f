use lump_core::AccessCell;
use lump_core::BorrowError;
use lump_core::FunctionSystem;
use lump_core::In;
use lump_core::InRef;
use lump_core::Param;
use lump_core::Res;
use lump_core::ResourceStore;
use lump_core::System;
use lump_core::SystemInput;
use lump_core::SystemLock;
use lump_core::SystemTask;

#[test]
fn task_runs_the_wrapped_work() {
    let task = SystemTask::new(|x: u32| x + 1);
    assert_eq!(task.run(41), 42);
}

#[test]
fn task_consumes_its_input() {
    let task = SystemTask::new(|s: Vec<u64>| s.len());
    assert_eq!(task.run(vec![1, 2, 3]), 3);
}

#[test]
fn inputs_wrap_plain_values() {
    let a = In::wrap(7u32);
    assert_eq!(*a.inner(), 7);
    let v = 9u64;
    let b = InRef::wrap(&v);
    assert_eq!(*b.inner(), 9);
    <() as SystemInput>::wrap(());
}

#[test]
fn read_param_declares_its_resource() {
    let mut l = SystemLock::new();
    <Res<5> as Param>::init(&mut l);
    assert!(l.reads_resource(5));
    assert!(!l.writes_resource(5));
    assert!(!l.reads_resource(6));
}

#[test]
fn pair_param_declares_both_resources() {
    let mut l = SystemLock::new();
    <(Res<1>, Res<2>) as Param>::init(&mut l);
    assert!(l.reads_resource(1));
    assert!(l.reads_resource(2));
}

#[test]
fn unit_param_declares_nothing() {
    let mut l = SystemLock::new();
    <() as Param>::init(&mut l);
    assert!(!l.reads_resource(0));
    assert!(!l.writes_resource(0));
}

#[test]
fn params_fetch_from_the_store() {
    let mut store = ResourceStore::new();
    store.init_resource(1);
    store.init_resource(2);
    let (_a, _b) = <(Res<1>, Res<2>) as Param>::get(&store);
    <() as Param>::get(&store);
}

#[test]
fn function_system_registers_its_params() {
    let sys = FunctionSystem::<(Res<1>, Res<2>), _>::new(|| ());
    let mut l = SystemLock::new();
    sys.init(&mut l);
    assert!(l.reads_resource(1));
    assert!(l.reads_resource(2));
    assert!(!l.writes_resource(1));
}

#[test]
fn shared_views_coexist_and_exclude_the_exclusive_view() {
    let mut c = AccessCell::new();
    assert!(c.try_read().is_ok());
    assert!(c.try_read().is_ok());
    assert_eq!(c.try_write(), Err(BorrowError::SharedHeld));
    c.end_read();
    c.end_read();
    assert!(c.try_write().is_ok());
    assert_eq!(c.try_read(), Err(BorrowError::ExclusiveHeld));
    assert_eq!(c.try_write(), Err(BorrowError::ExclusiveHeld));
    c.end_write();
    assert!(c.try_read().is_ok());
}

#[test]
fn store_tracks_each_resource_independently() {
    let mut s = ResourceStore::new();
    assert!(!s.has_resource(1));
    s.init_resource(1);
    s.init_resource(2);
    assert!(s.has_resource(1) && s.has_resource(2));
    assert!(s.acquire_write(1).is_ok());
    assert!(s.acquire_read(2).is_ok());
    assert_eq!(s.acquire_read(1), Err(BorrowError::ExclusiveHeld));
    assert_eq!(s.acquire_write(2), Err(BorrowError::SharedHeld));
    s.release_write(1);
    assert!(s.acquire_read(1).is_ok());
    s.release_read(1);
    s.release_read(2);
    assert!(s.acquire_write(2).is_ok());
}
