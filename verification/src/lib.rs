//! A dependency-injected task scheduler core.
//!
//! Systems declare which resources they read or write; a per-resource lock
//! registry turns those declarations into runtime mutual exclusion, and a
//! phase invoker drains a pending queue by opportunistically acquiring locks,
//! handing runnable systems to an executor, and re-scanning as they complete.

pub mod access;
pub mod param;
pub mod registry;
pub mod startup;
pub mod store;
pub mod system;

pub use access::AccessMode;
pub use access::RegisterError;
pub use access::SystemLock;
pub use param::Param;
pub use param::Res;
pub use registry::LockRegistry;
pub use registry::WorldSystemLockError;
pub use startup::Startup;
pub use startup::StartupInvoke;
pub use startup::WorldCenter;
pub use store::AccessCell;
pub use store::BorrowError;
pub use store::ResourceStore;
pub use system::FunctionSystem;
pub use system::In;
pub use system::InRef;
pub use system::IntoSystem;
pub use system::System;
pub use system::SystemInput;
pub use system::SystemTask;
