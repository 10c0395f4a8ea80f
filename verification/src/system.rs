//! Systems: units of work together with their declared dependencies.
//!
//! A [`System`] exposes its declared resource accesses and an `init` that
//! records them in a per-system declaration accumulator — the place where
//! param-level conflicts surface, at build time.  A [`SystemTask`] wraps the
//! unit of work itself into a uniform callable; the executor that drives the
//! resulting work concurrently lives outside this core.

use core::marker::PhantomData;

use vstd::prelude::*;

use crate::access::SystemLock;
use crate::param::Param;

verus! {

/// The input a system receives when invoked.
pub trait SystemInput: Sized {
    /// The plain value being wrapped.
    type Inner;

    /// What wrapping an inner value yields.
    spec fn wrap_spec(inner: Self::Inner) -> Self;

    /// Wrap a plain value as this input type.
    fn wrap(this: Self::Inner) -> (w: Self)
        ensures
            w == Self::wrap_spec(this),
    ;
}

impl SystemInput for () {
    type Inner = ();

    open spec fn wrap_spec(inner: ()) -> Self {
        ()
    }

    fn wrap(this: ()) -> Self {
    }
}

/// An owned system input.
pub struct In<T>(pub T);

impl<T> In<T> {
    /// The wrapped value.
    pub fn inner(&self) -> (r: &T)
        ensures
            *r == self.0,
    {
        &self.0
    }
}

impl<T> SystemInput for In<T> {
    type Inner = T;

    open spec fn wrap_spec(inner: T) -> Self {
        In(inner)
    }

    fn wrap(this: T) -> Self {
        In(this)
    }
}

/// A borrowed system input.
pub struct InRef<'i, T>(pub &'i T);

impl<'i, T> InRef<'i, T> {
    /// The wrapped reference.
    pub fn inner(&self) -> (r: &T)
        ensures
            *r == *self.0,
    {
        self.0
    }
}

impl<'i, T> SystemInput for InRef<'i, T> {
    type Inner = &'i T;

    open spec fn wrap_spec(inner: &'i T) -> Self {
        InRef(inner)
    }

    fn wrap(this: &'i T) -> Self {
        InRef(this)
    }
}

/// A unit of declared work: its input type, its output type, and the
/// registration of its params' lock requirements.
pub trait System {
    /// The input the system receives.
    type In: SystemInput;

    /// The output the system produces.
    type Out;

    /// The system declares read access to resource `r`.
    spec fn sys_reads(&self, r: u64) -> bool;

    /// The system declares write access to resource `r`.
    spec fn sys_writes(&self, r: u64) -> bool;

    /// Registering this system's declarations on top of `l` raises no
    /// conflict.
    spec fn init_ok(&self, l: SystemLock) -> bool;

    /// Register every param's lock requirement against the per-system
    /// accumulator.  This is where param-level conflicts surface.
    fn init(&self, rw: &mut SystemLock)
        requires
            old(rw).wf(),
            self.init_ok(*old(rw)),
        ensures
            final(rw).wf(),
            forall|r: u64| #[trigger] final(rw).declares_read(r)
                <==> (old(rw).declares_read(r) || self.sys_reads(r)),
            forall|r: u64| #[trigger] final(rw).declares_write(r)
                <==> (old(rw).declares_write(r) || self.sys_writes(r)),
    ;
}

/// A system built from a function together with a param declaration: the
/// usual way work enters a phase.
pub struct FunctionSystem<P: Param, F> {
    f: F,
    params: PhantomData<P>,
}

impl<P: Param, F> FunctionSystem<P, F> {
    /// The wrapped unit of work.
    pub closed spec fn func(self) -> F {
        self.f
    }

    /// Wrap a function and a param declaration as a system.
    pub fn new(f: F) -> (s: Self)
        ensures
            s.func() == f,
    {
        FunctionSystem { f, params: PhantomData }
    }
}

impl<P: Param, F> System for FunctionSystem<P, F> {
    type In = ();

    type Out = ();

    open spec fn sys_reads(&self, r: u64) -> bool {
        P::param_reads(r)
    }

    open spec fn sys_writes(&self, r: u64) -> bool {
        P::param_writes(r)
    }

    open spec fn init_ok(&self, l: SystemLock) -> bool {
        P::init_ok(l)
    }

    fn init(&self, rw: &mut SystemLock) {
        P::init(rw);
    }
}

/// Conversion of a value — typically a function — into a system.
pub trait IntoSystem<Marker> {
    /// The system the value converts into.
    type System: System;

    /// Perform the conversion.
    fn into_system(self) -> Self::System;
}

impl<P: Param, F> IntoSystem<()> for FunctionSystem<P, F> {
    type System = FunctionSystem<P, F>;

    fn into_system(self) -> Self::System {
        self
    }
}

/// A type-erased, single-shot callable task: the uniform shape in which a
/// system's work is handed to the executor.
#[verifier::reject_recursive_types(I)]
#[verifier::reject_recursive_types(O)]
pub struct SystemTask<I, O, F> where F: FnOnce(I) -> O {
    task: F,
    shape: PhantomData<(I, O)>,
}

impl<I, O, F> SystemTask<I, O, F> where F: FnOnce(I) -> O {
    /// The wrapped callable.
    pub closed spec fn func(self) -> F {
        self.task
    }

    /// Wrap a callable as a task.
    pub fn new(f: F) -> (t: Self)
        ensures
            t.func() == f,
    {
        SystemTask { task: f, shape: PhantomData }
    }

    /// Run the task on an input: consumes the task and yields exactly what
    /// the wrapped callable yields.
    pub fn run(self, input: I) -> (out: O)
        requires
            call_requires(self.func(), (input,)),
        ensures
            call_ensures(self.func(), (input,), out),
    {
        (self.task)(input)
    }
}

} // verus!
