//! The library-wide initialization guard and the per-guard session factory.
//!
//! The native code generator has process-wide state that must be initialized
//! exactly once and torn down only after the last user is gone. The state
//! machine lives here as an explicit value: the strict transition rejects a
//! second initialization while one is active, and the reference-counted
//! guards arrange that the native initialization is performed only by the
//! first acquirer and the teardown only by the last releaser. The caller
//! that embeds this library holds one `JitLib` behind its process-wide lock
//! and performs the native calls exactly when these transitions say so.

use vstd::prelude::*;
use crate::types::RegCaps;

verus! {

/// Rejection of an invalid library-wide transition.
#[derive(Clone, Copy, Debug, PartialEq, Eq, Structural)]
pub enum SingletonError {
    /// An initialization was attempted while one is active.
    AlreadyActive,
    /// A teardown was attempted with no active initialization.
    NotActive,
}

/// The process-wide state of the native library: how many guards are alive.
/// Zero means uninitialized.
pub struct JitLib {
    jits_made: u64,
    next_guard: u64,
}

/// One reference-counted guard of the library-wide initialization, and the
/// factory for emission sessions. Holds the per-class register counts the
/// embedder queried at initialization.
pub struct Jit {
    guard: u64,
    next_state: u64,
    caps: RegCaps,
}

impl JitLib {
    /// The number of live guards.
    pub closed spec fn count(self) -> u64 {
        self.jits_made
    }

    /// The identity the next guard will get; identities are never reused.
    pub closed spec fn next_guard_id(self) -> u64 {
        self.next_guard
    }

    /// The number of live guards, as a runtime value.
    pub fn live_count(&self) -> (r: u64)
        ensures
            r == self.count(),
    {
        self.jits_made
    }

    /// The identity the next guard will get, as a runtime value.
    pub fn next_guard_id_exec(&self) -> (r: u64)
        ensures
            r == self.next_guard_id(),
    {
        self.next_guard
    }

    /// A fresh, uninitialized library state.
    pub fn new() -> (r: JitLib)
        ensures
            r.count() == 0,
    {
        JitLib { jits_made: 0, next_guard: 0 }
    }

    /// The guarded strict transition: initialization succeeds only from the
    /// uninitialized state; a second attempt while one is active is
    /// rejected, and the state is left untouched.
    pub fn try_init(&mut self) -> (r: Result<(), SingletonError>)
        ensures
            old(self).count() == 0 ==> r is Ok && final(self).count() == 1,
            old(self).count() != 0 ==> r == Result::<(), SingletonError>::Err(
                SingletonError::AlreadyActive,
            ) && final(self).count() == old(self).count(),
            final(self).next_guard_id() == old(self).next_guard_id(),
    {
        if self.jits_made == 0 {
            self.jits_made = 1;
            Result::Ok(())
        } else {
            Result::Err(SingletonError::AlreadyActive)
        }
    }

    /// The matching teardown: succeeds only while initialized, and returns
    /// the state to uninitialized only when the last guard is gone.
    pub fn teardown(&mut self) -> (r: Result<bool, SingletonError>)
        ensures
            old(self).count() == 0 ==> r == Result::<bool, SingletonError>::Err(
                SingletonError::NotActive,
            ) && final(self).count() == 0,
            old(self).count() != 0 ==> final(self).count() == old(self).count() - 1 && r
                == Result::<bool, SingletonError>::Ok(old(self).count() == 1),
            final(self).next_guard_id() == old(self).next_guard_id(),
    {
        if self.jits_made == 0 {
            Result::Err(SingletonError::NotActive)
        } else {
            self.jits_made = self.jits_made - 1;
            Result::Ok(self.jits_made == 0)
        }
    }
}

impl Jit {
    /// The identity of this guard.
    pub closed spec fn guard_id(self) -> u64 {
        self.guard
    }

    /// The serial number the next session will get.
    pub closed spec fn next_state_serial(self) -> u64 {
        self.next_state
    }

    /// The per-class register counts this guard was created with.
    pub closed spec fn spec_caps(self) -> RegCaps {
        self.caps
    }

    /// Acquires one guard of the library-wide initialization. The returned
    /// flag is true exactly when this is the first live guard — the one
    /// acquisition on whose behalf the embedder must run the native
    /// initialization. `caps` are the per-class register counts the embedder
    /// queried from the running library.
    pub fn new(lib: &mut JitLib, caps: RegCaps) -> (r: (Jit, bool))
        requires
            old(lib).count() < u64::MAX,
            old(lib).next_guard_id() < u64::MAX,
        ensures
            final(lib).count() == old(lib).count() + 1,
            final(lib).next_guard_id() == old(lib).next_guard_id() + 1,
            r.1 == (old(lib).count() == 0),
            r.0.guard_id() == old(lib).next_guard_id(),
            r.0.spec_caps() == caps,
            r.0.next_state_serial() == 0,
    {
        let first = lib.jits_made == 0;
        lib.jits_made = lib.jits_made + 1;
        let guard = lib.next_guard;
        lib.next_guard = lib.next_guard + 1;
        (Jit { guard, next_state: 0, caps }, first)
    }

    /// Releases this guard. The returned flag is true exactly when this was
    /// the last live guard — the release on whose behalf the embedder must
    /// run the native teardown.
    pub fn release(self, lib: &mut JitLib) -> (r: bool)
        requires
            old(lib).count() > 0,
        ensures
            final(lib).count() == old(lib).count() - 1,
            final(lib).next_guard_id() == old(lib).next_guard_id(),
            r == (old(lib).count() == 1),
    {
        lib.jits_made = lib.jits_made - 1;
        lib.jits_made == 0
    }

    /// Dispenses the next session serial number.
    pub(crate) fn bump_serial(&mut self) -> (r: u64)
        requires
            old(self).next_state_serial() < u64::MAX,
        ensures
            r == old(self).next_state_serial(),
            final(self).next_state_serial() == old(self).next_state_serial() + 1,
            final(self).guard_id() == old(self).guard_id(),
            final(self).spec_caps() == old(self).spec_caps(),
    {
        let r = self.next_state;
        self.next_state = self.next_state + 1;
        r
    }

    /// The identity of this guard, as a runtime value.
    pub(crate) fn guard_id_exec(&self) -> (r: u64)
        ensures
            r == self.guard_id(),
    {
        self.guard
    }

    /// The register counts of this guard, as a runtime value.
    pub(crate) fn caps_exec(&self) -> (r: RegCaps)
        ensures
            r == self.spec_caps(),
    {
        self.caps
    }

    /// Number of general-purpose caller-saved registers reported at
    /// initialization.
    pub fn r_num(&self) -> (r: u32)
        ensures
            r == self.spec_caps().r,
    {
        self.caps.r
    }

    /// Number of callee-saved registers reported at initialization.
    pub fn v_num(&self) -> (r: u32)
        ensures
            r == self.spec_caps().v,
    {
        self.caps.v
    }

    /// Number of float registers reported at initialization.
    pub fn f_num(&self) -> (r: u32)
        ensures
            r == self.spec_caps().f,
    {
        self.caps.f
    }
}

} // verus!
