//! Register identifiers, handle types, and the plain values they carry.
//!
//! A register is a tagged index into one of three disjoint classes — general,
//! callee-saved, and float — plus the frame pointer. An index is validated
//! against the per-class maximum reported by the running library before it
//! may reach the native layer; an out-of-range index is a class-labeled
//! error, never silently clamped. A node handle names one instruction of one
//! session and is honored only by the session that created it.

use vstd::prelude::*;

verus! {

/// A machine word handed to or returned by generated code.
pub type JitWord = i64;

/// An unsigned machine word.
pub type JitUword = u64;

/// A code or data address; the model carries addresses as plain values.
pub type JitPointer = usize;

/// The null address.
pub const NULL: JitPointer = 0;

/// The per-class register counts reported by the running library. They are
/// architecture-dependent and queried at initialization, never hard-coded.
#[derive(Clone, Copy, Debug, PartialEq, Eq, Structural)]
pub struct RegCaps {
    /// Number of general-purpose caller-saved registers.
    pub r: u32,
    /// Number of callee-saved registers.
    pub v: u32,
    /// Number of float registers.
    pub f: u32,
}

/// A tagged register index: caller-saved (`R`), callee-saved (`V`), float
/// (`F`), or the frame pointer.
#[derive(Clone, Copy, Debug, PartialEq, Eq, Structural)]
pub enum Reg {
    R(u32),
    V(u32),
    F(u32),
    FP,
}

/// The register classes, for labeling validation failures.
#[derive(Clone, Copy, Debug, PartialEq, Eq, Structural)]
pub enum RegClass {
    General,
    Saved,
    Float,
}

/// A class-labeled out-of-range register index.
#[derive(Clone, Copy, Debug, PartialEq, Eq, Structural)]
pub struct RegError {
    pub class: RegClass,
    pub index: u32,
}

impl Reg {
    /// A register is valid when its index is strictly below its class's
    /// reported count; the frame pointer is always valid.
    pub open spec fn spec_valid(self, caps: RegCaps) -> bool {
        match self {
            Reg::R(i) => i < caps.r,
            Reg::V(i) => i < caps.v,
            Reg::F(i) => i < caps.f,
            Reg::FP => true,
        }
    }

    /// The class-labeled error reported for this register when it is
    /// invalid.
    pub open spec fn spec_error(self) -> RegError {
        match self {
            Reg::R(i) => RegError { class: RegClass::General, index: i },
            Reg::V(i) => RegError { class: RegClass::Saved, index: i },
            Reg::F(i) => RegError { class: RegClass::Float, index: i },
            Reg::FP => RegError { class: RegClass::General, index: 0 },
        }
    }

    /// Validates this register against the reported per-class counts:
    /// success exactly when the index is in range, and otherwise the
    /// class-labeled error, never a clamped or substituted register.
    pub fn validate(&self, caps: &RegCaps) -> (r: Result<(), RegError>)
        ensures
            r is Ok <==> self.spec_valid(*caps),
            r matches Result::Err(e) ==> e == self.spec_error(),
    {
        match self {
            Reg::R(i) => {
                if *i < caps.r {
                    Result::Ok(())
                } else {
                    Result::Err(RegError { class: RegClass::General, index: *i })
                }
            },
            Reg::V(i) => {
                if *i < caps.v {
                    Result::Ok(())
                } else {
                    Result::Err(RegError { class: RegClass::Saved, index: *i })
                }
            },
            Reg::F(i) => {
                if *i < caps.f {
                    Result::Ok(())
                } else {
                    Result::Err(RegError { class: RegClass::Float, index: *i })
                }
            },
            Reg::FP => Result::Ok(()),
        }
    }
}

/// A handle to one instruction node of one session. It records which session
/// produced it; every use is checked against the session's identity, so a
/// handle cannot act on a foreign or later session.
#[derive(Clone, Copy, Debug, PartialEq, Eq, Structural)]
pub struct JitNode {
    /// Identity of the library guard whose session produced this node.
    pub guard: u64,
    /// Serial number of the producing session under that guard.
    pub serial: u64,
    /// Index of the node in the producing session's node list.
    pub index: usize,
}

} // verus!
