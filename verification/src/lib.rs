//! Safety facade and build-time mnemonic classifier for a macro-driven
//! just-in-time code-generation library.
//!
//! The build-time half decomposes raw instruction-emission macro names into
//! stems and suffixes, groups them into instruction families, classifies each
//! entry's true parameter signature, and renders a stable table of typed
//! entries. The runtime half models the library-wide initialization guard,
//! per-session emission contexts, instruction-node handles scoped to their
//! session, and register identifiers validated against per-class limits.

pub mod classify;
pub mod decompose;
pub mod emit;
pub mod eval;
pub mod extract;
pub mod jit;
pub mod jitstate;
pub mod text;
pub mod types;
pub mod variants;

pub use jit::Jit;
pub use jitstate::JitState;
pub use types::JitNode;
pub use types::JitPointer;
pub use types::JitUword;
pub use types::JitWord;
pub use types::Reg;
pub use types::NULL;
