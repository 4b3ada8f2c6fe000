//! A runtime function-interception ("detour") engine over a modeled code
//! space: it redirects calls from an original function to a replacement
//! ("detour") function while keeping the original's behaviour reachable
//! through a generated trampoline.
//!
//! The engine works on a flat byte vector standing for the process's
//! executable memory; addresses are indices into it. Everything that decides
//! what bytes are written where — instruction decoding, trampoline
//! synthesis, slot allocation, the all-or-nothing transaction protocol and
//! the relocation of suspended threads' instruction pointers — is verified
//! here. Enumerating and suspending real threads, mapping real executable
//! pages and resolving symbols are platform work that a host shell performs,
//! handing this library plain values.

use vstd::prelude::*;

pub mod decoder;
pub mod memory;
pub mod engine;
pub mod trampoline;

verus! {

/// Upper bound on the modeled code space. Keeping every address below it
/// means every displacement between two addresses fits a 32-bit relative
/// branch encoding.
pub const CODE_MAX: usize = 0x1000_0000;

/// Why an engine operation failed.
#[derive(Clone, Copy, PartialEq, Eq, Structural, Debug)]
pub enum DetourError {
    /// `transaction_begin` while a transaction is already open.
    AlreadyOpen,
    /// attach/detach/commit/abort with no open transaction.
    NotOpen,
    /// The hook is not in the state the requested transition needs.
    InvalidState,
    /// The trampoline builder met an encoding it cannot safely relocate.
    UnrelocatableInstruction,
    /// No reachable executable memory is available for a trampoline slot.
    AllocationFailure,
    /// A thread could not be suspended or its instruction pointer could not
    /// be moved out of a patched region.
    ThreadControlFailure,
    /// Attach on a target that an active hook already covers.
    TargetAlreadyHooked,
    /// Null or out-of-range addresses, zero counts.
    InvalidParameter,
}

impl DetourError {
    /// A short stable name for each failure kind.
    pub fn describe(&self) -> (r: &'static str)
        ensures
            r@.len() > 0,
    {
        let r = match self {
            DetourError::AlreadyOpen => "a transaction is already open",
            DetourError::NotOpen => "no transaction is open",
            DetourError::InvalidState => "hook is not in the required state",
            DetourError::UnrelocatableInstruction => "instruction cannot be relocated",
            DetourError::AllocationFailure => "no reachable executable memory",
            DetourError::ThreadControlFailure => "thread could not be controlled",
            DetourError::TargetAlreadyHooked => "target already has an active hook",
            DetourError::InvalidParameter => "invalid parameter",
        };
        proof {
            reveal_strlit("a transaction is already open");
            reveal_strlit("no transaction is open");
            reveal_strlit("hook is not in the required state");
            reveal_strlit("instruction cannot be relocated");
            reveal_strlit("no reachable executable memory");
            reveal_strlit("thread could not be controlled");
            reveal_strlit("target already has an active hook");
            reveal_strlit("invalid parameter");
        }
        r
    }
}

} // verus!
