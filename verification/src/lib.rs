//! Core logic of a desktop launcher that provisions a local environment,
//! runs an update subprocess while reporting its progress, and supervises a
//! long-running backend server process.
//!
//! The library holds the deterministic parts: a byte-stream line
//! reconstructor, a progress-percentage extractor, the update monitor that
//! classifies merged output lines, and the state machines that decide how the
//! backend process is started, health-checked and terminated. The surrounding
//! process, socket and file plumbing drives these from outside.

use vstd::prelude::*;

pub mod lines;
pub mod percent;
pub mod setup;
pub mod splash;
pub mod supervisor;
pub mod text;
pub mod update;

verus! {

/// True for bytes the line reconstructor keeps: printable ASCII plus DEL.
/// Everything else acts as a line terminator.
pub open spec fn printable(b: u8) -> bool {
    32 <= b && b <= 127
}

/// The character a printable byte stands for.
pub open spec fn byte_char(b: u8) -> char {
    b as char
}

/// Check a byte for printability.
pub fn is_printable(b: u8) -> (r: bool)
    ensures
        r == printable(b),
{
    32 <= b && b <= 127
}

} // verus!
