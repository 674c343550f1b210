//! How keystrokes are interpreted.
use vstd::prelude::*;

verus! {

/// The processing mode of the engine.
#[derive(Debug, Clone, Copy, PartialEq, Eq, Structural, Default)]
pub enum Mode {
    /// Process input using Vietnamese transformation rules.
    #[default]
    Vietnamese,
    /// Treat input as plain text (no transformations).
    English,
}

} // verus!
