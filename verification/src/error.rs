//! The two ways in which a command line can be refused.

use vstd::prelude::*;

verus! {

/// Why a list of command-line tokens was refused.
#[derive(Debug, Clone, Copy, PartialEq, Eq, Structural)]
pub enum ParseError {
    /// A flag token names a flag that does not exist.
    Flag,
    /// A dice token is not of the form `[AMOUNT]dSIDES` with a positive `SIDES`.
    Dice,
}

} // verus!
