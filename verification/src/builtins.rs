//! Host-provided built-in functions. Their bodies are pre-emitted by the
//! assembler into a preamble at the front of every compiled program, behind
//! a jump that skips them, and are reachable only through a call.

use vstd::prelude::*;

verus! {

/// Where the assembler's preamble places the body of the `print` built-in:
/// right behind the five-byte jump that skips the preamble.
pub const PRINT_ENTRY: usize = 5;

/// The built-in identifiers a `LoadBuiltin` operand byte may carry.
/// `Exit` is the highest value and serves as the bound of the valid range.
#[derive(Clone, Copy, Debug, PartialEq, Eq, Structural)]
pub enum Builtin {
    Print,
    Exit,
}

/// Decode error: the byte lies above the highest built-in identifier.
#[derive(Clone, Copy, Debug, PartialEq, Eq, Structural)]
pub struct InvalidBuiltin;

impl Builtin {
    /// The byte value this built-in is identified by.
    pub open spec fn spec_byte(self) -> u8 {
        match self {
            Builtin::Print => 0,
            Builtin::Exit => 1,
        }
    }

    /// The built-in a byte decodes to, or an error above the highest one.
    pub open spec fn spec_from_byte(b: u8) -> Result<Builtin, InvalidBuiltin> {
        if b == 0 {
            Ok(Builtin::Print)
        } else if b == 1 {
            Ok(Builtin::Exit)
        } else {
            Err(InvalidBuiltin)
        }
    }

    /// Encode this built-in as its operand byte.
    pub fn to_byte(self) -> (b: u8)
        ensures
            b == self.spec_byte(),
    {
        match self {
            Builtin::Print => 0,
            Builtin::Exit => 1,
        }
    }

    /// Bounds-checked decoding of a built-in identifier byte.
    pub fn from_byte(b: u8) -> (r: Result<Builtin, InvalidBuiltin>)
        ensures
            r == Builtin::spec_from_byte(b),
            r is Ok <==> b <= Builtin::Exit.spec_byte(),
    {
        if b == 0 {
            Ok(Builtin::Print)
        } else if b == 1 {
            Ok(Builtin::Exit)
        } else {
            Err(InvalidBuiltin)
        }
    }

    /// The preamble offset of this built-in's body. `Exit` bounds the valid
    /// identifier range but has no body of its own.
    pub open spec fn spec_entry_offset(self) -> Option<usize> {
        match self {
            Builtin::Print => Some(PRINT_ENTRY),
            Builtin::Exit => None,
        }
    }

    /// The preamble offset of this built-in's body; see
    /// [`Builtin::spec_entry_offset`].
    pub fn entry_offset(self) -> (r: Option<usize>)
        ensures
            r == self.spec_entry_offset(),
    {
        match self {
            Builtin::Print => Some(PRINT_ENTRY),
            Builtin::Exit => None,
        }
    }
}

} // verus!
