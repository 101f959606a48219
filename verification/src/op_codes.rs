//! The instruction set: a closed enumeration of opcodes, each with a fixed
//! byte value in a dense range starting at zero and a declared operand width.

use vstd::prelude::*;

verus! {

/// One instruction's numeric identifier, occupying the first byte of an
/// instruction. The final variant, `StopCode`, is a reserved sentinel: it
/// marks the top of the valid byte range and is never itself decoded.
#[derive(Clone, Copy, Debug, PartialEq, Eq, Structural)]
pub enum OpCode {
    Nop,
    Dup,
    Pop,
    Swap,
    DupSwap,
    Jump,
    Ret,
    PrepareFuncCall,
    Add,
    Sub,
    Mul,
    Div,
    Le,
    Lt,
    Ge,
    Gt,
    Eq,
    Ne,
    UnaryNot,
    LoadConst,
    StoreName,
    LoadName,
    LoadBuiltin,
    PopJumpIfFalse,
    StopCode,
}

/// Decode error: the given byte lies at or above the sentinel value and
/// names no instruction.
#[derive(Clone, Copy, Debug, PartialEq, Eq, Structural)]
pub struct InvalidOpCode(pub u8);

impl OpCode {
    /// The byte value this opcode is encoded as in the instruction stream.
    pub open spec fn spec_byte(self) -> u8 {
        match self {
            OpCode::Nop => 0,
            OpCode::Dup => 1,
            OpCode::Pop => 2,
            OpCode::Swap => 3,
            OpCode::DupSwap => 4,
            OpCode::Jump => 5,
            OpCode::Ret => 6,
            OpCode::PrepareFuncCall => 7,
            OpCode::Add => 8,
            OpCode::Sub => 9,
            OpCode::Mul => 10,
            OpCode::Div => 11,
            OpCode::Le => 12,
            OpCode::Lt => 13,
            OpCode::Ge => 14,
            OpCode::Gt => 15,
            OpCode::Eq => 16,
            OpCode::Ne => 17,
            OpCode::UnaryNot => 18,
            OpCode::LoadConst => 19,
            OpCode::StoreName => 20,
            OpCode::LoadName => 21,
            OpCode::LoadBuiltin => 22,
            OpCode::PopJumpIfFalse => 23,
            OpCode::StopCode => 24,
        }
    }

    /// The opcode a byte decodes to, or an error for any byte at or above
    /// the sentinel.
    pub open spec fn spec_from_byte(b: u8) -> Result<OpCode, InvalidOpCode> {
        if b == 0 {
            Ok(OpCode::Nop)
        } else if b == 1 {
            Ok(OpCode::Dup)
        } else if b == 2 {
            Ok(OpCode::Pop)
        } else if b == 3 {
            Ok(OpCode::Swap)
        } else if b == 4 {
            Ok(OpCode::DupSwap)
        } else if b == 5 {
            Ok(OpCode::Jump)
        } else if b == 6 {
            Ok(OpCode::Ret)
        } else if b == 7 {
            Ok(OpCode::PrepareFuncCall)
        } else if b == 8 {
            Ok(OpCode::Add)
        } else if b == 9 {
            Ok(OpCode::Sub)
        } else if b == 10 {
            Ok(OpCode::Mul)
        } else if b == 11 {
            Ok(OpCode::Div)
        } else if b == 12 {
            Ok(OpCode::Le)
        } else if b == 13 {
            Ok(OpCode::Lt)
        } else if b == 14 {
            Ok(OpCode::Ge)
        } else if b == 15 {
            Ok(OpCode::Gt)
        } else if b == 16 {
            Ok(OpCode::Eq)
        } else if b == 17 {
            Ok(OpCode::Ne)
        } else if b == 18 {
            Ok(OpCode::UnaryNot)
        } else if b == 19 {
            Ok(OpCode::LoadConst)
        } else if b == 20 {
            Ok(OpCode::StoreName)
        } else if b == 21 {
            Ok(OpCode::LoadName)
        } else if b == 22 {
            Ok(OpCode::LoadBuiltin)
        } else if b == 23 {
            Ok(OpCode::PopJumpIfFalse)
        } else {
            Err(InvalidOpCode(b))
        }
    }

    /// The width in bytes of the operand that must follow this opcode.
    pub open spec fn spec_size_operand(self) -> usize {
        match self {
            OpCode::LoadBuiltin => 1,
            OpCode::LoadConst | OpCode::StoreName | OpCode::LoadName => 4,
            OpCode::PopJumpIfFalse | OpCode::Jump => 4,
            _ => 0,
        }
    }

    /// Encode this opcode as its instruction-stream byte.
    pub fn to_byte(self) -> (b: u8)
        ensures
            b == self.spec_byte(),
    {
        match self {
            OpCode::Nop => 0,
            OpCode::Dup => 1,
            OpCode::Pop => 2,
            OpCode::Swap => 3,
            OpCode::DupSwap => 4,
            OpCode::Jump => 5,
            OpCode::Ret => 6,
            OpCode::PrepareFuncCall => 7,
            OpCode::Add => 8,
            OpCode::Sub => 9,
            OpCode::Mul => 10,
            OpCode::Div => 11,
            OpCode::Le => 12,
            OpCode::Lt => 13,
            OpCode::Ge => 14,
            OpCode::Gt => 15,
            OpCode::Eq => 16,
            OpCode::Ne => 17,
            OpCode::UnaryNot => 18,
            OpCode::LoadConst => 19,
            OpCode::StoreName => 20,
            OpCode::LoadName => 21,
            OpCode::LoadBuiltin => 22,
            OpCode::PopJumpIfFalse => 23,
            OpCode::StopCode => 24,
        }
    }

    /// Bounds-checked decoding of an opcode byte: bytes below the sentinel
    /// value decode to their opcode, everything else is a decode error.
    pub fn from_byte(b: u8) -> (r: Result<OpCode, InvalidOpCode>)
        ensures
            r == OpCode::spec_from_byte(b),
            r is Ok <==> b < OpCode::StopCode.spec_byte(),
    {
        let r = if b == 0 {
            Ok(OpCode::Nop)
        } else if b == 1 {
            Ok(OpCode::Dup)
        } else if b == 2 {
            Ok(OpCode::Pop)
        } else if b == 3 {
            Ok(OpCode::Swap)
        } else if b == 4 {
            Ok(OpCode::DupSwap)
        } else if b == 5 {
            Ok(OpCode::Jump)
        } else if b == 6 {
            Ok(OpCode::Ret)
        } else if b == 7 {
            Ok(OpCode::PrepareFuncCall)
        } else if b == 8 {
            Ok(OpCode::Add)
        } else if b == 9 {
            Ok(OpCode::Sub)
        } else if b == 10 {
            Ok(OpCode::Mul)
        } else if b == 11 {
            Ok(OpCode::Div)
        } else if b == 12 {
            Ok(OpCode::Le)
        } else if b == 13 {
            Ok(OpCode::Lt)
        } else if b == 14 {
            Ok(OpCode::Ge)
        } else if b == 15 {
            Ok(OpCode::Gt)
        } else if b == 16 {
            Ok(OpCode::Eq)
        } else if b == 17 {
            Ok(OpCode::Ne)
        } else if b == 18 {
            Ok(OpCode::UnaryNot)
        } else if b == 19 {
            Ok(OpCode::LoadConst)
        } else if b == 20 {
            Ok(OpCode::StoreName)
        } else if b == 21 {
            Ok(OpCode::LoadName)
        } else if b == 22 {
            Ok(OpCode::LoadBuiltin)
        } else if b == 23 {
            Ok(OpCode::PopJumpIfFalse)
        } else {
            Err(InvalidOpCode(b))
        };
        r
    }

    /// The width in bytes of this opcode's operand: 0, 1 or 4.
    pub fn size_operand(self) -> (n: usize)
        ensures
            n == self.spec_size_operand(),
    {
        match self {
            OpCode::Nop | OpCode::Dup | OpCode::Pop | OpCode::Swap | OpCode::DupSwap => 0,
            OpCode::PrepareFuncCall | OpCode::Ret => 0,
            OpCode::Add | OpCode::Sub | OpCode::Mul | OpCode::Div | OpCode::UnaryNot => 0,
            OpCode::Le | OpCode::Lt | OpCode::Ge | OpCode::Gt | OpCode::Eq | OpCode::Ne => 0,
            OpCode::LoadBuiltin => 1,
            OpCode::LoadConst | OpCode::StoreName | OpCode::LoadName => 4,
            OpCode::PopJumpIfFalse | OpCode::Jump => 4,
            OpCode::StopCode => 0,
        }
    }
}

/// Decoding is a left inverse of encoding: every opcode below the sentinel
/// decodes back to itself.
pub proof fn lemma_opcode_byte_roundtrip(op: OpCode)
    requires
        op != OpCode::StopCode,
    ensures
        OpCode::spec_from_byte(op.spec_byte()) == Ok::<OpCode, InvalidOpCode>(op),
{
}

} // verus!
