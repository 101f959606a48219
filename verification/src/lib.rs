//! A miniature stack-language toolchain.
//!
//! Source text is tokenized and assembled into a compact bytecode [`program::Program`]
//! (a byte buffer plus deduplicated constant and identifier pools), which a
//! stack-based virtual machine ([`vm`]) then executes.

pub mod assembler;
pub mod binops;
pub mod builtins;
pub mod cursor;
pub mod float_bits;
pub mod program;
pub mod op_codes;
pub mod value;
pub mod vm;
