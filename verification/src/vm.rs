//! The virtual machine: a fetch-decode-dispatch loop over an operand stack,
//! a return-address call stack, and a variable table keyed by
//! identifier-pool index.
//!
//! One dispatch step is specified by [`spec_step`], a function from machine
//! state to machine state or error; [`Vm::run_next`] is verified against it
//! exactly, and [`Vm::run`] iterates it until the instruction pointer leaves
//! the byte stream. A runtime error carries the operand stack as it stood at
//! the failure point.

use vstd::bytes::spec_u32_from_le_bytes;
use vstd::prelude::*;

use crate::binops::{spec_add, spec_div, spec_mul, spec_sub};
use crate::builtins::Builtin;
use crate::op_codes::OpCode;
use crate::program::{Program, CODE_LIMIT};
use crate::value::{truthiness, val_eq, val_le, val_lt, views_of, Value, ValueV};

verus! {

broadcast use
    crate::value::lemma_views_of_push,
    crate::value::lemma_views_of_drop_last,
    crate::value::lemma_views_of_last,
    crate::value::lemma_views_of_len,
    crate::value::lemma_views_of_pop_shape,
;

/// Why execution halted.
#[derive(Debug, Clone, Copy, PartialEq, Eq, Structural)]
pub enum VmErrorKind {
    /// An instruction byte at or above the opcode range was fetched.
    InvalidOpCode(u8),
    /// A `LoadBuiltin` operand named no callable built-in.
    InvalidBuiltin(u8),
    /// An operand runs past the end of the byte stream.
    TruncatedOperand,
    /// A `LoadConst` operand indexes past the constant pool.
    BadConstIndex,
    /// A `StoreName`/`LoadName` operand indexes past the identifier pool.
    BadNameIndex,
    /// A name was loaded before anything was stored under it.
    UndefinedVariable,
    /// An instruction popped more operands than the stack held.
    StackUnderflow,
    /// `Ret` with nothing on the call stack.
    CallStackUnderflow,
    /// Arithmetic or truthiness on operand types it is not defined for.
    UnsupportedTypes,
    /// The dispatch loop's step ceiling was reached; see [`Vm::run`].
    ExecutionLimit,
    /// The byte stream is too long for four-byte absolute offsets.
    ProgramTooLarge,
}

/// A runtime error, together with the operand stack as it stood when the
/// error arose.
#[derive(Debug)]
pub struct VmError {
    pub kind: VmErrorKind,
    pub stack: Vec<Value>,
}

/// One execution: the program's read-only parts plus this run's own
/// operand stack, variable table and call stack.
pub struct Vm {
    pub program: Program,
    pub stack: Vec<Value>,
    pub variables: Vec<Option<Value>>,
    pub call_stack: Vec<usize>,
    pub head: usize,
}

/// The mathematical shape of a [`Vm`]: the variable table is a slot per
/// identifier-pool entry.
pub struct VmV {
    pub bytes: Seq<u8>,
    pub constants: Seq<ValueV>,
    pub stack: Seq<ValueV>,
    pub variables: Seq<Option<ValueV>>,
    pub call_stack: Seq<usize>,
    pub head: usize,
}

impl View for Vm {
    type V = VmV;

    open spec fn view(&self) -> VmV {
        VmV {
            bytes: self.program@.bytes,
            constants: self.program@.constants,
            stack: views_of(self.stack@),
            variables: self.variables@.map_values(
                |o: Option<Value>|
                    match o {
                        Some(v) => Some(v@),
                        None => None,
                    },
            ),
            call_stack: self.call_stack@,
            head: self.head,
        }
    }
}

impl Vm {
    /// The machine limit every running program observes; see [`CODE_LIMIT`].
    pub open spec fn wf(&self) -> bool {
        self@.bytes.len() <= CODE_LIMIT
    }
}

/// The four-byte little-endian operand starting at `at`.
pub open spec fn le4(b: Seq<u8>, at: int) -> u32
    recommends
        0 <= at,
        at + 4 <= b.len(),
{
    spec_u32_from_le_bytes(b.subrange(at, at + 4))
}

/// What an arithmetic opcode computes from its two operands.
pub open spec fn arith_result(
    op: OpCode,
    a: ValueV,
    b: ValueV,
) -> Result<ValueV, crate::binops::UnsupportedOp>
    recommends
        op is Add || op is Sub || op is Mul || op is Div,
{
    match op {
        OpCode::Add => spec_add(a, b),
        OpCode::Sub => spec_sub(a, b),
        OpCode::Mul => spec_mul(a, b),
        _ => spec_div(a, b),
    }
}

/// What a comparison opcode computes from its two operands. Comparisons are
/// total: any two values compare (a NaN payload is below, above and equal
/// to nothing).
pub open spec fn cmp_result(op: OpCode, a: ValueV, b: ValueV) -> bool
    recommends
        op is Le || op is Lt || op is Ge || op is Gt || op is Eq || op is Ne,
{
    match op {
        OpCode::Le => val_le(a, b),
        OpCode::Lt => val_lt(a, b),
        OpCode::Ge => val_le(b, a),
        OpCode::Gt => val_lt(b, a),
        OpCode::Eq => val_eq(a, b),
        _ => !val_eq(a, b),
    }
}

/// The integer value a boolean pushes as.
pub open spec fn bool_value(b: bool) -> ValueV {
    if b {
        ValueV::Int(1)
    } else {
        ValueV::Int(0)
    }
}

/// One fetch-decode-dispatch step from state `s`, whose instruction pointer
/// must still be inside the byte stream. `Ok` is the next state; `Err` is
/// the halting error together with the operand stack at the failure point.
/// Errors leave the instruction pointer, variable table and call stack as
/// they were, but operands popped before the failure stay popped.
pub open spec fn spec_step(s: VmV) -> Result<VmV, (VmErrorKind, Seq<ValueV>)>
    recommends
        s.head < s.bytes.len(),
{
    let h = s.head as int;
    match OpCode::spec_from_byte(s.bytes[h]) {
        Err(e) => Err((VmErrorKind::InvalidOpCode(s.bytes[h]), s.stack)),
        Ok(op) => match op {
            OpCode::Nop => Ok(VmV { head: (s.head + 1) as usize, ..s }),
            OpCode::Dup => {
                if s.stack.len() == 0 {
                    Err((VmErrorKind::StackUnderflow, s.stack))
                } else {
                    Ok(
                        VmV {
                            stack: s.stack.push(s.stack.last()),
                            head: (s.head + 1) as usize,
                            ..s
                        },
                    )
                }
            },
            OpCode::Pop => Ok(
                VmV {
                    stack: if s.stack.len() == 0 {
                        s.stack
                    } else {
                        s.stack.drop_last()
                    },
                    head: (s.head + 1) as usize,
                    ..s
                },
            ),
            OpCode::Swap => {
                if s.stack.len() < 2 {
                    Err(
                        (
                            VmErrorKind::StackUnderflow,
                            if s.stack.len() == 0 {
                                s.stack
                            } else {
                                s.stack.drop_last()
                            },
                        ),
                    )
                } else {
                    let b = s.stack.last();
                    let a = s.stack.drop_last().last();
                    Ok(
                        VmV {
                            stack: s.stack.drop_last().drop_last().push(b).push(a),
                            head: (s.head + 1) as usize,
                            ..s
                        },
                    )
                }
            },
            OpCode::DupSwap => {
                if s.stack.len() < 2 {
                    Err(
                        (
                            VmErrorKind::StackUnderflow,
                            if s.stack.len() == 0 {
                                s.stack
                            } else {
                                s.stack.drop_last()
                            },
                        ),
                    )
                } else {
                    let b = s.stack.last();
                    let a = s.stack.drop_last().last();
                    Ok(
                        VmV {
                            stack: s.stack.drop_last().drop_last().push(b).push(a).push(b),
                            head: (s.head + 1) as usize,
                            ..s
                        },
                    )
                }
            },
            OpCode::Add | OpCode::Sub | OpCode::Mul | OpCode::Div => {
                if s.stack.len() < 2 {
                    Err(
                        (
                            VmErrorKind::StackUnderflow,
                            if s.stack.len() == 0 {
                                s.stack
                            } else {
                                s.stack.drop_last()
                            },
                        ),
                    )
                } else {
                    let b = s.stack.last();
                    let a = s.stack.drop_last().last();
                    let rest = s.stack.drop_last().drop_last();
                    match arith_result(op, a, b) {
                        Ok(v) => Ok(
                            VmV { stack: rest.push(v), head: (s.head + 1) as usize, ..s },
                        ),
                        Err(_) => Err((VmErrorKind::UnsupportedTypes, rest)),
                    }
                }
            },
            OpCode::Le | OpCode::Lt | OpCode::Ge | OpCode::Gt | OpCode::Eq | OpCode::Ne => {
                if s.stack.len() < 2 {
                    Err(
                        (
                            VmErrorKind::StackUnderflow,
                            if s.stack.len() == 0 {
                                s.stack
                            } else {
                                s.stack.drop_last()
                            },
                        ),
                    )
                } else {
                    let b = s.stack.last();
                    let a = s.stack.drop_last().last();
                    let rest = s.stack.drop_last().drop_last();
                    Ok(
                        VmV {
                            stack: rest.push(bool_value(cmp_result(op, a, b))),
                            head: (s.head + 1) as usize,
                            ..s
                        },
                    )
                }
            },
            OpCode::UnaryNot => {
                if s.stack.len() == 0 {
                    Err((VmErrorKind::StackUnderflow, s.stack))
                } else {
                    let rest = s.stack.drop_last();
                    match truthiness(s.stack.last()) {
                        Some(t) => Ok(
                            VmV {
                                stack: rest.push(bool_value(!t)),
                                head: (s.head + 1) as usize,
                                ..s
                            },
                        ),
                        None => Err((VmErrorKind::UnsupportedTypes, rest)),
                    }
                }
            },
            OpCode::LoadConst => {
                if s.head + 5 > s.bytes.len() {
                    Err((VmErrorKind::TruncatedOperand, s.stack))
                } else {
                    let idx = le4(s.bytes, h + 1) as int;
                    if idx >= s.constants.len() {
                        Err((VmErrorKind::BadConstIndex, s.stack))
                    } else {
                        Ok(
                            VmV {
                                stack: s.stack.push(s.constants[idx]),
                                head: (s.head + 5) as usize,
                                ..s
                            },
                        )
                    }
                }
            },
            OpCode::Jump => {
                if s.head + 5 > s.bytes.len() {
                    Err((VmErrorKind::TruncatedOperand, s.stack))
                } else {
                    Ok(VmV { head: le4(s.bytes, h + 1) as usize, ..s })
                }
            },
            OpCode::PopJumpIfFalse => {
                if s.stack.len() == 0 {
                    Err((VmErrorKind::StackUnderflow, s.stack))
                } else {
                    let rest = s.stack.drop_last();
                    match truthiness(s.stack.last()) {
                        None => Err((VmErrorKind::UnsupportedTypes, rest)),
                        Some(t) => {
                            if t {
                                Ok(VmV { stack: rest, head: (s.head + 5) as usize, ..s })
                            } else if s.head + 5 > s.bytes.len() {
                                Err((VmErrorKind::TruncatedOperand, rest))
                            } else {
                                Ok(
                                    VmV {
                                        stack: rest,
                                        head: le4(s.bytes, h + 1) as usize,
                                        ..s
                                    },
                                )
                            }
                        },
                    }
                }
            },
            OpCode::Ret => {
                if s.call_stack.len() == 0 {
                    Err((VmErrorKind::CallStackUnderflow, s.stack))
                } else {
                    Ok(
                        VmV {
                            call_stack: s.call_stack.drop_last(),
                            head: s.call_stack.last(),
                            ..s
                        },
                    )
                }
            },
            OpCode::PrepareFuncCall => Ok(
                VmV {
                    call_stack: s.call_stack.push((s.head + 6) as usize),
                    head: (s.head + 1) as usize,
                    ..s
                },
            ),
            OpCode::StoreName => {
                if s.stack.len() == 0 {
                    Err((VmErrorKind::StackUnderflow, s.stack))
                } else {
                    let rest = s.stack.drop_last();
                    if s.head + 5 > s.bytes.len() {
                        Err((VmErrorKind::TruncatedOperand, rest))
                    } else {
                        let idx = le4(s.bytes, h + 1) as int;
                        if idx >= s.variables.len() {
                            Err((VmErrorKind::BadNameIndex, rest))
                        } else {
                            Ok(
                                VmV {
                                    stack: rest,
                                    variables: s.variables.update(idx, Some(s.stack.last())),
                                    head: (s.head + 5) as usize,
                                    ..s
                                },
                            )
                        }
                    }
                }
            },
            OpCode::LoadName => {
                if s.head + 5 > s.bytes.len() {
                    Err((VmErrorKind::TruncatedOperand, s.stack))
                } else {
                    let idx = le4(s.bytes, h + 1) as int;
                    if idx >= s.variables.len() {
                        Err((VmErrorKind::BadNameIndex, s.stack))
                    } else {
                        match s.variables[idx] {
                            None => Err((VmErrorKind::UndefinedVariable, s.stack)),
                            Some(v) => Ok(
                                VmV {
                                    stack: s.stack.push(v),
                                    head: (s.head + 5) as usize,
                                    ..s
                                },
                            ),
                        }
                    }
                }
            },
            OpCode::LoadBuiltin => {
                if s.head + 2 > s.bytes.len() {
                    Err((VmErrorKind::TruncatedOperand, s.stack))
                } else {
                    let id = s.bytes[h + 1];
                    match Builtin::spec_from_byte(id) {
                        Err(_) => Err((VmErrorKind::InvalidBuiltin(id), s.stack)),
                        Ok(b) => match b.spec_entry_offset() {
                            None => Err((VmErrorKind::InvalidBuiltin(id), s.stack)),
                            Some(entry) => Ok(
                                VmV {
                                    stack: s.stack.push(ValueV::Function(entry)),
                                    head: (s.head + 2) as usize,
                                    ..s
                                },
                            ),
                        },
                    }
                }
            },
            OpCode::StopCode => Err((VmErrorKind::InvalidOpCode(s.bytes[h]), s.stack)),
        },
    }
}

/// At most `n` dispatch steps from `s`: stops early when the instruction
/// pointer leaves the byte stream (normal termination) or a step fails.
pub open spec fn steps(s: VmV, n: nat) -> Result<VmV, (VmErrorKind, Seq<ValueV>)>
    decreases n,
{
    if n == 0 || s.head >= s.bytes.len() {
        Ok(s)
    } else {
        match spec_step(s) {
            Ok(s2) => steps(s2, (n - 1) as nat),
            Err(e) => Err(e),
        }
    }
}

/// A successful run of `n` steps followed by one more successful step is a
/// successful run of `n + 1` steps.
pub proof fn lemma_steps_extend(s0: VmV, n: nat, s1: VmV, s2: VmV)
    requires
        steps(s0, n) == Ok::<VmV, (VmErrorKind, Seq<ValueV>)>(s1),
        s1.head < s1.bytes.len(),
        spec_step(s1) == Ok::<VmV, (VmErrorKind, Seq<ValueV>)>(s2),
    ensures
        steps(s0, n + 1) == Ok::<VmV, (VmErrorKind, Seq<ValueV>)>(s2),
    decreases n,
{
    if n == 0 || s0.head >= s0.bytes.len() {
        assert(s1 == s0);
        assert(steps(s2, 0) == Ok::<VmV, (VmErrorKind, Seq<ValueV>)>(s2));
    } else {
        match spec_step(s0) {
            Ok(m) => {
                lemma_steps_extend(m, (n - 1) as nat, s1, s2);
            },
            Err(_) => {
                assert(false);
            },
        }
    }
}

/// A successful run of `n` steps followed by one failing step is a failing
/// run of `n + 1` steps.
pub proof fn lemma_steps_extend_err(
    s0: VmV,
    n: nat,
    s1: VmV,
    e: (VmErrorKind, Seq<ValueV>),
)
    requires
        steps(s0, n) == Ok::<VmV, (VmErrorKind, Seq<ValueV>)>(s1),
        s1.head < s1.bytes.len(),
        spec_step(s1) == Err::<VmV, (VmErrorKind, Seq<ValueV>)>(e),
    ensures
        steps(s0, n + 1) == Err::<VmV, (VmErrorKind, Seq<ValueV>)>(e),
    decreases n,
{
    if n == 0 || s0.head >= s0.bytes.len() {
        assert(s1 == s0);
    } else {
        match spec_step(s0) {
            Ok(m) => {
                lemma_steps_extend_err(m, (n - 1) as nat, s1, e);
            },
            Err(_) => {
                assert(false);
            },
        }
    }
}

/// A dispatch step never touches the program's bytes or constants.
proof fn lemma_step_preserves_program(s: VmV, s2: VmV)
    requires
        spec_step(s) == Ok::<VmV, (VmErrorKind, Seq<ValueV>)>(s2),
    ensures
        s2.bytes == s.bytes,
        s2.constants == s.constants,
{
}

/// A run of any length never touches the program's bytes or constants.
proof fn lemma_steps_preserve_program(s: VmV, n: nat, s2: VmV)
    requires
        steps(s, n) == Ok::<VmV, (VmErrorKind, Seq<ValueV>)>(s2),
    ensures
        s2.bytes == s.bytes,
        s2.constants == s.constants,
    decreases n,
{
    if n == 0 || s.head >= s.bytes.len() {
    } else {
        match spec_step(s) {
            Ok(m) => {
                lemma_step_preserves_program(s, m);
                lemma_steps_preserve_program(m, (n - 1) as nat, s2);
            },
            Err(_) => {
                assert(false);
            },
        }
    }
}

/// The state a fresh machine starts a program in: empty stacks, one unset
/// variable slot per identifier-pool entry, instruction pointer at zero.
pub open spec fn spec_init_vm(p: crate::program::ProgramV) -> VmV {
    VmV {
        bytes: p.bytes,
        constants: p.constants,
        stack: Seq::empty(),
        variables: Seq::new(p.idents.len(), |i: int| None),
        call_stack: Seq::empty(),
        head: 0,
    }
}

/// Create a machine over `program` and run it to completion; the result is
/// the residual operand stack, or the runtime error with the partial stack
/// at the failure point. A program longer than [`CODE_LIMIT`] is refused
/// outright.
pub fn create_and_run(program: &Program) -> (r: Result<Vec<Value>, VmError>)
    ensures
        program@.bytes.len() > CODE_LIMIT ==> (r matches Err(e) && e.kind
            == VmErrorKind::ProgramTooLarge && e.stack@.len() == 0),
        program@.bytes.len() <= CODE_LIMIT ==> match r {
            Ok(stack) => exists|n: nat|
                #[trigger] steps(spec_init_vm(program@), n) matches Ok(s) && s.head
                    >= program@.bytes.len() && s.stack == views_of(stack@),
            Err(e) => (exists|n: nat|
                steps(spec_init_vm(program@), n) == Err::<VmV, (VmErrorKind, Seq<ValueV>)>(
                    (e.kind, views_of(e.stack@)),
                )) || (e.kind == VmErrorKind::ExecutionLimit && (steps(
                spec_init_vm(program@),
                u64::MAX as nat,
            ) matches Ok(s) && s.head < program@.bytes.len() && s.stack == views_of(e.stack@))),
        },
{
    if program.bytes.len() > CODE_LIMIT {
        return Err(VmError { kind: VmErrorKind::ProgramTooLarge, stack: Vec::new() });
    }
    let mut vm = Vm::new(program);
    let ghost init = vm@;
    match vm.run() {
        Ok(()) => {
            proof {
                let n = choose|n: nat|
                    steps(init, n) == Ok::<VmV, (VmErrorKind, Seq<ValueV>)>(vm@) && vm@.head
                        >= vm@.bytes.len();
                lemma_steps_preserve_program(init, n, vm@);
                assert(steps(spec_init_vm(program@), n) matches Ok(s) && s.head
                    >= program@.bytes.len() && s.stack == views_of(vm.stack@));
            }
            Ok(vm.stack)
        },
        Err(kind) => {
            proof {
                if exists|n: nat|
                    steps(init, n) == Err::<VmV, (VmErrorKind, Seq<ValueV>)>(
                        (kind, vm@.stack),
                    ) {
                    let n = choose|n: nat|
                        steps(init, n) == Err::<VmV, (VmErrorKind, Seq<ValueV>)>(
                            (kind, vm@.stack),
                        );
                    assert(steps(spec_init_vm(program@), n) == Err::<
                        VmV,
                        (VmErrorKind, Seq<ValueV>),
                    >((kind, views_of(vm.stack@))));
                } else {
                    assert(kind == VmErrorKind::ExecutionLimit);
                    lemma_steps_preserve_program(init, u64::MAX as nat, vm@);
                    assert(steps(spec_init_vm(program@), u64::MAX as nat) matches Ok(s) && s.head
                        < program@.bytes.len() && s.stack == views_of(vm.stack@));
                }
            }
            Err(VmError { kind, stack: vm.stack })
        },
    }
}

impl Vm {
    /// A fresh machine over its own copy of `program`, ready at offset 0.
    pub fn new(program: &Program) -> (vm: Vm)
        requires
            program@.bytes.len() <= CODE_LIMIT,
        ensures
            vm@ == spec_init_vm(program@),
            vm.wf(),
    {
        let owned = program.clone();
        let n = owned.idents.len();
        let mut variables: Vec<Option<Value>> = Vec::new();
        let mut i: usize = 0;
        while i < n
            invariant
                0 <= i <= n,
                variables@.len() == i,
                forall|j: int| 0 <= j < i ==> variables@[j] is None,
            decreases n - i,
        {
            variables.push(None);
            i = i + 1;
        }
        let vm = Vm { program: owned, stack: Vec::new(), variables, call_stack: Vec::new(), head: 0 };
        proof {
            assert(vm@.variables =~= spec_init_vm(program@).variables);
            assert(vm@.stack =~= Seq::<ValueV>::empty());
            assert(vm@ == spec_init_vm(program@));
        }
        vm
    }

    /// Run until the instruction pointer leaves the byte stream (`Ok`) or a
    /// step fails (`Err`). The final state is what some number of
    /// [`spec_step`] steps from the starting state yields. The dispatch
    /// loop carries a step ceiling of `u64::MAX` instructions, a bound no
    /// real run approaches (centuries of dispatch at a nanosecond a step):
    /// a program still inside the byte stream when the ceiling is reached
    /// halts with `ExecutionLimit` instead of looping on.
    pub fn run(&mut self) -> (r: Result<(), VmErrorKind>)
        requires
            old(self).wf(),
        ensures
            final(self).wf(),
            match r {
                Ok(()) => exists|n: nat|
                    steps(old(self)@, n) == Ok::<VmV, (VmErrorKind, Seq<ValueV>)>(final(self)@)
                        && final(self)@.head >= final(self)@.bytes.len(),
                Err(kind) => (exists|n: nat|
                    steps(old(self)@, n) == Err::<VmV, (VmErrorKind, Seq<ValueV>)>(
                        (kind, final(self)@.stack),
                    )) || (kind == VmErrorKind::ExecutionLimit && steps(
                    old(self)@,
                    u64::MAX as nat,
                ) == Ok::<VmV, (VmErrorKind, Seq<ValueV>)>(final(self)@) && final(self)@.head
                    < final(self)@.bytes.len()),
            },
    {
        let ghost s0 = self@;
        let ghost n: nat = 0;
        let mut fuel: u64 = u64::MAX;
        loop
            invariant
                self.wf(),
                s0 == old(self)@,
                n + fuel == u64::MAX,
                steps(s0, n) == Ok::<VmV, (VmErrorKind, Seq<ValueV>)>(self@),
            decreases fuel,
        {
            if self.head >= self.program.bytes.len() {
                proof {
                    assert(steps(old(self)@, n) == Ok::<VmV, (VmErrorKind, Seq<ValueV>)>(
                        self@,
                    ));
                }
                return Ok(());
            }
            if fuel == 0 {
                proof {
                    assert(n == u64::MAX as nat);
                    assert(steps(old(self)@, u64::MAX as nat) == Ok::<
                        VmV,
                        (VmErrorKind, Seq<ValueV>),
                    >(self@));
                }
                return Err(VmErrorKind::ExecutionLimit);
            }
            fuel = fuel - 1;
            let ghost prev = self@;
            let res = self.run_next();
            match res {
                Ok(()) => {
                    proof {
                        lemma_steps_extend(s0, n, prev, self@);
                        n = n + 1;
                    }
                },
                Err(kind) => {
                    proof {
                        lemma_steps_extend_err(s0, n, prev, (kind, self@.stack));
                        assert(steps(old(self)@, n + 1) == Err::<
                            VmV,
                            (VmErrorKind, Seq<ValueV>),
                        >((kind, self@.stack)));
                    }
                    return Err(kind);
                },
            }
        }
    }

    /// Fetch, decode and dispatch exactly one instruction; the effect is
    /// exactly one [`spec_step`].
    pub fn run_next(&mut self) -> (r: Result<(), VmErrorKind>)
        requires
            old(self).wf(),
            old(self)@.head < old(self)@.bytes.len(),
        ensures
            final(self).wf(),
            match spec_step(old(self)@) {
                Ok(s2) => r is Ok && final(self)@ == s2,
                Err(e) => r == Err::<(), VmErrorKind>(e.0) && final(self)@ == VmV {
                    stack: e.1,
                    ..old(self)@
                },
            },
    {
        let h = self.head;
        let op_byte = self.program.bytes[h];
        let op = match OpCode::from_byte(op_byte) {
            Ok(op) => op,
            Err(_) => {
                proof {
                    assert(final(self)@ =~= VmV { stack: old(self)@.stack, ..old(self)@ });
                }
                return Err(VmErrorKind::InvalidOpCode(op_byte));
            },
        };
        match op {
            OpCode::Nop => {
                self.head = h + 1;
                Ok(())
            },
            OpCode::Dup => {
                let top = match self.stack.pop() {
                    Some(v) => v,
                    None => {
                        return Err(VmErrorKind::StackUnderflow);
                    },
                };
                let copy = top.clone();
                self.stack.push(top);
                self.stack.push(copy);
                self.head = h + 1;
                proof {
                    assert(final(self)@.stack =~= old(self)@.stack.push(old(self)@.stack.last()));
                }
                Ok(())
            },
            OpCode::Pop => {
                let _ = self.stack.pop();
                self.head = h + 1;
                Ok(())
            },
            OpCode::Swap => {
                let (a, b) = match self.pop_two() {
                    Ok(pair) => pair,
                    Err(kind) => {
                        return Err(kind);
                    },
                };
                self.stack.push(b);
                self.stack.push(a);
                self.head = h + 1;
                Ok(())
            },
            OpCode::DupSwap => {
                let (a, b) = match self.pop_two() {
                    Ok(pair) => pair,
                    Err(kind) => {
                        return Err(kind);
                    },
                };
                let copy = b.clone();
                self.stack.push(b);
                self.stack.push(a);
                self.stack.push(copy);
                self.head = h + 1;
                Ok(())
            },
            OpCode::Add | OpCode::Sub | OpCode::Mul | OpCode::Div => {
                let (a, b) = match self.pop_two() {
                    Ok(pair) => pair,
                    Err(kind) => {
                        return Err(kind);
                    },
                };
                let computed = match op {
                    OpCode::Add => a.add(b),
                    OpCode::Sub => a.sub(b),
                    OpCode::Mul => a.mul(b),
                    _ => a.div(b),
                };
                match computed {
                    Ok(v) => {
                        self.stack.push(v);
                        self.head = h + 1;
                        Ok(())
                    },
                    Err(_) => Err(VmErrorKind::UnsupportedTypes),
                }
            },
            OpCode::Le | OpCode::Lt | OpCode::Ge | OpCode::Gt | OpCode::Eq | OpCode::Ne => {
                let (a, b) = match self.pop_two() {
                    Ok(pair) => pair,
                    Err(kind) => {
                        return Err(kind);
                    },
                };
                let outcome = match op {
                    OpCode::Le => a.cmp_le(&b),
                    OpCode::Lt => a.cmp_lt(&b),
                    OpCode::Ge => b.cmp_le(&a),
                    OpCode::Gt => b.cmp_lt(&a),
                    OpCode::Eq => a.cmp_eq(&b),
                    _ => !a.cmp_eq(&b),
                };
                self.stack.push(Value::from(outcome));
                self.head = h + 1;
                Ok(())
            },
            OpCode::UnaryNot => {
                let top = match self.stack.pop() {
                    Some(v) => v,
                    None => {
                        return Err(VmErrorKind::StackUnderflow);
                    },
                };
                match top.as_bool() {
                    Ok(t) => {
                        self.stack.push(Value::from(!t));
                        self.head = h + 1;
                        Ok(())
                    },
                    Err(_) => Err(VmErrorKind::UnsupportedTypes),
                }
            },
            OpCode::LoadConst => {
                let idx = match self.read_operand(h) {
                    Ok(idx) => idx,
                    Err(kind) => {
                        return Err(kind);
                    },
                };
                if idx >= self.program.constants.len() {
                    return Err(VmErrorKind::BadConstIndex);
                }
                let v = self.program.constants[idx].clone();
                self.stack.push(v);
                self.head = h + 5;
                Ok(())
            },
            OpCode::Jump => {
                let target = match self.read_operand(h) {
                    Ok(t) => t,
                    Err(kind) => {
                        return Err(kind);
                    },
                };
                self.head = target;
                Ok(())
            },
            OpCode::PopJumpIfFalse => {
                let top = match self.stack.pop() {
                    Some(v) => v,
                    None => {
                        return Err(VmErrorKind::StackUnderflow);
                    },
                };
                let t = match top.as_bool() {
                    Ok(t) => t,
                    Err(_) => {
                        return Err(VmErrorKind::UnsupportedTypes);
                    },
                };
                if t {
                    self.head = h + 5;
                } else {
                    let target = match self.read_operand(h) {
                        Ok(t) => t,
                        Err(kind) => {
                            return Err(kind);
                        },
                    };
                    self.head = target;
                }
                Ok(())
            },
            OpCode::Ret => {
                let addr = match self.call_stack.pop() {
                    Some(a) => a,
                    None => {
                        return Err(VmErrorKind::CallStackUnderflow);
                    },
                };
                self.head = addr;
                Ok(())
            },
            OpCode::PrepareFuncCall => {
                self.call_stack.push(h + 6);
                self.head = h + 1;
                Ok(())
            },
            OpCode::StoreName => {
                let top = match self.stack.pop() {
                    Some(v) => v,
                    None => {
                        return Err(VmErrorKind::StackUnderflow);
                    },
                };
                let idx = match self.read_operand(h) {
                    Ok(idx) => idx,
                    Err(kind) => {
                        return Err(kind);
                    },
                };
                if idx >= self.variables.len() {
                    return Err(VmErrorKind::BadNameIndex);
                }
                self.variables[idx] = Some(top);
                self.head = h + 5;
                proof {
                    assert(final(self)@.variables =~= old(self)@.variables.update(
                        le4(old(self)@.bytes, old(self)@.head + 1) as int,
                        Some(old(self)@.stack.last()),
                    ));
                }
                Ok(())
            },
            OpCode::LoadName => {
                let idx = match self.read_operand(h) {
                    Ok(idx) => idx,
                    Err(kind) => {
                        return Err(kind);
                    },
                };
                if idx >= self.variables.len() {
                    return Err(VmErrorKind::BadNameIndex);
                }
                let v = match &self.variables[idx] {
                    Some(v) => v.clone(),
                    None => {
                        return Err(VmErrorKind::UndefinedVariable);
                    },
                };
                self.stack.push(v);
                self.head = h + 5;
                Ok(())
            },
            OpCode::LoadBuiltin => {
                if h + 2 > self.program.bytes.len() {
                    return Err(VmErrorKind::TruncatedOperand);
                }
                let id = self.program.bytes[h + 1];
                let b = match Builtin::from_byte(id) {
                    Ok(b) => b,
                    Err(_) => {
                        return Err(VmErrorKind::InvalidBuiltin(id));
                    },
                };
                let entry = match b.entry_offset() {
                    Some(entry) => entry,
                    None => {
                        return Err(VmErrorKind::InvalidBuiltin(id));
                    },
                };
                self.stack.push(Value::Function(entry));
                self.head = h + 2;
                Ok(())
            },
            OpCode::StopCode => Err(VmErrorKind::InvalidOpCode(op_byte)),
        }
    }

    /// Pop the right-hand and then the left-hand operand of a binary
    /// instruction, returned as `(lhs, rhs)`.
    fn pop_two(&mut self) -> (r: Result<(Value, Value), VmErrorKind>)
        ensures
            final(self)@.bytes == old(self)@.bytes,
            final(self)@.constants == old(self)@.constants,
            final(self)@.variables == old(self)@.variables,
            final(self)@.call_stack == old(self)@.call_stack,
            final(self)@.head == old(self)@.head,
            match r {
                Ok(pair) => old(self)@.stack.len() >= 2 && pair.0@ == old(self)@.stack.drop_last().last()
                    && pair.1@ == old(self)@.stack.last() && final(self)@.stack == old(
                    self,
                )@.stack.drop_last().drop_last(),
                Err(kind) => kind == VmErrorKind::StackUnderflow && old(self)@.stack.len() < 2
                    && final(self)@.stack == (if old(self)@.stack.len() == 0 {
                    old(self)@.stack
                } else {
                    old(self)@.stack.drop_last()
                }),
            },
    {
        let b = match self.stack.pop() {
            Some(v) => v,
            None => {
                return Err(VmErrorKind::StackUnderflow);
            },
        };
        let a = match self.stack.pop() {
            Some(v) => v,
            None => {
                return Err(VmErrorKind::StackUnderflow);
            },
        };
        Ok((a, b))
    }

    /// Read the four-byte operand of the instruction at `h`, as a `usize`.
    fn read_operand(&self, h: usize) -> (r: Result<usize, VmErrorKind>)
        requires
            self.wf(),
            h == self@.head,
            h < self@.bytes.len(),
        ensures
            match r {
                Ok(idx) => self@.head + 5 <= self@.bytes.len() && idx == le4(
                    self@.bytes,
                    self@.head + 1,
                ) as usize,
                Err(kind) => kind == VmErrorKind::TruncatedOperand && self@.head + 5
                    > self@.bytes.len(),
            },
    {
        if h + 5 > self.program.bytes.len() {
            return Err(VmErrorKind::TruncatedOperand);
        }
        let slice = vstd::slice::slice_subrange(self.program.bytes.as_slice(), h + 1, h + 5);
        let idx = vstd::bytes::u32_from_le_bytes(slice);
        Ok(idx as usize)
    }
}


} // verus!
