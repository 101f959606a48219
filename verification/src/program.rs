//! The owned, append-only compilation artifact: a growable byte buffer of
//! instructions, a deduplicated constant pool, and a deduplicated identifier
//! pool, with emission helpers for instructions and control flow.
//!
//! Control-flow emission is two-phase: emitting a jump whose target is not
//! yet known returns the buffer offset of its four-byte operand (a patch
//! handle), and patching later writes the then-current buffer length into
//! that operand. The structured begin/end helpers pair these steps up so
//! that a conditional, a conditional with an else branch, a while loop or a
//! function body never leaves an operand unpatched.

use vstd::bytes::{spec_u32_to_le_bytes, u32_to_le_bytes};
use vstd::prelude::*;

use crate::builtins::Builtin;
use crate::op_codes::OpCode;
use crate::value::{val_eq, views_of, Value, ValueV};

verus! {

/// Instruction operands are four-byte absolute offsets, so a usable
/// program's byte buffer must stay within `u32` range; the margin kept
/// under `u32::MAX` here also keeps the end of any instruction started
/// below the bound within range.
pub const CODE_LIMIT: usize = 0xffff_ff00;

/// A complete bytecode program: instructions plus the two pools its
/// four-byte operands index into.
#[derive(Debug)]
pub struct Program {
    pub bytes: Vec<u8>,
    pub constants: Vec<Value>,
    pub idents: Vec<String>,
}

impl Clone for Program {
    fn clone(&self) -> (r: Self)
        ensures
            r@ == self@,
    {
        let r = Program {
            bytes: self.bytes.clone(),
            constants: self.constants.clone(),
            idents: self.idents.clone(),
        };
        proof {
            assert forall|i: int| 0 <= i < self.bytes@.len() implies r.bytes@[i]
                == self.bytes@[i] by {}
            assert(r.bytes@ =~= self.bytes@);
            assert forall|i: int| 0 <= i < self.constants@.len() implies r.constants@[i]
                == self.constants@[i] by {}
            assert(r.constants@ =~= self.constants@);
            assert forall|i: int| 0 <= i < self.idents@.len() implies r.idents@[i]
                == self.idents@[i] by {}
            assert(r.idents@ =~= self.idents@);
        }
        r
    }
}

/// The mathematical shape of a [`Program`].
pub struct ProgramV {
    pub bytes: Seq<u8>,
    pub constants: Seq<ValueV>,
    pub idents: Seq<Seq<char>>,
}

impl View for Program {
    type V = ProgramV;

    open spec fn view(&self) -> ProgramV {
        ProgramV {
            bytes: self.bytes@,
            constants: views_of(self.constants@),
            idents: self.idents@.map_values(|s: String| s@),
        }
    }
}

/// The first position at or after `i` whose element is `val_eq`-equal to
/// `v`, or `s.len()` when there is none.
pub open spec fn first_val_match(s: Seq<ValueV>, v: ValueV, i: int) -> int
    decreases s.len() - i,
{
    if i < 0 || i >= s.len() {
        s.len() as int
    } else if val_eq(s[i], v) {
        i
    } else {
        first_val_match(s, v, i + 1)
    }
}

/// What inserting `v` into a deduplicated pool yields: the untouched pool
/// and the index of the first equal element when there is one, otherwise
/// the pool extended by `v` and the new element's index.
pub open spec fn val_pool_insert(s: Seq<ValueV>, v: ValueV) -> (Seq<ValueV>, int) {
    let i = first_val_match(s, v, 0);
    if i < s.len() {
        (s, i)
    } else {
        (s.push(v), s.len() as int)
    }
}

/// The first position at or after `i` holding exactly the characters of
/// `v`, or `s.len()` when there is none.
pub open spec fn first_ident_match(s: Seq<Seq<char>>, v: Seq<char>, i: int) -> int
    decreases s.len() - i,
{
    if i < 0 || i >= s.len() {
        s.len() as int
    } else if s[i] == v {
        i
    } else {
        first_ident_match(s, v, i + 1)
    }
}

/// What inserting `v` into the deduplicated identifier pool yields; see
/// [`val_pool_insert`].
pub open spec fn ident_pool_insert(s: Seq<Seq<char>>, v: Seq<char>) -> (Seq<Seq<char>>, int) {
    let i = first_ident_match(s, v, 0);
    if i < s.len() {
        (s, i)
    } else {
        (s.push(v), s.len() as int)
    }
}

/// `b` with the four bytes at `site` overwritten by the little-endian
/// encoding of `b`'s own length: the effect of patching a jump operand.
pub open spec fn patched(b: Seq<u8>, site: int) -> Seq<u8>
    recommends
        0 <= site,
        site + 4 <= b.len(),
        b.len() <= u32::MAX,
{
    b.subrange(0, site) + spec_u32_to_le_bytes(b.len() as u32) + b.subrange(site + 4, b.len() as int)
}

/// Find `value` in `vec` by value equality, or append it: the returned
/// index always points at an element equal to `value`. This is how both
/// pools stay deduplicated: the first match wins.
pub fn insert_vec(vec: &mut Vec<Value>, value: Value) -> (index: usize)
    ensures
        (views_of(final(vec)@), index as int) == val_pool_insert(views_of(old(vec)@), value@),
        index <= old(vec)@.len(),
{
    let ghost orig = views_of(vec@);
    let n = vec.len();
    let mut i: usize = 0;
    while i < n
        invariant
            0 <= i <= n,
            n == vec@.len(),
            views_of(vec@) == orig,
            first_val_match(orig, value@, 0) == first_val_match(orig, value@, i as int),
        decreases n - i,
    {
        if vec[i].cmp_eq(&value) {
            assert(val_eq(orig[i as int], value@));
            return i;
        }
        i = i + 1;
    }
    vec.push(value);
    proof {
        assert(views_of(vec@) =~= orig.push(value@));
    }
    n
}

/// Find `value` in the identifier pool, or append it.
fn insert_ident(vec: &mut Vec<String>, value: String) -> (index: usize)
    ensures
        (final(vec)@.map_values(|s: String| s@), index as int) == ident_pool_insert(
            old(vec)@.map_values(|s: String| s@),
            value@,
        ),
        index <= old(vec)@.len(),
{
    let ghost orig = vec@.map_values(|s: String| s@);
    let n = vec.len();
    let mut i: usize = 0;
    while i < n
        invariant
            0 <= i <= n,
            n == vec@.len(),
            vec@.map_values(|s: String| s@) == orig,
            first_ident_match(orig, value@, 0) == first_ident_match(orig, value@, i as int),
        decreases n - i,
    {
        let candidate: &String = &vec[i];
        if *candidate == value {
            return i;
        }
        i = i + 1;
    }
    vec.push(value);
    proof {
        assert(vec@.map_values(|s: String| s@) =~= orig.push(value@));
    }
    n
}

impl Program {
    /// An empty program: no instructions, empty pools.
    pub fn new() -> (r: Program)
        ensures
            r@.bytes == Seq::<u8>::empty(),
            r@.constants == Seq::<ValueV>::empty(),
            r@.idents == Seq::<Seq<char>>::empty(),
    {
        let r = Program { bytes: Vec::new(), constants: Vec::new(), idents: Vec::new() };
        proof {
            assert(r@.constants =~= Seq::<ValueV>::empty());
            assert(r@.idents =~= Seq::<Seq<char>>::empty());
        }
        r
    }

    /// The length of the instruction buffer in bytes.
    pub fn len(&self) -> (n: usize)
        ensures
            n == self@.bytes.len(),
    {
        self.bytes.len()
    }

    /// Append a zero-operand instruction. Opcodes that require an operand
    /// are a caller error, ruled out up front.
    pub fn push_opcode(&mut self, opcode: OpCode)
        requires
            opcode.spec_size_operand() == 0,
        ensures
            final(self)@.bytes == old(self)@.bytes.push(opcode.spec_byte()),
            final(self)@.constants == old(self)@.constants,
            final(self)@.idents == old(self)@.idents,
    {
        self.bytes.push(opcode.to_byte());
    }

    /// Append a four-byte little-endian operand.
    pub fn push_u32(&mut self, val: u32)
        ensures
            final(self)@.bytes == old(self)@.bytes + spec_u32_to_le_bytes(val),
            final(self)@.constants == old(self)@.constants,
            final(self)@.idents == old(self)@.idents,
    {
        let mut le = u32_to_le_bytes(val);
        self.bytes.append(&mut le);
    }

    /// Append an unconditional jump to absolute offset `index`, returning
    /// the buffer offset of its four-byte operand for later patching.
    pub fn push_jump(&mut self, index: usize) -> (jump: usize)
        requires
            index <= u32::MAX,
        ensures
            final(self)@.bytes == old(self)@.bytes.push(OpCode::Jump.spec_byte()) + spec_u32_to_le_bytes(
                index as u32,
            ),
            jump == old(self)@.bytes.len() + 1,
            final(self)@.bytes.len() == old(self)@.bytes.len() + 5,
            final(self)@.constants == old(self)@.constants,
            final(self)@.idents == old(self)@.idents,
    {
        self.bytes.push(OpCode::Jump.to_byte());
        let jump = self.bytes.len();
        self.push_u32(index as u32);
        proof {
            vstd::bytes::lemma_auto_spec_u32_to_from_le_bytes();
            assert(self@.bytes =~= old(self)@.bytes.push(OpCode::Jump.spec_byte())
                + spec_u32_to_le_bytes(index as u32));
        }
        jump
    }

    /// Append a pop-and-jump-if-false to absolute offset `index`, returning
    /// the buffer offset of its four-byte operand for later patching.
    pub fn push_pop_jump_if_false(&mut self, index: usize) -> (jump: usize)
        requires
            index <= u32::MAX,
        ensures
            final(self)@.bytes == old(self)@.bytes.push(OpCode::PopJumpIfFalse.spec_byte())
                + spec_u32_to_le_bytes(index as u32),
            jump == old(self)@.bytes.len() + 1,
            final(self)@.bytes.len() == old(self)@.bytes.len() + 5,
            final(self)@.constants == old(self)@.constants,
            final(self)@.idents == old(self)@.idents,
    {
        self.bytes.push(OpCode::PopJumpIfFalse.to_byte());
        let jump = self.bytes.len();
        self.push_u32(index as u32);
        proof {
            vstd::bytes::lemma_auto_spec_u32_to_from_le_bytes();
            assert(self@.bytes =~= old(self)@.bytes.push(OpCode::PopJumpIfFalse.spec_byte())
                + spec_u32_to_le_bytes(index as u32));
        }
        jump
    }

    /// Write the current buffer length into the four-byte operand at
    /// `jump`, resolving a previously emitted placeholder jump.
    pub fn patch_jump(&mut self, jump: usize)
        requires
            jump + 4 <= old(self)@.bytes.len(),
            old(self)@.bytes.len() <= u32::MAX,
        ensures
            final(self)@.bytes == patched(old(self)@.bytes, jump as int),
            final(self)@.bytes.len() == old(self)@.bytes.len(),
            final(self)@.constants == old(self)@.constants,
            final(self)@.idents == old(self)@.idents,
    {
        let here = self.bytes.len();
        let le = u32_to_le_bytes(here as u32);
        self.bytes[jump] = le[0];
        self.bytes[jump + 1] = le[1];
        self.bytes[jump + 2] = le[2];
        self.bytes[jump + 3] = le[3];
        proof {
            vstd::bytes::lemma_auto_spec_u32_to_from_le_bytes();
            assert(self@.bytes =~= patched(old(self)@.bytes, jump as int));
        }
    }

    /// Append a `LoadConst` of `value`: the value is deduplicated into the
    /// constant pool (first equal entry wins) and the instruction carries
    /// the pool index it ended up at, which is also returned.
    pub fn load_const(&mut self, value: Value) -> (index: usize)
        requires
            old(self)@.constants.len() <= u32::MAX,
        ensures
            (final(self)@.constants, index as int) == val_pool_insert(old(self)@.constants, value@),
            final(self)@.bytes == old(self)@.bytes.push(OpCode::LoadConst.spec_byte())
                + spec_u32_to_le_bytes(index as u32),
            final(self)@.idents == old(self)@.idents,
    {
        self.bytes.push(OpCode::LoadConst.to_byte());
        let index = insert_vec(&mut self.constants, value);
        self.push_u32(index as u32);
        proof {
            assert(self@.bytes =~= old(self)@.bytes.push(OpCode::LoadConst.spec_byte())
                + spec_u32_to_le_bytes(index as u32));
        }
        index
    }

    /// Append a `LoadConst` of a literal; identical to [`Program::load_const`].
    pub fn push_literal(&mut self, value: Value) -> (index: usize)
        requires
            old(self)@.constants.len() <= u32::MAX,
        ensures
            (final(self)@.constants, index as int) == val_pool_insert(old(self)@.constants, value@),
            final(self)@.bytes == old(self)@.bytes.push(OpCode::LoadConst.spec_byte())
                + spec_u32_to_le_bytes(index as u32),
            final(self)@.idents == old(self)@.idents,
    {
        self.load_const(value)
    }

    /// Append a `StoreName` of `name`: the name is deduplicated into the
    /// identifier pool and the instruction carries its pool index, which is
    /// also returned.
    pub fn store_name(&mut self, name: &str) -> (index: usize)
        requires
            old(self)@.idents.len() <= u32::MAX,
        ensures
            (final(self)@.idents, index as int) == ident_pool_insert(old(self)@.idents, name@),
            final(self)@.bytes == old(self)@.bytes.push(OpCode::StoreName.spec_byte())
                + spec_u32_to_le_bytes(index as u32),
            final(self)@.constants == old(self)@.constants,
    {
        self.bytes.push(OpCode::StoreName.to_byte());
        let index = insert_ident(&mut self.idents, name.to_owned());
        self.push_u32(index as u32);
        proof {
            assert(self@.bytes =~= old(self)@.bytes.push(OpCode::StoreName.spec_byte())
                + spec_u32_to_le_bytes(index as u32));
        }
        index
    }

    /// Append a `LoadName` of `name`; pooling as in [`Program::store_name`].
    pub fn load_name(&mut self, name: &str) -> (index: usize)
        requires
            old(self)@.idents.len() <= u32::MAX,
        ensures
            (final(self)@.idents, index as int) == ident_pool_insert(old(self)@.idents, name@),
            final(self)@.bytes == old(self)@.bytes.push(OpCode::LoadName.spec_byte())
                + spec_u32_to_le_bytes(index as u32),
            final(self)@.constants == old(self)@.constants,
    {
        self.bytes.push(OpCode::LoadName.to_byte());
        let index = insert_ident(&mut self.idents, name.to_owned());
        self.push_u32(index as u32);
        proof {
            assert(self@.bytes =~= old(self)@.bytes.push(OpCode::LoadName.spec_byte())
                + spec_u32_to_le_bytes(index as u32));
        }
        index
    }

    /// Append a call to a function body whose entry offset is `func`: a
    /// call-preparation marker (which records the return address at run
    /// time) followed by a jump to the entry.
    pub fn call_func(&mut self, func: usize)
        requires
            func <= u32::MAX,
        ensures
            final(self)@.bytes == old(self)@.bytes.push(OpCode::PrepareFuncCall.spec_byte()).push(
                OpCode::Jump.spec_byte(),
            ) + spec_u32_to_le_bytes(func as u32),
            final(self)@.constants == old(self)@.constants,
            final(self)@.idents == old(self)@.idents,
    {
        self.bytes.push(OpCode::PrepareFuncCall.to_byte());
        let _ = self.push_jump(func);
        proof {
            assert(self@.bytes =~= old(self)@.bytes.push(OpCode::PrepareFuncCall.spec_byte()).push(
                OpCode::Jump.spec_byte(),
            ) + spec_u32_to_le_bytes(func as u32));
        }
    }

    /// Append a `LoadBuiltin` of `builtin`, returning the offset of the
    /// instruction itself.
    pub fn push_builtin(&mut self, builtin: Builtin) -> (at: usize)
        ensures
            final(self)@.bytes == old(self)@.bytes.push(OpCode::LoadBuiltin.spec_byte()).push(
                builtin.spec_byte(),
            ),
            at == old(self)@.bytes.len(),
            final(self)@.constants == old(self)@.constants,
            final(self)@.idents == old(self)@.idents,
    {
        let at = self.bytes.len();
        self.bytes.push(OpCode::LoadBuiltin.to_byte());
        self.bytes.push(builtin.to_byte());
        at
    }

    /// Begin a function body: emit the jump that makes straight-line
    /// execution skip over it. Returns the patch handle of that jump and
    /// the body's entry offset. The caller emits the body, then closes it
    /// with [`Program::end_func`].
    pub fn begin_func(&mut self) -> (r: (usize, usize))
        ensures
            final(self)@.bytes == old(self)@.bytes.push(OpCode::Jump.spec_byte()) + spec_u32_to_le_bytes(
                0u32,
            ),
            r.0 == old(self)@.bytes.len() + 1,
            r.1 == old(self)@.bytes.len() + 5,
            final(self)@.constants == old(self)@.constants,
            final(self)@.idents == old(self)@.idents,
    {
        let jump = self.push_jump(0);
        let entry = self.bytes.len();
        (jump, entry)
    }

    /// Close a function body begun with [`Program::begin_func`]: emit its
    /// return and patch the skip-over jump to land here, just after it.
    pub fn end_func(&mut self, jump: usize)
        requires
            jump + 4 <= old(self)@.bytes.len(),
            old(self)@.bytes.len() + 1 <= u32::MAX,
        ensures
            final(self)@.bytes == patched(
                old(self)@.bytes.push(OpCode::Ret.spec_byte()),
                jump as int,
            ),
            final(self)@.bytes.len() == old(self)@.bytes.len() + 1,
            final(self)@.constants == old(self)@.constants,
            final(self)@.idents == old(self)@.idents,
    {
        self.push_opcode(OpCode::Ret);
        self.patch_jump(jump);
    }

    /// Begin a conditional: emit the pop-and-jump-if-false that skips the
    /// body when the condition on top of the stack is falsy. Returns its
    /// patch handle; the caller emits the body, then closes it with
    /// [`Program::end_if`].
    pub fn begin_if(&mut self) -> (jump: usize)
        ensures
            final(self)@.bytes == old(self)@.bytes.push(OpCode::PopJumpIfFalse.spec_byte())
                + spec_u32_to_le_bytes(0u32),
            jump == old(self)@.bytes.len() + 1,
            final(self)@.constants == old(self)@.constants,
            final(self)@.idents == old(self)@.idents,
    {
        self.push_pop_jump_if_false(0)
    }

    /// Close a conditional begun with [`Program::begin_if`]: patch its jump
    /// to land here, just past the body.
    pub fn end_if(&mut self, jump: usize)
        requires
            jump + 4 <= old(self)@.bytes.len(),
            old(self)@.bytes.len() <= u32::MAX,
        ensures
            final(self)@.bytes == patched(old(self)@.bytes, jump as int),
            final(self)@.bytes.len() == old(self)@.bytes.len(),
            final(self)@.constants == old(self)@.constants,
            final(self)@.idents == old(self)@.idents,
    {
        self.patch_jump(jump);
    }

    /// Between the two branches of a conditional with an else branch: emit
    /// the jump that makes the then-branch skip the else-branch, and patch
    /// the conditional jump `jump_if` (from [`Program::begin_if`]) to land
    /// here, at the else-branch's start. Returns the new jump's patch
    /// handle; the caller emits the else-branch, then closes it with
    /// [`Program::end_else`].
    pub fn begin_else(&mut self, jump_if: usize) -> (jump_else: usize)
        requires
            jump_if + 4 <= old(self)@.bytes.len(),
            old(self)@.bytes.len() + 5 <= u32::MAX,
        ensures
            final(self)@.bytes == patched(
                old(self)@.bytes.push(OpCode::Jump.spec_byte()) + spec_u32_to_le_bytes(0u32),
                jump_if as int,
            ),
            jump_else == old(self)@.bytes.len() + 1,
            final(self)@.bytes.len() == old(self)@.bytes.len() + 5,
            final(self)@.constants == old(self)@.constants,
            final(self)@.idents == old(self)@.idents,
    {
        let jump_else = self.push_jump(0);
        self.patch_jump(jump_if);
        jump_else
    }

    /// Close the else branch begun with [`Program::begin_else`]: patch its
    /// skip jump to land here, just past it.
    pub fn end_else(&mut self, jump_else: usize)
        requires
            jump_else + 4 <= old(self)@.bytes.len(),
            old(self)@.bytes.len() <= u32::MAX,
        ensures
            final(self)@.bytes == patched(old(self)@.bytes, jump_else as int),
            final(self)@.bytes.len() == old(self)@.bytes.len(),
            final(self)@.constants == old(self)@.constants,
            final(self)@.idents == old(self)@.idents,
    {
        self.patch_jump(jump_else);
    }

    /// After a while loop's condition (whose first byte the caller took
    /// from [`Program::len`] before emitting it): emit the
    /// pop-and-jump-if-false that leaves the loop when the condition is
    /// falsy. Returns its patch handle; the caller emits the body, then
    /// closes the loop with [`Program::end_while`].
    pub fn begin_while_body(&mut self) -> (exit_jump: usize)
        ensures
            final(self)@.bytes == old(self)@.bytes.push(OpCode::PopJumpIfFalse.spec_byte())
                + spec_u32_to_le_bytes(0u32),
            exit_jump == old(self)@.bytes.len() + 1,
            final(self)@.constants == old(self)@.constants,
            final(self)@.idents == old(self)@.idents,
    {
        self.push_pop_jump_if_false(0)
    }

    /// Close a while loop: emit the jump back to the condition at `start`
    /// and patch the exit jump (from [`Program::begin_while_body`]) to land
    /// here, just past the body.
    pub fn end_while(&mut self, start: usize, exit_jump: usize)
        requires
            start <= u32::MAX,
            exit_jump + 4 <= old(self)@.bytes.len(),
            old(self)@.bytes.len() + 5 <= u32::MAX,
        ensures
            final(self)@.bytes == patched(
                old(self)@.bytes.push(OpCode::Jump.spec_byte()) + spec_u32_to_le_bytes(
                    start as u32,
                ),
                exit_jump as int,
            ),
            final(self)@.bytes.len() == old(self)@.bytes.len() + 5,
            final(self)@.constants == old(self)@.constants,
            final(self)@.idents == old(self)@.idents,
    {
        let _ = self.push_jump(start);
        self.patch_jump(exit_jump);
    }

    /// The four bytes starting at `from`, or `None` when fewer than four
    /// remain there.
    pub fn read_arr(&self, from: usize) -> (r: Option<[u8; 4]>)
        ensures
            match r {
                Some(a) => from + 4 <= self@.bytes.len() && a@ == self@.bytes.subrange(
                    from as int,
                    from as int + 4,
                ),
                None => from + 4 > self@.bytes.len(),
            },
    {
        let n = self.bytes.len();
        if from < n && n - from >= 4 {
            let a: [u8; 4] = [self.bytes[from], self.bytes[from + 1], self.bytes[from + 2], self.bytes[from
                + 3]];
            proof {
                assert(a@ =~= self@.bytes.subrange(from as int, from as int + 4));
            }
            Some(a)
        } else {
            None
        }
    }
}

/// Pool deduplication: inserting two equal values one after the other
/// hands back the same index both times (pushing the same literal twice
/// yields one pool entry). Stated for values that value equality relates,
/// which excludes only NaN floating-point payloads, since those equal
/// nothing at all, themselves included.
pub proof fn lemma_const_pool_dedup(pool: Seq<ValueV>, v: ValueV, w: ValueV)
    requires
        val_eq(v, w),
    ensures
        ({
            let (pool1, i1) = val_pool_insert(pool, v);
            let (pool2, i2) = val_pool_insert(pool1, w);
            i1 == i2 && pool2 == pool1
        }),
{
    let (pool1, i1) = val_pool_insert(pool, v);
    lemma_first_val_match_congruent(pool, v, w, 0);
    if first_val_match(pool, v, 0) < pool.len() {
        lemma_first_val_match_congruent(pool, w, v, 0);
    } else {
        lemma_first_val_match_extend(pool, v, w, 0);
        assert(pool1 == pool.push(v));
        assert(val_eq(pool1[pool.len() as int], w));
        assert(first_val_match(pool1, w, 0) == pool.len());
    }
}

/// Two `val_eq`-equal probes scan a pool identically as long as neither
/// finds a match, and find their first match at the same position.
proof fn lemma_first_val_match_congruent(s: Seq<ValueV>, v: ValueV, w: ValueV, i: int)
    requires
        val_eq(v, w),
    ensures
        first_val_match(s, v, i) == first_val_match(s, w, i),
    decreases s.len() - i,
{
    if 0 <= i < s.len() {
        lemma_first_val_match_congruent(s, v, w, i + 1);
    }
}

/// A probe that matches nothing in `s` finds an appended equal element
/// exactly at the old length.
proof fn lemma_first_val_match_extend(s: Seq<ValueV>, v: ValueV, w: ValueV, i: int)
    requires
        val_eq(v, w),
        0 <= i <= s.len(),
        first_val_match(s, v, i) >= s.len(),
    ensures
        first_val_match(s.push(v), w, i) == s.len(),
    decreases s.len() - i,
{
    let t = s.push(v);
    if i < s.len() {
        assert(!val_eq(s[i], v));
        assert(t[i] == s[i]);
        lemma_first_val_match_extend(s, v, w, i + 1);
    } else {
        assert(val_eq(t[i], w));
    }
}


/// The first-match scan stays within the pool's bounds.
pub proof fn lemma_first_val_match_bounds(s: Seq<ValueV>, v: ValueV, i: int)
    requires
        0 <= i <= s.len(),
    ensures
        i <= first_val_match(s, v, i) <= s.len(),
    decreases s.len() - i,
{
    if i < s.len() && !val_eq(s[i], v) {
        lemma_first_val_match_bounds(s, v, i + 1);
    }
}

} // verus!
