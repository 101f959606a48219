//! The tagged runtime datum: integer, floating point (as a binary64 bit
//! pattern), owned string, or function reference (an absolute byte offset).

use vstd::prelude::*;

use crate::float_bits;
use crate::float_bits::{f64_eq, f64_le, f64_lt, f64_truthy};

verus! {

/// A runtime value. Floating-point data is carried as its IEEE 754 binary64
/// bit pattern; see [`crate::float_bits`].
#[derive(Debug)]
pub enum Value {
    Int(i64),
    Float(u64),
    Str(String),
    Function(usize),
}

/// The mathematical shape of a [`Value`]: strings become character
/// sequences.
pub enum ValueV {
    Int(i64),
    Float(u64),
    Str(Seq<char>),
    Function(usize),
}

impl View for Value {
    type V = ValueV;

    open spec fn view(&self) -> ValueV {
        match self {
            Value::Int(i) => ValueV::Int(*i),
            Value::Float(bits) => ValueV::Float(*bits),
            Value::Str(s) => ValueV::Str(s@),
            Value::Function(entry) => ValueV::Function(*entry),
        }
    }
}

/// The views of a sequence of values.
pub open spec fn views_of(s: Seq<Value>) -> Seq<ValueV> {
    s.map_values(|v: Value| v@)
}

/// Taking views commutes with appending an element.
pub broadcast proof fn lemma_views_of_push(s: Seq<Value>, v: Value)
    ensures
        #[trigger] views_of(s.push(v)) == views_of(s).push(v@),
{
    assert(views_of(s.push(v)) =~= views_of(s).push(v@));
}

/// Taking views commutes with dropping the last element.
pub broadcast proof fn lemma_views_of_drop_last(s: Seq<Value>)
    requires
        s.len() > 0,
    ensures
        #[trigger] views_of(s.drop_last()) == views_of(s).drop_last(),
{
    assert(views_of(s.drop_last()) =~= views_of(s).drop_last());
}

/// Taking views commutes with reading the last element.
pub broadcast proof fn lemma_views_of_last(s: Seq<Value>)
    requires
        s.len() > 0,
    ensures
        #[trigger] views_of(s).last() == s.last()@,
{
}

/// Taking views keeps the length.
pub broadcast proof fn lemma_views_of_len(s: Seq<Value>)
    ensures
        #[trigger] views_of(s).len() == s.len(),
{
}

/// Taking views commutes with taking the subrange that drops the last
/// element, the shape `Vec::pop` leaves behind.
pub broadcast proof fn lemma_views_of_pop_shape(s: Seq<Value>)
    requires
        s.len() > 0,
    ensures
        #[trigger] views_of(s.subrange(0, s.len() - 1)) == views_of(s).drop_last(),
{
    assert(views_of(s.subrange(0, s.len() - 1)) =~= views_of(s).drop_last());
}

/// Value equality, as the `==` operator observes it: same variant and equal
/// payloads, with floating-point payloads compared by IEEE 754 equality
/// (`0.0 == -0.0`, and a NaN equals nothing, itself included).
pub open spec fn val_eq(a: ValueV, b: ValueV) -> bool {
    match (a, b) {
        (ValueV::Int(x), ValueV::Int(y)) => x == y,
        (ValueV::Float(x), ValueV::Float(y)) => f64_eq(x, y),
        (ValueV::Str(x), ValueV::Str(y)) => x == y,
        (ValueV::Function(x), ValueV::Function(y)) => x == y,
        _ => false,
    }
}

/// The rank a variant takes in cross-variant comparisons: values of
/// different variants are ordered by variant declaration order.
pub open spec fn variant_rank(v: ValueV) -> int {
    match v {
        ValueV::Int(_) => 0,
        ValueV::Float(_) => 1,
        ValueV::Str(_) => 2,
        ValueV::Function(_) => 3,
    }
}

/// Lexicographic strict order on character sequences, read from position
/// `i` on: the order `String` comparison observes.
pub open spec fn seq_lt_from(a: Seq<char>, b: Seq<char>, i: int) -> bool
    recommends
        0 <= i,
    decreases a.len() - i,
{
    if i >= a.len() {
        i < b.len()
    } else if i >= b.len() {
        false
    } else if a[i] != b[i] {
        (a[i] as u32) < (b[i] as u32)
    } else {
        seq_lt_from(a, b, i + 1)
    }
}

/// Lexicographic strict order on character sequences.
pub open spec fn seq_lt(a: Seq<char>, b: Seq<char>) -> bool {
    seq_lt_from(a, b, 0)
}

/// Value order, as the comparison opcodes observe it: values of different
/// variants compare by variant rank; integers and function references by
/// integer order; floating-point payloads by IEEE 754 order (so nothing is
/// below, above or equal to a NaN); strings lexicographically.
pub open spec fn val_lt(a: ValueV, b: ValueV) -> bool {
    match (a, b) {
        (ValueV::Int(x), ValueV::Int(y)) => x < y,
        (ValueV::Float(x), ValueV::Float(y)) => f64_lt(x, y),
        (ValueV::Str(x), ValueV::Str(y)) => seq_lt(x, y),
        (ValueV::Function(x), ValueV::Function(y)) => x < y,
        _ => variant_rank(a) < variant_rank(b),
    }
}

/// Non-strict value order; see [`val_lt`]. For floating-point payloads this
/// is IEEE 754 `<=`, which is *not* `val_lt || val_eq` in the NaN cases.
pub open spec fn val_le(a: ValueV, b: ValueV) -> bool {
    match (a, b) {
        (ValueV::Int(x), ValueV::Int(y)) => x <= y,
        (ValueV::Float(x), ValueV::Float(y)) => f64_le(x, y),
        (ValueV::Str(x), ValueV::Str(y)) => seq_lt(x, y) || x == y,
        (ValueV::Function(x), ValueV::Function(y)) => x <= y,
        _ => variant_rank(a) < variant_rank(b),
    }
}

/// Truthiness of a value: an integer is truthy iff nonzero, a floating-point
/// value iff nonzero, a string iff *empty* (the rule this engine has always
/// had; see the note on [`Value::as_bool`]), and a function reference has no
/// truthiness at all.
pub open spec fn truthiness(v: ValueV) -> Option<bool> {
    match v {
        ValueV::Int(i) => Some(i != 0),
        ValueV::Float(bits) => Some(f64_truthy(bits)),
        ValueV::Str(s) => Some(s.len() == 0),
        ValueV::Function(_) => None,
    }
}

/// Error: a function reference was converted to a boolean.
#[derive(Debug, Clone, Copy, PartialEq, Eq, Structural)]
pub struct InvalidBool;

impl Clone for Value {
    fn clone(&self) -> (r: Self)
        ensures
            r == *self,
    {
        match self {
            Value::Int(i) => Value::Int(*i),
            Value::Float(bits) => Value::Float(*bits),
            Value::Str(s) => Value::Str(s.clone()),
            Value::Function(entry) => Value::Function(*entry),
        }
    }
}

impl PartialEq for Value {
    fn eq(&self, other: &Self) -> (r: bool) {
        match (self, other) {
            (Value::Int(x), Value::Int(y)) => *x == *y,
            (Value::Float(x), Value::Float(y)) => float_bits::eq_bits(*x, *y),
            (Value::Str(x), Value::Str(y)) => *x == *y,
            (Value::Function(x), Value::Function(y)) => *x == *y,
            _ => false,
        }
    }
}

impl vstd::std_specs::cmp::PartialEqSpecImpl for Value {
    open spec fn obeys_eq_spec() -> bool {
        true
    }

    open spec fn eq_spec(&self, other: &Self) -> bool {
        val_eq(self@, other@)
    }
}

impl From<i64> for Value {
    fn from(v: i64) -> (r: Self) {
        Value::Int(v)
    }
}

impl vstd::std_specs::convert::FromSpecImpl<i64> for Value {
    open spec fn obeys_from_spec() -> bool {
        true
    }

    open spec fn from_spec(v: i64) -> Self {
        Value::Int(v)
    }
}

impl From<bool> for Value {
    fn from(v: bool) -> (r: Self) {
        if v {
            Value::Int(1)
        } else {
            Value::Int(0)
        }
    }
}

impl vstd::std_specs::convert::FromSpecImpl<bool> for Value {
    open spec fn obeys_from_spec() -> bool {
        true
    }

    open spec fn from_spec(v: bool) -> Self {
        if v {
            Value::Int(1)
        } else {
            Value::Int(0)
        }
    }
}

impl From<String> for Value {
    fn from(v: String) -> (r: Self) {
        Value::Str(v)
    }
}

impl vstd::std_specs::convert::FromSpecImpl<String> for Value {
    open spec fn obeys_from_spec() -> bool {
        true
    }

    open spec fn from_spec(v: String) -> Self {
        Value::Str(v)
    }
}

impl From<&str> for Value {
    fn from(v: &str) -> (r: Self)
        ensures
            r@ == ValueV::Str(v@),
    {
        Value::Str(v.to_owned())
    }
}

impl vstd::std_specs::convert::FromSpecImpl<&str> for Value {
    open spec fn obeys_from_spec() -> bool {
        false
    }

    open spec fn from_spec(v: &str) -> Self {
        Value::Int(0)
    }
}

impl Value {
    /// The truthiness of this value, used by conditional jumps and boolean
    /// negation. A string is truthy exactly when it is *empty*: this engine
    /// has always used that rule, inverted though it looks next to the
    /// numeric ones, and changing it would change the meaning of existing
    /// programs. Converting a function reference is an error.
    pub fn as_bool(&self) -> (r: Result<bool, InvalidBool>)
        ensures
            match truthiness(self@) {
                Some(b) => r == Ok::<bool, InvalidBool>(b),
                None => r == Err::<bool, InvalidBool>(InvalidBool),
            },
    {
        match self {
            Value::Int(i) => Ok(*i != 0),
            Value::Float(bits) => Ok(float_bits::truthy_bits(*bits)),
            Value::Str(s) => Ok(s.as_str().is_empty()),
            Value::Function(_) => Err(InvalidBool),
        }
    }

    /// Whether `self == other`, as the `Eq` opcode observes it.
    pub fn cmp_eq(&self, other: &Value) -> (r: bool)
        ensures
            r == val_eq(self@, other@),
    {
        self == other
    }

    /// Whether `self < other`, as the `Lt` opcode observes it.
    pub fn cmp_lt(&self, other: &Value) -> (r: bool)
        ensures
            r == val_lt(self@, other@),
    {
        match (self, other) {
            (Value::Int(x), Value::Int(y)) => *x < *y,
            (Value::Float(x), Value::Float(y)) => float_bits::lt_bits(*x, *y),
            (Value::Str(x), Value::Str(y)) => str_lt(x.as_str(), y.as_str()),
            (Value::Function(x), Value::Function(y)) => *x < *y,
            _ => self.rank() < other.rank(),
        }
    }

    /// Whether `self <= other`, as the `Le` opcode observes it.
    pub fn cmp_le(&self, other: &Value) -> (r: bool)
        ensures
            r == val_le(self@, other@),
    {
        match (self, other) {
            (Value::Int(x), Value::Int(y)) => *x <= *y,
            (Value::Float(x), Value::Float(y)) => float_bits::le_bits(*x, *y),
            (Value::Str(x), Value::Str(y)) => {
                let xs = x.as_str();
                let ys = y.as_str();
                str_lt(xs, ys) || str_eq_chars(xs, ys)
            },
            (Value::Function(x), Value::Function(y)) => *x <= *y,
            _ => self.rank() < other.rank(),
        }
    }

    /// The rank of this value's variant in cross-variant comparisons.
    fn rank(&self) -> (r: u8)
        ensures
            r as int == variant_rank(self@),
    {
        match self {
            Value::Int(_) => 0,
            Value::Float(_) => 1,
            Value::Str(_) => 2,
            Value::Function(_) => 3,
        }
    }
}

/// Lexicographic `<` on two string slices, by character.
fn str_lt(a: &str, b: &str) -> (r: bool)
    ensures
        r == seq_lt(a@, b@),
{
    let a_len = a.unicode_len();
    let b_len = b.unicode_len();
    let mut i: usize = 0;
    loop
        invariant
            0 <= i <= a_len,
            i <= b_len,
            a_len == a@.len(),
            b_len == b@.len(),
            seq_lt(a@, b@) == seq_lt_from(a@, b@, i as int),
        decreases a_len - i,
    {
        if i >= a_len {
            return i < b_len;
        }
        if i >= b_len {
            return false;
        }
        let ca = a.get_char(i);
        let cb = b.get_char(i);
        if ca != cb {
            return (ca as u32) < (cb as u32);
        }
        i = i + 1;
    }
}

/// Whether two string slices hold the same characters.
pub(crate) fn str_eq_chars(a: &str, b: &str) -> (r: bool)
    ensures
        r == (a@ == b@),
{
    let a_len = a.unicode_len();
    let b_len = b.unicode_len();
    if a_len != b_len {
        return false;
    }
    let mut i: usize = 0;
    while i < a_len
        invariant
            0 <= i <= a_len,
            a_len == a@.len(),
            a_len == b@.len(),
            forall|j: int| 0 <= j < i ==> a@[j] == b@[j],
        decreases a_len - i,
    {
        if a.get_char(i) != b.get_char(i) {
            return false;
        }
        i = i + 1;
    }
    proof {
        assert(a@ =~= b@);
    }
    true
}

} // verus!
