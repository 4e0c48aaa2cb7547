//! Runtime values.  Values live in a heap of cells and refer to each other
//! by the position of their cell, so that an array shared between two
//! variables is one array: a `push` through one is seen through the other.

use vstd::prelude::*;

use crate::ast::{Block, SBlock, duplicate_names};

verus! {

/// A reference to a value: the position of its cell in the heap.
#[derive(Debug, Clone, Copy, PartialEq, Eq, Structural)]
pub struct ValueRef(pub usize);

/// A function implemented by the interpreter itself.
#[derive(Debug, Clone, Copy, PartialEq, Eq, Structural)]
pub enum NativeFn {
    /// Writes its arguments, separated by spaces, as one line of output.
    Print,
    /// Appends its arguments to the array in the given cell.
    Push(ValueRef),
}

/// A value.
#[derive(Debug, PartialEq, Eq)]
pub enum Value {
    Unit,
    Bool(bool),
    Integer(i32),
    NativeFn(NativeFn),
    LambdaFn { args: Vec<String>, body: Block },
    Array(Vec<ValueRef>),
    Range { range: (ValueRef, ValueRef), close_end: bool },
}

/// The mathematical model of a value.
pub enum SValue {
    Unit,
    Bool(bool),
    Integer(i32),
    NativeFn(NativeFn),
    LambdaFn(Seq<Seq<char>>, SBlock),
    Array(Seq<ValueRef>),
    Range(ValueRef, ValueRef, bool),
}

impl View for Value {
    type V = SValue;

    open spec fn view(&self) -> SValue {
        match self {
            Value::Unit => SValue::Unit,
            Value::Bool(b) => SValue::Bool(*b),
            Value::Integer(n) => SValue::Integer(*n),
            Value::NativeFn(f) => SValue::NativeFn(*f),
            Value::LambdaFn { args, body } => SValue::LambdaFn(crate::ast::names_view(args@), body@),
            Value::Array(items) => SValue::Array(items@),
            Value::Range { range, close_end } => SValue::Range(range.0, range.1, *close_end),
        }
    }
}

/// The cells that a value refers to.
pub open spec fn refs_of(v: SValue) -> Seq<ValueRef> {
    match v {
        SValue::NativeFn(NativeFn::Push(r)) => seq![r],
        SValue::Array(items) => items,
        SValue::Range(a, b, _) => seq![a, b],
        _ => Seq::empty(),
    }
}

/// Whether every cell that `v` refers to is below `n`.
pub open spec fn refs_below(v: SValue, n: nat) -> bool {
    forall|i: int| 0 <= i < refs_of(v).len() ==> (#[trigger] refs_of(v)[i]).0 < n
}

/// Whether every cell of the heap `h` refers only to cells of `h`.
pub open spec fn heap_ok(h: Seq<SValue>) -> bool {
    forall|i: int| 0 <= i < h.len() ==> refs_below(#[trigger] h[i], h.len())
}

/// A copy of a sequence of references.
pub fn copy_refs(items: &Vec<ValueRef>) -> (r: Vec<ValueRef>)
    ensures
        r@ == items@,
{
    let mut copy: Vec<ValueRef> = Vec::new();
    let mut i: usize = 0;
    while i < items.len()
        invariant
            0 <= i <= items.len(),
            copy@ == items@.take(i as int),
        decreases items.len() - i,
    {
        copy.push(items[i]);
        i = i + 1;
        assert(copy@ =~= items@.take(i as int));
    }
    assert(items@.take(items.len() as int) =~= items@);
    copy
}

impl Value {
    /// Whether this value is the boolean `b`.
    pub fn equals_bool(&self, b: bool) -> (r: bool)
        ensures
            r == (self@ == SValue::Bool(b)),
    {
        match self {
            Value::Bool(x) => *x == b,
            _ => false,
        }
    }

    /// A copy of this value; an array's copy refers to the same cells.
    pub fn duplicate(&self) -> (r: Value)
        ensures
            r@ == self@,
    {
        match self {
            Value::Unit => Value::Unit,
            Value::Bool(b) => Value::Bool(*b),
            Value::Integer(n) => Value::Integer(*n),
            Value::NativeFn(f) => Value::NativeFn(*f),
            Value::LambdaFn { args, body } => Value::LambdaFn {
                args: duplicate_names(args),
                body: body.duplicate(),
            },
            Value::Array(items) => Value::Array(copy_refs(items)),
            Value::Range { range, close_end } => Value::Range {
                range: (range.0, range.1),
                close_end: *close_end,
            },
        }
    }
}

} // verus!
