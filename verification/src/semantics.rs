//! The meaning of expressions: a definitional interpreter over the models
//! of expressions and of the interpreter's state.
//!
//! Evaluation is given a budget, `fuel`: every iteration of a loop and every
//! call of a lambda spends one unit, and so does every level of an array or
//! range that equality or display looks into.  When the budget is spent,
//! evaluation stops with `OutOfFuel`.

use vstd::prelude::*;

use crate::ast::{Cmp, InfixOp, SAst, SBlock};
use crate::compare::compare_cells;
use crate::num::{factorial, fits_i32, trunc_div, wrap_i32};
use crate::scope::{FrameView, assign, declare, lookup};
use crate::text::int_text;
use crate::token::{Keyword, Tok};
use crate::value::{NativeFn, SValue, ValueRef};

verus! {

/// The ways in which the evaluation of a program fails where Rust code
/// would panic.
#[derive(Debug, Clone, Copy, PartialEq, Eq, Structural)]
pub enum EvalPanic {
    /// An integer operation overflowed.
    Overflow,
    /// An integer was divided by zero.
    DivisionByZero,
    /// An array was extended while it was being read.
    AlreadyBorrowed,
    /// A state that the parser never produces.
    Unreachable,
}

/// The model of an evaluation error.
pub enum SError {
    ExpectedVar,
    ExpectedBool(SValue),
    ExpectedInt(SValue),
    ExpectedArray(SValue),
    ExpectedFunction(SValue),
    OutOfBounds(usize, i32),
    UndefinedVariable(Seq<char>),
    UnknownField(SValue, Seq<char>),
    Panic(EvalPanic),
    OutOfFuel,
}

/// The model of the interpreter's state.
#[verifier::ext_equal]
pub struct State {
    /// The cells; a `ValueRef` is a position in it.
    pub heap: Seq<SValue>,
    /// The variable frames, the innermost last.
    pub frames: Seq<FrameView>,
    /// The lines printed so far.
    pub output: Seq<Seq<char>>,
    /// The cells that are being read, and so cannot be extended.
    pub borrowed: Seq<ValueRef>,
}

/// The value in the cell `r`.
pub open spec fn cell(s: State, r: ValueRef) -> SValue {
    s.heap[r.0 as int]
}

/// A new cell holding `v`, and the state with it.
pub open spec fn allocate(s: State, v: SValue) -> (ValueRef, State) {
    (ValueRef(s.heap.len() as usize), State { heap: s.heap.push(v), ..s })
}

/// Evaluation that succeeds with a new cell holding `v`.
pub open spec fn new_value(s: State, v: SValue) -> (Result<ValueRef, SError>, State) {
    (Ok(allocate(s, v).0), allocate(s, v).1)
}

/// The integer held by the cell that evaluation gave, or the error.
pub open spec fn as_int(r: Result<ValueRef, SError>, s: State) -> Result<i32, SError> {
    match r {
        Err(e) => Err(e),
        Ok(v) => match cell(s, v) {
            SValue::Integer(n) => Ok(n),
            w => Err(SError::ExpectedInt(w)),
        },
    }
}

/// The result of an arithmetic operator on two integers.
pub open spec fn arith(op: InfixOp, x: i32, y: i32) -> Result<i32, EvalPanic> {
    let (exact, defined) = match op {
        InfixOp::Add => (x + y, true),
        InfixOp::Sub => (x - y, true),
        InfixOp::Mul => (x * y, true),
        _ => (trunc_div(x as int, y as int), y != 0),
    };
    if !defined {
        Err(EvalPanic::DivisionByZero)
    } else if fits_i32(exact) {
        Ok(exact as i32)
    } else {
        Err(EvalPanic::Overflow)
    }
}

/// The frames after declaring `names[i]` with `refs[i]`, in order.
pub open spec fn declare_all(fs: Seq<FrameView>, names: Seq<Seq<char>>, refs: Seq<ValueRef>) -> Seq<FrameView>
    decreases names.len(),
{
    if names.len() == 0 {
        fs
    } else {
        declare(
            declare_all(fs, names.drop_last(), refs),
            names.last(),
            refs[names.len() - 1],
        )
    }
}

/// What `print` writes for a value, as `{}` does: units as `()`, booleans
/// and integers as Rust writes them, functions as a placeholder, arrays in
/// brackets with `", "` between items, and ranges as `a..b` or `a..=b`.
/// `None` if the budget runs out.
pub open spec fn show_value(h: Seq<SValue>, v: SValue, fuel: nat) -> Option<Seq<char>>
    decreases fuel, 0nat,
{
    match v {
        SValue::Unit => Some("()"@),
        SValue::Bool(b) => Some(if b { "true"@ } else { "false"@ }),
        SValue::Integer(n) => Some(int_text(n as int)),
        SValue::NativeFn(_) => Some("<native function>"@),
        SValue::LambdaFn(_, _) => Some("<lambda>"@),
        SValue::Array(items) => if fuel == 0 {
            None
        } else {
            match show_list(h, items, ", "@, (fuel - 1) as nat) {
                Some(t) => Some("["@ + t + "]"@),
                None => None,
            }
        },
        SValue::Range(a, b, close_end) => if fuel == 0 {
            None
        } else {
            match (show_value(h, h[a.0 as int], (fuel - 1) as nat), show_value(h, h[b.0 as int], (fuel - 1) as nat)) {
                (Some(x), Some(y)) => Some(x + (if close_end { "..="@ } else { ".."@ }) + y),
                _ => None,
            }
        },
    }
}

/// The values in the cells `items`, shown and separated by `sep`.
pub open spec fn show_list(h: Seq<SValue>, items: Seq<ValueRef>, sep: Seq<char>, fuel: nat) -> Option<Seq<char>>
    decreases fuel, items.len(),
{
    if items.len() == 0 {
        Some(Seq::empty())
    } else if items.len() == 1 {
        show_value(h, h[items[0].0 as int], fuel)
    } else {
        match (show_list(h, items.subrange(0, items.len() - 1), sep, fuel), show_value(h, h[items.last().0 as int], fuel)) {
            (Some(x), Some(y)) => Some(x + sep + y),
            _ => None,
        }
    }
}

/// Whether two values are equal as `==` decides: booleans and integers by
/// value, units always, native functions never, lambdas by their parameters
/// and body, arrays item by item from the first until one differs, ranges by
/// their bounds and kind; values of different kinds never.  `None` if the
/// budget runs out.
pub open spec fn same_value(h: Seq<SValue>, a: SValue, b: SValue, fuel: nat) -> Option<bool>
    decreases fuel, 0nat,
{
    match (a, b) {
        (SValue::Unit, SValue::Unit) => Some(true),
        (SValue::Bool(x), SValue::Bool(y)) => Some(x == y),
        (SValue::Integer(x), SValue::Integer(y)) => Some(x == y),
        (SValue::NativeFn(_), SValue::NativeFn(_)) => Some(false),
        (SValue::LambdaFn(p, q), SValue::LambdaFn(p2, q2)) => Some(p == p2 && q == q2),
        (SValue::Array(xs), SValue::Array(ys)) => if xs.len() != ys.len() {
            Some(false)
        } else if fuel == 0 {
            None
        } else {
            same_items(h, xs, ys, 0, (fuel - 1) as nat)
        },
        (SValue::Range(a0, a1, c), SValue::Range(b0, b1, d)) => if fuel == 0 {
            None
        } else {
            match same_value(h, h[a0.0 as int], h[b0.0 as int], (fuel - 1) as nat) {
                Some(true) => match same_value(h, h[a1.0 as int], h[b1.0 as int], (fuel - 1) as nat) {
                    Some(true) => Some(c == d),
                    other => other,
                },
                other => other,
            }
        },
        _ => Some(false),
    }
}

/// Whether the cells `xs[i..]` and `ys[i..]` hold equal values, compared
/// from the first until one pair differs.
pub open spec fn same_items(h: Seq<SValue>, xs: Seq<ValueRef>, ys: Seq<ValueRef>, i: int, fuel: nat) -> Option<bool>
    decreases fuel, xs.len() - i,
{
    if i < 0 || i >= xs.len() || i >= ys.len() {
        Some(true)
    } else {
        match same_value(h, h[xs[i].0 as int], h[ys[i].0 as int], fuel) {
            Some(true) => same_items(h, xs, ys, i + 1, fuel),
            other => other,
        }
    }
}

/// What a native function does with the cells of its arguments.
pub open spec fn call_native(f: NativeFn, args: Seq<ValueRef>, s: State, fuel: nat) -> (Result<ValueRef, SError>, State) {
    match f {
        NativeFn::Print => match show_list(s.heap, args, " "@, fuel) {
            Some(line) => new_value(State { output: s.output.push(line), ..s }, SValue::Unit),
            None => (Err(SError::OutOfFuel), s),
        },
        NativeFn::Push(t) => if s.borrowed.contains(t) {
            (Err(SError::Panic(EvalPanic::AlreadyBorrowed)), s)
        } else if t.0 < s.heap.len() && cell(s, t) is Array {
            new_value(
                State { heap: s.heap.update(t.0 as int, SValue::Array(cell(s, t)->Array_0 + args)), ..s },
                SValue::Unit,
            )
        } else {
            (Err(SError::Panic(EvalPanic::Unreachable)), s)
        },
    }
}

/// What a loop over the items of an array or range runs through: the cells
/// of an array, or `count` integers from `start` on.
pub enum ForItems {
    Cells(Seq<ValueRef>),
    Ints(int, nat),
}

/// The number of items.
pub open spec fn for_count(items: ForItems) -> nat {
    match items {
        ForItems::Cells(c) => c.len(),
        ForItems::Ints(_, n) => n,
    }
}

/// What a `for` loop runs through when given the cell `v`: the cells of an
/// array, or the integers of a range, from its start up to its end, the end
/// included for `a..=b` and left out for `a..b`.
pub open spec fn for_items(s: State, v: ValueRef) -> Result<ForItems, SError> {
    match cell(s, v) {
        SValue::Array(items) => Ok(ForItems::Cells(items)),
        SValue::Range(a, b, close_end) => match cell(s, a) {
            SValue::Integer(start) => match cell(s, b) {
                SValue::Integer(end) => {
                    let n: int = if close_end { end - start + 1 } else { end - start };
                    Ok(ForItems::Ints(start as int, if n < 0 { 0 } else { n as nat }))
                },
                w => Err(SError::ExpectedInt(w)),
            },
            w => Err(SError::ExpectedInt(w)),
        },
        w => Err(SError::ExpectedArray(w)),
    }
}

/// Binds the `k`-th item of a loop to its variable, and its position to the
/// index variable if there is one.  Each is assigned in the innermost frame
/// that declares it; an undeclared one is a state the loop never reaches.
pub open spec fn bind_item(
    var: Seq<char>,
    index: Option<Seq<char>>,
    items: ForItems,
    k: nat,
    s: State,
) -> (Result<(), SError>, State) {
    let (item, s1) = match items {
        ForItems::Cells(c) => (c[k as int], s),
        ForItems::Ints(start, _) => allocate(s, SValue::Integer(wrap_i32(start + k))),
    };
    match assign(s1.frames, var, item) {
        None => (Err(SError::Panic(EvalPanic::Unreachable)), s1),
        Some(fs) => {
            let s2 = State { frames: fs, ..s1 };
            match index {
                None => (Ok(()), s2),
                Some(ix) => {
                    let (pos, s3) = allocate(s2, SValue::Integer(wrap_i32(k as int)));
                    match assign(s3.frames, ix, pos) {
                        None => (Err(SError::Panic(EvalPanic::Unreachable)), s3),
                        Some(fs3) => (Ok(()), State { frames: fs3, ..s3 }),
                    }
                },
            }
        },
    }
}

/// Evaluates an expression in the state `s`.
pub open spec fn eval(e: SAst, s: State, fuel: nat) -> (Result<ValueRef, SError>, State)
    decreases fuel, e, 2nat,
{
    match e {
        SAst::Atom(t) => match t {
            Tok::Ident(name) => match lookup(s.frames, name) {
                Some(r) => (Ok(r), s),
                None => (Err(SError::UndefinedVariable(name)), s),
            },
            Tok::IntLit(n) => new_value(s, SValue::Integer(wrap_i32(n as int))),
            Tok::Keyword(Keyword::True) => new_value(s, SValue::Bool(true)),
            Tok::Keyword(Keyword::False) => new_value(s, SValue::Bool(false)),
            _ => (Err(SError::Panic(EvalPanic::Unreachable)), s),
        },
        SAst::ArrayLit(items) => {
            let (r, s1) = eval_seq(items, s, fuel);
            match r {
                Ok(refs) => new_value(s1, SValue::Array(refs)),
                Err(x) => (Err(x), s1),
            }
        },
        SAst::PrefixOp(_, a) => {
            let (r, s1) = eval(*a, s, fuel);
            match as_int(r, s1) {
                Err(x) => (Err(x), s1),
                Ok(n) => if n == i32::MIN {
                    (Err(SError::Panic(EvalPanic::Overflow)), s1)
                } else {
                    new_value(s1, SValue::Integer((-n) as i32))
                },
            }
        },
        SAst::PostfixOp(_, a) => {
            let (r, s1) = eval(*a, s, fuel);
            match as_int(r, s1) {
                Err(x) => (Err(x), s1),
                Ok(n) => if factorial(n as int) > i32::MAX {
                    (Err(SError::Panic(EvalPanic::Overflow)), s1)
                } else {
                    new_value(s1, SValue::Integer(factorial(n as int) as i32))
                },
            }
        },
        SAst::BinOp(op, a, b) => match op {
            InfixOp::Assign => match *a {
                SAst::Atom(Tok::Ident(name)) => {
                    let (r, s1) = eval(*b, s, fuel);
                    match r {
                        Err(x) => (Err(x), s1),
                        Ok(v) => match assign(s1.frames, name, v) {
                            Some(fs) => new_value(State { frames: fs, ..s1 }, SValue::Unit),
                            None => (Err(SError::UndefinedVariable(name)), s1),
                        },
                    }
                },
                _ => (Err(SError::ExpectedVar), s),
            },
            InfixOp::Equality => {
                let (ra, s1) = eval(*a, s, fuel);
                match ra {
                    Err(x) => (Err(x), s1),
                    Ok(va) => {
                        let (rb, s2) = eval(*b, s1, fuel);
                        match rb {
                            Err(x) => (Err(x), s2),
                            Ok(vb) => match same_value(s2.heap, cell(s2, va), cell(s2, vb), fuel) {
                                Some(eq) => new_value(s2, SValue::Bool(eq)),
                                None => (Err(SError::OutOfFuel), s2),
                            },
                        }
                    },
                }
            },
            InfixOp::Cmp(c) => {
                let (ra, s1) = eval(*a, s, fuel);
                match ra {
                    Err(x) => (Err(x), s1),
                    Ok(va) => {
                        let (rb, s2) = eval(*b, s1, fuel);
                        match rb {
                            Err(x) => (Err(x), s2),
                            Ok(vb) => new_value(s2, SValue::Bool(compare_cells(c, cell(s2, va), cell(s2, vb)))),
                        }
                    },
                }
            },
            _ => {
                let (ra, s1) = eval(*a, s, fuel);
                match as_int(ra, s1) {
                    Err(x) => (Err(x), s1),
                    Ok(x) => {
                        let (rb, s2) = eval(*b, s1, fuel);
                        match as_int(rb, s2) {
                            Err(y) => (Err(y), s2),
                            Ok(y) => match arith(op, x, y) {
                                Ok(z) => new_value(s2, SValue::Integer(z)),
                                Err(p) => (Err(SError::Panic(p)), s2),
                            },
                        }
                    },
                }
            },
        },
        SAst::FunctionCall(f, args) => {
            let (rf, s1) = eval(*f, s, fuel);
            match rf {
                Err(x) => (Err(x), s1),
                Ok(fv) => match cell(s1, fv) {
                    SValue::NativeFn(nf) => {
                        let (ra, s2) = eval_seq(args, s1, fuel);
                        match ra {
                            Err(x) => (Err(x), s2),
                            Ok(refs) => call_native(nf, refs, s2, fuel),
                        }
                    },
                    SValue::LambdaFn(params, body) => {
                        let (ra, s2) = eval_lambda_args(params.len(), args, s1, fuel);
                        match ra {
                            Err(x) => (Err(x), s2),
                            Ok(refs) => if fuel == 0 {
                                (Err(SError::OutOfFuel), s2)
                            } else {
                                let s3 = State {
                                    frames: declare_all(s2.frames.push(Map::empty()), params, refs),
                                    ..s2
                                };
                                let (rb, s4) = eval_block(body, s3, (fuel - 1) as nat);
                                (rb, State { frames: s4.frames.drop_last(), ..s4 })
                            },
                        }
                    },
                    w => (Err(SError::ExpectedFunction(w)), s1),
                },
            }
        },
        SAst::Index(arr, idx) => {
            let (ra, s1) = eval(*arr, s, fuel);
            match ra {
                Err(x) => (Err(x), s1),
                Ok(a) => match cell(s1, a) {
                    SValue::Array(_) => {
                        let (ri, s2) = eval(*idx, State { borrowed: s1.borrowed.push(a), ..s1 }, fuel);
                        let s3 = State { borrowed: s2.borrowed.drop_last(), ..s2 };
                        match as_int(ri, s2) {
                            Err(x) => (Err(x), s3),
                            Ok(n) => match cell(s3, a) {
                                SValue::Array(items) => if 0 <= n < items.len() {
                                    (Ok(items[n as int]), s3)
                                } else {
                                    (Err(SError::OutOfBounds(items.len() as usize, n)), s3)
                                },
                                _ => (Err(SError::Panic(EvalPanic::Unreachable)), s3),
                            },
                        }
                    },
                    w => (Err(SError::ExpectedArray(w)), s1),
                },
            }
        },
        SAst::Declare(var, val) => {
            let (r, s1) = match val {
                Some(x) => eval(*x, s, fuel),
                None => new_value(s, SValue::Unit),
            };
            match r {
                Err(x) => (Err(x), s1),
                Ok(v) => new_value(State { frames: declare(s1.frames, var, v), ..s1 }, SValue::Unit),
            }
        },
        SAst::Block(b) => eval_block(b, s, fuel),
        SAst::LambdaLit(params, body) => new_value(s, SValue::LambdaFn(params, body)),
        SAst::If(c, body, elze) => {
            let (rc, s1) = eval(*c, s, fuel);
            match rc {
                Err(x) => (Err(x), s1),
                Ok(cv) => match cell(s1, cv) {
                    SValue::Bool(true) => eval_block(body, s1, fuel),
                    SValue::Bool(false) => match elze {
                        Some(eb) => eval_block(eb, s1, fuel),
                        None => new_value(s1, SValue::Unit),
                    },
                    w => (Err(SError::ExpectedBool(w)), s1),
                },
            }
        },
        SAst::While(c, body) => {
            let (last, s1) = allocate(s, SValue::Unit);
            eval_while(*c, body, s1, fuel, last)
        },
        SAst::For(var, index, arr, body) => {
            let (ra, s1) = eval(*arr, s, fuel);
            match ra {
                Err(x) => (Err(x), s1),
                Ok(a) => match for_items(s1, a) {
                    Err(x) => (Err(x), s1),
                    Ok(items) => {
                        let s2 = State {
                            frames: s1.frames.push(Map::empty()),
                            borrowed: s1.borrowed.push(a),
                            ..s1
                        };
                        let (u, s3) = allocate(s2, SValue::Unit);
                        let s4 = State { frames: declare(s3.frames, var, u), ..s3 };
                        let s5 = match index {
                            Some(ix) => {
                                let (u2, s) = allocate(s4, SValue::Unit);
                                State { frames: declare(s.frames, ix, u2), ..s }
                            },
                            None => s4,
                        };
                        let (last, s6) = allocate(s5, SValue::Unit);
                        let (r, s7) = eval_for(var, index, body, items, 0, s6, fuel, last);
                        (r, State { frames: s7.frames.drop_last(), borrowed: s7.borrowed.drop_last(), ..s7 })
                    },
                },
            }
        },
        SAst::Range(a, b, close_end) => {
            let (ra, s1) = eval(*a, s, fuel);
            match ra {
                Err(x) => (Err(x), s1),
                Ok(va) => {
                    let (rb, s2) = eval(*b, s1, fuel);
                    match rb {
                        Err(x) => (Err(x), s2),
                        Ok(vb) => new_value(s2, SValue::Range(va, vb, close_end)),
                    }
                },
            }
        },
        SAst::FieldAccess(v, field) => {
            let (r, s1) = eval(*v, s, fuel);
            match r {
                Err(x) => (Err(x), s1),
                Ok(a) => match cell(s1, a) {
                    SValue::Array(items) => if field == "len"@ {
                        new_value(s1, SValue::Integer(wrap_i32(items.len() as int)))
                    } else if field == "push"@ {
                        new_value(s1, SValue::NativeFn(NativeFn::Push(a)))
                    } else {
                        (Err(SError::UnknownField(SValue::Array(items), field)), s1)
                    },
                    w => (Err(SError::UnknownField(w, field)), s1),
                },
            }
        },
    }
}

/// Evaluates expressions from the first to the last, collecting the cells
/// they give, until one fails.
pub open spec fn eval_seq(items: Seq<SAst>, s: State, fuel: nat) -> (Result<Seq<ValueRef>, SError>, State)
    decreases fuel, items, 0nat,
{
    if items.len() == 0 {
        (Ok(Seq::empty()), s)
    } else {
        let (r, s1) = eval_seq(items.subrange(0, items.len() - 1), s, fuel);
        match r {
            Err(x) => (Err(x), s1),
            Ok(refs) => {
                let (v, s2) = eval(items[items.len() - 1], s1, fuel);
                match v {
                    Err(x) => (Err(x), s2),
                    Ok(c) => (Ok(refs.push(c)), s2),
                }
            },
        }
    }
}

/// Evaluates the arguments of a call of a lambda with `n` parameters: the
/// first `n` arguments, and a new unit for each parameter without one.
pub open spec fn eval_lambda_args(n: nat, args: Seq<SAst>, s: State, fuel: nat) -> (Result<Seq<ValueRef>, SError>, State)
    decreases fuel, args, n,
{
    if n == 0 {
        (Ok(Seq::empty()), s)
    } else {
        let (r, s1) = eval_lambda_args((n - 1) as nat, args, s, fuel);
        match r {
            Err(x) => (Err(x), s1),
            Ok(refs) => {
                let (v, s2) = if n - 1 < args.len() {
                    eval(args[n - 1], s1, fuel)
                } else {
                    new_value(s1, SValue::Unit)
                };
                match v {
                    Err(x) => (Err(x), s2),
                    Ok(c) => (Ok(refs.push(c)), s2),
                }
            },
        }
    }
}

/// Evaluates a block: a new unit first, then its expressions in turn; the
/// block gives the last expression's value if it returns one, a new unit
/// if it does not.
pub open spec fn eval_block(b: SBlock, s: State, fuel: nat) -> (Result<ValueRef, SError>, State)
    decreases fuel, b, 1nat,
{
    let (u, s1) = allocate(s, SValue::Unit);
    let (r, s2) = eval_seq(b.exprs, s1, fuel);
    match r {
        Err(x) => (Err(x), s2),
        Ok(refs) => if b.ret {
            (Ok(if refs.len() == 0 { u } else { refs.last() }), s2)
        } else {
            new_value(s2, SValue::Unit)
        },
    }
}

/// Runs a `while` loop whose last body value so far is `last`.
pub open spec fn eval_while(c: SAst, body: SBlock, s: State, fuel: nat, last: ValueRef) -> (Result<ValueRef, SError>, State)
    decreases fuel, c, 0nat,
{
    if fuel == 0 {
        (Err(SError::OutOfFuel), s)
    } else {
        let f = (fuel - 1) as nat;
        let (rc, s1) = eval(c, s, f);
        match rc {
            Err(x) => (Err(x), s1),
            Ok(cv) => match cell(s1, cv) {
                SValue::Bool(false) => (Ok(last), s1),
                SValue::Bool(true) => {
                    let (rb, s2) = eval_block(body, s1, f);
                    match rb {
                        Err(x) => (Err(x), s2),
                        Ok(v) => eval_while(c, body, s2, f, v),
                    }
                },
                w => (Err(SError::ExpectedBool(w)), s1),
            },
        }
    }
}

/// Runs a `for` loop from its `k`-th item on; `last` is the last body value
/// so far.
pub open spec fn eval_for(
    var: Seq<char>,
    index: Option<Seq<char>>,
    body: SBlock,
    items: ForItems,
    k: nat,
    s: State,
    fuel: nat,
    last: ValueRef,
) -> (Result<ValueRef, SError>, State)
    decreases fuel, body, 0nat,
{
    if k >= for_count(items) {
        (Ok(last), s)
    } else if fuel == 0 {
        (Err(SError::OutOfFuel), s)
    } else {
        let f = (fuel - 1) as nat;
        let (rb0, s1) = bind_item(var, index, items, k, s);
        match rb0 {
            Err(x) => (Err(x), s1),
            Ok(_) => {
                let (rb, s2) = eval_block(body, s1, f);
                match rb {
                    Err(x) => (Err(x), s2),
                    Ok(v) => eval_for(var, index, body, items, k + 1, s2, f, v),
                }
            },
        }
    }
}

} // verus!
