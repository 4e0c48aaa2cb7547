//! Properties of evaluation as a whole.

use vstd::prelude::*;

use crate::ast::{SAst, SBlock};
use crate::eval::keeps;
use crate::scope::{FrameView, assign, declare, law_assign, lookup};
use crate::ast::InfixOp;
use crate::semantics::{
    EvalPanic, ForItems, SError, State, allocate, arith, bind_item, call_native, cell, declare_all,
    eval, eval_block, eval_for, eval_lambda_args, eval_seq, eval_while, for_items, same_items,
    same_value, show_list, show_value,
};
use crate::token::Tok;
use crate::value::{NativeFn, SValue, ValueRef};

verus! {

/// Assigning keeps the number of frames.
pub proof fn lemma_assign_len(fs: Seq<FrameView>, name: Seq<char>, v: ValueRef)
    ensures
        assign(fs, name, v) matches Some(g) ==> g.len() == fs.len(),
    decreases fs.len(),
{
    if fs.len() > 0 && !fs.last().contains_key(name) {
        lemma_assign_len(fs.drop_last(), name, v);
    }
}

/// Declaring names keeps the number of frames.
pub proof fn lemma_declare_all_len(fs: Seq<FrameView>, names: Seq<Seq<char>>, refs: Seq<ValueRef>)
    requires
        fs.len() >= 1,
    ensures
        declare_all(fs, names, refs).len() == fs.len(),
    decreases names.len(),
{
    if names.len() > 0 {
        lemma_declare_all_len(fs, names.drop_last(), refs);
    }
}

/// A native call keeps the frames and the reads, and only adds cells.
pub proof fn lemma_keeps_native(f: NativeFn, args: Seq<ValueRef>, s: State, fuel: nat)
    ensures
        keeps(s, call_native(f, args, s, fuel).1),
{
}

/// Binding a loop item keeps the frames and the reads, and only adds cells.
pub proof fn lemma_keeps_bind(var: Seq<char>, index: Option<Seq<char>>, items: ForItems, k: nat, s: State)
    ensures
        keeps(s, bind_item(var, index, items, k, s).1),
{
    let (item, s1) = match items {
        ForItems::Cells(c) => (c[k as int], s),
        ForItems::Ints(start, _) => allocate(s, SValue::Integer(crate::num::wrap_i32(start + k))),
    };
    lemma_assign_len(s1.frames, var, item);
    if let Some(fs) = assign(s1.frames, var, item) {
        let s2 = State { frames: fs, ..s1 };
        if let Some(ix) = index {
            let (pos, s3) = allocate(s2, SValue::Integer(crate::num::wrap_i32(k as int)));
            lemma_assign_len(s3.frames, ix, pos);
        }
    }
}

/// Every evaluation that starts with at least one frame ends with as many
/// frames and the same reads as it started with, and with no fewer cells.
pub proof fn lemma_keeps_eval(e: SAst, s: State, fuel: nat)
    requires
        s.frames.len() >= 1,
    ensures
        keeps(s, eval(e, s, fuel).1),
    decreases fuel, e, 2nat,
{
    match e {
        SAst::Atom(_) => {},
        SAst::ArrayLit(items) => {
            lemma_keeps_seq(items, s, fuel);
        },
        SAst::PrefixOp(_, a) => {
            lemma_keeps_eval(*a, s, fuel);
        },
        SAst::PostfixOp(_, a) => {
            lemma_keeps_eval(*a, s, fuel);
        },
        SAst::BinOp(_, a, b) => {
            lemma_keeps_eval(*a, s, fuel);
            let s1 = eval(*a, s, fuel).1;
            lemma_keeps_eval(*b, s1, fuel);
            lemma_keeps_eval(*b, s, fuel);
            let (rv, s2) = eval(*b, s, fuel);
            if let (SAst::Atom(Tok::Ident(name)), Ok(v)) = (*a, rv) {
                lemma_assign_len(s2.frames, name, v);
            }
        },
        SAst::FunctionCall(f, args) => {
            lemma_keeps_eval(*f, s, fuel);
            let (rf, s1) = eval(*f, s, fuel);
            if let Ok(fv) = rf {
                match s1.heap[fv.0 as int] {
                    SValue::NativeFn(nf) => {
                        lemma_keeps_seq(args, s1, fuel);
                        let (ra, s2) = eval_seq(args, s1, fuel);
                        if let Ok(refs) = ra {
                            lemma_keeps_native(nf, refs, s2, fuel);
                        }
                    },
                    SValue::LambdaFn(params, body) => {
                        lemma_keeps_lambda_args(params.len(), args, s1, fuel);
                        let (ra, s2) = eval_lambda_args(params.len(), args, s1, fuel);
                        if let Ok(refs) = ra {
                            if fuel > 0 {
                                let fs = s2.frames.push(Map::empty());
                                lemma_declare_all_len(fs, params, refs);
                                let s3 = State { frames: declare_all(fs, params, refs), ..s2 };
                                lemma_keeps_block(body, s3, (fuel - 1) as nat);
                            }
                        }
                    },
                    _ => {},
                }
            }
        },
        SAst::Index(arr, idx) => {
            lemma_keeps_eval(*arr, s, fuel);
            let (ra, s1) = eval(*arr, s, fuel);
            if let Ok(a) = ra {
                let sb = State { borrowed: s1.borrowed.push(a), ..s1 };
                lemma_keeps_eval(*idx, sb, fuel);
                let s2 = eval(*idx, sb, fuel).1;
                assert(s2.borrowed.drop_last() =~= s1.borrowed);
            }
        },
        SAst::Declare(var, val) => {
            match val {
                Some(x) => {
                    lemma_keeps_eval(*x, s, fuel);
                },
                None => {},
            }
        },
        SAst::Block(b) => {
            lemma_keeps_block(b, s, fuel);
        },
        SAst::LambdaLit(_, _) => {},
        SAst::If(c, body, elze) => {
            lemma_keeps_eval(*c, s, fuel);
            let s1 = eval(*c, s, fuel).1;
            lemma_keeps_block(body, s1, fuel);
            if let Some(eb) = elze {
                lemma_keeps_block(eb, s1, fuel);
            }
        },
        SAst::While(c, body) => {
            let (last, s1) = allocate(s, SValue::Unit);
            lemma_keeps_while(*c, body, s1, fuel, last);
        },
        SAst::For(var, index, arr, body) => {
            lemma_keeps_eval(*arr, s, fuel);
            let (ra, s1) = eval(*arr, s, fuel);
            if let Ok(a) = ra {
                if let Ok(items) = for_items(s1, a) {
                    let s2 = State { frames: s1.frames.push(Map::empty()), borrowed: s1.borrowed.push(a), ..s1 };
                    let (u, s3) = allocate(s2, SValue::Unit);
                    let s4 = State { frames: declare(s3.frames, var, u), ..s3 };
                    let s5 = match index {
                        Some(ix) => {
                            let (u2, s) = allocate(s4, SValue::Unit);
                            State { frames: declare(s.frames, ix, u2), ..s }
                        },
                        None => s4,
                    };
                    let (last, s6) = allocate(s5, SValue::Unit);
                    lemma_keeps_for(var, index, body, items, 0, s6, fuel, last);
                    let s7 = eval_for(var, index, body, items, 0, s6, fuel, last).1;
                    assert(s7.borrowed.drop_last() =~= s1.borrowed);
                }
            }
        },
        SAst::Range(a, b, _) => {
            lemma_keeps_eval(*a, s, fuel);
            let s1 = eval(*a, s, fuel).1;
            lemma_keeps_eval(*b, s1, fuel);
        },
        SAst::FieldAccess(v, _) => {
            lemma_keeps_eval(*v, s, fuel);
        },
    }
}

/// Evaluating several expressions keeps the frames and the reads, and only
/// adds cells.
pub proof fn lemma_keeps_seq(items: Seq<SAst>, s: State, fuel: nat)
    requires
        s.frames.len() >= 1,
    ensures
        keeps(s, eval_seq(items, s, fuel).1),
    decreases fuel, items, 0nat,
{
    if items.len() > 0 {
        let init = items.subrange(0, items.len() - 1);
        lemma_keeps_seq(init, s, fuel);
        let s1 = eval_seq(init, s, fuel).1;
        lemma_keeps_eval(items[items.len() - 1], s1, fuel);
    }
}

/// Evaluating the arguments of a lambda call keeps the frames and the
/// reads, and only adds cells.
pub proof fn lemma_keeps_lambda_args(n: nat, args: Seq<SAst>, s: State, fuel: nat)
    requires
        s.frames.len() >= 1,
    ensures
        keeps(s, eval_lambda_args(n, args, s, fuel).1),
    decreases fuel, args, n,
{
    if n > 0 {
        lemma_keeps_lambda_args((n - 1) as nat, args, s, fuel);
        let s1 = eval_lambda_args((n - 1) as nat, args, s, fuel).1;
        if n - 1 < args.len() {
            lemma_keeps_eval(args[n - 1], s1, fuel);
        }
    }
}

/// Evaluating a block keeps the frames and the reads, and only adds cells.
pub proof fn lemma_keeps_block(b: SBlock, s: State, fuel: nat)
    requires
        s.frames.len() >= 1,
    ensures
        keeps(s, eval_block(b, s, fuel).1),
    decreases fuel, b, 1nat,
{
    let (u, s1) = allocate(s, SValue::Unit);
    lemma_keeps_seq(b.exprs, s1, fuel);
}

/// A `while` loop keeps the frames and the reads, and only adds cells.
pub proof fn lemma_keeps_while(c: SAst, body: SBlock, s: State, fuel: nat, last: ValueRef)
    requires
        s.frames.len() >= 1,
    ensures
        keeps(s, eval_while(c, body, s, fuel, last).1),
    decreases fuel, c, 0nat,
{
    if fuel > 0 {
        let f = (fuel - 1) as nat;
        lemma_keeps_eval(c, s, f);
        let (rc, s1) = eval(c, s, f);
        lemma_keeps_block(body, s1, f);
        let (rb, s2) = eval_block(body, s1, f);
        if let Ok(v) = rb {
            lemma_keeps_while(c, body, s2, f, v);
        }
    }
}

/// A `for` loop keeps the frames and the reads, and only adds cells.
pub proof fn lemma_keeps_for(
    var: Seq<char>,
    index: Option<Seq<char>>,
    body: SBlock,
    items: ForItems,
    k: nat,
    s: State,
    fuel: nat,
    last: ValueRef,
)
    requires
        s.frames.len() >= 1,
    ensures
        keeps(s, eval_for(var, index, body, items, k, s, fuel, last).1),
    decreases fuel, body, 0nat,
{
    if k < crate::semantics::for_count(items) && fuel > 0 {
        let f = (fuel - 1) as nat;
        lemma_keeps_bind(var, index, items, k, s);
        let (rb0, s1) = bind_item(var, index, items, k, s);
        if rb0 is Ok {
            lemma_keeps_block(body, s1, f);
            let (rb, s2) = eval_block(body, s1, f);
            if let Ok(v) = rb {
                lemma_keeps_for(var, index, body, items, k + 1, s2, f, v);
            }
        }
    }
}

/// A read gives back what a declaration wrote: in a block that declares
/// `name` with the value of `e` and then reads `name`, the read gives the
/// cell that `e` gave, whenever `e` succeeds.
pub proof fn law_declare_then_read(name: Seq<char>, e: SAst, s: State, fuel: nat)
    requires
        s.frames.len() >= 1,
    ensures
        ({
            let s0 = allocate(s, SValue::Unit).1;
            let r = eval(e, s0, fuel).0;
            let prog = SAst::Block(
                SBlock {
                    exprs: seq![SAst::Declare(name, Some(Box::new(e))), SAst::Atom(Tok::Ident(name))],
                    ret: true,
                },
            );
            r is Ok ==> eval(prog, s, fuel).0 == r
        }),
{
    let (u, s0) = allocate(s, SValue::Unit);
    let (r, s1) = eval(e, s0, fuel);
    if let Ok(v) = r {
        let d = SAst::Declare(name, Some(Box::new(e)));
        let a = SAst::Atom(Tok::Ident(name));
        let exprs = seq![d, a];
        lemma_keeps_eval(e, s0, fuel);
        let s1d = State { frames: declare(s1.frames, name, v), ..s1 };
        let (c, s2) = allocate(s1d, SValue::Unit);
        assert(eval(d, s0, fuel) == (Ok::<ValueRef, SError>(c), s2));
        assert(exprs.subrange(0, 1) =~= seq![d]);
        assert(seq![d].subrange(0, 0) =~= Seq::<SAst>::empty());
        assert(eval_seq(Seq::<SAst>::empty(), s0, fuel) == (Ok::<Seq<ValueRef>, SError>(Seq::empty()), s0));
        assert(Seq::<ValueRef>::empty().push(c) =~= seq![c]);
        assert(eval_seq(seq![d], s0, fuel) == (Ok::<Seq<ValueRef>, SError>(seq![c]), s2));
        crate::scope::law_lookup_after_declare(s1.frames, name, v, name);
        assert(eval(a, s2, fuel) == (Ok::<ValueRef, SError>(v), s2));
        assert(eval_seq(exprs, s0, fuel) == (Ok::<Seq<ValueRef>, SError>(seq![c].push(v)), s2));
        let b = SBlock { exprs, ret: true };
        assert(eval_block(b, s, fuel) == (Ok::<ValueRef, SError>(v), s2));
        assert(eval(SAst::Block(b), s, fuel) == eval_block(b, s, fuel));
    }
}

/// Integer arithmetic is 32-bit arithmetic that fails where Rust's would
/// panic: `+`, `-` and `*` on two literals give the exact result when it is
/// an `i32` and overflow otherwise; `/` rounds toward zero, and fails on a
/// zero divisor and on overflow.
pub proof fn law_checked_arithmetic(op: InfixOp, a: u32, b: u32, s: State, fuel: nat)
    requires
        op is Add || op is Sub || op is Mul || op is Div,
        s.heap.len() + 3 <= usize::MAX,
    ensures
        ({
            let x = crate::num::wrap_i32(a as int);
            let y = crate::num::wrap_i32(b as int);
            let (r, s1) = eval(
                SAst::BinOp(op, Box::new(SAst::Atom(Tok::IntLit(a))), Box::new(SAst::Atom(Tok::IntLit(b)))),
                s,
                fuel,
            );
            match arith(op, x, y) {
                Ok(z) => r matches Ok(c) && cell(s1, c) == SValue::Integer(z),
                Err(p) => r == Err::<ValueRef, SError>(SError::Panic(p)),
            }
        }),
        arith(InfixOp::Add, 0x7fff_ffff, 1) == Err::<i32, EvalPanic>(EvalPanic::Overflow),
        forall|x: i32| arith(InfixOp::Div, x, 0) == Err::<i32, EvalPanic>(EvalPanic::DivisionByZero),
        arith(InfixOp::Div, -7i32, 2i32) == Ok::<i32, EvalPanic>(-3i32),
{
    let x = crate::num::wrap_i32(a as int);
    let y = crate::num::wrap_i32(b as int);
    let la = SAst::Atom(Tok::IntLit(a));
    let lb = SAst::Atom(Tok::IntLit(b));
    let (ca, s1) = allocate(s, SValue::Integer(x));
    assert(eval(la, s, fuel) == (Ok::<ValueRef, SError>(ca), s1));
    assert(cell(s1, ca) == SValue::Integer(x));
    let (cb, s2) = allocate(s1, SValue::Integer(y));
    assert(eval(lb, s1, fuel) == (Ok::<ValueRef, SError>(cb), s2));
    assert(cell(s2, cb) == SValue::Integer(y));
    if let Ok(z) = arith(op, x, y) {
        let (c, s3) = allocate(s2, SValue::Integer(z));
        assert(cell(s3, c) == SValue::Integer(z));
    }
    assert(crate::num::abs_int(-7) == 7 && crate::num::abs_int(2) == 2);
    assert(7int / 2int == 3) by (nonlinear_arith);
    assert(crate::num::trunc_div(-7, 2) == -3);
}

/// Indexing an array literal with an integer literal gives the cell of
/// the item at that position, when the items evaluate and the position is
/// among them.
pub proof fn law_array_literal_index(items: Seq<SAst>, k: u32, s: State, fuel: nat)
    requires
        s.frames.len() >= 1,
        k < 0x8000_0000,
        eval_seq(items, s, fuel).1.heap.len() + 2 <= usize::MAX,
    ensures
        ({
            let (ri, s1) = eval_seq(items, s, fuel);
            let prog = SAst::Index(Box::new(SAst::ArrayLit(items)), Box::new(SAst::Atom(Tok::IntLit(k))));
            ri matches Ok(refs) ==> (k < refs.len() ==> eval(prog, s, fuel).0 == Ok::<ValueRef, SError>(
                refs[k as int],
            ))
        }),
{
    let (ri, s1) = eval_seq(items, s, fuel);
    if let Ok(refs) = ri {
        if k < refs.len() {
            let (a, s2) = allocate(s1, SValue::Array(refs));
            let sb = State { borrowed: s2.borrowed.push(a), ..s2 };
            let (n, s3) = allocate(sb, SValue::Integer(crate::num::wrap_i32(k as int)));
            assert(crate::num::wrap_i32(k as int) == k) by (bit_vector)
                requires
                    k < 0x8000_0000u32,
            ;
            assert(cell(s3, n) == SValue::Integer(k as i32));
            assert(cell(State { borrowed: s3.borrowed.drop_last(), ..s3 }, a) == SValue::Array(refs));
            assert(eval(SAst::ArrayLit(items), s, fuel) == (Ok::<ValueRef, SError>(a), s2));
            assert(eval(SAst::Atom(Tok::IntLit(k)), sb, fuel) == (Ok::<ValueRef, SError>(n), s3));
        }
    }
}

/// Equality is symmetric: comparing `b` with `a` gives what comparing `a`
/// with `b` gives, within the same budget.
pub proof fn law_equality_symmetric(h: Seq<SValue>, a: SValue, b: SValue, fuel: nat)
    ensures
        same_value(h, a, b, fuel) == same_value(h, b, a, fuel),
    decreases fuel, 0nat,
{
    match (a, b) {
        (SValue::Array(xs), SValue::Array(ys)) => {
            if xs.len() == ys.len() && fuel > 0 {
                lemma_same_items_symmetric(h, xs, ys, 0, (fuel - 1) as nat);
            }
        },
        (SValue::Range(a0, a1, _), SValue::Range(b0, b1, _)) => {
            if fuel > 0 {
                law_equality_symmetric(h, h[a0.0 as int], h[b0.0 as int], (fuel - 1) as nat);
                law_equality_symmetric(h, h[a1.0 as int], h[b1.0 as int], (fuel - 1) as nat);
            }
        },
        _ => {},
    }
}

/// Comparing item by item is symmetric.
pub proof fn lemma_same_items_symmetric(h: Seq<SValue>, xs: Seq<ValueRef>, ys: Seq<ValueRef>, i: int, fuel: nat)
    requires
        xs.len() == ys.len(),
    ensures
        same_items(h, xs, ys, i, fuel) == same_items(h, ys, xs, i, fuel),
    decreases fuel, xs.len() - i,
{
    if 0 <= i < xs.len() {
        law_equality_symmetric(h, h[xs[i].0 as int], h[ys[i].0 as int], fuel);
        lemma_same_items_symmetric(h, xs, ys, i + 1, fuel);
    }
}

/// Whether an outcome is the one of a spent budget.
pub open spec fn out_of_fuel<T>(r: Result<T, SError>) -> bool {
    r matches Err(SError::OutOfFuel)
}

/// More budget never changes a rendering that was finished.
pub proof fn lemma_fuel_show_value(h: Seq<SValue>, v: SValue, f1: nat, f2: nat)
    requires
        f1 <= f2,
        show_value(h, v, f1) is Some,
    ensures
        show_value(h, v, f2) == show_value(h, v, f1),
    decreases f1, 0nat,
{
    match v {
        SValue::Array(items) => {
            lemma_fuel_show_list(h, items, ", "@, (f1 - 1) as nat, (f2 - 1) as nat);
        },
        SValue::Range(a, b, _) => {
            lemma_fuel_show_value(h, h[a.0 as int], (f1 - 1) as nat, (f2 - 1) as nat);
            lemma_fuel_show_value(h, h[b.0 as int], (f1 - 1) as nat, (f2 - 1) as nat);
        },
        _ => {},
    }
}

/// More budget never changes the rendering of a list that was finished.
pub proof fn lemma_fuel_show_list(h: Seq<SValue>, items: Seq<ValueRef>, sep: Seq<char>, f1: nat, f2: nat)
    requires
        f1 <= f2,
        show_list(h, items, sep, f1) is Some,
    ensures
        show_list(h, items, sep, f2) == show_list(h, items, sep, f1),
    decreases f1, items.len(),
{
    if items.len() == 1 {
        lemma_fuel_show_value(h, h[items[0].0 as int], f1, f2);
    } else if items.len() > 1 {
        lemma_fuel_show_list(h, items.subrange(0, items.len() - 1), sep, f1, f2);
        lemma_fuel_show_value(h, h[items.last().0 as int], f1, f2);
    }
}

/// More budget never changes an equality that was decided.
pub proof fn lemma_fuel_same_value(h: Seq<SValue>, a: SValue, b: SValue, f1: nat, f2: nat)
    requires
        f1 <= f2,
        same_value(h, a, b, f1) is Some,
    ensures
        same_value(h, a, b, f2) == same_value(h, a, b, f1),
    decreases f1, 0nat,
{
    match (a, b) {
        (SValue::Array(xs), SValue::Array(ys)) => {
            if xs.len() == ys.len() {
                lemma_fuel_same_items(h, xs, ys, 0, (f1 - 1) as nat, (f2 - 1) as nat);
            }
        },
        (SValue::Range(a0, a1, _), SValue::Range(b0, b1, _)) => {
            let g1 = (f1 - 1) as nat;
            let g2 = (f2 - 1) as nat;
            lemma_fuel_same_value(h, h[a0.0 as int], h[b0.0 as int], g1, g2);
            if same_value(h, h[a0.0 as int], h[b0.0 as int], g1) == Some(true) {
                lemma_fuel_same_value(h, h[a1.0 as int], h[b1.0 as int], g1, g2);
            }
        },
        _ => {},
    }
}

/// More budget never changes an item-by-item comparison that was decided.
pub proof fn lemma_fuel_same_items(h: Seq<SValue>, xs: Seq<ValueRef>, ys: Seq<ValueRef>, i: int, f1: nat, f2: nat)
    requires
        f1 <= f2,
        same_items(h, xs, ys, i, f1) is Some,
    ensures
        same_items(h, xs, ys, i, f2) == same_items(h, xs, ys, i, f1),
    decreases f1, xs.len() - i,
{
    if 0 <= i < xs.len() && i < ys.len() {
        lemma_fuel_same_value(h, h[xs[i].0 as int], h[ys[i].0 as int], f1, f2);
        if same_value(h, h[xs[i].0 as int], h[ys[i].0 as int], f1) == Some(true) {
            lemma_fuel_same_items(h, xs, ys, i + 1, f1, f2);
        }
    }
}

/// The budget only bounds evaluation: an evaluation that finishes, with a
/// value or with an error other than a spent budget, finishes the same way,
/// in the same state, with any larger budget.
pub proof fn law_fuel_eval(e: SAst, s: State, f1: nat, f2: nat)
    requires
        f1 <= f2,
        !out_of_fuel(eval(e, s, f1).0),
    ensures
        eval(e, s, f2) == eval(e, s, f1),
    decreases f1, e, 2nat,
{
    match e {
        SAst::Atom(_) => {},
        SAst::ArrayLit(items) => {
            law_fuel_seq(items, s, f1, f2);
        },
        SAst::PrefixOp(_, a) => {
            law_fuel_eval(*a, s, f1, f2);
        },
        SAst::PostfixOp(_, a) => {
            law_fuel_eval(*a, s, f1, f2);
        },
        SAst::BinOp(op, a, b) => {
            if op is Assign {
                if !out_of_fuel(eval(*b, s, f1).0) {
                    law_fuel_eval(*b, s, f1, f2);
                }
            } else {
                if !out_of_fuel(eval(*a, s, f1).0) {
                    law_fuel_eval(*a, s, f1, f2);
                }
                let (ra, s1) = eval(*a, s, f1);
                if !out_of_fuel(eval(*b, s1, f1).0) {
                    law_fuel_eval(*b, s1, f1, f2);
                }
                let (rb, s2) = eval(*b, s1, f1);
                if let (Ok(va), Ok(vb)) = (ra, rb) {
                    if same_value(s2.heap, cell(s2, va), cell(s2, vb), f1) is Some {
                        lemma_fuel_same_value(s2.heap, cell(s2, va), cell(s2, vb), f1, f2);
                    }
                }
            }
        },
        SAst::FunctionCall(f, args) => {
            law_fuel_eval(*f, s, f1, f2);
            let (rf, s1) = eval(*f, s, f1);
            if let Ok(fv) = rf {
                match cell(s1, fv) {
                    SValue::NativeFn(nf) => {
                        law_fuel_seq(args, s1, f1, f2);
                        let (ra, s2) = eval_seq(args, s1, f1);
                        if let Ok(refs) = ra {
                            if nf is Print && show_list(s2.heap, refs, " "@, f1) is Some {
                                lemma_fuel_show_list(s2.heap, refs, " "@, f1, f2);
                            }
                        }
                    },
                    SValue::LambdaFn(params, body) => {
                        law_fuel_lambda_args(params.len(), args, s1, f1, f2);
                        let (ra, s2) = eval_lambda_args(params.len(), args, s1, f1);
                        if let Ok(refs) = ra {
                            if f1 > 0 {
                                let s3 = State { frames: declare_all(s2.frames.push(Map::empty()), params, refs), ..s2 };
                                law_fuel_block(body, s3, (f1 - 1) as nat, (f2 - 1) as nat);
                            }
                        }
                    },
                    _ => {},
                }
            }
        },
        SAst::Index(arr, idx) => {
            law_fuel_eval(*arr, s, f1, f2);
            let (ra, s1) = eval(*arr, s, f1);
            if let Ok(a) = ra {
                let sb = State { borrowed: s1.borrowed.push(a), ..s1 };
                if !out_of_fuel(eval(*idx, sb, f1).0) {
                    law_fuel_eval(*idx, sb, f1, f2);
                }
            }
        },
        SAst::Declare(_, val) => {
            if let Some(x) = val {
                law_fuel_eval(*x, s, f1, f2);
            }
        },
        SAst::Block(b) => {
            law_fuel_block(b, s, f1, f2);
        },
        SAst::LambdaLit(_, _) => {},
        SAst::If(c, body, elze) => {
            law_fuel_eval(*c, s, f1, f2);
            let s1 = eval(*c, s, f1).1;
            if !out_of_fuel(eval_block(body, s1, f1).0) {
                law_fuel_block(body, s1, f1, f2);
            }
            if let Some(eb) = elze {
                if !out_of_fuel(eval_block(eb, s1, f1).0) {
                    law_fuel_block(eb, s1, f1, f2);
                }
            }
        },
        SAst::While(c, body) => {
            let (last, s1) = allocate(s, SValue::Unit);
            law_fuel_while(*c, body, s1, f1, f2, last);
        },
        SAst::For(var, index, arr, body) => {
            law_fuel_eval(*arr, s, f1, f2);
            let (ra, s1) = eval(*arr, s, f1);
            if let Ok(a) = ra {
                if let Ok(items) = for_items(s1, a) {
                    let s2 = State { frames: s1.frames.push(Map::empty()), borrowed: s1.borrowed.push(a), ..s1 };
                    let (u, s3) = allocate(s2, SValue::Unit);
                    let s4 = State { frames: declare(s3.frames, var, u), ..s3 };
                    let s5 = match index {
                        Some(ix) => {
                            let (u2, s) = allocate(s4, SValue::Unit);
                            State { frames: declare(s.frames, ix, u2), ..s }
                        },
                        None => s4,
                    };
                    let (last, s6) = allocate(s5, SValue::Unit);
                    law_fuel_for(var, index, body, items, 0, s6, f1, f2, last);
                }
            }
        },
        SAst::Range(a, b, _) => {
            law_fuel_eval(*a, s, f1, f2);
            let s1 = eval(*a, s, f1).1;
            if !out_of_fuel(eval(*b, s1, f1).0) {
                law_fuel_eval(*b, s1, f1, f2);
            }
        },
        SAst::FieldAccess(v, _) => {
            law_fuel_eval(*v, s, f1, f2);
        },
    }
}

/// More budget never changes the evaluation of several expressions that
/// finished.
pub proof fn law_fuel_seq(items: Seq<SAst>, s: State, f1: nat, f2: nat)
    requires
        f1 <= f2,
        !out_of_fuel(eval_seq(items, s, f1).0),
    ensures
        eval_seq(items, s, f2) == eval_seq(items, s, f1),
    decreases f1, items, 0nat,
{
    if items.len() > 0 {
        let init = items.subrange(0, items.len() - 1);
        law_fuel_seq(init, s, f1, f2);
        let s1 = eval_seq(init, s, f1).1;
        if !out_of_fuel(eval(items[items.len() - 1], s1, f1).0) {
            law_fuel_eval(items[items.len() - 1], s1, f1, f2);
        }
    }
}

/// More budget never changes the evaluation of a lambda's arguments that
/// finished.
pub proof fn law_fuel_lambda_args(n: nat, args: Seq<SAst>, s: State, f1: nat, f2: nat)
    requires
        f1 <= f2,
        !out_of_fuel(eval_lambda_args(n, args, s, f1).0),
    ensures
        eval_lambda_args(n, args, s, f2) == eval_lambda_args(n, args, s, f1),
    decreases f1, args, n,
{
    if n > 0 {
        law_fuel_lambda_args((n - 1) as nat, args, s, f1, f2);
        let s1 = eval_lambda_args((n - 1) as nat, args, s, f1).1;
        if n - 1 < args.len() && !out_of_fuel(eval(args[n - 1], s1, f1).0) {
            law_fuel_eval(args[n - 1], s1, f1, f2);
        }
    }
}

/// More budget never changes the evaluation of a block that finished.
pub proof fn law_fuel_block(b: SBlock, s: State, f1: nat, f2: nat)
    requires
        f1 <= f2,
        !out_of_fuel(eval_block(b, s, f1).0),
    ensures
        eval_block(b, s, f2) == eval_block(b, s, f1),
    decreases f1, b, 1nat,
{
    let (u, s1) = allocate(s, SValue::Unit);
    law_fuel_seq(b.exprs, s1, f1, f2);
}

/// More budget never changes a `while` loop that finished.
pub proof fn law_fuel_while(c: SAst, body: SBlock, s: State, f1: nat, f2: nat, last: ValueRef)
    requires
        f1 <= f2,
        !out_of_fuel(eval_while(c, body, s, f1, last).0),
    ensures
        eval_while(c, body, s, f2, last) == eval_while(c, body, s, f1, last),
    decreases f1, c, 0nat,
{
    if f1 > 0 {
        let g1 = (f1 - 1) as nat;
        let g2 = (f2 - 1) as nat;
        law_fuel_eval(c, s, g1, g2);
        let (rc, s1) = eval(c, s, g1);
        if !out_of_fuel(eval_block(body, s1, g1).0) {
            law_fuel_block(body, s1, g1, g2);
        }
        let (rb, s2) = eval_block(body, s1, g1);
        if let Ok(v) = rb {
            if !out_of_fuel(eval_while(c, body, s2, g1, v).0) {
                law_fuel_while(c, body, s2, g1, g2, v);
            }
        }
    }
}

/// More budget never changes a `for` loop that finished.
pub proof fn law_fuel_for(
    var: Seq<char>,
    index: Option<Seq<char>>,
    body: SBlock,
    items: ForItems,
    k: nat,
    s: State,
    f1: nat,
    f2: nat,
    last: ValueRef,
)
    requires
        f1 <= f2,
        !out_of_fuel(eval_for(var, index, body, items, k, s, f1, last).0),
    ensures
        eval_for(var, index, body, items, k, s, f2, last) == eval_for(var, index, body, items, k, s, f1, last),
    decreases f1, body, 0nat,
{
    if k < crate::semantics::for_count(items) && f1 > 0 {
        let g1 = (f1 - 1) as nat;
        let g2 = (f2 - 1) as nat;
        let (rb0, s1) = bind_item(var, index, items, k, s);
        if rb0 is Ok {
            if !out_of_fuel(eval_block(body, s1, g1).0) {
                law_fuel_block(body, s1, g1, g2);
            }
            let (rb, s2) = eval_block(body, s1, g1);
            if let Ok(v) = rb {
                if !out_of_fuel(eval_for(var, index, body, items, k + 1, s2, g1, v).0) {
                    law_fuel_for(var, index, body, items, k + 1, s2, g1, g2, v);
                }
            }
        }
    }
}

/// Units, booleans and integers.
pub open spec fn is_scalar(v: SValue) -> bool {
    v is Unit || v is Bool || v is Integer
}

/// `==` on units, booleans and integers is true exactly when the two are
/// the same value: two booleans are equal when both are `true` or both
/// `false`, two integers when they are the same number, and values of
/// different kinds never; no budget is needed.
pub proof fn law_scalar_equality(h: Seq<SValue>, v: SValue, w: SValue, fuel: nat)
    requires
        is_scalar(v),
        is_scalar(w),
    ensures
        same_value(h, v, w, fuel) == Some(v == w),
{
}

/// A loop over a range counts upward: the `k`-th item bound to the loop
/// variable is a new cell holding `start + k`, and the index variable, if
/// there is one, is bound to a new cell holding `k` (for `k` within
/// `i32`).  So
/// `for i in 0..3 { print(i) }` prints 0, 1 and 2, in that order.
pub proof fn law_range_items_ascend(
    var: Seq<char>,
    index: Option<Seq<char>>,
    start: int,
    n: nat,
    k: nat,
    s: State,
)
    requires
        k < n,
        i32::MIN <= start,
        start + n - 1 <= i32::MAX,
        n <= 0x1_0000_0001,
        s.frames.len() >= 1,
        s.frames.last().contains_key(var),
        index matches Some(ix) ==> ix != var && s.frames.last().contains_key(ix),
        s.heap.len() + 2 <= usize::MAX,
    ensures
        ({
            let (r, s1) = bind_item(var, index, ForItems::Ints(start, n), k, s);
            &&& r is Ok
            &&& lookup(s1.frames, var) matches Some(c) && cell(s1, c) matches SValue::Integer(x) && x == start + k
            &&& k <= i32::MAX ==> (index matches Some(ix) ==> (lookup(s1.frames, ix) matches Some(p)
                && cell(s1, p) matches SValue::Integer(y) && y == k))
        }),
{
    let (item, s1) = allocate(s, SValue::Integer(crate::num::wrap_i32(start + k)));
    assert(crate::num::wrap_i32(start + k) == start + k);
    assert(cell(s1, item) == SValue::Integer(crate::num::wrap_i32(start + k)));
    assert(s1.frames.last().contains_key(var));
    let fs = s1.frames.update(s1.frames.len() - 1, s1.frames.last().insert(var, item));
    assert(assign(s1.frames, var, item) == Some(fs));
    law_assign(s1.frames, var, item, var);
    let s2 = State { frames: fs, ..s1 };
    if let Some(ix) = index {
        assert(k < 0x1_0000_0001);
        let (pos, s3) = allocate(s2, SValue::Integer(crate::num::wrap_i32(k as int)));
        if k <= i32::MAX {
            assert(crate::num::wrap_i32(k as int) == k);
        }
        assert(fs.last().contains_key(ix));
        let fs3 = fs.update(fs.len() - 1, fs.last().insert(ix, pos));
        assert(assign(s3.frames, ix, pos) == Some(fs3));
        law_assign(s3.frames, ix, pos, var);
        assert(cell(State { frames: fs3, ..s3 }, item) == cell(s1, item));
        assert(cell(State { frames: fs3, ..s3 }, pos) == SValue::Integer(crate::num::wrap_i32(k as int)));
    }
}

} // verus!
