//! The evaluator: runs expressions against the interpreter's state, as
//! `semantics` defines.

use vstd::prelude::*;

use crate::ast::{Ast, Block, InfixOp, SAst, asts_view, duplicate_names, lemma_asts_view, names_view};
use crate::compare::compare_values;
use crate::num::{add_i32, div_i32, factorial_i32, i32_of_u32, i32_of_usize, mul_i32, neg_i32, sub_i32};
use crate::runtime::{EvalError, Runtime, cells_below, result_view};
use crate::semantics::{
    EvalPanic, ForItems, SError, State, arith, as_int, bind_item, call_native, cell, declare_all,
    eval, eval_block, eval_for, eval_lambda_args, eval_seq, eval_while, for_count, for_items,
};
use crate::text::string_from_chars;
use crate::token::{Keyword, TokenTree};
use crate::value::{NativeFn, Value, ValueRef, copy_refs, refs_of};

verus! {

/// What every evaluation keeps from the state `s0` it starts in to the
/// state `s1` it ends in: the frames and the cells being read are as they
/// were, and no cell goes away.
pub open spec fn keeps(s0: State, s1: State) -> bool {
    &&& s1.frames.len() == s0.frames.len()
    &&& s1.borrowed == s0.borrowed
    &&& s1.heap.len() >= s0.heap.len()
}

/// A successful evaluation gives a cell of the state it ends in.
pub open spec fn gives_cell(r: Result<ValueRef, EvalError>, s: State) -> bool {
    r matches Ok(v) ==> v.0 < s.heap.len()
}

/// The model of the result of evaluating several expressions.
pub open spec fn refs_result_view(r: Result<Vec<ValueRef>, EvalError>) -> Result<Seq<ValueRef>, SError> {
    match r {
        Ok(v) => Ok(v@),
        Err(e) => Err(e@),
    }
}

/// The model of an integer result.
pub open spec fn int_result_view(r: Result<i32, EvalError>) -> Result<i32, SError> {
    match r {
        Ok(n) => Ok(n),
        Err(e) => Err(e@),
    }
}

/// The model of a step that gives no value.
pub open spec fn unit_result_view(r: Result<(), EvalError>) -> Result<(), SError> {
    match r {
        Ok(_) => Ok(()),
        Err(e) => Err(e@),
    }
}

/// The model of an optional name.
pub open spec fn opt_name_view(n: Option<String>) -> Option<Seq<char>> {
    match n {
        Some(s) => Some(s@),
        None => None,
    }
}

/// What a `for` loop runs through.
pub enum ForSource {
    Cells(Vec<ValueRef>),
    Ints(i64, u64),
}

impl View for ForSource {
    type V = ForItems;

    open spec fn view(&self) -> ForItems {
        match self {
            ForSource::Cells(c) => ForItems::Cells(c@),
            ForSource::Ints(start, n) => ForItems::Ints(*start as int, *n as nat),
        }
    }
}

/// If evaluating the first `k` expressions fails, evaluating all of them
/// fails the same way.
pub proof fn lemma_eval_seq_fails(items: Seq<SAst>, s: State, fuel: nat, k: int)
    requires
        0 <= k <= items.len(),
        eval_seq(items.take(k), s, fuel).0 is Err,
    ensures
        eval_seq(items, s, fuel) == eval_seq(items.take(k), s, fuel),
    decreases items.len() - k,
{
    if k == items.len() {
        assert(items.take(k) =~= items);
    } else {
        let t = items.take(k + 1);
        assert(t.subrange(0, t.len() - 1) =~= items.take(k));
        lemma_eval_seq_fails(items, s, fuel, k + 1);
    }
}

/// If evaluating the arguments of the first `k` parameters fails, so does
/// evaluating those of all `n`, the same way.
pub proof fn lemma_lambda_args_fails(n: nat, args: Seq<SAst>, s: State, fuel: nat, k: nat)
    requires
        k <= n,
        eval_lambda_args(k, args, s, fuel).0 is Err,
    ensures
        eval_lambda_args(n, args, s, fuel) == eval_lambda_args(k, args, s, fuel),
    decreases n - k,
{
    if k < n {
        lemma_lambda_args_fails(n, args, s, fuel, k + 1);
    }
}

/// The integer in the cell that an evaluation gave, or the error.
fn take_int(rt: &Runtime, r: Result<ValueRef, EvalError>) -> (n: Result<i32, EvalError>)
    requires
        rt.wf(),
        gives_cell(r, rt@),
    ensures
        int_result_view(n) == as_int(result_view(r), rt@),
{
    match r {
        Err(e) => Err(e),
        Ok(v) => match rt.cell(v) {
            Value::Integer(n) => Ok(*n),
            w => Err(EvalError::ExpectedInt(w.duplicate())),
        },
    }
}

/// The result of an arithmetic operator on two integers.
fn arith_exec(op: InfixOp, x: i32, y: i32) -> (r: Result<i32, EvalPanic>)
    ensures
        r == arith(op, x, y),
{
    match op {
        InfixOp::Add => match add_i32(x, y) {
            Some(z) => Ok(z),
            None => Err(EvalPanic::Overflow),
        },
        InfixOp::Sub => match sub_i32(x, y) {
            Some(z) => Ok(z),
            None => Err(EvalPanic::Overflow),
        },
        InfixOp::Mul => match mul_i32(x, y) {
            Some(z) => Ok(z),
            None => Err(EvalPanic::Overflow),
        },
        _ => if y == 0 {
            Err(EvalPanic::DivisionByZero)
        } else {
            match div_i32(x, y) {
                Some(z) => Ok(z),
                None => Err(EvalPanic::Overflow),
            }
        },
    }
}

/// Evaluates expressions from the first to the last, collecting the cells
/// they give, until one fails.
pub fn eval_exprs(items: &Vec<Ast>, rt: &mut Runtime, fuel: u64) -> (r: Result<Vec<ValueRef>, EvalError>)
    requires
        old(rt).wf(),
    ensures
        final(rt).wf(),
        keeps(old(rt)@, final(rt)@),
        r matches Ok(v) ==> cells_below(v@, final(rt)@.heap.len()),
        (refs_result_view(r), final(rt)@) == eval_seq(asts_view(items@), old(rt)@, fuel as nat),
    decreases fuel, items, 0nat,
{
    let ghost s0 = rt@;
    let ghost av = asts_view(items@);
    proof {
        lemma_asts_view(items@);
        assert(av.take(0) =~= Seq::<SAst>::empty());
    }
    let mut refs: Vec<ValueRef> = Vec::new();
    let mut i: usize = 0;
    while i < items.len()
        invariant
            0 <= i <= items.len(),
            av == asts_view(items@),
            av.len() == items.len(),
            forall|j: int| 0 <= j < items.len() ==> #[trigger] av[j] == items@[j]@,
            rt.wf(),
            s0 == old(rt)@,
            keeps(s0, rt@),
            cells_below(refs@, rt@.heap.len()),
            eval_seq(av.take(i as int), s0, fuel as nat) == (Ok::<Seq<ValueRef>, SError>(refs@), rt@),
        decreases items.len() - i,
    {
        let ghost s_i = rt@;
        let ghost t = av.take(i + 1);
        assert(t.subrange(0, t.len() - 1) =~= av.take(i as int));
        assert(t[t.len() - 1] == items@[i as int]@);
        assert(decreases_to!(items => items@[i as int]));
        let r = items[i].eval(rt, fuel);
        match r {
            Err(e) => {
                proof {
                    lemma_eval_seq_fails(av, s0, fuel as nat, i + 1);
                    assert(av.take(items.len() as int) =~= av);
                }
                return Err(e);
            },
            Ok(v) => {
                refs.push(v);
            },
        }
        i = i + 1;
    }
    assert(av.take(items.len() as int) =~= av);
    Ok(refs)
}

/// What a native function does with the cells of its arguments.
fn call_native_exec(f: NativeFn, args: &Vec<ValueRef>, rt: &mut Runtime, fuel: u64) -> (r: Result<ValueRef, EvalError>)
    requires
        old(rt).wf(),
        cells_below(args@, old(rt)@.heap.len()),
        f matches NativeFn::Push(t) ==> t.0 < old(rt)@.heap.len(),
    ensures
        final(rt).wf(),
        keeps(old(rt)@, final(rt)@),
        gives_cell(r, final(rt)@),
        (result_view(r), final(rt)@) == call_native(f, args@, old(rt)@, fuel as nat),
{
    match f {
        NativeFn::Print => {
            let mut out: Vec<char> = Vec::new();
            if rt.show_list_into(&mut out, args, " ", fuel) {
                let line = string_from_chars(&out);
                rt.print_line(line);
                Ok(rt.allocate(Value::Unit))
            } else {
                Err(EvalError::OutOfFuel)
            }
        },
        NativeFn::Push(t) => {
            if rt.is_borrowed(t) {
                return Err(EvalError::Panic(EvalPanic::AlreadyBorrowed));
            }
            let is_array = match rt.cell(t) {
                Value::Array(_) => true,
                _ => false,
            };
            if is_array {
                rt.extend_array(t, args);
                Ok(rt.allocate(Value::Unit))
            } else {
                Err(EvalError::Panic(EvalPanic::Unreachable))
            }
        },
    }
}

/// Evaluates the arguments of a call of a lambda with `n` parameters: the
/// first `n` arguments, and a new unit for each parameter without one.
fn eval_lambda_args_exec(n: usize, args: &Vec<Ast>, rt: &mut Runtime, fuel: u64) -> (r: Result<Vec<ValueRef>, EvalError>)
    requires
        old(rt).wf(),
    ensures
        final(rt).wf(),
        keeps(old(rt)@, final(rt)@),
        r matches Ok(v) ==> cells_below(v@, final(rt)@.heap.len()) && v@.len() == n,
        (refs_result_view(r), final(rt)@) == eval_lambda_args(n as nat, asts_view(args@), old(rt)@, fuel as nat),
    decreases fuel, args, 0nat,
{
    let ghost s0 = rt@;
    let ghost av = asts_view(args@);
    proof {
        lemma_asts_view(args@);
    }
    let mut refs: Vec<ValueRef> = Vec::new();
    let mut i: usize = 0;
    while i < n
        invariant
            0 <= i <= n,
            av == asts_view(args@),
            av.len() == args.len(),
            forall|j: int| 0 <= j < args.len() ==> #[trigger] av[j] == args@[j]@,
            rt.wf(),
            s0 == old(rt)@,
            keeps(s0, rt@),
            refs@.len() == i,
            cells_below(refs@, rt@.heap.len()),
            eval_lambda_args(i as nat, av, s0, fuel as nat) == (Ok::<Seq<ValueRef>, SError>(refs@), rt@),
        decreases n - i,
    {
        let r = if i < args.len() {
            assert(decreases_to!(args => args@[i as int]));
            args[i].eval(rt, fuel)
        } else {
            Ok(rt.allocate(Value::Unit))
        };
        match r {
            Err(e) => {
                proof {
                    lemma_lambda_args_fails(n as nat, av, s0, fuel as nat, (i + 1) as nat);
                }
                return Err(e);
            },
            Ok(v) => {
                refs.push(v);
            },
        }
        i = i + 1;
    }
    Ok(refs)
}

/// What a `for` loop runs through when given the cell `v`.
fn for_source(rt: &Runtime, a: ValueRef) -> (r: Result<ForSource, EvalError>)
    requires
        rt.wf(),
        a.0 < rt@.heap.len(),
    ensures
        match (r, for_items(rt@, a)) {
            (Ok(x), Ok(y)) => x@ == y,
            (Err(e), Err(x)) => e@ == x,
            _ => false,
        },
        r matches Ok(ForSource::Cells(c)) ==> cells_below(c@, rt@.heap.len()),
{
    let v = rt.cell(a);
    match v {
        Value::Array(items) => {
            assert(forall|i: int| 0 <= i < items@.len() ==> refs_of(v@)[i] == items@[i]);
            Ok(ForSource::Cells(copy_refs(items)))
        },
        Value::Range { range, close_end } => {
            assert(refs_of(v@)[0] == range.0 && refs_of(v@)[1] == range.1);
            let start = match rt.cell(range.0) {
                Value::Integer(n) => *n,
                w => {
                    return Err(EvalError::ExpectedInt(w.duplicate()));
                },
            };
            let end = match rt.cell(range.1) {
                Value::Integer(n) => *n,
                w => {
                    return Err(EvalError::ExpectedInt(w.duplicate()));
                },
            };
            let n: i64 = if *close_end {
                end as i64 - start as i64 + 1
            } else {
                end as i64 - start as i64
            };
            Ok(ForSource::Ints(start as i64, if n < 0 { 0 } else { n as u64 }))
        },
        w => Err(EvalError::ExpectedArray(w.duplicate())),
    }
}

/// Binds the `k`-th item of a loop to its variable, and its position to the
/// index variable if there is one.
fn bind_item_exec(var: &String, index: &Option<String>, src: &ForSource, k: u64, rt: &mut Runtime) -> (r: Result<(), EvalError>)
    requires
        old(rt).wf(),
        k < for_count(src@),
        *src matches ForSource::Cells(c) ==> cells_below(c@, old(rt)@.heap.len()),
        *src matches ForSource::Ints(start, n) ==> -0x8000_0000 <= start <= 0x7fff_ffff && n <= 0x1_0000_0001,
    ensures
        final(rt).wf(),
        keeps(old(rt)@, final(rt)@),
        (unit_result_view(r), final(rt)@) == bind_item(var@, opt_name_view(*index), src@, k as nat, old(rt)@),
{
    let item = match src {
        ForSource::Cells(c) => {
            assert(k < c.len());
            c[k as usize]
        },
        ForSource::Ints(start, _) => rt.allocate(Value::Integer((*start + k as i64) as i32)),
    };
    if rt.assign(var.as_str(), item).is_err() {
        return Err(EvalError::Panic(EvalPanic::Unreachable));
    }
    match index {
        None => Ok(()),
        Some(ix) => {
            let pos = rt.allocate(Value::Integer(k as i32));
            if rt.assign(ix.as_str(), pos).is_err() {
                return Err(EvalError::Panic(EvalPanic::Unreachable));
            }
            Ok(())
        },
    }
}

/// Runs a `while` loop whose last body value so far is `last`.
fn run_while(cond: &Ast, body: &Block, rt: &mut Runtime, fuel: u64, last: ValueRef) -> (r: Result<ValueRef, EvalError>)
    requires
        old(rt).wf(),
        last.0 < old(rt)@.heap.len(),
    ensures
        final(rt).wf(),
        keeps(old(rt)@, final(rt)@),
        gives_cell(r, final(rt)@),
        (result_view(r), final(rt)@) == eval_while(cond@, body@, old(rt)@, fuel as nat, last),
    decreases fuel, cond, 0nat,
{
    let ghost s0 = rt@;
    let ghost target = eval_while(cond@, body@, s0, fuel as nat, last);
    let mut f = fuel;
    let mut cur = last;
    loop
        invariant
            f <= fuel,
            rt.wf(),
            s0 == old(rt)@,
            target == eval_while(cond@, body@, s0, fuel as nat, last),
            keeps(s0, rt@),
            cur.0 < rt@.heap.len(),
            eval_while(cond@, body@, rt@, f as nat, cur) == target,
        decreases f,
    {
        if f == 0 {
            return Err(EvalError::OutOfFuel);
        }
        f = f - 1;
        let rc = cond.eval(rt, f);
        let cv = match rc {
            Err(e) => {
                return Err(e);
            },
            Ok(cv) => cv,
        };
        let b = match rt.cell(cv) {
            Value::Bool(b) => *b,
            w => {
                return Err(EvalError::ExpectedBool(w.duplicate()));
            },
        };
        if !b {
            return Ok(cur);
        }
        let rb = body.eval(rt, f);
        match rb {
            Err(e) => {
                return Err(e);
            },
            Ok(v) => {
                cur = v;
            },
        }
    }
}

/// Runs a `for` loop from its `k`-th item on; `last` is the last body value
/// so far.
fn run_for(
    var: &String,
    index: &Option<String>,
    body: &Block,
    src: &ForSource,
    k: u64,
    rt: &mut Runtime,
    fuel: u64,
    last: ValueRef,
) -> (r: Result<ValueRef, EvalError>)
    requires
        old(rt).wf(),
        last.0 < old(rt)@.heap.len(),
        k <= for_count(src@),
        *src matches ForSource::Cells(c) ==> cells_below(c@, old(rt)@.heap.len()),
        *src matches ForSource::Ints(start, n) ==> -0x8000_0000 <= start <= 0x7fff_ffff && n <= 0x1_0000_0001,
    ensures
        final(rt).wf(),
        keeps(old(rt)@, final(rt)@),
        gives_cell(r, final(rt)@),
        (result_view(r), final(rt)@) == eval_for(
            var@,
            opt_name_view(*index),
            body@,
            src@,
            k as nat,
            old(rt)@,
            fuel as nat,
            last,
        ),
    decreases fuel, body, 0nat,
{
    let ghost s0 = rt@;
    let ghost target = eval_for(var@, opt_name_view(*index), body@, src@, k as nat, s0, fuel as nat, last);
    let count: u64 = match src {
        ForSource::Cells(c) => c.len() as u64,
        ForSource::Ints(_, n) => *n,
    };
    let mut f = fuel;
    let mut cur = last;
    let mut j = k;
    loop
        invariant
            f <= fuel,
            j <= count,
            count == for_count(src@),
            rt.wf(),
            s0 == old(rt)@,
            target == eval_for(var@, opt_name_view(*index), body@, src@, k as nat, s0, fuel as nat, last),
            keeps(s0, rt@),
            cur.0 < rt@.heap.len(),
            *src matches ForSource::Cells(c) ==> cells_below(c@, rt@.heap.len()),
            *src matches ForSource::Ints(start, n) ==> -0x8000_0000 <= start <= 0x7fff_ffff && n <= 0x1_0000_0001,
            eval_for(var@, opt_name_view(*index), body@, src@, j as nat, rt@, f as nat, cur) == target,
        decreases count - j,
    {
        if j >= count {
            return Ok(cur);
        }
        if f == 0 {
            return Err(EvalError::OutOfFuel);
        }
        f = f - 1;
        let rb0 = bind_item_exec(var, index, src, j, rt);
        if let Err(e) = rb0 {
            return Err(e);
        }
        let rb = body.eval(rt, f);
        match rb {
            Err(e) => {
                return Err(e);
            },
            Ok(v) => {
                cur = v;
            },
        }
        j = j + 1;
    }
}

impl Block {
    /// Evaluates this block: its expressions in turn, giving the last one's
    /// value if the block returns one, a unit if it does not.
    pub fn eval(&self, rt: &mut Runtime, fuel: u64) -> (r: Result<ValueRef, EvalError>)
        requires
            old(rt).wf(),
        ensures
            final(rt).wf(),
            keeps(old(rt)@, final(rt)@),
            gives_cell(r, final(rt)@),
            (result_view(r), final(rt)@) == eval_block(self@, old(rt)@, fuel as nat),
        decreases fuel, self, 1nat,
    {
        let u = rt.allocate(Value::Unit);
        let rs = eval_exprs(&self.exprs, rt, fuel);
        match rs {
            Err(e) => Err(e),
            Ok(refs) => if self.ret {
                if refs.len() == 0 {
                    Ok(u)
                } else {
                    Ok(refs[refs.len() - 1])
                }
            } else {
                Ok(rt.allocate(Value::Unit))
            },
        }
    }
}

impl Ast {
    /// Evaluates this expression, as `semantics::eval` defines.
    pub fn eval(&self, rt: &mut Runtime, fuel: u64) -> (r: Result<ValueRef, EvalError>)
        requires
            old(rt).wf(),
        ensures
            final(rt).wf(),
            keeps(old(rt)@, final(rt)@),
            gives_cell(r, final(rt)@),
            (result_view(r), final(rt)@) == eval(self@, old(rt)@, fuel as nat),
        decreases fuel, self, 2nat,
    {
        match self {
            Ast::Atom(_) => self.eval_atom(rt, fuel),
            Ast::ArrayLit(items) => match eval_exprs(items, rt, fuel) {
                Err(e) => Err(e),
                Ok(refs) => Ok(rt.allocate(Value::Array(refs))),
            },
            Ast::PrefixOp { .. } | Ast::PostfixOp { .. } => self.eval_unary(rt, fuel),
            Ast::BinOp { .. } => self.eval_binop(rt, fuel),
            Ast::FunctionCall { .. } => self.eval_call(rt, fuel),
            Ast::Index { .. } => self.eval_index(rt, fuel),
            Ast::Declare { var, val } => {
                let r = match val {
                    Some(x) => (**x).eval(rt, fuel),
                    None => Ok(rt.allocate(Value::Unit)),
                };
                match r {
                    Err(e) => Err(e),
                    Ok(v) => {
                        rt.declare(var.clone(), v);
                        Ok(rt.allocate(Value::Unit))
                    },
                }
            },
            Ast::Block(b) => b.eval(rt, fuel),
            Ast::LambdaLit { args, block } => {
                let v = Value::LambdaFn { args: duplicate_names(args), body: block.duplicate() };
                Ok(rt.allocate(v))
            },
            Ast::If { .. } => self.eval_if(rt, fuel),
            Ast::While { cond, body } => {
                let last = rt.allocate(Value::Unit);
                run_while(cond, body, rt, fuel, last)
            },
            Ast::For { .. } => self.eval_for(rt, fuel),
            Ast::Range { range, close_end } => {
                let ra = range.0.eval(rt, fuel);
                match ra {
                    Err(e) => Err(e),
                    Ok(va) => {
                        let rb = range.1.eval(rt, fuel);
                        match rb {
                            Err(e) => Err(e),
                            Ok(vb) => Ok(rt.allocate(Value::Range { range: (va, vb), close_end: *close_end })),
                        }
                    },
                }
            },
            Ast::FieldAccess { .. } => self.eval_field(rt, fuel),
        }
    }

    fn eval_atom(&self, rt: &mut Runtime, fuel: u64) -> (r: Result<ValueRef, EvalError>)
        requires
            old(rt).wf(),
            self is Atom,
        ensures
            final(rt).wf(),
            keeps(old(rt)@, final(rt)@),
            gives_cell(r, final(rt)@),
            (result_view(r), final(rt)@) == eval(self@, old(rt)@, fuel as nat),
        decreases fuel, self, 1nat,
    {
        match self {
            Ast::Atom(TokenTree::Ident(name)) => match rt.get_var(name.as_str()) {
                Some(c) => Ok(c),
                None => Err(EvalError::UndefinedVariable(name.clone())),
            },
            Ast::Atom(TokenTree::IntLit(n)) => Ok(rt.allocate(Value::Integer(i32_of_u32(*n)))),
            Ast::Atom(TokenTree::Keyword(Keyword::True)) => Ok(rt.allocate(Value::Bool(true))),
            Ast::Atom(TokenTree::Keyword(Keyword::False)) => Ok(rt.allocate(Value::Bool(false))),
            _ => Err(EvalError::Panic(EvalPanic::Unreachable)),
        }
    }

    fn eval_unary(&self, rt: &mut Runtime, fuel: u64) -> (r: Result<ValueRef, EvalError>)
        requires
            old(rt).wf(),
            self is PrefixOp || self is PostfixOp,
        ensures
            final(rt).wf(),
            keeps(old(rt)@, final(rt)@),
            gives_cell(r, final(rt)@),
            (result_view(r), final(rt)@) == eval(self@, old(rt)@, fuel as nat),
        decreases fuel, self, 1nat,
    {
        match self {
            Ast::PrefixOp { operand, .. } => {
                let r = (**operand).eval(rt, fuel);
                match take_int(rt, r) {
                    Err(e) => Err(e),
                    Ok(n) => match neg_i32(n) {
                        Some(m) => Ok(rt.allocate(Value::Integer(m))),
                        None => Err(EvalError::Panic(EvalPanic::Overflow)),
                    },
                }
            },
            Ast::PostfixOp { operand, .. } => {
                let r = (**operand).eval(rt, fuel);
                match take_int(rt, r) {
                    Err(e) => Err(e),
                    Ok(n) => match factorial_i32(n) {
                        Some(m) => Ok(rt.allocate(Value::Integer(m))),
                        None => Err(EvalError::Panic(EvalPanic::Overflow)),
                    },
                }
            },
            _ => Err(EvalError::Panic(EvalPanic::Unreachable)),
        }
    }

    fn eval_binop(&self, rt: &mut Runtime, fuel: u64) -> (r: Result<ValueRef, EvalError>)
        requires
            old(rt).wf(),
            self is BinOp,
        ensures
            final(rt).wf(),
            keeps(old(rt)@, final(rt)@),
            gives_cell(r, final(rt)@),
            (result_view(r), final(rt)@) == eval(self@, old(rt)@, fuel as nat),
        decreases fuel, self, 1nat,
    {
        match self {
            Ast::BinOp { op, operands } => match op {
                InfixOp::Assign => match &operands.0 {
                    Ast::Atom(TokenTree::Ident(name)) => {
                        let rv = operands.1.eval(rt, fuel);
                        match rv {
                            Err(e) => Err(e),
                            Ok(v) => match rt.assign(name.as_str(), v) {
                                Ok(()) => Ok(rt.allocate(Value::Unit)),
                                Err(()) => Err(EvalError::UndefinedVariable(name.clone())),
                            },
                        }
                    },
                    _ => Err(EvalError::ExpectedVar),
                },
                InfixOp::Equality => {
                    let ra = operands.0.eval(rt, fuel);
                    match ra {
                        Err(e) => Err(e),
                        Ok(va) => {
                            let rb = operands.1.eval(rt, fuel);
                            match rb {
                                Err(e) => Err(e),
                                Ok(vb) => {
                                    let eq = rt.same_values(rt.cell(va), rt.cell(vb), fuel);
                                    match eq {
                                        Some(b) => Ok(rt.allocate(Value::Bool(b))),
                                        None => Err(EvalError::OutOfFuel),
                                    }
                                },
                            }
                        },
                    }
                },
                InfixOp::Cmp(c) => {
                    let ra = operands.0.eval(rt, fuel);
                    match ra {
                        Err(e) => Err(e),
                        Ok(va) => {
                            let rb = operands.1.eval(rt, fuel);
                            match rb {
                                Err(e) => Err(e),
                                Ok(vb) => {
                                    let holds = compare_values(*c, rt.cell(va), rt.cell(vb));
                                    Ok(rt.allocate(Value::Bool(holds)))
                                },
                            }
                        },
                    }
                },
                _ => {
                    let ra = operands.0.eval(rt, fuel);
                    match take_int(rt, ra) {
                        Err(e) => Err(e),
                        Ok(x) => {
                            let rb = operands.1.eval(rt, fuel);
                            match take_int(rt, rb) {
                                Err(e) => Err(e),
                                Ok(y) => match arith_exec(*op, x, y) {
                                    Ok(z) => Ok(rt.allocate(Value::Integer(z))),
                                    Err(p) => Err(EvalError::Panic(p)),
                                },
                            }
                        },
                    }
                },
            },
            _ => Err(EvalError::Panic(EvalPanic::Unreachable)),
        }
    }

    fn eval_call(&self, rt: &mut Runtime, fuel: u64) -> (r: Result<ValueRef, EvalError>)
        requires
            old(rt).wf(),
            self is FunctionCall,
        ensures
            final(rt).wf(),
            keeps(old(rt)@, final(rt)@),
            gives_cell(r, final(rt)@),
            (result_view(r), final(rt)@) == eval(self@, old(rt)@, fuel as nat),
        decreases fuel, self, 1nat,
    {
        match self {
            Ast::FunctionCall { fun, args } => {
                let rf = (**fun).eval(rt, fuel);
                let fv = match rf {
                    Err(e) => {
                        return Err(e);
                    },
                    Ok(fv) => fv,
                };
                let ghost s1 = rt@;
                let callee = rt.cell(fv);
                match callee {
                    Value::NativeFn(nf) => {
                        let nf = *nf;
                        assert(nf matches NativeFn::Push(t) ==> refs_of(callee@)[0] == t);
                        let ra = eval_exprs(args, rt, fuel);
                        match ra {
                            Err(e) => Err(e),
                            Ok(refs) => call_native_exec(nf, &refs, rt, fuel),
                        }
                    },
                    Value::LambdaFn { args: params, body } => {
                        let params = duplicate_names(params);
                        let body = body.duplicate();
                        let ra = eval_lambda_args_exec(params.len(), args, rt, fuel);
                        let refs = match ra {
                            Err(e) => {
                                return Err(e);
                            },
                            Ok(refs) => refs,
                        };
                        if fuel == 0 {
                            return Err(EvalError::OutOfFuel);
                        }
                        let ghost s2 = rt@;
                        let ghost pv = names_view(params@);
                        rt.push_frame();
                        let ghost base = rt@.frames;
                        let mut i: usize = 0;
                        assert(pv.take(0) =~= Seq::<Seq<char>>::empty());
                        while i < params.len()
                            invariant
                                0 <= i <= params.len(),
                                params.len() == refs.len(),
                                pv == names_view(params@),
                                rt.wf(),
                                cells_below(refs@, rt@.heap.len()),
                                rt@ == (State { frames: declare_all(base, pv.take(i as int), refs@), ..s2 }),
                                base == s2.frames.push(Map::empty()),
                                base.len() >= 2,
                                rt@.frames.len() == base.len(),
                            decreases params.len() - i,
                        {
                            let ghost t = pv.take(i + 1);
                            assert(t.drop_last() =~= pv.take(i as int));
                            rt.declare(params[i].clone(), refs[i]);
                            i = i + 1;
                        }
                        assert(pv.take(params.len() as int) =~= pv);
                        let rb = body.eval(rt, fuel - 1);
                        rt.pop_frame();
                        rb
                    },
                    w => Err(EvalError::ExpectedFunction(w.duplicate())),
                }
            },
            _ => Err(EvalError::Panic(EvalPanic::Unreachable)),
        }
    }

    fn eval_index(&self, rt: &mut Runtime, fuel: u64) -> (r: Result<ValueRef, EvalError>)
        requires
            old(rt).wf(),
            self is Index,
        ensures
            final(rt).wf(),
            keeps(old(rt)@, final(rt)@),
            gives_cell(r, final(rt)@),
            (result_view(r), final(rt)@) == eval(self@, old(rt)@, fuel as nat),
        decreases fuel, self, 1nat,
    {
        match self {
            Ast::Index { arr, idx } => {
                let ra = (**arr).eval(rt, fuel);
                let a = match ra {
                    Err(e) => {
                        return Err(e);
                    },
                    Ok(a) => a,
                };
                let is_array = match rt.cell(a) {
                    Value::Array(_) => true,
                    _ => false,
                };
                if !is_array {
                    return Err(EvalError::ExpectedArray(rt.cell(a).duplicate()));
                }
                let ghost sb = rt@;
                rt.push_borrow(a);
                let ri = (**idx).eval(rt, fuel);
                rt.pop_borrow();
                assert(rt@.borrowed =~= sb.borrowed);
                match take_int(rt, ri) {
                    Err(e) => Err(e),
                    Ok(n) => {
                        let v = rt.cell(a);
                        match v {
                            Value::Array(items) => if 0 <= n && (n as usize) < items.len() {
                                assert(refs_of(v@)[n as int] == items@[n as int]);
                                Ok(items[n as usize])
                            } else {
                                Err(EvalError::OutOfBounds { max: items.len(), idx: n })
                            },
                            _ => Err(EvalError::Panic(EvalPanic::Unreachable)),
                        }
                    },
                }
            },
            _ => Err(EvalError::Panic(EvalPanic::Unreachable)),
        }
    }

    fn eval_if(&self, rt: &mut Runtime, fuel: u64) -> (r: Result<ValueRef, EvalError>)
        requires
            old(rt).wf(),
            self is If,
        ensures
            final(rt).wf(),
            keeps(old(rt)@, final(rt)@),
            gives_cell(r, final(rt)@),
            (result_view(r), final(rt)@) == eval(self@, old(rt)@, fuel as nat),
        decreases fuel, self, 1nat,
    {
        match self {
            Ast::If { cond, body, elze } => {
                let rc = (**cond).eval(rt, fuel);
                let cv = match rc {
                    Err(e) => {
                        return Err(e);
                    },
                    Ok(cv) => cv,
                };
                let b = match rt.cell(cv) {
                    Value::Bool(b) => *b,
                    w => {
                        return Err(EvalError::ExpectedBool(w.duplicate()));
                    },
                };
                if b {
                    body.eval(rt, fuel)
                } else {
                    match elze {
                        Some(eb) => eb.eval(rt, fuel),
                        None => Ok(rt.allocate(Value::Unit)),
                    }
                }
            },
            _ => Err(EvalError::Panic(EvalPanic::Unreachable)),
        }
    }

    fn eval_for(&self, rt: &mut Runtime, fuel: u64) -> (r: Result<ValueRef, EvalError>)
        requires
            old(rt).wf(),
            self is For,
        ensures
            final(rt).wf(),
            keeps(old(rt)@, final(rt)@),
            gives_cell(r, final(rt)@),
            (result_view(r), final(rt)@) == eval(self@, old(rt)@, fuel as nat),
        decreases fuel, self, 1nat,
    {
        match self {
            Ast::For { var, index, array, body } => {
                let ra = (**array).eval(rt, fuel);
                let a = match ra {
                    Err(e) => {
                        return Err(e);
                    },
                    Ok(a) => a,
                };
                let src = match for_source(rt, a) {
                    Err(e) => {
                        return Err(e);
                    },
                    Ok(src) => src,
                };
                rt.push_frame();
                rt.push_borrow(a);
                let u = rt.allocate(Value::Unit);
                rt.declare(var.clone(), u);
                match index {
                    Some(ix) => {
                        let u2 = rt.allocate(Value::Unit);
                        rt.declare(ix.clone(), u2);
                    },
                    None => {},
                }
                let last = rt.allocate(Value::Unit);
                let r = run_for(var, index, body, &src, 0, rt, fuel, last);
                rt.pop_frame();
                rt.pop_borrow();
                assert(rt@.borrowed =~= old(rt)@.borrowed);
                r
            },
            _ => Err(EvalError::Panic(EvalPanic::Unreachable)),
        }
    }

    fn eval_field(&self, rt: &mut Runtime, fuel: u64) -> (r: Result<ValueRef, EvalError>)
        requires
            old(rt).wf(),
            self is FieldAccess,
        ensures
            final(rt).wf(),
            keeps(old(rt)@, final(rt)@),
            gives_cell(r, final(rt)@),
            (result_view(r), final(rt)@) == eval(self@, old(rt)@, fuel as nat),
        decreases fuel, self, 1nat,
    {
        match self {
            Ast::FieldAccess { value, field } => {
                let r = (**value).eval(rt, fuel);
                let a = match r {
                    Err(e) => {
                        return Err(e);
                    },
                    Ok(a) => a,
                };
                let len = match rt.cell(a) {
                    Value::Array(items) => Some(items.len()),
                    _ => None,
                };
                match len {
                    Some(n) => {
                        if *field == String::from_str("len") {
                            Ok(rt.allocate(Value::Integer(i32_of_usize(n))))
                        } else if *field == String::from_str("push") {
                            Ok(rt.allocate(Value::NativeFn(NativeFn::Push(a))))
                        } else {
                            Err(EvalError::UnknownField(rt.cell(a).duplicate(), field.clone()))
                        }
                    },
                    None => Err(EvalError::UnknownField(rt.cell(a).duplicate(), field.clone())),
                }
            },
            _ => Err(EvalError::Panic(EvalPanic::Unreachable)),
        }
    }
}

} // verus!
