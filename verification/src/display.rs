//! The textual rendering of expressions and blocks, as a prefix notation
//! in parentheses: `1 + 2 * 3` is shown as
//! `(<binop>Add Atom(IntLit(1)) (<binop>Mul Atom(IntLit(2)) Atom(IntLit(3))))`.

use vstd::prelude::*;

use crate::ast::{Ast, Block, Cmp, InfixOp, SAst, SBlock, asts_view, lemma_asts_view, names_view};
use crate::text::{
    debug_of_str, push_str, push_token_debug, str_debug, string_from_chars, tok_debug,
};

verus! {

/// The name of a comparison operator's variant.
pub open spec fn comparison_name(c: Cmp) -> Seq<char> {
    match c {
        Cmp::Less => "Less"@,
        Cmp::LessOrEq => "LessOrEq"@,
        Cmp::GreaterOrEq => "GreaterOrEq"@,
        Cmp::Greater => "Greater"@,
    }
}

/// What `{:?}` writes for an infix operator.
pub open spec fn infix_name(op: InfixOp) -> Seq<char> {
    match op {
        InfixOp::Add => "Add"@,
        InfixOp::Sub => "Sub"@,
        InfixOp::Mul => "Mul"@,
        InfixOp::Div => "Div"@,
        InfixOp::Assign => "Assign"@,
        InfixOp::Equality => "Equality"@,
        InfixOp::Cmp(c) => "Cmp("@ + comparison_name(c) + ")"@,
    }
}

/// `true` or `false`.
pub open spec fn bool_text(b: bool) -> Seq<char> {
    if b {
        "true"@
    } else {
        "false"@
    }
}

/// The `Debug` renderings of names, separated by `", "`.
pub open spec fn names_debug(ns: Seq<Seq<char>>) -> Seq<char>
    decreases ns.len(),
{
    if ns.len() == 0 {
        Seq::empty()
    } else if ns.len() == 1 {
        str_debug(ns[0])
    } else {
        names_debug(ns.subrange(0, ns.len() - 1)) + ", "@ + str_debug(ns[ns.len() - 1])
    }
}

/// What `{:?}` writes for an optional name.
pub open spec fn opt_name_debug(n: Option<Seq<char>>) -> Seq<char> {
    match n {
        Some(s) => "Some("@ + str_debug(s) + ")"@,
        None => "None"@,
    }
}

/// The rendering of an expression.
pub open spec fn ast_text(e: SAst) -> Seq<char>
    decreases e,
{
    match e {
        SAst::Atom(t) => tok_debug(t),
        SAst::ArrayLit(items) => "(<arr>"@ + spaced_text(items) + ")"@,
        SAst::PrefixOp(_, a) => "(<pre>Neg "@ + ast_text(*a) + ")"@,
        SAst::PostfixOp(_, a) => "(<post>Factorial "@ + ast_text(*a) + ")"@,
        SAst::BinOp(op, a, b) => "(<binop>"@ + infix_name(op) + " "@ + ast_text(*a) + " "@ + ast_text(*b)
            + ")"@,
        SAst::FunctionCall(f, args) => "(<fun>"@ + ast_text(*f) + spaced_text(args) + ")"@,
        SAst::Index(a, i) => "(<idx>"@ + ast_text(*a) + " "@ + ast_text(*i) + ")"@,
        SAst::Declare(v, val) => match val {
            Some(x) => "(<decl>"@ + v + " "@ + ast_text(*x) + ")"@,
            None => "(<decl>"@ + v + ")"@,
        },
        SAst::Block(b) => "(<block ret="@ + bool_text(b.ret) + ">"@ + spaced_text(b.exprs) + ")"@,
        SAst::LambdaLit(args, b) => "(<lambda args=["@ + names_debug(args) + "]>"@ + spaced_text(b.exprs)
            + ")"@,
        SAst::If(c, body, elze) => "(if "@ + ast_text(*c) + " "@ + block_text(body) + match elze {
            Some(eb) => " "@ + block_text(eb),
            None => Seq::empty(),
        } + ")"@,
        SAst::While(c, body) => "(while "@ + ast_text(*c) + " "@ + block_text(body) + ")"@,
        SAst::For(v, ix, arr, body) => "(for "@ + str_debug(v) + ", "@ + opt_name_debug(ix) + " in "@
            + ast_text(*arr) + " "@ + block_text(body) + ")"@,
        SAst::Range(a, b, close_end) => "("@ + ast_text(*a) + (if close_end {
            "..="@
        } else {
            ".."@
        }) + ast_text(*b) + ")"@,
        SAst::FieldAccess(v, f) => "("@ + ast_text(*v) + "."@ + f + ")"@,
    }
}

/// The renderings of expressions, each after a space.
pub open spec fn spaced_text(items: Seq<SAst>) -> Seq<char>
    decreases items,
{
    if items.len() == 0 {
        Seq::empty()
    } else {
        spaced_text(items.subrange(0, items.len() - 1)) + " "@ + ast_text(items[items.len() - 1])
    }
}

/// The renderings of expressions, separated by `"; "`.
pub open spec fn joined_text(items: Seq<SAst>) -> Seq<char>
    decreases items,
{
    if items.len() == 0 {
        Seq::empty()
    } else if items.len() == 1 {
        ast_text(items[0])
    } else {
        joined_text(items.subrange(0, items.len() - 1)) + "; "@ + ast_text(items[items.len() - 1])
    }
}

/// The rendering of a block: its expressions in braces, separated by
/// `"; "`, and followed by one more `"; "` when the block gives no value.
pub open spec fn block_text(b: SBlock) -> Seq<char>
    decreases b,
{
    "{"@ + joined_text(b.exprs) + (if !b.ret && b.exprs.len() > 0 {
        "; "@
    } else {
        Seq::empty()
    }) + "}"@
}

fn push_bool(out: &mut Vec<char>, b: bool)
    ensures
        final(out)@ == old(out)@ + bool_text(b),
{
    if b {
        push_str(out, "true");
    } else {
        push_str(out, "false");
    }
}

fn push_str_debug(out: &mut Vec<char>, s: &str)
    ensures
        final(out)@ == old(out)@ + str_debug(s@),
{
    let d = debug_of_str(s);
    push_str(out, d.as_str());
}

fn push_infix_name(out: &mut Vec<char>, op: InfixOp)
    ensures
        final(out)@ == old(out)@ + infix_name(op),
{
    match op {
        InfixOp::Add => push_str(out, "Add"),
        InfixOp::Sub => push_str(out, "Sub"),
        InfixOp::Mul => push_str(out, "Mul"),
        InfixOp::Div => push_str(out, "Div"),
        InfixOp::Assign => push_str(out, "Assign"),
        InfixOp::Equality => push_str(out, "Equality"),
        InfixOp::Cmp(c) => {
            push_str(out, "Cmp(");
            match c {
                Cmp::Less => push_str(out, "Less"),
                Cmp::LessOrEq => push_str(out, "LessOrEq"),
                Cmp::GreaterOrEq => push_str(out, "GreaterOrEq"),
                Cmp::Greater => push_str(out, "Greater"),
            }
            push_str(out, ")");
            assert(out@ =~= old(out)@ + infix_name(op));
        },
    }
}

fn push_names_debug(out: &mut Vec<char>, ns: &Vec<String>)
    ensures
        final(out)@ == old(out)@ + names_debug(names_view(ns@)),
{
    let ghost nv = names_view(ns@);
    let mut i: usize = 0;
    assert(out@ =~= old(out)@ + names_debug(nv.take(0)));
    while i < ns.len()
        invariant
            0 <= i <= ns.len(),
            nv == names_view(ns@),
            out@ == old(out)@ + names_debug(nv.take(i as int)),
        decreases ns.len() - i,
    {
        let ghost t = nv.take(i + 1);
        assert(t.subrange(0, t.len() - 1) =~= nv.take(i as int));
        if i > 0 {
            push_str(out, ", ");
        }
        push_str_debug(out, ns[i].as_str());
        proof {
            if i == 0 {
                assert(t =~= seq![nv[0]]);
            }
        }
        i = i + 1;
        assert(out@ =~= old(out)@ + names_debug(nv.take(i as int)));
    }
    assert(nv.take(ns.len() as int) =~= nv);
}

fn push_spaced(out: &mut Vec<char>, items: &Vec<Ast>)
    ensures
        final(out)@ == old(out)@ + spaced_text(asts_view(items@)),
    decreases items, 0nat,
{
    let ghost av = asts_view(items@);
    proof {
        lemma_asts_view(items@);
    }
    let mut i: usize = 0;
    assert(out@ =~= old(out)@ + spaced_text(av.take(0)));
    while i < items.len()
        invariant
            0 <= i <= items.len(),
            av == asts_view(items@),
            av.len() == items.len(),
            forall|j: int| 0 <= j < items.len() ==> #[trigger] av[j] == items@[j]@,
            out@ == old(out)@ + spaced_text(av.take(i as int)),
        decreases items.len() - i,
    {
        let ghost t = av.take(i + 1);
        assert(t.subrange(0, t.len() - 1) =~= av.take(i as int));
        push_str(out, " ");
        assert(decreases_to!(items => items@[i as int]));
        push_ast_text(out, &items[i]);
        i = i + 1;
        assert(out@ =~= old(out)@ + spaced_text(av.take(i as int)));
    }
    assert(av.take(items.len() as int) =~= av);
}

fn push_joined(out: &mut Vec<char>, items: &Vec<Ast>)
    ensures
        final(out)@ == old(out)@ + joined_text(asts_view(items@)),
    decreases items, 0nat,
{
    let ghost av = asts_view(items@);
    proof {
        lemma_asts_view(items@);
    }
    let mut i: usize = 0;
    assert(out@ =~= old(out)@ + joined_text(av.take(0)));
    while i < items.len()
        invariant
            0 <= i <= items.len(),
            av == asts_view(items@),
            av.len() == items.len(),
            forall|j: int| 0 <= j < items.len() ==> #[trigger] av[j] == items@[j]@,
            out@ == old(out)@ + joined_text(av.take(i as int)),
        decreases items.len() - i,
    {
        let ghost t = av.take(i + 1);
        assert(t.subrange(0, t.len() - 1) =~= av.take(i as int));
        if i > 0 {
            push_str(out, "; ");
        }
        assert(decreases_to!(items => items@[i as int]));
        push_ast_text(out, &items[i]);
        proof {
            if i == 0 {
                assert(t =~= seq![av[0]]);
            }
        }
        i = i + 1;
        assert(out@ =~= old(out)@ + joined_text(av.take(i as int)));
    }
    assert(av.take(items.len() as int) =~= av);
}

fn push_block_text(out: &mut Vec<char>, b: &Block)
    ensures
        final(out)@ == old(out)@ + block_text(b@),
    decreases b, 0nat,
{
    proof {
        lemma_asts_view(b.exprs@);
    }
    push_str(out, "{");
    push_joined(out, &b.exprs);
    if !b.ret && b.exprs.len() > 0 {
        push_str(out, "; ");
    }
    push_str(out, "}");
    assert(out@ =~= old(out)@ + block_text(b@));
}

fn push_ast_text(out: &mut Vec<char>, e: &Ast)
    ensures
        final(out)@ == old(out)@ + ast_text(e@),
    decreases e, 1nat,
{
    match e {
        Ast::Atom(t) => {
            push_token_debug(out, t);
            assert(out@ =~= old(out)@ + ast_text(e@));
        },
        Ast::ArrayLit(items) => {
            push_str(out, "(<arr>");
            push_spaced(out, items);
            push_str(out, ")");
            assert(out@ =~= old(out)@ + ast_text(e@));
        },
        Ast::PrefixOp { operand, .. } => {
            push_str(out, "(<pre>Neg ");
            push_ast_text(out, &**operand);
            push_str(out, ")");
            assert(out@ =~= old(out)@ + ast_text(e@));
        },
        Ast::PostfixOp { operand, .. } => {
            push_str(out, "(<post>Factorial ");
            push_ast_text(out, &**operand);
            push_str(out, ")");
            assert(out@ =~= old(out)@ + ast_text(e@));
        },
        Ast::BinOp { op, operands } => {
            push_str(out, "(<binop>");
            push_infix_name(out, *op);
            push_str(out, " ");
            push_ast_text(out, &operands.0);
            push_str(out, " ");
            push_ast_text(out, &operands.1);
            push_str(out, ")");
            assert(out@ =~= old(out)@ + ast_text(e@));
        },
        Ast::FunctionCall { fun, args } => {
            push_str(out, "(<fun>");
            push_ast_text(out, &**fun);
            push_spaced(out, args);
            push_str(out, ")");
            assert(out@ =~= old(out)@ + ast_text(e@));
        },
        Ast::Index { arr, idx } => {
            push_str(out, "(<idx>");
            push_ast_text(out, &**arr);
            push_str(out, " ");
            push_ast_text(out, &**idx);
            push_str(out, ")");
            assert(out@ =~= old(out)@ + ast_text(e@));
        },
        Ast::Declare { .. } | Ast::Block(_) | Ast::LambdaLit { .. } => push_binding_text(out, e),
        Ast::If { .. } | Ast::While { .. } | Ast::For { .. } => push_control_text(out, e),
        Ast::Range { .. } | Ast::FieldAccess { .. } => push_access_text(out, e),
    }
}


fn push_binding_text(out: &mut Vec<char>, e: &Ast)
    requires
        e is Declare || e is Block || e is LambdaLit,
    ensures
        final(out)@ == old(out)@ + ast_text(e@),
    decreases e, 0nat,
{
    match e {
        Ast::Declare { var, val } => {
            push_str(out, "(<decl>");
            push_str(out, var.as_str());
            match val {
                Some(x) => {
                    push_str(out, " ");
                    push_ast_text(out, &**x);
                },
                None => {},
            }
            push_str(out, ")");
            assert(out@ =~= old(out)@ + ast_text(e@));
        },
        Ast::Block(b) => {
            assert(b@.exprs == asts_view(b.exprs@));
            push_str(out, "(<block ret=");
            push_bool(out, b.ret);
            push_str(out, ">");
            push_spaced(out, &b.exprs);
            push_str(out, ")");
            assert(out@ =~= old(out)@ + ast_text(e@));
        },
        Ast::LambdaLit { args, block } => {
            assert(block@.exprs == asts_view(block.exprs@));
            push_str(out, "(<lambda args=[");
            push_names_debug(out, args);
            push_str(out, "]>");
            push_spaced(out, &block.exprs);
            push_str(out, ")");
            assert(out@ =~= old(out)@ + ast_text(e@));
        },
        _ => {},
    }
}

fn push_control_text(out: &mut Vec<char>, e: &Ast)
    requires
        e is If || e is While || e is For,
    ensures
        final(out)@ == old(out)@ + ast_text(e@),
    decreases e, 0nat,
{
    match e {
        Ast::If { cond, body, elze } => {
            push_str(out, "(if ");
            push_ast_text(out, &**cond);
            push_str(out, " ");
            push_block_text(out, body);
            match elze {
                Some(eb) => {
                    push_str(out, " ");
                    push_block_text(out, eb);
                },
                None => {},
            }
            push_str(out, ")");
            assert(out@ =~= old(out)@ + ast_text(e@));
        },
        Ast::While { cond, body } => {
            push_str(out, "(while ");
            push_ast_text(out, &**cond);
            push_str(out, " ");
            push_block_text(out, body);
            push_str(out, ")");
            assert(out@ =~= old(out)@ + ast_text(e@));
        },
        Ast::For { var, index, array, body } => {
            push_str(out, "(for ");
            push_str_debug(out, var.as_str());
            push_str(out, ", ");
            match index {
                Some(ix) => {
                    push_str(out, "Some(");
                    push_str_debug(out, ix.as_str());
                    push_str(out, ")");
                },
                None => push_str(out, "None"),
            }
            push_str(out, " in ");
            push_ast_text(out, &**array);
            push_str(out, " ");
            push_block_text(out, body);
            push_str(out, ")");
            assert(out@ =~= old(out)@ + ast_text(e@));
        },
        _ => {},
    }
}

fn push_access_text(out: &mut Vec<char>, e: &Ast)
    requires
        e is Range || e is FieldAccess,
    ensures
        final(out)@ == old(out)@ + ast_text(e@),
    decreases e, 0nat,
{
    match e {
        Ast::Range { range, close_end } => {
            push_str(out, "(");
            push_ast_text(out, &range.0);
            if *close_end {
                push_str(out, "..=");
            } else {
                push_str(out, "..");
            }
            push_ast_text(out, &range.1);
            push_str(out, ")");
            assert(out@ =~= old(out)@ + ast_text(e@));
        },
        Ast::FieldAccess { value, field } => {
            push_str(out, "(");
            push_ast_text(out, &**value);
            push_str(out, ".");
            push_str(out, field.as_str());
            push_str(out, ")");
            assert(out@ =~= old(out)@ + ast_text(e@));
        },
        _ => {},
    }
}

impl Ast {
    /// The rendering of this expression, as `ast_text` defines it.
    pub fn display_text(&self) -> (r: String)
        ensures
            r@ == ast_text(self@),
    {
        let mut out: Vec<char> = Vec::new();
        push_ast_text(&mut out, self);
        assert(out@ =~= ast_text(self@));
        string_from_chars(&out)
    }
}

impl Block {
    /// The rendering of this block, as `block_text` defines it.
    pub fn display_text(&self) -> (r: String)
        ensures
            r@ == block_text(self@),
    {
        let mut out: Vec<char> = Vec::new();
        push_block_text(&mut out, self);
        assert(out@ =~= block_text(self@));
        string_from_chars(&out)
    }
}

} // verus!
