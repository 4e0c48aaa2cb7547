//! The abstract syntax tree that the parser builds and the evaluator runs,
//! with its mathematical model.

use vstd::prelude::*;

use std::cmp::Ordering;

use crate::token::{Tok, TokenTree};

verus! {

/// Operators written before their operand.
#[derive(Debug, Clone, Copy, PartialEq, Eq, Structural)]
pub enum PrefixOp {
    Neg,
}

/// Operators written after their operand.
#[derive(Debug, Clone, Copy, PartialEq, Eq, Structural)]
pub enum PostfixOp {
    Factorial,
}

/// The comparison operators.
#[derive(Debug, Clone, Copy, PartialEq, Eq, Structural)]
pub enum Cmp {
    Less,
    LessOrEq,
    GreaterOrEq,
    Greater,
}

/// Whether `c` holds of two operands that stand in the order `ord`.
pub open spec fn comparison_holds(c: Cmp, ord: Ordering) -> bool {
    match c {
        Cmp::Less => ord == Ordering::Less,
        Cmp::LessOrEq => ord == Ordering::Less || ord == Ordering::Equal,
        Cmp::GreaterOrEq => ord == Ordering::Greater || ord == Ordering::Equal,
        Cmp::Greater => ord == Ordering::Greater,
    }
}

impl Cmp {
    /// Whether the comparison holds of two equal operands.
    pub fn has_equal(self) -> (r: bool)
        ensures
            r == comparison_holds(self, Ordering::Equal),
    {
        match self {
            Cmp::Less => false,
            Cmp::LessOrEq => true,
            Cmp::GreaterOrEq => true,
            Cmp::Greater => false,
        }
    }

    /// Whether the comparison holds of two operands that stand in the order `ord`.
    pub fn matches_ordering(self, ord: Ordering) -> (r: bool)
        ensures
            r == comparison_holds(self, ord),
    {
        match self {
            Cmp::Less => match ord {
                Ordering::Less => true,
                _ => false,
            },
            Cmp::LessOrEq => match ord {
                Ordering::Less | Ordering::Equal => true,
                _ => false,
            },
            Cmp::GreaterOrEq => match ord {
                Ordering::Greater | Ordering::Equal => true,
                _ => false,
            },
            Cmp::Greater => match ord {
                Ordering::Greater => true,
                _ => false,
            },
        }
    }
}

/// Operators written between their operands.
#[derive(Debug, Clone, Copy, PartialEq, Eq, Structural)]
pub enum InfixOp {
    Add,
    Sub,
    Mul,
    Div,
    Assign,
    Equality,
    Cmp(Cmp),
}

/// A sequence of expressions.
#[derive(Debug, PartialEq, Eq)]
pub struct Block {
    pub exprs: Vec<Ast>,
    /// whether the last expression should be treated as return value
    pub ret: bool,
}

/// An expression.
#[derive(Debug, PartialEq, Eq)]
pub enum Ast {
    Atom(TokenTree),
    ArrayLit(Vec<Ast>),
    PrefixOp { op: PrefixOp, operand: Box<Ast> },
    PostfixOp { op: PostfixOp, operand: Box<Ast> },
    BinOp { op: InfixOp, operands: Box<(Ast, Ast)> },
    FunctionCall { fun: Box<Ast>, args: Vec<Ast> },
    Index { arr: Box<Ast>, idx: Box<Ast> },
    Declare { var: String, val: Option<Box<Ast>> },
    Block(Block),
    LambdaLit { args: Vec<String>, block: Block },
    If { cond: Box<Ast>, body: Block, elze: Option<Block> },
    While { cond: Box<Ast>, body: Block },
    For { var: String, index: Option<String>, array: Box<Ast>, body: Block },
    Range { range: Box<(Ast, Ast)>, close_end: bool },
    FieldAccess { value: Box<Ast>, field: String },
}

/// The mathematical model of a block.
pub struct SBlock {
    pub exprs: Seq<SAst>,
    pub ret: bool,
}

/// The mathematical model of an expression.
pub enum SAst {
    Atom(Tok),
    ArrayLit(Seq<SAst>),
    PrefixOp(PrefixOp, Box<SAst>),
    PostfixOp(PostfixOp, Box<SAst>),
    BinOp(InfixOp, Box<SAst>, Box<SAst>),
    FunctionCall(Box<SAst>, Seq<SAst>),
    Index(Box<SAst>, Box<SAst>),
    Declare(Seq<char>, Option<Box<SAst>>),
    Block(SBlock),
    LambdaLit(Seq<Seq<char>>, SBlock),
    If(Box<SAst>, SBlock, Option<SBlock>),
    While(Box<SAst>, SBlock),
    For(Seq<char>, Option<Seq<char>>, Box<SAst>, SBlock),
    Range(Box<SAst>, Box<SAst>, bool),
    FieldAccess(Box<SAst>, Seq<char>),
}

/// The models of a sequence of expressions.
pub open spec fn asts_view(s: Seq<Ast>) -> Seq<SAst>
    decreases s,
{
    if s.len() == 0 {
        Seq::empty()
    } else {
        asts_view(s.subrange(0, s.len() - 1)).push(s[s.len() - 1].view())
    }
}

/// The model of a sequence of expressions is the sequence of their models.
pub proof fn lemma_asts_view(s: Seq<Ast>)
    ensures
        asts_view(s).len() == s.len(),
        forall|i: int| 0 <= i < s.len() ==> #[trigger] asts_view(s)[i] == s[i]@,
    decreases s.len(),
{
    if s.len() > 0 {
        lemma_asts_view(s.subrange(0, s.len() - 1));
        assert(asts_view(s) == asts_view(s.subrange(0, s.len() - 1)).push(s[s.len() - 1]@));
    } else {
        assert(asts_view(s) == Seq::<SAst>::empty());
    }
}

/// Adding an expression at the end adds its model at the end.
pub proof fn lemma_asts_view_push(s: Seq<Ast>, a: Ast)
    ensures
        asts_view(s.push(a)) == asts_view(s).push(a@),
{
    assert(s.push(a).subrange(0, s.len() as int) =~= s);
}

/// The models of a sequence of names.
pub open spec fn names_view(s: Seq<String>) -> Seq<Seq<char>> {
    s.map_values(|n: String| n@)
}

impl View for Block {
    type V = SBlock;

    open spec fn view(&self) -> SBlock
        decreases self,
    {
        SBlock { exprs: asts_view(self.exprs@), ret: self.ret }
    }
}

impl View for Ast {
    type V = SAst;

    open spec fn view(&self) -> SAst
        decreases self,
    {
        match self {
            Ast::Atom(t) => SAst::Atom(t@),
            Ast::ArrayLit(items) => SAst::ArrayLit(asts_view(items@)),
            Ast::PrefixOp { op, operand } => SAst::PrefixOp(*op, Box::new((**operand).view())),
            Ast::PostfixOp { op, operand } => SAst::PostfixOp(*op, Box::new((**operand).view())),
            Ast::BinOp { op, operands } => SAst::BinOp(
                *op,
                Box::new(operands.0.view()),
                Box::new(operands.1.view()),
            ),
            Ast::FunctionCall { fun, args } => SAst::FunctionCall(
                Box::new((**fun).view()),
                asts_view(args@),
            ),
            Ast::Index { arr, idx } => SAst::Index(
                Box::new((**arr).view()),
                Box::new((**idx).view()),
            ),
            Ast::Declare { var, val } => SAst::Declare(
                var@,
                match val {
                    Some(v) => Some(Box::new((**v).view())),
                    None => None,
                },
            ),
            Ast::Block(b) => SAst::Block(b.view()),
            Ast::LambdaLit { args, block } => SAst::LambdaLit(names_view(args@), block.view()),
            Ast::If { cond, body, elze } => SAst::If(
                Box::new((**cond).view()),
                body.view(),
                match elze {
                    Some(b) => Some(b.view()),
                    None => None,
                },
            ),
            Ast::While { cond, body } => SAst::While(Box::new((**cond).view()), body.view()),
            Ast::For { var, index, array, body } => SAst::For(
                var@,
                match index {
                    Some(i) => Some(i@),
                    None => None,
                },
                Box::new((**array).view()),
                body.view(),
            ),
            Ast::Range { range, close_end } => SAst::Range(
                Box::new(range.0.view()),
                Box::new(range.1.view()),
                *close_end,
            ),
            Ast::FieldAccess { value, field } => SAst::FieldAccess(
                Box::new((**value).view()),
                field@,
            ),
        }
    }
}


/// Two sequences of expressions with the same models, item by item, have the
/// same model.
pub proof fn lemma_asts_view_eq(a: Seq<Ast>, b: Seq<Ast>)
    requires
        a.len() == b.len(),
        forall|i: int| 0 <= i < a.len() ==> #[trigger] a[i]@ == b[i]@,
    ensures
        asts_view(a) == asts_view(b),
{
    lemma_asts_view(a);
    lemma_asts_view(b);
    assert(asts_view(a) =~= asts_view(b));
}

/// A copy of a sequence of names.
pub fn duplicate_names(v: &Vec<String>) -> (r: Vec<String>)
    ensures
        names_view(r@) == names_view(v@),
{
    let mut r: Vec<String> = Vec::new();
    let mut i: usize = 0;
    while i < v.len()
        invariant
            0 <= i <= v.len(),
            r.len() == i,
            forall|j: int| 0 <= j < i ==> #[trigger] r@[j]@ == v@[j]@,
        decreases v.len() - i,
    {
        r.push(v[i].clone());
        i = i + 1;
    }
    assert(names_view(r@) =~= names_view(v@));
    r
}

/// Whether two sequences of names are the same, name by name.
pub fn same_names(a: &Vec<String>, b: &Vec<String>) -> (r: bool)
    ensures
        r == (names_view(a@) == names_view(b@)),
{
    if a.len() != b.len() {
        assert(names_view(a@).len() != names_view(b@).len());
        return false;
    }
    let mut i: usize = 0;
    while i < a.len()
        invariant
            0 <= i <= a.len(),
            a.len() == b.len(),
            forall|j: int| 0 <= j < i ==> #[trigger] a@[j]@ == b@[j]@,
        decreases a.len() - i,
    {
        if a[i] != b[i] {
            assert(names_view(a@)[i as int] != names_view(b@)[i as int]);
            return false;
        }
        i = i + 1;
    }
    assert(names_view(a@) =~= names_view(b@));
    true
}

/// A copy of a sequence of expressions.
pub fn duplicate_asts(v: &Vec<Ast>) -> (r: Vec<Ast>)
    ensures
        asts_view(r@) == asts_view(v@),
    decreases v,
{
    let mut r: Vec<Ast> = Vec::new();
    let mut i: usize = 0;
    while i < v.len()
        invariant
            0 <= i <= v.len(),
            r.len() == i,
            forall|j: int| 0 <= j < i ==> #[trigger] r@[j]@ == v@[j]@,
        decreases v.len() - i,
    {
        assert(decreases_to!(v => v@[i as int]));
        r.push(v[i].duplicate());
        i = i + 1;
    }
    proof {
        lemma_asts_view_eq(r@, v@);
    }
    r
}

/// Whether two sequences of expressions are the same, expression by
/// expression.
pub fn same_asts(a: &Vec<Ast>, b: &Vec<Ast>) -> (r: bool)
    ensures
        r == (asts_view(a@) == asts_view(b@)),
    decreases a,
{
    proof {
        lemma_asts_view(a@);
        lemma_asts_view(b@);
    }
    if a.len() != b.len() {
        return false;
    }
    let mut i: usize = 0;
    while i < a.len()
        invariant
            0 <= i <= a.len(),
            a.len() == b.len(),
            asts_view(a@).len() == a.len(),
            asts_view(b@).len() == b.len(),
            forall|j: int| 0 <= j < a.len() ==> #[trigger] asts_view(a@)[j] == a@[j]@,
            forall|j: int| 0 <= j < b.len() ==> #[trigger] asts_view(b@)[j] == b@[j]@,
            forall|j: int| 0 <= j < i ==> a@[j]@ == b@[j]@,
        decreases a.len() - i,
    {
        assert(decreases_to!(a => a@[i as int]));
        if !a[i].same_as(&b[i]) {
            assert(asts_view(a@)[i as int] != asts_view(b@)[i as int]);
            return false;
        }
        i = i + 1;
    }
    assert(asts_view(a@) =~= asts_view(b@));
    true
}

impl Block {
    /// A copy of this block.
    pub fn duplicate(&self) -> (r: Block)
        ensures
            r@ == self@,
        decreases self,
    {
        Block { exprs: duplicate_asts(&self.exprs), ret: self.ret }
    }

    /// Whether this block is the same as `other`, expression by expression.
    pub fn same_as(&self, other: &Block) -> (r: bool)
        ensures
            r == (self@ == other@),
        decreases self,
    {
        self.ret == other.ret && same_asts(&self.exprs, &other.exprs)
    }
}

impl Ast {
    /// A copy of this expression.
    pub fn duplicate(&self) -> (r: Ast)
        ensures
            r@ == self@,
        decreases self,
    {
        match self {
            Ast::Atom(t) => Ast::Atom(t.duplicate()),
            Ast::ArrayLit(items) => Ast::ArrayLit(duplicate_asts(items)),
            Ast::PrefixOp { op, operand } => Ast::PrefixOp {
                op: *op,
                operand: Box::new((**operand).duplicate()),
            },
            Ast::PostfixOp { op, operand } => Ast::PostfixOp {
                op: *op,
                operand: Box::new((**operand).duplicate()),
            },
            Ast::BinOp { op, operands } => Ast::BinOp {
                op: *op,
                operands: Box::new((operands.0.duplicate(), operands.1.duplicate())),
            },
            Ast::FunctionCall { fun, args } => Ast::FunctionCall {
                fun: Box::new((**fun).duplicate()),
                args: duplicate_asts(args),
            },
            Ast::Index { arr, idx } => Ast::Index {
                arr: Box::new((**arr).duplicate()),
                idx: Box::new((**idx).duplicate()),
            },
            Ast::Declare { var, val } => Ast::Declare {
                var: var.clone(),
                val: match val {
                    Some(v) => Some(Box::new((**v).duplicate())),
                    None => None,
                },
            },
            Ast::Block(b) => Ast::Block(b.duplicate()),
            Ast::LambdaLit { args, block } => Ast::LambdaLit {
                args: duplicate_names(args),
                block: block.duplicate(),
            },
            Ast::If { cond, body, elze } => Ast::If {
                cond: Box::new((**cond).duplicate()),
                body: body.duplicate(),
                elze: match elze {
                    Some(b) => Some(b.duplicate()),
                    None => None,
                },
            },
            Ast::While { cond, body } => Ast::While {
                cond: Box::new((**cond).duplicate()),
                body: body.duplicate(),
            },
            Ast::For { var, index, array, body } => Ast::For {
                var: var.clone(),
                index: match index {
                    Some(i) => Some(i.clone()),
                    None => None,
                },
                array: Box::new((**array).duplicate()),
                body: body.duplicate(),
            },
            Ast::Range { range, close_end } => Ast::Range {
                range: Box::new((range.0.duplicate(), range.1.duplicate())),
                close_end: *close_end,
            },
            Ast::FieldAccess { value, field } => Ast::FieldAccess {
                value: Box::new((**value).duplicate()),
                field: field.clone(),
            },
        }
    }

    /// Whether this expression is the same as `other`: the same kind, with
    /// the same parts.
    pub fn same_as(&self, other: &Ast) -> (r: bool)
        ensures
            r == (self@ == other@),
        decreases self,
    {
        match (self, other) {
            (Ast::Atom(a), Ast::Atom(b)) => a.same_as(b),
            (Ast::ArrayLit(a), Ast::ArrayLit(b)) => same_asts(a, b),
            (Ast::PrefixOp { op: o1, operand: a }, Ast::PrefixOp { op: o2, operand: b }) => *o1 == *o2
                && (**a).same_as(&**b),
            (Ast::PostfixOp { op: o1, operand: a }, Ast::PostfixOp { op: o2, operand: b }) => *o1 == *o2
                && (**a).same_as(&**b),
            (Ast::BinOp { op: o1, operands: a }, Ast::BinOp { op: o2, operands: b }) => *o1 == *o2
                && a.0.same_as(&b.0) && a.1.same_as(&b.1),
            (Ast::FunctionCall { fun: f1, args: a1 }, Ast::FunctionCall { fun: f2, args: a2 }) => (
            **f1).same_as(&**f2) && same_asts(a1, a2),
            (Ast::Index { arr: a1, idx: i1 }, Ast::Index { arr: a2, idx: i2 }) => (**a1).same_as(&**a2)
                && (**i1).same_as(&**i2),
            (Ast::Declare { var: v1, val: x1 }, Ast::Declare { var: v2, val: x2 }) => {
                let same_var = *v1 == *v2;
                same_var && match (x1, x2) {
                    (Some(a), Some(b)) => (**a).same_as(&**b),
                    (None, None) => true,
                    _ => false,
                }
            },
            (Ast::Block(a), Ast::Block(b)) => a.same_as(b),
            (Ast::LambdaLit { args: p1, block: b1 }, Ast::LambdaLit { args: p2, block: b2 }) =>
                same_names(p1, p2) && b1.same_as(b2),
            (Ast::If { cond: c1, body: b1, elze: e1 }, Ast::If { cond: c2, body: b2, elze: e2 }) =>
                (**c1).same_as(&**c2) && b1.same_as(b2) && match (e1, e2) {
                (Some(a), Some(b)) => a.same_as(b),
                (None, None) => true,
                _ => false,
            },
            (Ast::While { cond: c1, body: b1 }, Ast::While { cond: c2, body: b2 }) => (
            **c1).same_as(&**c2) && b1.same_as(b2),
            (
                Ast::For { var: v1, index: i1, array: a1, body: b1 },
                Ast::For { var: v2, index: i2, array: a2, body: b2 },
            ) => {
                let same_var = *v1 == *v2;
                let same_index = match (i1, i2) {
                    (Some(a), Some(b)) => *a == *b,
                    (None, None) => true,
                    _ => false,
                };
                same_var && same_index && (**a1).same_as(&**a2) && b1.same_as(b2)
            },
            (Ast::Range { range: r1, close_end: c1 }, Ast::Range { range: r2, close_end: c2 }) => *c1
                == *c2 && r1.0.same_as(&r2.0) && r1.1.same_as(&r2.1),
            (Ast::FieldAccess { value: v1, field: f1 }, Ast::FieldAccess { value: v2, field: f2 }) => {
                let same_field = *f1 == *f2;
                same_field && (**v1).same_as(&**v2)
            },
            _ => false,
        }
    }
}

} // verus!
