use std::cmp::Ordering;

use pratt_parser::ast::{Ast, Block, Cmp, InfixOp};
use pratt_parser::lexer::Lexer;
use pratt_parser::num::{add_i32, div_i32, factorial_i32, i32_of_u32, mul_i32, neg_i32, sub_i32};
use pratt_parser::parser::Parser;
use pratt_parser::runtime::{EvalError, Runtime};
use pratt_parser::scope::Scope;
use pratt_parser::token::{GroupDelim, Punct, TokenTree};
use pratt_parser::value::{Value, ValueRef};

const FUEL: u64 = 1_000_000;

fn eval_in(rt: &mut Runtime, src: &str) -> Result<ValueRef, EvalError> {
    let mut parser = Parser::new(Lexer::new(src));
    let mut last = Err(EvalError::OutOfFuel);
    while parser.peek_token().unwrap().is_some() {
        let e = parser.parse_expr().unwrap();
        last = e.eval(rt, FUEL);
        if last.is_err() {
            return last;
        }
        parser.skip_semicolons();
    }
    last
}

#[test]
fn scope_lookup_after_declare() {
    let mut s = Scope::new();
    assert!(s.declare_var("x".to_string(), ValueRef(1)));
    assert!(!s.declare_var("x".to_string(), ValueRef(2)));
    assert_eq!(s.get_var("x"), Some(ValueRef(2)));
    assert_eq!(s.get_var("y"), None);
}

#[test]
fn scope_assign_and_child_frames() {
    let mut s = Scope::new();
    assert_eq!(s.set_var("x", ValueRef(0)), Err(()));
    s.declare_var("x".to_string(), ValueRef(1));
    s.new_child();
    assert_eq!(s.get_var("x"), Some(ValueRef(1)));
    s.declare_var("x".to_string(), ValueRef(5));
    assert_eq!(s.get_var("x"), Some(ValueRef(5)));
    assert_eq!(s.set_var("x", ValueRef(6)), Ok(()));
    s.drop_child();
    assert_eq!(s.get_var("x"), Some(ValueRef(1)));
    s.new_child();
    assert_eq!(s.set_var("x", ValueRef(7)), Ok(()));
    s.drop_child();
    assert_eq!(s.get_var("x"), Some(ValueRef(7)));
}

#[test]
fn frames_are_closed_after_calls_and_loops() {
    let mut rt = Runtime::with_prelude();
    assert_eq!(
        eval_in(&mut rt, "let f = () => { let q = 1; nope }; f()"),
        Err(EvalError::UndefinedVariable("nope".to_string()))
    );
    assert_eq!(eval_in(&mut rt, "q"), Err(EvalError::UndefinedVariable("q".to_string())));
    assert_eq!(
        eval_in(&mut rt, "for i in [1] { i }; i"),
        Err(EvalError::UndefinedVariable("i".to_string()))
    );
}

#[test]
fn reads_end_with_the_loop_even_on_error() {
    let mut rt = Runtime::with_prelude();
    assert_eq!(
        eval_in(&mut rt, "let a = [1]; for x in a { nope }"),
        Err(EvalError::UndefinedVariable("nope".to_string()))
    );
    let r = eval_in(&mut rt, "a.push(2); a.len").unwrap();
    assert_eq!(*r.borrow(&rt), Value::Integer(2));
}

#[test]
fn comparison_operators() {
    assert!(!Cmp::Less.has_equal());
    assert!(Cmp::LessOrEq.has_equal());
    assert!(Cmp::GreaterOrEq.has_equal());
    assert!(!Cmp::Greater.has_equal());
    assert!(Cmp::Less.matches_ordering(Ordering::Less));
    assert!(!Cmp::Less.matches_ordering(Ordering::Equal));
    assert!(Cmp::LessOrEq.matches_ordering(Ordering::Equal));
    assert!(!Cmp::LessOrEq.matches_ordering(Ordering::Greater));
    assert!(Cmp::GreaterOrEq.matches_ordering(Ordering::Greater));
    assert!(!Cmp::Greater.matches_ordering(Ordering::Equal));
}

#[test]
fn punctuation_operators() {
    assert!(Punct::Plus.is_op());
    assert!(Punct::DotDotEq.is_op());
    assert!(Punct::Dot.is_op());
    assert!(!Punct::Comma.is_op());
    assert!(!Punct::Semicolon.is_op());
    assert!(!Punct::FatArrow.is_op());
}

#[test]
fn binding_powers() {
    let p = |x| TokenTree::Punct(x);
    assert_eq!(Parser::prefix_bp(&p(Punct::Minus)), Some(((), 5)));
    assert_eq!(Parser::prefix_bp(&p(Punct::Star)), None);
    assert_eq!(Parser::infix_bp(&p(Punct::Eq)), Some((0, 1)));
    assert_eq!(Parser::infix_bp(&p(Punct::Lte)), Some((2, 3)));
    assert_eq!(Parser::infix_bp(&p(Punct::DotDot)), Some((4, 5)));
    assert_eq!(Parser::infix_bp(&p(Punct::Minus)), Some((6, 7)));
    assert_eq!(Parser::infix_bp(&p(Punct::Slash)), Some((8, 9)));
    assert_eq!(Parser::infix_bp(&p(Punct::Bang)), None);
    assert_eq!(Parser::postfix_bp(&p(Punct::Bang)), Some((7, ())));
    assert_eq!(Parser::postfix_bp(&TokenTree::Group { delim: GroupDelim::Bracket, tokens: vec![] }), Some((7, ())));
    assert_eq!(Parser::postfix_bp(&TokenTree::Group { delim: GroupDelim::Brace, tokens: vec![] }), None);
}

#[test]
fn precedence_on_examples() {
    let parse = |s: &str| Parser::new(Lexer::new(s)).parse_expr().unwrap();
    let lit = |n: u32| Ast::Atom(TokenTree::IntLit(n));
    let bin = |op, a, b| Ast::BinOp { op, operands: Box::new((a, b)) };
    assert_eq!(parse("1 - 2 - 3"), bin(InfixOp::Sub, bin(InfixOp::Sub, lit(1), lit(2)), lit(3)));
    assert_eq!(parse("1 < 2 + 3"), bin(InfixOp::Cmp(Cmp::Less), lit(1), bin(InfixOp::Add, lit(2), lit(3))));
    assert_eq!(
        parse("1..2 * 3"),
        Ast::Range { range: Box::new((lit(1), bin(InfixOp::Mul, lit(2), lit(3)))), close_end: false }
    );
}

#[test]
fn parse_blocks_and_lists() {
    let toks = |s: &str| {
        let mut l = Lexer::new(s);
        let mut v = Vec::new();
        while let Some(t) = l.next() {
            v.push(t);
        }
        v
    };
    let b = Parser::parse_block(toks("1; 2;")).unwrap();
    assert_eq!(b, Block { exprs: vec![Ast::Atom(TokenTree::IntLit(1)), Ast::Atom(TokenTree::IntLit(2))], ret: false });
    let b = Parser::parse_block(toks("1; 2")).unwrap();
    assert!(b.ret);
    let xs = Parser::parse_comma_sep_exprs(toks("1, x, 3")).unwrap();
    assert_eq!(xs.len(), 3);
    assert!(Parser::parse_comma_sep_exprs(toks("1 ; 2")).is_err());
}

#[test]
fn checked_integer_helpers() {
    assert_eq!(add_i32(i32::MAX, 1), None);
    assert_eq!(add_i32(2, 3), Some(5));
    assert_eq!(sub_i32(i32::MIN, 1), None);
    assert_eq!(mul_i32(-4, 5), Some(-20));
    assert_eq!(div_i32(i32::MIN, -1), None);
    assert_eq!(div_i32(-9, 4), Some(-2));
    assert_eq!(neg_i32(i32::MIN), None);
    assert_eq!(neg_i32(5), Some(-5));
    assert_eq!(factorial_i32(5), Some(120));
    assert_eq!(factorial_i32(-3), Some(1));
    assert_eq!(factorial_i32(13), None);
    assert_eq!(i32_of_u32(u32::MAX), -1);
}

#[test]
fn ast_copies_and_comparisons() {
    let e = Parser::new(Lexer::new("for x, i in [1, 2] { if x < 2 { f(x)[0] } else { -x! } }")).parse_expr().unwrap();
    let c = e.duplicate();
    assert_eq!(c, e);
    assert!(c.same_as(&e));
    let other = Parser::new(Lexer::new("for x, j in [1, 2] { if x < 2 { f(x)[0] } else { -x! } }")).parse_expr().unwrap();
    assert!(!other.same_as(&e));
    let t = TokenTree::Group { delim: GroupDelim::Paren, tokens: vec![TokenTree::Ident("a".to_string())] };
    assert!(t.duplicate().same_as(&t));
    assert!(!t.same_as(&TokenTree::IntLit(1)));
}

#[test]
fn value_copies_and_booleans() {
    let v = Value::Array(vec![ValueRef(3), ValueRef(4)]);
    assert_eq!(v.duplicate(), v);
    assert!(Value::Bool(true).equals_bool(true));
    assert!(!Value::Bool(false).equals_bool(true));
    assert!(!Value::Integer(1).equals_bool(true));
}

#[test]
fn equality_of_cells() {
    let mut rt = Runtime::with_prelude();
    let a = eval_in(&mut rt, "[1, [2]]").unwrap();
    let b = eval_in(&mut rt, "[1, [2]]").unwrap();
    let c = eval_in(&mut rt, "[1, [3]]").unwrap();
    assert_eq!(rt.equal_values(a, b, FUEL), Some(true));
    assert_eq!(rt.equal_values(a, c, FUEL), Some(false));
    assert_eq!(rt.equal_values(a, b, 1), None);
}
