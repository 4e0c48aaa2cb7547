use pratt_parser::ast::{Ast, InfixOp};
use pratt_parser::lexer::Lexer;
use pratt_parser::parser::Parser;
use pratt_parser::runtime::Runtime;
use pratt_parser::token::{GroupDelim, Punct, TokenTree};
use pratt_parser::value::Value;

const FUEL: u64 = 1_000_000;

fn lit(n: u32) -> Ast {
    Ast::Atom(TokenTree::IntLit(n))
}

fn binop(op: InfixOp, a: Ast, b: Ast) -> Ast {
    Ast::BinOp { op, operands: Box::new((a, b)) }
}

fn eval_str(s: &str) -> Value {
    let mut parser = Parser::new(Lexer::new(s));
    let ast = parser.parse_expr().unwrap();
    let mut rt = Runtime::new();
    let r = ast.eval(&mut rt, FUEL).unwrap();
    r.borrow(&rt).duplicate()
}

#[test]
fn basic_lex() {
    let s = "69 + - * / ! , foo";
    let mut l = Lexer::new(s);

    assert_eq!(l.next(), Some(TokenTree::IntLit(69)));
    assert_eq!(l.next(), Some(TokenTree::Punct(Punct::Plus)));
    assert_eq!(l.next(), Some(TokenTree::Punct(Punct::Minus)));
    assert_eq!(l.next(), Some(TokenTree::Punct(Punct::Star)));
    assert_eq!(l.next(), Some(TokenTree::Punct(Punct::Slash)));
    assert_eq!(l.next(), Some(TokenTree::Punct(Punct::Bang)));
    assert_eq!(l.next(), Some(TokenTree::Punct(Punct::Comma)));
    assert_eq!(l.next(), Some(TokenTree::Ident("foo".into())));
    assert_eq!(l.next(), None);
}

#[test]
fn tree_lex() {
    let s = "(1 + 2)[7 * 6]";
    let mut l = Lexer::new(s);

    assert_eq!(
        l.next(),
        Some(TokenTree::Group {
            delim: GroupDelim::Paren,
            tokens: vec![
                TokenTree::IntLit(1),
                TokenTree::Punct(Punct::Plus),
                TokenTree::IntLit(2)
            ]
        })
    );
    assert_eq!(
        l.next(),
        Some(TokenTree::Group {
            delim: GroupDelim::Bracket,
            tokens: vec![
                TokenTree::IntLit(7),
                TokenTree::Punct(Punct::Star),
                TokenTree::IntLit(6)
            ]
        })
    );
    assert_eq!(l.next(), None);
}

#[test]
fn parse_left_to_right() {
    let s = "1 + 2 + 3";
    let mut parser = Parser::new(Lexer::new(s));

    // (1 + 2) + 3
    let ast = parser.parse_expr().unwrap();
    assert_eq!(
        ast,
        binop(InfixOp::Add, binop(InfixOp::Add, lit(1), lit(2)), lit(3))
    );

    assert_eq!(parser.next_token(), Ok(None)); // ensure we've gobbled all tokens
}

#[test]
fn parse_oop_left_to_right() {
    let s = "1 * 2 + 3";
    let mut parser = Parser::new(Lexer::new(s));

    // (1 * 2) + 3
    let ast = parser.parse_expr().unwrap();
    assert_eq!(
        ast,
        binop(InfixOp::Add, binop(InfixOp::Mul, lit(1), lit(2)), lit(3))
    );

    assert_eq!(parser.next_token(), Ok(None)); // ensure we've gobbled all tokens
}

#[test]
fn parse_oop_right_to_left() {
    let s = "1 + 2 * 3";
    let mut parser = Parser::new(Lexer::new(s));

    // 1 + (2 * 3)
    let ast = parser.parse_expr().unwrap();
    assert_eq!(
        ast,
        binop(InfixOp::Add, lit(1), binop(InfixOp::Mul, lit(2), lit(3)))
    );

    assert_eq!(parser.next_token(), Ok(None)); // ensure we've gobbled all tokens
}

#[test]
fn parse_function_call() {
    let s = "foo(1 + 2, bar(3, 4), 5)";
    let mut parser = Parser::new(Lexer::new(s));

    let ast = parser.parse_expr().unwrap();
    assert_eq!(
        ast,
        Ast::FunctionCall {
            fun: Box::new(Ast::Atom(TokenTree::Ident("foo".into()))),
            args: vec![
                binop(InfixOp::Add, lit(1), lit(2)),
                Ast::FunctionCall {
                    fun: Box::new(Ast::Atom(TokenTree::Ident("bar".into()))),
                    args: vec![lit(3), lit(4)],
                },
                lit(5),
            ]
        }
    );

    assert_eq!(parser.next_token(), Ok(None)); // ensure we've gobbled all tokens
}

#[test]
fn eval_complex() {
    let s = "1 + 2 * 3 / 4 + 6 * (3 + 2) + 4!";

    fn factorial(n: i32) -> i32 {
        let mut out = 1;
        for i in 1..=n {
            out *= i;
        }
        out
    }

    let result = eval_str(s);
    assert_eq!(
        result,
        Value::Integer(1 + 2 * 3 / 4 + 6 * (3 + 2) + factorial(4))
    );
}

#[test]
fn eval_array() {
    let (s, expected) = ("[1, 2, 3][2]", [1, 2, 3][2]);

    let result = eval_str(s);
    assert_eq!(result, Value::Integer(expected));
}

#[test]
fn eval_array_complex() {
    let (s, expected) = (
        "[3 + 4, 6 + 9, 4 + 2][7 * 6 / 21 - 1]",
        [3 + 4, 6 + 9, 4 + 2][7 * 6 / 21 - 1],
    );

    let result = eval_str(s);
    assert_eq!(result, Value::Integer(expected));
}
