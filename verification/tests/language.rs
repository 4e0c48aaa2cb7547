use pratt_parser::ast::{Ast, Block};
use pratt_parser::lexer::{LexError, Lexer};
use pratt_parser::parser::{ParseError, ParsePanic, Parser};
use pratt_parser::runtime::{EvalError, Runtime};
use pratt_parser::semantics::EvalPanic;
use pratt_parser::token::{Keyword, Punct, TokenTree};
use pratt_parser::value::{NativeFn, Value, ValueRef};

const FUEL: u64 = 1_000_000;

fn parse(src: &str) -> Ast {
    let mut parser = Parser::new(Lexer::new(src));
    parser.parse_expr().unwrap()
}

/// Runs the expressions of a line as the interpreter's prompt does: one
/// after another, semicolons between them skipped, stopping at an error.
fn run_line(rt: &mut Runtime, src: &str, fuel: u64) -> Result<ValueRef, EvalError> {
    let mut parser = Parser::new(Lexer::new(src));
    let mut last = Err(EvalError::OutOfFuel);
    while parser.peek_token().unwrap().is_some() {
        let e = parser.parse_expr().unwrap();
        last = e.eval(rt, fuel);
        if last.is_err() {
            return last;
        }
        parser.skip_semicolons();
    }
    last
}

fn value_of(src: &str) -> Value {
    let mut rt = Runtime::with_prelude();
    let r = run_line(&mut rt, src, FUEL).unwrap();
    r.borrow(&rt).duplicate()
}

fn error_of(src: &str) -> EvalError {
    let mut rt = Runtime::with_prelude();
    run_line(&mut rt, src, FUEL).unwrap_err()
}

fn shown(src: &str) -> String {
    let mut rt = Runtime::with_prelude();
    let r = run_line(&mut rt, src, FUEL).unwrap();
    rt.display_value(r, FUEL).unwrap()
}

#[test]
fn readme_fibonacci_recursive() {
    let src = "let f = (n) => if n <= 2 { 1 } else { f(n - 1) + f(n - 2) }; f(10)";
    assert_eq!(value_of(src), Value::Integer(55));
}

#[test]
fn readme_fibonacci_iterative() {
    let src = "let a = 1; let b = 1; for i in 0..10 { print(a); b = a + b; a = b - a; }";
    let mut rt = Runtime::with_prelude();
    run_line(&mut rt, src, FUEL).unwrap();
    let lines = rt.take_output();
    // `0..10` runs through 0 to 9.
    let expected = ["1", "1", "2", "3", "5", "8", "13", "21", "34", "55"];
    assert_eq!(lines, expected.iter().map(|s| s.to_string()).collect::<Vec<_>>());
}

#[test]
fn for_over_ranges() {
    assert_eq!(value_of("let s = 0; for i in 1..=4 { s = s + i; }; s"), Value::Integer(1 + 2 + 3 + 4));
    assert_eq!(value_of("{ let n = 0; for i in 0..3 { n = n + 1; }; n }"), Value::Integer(3));
    assert_eq!(value_of("{ let n = 0; for i in 0..=3 { n = n + 1; }; n }"), Value::Integer(4));
    assert_eq!(value_of("{ let n = 0; for i in 3..3 { n = n + 1; }; n }"), Value::Integer(0));
    assert_eq!(value_of("{ let n = 0; for i in 5..=2 { n = n + 1; }; n }"), Value::Integer(0));
}

#[test]
fn for_with_index_over_array() {
    let src = "let s = 0; for x, i in [10, 20, 30] { s = s + x * i; }; s";
    assert_eq!(value_of(src), Value::Integer(20 + 60));
}

#[test]
fn for_gives_last_body_value() {
    assert_eq!(value_of("for x in [1, 2, 3] { x * 2 }"), Value::Integer(6));
    assert_eq!(value_of("for x in [] { x }"), Value::Unit);
}

#[test]
fn while_loop_counts() {
    let src = "let i = 0; while i < 5 { i = i + 1; }; i";
    assert_eq!(value_of(src), Value::Integer(5));
}

#[test]
fn declare_then_read_gives_value() {
    assert_eq!(value_of("{ let x = 41 + 1; x }"), Value::Integer(42));
    assert_eq!(value_of("let y; y"), Value::Unit);
}

#[test]
fn block_without_value() {
    assert_eq!(value_of("{ 1; 2; }"), Value::Unit);
    assert_eq!(value_of("{ 1; 2 }"), Value::Integer(2));
    assert_eq!(value_of("{}"), Value::Unit);
}

#[test]
fn if_else_branches() {
    assert_eq!(value_of("if 1 < 2 { 10 } else { 20 }"), Value::Integer(10));
    assert_eq!(value_of("if 1 > 2 { 10 } else { 20 }"), Value::Integer(20));
    assert_eq!(value_of("if false { 10 }"), Value::Unit);
}

#[test]
fn comparisons_on_integers_booleans_units() {
    assert_eq!(value_of("3 <= 3"), Value::Bool(true));
    assert_eq!(value_of("3 < 3"), Value::Bool(false));
    assert_eq!(value_of("4 >= 5"), Value::Bool(false));
    assert_eq!(value_of("false < true"), Value::Bool(true));
    assert_eq!(value_of("{} <= {}"), Value::Bool(true));
    assert_eq!(value_of("[1] < [2]"), Value::Bool(false));
}

#[test]
fn equality_is_deep() {
    assert_eq!(value_of("[1, [2, 3]] == [1, [2, 3]]"), Value::Bool(true));
    assert_eq!(value_of("[1, 2] == [1, 3]"), Value::Bool(false));
    assert_eq!(value_of("[1, 2] == [1, 2, 3]"), Value::Bool(false));
    assert_eq!(value_of("(1..2) == (1..2)"), Value::Bool(true));
    assert_eq!(value_of("(1..2) == (1..=2)"), Value::Bool(false));
    assert_eq!(value_of("print == print"), Value::Bool(false));
    assert_eq!(value_of("((x) => x) == ((x) => x)"), Value::Bool(true));
    assert_eq!(value_of("1 == true"), Value::Bool(false));
    assert_eq!(value_of("{} == {}"), Value::Bool(true));
}

#[test]
fn equality_is_symmetric_on_examples() {
    for (a, b) in [("[1, 2]", "[1, 2, 3]"), ("1..3", "1..=3"), ("5", "[5]")] {
        let ab = value_of(&format!("({}) == ({})", a, b));
        let ba = value_of(&format!("({}) == ({})", b, a));
        assert_eq!(ab, ba);
    }
}

#[test]
fn arithmetic_is_checked() {
    assert_eq!(value_of("7 / 2"), Value::Integer(3));
    assert_eq!(value_of("-7 / 2"), Value::Integer(-3));
    assert_eq!(value_of("2 - 5"), Value::Integer(-3));
    assert_eq!(value_of("12!"), Value::Integer(479001600));
    assert_eq!(value_of("0!"), Value::Integer(1));
    assert_eq!(value_of("-(3)!"), Value::Integer(-6));
    assert_eq!(error_of("2147483647 + 1"), EvalError::Panic(EvalPanic::Overflow));
    assert_eq!(error_of("1 / 0"), EvalError::Panic(EvalPanic::DivisionByZero));
    assert_eq!(error_of("13!"), EvalError::Panic(EvalPanic::Overflow));
    assert_eq!(error_of("65536 * 65536"), EvalError::Panic(EvalPanic::Overflow));
}

#[test]
fn integer_literal_wraps_to_i32() {
    assert_eq!(value_of("4294967295"), Value::Integer(-1));
}

#[test]
fn arrays_len_push_index() {
    assert_eq!(value_of("let a = [1, 2]; a.push(3, 4); a.len"), Value::Integer(4));
    assert_eq!(value_of("let a = [1, 2]; let b = a; b.push(3); a[2]"), Value::Integer(3));
    assert_eq!(error_of("[1, 2][2]"), EvalError::OutOfBounds { max: 2, idx: 2 });
    assert_eq!(error_of("[1, 2][-1]"), EvalError::OutOfBounds { max: 2, idx: -1 });
}

#[test]
fn push_while_reading_fails() {
    assert_eq!(
        error_of("let a = [1]; for x in a { a.push(x) }"),
        EvalError::Panic(EvalPanic::AlreadyBorrowed)
    );
    assert_eq!(
        error_of("let a = [0]; a[a.push(1)]"),
        EvalError::Panic(EvalPanic::AlreadyBorrowed)
    );
}

#[test]
fn lambdas_bind_parameters_dynamically() {
    assert_eq!(value_of("let add = (a, b) => a + b; add(2, 3)"), Value::Integer(5));
    assert_eq!(value_of("let f = (a, b) => b; f(1)"), Value::Unit);
    assert_eq!(value_of("let f = () => z; let z = 7; f()"), Value::Integer(7));
    assert_eq!(value_of("let f = (x) => { x; }; f(1)"), Value::Unit);
    assert_eq!(value_of("let x = 1; let f = (x) => x; f(5); x"), Value::Integer(1));
}

#[test]
fn assignment_changes_innermost_declaration() {
    assert_eq!(value_of("let x = 1; let f = () => { x = 2; }; f(); x"), Value::Integer(2));
    assert_eq!(value_of("let x = 1; x = 5"), Value::Unit);
}

#[test]
fn each_error_has_an_input() {
    assert_eq!(error_of("1 = 2"), EvalError::ExpectedVar);
    assert_eq!(error_of("if 1 { 2 }"), EvalError::ExpectedBool(Value::Integer(1)));
    assert_eq!(error_of("while 0 { 1 }"), EvalError::ExpectedBool(Value::Integer(0)));
    assert_eq!(error_of("1 + true"), EvalError::ExpectedInt(Value::Bool(true)));
    assert_eq!(error_of("-false"), EvalError::ExpectedInt(Value::Bool(false)));
    assert_eq!(error_of("1[0]"), EvalError::ExpectedArray(Value::Integer(1)));
    assert_eq!(error_of("for x in 3 { x }"), EvalError::ExpectedArray(Value::Integer(3)));
    assert_eq!(error_of("for x in true..2 { x }"), EvalError::ExpectedInt(Value::Bool(true)));
    assert_eq!(error_of("3(1)"), EvalError::ExpectedFunction(Value::Integer(3)));
    assert_eq!(error_of("nope"), EvalError::UndefinedVariable("nope".to_string()));
    assert_eq!(error_of("nope = 1"), EvalError::UndefinedVariable("nope".to_string()));
    assert_eq!(error_of("[1].size"), EvalError::UnknownField(Value::Array(vec![ValueRef(2)]), "size".to_string()));
    assert_eq!(error_of("5.len"), EvalError::UnknownField(Value::Integer(5), "len".to_string()));
}

#[test]
fn unknown_atom_is_unreachable() {
    let mut rt = Runtime::new();
    let e = Ast::Atom(TokenTree::Punct(Punct::Plus));
    assert_eq!(e.eval(&mut rt, FUEL).unwrap_err(), EvalError::Panic(EvalPanic::Unreachable));
}

#[test]
fn fuel_bounds_loops_and_calls() {
    let mut rt = Runtime::with_prelude();
    assert_eq!(run_line(&mut rt, "while true { 1 }", 100).unwrap_err(), EvalError::OutOfFuel);
    let mut rt = Runtime::with_prelude();
    assert_eq!(run_line(&mut rt, "let f = () => f(); f()", 50).unwrap_err(), EvalError::OutOfFuel);
    let mut rt = Runtime::with_prelude();
    assert_eq!(run_line(&mut rt, "let a = [1]; a.push(a); a == a", 50).unwrap_err(), EvalError::OutOfFuel);
}

#[test]
fn more_fuel_gives_the_same_result() {
    let src = "let s = 0; for i in 1..=20 { s = s + i; }; s";
    for fuel in [25u64, 100, 10_000] {
        let mut rt = Runtime::with_prelude();
        let r = run_line(&mut rt, src, fuel).unwrap();
        assert_eq!(*r.borrow(&rt), Value::Integer(210));
    }
}

#[test]
fn print_writes_values_as_shown() {
    let mut rt = Runtime::with_prelude();
    run_line(&mut rt, "print(1, true, [1, [2]], 1..=3, (x) => x, print, {})", FUEL).unwrap();
    assert_eq!(
        rt.take_output(),
        vec!["1 true [1, [2]] 1..=3 <lambda> <native function> ()".to_string()]
    );
    assert!(rt.take_output().is_empty());
}

#[test]
fn display_of_values() {
    assert_eq!(shown("[1, -2, [3]]"), "[1, -2, [3]]");
    assert_eq!(shown("2..5"), "2..5");
    assert_eq!(shown("false"), "false");
    assert_eq!(shown("let a = [1]; a.push"), "<native function>");
}

#[test]
fn prelude_declares_print_and_debug() {
    let rt = Runtime::with_prelude();
    assert!(rt.debug_enabled());
    let p = rt.get_var("print").unwrap();
    assert_eq!(*p.borrow(&rt), Value::NativeFn(NativeFn::Print));
    let mut rt = Runtime::with_prelude();
    run_line(&mut rt, "debug = false", FUEL).unwrap();
    assert!(!rt.debug_enabled());
    assert!(!Runtime::new().debug_enabled());
}

#[test]
fn borrow_mut_changes_a_cell() {
    let mut rt = Runtime::new();
    let r = run_line(&mut rt, "5", FUEL).unwrap();
    *r.borrow_mut(&mut rt) = Value::Integer(6);
    assert_eq!(*r.borrow(&rt), Value::Integer(6));
}

#[test]
fn ast_display_text() {
    assert_eq!(
        parse("1 + 2 * 3").display_text(),
        "(<binop>Add IntLit(1) (<binop>Mul IntLit(2) IntLit(3)))"
    );
    assert_eq!(parse("[a, 2][0]").display_text(), "(<idx>(<arr> Ident(\"a\") IntLit(2)) IntLit(0))");
    assert_eq!(parse("f(1, 2)").display_text(), "(<fun>Ident(\"f\") IntLit(1) IntLit(2))");
    assert_eq!(parse("-x!").display_text(), "(<pre>Neg (<post>Factorial Ident(\"x\")))");
    assert_eq!(parse("let v = 1").display_text(), "(<decl>v IntLit(1))");
    assert_eq!(parse("let v;").display_text(), "(<decl>v)");
    assert_eq!(parse("{ 1; 2 }").display_text(), "(<block ret=true> IntLit(1) IntLit(2))");
    assert_eq!(parse("(a, b) => a").display_text(), "(<lambda args=[\"a\", \"b\"]> Ident(\"a\"))");
    assert_eq!(
        parse("if a < b { 1; } else { 2 }").display_text(),
        "(if (<binop>Cmp(Less) Ident(\"a\") Ident(\"b\")) {IntLit(1); } {IntLit(2)})"
    );
    assert_eq!(parse("while x { }").display_text(), "(while Ident(\"x\") {})");
    assert_eq!(
        parse("for x, i in 1..=3 { x }").display_text(),
        "(for \"x\", Some(\"i\") in (IntLit(1)..=IntLit(3)) {Ident(\"x\")})"
    );
    assert_eq!(parse("a.len").display_text(), "(Ident(\"a\").len)");
    assert_eq!(parse("x = y == z").display_text(), "(<binop>Assign Ident(\"x\") (<binop>Equality Ident(\"y\") Ident(\"z\")))");
}

#[test]
fn block_display_text() {
    let b = Block { exprs: vec![Ast::Atom(TokenTree::IntLit(1)), Ast::Atom(TokenTree::Keyword(Keyword::True))], ret: false };
    assert_eq!(b.display_text(), "{IntLit(1); Keyword(True); }");
    let b = Block { exprs: vec![Ast::Atom(TokenTree::IntLit(1))], ret: true };
    assert_eq!(b.display_text(), "{IntLit(1)}");
    let b = Block { exprs: vec![], ret: false };
    assert_eq!(b.display_text(), "{}");
}

#[test]
fn token_debug_text_quotes_names() {
    assert_eq!(TokenTree::Ident("a\"b".to_string()).debug_text(), "Ident(\"a\\\"b\")");
    assert_eq!(TokenTree::IntLit(7).debug_text(), "IntLit(7)");
}

#[test]
fn lexer_operators_and_comments() {
    let mut l = Lexer::new("a <= b >= c == d => e = f .. ..= . ; // comment\n g");
    let mut toks = Vec::new();
    while let Some(t) = l.next() {
        toks.push(t);
    }
    let id = |s: &str| TokenTree::Ident(s.to_string());
    assert_eq!(
        toks,
        vec![
            id("a"),
            TokenTree::Punct(Punct::Lte),
            id("b"),
            TokenTree::Punct(Punct::Gte),
            id("c"),
            TokenTree::Punct(Punct::EqEq),
            id("d"),
            TokenTree::Punct(Punct::FatArrow),
            id("e"),
            TokenTree::Punct(Punct::Eq),
            id("f"),
            TokenTree::Punct(Punct::DotDot),
            TokenTree::Punct(Punct::DotDotEq),
            TokenTree::Punct(Punct::Dot),
            TokenTree::Punct(Punct::Semicolon),
            id("g"),
        ]
    );
}

#[test]
fn lexer_keywords() {
    let mut l = Lexer::new("let true false if else while for in lettuce");
    let kws = [Keyword::Let, Keyword::True, Keyword::False, Keyword::If, Keyword::Else, Keyword::While, Keyword::For, Keyword::In];
    for k in kws {
        assert_eq!(l.next(), Some(TokenTree::Keyword(k)));
    }
    assert_eq!(l.next(), Some(TokenTree::Ident("lettuce".to_string())));
    assert_eq!(Keyword::from_ident("while"), Some(Keyword::While));
    assert_eq!(Keyword::from_ident("When"), None);
}

#[test]
fn lexer_errors() {
    assert_eq!(Lexer::new("a # b").next_token().map(|_| ()), Ok(()));
    let mut l = Lexer::new("a # b");
    l.next_token().unwrap();
    assert_eq!(l.next_token(), Err(LexError::UnexpectedChar('#')));
    assert_eq!(Lexer::new("(1 + 2").next_token(), Ok(None));
    assert_eq!(Lexer::new("((1").next_token(), Err(LexError::UnclosedBlock));
    assert_eq!(Lexer::new("99999999999").next_token(), Err(LexError::NumberTooLarge));
    assert_eq!(Lexer::new("   ").next_token(), Ok(None));
}

#[test]
fn parser_errors() {
    let mut p = Parser::new(Lexer::new("1 +"));
    assert_eq!(p.parse_expr(), Err(ParseError::UnexpectedEof { expected: "token".to_string() }));
    let mut p = Parser::new(Lexer::new("1 2"));
    assert_eq!(
        p.parse_expr(),
        Err(ParseError::UnexpectedToken { expected: "operator".to_string(), actual: TokenTree::IntLit(2) })
    );
    let mut p = Parser::new(Lexer::new("let 5"));
    assert_eq!(
        p.parse_expr(),
        Err(ParseError::UnexpectedToken { expected: "identifier".to_string(), actual: TokenTree::IntLit(5) })
    );
    let mut p = Parser::new(Lexer::new("+1"));
    assert_eq!(p.parse_expr(), Err(ParseError::Panic(ParsePanic::UnaryPlus)));
    let mut p = Parser::new(Lexer::new("1 # 2"));
    assert_eq!(p.parse_expr(), Err(ParseError::Panic(ParsePanic::Lex(LexError::UnexpectedChar('#')))));
    assert_eq!(
        ParseError::unexpected("x".to_string(), None),
        ParseError::UnexpectedEof { expected: "x".to_string() }
    );
}

#[test]
fn skip_semicolons_stops_at_expression() {
    let mut p = Parser::new(Lexer::new(";;; 4"));
    p.skip_semicolons();
    assert_eq!(p.next_token(), Ok(Some(TokenTree::IntLit(4))));
}

#[test]
fn leading_whitespace_only_moves_position() {
    let mut a = Lexer::new("  \t\n foo + 1");
    let mut b = Lexer::new("foo + 1");
    assert_eq!(a.next_token(), b.next_token());
    assert_eq!(a.next_token(), b.next_token());
}

#[test]
fn untake_char_undoes_take_char() {
    let mut l = Lexer::new("ab");
    let c = l.take_char().unwrap();
    l.untake_char(c);
    assert_eq!(l.peek_char(), Some('a'));
}
