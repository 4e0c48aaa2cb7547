//! The Pratt parser: turns a stream of token trees into expressions.
//!
//! The meaning of parsing is given by spec functions over a token stream
//! and a position in it (`parse_bp`, `parse_loop`, `parse_block`, ...);
//! the executable `Parser` is proved to follow them.

use vstd::prelude::*;

use crate::ast::{asts_view, lemma_asts_view, lemma_asts_view_push, names_view, Ast, Block, Cmp, InfixOp, PostfixOp, PrefixOp, SAst, SBlock};
use crate::lexer::{LexError, Lexer, Stream};
use crate::text::tok_debug;
use crate::token::{spec_is_op, lemma_toks_view, toks_view, GroupDelim, Keyword, Punct, Tok, TokenTree};

verus! {

/// Failures after which parsing cannot go on at all, as opposed to an
/// unexpected token, which is reported with what was expected instead.
#[derive(Debug, PartialEq, Eq)]
pub enum ParsePanic {
    /// The lexer met text it cannot lex.
    Lex(LexError),
    /// The condition of an `if` or `while`, or the index in `[..]`, did
    /// not parse.
    Unwrapped(Box<ParseError>),
    /// A `+` stands where an expression must start.
    UnaryPlus,
}

/// Why parsing failed.
#[derive(Debug, PartialEq, Eq)]
pub enum ParseError {
    UnexpectedToken { expected: String, actual: TokenTree },
    UnexpectedEof { expected: String },
    /// A condition under which parsing cannot go on at all.
    Panic(ParsePanic),
}

/// The mathematical model of a parse error.
pub enum SParseError {
    UnexpectedToken(Seq<char>, Tok),
    UnexpectedEof(Seq<char>),
    Lex(LexError),
    Unwrapped(Box<SParseError>),
    UnaryPlus,
}

impl View for ParseError {
    type V = SParseError;

    open spec fn view(&self) -> SParseError
        decreases self,
    {
        match self {
            ParseError::UnexpectedToken { expected, actual } => SParseError::UnexpectedToken(
                expected@,
                actual@,
            ),
            ParseError::UnexpectedEof { expected } => SParseError::UnexpectedEof(expected@),
            ParseError::Panic(ParsePanic::Lex(x)) => SParseError::Lex(*x),
            ParseError::Panic(ParsePanic::Unwrapped(e)) => SParseError::Unwrapped(
                Box::new((**e).view()),
            ),
            ParseError::Panic(ParsePanic::UnaryPlus) => SParseError::UnaryPlus,
        }
    }
}

/// A parse error that names what was expected and what was found instead.
pub open spec fn unexpected(expected: Seq<char>, actual: Option<Tok>) -> SParseError {
    match actual {
        Some(t) => SParseError::UnexpectedToken(expected, t),
        None => SParseError::UnexpectedEof(expected),
    }
}

/// The outcome of a `.unwrap()` on the result of a nested parse that
/// failed with `e`: a condition that stops parsing propagates unchanged,
/// any other error becomes one.
pub open spec fn unwrapped(e: SParseError) -> SParseError {
    match e {
        SParseError::UnexpectedToken(..) => SParseError::Unwrapped(Box::new(e)),
        SParseError::UnexpectedEof(..) => SParseError::Unwrapped(Box::new(e)),
        _ => e,
    }
}

/// The token at position `i` of a stream, if any.  Reading past the last
/// token of a stream that ends in a lexing failure is that failure.
pub open spec fn peek(st: Stream, i: int) -> Result<Option<Tok>, SParseError> {
    if 0 <= i < st.toks.len() {
        Ok(Some(st.toks[i]))
    } else {
        match st.tail {
            Some(x) => Err(SParseError::Lex(x)),
            None => Ok(None),
        }
    }
}

/// The position after the semicolons that stand at position `i`.
pub open spec fn skip_semicolons_at(st: Stream, i: int) -> int
    decreases st.toks.len() - i,
{
    if 0 <= i < st.toks.len() && st.toks[i] == Tok::Punct(Punct::Semicolon) {
        skip_semicolons_at(st, i + 1)
    } else {
        i
    }
}

/// The stream of the tokens of a group.
pub open spec fn sub_stream(g: Seq<Tok>) -> Stream {
    Stream { toks: g, tail: None }
}

/// The binding power to the right of a prefix operator.
pub open spec fn spec_prefix_bp(t: Tok) -> Option<u8> {
    match t {
        Tok::Punct(Punct::Plus) => Some(5),
        Tok::Punct(Punct::Minus) => Some(5),
        _ => None,
    }
}

/// The binding powers to the left and right of an infix operator.
pub open spec fn spec_infix_bp(t: Tok) -> Option<(u8, u8)> {
    match t {
        Tok::Punct(Punct::Eq) => Some((0, 1)),
        Tok::Punct(Punct::EqEq) => Some((2, 3)),
        Tok::Punct(Punct::Lt) => Some((2, 3)),
        Tok::Punct(Punct::Lte) => Some((2, 3)),
        Tok::Punct(Punct::Gte) => Some((2, 3)),
        Tok::Punct(Punct::Gt) => Some((2, 3)),
        Tok::Punct(Punct::DotDot) => Some((4, 5)),
        Tok::Punct(Punct::DotDotEq) => Some((4, 5)),
        Tok::Punct(Punct::Plus) => Some((6, 7)),
        Tok::Punct(Punct::Minus) => Some((6, 7)),
        Tok::Punct(Punct::Star) => Some((8, 9)),
        Tok::Punct(Punct::Slash) => Some((8, 9)),
        _ => None,
    }
}

/// The binding power to the left of a postfix operator: `!`, `.`, a call
/// `(..)` or an index `[..]`.
pub open spec fn spec_postfix_bp(t: Tok) -> Option<u8> {
    match t {
        Tok::Punct(Punct::Bang) => Some(7),
        Tok::Punct(Punct::Dot) => Some(7),
        Tok::Group(GroupDelim::Paren, _) => Some(7),
        Tok::Group(GroupDelim::Bracket, _) => Some(7),
        _ => None,
    }
}

/// The expression that an infix operator token builds from two operands.
pub open spec fn infix_ast(t: Tok, lhs: SAst, rhs: SAst) -> SAst {
    match t {
        Tok::Punct(Punct::DotDot) => SAst::Range(Box::new(lhs), Box::new(rhs), false),
        Tok::Punct(Punct::DotDotEq) => SAst::Range(Box::new(lhs), Box::new(rhs), true),
        _ => SAst::BinOp(infix_op(t), Box::new(lhs), Box::new(rhs)),
    }
}

/// The operator of a binary operation.
pub open spec fn infix_op(t: Tok) -> InfixOp {
    match t {
        Tok::Punct(Punct::Plus) => InfixOp::Add,
        Tok::Punct(Punct::Minus) => InfixOp::Sub,
        Tok::Punct(Punct::Star) => InfixOp::Mul,
        Tok::Punct(Punct::Slash) => InfixOp::Div,
        Tok::Punct(Punct::Eq) => InfixOp::Assign,
        Tok::Punct(Punct::EqEq) => InfixOp::Equality,
        Tok::Punct(Punct::Lt) => InfixOp::Cmp(Cmp::Less),
        Tok::Punct(Punct::Lte) => InfixOp::Cmp(Cmp::LessOrEq),
        Tok::Punct(Punct::Gte) => InfixOp::Cmp(Cmp::GreaterOrEq),
        _ => InfixOp::Cmp(Cmp::Greater),
    }
}

/// The block a lambda's body expression stands for: a block as it is,
/// any other expression as a block that returns it.
pub open spec fn body_block(e: SAst) -> SBlock {
    match e {
        SAst::Block(b) => b,
        _ => SBlock { exprs: seq![e], ret: true },
    }
}

/// Whether position `k` lies past `i` and within the stream.
pub open spec fn advanced(st: Stream, i: int, k: int) -> bool {
    i < k <= st.toks.len()
}

/// The error of a parse that would not move forward; `lemma_parse_advances`
/// shows that it never arises.
pub open spec fn stuck() -> SParseError {
    SParseError::UnexpectedEof(Seq::empty())
}

/// An identifier at position `i`, and the position after it.
pub open spec fn take_ident_at(st: Stream, i: int) -> Result<(Seq<char>, int), SParseError> {
    match peek(st, i) {
        Err(e) => Err(e),
        Ok(Some(Tok::Ident(d))) => Ok((d, i + 1)),
        Ok(t) => Err(unexpected("identifier"@, t)),
    }
}

/// The parameter names of a lambda: identifiers separated by commas, from
/// position `i` of a group's tokens, after the names `acc` already read.
pub open spec fn parse_params(g: Seq<Tok>, i: int, acc: Seq<Seq<char>>) -> Result<
    Seq<Seq<char>>,
    SParseError,
>
    decreases g.len() - i,
{
    if !(0 <= i < g.len()) {
        Ok(acc)
    } else {
        match take_ident_at(sub_stream(g), i) {
            Err(e) => Err(e),
            Ok((d, j)) => {
                if j < g.len() {
                    match g[j] {
                        Tok::Punct(Punct::Comma) => parse_params(g, j + 1, acc.push(d)),
                        t => Err(unexpected("Comma"@, Some(t))),
                    }
                } else {
                    Ok(acc.push(d))
                }
            },
        }
    }
}

/// An expression of binding power at least `min_bp` from position `i`,
/// and the position after it.
pub open spec fn parse_bp(st: Stream, i: int, min_bp: u8) -> Result<(SAst, int), SParseError>
    decreases st.toks, st.toks.len() - i, 2int,
{
    if !(0 <= i <= st.toks.len()) {
        Err(stuck())
    } else {
        match peek(st, i) {
            Err(e) => Err(e),
            Ok(None) => Err(unexpected("token"@, None)),
            Ok(Some(t)) => match t {
                Tok::Group(GroupDelim::Paren, _) => parse_paren(st, i, min_bp),
                Tok::Group(GroupDelim::Bracket, g) => {
                    proof {
                        assert(decreases_to!(st.toks => st.toks[i]));
                    }
                    match parse_comma_sep(g, 0, Seq::empty()) {
                        Err(e) => Err(e),
                        Ok(items) => parse_loop(st, i + 1, min_bp, SAst::ArrayLit(items)),
                    }
                },
                Tok::Group(GroupDelim::Brace, g) => {
                    proof {
                        assert(decreases_to!(st.toks => st.toks[i]));
                    }
                    match parse_block(g, 0, Seq::empty()) {
                        Err(e) => Err(e),
                        Ok(b) => parse_loop(st, i + 1, min_bp, SAst::Block(b)),
                    }
                },
                Tok::Keyword(Keyword::Let) => parse_let(st, i),
                Tok::Keyword(Keyword::If) => parse_if(st, i, min_bp),
                Tok::Keyword(Keyword::While) => parse_while(st, i, min_bp),
                Tok::Keyword(Keyword::For) => parse_for(st, i, min_bp),
                Tok::IntLit(_) => parse_loop(st, i + 1, min_bp, SAst::Atom(t)),
                Tok::Ident(_) => parse_loop(st, i + 1, min_bp, SAst::Atom(t)),
                Tok::Keyword(Keyword::True) => parse_loop(st, i + 1, min_bp, SAst::Atom(t)),
                Tok::Keyword(Keyword::False) => parse_loop(st, i + 1, min_bp, SAst::Atom(t)),
                _ => parse_prefix(st, i, min_bp),
            },
        }
    }
}

/// After a group in parentheses at position `i`: a lambda `(args) => body`,
/// or an expression in parentheses.
pub open spec fn parse_paren(st: Stream, i: int, min_bp: u8) -> Result<(SAst, int), SParseError>
    decreases st.toks, st.toks.len() - i, 1int,
{
    if !(0 <= i < st.toks.len()) {
        Err(stuck())
    } else {
        match st.toks[i] {
            Tok::Group(_, g) => {
                proof {
                    assert(decreases_to!(st.toks => st.toks[i]));
                }
                match peek(st, i + 1) {
                    Err(e) => Err(e),
                    Ok(Some(Tok::Punct(Punct::FatArrow))) => match parse_params(g, 0, Seq::empty()) {
                        Err(e) => Err(e),
                        Ok(args) => match parse_bp(st, i + 2, 0) {
                            Err(e) => Err(e),
                            Ok((body, k)) => if advanced(st, i + 2, k) {
                                parse_loop(st, k, min_bp, SAst::LambdaLit(args, body_block(body)))
                            } else {
                                Err(stuck())
                            },
                        },
                    },
                    Ok(_) => match parse_bp(sub_stream(g), 0, 0) {
                        Err(e) => Err(e),
                        Ok((e, _)) => parse_loop(st, i + 1, min_bp, e),
                    },
                }
            },
            _ => Err(stuck()),
        }
    }
}

/// After `let` at position `i`: `let name;` or `let name = value`.  The
/// semicolon is left for the caller.
pub open spec fn parse_let(st: Stream, i: int) -> Result<(SAst, int), SParseError>
    decreases st.toks, st.toks.len() - i, 1int,
{
    if !(0 <= i < st.toks.len()) {
        Err(stuck())
    } else {
        match take_ident_at(st, i + 1) {
            Err(e) => Err(e),
            Ok((v, k)) => match peek(st, k) {
                Err(e) => Err(e),
                Ok(Some(Tok::Punct(Punct::Semicolon))) => Ok((SAst::Declare(v, None), k)),
                Ok(Some(Tok::Punct(Punct::Eq))) => match parse_bp(st, k + 1, 0) {
                    Err(e) => Err(e),
                    Ok((e, m)) => Ok((SAst::Declare(v, Some(Box::new(e))), m)),
                },
                Ok(t) => Err(unexpected("semicolon or eq"@, t)),
            },
        }
    }
}

/// After `if` at position `i`: a condition, a block, and an optional
/// `else` with a block.
pub open spec fn parse_if(st: Stream, i: int, min_bp: u8) -> Result<(SAst, int), SParseError>
    decreases st.toks, st.toks.len() - i, 1int,
{
    if !(0 <= i < st.toks.len()) {
        Err(stuck())
    } else {
        match parse_bp(st, i + 1, 0) {
            Err(e) => Err(unwrapped(e)),
            Ok((c, k)) => if !advanced(st, i + 1, k) {
                Err(stuck())
            } else {
                match brace_group(st, k) {
                    Err(e) => Err(e),
                    Ok(bg) => {
                        proof {
                            assert(decreases_to!(st.toks => st.toks[k]));
                        }
                        match parse_block(bg, 0, Seq::empty()) {
                            Err(e) => Err(e),
                            Ok(body) => match peek(st, k + 1) {
                                Err(e) => Err(e),
                                Ok(Some(Tok::Keyword(Keyword::Else))) => match brace_group(st, k + 2) {
                                    Err(e) => Err(e),
                                    Ok(eg) => {
                                        proof {
                                            assert(decreases_to!(st.toks => st.toks[k + 2]));
                                        }
                                        match parse_block(eg, 0, Seq::empty()) {
                                            Err(e) => Err(e),
                                            Ok(eb) => parse_loop(
                                                st,
                                                k + 3,
                                                min_bp,
                                                SAst::If(Box::new(c), body, Some(eb)),
                                            ),
                                        }
                                    },
                                },
                                Ok(_) => parse_loop(
                                    st,
                                    k + 1,
                                    min_bp,
                                    SAst::If(Box::new(c), body, None),
                                ),
                            },
                        }
                    },
                }
            },
        }
    }
}

/// After `while` at position `i`: a condition and a block.
pub open spec fn parse_while(st: Stream, i: int, min_bp: u8) -> Result<(SAst, int), SParseError>
    decreases st.toks, st.toks.len() - i, 1int,
{
    if !(0 <= i < st.toks.len()) {
        Err(stuck())
    } else {
        match parse_bp(st, i + 1, 0) {
            Err(e) => Err(unwrapped(e)),
            Ok((c, k)) => if !advanced(st, i + 1, k) {
                Err(stuck())
            } else {
                match brace_group(st, k) {
                    Err(e) => Err(e),
                    Ok(bg) => {
                        proof {
                            assert(decreases_to!(st.toks => st.toks[k]));
                        }
                        match parse_block(bg, 0, Seq::empty()) {
                            Err(e) => Err(e),
                            Ok(body) => parse_loop(st, k + 1, min_bp, SAst::While(Box::new(c), body)),
                        }
                    },
                }
            },
        }
    }
}

/// After `for` at position `i`: a name, an optional index name, `in`, an
/// expression for what to iterate over, and a block.
pub open spec fn parse_for(st: Stream, i: int, min_bp: u8) -> Result<(SAst, int), SParseError>
    decreases st.toks, st.toks.len() - i, 1int,
{
    if !(0 <= i < st.toks.len()) {
        Err(stuck())
    } else {
        match take_ident_at(st, i + 1) {
            Err(e) => Err(e),
            Ok((var, k)) => match for_index(st, k) {
                Err(e) => Err(e),
                Ok((index, m)) => if !(i < m) {
                    Err(stuck())
                } else {
                    match parse_bp(st, m, 0) {
                        Err(e) => Err(e),
                        Ok((arr, n)) => if !advanced(st, m, n) {
                            Err(stuck())
                        } else {
                            match brace_group(st, n) {
                                Err(e) => Err(e),
                                Ok(bg) => {
                                    proof {
                                        assert(decreases_to!(st.toks => st.toks[n]));
                                    }
                                    match parse_block(bg, 0, Seq::empty()) {
                                        Err(e) => Err(e),
                                        Ok(body) => parse_loop(
                                            st,
                                            n + 1,
                                            min_bp,
                                            SAst::For(var, index, Box::new(arr), body),
                                        ),
                                    }
                                },
                            }
                        },
                    }
                },
            },
        }
    }
}

/// A prefix operator at position `i` and its operand.  Only `-` builds an
/// expression; a `+` stops parsing.
pub open spec fn parse_prefix(st: Stream, i: int, min_bp: u8) -> Result<(SAst, int), SParseError>
    decreases st.toks, st.toks.len() - i, 1int,
{
    if !(0 <= i < st.toks.len()) {
        Err(stuck())
    } else {
        let t = st.toks[i];
        match spec_prefix_bp(t) {
            Some(r_bp) => match parse_bp(st, i + 1, r_bp) {
                Err(e) => Err(e),
                Ok((rhs, k)) => if !advanced(st, i + 1, k) {
                    Err(stuck())
                } else if t == Tok::Punct(Punct::Minus) {
                    parse_loop(st, k, min_bp, SAst::PrefixOp(PrefixOp::Neg, Box::new(rhs)))
                } else {
                    Err(SParseError::UnaryPlus)
                },
            },
            None => Err(unexpected("expression"@, Some(t))),
        }
    }
}

/// The token `t` at position `i`, and the position after it.
pub open spec fn take_token_at(st: Stream, i: int, t: Tok) -> Result<int, SParseError> {
    match peek(st, i) {
        Err(e) => Err(e),
        Ok(Some(u)) => if u == t {
            Ok(i + 1)
        } else {
            Err(unexpected(tok_debug(t), Some(u)))
        },
        Ok(None) => Err(unexpected(tok_debug(t), None)),
    }
}

/// After `for var`: either `in`, or `, index in`; the index name and the
/// position after `in`.
pub open spec fn for_index(st: Stream, k: int) -> Result<(Option<Seq<char>>, int), SParseError> {
    match peek(st, k) {
        Err(e) => Err(e),
        Ok(Some(Tok::Keyword(Keyword::In))) => Ok((None, k + 1)),
        Ok(Some(Tok::Punct(Punct::Comma))) => match take_ident_at(st, k + 1) {
            Err(e) => Err(e),
            Ok((ix, m)) => match take_token_at(st, m, Tok::Keyword(Keyword::In)) {
                Err(e) => Err(e),
                Ok(n) => Ok((Some(ix), n)),
            },
        },
        Ok(t) => Err(unexpected("'in' or Comma"@, t)),
    }
}

/// The tokens of the braced group at position `k`.
pub open spec fn brace_group(st: Stream, k: int) -> Result<Seq<Tok>, SParseError> {
    match peek(st, k) {
        Err(e) => Err(e),
        Ok(Some(Tok::Group(GroupDelim::Brace, g))) => Ok(g),
        Ok(t) => Err(unexpected("Block"@, t)),
    }
}

/// The operators after an expression `lhs` from position `i`: postfix and
/// infix operators whose left binding power is at least `min_bp`, applied
/// from left to right.
pub open spec fn parse_loop(st: Stream, i: int, min_bp: u8, lhs: SAst) -> Result<
    (SAst, int),
    SParseError,
>
    decreases st.toks, st.toks.len() - i, 1int,
{
    if !(0 <= i <= st.toks.len()) {
        Err(stuck())
    } else {
        match peek(st, i) {
            Err(e) => Err(e),
            Ok(None) => Ok((lhs, i)),
            Ok(Some(t)) => {
                let is_operator = match t {
                    Tok::Punct(p) => spec_is_op(p),
                    Tok::Group(..) => true,
                    _ => false,
                };
                if t == Tok::Punct(Punct::Comma) || t == Tok::Punct(Punct::Semicolon) {
                    Ok((lhs, i))
                } else if !is_operator {
                    Err(unexpected("operator"@, Some(t)))
                } else {
                    let j = i + 1;
                    match spec_postfix_bp(t) {
                        Some(l_bp) => if l_bp < min_bp {
                            Ok((lhs, i))
                        } else {
                            match t {
                                Tok::Punct(Punct::Dot) => match take_ident_at(st, j) {
                                    Err(e) => Err(e),
                                    Ok((f, k)) => parse_loop(
                                        st,
                                        k,
                                        min_bp,
                                        SAst::FieldAccess(Box::new(lhs), f),
                                    ),
                                },
                                Tok::Group(GroupDelim::Paren, g) => {
                                    proof {
                                        assert(decreases_to!(st.toks => st.toks[i]));
                                    }
                                    match parse_comma_sep(g, 0, Seq::empty()) {
                                        Err(e) => Err(e),
                                        Ok(args) => parse_loop(
                                            st,
                                            j,
                                            min_bp,
                                            SAst::FunctionCall(Box::new(lhs), args),
                                        ),
                                    }
                                },
                                Tok::Group(GroupDelim::Bracket, g) => {
                                    proof {
                                        assert(decreases_to!(st.toks => st.toks[i]));
                                    }
                                    match parse_bp(sub_stream(g), 0, 0) {
                                        Err(e) => Err(unwrapped(e)),
                                        Ok((idx, _)) => parse_loop(
                                            st,
                                            j,
                                            min_bp,
                                            SAst::Index(Box::new(lhs), Box::new(idx)),
                                        ),
                                    }
                                },
                                _ => parse_loop(
                                    st,
                                    j,
                                    min_bp,
                                    SAst::PostfixOp(PostfixOp::Factorial, Box::new(lhs)),
                                ),
                            }
                        },
                        None => match spec_infix_bp(t) {
                            Some((l_bp, r_bp)) => if l_bp < min_bp {
                                Ok((lhs, i))
                            } else {
                                match parse_bp(st, j, r_bp) {
                                    Err(e) => Err(e),
                                    Ok((rhs, k)) => if advanced(st, j, k) {
                                        parse_loop(st, k, min_bp, infix_ast(t, lhs, rhs))
                                    } else {
                                        Err(stuck())
                                    },
                                }
                            },
                            None => Ok((lhs, i)),
                        },
                    }
                }
            },
        }
    }
}

/// Expressions separated by commas, from position `i` of a group's tokens,
/// after the expressions `acc` already read.
pub open spec fn parse_comma_sep(g: Seq<Tok>, i: int, acc: Seq<SAst>) -> Result<
    Seq<SAst>,
    SParseError,
>
    decreases g, g.len() - i, 3int,
{
    if !(0 <= i < g.len()) {
        Ok(acc)
    } else {
        match parse_bp(sub_stream(g), i, 0) {
            Err(e) => Err(e),
            Ok((e, k)) => if advanced(sub_stream(g), i, k) {
                if k < g.len() {
                    match g[k] {
                        Tok::Punct(Punct::Comma) => parse_comma_sep(g, k + 1, acc.push(e)),
                        t => Err(unexpected("Comma"@, Some(t))),
                    }
                } else {
                    Ok(acc.push(e))
                }
            } else {
                Err(stuck())
            },
        }
    }
}

/// Expressions separated by semicolons, from position `i` of a group's
/// tokens, after the expressions `acc` already read.  A semicolon after the
/// last expression makes the block return nothing.
pub open spec fn parse_block(g: Seq<Tok>, i: int, acc: Seq<SAst>) -> Result<SBlock, SParseError>
    decreases g, g.len() - i, 3int,
{
    if !(0 <= i < g.len()) {
        Ok(SBlock { exprs: acc, ret: true })
    } else {
        match parse_bp(sub_stream(g), i, 0) {
            Err(e) => Err(e),
            Ok((e, k)) => if advanced(sub_stream(g), i, k) {
                if k < g.len() {
                    match g[k] {
                        Tok::Punct(Punct::Semicolon) => if k + 1 >= g.len() {
                            Ok(SBlock { exprs: acc.push(e), ret: false })
                        } else {
                            parse_block(g, k + 1, acc.push(e))
                        },
                        t => Err(SParseError::UnexpectedToken("Comma"@, t)),
                    }
                } else {
                    Ok(SBlock { exprs: acc.push(e), ret: true })
                }
            } else {
                Err(stuck())
            },
        }
    }
}


/// Whether an executable token read `r` is the spec read `s`.
pub open spec fn read_matches(r: Result<Option<TokenTree>, ParseError>, s: Result<Option<Tok>, SParseError>) -> bool {
    match (r, s) {
        (Ok(Some(t)), Ok(Some(u))) => t@ == u,
        (Ok(None), Ok(None)) => true,
        (Err(e), Err(f)) => e@ == f,
        _ => false,
    }
}

/// Whether an executable parse result `r`, with the parser left at
/// position `k`, is the spec parse result `s`.
pub open spec fn parsed(r: Result<Ast, ParseError>, s: Result<(SAst, int), SParseError>, k: int) -> bool {
    match s {
        Ok((a, m)) => r matches Ok(x) && x@ == a && k == m,
        Err(e) => r matches Err(x) && x@ == e,
    }
}

/// A parse error that names what was expected and what was found instead.
fn unexpected_error(expected: &str, actual: Option<TokenTree>) -> (r: ParseError)
    ensures
        r@ == unexpected(expected@, match actual {
            Some(t) => Some(t@),
            None => None,
        }),
{
    match actual {
        Some(actual) => ParseError::UnexpectedToken { expected: expected.to_owned(), actual },
        None => ParseError::UnexpectedEof { expected: expected.to_owned() },
    }
}

impl ParseError {
    /// A parse error that names what was expected and what was found
    /// instead: a token, or the end of the input.
    pub fn unexpected(expected: String, actual: Option<TokenTree>) -> (r: Self)
        ensures
            r@ == unexpected(expected@, match actual {
                Some(t) => Some(t@),
                None => None,
            }),
    {
        match actual {
            Some(actual) => ParseError::UnexpectedToken { expected, actual },
            None => ParseError::UnexpectedEof { expected },
        }
    }
}

/// A parser over a stream of token trees, read either from a lexer as
/// parsing needs them or from a list of tokens.
pub struct Parser {
    lexer: Option<Lexer>,
    /// The tokens read so far.
    buffer: Vec<TokenTree>,
    /// The position of the next token in the stream.
    pos: usize,
    /// The lexing failure that ended the stream, once it was met.
    failed: Option<LexError>,
    st: Ghost<Stream>,
}

impl Parser {
    /// The whole stream this parser reads from.
    pub closed spec fn stream(self) -> Stream {
        self.st@
    }

    /// The position of the next token to read.
    pub closed spec fn index(self) -> int {
        self.pos as int
    }

    /// The tokens read so far agree with the stream, and the rest of the
    /// stream is what the lexer still yields.
    pub closed spec fn wf(self) -> bool {
        &&& self.pos <= self.buffer.len() <= self.st@.toks.len()
        &&& toks_view(self.buffer@) == self.st@.toks.take(self.buffer.len() as int)
        &&& match self.failed {
            Some(x) => self.buffer.len() == self.st@.toks.len() && self.st@.tail == Some(x),
            None => match self.lexer {
                Some(l) => l.stream() == (Stream {
                    toks: self.st@.toks.skip(self.buffer.len() as int),
                    tail: self.st@.tail,
                }),
                None => self.buffer.len() == self.st@.toks.len() && self.st@.tail is None,
            },
        }
    }

    /// A parser over the tokens that `lexer` yields.
    pub fn new(lexer: Lexer) -> (r: Self)
        ensures
            r.wf(),
            r.stream() == lexer.stream(),
            r.index() == 0,
    {
        let ghost st = lexer.stream();
        let r = Parser { lexer: Some(lexer), buffer: Vec::new(), pos: 0, failed: None, st: Ghost(st) };
        assert(toks_view(r.buffer@) =~= st.toks.take(0));
        assert(st.toks.skip(0) =~= st.toks);
        r
    }

    /// A parser over a list of tokens.
    pub fn from_tokens(tokens: Vec<TokenTree>) -> (r: Self)
        ensures
            r.wf(),
            r.stream() == (Stream { toks: toks_view(tokens@), tail: None }),
            r.index() == 0,
    {
        proof {
            lemma_toks_view(tokens@);
        }
        let ghost st = Stream { toks: toks_view(tokens@), tail: None };
        let r = Parser { lexer: None, buffer: tokens, pos: 0, failed: None, st: Ghost(st) };
        assert(st.toks.take(tokens@.len() as int) =~= st.toks);
        r
    }

    /// Reads one more token from the lexer when the next one is not read
    /// yet.  `Ok(true)` when a next token exists.
    fn fill(&mut self) -> (r: Result<bool, ParseError>)
        requires
            old(self).wf(),
        ensures
            final(self).wf(),
            final(self).stream() == old(self).stream(),
            final(self).index() == old(self).index(),
            match peek(old(self).stream(), old(self).index()) {
                Ok(Some(_)) => r == Ok::<bool, ParseError>(true) && final(self).index() < final(self).buffer.len(),
                Ok(None) => r == Ok::<bool, ParseError>(false),
                Err(e) => r matches Err(x) && x@ == e,
            },
    {
        let ghost st = self.st@;
        if self.pos < self.buffer.len() {
            return Ok(true);
        }
        if let Some(x) = self.failed {
            return Err(ParseError::Panic(ParsePanic::Lex(x)));
        }
        let b = self.buffer.len();
        match self.lexer.take() {
            None => Ok(false),
            Some(mut l) => {
                proof {
                    crate::lexer::lemma_lex_advances(l.text(), l.pos());
                }
                let ghost s = l.text();
                let ghost p = l.pos();
                let res = l.next_token();
                match res {
                    Ok(Some(t)) => {
                        proof {
                            assert(st.toks.skip(b as int)[0] == t@);
                            assert(st.toks.skip(b as int + 1) =~= st.toks.skip(b as int).skip(1));
                            assert(l.stream() =~= (Stream {
                                toks: st.toks.skip(b as int + 1),
                                tail: st.tail,
                            }));
                            assert(toks_view(self.buffer@.push(t)) =~= toks_view(self.buffer@).push(t@)) by {
                                assert(self.buffer@.push(t).subrange(0, b as int) =~= self.buffer@);
                            }
                            assert(st.toks.take(b as int + 1) =~= st.toks.take(b as int).push(t@));
                        }
                        self.buffer.push(t);
                        self.lexer = Some(l);
                        Ok(true)
                    },
                    Ok(None) => {
                        proof {
                            assert(st.toks.skip(b as int).len() == 0);
                        }
                        self.lexer = Some(l);
                        Ok(false)
                    },
                    Err(x) => {
                        proof {
                            assert(st.toks.skip(b as int).len() == 0);
                        }
                        self.failed = Some(x);
                        Err(ParseError::Panic(ParsePanic::Lex(x)))
                    },
                }
            },
        }
    }

    proof fn lemma_current(self)
        requires
            self.wf(),
            self.pos < self.buffer.len(),
        ensures
            self.buffer@[self.pos as int]@ == self.st@.toks[self.pos as int],
    {
        lemma_toks_view(self.buffer@);
        assert(self.st@.toks.take(self.buffer.len() as int)[self.pos as int] == self.st@.toks[self.pos as int]);
    }

    /// The next token, without moving past it.
    pub fn peek_token(&mut self) -> (r: Result<Option<TokenTree>, ParseError>)
        requires
            old(self).wf(),
        ensures
            final(self).wf(),
            final(self).stream() == old(self).stream(),
            final(self).index() == old(self).index(),
            read_matches(r, peek(old(self).stream(), old(self).index())),
    {
        let more = self.fill()?;
        if more {
            proof {
                self.lemma_current();
            }
            Ok(Some(self.buffer[self.pos].duplicate()))
        } else {
            Ok(None)
        }
    }

    /// The next token, moving past it.
    pub fn next_token(&mut self) -> (r: Result<Option<TokenTree>, ParseError>)
        requires
            old(self).wf(),
        ensures
            final(self).wf(),
            final(self).stream() == old(self).stream(),
            final(self).index() == (if r matches Ok(Some(_)) {
                old(self).index() + 1
            } else {
                old(self).index()
            }),
            read_matches(r, peek(old(self).stream(), old(self).index())),
    {
        let more = self.fill()?;
        if more {
            proof {
                self.lemma_current();
            }
            let t = self.buffer[self.pos].duplicate();
            self.pos = self.pos + 1;
            Ok(Some(t))
        } else {
            Ok(None)
        }
    }

    /// Moves past a token that `peek_token` has shown to exist.
    fn advance(&mut self)
        requires
            old(self).wf(),
            old(self).index() < old(self).stream().toks.len(),
        ensures
            final(self).wf(),
            final(self).stream() == old(self).stream(),
            final(self).index() == old(self).index() + 1,
    {
        let _ = self.fill();
        self.pos = self.pos + 1;
    }

    /// An identifier.
    pub fn take_ident(&mut self) -> (r: Result<String, ParseError>)
        requires
            old(self).wf(),
        ensures
            final(self).wf(),
            final(self).stream() == old(self).stream(),
            match take_ident_at(old(self).stream(), old(self).index()) {
                Ok((d, k)) => r matches Ok(x) && x@ == d && final(self).index() == k,
                Err(e) => r matches Err(x) && x@ == e,
            },
    {
        match self.next_token()? {
            Some(TokenTree::Ident(d)) => Ok(d),
            tok => Err(unexpected_error("identifier", tok)),
        }
    }

    /// The token `tt`.
    pub fn take_token(&mut self, tt: &TokenTree) -> (r: Result<(), ParseError>)
        requires
            old(self).wf(),
        ensures
            final(self).wf(),
            final(self).stream() == old(self).stream(),
            match take_token_at(old(self).stream(), old(self).index(), tt@) {
                Ok(k) => r is Ok && final(self).index() == k,
                Err(e) => r matches Err(x) && x@ == e,
            },
    {
        match self.next_token()? {
            Some(tok) => {
                if tok.same_as(tt) {
                    Ok(())
                } else {
                    Err(ParseError::UnexpectedToken { expected: tt.debug_text(), actual: tok })
                }
            },
            None => Err(ParseError::UnexpectedEof { expected: tt.debug_text() }),
        }
    }

    /// The binding power to the right of a prefix operator.
    pub fn prefix_bp(op: &TokenTree) -> (r: Option<((), u8)>)
        ensures
            r == (match spec_prefix_bp(op@) {
                Some(b) => Some(((), b)),
                None => None,
            }),
    {
        match op {
            TokenTree::Punct(Punct::Plus) => Some(((), 5)),
            TokenTree::Punct(Punct::Minus) => Some(((), 5)),
            _ => None,
        }
    }

    /// The binding powers to the left and right of an infix operator.
    pub fn infix_bp(op: &TokenTree) -> (r: Option<(u8, u8)>)
        ensures
            r == spec_infix_bp(op@),
    {
        match op {
            TokenTree::Punct(Punct::Eq) => Some((0, 1)),
            TokenTree::Punct(Punct::EqEq) => Some((2, 3)),
            TokenTree::Punct(Punct::Lt) => Some((2, 3)),
            TokenTree::Punct(Punct::Lte) => Some((2, 3)),
            TokenTree::Punct(Punct::Gte) => Some((2, 3)),
            TokenTree::Punct(Punct::Gt) => Some((2, 3)),
            TokenTree::Punct(Punct::DotDot) => Some((4, 5)),
            TokenTree::Punct(Punct::DotDotEq) => Some((4, 5)),
            TokenTree::Punct(Punct::Plus) => Some((6, 7)),
            TokenTree::Punct(Punct::Minus) => Some((6, 7)),
            TokenTree::Punct(Punct::Star) => Some((8, 9)),
            TokenTree::Punct(Punct::Slash) => Some((8, 9)),
            _ => None,
        }
    }

    /// The binding power to the left of a postfix operator.
    pub fn postfix_bp(op: &TokenTree) -> (r: Option<(u8, ())>)
        ensures
            r == (match spec_postfix_bp(op@) {
                Some(b) => Some((b, ())),
                None => None,
            }),
    {
        match op {
            TokenTree::Punct(Punct::Bang) => Some((7, ())),
            TokenTree::Punct(Punct::Dot) => Some((7, ())),
            TokenTree::Group { delim: GroupDelim::Paren, .. } => Some((7, ())),
            TokenTree::Group { delim: GroupDelim::Bracket, .. } => Some((7, ())),
            _ => None,
        }
    }

    /// The tokens of a group in braces, which must come next.
    fn brace_group(&mut self) -> (r: Result<Vec<TokenTree>, ParseError>)
        requires
            old(self).wf(),
        ensures
            final(self).wf(),
            final(self).stream() == old(self).stream(),
            match brace_group(old(self).stream(), old(self).index()) {
                Ok(g) => r matches Ok(v) && toks_view(v@) == g && final(self).index() == old(
                    self,
                ).index() + 1,
                Err(e) => r matches Err(x) && x@ == e,
            },
    {
        match self.next_token()? {
            Some(TokenTree::Group { delim: GroupDelim::Brace, tokens }) => Ok(tokens),
            tok => Err(unexpected_error("Block", tok)),
        }
    }

    /// After `for var`: `in`, or `, index in`.
    fn for_index(&mut self) -> (r: Result<Option<String>, ParseError>)
        requires
            old(self).wf(),
        ensures
            final(self).wf(),
            final(self).stream() == old(self).stream(),
            match for_index(old(self).stream(), old(self).index()) {
                Ok((ix, k)) => r matches Ok(x) && final(self).index() == k && match x {
                    Some(n) => ix == Some(n@),
                    None => ix is None,
                },
                Err(e) => r matches Err(x) && x@ == e,
            },
    {
        match self.next_token()? {
            Some(TokenTree::Keyword(Keyword::In)) => Ok(None),
            Some(TokenTree::Punct(Punct::Comma)) => {
                let ident = self.take_ident()?;
                self.take_token(&TokenTree::Keyword(Keyword::In))?;
                Ok(Some(ident))
            },
            tok => Err(unexpected_error("'in' or Comma", tok)),
        }
    }

    /// The parameter names of a lambda, from the tokens in its parentheses.
    pub fn parse_params(tokens: Vec<TokenTree>) -> (r: Result<Vec<String>, ParseError>)
        ensures
            match parse_params(toks_view(tokens@), 0, Seq::empty()) {
                Ok(names) => r matches Ok(v) && names_view(v@) == names,
                Err(e) => r matches Err(x) && x@ == e,
            },
    {
        let ghost g = toks_view(tokens@);
        let mut args: Vec<String> = Vec::new();
        let mut parser = Parser::from_tokens(tokens);
        assert(names_view(args@) =~= Seq::<Seq<char>>::empty());
        loop
            invariant
                parser.wf(),
                parser.stream() == sub_stream(g),
                g == toks_view(tokens@),
                0 <= parser.index() <= g.len(),
                parse_params(g, 0, Seq::empty()) == parse_params(g, parser.index(), names_view(args@)),
            decreases g.len() - parser.index(),
        {
            let more = parser.fill()?;
            if !more {
                return Ok(args);
            }
            let ident = parser.take_ident()?;
            let ghost before = args@;
            args.push(ident);
            assert(names_view(args@) =~= names_view(before).push(ident@));
            match parser.next_token()? {
                Some(TokenTree::Punct(Punct::Comma)) => {},
                Some(tok) => {
                    return Err(unexpected_error("Comma", Some(tok)));
                },
                None => {
                    return Ok(args);
                },
            }
        }
    }

    /// Expressions separated by commas, from the tokens of a group.
    pub fn parse_comma_sep_exprs(tokens: Vec<TokenTree>) -> (r: Result<Vec<Ast>, ParseError>)
        ensures
            match parse_comma_sep(toks_view(tokens@), 0, Seq::empty()) {
                Ok(items) => r matches Ok(v) && asts_view(v@) == items,
                Err(e) => r matches Err(x) && x@ == e,
            },
        decreases toks_view(tokens@), toks_view(tokens@).len(), 3int,
    {
        let ghost g = toks_view(tokens@);
        let mut exprs: Vec<Ast> = Vec::new();
        let mut parser = Parser::from_tokens(tokens);
        proof {
            lemma_asts_view(exprs@);
        }
        loop
            invariant
                parser.wf(),
                parser.stream() == sub_stream(g),
                g == toks_view(tokens@),
                0 <= parser.index() <= g.len(),
                parse_comma_sep(g, 0, Seq::empty()) == parse_comma_sep(
                    g,
                    parser.index(),
                    asts_view(exprs@),
                ),
            decreases g.len() - parser.index(),
        {
            let more = parser.fill()?;
            if !more {
                return Ok(exprs);
            }
            let e = parser.parse_bp(0)?;
            proof {
                lemma_asts_view_push(exprs@, e);
            }
            exprs.push(e);
            match parser.next_token()? {
                Some(TokenTree::Punct(Punct::Comma)) => {},
                Some(tok) => {
                    return Err(unexpected_error("Comma", Some(tok)));
                },
                None => {
                    return Ok(exprs);
                },
            }
        }
    }

    /// Expressions separated by semicolons, from the tokens of a group in
    /// braces.  A semicolon after the last expression makes the block
    /// return nothing.
    pub fn parse_block(tokens: Vec<TokenTree>) -> (r: Result<Block, ParseError>)
        ensures
            match parse_block(toks_view(tokens@), 0, Seq::empty()) {
                Ok(b) => r matches Ok(x) && x@ == b,
                Err(e) => r matches Err(x) && x@ == e,
            },
        decreases toks_view(tokens@), toks_view(tokens@).len(), 3int,
    {
        let ghost g = toks_view(tokens@);
        let mut exprs: Vec<Ast> = Vec::new();
        let mut parser = Parser::from_tokens(tokens);
        let mut ret = true;
        proof {
            lemma_asts_view(exprs@);
        }
        loop
            invariant
                parser.wf(),
                parser.stream() == sub_stream(g),
                g == toks_view(tokens@),
                0 <= parser.index() <= g.len(),
                ret,
                parse_block(g, 0, Seq::empty()) == parse_block(
                    g,
                    parser.index(),
                    asts_view(exprs@),
                ),
            decreases g.len() - parser.index(),
        {
            let more = parser.fill()?;
            if !more {
                return Ok(Block { exprs, ret });
            }
            let e = parser.parse_bp(0)?;
            proof {
                lemma_asts_view_push(exprs@, e);
            }
            exprs.push(e);
            match parser.next_token()? {
                Some(TokenTree::Punct(Punct::Semicolon)) => {
                    // if we get a semicolon as the last token, then we don't return a value
                    let more = parser.fill()?;
                    if !more {
                        ret = false;
                        return Ok(Block { exprs, ret });
                    }
                },
                Some(tok) => {
                    return Err(ParseError::UnexpectedToken { expected: "Comma".to_owned(), actual: tok });
                },
                None => {
                    return Ok(Block { exprs, ret });
                },
            }
        }
    }

    /// The operators after an expression `lhs`: postfix and infix
    /// operators whose left binding power is at least `min_bp`, applied
    /// from left to right.
    pub fn parse_loop(&mut self, min_bp: u8, lhs: Ast) -> (r: Result<Ast, ParseError>)
        requires
            old(self).wf(),
        ensures
            final(self).wf(),
            final(self).stream() == old(self).stream(),
            parsed(r, parse_loop(old(self).stream(), old(self).index(), min_bp, lhs@), final(self).index()),
            r is Ok ==> old(self).index() <= final(self).index(),
        decreases old(self).stream().toks, old(self).stream().toks.len() - old(self).index(), 1int,
    {
        let ghost st = self.st@;
        let ghost i0 = self.pos as int;
        let ghost lhs0 = lhs@;
        let mut cur = lhs;
        loop
            invariant
                self.wf(),
                self.stream() == st,
                i0 <= self.index() <= st.toks.len(),
                i0 == old(self).index(),
                st == old(self).stream(),
                lhs0 == lhs@,
                parse_loop(st, i0, min_bp, lhs0) == parse_loop(st, self.index(), min_bp, cur@),
            decreases st.toks.len() - self.index(),
        {
            let ghost i = self.pos as int;
            let more = self.fill()?;
            if !more {
                return Ok(cur);
            }
            proof {
                self.lemma_current();
            }
            let (sep, is_op, post, inf) = {
                let t = &self.buffer[self.pos];
                let sep = match t {
                    TokenTree::Punct(Punct::Comma) => true,
                    TokenTree::Punct(Punct::Semicolon) => true,
                    _ => false,
                };
                let is_op = match t {
                    TokenTree::Punct(p) => p.is_op(),
                    TokenTree::Group { .. } => true,
                    _ => false,
                };
                (sep, is_op, Parser::postfix_bp(t), Parser::infix_bp(t))
            };
            if sep {
                return Ok(cur);
            }
            if !is_op {
                let t = self.buffer[self.pos].duplicate();
                return Err(unexpected_error("operator", Some(t)));
            }
            match post {
                Some((l_bp, ())) => {
                    if l_bp < min_bp {
                        return Ok(cur);
                    }
                    let op = self.buffer[self.pos].duplicate();
                    self.pos = self.pos + 1;
                    match op {
                        TokenTree::Punct(Punct::Dot) => {
                            let ident = self.take_ident()?;
                            cur = Ast::FieldAccess { value: Box::new(cur), field: ident };
                        },
                        TokenTree::Group { delim: GroupDelim::Paren, tokens } => {
                            proof {
                                assert(decreases_to!(st.toks => st.toks[i]));
                            }
                            let args = Parser::parse_comma_sep_exprs(tokens)?;
                            cur = Ast::FunctionCall { fun: Box::new(cur), args };
                        },
                        TokenTree::Group { delim: GroupDelim::Bracket, tokens } => {
                            proof {
                                assert(decreases_to!(st.toks => st.toks[i]));
                            }
                            let mut parser = Parser::from_tokens(tokens);
                            let idx = match parser.parse_bp(0) {
                                Ok(idx) => idx,
                                Err(e) => {
                                    return Err(unwrapped_error(e));
                                },
                            };
                            cur = Ast::Index { arr: Box::new(cur), idx: Box::new(idx) };
                        },
                        _ => {
                            cur = Ast::PostfixOp { op: PostfixOp::Factorial, operand: Box::new(cur) };
                        },
                    }
                },
                None => match inf {
                    Some((l_bp, r_bp)) => {
                        if l_bp < min_bp {
                            return Ok(cur);
                        }
                        let op = self.buffer[self.pos].duplicate();
                        self.pos = self.pos + 1;
                        let rhs = self.parse_bp(r_bp)?;
                        cur = infix_ast_of(op, cur, rhs);
                    },
                    None => {
                        return Ok(cur);
                    },
                },
            }
        }
    }

    /// An expression of binding power at least `min_bp`.
    pub fn parse_bp(&mut self, min_bp: u8) -> (r: Result<Ast, ParseError>)
        requires
            old(self).wf(),
        ensures
            final(self).wf(),
            final(self).stream() == old(self).stream(),
            parsed(r, parse_bp(old(self).stream(), old(self).index(), min_bp), final(self).index()),
            r is Ok ==> old(self).index() < final(self).index(),
        decreases old(self).stream().toks, old(self).stream().toks.len() - old(self).index(), 2int,
    {
        let ghost st = self.st@;
        let ghost i = self.pos as int;
        let t = match self.next_token()? {
            Some(t) => t,
            None => {
                return Err(unexpected_error("token", None));
            },
        };
        proof {
            assert(decreases_to!(st.toks => st.toks[i]));
        }
        match t {
            TokenTree::Group { delim: GroupDelim::Paren, tokens } => self.parse_paren(min_bp, tokens),
            TokenTree::Group { delim: GroupDelim::Bracket, tokens } => {
                let exprs = Parser::parse_comma_sep_exprs(tokens)?;
                self.parse_loop(min_bp, Ast::ArrayLit(exprs))
            },
            TokenTree::Group { delim: GroupDelim::Brace, tokens } => {
                let block = Parser::parse_block(tokens)?;
                self.parse_loop(min_bp, Ast::Block(block))
            },
            TokenTree::Keyword(Keyword::Let) => self.parse_let(),
            TokenTree::Keyword(Keyword::If) => self.parse_if(min_bp),
            TokenTree::Keyword(Keyword::While) => self.parse_while(min_bp),
            TokenTree::Keyword(Keyword::For) => self.parse_for(min_bp),
            TokenTree::IntLit(n) => self.parse_loop(min_bp, Ast::Atom(TokenTree::IntLit(n))),
            TokenTree::Ident(d) => self.parse_loop(min_bp, Ast::Atom(TokenTree::Ident(d))),
            TokenTree::Keyword(Keyword::True) => self.parse_loop(
                min_bp,
                Ast::Atom(TokenTree::Keyword(Keyword::True)),
            ),
            TokenTree::Keyword(Keyword::False) => self.parse_loop(
                min_bp,
                Ast::Atom(TokenTree::Keyword(Keyword::False)),
            ),
            tok => self.parse_prefix(min_bp, tok),
        }
    }

    /// After a group in parentheses: a lambda or an expression in parentheses.
    fn parse_paren(&mut self, min_bp: u8, tokens: Vec<TokenTree>) -> (r: Result<Ast, ParseError>)
        requires
            old(self).wf(),
            0 < old(self).index() <= old(self).stream().toks.len(),
            old(self).stream().toks[old(self).index() - 1] == Tok::Group(
                GroupDelim::Paren,
                toks_view(tokens@),
            ),
        ensures
            final(self).wf(),
            final(self).stream() == old(self).stream(),
            parsed(
                r,
                parse_paren(old(self).stream(), old(self).index() - 1, min_bp),
                final(self).index(),
            ),
            r is Ok ==> old(self).index() <= final(self).index(),
        decreases old(self).stream().toks, old(self).stream().toks.len() - old(self).index() + 1,
            1int,
    {
        let ghost st = self.st@;
        let ghost i = self.pos - 1;
        proof {
            assert(decreases_to!(st.toks => st.toks[i]));
        }
        let nxt = self.peek_token()?;
        let is_arrow = match nxt {
            Some(TokenTree::Punct(Punct::FatArrow)) => true,
            _ => false,
        };
        if is_arrow {
            self.advance();
            let args = Parser::parse_params(tokens)?;
            let body = self.parse_bp(0)?;
            let ghost bv = body@;
            let block = match body {
                Ast::Block(block) => block,
                e => {
                    let exprs = vec![e];
                    proof {
                        lemma_asts_view(exprs@);
                        assert(asts_view(exprs@) =~= seq![e@]);
                    }
                    Block { exprs, ret: true }
                },
            };
            assert(block@ == body_block(bv));
            let lam = Ast::LambdaLit { args, block };
            assert(lam@ == SAst::LambdaLit(names_view(args@), body_block(bv)));
            self.parse_loop(min_bp, lam)
        } else {
            let mut parser = Parser::from_tokens(tokens);
            let e = parser.parse_bp(0)?;
            self.parse_loop(min_bp, e)
        }
    }

    /// After `let`: `let name;` or `let name = value`.
    fn parse_let(&mut self) -> (r: Result<Ast, ParseError>)
        requires
            old(self).wf(),
            0 < old(self).index() <= old(self).stream().toks.len(),
        ensures
            final(self).wf(),
            final(self).stream() == old(self).stream(),
            parsed(r, parse_let(old(self).stream(), old(self).index() - 1), final(self).index()),
            r is Ok ==> old(self).index() <= final(self).index(),
        decreases old(self).stream().toks, old(self).stream().toks.len() - old(self).index() + 1,
            1int,
    {
        let v = self.take_ident()?;
        match self.peek_token()? {
            Some(TokenTree::Punct(Punct::Semicolon)) => Ok(Ast::Declare { var: v, val: None }),
            Some(TokenTree::Punct(Punct::Eq)) => {
                self.advance();
                let expr = self.parse_bp(0)?;
                Ok(Ast::Declare { var: v, val: Some(Box::new(expr)) })
            },
            tok => Err(unexpected_error("semicolon or eq", tok)),
        }
    }

    /// After `if`: a condition, a block, and an optional `else` block.
    fn parse_if(&mut self, min_bp: u8) -> (r: Result<Ast, ParseError>)
        requires
            old(self).wf(),
            0 < old(self).index() <= old(self).stream().toks.len(),
        ensures
            final(self).wf(),
            final(self).stream() == old(self).stream(),
            parsed(r, parse_if(old(self).stream(), old(self).index() - 1, min_bp), final(self).index()),
            r is Ok ==> old(self).index() <= final(self).index(),
        decreases old(self).stream().toks, old(self).stream().toks.len() - old(self).index() + 1,
            1int,
    {
        let ghost st = self.st@;
        let cond = match self.parse_bp(0) {
            Ok(cond) => cond,
            Err(e) => {
                return Err(unwrapped_error(e));
            },
        };
        let ghost k = self.pos as int;
        let body_tokens = self.brace_group()?;
        proof {
            assert(decreases_to!(st.toks => st.toks[k]));
        }
        let body = Parser::parse_block(body_tokens)?;
        let elze = match self.peek_token()? {
            Some(TokenTree::Keyword(Keyword::Else)) => {
                self.advance();
                let ghost m = self.pos as int;
                let else_tokens = self.brace_group()?;
                proof {
                    assert(decreases_to!(st.toks => st.toks[m]));
                }
                Some(Parser::parse_block(else_tokens)?)
            },
            _ => None,
        };
        self.parse_loop(min_bp, Ast::If { cond: Box::new(cond), body, elze })
    }

    /// After `while`: a condition and a block.
    fn parse_while(&mut self, min_bp: u8) -> (r: Result<Ast, ParseError>)
        requires
            old(self).wf(),
            0 < old(self).index() <= old(self).stream().toks.len(),
        ensures
            final(self).wf(),
            final(self).stream() == old(self).stream(),
            parsed(r, parse_while(old(self).stream(), old(self).index() - 1, min_bp), final(self).index()),
            r is Ok ==> old(self).index() <= final(self).index(),
        decreases old(self).stream().toks, old(self).stream().toks.len() - old(self).index() + 1,
            1int,
    {
        let ghost st = self.st@;
        let cond = match self.parse_bp(0) {
            Ok(cond) => cond,
            Err(e) => {
                return Err(unwrapped_error(e));
            },
        };
        let ghost k = self.pos as int;
        let body_tokens = self.brace_group()?;
        proof {
            assert(decreases_to!(st.toks => st.toks[k]));
        }
        let body = Parser::parse_block(body_tokens)?;
        self.parse_loop(min_bp, Ast::While { cond: Box::new(cond), body })
    }

    /// After `for`: a name, an optional index name, `in`, what to iterate
    /// over, and a block.
    fn parse_for(&mut self, min_bp: u8) -> (r: Result<Ast, ParseError>)
        requires
            old(self).wf(),
            0 < old(self).index() <= old(self).stream().toks.len(),
        ensures
            final(self).wf(),
            final(self).stream() == old(self).stream(),
            parsed(r, parse_for(old(self).stream(), old(self).index() - 1, min_bp), final(self).index()),
            r is Ok ==> old(self).index() <= final(self).index(),
        decreases old(self).stream().toks, old(self).stream().toks.len() - old(self).index() + 1,
            1int,
    {
        let ghost st = self.st@;
        let var = self.take_ident()?;
        let index = self.for_index()?;
        let array = self.parse_bp(0)?;
        let ghost k = self.pos as int;
        let body_tokens = self.brace_group()?;
        proof {
            assert(decreases_to!(st.toks => st.toks[k]));
        }
        let body = Parser::parse_block(body_tokens)?;
        self.parse_loop(min_bp, Ast::For { var, index, array: Box::new(array), body })
    }

    /// A prefix operator `tok`, just read, and its operand.
    fn parse_prefix(&mut self, min_bp: u8, tok: TokenTree) -> (r: Result<Ast, ParseError>)
        requires
            old(self).wf(),
            0 < old(self).index() <= old(self).stream().toks.len(),
            old(self).stream().toks[old(self).index() - 1] == tok@,
        ensures
            final(self).wf(),
            final(self).stream() == old(self).stream(),
            parsed(
                r,
                parse_prefix(old(self).stream(), old(self).index() - 1, min_bp),
                final(self).index(),
            ),
            r is Ok ==> old(self).index() <= final(self).index(),
        decreases old(self).stream().toks, old(self).stream().toks.len() - old(self).index() + 1,
            1int,
    {
        match Parser::prefix_bp(&tok) {
            Some(((), r_bp)) => {
                let rhs = self.parse_bp(r_bp)?;
                match tok {
                    TokenTree::Punct(Punct::Minus) => self.parse_loop(
                        min_bp,
                        Ast::PrefixOp { op: PrefixOp::Neg, operand: Box::new(rhs) },
                    ),
                    _ => Err(ParseError::Panic(ParsePanic::UnaryPlus)),
                }
            },
            None => Err(unexpected_error("expression", Some(tok))),
        }
    }

    /// An expression.
    pub fn parse_expr(&mut self) -> (r: Result<Ast, ParseError>)
        requires
            old(self).wf(),
        ensures
            final(self).wf(),
            final(self).stream() == old(self).stream(),
            parsed(r, parse_bp(old(self).stream(), old(self).index(), 0), final(self).index()),
            r is Ok ==> old(self).index() < final(self).index(),
    {
        self.parse_bp(0)
    }

    /// Skips the semicolons that stand at the current position.  A failure
    /// of the lexer stops the skipping; the next read reports it.
    pub fn skip_semicolons(&mut self)
        requires
            old(self).wf(),
        ensures
            final(self).wf(),
            final(self).stream() == old(self).stream(),
            final(self).index() == skip_semicolons_at(old(self).stream(), old(self).index()),
    {
        loop
            invariant
                self.wf(),
                self.stream() == old(self).stream(),
                skip_semicolons_at(self.stream(), self.index()) == skip_semicolons_at(
                    old(self).stream(),
                    old(self).index(),
                ),
                self.index() <= self.stream().toks.len(),
            decreases self.stream().toks.len() - self.index(),
        {
            let next = self.peek_token();
            match next {
                Ok(Some(TokenTree::Punct(Punct::Semicolon))) => {
                    let _ = self.next_token();
                },
                _ => {
                    return;
                },
            }
        }
    }
} // impl Parser

/// The error of a `.unwrap()` on a nested parse that failed with `e`.
fn unwrapped_error(e: ParseError) -> (r: ParseError)
    ensures
        r@ == unwrapped(e@),
{
    match e {
        ParseError::Panic(p) => ParseError::Panic(p),
        e => ParseError::Panic(ParsePanic::Unwrapped(Box::new(e))),
    }
}

/// The expression an infix operator token builds from two operands.
fn infix_ast_of(op: TokenTree, lhs: Ast, rhs: Ast) -> (r: Ast)
    ensures
        r@ == infix_ast(op@, lhs@, rhs@),
{
    match op {
        TokenTree::Punct(Punct::DotDot) => Ast::Range {
            range: Box::new((lhs, rhs)),
            close_end: false,
        },
        TokenTree::Punct(Punct::DotDotEq) => Ast::Range {
            range: Box::new((lhs, rhs)),
            close_end: true,
        },
        op => {
            let o = match op {
                TokenTree::Punct(Punct::Plus) => InfixOp::Add,
                TokenTree::Punct(Punct::Minus) => InfixOp::Sub,
                TokenTree::Punct(Punct::Star) => InfixOp::Mul,
                TokenTree::Punct(Punct::Slash) => InfixOp::Div,
                TokenTree::Punct(Punct::Eq) => InfixOp::Assign,
                TokenTree::Punct(Punct::EqEq) => InfixOp::Equality,
                TokenTree::Punct(Punct::Lt) => InfixOp::Cmp(Cmp::Less),
                TokenTree::Punct(Punct::Lte) => InfixOp::Cmp(Cmp::LessOrEq),
                TokenTree::Punct(Punct::Gte) => InfixOp::Cmp(Cmp::GreaterOrEq),
                _ => InfixOp::Cmp(Cmp::Greater),
            };
            Ast::BinOp { op: o, operands: Box::new((lhs, rhs)) }
        },
    }
}


/// A token that is an expression on its own: a number, a name, `true` or `false`.
pub open spec fn is_atom(t: Tok) -> bool {
    ||| t is IntLit
    ||| t is Ident
    ||| t == Tok::Keyword(Keyword::True)
    ||| t == Tok::Keyword(Keyword::False)
}

/// The left binding power of an infix operator.
pub open spec fn left_bp(o: Tok) -> u8 {
    spec_infix_bp(o).unwrap().0
}

/// Precedence and associativity: in `a o1 b o2 c`, with three atoms and two
/// infix operators, `o2` takes `b` as its left operand exactly when it
/// binds tighter than `o1`; otherwise `o1` applies first.  In particular
/// operators of the same precedence group to the left.
pub proof fn law_infix_precedence(a: Tok, o1: Tok, b: Tok, o2: Tok, c: Tok)
    requires
        is_atom(a),
        is_atom(b),
        is_atom(c),
        spec_infix_bp(o1) is Some,
        spec_infix_bp(o2) is Some,
    ensures
        parse_bp(Stream { toks: seq![a, o1, b, o2, c], tail: None }, 0, 0) == Ok::<
            (SAst, int),
            SParseError,
        >(
            (
                if left_bp(o2) > left_bp(o1) {
                    infix_ast(o1, SAst::Atom(a), infix_ast(o2, SAst::Atom(b), SAst::Atom(c)))
                } else {
                    infix_ast(o2, infix_ast(o1, SAst::Atom(a), SAst::Atom(b)), SAst::Atom(c))
                },
                5,
            ),
        ),
{
    let st = Stream { toks: seq![a, o1, b, o2, c], tail: None };
    let (l1, r1) = spec_infix_bp(o1).unwrap();
    let (l2, r2) = spec_infix_bp(o2).unwrap();
    assert(r1 == l1 + 1 && r2 == l2 + 1);
    let (aa, ba, ca) = (SAst::Atom(a), SAst::Atom(b), SAst::Atom(c));
    // the last operand, and nothing after it
    assert(parse_loop(st, 5, r2, ca) == Ok::<(SAst, int), SParseError>((ca, 5)));
    assert(parse_bp(st, 4, r2) == Ok::<(SAst, int), SParseError>((ca, 5)));
    assert(parse_loop(st, 5, r1, ca) == Ok::<(SAst, int), SParseError>((ca, 5)));
    assert(parse_bp(st, 4, r1) == Ok::<(SAst, int), SParseError>((ca, 5)));
    if l2 > l1 {
        let bc = infix_ast(o2, ba, ca);
        assert(parse_loop(st, 5, r1, bc) == Ok::<(SAst, int), SParseError>((bc, 5)));
        assert(parse_loop(st, 3, r1, ba) == Ok::<(SAst, int), SParseError>((bc, 5)));
        assert(parse_bp(st, 2, r1) == Ok::<(SAst, int), SParseError>((bc, 5)));
        let abc = infix_ast(o1, aa, bc);
        assert(parse_loop(st, 5, 0, abc) == Ok::<(SAst, int), SParseError>((abc, 5)));
        assert(parse_loop(st, 1, 0, aa) == Ok::<(SAst, int), SParseError>((abc, 5)));
    } else {
        assert(parse_loop(st, 3, r1, ba) == Ok::<(SAst, int), SParseError>((ba, 3)));
        assert(parse_bp(st, 2, r1) == Ok::<(SAst, int), SParseError>((ba, 3)));
        let ab = infix_ast(o1, aa, ba);
        let abc = infix_ast(o2, ab, ca);
        assert(parse_loop(st, 5, 0, abc) == Ok::<(SAst, int), SParseError>((abc, 5)));
        assert(parse_loop(st, 3, 0, ab) == Ok::<(SAst, int), SParseError>((abc, 5)));
        assert(parse_loop(st, 1, 0, aa) == Ok::<(SAst, int), SParseError>((abc, 5)));
    }
}

/// How tightly an infix operator binds, from the loosest to the tightest:
/// assignment; `==` and the comparisons; the ranges; `+` and `-`; `*` and
/// `/`.  Other punctuation is no infix operator.
pub open spec fn precedence_level(o: Punct) -> int {
    match o {
        Punct::Eq => 0,
        Punct::EqEq | Punct::Lt | Punct::Lte | Punct::Gt | Punct::Gte => 1,
        Punct::DotDot | Punct::DotDotEq => 2,
        Punct::Plus | Punct::Minus => 3,
        Punct::Star | Punct::Slash => 4,
        _ => -1,
    }
}

/// The expression that the infix operator `o` forms from `l` and `r`.
pub open spec fn operator_node(o: Punct, l: SAst, r: SAst) -> SAst {
    let (lb, rb) = (Box::new(l), Box::new(r));
    match o {
        Punct::Plus => SAst::BinOp(InfixOp::Add, lb, rb),
        Punct::Minus => SAst::BinOp(InfixOp::Sub, lb, rb),
        Punct::Star => SAst::BinOp(InfixOp::Mul, lb, rb),
        Punct::Slash => SAst::BinOp(InfixOp::Div, lb, rb),
        Punct::Eq => SAst::BinOp(InfixOp::Assign, lb, rb),
        Punct::EqEq => SAst::BinOp(InfixOp::Equality, lb, rb),
        Punct::Lt => SAst::BinOp(InfixOp::Cmp(Cmp::Less), lb, rb),
        Punct::Lte => SAst::BinOp(InfixOp::Cmp(Cmp::LessOrEq), lb, rb),
        Punct::Gt => SAst::BinOp(InfixOp::Cmp(Cmp::Greater), lb, rb),
        Punct::Gte => SAst::BinOp(InfixOp::Cmp(Cmp::GreaterOrEq), lb, rb),
        Punct::DotDot => SAst::Range(lb, rb, false),
        Punct::DotDotEq => SAst::Range(lb, rb, true),
        _ => l,
    }
}

/// The table of infix operators: in `a o1 b o2 c`, with three atoms,
/// `o2` applies first exactly when its precedence level is above that of
/// `o1`; otherwise `o1` applies first.  So `2 == 1 + 1` is `2 == (1 + 1)`,
/// `1 + 2 * 3` is `1 + (2 * 3)`, `x = 1 < 2` assigns the comparison, and
/// `1 - 2 - 3` is `(1 - 2) - 3`.
pub proof fn law_operator_table(a: Tok, o1: Punct, b: Tok, o2: Punct, c: Tok)
    requires
        is_atom(a),
        is_atom(b),
        is_atom(c),
        precedence_level(o1) >= 0,
        precedence_level(o2) >= 0,
    ensures
        parse_bp(
            Stream { toks: seq![a, Tok::Punct(o1), b, Tok::Punct(o2), c], tail: None },
            0,
            0,
        ) == Ok::<(SAst, int), SParseError>(
            (
                if precedence_level(o2) > precedence_level(o1) {
                    operator_node(o1, SAst::Atom(a), operator_node(o2, SAst::Atom(b), SAst::Atom(c)))
                } else {
                    operator_node(o2, operator_node(o1, SAst::Atom(a), SAst::Atom(b)), SAst::Atom(c))
                },
                5,
            ),
        ),
{
    law_infix_precedence(a, Tok::Punct(o1), b, Tok::Punct(o2), c);
    assert((left_bp(Tok::Punct(o2)) > left_bp(Tok::Punct(o1))) == (precedence_level(o2) > precedence_level(o1)));
    assert forall|o: Punct, l: SAst, r: SAst| precedence_level(o) >= 0 implies #[trigger] infix_ast(Tok::Punct(o), l, r)
        == operator_node(o, l, r) by {}
}

} // verus!
