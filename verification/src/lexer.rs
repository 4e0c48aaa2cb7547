//! The lexer: turns source text into a stream of token trees.
//!
//! The meaning of lexing is given by the spec functions `lex_token` and
//! `lex_group` over the characters of the text and a position in it; the
//! executable `Lexer` is proved to follow them step by step.

use vstd::prelude::*;

use crate::text::{chars_of, digit_char, int_text, nat_digits, string_from_chars};
use crate::token::{keyword_of, GroupDelim, Keyword, Punct, Tok, TokenTree, toks_view};

verus! {

/// Why lexing stopped: the text holds something the language does not know.
#[derive(Debug, Clone, Copy, PartialEq, Eq, Structural)]
pub enum LexError {
    /// A character that starts no token.
    UnexpectedChar(char),
    /// A group was opened and the text ended inside a nested construct
    /// that was still open.
    UnclosedBlock,
    /// An integer literal that does not fit in a `u32`.
    NumberTooLarge,
}

/// `char::is_whitespace`: the Unicode `White_Space` property.
pub open spec fn is_white(c: char) -> bool {
    ||| '\u{9}' <= c <= '\u{d}'
    ||| c == ' '
    ||| c == '\u{85}'
    ||| c == '\u{a0}'
    ||| c == '\u{1680}'
    ||| '\u{2000}' <= c <= '\u{200a}'
    ||| c == '\u{2028}'
    ||| c == '\u{2029}'
    ||| c == '\u{202f}'
    ||| c == '\u{205f}'
    ||| c == '\u{3000}'
}

/// A character that may start an identifier or keyword.
pub open spec fn is_ident_start(c: char) -> bool {
    ||| 'a' <= c <= 'z'
    ||| 'A' <= c <= 'Z'
    ||| c == '_'
}

/// An ASCII decimal digit.
pub open spec fn is_digit(c: char) -> bool {
    '0' <= c <= '9'
}

/// A character that may continue an identifier or keyword.
pub open spec fn is_ident_char(c: char) -> bool {
    is_ident_start(c) || is_digit(c)
}

/// A character of a line comment, which runs up to the next newline.
pub open spec fn is_comment_char(c: char) -> bool {
    c != '\n'
}

/// The first position at or after `p` whose character does not satisfy
/// `pred`, or the end of the text.
pub open spec fn span(s: Seq<char>, p: int, pred: spec_fn(char) -> bool) -> int
    decreases s.len() - p,
{
    if 0 <= p < s.len() && pred(s[p]) {
        span(s, p + 1, pred)
    } else {
        p
    }
}

/// The position of the first character at or after `p` that is not white space.
pub open spec fn skip_ws(s: Seq<char>, p: int) -> int {
    span(s, p, |c: char| is_white(c))
}

/// The value of a sequence of decimal digits.
pub open spec fn digits_value(d: Seq<char>) -> nat
    decreases d.len(),
{
    if d.len() == 0 {
        0
    } else {
        digits_value(d.drop_last()) * 10 + ((d.last() as nat) - ('0' as nat)) as nat
    }
}

/// One step of lexing: a token and the position after it, the end of the
/// text, or a failure.
pub enum LexStep {
    Token(Tok, int),
    End,
    Fail(LexError),
}

/// The contents of a group up to its closing bracket and the position after
/// that bracket, the end of the text before the bracket, or a failure.
pub enum GroupStep {
    Closed(Seq<Tok>, int),
    End,
    Fail(LexError),
}

/// A single punctuation token of one character at `q`.
pub open spec fn punct_at(p: Punct, q: int) -> LexStep {
    LexStep::Token(Tok::Punct(p), q + 1)
}

/// A group token opened at `q` by a bracket of kind `delim`.
pub open spec fn group_token(delim: GroupDelim, g: GroupStep) -> LexStep {
    match g {
        GroupStep::Closed(ts, e) => LexStep::Token(Tok::Group(delim, ts), e),
        GroupStep::End => LexStep::End,
        GroupStep::Fail(x) => LexStep::Fail(x),
    }
}

/// The next token of `s` from position `p`: white space is skipped, `//`
/// starts a comment that runs to the end of the line, brackets open groups.
pub open spec fn lex_token(s: Seq<char>, p: int) -> LexStep
    decreases s.len() - p, 0int,
{
    if !(0 <= p <= s.len()) {
        LexStep::End
    } else {
        let q = skip_ws(s, p);
        proof {
            lemma_span_bounds(s, p, |c: char| is_white(c));
        }
        if q >= s.len() {
            LexStep::End
        } else {
            let c = s[q];
            let nxt: Option<char> = if q + 1 < s.len() { Some(s[q + 1]) } else { None };
            if is_ident_start(c) {
                let e = span(s, q, |c: char| is_ident_char(c));
                let w = s.subrange(q, e);
                match keyword_of(w) {
                    Some(k) => LexStep::Token(Tok::Keyword(k), e),
                    None => LexStep::Token(Tok::Ident(w), e),
                }
            } else if c == '+' {
                punct_at(Punct::Plus, q)
            } else if c == '-' {
                punct_at(Punct::Minus, q)
            } else if c == '*' {
                punct_at(Punct::Star, q)
            } else if c == '/' {
                if nxt == Some('/') {
                    proof {
                        lemma_span_bounds(s, q + 1, |c: char| is_comment_char(c));
                    }
                    lex_token(s, span(s, q + 1, |c: char| is_comment_char(c)))
                } else {
                    punct_at(Punct::Slash, q)
                }
            } else if c == '!' {
                punct_at(Punct::Bang, q)
            } else if c == ',' {
                punct_at(Punct::Comma, q)
            } else if c == '<' {
                if nxt == Some('=') {
                    LexStep::Token(Tok::Punct(Punct::Lte), q + 2)
                } else {
                    punct_at(Punct::Lt, q)
                }
            } else if c == '>' {
                if nxt == Some('=') {
                    LexStep::Token(Tok::Punct(Punct::Gte), q + 2)
                } else {
                    punct_at(Punct::Gt, q)
                }
            } else if c == '=' {
                if nxt == Some('=') {
                    LexStep::Token(Tok::Punct(Punct::EqEq), q + 2)
                } else if nxt == Some('>') {
                    LexStep::Token(Tok::Punct(Punct::FatArrow), q + 2)
                } else {
                    punct_at(Punct::Eq, q)
                }
            } else if c == ';' {
                punct_at(Punct::Semicolon, q)
            } else if c == '.' {
                if nxt == Some('.') {
                    if q + 2 < s.len() && s[q + 2] == '=' {
                        LexStep::Token(Tok::Punct(Punct::DotDotEq), q + 3)
                    } else {
                        LexStep::Token(Tok::Punct(Punct::DotDot), q + 2)
                    }
                } else {
                    punct_at(Punct::Dot, q)
                }
            } else if c == '(' {
                group_token(GroupDelim::Paren, lex_group(s, q + 1, ')', Seq::empty()))
            } else if c == '[' {
                group_token(GroupDelim::Bracket, lex_group(s, q + 1, ']', Seq::empty()))
            } else if c == '{' {
                group_token(GroupDelim::Brace, lex_group(s, q + 1, '}', Seq::empty()))
            } else if is_digit(c) {
                let e = span(s, q, |c: char| is_digit(c));
                let v = digits_value(s.subrange(q, e));
                if v > u32::MAX {
                    LexStep::Fail(LexError::NumberTooLarge)
                } else {
                    LexStep::Token(Tok::IntLit(v as u32), e)
                }
            } else {
                LexStep::Fail(LexError::UnexpectedChar(c))
            }
        }
    }
}

/// The tokens of a group from position `p` up to its closing bracket
/// `close`, after the tokens `acc` already read.  Only the innermost open
/// group may end with the text: a group that ends inside a nested open
/// construct is an error.
pub open spec fn lex_group(s: Seq<char>, p: int, close: char, acc: Seq<Tok>) -> GroupStep
    decreases s.len() - p, 1int,
{
    if !(0 <= p <= s.len()) {
        GroupStep::End
    } else {
        let q = skip_ws(s, p);
        proof {
            lemma_span_bounds(s, p, |c: char| is_white(c));
        }
        if q >= s.len() {
            GroupStep::End
        } else if s[q] == close {
            GroupStep::Closed(acc, q + 1)
        } else {
            match lex_token(s, q) {
                LexStep::Token(t, r) => {
                    // `lemma_lex_advances` shows that `r` is always past `q`.
                    if q < r <= s.len() {
                        lex_group(s, r, close, acc.push(t))
                    } else {
                        GroupStep::End
                    }
                },
                LexStep::End => GroupStep::Fail(LexError::UnclosedBlock),
                LexStep::Fail(x) => GroupStep::Fail(x),
            }
        }
    }
}

/// The stream of tokens that a lexer yields: the tokens, and the failure
/// that ends them, if lexing fails before the end of the text.
#[verifier::ext_equal]
pub struct Stream {
    pub toks: Seq<Tok>,
    pub tail: Option<LexError>,
}

/// All tokens of `s` from position `p` on.
pub open spec fn lex_stream(s: Seq<char>, p: int) -> Stream
    decreases s.len() - p,
{
    match lex_token(s, p) {
        LexStep::Token(t, r) => {
            // `lemma_lex_advances` shows that `r` is always past `p`.
            if p < r <= s.len() {
                let rest = lex_stream(s, r);
                Stream { toks: seq![t] + rest.toks, tail: rest.tail }
            } else {
                Stream { toks: Seq::empty(), tail: None }
            }
        },
        LexStep::End => Stream { toks: Seq::empty(), tail: None },
        LexStep::Fail(x) => Stream { toks: Seq::empty(), tail: Some(x) },
    }
}

pub proof fn lemma_span_bounds(s: Seq<char>, p: int, pred: spec_fn(char) -> bool)
    requires
        0 <= p <= s.len(),
    ensures
        p <= span(s, p, pred) <= s.len(),
        forall|j: int| p <= j < span(s, p, pred) ==> pred(#[trigger] s[j]),
        span(s, p, pred) < s.len() ==> !pred(s[span(s, p, pred)]),
    decreases s.len() - p,
{
    if p < s.len() && pred(s[p]) {
        lemma_span_bounds(s, p + 1, pred);
    }
}

/// A lexing step moved `d` positions further on.
pub open spec fn shift_step(st: LexStep, d: int) -> LexStep {
    match st {
        LexStep::Token(t, e) => LexStep::Token(t, e + d),
        other => other,
    }
}

/// A group step moved `d` positions further on.
pub open spec fn shift_group(g: GroupStep, d: int) -> GroupStep {
    match g {
        GroupStep::Closed(ts, e) => GroupStep::Closed(ts, e + d),
        other => other,
    }
}

/// A span in a text with a prefix is the span in the text, moved past the
/// prefix.
pub proof fn lemma_span_shift(pre: Seq<char>, s: Seq<char>, p: int, pred: spec_fn(char) -> bool)
    requires
        0 <= p <= s.len(),
    ensures
        span(pre + s, pre.len() + p, pred) == pre.len() + span(s, p, pred),
    decreases s.len() - p,
{
    let t = pre + s;
    if p < s.len() {
        assert(t[pre.len() + p] == s[p]);
        if pred(s[p]) {
            lemma_span_shift(pre, s, p + 1, pred);
        }
    }
}

/// Lexing never looks back: a token read from a text with a prefix is the
/// token read from the text, with its end moved past the prefix.
pub proof fn lemma_lex_shift(pre: Seq<char>, s: Seq<char>, p: int)
    requires
        0 <= p <= s.len(),
    ensures
        lex_token(pre + s, pre.len() + p) == shift_step(lex_token(s, p), pre.len() as int),
    decreases s.len() - p, 0int,
{
    let t = pre + s;
    let d = pre.len() as int;
    lemma_span_shift(pre, s, p, |c: char| is_white(c));
    lemma_span_bounds(s, p, |c: char| is_white(c));
    let q = skip_ws(s, p);
    assert(skip_ws(t, d + p) == d + q);
    if q < s.len() {
        assert(t[d + q] == s[q]);
        if q + 1 < s.len() {
            assert(t[d + q + 1] == s[q + 1]);
        }
        if q + 2 < s.len() {
            assert(t[d + q + 2] == s[q + 2]);
        }
        let c = s[q];
        if is_ident_start(c) {
            lemma_span_shift(pre, s, q, |c: char| is_ident_char(c));
            lemma_span_bounds(s, q, |c: char| is_ident_char(c));
            let e = span(s, q, |c: char| is_ident_char(c));
            assert(t.subrange(d + q, d + e) =~= s.subrange(q, e));
        } else if c == '/' && q + 1 < s.len() && s[q + 1] == '/' {
            lemma_span_shift(pre, s, q + 1, |c: char| is_comment_char(c));
            lemma_span_bounds(s, q + 1, |c: char| is_comment_char(c));
            lemma_lex_shift(pre, s, span(s, q + 1, |c: char| is_comment_char(c)));
        } else if c == '(' {
            lemma_group_shift(pre, s, q + 1, ')', Seq::empty());
        } else if c == '[' {
            lemma_group_shift(pre, s, q + 1, ']', Seq::empty());
        } else if c == '{' {
            lemma_group_shift(pre, s, q + 1, '}', Seq::empty());
        } else if is_digit(c) {
            lemma_span_shift(pre, s, q, |c: char| is_digit(c));
            lemma_span_bounds(s, q, |c: char| is_digit(c));
            let e = span(s, q, |c: char| is_digit(c));
            assert(t.subrange(d + q, d + e) =~= s.subrange(q, e));
        }
    }
}

/// The group form of `lemma_lex_shift`.
pub proof fn lemma_group_shift(pre: Seq<char>, s: Seq<char>, p: int, close: char, acc: Seq<Tok>)
    requires
        0 <= p <= s.len(),
    ensures
        lex_group(pre + s, pre.len() + p, close, acc) == shift_group(
            lex_group(s, p, close, acc),
            pre.len() as int,
        ),
    decreases s.len() - p, 1int,
{
    let t = pre + s;
    let d = pre.len() as int;
    lemma_span_shift(pre, s, p, |c: char| is_white(c));
    lemma_span_bounds(s, p, |c: char| is_white(c));
    let q = skip_ws(s, p);
    if q < s.len() {
        assert(t[d + q] == s[q]);
        if s[q] != close {
            lemma_lex_shift(pre, s, q);
            if let LexStep::Token(tk, r) = lex_token(s, q) {
                if q < r <= s.len() {
                    lemma_group_shift(pre, s, r, close, acc.push(tk));
                }
            }
        }
    }
}

/// White space at the start of a text only moves the lexer's position: the
/// first token is the one the text without it gives, ending as many
/// positions further on as there were white space characters.
pub proof fn law_leading_whitespace(w: Seq<char>, s: Seq<char>)
    requires
        forall|i: int| 0 <= i < w.len() ==> is_white(#[trigger] w[i]),
    ensures
        lex_token(w + s, 0) == shift_step(lex_token(s, 0), w.len() as int),
        pos_after(lex_token(w + s, 0), (w + s).len() as int) == w.len() + pos_after(
            lex_token(s, 0),
            s.len() as int,
        ),
{
    let t = w + s;
    lemma_skip_white_prefix(w, s, 0);
    assert(skip_ws(t, 0) == skip_ws(t, w.len() as int));
    assert(lex_token(t, 0) == lex_token(t, w.len() as int));
    lemma_lex_shift(w, s, 0);
}

/// Skipping white space from anywhere in a white space prefix ends where
/// skipping from the end of the prefix does.
proof fn lemma_skip_white_prefix(w: Seq<char>, s: Seq<char>, k: int)
    requires
        0 <= k <= w.len(),
        forall|i: int| 0 <= i < w.len() ==> is_white(#[trigger] w[i]),
    ensures
        span(w + s, k, |c: char| is_white(c)) == span(w + s, w.len() as int, |c: char| is_white(c)),
    decreases w.len() - k,
{
    if k < w.len() {
        assert((w + s)[k] == w[k]);
        lemma_skip_white_prefix(w, s, k + 1);
    }
}

/// An ASCII letter, digit or underscore.
pub open spec fn is_word_char(c: char) -> bool {
    ||| 'a' <= c <= 'z'
    ||| 'A' <= c <= 'Z'
    ||| '0' <= c <= '9'
    ||| c == '_'
}

proof fn lemma_word_span(w: Seq<char>, rest: Seq<char>, k: int)
    requires
        0 <= k <= w.len(),
        forall|i: int| 0 <= i < w.len() ==> is_word_char(#[trigger] w[i]),
        rest.len() > 0 ==> !is_word_char(rest[0]),
    ensures
        span(w + rest, k, |c: char| is_ident_char(c)) == w.len(),
    decreases w.len() - k,
{
    let t = w + rest;
    if k < w.len() {
        assert(t[k] == w[k]);
        lemma_word_span(w, rest, k + 1);
    } else if rest.len() > 0 {
        assert(t[k] == rest[0]);
    }
}

/// Identifiers: a word that starts with a letter or underscore, goes on
/// with letters, digits or underscores, and is no keyword, lexes as one
/// identifier that covers the whole word, when the text goes on with
/// anything that cannot continue it.  So `x1` is one identifier.
pub proof fn law_identifier(w: Seq<char>, rest: Seq<char>)
    requires
        w.len() > 0,
        'a' <= w[0] <= 'z' || 'A' <= w[0] <= 'Z' || w[0] == '_',
        forall|i: int| 0 <= i < w.len() ==> is_word_char(#[trigger] w[i]),
        rest.len() > 0 ==> !is_word_char(rest[0]),
        keyword_of(w) is None,
    ensures
        lex_token(w + rest, 0) == LexStep::Token(Tok::Ident(w), w.len() as int),
{
    let t = w + rest;
    assert(t[0] == w[0]);
    assert(span(t, 0, |c: char| is_white(c)) == 0);
    lemma_word_span(w, rest, 0);
    assert(t.subrange(0, w.len() as int) =~= w);
}

/// The value of a decimal digit character.
proof fn lemma_digit_char_value(d: nat)
    requires
        d < 10,
    ensures
        '0' <= digit_char(d) <= '9',
        (digit_char(d) as nat) - ('0' as nat) == d,
{
    assert(((48 + d) as u8) == 48 + d);
    assert(((48 + d) as u8) as char as nat == 48 + d);
}

/// Decimal text: the digits that render a natural number are ASCII digits,
/// with no leading zero, and read back as that number.
pub proof fn law_decimal_digits(n: nat)
    ensures
        forall|i: int| 0 <= i < nat_digits(n).len() ==> '0' <= #[trigger] nat_digits(n)[i] <= '9',
        nat_digits(n).len() > 0,
        nat_digits(n)[0] == '0' ==> n == 0,
        digits_value(nat_digits(n)) == n,
    decreases n,
{
    lemma_digit_char_value(n % 10);
    if n >= 10 {
        law_decimal_digits(n / 10);
        let d = nat_digits(n / 10);
        let t = d.push(digit_char(n % 10));
        assert(t.drop_last() =~= d);
        assert(t[0] == d[0]);
        assert(t.last() == digit_char(n % 10));
        assert(digits_value(t) == digits_value(d) * 10 + (n % 10));
        assert(n == (n / 10) * 10 + n % 10);
        assert(nat_digits(n) == t);
    } else {
        let t = seq![digit_char(n)];
        assert(t.drop_last() =~= Seq::<char>::empty());
        assert(digits_value(Seq::<char>::empty()) == 0);
        assert(t.last() == digit_char(n));
        assert(digits_value(t) == n);
        assert(nat_digits(n) == t);
    }
}

/// The text of an integer: its decimal digits read back as its magnitude,
/// after a `-` exactly when it is negative.
pub proof fn law_int_text(n: int)
    ensures
        n >= 0 ==> int_text(n) == nat_digits(n as nat) && digits_value(int_text(n)) == n,
        n < 0 ==> int_text(n)[0] == '-' && digits_value(int_text(n).skip(1)) == -n,
        forall|i: int| (n >= 0 && 0 <= i < int_text(n).len()) || (n < 0 && 1 <= i < int_text(n).len())
            ==> '0' <= #[trigger] int_text(n)[i] <= '9',
{
    if n >= 0 {
        law_decimal_digits(n as nat);
    } else {
        law_decimal_digits((-n) as nat);
        assert(int_text(n).skip(1) =~= nat_digits((-n) as nat));
        assert forall|i: int| 1 <= i < int_text(n).len() implies '0' <= #[trigger] int_text(n)[i] <= '9' by {
            assert(int_text(n)[i] == nat_digits((-n) as nat)[i - 1]);
        }
    }
}

/// Reading more digits never makes a number smaller.
pub proof fn lemma_digits_value_grows(s: Seq<char>, a: int, b: int, c: int)
    requires
        0 <= a <= b <= c <= s.len(),
    ensures
        digits_value(s.subrange(a, b)) <= digits_value(s.subrange(a, c)),
    decreases c - b,
{
    if b < c {
        lemma_digits_value_grows(s, a, b, c - 1);
        assert(s.subrange(a, c).drop_last() =~= s.subrange(a, c - 1));
    }
}

/// A token always ends past the position lexing started from, and a group
/// past the position its contents start from.
pub proof fn lemma_lex_advances(s: Seq<char>, p: int)
    ensures
        lex_token(s, p) matches LexStep::Token(_, r) ==> p < r <= s.len(),
    decreases s.len() - p, 0int,
{
    if 0 <= p <= s.len() {
        let q = skip_ws(s, p);
        lemma_span_bounds(s, p, |c: char| is_white(c));
        if q < s.len() {
            let c = s[q];
            if is_ident_start(c) {
                lemma_span_bounds(s, q, |c: char| is_ident_char(c));
            } else if is_digit(c) {
                lemma_span_bounds(s, q, |c: char| is_digit(c));
            } else if c == '/' && q + 1 < s.len() && s[q + 1] == '/' {
                lemma_span_bounds(s, q + 1, |c: char| is_comment_char(c));
                lemma_lex_advances(s, span(s, q + 1, |c: char| is_comment_char(c)));
            } else if c == '(' {
                lemma_group_advances(s, q + 1, ')', Seq::empty());
            } else if c == '[' {
                lemma_group_advances(s, q + 1, ']', Seq::empty());
            } else if c == '{' {
                lemma_group_advances(s, q + 1, '}', Seq::empty());
            }
        }
    }
}

pub proof fn lemma_group_advances(s: Seq<char>, p: int, close: char, acc: Seq<Tok>)
    ensures
        lex_group(s, p, close, acc) matches GroupStep::Closed(_, e) ==> p < e <= s.len(),
    decreases s.len() - p, 1int,
{
    if 0 <= p <= s.len() {
        let q = skip_ws(s, p);
        lemma_span_bounds(s, p, |c: char| is_white(c));
        if q < s.len() && s[q] != close {
            lemma_lex_advances(s, q);
            if let LexStep::Token(t, r) = lex_token(s, q) {
                lemma_group_advances(s, r, close, acc.push(t));
            }
        }
    }
}

/// `char::is_whitespace`.
pub fn is_whitespace_char(c: char) -> (r: bool)
    ensures
        r == is_white(c),
{
    ('\u{9}' <= c && c <= '\u{d}') || c == ' ' || c == '\u{85}' || c == '\u{a0}' || c == '\u{1680}'
        || ('\u{2000}' <= c && c <= '\u{200a}') || c == '\u{2028}' || c == '\u{2029}' || c
        == '\u{202f}' || c == '\u{205f}' || c == '\u{3000}'
}

fn is_ident_start_char(c: char) -> (r: bool)
    ensures
        r == is_ident_start(c),
{
    ('a' <= c && c <= 'z') || ('A' <= c && c <= 'Z') || c == '_'
}

fn is_digit_char(c: char) -> (r: bool)
    ensures
        r == is_digit(c),
{
    '0' <= c && c <= '9'
}

fn is_ident_char_(c: char) -> (r: bool)
    ensures
        r == is_ident_char(c),
{
    is_ident_start_char(c) || is_digit_char(c)
}

/// A lexer over a text: the characters of the text and the position of the
/// next character to read.
pub struct Lexer {
    content: Vec<char>,
    position: usize,
}

/// Whether the executable result `r` of a lexing step is the step `st`.
pub open spec fn token_result(r: Result<Option<TokenTree>, LexError>, st: LexStep) -> bool {
    match st {
        LexStep::Token(t, _) => r matches Ok(Some(tt)) && tt@ == t,
        LexStep::End => r == Ok::<Option<TokenTree>, LexError>(None),
        LexStep::Fail(x) => r == Err::<Option<TokenTree>, LexError>(x),
    }
}

/// The position a lexer is left at after the step `st`: past the token, or
/// at the end of the text when lexing ended or failed.
pub open spec fn pos_after(st: LexStep, len: int) -> int {
    match st {
        LexStep::Token(_, e) => e,
        _ => len,
    }
}

impl Lexer {
    #[verifier::type_invariant]
    spec fn inv(self) -> bool {
        self.position <= self.content.len()
    }

    /// The characters of the text.
    pub closed spec fn text(self) -> Seq<char> {
        self.content@
    }

    /// The position of the next character to read.
    pub closed spec fn pos(self) -> int {
        self.position as int
    }

    /// Whether the position lies within the text.
    pub open spec fn in_bounds(self) -> bool {
        0 <= self.pos() <= self.text().len()
    }

    /// The tokens this lexer yields from its current position on.
    pub open spec fn stream(self) -> Stream {
        lex_stream(self.text(), self.pos())
    }

    /// A lexer at the start of `content`.
    pub fn new(content: &str) -> (r: Self)
        ensures
            r.in_bounds(),
            r.text() == content@,
            r.pos() == 0,
    {
        Lexer { content: chars_of(content), position: 0 }
    }

    /// Moves past the white space at the current position.
    pub fn skip_whitespace(&mut self)
        ensures
            old(self).in_bounds(),
            final(self).in_bounds(),
            final(self).text() == old(self).text(),
            final(self).pos() == skip_ws(old(self).text(), old(self).pos()),
    {
        proof {
            use_type_invariant(&*self);
        }
        while self.position < self.content.len() && is_whitespace_char(self.content[self.position])
            invariant
                self.position <= self.content.len(),
                self.content@ == old(self).content@,
                old(self).position <= self.position,
                skip_ws(self.content@, old(self).position as int) == skip_ws(
                    self.content@,
                    self.position as int,
                ),
            decreases self.content.len() - self.position,
        {
            self.position = self.position + 1;
        }
    }

    /// The character at the current position, if any.
    pub fn peek_char(&self) -> (r: Option<char>)
        ensures
            self.in_bounds(),
            r == (if self.pos() < self.text().len() {
                Some(self.text()[self.pos()])
            } else {
                None
            }),
    {
        proof {
            use_type_invariant(self);
        }
        if self.position < self.content.len() {
            Some(self.content[self.position])
        } else {
            None
        }
    }

    /// The character at the current position, if any, moving past it.
    pub fn take_char(&mut self) -> (r: Option<char>)
        ensures
            old(self).in_bounds(),
            final(self).in_bounds(),
            final(self).text() == old(self).text(),
            r == (if old(self).pos() < old(self).text().len() {
                Some(old(self).text()[old(self).pos()])
            } else {
                None
            }),
            final(self).pos() == (if r is Some {
                old(self).pos() + 1
            } else {
                old(self).pos()
            }),
    {
        proof {
            use_type_invariant(&*self);
        }
        if self.position < self.content.len() {
            let c = self.content[self.position];
            self.position = self.position + 1;
            Some(c)
        } else {
            None
        }
    }

    /// Steps back over the character `c` just read.
    pub fn untake_char(&mut self, c: char)
        requires
            0 < old(self).pos(),
            old(self).text()[old(self).pos() - 1] == c,
        ensures
            old(self).in_bounds(),
            final(self).in_bounds(),
            final(self).text() == old(self).text(),
            final(self).pos() == old(self).pos() - 1,
    {
        proof {
            use_type_invariant(&*self);
        }
        self.position = self.position - 1;
    }

    /// Moves to the end of the text.
    fn finish(&mut self)
        ensures
            old(self).in_bounds(),
            final(self).in_bounds(),
            final(self).text() == old(self).text(),
            final(self).pos() == old(self).text().len(),
    {
        proof {
            use_type_invariant(&*self);
        }
        self.position = self.content.len();
    }

    /// Reads an identifier or keyword: the longest run of identifier
    /// characters at the current position.
    pub fn take_ident(&mut self) -> (r: Vec<char>)
        ensures
            old(self).in_bounds(),
            final(self).in_bounds(),
            final(self).text() == old(self).text(),
            final(self).pos() == span(old(self).text(), old(self).pos(), |c: char| is_ident_char(c)),
            r@ == old(self).text().subrange(old(self).pos(), final(self).pos()),
    {
        proof {
            use_type_invariant(&*self);
        }
        let start = self.position;
        let mut word: Vec<char> = Vec::new();
        while self.position < self.content.len() && is_ident_char_(self.content[self.position])
            invariant
                start <= self.position <= self.content.len(),
                self.content@ == old(self).content@,
                start == old(self).position,
                span(self.content@, start as int, |c: char| is_ident_char(c)) == span(
                    self.content@,
                    self.position as int,
                    |c: char| is_ident_char(c),
                ),
                word@ == self.content@.subrange(start as int, self.position as int),
            decreases self.content.len() - self.position,
        {
            word.push(self.content[self.position]);
            self.position = self.position + 1;
            assert(word@ =~= self.content@.subrange(start as int, self.position as int));
        }
        word
    }

    /// Reads an integer literal: the longest run of digits at the current
    /// position, which holds at least one digit.  A value that does not fit
    /// in a `u32` is an error, and leaves the lexer at the end of the text.
    pub fn take_number(&mut self) -> (r: Result<TokenTree, LexError>)
        requires
            old(self).pos() < old(self).text().len(),
            is_digit(old(self).text()[old(self).pos()]),
        ensures
            old(self).in_bounds(),
            final(self).in_bounds(),
            final(self).text() == old(self).text(),
            ({
                let s = old(self).text();
                let e = span(s, old(self).pos(), |c: char| is_digit(c));
                let v = digits_value(s.subrange(old(self).pos(), e));
                if v > u32::MAX {
                    r == Err::<TokenTree, LexError>(LexError::NumberTooLarge) && final(self).pos()
                        == s.len()
                } else {
                    r matches Ok(t) && t@ == Tok::IntLit(v as u32) && final(self).pos() == e
                }
            }),
    {
        proof {
            use_type_invariant(&*self);
        }
        let ghost s = self.content@;
        let start = self.position;
        let mut value: u64 = 0;
        while self.position < self.content.len() && is_digit_char(self.content[self.position])
            invariant
                start <= self.position <= self.content.len(),
                self.content@ == s,
                s == old(self).content@,
                start == old(self).position,
                span(s, start as int, |c: char| is_digit(c)) == span(
                    s,
                    self.position as int,
                    |c: char| is_digit(c),
                ),
                value == digits_value(s.subrange(start as int, self.position as int)),
                value <= u32::MAX,
            decreases self.content.len() - self.position,
        {
            let c = self.content[self.position];
            let d: u64 = (c as u64) - ('0' as u64);
            proof {
                assert(s.subrange(start as int, self.position + 1).drop_last() =~= s.subrange(
                    start as int,
                    self.position as int,
                ));
            }
            value = value * 10 + d;
            self.position = self.position + 1;
            if value > 0xffff_ffff {
                proof {
                    lemma_span_bounds(s, start as int, |c: char| is_digit(c));
                    lemma_span_bounds(s, self.position as int, |c: char| is_digit(c));
                    lemma_digits_value_grows(
                        s,
                        start as int,
                        self.position as int,
                        span(s, start as int, |c: char| is_digit(c)),
                    );
                }
                self.position = self.content.len();
                return Err(LexError::NumberTooLarge);
            }
        }
        proof {
            lemma_span_bounds(s, start as int, |c: char| is_digit(c));
        }
        Ok(TokenTree::IntLit(value as u32))
    }

    /// Reads the tokens of a group up to its closing bracket `end`.  `None`
    /// when the text ends before the bracket.
    pub fn take_group(&mut self, end: char) -> (r: Result<Option<Vec<TokenTree>>, LexError>)
        ensures
            old(self).in_bounds(),
            final(self).in_bounds(),
            final(self).text() == old(self).text(),
            ({
                let g = lex_group(old(self).text(), old(self).pos(), end, Seq::empty());
                match g {
                    GroupStep::Closed(ts, e) => r matches Ok(Some(v)) && toks_view(v@) == ts
                        && final(self).pos() == e,
                    GroupStep::End => r == Ok::<Option<Vec<TokenTree>>, LexError>(None)
                        && final(self).pos() == old(self).text().len(),
                    GroupStep::Fail(x) => r == Err::<Option<Vec<TokenTree>>, LexError>(x)
                        && final(self).pos() == old(self).text().len(),
                }
            }),
        decreases old(self).text().len() - old(self).pos(), 1int,
    {
        proof {
            use_type_invariant(&*self);
        }
        let ghost s = self.content@;
        let ghost p0 = self.position as int;
        let mut out: Vec<TokenTree> = Vec::new();
        loop
            invariant
                self.content@ == s,
                s == old(self).text(),
                p0 == old(self).pos(),
                p0 <= self.position <= s.len(),
                lex_group(s, p0, end, Seq::empty()) == lex_group(
                    s,
                    self.position as int,
                    end,
                    toks_view(out@),
                ),
            decreases s.len() - self.position,
        {
            proof {
                use_type_invariant(&*self);
                lemma_span_bounds(s, self.position as int, |c: char| is_white(c));
            }
            self.skip_whitespace();
            let next = match self.take_char() {
                Some(c) => c,
                None => {
                    return Ok(None);
                },
            };
            if next == end {
                return Ok(Some(out));
            }
            self.untake_char(next);
            let ghost q = self.position as int;
            proof {
                lemma_lex_advances(s, q);
            }
            match self.next_token() {
                Ok(Some(t)) => {
                    proof {
                        assert(toks_view(out@.push(t)) =~= toks_view(out@).push(t@)) by {
                            assert(out@.push(t).subrange(0, out@.len() as int) =~= out@);
                        }
                    }
                    out.push(t);
                },
                Ok(None) => {
                    return Err(LexError::UnclosedBlock);
                },
                Err(x) => {
                    return Err(x);
                },
            }
        }
    }

    /// Reads the next token.  `Ok(None)` when the text holds no more tokens;
    /// on an error the lexer is left at the end of the text.
    pub fn next_token(&mut self) -> (r: Result<Option<TokenTree>, LexError>)
        ensures
            old(self).in_bounds(),
            final(self).in_bounds(),
            final(self).text() == old(self).text(),
            token_result(r, lex_token(old(self).text(), old(self).pos())),
            final(self).pos() == pos_after(
                lex_token(old(self).text(), old(self).pos()),
                old(self).text().len() as int,
            ),
        decreases old(self).text().len() - old(self).pos(), 0int,
    {
        proof {
            use_type_invariant(&*self);
            lemma_span_bounds(self.content@, self.position as int, |c: char| is_white(c));
        }
        let ghost s = self.content@;
        self.skip_whitespace();
        let ghost q = self.position as int;
        let c = match self.take_char() {
            Some(c) => c,
            None => {
                return Ok(None);
            },
        };
        let nxt = self.peek_char();
        let tt = if is_ident_start_char(c) {
            self.untake_char(c);
            proof {
                lemma_span_bounds(s, q, |c: char| is_ident_char(c));
            }
            let word = self.take_ident();
            let ident = string_from_chars(&word);
            match Keyword::from_ident(ident.as_str()) {
                Some(kw) => TokenTree::Keyword(kw),
                None => TokenTree::Ident(ident),
            }
        } else if c == '+' {
            TokenTree::Punct(Punct::Plus)
        } else if c == '-' {
            TokenTree::Punct(Punct::Minus)
        } else if c == '*' {
            TokenTree::Punct(Punct::Star)
        } else if c == '/' {
            if nxt == Some('/') {
                proof {
                    lemma_span_bounds(s, q + 1, |c: char| is_comment_char(c));
                }
                while self.position < self.content.len() && self.content[self.position] != '\n'
                    invariant
                        self.content@ == s,
                        q + 1 <= self.position <= s.len(),
                        span(s, q + 1, |c: char| is_comment_char(c)) == span(
                            s,
                            self.position as int,
                            |c: char| is_comment_char(c),
                        ),
                    decreases s.len() - self.position,
                {
                    self.position = self.position + 1;
                }
                return self.next_token();
            } else {
                TokenTree::Punct(Punct::Slash)
            }
        } else if c == '!' {
            TokenTree::Punct(Punct::Bang)
        } else if c == ',' {
            TokenTree::Punct(Punct::Comma)
        } else if c == '<' {
            if nxt == Some('=') {
                self.take_char();
                TokenTree::Punct(Punct::Lte)
            } else {
                TokenTree::Punct(Punct::Lt)
            }
        } else if c == '>' {
            if nxt == Some('=') {
                self.take_char();
                TokenTree::Punct(Punct::Gte)
            } else {
                TokenTree::Punct(Punct::Gt)
            }
        } else if c == '=' {
            if nxt == Some('=') {
                self.take_char();
                TokenTree::Punct(Punct::EqEq)
            } else if nxt == Some('>') {
                self.take_char();
                TokenTree::Punct(Punct::FatArrow)
            } else {
                TokenTree::Punct(Punct::Eq)
            }
        } else if c == ';' {
            TokenTree::Punct(Punct::Semicolon)
        } else if c == '.' {
            if nxt == Some('.') {
                self.take_char();
                if self.peek_char() == Some('=') {
                    self.take_char();
                    TokenTree::Punct(Punct::DotDotEq)
                } else {
                    TokenTree::Punct(Punct::DotDot)
                }
            } else {
                TokenTree::Punct(Punct::Dot)
            }
        } else if c == '(' || c == '[' || c == '{' {
            let (delim, close) = if c == '(' {
                (GroupDelim::Paren, ')')
            } else if c == '[' {
                (GroupDelim::Bracket, ']')
            } else {
                (GroupDelim::Brace, '}')
            };
            match self.take_group(close) {
                Ok(Some(tokens)) => TokenTree::Group { delim, tokens },
                Ok(None) => {
                    return Ok(None);
                },
                Err(x) => {
                    return Err(x);
                },
            }
        } else if is_digit_char(c) {
            self.untake_char(c);
            match self.take_number() {
                Ok(t) => t,
                Err(x) => {
                    return Err(x);
                },
            }
        } else {
            self.finish();
            return Err(LexError::UnexpectedChar(c));
        };
        Ok(Some(tt))
    }

    /// The next token, for a lexer whose remaining text lexes without error.
    pub fn next(&mut self) -> (r: Option<TokenTree>)
        requires
            !(lex_token(old(self).text(), old(self).pos()) is Fail),
        ensures
            old(self).in_bounds(),
            final(self).in_bounds(),
            final(self).text() == old(self).text(),
            token_result(Ok(r), lex_token(old(self).text(), old(self).pos())),
            final(self).pos() == pos_after(
                lex_token(old(self).text(), old(self).pos()),
                old(self).text().len() as int,
            ),
    {
        match self.next_token() {
            Ok(t) => t,
            Err(_) => None,
        }
    }
} // impl Lexer

} // verus!
