//! Text: conversions between strings and character sequences, decimal
//! numbers, and the `Debug` rendering of tokens.

use vstd::prelude::*;

use crate::token::{GroupDelim, Keyword, Punct, Tok, TokenTree, toks_view, lemma_toks_view};

verus! {

/// The characters of `s`, in order.
pub fn chars_of(s: &str) -> (v: Vec<char>)
    ensures
        v@ == s@,
{
    let mut v: Vec<char> = Vec::new();
    for c in it: s.chars()
        invariant
            v@ == it.seq().take(it.index() as int),
    {
        v.push(c);
    }
    v
}

/// The string made of the characters of `cs`, in order.  It calls std's
/// `FromIterator<char>` for `String`, which is trusted to concatenate the
/// characters it is given and nothing else.
#[verifier::external_body]
pub(crate) fn string_from_chars(cs: &Vec<char>) -> (s: String)
    ensures
        s@ == cs@,
{
    cs.iter().collect()
}

/// What `{:?}` writes for a string: the string in double quotes, with
/// quotes, backslashes and non-printable characters escaped.
pub uninterp spec fn str_debug(s: Seq<char>) -> Seq<char>;

/// The `Debug` rendering of a string: std's `<str as Debug>::fmt`, whose
/// result is named `str_debug`; nothing more is claimed of it.
#[verifier::external_body]
pub(crate) fn debug_of_str(s: &str) -> (r: String)
    ensures
        r@ == str_debug(s@),
{
    format!("{:?}", s)
}

/// The decimal digit character for `d`, which is below 10.
pub open spec fn digit_char(d: nat) -> char {
    ((48 + d) as u8) as char
}

/// The decimal digits of `n`, without leading zeros.
pub open spec fn nat_digits(n: nat) -> Seq<char>
    decreases n,
{
    if n < 10 {
        seq![digit_char(n)]
    } else {
        nat_digits(n / 10).push(digit_char(n % 10))
    }
}

/// The decimal rendering of an integer, with a leading `-` if negative.
pub open spec fn int_text(n: int) -> Seq<char> {
    if n < 0 {
        seq!['-'] + nat_digits((-n) as nat)
    } else {
        nat_digits(n as nat)
    }
}

/// Appends the decimal digits of `n`.
pub fn push_digits(out: &mut Vec<char>, n: u64)
    ensures
        final(out)@ == old(out)@ + nat_digits(n as nat),
    decreases n,
{
    if n >= 10 {
        push_digits(out, n / 10);
    }
    let d: u8 = (n % 10) as u8;
    out.push((48u8 + d) as char);
    proof {
        if n >= 10 {
            assert(nat_digits(n as nat) == nat_digits((n / 10) as nat).push(digit_char((n % 10) as nat)));
        }
    }
    assert(final(out)@ =~= old(out)@ + nat_digits(n as nat));
}

/// Appends the decimal rendering of `n`.
pub fn push_int(out: &mut Vec<char>, n: i64)
    ensures
        final(out)@ == old(out)@ + int_text(n as int),
{
    if n < 0 {
        out.push('-');
        let m: u64 = if n == i64::MIN { 0x8000_0000_0000_0000u64 } else { (-n) as u64 };
        let ghost mid = out@;
        push_digits(out, m);
        assert(out@ =~= old(out)@ + int_text(n as int));
    } else {
        push_digits(out, n as u64);
    }
}

/// Appends the characters of `s`.
pub fn push_str(out: &mut Vec<char>, s: &str)
    ensures
        final(out)@ == old(out)@ + s@,
{
    let cs = chars_of(s);
    let mut i: usize = 0;
    while i < cs.len()
        invariant
            0 <= i <= cs.len(),
            out@ == old(out)@ + cs@.take(i as int),
        decreases cs.len() - i,
    {
        out.push(cs[i]);
        i = i + 1;
        assert(out@ =~= old(out)@ + cs@.take(i as int));
    }
    assert(cs@.take(cs.len() as int) =~= cs@);
}

/// The name of a punctuation token's variant.
pub open spec fn punct_name(p: Punct) -> Seq<char> {
    match p {
        Punct::Plus => "Plus"@,
        Punct::Minus => "Minus"@,
        Punct::Star => "Star"@,
        Punct::Slash => "Slash"@,
        Punct::Bang => "Bang"@,
        Punct::Comma => "Comma"@,
        Punct::Eq => "Eq"@,
        Punct::EqEq => "EqEq"@,
        Punct::Lt => "Lt"@,
        Punct::Lte => "Lte"@,
        Punct::Gt => "Gt"@,
        Punct::Gte => "Gte"@,
        Punct::FatArrow => "FatArrow"@,
        Punct::Semicolon => "Semicolon"@,
        Punct::Dot => "Dot"@,
        Punct::DotDot => "DotDot"@,
        Punct::DotDotEq => "DotDotEq"@,
    }
}

fn punct_name_str(p: Punct) -> (r: &'static str)
    ensures
        r@ == punct_name(p),
{
    match p {
        Punct::Plus => "Plus",
        Punct::Minus => "Minus",
        Punct::Star => "Star",
        Punct::Slash => "Slash",
        Punct::Bang => "Bang",
        Punct::Comma => "Comma",
        Punct::Eq => "Eq",
        Punct::EqEq => "EqEq",
        Punct::Lt => "Lt",
        Punct::Lte => "Lte",
        Punct::Gt => "Gt",
        Punct::Gte => "Gte",
        Punct::FatArrow => "FatArrow",
        Punct::Semicolon => "Semicolon",
        Punct::Dot => "Dot",
        Punct::DotDot => "DotDot",
        Punct::DotDotEq => "DotDotEq",
    }
}

/// The name of a keyword's variant.
pub open spec fn keyword_name(k: Keyword) -> Seq<char> {
    match k {
        Keyword::Let => "Let"@,
        Keyword::True => "True"@,
        Keyword::False => "False"@,
        Keyword::If => "If"@,
        Keyword::Else => "Else"@,
        Keyword::While => "While"@,
        Keyword::For => "For"@,
        Keyword::In => "In"@,
    }
}

fn keyword_name_str(k: Keyword) -> (r: &'static str)
    ensures
        r@ == keyword_name(k),
{
    match k {
        Keyword::Let => "Let",
        Keyword::True => "True",
        Keyword::False => "False",
        Keyword::If => "If",
        Keyword::Else => "Else",
        Keyword::While => "While",
        Keyword::For => "For",
        Keyword::In => "In",
    }
}

/// The name of a bracket kind's variant.
pub open spec fn delim_name(d: GroupDelim) -> Seq<char> {
    match d {
        GroupDelim::Paren => "Paren"@,
        GroupDelim::Bracket => "Bracket"@,
        GroupDelim::Brace => "Brace"@,
    }
}

fn delim_name_str(d: GroupDelim) -> (r: &'static str)
    ensures
        r@ == delim_name(d),
{
    match d {
        GroupDelim::Paren => "Paren",
        GroupDelim::Bracket => "Bracket",
        GroupDelim::Brace => "Brace",
    }
}

/// The derived `Debug` rendering of a token, as `{:?}` writes it.
pub open spec fn tok_debug(t: Tok) -> Seq<char>
    decreases t,
{
    match t {
        Tok::Ident(s) => "Ident("@ + str_debug(s) + ")"@,
        Tok::IntLit(n) => "IntLit("@ + nat_digits(n as nat) + ")"@,
        Tok::Punct(p) => "Punct("@ + punct_name(p) + ")"@,
        Tok::Group(d, ts) => "Group { delim: "@ + delim_name(d) + ", tokens: ["@ + toks_debug(ts)
            + "] }"@,
        Tok::Keyword(k) => "Keyword("@ + keyword_name(k) + ")"@,
    }
}

/// The renderings of a sequence of tokens, separated by `", "`.
pub open spec fn toks_debug(ts: Seq<Tok>) -> Seq<char>
    decreases ts,
{
    if ts.len() == 0 {
        Seq::empty()
    } else if ts.len() == 1 {
        tok_debug(ts[0])
    } else {
        toks_debug(ts.subrange(0, ts.len() - 1)) + ", "@ + tok_debug(ts[ts.len() - 1])
    }
}

/// Appends the `Debug` rendering of a token.
pub fn push_token_debug(out: &mut Vec<char>, t: &TokenTree)
    ensures
        final(out)@ == old(out)@ + tok_debug(t@),
    decreases t,
{
    match t {
        TokenTree::Ident(s) => {
            push_str(out, "Ident(");
            let d = debug_of_str(s.as_str());
            push_str(out, d.as_str());
            push_str(out, ")");
        },
        TokenTree::IntLit(n) => {
            push_str(out, "IntLit(");
            push_digits(out, *n as u64);
            push_str(out, ")");
        },
        TokenTree::Punct(p) => {
            push_str(out, "Punct(");
            push_str(out, punct_name_str(*p));
            push_str(out, ")");
        },
        TokenTree::Group { delim, tokens } => {
            push_str(out, "Group { delim: ");
            push_str(out, delim_name_str(*delim));
            push_str(out, ", tokens: [");
            push_tokens_debug(out, tokens);
            push_str(out, "] }");
        },
        TokenTree::Keyword(k) => {
            push_str(out, "Keyword(");
            push_str(out, keyword_name_str(*k));
            push_str(out, ")");
        },
    }
    assert(final(out)@ =~= old(out)@ + tok_debug(t@));
}

/// Appends the renderings of a sequence of tokens, separated by `", "`.
pub fn push_tokens_debug(out: &mut Vec<char>, ts: &Vec<TokenTree>)
    ensures
        final(out)@ == old(out)@ + toks_debug(toks_view(ts@)),
    decreases ts,
{
    proof {
        lemma_toks_view(ts@);
    }
    let ghost tv = toks_view(ts@);
    let mut i: usize = 0;
    while i < ts.len()
        invariant
            0 <= i <= ts.len(),
            tv == toks_view(ts@),
            tv.len() == ts.len(),
            forall|j: int| 0 <= j < ts.len() ==> #[trigger] tv[j] == ts@[j]@,
            out@ == old(out)@ + toks_debug(tv.take(i as int)),
        decreases ts.len() - i,
    {
        if i > 0 {
            push_str(out, ", ");
        }
        assert(decreases_to!(ts => ts@[i as int]));
        push_token_debug(out, &ts[i]);
        proof {
            let t2 = tv.take(i + 1);
            assert(t2.subrange(0, t2.len() - 1) =~= tv.take(i as int));
            if i == 0 {
                assert(tv.take(0) =~= Seq::<Tok>::empty());
            }
        }
        i = i + 1;
        assert(out@ =~= old(out)@ + toks_debug(tv.take(i as int)));
    }
    assert(tv.take(ts.len() as int) =~= tv);
}

impl TokenTree {
    /// The `Debug` rendering of this token, as `{:?}` writes it.
    pub fn debug_text(&self) -> (r: String)
        ensures
            r@ == tok_debug(self@),
    {
        let mut out: Vec<char> = Vec::new();
        push_token_debug(&mut out, self);
        assert(out@ =~= tok_debug(self@));
        string_from_chars(&out)
    }
}

} // verus!
