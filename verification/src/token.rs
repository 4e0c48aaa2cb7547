//! Tokens produced by the lexer: keywords, punctuation, literals,
//! identifiers and bracketed groups of tokens.

use vstd::prelude::*;

verus! {

/// Reserved words of the language.
#[derive(Debug, Clone, Copy, PartialEq, Eq, Structural)]
pub enum Keyword {
    Let,
    True,
    False,
    If,
    Else,
    While,
    For,
    In,
}

/// Punctuation and operator symbols.
#[derive(Debug, Clone, Copy, PartialEq, Eq, Structural)]
pub enum Punct {
    Plus,
    Minus,
    Star,
    Slash,
    Bang,
    Comma,
    /// `=`
    Eq,
    /// `==`
    EqEq,
    /// `<`
    Lt,
    /// `<=`
    Lte,
    /// `>`
    Gt,
    /// `>=`
    Gte,
    /// `=>`
    FatArrow,
    Semicolon,
    /// `.`
    Dot,
    /// `..`
    DotDot,
    /// `..=`
    DotDotEq,
}

/// The punctuation that may follow an expression as an operator.
pub open spec fn spec_is_op(p: Punct) -> bool {
    !(p == Punct::Comma || p == Punct::Semicolon || p == Punct::FatArrow)
}

impl Punct {
    /// Whether this punctuation may follow an expression as an operator.
    pub fn is_op(&self) -> (r: bool)
        ensures
            r == spec_is_op(*self),
    {
        match self {
            Self::Plus | Self::Minus | Self::Star | Self::Slash | Self::Bang | Self::Eq
            | Self::EqEq | Self::Lt | Self::Lte | Self::Gt | Self::Gte | Self::Dot | Self::DotDot
            | Self::DotDotEq => true,
            Self::Comma | Self::Semicolon | Self::FatArrow => false,
        }
    }
}

/// The bracket that encloses a group of tokens.
#[derive(Debug, Clone, Copy, PartialEq, Eq, Structural)]
pub enum GroupDelim {
    /// `()`
    Paren,
    /// `[]`
    Bracket,
    /// `{}`
    Brace,
}

/// A token, where a bracketed group is a single token holding its contents.
#[derive(Debug, PartialEq, Eq)]
pub enum TokenTree {
    Ident(String),
    IntLit(u32),
    Punct(Punct),
    Group { delim: GroupDelim, tokens: Vec<TokenTree> },
    Keyword(Keyword),
}

/// The mathematical model of a token tree.
pub enum Tok {
    Ident(Seq<char>),
    IntLit(u32),
    Punct(Punct),
    Group(GroupDelim, Seq<Tok>),
    Keyword(Keyword),
}

/// The models of a sequence of token trees.
pub open spec fn toks_view(s: Seq<TokenTree>) -> Seq<Tok>
    decreases s,
{
    if s.len() == 0 {
        Seq::empty()
    } else {
        toks_view(s.subrange(0, s.len() - 1)).push(s[s.len() - 1].view())
    }
}

/// The model of a sequence of token trees is the sequence of their models.
pub proof fn lemma_toks_view(s: Seq<TokenTree>)
    ensures
        toks_view(s).len() == s.len(),
        forall|i: int| 0 <= i < s.len() ==> #[trigger] toks_view(s)[i] == s[i]@,
    decreases s.len(),
{
    if s.len() > 0 {
        lemma_toks_view(s.subrange(0, s.len() - 1));
        assert(toks_view(s) == toks_view(s.subrange(0, s.len() - 1)).push(s[s.len() - 1]@));
    } else {
        assert(toks_view(s) == Seq::<Tok>::empty());
    }
}

/// Two sequences of token trees with the same models element by element
/// have the same model.
pub proof fn lemma_toks_view_eq(a: Seq<TokenTree>, b: Seq<TokenTree>)
    requires
        a.len() == b.len(),
        forall|i: int| 0 <= i < a.len() ==> #[trigger] a[i]@ == b[i]@,
    ensures
        toks_view(a) == toks_view(b),
{
    lemma_toks_view(a);
    lemma_toks_view(b);
    assert(toks_view(a) =~= toks_view(b));
}

impl View for TokenTree {
    type V = Tok;

    open spec fn view(&self) -> Tok
        decreases self,
    {
        match self {
            TokenTree::Ident(s) => Tok::Ident(s@),
            TokenTree::IntLit(n) => Tok::IntLit(*n),
            TokenTree::Punct(p) => Tok::Punct(*p),
            TokenTree::Group { delim, tokens } => Tok::Group(*delim, toks_view(tokens@)),
            TokenTree::Keyword(k) => Tok::Keyword(*k),
        }
    }
}


impl TokenTree {
    /// A copy of this token tree.
    pub fn duplicate(&self) -> (r: TokenTree)
        ensures
            r@ == self@,
        decreases self,
    {
        match self {
            TokenTree::Ident(s) => TokenTree::Ident(s.clone()),
            TokenTree::IntLit(n) => TokenTree::IntLit(*n),
            TokenTree::Punct(p) => TokenTree::Punct(*p),
            TokenTree::Group { delim, tokens } => TokenTree::Group {
                delim: *delim,
                tokens: duplicate_tokens(tokens),
            },
            TokenTree::Keyword(k) => TokenTree::Keyword(*k),
        }
    }
}

impl TokenTree {
    /// Whether this token is the same as `other`: the same kind, with the
    /// same contents.
    pub fn same_as(&self, other: &TokenTree) -> (r: bool)
        ensures
            r == (self@ == other@),
        decreases self,
    {
        match (self, other) {
            (TokenTree::Ident(a), TokenTree::Ident(b)) => {
                let r = *a == *b;
                assert(r == (a@ == b@));
                r
            },
            (TokenTree::IntLit(a), TokenTree::IntLit(b)) => *a == *b,
            (TokenTree::Punct(a), TokenTree::Punct(b)) => *a == *b,
            (
                TokenTree::Group { delim: d1, tokens: t1 },
                TokenTree::Group { delim: d2, tokens: t2 },
            ) => *d1 == *d2 && same_tokens(t1, t2),
            (TokenTree::Keyword(a), TokenTree::Keyword(b)) => *a == *b,
            _ => false,
        }
    }
}

/// Whether two sequences of token trees are the same, token by token.
pub fn same_tokens(a: &Vec<TokenTree>, b: &Vec<TokenTree>) -> (r: bool)
    ensures
        r == (toks_view(a@) == toks_view(b@)),
    decreases a,
{
    proof {
        lemma_toks_view(a@);
        lemma_toks_view(b@);
    }
    if a.len() != b.len() {
        return false;
    }
    let mut i: usize = 0;
    while i < a.len()
        invariant
            0 <= i <= a.len(),
            a.len() == b.len(),
            toks_view(a@).len() == a.len(),
            toks_view(b@).len() == b.len(),
            forall|j: int| 0 <= j < a.len() ==> #[trigger] toks_view(a@)[j] == a@[j]@,
            forall|j: int| 0 <= j < b.len() ==> #[trigger] toks_view(b@)[j] == b@[j]@,
            forall|j: int| 0 <= j < i ==> a@[j]@ == b@[j]@,
        decreases a.len() - i,
    {
        assert(decreases_to!(a => a@[i as int]));
        if !a[i].same_as(&b[i]) {
            assert(toks_view(a@)[i as int] != toks_view(b@)[i as int]);
            return false;
        }
        i = i + 1;
    }
    assert(toks_view(a@) =~= toks_view(b@));
    true
}

/// A copy of a sequence of token trees.
pub fn duplicate_tokens(v: &Vec<TokenTree>) -> (r: Vec<TokenTree>)
    ensures
        toks_view(r@) == toks_view(v@),
    decreases v,
{
    let mut r: Vec<TokenTree> = Vec::new();
    let mut i: usize = 0;
    while i < v.len()
        invariant
            0 <= i <= v.len(),
            r.len() == i,
            forall|j: int| 0 <= j < i ==> #[trigger] r@[j]@ == v@[j]@,
        decreases v.len() - i,
    {
        assert(decreases_to!(v => v@[i as int]));
        r.push(v[i].duplicate());
        i = i + 1;
    }
    proof {
        lemma_toks_view_eq(r@, v@);
    }
    r
}

/// The keyword spelled by `w`, if any.
pub open spec fn keyword_of(w: Seq<char>) -> Option<Keyword> {
    if w == seq!['l', 'e', 't'] {
        Some(Keyword::Let)
    } else if w == seq!['t', 'r', 'u', 'e'] {
        Some(Keyword::True)
    } else if w == seq!['f', 'a', 'l', 's', 'e'] {
        Some(Keyword::False)
    } else if w == seq!['i', 'f'] {
        Some(Keyword::If)
    } else if w == seq!['e', 'l', 's', 'e'] {
        Some(Keyword::Else)
    } else if w == seq!['w', 'h', 'i', 'l', 'e'] {
        Some(Keyword::While)
    } else if w == seq!['f', 'o', 'r'] {
        Some(Keyword::For)
    } else if w == seq!['i', 'n'] {
        Some(Keyword::In)
    } else {
        None
    }
}

/// Whether the characters of `v` are exactly those of `w`.
fn same_chars(v: &Vec<char>, w: &[char]) -> (r: bool)
    ensures
        r == (v@ == w@),
{
    if v.len() != w.len() {
        return false;
    }
    let mut i: usize = 0;
    while i < v.len()
        invariant
            v.len() == w.len(),
            0 <= i <= v.len(),
            forall|j: int| 0 <= j < i ==> v@[j] == w@[j],
        decreases v.len() - i,
    {
        if v[i] != w[i] {
            return false;
        }
        i = i + 1;
    }
    assert(v@ =~= w@);
    true
}

impl Keyword {
    /// The keyword spelled by `ident`, or `None` for any other word.
    pub fn from_ident(ident: &str) -> (r: Option<Self>)
        ensures
            r == keyword_of(ident@),
    {
        let v = crate::text::chars_of(ident);
        if same_chars(&v, &['l', 'e', 't']) {
            Some(Self::Let)
        } else if same_chars(&v, &['t', 'r', 'u', 'e']) {
            Some(Self::True)
        } else if same_chars(&v, &['f', 'a', 'l', 's', 'e']) {
            Some(Self::False)
        } else if same_chars(&v, &['i', 'f']) {
            Some(Self::If)
        } else if same_chars(&v, &['e', 'l', 's', 'e']) {
            Some(Self::Else)
        } else if same_chars(&v, &['w', 'h', 'i', 'l', 'e']) {
            Some(Self::While)
        } else if same_chars(&v, &['f', 'o', 'r']) {
            Some(Self::For)
        } else if same_chars(&v, &['i', 'n']) {
            Some(Self::In)
        } else {
            None
        }
    }
}

} // verus!
