use vstd::prelude::*;

verus! {

/// Kind of a delimited group in a token stream.
#[derive(Clone, Copy, Debug, PartialEq, Eq, Structural)]
pub enum Delim {
    Paren,
    Bracket,
    Brace,
}

/// Whether a punctuation mark is joined to the one after it, as the two colons of
/// `::` or the quote of a lifetime are.
#[derive(Clone, Copy, Debug, PartialEq, Eq, Structural)]
pub enum Spacing {
    Alone,
    Joint,
}

/// One token of a key-list declaration. Delimited groups are flattened into an
/// `Open` token, the group's contents, and a `Close` token.
#[derive(Debug)]
pub enum Token {
    Ident(String),
    Punct(char, Spacing),
    Literal(String),
    Open(Delim),
    Close(Delim),
}

pub open spec fn is_punct(t: Token, c: char) -> bool {
    t matches Token::Punct(p, _) && p == c
}

pub open spec fn is_joint(t: Token) -> bool {
    t matches Token::Punct(_, Spacing::Joint)
}

pub open spec fn is_open_paren(t: Token) -> bool {
    t matches Token::Open(Delim::Paren)
}

pub open spec fn is_close_paren(t: Token) -> bool {
    t matches Token::Close(Delim::Paren)
}

/// Tokens that raise the nesting depth inside a type: groups and `<`.
pub open spec fn opens_nesting(t: Token) -> bool {
    t is Open || is_punct(t, '<')
}

/// Tokens that lower the nesting depth inside a type: group ends, and a `>` that
/// is not the head of an arrow `->`.
pub open spec fn closes_nesting(toks: Seq<Token>, i: int) -> bool {
    toks[i] is Close || (is_punct(toks[i], '>') && !(i > 0 && is_punct(toks[i - 1], '-') && is_joint(
        toks[i - 1],
    )))
}

impl Token {
    pub fn copy(&self) -> (r: Token)
        ensures
            r == *self,
    {
        match self {
            Token::Ident(s) => Token::Ident(s.clone()),
            Token::Punct(c, sp) => Token::Punct(*c, *sp),
            Token::Literal(s) => Token::Literal(s.clone()),
            Token::Open(d) => Token::Open(*d),
            Token::Close(d) => Token::Close(*d),
        }
    }

    pub fn is_punct(&self, c: char) -> (r: bool)
        ensures
            r == is_punct(*self, c),
    {
        match self {
            Token::Punct(p, _) => *p == c,
            _ => false,
        }
    }

    pub fn is_joint(&self) -> (r: bool)
        ensures
            r == is_joint(*self),
    {
        match self {
            Token::Punct(_, Spacing::Joint) => true,
            _ => false,
        }
    }

    pub fn is_open_paren(&self) -> (r: bool)
        ensures
            r == is_open_paren(*self),
    {
        match self {
            Token::Open(Delim::Paren) => true,
            _ => false,
        }
    }

    pub fn is_close_paren(&self) -> (r: bool)
        ensures
            r == is_close_paren(*self),
    {
        match self {
            Token::Close(Delim::Paren) => true,
            _ => false,
        }
    }
}

} // verus!
