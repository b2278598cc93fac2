//! Tokens: the smallest lexical units, each with its kind, source text,
//! optional attached value, and source line.

use crate::literal::LitView;
use crate::literal::Literal;
use crate::token_type::TokenType;
use vstd::prelude::*;

verus! {

/// Specification-level content of a token.
pub struct TokenView {
    pub ttype: TokenType,
    pub lexeme: Seq<char>,
    pub literal: Option<LitView>,
    pub line: nat,
}

/// A token of the source text. The attached `literal` is present exactly
/// for number, string, `true`, `false` and `nil` tokens.
#[derive(Debug, Clone)]
pub struct Token {
    pub ttype: TokenType,
    pub lexeme: String,
    pub literal: Option<Literal>,
    pub line: usize,
}

impl View for Token {
    type V = TokenView;

    open spec fn view(&self) -> TokenView {
        TokenView {
            ttype: self.ttype,
            lexeme: self.lexeme@,
            literal: match self.literal {
                Some(l) => Some(l@),
                None => None,
            },
            line: self.line as nat,
        }
    }
}

/// Whether a token of a literal-carrying kind (number, string, `true`,
/// `false`, `nil`) indeed carries its attached value, as every scanned
/// token does.
pub open spec fn token_carries_value(t: TokenView) -> bool {
    (t.ttype == TokenType::Number || t.ttype == TokenType::Str || t.ttype == TokenType::True
        || t.ttype == TokenType::False || t.ttype == TokenType::Nil) ==> t.literal is Some
}

impl Token {
    /// Well-formedness: the attached value, if any, is well formed and is
    /// not the internal sentinel.
    pub open spec fn wf(&self) -> bool {
        match self.literal {
            Some(l) => l.wf() && !(l is ArithmeticError),
            None => true,
        }
    }

    pub fn new(ttype: TokenType, lexeme: String, literal: Option<Literal>, line: usize) -> (t:
        Token)
        ensures
            t.ttype == ttype,
            t.lexeme == lexeme,
            t.literal == literal,
            t.line == line,
    {
        Token { ttype, lexeme, literal, line }
    }

    /// The synthetic end-of-input token closing every scan.
    pub fn eof(line: usize) -> (t: Token)
        ensures
            t.ttype == TokenType::Eof,
            t.lexeme@ == Seq::<char>::empty(),
            t.literal is None,
            t.line == line,
            t.wf(),
    {
        Token { ttype: TokenType::Eof, lexeme: String::new(), literal: None, line }
    }

    /// Whether this token has the given kind.
    pub fn is(&self, ttype: TokenType) -> (r: bool)
        ensures
            r == (self.ttype == ttype),
    {
        self.ttype == ttype
    }

    /// An exact copy of the token.
    pub fn mirror(&self) -> (t: Token)
        ensures
            t@ == self@,
            t.ttype == self.ttype,
            t.wf() == self.wf(),
    {
        Token {
            ttype: self.ttype,
            lexeme: self.lexeme.clone(),
            literal: match &self.literal {
                Some(l) => Some(l.duplicate()),
                None => None,
            },
            line: self.line,
        }
    }

    /// A copy of the attached value, if any.
    pub fn literal(&self) -> (r: Option<Literal>)
        ensures
            match r {
                Some(l) => self@.literal == Some(l@) && (self.wf() ==> l.wf() && !(l
                    is ArithmeticError)),
                None => self@.literal is None,
            },
    {
        match &self.literal {
            Some(l) => Some(l.duplicate()),
            None => None,
        }
    }

    pub fn line(&self) -> (r: usize)
        ensures
            r == self.line,
    {
        self.line
    }

    pub fn ttype(&self) -> (r: TokenType)
        ensures
            r == self.ttype,
    {
        self.ttype
    }

    /// A copy of the exact source text the token was read from.
    pub fn lexeme(&self) -> (r: String)
        ensures
            r@ == self.lexeme@,
    {
        self.lexeme.clone()
    }
}

} // verus!
