//! The shared diagnostic type: a source line, an optional offending token,
//! and a message, used by scanner, parser and evaluator alike.

use crate::rational::dec_digits;
use crate::rational::push_dec_digits;
use crate::token::Token;
use crate::token::TokenView;
use crate::token_type::TokenType;
use vstd::prelude::*;

verus! {

/// Specification-level content of a diagnostic.
pub struct ErrorView {
    pub token: Option<TokenView>,
    pub line: nat,
    pub message: Seq<char>,
}

/// A diagnostic: lexical errors carry no token; parse and runtime errors
/// carry the offending token.
#[derive(Debug)]
pub struct JialoxError {
    pub token: Option<Token>,
    pub line: usize,
    pub message: String,
}

impl View for JialoxError {
    type V = ErrorView;

    open spec fn view(&self) -> ErrorView {
        ErrorView {
            token: match self.token {
                Some(t) => Some(t@),
                None => None,
            },
            line: self.line as nat,
            message: self.message@,
        }
    }
}

/// The human-readable report of a diagnostic: a `[line N] Error: message`
/// head, and for an error bound to a token one more line reading
/// `at end` or `at '<lexeme>'`.
pub open spec fn report_text(e: ErrorView, loc: Seq<char>) -> Seq<char> {
    let head = "[line "@ + dec_digits(e.line) + "] Error"@ + loc + ": "@ + e.message;
    match e.token {
        Some(t) => {
            if t.ttype == TokenType::Eof {
                head + "\n"@ + dec_digits(t.line) + " at end "@ + e.message
            } else {
                head + "\n"@ + dec_digits(t.line) + " at '"@ + t.lexeme + "' "@ + e.message
            }
        },
        None => head,
    }
}

impl JialoxError {
    /// A diagnostic without a token, as the scanner emits.
    pub fn error(line: usize, message: &str) -> (e: JialoxError)
        ensures
            e@.token is None,
            e@.line == line,
            e@.message == message@,
    {
        JialoxError { token: None, line, message: String::from_str(message) }
    }

    /// A diagnostic bound to the offending token, as the parser emits.
    pub fn parse_error(token: &Token, message: &str) -> (e: JialoxError)
        ensures
            e@.token == Some(token@),
            e@.line == token@.line,
            e@.message == message@,
    {
        JialoxError {
            token: Some(token.mirror()),
            line: token.line(),
            message: String::from_str(message),
        }
    }

    /// A diagnostic bound to the offending token, as the evaluator emits.
    pub fn runtime_error(token: &Token, message: &str) -> (e: JialoxError)
        ensures
            e@.token == Some(token@),
            e@.line == token@.line,
            e@.message == message@,
    {
        JialoxError {
            token: Some(token.mirror()),
            line: token.line(),
            message: String::from_str(message),
        }
    }

    /// An exact copy of the diagnostic.
    pub fn duplicate(&self) -> (e: JialoxError)
        ensures
            e@ == self@,
    {
        JialoxError {
            token: match &self.token {
                Some(t) => Some(t.mirror()),
                None => None,
            },
            line: self.line,
            message: self.message.clone(),
        }
    }

    /// The report text for this diagnostic; the caller owns the channel it
    /// is written to.
    pub fn report_string(&self, loc: &str) -> (s: String)
        ensures
            s@ == report_text(self@, loc@),
    {
        let mut s = String::from_str("[line ");
        proof {
            reveal_strlit("[line ");
            reveal_strlit("] Error");
            reveal_strlit(": ");
            reveal_strlit("\n");
            reveal_strlit(" at end ");
            reveal_strlit(" at '");
            reveal_strlit("' ");
        }
        push_dec_digits(&mut s, self.line as u128);
        s.append("] Error");
        s.append(loc);
        s.append(": ");
        s.append(self.message.as_str());
        match &self.token {
            Some(t) => {
                s.append("\n");
                push_dec_digits(&mut s, t.line() as u128);
                if t.is(TokenType::Eof) {
                    s.append(" at end ");
                    s.append(self.message.as_str());
                } else {
                    s.append(" at '");
                    let lx = t.lexeme();
                    s.append(lx.as_str());
                    s.append("' ");
                    s.append(self.message.as_str());
                }
                proof {
                    assert(s@ =~= report_text(self@, loc@));
                }
            },
            None => {
                proof {
                    assert(s@ =~= report_text(self@, loc@));
                }
            },
        }
        s
    }
}

} // verus!
