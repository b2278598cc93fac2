//! Front end and evaluator of a small dynamically typed expression/statement
//! language: a scanner, a recursive-descent parser with error recovery, and a
//! tree-walking evaluator over a pooled syntax tree, with exact rational
//! numbers as the numeric domain.

pub mod ast_printer;
pub mod environment;
pub mod error;
pub mod expr;
pub mod interpreter;
pub mod literal;
pub mod parser;
pub mod stmt;
pub mod rational;
pub mod scanner;
pub mod token;
pub mod token_type;

use crate::environment::Environment;
use crate::error::JialoxError;
use crate::expr::ExprPool;
use crate::interpreter::lemma_interpret_abs;
use crate::interpreter::spec_interpret_views;
use crate::interpreter::Interpreter;
use crate::parser::spec_parse;
use crate::parser::tview;
use crate::parser::PProg;
use crate::parser::Parser;
use crate::scanner::spec_scan;
use crate::scanner::Scanner;
use vstd::prelude::*;

verus! {

/// Runs one source text through scanner, parser and evaluator against the
/// given environment and node pool: the outputs of every `print` reached,
/// and the diagnostics of the stage that stopped the run — every lexical
/// error of a failed scan, in order, or the one parse or runtime error.
/// An empty diagnostic list is a clean run. The whole pipeline is pinned
/// down at the specification level: the scanned tokens are `spec_scan` of
/// the characters, the parsed statements are `spec_parse` of those
/// tokens, and the outputs and final bindings are `spec_interpret_views`
/// of those statements.
pub fn run_source(source: String, pool: &mut ExprPool, env: &mut Environment) -> (r: (
    Vec<String>,
    Vec<JialoxError>,
))
    requires
        source@.len() < usize::MAX,
        old(pool).wf(),
        old(env).wf(),
    ensures
        final (pool).wf(),
        final (env).wf(),
        ({
            let (tv, ev) = spec_scan(source@, 0, 1, Seq::empty(), Seq::empty());
            if ev.len() > 0 {
                r.0@.len() == 0 && final (env)@ == old(env)@ && r.1@.map_values(
                    |e: JialoxError| e@,
                ) == ev
            } else {
                match spec_parse(tv) {
                    PProg::Failed(f) => r.0@.len() == 0 && final (env)@ == old(env)@
                        && r.1@.len() == 1 && r.1@[0]@ == f,
                    PProg::Found(svs) => ({
                        let out = spec_interpret_views(svs, old(env)@);
                        final (env)@ == out.env && r.0@.map_values(|s: String| s@) == out.outputs
                            && match out.fail {
                            Some(f2) => r.1@.len() == 1 && r.1@[0]@.line == f2.line
                                && r.1@[0]@.message == f2.msg && r.1@[0]@.token == f2.token,
                            None => r.1@.len() == 0,
                        }
                    }),
                }
            }
        }),
{
    let ghost scanned = spec_scan(source@, 0, 1, Seq::empty(), Seq::empty());
    let mut scanner = Scanner::new(source);
    let tokens = match scanner.scan_tokens() {
        Ok(toks) => toks,
        Err(_last) => {
            let diagnostics = scanner.errors;
            return (Vec::new(), diagnostics);
        },
    };
    proof {
        assert(tview(tokens@) =~= scanned.0);
    }
    let ghost tv2 = tview(tokens@);
    let mut parser = Parser::new(tokens);
    let stmts = match parser.parse(pool) {
        Ok(stmts) => stmts,
        Err(e) => {
            let mut diagnostics: Vec<JialoxError> = Vec::new();
            diagnostics.push(e);
            return (Vec::new(), diagnostics);
        },
    };
    proof {
        match spec_parse(tv2) {
            PProg::Found(svs) => {
                lemma_interpret_abs(pool.nodes@, stmts@, svs, env@);
            },
            PProg::Failed(_) => {
                assert(false);
            },
        }
    }
    let terp = Interpreter::new();
    let (outputs, err) = terp.interpret(pool, &stmts, env);
    let mut diagnostics: Vec<JialoxError> = Vec::new();
    match err {
        Some(e) => {
            diagnostics.push(e);
        },
        None => {},
    }
    (outputs, diagnostics)
}

} // verus!
