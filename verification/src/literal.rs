//! The dynamically typed value model: numbers, text, booleans, nil, and an
//! internal sentinel marking an operation with no defined result.

use crate::rational::lemma_rat_of_view;
use crate::rational::rat_display;
use crate::rational::rat_of_view;
use crate::rational::Rational;
use vstd::prelude::*;

verus! {

/// Specification-level value of a `Literal`: numbers appear as the exact
/// fraction `n / d`.
pub enum LitView {
    NumV { n: int, d: int },
    StrV(Seq<char>),
    BoolV(bool),
    NilV,
    ErrV,
}

/// A runtime value. `ArithmeticError` is only an intermediate signal of the
/// evaluator; it is never stored in an environment or handed to a caller.
#[derive(Debug, Clone)]
pub enum Literal {
    Num(Rational),
    Str(String),
    Bool(bool),
    Nil,
    ArithmeticError,
}

impl View for Literal {
    type V = LitView;

    open spec fn view(&self) -> LitView {
        match self {
            Literal::Num(r) => LitView::NumV { n: r.num_int(), d: r.den_int() },
            Literal::Str(s) => LitView::StrV(s@),
            Literal::Bool(b) => LitView::BoolV(*b),
            Literal::Nil => LitView::NilV,
            Literal::ArithmeticError => LitView::ErrV,
        }
    }
}

impl Literal {
    /// Well-formedness: a numeric value carries a well-formed rational.
    pub open spec fn wf(&self) -> bool {
        match self {
            Literal::Num(r) => r.wf(),
            _ => true,
        }
    }

    /// An exact copy, with its value and well-formedness stated.
    pub fn duplicate(&self) -> (r: Literal)
        ensures
            r@ == self@,
            r.wf() == self.wf(),
            r is ArithmeticError <==> self is ArithmeticError,
    {
        match self {
            Literal::Num(x) => Literal::Num(*x),
            Literal::Str(s) => Literal::Str(s.clone()),
            Literal::Bool(b) => Literal::Bool(*b),
            Literal::Nil => Literal::Nil,
            Literal::ArithmeticError => Literal::ArithmeticError,
        }
    }

    /// The display form: the decimal (or fraction) rendering for numbers,
    /// the text itself for strings, `true`/`false`, and `nil`.
    pub fn display_string(&self) -> (s: String)
        requires
            self.wf(),
            !(self is ArithmeticError),
        ensures
            s@ == view_display(self@),
    {
        match self {
            Literal::Num(r) => {
                proof {
                    lemma_rat_of_view(*r);
                }
                r.display_string()
            },
            Literal::Str(s) => s.clone(),
            Literal::Bool(b) => {
                if *b {
                    String::from_str("true")
                } else {
                    String::from_str("false")
                }
            },
            Literal::Nil => String::from_str("nil"),
            Literal::ArithmeticError => String::new(),
        }
    }
}

/// The display form of a value (empty for the internal sentinel, which is
/// never displayed).
pub open spec fn view_display(v: LitView) -> Seq<char> {
    match v {
        LitView::NumV { n, d } => rat_display(rat_of_view(n, d)),
        LitView::StrV(s) => s,
        LitView::BoolV(b) => if b {
            "true"@
        } else {
            "false"@
        },
        LitView::NilV => "nil"@,
        LitView::ErrV => Seq::empty(),
    }
}

impl PartialEq for Literal {
    /// Structural equality per variant, as a value in a test or an
    /// environment compares.
    fn eq(&self, other: &Self) -> (r: bool) {
        match (self, other) {
            (Literal::Num(a), Literal::Num(b)) => a == b,
            (Literal::Str(a), Literal::Str(b)) => a.eq(b),
            (Literal::Bool(a), Literal::Bool(b)) => a == b,
            (Literal::Nil, Literal::Nil) => true,
            (Literal::ArithmeticError, Literal::ArithmeticError) => true,
            _ => false,
        }
    }
}

impl vstd::std_specs::cmp::PartialEqSpecImpl for Literal {
    open spec fn obeys_eq_spec() -> bool {
        true
    }

    open spec fn eq_spec(&self, other: &Literal) -> bool {
        match (self, other) {
            (Literal::Num(a), Literal::Num(b)) => a == b,
            (Literal::Str(a), Literal::Str(b)) => a@ == b@,
            (Literal::Bool(a), Literal::Bool(b)) => a == b,
            (Literal::Nil, Literal::Nil) => true,
            (Literal::ArithmeticError, Literal::ArithmeticError) => true,
            _ => false,
        }
    }
}

} // verus!
