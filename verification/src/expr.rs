//! Expression nodes, stored in a pool and named by handles.
//!
//! Child references are shared: several parents may name the same node, and
//! a handle is the node's identity. Two handles are equal exactly when they
//! name the same allocation of the same pool, never merely when the nodes
//! they name have the same shape.

use crate::literal::LitView;
use crate::literal::Literal;
use crate::token::Token;
use crate::token::TokenView;
use vstd::prelude::*;

verus! {

/// A handle naming one node of an `ExprPool`; equality of handles is node
/// identity.
#[derive(Clone, Copy, Debug, PartialEq, Eq, Structural)]
pub struct ExprRef {
    pub idx: usize,
}

#[derive(Debug)]
pub struct BinaryExpr {
    pub left: ExprRef,
    pub operator: Token,
    pub right: ExprRef,
}

#[derive(Debug)]
pub struct GroupingExpr {
    pub expression: ExprRef,
}

#[derive(Debug)]
pub struct LiteralExpr {
    pub value: Option<Literal>,
}

#[derive(Debug)]
pub struct UnaryExpr {
    pub operator: Token,
    pub right: ExprRef,
}

#[derive(Debug)]
pub struct VariableExpr {
    pub name: Token,
}

/// One expression node; children are handles into the same pool.
#[derive(Debug)]
pub enum Expr {
    Binary(BinaryExpr),
    Grouping(GroupingExpr),
    Literal(LiteralExpr),
    Unary(UnaryExpr),
    Variable(VariableExpr),
}

/// The abstract syntax tree that a pool node encodes, with sharing
/// flattened away.
pub enum ExprView {
    BinaryV { left: Box<ExprView>, operator: TokenView, right: Box<ExprView> },
    GroupingV { expression: Box<ExprView> },
    LiteralV { value: Option<LitView> },
    UnaryV { operator: TokenView, right: Box<ExprView> },
    VariableV { name: TokenView },
}

/// Well-formedness of the node standing at index `i`: children come
/// earlier in the pool, tokens and attached values are well formed.
pub open spec fn node_wf(e: Expr, i: nat) -> bool {
    match e {
        Expr::Binary(b) => b.left.idx < i && b.right.idx < i && b.operator.wf(),
        Expr::Grouping(g) => g.expression.idx < i,
        Expr::Literal(l) => match l.value {
            Some(v) => v.wf() && !(v is ArithmeticError),
            None => false,
        },
        Expr::Unary(u) => u.right.idx < i && u.operator.wf(),
        Expr::Variable(v) => v.name.wf(),
    }
}

/// The abstract tree rooted at index `i`. Nodes are appended children
/// first, so recursion descends to smaller indices; an out-of-place child
/// reference (ruled out by `ExprPool::wf`) reads as an empty literal.
pub open spec fn abs_expr(nodes: Seq<Expr>, i: int) -> ExprView
    decreases i,
{
    if 0 <= i < nodes.len() {
        match nodes[i] {
            Expr::Binary(b) => {
                if b.left.idx < i && b.right.idx < i {
                    ExprView::BinaryV {
                        left: Box::new(abs_expr(nodes, b.left.idx as int)),
                        operator: b.operator@,
                        right: Box::new(abs_expr(nodes, b.right.idx as int)),
                    }
                } else {
                    ExprView::LiteralV { value: None }
                }
            },
            Expr::Grouping(g) => {
                if g.expression.idx < i {
                    ExprView::GroupingV { expression: Box::new(abs_expr(nodes, g.expression.idx as int)) }
                } else {
                    ExprView::LiteralV { value: None }
                }
            },
            Expr::Literal(l) => ExprView::LiteralV {
                value: match l.value {
                    Some(v) => Some(v@),
                    None => None,
                },
            },
            Expr::Unary(u) => {
                if u.right.idx < i {
                    ExprView::UnaryV {
                        operator: u.operator@,
                        right: Box::new(abs_expr(nodes, u.right.idx as int)),
                    }
                } else {
                    ExprView::LiteralV { value: None }
                }
            },
            Expr::Variable(v) => ExprView::VariableV { name: v.name@ },
        }
    } else {
        ExprView::LiteralV { value: None }
    }
}

/// Appending nodes to a pool leaves the tree of every existing node as it
/// was.
pub proof fn lemma_abs_expr_extend(nodes: Seq<Expr>, more: Seq<Expr>, i: int)
    requires
        i < nodes.len(),
    ensures
        abs_expr(nodes + more, i) == abs_expr(nodes, i),
    decreases i,
{
    let all = nodes + more;
    if 0 <= i < nodes.len() {
        assert(all[i] == nodes[i]);
        match nodes[i] {
            Expr::Binary(b) => {
                if b.left.idx < i && b.right.idx < i {
                    lemma_abs_expr_extend(nodes, more, b.left.idx as int);
                    lemma_abs_expr_extend(nodes, more, b.right.idx as int);
                }
            },
            Expr::Grouping(g) => {
                if g.expression.idx < i {
                    lemma_abs_expr_extend(nodes, more, g.expression.idx as int);
                }
            },
            Expr::Literal(l) => {},
            Expr::Unary(u) => {
                if u.right.idx < i {
                    lemma_abs_expr_extend(nodes, more, u.right.idx as int);
                }
            },
            Expr::Variable(v) => {},
        }
    }
}

/// The same, stated for a pool that another pool extends.
pub proof fn lemma_abs_prefix(shorter: Seq<Expr>, longer: Seq<Expr>, i: int)
    requires
        shorter.is_prefix_of(longer),
        i < shorter.len(),
    ensures
        abs_expr(longer, i) == abs_expr(shorter, i),
{
    assert(longer =~= shorter + longer.skip(shorter.len() as int));
    lemma_abs_expr_extend(shorter, longer.skip(shorter.len() as int), i);
}

/// Prefixes chain: a pool extended twice still extends the original.
pub proof fn lemma_prefix_trans(a: Seq<Expr>, b: Seq<Expr>, c: Seq<Expr>)
    requires
        a.is_prefix_of(b),
        b.is_prefix_of(c),
    ensures
        a.is_prefix_of(c),
{
    assert forall|i: int| 0 <= i < a.len() implies c[i] == a[i] by {
        assert(b[i] == a[i]);
    }
    assert(a =~= c.subrange(0, a.len() as int));
}

/// The pool holding every node of one or more parses. Nodes are immutable
/// once appended.
#[derive(Debug)]
pub struct ExprPool {
    pub nodes: Vec<Expr>,
}

impl ExprPool {
    /// Every node's children stand earlier in the pool, and every token
    /// and attached value in it is well formed.
    pub open spec fn wf(&self) -> bool {
        forall|i: int|
            0 <= i < self.nodes@.len() ==> node_wf(#[trigger] self.nodes@[i], i as nat)
    }

    pub fn new() -> (p: ExprPool)
        ensures
            p.nodes@.len() == 0,
            p.wf(),
    {
        ExprPool { nodes: Vec::new() }
    }

    /// Appends a node whose children already stand in the pool, returning
    /// the fresh handle that is its identity.
    pub fn add_node(&mut self, e: Expr) -> (r: ExprRef)
        requires
            old(self).wf(),
            node_wf(e, old(self).nodes@.len() as nat),
        ensures
            final(self).wf(),
            r.idx == old(self).nodes@.len(),
            final(self).nodes@ == old(self).nodes@.push(e),
    {
        let idx = self.nodes.len();
        self.nodes.push(e);
        ExprRef { idx }
    }

    /// The node a handle names.
    pub fn node(&self, r: ExprRef) -> (e: &Expr)
        requires
            r.idx < self.nodes@.len(),
        ensures
            *e == self.nodes@[r.idx as int],
    {
        &self.nodes[r.idx]
    }
}

} // verus!
