//! A diagnostic renderer of expressions: every node prints as a fully
//! parenthesized prefix form, such as `(+ 1 2)`, with `nil` for the
//! literal nil.

use crate::error::JialoxError;
use crate::expr::node_wf;
use crate::expr::Expr;
use crate::expr::ExprPool;
use crate::expr::ExprRef;
use crate::literal::view_display;
use vstd::prelude::*;

verus! {

/// The parenthesized prefix rendering of the node at index `i`: operators
/// print as `(<lexeme> <operands>)`, groups as `(group <inner>)`, literals
/// as their display form, and variables as their name.
pub open spec fn print_expr(nodes: Seq<Expr>, i: int) -> Seq<char>
    decreases i, 1int,
{
    if 0 <= i < nodes.len() {
        match nodes[i] {
            Expr::Binary(b) => {
                if b.left.idx < i && b.right.idx < i {
                    "("@ + b.operator@.lexeme + seq![' '] + print_expr(nodes, b.left.idx as int)
                        + seq![' '] + print_expr(nodes, b.right.idx as int) + ")"@
                } else {
                    "nil"@
                }
            },
            Expr::Grouping(g) => {
                if g.expression.idx < i {
                    "("@ + "group"@ + seq![' '] + print_expr(nodes, g.expression.idx as int) + ")"@
                } else {
                    "nil"@
                }
            },
            Expr::Literal(l) => match l.value {
                Some(v) => view_display(v@),
                None => "nil"@,
            },
            Expr::Unary(u) => {
                if u.right.idx < i {
                    "("@ + u.operator@.lexeme + seq![' '] + print_expr(nodes, u.right.idx as int)
                        + ")"@
                } else {
                    "nil"@
                }
            },
            Expr::Variable(v) => v.name@.lexeme,
        }
    } else {
        "nil"@
    }
}

/// The rendering of a list of already-rendered operands: one space before
/// each.
pub open spec fn print_parts(parts: Seq<String>) -> Seq<char>
    decreases parts.len(),
{
    if parts.len() == 0 {
        Seq::empty()
    } else {
        seq![' '] + parts[0]@ + print_parts(parts.drop_first())
    }
}

/// The expression renderer; it holds no state.
pub struct AstPrinter;

impl AstPrinter {
    /// `(<name> <part> ...)` from a production's name and its rendered
    /// operands.
    pub fn parenthesize(&self, name: &String, parts: &Vec<String>) -> (r: Result<
        String,
        JialoxError,
    >)
        ensures
            match r {
                Ok(s) => s@ == "("@ + name@ + print_parts(parts@) + ")"@,
                Err(_) => false,
            },
    {
        let mut builder = String::from_str("(");
        builder.append(name.as_str());
        let n = parts.len();
        let mut i: usize = 0;
        proof {
            reveal_strlit("(");
            reveal_strlit(")");
            reveal_strlit(" ");
            assert(parts@.skip(0) =~= parts@);
        }
        while i < n
            invariant
                n == parts@.len(),
                i <= n,
                builder@ + print_parts(parts@.skip(i as int)) == "("@ + name@ + print_parts(
                    parts@,
                ),
            decreases n - i,
        {
            proof {
                reveal_strlit(" ");
                assert(parts@.skip(i as int)[0] == parts@[i as int]);
                assert(parts@.skip(i as int).drop_first() =~= parts@.skip(i as int + 1));
                assert(" "@ =~= seq![' ']);
            }
            builder.append(" ");
            builder.append(parts[i].as_str());
            proof {
                assert(builder@ + print_parts(parts@.skip(i as int + 1)) =~= "("@ + name@
                    + print_parts(parts@));
            }
            i = i + 1;
        }
        proof {
            assert(parts@.skip(n as int) =~= Seq::<String>::empty());
            assert(builder@ =~= "("@ + name@ + print_parts(parts@));
        }
        builder.append(")");
        Ok(builder)
    }

    /// Renders the expression a handle names.
    pub fn print(&self, pool: &ExprPool, expr: ExprRef) -> (r: Result<String, JialoxError>)
        requires
            pool.wf(),
            expr.idx < pool.nodes@.len(),
        ensures
            match r {
                Ok(s) => s@ == print_expr(pool.nodes@, expr.idx as int),
                Err(_) => false,
            },
        decreases expr.idx as int, 1int,
    {
        proof {
            assert(node_wf(pool.nodes@[expr.idx as int], expr.idx as nat));
        }
        match pool.node(expr) {
            Expr::Binary(b) => {
                let left = self.print(pool, b.left)?;
                let right = self.print(pool, b.right)?;
                let name = b.operator.lexeme();
                let mut parts: Vec<String> = Vec::new();
                parts.push(left);
                parts.push(right);
                let r = self.parenthesize(&name, &parts);
                proof {
                    assert(parts@.drop_first() =~= seq![parts@[1]]);
                    assert(seq![parts@[1]].drop_first() =~= Seq::<String>::empty());
                    assert(print_parts(Seq::<String>::empty()) =~= Seq::<char>::empty());
                    assert(print_parts(seq![parts@[1]]) =~= seq![' '] + parts@[1]@);
                    assert(print_parts(parts@) =~= seq![' '] + parts@[0]@ + (seq![' ']
                        + parts@[1]@));
                    match &r {
                        Ok(s) => {
                            assert(s@ =~= print_expr(pool.nodes@, expr.idx as int));
                        },
                        Err(_) => {},
                    }
                }
                r
            },
            Expr::Grouping(g) => {
                let inner = self.print(pool, g.expression)?;
                let name = String::from_str("group");
                let mut parts: Vec<String> = Vec::new();
                parts.push(inner);
                let r = self.parenthesize(&name, &parts);
                proof {
                    assert(parts@.drop_first() =~= Seq::<String>::empty());
                    assert(print_parts(Seq::<String>::empty()) =~= Seq::<char>::empty());
                    assert(print_parts(parts@) =~= seq![' '] + parts@[0]@);
                    match &r {
                        Ok(s) => {
                            assert(s@ =~= print_expr(pool.nodes@, expr.idx as int));
                        },
                        Err(_) => {},
                    }
                }
                r
            },
            Expr::Literal(l) => match &l.value {
                Some(value) => Ok(value.display_string()),
                None => Ok(String::from_str("nil")),
            },
            Expr::Unary(u) => {
                let right = self.print(pool, u.right)?;
                let name = u.operator.lexeme();
                let mut parts: Vec<String> = Vec::new();
                parts.push(right);
                let r = self.parenthesize(&name, &parts);
                proof {
                    assert(parts@.drop_first() =~= Seq::<String>::empty());
                    assert(print_parts(Seq::<String>::empty()) =~= Seq::<char>::empty());
                    assert(print_parts(parts@) =~= seq![' '] + parts@[0]@);
                    match &r {
                        Ok(s) => {
                            assert(s@ =~= print_expr(pool.nodes@, expr.idx as int));
                        },
                        Err(_) => {},
                    }
                }
                r
            },
            Expr::Variable(v) => Ok(v.name.lexeme()),
        }
    }
}

} // verus!
