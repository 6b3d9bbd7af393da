//! The printer: the reference consumer of the expression tree. It renders a
//! tree to a fully parenthesized prefix string, exactly [`print_expr`] of the
//! tree's view.

use vstd::prelude::*;
use vstd::string::{StrSliceExecFns, StringExecFns};

use crate::expressions::expr::{Expr, SpecExpr};
use crate::token::lit_text;

verus! {

/// The fully parenthesized prefix rendering of a tree: `(<op> <left>
/// <right>)` for a binary node, `(<op> <operand>)` for a unary one,
/// `(group <inner>)` for a grouping, and the literal's text for a leaf.
pub open spec fn print_expr(e: SpecExpr) -> Seq<char>
    decreases e,
{
    match e {
        SpecExpr::Binary(l, op, r) => "("@ + op.lexeme + " "@ + print_expr(*l) + " "@ + print_expr(
            *r,
        ) + ")"@,
        SpecExpr::Grouping(g) => "(group "@ + print_expr(*g) + ")"@,
        SpecExpr::Literal(l) => lit_text(l),
        SpecExpr::Unary(op, r) => "("@ + op.lexeme + " "@ + print_expr(*r) + ")"@,
    }
}

/// The arguments of a parenthesized form: one space before each printed
/// item.
pub open spec fn printed_args(items: Seq<SpecExpr>) -> Seq<char>
    decreases items.len(),
{
    if items.len() == 0 {
        Seq::empty()
    } else {
        " "@ + print_expr(items[0]) + printed_args(items.drop_first())
    }
}

/// A parenthesized form: `(<op><args>)`.
pub open spec fn parenthesized(op: Seq<char>, items: Seq<SpecExpr>) -> Seq<char> {
    "("@ + op + printed_args(items) + ")"@
}

/// The views of a sequence of borrowed trees.
pub open spec fn exprs_view(items: Seq<&Expr>) -> Seq<SpecExpr> {
    items.map_values(|e: &Expr| e@)
}

proof fn lemma_printed_args_push(items: Seq<SpecExpr>, x: SpecExpr)
    ensures
        printed_args(items.push(x)) == printed_args(items) + " "@ + print_expr(x),
    decreases items.len(),
{
    if items.len() == 0 {
        assert(items.push(x).drop_first() =~= Seq::<SpecExpr>::empty());
        assert(printed_args(Seq::<SpecExpr>::empty()) =~= Seq::<char>::empty());
        assert(items.push(x)[0] == x);
        assert(printed_args(items.push(x)) =~= printed_args(items) + " "@ + print_expr(x));
    } else {
        lemma_printed_args_push(items.drop_first(), x);
        assert(items.push(x).drop_first() =~= items.drop_first().push(x));
        assert(printed_args(items.push(x)) =~= printed_args(items) + " "@ + print_expr(x));
    }
}

/// Printing reads nothing but the tree: two prints of one tree render the
/// same characters, so a printed tree never needs re-parsing to be printed
/// again.
pub proof fn lemma_print_deterministic(a: SpecExpr, b: SpecExpr)
    requires
        a == b,
    ensures
        print_expr(a) == print_expr(b),
{
}

/// The reference consumer: renders trees to strings.
pub struct AstPrinter;

impl AstPrinter {
    /// Renders the tree to its fully parenthesized prefix form.
    pub fn print(&self, expr: &Expr) -> (r: String)
        ensures
            r@ == print_expr(expr@),
        decreases expr,
    {
        match expr {
            Expr::Binary(l, op, r) => {
                let mut s = String::from_str("(");
                s.append(op.lexeme.as_str());
                s.append(" ");
                let left = self.print(l);
                s.append(left.as_str());
                s.append(" ");
                let right = self.print(r);
                s.append(right.as_str());
                s.append(")");
                proof {
                    assert(s@ =~= print_expr(expr@));
                }
                s
            },
            Expr::Grouping(g) => {
                let mut s = String::from_str("(group ");
                let inner = self.print(g);
                s.append(inner.as_str());
                s.append(")");
                proof {
                    assert(s@ =~= print_expr(expr@));
                }
                s
            },
            Expr::Literal(lit) => {
                let s = crate::token::literal_text(lit);
                proof {
                    assert(s@ =~= print_expr(expr@));
                }
                s
            },
            Expr::Unary(op, r) => {
                let mut s = String::from_str("(");
                s.append(op.lexeme.as_str());
                s.append(" ");
                let operand = self.print(r);
                s.append(operand.as_str());
                s.append(")");
                proof {
                    assert(s@ =~= print_expr(expr@));
                }
                s
            },
        }
    }

    /// Renders `(<op> <item> <item> ...)`: the op name, then each tree in
    /// order, space-separated, all between one pair of parentheses.
    pub fn parenthesize(&self, op: &str, exprs: Vec<&Expr>) -> (r: String)
        ensures
            r@ == parenthesized(op@, exprs_view(exprs@)),
    {
        let ghost items = exprs_view(exprs@);
        let mut result = String::from_str("(");
        result.append(op);
        let mut idx: usize = 0;
        proof {
            assert(exprs_view(exprs@.take(0)) =~= Seq::<SpecExpr>::empty());
        }
        while idx < exprs.len()
            invariant
                idx <= exprs@.len(),
                items == exprs_view(exprs@),
                result@ == "("@ + op@ + printed_args(items.take(idx as int)),
            decreases exprs@.len() - idx,
        {
            result.append(" ");
            let printed = self.print(exprs[idx]);
            result.append(printed.as_str());
            proof {
                lemma_printed_args_push(items.take(idx as int), items[idx as int]);
                assert(items.take(idx as int).push(items[idx as int]) =~= items.take(idx + 1));
                assert(result@ =~= "("@ + op@ + printed_args(items.take(idx + 1)));
            }
            idx += 1;
        }
        result.append(")");
        proof {
            assert(items.take(items.len() as int) =~= items);
            assert(result@ =~= parenthesized(op@, items));
        }
        result
    }
}

} // verus!
