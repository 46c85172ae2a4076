//! The two tree printers: prefix ("Lisp-style") and postfix (RPN). Each is a
//! pure, total visitor over the four node kinds; its output is specified as
//! a function of the tree alone, so printing the same tree twice always
//! yields the same string.

use crate::parser::Expr;
use crate::token::Literal;
use crate::token::LiteralModel;
use vstd::prelude::*;

verus! {

/// The textual form of a literal value: the literal `nil` when absent, the
/// text itself, or the number's canonical decimal form.
pub open spec fn literal_text(v: LiteralModel) -> Seq<char> {
    match v {
        LiteralModel::Absent => "nil"@,
        LiteralModel::Text(s) => s,
        LiteralModel::Num(n) => n.text(),
    }
}

/// The prefix rendering: `Binary` and `Unary` as
/// `(<operator-lexeme> <child> ...)`, `Grouping` as `(group <child>)`, and a
/// literal as its textual form.
pub open spec fn prefix_text(e: Expr) -> Seq<char>
    decreases e,
{
    match e {
        Expr::Binary { left, operator, right } => "("@ + operator.lexeme@ + " "@ + prefix_text(
            *left,
        ) + " "@ + prefix_text(*right) + ")"@,
        Expr::Grouping { expression } => "("@ + "group"@ + " "@ + prefix_text(*expression) + ")"@,
        Expr::Literal { value } => literal_text(value@),
        Expr::Unary { operator, right } => "("@ + operator.lexeme@ + " "@ + prefix_text(*right)
            + ")"@,
    }
}

/// The postfix (RPN) rendering: `Binary` as `<left> <right> <operator>`,
/// `Unary` as `<operand> <operator>`, `Grouping` as just its inner
/// expression, and a literal as its textual form.
pub open spec fn rpn_text(e: Expr) -> Seq<char>
    decreases e,
{
    match e {
        Expr::Binary { left, operator, right } => rpn_text(*left) + " "@ + rpn_text(*right) + " "@
            + operator.lexeme@,
        Expr::Grouping { expression } => rpn_text(*expression),
        Expr::Literal { value } => literal_text(value@),
        Expr::Unary { operator, right } => rpn_text(*right) + " "@ + operator.lexeme@,
    }
}

/// Renders a literal value.
fn print_literal(value: &Literal) -> (r: String)
    ensures
        r@ == literal_text(value@),
{
    match value {
        Literal::Absent => String::from_str("nil"),
        Literal::Text(s) => s.clone(),
        Literal::Num(n) => n.render(),
    }
}

/// The prefix printer. It allocates only its output; the tree is never
/// changed, and printing the same tree twice yields identical strings.
pub struct AstPrinter;

impl AstPrinter {
    /// Wraps a name and already-rendered parts in parentheses, the parts
    /// separated by single spaces.
    fn parenthesize(&self, name: &str, parts: Vec<String>) -> (r: String)
        ensures
            r@ == "("@ + name@ + spaced(parts@.map_values(|p: String| p@)) + ")"@,
    {
        let ghost part_views = parts@.map_values(|p: String| p@);
        let mut r = String::from_str("(");
        r.append(name);
        let n = parts.len();
        let mut i: usize = 0;
        proof {
            assert(part_views.subrange(0, 0) =~= Seq::<Seq<char>>::empty());
        }
        while i < n
            invariant
                n == parts@.len(),
                i <= n,
                part_views == parts@.map_values(|p: String| p@),
                r@ == "("@ + name@ + spaced(part_views.subrange(0, i as int)),
            decreases n - i,
        {
            r.append(" ");
            r.append(parts[i].as_str());
            proof {
                assert(part_views.subrange(0, i + 1).drop_last() =~= part_views.subrange(
                    0,
                    i as int,
                ));
                assert(r@ =~= "("@ + name@ + spaced(part_views.subrange(0, i + 1)));
            }
            i = i + 1;
        }
        r.append(")");
        proof {
            assert(part_views.subrange(0, n as int) =~= part_views);
        }
        r
    }

    /// Renders the tree in prefix notation.
    pub fn print(&self, expr: &Expr) -> (r: String)
        ensures
            r@ == prefix_text(*expr),
        decreases expr,
    {
        match expr {
            Expr::Binary { left, operator, right } => {
                let ls = self.print(&**left);
                let rs = self.print(&**right);
                let ghost lsv = ls@;
                let ghost rsv = rs@;
                let parts = vec![ls, rs];
                proof {
                    assert(parts@.map_values(|p: String| p@) =~= seq![lsv, rsv]);
                    lemma_spaced_two(lsv, rsv);
                }
                let r = self.parenthesize(operator.lexeme.as_str(), parts);
                proof {
                    assert(r@ =~= prefix_text(*expr));
                }
                r
            },
            Expr::Grouping { expression } => {
                let inner = self.print(&**expression);
                let ghost iv = inner@;
                let parts = vec![inner];
                proof {
                    assert(parts@.map_values(|p: String| p@) =~= seq![iv]);
                    lemma_spaced_one(iv);
                }
                let r = self.parenthesize("group", parts);
                proof {
                    assert(r@ =~= prefix_text(*expr));
                }
                r
            },
            Expr::Literal { value } => print_literal(value),
            Expr::Unary { operator, right } => {
                let rs = self.print(&**right);
                let ghost rsv = rs@;
                let parts = vec![rs];
                proof {
                    assert(parts@.map_values(|p: String| p@) =~= seq![rsv]);
                    lemma_spaced_one(rsv);
                }
                let r = self.parenthesize(operator.lexeme.as_str(), parts);
                proof {
                    assert(r@ =~= prefix_text(*expr));
                }
                r
            },
        }
    }
}

/// Rendered parts, each preceded by one space.
pub open spec fn spaced(parts: Seq<Seq<char>>) -> Seq<char>
    decreases parts.len(),
{
    if parts.len() == 0 {
        Seq::empty()
    } else {
        spaced(parts.drop_last()) + " "@ + parts.last()
    }
}

proof fn lemma_spaced_one(a: Seq<char>)
    ensures
        spaced(seq![a]) == " "@ + a,
{
    assert(seq![a].drop_last() =~= Seq::<Seq<char>>::empty());
    assert(spaced(Seq::<Seq<char>>::empty()) =~= Seq::<char>::empty());
    assert(spaced(seq![a]) =~= " "@ + a);
}

proof fn lemma_spaced_two(a: Seq<char>, b: Seq<char>)
    ensures
        spaced(seq![a, b]) == " "@ + a + " "@ + b,
{
    assert(seq![a, b].drop_last() =~= seq![a]);
    lemma_spaced_one(a);
    assert(spaced(seq![a, b]) =~= " "@ + a + " "@ + b);
}

/// The postfix printer. It allocates only its output; the tree is never
/// changed, and printing the same tree twice yields identical strings.
pub struct RpnPrinter;

impl RpnPrinter {
    /// Renders the tree in postfix (reverse Polish) notation.
    pub fn print(&self, expr: &Expr) -> (r: String)
        ensures
            r@ == rpn_text(*expr),
        decreases expr,
    {
        match expr {
            Expr::Binary { left, operator, right } => {
                let mut r = self.print(&**left);
                r.append(" ");
                r.append(self.print(&**right).as_str());
                r.append(" ");
                r.append(operator.lexeme.as_str());
                r
            },
            Expr::Grouping { expression } => self.print(&**expression),
            Expr::Literal { value } => print_literal(value),
            Expr::Unary { operator, right } => {
                let mut r = self.print(&**right);
                r.append(" ");
                r.append(operator.lexeme.as_str());
                r
            },
        }
    }
}

/// Printing is idempotent: the prefix rendering is a function of the tree
/// alone, so any two renderings of the same tree are the same string.
pub proof fn lemma_prefix_print_idempotent(e: Expr, first: Seq<char>, second: Seq<char>)
    requires
        first == prefix_text(e),
        second == prefix_text(e),
    ensures
        first == second,
{
}

/// Printing is idempotent: the postfix rendering is a function of the tree
/// alone, so any two renderings of the same tree are the same string.
pub proof fn lemma_rpn_print_idempotent(e: Expr, first: Seq<char>, second: Seq<char>)
    requires
        first == rpn_text(e),
        second == rpn_text(e),
    ensures
        first == second,
{
}

} // verus!
