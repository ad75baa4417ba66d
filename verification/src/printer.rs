//! The AST printer: renders expressions and statements in a canonical
//! parenthesized prefix form, specified by [`print_expr`] and
//! [`print_stmt`]. Grouping prints as its own node, so the canonical form
//! of a program determines its structure.
use crate::expr::Expr;
use crate::stmt::Stmt;
use crate::text::{append_chars, append_str};
use crate::token::{display_of, Value, ValueView};
use vstd::prelude::*;

verus! {

/// The canonical parenthesized form of an expression: each operator node
/// shows as `(op operands...)` with the operator's source text as `op`, a
/// grouping as `(group e)`, a variable reference as `(var name)`, an
/// assignment as `(assign name e)`, and a literal as its display form —
/// except `nil`, which shows as the word "nil".
pub open spec fn print_expr(e: Expr) -> Seq<char>
    decreases e,
{
    match e {
        Expr::Assign { name, value } => "(assign "@ + name.lexeme@ + " "@ + print_expr(*value)
            + ")"@,
        Expr::Binary { left, operator, right } => "("@ + operator.lexeme@ + " "@ + print_expr(
            *left,
        ) + " "@ + print_expr(*right) + ")"@,
        Expr::Grouping { expression } => "(group "@ + print_expr(*expression) + ")"@,
        Expr::Literal { value } => match value@ {
            ValueView::Null => "nil"@,
            v => display_of(v),
        },
        Expr::Logical { left, operator, right } => "("@ + operator.lexeme@ + " "@ + print_expr(
            *left,
        ) + " "@ + print_expr(*right) + ")"@,
        Expr::Unary { operator, right } => "("@ + operator.lexeme@ + " "@ + print_expr(*right)
            + ")"@,
        Expr::Variable { token } => "(var "@ + token.lexeme@ + ")"@,
        Expr::Comma { left, right } => "(, "@ + print_expr(*left) + " "@ + print_expr(*right)
            + ")"@,
        Expr::Ternary { condition, left, right } => "(? "@ + print_expr(*condition) + " "@
            + print_expr(*left) + " "@ + print_expr(*right) + ")"@,
    }
}

/// The canonical parenthesized form of a statement.
pub open spec fn print_stmt(s: Stmt) -> Seq<char>
    decreases s,
{
    match s {
        Stmt::Block { statements } => "(block "@ + print_stmts(statements@) + ")"@,
        Stmt::Expression { expression } => print_expr(expression),
        Stmt::If { condition, then_branch, else_branch } => match else_branch {
            Some(eb) => "(if "@ + print_expr(condition) + " then "@ + print_stmt(*then_branch)
                + " else "@ + print_stmt(*eb) + ")"@,
            None => "(if "@ + print_expr(condition) + " then "@ + print_stmt(*then_branch) + ")"@,
        },
        Stmt::Print { expression } => "(print "@ + print_expr(expression) + ")"@,
        Stmt::VarDecl { name, initializer } => match initializer {
            Some(e) => "(declare "@ + name.lexeme@ + " "@ + print_expr(e) + ")"@,
            None => "(declare "@ + name.lexeme@ + ")"@,
        },
        Stmt::While { condition, body } => "(while "@ + print_expr(condition) + " "@ + print_stmt(
            *body,
        ) + ")"@,
    }
}

/// The canonical forms of a statement sequence, separated by single spaces.
pub open spec fn print_stmts(ss: Seq<Stmt>) -> Seq<char>
    decreases ss,
{
    if ss.len() == 0 {
        Seq::empty()
    } else if ss.len() == 1 {
        print_stmt(ss.last())
    } else {
        print_stmts(ss.drop_last()) + " "@ + print_stmt(ss.last())
    }
}

/// Renders programs in the canonical parenthesized form, one line per
/// statement, instead of interpreting them.
pub struct AstPrinter {
    pub output: Vec<Vec<char>>,
}

impl AstPrinter {
    /// A printer with no lines rendered yet.
    pub fn new() -> (r: AstPrinter)
        ensures
            r.output@.len() == 0,
    {
        AstPrinter { output: Vec::new() }
    }

    /// Renders one expression in its canonical form.
    pub fn visit_expr(&self, expr: &Expr) -> (r: Vec<char>)
        ensures
            r@ == print_expr(*expr),
        decreases *expr,
    {
        let mut out: Vec<char> = Vec::new();
        match expr {
            Expr::Assign { name, value } => {
                append_str(&mut out, "(assign ");
                append_chars(&mut out, &name.lexeme);
                append_str(&mut out, " ");
                let v = self.visit_expr(value);
                append_chars(&mut out, &v);
                append_str(&mut out, ")");
            },
            Expr::Binary { left, operator, right } => {
                append_str(&mut out, "(");
                append_chars(&mut out, &operator.lexeme);
                append_str(&mut out, " ");
                let l = self.visit_expr(left);
                append_chars(&mut out, &l);
                append_str(&mut out, " ");
                let r2 = self.visit_expr(right);
                append_chars(&mut out, &r2);
                append_str(&mut out, ")");
            },
            Expr::Grouping { expression } => {
                append_str(&mut out, "(group ");
                let inner = self.visit_expr(expression);
                append_chars(&mut out, &inner);
                append_str(&mut out, ")");
            },
            Expr::Literal { value } => {
                match value {
                    Value::Null => {
                        append_str(&mut out, "nil");
                    },
                    v => {
                        let shown = v.display();
                        append_chars(&mut out, &shown);
                    },
                }
            },
            Expr::Logical { left, operator, right } => {
                append_str(&mut out, "(");
                append_chars(&mut out, &operator.lexeme);
                append_str(&mut out, " ");
                let l = self.visit_expr(left);
                append_chars(&mut out, &l);
                append_str(&mut out, " ");
                let r2 = self.visit_expr(right);
                append_chars(&mut out, &r2);
                append_str(&mut out, ")");
            },
            Expr::Unary { operator, right } => {
                append_str(&mut out, "(");
                append_chars(&mut out, &operator.lexeme);
                append_str(&mut out, " ");
                let r2 = self.visit_expr(right);
                append_chars(&mut out, &r2);
                append_str(&mut out, ")");
            },
            Expr::Variable { token } => {
                append_str(&mut out, "(var ");
                append_chars(&mut out, &token.lexeme);
                append_str(&mut out, ")");
            },
            Expr::Comma { left, right } => {
                append_str(&mut out, "(, ");
                let l = self.visit_expr(left);
                append_chars(&mut out, &l);
                append_str(&mut out, " ");
                let r2 = self.visit_expr(right);
                append_chars(&mut out, &r2);
                append_str(&mut out, ")");
            },
            Expr::Ternary { condition, left, right } => {
                append_str(&mut out, "(? ");
                let c = self.visit_expr(condition);
                append_chars(&mut out, &c);
                append_str(&mut out, " ");
                let l = self.visit_expr(left);
                append_chars(&mut out, &l);
                append_str(&mut out, " ");
                let r2 = self.visit_expr(right);
                append_chars(&mut out, &r2);
                append_str(&mut out, ")");
            },
        }
        out
    }

    /// Renders one statement in its canonical form.
    pub fn visit_stmt(&self, stmt: &Stmt) -> (r: Vec<char>)
        ensures
            r@ == print_stmt(*stmt),
        decreases *stmt,
    {
        let mut out: Vec<char> = Vec::new();
        match stmt {
            Stmt::Block { statements } => {
                append_str(&mut out, "(block ");
                let mut i: usize = 0;
                while i < statements.len()
                    invariant
                        i <= statements@.len(),
                        decreases_to!(*stmt => statements@),
                        out@ == "(block "@ + print_stmts(statements@.take(i as int)),
                    decreases statements@.len() - i,
                {
                    if i > 0 {
                        append_str(&mut out, " ");
                    }
                    let rendered = self.visit_stmt(&statements[i]);
                    append_chars(&mut out, &rendered);
                    i = i + 1;
                    proof {
                        let t = statements@.take(i as int);
                        assert(t.last() == statements@[i - 1]);
                        assert(t.drop_last() =~= statements@.take(i as int - 1));
                    }
                }
                proof {
                    assert(statements@.take(statements@.len() as int) =~= statements@);
                }
                append_str(&mut out, ")");
            },
            Stmt::Expression { expression } => {
                let rendered = self.visit_expr(expression);
                append_chars(&mut out, &rendered);
            },
            Stmt::If { condition, then_branch, else_branch } => {
                append_str(&mut out, "(if ");
                let c = self.visit_expr(condition);
                append_chars(&mut out, &c);
                append_str(&mut out, " then ");
                let t = self.visit_stmt(then_branch);
                append_chars(&mut out, &t);
                match else_branch {
                    Some(eb) => {
                        append_str(&mut out, " else ");
                        let e = self.visit_stmt(eb);
                        append_chars(&mut out, &e);
                        append_str(&mut out, ")");
                    },
                    None => {
                        append_str(&mut out, ")");
                    },
                }
            },
            Stmt::Print { expression } => {
                append_str(&mut out, "(print ");
                let rendered = self.visit_expr(expression);
                append_chars(&mut out, &rendered);
                append_str(&mut out, ")");
            },
            Stmt::VarDecl { name, initializer } => {
                append_str(&mut out, "(declare ");
                append_chars(&mut out, &name.lexeme);
                match initializer {
                    Some(e) => {
                        append_str(&mut out, " ");
                        let rendered = self.visit_expr(e);
                        append_chars(&mut out, &rendered);
                        append_str(&mut out, ")");
                    },
                    None => {
                        append_str(&mut out, ")");
                    },
                }
            },
            Stmt::While { condition, body } => {
                append_str(&mut out, "(while ");
                let c = self.visit_expr(condition);
                append_chars(&mut out, &c);
                append_str(&mut out, " ");
                let b = self.visit_stmt(body);
                append_chars(&mut out, &b);
                append_str(&mut out, ")");
            },
        }
        out
    }

    /// Renders a program: one line per statement, in order, appended to the
    /// printer's output.
    pub fn interpret(&mut self, statements: &Vec<Stmt>)
        ensures
            final(self).output@.len() == old(self).output@.len() + statements@.len(),
            forall|k: int|
                0 <= k < old(self).output@.len() ==> final(self).output@[k] == old(self).output@[k],
            forall|k: int|
                0 <= k < statements@.len() ==> #[trigger] final(self).output@[old(
                    self,
                ).output@.len() + k]@ == print_stmt(statements@[k]),
    {
        let mut i: usize = 0;
        while i < statements.len()
            invariant
                i <= statements@.len(),
                self.output@.len() == old(self).output@.len() + i,
                forall|k: int|
                    0 <= k < old(self).output@.len() ==> self.output@[k] == old(self).output@[k],
                forall|k: int|
                    0 <= k < i ==> #[trigger] self.output@[old(self).output@.len() + k]@
                        == print_stmt(statements@[k]),
            decreases statements@.len() - i,
        {
            let rendered = self.visit_stmt(&statements[i]);
            self.output.push(rendered);
            i = i + 1;
        }
    }
}

} // verus!
