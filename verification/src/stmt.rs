//! Statements.

use vstd::prelude::*;
use crate::expr::{Expr, ExprView};
use crate::token_type::{Token, TokenView};

verus! {

/// A statement. Each node carries the identity that the parser gave it.
#[derive(Debug)]
pub enum Stmt {
    /// Evaluate the expression for its effect and discard the result.
    Expression { id: usize, expression: Expr },
    /// Evaluate the expression and emit its textual form.
    Print { id: usize, expression: Expr },
    /// Bind `name` to the value of `initializer`.
    Var { id: usize, name: Token, initializer: Expr },
}

/// The mathematical content of a [`Stmt`].
pub enum StmtView {
    Expression { id: nat, expression: ExprView },
    Print { id: nat, expression: ExprView },
    Var { id: nat, name: TokenView, initializer: ExprView },
}

impl Clone for Stmt {
    fn clone(&self) -> (copy: Self)
        ensures
            copy == *self,
    {
        match self {
            Stmt::Expression { id, expression } => Stmt::Expression {
                id: *id,
                expression: expression.clone(),
            },
            Stmt::Print { id, expression } => Stmt::Print { id: *id, expression: expression.clone() },
            Stmt::Var { id, name, initializer } => Stmt::Var {
                id: *id,
                name: name.clone(),
                initializer: initializer.clone(),
            },
        }
    }
}

impl View for Stmt {
    type V = StmtView;

    open spec fn view(&self) -> StmtView {
        match self {
            Stmt::Expression { id, expression } => StmtView::Expression {
                id: *id as nat,
                expression: expression@,
            },
            Stmt::Print { id, expression } => StmtView::Print {
                id: *id as nat,
                expression: expression@,
            },
            Stmt::Var { id, name, initializer } => StmtView::Var {
                id: *id as nat,
                name: name@,
                initializer: initializer@,
            },
        }
    }
}

impl StmtView {
    /// The expression that the statement evaluates.
    pub open spec fn expression(self) -> ExprView {
        match self {
            StmtView::Expression { expression, .. } => expression,
            StmtView::Print { expression, .. } => expression,
            StmtView::Var { initializer, .. } => initializer,
        }
    }

    /// The identity of the statement.
    pub open spec fn id(self) -> nat {
        match self {
            StmtView::Expression { id, .. } => id,
            StmtView::Print { id, .. } => id,
            StmtView::Var { id, .. } => id,
        }
    }

    /// The identities of the nodes of the statement: those of its
    /// expression, then its own.
    pub open spec fn ids(self) -> Seq<nat> {
        self.expression().ids().push(self.id())
    }
}

/// The identities of the nodes of the statements, statement after statement.
pub open spec fn program_ids(stmts: Seq<StmtView>) -> Seq<nat>
    decreases stmts.len(),
{
    if stmts.len() == 0 {
        Seq::empty()
    } else {
        stmts[0].ids() + program_ids(stmts.skip(1))
    }
}

/// The views of a sequence of statements, in order.
pub open spec fn stmt_views(stmts: Seq<Stmt>) -> Seq<StmtView> {
    stmts.map_values(|s: Stmt| s@)
}

} // verus!
