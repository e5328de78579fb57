//! The abstract syntax tree: closed sums for expressions and statements.
//!
//! Every node owns the token it came from, for diagnostics, and owns its
//! child nodes exclusively: the tree is strict, with no sharing.

use vstd::prelude::*;
use crate::object::Fixed;
use crate::token::{Token, TokenKind};

verus! {

/// A node that produces a value.
pub enum Expression {
    /// A name; the token's literal is the identifier text.
    Ident { tok: Token },
    /// An integer literal with its parsed value.
    IntLit { tok: Token, value: i64 },
    /// A fractional literal with its exactly parsed value.
    FloatLit { tok: Token, value: Fixed },
    /// `true` or `false`.
    BoolLit { tok: Token, value: bool },
    /// A string literal; the token's literal holds the contents.
    StrLit { tok: Token },
    /// A unary operator applied to an operand.
    Prefix { tok: Token, op: TokenKind, right: Box<Expression> },
    /// A binary operator applied to two operands.
    Infix { tok: Token, op: TokenKind, left: Box<Expression>, right: Box<Expression> },
    /// `if (cond) { ... }` with an optional alternative, which is either a
    /// block or a further `if` carried as a statement, so that `else if`
    /// chains need no grammar rule of their own.
    If {
        tok: Token,
        cond: Box<Expression>,
        consequence: Box<Statement>,
        alternative: Option<Box<Statement>>,
    },
}

/// A node that produces an effect and possibly a value.
pub enum Statement {
    /// `let <name> = <value>;`
    Let { tok: Token, name: Token, value: Expression },
    /// `return <value>;`
    Return { tok: Token, value: Expression },
    /// A bare expression standing as a statement.
    ExprStmt { tok: Token, expr: Expression },
    /// `{ ... }`: an ordered sequence of statements.
    Block { tok: Token, stmts: StmtList },
}

/// An ordered sequence of statements, as a list so that both executable
/// code and specification code can build one.
pub enum StmtList {
    Nil,
    Cons { head: Box<Statement>, tail: Box<StmtList> },
}

/// The statements of a list, in order, as a sequence.
pub open spec fn sl_seq(l: StmtList) -> Seq<Statement>
    decreases l,
{
    match l {
        StmtList::Nil => Seq::empty(),
        StmtList::Cons { head, tail } => seq![*head] + sl_seq(*tail),
    }
}

} // verus!
