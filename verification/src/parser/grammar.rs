//! The grammar, stated once: a specification-level parser over the token
//! sequence. Each function says what the parser yields at a position — the
//! node built, the position after it, and the errors recorded — and the
//! executable parser is proved to return exactly this.
//!
//! Positions handed to recursive calls are passed through `within`/`ahead`,
//! which only clip values that a real parse never produces; they are what
//! lets each function's termination stand on its own.

use vstd::prelude::*;
use crate::ast::{Expression, Statement, StmtList};
use crate::parser::{ParseError, LEVEL_0, LEVEL_PREFIX, infix_level_s, int_lit_val,
    float_lit_ok, float_lit_scaled};
use crate::object::{Fixed, in_i64};
use crate::token::{Token, TokenKind};

verus! {

/// The kind of the token at `p`; end-of-input once the buffer is spent.
pub open spec fn tkind(toks: Seq<Token>, p: nat) -> TokenKind {
    if p < toks.len() {
        toks[p as int]@.kind
    } else {
        TokenKind::Eof
    }
}

/// `p` when it lies in `[lo, len]`, else `lo`: a floor for positions that
/// never move backward.
pub open spec fn within(p: nat, lo: nat, len: nat) -> nat {
    if lo <= p <= len {
        p
    } else {
        lo
    }
}

/// `p` when it lies in `[lo, len]`, else `lo` capped at `len`: a floor for
/// positions that must have advanced.
pub open spec fn ahead(p: nat, lo: nat, len: nat) -> nat {
    if lo <= p <= len {
        p
    } else if lo <= len {
        lo
    } else {
        len
    }
}

/// What parsing an expression yields: the node, the position after it, and
/// the errors recorded.
pub struct SpExpr {
    pub res: Option<Expression>,
    pub pos: nat,
    pub errs: Seq<ParseError>,
}

/// What parsing a statement yields.
pub struct SpStmt {
    pub res: Option<Statement>,
    pub pos: nat,
    pub errs: Seq<ParseError>,
}

/// What parsing a statement list yields.
pub struct SpList {
    pub list: StmtList,
    pub pos: nat,
    pub errs: Seq<ParseError>,
}

/// What parsing a whole program yields.
pub struct SpProg {
    pub stmts: Seq<Statement>,
    pub pos: nat,
    pub errs: Seq<ParseError>,
}

/// The first statement boundary at or after `p`: a semicolon, a right
/// brace, or the end of input.
pub open spec fn sp_sync(toks: Seq<Token>, p: nat) -> nat
    decreases toks.len() - p, 0int,
{
    let k = tkind(toks, p);
    if k == TokenKind::Semicolon || k == TokenKind::Eof || k == TokenKind::RightBrace {
        p
    } else {
        sp_sync(toks, p + 1)
    }
}

/// The position after an optional semicolon at `p`.
pub open spec fn sp_skip_semi(toks: Seq<Token>, p: nat) -> nat {
    if tkind(toks, p) == TokenKind::Semicolon {
        p + 1
    } else {
        p
    }
}

/// The position after skipping to the statement boundary and consuming its
/// semicolon, when one stands there.
pub open spec fn sp_finish(toks: Seq<Token>, p: nat) -> nat
    decreases toks.len() - p, 1int,
{
    sp_skip_semi(toks, sp_sync(toks, p))
}

/// What the infix fold yields from `left` at `pos`: while the next token's
/// binding level exceeds `level`, the operator is consumed, its right
/// operand parsed at the operator's level, and both folded into an infix
/// node — which parses equal-level chains left-associatively.
pub open spec fn sp_chain(toks: Seq<Token>, pos: nat, level: u8, left: Expression) -> SpExpr
    decreases toks.len() - pos, 0int,
{
    let k = tkind(toks, pos);
    let lv = infix_level_s(k);
    if lv <= level {
        SpExpr { res: Some(left), pos, errs: Seq::empty() }
    } else {
        let t = toks[pos as int];
        let rhs = sp_expr(toks, pos + 1, lv);
        match rhs.res {
            None => SpExpr { res: None, pos: rhs.pos, errs: rhs.errs },
            Some(r) => {
                let folded = Expression::Infix {
                    op: t.kind,
                    tok: t,
                    left: Box::new(left),
                    right: Box::new(r),
                };
                let c = sp_chain(toks, ahead(rhs.pos, pos + 2, toks.len()), level, folded);
                SpExpr { res: c.res, pos: c.pos, errs: rhs.errs + c.errs }
            },
        }
    }
}

/// What parsing an expression at binding level `level` yields: a prefix
/// production, then the infix fold.
pub open spec fn sp_expr(toks: Seq<Token>, pos: nat, level: u8) -> SpExpr
    decreases toks.len() - pos, 3int,
{
    let p = sp_prefix(toks, pos);
    match p.res {
        None => p,
        Some(l) => {
            let c = sp_chain(toks, within(p.pos, pos, toks.len()), level, l);
            SpExpr { res: c.res, pos: c.pos, errs: p.errs + c.errs }
        },
    }
}

/// What parsing a prefix production yields: a literal, an identifier, a
/// unary operator, a grouped expression, or an `if` expression; any other
/// token admits no expression and is recorded as such.
pub open spec fn sp_prefix(toks: Seq<Token>, pos: nat) -> SpExpr
    decreases toks.len() - pos, 2int,
{
    let k = tkind(toks, pos);
    if k == TokenKind::IntegerNum {
        let t = toks[pos as int];
        if in_i64(int_lit_val(t.literal@)) {
            SpExpr {
                res: Some(
                    Expression::IntLit { tok: t, value: int_lit_val(t.literal@) as i64 },
                ),
                pos: pos + 1,
                errs: Seq::empty(),
            }
        } else {
            SpExpr {
                res: None,
                pos: pos + 1,
                errs: seq![ParseError::BadNumber { at: pos as usize }],
            }
        }
    } else if k == TokenKind::FloatNum {
        let t = toks[pos as int];
        if float_lit_ok(t.literal@) {
            SpExpr {
                res: Some(
                    Expression::FloatLit {
                        tok: t,
                        value: Fixed { n: float_lit_scaled(t.literal@) as i64 },
                    },
                ),
                pos: pos + 1,
                errs: Seq::empty(),
            }
        } else {
            SpExpr {
                res: None,
                pos: pos + 1,
                errs: seq![ParseError::BadNumber { at: pos as usize }],
            }
        }
    } else if k == TokenKind::True {
        SpExpr {
            res: Some(Expression::BoolLit { tok: toks[pos as int], value: true }),
            pos: pos + 1,
            errs: Seq::empty(),
        }
    } else if k == TokenKind::False {
        SpExpr {
            res: Some(Expression::BoolLit { tok: toks[pos as int], value: false }),
            pos: pos + 1,
            errs: Seq::empty(),
        }
    } else if k == TokenKind::Str {
        SpExpr {
            res: Some(Expression::StrLit { tok: toks[pos as int] }),
            pos: pos + 1,
            errs: Seq::empty(),
        }
    } else if k == TokenKind::Ident {
        SpExpr {
            res: Some(Expression::Ident { tok: toks[pos as int] }),
            pos: pos + 1,
            errs: Seq::empty(),
        }
    } else if k == TokenKind::Not || k == TokenKind::Minus {
        let t = toks[pos as int];
        let sub = sp_expr(toks, pos + 1, LEVEL_PREFIX);
        match sub.res {
            Some(e) => SpExpr {
                res: Some(Expression::Prefix { op: t.kind, tok: t, right: Box::new(e) }),
                pos: sub.pos,
                errs: sub.errs,
            },
            None => SpExpr { res: None, pos: sub.pos, errs: sub.errs },
        }
    } else if k == TokenKind::LeftParen {
        let sub = sp_expr(toks, pos + 1, LEVEL_0);
        match sub.res {
            None => sub,
            Some(e) => if tkind(toks, sub.pos) == TokenKind::RightParen {
                SpExpr { res: Some(e), pos: sub.pos + 1, errs: sub.errs }
            } else {
                SpExpr {
                    res: None,
                    pos: sub.pos,
                    errs: sub.errs + seq![
                        ParseError::Expected {
                            expected: TokenKind::RightParen,
                            got: tkind(toks, sub.pos),
                            at: sub.pos as usize,
                        },
                    ],
                }
            },
        }
    } else if k == TokenKind::If {
        sp_if(toks, pos)
    } else {
        SpExpr {
            res: None,
            pos,
            errs: seq![ParseError::NoPrefix { got: k, at: pos as usize }],
        }
    }
}

/// What parsing an `if` expression yields: the parenthesized condition, the
/// mandatory consequence block, and the optional alternative — a block, or
/// a nested `if` carried as a statement.
pub open spec fn sp_if(toks: Seq<Token>, pos: nat) -> SpExpr
    decreases toks.len() - pos, 1int,
{
    if tkind(toks, pos) != TokenKind::If {
        SpExpr { res: None, pos, errs: Seq::empty() }
    } else {
        let t = toks[pos as int];
        if tkind(toks, pos + 1) != TokenKind::LeftParen {
            SpExpr {
                res: None,
                pos: pos + 1,
                errs: seq![
                    ParseError::Expected {
                        expected: TokenKind::LeftParen,
                        got: tkind(toks, pos + 1),
                        at: (pos + 1) as usize,
                    },
                ],
            }
        } else {
            let cond = sp_expr(toks, pos + 2, LEVEL_0);
            match cond.res {
                None => SpExpr { res: None, pos: cond.pos, errs: cond.errs },
                Some(c) => if tkind(toks, cond.pos) != TokenKind::RightParen {
                    SpExpr {
                        res: None,
                        pos: cond.pos,
                        errs: cond.errs + seq![
                            ParseError::Expected {
                                expected: TokenKind::RightParen,
                                got: tkind(toks, cond.pos),
                                at: cond.pos as usize,
                            },
                        ],
                    }
                } else {
                    let bp = ahead(cond.pos + 1, pos + 1, toks.len());
                    if tkind(toks, bp) != TokenKind::LeftBrace {
                        SpExpr {
                            res: None,
                            pos: bp,
                            errs: cond.errs + seq![
                                ParseError::Expected {
                                    expected: TokenKind::LeftBrace,
                                    got: tkind(toks, bp),
                                    at: bp as usize,
                                },
                            ],
                        }
                    } else {
                        let blk = sp_block(toks, bp);
                        match blk.res {
                            None => SpExpr {
                                res: None,
                                pos: blk.pos,
                                errs: cond.errs + blk.errs,
                            },
                            Some(bs) => if tkind(toks, blk.pos) == TokenKind::Else {
                                let ep = ahead(blk.pos + 1, pos + 1, toks.len());
                                if tkind(toks, ep) == TokenKind::If {
                                    let sub = sp_if(toks, ep);
                                    match sub.res {
                                        None => SpExpr {
                                            res: None,
                                            pos: sub.pos,
                                            errs: cond.errs + blk.errs + sub.errs,
                                        },
                                        Some(e2) => SpExpr {
                                            res: Some(
                                                Expression::If {
                                                    tok: t,
                                                    cond: Box::new(c),
                                                    consequence: Box::new(bs),
                                                    alternative: Some(
                                                        Box::new(
                                                            Statement::ExprStmt {
                                                                tok: toks[ep as int],
                                                                expr: e2,
                                                            },
                                                        ),
                                                    ),
                                                },
                                            ),
                                            pos: sub.pos,
                                            errs: cond.errs + blk.errs + sub.errs,
                                        },
                                    }
                                } else if tkind(toks, ep) == TokenKind::LeftBrace {
                                    let b2 = sp_block(toks, ep);
                                    match b2.res {
                                        None => SpExpr {
                                            res: None,
                                            pos: b2.pos,
                                            errs: cond.errs + blk.errs + b2.errs,
                                        },
                                        Some(a2) => SpExpr {
                                            res: Some(
                                                Expression::If {
                                                    tok: t,
                                                    cond: Box::new(c),
                                                    consequence: Box::new(bs),
                                                    alternative: Some(Box::new(a2)),
                                                },
                                            ),
                                            pos: b2.pos,
                                            errs: cond.errs + blk.errs + b2.errs,
                                        },
                                    }
                                } else {
                                    SpExpr {
                                        res: None,
                                        pos: ep,
                                        errs: cond.errs + blk.errs + seq![
                                            ParseError::Expected {
                                                expected: TokenKind::LeftBrace,
                                                got: tkind(toks, ep),
                                                at: ep as usize,
                                            },
                                        ],
                                    }
                                }
                            } else {
                                SpExpr {
                                    res: Some(
                                        Expression::If {
                                            tok: t,
                                            cond: Box::new(c),
                                            consequence: Box::new(bs),
                                            alternative: None,
                                        },
                                    ),
                                    pos: blk.pos,
                                    errs: cond.errs + blk.errs,
                                }
                            },
                        }
                    }
                },
            }
        }
    }
}

/// What parsing `let <name> = <expr>;` yields. The name must be an
/// identifier and the assignment sign must follow it; after the
/// initializer, everything up to and including the statement's semicolon
/// is consumed.
pub open spec fn sp_let(toks: Seq<Token>, pos: nat) -> SpStmt
    decreases toks.len() - pos, 4int,
{
    if tkind(toks, pos) != TokenKind::Let {
        SpStmt { res: None, pos, errs: Seq::empty() }
    } else if tkind(toks, pos + 1) != TokenKind::Ident {
        SpStmt {
            res: None,
            pos: pos + 1,
            errs: seq![
                ParseError::Expected {
                    expected: TokenKind::Ident,
                    got: tkind(toks, pos + 1),
                    at: (pos + 1) as usize,
                },
            ],
        }
    } else if tkind(toks, pos + 2) != TokenKind::Assignment {
        SpStmt {
            res: None,
            pos: pos + 2,
            errs: seq![
                ParseError::Expected {
                    expected: TokenKind::Assignment,
                    got: tkind(toks, pos + 2),
                    at: (pos + 2) as usize,
                },
            ],
        }
    } else {
        let v = sp_expr(toks, pos + 3, LEVEL_0);
        match v.res {
            None => SpStmt { res: None, pos: v.pos, errs: v.errs },
            Some(e) => SpStmt {
                res: Some(
                    Statement::Let {
                        tok: toks[pos as int],
                        name: toks[pos as int + 1],
                        value: e,
                    },
                ),
                pos: sp_finish(toks, within(v.pos, pos, toks.len())),
                errs: v.errs,
            },
        }
    }
}

/// What parsing `return <expr>;` yields: the expression after `return`,
/// then everything up to and including the statement's semicolon.
pub open spec fn sp_return(toks: Seq<Token>, pos: nat) -> SpStmt
    decreases toks.len() - pos, 4int,
{
    if tkind(toks, pos) != TokenKind::Return {
        SpStmt { res: None, pos, errs: Seq::empty() }
    } else {
        let v = sp_expr(toks, pos + 1, LEVEL_0);
        match v.res {
            None => SpStmt { res: None, pos: v.pos, errs: v.errs },
            Some(e) => SpStmt {
                res: Some(Statement::Return { tok: toks[pos as int], value: e }),
                pos: sp_finish(toks, within(v.pos, pos, toks.len())),
                errs: v.errs,
            },
        }
    }
}

/// What parsing `{ <statements>* }` yields: the statements up to the
/// matching right brace or end-of-input, the brace consumed when present.
/// A missing opening brace is recorded and nothing is parsed.
pub open spec fn sp_block(toks: Seq<Token>, pos: nat) -> SpStmt
    decreases toks.len() - pos, 4int,
{
    if tkind(toks, pos) != TokenKind::LeftBrace {
        SpStmt {
            res: None,
            pos,
            errs: seq![
                ParseError::Expected {
                    expected: TokenKind::LeftBrace,
                    got: tkind(toks, pos),
                    at: pos as usize,
                },
            ],
        }
    } else {
        let bl = sp_stmt_list(toks, pos + 1);
        let p2 = if tkind(toks, bl.pos) == TokenKind::RightBrace {
            bl.pos + 1
        } else {
            bl.pos
        };
        SpStmt {
            res: Some(Statement::Block { tok: toks[pos as int], stmts: bl.list }),
            pos: p2,
            errs: bl.errs,
        }
    }
}

/// What parsing statements until a right brace or end-of-input yields, in
/// order; a statement that fails to parse is skipped, its errors kept.
pub open spec fn sp_stmt_list(toks: Seq<Token>, pos: nat) -> SpList
    decreases toks.len() - pos, 7int,
{
    let k = tkind(toks, pos);
    if k == TokenKind::RightBrace || k == TokenKind::Eof {
        SpList { list: StmtList::Nil, pos, errs: Seq::empty() }
    } else {
        let s = sp_statement(toks, pos);
        let rest = sp_stmt_list(toks, ahead(s.pos, pos + 1, toks.len()));
        SpList {
            list: match s.res {
                Some(st) => StmtList::Cons { head: Box::new(st), tail: Box::new(rest.list) },
                None => rest.list,
            },
            pos: rest.pos,
            errs: s.errs + rest.errs,
        }
    }
}

/// What parsing one statement yields: dispatch on the current token — `let`,
/// `return`, a block, or an expression statement with its optional
/// terminating semicolon. On failure the parser stands resynchronized after
/// the next statement boundary.
pub open spec fn sp_stmt_dispatch(toks: Seq<Token>, pos: nat) -> SpStmt
    decreases toks.len() - pos, 5int,
{
    let k = tkind(toks, pos);
    if k == TokenKind::Let {
        sp_let(toks, pos)
    } else if k == TokenKind::Return {
        sp_return(toks, pos)
    } else if k == TokenKind::LeftBrace {
        sp_block(toks, pos)
    } else {
        let e = sp_expr(toks, pos, LEVEL_0);
        match e.res {
            Some(ex) => SpStmt {
                res: Some(Statement::ExprStmt { tok: toks[pos as int], expr: ex }),
                pos: sp_skip_semi(toks, e.pos),
                errs: e.errs,
            },
            None => SpStmt { res: None, pos: e.pos, errs: e.errs },
        }
    }
}

/// What parsing one statement yields: the dispatched production; on its
/// failure the parser stands resynchronized after the next statement
/// boundary.
pub open spec fn sp_statement(toks: Seq<Token>, pos: nat) -> SpStmt
    decreases toks.len() - pos, 6int,
{
    let r = sp_stmt_dispatch(toks, pos);
    if r.res is None {
        SpStmt {
            res: None,
            pos: sp_finish(toks, within(r.pos, pos, toks.len())),
            errs: r.errs,
        }
    } else {
        r
    }
}

/// What parsing the whole input yields: the top-level statements in order,
/// until end-of-input. A stray right brace is recorded and skipped; a
/// statement that fails to parse is skipped, its errors kept.
pub open spec fn sp_program(toks: Seq<Token>, pos: nat) -> SpProg
    decreases toks.len() - pos, 8int,
{
    let k = tkind(toks, pos);
    if k == TokenKind::Eof {
        SpProg { stmts: Seq::empty(), pos, errs: Seq::empty() }
    } else if k == TokenKind::RightBrace {
        let rest = sp_program(toks, pos + 1);
        SpProg {
            stmts: rest.stmts,
            pos: rest.pos,
            errs: seq![ParseError::NoPrefix { got: k, at: pos as usize }] + rest.errs,
        }
    } else {
        let s = sp_statement(toks, pos);
        let rest = sp_program(toks, ahead(s.pos, pos + 1, toks.len()));
        SpProg {
            stmts: match s.res {
                Some(st) => seq![st] + rest.stmts,
                None => rest.stmts,
            },
            pos: rest.pos,
            errs: s.errs + rest.errs,
        }
    }
}

// ---------------------------------------------------------------------------
// Node congruence
// ---------------------------------------------------------------------------
//
// The executable parser copies each token out of the buffer, so the nodes it
// builds carry copies whose literal vectors are fresh. Two nodes are alike
// when they agree everywhere, with tokens compared by view.

/// Two expressions that agree everywhere, tokens compared by view.
pub open spec fn expr_like(a: Expression, b: Expression) -> bool
    decreases a,
{
    match (a, b) {
        (Expression::Ident { tok: t1 }, Expression::Ident { tok: t2 }) => t1@ == t2@,
        (
            Expression::IntLit { tok: t1, value: v1 },
            Expression::IntLit { tok: t2, value: v2 },
        ) => t1@ == t2@ && v1 == v2,
        (
            Expression::FloatLit { tok: t1, value: v1 },
            Expression::FloatLit { tok: t2, value: v2 },
        ) => t1@ == t2@ && v1 == v2,
        (
            Expression::BoolLit { tok: t1, value: v1 },
            Expression::BoolLit { tok: t2, value: v2 },
        ) => t1@ == t2@ && v1 == v2,
        (Expression::StrLit { tok: t1 }, Expression::StrLit { tok: t2 }) => t1@ == t2@,
        (
            Expression::Prefix { tok: t1, op: o1, right: r1 },
            Expression::Prefix { tok: t2, op: o2, right: r2 },
        ) => t1@ == t2@ && o1 == o2 && expr_like(*r1, *r2),
        (
            Expression::Infix { tok: t1, op: o1, left: l1, right: r1 },
            Expression::Infix { tok: t2, op: o2, left: l2, right: r2 },
        ) => t1@ == t2@ && o1 == o2 && expr_like(*l1, *l2) && expr_like(*r1, *r2),
        (
            Expression::If { tok: t1, cond: c1, consequence: q1, alternative: a1 },
            Expression::If { tok: t2, cond: c2, consequence: q2, alternative: a2 },
        ) => t1@ == t2@ && expr_like(*c1, *c2) && stmt_like(*q1, *q2) && match (a1, a2) {
            (None, None) => true,
            (Some(x), Some(y)) => stmt_like(*x, *y),
            _ => false,
        },
        _ => false,
    }
}

/// Two statements that agree everywhere, tokens compared by view.
pub open spec fn stmt_like(a: Statement, b: Statement) -> bool
    decreases a,
{
    match (a, b) {
        (
            Statement::Let { tok: t1, name: n1, value: v1 },
            Statement::Let { tok: t2, name: n2, value: v2 },
        ) => t1@ == t2@ && n1@ == n2@ && expr_like(v1, v2),
        (
            Statement::Return { tok: t1, value: v1 },
            Statement::Return { tok: t2, value: v2 },
        ) => t1@ == t2@ && expr_like(v1, v2),
        (
            Statement::ExprStmt { tok: t1, expr: e1 },
            Statement::ExprStmt { tok: t2, expr: e2 },
        ) => t1@ == t2@ && expr_like(e1, e2),
        (
            Statement::Block { tok: t1, stmts: s1 },
            Statement::Block { tok: t2, stmts: s2 },
        ) => t1@ == t2@ && list_like(s1, s2),
        _ => false,
    }
}

/// Two statement lists that agree element-wise.
pub open spec fn list_like(a: StmtList, b: StmtList) -> bool
    decreases a,
{
    match (a, b) {
        (StmtList::Nil, StmtList::Nil) => true,
        (
            StmtList::Cons { head: h1, tail: u1 },
            StmtList::Cons { head: h2, tail: u2 },
        ) => stmt_like(*h1, *h2) && list_like(*u1, *u2),
        _ => false,
    }
}

/// Two optional expressions that agree: both absent, or both present and
/// alike.
pub open spec fn opt_expr_like(a: Option<Expression>, b: Option<Expression>) -> bool {
    match (a, b) {
        (None, None) => true,
        (Some(x), Some(y)) => expr_like(x, y),
        _ => false,
    }
}

/// Two optional statements that agree: both absent, or both present and
/// alike.
pub open spec fn opt_stmt_like(a: Option<Statement>, b: Option<Statement>) -> bool {
    match (a, b) {
        (None, None) => true,
        (Some(x), Some(y)) => stmt_like(x, y),
        _ => false,
    }
}

} // verus!
