//! Statement parsing: `let`, `return`, blocks, expression statements, and
//! the per-statement error recovery that resynchronizes at a statement
//! boundary. Each function is proved to return exactly what the grammar
//! states for it.

use vstd::prelude::*;
use crate::ast::{Statement, StmtList};
use crate::parser::grammar::{
    ahead, list_like, opt_stmt_like, sp_block, sp_expr, sp_finish, sp_let, sp_return,
    sp_skip_semi, sp_statement, sp_stmt_dispatch, sp_stmt_list, sp_sync, within,
};
use crate::parser::{lemma_cat_assoc, lemma_cat_empty, LEVEL_0, ParseError, Parser};
use crate::token::TokenKind;

verus! {

impl Parser {
    /// Advances to the next statement boundary: a semicolon, a closing
    /// brace, or the end of input, whichever comes first.
    pub(crate) fn sync_boundary(&mut self)
        requires
            old(self).wf(),
        ensures
            final(self).toks_raw() == old(self).toks_raw(),
            final(self).toks() == old(self).toks(),
            final(self).errs() == old(self).errs(),
            final(self).wf(),
            final(self).at() >= old(self).at(),
            final(self).at() == sp_sync(old(self).toks_raw(), old(self).at()),
            final(self).cur_kind_s() == TokenKind::Semicolon || final(self).cur_kind_s()
                == TokenKind::Eof || final(self).cur_kind_s() == TokenKind::RightBrace,
            old(self).cur_kind_s() != TokenKind::Semicolon && old(self).cur_kind_s()
                != TokenKind::Eof && old(self).cur_kind_s() != TokenKind::RightBrace
                ==> final(self).at() > old(self).at(),
        decreases old(self).toks().len() - old(self).at(),
    {
        let k = self.cur_kind();
        if matches!(k, TokenKind::Semicolon | TokenKind::Eof | TokenKind::RightBrace) {
            return ;
        }
        self.advance();
        self.sync_boundary();
    }

    /// Consumes everything up to and including the statement's terminating
    /// semicolon, as the statement parsers do after their expression.
    pub(crate) fn finish_statement(&mut self)
        requires
            old(self).wf(),
        ensures
            final(self).toks_raw() == old(self).toks_raw(),
            final(self).toks() == old(self).toks(),
            final(self).errs() == old(self).errs(),
            final(self).wf(),
            final(self).at() >= old(self).at(),
            final(self).at() == sp_finish(old(self).toks_raw(), old(self).at()),
    {
        self.sync_boundary();
        let k = self.cur_kind();
        if matches!(k, TokenKind::Semicolon) {
            self.advance();
        }
    }

    /// Parses `let <name> = <expr>;`, exactly as the grammar states: the
    /// name must be an identifier and `=` must follow it, the initializer
    /// is the expression parsed after `=`, and the statement's semicolon is
    /// consumed. A missing piece is recorded as expected-versus-found.
    #[verifier::rlimit(100)]
    #[verifier::spinoff_prover]
    pub fn parse_let_statement(&mut self) -> (r: Option<Statement>)
        requires
            old(self).wf(),
            old(self).cur_kind_s() == TokenKind::Let,
        ensures
            Parser::step_ok(*old(self), *final(self)),
            r is Some ==> final(self).at() > old(self).at(),
            r is None ==> final(self).errs().len() > old(self).errs().len(),
            ({
                let m = sp_let(old(self).toks_raw(), old(self).at());
                opt_stmt_like(r, m.res) && final(self).at() == m.pos && final(self).errs()
                    == old(self).errs() + m.errs
            }),
        decreases old(self).toks().len() - old(self).at(), 3int,
    {
        let ghost raw = self.toks_raw();
        let ghost p0 = self.at();
        let let_tok = self.cur_tok();
        self.advance();
        let k = self.cur_kind();
        if !matches!(k, TokenKind::Ident) {
            let at = self.pos;
            self.push_err(ParseError::Expected { expected: TokenKind::Ident, got: k, at });
            return None;
        }
        let name_tok = self.cur_tok();
        self.advance();
        let k2 = self.cur_kind();
        if !matches!(k2, TokenKind::Assignment) {
            let at = self.pos;
            self.push_err(ParseError::Expected { expected: TokenKind::Assignment, got: k2, at });
            return None;
        }
        self.advance();
        let ghost m_v = sp_expr(raw, p0 + 3, LEVEL_0);
        let value = match self.parse_expression(LEVEL_0) {
            Some(e) => e,
            None => {
                return None;
            },
        };
        proof {
            assert(within(m_v.pos, p0, raw.len()) == m_v.pos);
        }
        self.finish_statement();
        Some(Statement::Let { tok: let_tok, name: name_tok, value })
    }

    /// Parses `return <expr>;`, exactly as the grammar states: the value is
    /// the expression parsed after `return`, and the statement's semicolon
    /// is consumed.
    pub fn parse_return_statement(&mut self) -> (r: Option<Statement>)
        requires
            old(self).wf(),
            old(self).cur_kind_s() == TokenKind::Return,
        ensures
            Parser::step_ok(*old(self), *final(self)),
            r is Some ==> final(self).at() > old(self).at(),
            r is None ==> final(self).errs().len() > old(self).errs().len(),
            r matches Some(s) ==> s matches Statement::Return { tok, value } && tok@ == old(
                self,
            ).toks()[old(self).at() as int],
            ({
                let m = sp_return(old(self).toks_raw(), old(self).at());
                opt_stmt_like(r, m.res) && final(self).at() == m.pos && final(self).errs()
                    == old(self).errs() + m.errs
            }),
        decreases old(self).toks().len() - old(self).at(), 3int,
    {
        let ghost raw = self.toks_raw();
        let ghost p0 = self.at();
        let return_tok = self.cur_tok();
        self.advance();
        let ghost m_v = sp_expr(raw, p0 + 1, LEVEL_0);
        let value = match self.parse_expression(LEVEL_0) {
            Some(e) => e,
            None => {
                return None;
            },
        };
        proof {
            assert(within(m_v.pos, p0, raw.len()) == m_v.pos);
        }
        self.finish_statement();
        Some(Statement::Return { tok: return_tok, value })
    }

    /// Parses `{ <statements>* }`, exactly as the grammar states: at a left
    /// brace the result is always the block of the statements up to the
    /// matching right brace or end-of-input, the brace consumed when
    /// present; only a missing left brace fails, and is recorded.
    pub fn parse_block_statement(&mut self) -> (r: Option<Statement>)
        requires
            old(self).wf(),
        ensures
            Parser::step_ok(*old(self), *final(self)),
            r is Some ==> final(self).at() > old(self).at(),
            r is None ==> final(self).errs().len() > old(self).errs().len(),
            r matches Some(s) ==> s matches Statement::Block { .. } && old(self).cur_kind_s()
                == TokenKind::LeftBrace,
            old(self).cur_kind_s() == TokenKind::LeftBrace ==> r is Some,
            ({
                let m = sp_block(old(self).toks_raw(), old(self).at());
                opt_stmt_like(r, m.res) && final(self).at() == m.pos && final(self).errs()
                    == old(self).errs() + m.errs
            }),
        decreases old(self).toks().len() - old(self).at(), 3int,
    {
        let ghost raw = self.toks_raw();
        let ghost p0 = self.at();
        let k = self.cur_kind();
        if !matches!(k, TokenKind::LeftBrace) {
            let at = self.pos;
            self.push_err(ParseError::Expected { expected: TokenKind::LeftBrace, got: k, at });
            return None;
        }
        let brace_tok = self.cur_tok();
        self.advance();
        let stmts = self.parse_stmt_list();
        if matches!(self.cur_kind(), TokenKind::RightBrace) {
            self.advance();
        }
        Some(Statement::Block { tok: brace_tok, stmts })
    }

    /// Parses statements until a right brace or end-of-input, in order,
    /// exactly as the grammar states; a statement that fails to parse is
    /// skipped and its errors stay recorded.
    pub(crate) fn parse_stmt_list(&mut self) -> (r: StmtList)
        requires
            old(self).wf(),
        ensures
            Parser::step_ok(*old(self), *final(self)),
            final(self).cur_kind_s() == TokenKind::RightBrace || final(self).cur_kind_s()
                == TokenKind::Eof,
            ({
                let m = sp_stmt_list(old(self).toks_raw(), old(self).at());
                list_like(r, m.list) && final(self).at() == m.pos && final(self).errs() == old(
                    self,
                ).errs() + m.errs
            }),
        decreases old(self).toks().len() - old(self).at(), 6int,
    {
        let ghost raw = self.toks_raw();
        let ghost p0 = self.at();
        let k = self.cur_kind();
        if matches!(k, TokenKind::RightBrace | TokenKind::Eof) {
            proof {
                lemma_cat_empty(old(self).errs());
            }
            return StmtList::Nil;
        }
        let ghost m_s = sp_statement(raw, p0);
        let s = self.parse_statement();
        proof {
            assert(ahead(m_s.pos, p0 + 1, raw.len()) == m_s.pos);
        }
        let ghost m_rest = sp_stmt_list(raw, m_s.pos);
        let rest = self.parse_stmt_list();
        proof {
            lemma_cat_assoc(old(self).errs(), m_s.errs, m_rest.errs);
        }
        match s {
            Some(st) => StmtList::Cons { head: Box::new(st), tail: Box::new(rest) },
            None => rest,
        }
    }

    /// Parses one statement, dispatching on the current token, exactly as
    /// the grammar states; on failure the parser has recorded an error and
    /// stands resynchronized after the next statement boundary, so that
    /// parsing always moves forward.
    /// Dispatches one statement production on the current token.
    #[verifier::rlimit(100)]
    #[verifier::spinoff_prover]
    pub(crate) fn parse_stmt_dispatch(&mut self) -> (r: Option<Statement>)
        requires
            old(self).wf(),
            old(self).cur_kind_s() != TokenKind::Eof,
            old(self).cur_kind_s() != TokenKind::RightBrace,
        ensures
            Parser::step_ok(*old(self), *final(self)),
            r is Some ==> final(self).at() > old(self).at(),
            ({
                let m = sp_stmt_dispatch(old(self).toks_raw(), old(self).at());
                opt_stmt_like(r, m.res) && final(self).at() == m.pos && final(self).errs()
                    == old(self).errs() + m.errs
            }),
        decreases old(self).toks().len() - old(self).at(), 4int,
    {
        let ghost raw = self.toks_raw();
        let ghost p0 = self.at();
        let k = self.cur_kind();
        match k {
            TokenKind::Let => self.parse_let_statement(),
            TokenKind::Return => self.parse_return_statement(),
            TokenKind::LeftBrace => self.parse_block_statement(),
            _ => {
                let t = self.cur_tok();
                let ghost m_e = sp_expr(raw, p0, LEVEL_0);
                match self.parse_expression(LEVEL_0) {
                    Some(e) => {
                        let term = self.cur_kind();
                        if matches!(term, TokenKind::Semicolon) {
                            self.advance();
                        }
                        proof {
                            assert(self.at() == sp_skip_semi(raw, m_e.pos));
                        }
                        Some(Statement::ExprStmt { tok: t, expr: e })
                    },
                    None => None,
                }
            },
        }
    }

    #[verifier::rlimit(100)]
    #[verifier::spinoff_prover]
    pub(crate) fn parse_statement(&mut self) -> (r: Option<Statement>)
        requires
            old(self).wf(),
            old(self).cur_kind_s() != TokenKind::Eof,
            old(self).cur_kind_s() != TokenKind::RightBrace,
        ensures
            Parser::step_ok(*old(self), *final(self)),
            final(self).at() > old(self).at(),
            ({
                let m = sp_statement(old(self).toks_raw(), old(self).at());
                opt_stmt_like(r, m.res) && final(self).at() == m.pos && final(self).errs()
                    == old(self).errs() + m.errs
            }),
        decreases old(self).toks().len() - old(self).at(), 5int,
    {
        let ghost raw = self.toks_raw();
        let ghost p0 = self.at();
        let ghost m_r = sp_stmt_dispatch(raw, p0);
        let r = self.parse_stmt_dispatch();
        if matches!(r, Option::None) {
            proof {
                assert(within(m_r.pos, p0, raw.len()) == m_r.pos);
            }
            self.sync_boundary();
            let sk = self.cur_kind();
            if matches!(sk, TokenKind::Semicolon) {
                self.advance();
            }
        }
        r
    }
}

} // verus!
